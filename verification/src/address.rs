//! Accounts and contract code identities.
use vstd::prelude::*;

verus! {

/// An account or contract. Contracts only ever compare addresses, so the host
/// hands each distinct one a number.
#[derive(Clone, Copy, Debug, PartialEq, Eq, Structural)]
pub struct Address {
    pub id: u64,
}

/// The hash under which uploaded contract code is known to the host.
#[derive(Clone, Copy, Debug, PartialEq, Eq)]
pub struct WasmHash {
    pub bytes: [u8; 32],
}

} // verus!
