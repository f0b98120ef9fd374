//! State of the token contract and the meaning of each of its entry points.
use crate::address::{Address, WasmHash};
use crate::env::{Effect, Event, Ledger, Outcome};
use crate::sums::sum;
use crate::table::{find, lookup, Table};
use vstd::prelude::*;

verus! {

/// Identifies the interface this contract offers to its callers. Non-zero
/// means that a version is declared; 0 means an uncoordinated deployment.
pub const INTERFACE_VERSION: u32 = 1;

#[derive(Clone, Copy, Debug, PartialEq, Eq, PartialOrd, Ord, Structural)]
pub enum TokenError {
    AlreadyInitialized,
    NotInitialized,
    UnauthorizedMinter,
    InsufficientBalance,
    InvalidAmount,
    NotAdmin,
    MaxSupplyExceeded,
    /// An attempt to set the supply ceiling below the current total supply.
    CapBelowCurrentSupply,
    /// An attempt to raise a supply ceiling that was already declared.
    CapTooHigh,
    InsufficientAllowance,
    InvalidExpirationLedger,
    ContractPaused,
    /// The address is an authorized minter already.
    AlreadyMinter,
    /// The address is no authorized minter.
    NotMinter,
}

impl TokenError {
    /// The number under which the error is reported to callers.
    pub open spec fn number(self) -> u32 {
        match self {
            TokenError::AlreadyInitialized => 1,
            TokenError::NotInitialized => 2,
            TokenError::UnauthorizedMinter => 3,
            TokenError::InsufficientBalance => 4,
            TokenError::InvalidAmount => 5,
            TokenError::NotAdmin => 6,
            TokenError::MaxSupplyExceeded => 7,
            TokenError::CapBelowCurrentSupply => 8,
            TokenError::CapTooHigh => 9,
            TokenError::InsufficientAllowance => 10,
            TokenError::InvalidExpirationLedger => 11,
            TokenError::ContractPaused => 12,
            TokenError::AlreadyMinter => 13,
            TokenError::NotMinter => 14,
        }
    }

    pub fn code(self) -> (n: u32)
        ensures
            n == self.number(),
    {
        match self {
            TokenError::AlreadyInitialized => 1,
            TokenError::NotInitialized => 2,
            TokenError::UnauthorizedMinter => 3,
            TokenError::InsufficientBalance => 4,
            TokenError::InvalidAmount => 5,
            TokenError::NotAdmin => 6,
            TokenError::MaxSupplyExceeded => 7,
            TokenError::CapBelowCurrentSupply => 8,
            TokenError::CapTooHigh => 9,
            TokenError::InsufficientAllowance => 10,
            TokenError::InvalidExpirationLedger => 11,
            TokenError::ContractPaused => 12,
            TokenError::AlreadyMinter => 13,
            TokenError::NotMinter => 14,
        }
    }
}

/// Names of the stored entries.
#[derive(Clone, Copy, Debug, PartialEq, Eq)]
pub enum DataKey {
    Admin,
    AuthorizedMinter(Address),
    Balance(Address),
    MinterList,
    TotalSupply,
    Name,
    Symbol,
    Decimals,
    InterfaceVersion,
    /// Hard ceiling on the total supply, enforced when minting.
    MaxSupply,
    Allowance(Address, Address),
    Paused,
}

#[derive(Clone, Copy, Debug, PartialEq, Eq)]
pub struct AllowanceValue {
    pub amount: i128,
    /// The last ledger on which the allowance can be spent.
    pub expiration_ledger: u32,
}

/// The token contract's storage. An absent entry is `None` or not in its table.
#[derive(Clone, Debug)]
pub struct PULSETokenContract {
    pub admin: Option<Address>,
    pub name: Option<String>,
    pub symbol: Option<String>,
    pub decimals: Option<u32>,
    pub total_supply: Option<i128>,
    /// The ceiling on the total supply, once one was declared.
    pub max_supply: Option<i128>,
    pub interface_version: Option<u32>,
    pub paused: Option<bool>,
    pub minters: Table<Address, bool>,
    /// The authorized minters, in the order in which they were authorized.
    pub minter_list: Vec<Address>,
    pub balances: Table<Address, i128>,
    pub allowances: Table<(Address, Address), AllowanceValue>,
}

/// The meaning of [`PULSETokenContract`].
#[verifier::ext_equal]
pub struct TokenState {
    pub admin: Option<Address>,
    pub name: Option<Seq<char>>,
    pub symbol: Option<Seq<char>>,
    pub decimals: Option<u32>,
    pub total_supply: Option<i128>,
    pub max_supply: Option<i128>,
    pub interface_version: Option<u32>,
    pub paused: Option<bool>,
    pub minters: Map<Address, bool>,
    pub minter_list: Seq<Address>,
    pub balances: Map<Address, i128>,
    pub allowances: Map<(Address, Address), AllowanceValue>,
}

pub open spec fn text(s: Option<String>) -> Option<Seq<char>> {
    match s {
        Some(s) => Some(s@),
        None => None,
    }
}

impl View for PULSETokenContract {
    type V = TokenState;

    open spec fn view(&self) -> TokenState {
        TokenState {
            admin: self.admin,
            name: text(self.name),
            symbol: text(self.symbol),
            decimals: self.decimals,
            total_supply: self.total_supply,
            max_supply: self.max_supply,
            interface_version: self.interface_version,
            paused: self.paused,
            minters: self.minters@,
            minter_list: self.minter_list@,
            balances: self.balances@,
            allowances: self.allowances@,
        }
    }
}

/// A balance as a share of the sum of all balances.
pub open spec fn holding() -> spec_fn(Address, i128) -> int {
    |a: Address, b: i128| b as int
}

/// `balances` after `amount` went from one account to another. The debit is
/// seen by the credit, so sending to oneself changes nothing.
pub open spec fn moved(
    balances: Map<Address, i128>,
    from: Address,
    to: Address,
    amount: i128,
) -> Map<Address, i128> {
    let debited = balances.insert(from, (lookup(balances, from, 0) - amount) as i128);
    debited.insert(to, (lookup(debited, to, 0) + amount) as i128)
}

/// `list` without `who`.
pub open spec fn without(list: Seq<Address>, who: Address) -> Seq<Address>
    decreases list.len(),
{
    if list.len() == 0 {
        list
    } else if list.last() == who {
        without(list.drop_last(), who)
    } else {
        without(list.drop_last(), who).push(list.last())
    }
}

pub type Done = Outcome<TokenState, DataKey, ()>;

/// Success without renewals.
pub open spec fn done(state: TokenState, effects: Seq<Effect>) -> Result<Done, TokenError> {
    Ok(
        Outcome {
            state,
            value: (),
            effects,
            renewed: Set::empty(),
            instance_renewed: false,
        },
    )
}

impl TokenState {
    /// Nothing is stored.
    pub open spec fn blank() -> TokenState {
        TokenState {
            admin: None,
            name: None,
            symbol: None,
            decimals: None,
            total_supply: None,
            max_supply: None,
            interface_version: None,
            paused: None,
            minters: Map::empty(),
            minter_list: Seq::empty(),
            balances: Map::empty(),
            allowances: Map::empty(),
        }
    }

    pub open spec fn supply(self) -> i128 {
        self.total_supply.unwrap_or(0)
    }

    pub open spec fn cap(self) -> i128 {
        self.max_supply.unwrap_or(0)
    }

    pub open spec fn is_paused(self) -> bool {
        self.paused.unwrap_or(false)
    }

    pub open spec fn balance(self, account: Address) -> i128 {
        lookup(self.balances, account, 0)
    }

    pub open spec fn is_minter(self, account: Address) -> bool {
        lookup(self.minters, account, false)
    }

    /// What all accounts hold together.
    pub open spec fn held(self) -> int {
        sum(self.balances, holding())
    }

    /// No account is in debt and the accounts together hold no more than the
    /// total supply. (They hold less only while some balances are out of reach
    /// because their entries have expired.) Nothing was minted, nobody can mint
    /// and no ceiling is declared before there is an admin. The list of minters
    /// names each of them once.
    pub open spec fn wf(self) -> bool {
        &&& self.balances.dom().finite()
        &&& forall|a: Address| #[trigger]
            self.balances.dom().contains(a) ==> self.balances[a] >= 0
        &&& self.held() <= self.supply()
        &&& self.admin is None ==> self.supply() == 0 && self.max_supply is None && forall|
            a: Address,
        | !#[trigger] lookup(self.minters, a, false)
        &&& self.minter_list.no_duplicates()
        &&& forall|a: Address|
            #![trigger self.minter_list.contains(a)]
            #![trigger lookup(self.minters, a, false)]
            self.minter_list.contains(a) == lookup(self.minters, a, false)
    }

    /// The amount that `spender` can still move on behalf of `from`.
    pub open spec fn allowance(self, ledger: Ledger, from: Address, spender: Address) -> i128 {
        match find(self.allowances, (from, spender)) {
            Some(a) => if a.expiration_ledger >= ledger.sequence {
                a.amount
            } else {
                0
            },
            None => 0,
        }
    }

    pub open spec fn initialize(
        self,
        admin: Address,
        name: Seq<char>,
        symbol: Seq<char>,
        decimals: u32,
        max_supply: i128,
    ) -> Result<Done, TokenError> {
        if self.admin is Some {
            Err(TokenError::AlreadyInitialized)
        } else if max_supply < 0 {
            Err(TokenError::InvalidAmount)
        } else {
            done(
                TokenState {
                    admin: Some(admin),
                    name: Some(name),
                    symbol: Some(symbol),
                    decimals: Some(decimals),
                    total_supply: Some(0),
                    max_supply: if max_supply > 0 {
                        Some(max_supply)
                    } else {
                        None
                    },
                    interface_version: Some(INTERFACE_VERSION),
                    ..self
                },
                seq![Effect::RequireAuth(admin)],
            )
        }
    }

    /// What an admin-only entry point does for the admin, and the refusals it
    /// gives to anyone else.
    pub open spec fn as_admin(
        self,
        admin: Address,
        granted: Result<Done, TokenError>,
    ) -> Result<Done, TokenError> {
        match self.admin {
            None => Err(TokenError::NotInitialized),
            Some(stored) => if admin != stored {
                Err(TokenError::NotAdmin)
            } else {
                granted
            },
        }
    }

    pub open spec fn upgrade(self, admin: Address, hash: WasmHash) -> Result<Done, TokenError> {
        self.as_admin(
            admin,
            done(self, seq![Effect::RequireAuth(admin), Effect::UpdateWasm(hash)]),
        )
    }

    pub open spec fn set_paused(self, admin: Address, paused: bool) -> Result<Done, TokenError> {
        self.as_admin(
            admin,
            done(
                TokenState { paused: Some(paused), ..self },
                seq![Effect::RequireAuth(admin)],
            ),
        )
    }

    pub open spec fn set_minter(self, minter: Address) -> Result<Done, TokenError> {
        match self.admin {
            None => Err(TokenError::NotInitialized),
            Some(admin) => if self.is_minter(minter) {
                Err(TokenError::AlreadyMinter)
            } else {
                done(
                    TokenState {
                        minters: self.minters.insert(minter, true),
                        minter_list: self.minter_list.push(minter),
                        ..self
                    },
                    seq![Effect::RequireAuth(admin)],
                )
            },
        }
    }

    pub open spec fn remove_minter(self, minter: Address) -> Result<Done, TokenError> {
        match self.admin {
            None => Err(TokenError::NotInitialized),
            Some(admin) => if !self.is_minter(minter) {
                Err(TokenError::NotMinter)
            } else {
                done(
                    TokenState {
                        minters: self.minters.remove(minter),
                        minter_list: without(self.minter_list, minter),
                        ..self
                    },
                    seq![Effect::RequireAuth(admin)],
                )
            },
        }
    }

    pub open spec fn set_interface_version(self, version: u32) -> Result<Done, TokenError> {
        match self.admin {
            None => Err(TokenError::NotInitialized),
            Some(admin) => done(
                TokenState { interface_version: Some(version), ..self },
                seq![Effect::RequireAuth(admin)],
            ),
        }
    }

    /// A declared ceiling only ever comes down, down to 0 if need be; the first
    /// declaration is free.
    pub open spec fn set_max_supply(self, admin: Address, new_cap: i128) -> Result<
        Done,
        TokenError,
    > {
        self.as_admin(
            admin,
            if new_cap < self.supply() {
                Err(TokenError::CapBelowCurrentSupply)
            } else if self.max_supply is Some && new_cap > self.cap() {
                Err(TokenError::CapTooHigh)
            } else {
                done(
                    TokenState { max_supply: Some(new_cap), ..self },
                    seq![Effect::RequireAuth(admin)],
                )
            },
        )
    }

    pub open spec fn mint(self, minter: Address, to: Address, amount: i128) -> Result<
        Done,
        TokenError,
    > {
        if self.is_paused() {
            Err(TokenError::ContractPaused)
        } else if amount <= 0 {
            Err(TokenError::InvalidAmount)
        } else if !self.is_minter(minter) {
            Err(TokenError::UnauthorizedMinter)
        } else if self.cap() == 0 || self.supply() + amount > self.cap() {
            Err(TokenError::MaxSupplyExceeded)
        } else {
            Ok(
                Outcome {
                    state: TokenState {
                        balances: self.balances.insert(
                            to,
                            (self.balance(to) + amount) as i128,
                        ),
                        total_supply: Some((self.supply() + amount) as i128),
                        ..self
                    },
                    value: (),
                    effects: seq![
                        Effect::RequireAuth(minter),
                        Effect::Publish(Event::Minted { minter, to, amount }),
                    ],
                    renewed: set![DataKey::Balance(to)],
                    instance_renewed: true,
                },
            )
        }
    }

    pub open spec fn transfer(self, from: Address, to: Address, amount: i128) -> Result<
        Done,
        TokenError,
    > {
        if self.is_paused() {
            Err(TokenError::ContractPaused)
        } else if amount <= 0 {
            Err(TokenError::InvalidAmount)
        } else if self.balance(from) < amount {
            Err(TokenError::InsufficientBalance)
        } else {
            Ok(
                Outcome {
                    state: TokenState {
                        balances: moved(self.balances, from, to, amount),
                        ..self
                    },
                    value: (),
                    effects: seq![Effect::RequireAuth(from)],
                    renewed: set![DataKey::Balance(from), DataKey::Balance(to)],
                    instance_renewed: true,
                },
            )
        }
    }

    pub open spec fn approve(
        self,
        ledger: Ledger,
        from: Address,
        spender: Address,
        amount: i128,
        expiration_ledger: u32,
    ) -> Result<Done, TokenError> {
        if amount < 0 {
            Err(TokenError::InvalidAmount)
        } else if amount > 0 && expiration_ledger < ledger.sequence {
            Err(TokenError::InvalidExpirationLedger)
        } else if amount == 0 {
            done(
                TokenState { allowances: self.allowances.remove((from, spender)), ..self },
                seq![Effect::RequireAuth(from)],
            )
        } else {
            done(
                TokenState {
                    allowances: self.allowances.insert(
                        (from, spender),
                        AllowanceValue { amount, expiration_ledger },
                    ),
                    ..self
                },
                seq![
                    Effect::RequireAuth(from),
                    Effect::KeepAllowance {
                        from,
                        spender,
                        ledgers: (expiration_ledger - ledger.sequence) as u32,
                    },
                ],
            )
        }
    }

    /// The allowances left once `amount` of what `from` granted to `spender`
    /// is spent; a used-up allowance is removed.
    pub open spec fn spent(
        self,
        ledger: Ledger,
        from: Address,
        spender: Address,
        amount: i128,
    ) -> Map<(Address, Address), AllowanceValue> {
        let left = self.allowance(ledger, from, spender) - amount;
        if left == 0 {
            self.allowances.remove((from, spender))
        } else {
            self.allowances.insert(
                (from, spender),
                AllowanceValue {
                    amount: left as i128,
                    expiration_ledger: self.allowances[(from, spender)].expiration_ledger,
                },
            )
        }
    }

    pub open spec fn transfer_from(
        self,
        ledger: Ledger,
        spender: Address,
        from: Address,
        to: Address,
        amount: i128,
    ) -> Result<Done, TokenError> {
        if self.is_paused() {
            Err(TokenError::ContractPaused)
        } else if amount <= 0 {
            Err(TokenError::InvalidAmount)
        } else if self.allowance(ledger, from, spender) < amount {
            Err(TokenError::InsufficientAllowance)
        } else if self.balance(from) < amount {
            Err(TokenError::InsufficientBalance)
        } else {
            Ok(
                Outcome {
                    state: TokenState {
                        allowances: self.spent(ledger, from, spender, amount),
                        balances: moved(self.balances, from, to, amount),
                        ..self
                    },
                    value: (),
                    effects: seq![Effect::RequireAuth(spender)],
                    renewed: set![DataKey::Balance(from), DataKey::Balance(to)],
                    instance_renewed: true,
                },
            )
        }
    }

    pub open spec fn burn(self, from: Address, amount: i128) -> Result<Done, TokenError> {
        if self.is_paused() {
            Err(TokenError::ContractPaused)
        } else if amount <= 0 {
            Err(TokenError::InvalidAmount)
        } else if self.balance(from) < amount {
            Err(TokenError::InsufficientBalance)
        } else {
            Ok(
                Outcome {
                    state: TokenState {
                        balances: self.balances.insert(
                            from,
                            (self.balance(from) - amount) as i128,
                        ),
                        total_supply: Some((self.supply() - amount) as i128),
                        ..self
                    },
                    value: (),
                    effects: seq![Effect::RequireAuth(from)],
                    renewed: set![DataKey::Balance(from)],
                    instance_renewed: true,
                },
            )
        }
    }
}

} // verus!
