//! State of the registry and the meaning of its entry points.
use crate::address::{Address, WasmHash};
use crate::env::{Effect, Ledger, Outcome};
use crate::sums::sum;
use crate::table::{find, lookup, Key, Table};
use vstd::prelude::*;
use vstd::utf8::encode_utf8;

verus! {

/// The interface version this contract implements.
pub const INTERFACE_VERSION: u32 = 1;

/// The interface version of the leaderboard that bonuses rely on.
pub const LEADERBOARD_BONUS_INTERFACE_VERSION: u32 = 1;

/// The longest display name, in bytes.
pub const MAX_DISPLAY_NAME_BYTES: usize = 64;

/// A chain of referrers is shorter than this.
pub const MAX_REFERRAL_DEPTH: u32 = 5;

/// Points for registering.
pub const WELCOME_POINTS: u64 = 5;

/// Tokens for registering.
pub const WELCOME_TOKENS: i128 = 1_0000000;

/// Points for the referrer of a bettor, for each bet.
pub const REFERRAL_BET_POINTS: u64 = 3;

#[derive(Clone, Copy, Debug, PartialEq, Eq, PartialOrd, Ord, Structural)]
pub enum ReferralRegistryError {
    DisplayNameTooLong,
    AlreadyInitialized,
    NotInitialized,
    /// The user is registered, and has a referrer or names none.
    AlreadyRegistered,
    /// The referrer is not registered.
    InvalidReferrer,
    /// The caller is not the market.
    UnauthorizedCaller,
    SelfReferral,
    /// The leaderboard reports an older interface than this contract needs.
    IncompatibleInterface,
    /// The admin has revoked the trust in the contract this call depends on.
    TrustRevoked,
    /// No such role.
    InvalidRole,
    /// The leaderboard reports no interface version.
    InterfaceVersionMissing,
    NotAdmin,
    ContractPaused,
    /// The chain of referrers would be too long.
    ReferralTooDeep,
    InvalidAmount,
}

impl ReferralRegistryError {
    /// The number under which the error is reported to callers.
    pub open spec fn number(self) -> u32 {
        match self {
            ReferralRegistryError::DisplayNameTooLong => 1,
            ReferralRegistryError::AlreadyInitialized => 2,
            ReferralRegistryError::NotInitialized => 3,
            ReferralRegistryError::AlreadyRegistered => 4,
            ReferralRegistryError::InvalidReferrer => 5,
            ReferralRegistryError::UnauthorizedCaller => 6,
            ReferralRegistryError::SelfReferral => 7,
            ReferralRegistryError::IncompatibleInterface => 8,
            ReferralRegistryError::TrustRevoked => 9,
            ReferralRegistryError::InvalidRole => 10,
            ReferralRegistryError::InterfaceVersionMissing => 11,
            ReferralRegistryError::NotAdmin => 12,
            ReferralRegistryError::ContractPaused => 13,
            ReferralRegistryError::ReferralTooDeep => 14,
            ReferralRegistryError::InvalidAmount => 15,
        }
    }

    pub fn code(self) -> (n: u32)
        ensures
            n == self.number(),
    {
        match self {
            ReferralRegistryError::DisplayNameTooLong => 1,
            ReferralRegistryError::AlreadyInitialized => 2,
            ReferralRegistryError::NotInitialized => 3,
            ReferralRegistryError::AlreadyRegistered => 4,
            ReferralRegistryError::InvalidReferrer => 5,
            ReferralRegistryError::UnauthorizedCaller => 6,
            ReferralRegistryError::SelfReferral => 7,
            ReferralRegistryError::IncompatibleInterface => 8,
            ReferralRegistryError::TrustRevoked => 9,
            ReferralRegistryError::InvalidRole => 10,
            ReferralRegistryError::InterfaceVersionMissing => 11,
            ReferralRegistryError::NotAdmin => 12,
            ReferralRegistryError::ContractPaused => 13,
            ReferralRegistryError::ReferralTooDeep => 14,
            ReferralRegistryError::InvalidAmount => 15,
        }
    }
}

/// A contract that the registry depends on.
#[derive(Clone, Copy, Debug, PartialEq, Eq, Structural)]
pub enum Role {
    Market,
    Leaderboard,
    Token,
    XlmSac,
}

impl Key for Role {
    fn same(&self, other: &Self) -> (b: bool) {
        *self == *other
    }
}

/// The role that a symbol names, if any.
pub open spec fn role_named(symbol: Seq<char>) -> Option<Role> {
    if symbol == "market"@ {
        Some(Role::Market)
    } else if symbol == "leaderboard"@ {
        Some(Role::Leaderboard)
    } else if symbol == "token"@ {
        Some(Role::Token)
    } else if symbol == "xlm_sac"@ {
        Some(Role::XlmSac)
    } else {
        None
    }
}

/// Names of the stored entries.
#[derive(Clone, Copy, Debug, PartialEq, Eq)]
pub enum DataKey {
    Profile(Address),
    Admin,
    Contracts,
    InterfaceVersion,
    Paused,
    Referrer(Address),
    ReferrerCount(Address),
    Earnings(Address),
    TrustRevoked(Role),
}

#[derive(Clone, Debug)]
pub struct UserProfile {
    pub display_name: String,
}

/// The contracts that the registry works with.
#[derive(Clone, Copy, Debug, PartialEq, Eq)]
pub struct Contracts {
    pub market: Address,
    pub token: Address,
    pub leaderboard: Address,
    pub xlm_sac: Address,
}

/// The registry's storage. An absent entry is `None` or not in its table.
#[derive(Clone, Debug)]
pub struct ReferralRegistryContract {
    pub admin: Option<Address>,
    pub contracts: Option<Contracts>,
    pub interface_version: Option<u32>,
    pub paused: Option<bool>,
    pub profiles: Table<Address, UserProfile>,
    /// Who referred whom, by the one who was referred.
    pub referrers: Table<Address, Address>,
    /// How many a referrer referred.
    pub counts: Table<Address, u32>,
    /// What a referrer was paid.
    pub earnings: Table<Address, i128>,
    pub trust_revoked: Table<Role, bool>,
}

/// The meaning of [`ReferralRegistryContract`].
#[verifier::ext_equal]
pub struct RegistryState {
    pub admin: Option<Address>,
    pub contracts: Option<Contracts>,
    pub interface_version: Option<u32>,
    pub paused: Option<bool>,
    /// The display name of everyone who has a profile.
    pub names: Map<Address, Seq<char>>,
    pub referrers: Map<Address, Address>,
    pub counts: Map<Address, u32>,
    pub earnings: Map<Address, i128>,
    pub trust_revoked: Map<Role, bool>,
}

pub open spec fn names_in(profiles: Map<Address, UserProfile>) -> Map<Address, Seq<char>> {
    profiles.map_values(|p: UserProfile| p.display_name@)
}

impl View for ReferralRegistryContract {
    type V = RegistryState;

    open spec fn view(&self) -> RegistryState {
        RegistryState {
            admin: self.admin,
            contracts: self.contracts,
            interface_version: self.interface_version,
            paused: self.paused,
            names: names_in(self.profiles@),
            referrers: self.referrers@,
            counts: self.counts@,
            earnings: self.earnings@,
            trust_revoked: self.trust_revoked@,
        }
    }
}

pub type Verdict<R> = Result<Outcome<RegistryState, DataKey, R>, ReferralRegistryError>;

pub open spec fn done<R>(state: RegistryState, value: R, effects: Seq<Effect>) -> Verdict<R> {
    Ok(Outcome { state, value, effects, renewed: Set::empty(), instance_renewed: false })
}

/// One for everybody that `who` referred.
pub open spec fn referred_by(who: Address) -> spec_fn(Address, Address) -> int {
    |user: Address, referrer: Address|
        if referrer == who {
            1
        } else {
            0
        }
}

/// How many referrers there are above `who`, as far as `limit`.
pub open spec fn depth(referrers: Map<Address, Address>, who: Address, limit: nat) -> nat
    decreases limit,
{
    if limit == 0 {
        0
    } else {
        match find(referrers, who) {
            None => 0,
            Some(above) => 1 + depth(referrers, above, (limit - 1) as nat),
        }
    }
}

/// Why a leaderboard that reports `version` is refused.
pub open spec fn version_refusal(version: Option<u32>) -> Option<ReferralRegistryError> {
    match version {
        None => Some(ReferralRegistryError::InterfaceVersionMissing),
        Some(v) => if v < LEADERBOARD_BONUS_INTERFACE_VERSION {
            Some(ReferralRegistryError::IncompatibleInterface)
        } else {
            None
        },
    }
}

impl RegistryState {
    pub open spec fn blank() -> RegistryState {
        RegistryState {
            admin: None,
            contracts: None,
            interface_version: None,
            paused: None,
            names: Map::empty(),
            referrers: Map::empty(),
            counts: Map::empty(),
            earnings: Map::empty(),
            trust_revoked: Map::empty(),
        }
    }

    pub open spec fn is_paused(self) -> bool {
        self.paused.unwrap_or(false)
    }

    pub open spec fn is_revoked(self, role: Role) -> bool {
        lookup(self.trust_revoked, role, false)
    }

    pub open spec fn is_registered(self, user: Address) -> bool {
        self.names.dom().contains(user)
    }

    pub open spec fn count(self, who: Address) -> u32 {
        lookup(self.counts, who, 0)
    }

    pub open spec fn earned(self, who: Address) -> i128 {
        lookup(self.earnings, who, 0)
    }

    /// Every referrer's count is right.
    pub open spec fn counted(self) -> bool {
        forall|who: Address| #[trigger]
            lookup(self.counts, who, 0) == sum(self.referrers, referred_by(who))
    }

    /// There are contracts to work with once there is an admin; both sides of
    /// every referral are registered; and nobody has earned less than nothing.
    pub open spec fn wf(self) -> bool {
        &&& (self.admin is None) == (self.contracts is None)
        &&& self.referrers.dom().finite()
        &&& forall|user: Address| #[trigger]
            self.referrers.dom().contains(user) ==> self.is_registered(user)
                && self.is_registered(self.referrers[user]) && self.referrers[user] != user
        &&& forall|who: Address| #[trigger]
            self.earnings.dom().contains(who) ==> self.earnings[who] >= 0
    }

    // Administration.

    pub open spec fn initialize(self, admin: Address, contracts: Contracts) -> Verdict<()> {
        if self.admin is Some || self.is_registered(admin) {
            Err(ReferralRegistryError::AlreadyInitialized)
        } else {
            done(
                RegistryState {
                    admin: Some(admin),
                    contracts: Some(contracts),
                    interface_version: Some(INTERFACE_VERSION),
                    names: self.names.insert(admin, Seq::empty()),
                    ..self
                },
                (),
                seq![Effect::RequireAuth(admin)],
            )
        }
    }

    pub open spec fn admin_refusal(self, caller: Address) -> Option<ReferralRegistryError> {
        match self.admin {
            None => Some(ReferralRegistryError::NotInitialized),
            Some(admin) => if caller != admin {
                Some(ReferralRegistryError::NotAdmin)
            } else {
                None
            },
        }
    }

    /// What an admin-only entry point does for the admin, and the refusals it
    /// gives to anyone else.
    pub open spec fn as_admin(self, admin: Address, state: RegistryState) -> Verdict<()> {
        match self.admin_refusal(admin) {
            Some(e) => Err(e),
            None => done(state, (), seq![Effect::RequireAuth(admin)]),
        }
    }

    pub open spec fn upgrade(self, admin: Address, hash: WasmHash) -> Verdict<()> {
        match self.admin_refusal(admin) {
            Some(e) => Err(e),
            None => done(
                self,
                (),
                seq![Effect::RequireAuth(admin), Effect::UpdateWasm(hash)],
            ),
        }
    }

    pub open spec fn set_paused(self, admin: Address, paused: bool) -> Verdict<()> {
        self.as_admin(admin, RegistryState { paused: Some(paused), ..self })
    }

    pub open spec fn set_interface_version(self, admin: Address, version: u32) -> Verdict<()> {
        self.as_admin(admin, RegistryState { interface_version: Some(version), ..self })
    }

    pub open spec fn set_token_contract(self, admin: Address, token: Address) -> Verdict<()> {
        self.as_admin(
            admin,
            RegistryState {
                contracts: Some(Contracts { token, ..self.contracts->0 }),
                ..self
            },
        )
    }

    pub open spec fn set_xlm_sac(self, admin: Address, xlm_sac: Address) -> Verdict<()> {
        self.as_admin(
            admin,
            RegistryState {
                contracts: Some(Contracts { xlm_sac, ..self.contracts->0 }),
                ..self
            },
        )
    }

    pub open spec fn revoke_trust(self, admin: Address, role: Seq<char>) -> Verdict<()> {
        match self.admin_refusal(admin) {
            Some(e) => Err(e),
            None => match role_named(role) {
                None => Err(ReferralRegistryError::InvalidRole),
                Some(r) => Ok(
                    Outcome {
                        state: RegistryState {
                            trust_revoked: self.trust_revoked.insert(r, true),
                            ..self
                        },
                        value: (),
                        effects: seq![Effect::RequireAuth(admin)],
                        renewed: set![DataKey::TrustRevoked(r)],
                        instance_renewed: false,
                    },
                ),
            },
        }
    }

    pub open spec fn restore_trust(self, admin: Address, role: Seq<char>) -> Verdict<()> {
        match self.admin_refusal(admin) {
            Some(e) => Err(e),
            None => match role_named(role) {
                None => Err(ReferralRegistryError::InvalidRole),
                Some(r) => done(
                    RegistryState { trust_revoked: self.trust_revoked.remove(r), ..self },
                    (),
                    seq![Effect::RequireAuth(admin)],
                ),
            },
        }
    }

    // Registration.

    pub open spec fn register(self, caller: Address, name: Seq<char>) -> Verdict<()> {
        if encode_utf8(name).len() > MAX_DISPLAY_NAME_BYTES {
            Err(ReferralRegistryError::DisplayNameTooLong)
        } else if self.is_registered(caller) {
            Err(ReferralRegistryError::AlreadyInitialized)
        } else {
            done(
                RegistryState { names: self.names.insert(caller, name), ..self },
                (),
                seq![Effect::RequireAuth(caller)],
            )
        }
    }

    /// Why a referrer cannot be named.
    pub open spec fn referrer_refusal(self, referrer: Address) -> Option<ReferralRegistryError> {
        if !self.is_registered(referrer) {
            Some(ReferralRegistryError::InvalidReferrer)
        } else if depth(self.referrers, referrer, MAX_REFERRAL_DEPTH as nat) + 1
            >= MAX_REFERRAL_DEPTH {
            Some(ReferralRegistryError::ReferralTooDeep)
        } else {
            None
        }
    }

    /// Why a registration is refused, before the leaderboard is asked.
    pub open spec fn registration_refusal(
        self,
        user: Address,
        name: Seq<char>,
        referrer: Option<Address>,
    ) -> Option<ReferralRegistryError> {
        if self.is_paused() {
            Some(ReferralRegistryError::ContractPaused)
        } else if self.contracts is None {
            Some(ReferralRegistryError::NotInitialized)
        } else if encode_utf8(name).len() > MAX_DISPLAY_NAME_BYTES {
            Some(ReferralRegistryError::DisplayNameTooLong)
        } else if referrer == Some(user) {
            Some(ReferralRegistryError::SelfReferral)
        } else if self.is_registered(user) && (referrer is None
            || self.referrers.dom().contains(user)) {
            Some(ReferralRegistryError::AlreadyRegistered)
        } else if referrer is Some && self.referrer_refusal(referrer->0) is Some {
            self.referrer_refusal(referrer->0)
        } else if self.is_revoked(Role::Leaderboard) {
            Some(ReferralRegistryError::TrustRevoked)
        } else {
            None
        }
    }

    /// The state once a referral is on record.
    pub open spec fn with_referrer(self, user: Address, referrer: Option<Address>) -> RegistryState {
        match referrer {
            None => self,
            Some(r) => RegistryState {
                referrers: self.referrers.insert(user, r),
                counts: self.counts.insert(r, (self.count(r) + 1) as u32),
                ..self
            },
        }
    }

    /// Whoever registers for the first time is welcomed with a bonus; whoever
    /// registered without a referrer may name one later, once, and keeps their
    /// name.
    pub open spec fn register_referral(
        self,
        user: Address,
        name: Seq<char>,
        referrer: Option<Address>,
        leaderboard_version: Option<u32>,
    ) -> Verdict<()> {
        match self.registration_refusal(user, name, referrer) {
            Some(e) => Err(e),
            None => match version_refusal(leaderboard_version) {
                Some(e) => Err(e),
                None => if self.is_registered(user) {
                    done(
                        self.with_referrer(user, referrer),
                        (),
                        seq![Effect::RequireAuth(user)],
                    )
                } else {
                    done(
                        (RegistryState {
                            names: self.names.insert(user, name),
                            ..self
                        }).with_referrer(user, referrer),
                        (),
                        seq![
                            Effect::RequireAuth(user),
                            Effect::RewardBonus {
                                leaderboard: self.contracts->0.leaderboard,
                                user,
                                pts: WELCOME_POINTS,
                                tokens: WELCOME_TOKENS,
                            },
                        ],
                    )
                },
            },
        }
    }

    // Fees.

    /// Why a credit is refused, before the leaderboard is asked.
    pub open spec fn credit_refusal(self, caller: Address, user: Address, fee: i128) -> Option<
        ReferralRegistryError,
    > {
        if self.is_paused() {
            Some(ReferralRegistryError::ContractPaused)
        } else if self.contracts is None {
            Some(ReferralRegistryError::NotInitialized)
        } else if caller != self.contracts->0.market {
            Some(ReferralRegistryError::UnauthorizedCaller)
        } else if self.is_revoked(Role::Market) {
            Some(ReferralRegistryError::TrustRevoked)
        } else if fee <= 0 {
            Some(ReferralRegistryError::InvalidAmount)
        } else if self.is_revoked(Role::XlmSac) {
            Some(ReferralRegistryError::TrustRevoked)
        } else if self.referrers.dom().contains(user) && self.is_revoked(Role::Leaderboard) {
            Some(ReferralRegistryError::TrustRevoked)
        } else {
            None
        }
    }

    /// Pass on a fee that the market sent for a bettor: to their referrer, who
    /// also gets points, or back to the bettor.
    pub open spec fn credit(
        self,
        ledger: Ledger,
        caller: Address,
        user: Address,
        fee: i128,
        leaderboard_version: Option<u32>,
    ) -> Verdict<bool> {
        let c = self.contracts->0;
        match self.credit_refusal(caller, user, fee) {
            Some(e) => Err(e),
            None => match find(self.referrers, user) {
                None => done(
                    self,
                    false,
                    seq![
                        Effect::RequireAuth(caller),
                        Effect::Transfer {
                            asset: c.xlm_sac,
                            from: ledger.this,
                            to: user,
                            amount: fee,
                        },
                    ],
                ),
                Some(referrer) => match version_refusal(leaderboard_version) {
                    Some(e) => Err(e),
                    None => done(
                        RegistryState {
                            earnings: self.earnings.insert(
                                referrer,
                                (self.earned(referrer) + fee) as i128,
                            ),
                            ..self
                        },
                        true,
                        seq![
                            Effect::RequireAuth(caller),
                            Effect::Transfer {
                                asset: c.xlm_sac,
                                from: ledger.this,
                                to: referrer,
                                amount: fee,
                            },
                            Effect::AddBonusPts {
                                leaderboard: c.leaderboard,
                                user: referrer,
                                pts: REFERRAL_BET_POINTS,
                            },
                        ],
                    ),
                },
            },
        }
    }
}

} // verus!
