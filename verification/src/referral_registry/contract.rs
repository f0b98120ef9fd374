//! The registry's entry points.
use crate::address::{Address, WasmHash};
use crate::env::{settles, Effect, Env};
use crate::referral_registry::model::{
    depth, referred_by, role_named, version_refusal, Contracts, DataKey, ReferralRegistryContract,
    ReferralRegistryError, RegistryState, Role, UserProfile, INTERFACE_VERSION,
    LEADERBOARD_BONUS_INTERFACE_VERSION, MAX_DISPLAY_NAME_BYTES, MAX_REFERRAL_DEPTH,
    REFERRAL_BET_POINTS, WELCOME_POINTS, WELCOME_TOKENS,
};
use crate::sums::{lemma_sum_empty, lemma_sum_insert, sum};
use crate::table::{find, lookup, Table};
use vstd::prelude::*;

verus! {

broadcast use crate::table::Table::lemma_finite;

/// Settings, names and earnings may change as long as nobody's name is lost.
pub proof fn lemma_settings_keep(s: RegistryState, t: RegistryState)
    requires
        s.wf(),
        t.referrers == s.referrers,
        t.counts == s.counts,
        (t.admin is None) == (t.contracts is None),
        forall|user: Address| #[trigger] s.is_registered(user) ==> t.is_registered(user),
        forall|who: Address| #[trigger]
            t.earnings.dom().contains(who) ==> t.earnings[who] >= 0,
    ensures
        t.wf(),
{
    assert forall|user: Address| #[trigger] t.referrers.dom().contains(user) implies t.is_registered(
        user,
    ) && t.is_registered(t.referrers[user]) && t.referrers[user] != user by {
        assert(s.is_registered(user));
        assert(s.is_registered(s.referrers[user]));
    }
}

/// A referral of somebody who had none keeps the invariant, and the counts
/// right.
pub proof fn lemma_referral_keeps(s: RegistryState, user: Address, referrer: Address)
    requires
        s.wf(),
        s.is_registered(user),
        s.is_registered(referrer),
        user != referrer,
        !s.referrers.dom().contains(user),
        s.count(referrer) < u32::MAX,
    ensures
        s.with_referrer(user, Some(referrer)).wf(),
        s.counted() ==> s.with_referrer(user, Some(referrer)).counted(),
{
    let t = s.with_referrer(user, Some(referrer));
    if s.counted() {
        assert forall|who: Address| #[trigger] lookup(t.counts, who, 0) == sum(
            t.referrers,
            referred_by(who),
        ) by {
            lemma_sum_insert(s.referrers, referred_by(who), user, referrer);
            assert(lookup(s.counts, who, 0) == sum(s.referrers, referred_by(who)));
        }
    }
}

impl ReferralRegistryContract {
    /// Freshly deployed: nothing is stored yet.
    pub fn new() -> (r: Self)
        ensures
            r@.wf(),
            r@.counted(),
            r@ == RegistryState::blank(),
    {
        let r = ReferralRegistryContract {
            admin: None,
            contracts: None,
            interface_version: None,
            paused: None,
            profiles: Table::new(),
            referrers: Table::new(),
            counts: Table::new(),
            earnings: Table::new(),
            trust_revoked: Table::new(),
        };
        proof {
            assert(r@.names =~= Map::empty());
            assert forall|who: Address| #[trigger] lookup(r@.counts, who, 0) == sum(
                r@.referrers,
                referred_by(who),
            ) by {
                lemma_sum_empty(referred_by(who));
            }
        }
        r
    }

    /// Set the admin, who gets an empty profile, and the contracts to work
    /// with.
    pub fn initialize(
        &mut self,
        env: &mut Env<DataKey>,
        admin: Address,
        market: Address,
        token: Address,
        leaderboard: Address,
        xlm_sac: Address,
    ) -> (r: Result<(), ReferralRegistryError>)
        requires
            old(self)@.wf(),
        ensures
            final(self)@.wf(),
            settles(
                old(self)@.initialize(admin, (Contracts { market, token, leaderboard, xlm_sac })),
                (old(self)@, final(self)@),
                (*old(env), *final(env)),
                r,
            ),
    {
        if self.admin.is_some() || self.profiles.has(admin) {
            return Err(ReferralRegistryError::AlreadyInitialized);
        }
        env.ask(Effect::RequireAuth(admin));
        self.admin = Some(admin);
        self.contracts = Some(Contracts { market, token, leaderboard, xlm_sac });
        self.interface_version = Some(INTERFACE_VERSION);
        self.enroll(admin, String::new());
        proof {
            lemma_settings_keep(old(self)@, self@);
        }
        Ok(())
    }

    /// Put a display name on record.
    fn enroll(&mut self, user: Address, display_name: String)
        ensures
            final(self)@ == (RegistryState {
                names: old(self)@.names.insert(user, display_name@),
                ..old(self)@
            }),
    {
        let ghost name = display_name@;
        self.profiles.set(user, UserProfile { display_name });
        assert(self@.names =~= old(self)@.names.insert(user, name));
    }

    /// Replace this contract's code in place. Admin only.
    pub fn upgrade(
        &mut self,
        env: &mut Env<DataKey>,
        admin: Address,
        new_wasm_hash: WasmHash,
    ) -> (r: Result<(), ReferralRegistryError>)
        requires
            old(self)@.wf(),
        ensures
            final(self)@.wf(),
            settles(
                old(self)@.upgrade(admin, new_wasm_hash),
                (old(self)@, final(self)@),
                (*old(env), *final(env)),
                r,
            ),
    {
        self.require_admin(admin)?;
        env.ask(Effect::RequireAuth(admin));
        env.ask(Effect::UpdateWasm(new_wasm_hash));
        Ok(())
    }

    /// Halt registrations and credits in an emergency. Admin only. Reading keeps
    /// working.
    pub fn pause(
        &mut self,
        env: &mut Env<DataKey>,
        admin: Address,
    ) -> (r: Result<(), ReferralRegistryError>)
        requires
            old(self)@.wf(),
        ensures
            final(self)@.wf(),
            settles(
                old(self)@.set_paused(admin, true),
                (old(self)@, final(self)@),
                (*old(env), *final(env)),
                r,
            ),
    {
        self.require_admin(admin)?;
        env.ask(Effect::RequireAuth(admin));
        self.paused = Some(true);
        proof {
            lemma_settings_keep(old(self)@, self@);
        }
        Ok(())
    }

    /// Resume registrations and credits. Admin only.
    pub fn unpause(
        &mut self,
        env: &mut Env<DataKey>,
        admin: Address,
    ) -> (r: Result<(), ReferralRegistryError>)
        requires
            old(self)@.wf(),
        ensures
            final(self)@.wf(),
            settles(
                old(self)@.set_paused(admin, false),
                (old(self)@, final(self)@),
                (*old(env), *final(env)),
                r,
            ),
    {
        self.require_admin(admin)?;
        env.ask(Effect::RequireAuth(admin));
        self.paused = Some(false);
        proof {
            lemma_settings_keep(old(self)@, self@);
        }
        Ok(())
    }

    /// Halt or resume registrations and credits. Admin only.
    pub fn set_paused(
        &mut self,
        env: &mut Env<DataKey>,
        admin: Address,
        paused: bool,
    ) -> (r: Result<(), ReferralRegistryError>)
        requires
            old(self)@.wf(),
        ensures
            final(self)@.wf(),
            settles(
                old(self)@.set_paused(admin, paused),
                (old(self)@, final(self)@),
                (*old(env), *final(env)),
                r,
            ),
    {
        self.require_admin(admin)?;
        env.ask(Effect::RequireAuth(admin));
        self.paused = Some(paused);
        proof {
            lemma_settings_keep(old(self)@, self@);
        }
        Ok(())
    }

    pub fn is_paused(&self) -> (b: bool)
        ensures
            b == self@.is_paused(),
    {
        self.paused.unwrap_or(false)
    }

    pub fn paused(&self) -> (b: bool)
        ensures
            b == self@.is_paused(),
    {
        self.is_paused()
    }

    /// The declared interface version, or 0 where none was declared.
    pub fn interface_version(&self) -> (v: u32)
        ensures
            v == self@.interface_version.unwrap_or(0),
    {
        self.interface_version.unwrap_or(0)
    }

    /// Declare the interface version. Admin only.
    pub fn set_interface_version(
        &mut self,
        env: &mut Env<DataKey>,
        admin: Address,
        version: u32,
    ) -> (r: Result<(), ReferralRegistryError>)
        requires
            old(self)@.wf(),
        ensures
            final(self)@.wf(),
            settles(
                old(self)@.set_interface_version(admin, version),
                (old(self)@, final(self)@),
                (*old(env), *final(env)),
                r,
            ),
    {
        self.require_admin(admin)?;
        env.ask(Effect::RequireAuth(admin));
        self.interface_version = Some(version);
        proof {
            lemma_settings_keep(old(self)@, self@);
        }
        Ok(())
    }

    /// Point to another token contract. Admin only. This restores no trust.
    pub fn set_token_contract(
        &mut self,
        env: &mut Env<DataKey>,
        admin: Address,
        token: Address,
    ) -> (r: Result<(), ReferralRegistryError>)
        requires
            old(self)@.wf(),
        ensures
            final(self)@.wf(),
            settles(
                old(self)@.set_token_contract(admin, token),
                (old(self)@, final(self)@),
                (*old(env), *final(env)),
                r,
            ),
    {
        self.require_admin(admin)?;
        env.ask(Effect::RequireAuth(admin));
        let mut contracts: Contracts = self.get_contracts();
        contracts.token = token;
        self.contracts = Some(contracts);
        proof {
            lemma_settings_keep(old(self)@, self@);
        }
        Ok(())
    }

    /// Point to another asset contract. Admin only. This restores no trust.
    pub fn set_xlm_sac(
        &mut self,
        env: &mut Env<DataKey>,
        admin: Address,
        xlm_sac: Address,
    ) -> (r: Result<(), ReferralRegistryError>)
        requires
            old(self)@.wf(),
        ensures
            final(self)@.wf(),
            settles(
                old(self)@.set_xlm_sac(admin, xlm_sac),
                (old(self)@, final(self)@),
                (*old(env), *final(env)),
                r,
            ),
    {
        self.require_admin(admin)?;
        env.ask(Effect::RequireAuth(admin));
        let mut contracts: Contracts = self.get_contracts();
        contracts.xlm_sac = xlm_sac;
        self.contracts = Some(contracts);
        proof {
            lemma_settings_keep(old(self)@, self@);
        }
        Ok(())
    }

    fn get_contracts(&self) -> (c: Contracts)
        requires
            self.contracts is Some,
        ensures
            Some(c) == self.contracts,
    {
        self.contracts.unwrap()
    }

    /// Stop relying on a contract until the trust is restored. Admin only.
    pub fn revoke_trust(
        &mut self,
        env: &mut Env<DataKey>,
        admin: Address,
        role: String,
    ) -> (r: Result<(), ReferralRegistryError>)
        requires
            old(self)@.wf(),
        ensures
            final(self)@.wf(),
            settles(
                old(self)@.revoke_trust(admin, role@),
                (old(self)@, final(self)@),
                (*old(env), *final(env)),
                r,
            ),
    {
        self.require_admin(admin)?;
        match Self::role_of(&role) {
            None => Err(ReferralRegistryError::InvalidRole),
            Some(known) => {
                env.ask(Effect::RequireAuth(admin));
                self.trust_revoked.set(known, true);
                env.renew(DataKey::TrustRevoked(known));
                proof {
                    lemma_settings_keep(old(self)@, self@);
                }
                Ok(())
            },
        }
    }

    /// Rely on a contract again. Admin only, and the only way to end a
    /// revocation.
    pub fn restore_trust(
        &mut self,
        env: &mut Env<DataKey>,
        admin: Address,
        role: String,
    ) -> (r: Result<(), ReferralRegistryError>)
        requires
            old(self)@.wf(),
        ensures
            final(self)@.wf(),
            settles(
                old(self)@.restore_trust(admin, role@),
                (old(self)@, final(self)@),
                (*old(env), *final(env)),
                r,
            ),
    {
        self.require_admin(admin)?;
        match Self::role_of(&role) {
            None => Err(ReferralRegistryError::InvalidRole),
            Some(known) => {
                env.ask(Effect::RequireAuth(admin));
                self.trust_revoked.remove(known);
                proof {
                    lemma_settings_keep(old(self)@, self@);
                }
                Ok(())
            },
        }
    }

    pub fn is_trust_revoked(&self, role: String) -> (b: bool)
        ensures
            b == (role_named(role@) matches Some(r) && self@.is_revoked(r)),
    {
        match Self::role_of(&role) {
            Some(known) => self.trust_revoked.get_or(known, false),
            None => false,
        }
    }

    fn role_of(role: &String) -> (r: Option<Role>)
        ensures
            r == role_named(role@),
    {
        if *role == String::from_str("market") {
            Some(Role::Market)
        } else if *role == String::from_str("leaderboard") {
            Some(Role::Leaderboard)
        } else if *role == String::from_str("token") {
            Some(Role::Token)
        } else if *role == String::from_str("xlm_sac") {
            Some(Role::XlmSac)
        } else {
            None
        }
    }

    /// Register a display name. Everyone registers once.
    pub fn register(&mut self, env: &mut Env<DataKey>, caller: Address, name: String) -> (r: Result<
        (),
        ReferralRegistryError,
    >)
        requires
            old(self)@.wf(),
        ensures
            final(self)@.wf(),
            settles(
                old(self)@.register(caller, name@),
                (old(self)@, final(self)@),
                (*old(env), *final(env)),
                r,
            ),
    {
        if name.as_str().as_bytes().len() > MAX_DISPLAY_NAME_BYTES {
            return Err(ReferralRegistryError::DisplayNameTooLong);
        }
        if self.profiles.has(caller) {
            return Err(ReferralRegistryError::AlreadyInitialized);
        }
        env.ask(Effect::RequireAuth(caller));
        self.enroll(caller, name);
        proof {
            lemma_settings_keep(old(self)@, self@);
        }
        Ok(())
    }

    /// Register a display name and, at once or later, a referrer. The version
    /// is the one that the leaderboard reports, if it reports any.
    pub fn register_referral(
        &mut self,
        env: &mut Env<DataKey>,
        user: Address,
        name: String,
        referrer: Option<Address>,
        leaderboard_version: Option<u32>,
    ) -> (r: Result<(), ReferralRegistryError>)
        requires
            old(self)@.wf(),
            old(self)@.register_referral(user, name@, referrer, leaderboard_version) is Ok
                && referrer is Some ==> old(self)@.count(referrer->0) < u32::MAX,
        ensures
            final(self)@.wf(),
            settles(
                old(self)@.register_referral(user, name@, referrer, leaderboard_version),
                (old(self)@, final(self)@),
                (*old(env), *final(env)),
                r,
            ),
    {
        self.check_registration(user, &name, referrer)?;
        Self::require_interface_version(leaderboard_version)?;
        let contracts: Contracts = self.get_contracts();
        env.ask(Effect::RequireAuth(user));
        if !self.profiles.has(user) {
            env.ask(
                Effect::RewardBonus {
                    leaderboard: contracts.leaderboard,
                    user,
                    pts: WELCOME_POINTS,
                    tokens: WELCOME_TOKENS,
                },
            );
            self.enroll(user, name);
            proof {
                lemma_settings_keep(old(self)@, self@);
            }
        }
        let ghost mid = self@;
        if let Some(who) = referrer {
            proof {
                lemma_referral_keeps(mid, user, who);
            }
            let count: u32 = self.counts.get_or(who, 0);
            self.referrers.set(user, who);
            self.counts.set(who, count + 1);
        }
        assert(self@ == mid.with_referrer(user, referrer));
        Ok(())
    }

    /// Whether a registration would be taken, before the leaderboard is asked.
    pub fn check_registration(&self, user: Address, name: &String, referrer: Option<Address>) -> (r:
        Result<(), ReferralRegistryError>)
        ensures
            match self@.registration_refusal(user, name@, referrer) {
                Some(e) => r == Err::<(), ReferralRegistryError>(e),
                None => r == Ok::<(), ReferralRegistryError>(()),
            },
    {
        self.require_not_paused()?;
        if self.contracts.is_none() {
            return Err(ReferralRegistryError::NotInitialized);
        }
        if name.as_str().as_bytes().len() > MAX_DISPLAY_NAME_BYTES {
            return Err(ReferralRegistryError::DisplayNameTooLong);
        }
        let known: bool = self.profiles.has(user);
        match referrer {
            None => {
                if known {
                    return Err(ReferralRegistryError::AlreadyRegistered);
                }
            },
            Some(who) => {
                if who == user {
                    return Err(ReferralRegistryError::SelfReferral);
                }
                if known && self.referrers.has(user) {
                    return Err(ReferralRegistryError::AlreadyRegistered);
                }
                if !self.profiles.has(who) {
                    return Err(ReferralRegistryError::InvalidReferrer);
                }
                if self.referral_depth(who) + 1 >= MAX_REFERRAL_DEPTH {
                    return Err(ReferralRegistryError::ReferralTooDeep);
                }
            },
        }
        self.require_trust_not_revoked(Role::Leaderboard)
    }

    /// How many referrers there are above `who`, as far as the limit.
    pub fn referral_depth(&self, who: Address) -> (n: u32)
        ensures
            n == depth(self@.referrers, who, MAX_REFERRAL_DEPTH as nat),
            n <= MAX_REFERRAL_DEPTH,
    {
        let mut at: Address = who;
        let mut hops: u32 = 0;
        while hops < MAX_REFERRAL_DEPTH
            invariant_except_break
                hops <= MAX_REFERRAL_DEPTH,
                depth(self@.referrers, who, MAX_REFERRAL_DEPTH as nat) == hops + depth(
                    self@.referrers,
                    at,
                    (MAX_REFERRAL_DEPTH - hops) as nat,
                ),
            ensures
                hops <= MAX_REFERRAL_DEPTH,
                hops == depth(self@.referrers, who, MAX_REFERRAL_DEPTH as nat),
            decreases MAX_REFERRAL_DEPTH - hops,
        {
            match self.referrers.find(at) {
                None => {
                    break;
                },
                Some(above) => {
                    at = above;
                    hops = hops + 1;
                },
            }
        }
        hops
    }

    /// Pass on the fee that the market sent for a bettor: to their referrer,
    /// if they have one, or back to the bettor. Market only.
    pub fn credit(
        &mut self,
        env: &mut Env<DataKey>,
        caller: Address,
        user: Address,
        fee: i128,
        leaderboard_version: Option<u32>,
    ) -> (r: Result<bool, ReferralRegistryError>)
        requires
            old(self)@.wf(),
            old(self)@.credit(old(env).ledger, caller, user, fee, leaderboard_version) is Ok
                && old(self)@.referrers.dom().contains(user) ==> old(self)@.earned(
                old(self)@.referrers[user],
            ) + fee <= i128::MAX,
        ensures
            final(self)@.wf(),
            settles(
                old(self)@.credit(old(env).ledger, caller, user, fee, leaderboard_version),
                (old(self)@, final(self)@),
                (*old(env), *final(env)),
                r,
            ),
    {
        self.check_credit(caller, user, fee)?;
        let contracts: Contracts = self.get_contracts();
        let this: Address = env.ledger.this;
        match self.referrers.find(user) {
            None => {
                env.ask(Effect::RequireAuth(caller));
                env.ask(
                    Effect::Transfer {
                        asset: contracts.xlm_sac,
                        from: this,
                        to: user,
                        amount: fee,
                    },
                );
                Ok(false)
            },
            Some(who) => {
                Self::require_interface_version(leaderboard_version)?;
                env.ask(Effect::RequireAuth(caller));
                env.ask(
                    Effect::Transfer {
                        asset: contracts.xlm_sac,
                        from: this,
                        to: who,
                        amount: fee,
                    },
                );
                env.ask(
                    Effect::AddBonusPts {
                        leaderboard: contracts.leaderboard,
                        user: who,
                        pts: REFERRAL_BET_POINTS,
                    },
                );
                let earned: i128 = self.earnings.get_or(who, 0);
                assert(earned >= 0);
                self.earnings.set(who, earned + fee);
                proof {
                    lemma_settings_keep(old(self)@, self@);
                }
                Ok(true)
            },
        }
    }

    /// Whether a credit would be taken, before the leaderboard is asked.
    pub fn check_credit(&self, caller: Address, user: Address, fee: i128) -> (r: Result<
        (),
        ReferralRegistryError,
    >)
        ensures
            match self@.credit_refusal(caller, user, fee) {
                Some(e) => r == Err::<(), ReferralRegistryError>(e),
                None => r == Ok::<(), ReferralRegistryError>(()),
            },
    {
        self.require_not_paused()?;
        match self.contracts {
            None => {
                return Err(ReferralRegistryError::NotInitialized);
            },
            Some(c) => {
                if caller != c.market {
                    return Err(ReferralRegistryError::UnauthorizedCaller);
                }
            },
        }
        self.require_trust_not_revoked(Role::Market)?;
        if fee <= 0 {
            return Err(ReferralRegistryError::InvalidAmount);
        }
        self.require_trust_not_revoked(Role::XlmSac)?;
        if self.referrers.has(user) {
            self.require_trust_not_revoked(Role::Leaderboard)?;
        }
        Ok(())
    }

    pub fn get_referrer(&self, user: Address) -> (r: Option<Address>)
        ensures
            r == find(self@.referrers, user),
    {
        self.referrers.find(user)
    }

    /// How many users a referrer referred.
    pub fn get_referrer_count(&self, referrer: Address) -> (n: u32)
        ensures
            n == self@.count(referrer),
            self@.counted() ==> n == sum(self@.referrers, referred_by(referrer)),
    {
        assert(self@.counted() ==> lookup(self@.counts, referrer, 0) == sum(
            self@.referrers,
            referred_by(referrer),
        ));
        self.counts.get_or(referrer, 0)
    }

    /// What a referrer was paid so far.
    pub fn get_earnings(&self, referrer: Address) -> (n: i128)
        ensures
            n == self@.earned(referrer),
    {
        self.earnings.get_or(referrer, 0)
    }

    pub fn is_registered(&self, user: Address) -> (b: bool)
        ensures
            b == self@.is_registered(user),
    {
        self.profiles.has(user)
    }

    pub fn get_display_name(&self, user: Address) -> (name: Option<String>)
        ensures
            match name {
                Some(n) => find(self@.names, user) == Some(n@),
                None => find(self@.names, user) is None,
            },
    {
        match self.profiles.get(user) {
            Some(p) => Some(p.display_name.clone()),
            None => None,
        }
    }

    fn require_admin(&self, caller: Address) -> (r: Result<(), ReferralRegistryError>)
        ensures
            match self@.admin_refusal(caller) {
                Some(e) => r == Err::<(), ReferralRegistryError>(e),
                None => r == Ok::<(), ReferralRegistryError>(()),
            },
    {
        match self.admin {
            None => Err(ReferralRegistryError::NotInitialized),
            Some(admin) => if caller != admin {
                Err(ReferralRegistryError::NotAdmin)
            } else {
                Ok(())
            },
        }
    }

    fn require_not_paused(&self) -> (r: Result<(), ReferralRegistryError>)
        ensures
            r == (if self@.is_paused() {
                Err::<(), ReferralRegistryError>(ReferralRegistryError::ContractPaused)
            } else {
                Ok(())
            }),
    {
        if self.is_paused() {
            return Err(ReferralRegistryError::ContractPaused);
        }
        Ok(())
    }

    fn require_trust_not_revoked(&self, role: Role) -> (r: Result<(), ReferralRegistryError>)
        ensures
            r == (if self@.is_revoked(role) {
                Err::<(), ReferralRegistryError>(ReferralRegistryError::TrustRevoked)
            } else {
                Ok(())
            }),
    {
        if self.trust_revoked.get_or(role, false) {
            return Err(ReferralRegistryError::TrustRevoked);
        }
        Ok(())
    }

    fn require_interface_version(version: Option<u32>) -> (r: Result<(), ReferralRegistryError>)
        ensures
            match version_refusal(version) {
                Some(e) => r == Err::<(), ReferralRegistryError>(e),
                None => r == Ok::<(), ReferralRegistryError>(()),
            },
    {
        match version {
            None => Err(ReferralRegistryError::InterfaceVersionMissing),
            Some(v) => if v < LEADERBOARD_BONUS_INTERFACE_VERSION {
                Err(ReferralRegistryError::IncompatibleInterface)
            } else {
                Ok(())
            },
        }
    }
}

} // verus!
