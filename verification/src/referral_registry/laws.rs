//! What holds of the registry as a whole.
use crate::address::{Address, WasmHash};
use crate::env::{Effect, Ledger};
use crate::referral_registry::contract::{lemma_referral_keeps, lemma_settings_keep};
use crate::referral_registry::model::{
    depth, role_named, Contracts, ReferralRegistryError, RegistryState, Role, Verdict,
    MAX_REFERRAL_DEPTH,
};
use crate::table::find;
use vstd::prelude::*;

verus! {

/// A call that may change the registry, with its arguments.
pub enum RegistryCall {
    Initialize { admin: Address, contracts: Contracts },
    Upgrade { admin: Address, hash: WasmHash },
    SetPaused { admin: Address, paused: bool },
    SetInterfaceVersion { admin: Address, version: u32 },
    SetTokenContract { admin: Address, token: Address },
    SetXlmSac { admin: Address, xlm_sac: Address },
    RevokeTrust { admin: Address, role: Seq<char> },
    RestoreTrust { admin: Address, role: Seq<char> },
    Register { caller: Address, name: Seq<char> },
    RegisterReferral {
        user: Address,
        name: Seq<char>,
        referrer: Option<Address>,
        leaderboard_version: Option<u32>,
    },
    Credit { caller: Address, user: Address, fee: i128, leaderboard_version: Option<u32> },
}

/// The state a call leaves: a refused call changes nothing.
pub open spec fn left_by<R>(s: RegistryState, v: Verdict<R>) -> RegistryState {
    match v {
        Ok(o) => o.state,
        Err(_) => s,
    }
}

impl RegistryState {
    /// The state after a call.
    pub open spec fn after(self, ledger: Ledger, call: RegistryCall) -> RegistryState {
        match call {
            RegistryCall::Initialize { admin, contracts } => left_by(
                self,
                self.initialize(admin, contracts),
            ),
            RegistryCall::Upgrade { admin, hash } => left_by(self, self.upgrade(admin, hash)),
            RegistryCall::SetPaused { admin, paused } => left_by(
                self,
                self.set_paused(admin, paused),
            ),
            RegistryCall::SetInterfaceVersion { admin, version } => left_by(
                self,
                self.set_interface_version(admin, version),
            ),
            RegistryCall::SetTokenContract { admin, token } => left_by(
                self,
                self.set_token_contract(admin, token),
            ),
            RegistryCall::SetXlmSac { admin, xlm_sac } => left_by(
                self,
                self.set_xlm_sac(admin, xlm_sac),
            ),
            RegistryCall::RevokeTrust { admin, role } => left_by(
                self,
                self.revoke_trust(admin, role),
            ),
            RegistryCall::RestoreTrust { admin, role } => left_by(
                self,
                self.restore_trust(admin, role),
            ),
            RegistryCall::Register { caller, name } => left_by(self, self.register(caller, name)),
            RegistryCall::RegisterReferral { user, name, referrer, leaderboard_version } => left_by(
                self,
                self.register_referral(user, name, referrer, leaderboard_version),
            ),
            RegistryCall::Credit { caller, user, fee, leaderboard_version } => left_by(
                self,
                self.credit(ledger, caller, user, fee, leaderboard_version),
            ),
        }
    }

    /// The machine's counters can take the call, if it is taken.
    pub open spec fn fits(self, ledger: Ledger, call: RegistryCall) -> bool {
        match call {
            RegistryCall::RegisterReferral { user, name, referrer, leaderboard_version } => {
                self.register_referral(user, name, referrer, leaderboard_version) is Ok
                    && referrer is Some ==> self.count(referrer->0) < u32::MAX
            },
            RegistryCall::Credit { caller, user, fee, leaderboard_version } => {
                self.credit(ledger, caller, user, fee, leaderboard_version) is Ok
                    && self.referrers.dom().contains(user) ==> self.earned(self.referrers[user])
                    + fee <= i128::MAX
            },
            _ => true,
        }
    }
}

/// Every call keeps the registry well-formed, with both sides of every referral
/// registered, and everybody's count of referrals right.
pub proof fn law_calls_keep_the_registry(s: RegistryState, ledger: Ledger, call: RegistryCall)
    requires
        s.wf(),
        s.fits(ledger, call),
    ensures
        s.after(ledger, call).wf(),
        s.counted() ==> s.after(ledger, call).counted(),
{
    let t = s.after(ledger, call);
    match call {
        RegistryCall::RegisterReferral { user, name, referrer, leaderboard_version } => {
            if s.register_referral(user, name, referrer, leaderboard_version) is Ok {
                let mid = if s.is_registered(user) {
                    s
                } else {
                    RegistryState { names: s.names.insert(user, name), ..s }
                };
                lemma_settings_keep(s, mid);
                if let Some(who) = referrer {
                    lemma_referral_keeps(mid, user, who);
                }
            }
        },
        RegistryCall::Credit { caller, user, fee, leaderboard_version } => {
            if s.credit(ledger, caller, user, fee, leaderboard_version) is Ok {
                if let Some(who) = find(s.referrers, user) {
                    if s.earnings.dom().contains(who) {
                        assert(s.earnings[who] >= 0);
                    }
                }
                lemma_settings_keep(s, t);
            }
        },
        _ => {
            lemma_settings_keep(s, t);
        },
    }
}

/// No call changes or removes a display name or a referrer once it is on
/// record.
pub proof fn law_records_stick(
    s: RegistryState,
    ledger: Ledger,
    call: RegistryCall,
    user: Address,
)
    requires
        s.wf(),
    ensures
        s.names.dom().contains(user) ==> find(s.after(ledger, call).names, user) == find(
            s.names,
            user,
        ),
        s.referrers.dom().contains(user) ==> find(s.after(ledger, call).referrers, user) == find(
            s.referrers,
            user,
        ),
{
    assert(s.referrers.dom().contains(user) ==> s.is_registered(user));
    lemma_records_stick(s, ledger, call, user);
}

proof fn lemma_records_stick(
    s: RegistryState,
    ledger: Ledger,
    call: RegistryCall,
    user: Address,
)
    requires
        s.referrers.dom().contains(user) ==> s.is_registered(user),
    ensures
        s.names.dom().contains(user) ==> find(s.after(ledger, call).names, user) == find(
            s.names,
            user,
        ),
        s.referrers.dom().contains(user) ==> find(s.after(ledger, call).referrers, user) == find(
            s.referrers,
            user,
        ),
{
    let t = s.after(ledger, call);
    match call {
        RegistryCall::Initialize { admin, contracts } => {
            assert(t == s || t.names == s.names.insert(admin, Seq::empty()));
            assert(t.referrers == s.referrers);
        },
        RegistryCall::Register { caller, name } => {
            assert(t == s || t.names == s.names.insert(caller, name));
            assert(t.referrers == s.referrers);
        },
        RegistryCall::RegisterReferral { user: who, name, referrer, leaderboard_version } => {
            let v = s.register_referral(who, name, referrer, leaderboard_version);
            if v is Ok {
                assert(t.names == s.names || !s.is_registered(who) && t.names == s.names.insert(
                    who,
                    name,
                ));
                assert(t.referrers == s.referrers || t.referrers == s.referrers.insert(
                    who,
                    referrer->0,
                ));
            }
        },
        _ => {
            assert(t.names == s.names);
            assert(t.referrers == s.referrers);
        },
    }
}

/// A name that was registered reads back as it was given, nobody else's name
/// changes, and it cannot be registered over.
pub proof fn law_names_read_back(
    s: RegistryState,
    user: Address,
    name: Seq<char>,
    other: Address,
    again: Seq<char>,
)
    requires
        other != user,
    ensures
        s.register(user, name) matches Ok(o) ==> {
            &&& find(o.state.names, user) == Some(name)
            &&& find(o.state.names, other) == find(s.names, other)
            &&& o.state.register(user, again) is Err
        },
{
}

/// The welcome bonus goes to those who register for the first time, and so to
/// nobody twice.
pub proof fn law_everybody_is_welcomed_once(
    s: RegistryState,
    user: Address,
    name: Seq<char>,
    referrer: Option<Address>,
    leaderboard_version: Option<u32>,
)
    ensures
        s.register_referral(user, name, referrer, leaderboard_version) matches Ok(o) ==> {
            &&& o.state.is_registered(user)
            &&& (exists|i: int|
                0 <= i < o.effects.len() && #[trigger] o.effects[i] is RewardBonus)
                <==> !s.is_registered(user)
        },
{
    if let Ok(o) = s.register_referral(user, name, referrer, leaderboard_version) {
        if !s.is_registered(user) {
            assert(o.effects[1] is RewardBonus);
        }
    }
}

/// A fee is passed on whole and to one party: to the referrer, whose earnings
/// grow by it, or back to the bettor. Nobody else's earnings change.
pub proof fn law_fees_are_passed_on(
    s: RegistryState,
    ledger: Ledger,
    caller: Address,
    user: Address,
    fee: i128,
    leaderboard_version: Option<u32>,
    other: Address,
)
    requires
        s.wf(),
        s.fits(ledger, RegistryCall::Credit { caller, user, fee, leaderboard_version }),
    ensures
        s.credit(ledger, caller, user, fee, leaderboard_version) matches Ok(o) ==> {
            let to = match find(s.referrers, user) {
                Some(who) => who,
                None => user,
            };
            &&& o.value == s.referrers.dom().contains(user)
            &&& o.effects[1] == (Effect::Transfer {
                asset: s.contracts->0.xlm_sac,
                from: ledger.this,
                to,
                amount: fee,
            })
            &&& forall|i: int|
                0 <= i < o.effects.len() && i != 1 ==> !(#[trigger] o.effects[i] is Transfer)
            &&& o.state.earned(other) - s.earned(other) == (if o.value && other == to {
                fee as int
            } else {
                0
            })
        },
{
    if s.earnings.dom().contains(other) {
        assert(s.earnings[other] >= 0);
    }
}

proof fn lemma_depth_ignores(
    referrers: Map<Address, Address>,
    user: Address,
    above: Address,
    who: Address,
    limit: nat,
)
    requires
        who != user,
        forall|u: Address| #[trigger] referrers.dom().contains(u) ==> referrers[u] != user,
    ensures
        depth(referrers.insert(user, above), who, limit) == depth(referrers, who, limit),
    decreases limit,
{
    if limit > 0 && referrers.dom().contains(who) {
        lemma_depth_ignores(referrers, user, above, referrers[who], (limit - 1) as nat);
    }
}

proof fn lemma_depth_settles(referrers: Map<Address, Address>, who: Address, limit: nat, more: nat)
    requires
        depth(referrers, who, limit) < limit <= more,
    ensures
        depth(referrers, who, more) == depth(referrers, who, limit),
    decreases limit,
{
    if referrers.dom().contains(who) {
        lemma_depth_settles(referrers, referrers[who], (limit - 1) as nat, (more - 1) as nat);
    }
}

/// The chain of referrers above somebody who registers for the first time is
/// shorter than the limit, however far it is followed.
pub proof fn law_new_chains_are_short(
    s: RegistryState,
    user: Address,
    name: Seq<char>,
    referrer: Option<Address>,
    leaderboard_version: Option<u32>,
    limit: nat,
)
    requires
        s.wf(),
        !s.is_registered(user),
    ensures
        s.register_referral(user, name, referrer, leaderboard_version) matches Ok(o) ==> depth(
            o.state.referrers,
            user,
            limit,
        ) < MAX_REFERRAL_DEPTH,
{
    if let Ok(o) = s.register_referral(user, name, referrer, leaderboard_version) {
        assert(!s.referrers.dom().contains(user));
        if let Some(who) = referrer {
            assert forall|u: Address| #[trigger] s.referrers.dom().contains(
                u,
            ) implies s.referrers[u] != user by {
                assert(s.is_registered(s.referrers[u]));
            }
            if limit > 0 {
                let rest = (limit - 1) as nat;
                lemma_depth_ignores(s.referrers, user, who, who, rest);
                if rest >= MAX_REFERRAL_DEPTH {
                    lemma_depth_settles(s.referrers, who, MAX_REFERRAL_DEPTH as nat, rest);
                } else {
                    lemma_depth_grows(s.referrers, who, rest, MAX_REFERRAL_DEPTH as nat);
                }
            }
        }
    }
}

proof fn lemma_depth_grows(referrers: Map<Address, Address>, who: Address, limit: nat, more: nat)
    requires
        limit <= more,
    ensures
        depth(referrers, who, limit) <= depth(referrers, who, more),
    decreases limit,
{
    if limit > 0 && referrers.dom().contains(who) {
        lemma_depth_grows(referrers, referrers[who], (limit - 1) as nat, (more - 1) as nat);
    }
}

/// While trust in a contract is revoked, what depends on it is refused. Only
/// restoring it ends this: no other call does, not even a change of the
/// contract's address.
pub proof fn law_revocations_hold(
    s: RegistryState,
    ledger: Ledger,
    call: RegistryCall,
    role: Role,
    caller: Address,
    user: Address,
    name: Seq<char>,
    referrer: Option<Address>,
    fee: i128,
    version: Option<u32>,
)
    requires
        s.is_revoked(role),
        call matches RegistryCall::RestoreTrust { role: named, .. } ==> role_named(named) != Some(
            role,
        ),
    ensures
        s.after(ledger, call).is_revoked(role),
        role is Market || role is XlmSac ==> s.credit(ledger, caller, user, fee, version) is Err,
        role is Leaderboard ==> s.register_referral(user, name, referrer, version) is Err,
        role is Leaderboard && s.referrers.dom().contains(user) ==> s.credit(
            ledger,
            caller,
            user,
            fee,
            version,
        ) is Err,
{
}

/// While the registry is paused, it takes no referrals and passes on no fees,
/// and says why.
pub proof fn law_pause_halts(
    s: RegistryState,
    caller: Address,
    user: Address,
    name: Seq<char>,
    referrer: Option<Address>,
    fee: i128,
)
    requires
        s.is_paused(),
    ensures
        s.registration_refusal(user, name, referrer) == Some(ReferralRegistryError::ContractPaused),
        s.credit_refusal(caller, user, fee) == Some(ReferralRegistryError::ContractPaused),
{
}

} // verus!
