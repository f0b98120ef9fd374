//! What users of the registry can rely on, said of the arguments of a call and
//! of the stored records before and after it.
use crate::address::{Address, WasmHash};
use crate::env::{Effect, Ledger};
use crate::referral_registry::model::{
    depth, role_named, Contracts, DataKey, ReferralRegistryError, RegistryState, Role, Verdict,
};
use crate::table::{find, lookup};
use vstd::prelude::*;
use vstd::utf8::encode_utf8;

verus! {

/// A call was refused with this error.
pub open spec fn refused_as<R>(r: Verdict<R>, e: ReferralRegistryError) -> bool {
    r is Err && r->Err_0 == e
}

/// Only settings differ: names, referrals and earnings are as they were.
pub open spec fn same_people(s: RegistryState, t: RegistryState) -> bool {
    &&& t.names == s.names
    &&& t.referrers == s.referrers
    &&& t.counts == s.counts
    &&& t.earnings == s.earnings
}

/// Only names, referrals and earnings differ.
pub open spec fn same_settings(s: RegistryState, t: RegistryState) -> bool {
    &&& t.admin == s.admin
    &&& t.contracts == s.contracts
    &&& t.interface_version == s.interface_version
    &&& t.paused == s.paused
    &&& t.trust_revoked == s.trust_revoked
}

/// The call has the admin's signature asked for, and nothing else.
pub open spec fn signed_only(r: Verdict<()>, admin: Address) -> bool {
    r matches Ok(o) && o.effects == seq![Effect::RequireAuth(admin)]
}

/// Somebody has four others in the chain of referrers above them.
pub open spec fn four_above(referrers: Map<Address, Address>, who: Address) -> bool {
    find(referrers, who) matches Some(a) && find(referrers, a) matches Some(b) && find(
        referrers,
        b,
    ) matches Some(c) && find(referrers, c) is Some
}

/// The registry is set up once, by somebody who is not registered yet, with the
/// contracts that were given; the admin is registered under an empty name.
pub proof fn law_set_up_as_told(
    s: RegistryState,
    admin: Address,
    contracts: Contracts,
    other: Address,
)
    requires
        other != admin,
    ensures
        ({
            let r = s.initialize(admin, contracts);
            let fresh = s.admin is None && !s.names.dom().contains(admin);
            &&& !fresh ==> refused_as(r, ReferralRegistryError::AlreadyInitialized)
            &&& r is Ok == fresh
            &&& r matches Ok(o) ==> {
                &&& o.state.admin == Some(admin)
                &&& o.state.contracts == Some(contracts)
                &&& o.state.interface_version == Some(1u32)
                &&& find(o.state.names, admin) == Some(Seq::<char>::empty())
                &&& find(o.state.names, other) == find(s.names, other)
                &&& o.state.referrers == s.referrers
                &&& o.state.counts == s.counts
                &&& o.state.earnings == s.earnings
                &&& o.state.paused == s.paused
                &&& o.state.trust_revoked == s.trust_revoked
                &&& o.renewed == Set::<DataKey>::empty()
                &&& !o.instance_renewed
                &&& o.effects == seq![Effect::RequireAuth(admin)]
            }
        }),
{
}

/// Nobody but the admin changes a setting, and nobody at all before there is an
/// admin. Each of these calls changes the one thing it is for.
pub proof fn law_admin_calls_do_one_thing(
    s: RegistryState,
    caller: Address,
    hash: WasmHash,
    paused: bool,
    version: u32,
    addr: Address,
)
    requires
        s.wf(),
    ensures
        ({
            let code = s.upgrade(caller, hash);
            let pause = s.set_paused(caller, paused);
            let declare = s.set_interface_version(caller, version);
            let token = s.set_token_contract(caller, addr);
            let sac = s.set_xlm_sac(caller, addr);
            &&& s.admin is None ==> {
                &&& refused_as(code, ReferralRegistryError::NotInitialized)
                &&& refused_as(pause, ReferralRegistryError::NotInitialized)
                &&& refused_as(declare, ReferralRegistryError::NotInitialized)
                &&& refused_as(token, ReferralRegistryError::NotInitialized)
                &&& refused_as(sac, ReferralRegistryError::NotInitialized)
            }
            &&& s.admin is Some && s.admin != Some(caller) ==> {
                &&& refused_as(code, ReferralRegistryError::NotAdmin)
                &&& refused_as(pause, ReferralRegistryError::NotAdmin)
                &&& refused_as(declare, ReferralRegistryError::NotAdmin)
                &&& refused_as(token, ReferralRegistryError::NotAdmin)
                &&& refused_as(sac, ReferralRegistryError::NotAdmin)
            }
            &&& s.admin == Some(caller) ==> {
                &&& code matches Ok(o) && o.state == s && o.effects == seq![
                    Effect::RequireAuth(caller),
                    Effect::UpdateWasm(hash),
                ]
                &&& signed_only(pause, caller) && pause->Ok_0.state == (RegistryState {
                    paused: Some(paused),
                    ..s
                })
                &&& signed_only(declare, caller) && declare->Ok_0.state == (RegistryState {
                    interface_version: Some(version),
                    ..s
                })
                &&& signed_only(token, caller) && same_people(s, token->Ok_0.state)
                &&& token->Ok_0.state.contracts matches Some(c) && c.token == addr && c.market
                    == s.contracts->0.market && c.leaderboard == s.contracts->0.leaderboard
                    && c.xlm_sac == s.contracts->0.xlm_sac
                &&& token->Ok_0.state.admin == s.admin
                &&& token->Ok_0.state.paused == s.paused
                &&& token->Ok_0.state.interface_version == s.interface_version
                &&& token->Ok_0.state.trust_revoked == s.trust_revoked
                &&& signed_only(sac, caller) && same_people(s, sac->Ok_0.state)
                &&& sac->Ok_0.state.contracts matches Some(c) && c.xlm_sac == addr && c.market
                    == s.contracts->0.market && c.leaderboard == s.contracts->0.leaderboard
                    && c.token == s.contracts->0.token
                &&& sac->Ok_0.state.admin == s.admin
                &&& sac->Ok_0.state.paused == s.paused
                &&& sac->Ok_0.state.interface_version == s.interface_version
                &&& sac->Ok_0.state.trust_revoked == s.trust_revoked
            }
        }),
{
}

/// The admin alone revokes and restores trust, in the contract that the name
/// stands for and in no other; what one does the other undoes. A name that
/// stands for no contract is refused.
pub proof fn law_trust_is_revoked_and_restored(
    s: RegistryState,
    caller: Address,
    name: Seq<char>,
    role: Role,
    other: Role,
)
    requires
        other != role,
    ensures
        ({
            let off = s.revoke_trust(caller, name);
            let on = s.restore_trust(caller, name);
            let named = match role {
                Role::Market => name == "market"@,
                Role::Leaderboard => name == "leaderboard"@,
                Role::Token => name == "token"@,
                Role::XlmSac => name == "xlm_sac"@,
            };
            let known = name == "market"@ || name == "leaderboard"@ || name == "token"@ || name
                == "xlm_sac"@;
            &&& s.admin is None ==> refused_as(off, ReferralRegistryError::NotInitialized)
                && refused_as(on, ReferralRegistryError::NotInitialized)
            &&& s.admin is Some && s.admin != Some(caller) ==> refused_as(
                off,
                ReferralRegistryError::NotAdmin,
            ) && refused_as(on, ReferralRegistryError::NotAdmin)
            &&& s.admin == Some(caller) && !known ==> refused_as(
                off,
                ReferralRegistryError::InvalidRole,
            ) && refused_as(on, ReferralRegistryError::InvalidRole)
            &&& s.admin == Some(caller) && known ==> off is Ok && on is Ok
            &&& s.admin == Some(caller) && named ==> {
                &&& signed_only(off, caller)
                &&& lookup(off->Ok_0.state.trust_revoked, role, false)
                &&& find(off->Ok_0.state.trust_revoked, other) == find(s.trust_revoked, other)
                &&& off->Ok_0.state == (RegistryState {
                    trust_revoked: off->Ok_0.state.trust_revoked,
                    ..s
                })
                &&& off->Ok_0.renewed == set![DataKey::TrustRevoked(role)]
                &&& signed_only(on, caller)
                &&& !lookup(on->Ok_0.state.trust_revoked, role, false)
                &&& find(on->Ok_0.state.trust_revoked, other) == find(s.trust_revoked, other)
                &&& on->Ok_0.state == (RegistryState {
                    trust_revoked: on->Ok_0.state.trust_revoked,
                    ..s
                })
                &&& role_named(name) == Some(role)
            }
            &&& !known ==> role_named(name) is None
        }),
{
    reveal_strlit("market");
    reveal_strlit("leaderboard");
    reveal_strlit("token");
    reveal_strlit("xlm_sac");
    assert("market"@[0] != "leaderboard"@[0]);
    assert("market"@[0] != "token"@[0]);
    assert("market"@[0] != "xlm_sac"@[0]);
    assert("leaderboard"@[0] != "token"@[0]);
    assert("leaderboard"@[0] != "xlm_sac"@[0]);
    assert("token"@[0] != "xlm_sac"@[0]);
}

/// Whoever is not registered can register under a name of at most 64 bytes,
/// which is then the name on record; nothing else changes. They sign for it.
pub proof fn law_registering_records_the_name(
    s: RegistryState,
    caller: Address,
    name: Seq<char>,
    other: Address,
)
    requires
        other != caller,
    ensures
        ({
            let r = s.register(caller, name);
            let long = encode_utf8(name).len() > 64;
            let known = s.names.dom().contains(caller);
            &&& long ==> refused_as(r, ReferralRegistryError::DisplayNameTooLong)
            &&& !long && known ==> refused_as(r, ReferralRegistryError::AlreadyInitialized)
            &&& r is Ok == (!long && !known)
            &&& r matches Ok(o) ==> {
                &&& find(o.state.names, caller) == Some(name)
                &&& find(o.state.names, other) == find(s.names, other)
                &&& o.state == (RegistryState { names: o.state.names, ..s })
                &&& signed_only(r, caller)
            }
        }),
{
}

/// A chain of referrers is followed as far as it goes, up to five of them.
pub proof fn law_depth_counts_the_chain(referrers: Map<Address, Address>, who: Address)
    ensures
        depth(referrers, who, 5) <= 5,
        find(referrers, who) is None ==> depth(referrers, who, 5) == 0,
        (depth(referrers, who, 5) >= 4) == four_above(referrers, who),
        find(referrers, who) matches Some(a) && find(referrers, a) is None ==> depth(
            referrers,
            who,
            5,
        ) == 1,
        find(referrers, who) matches Some(a) && find(referrers, a) matches Some(b) && find(
            referrers,
            b,
        ) is None ==> depth(referrers, who, 5) == 2,
        find(referrers, who) matches Some(a) && find(referrers, a) matches Some(b) && find(
            referrers,
            b,
        ) matches Some(c) && find(referrers, c) is None ==> depth(referrers, who, 5) == 3,
        find(referrers, who) matches Some(a) && find(referrers, a) matches Some(b) && find(
            referrers,
            b,
        ) matches Some(c) && find(referrers, c) matches Some(d) && find(referrers, d) is None
            ==> depth(referrers, who, 5) == 4,
{
    reveal_with_fuel(depth, 6);
}

/// Which registrations are taken, and why each of the others is not. A name is at
/// most 64 bytes long. A referrer is somebody else, registered, with fewer than
/// four others above them. Somebody who is registered may still name a referrer
/// once. The leaderboard has to be trusted and to declare a version.
pub proof fn law_which_registrations_are_taken(
    s: RegistryState,
    user: Address,
    name: Seq<char>,
    referrer: Option<Address>,
    version: Option<u32>,
)
    ensures
        ({
            let r = s.register_referral(user, name, referrer, version);
            let paused = s.paused == Some(true);
            let ready = !paused && s.contracts is Some;
            let short = ready && encode_utf8(name).len() <= 64;
            let others = short && referrer != Some(user);
            let known = s.names.dom().contains(user);
            let late = known && (referrer is None || s.referrers.dom().contains(user));
            let free = others && !late;
            let found = free && (referrer matches Some(w) ==> s.names.dom().contains(w));
            let near = found && (referrer matches Some(w) ==> !four_above(s.referrers, w));
            let trusted = near && !lookup(s.trust_revoked, Role::Leaderboard, false);
            &&& paused ==> refused_as(r, ReferralRegistryError::ContractPaused)
            &&& !paused && s.contracts is None ==> refused_as(
                r,
                ReferralRegistryError::NotInitialized,
            )
            &&& ready && !short ==> refused_as(r, ReferralRegistryError::DisplayNameTooLong)
            &&& short && !others ==> refused_as(r, ReferralRegistryError::SelfReferral)
            &&& others && !free ==> refused_as(r, ReferralRegistryError::AlreadyRegistered)
            &&& free && !found ==> refused_as(r, ReferralRegistryError::InvalidReferrer)
            &&& found && !near ==> refused_as(r, ReferralRegistryError::ReferralTooDeep)
            &&& near && !trusted ==> refused_as(r, ReferralRegistryError::TrustRevoked)
            &&& trusted && version is None ==> refused_as(
                r,
                ReferralRegistryError::InterfaceVersionMissing,
            )
            &&& trusted && version == Some(0u32) ==> refused_as(
                r,
                ReferralRegistryError::IncompatibleInterface,
            )
            &&& r is Ok == (trusted && version is Some && version->0 >= 1)
            &&& trusted == (s.registration_refusal(user, name, referrer) is None)
        }),
{
    if let Some(w) = referrer {
        law_depth_counts_the_chain(s.referrers, w);
    }
}

/// What a registration puts on record. Somebody new is on record under the name
/// they gave, with or without a referrer; somebody who was registered keeps their
/// name. The referrer on record is the one given, whose count grows by one. Nobody
/// else's name or referrer, nobody else's count and no earnings change. Somebody
/// new, and nobody else, is welcomed with 5 points and one token.
pub proof fn law_registrations_are_recorded(
    s: RegistryState,
    user: Address,
    name: Seq<char>,
    referrer: Option<Address>,
    version: Option<u32>,
    other: Address,
)
    requires
        other != user,
    ensures
        s.register_referral(user, name, referrer, version) matches Ok(o) ==> {
            let known = s.names.dom().contains(user);
            &&& !known ==> find(o.state.names, user) == Some(name)
            &&& known ==> find(o.state.names, user) == find(s.names, user)
            &&& find(o.state.names, other) == find(s.names, other)
            &&& referrer is Some ==> find(o.state.referrers, user) == referrer
            &&& referrer is None ==> find(o.state.referrers, user) == find(s.referrers, user)
            &&& find(o.state.referrers, other) == find(s.referrers, other)
            &&& referrer matches Some(w) ==> lookup(s.counts, w, 0) < u32::MAX ==> lookup(
                o.state.counts,
                w,
                0,
            ) == lookup(s.counts, w, 0) + 1
            &&& referrer != Some(other) ==> find(o.state.counts, other) == find(s.counts, other)
            &&& referrer != Some(user) ==> find(o.state.counts, user) == find(s.counts, user)
            &&& o.state.earnings == s.earnings
            &&& same_settings(s, o.state)
            &&& known ==> o.effects == seq![Effect::RequireAuth(user)]
            &&& !known ==> o.effects == seq![
                Effect::RequireAuth(user),
                Effect::RewardBonus {
                    leaderboard: s.contracts->0.leaderboard,
                    user,
                    pts: 5,
                    tokens: 1_0000000,
                },
            ]
            &&& o.renewed == Set::<DataKey>::empty()
            &&& !o.instance_renewed
        },
{
}

/// Which fees are passed on, and why each of the others is not: the market
/// contract alone brings them, all contracts that take part are trusted, and where
/// there is a referrer the leaderboard declares a version.
pub proof fn law_which_fees_are_passed_on(
    s: RegistryState,
    ledger: Ledger,
    caller: Address,
    user: Address,
    fee: i128,
    version: Option<u32>,
)
    ensures
        ({
            let r = s.credit(ledger, caller, user, fee, version);
            let paused = s.paused == Some(true);
            let ready = !paused && s.contracts is Some;
            let market = ready && caller == s.contracts->0.market;
            let trusted = market && !lookup(s.trust_revoked, Role::Market, false);
            let positive = trusted && fee > 0;
            let referred = s.referrers.dom().contains(user);
            let clear = positive && !lookup(s.trust_revoked, Role::XlmSac, false) && !(referred
                && lookup(s.trust_revoked, Role::Leaderboard, false));
            &&& paused ==> refused_as(r, ReferralRegistryError::ContractPaused)
            &&& !paused && s.contracts is None ==> refused_as(
                r,
                ReferralRegistryError::NotInitialized,
            )
            &&& ready && !market ==> refused_as(r, ReferralRegistryError::UnauthorizedCaller)
            &&& market && !trusted ==> refused_as(r, ReferralRegistryError::TrustRevoked)
            &&& trusted && !positive ==> refused_as(r, ReferralRegistryError::InvalidAmount)
            &&& positive && !clear ==> refused_as(r, ReferralRegistryError::TrustRevoked)
            &&& clear && referred && version is None ==> refused_as(
                r,
                ReferralRegistryError::InterfaceVersionMissing,
            )
            &&& clear && referred && version == Some(0u32) ==> refused_as(
                r,
                ReferralRegistryError::IncompatibleInterface,
            )
            &&& r is Ok == (clear && (referred ==> version is Some && version->0 >= 1))
            &&& clear == (s.credit_refusal(caller, user, fee) is None)
        }),
{
}

/// What passing on a fee does: the whole fee goes to the bettor's referrer, whose
/// earnings grow by it and who gets 3 points; or, where there is none, back to the
/// bettor, and nothing is put on record. The answer says which.
pub proof fn law_fees_reach_one_party(
    s: RegistryState,
    ledger: Ledger,
    caller: Address,
    user: Address,
    fee: i128,
    version: Option<u32>,
    other: Address,
)
    ensures
        s.credit(ledger, caller, user, fee, version) matches Ok(o) ==> {
            let c = s.contracts->0;
            &&& o.value == s.referrers.dom().contains(user)
            &&& find(s.referrers, user) is None ==> o.state == s && o.effects == seq![
                Effect::RequireAuth(caller),
                Effect::Transfer { asset: c.xlm_sac, from: ledger.this, to: user, amount: fee },
            ]
            &&& find(s.referrers, user) matches Some(w) ==> {
                &&& lookup(s.earnings, w, 0) + fee <= i128::MAX && lookup(s.earnings, w, 0) >= 0
                    ==> lookup(o.state.earnings, w, 0) == lookup(s.earnings, w, 0) + fee
                &&& other != w ==> find(o.state.earnings, other) == find(s.earnings, other)
                &&& o.state == (RegistryState { earnings: o.state.earnings, ..s })
                &&& o.effects == seq![
                    Effect::RequireAuth(caller),
                    Effect::Transfer { asset: c.xlm_sac, from: ledger.this, to: w, amount: fee },
                    Effect::AddBonusPts { leaderboard: c.leaderboard, user: w, pts: 3 },
                ]
            }
            &&& o.renewed == Set::<DataKey>::empty()
            &&& !o.instance_renewed
        },
{
}

/// What the registry reports is what is on record.
pub proof fn law_reports_are_the_records(s: RegistryState, who: Address, role: Role)
    ensures
        s.is_paused() == (s.paused == Some(true)),
        s.is_revoked(role) == (find(s.trust_revoked, role) == Some(true)),
        s.is_registered(who) == s.names.dom().contains(who),
        s.count(who) == lookup(s.counts, who, 0),
        s.earned(who) == lookup(s.earnings, who, 0),
{
}

/// Two different errors are reported under different numbers.
pub proof fn law_errors_are_told_apart(a: ReferralRegistryError, b: ReferralRegistryError)
    requires
        a != b,
    ensures
        a.number() != b.number(),
{
}

} // verus!
