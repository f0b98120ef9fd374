//! What holds of those who run the market, said of the arguments of a call and of
//! the stored records before and after it: its admin, resolvers, fee recipients and
//! governors; and what it reports.
use crate::address::{Address, WasmHash};
use crate::env::{Effect, Env, Ledger};
use crate::prediction_market::promises::{refused_as, stake_on, staked_in};
use crate::prediction_market::state::{role_named, MarketState, Verdict};
use crate::prediction_market::types::{
    BetEntry, Config, DataKey, Executable, Executables, Market, MarketError, Role,
};
use crate::table::{find, lookup};
use vstd::prelude::*;

verus! {

/// Nobody but the admin gets through, and nobody at all before there is one.
pub open spec fn admin_only<R>(s: MarketState, caller: Address, r: Verdict<R>) -> bool {
    &&& s.admin is None ==> refused_as(r, MarketError::NotInitialized)
    &&& s.admin is Some && s.admin != Some(caller) ==> refused_as(r, MarketError::NotAdmin)
    &&& r is Ok ==> s.admin == Some(caller)
}

/// The call has one signature asked for and nothing else.
pub open spec fn signed_only<R>(r: Verdict<R>, who: Address) -> bool {
    r matches Ok(o) && o.effects == seq![Effect::RequireAuth(who)] && !o.instance_renewed
}

/// A governor is the admin or somebody whom the admin made one.
pub open spec fn decides(s: MarketState, who: Address) -> bool {
    s.admin == Some(who) || lookup(s.governors, who, false)
}

/// The market is set up once, with the admin and the contracts that were given, and
/// with no markets and no fees.
pub proof fn law_set_up_as_told(s: MarketState, admin: Address, cfg: Config)
    ensures
        ({
            let r = s.initialize(admin, cfg);
            &&& s.admin is Some ==> refused_as(r, MarketError::AlreadyInitialized)
            &&& s.admin is None ==> signed_only(r, admin) && r->Ok_0.state == (MarketState {
                admin: Some(admin),
                cfg: Some(cfg),
                market_count: Some(0u64),
                accumulated_fees: Some(0i128),
                interface_version: Some(1u32),
                ..s
            }) && r->Ok_0.renewed == Set::<DataKey>::empty()
        }),
{
}

/// The admin alone changes the code, declares a version and pauses; each call does
/// the one thing it is for.
pub proof fn law_admin_calls_do_one_thing(
    s: MarketState,
    caller: Address,
    hash: WasmHash,
    version: u32,
    paused: bool,
)
    ensures
        ({
            let code = s.upgrade(caller, hash);
            let declare = s.set_interface_version(caller, version);
            let pause = s.set_paused(caller, paused);
            &&& admin_only(s, caller, code)
            &&& admin_only(s, caller, declare)
            &&& admin_only(s, caller, pause)
            &&& s.admin == Some(caller) ==> {
                &&& code matches Ok(o) && o.state == s && o.effects == seq![
                    Effect::RequireAuth(caller),
                    Effect::UpdateWasm(hash),
                ] && o.renewed == Set::<DataKey>::empty() && !o.instance_renewed
                &&& signed_only(declare, caller) && declare->Ok_0.state == (MarketState {
                    interface_version: Some(version),
                    ..s
                }) && declare->Ok_0.renewed == Set::<DataKey>::empty()
                &&& signed_only(pause, caller) && pause->Ok_0.state == (MarketState {
                    paused: Some(paused),
                    ..s
                }) && pause->Ok_0.renewed == Set::<DataKey>::empty()
            }
        }),
{
}

/// The admin alone revokes and restores trust, in the contract that the name stands
/// for and in no other. A name that stands for no contract is refused.
pub proof fn law_trust_is_revoked_and_restored(
    s: MarketState,
    caller: Address,
    name: Seq<char>,
    role: Role,
    other: Role,
)
    requires
        other != role,
    ensures
        ({
            let off = s.revoke_trust(caller, name);
            let on = s.restore_trust(caller, name);
            let named = match role {
                Role::Referral => name == "referral"@,
                Role::Leaderboard => name == "leaderboard"@,
            };
            let known = name == "referral"@ || name == "leaderboard"@;
            &&& admin_only(s, caller, off)
            &&& admin_only(s, caller, on)
            &&& s.admin == Some(caller) && !known ==> refused_as(off, MarketError::InvalidRole)
                && refused_as(on, MarketError::InvalidRole)
            &&& s.admin == Some(caller) && named ==> {
                &&& signed_only(off, caller)
                &&& lookup(off->Ok_0.state.trust_revoked, role, false)
                &&& find(off->Ok_0.state.trust_revoked, other) == find(s.trust_revoked, other)
                &&& off->Ok_0.state == (MarketState {
                    trust_revoked: off->Ok_0.state.trust_revoked,
                    ..s
                })
                &&& off->Ok_0.renewed == set![DataKey::TrustRevoked(role)]
                &&& signed_only(on, caller)
                &&& !lookup(on->Ok_0.state.trust_revoked, role, false)
                &&& find(on->Ok_0.state.trust_revoked, other) == find(s.trust_revoked, other)
                &&& on->Ok_0.state == (MarketState {
                    trust_revoked: on->Ok_0.state.trust_revoked,
                    ..s
                })
                &&& on->Ok_0.renewed == Set::<DataKey>::empty()
                &&& role_named(name) == Some(role)
            }
            &&& !known ==> role_named(name) is None
        }),
{
    reveal_strlit("referral");
    reveal_strlit("leaderboard");
    assert("referral"@[0] != "leaderboard"@[0]);
}

/// The admin alone makes somebody a resolver, unless they have anything at stake in
/// a market that is open; and unmakes one. Nobody else's standing changes.
pub proof fn law_resolvers_come_and_go(
    s: MarketState,
    caller: Address,
    who: Address,
    other: Address,
    id: u64,
)
    requires
        other != who,
    ensures
        ({
            let hired = s.add_resolver(caller, who);
            let fired = s.remove_resolver(caller, who);
            let stake_there = s.markets.dom().contains(id) && !s.markets[id].resolved
                && !s.markets[id].cancelled && s.bets.dom().contains((id, who)) && s.bets[(
                id,
                who,
            )].gross > 0;
            let stake_anywhere = exists|i: u64|
                s.markets.dom().contains(i) && !(#[trigger] s.markets[i]).resolved
                    && !s.markets[i].cancelled && s.bets.dom().contains((i, who)) && s.bets[(
                    i,
                    who,
                )].gross > 0;
            &&& admin_only(s, caller, hired)
            &&& admin_only(s, caller, fired)
            &&& s.admin == Some(caller) && stake_there ==> refused_as(
                hired,
                MarketError::ConflictOfInterest,
            )
            &&& s.admin == Some(caller) && !stake_anywhere ==> {
                &&& signed_only(hired, caller)
                &&& lookup(hired->Ok_0.state.resolvers, who, false)
                &&& find(hired->Ok_0.state.resolvers, other) == find(s.resolvers, other)
                &&& hired->Ok_0.state == (MarketState {
                    resolvers: hired->Ok_0.state.resolvers,
                    ..s
                })
                &&& hired->Ok_0.renewed == set![DataKey::Resolver(who)]
            }
            &&& s.admin == Some(caller) ==> {
                &&& signed_only(fired, caller)
                &&& !lookup(fired->Ok_0.state.resolvers, who, false)
                &&& find(fired->Ok_0.state.resolvers, other) == find(s.resolvers, other)
                &&& fired->Ok_0.state == (MarketState {
                    resolvers: fired->Ok_0.state.resolvers,
                    ..s
                })
                &&& fired->Ok_0.renewed == Set::<DataKey>::empty()
            }
        }),
{
    if s.holds_open_stake(who) {
        let i = choose|i: u64| #[trigger]
            s.markets.dom().contains(i) && s.markets[i].open() && s.holds_stake(i, who);
        assert(!s.markets[i].resolved && s.bets.dom().contains((i, who)));
    }
    if s.markets.dom().contains(id) && s.markets[id].open() && s.holds_stake(id, who) {
        assert(s.holds_open_stake(who));
    }
}

/// The admin alone names fee recipients and strikes them off. Nobody else's standing
/// changes.
pub proof fn law_fee_recipients_come_and_go(
    s: MarketState,
    caller: Address,
    who: Address,
    other: Address,
)
    requires
        other != who,
    ensures
        ({
            let named = s.add_fee_recipient(caller, who);
            let struck = s.remove_fee_recipient(caller, who);
            &&& admin_only(s, caller, named)
            &&& admin_only(s, caller, struck)
            &&& s.admin == Some(caller) ==> {
                &&& signed_only(named, caller)
                &&& lookup(named->Ok_0.state.fee_recipients, who, false)
                &&& find(named->Ok_0.state.fee_recipients, other) == find(s.fee_recipients, other)
                &&& named->Ok_0.state == (MarketState {
                    fee_recipients: named->Ok_0.state.fee_recipients,
                    ..s
                })
                &&& named->Ok_0.renewed == set![DataKey::FeeRecipient(who)]
                &&& signed_only(struck, caller)
                &&& !lookup(struck->Ok_0.state.fee_recipients, who, false)
                &&& find(struck->Ok_0.state.fee_recipients, other) == find(s.fee_recipients, other)
                &&& struck->Ok_0.state == (MarketState {
                    fee_recipients: struck->Ok_0.state.fee_recipients,
                    ..s
                })
                &&& struck->Ok_0.renewed == Set::<DataKey>::empty()
            }
        }),
{
}

/// The admin alone names governors and says how many approvals a change needs.
pub proof fn law_governors_are_named(
    s: MarketState,
    caller: Address,
    who: Address,
    other: Address,
    threshold: u32,
)
    requires
        other != who,
    ensures
        ({
            let named = s.add_governor(caller, who);
            let set = s.set_governor_threshold(caller, threshold);
            &&& admin_only(s, caller, named)
            &&& admin_only(s, caller, set)
            &&& s.admin == Some(caller) ==> {
                &&& signed_only(named, caller)
                &&& lookup(named->Ok_0.state.governors, who, false)
                &&& find(named->Ok_0.state.governors, other) == find(s.governors, other)
                &&& named->Ok_0.state == (MarketState {
                    governors: named->Ok_0.state.governors,
                    ..s
                })
                &&& signed_only(set, caller)
                &&& set->Ok_0.state == (MarketState { governor_threshold: Some(threshold), ..s })
            }
            &&& s.is_governor(who) == decides(s, who)
            &&& s.approvals_needed() == (match s.governor_threshold {
                Some(n) => n,
                None => 1,
            })
        }),
{
}

/// A governor proposes a configuration while no other is staged, of contracts that
/// run code of their own and the asset's own contract. It is staged as proposed, with
/// the code that the contracts run, the time, and the proposer's approval; the
/// configuration itself stays.
pub proof fn law_changes_are_proposed(
    s: MarketState,
    ledger: Ledger,
    caller: Address,
    cfg: Config,
    kinds: Executables,
)
    ensures
        ({
            let r = s.set_config(ledger, caller, cfg, kinds);
            let ready = s.admin is Some;
            let governor = ready && decides(s, caller);
            let free = governor && s.pending_config is None;
            let sane = free && kinds.token is Wasm && kinds.referral is Wasm
                && kinds.leaderboard is Wasm && kinds.xlm_sac is StellarAsset;
            &&& !ready ==> refused_as(r, MarketError::NotInitialized)
            &&& ready && !governor ==> refused_as(r, MarketError::NotAuthorized)
            &&& governor && !free ==> refused_as(r, MarketError::ConfigChangePending)
            &&& free && !sane ==> refused_as(r, MarketError::InvalidContract)
            &&& r is Ok == sane
            &&& r matches Ok(o) ==> {
                let change = o.state.pending_config->0;
                &&& o.state.pending_config is Some
                &&& change.cfg == cfg
                &&& change.requested_at == ledger.timestamp
                &&& change.approvers == seq![caller]
                &&& kinds.token == Executable::Wasm(change.pins.token)
                &&& kinds.referral == Executable::Wasm(change.pins.referral)
                &&& kinds.leaderboard == Executable::Wasm(change.pins.leaderboard)
                &&& forall|i: int| 0 <= i < 32 ==> #[trigger] change.pins.xlm_sac.bytes@[i] == 0
                &&& o.state == (MarketState { pending_config: o.state.pending_config, ..s })
                &&& signed_only(r, caller)
                &&& o.renewed == Set::<DataKey>::empty()
            }
        }),
{
}

/// A governor's approval is added to those of the staged change once, behind the
/// others; nothing else of it changes.
pub proof fn law_changes_are_approved(s: MarketState, caller: Address)
    ensures
        ({
            let r = s.approve_set_config(caller);
            let ready = s.admin is Some;
            let governor = ready && decides(s, caller);
            let staged = governor && s.pending_config is Some;
            &&& !ready ==> refused_as(r, MarketError::NotInitialized)
            &&& ready && !governor ==> refused_as(r, MarketError::NotAuthorized)
            &&& governor && !staged ==> refused_as(r, MarketError::NoPendingConfig)
            &&& r is Ok == staged
            &&& r matches Ok(o) ==> {
                let was = s.pending_config->0;
                let is = o.state.pending_config->0;
                &&& o.state.pending_config is Some
                &&& is.cfg == was.cfg
                &&& is.requested_at == was.requested_at
                &&& is.pins == was.pins
                &&& was.approvers.contains(caller) ==> is.approvers == was.approvers
                &&& !was.approvers.contains(caller) ==> is.approvers == was.approvers + seq![caller]
                &&& o.state == (MarketState { pending_config: o.state.pending_config, ..s })
                &&& signed_only(r, caller)
                &&& o.renewed == Set::<DataKey>::empty()
            }
        }),
{
}

/// A governor lands the staged change a week after it was proposed, with enough
/// approvals, and not before: the configuration and the pinned code are those that
/// were staged, and nothing is staged any more.
pub proof fn law_changes_land(s: MarketState, ledger: Ledger, caller: Address)
    ensures
        ({
            let r = s.execute_set_config(ledger, caller);
            let ready = s.admin is Some;
            let governor = ready && decides(s, caller);
            let staged = governor && s.pending_config is Some;
            let change = s.pending_config->0;
            let waited = staged && ledger.timestamp >= change.requested_at + 604_800;
            let needed = match s.governor_threshold {
                Some(n) => n as int,
                None => 1,
            };
            &&& !ready ==> refused_as(r, MarketError::NotInitialized)
            &&& ready && !governor ==> refused_as(r, MarketError::NotAuthorized)
            &&& governor && !staged ==> refused_as(r, MarketError::NoPendingConfig)
            &&& staged && !waited ==> refused_as(r, MarketError::ConfigTooSoon)
            &&& waited && change.approvers.len() < needed ==> refused_as(
                r,
                MarketError::NotEnoughApprovals,
            )
            &&& r is Ok == (waited && change.approvers.len() >= needed)
            &&& r matches Ok(o) ==> {
                &&& o.state == (MarketState {
                    cfg: Some(change.cfg),
                    pinned_hashes: Some(change.pins),
                    pending_config: None,
                    ..s
                })
                &&& signed_only(r, caller)
                &&& o.renewed == Set::<DataKey>::empty()
            }
        }),
{
}

/// The admin alone drops a staged change; the configuration stays.
pub proof fn law_changes_are_dropped(s: MarketState, caller: Address)
    ensures
        ({
            let r = s.cancel_set_config(caller);
            &&& admin_only(s, caller, r)
            &&& s.admin == Some(caller) && s.pending_config is None ==> refused_as(
                r,
                MarketError::NoPendingConfig,
            )
            &&& s.admin == Some(caller) && s.pending_config is Some ==> signed_only(r, caller)
                && r->Ok_0.state == (MarketState { pending_config: None, ..s })
        }),
{
}

/// What the market reports is what is on record.
pub proof fn law_reports_are_the_records(
    s: MarketState,
    id: u64,
    who: Address,
    role: Role,
    e: BetEntry,
    m: Market,
)
    ensures
        s.is_paused() == (s.paused == Some(true)),
        s.is_revoked(role) == (find(s.trust_revoked, role) == Some(true)),
        s.is_resolver(who) == (find(s.resolvers, who) == Some(true)),
        s.is_fee_recipient(who) == (find(s.fee_recipients, who) == Some(true)),
        s.bettors(id) == lookup(s.bettor_count, id, 0),
        s.fees_of(id) == lookup(s.market_fees, id, 0),
        s.payout(id, who) == lookup(s.payouts, (id, who), 0),
        s.holds_stake(id, who) == (find(s.bets, (id, who)) matches Some(b) && b.gross > 0),
        s.count() == (match s.market_count {
            Some(n) => n,
            None => 0,
        }),
        s.open_count() == (match s.open_markets {
            Some(n) => n,
            None => 0,
        }),
        e.staked_on(true) == stake_on(e, true),
        e.staked_on(false) == stake_on(e, false),
        e.position().net_yes == stake_on(e, true),
        e.position().net_no == stake_on(e, false),
        e.position().gross == e.gross,
        e.position().count == e.count,
        m.side(true) == staked_in(m, true),
        m.side(false) == staked_in(m, false),
        m.pool() == staked_in(m, true) + staked_in(m, false),
        m.open() == (!m.resolved && !m.cancelled),
{
}

/// A page of bettors begins where it was asked to, holds as many places as were
/// asked for but no more than 100, and ends with the index; in it the bettors stand in
/// the order of their places, each place that is taken once.
pub proof fn law_pages_are_the_places(s: MarketState, id: u64, start: u32, limit: u32, at: u32)
    ensures
        ({
            let end = s.page_end(id, start, limit);
            let last = lookup(s.bettor_count, id, 0);
            &&& end <= last
            &&& limit <= 100 && start + limit <= last ==> end == start + limit
            &&& limit > 100 && start + 100 <= last ==> end == start + 100
            &&& start + limit > last && start + 100 > last ==> end == last
            &&& s.indexed(id, at as nat, at as nat) == Seq::<Address>::empty()
            &&& s.indexed(id, start as nat, at as nat + 1) == (if at < start {
                Seq::<Address>::empty()
            } else {
                s.indexed(id, start as nat, at as nat) + (match find(s.bettor_at, (id, at)) {
                    Some(user) => seq![user],
                    None => Seq::empty(),
                })
            })
        }),
{
    assert((at as nat + 1 - 1) as u32 == at);
}

/// Asking for a page of a market that is not there is refused and leaves no trace. Of one
/// that is there the page has the bettors from its first place to its last; their places
/// and the count of them, where they are there, are renewed, and nothing is asked for.
pub proof fn law_pages_are_answered(
    s: MarketState,
    id: u64,
    start: u32,
    limit: u32,
    env: (Env<DataKey>, Env<DataKey>),
    r: Result<Vec<Address>, MarketError>,
    at: u32,
)
    requires
        s.paged(id, start, limit, env, r),
    ensures
        !s.markets.dom().contains(id) ==> r is Err && r->Err_0 == MarketError::MarketNotFound
            && env.1 == env.0,
        s.markets.dom().contains(id) ==> {
            let end = s.page_end(id, start, limit);
            &&& r is Ok
            &&& r->Ok_0@ == s.indexed(id, start as nat, end)
            &&& env.1.effects@ == env.0.effects@
            &&& env.1.ledger == env.0.ledger
            &&& env.1.instance_renewed == env.0.instance_renewed
            &&& lookup(s.bettor_count, id, 0) > 0 ==> env.1.renewed@.contains(
                DataKey::BettorCount(id),
            )
            &&& start <= at < end && s.bettor_at.dom().contains((id, at))
                ==> env.1.renewed@.contains(DataKey::BettorAt(id, at))
            &&& env.1.renewed@.contains(DataKey::BettorAt(id, at)) ==> env.0.renewed@.contains(
                DataKey::BettorAt(id, at),
            ) || start <= at < end && s.bettor_at.dom().contains((id, at))
        },
{
    if s.markets.dom().contains(id) {
        let end = s.page_end(id, start, limit);
        lemma_places_renewed(s, id, start as nat, end, at);
        let before = env.0.renewed@.to_set();
        let after = env.1.renewed@.to_set();
        assert(before.contains(DataKey::BettorAt(id, at)) == env.0.renewed@.contains(
            DataKey::BettorAt(id, at),
        ));
        assert(after.contains(DataKey::BettorAt(id, at)) == env.1.renewed@.contains(
            DataKey::BettorAt(id, at),
        ));
        assert(after.contains(DataKey::BettorCount(id)) == env.1.renewed@.contains(
            DataKey::BettorCount(id),
        ));
    }
}

proof fn lemma_places_renewed(s: MarketState, id: u64, from: nat, to: nat, at: u32)
    requires
        to <= u32::MAX,
    ensures
        s.indexed_keys(id, from, to).contains(DataKey::BettorAt(id, at)) == (from <= at < to
            && s.bettor_at.dom().contains((id, at))),
        !s.indexed_keys(id, from, to).contains(DataKey::BettorCount(id)),
    decreases to,
{
    if from < to {
        lemma_places_renewed(s, id, from, (to - 1) as nat, at);
    }
}

/// A refresh covers the markets from the first asked for on, as many as were asked
/// for, and stops behind the last.
pub proof fn law_refreshes_cover_the_range(s: MarketState, start: u64, limit: u32, id: u64)
    ensures
        ({
            let end = s.refresh_end(start, limit);
            let last = s.market_count.unwrap_or(0);
            &&& end <= start + limit || end == last + 1
            &&& end <= last + 1
            &&& start + limit <= last ==> end == start + limit
            &&& start + limit > last ==> end == last + 1
            &&& s.stored(id as nat, id as nat) == 0
            &&& start <= id ==> s.stored(start as nat, id as nat + 1) == s.stored(
                start as nat,
                id as nat,
            ) + (if s.markets.dom().contains(id) {
                1nat
            } else {
                0nat
            })
            &&& start <= id ==> s.markets_keys(start as nat, id as nat + 1) == s.markets_keys(
                start as nat,
                id as nat,
            ).union(s.market_keys(id))
            &&& s.markets_keys(id as nat, id as nat) == Set::<DataKey>::empty()
        }),
{
    assert((id as nat + 1 - 1) as u64 == id);
}

/// A refresh of a market renews its own entries, where they are there.
pub proof fn law_refreshes_reach_the_market(s: MarketState, id: u64)
    ensures
        ({
            let keys = s.market_keys(id);
            &&& !s.markets.dom().contains(id) ==> keys == Set::<DataKey>::empty()
            &&& s.markets.dom().contains(id) ==> {
                &&& keys.contains(DataKey::Market(id))
                &&& s.bettor_count.dom().contains(id) ==> keys.contains(DataKey::BettorCount(id))
                &&& s.market_fees.dom().contains(id) ==> keys.contains(DataKey::MarketFees(id))
                &&& s.forfeited.dom().contains(id) ==> keys.contains(DataKey::ForfeitedPool(id))
            }
        }),
{
}

/// Two different errors are reported under different numbers.
pub proof fn law_errors_are_told_apart(a: MarketError, b: MarketError)
    requires
        a != b,
    ensures
        a.number() != b.number(),
{
}

} // verus!
