//! What bettors can rely on where a position or a market ends: reductions,
//! resolutions, cancellations, refunds and disputes, said of the arguments of a
//! call and of the stored records before and after it.
use crate::address::Address;
use crate::env::{Effect, Event, Ledger};
use crate::prediction_market::completeness::lemma_settled_at;
use crate::prediction_market::keeping::{lemma_position_covered, lemma_position_part};
use crate::prediction_market::promises::{
    fees_on_record, one_closed, refused_as, same_description, stake_on, staked_in,
};
use crate::prediction_market::settling::{
    lemma_settlement_grows, lemma_settlement_payouts, lemma_settlement_within_pool,
    lemma_share_rounds_down,
};
use crate::prediction_market::state::MarketState;
use crate::prediction_market::types::{BetEntry, DataKey, Market, MarketError};
use crate::sums::{lemma_sum_insert, sum};
use crate::table::{find, lookup};
use vstd::prelude::*;

verus! {

/// Which reductions are taken, and why each of the others is not: of an open market
/// that is not over, by somebody with a position there, and of no more than was paid
/// in.
pub proof fn law_which_reductions_are_taken(
    s: MarketState,
    ledger: Ledger,
    user: Address,
    id: u64,
    amount: i128,
)
    ensures
        ({
            let r = s.reduce_position(ledger, user, id, amount);
            let m = s.markets[id];
            let running = s.paused != Some(true);
            let positive = running && amount > 0;
            let there = positive && s.markets.dom().contains(id);
            let going = there && !m.cancelled;
            let undecided = going && !m.resolved;
            let on_time = undecided && ledger.timestamp < m.end_time;
            let bettor = on_time && s.bets.dom().contains((id, user));
            let within = bettor && amount <= s.bets[(id, user)].gross;
            &&& !running ==> refused_as(r, MarketError::ContractPaused)
            &&& running && !positive ==> refused_as(r, MarketError::InvalidAmount)
            &&& positive && !there ==> refused_as(r, MarketError::MarketNotFound)
            &&& there && !going ==> refused_as(r, MarketError::MarketCancelled)
            &&& going && !undecided ==> refused_as(r, MarketError::MarketResolved)
            &&& undecided && !on_time ==> refused_as(r, MarketError::MarketExpired)
            &&& on_time && !bettor ==> refused_as(r, MarketError::NoBetFound)
            &&& bettor && !within ==> refused_as(r, MarketError::InvalidAmount)
            &&& r is Ok == within
        }),
{
}

/// What a reduction pays and takes off. With the amount as a part of what was paid
/// in, it pays that part of all that can be refunded, rounded down; takes that part of
/// the first side's stake and that part of both stakes together off the market, each
/// rounded down; and the rest of what it pays off the market's fees.
pub proof fn law_reductions_pay_in_proportion(
    s: MarketState,
    ledger: Ledger,
    user: Address,
    id: u64,
    amount: i128,
)
    requires
        s.wf(),
    ensures
        s.reduce_position(ledger, user, id, amount) matches Ok(o) ==> {
            let e = s.bets[(id, user)];
            let m = s.markets[id];
            let n = o.state.markets[id];
            let paid = o.value as int;
            let first = staked_in(m, e.is_yes) - staked_in(n, e.is_yes);
            let second = staked_in(m, !e.is_yes) - staked_in(n, !e.is_yes);
            let fee = fees_on_record(s, id) - fees_on_record(o.state, id);
            &&& paid * e.gross <= (e.net + e.hedge + e.fee) * amount < (paid + 1) * e.gross
            &&& first * e.gross <= e.net * amount < (first + 1) * e.gross
            &&& (first + second) * e.gross <= (e.net + e.hedge) * amount < (first + second + 1)
                * e.gross
            &&& first + second + fee == paid
            &&& 0 <= first <= e.net
            &&& 0 <= second <= e.hedge
            &&& 0 <= fee <= e.fee
            &&& o.effects == seq![
                Effect::RequireAuth(user),
                Effect::Transfer {
                    asset: s.cfg->0.xlm_sac,
                    from: ledger.this,
                    to: user,
                    amount: o.value,
                },
            ]
        },
{
    if s.reduce_position(ledger, user, id, amount) is Ok {
        lemma_reduction_numbers(s, ledger, user, id, amount);
        let e = s.bets[(id, user)];
        lemma_share_rounds_down(e.net as int, amount as int, e.gross as int);
        lemma_share_rounds_down(e.stakes(), amount as int, e.gross as int);
        lemma_share_rounds_down(e.refundable(), amount as int, e.gross as int);
        lemma_position_part(e, amount);
    }
}

proof fn lemma_reduction_numbers(
    s: MarketState,
    ledger: Ledger,
    user: Address,
    id: u64,
    amount: i128,
)
    requires
        s.wf(),
        s.reduce_position(ledger, user, id, amount) is Ok,
    ensures
        ({
            let e = s.bets[(id, user)];
            let m = s.markets[id];
            let t = s.reduce_position(ledger, user, id, amount)->Ok_0.state;
            let off = e.part(amount);
            &&& e.wf()
            &&& t.markets[id].total_yes == m.total_yes - off.staked_on(true)
            &&& t.markets[id].total_no == m.total_no - off.staked_on(false)
            &&& lookup(t.market_fees, id, 0) == lookup(s.market_fees, id, 0) - off.fee
            &&& s.reduce_position(ledger, user, id, amount)->Ok_0.value == off.refundable()
            &&& e.less(off).net == e.net - off.net
            &&& e.less(off).hedge == e.hedge - off.hedge
            &&& e.less(off).fee == e.fee - off.fee
        }),
{
    let e = s.bets[(id, user)];
    assert(e.wf());
    lemma_position_part(e, amount);
    lemma_position_covered(s, (id, user), true);
    lemma_position_covered(s, (id, user), false);
    assert(s.market_fees.dom().contains(id) ==> s.market_fees[id] >= 0);
}

/// What a reduction leaves on record. What is left of the position is what it was
/// less what the market lost; it keeps its first side and its count. Where everything
/// is taken off the position goes, and its place among the bettors with it. Nobody
/// else's position or place, no other market and nothing else changes.
pub proof fn law_reductions_are_recorded(
    s: MarketState,
    ledger: Ledger,
    user: Address,
    id: u64,
    amount: i128,
    other: (u64, Address),
    place: (u64, u32),
)
    requires
        s.wf(),
        other != (id, user),
    ensures
        s.reduce_position(ledger, user, id, amount) matches Ok(o) ==> {
            let e = s.bets[(id, user)];
            let m = s.markets[id];
            let n = o.state.markets[id];
            let first = staked_in(m, e.is_yes) - staked_in(n, e.is_yes);
            let second = staked_in(m, !e.is_yes) - staked_in(n, !e.is_yes);
            let fee = fees_on_record(s, id) - fees_on_record(o.state, id);
            &&& amount < e.gross ==> {
                let rest = o.state.bets[(id, user)];
                &&& o.state.bets.dom().contains((id, user))
                &&& rest.net == e.net - first
                &&& rest.hedge == e.hedge - second
                &&& rest.fee == e.fee - fee
                &&& rest.gross == e.gross - amount
                &&& rest.is_yes == e.is_yes
                &&& rest.claimed == e.claimed
                &&& rest.count == e.count
                &&& find(o.state.bettor_at, place) == find(s.bettor_at, place)
                &&& o.renewed == set![
                    DataKey::Market(id),
                    DataKey::MarketFees(id),
                    DataKey::Bet(id, user),
                ]
            }
            &&& amount == e.gross ==> {
                &&& find(o.state.bets, (id, user)) is None
                &&& first == e.net
                &&& second == e.hedge
                &&& fee == e.fee
                &&& place.0 == id && find(s.bettor_at, place) == Some(user) ==> find(
                    o.state.bettor_at,
                    place,
                ) is None
                &&& place.0 != id || find(s.bettor_at, place) != Some(user) ==> find(
                    o.state.bettor_at,
                    place,
                ) == find(s.bettor_at, place)
                &&& o.renewed == set![DataKey::Market(id), DataKey::MarketFees(id)]
            }
            &&& same_description(m, n)
            &&& n.resolved == m.resolved
            &&& n.outcome == m.outcome
            &&& n.cancelled == m.cancelled
            &&& n.bet_count == m.bet_count
            &&& find(o.state.bets, other) == find(s.bets, other)
            &&& other.0 != id ==> find(o.state.markets, other.0) == find(s.markets, other.0)
            &&& other.0 != id ==> find(o.state.market_fees, other.0) == find(
                s.market_fees,
                other.0,
            )
            &&& o.state == (MarketState {
                bets: o.state.bets,
                bettor_at: o.state.bettor_at,
                markets: o.state.markets,
                market_fees: o.state.market_fees,
                ..s
            })
            &&& !o.instance_renewed
        },
{
    if s.reduce_position(ledger, user, id, amount) is Ok {
        lemma_reduction_numbers(s, ledger, user, id, amount);
        lemma_position_part(s.bets[(id, user)], amount);
    }
}

/// Who may resolve a market and when, and why everybody else is refused: the admin
/// or a resolver, once the market is over, and nobody who has a stake in it.
pub proof fn law_which_markets_are_resolved(
    s: MarketState,
    ledger: Ledger,
    caller: Address,
    id: u64,
    outcome: bool,
)
    ensures
        ({
            let r = s.resolve_market(ledger, caller, id, outcome);
            let m = s.markets[id];
            let running = s.paused != Some(true);
            let ready = running && s.admin is Some;
            let judge = ready && (s.admin == Some(caller) || lookup(s.resolvers, caller, false));
            let there = judge && s.markets.dom().contains(id);
            let undecided = there && !m.resolved;
            let going = undecided && !m.cancelled;
            let over = going && ledger.timestamp >= m.end_time;
            let neutral = over && !(find(s.bets, (id, caller)) matches Some(e) && e.gross > 0);
            &&& !running ==> refused_as(r, MarketError::ContractPaused)
            &&& running && !ready ==> refused_as(r, MarketError::NotInitialized)
            &&& ready && !judge ==> refused_as(r, MarketError::NotResolver)
            &&& judge && !there ==> refused_as(r, MarketError::MarketNotFound)
            &&& there && !undecided ==> refused_as(r, MarketError::MarketResolved)
            &&& undecided && !going ==> refused_as(r, MarketError::MarketCancelled)
            &&& going && !over ==> refused_as(r, MarketError::MarketNotExpired)
            &&& over && !neutral ==> refused_as(r, MarketError::ConflictOfInterest)
            &&& r is Ok == neutral
        }),
{
}

/// What a resolution puts on record of the market: that it is resolved, and the
/// outcome given. Positions stay as they are, and so does everything of every other
/// market. Where nothing is staked there is nothing to pay out.
pub proof fn law_resolutions_are_recorded(
    s: MarketState,
    ledger: Ledger,
    caller: Address,
    id: u64,
    outcome: bool,
    other: (u64, Address),
)
    requires
        s.wf(),
        s.can_resolve(ledger, id, outcome),
        other.0 != id,
    ensures
        s.resolve_market(ledger, caller, id, outcome) matches Ok(o) ==> {
            let m = s.markets[id];
            &&& find(o.state.markets, id) == Some(Market { resolved: true, outcome, ..m })
            &&& one_closed(s, o.state)
            &&& find(o.state.markets, other.0) == find(s.markets, other.0)
            &&& find(o.state.payouts, other) == find(s.payouts, other)
            &&& find(o.state.market_fees, other.0) == find(s.market_fees, other.0)
            &&& find(o.state.forfeited, other.0) == find(s.forfeited, other.0)
            &&& m.total_yes + m.total_no == 0 ==> o.state.payouts == s.payouts
                && o.state.market_fees == s.market_fees && o.state.forfeited == s.forfeited
            &&& staked_in(m, outcome) > 0 ==> o.state.forfeited == s.forfeited
            &&& o.state == (MarketState {
                markets: o.state.markets,
                open_markets: o.state.open_markets,
                payouts: o.state.payouts,
                market_fees: o.state.market_fees,
                forfeited: o.state.forfeited,
                ..s
            })
            &&& o.effects == seq![
                Effect::RequireAuth(caller),
                Effect::Publish(Event::MarketResolved { market_id: id, outcome }),
            ]
            &&& o.renewed.contains(DataKey::Market(id))
            &&& !o.instance_renewed
        },
{
    if s.resolve_market(ledger, caller, id, outcome) is Ok {
        lemma_settlement_payouts(s, id, outcome, s.bettors(id) as nat);
        let settled = s.full_settlement(id, outcome).payouts;
        assert(find(settled, other) == find(s.payouts, other));
    }
}

/// What a resolution sets for somebody who is among the market's bettors. Where
/// anything is staked on the outcome, a stake on it is due its share of all stakes, in
/// proportion to the stakes on the outcome and rounded down, and no stake on it is due
/// nothing. Where nothing is, everybody is due their own stakes back.
pub proof fn law_payouts_are_shares_of_the_pool(
    s: MarketState,
    ledger: Ledger,
    caller: Address,
    id: u64,
    outcome: bool,
    at: u32,
)
    requires
        s.wf(),
        s.can_resolve(ledger, id, outcome),
        s.bettor_at.dom().contains((id, at)),
        s.bets.dom().contains((id, s.bettor_at[(id, at)])),
    ensures
        s.resolve_market(ledger, caller, id, outcome) matches Ok(o) ==> {
            let m = s.markets[id];
            let user = s.bettor_at[(id, at)];
            let e = s.bets[(id, user)];
            let pool = m.total_yes + m.total_no;
            let side = staked_in(m, outcome);
            let due = lookup(o.state.payouts, (id, user), 0) as int;
            let stake = stake_on(e, outcome);
            &&& side > 0 && stake > 0 ==> o.state.payouts.dom().contains((id, user)) && due * side
                <= stake * pool < (due + 1) * side && due >= stake
            &&& side > 0 && stake == 0 ==> find(o.state.payouts, (id, user)) == find(
                s.payouts,
                (id, user),
            )
            &&& side == 0 && pool > 0 && e.net + e.hedge > 0 ==> find(
                o.state.payouts,
                (id, user),
            ) == Some((e.net + e.hedge) as i128)
            &&& side == 0 && pool > 0 && e.net + e.hedge == 0 ==> find(
                o.state.payouts,
                (id, user),
            ) == find(s.payouts, (id, user))
            &&& side == 0 && pool > 0 ==> e.net + e.hedge <= i128::MAX
        },
{
    if s.resolve_market(ledger, caller, id, outcome) is Ok {
        let m = s.markets[id];
        let user = s.bettor_at[(id, at)];
        let e = s.bets[(id, user)];
        assert(e.wf());
        lemma_settled_at(s, id, outcome, s.bettors(id) as nat, at, user);
        lemma_position_covered(s, (id, user), true);
        lemma_position_covered(s, (id, user), false);
        let stake = stake_on(e, outcome);
        let side = staked_in(m, outcome);
        let pool = m.total_yes + m.total_no;
        if side > 0 && stake > 0 {
            lemma_share_rounds_down(stake, pool, side);
            let due = stake * pool / side;
            assert(stake <= due <= stake * pool) by (nonlinear_arith)
                requires
                    stake > 0,
                    side > 0,
                    pool >= side,
                    due * side <= stake * pool < (due + 1) * side,
                    due >= 0,
            ;
        }
    }
}

/// Nobody is due anything from a resolution who is not among the market's bettors.
pub proof fn law_strangers_are_paid_nothing(
    s: MarketState,
    ledger: Ledger,
    caller: Address,
    id: u64,
    outcome: bool,
    user: Address,
)
    requires
        forall|i: u32| #[trigger]
            s.bettor_at.dom().contains((id, i)) ==> s.bettor_at[(id, i)] != user,
    ensures
        s.resolve_market(ledger, caller, id, outcome) matches Ok(o) ==> find(
            o.state.payouts,
            (id, user),
        ) == find(s.payouts, (id, user)),
{
    lemma_strangers(s, id, outcome, s.bettors(id) as nat, user);
}

proof fn lemma_strangers(s: MarketState, id: u64, outcome: bool, n: nat, user: Address)
    requires
        n <= u32::MAX,
        forall|i: u32| #[trigger]
            s.bettor_at.dom().contains((id, i)) && i < n ==> s.bettor_at[(id, i)] != user,
    ensures
        find(s.settlement(id, outcome, n).payouts, (id, user)) == find(s.payouts, (id, user)),
    decreases n,
{
    if n > 0 {
        lemma_strangers(s, id, outcome, (n - 1) as nat, user);
        let i = (n - 1) as u32;
        if s.bettor_at.dom().contains((id, i)) {
            assert(s.bettor_at[(id, i)] != user);
        }
    }
}

/// What a resolution renews: the market, and, where anything is staked, the count and the
/// places of its bettors, their positions, and the payouts that it set. Nothing else.
pub proof fn law_resolutions_renew_what_they_walk(
    s: MarketState,
    ledger: Ledger,
    caller: Address,
    id: u64,
    outcome: bool,
    at: u32,
    key: DataKey,
)
    requires
        s.wf(),
    ensures
        s.resolve_market(ledger, caller, id, outcome) matches Ok(o) ==> {
            let m = s.markets[id];
            let pool = m.total_yes + m.total_no;
            let user = s.bettor_at[(id, at)];
            let e = s.bets[(id, user)];
            let due = if staked_in(m, outcome) > 0 {
                stake_on(e, outcome) > 0
            } else {
                e.net + e.hedge > 0
            };
            &&& o.renewed.contains(DataKey::Market(id))
            &&& pool == 0 ==> (o.renewed.contains(key) == (key == DataKey::Market(id)))
            &&& pool > 0 && s.bettor_at.dom().contains((id, at)) ==> {
                &&& o.renewed.contains(DataKey::BettorCount(id))
                &&& o.renewed.contains(DataKey::BettorAt(id, at))
                &&& s.bets.dom().contains((id, user)) ==> o.renewed.contains(
                    DataKey::Bet(id, user),
                )
                &&& s.bets.dom().contains((id, user)) && due ==> o.renewed.contains(
                    DataKey::Payout(id, user),
                )
            }
            &&& o.renewed.contains(key) ==> (key matches DataKey::Market(i) ==> i == id)
            &&& o.renewed.contains(key) ==> key is Market || key is BettorCount || key is BettorAt
                || key is Bet || key is Payout
        },
{
    if s.resolve_market(ledger, caller, id, outcome) is Ok {
        let n = s.bettors(id) as nat;
        if s.settlement(id, outcome, n).renewed.contains(key) {
            lemma_walk_renews_its_own(s, id, outcome, n, key);
        }
        if s.bettor_at.dom().contains((id, at)) {
            lemma_walk_renews(s, id, outcome, n, at);
        }
    }
}

proof fn lemma_walk_renews_its_own(s: MarketState, id: u64, outcome: bool, n: nat, key: DataKey)
    requires
        s.settlement(id, outcome, n).renewed.contains(key),
    ensures
        key is BettorAt || key is Bet || key is Payout,
    decreases n,
{
    if n > 0 && s.settlement(id, outcome, (n - 1) as nat).renewed.contains(key) {
        lemma_walk_renews_its_own(s, id, outcome, (n - 1) as nat, key);
    }
}

proof fn lemma_walk_renews(s: MarketState, id: u64, outcome: bool, n: nat, at: u32)
    requires
        s.wf(),
        at < n <= u32::MAX,
        s.bettor_at.dom().contains((id, at)),
    ensures
        ({
            let user = s.bettor_at[(id, at)];
            let keys = s.settlement(id, outcome, n).renewed;
            &&& keys.contains(DataKey::BettorAt(id, at))
            &&& s.bets.dom().contains((id, user)) ==> keys.contains(DataKey::Bet(id, user))
            &&& s.bets.dom().contains((id, user)) && MarketState::payout_due(
                s.markets[id],
                outcome,
                s.bets[(id, user)],
            ) is Some ==> keys.contains(DataKey::Payout(id, user))
        }),
    decreases n,
{
    if at < n - 1 {
        lemma_walk_renews(s, id, outcome, (n - 1) as nat, at);
    } else {
        assert((n - 1) as u32 == at);
    }
}

/// What a payout on record adds to what a market pays out.
pub open spec fn paid_share(id: u64) -> spec_fn((u64, Address), i128) -> int {
    |k: (u64, Address), p: i128|
        if k.0 == id {
            p as int
        } else {
            0
        }
}

proof fn lemma_total_is_paid(s: MarketState, id: u64, outcome: bool, n: nat)
    requires
        s.wf(),
        s.markets.dom().contains(id),
        s.markets[id].pool() <= i128::MAX,
        n <= u32::MAX,
        forall|user: Address| !#[trigger] s.payouts.dom().contains((id, user)),
    ensures
        s.settlement(id, outcome, n).payouts.dom().finite(),
        sum(s.settlement(id, outcome, n).payouts, paid_share(id)) == sum(
            s.payouts,
            paid_share(id),
        ) + s.settlement(id, outcome, n).total,
    decreases n,
{
    if n > 0 {
        let p = (n - 1) as nat;
        let i = p as u32;
        lemma_total_is_paid(s, id, outcome, p);
        lemma_settlement_grows(s, id, outcome, p, n);
        lemma_settlement_within_pool(s, id, outcome, p);
        lemma_settlement_within_pool(s, id, outcome, n);
        let before = s.settlement(id, outcome, p);
        if s.bettor_at.dom().contains((id, i)) {
            let user = s.bettor_at[(id, i)];
            assert forall|j: u32| #[trigger] s.bettor_at.dom().contains((id, j)) && j
                < p implies s.bettor_at[(id, j)] != user by {
                if s.bettor_at[(id, j)] == user {
                    assert(s.bettor_at.dom().contains((id, i)));
                }
            }
            lemma_strangers(s, id, outcome, p, user);
            assert(!s.payouts.dom().contains((id, user)));
            assert(!before.payouts.dom().contains((id, user)));
            if s.bets.dom().contains((id, user)) {
                if let Some(due) = MarketState::payout_due(
                    s.markets[id],
                    outcome,
                    s.bets[(id, user)],
                ) {
                    assert(s.settlement(id, outcome, n).total == before.total + due);
                    lemma_sum_insert(before.payouts, paid_share(id), (id, user), due as i128);
                }
            }
        }
    }
}

/// Where the pool goes, to the unit. Where somebody bet on the outcome, what the
/// payouts leave of all stakes joins the market's fees. Where nobody did, the payouts
/// are held back with whatever is left of the stakes and all of the market's fees, and
/// can be disputed for a week.
pub proof fn law_resolutions_account_for_the_pool(
    s: MarketState,
    ledger: Ledger,
    caller: Address,
    id: u64,
    outcome: bool,
)
    requires
        s.wf(),
        s.can_resolve(ledger, id, outcome),
        forall|user: Address| !#[trigger] s.payouts.dom().contains((id, user)),
    ensures
        s.resolve_market(ledger, caller, id, outcome) matches Ok(o) ==> {
            let m = s.markets[id];
            let pool = m.total_yes + m.total_no;
            let paid = sum(o.state.payouts, paid_share(id)) - sum(s.payouts, paid_share(id));
            &&& 0 <= paid <= pool
            &&& staked_in(m, outcome) > 0 ==> fees_on_record(o.state, id) == fees_on_record(s, id)
                + (pool - paid)
            &&& pool > 0 && staked_in(m, outcome) == 0 ==> {
                let held = o.state.forfeited[id];
                &&& o.state.forfeited.dom().contains(id)
                &&& held.amount == paid
                &&& held.locked_fees == fees_on_record(s, id) + (pool - paid)
                &&& held.disputable_until == ledger.timestamp + 604_800
                &&& !held.frozen
                &&& find(o.state.market_fees, id) is None
            }
        },
{
    if s.resolve_market(ledger, caller, id, outcome) is Ok {
        let n = s.bettors(id) as nat;
        lemma_total_is_paid(s, id, outcome, n);
        lemma_settlement_within_pool(s, id, outcome, n);
        assert(s.market_fees.dom().contains(id) ==> s.market_fees[id] >= 0);
    }
}

/// Which cancellations go through, what each of the others is refused with, and what
/// one does: the admin alone cancels, only an open market; it is marked as cancelled
/// and keeps no fees, which go back with the refunds. Everything else stays.
pub proof fn law_cancellations_are_recorded(
    s: MarketState,
    admin: Address,
    id: u64,
    other: u64,
)
    requires
        other != id,
    ensures
        ({
            let r = s.cancel_market(admin, id);
            let m = s.markets[id];
            let running = s.paused != Some(true);
            let ready = running && s.admin is Some;
            let allowed = ready && s.admin == Some(admin);
            let there = allowed && s.markets.dom().contains(id);
            let undecided = there && !m.resolved;
            &&& !running ==> refused_as(r, MarketError::ContractPaused)
            &&& running && !ready ==> refused_as(r, MarketError::NotInitialized)
            &&& ready && !allowed ==> refused_as(r, MarketError::NotAdmin)
            &&& allowed && !there ==> refused_as(r, MarketError::MarketNotFound)
            &&& there && !undecided ==> refused_as(r, MarketError::MarketResolved)
            &&& undecided && m.cancelled ==> refused_as(r, MarketError::MarketCancelled)
            &&& r is Ok == (undecided && !m.cancelled)
            &&& r matches Ok(o) ==> {
                &&& find(o.state.markets, id) == Some(Market { cancelled: true, ..m })
                &&& find(o.state.market_fees, id) is None
                &&& one_closed(s, o.state)
                &&& find(o.state.markets, other) == find(s.markets, other)
                &&& find(o.state.market_fees, other) == find(s.market_fees, other)
                &&& o.state == (MarketState {
                    markets: o.state.markets,
                    market_fees: o.state.market_fees,
                    open_markets: o.state.open_markets,
                    ..s
                })
                &&& o.effects == seq![Effect::RequireAuth(admin)]
                &&& o.renewed == set![DataKey::Market(id)]
                &&& !o.instance_renewed
            }
        }),
{
}

/// Which refunds go through, what each of the others is refused with, and what one
/// does: of a cancelled market, also while the contract is paused, everybody with
/// something paid in gets both stakes and the platform's fee back, at once and once.
/// Nothing else changes.
pub proof fn law_refunds_give_back_stakes_and_fee(
    s: MarketState,
    ledger: Ledger,
    user: Address,
    id: u64,
    other: (u64, Address),
)
    requires
        s.wf(),
        other != (id, user),
    ensures
        ({
            let r = s.cancel_refund(ledger, user, id);
            let e = s.bets[(id, user)];
            let there = s.markets.dom().contains(id);
            let off = there && s.markets[id].cancelled;
            let bettor = s.bets.dom().contains((id, user)) && e.gross != 0;
            &&& !there ==> refused_as(r, MarketError::MarketNotFound)
            &&& there && !off ==> refused_as(r, MarketError::MarketNotCancelled)
            &&& off && !bettor ==> refused_as(r, MarketError::NoBetFound)
            &&& r is Ok == (off && bettor)
            &&& r matches Ok(o) ==> {
                &&& o.value == e.net + e.hedge + e.fee
                &&& find(o.state.bets, (id, user)) == Some(
                    BetEntry { net: 0, hedge: 0, gross: 0, fee: 0, ..e },
                )
                &&& find(o.state.bets, other) == find(s.bets, other)
                &&& o.state == (MarketState { bets: o.state.bets, ..s })
                &&& o.effects == seq![
                    Effect::RequireAuth(user),
                    Effect::Transfer {
                        asset: s.cfg->0.xlm_sac,
                        from: ledger.this,
                        to: user,
                        amount: o.value,
                    },
                ]
                &&& o.renewed == set![DataKey::Bet(id, user), DataKey::Market(id)]
                &&& !o.instance_renewed
            }
        }),
{
    if s.bets.dom().contains((id, user)) {
        assert(s.bets[(id, user)].wf());
    }
}

/// Which disputes are taken and what each of the others is refused with: the admin
/// alone disputes an outcome that nobody bet on, once, and before its window closes.
pub proof fn law_which_disputes_are_taken(
    s: MarketState,
    ledger: Ledger,
    admin: Address,
    id: u64,
)
    ensures
        ({
            let r = s.freeze_market(ledger, admin, id);
            let f = s.forfeited[id];
            let running = s.paused != Some(true);
            let ready = running && s.admin is Some;
            let allowed = ready && s.admin == Some(admin);
            let there = allowed && s.markets.dom().contains(id);
            let held = there && s.forfeited.dom().contains(id);
            let first = held && !f.frozen;
            let in_time = first && ledger.timestamp < f.disputable_until;
            &&& !running ==> refused_as(r, MarketError::ContractPaused)
            &&& running && !ready ==> refused_as(r, MarketError::NotInitialized)
            &&& ready && !allowed ==> refused_as(r, MarketError::NotAdmin)
            &&& allowed && !there ==> refused_as(r, MarketError::MarketNotFound)
            &&& there && !held ==> refused_as(r, MarketError::NotZeroSide)
            &&& held && !first ==> refused_as(r, MarketError::MarketCancelled)
            &&& first && !in_time ==> refused_as(r, MarketError::DisputeWindowClosed)
            &&& r is Ok == in_time
        }),
{
}

/// What a dispute does: the market is marked as cancelled, so that everybody can
/// take a refund; what is held back is marked as frozen and keeps its amounts; and
/// the market's bettors are due no payout any more. Nothing else changes.
pub proof fn law_disputes_cancel_the_market(
    s: MarketState,
    ledger: Ledger,
    admin: Address,
    id: u64,
    other: u64,
    at: u32,
    stranger: (u64, Address),
)
    requires
        s.wf(),
        other != id,
        forall|i: u32| #[trigger]
            s.bettor_at.dom().contains((id, i)) ==> (id, s.bettor_at[(id, i)]) != stranger,
    ensures
        s.freeze_market(ledger, admin, id) matches Ok(o) ==> {
            let f = s.forfeited[id];
            let g = o.state.forfeited[id];
            &&& find(o.state.markets, id) == Some(Market { cancelled: true, ..s.markets[id] })
            &&& find(o.state.markets, other) == find(s.markets, other)
            &&& o.state.forfeited.dom().contains(id)
            &&& g.frozen
            &&& g.amount == f.amount
            &&& g.locked_fees == f.locked_fees
            &&& g.disputable_until == f.disputable_until
            &&& find(o.state.forfeited, other) == find(s.forfeited, other)
            &&& find(s.bettor_at, (id, at)) matches Some(user) ==> find(
                o.state.payouts,
                (id, user),
            ) is None
            &&& find(o.state.payouts, stranger) == find(s.payouts, stranger)
            &&& o.state == (MarketState {
                markets: o.state.markets,
                forfeited: o.state.forfeited,
                payouts: o.state.payouts,
                ..s
            })
            &&& o.effects == seq![Effect::RequireAuth(admin)]
            &&& o.renewed == set![DataKey::Market(id), DataKey::ForfeitedPool(id)]
            &&& !o.instance_renewed
        },
{
    lemma_unpaid_stranger(s, id, s.bettors(id) as nat, stranger);
    if s.bettor_at.dom().contains((id, at)) {
        lemma_unpaid_bettor(s, id, s.bettors(id) as nat, at);
    }
}

proof fn lemma_unpaid_stranger(s: MarketState, id: u64, n: nat, k: (u64, Address))
    requires
        n <= u32::MAX,
        forall|i: u32| #[trigger]
            s.bettor_at.dom().contains((id, i)) ==> (id, s.bettor_at[(id, i)]) != k,
    ensures
        find(s.unpaid(id, n), k) == find(s.payouts, k),
    decreases n,
{
    if n > 0 {
        lemma_unpaid_stranger(s, id, (n - 1) as nat, k);
        assert(s.bettor_at.dom().contains((id, (n - 1) as u32)) ==> (id, s.bettor_at[(
            id,
            (n - 1) as u32,
        )]) != k);
    }
}

proof fn lemma_unpaid_bettor(s: MarketState, id: u64, n: nat, at: u32)
    requires
        at < n <= u32::MAX,
        s.bettor_at.dom().contains((id, at)),
    ensures
        find(s.unpaid(id, n), (id, s.bettor_at[(id, at)])) is None,
    decreases n,
{
    if at < n - 1 {
        lemma_unpaid_bettor(s, id, (n - 1) as nat, at);
    } else {
        assert((n - 1) as u32 == at);
    }
}

/// Which fees that were held back are released, what each of the others is refused
/// with, and what a release does: once the window has passed without a dispute,
/// anybody may have the fees added to the market's; nothing is held back any more, and
/// nothing else changes.
pub proof fn law_undisputed_fees_are_released(
    s: MarketState,
    ledger: Ledger,
    id: u64,
    other: u64,
)
    requires
        other != id,
    ensures
        ({
            let r = s.finalize_zero_side(ledger, id);
            let f = s.forfeited[id];
            let running = s.paused != Some(true);
            let held = running && s.forfeited.dom().contains(id);
            let standing = held && !f.frozen;
            let passed = standing && ledger.timestamp >= f.disputable_until;
            &&& !running ==> refused_as(r, MarketError::ContractPaused)
            &&& running && !held ==> refused_as(r, MarketError::NotZeroSide)
            &&& held && !standing ==> refused_as(r, MarketError::MarketCancelled)
            &&& standing && !passed ==> refused_as(r, MarketError::DisputeWindowActive)
            &&& r is Ok == passed
            &&& r matches Ok(o) ==> {
                &&& 0 <= fees_on_record(s, id) + f.locked_fees <= i128::MAX ==> fees_on_record(
                    o.state,
                    id,
                ) == fees_on_record(s, id) + f.locked_fees
                &&& find(o.state.forfeited, id) is None
                &&& find(o.state.market_fees, other) == find(s.market_fees, other)
                &&& find(o.state.forfeited, other) == find(s.forfeited, other)
                &&& o.state == (MarketState {
                    market_fees: o.state.market_fees,
                    forfeited: o.state.forfeited,
                    ..s
                })
                &&& o.effects == Seq::<Effect>::empty()
                &&& o.renewed == set![DataKey::MarketFees(id)]
                &&& !o.instance_renewed
            }
        }),
{
}

} // verus!
