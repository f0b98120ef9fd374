//! Why each operation keeps the market's invariant.
use crate::address::Address;
use crate::env::Ledger;
use crate::prediction_market::settling::{
    lemma_settlement_payouts, lemma_settlement_within_pool,
};
use crate::prediction_market::state::{
    fee_share, net_of, part_of, platform_of, side_share, MarketState,
};
use crate::prediction_market::types::{BetEntry, Market, MIN_BET};
use crate::sums::{lemma_sum_covers, lemma_sum_insert, lemma_sum_remove, lemma_sum_zero, sum};
use crate::table::{find, lookup};
use vstd::prelude::*;

verus! {

/// The parts of a bet that is large enough.
pub proof fn lemma_split(amount: int)
    requires
        net_of(amount) >= MIN_BET,
    ensures
        amount > 0,
        0 < net_of(amount) <= amount,
        0 <= platform_of(amount) <= amount,
        net_of(amount) + platform_of(amount) <= amount,
{
}

/// A position that changes within one market changes only that market's sums.
pub proof fn lemma_position_changes(
    bets: Map<(u64, Address), BetEntry>,
    k: (u64, Address),
    e: BetEntry,
    id: u64,
    yes: bool,
)
    requires
        bets.dom().finite(),
    ensures
        sum(bets.insert(k, e), side_share(id, yes)) == sum(bets, side_share(id, yes)) + (if k.0
            == id {
            e.staked_on(yes) - (if bets.dom().contains(k) {
                bets[k].staked_on(yes) as int
            } else {
                0
            })
        } else {
            0
        }),
        sum(bets.insert(k, e), fee_share(id)) == sum(bets, fee_share(id)) + (if k.0 == id {
            e.fee - (if bets.dom().contains(k) {
                bets[k].fee as int
            } else {
                0
            })
        } else {
            0
        }),
{
    lemma_sum_insert(bets, side_share(id, yes), k, e);
    lemma_sum_insert(bets, fee_share(id), k, e);
}

/// A bet keeps the invariant.
pub proof fn lemma_bet_keeps(
    s: MarketState,
    user: Address,
    id: u64,
    is_yes: bool,
    amount: i128,
)
    requires
        s.wf(),
        s.markets.dom().contains(id),
        s.markets[id].open(),
        net_of(amount as int) >= MIN_BET,
        s.can_bet(user, id, is_yes, amount),
    ensures
        s.with_bet(user, id, is_yes, amount).wf(),
{
    let t = s.with_bet(user, id, is_yes, amount);
    let k = (id, user);
    let e = s.raised(user, id, is_yes, amount);
    lemma_split(amount as int);
    if s.bets.dom().contains(k) {
        assert(s.bets[k].wf());
    }
    assert(e.wf());
    assert(t.bets.dom() =~= s.bets.dom().insert(k));
    assert forall|i: u64, yes: bool| #[trigger]
        t.markets.dom().contains(i) implies sum(t.bets, #[trigger] side_share(i, yes))
        <= t.markets[i].side(yes) by {
        assert(s.markets.dom().contains(i));
        lemma_position_changes(s.bets, k, e, i, yes);
        assert(sum(s.bets, side_share(i, yes)) <= s.markets[i].side(yes));
    }
    assert forall|i: u64| #[trigger] t.markets.dom().contains(i) && t.markets[i].open() implies sum(
        t.bets,
        fee_share(i),
    ) <= t.fees_of(i) by {
        assert(s.markets.dom().contains(i));
        lemma_position_changes(s.bets, k, e, i, true);
    }
    assert forall|i: u32| !s.bets.dom().contains(k) && #[trigger] s.bettor_at.dom().contains(
        (id, i),
    ) implies s.bettor_at[(id, i)] != user by {}
    assert forall|i: u64, a: u32, b: u32| #[trigger]
        t.bettor_at.dom().contains((i, a)) && #[trigger] t.bettor_at.dom().contains((i, b))
            && t.bettor_at[(i, a)] == t.bettor_at[(i, b)] implies a == b by {
        if s.bettor_at.dom().contains((i, a)) && !s.bettor_at.dom().contains((i, b)) {
            assert((i, b) == (id, s.bettors(id)));
        }
        if s.bettor_at.dom().contains((i, b)) && !s.bettor_at.dom().contains((i, a)) {
            assert((i, a) == (id, s.bettors(id)));
        }
    }
    assert forall|x: (u64, u32)| #[trigger] t.bettor_at.dom().contains(x) implies 1 <= x.0
        <= t.count() && x.1 < t.bettors(x.0) by {
        if s.bettor_at.dom().contains(x) {
            assert(x.1 < s.bettors(x.0));
        }
    }
}

/// Emptying a position, or marking it as claimed, keeps the invariant.
pub proof fn lemma_position_keeps(s: MarketState, k: (u64, Address), e: BetEntry)
    requires
        s.wf(),
        s.bets.dom().contains(k),
        e.wf(),
        e.staked_on(true) <= s.bets[k].staked_on(true),
        e.staked_on(false) <= s.bets[k].staked_on(false),
        e.fee <= s.bets[k].fee,
    ensures
        (MarketState { bets: s.bets.insert(k, e), ..s }).wf(),
{
    let t = MarketState { bets: s.bets.insert(k, e), ..s };
    assert(t.bets.dom() =~= s.bets.dom());
    assert forall|i: u64, yes: bool| #[trigger]
        t.markets.dom().contains(i) implies sum(t.bets, #[trigger] side_share(i, yes))
        <= t.markets[i].side(yes) by {
        assert(s.markets.dom().contains(i));
        lemma_position_changes(s.bets, k, e, i, yes);
        assert(sum(s.bets, side_share(i, yes)) <= s.markets[i].side(yes));
    }
    assert forall|i: u64| #[trigger] t.markets.dom().contains(i) && t.markets[i].open() implies sum(
        t.bets,
        fee_share(i),
    ) <= t.fees_of(i) by {
        assert(s.markets.dom().contains(i));
        lemma_position_changes(s.bets, k, e, i, true);
    }
    assert forall|x: (u64, u32)| #[trigger] t.bettor_at.dom().contains(x) implies 1 <= x.0
        <= t.count() && x.1 < t.bettors(x.0) by {
        assert(s.bettor_at.dom().contains(x));
    }
}

/// A part is no more than the whole, and all of it where nothing is left.
pub proof fn lemma_part(whole: int, amount: int, gross: int)
    requires
        0 <= whole,
        0 < amount <= gross,
    ensures
        0 <= part_of(whole, amount, gross) <= whole,
        amount == gross ==> part_of(whole, amount, gross) == whole,
{
    assert(0 <= whole * amount / gross <= whole) by (nonlinear_arith)
        requires
            0 <= whole,
            0 < amount <= gross,
    ;
    assert(amount == gross ==> whole * amount / gross == whole) by (nonlinear_arith)
        requires
            0 < gross,
    ;
}

/// What a second piece adds to a part is no more than the piece.
proof fn lemma_part_grows(first: int, second: int, amount: int, gross: int)
    requires
        0 <= first,
        0 <= second,
        0 < amount <= gross,
    ensures
        0 <= part_of(first + second, amount, gross) - part_of(first, amount, gross) <= second,
{
    let x = first * amount;
    let y = second * amount;
    assert((first + second) * amount == x + y) by (nonlinear_arith)
        requires
            x == first * amount,
            y == second * amount,
    ;
    assert(0 <= y <= second * gross) by (nonlinear_arith)
        requires
            y == second * amount,
            0 <= second,
            0 < amount <= gross,
    ;
    assert((x + second * gross) / gross == x / gross + second) by (nonlinear_arith)
        requires
            0 < gross,
    ;
    assert(x / gross <= (x + y) / gross <= (x + second * gross) / gross) by (nonlinear_arith)
        requires
            0 < gross,
            0 <= y <= second * gross,
    ;
}

/// A part of something no larger than `gross` is no more than `amount`, and
/// what is left of it fits what is left of `gross` without vanishing first.
proof fn lemma_part_within(whole: int, amount: int, gross: int)
    requires
        0 <= whole <= gross,
        0 < amount <= gross,
    ensures
        part_of(whole, amount, gross) <= amount,
        whole - part_of(whole, amount, gross) <= gross - amount,
        whole > 0 && amount < gross ==> part_of(whole, amount, gross) < whole,
{
    let p = whole * amount / gross;
    let r = whole * amount % gross;
    assert(whole * amount == p * gross + r && 0 <= r < gross) by (nonlinear_arith)
        requires
            0 < gross,
            p == whole * amount / gross,
            r == whole * amount % gross,
    ;
    assert(p <= amount) by (nonlinear_arith)
        requires
            whole * amount == p * gross + r,
            0 <= r,
            0 <= whole <= gross,
            0 < amount,
            0 < gross,
    ;
    assert(whole - p <= gross - amount) by (nonlinear_arith)
        requires
            whole * amount == p * gross + r,
            r < gross,
            whole <= gross,
            amount <= gross,
            0 < gross,
    {
        assert((whole - p) * gross == whole * (gross - amount) + r);
        assert(whole * (gross - amount) <= gross * (gross - amount));
        assert((whole - p) * gross < (gross - amount + 1) * gross);
    }
    if whole > 0 && amount < gross {
        assert(p < whole) by (nonlinear_arith)
            requires
                whole * amount == p * gross + r,
                0 <= r,
                0 < whole,
                amount < gross,
                0 < gross,
        {
            assert(whole * amount < whole * gross);
        }
    }
}

/// The same of every part of a position.
pub proof fn lemma_position_part(e: BetEntry, amount: i128)
    requires
        e.wf(),
        0 < amount <= e.gross,
    ensures
        e.less(e.part(amount)).wf(),
        0 <= e.part(amount).net <= e.net,
        0 <= e.part(amount).hedge <= e.hedge,
        0 <= e.part(amount).fee <= e.fee,
        e.part(amount).net == part_of(e.net as int, amount as int, e.gross as int),
        e.part(amount).stakes() == part_of(e.stakes(), amount as int, e.gross as int),
        e.part(amount).refundable() == part_of(e.refundable(), amount as int, e.gross as int)
            <= amount,
        e.part(amount).refundable() + e.less(e.part(amount)).refundable() == e.refundable(),
        amount == e.gross ==> e.part(amount) == e,
{
    let (a, g) = (amount as int, e.gross as int);
    lemma_part(e.net as int, a, g);
    lemma_part(e.stakes(), a, g);
    lemma_part(e.refundable(), a, g);
    lemma_part_grows(e.net as int, e.hedge as int, a, g);
    lemma_part_grows(e.stakes(), e.fee as int, a, g);
    lemma_part_within(e.refundable(), a, g);
}

/// The parts of a position multiply to less than all of it.
pub proof fn lemma_smaller_products(e: BetEntry, amount: i128)
    requires
        e.wf(),
        0 < amount,
    ensures
        e.net * amount <= e.stakes() * amount <= e.refundable() * amount,
{
    let (x, y, z, a) = (e.net as int, e.hedge as int, e.fee as int, amount as int);
    assert(x * a <= (x + y) * a <= (x + y + z) * a) by (nonlinear_arith)
        requires
            0 <= y,
            0 <= z,
            0 < a,
    ;
}

/// What a market's records hold covers each position in it.
pub proof fn lemma_position_covered(s: MarketState, k: (u64, Address), yes: bool)
    requires
        s.wf(),
        s.bets.dom().contains(k),
        s.markets.dom().contains(k.0),
        s.markets[k.0].open(),
    ensures
        s.bets[k].staked_on(yes) <= s.markets[k.0].side(yes),
        s.bets[k].fee <= s.fees_of(k.0),
{
    let f = side_share(k.0, yes);
    let g = fee_share(k.0);
    assert forall|x: (u64, Address)| s.bets.dom().contains(x) implies #[trigger] f(x, s.bets[x])
        >= 0 by {
        assert(s.bets[x].wf());
    }
    assert forall|x: (u64, Address)| s.bets.dom().contains(x) implies #[trigger] g(x, s.bets[x])
        >= 0 by {
        assert(s.bets[x].wf());
    }
    lemma_sum_covers(s.bets, f);
    lemma_sum_covers(s.bets, g);
    assert(f(k, s.bets[k]) <= sum(s.bets, f));
    assert(g(k, s.bets[k]) <= sum(s.bets, g));
    assert(sum(s.bets, side_share(k.0, yes)) <= s.markets[k.0].side(yes));
}

/// A reduction takes the same from the positions as from the market.
pub proof fn lemma_reduction_changes(
    s: MarketState,
    user: Address,
    id: u64,
    amount: i128,
    i: u64,
    yes: bool,
)
    requires
        s.wf(),
        s.bets.dom().contains((id, user)),
        0 < amount <= s.bets[(id, user)].gross,
    ensures
        ({
            let t = s.with_less(user, id, amount);
            let off = s.bets[(id, user)].part(amount);
            &&& sum(t.bets, side_share(i, yes)) == sum(s.bets, side_share(i, yes)) - (if i == id {
                off.staked_on(yes) as int
            } else {
                0
            })
            &&& sum(t.bets, fee_share(i)) == sum(s.bets, fee_share(i)) - (if i == id {
                off.fee as int
            } else {
                0
            })
        }),
{
    let k = (id, user);
    let e = s.bets[k];
    assert(e.wf());
    lemma_position_part(e, amount);
    if amount == e.gross {
        lemma_sum_remove(s.bets, side_share(i, yes), k);
        lemma_sum_remove(s.bets, fee_share(i), k);
    } else {
        lemma_position_changes(s.bets, k, e.less(e.part(amount)), i, yes);
    }
}

/// Reducing a position keeps the invariant.
pub proof fn lemma_reduction_keeps(s: MarketState, user: Address, id: u64, amount: i128)
    requires
        s.wf(),
        s.markets.dom().contains(id),
        s.markets[id].open(),
        s.bets.dom().contains((id, user)),
        0 < amount <= s.bets[(id, user)].gross,
    ensures
        s.with_less(user, id, amount).wf(),
{
    let t = s.with_less(user, id, amount);
    let k = (id, user);
    let e = s.bets[k];
    let off = e.part(amount);
    assert(e.wf());
    lemma_position_part(e, amount);
    lemma_position_covered(s, k, true);
    lemma_position_covered(s, k, false);
    assert(t.bets.dom().finite());
    assert forall|x: (u64, Address)| #[trigger] t.bets.dom().contains(x) implies 1 <= x.0
        <= t.count() && t.bets[x].wf() by {
        assert(s.bets.dom().contains(x));
    }
    assert forall|i: u64| #[trigger] t.markets.dom().contains(i) implies 1 <= i <= t.count()
        && t.markets[i].id == i && t.markets[i].total_yes >= 0 && t.markets[i].total_no >= 0 by {
        assert(s.markets.dom().contains(i));
    }
    assert forall|i: u64, yes: bool| #[trigger]
        t.markets.dom().contains(i) implies sum(t.bets, #[trigger] side_share(i, yes))
        <= t.markets[i].side(yes) by {
        assert(s.markets.dom().contains(i));
        lemma_reduction_changes(s, user, id, amount, i, yes);
        assert(sum(s.bets, side_share(i, yes)) <= s.markets[i].side(yes));
    }
    assert forall|i: u64| #[trigger] t.markets.dom().contains(i) && t.markets[i].open() implies sum(
        t.bets,
        fee_share(i),
    ) <= t.fees_of(i) by {
        assert(s.markets.dom().contains(i));
        lemma_reduction_changes(s, user, id, amount, i, true);
    }
    assert forall|x: (u64, u32)| #[trigger] t.bettor_at.dom().contains(x) implies {
        &&& s.bettor_at.dom().contains(x)
        &&& t.bettor_at[x] == s.bettor_at[x]
        &&& 1 <= x.0 <= t.count()
        &&& x.1 < t.bettors(x.0)
    } by {
        assert(s.bettor_at.dom().contains(x));
    }
    assert forall|x: (u64, u32)| #[trigger]
        t.bettor_at.dom().contains(x) && t.markets.dom().contains(x.0)
            && t.markets[x.0].open() implies t.bets.dom().contains((x.0, t.bettor_at[x])) by {
        assert(s.bettor_at.dom().contains(x));
        assert(s.markets.dom().contains(x.0));
        assert(s.bets.dom().contains((x.0, s.bettor_at[x])));
    }
    assert forall|i: u64, a: u32, b: u32| #[trigger]
        t.bettor_at.dom().contains((i, a)) && #[trigger] t.bettor_at.dom().contains((i, b))
            && t.bettor_at[(i, a)] == t.bettor_at[(i, b)] implies a == b by {
        assert(s.bettor_at.dom().contains((i, a)) && s.bettor_at.dom().contains((i, b)));
    }
}

/// A new market keeps the invariant.
pub proof fn lemma_creation_keeps(s: MarketState, m: Market, t: MarketState)
    requires
        s.wf(),
        s.admin is Some,
        s.count() < u64::MAX,
        m.id == s.count() + 1,
        m.total_yes == 0,
        m.total_no == 0,
        t == (MarketState {
            market_count: Some(m.id),
            markets: s.markets.insert(m.id, m),
            rate_window: t.rate_window,
            open_markets: t.open_markets,
            ..s
        }),
    ensures
        t.wf(),
{
    assert forall|i: u64, yes: bool| #[trigger]
        t.markets.dom().contains(i) implies sum(t.bets, #[trigger] side_share(i, yes))
        <= t.markets[i].side(yes) by {
        if i == m.id {
            assert forall|k: (u64, Address)| t.bets.dom().contains(k) implies #[trigger] side_share(
                i,
                yes,
            )(k, t.bets[k]) == 0 by {}
            lemma_sum_zero(t.bets, side_share(i, yes));
        } else {
            assert(s.markets.dom().contains(i));
            assert(sum(s.bets, side_share(i, yes)) <= s.markets[i].side(yes));
        }
    }
    assert forall|i: u64| #[trigger] t.markets.dom().contains(i) && t.markets[i].open() implies sum(
        t.bets,
        fee_share(i),
    ) <= t.fees_of(i) by {
        if i == m.id {
            assert forall|k: (u64, Address)| t.bets.dom().contains(k) implies #[trigger] fee_share(
                i,
            )(k, t.bets[k]) == 0 by {}
            lemma_sum_zero(t.bets, fee_share(i));
            assert(!s.market_fees.dom().contains(i));
        } else {
            assert(s.markets.dom().contains(i));
        }
    }
    assert forall|x: (u64, u32)| #[trigger] t.bettor_at.dom().contains(x) implies 1 <= x.0
        <= t.count() && x.1 < t.bettors(x.0) && x.0 != m.id by {
        assert(s.bettor_at.dom().contains(x));
    }
}

/// Closing a market, whatever becomes of its fees and payouts, keeps the
/// invariant.
pub proof fn lemma_closing_keeps(s: MarketState, id: u64, m: Market, t: MarketState)
    requires
        s.wf(),
        s.markets.dom().contains(id),
        !m.open(),
        m.id == id,
        m.total_yes == s.markets[id].total_yes,
        m.total_no == s.markets[id].total_no,
        t == (MarketState {
            markets: s.markets.insert(id, m),
            open_markets: t.open_markets,
            payouts: t.payouts,
            market_fees: t.market_fees,
            forfeited: t.forfeited,
            ..s
        }),
        t.payouts.dom().finite(),
        forall|k: (u64, Address)| #[trigger]
            t.payouts.dom().contains(k) ==> 1 <= k.0 <= s.count() && t.payouts[k] >= 0,
        forall|i: u64| i != id ==> #[trigger] find(t.market_fees, i) == find(s.market_fees, i),
        find(t.market_fees, id) matches Some(f) ==> f >= 0,
        forall|i: u64| i != id ==> #[trigger] find(t.forfeited, i) == find(s.forfeited, i),
        find(t.forfeited, id) matches Some(f) ==> f.locked_fees >= 0,
    ensures
        t.wf(),
{
    assert(1 <= id <= s.count());
    assert forall|i: u64, yes: bool| #[trigger]
        t.markets.dom().contains(i) implies sum(t.bets, #[trigger] side_share(i, yes))
        <= t.markets[i].side(yes) by {
        assert(s.markets.dom().contains(i));
        assert(sum(s.bets, side_share(i, yes)) <= s.markets[i].side(yes));
    }
    assert forall|i: u64| #[trigger] t.markets.dom().contains(i) && t.markets[i].open() implies sum(
        t.bets,
        fee_share(i),
    ) <= t.fees_of(i) by {
        assert(s.markets.dom().contains(i));
        assert(find(t.market_fees, i) == find(s.market_fees, i));
    }
    assert forall|i: u64| #[trigger] t.market_fees.dom().contains(i) implies 1 <= i <= t.count()
        && t.market_fees[i] >= 0 by {
        if i != id {
            assert(find(t.market_fees, i) == find(s.market_fees, i));
            assert(s.market_fees.dom().contains(i));
        }
    }
    assert forall|i: u64| #[trigger] t.forfeited.dom().contains(i) implies 1 <= i <= t.count()
        && t.forfeited[i].locked_fees >= 0 by {
        if i != id {
            assert(find(t.forfeited, i) == find(s.forfeited, i));
            assert(s.forfeited.dom().contains(i));
        }
    }
    assert forall|x: (u64, u32)| #[trigger] t.bettor_at.dom().contains(x) implies 1 <= x.0
        <= t.count() && x.1 < t.bettors(x.0) by {
        assert(s.bettor_at.dom().contains(x));
    }
}

/// Resolving a market keeps the invariant.
pub proof fn lemma_resolution_keeps(s: MarketState, ledger: Ledger, id: u64, outcome: bool)
    requires
        s.wf(),
        s.markets.dom().contains(id),
        s.can_resolve(ledger, id, outcome),
    ensures
        (MarketState {
            markets: s.markets.insert(
                id,
                Market { resolved: true, outcome, ..s.markets[id] },
            ),
            open_markets: s.one_less_open(),
            ..s.paid_out(ledger, id, outcome)
        }).wf(),
{
    let n = s.bettors(id) as nat;
    lemma_settlement_payouts(s, id, outcome, n);
    lemma_settlement_within_pool(s, id, outcome, n);
    let m = Market { resolved: true, outcome, ..s.markets[id] };
    let p = s.paid_out(ledger, id, outcome);
    let t = MarketState {
        markets: s.markets.insert(id, m),
        open_markets: s.one_less_open(),
        ..p
    };
    assert(s.fees_of(id) >= 0);
    lemma_closing_keeps(s, id, m, t);
}

/// Paying out earned fees takes exactly the amount, leaves no market's fees
/// negative, and does not touch the fees of a market that is not settled.
pub proof fn lemma_taken(s: MarketState, fees: Map<u64, i128>, n: nat, amount: int)
    requires
        n <= s.count(),
        0 <= amount,
        forall|i: u64| #[trigger] fees.dom().contains(i) ==> fees[i] >= 0,
    ensures
        ({
            let t = s.taken(fees, n, amount);
            &&& forall|i: u64| #[trigger]
                t.dom().contains(i) == fees.dom().contains(i)
            &&& forall|i: u64| #[trigger] t.dom().contains(i) ==> 0 <= t[i] <= fees[i]
            &&& forall|i: u64|
                i > n || !s.settled(i) ==> #[trigger] find(t, i) == find(fees, i)
        }),
    decreases n,
{
    if n > 0 && amount > 0 {
        let id = n as u64;
        let have = lookup(fees, id, 0);
        if s.settled(id) && have > 0 {
            let take = if have < amount {
                have as int
            } else {
                amount
            };
            let next = fees.insert(id, (have - take) as i128);
            lemma_taken(s, next, (n - 1) as nat, amount - take);
            let t = s.taken(fees, n, amount);
            assert forall|i: u64| i > n || !s.settled(i) implies #[trigger] find(t, i) == find(
                fees,
                i,
            ) by {
                assert(find(t, i) == find(next, i));
            }
            assert forall|i: u64| #[trigger] t.dom().contains(i) implies 0 <= t[i] <= fees[i] by {
                assert(next.dom().contains(i));
            }
        } else {
            lemma_taken(s, fees, (n - 1) as nat, amount);
        }
    }
}

/// Paying out earned fees keeps the invariant.
pub proof fn lemma_debit_keeps(s: MarketState, amount: int)
    requires
        s.wf(),
        s.admin is Some,
        0 <= amount,
    ensures
        s.debited(amount).wf(),
{
    let own = if s.legacy() < amount {
        s.legacy() as int
    } else {
        amount
    };
    lemma_taken(s, s.market_fees, s.count() as nat, amount - own);
    let t = s.debited(amount);
    assert forall|i: u64, yes: bool| #[trigger]
        t.markets.dom().contains(i) implies sum(t.bets, #[trigger] side_share(i, yes))
        <= t.markets[i].side(yes) by {
        assert(s.markets.dom().contains(i));
        assert(sum(s.bets, side_share(i, yes)) <= s.markets[i].side(yes));
    }
    assert forall|i: u64| #[trigger] t.markets.dom().contains(i) && t.markets[i].open() implies sum(
        t.bets,
        fee_share(i),
    ) <= t.fees_of(i) by {
        assert(s.markets.dom().contains(i));
        assert(!s.settled(i));
        assert(find(t.market_fees, i) == find(s.market_fees, i));
    }
    assert forall|i: u64| #[trigger] t.market_fees.dom().contains(i) implies 1 <= i <= t.count()
        && t.market_fees[i] >= 0 by {
        assert(s.market_fees.dom().contains(i));
    }
    assert forall|x: (u64, u32)| #[trigger] t.bettor_at.dom().contains(x) implies 1 <= x.0
        <= t.count() && x.1 < t.bettors(x.0) by {
        assert(s.bettor_at.dom().contains(x));
    }
}

/// Removing payouts leaves those that remain as they were.
pub proof fn lemma_unpaid(s: MarketState, id: u64, n: nat)
    requires
        s.wf(),
    ensures
        s.unpaid(id, n).dom().finite(),
        forall|k: (u64, Address)| #[trigger]
            s.unpaid(id, n).dom().contains(k) ==> s.payouts.dom().contains(k) && s.unpaid(
                id,
                n,
            )[k] == s.payouts[k],
        forall|k: (u64, Address)|
            k.0 != id ==> #[trigger] find(s.unpaid(id, n), k) == find(s.payouts, k),
    decreases n,
{
    if n > 0 {
        lemma_unpaid(s, id, (n - 1) as nat);
        assert forall|k: (u64, Address)| k.0 != id implies #[trigger] find(s.unpaid(id, n), k)
            == find(s.payouts, k) by {
            assert(find(s.unpaid(id, (n - 1) as nat), k) == find(s.payouts, k));
        }
    }
}

/// The fees of a market that is not open may change freely.
pub proof fn lemma_fees_keep(s: MarketState, id: u64, fee: i128, t: MarketState)
    requires
        s.wf(),
        1 <= id <= s.count(),
        s.fees_of(id) <= fee,
        0 <= fee,
        t == (MarketState {
            market_fees: s.market_fees.insert(id, fee),
            forfeited: s.forfeited.remove(id),
            ..s
        }),
    ensures
        t.wf(),
{
    assert forall|i: u64, yes: bool| #[trigger]
        t.markets.dom().contains(i) implies sum(t.bets, #[trigger] side_share(i, yes))
        <= t.markets[i].side(yes) by {
        assert(s.markets.dom().contains(i));
        assert(sum(s.bets, side_share(i, yes)) <= s.markets[i].side(yes));
    }
    assert forall|i: u64| #[trigger] t.markets.dom().contains(i) && t.markets[i].open() implies sum(
        t.bets,
        fee_share(i),
    ) <= t.fees_of(i) by {
        assert(s.markets.dom().contains(i));
    }
    assert forall|x: (u64, u32)| #[trigger] t.bettor_at.dom().contains(x) implies 1 <= x.0
        <= t.count() && x.1 < t.bettors(x.0) by {
        assert(s.bettor_at.dom().contains(x));
    }
}

/// Changing withdrawal requests keeps the invariant.
pub proof fn lemma_requests_keep(s: MarketState, t: MarketState)
    requires
        s.wf(),
        t == (MarketState { pending_withdrawals: t.pending_withdrawals, ..s }),
        forall|who: Address| #[trigger]
            t.pending_withdrawals.dom().contains(who) ==> t.pending_withdrawals[who].amount > 0,
    ensures
        t.wf(),
{
    assert forall|i: u64, yes: bool| #[trigger]
        t.markets.dom().contains(i) implies sum(t.bets, #[trigger] side_share(i, yes))
        <= t.markets[i].side(yes) by {
        assert(s.markets.dom().contains(i));
        assert(sum(s.bets, side_share(i, yes)) <= s.markets[i].side(yes));
    }
    assert forall|x: (u64, u32)| #[trigger] t.bettor_at.dom().contains(x) implies 1 <= x.0
        <= t.count() && x.1 < t.bettors(x.0) by {
        assert(s.bettor_at.dom().contains(x));
    }
}

} // verus!
