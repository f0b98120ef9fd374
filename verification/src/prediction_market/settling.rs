//! Why a settlement never pays out more than the pool.
use crate::address::Address;
use crate::prediction_market::state::{side_share, MarketState};
use crate::prediction_market::types::BetEntry;
use crate::sums::{lemma_sum_covers, lemma_sum_remove, sum};
use crate::table::find;
use vstd::prelude::*;

verus! {

/// What the positions in the first `n` places of a market's index add up to.
pub open spec fn walked(
    s: MarketState,
    id: u64,
    n: nat,
    f: spec_fn((u64, Address), BetEntry) -> int,
) -> int
    decreases n,
{
    if n == 0 {
        0
    } else {
        walked(s, id, (n - 1) as nat, f) + (match find(s.bettor_at, (id, (n - 1) as u32)) {
            Some(user) => match find(s.bets, (id, user)) {
                Some(e) => f((id, user), e),
                None => 0,
            },
            None => 0,
        })
    }
}

/// The positions without those in the first `n` places of a market's index.
pub open spec fn not_walked(s: MarketState, id: u64, n: nat) -> Map<(u64, Address), BetEntry>
    decreases n,
{
    if n == 0 {
        s.bets
    } else {
        match find(s.bettor_at, (id, (n - 1) as u32)) {
            Some(user) => not_walked(s, id, (n - 1) as nat).remove((id, user)),
            None => not_walked(s, id, (n - 1) as nat),
        }
    }
}

pub proof fn lemma_not_walked_keeps(s: MarketState, id: u64, n: nat, k: (u64, Address))
    requires
        n <= u32::MAX,
        forall|i: u32|
            i < n && k.0 == id && #[trigger] s.bettor_at.dom().contains((id, i))
                ==> s.bettor_at[(id, i)] != k.1,
    ensures
        find(not_walked(s, id, n), k) == find(s.bets, k),
    decreases n,
{
    if n > 0 {
        lemma_not_walked_keeps(s, id, (n - 1) as nat, k);
        let i = (n - 1) as u32;
        if s.bettor_at.dom().contains((id, i)) {
            assert(k != (id, s.bettor_at[(id, i)]));
        }
    }
}

pub proof fn lemma_not_walked_within(s: MarketState, id: u64, n: nat)
    requires
        s.bets.dom().finite(),
    ensures
        not_walked(s, id, n).dom().finite(),
        forall|k: (u64, Address)| #[trigger]
            not_walked(s, id, n).dom().contains(k) ==> s.bets.dom().contains(k) && not_walked(
                s,
                id,
                n,
            )[k] == s.bets[k],
    decreases n,
{
    if n > 0 {
        lemma_not_walked_within(s, id, (n - 1) as nat);
    }
}

/// Walking the index counts each position at most once.
pub proof fn lemma_walked_splits(
    s: MarketState,
    id: u64,
    n: nat,
    f: spec_fn((u64, Address), BetEntry) -> int,
)
    requires
        s.wf(),
        n <= u32::MAX,
    ensures
        walked(s, id, n, f) + sum(not_walked(s, id, n), f) == sum(s.bets, f),
    decreases n,
{
    if n > 0 {
        let m = (n - 1) as nat;
        lemma_walked_splits(s, id, m, f);
        lemma_not_walked_within(s, id, m);
        let i = m as u32;
        if s.bettor_at.dom().contains((id, i)) {
            let k = (id, s.bettor_at[(id, i)]);
            assert forall|j: u32|
                j < m && #[trigger] s.bettor_at.dom().contains(
                    (id, j),
                ) implies s.bettor_at[(id, j)] != k.1 by {
                assert(s.bettor_at.dom().contains((id, i)));
            }
            lemma_not_walked_keeps(s, id, m, k);
            lemma_sum_remove(not_walked(s, id, m), f, k);
        }
    }
}

/// The stakes met on a walk come to no more than the side they are on.
pub proof fn lemma_walked_within_side(s: MarketState, id: u64, n: nat, yes: bool)
    requires
        s.wf(),
        s.markets.dom().contains(id),
        n <= u32::MAX,
    ensures
        0 <= walked(s, id, n, side_share(id, yes)) <= s.markets[id].side(yes),
{
    let f = side_share(id, yes);
    lemma_walked_splits(s, id, n, f);
    lemma_not_walked_within(s, id, n);
    let rest = not_walked(s, id, n);
    assert forall|k: (u64, Address)| rest.dom().contains(k) implies #[trigger] f(k, rest[k])
        >= 0 by {
        assert(s.bets.dom().contains(k));
    }
    lemma_sum_covers(rest, f);
    assert(sum(s.bets, f) <= s.markets[id].side(yes));
    lemma_walked_positive(s, id, n, yes);
}

proof fn lemma_walked_positive(s: MarketState, id: u64, n: nat, yes: bool)
    requires
        s.wf(),
    ensures
        0 <= walked(s, id, n, side_share(id, yes)),
    decreases n,
{
    if n > 0 {
        lemma_walked_positive(s, id, (n - 1) as nat, yes);
        let i = (n - 1) as u32;
        if s.bettor_at.dom().contains((id, i)) {
            let k = (id, s.bettor_at[(id, i)]);
            if s.bets.dom().contains(k) {
                assert(s.bets[k].wf());
            }
        }
    }
}

/// A rounded-down share, scaled back up, stays within the whole.
pub proof fn lemma_share_rounds_down(stake: int, pool: int, side: int)
    by (nonlinear_arith)
    requires
        0 <= stake,
        0 <= pool,
        0 < side,
    ensures
        0 <= stake * pool / side,
        stake * pool / side * side <= stake * pool,
        stake * pool < (stake * pool / side + 1) * side,
{
}

/// The payouts of a settlement are shares of the stakes it met.
pub proof fn lemma_settlement_total(s: MarketState, id: u64, outcome: bool, n: nat)
    requires
        s.wf(),
        s.markets.dom().contains(id),
        n <= u32::MAX,
    ensures
        ({
            let m = s.markets[id];
            let t = s.settlement(id, outcome, n);
            &&& 0 <= t.total
            &&& m.side(outcome) > 0 ==> t.total * m.side(outcome) <= walked(
                s,
                id,
                n,
                side_share(id, outcome),
            ) * m.pool()
            &&& m.side(outcome) == 0 ==> t.total == walked(s, id, n, side_share(id, true))
                + walked(s, id, n, side_share(id, false))
        }),
    decreases n,
{
    let m = s.markets[id];
    let win = m.side(outcome) as int;
    let pool = m.pool();
    if n > 0 {
        let p = (n - 1) as nat;
        lemma_settlement_total(s, id, outcome, p);
        let before = s.settlement(id, outcome, p);
        let i = p as u32;
        if s.bettor_at.dom().contains((id, i)) {
            let k = (id, s.bettor_at[(id, i)]);
            if s.bets.dom().contains(k) {
                let e = s.bets[k];
                assert(e.wf());
                let w0 = walked(s, id, p, side_share(id, outcome));
                let w1 = walked(s, id, n, side_share(id, outcome));
                assert(w1 == w0 + e.staked_on(outcome));
                if win > 0 {
                    let stake = e.staked_on(outcome) as int;
                    lemma_share_rounds_down(stake, pool, win);
                    let due = stake * pool / win;
                    assert((before.total + due) * win == before.total * win + due * win)
                        by (nonlinear_arith);
                    assert((w0 + stake) * pool == w0 * pool + stake * pool) by (nonlinear_arith);
                    if stake == 0 {
                        assert(stake * pool == 0) by (nonlinear_arith)
                            requires
                                stake == 0,
                        ;
                    }
                } else {
                    assert(e.net + e.hedge == e.staked_on(true) + e.staked_on(false));
                }
            }
        }
    } else {
        assert(0 * win == 0 && 0 * pool == 0) by (nonlinear_arith);
    }
}

/// Part of a settlement, and so the whole, never pays out more than the pool.
pub proof fn lemma_settlement_within_pool(s: MarketState, id: u64, outcome: bool, n: nat)
    requires
        s.wf(),
        s.markets.dom().contains(id),
        n <= u32::MAX,
    ensures
        0 <= s.settlement(id, outcome, n).total <= s.markets[id].pool(),
{
    let m = s.markets[id];
    lemma_settlement_total(s, id, outcome, n);
    lemma_walked_within_side(s, id, n, outcome);
    lemma_walked_within_side(s, id, n, true);
    lemma_walked_within_side(s, id, n, false);
    if m.side(outcome) > 0 {
        let total = s.settlement(id, outcome, n).total;
        let w = walked(s, id, n, side_share(id, outcome));
        let win = m.side(outcome) as int;
        let pool = m.pool();
        assert(w * pool <= win * pool) by (nonlinear_arith)
            requires
                w <= win,
                0 <= pool,
        ;
        assert(total <= pool) by (nonlinear_arith)
            requires
                total * win <= win * pool,
                win > 0,
        ;
    }
}

/// A settlement grows along the index.
pub proof fn lemma_settlement_grows(s: MarketState, id: u64, outcome: bool, n: nat, later: nat)
    requires
        s.wf(),
        s.markets.dom().contains(id),
        n <= later <= u32::MAX,
    ensures
        s.settlement(id, outcome, n).total <= s.settlement(id, outcome, later).total,
    decreases later,
{
    if n < later {
        lemma_settlement_grows(s, id, outcome, n, (later - 1) as nat);
        let i = (later - 1) as u32;
        if s.bettor_at.dom().contains((id, i)) {
            let k = (id, s.bettor_at[(id, i)]);
            if s.bets.dom().contains(k) {
                let e = s.bets[k];
                assert(e.wf());
                if s.markets[id].side(outcome) > 0 {
                    lemma_share_rounds_down(
                        e.staked_on(outcome) as int,
                        s.markets[id].pool(),
                        s.markets[id].side(outcome) as int,
                    );
                }
            }
        }
    }
}

/// Each payout of a settlement is a share of the pool; records of other
/// markets are left alone.
pub proof fn lemma_settlement_payouts(s: MarketState, id: u64, outcome: bool, n: nat)
    requires
        s.wf(),
        s.markets.dom().contains(id),
        s.markets[id].pool() <= i128::MAX,
        n <= u32::MAX,
    ensures
        s.settlement(id, outcome, n).payouts.dom().finite(),
        forall|k: (u64, Address)| #[trigger]
            s.settlement(id, outcome, n).payouts.dom().contains(k) ==> 1 <= k.0 <= s.count()
                && s.settlement(id, outcome, n).payouts[k] >= 0,
        forall|k: (u64, Address)|
            k.0 != id ==> #[trigger] find(s.settlement(id, outcome, n).payouts, k) == find(
                s.payouts,
                k,
            ),
    decreases n,
{
    if n > 0 {
        let p = (n - 1) as nat;
        lemma_settlement_payouts(s, id, outcome, p);
        let before = s.settlement(id, outcome, p);
        let after = s.settlement(id, outcome, n);
        lemma_settlement_grows(s, id, outcome, p, n);
        lemma_settlement_within_pool(s, id, outcome, n);
        lemma_settlement_within_pool(s, id, outcome, p);
        assert forall|k: (u64, Address)| k.0 != id implies #[trigger] find(after.payouts, k)
            == find(s.payouts, k) by {
            assert(find(before.payouts, k) == find(s.payouts, k));
        }
        assert forall|k: (u64, Address)| #[trigger]
            after.payouts.dom().contains(k) implies 1 <= k.0 <= s.count() && after.payouts[k]
            >= 0 by {
            assert(before.payouts.dom().contains(k) ==> 1 <= k.0 <= s.count());
        }
    }
}

} // verus!
