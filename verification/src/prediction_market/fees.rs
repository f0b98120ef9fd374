//! The fee ledger: what was taken on which market's bets, and what of it is
//! earned.
use crate::prediction_market::keeping::lemma_debit_keeps;
use crate::prediction_market::state::{MarketState, PredictionMarketContract};
use crate::table::{find, lookup};
use vstd::prelude::*;

verus! {

/// Fees only add up.
pub proof fn lemma_fees_grow(s: MarketState, n: nat, later: nat)
    requires
        s.wf(),
        n <= later,
    ensures
        0 <= s.fees_upto(n) <= s.fees_upto(later),
        0 <= s.earned_upto(n) <= s.earned_upto(later),
    decreases later,
{
    if n < later {
        lemma_fees_grow(s, n, (later - 1) as nat);
        lemma_fees_positive(s, later as u64);
    } else if n > 0 {
        lemma_fees_grow(s, (n - 1) as nat, (n - 1) as nat);
        lemma_fees_positive(s, n as u64);
    }
}

proof fn lemma_fees_positive(s: MarketState, id: u64)
    requires
        s.wf(),
    ensures
        s.fees_of(id) >= 0,
{
    assert(s.market_fees.dom().contains(id) ==> s.market_fees[id] >= 0);
}

/// Earned fees are among the fees.
pub proof fn lemma_earned_within(s: MarketState, n: nat)
    requires
        s.wf(),
    ensures
        0 <= s.earned_upto(n) <= s.fees_upto(n),
    decreases n,
{
    if n > 0 {
        lemma_earned_within(s, (n - 1) as nat);
        lemma_fees_positive(s, n as u64);
    }
}

impl PredictionMarketContract {
    /// Whether a market's fees are earned.
    fn is_settled(&self, id: u64) -> (b: bool)
        ensures
            b == self@.settled(id),
    {
        match self.markets.get(id) {
            Some(m) => m.resolved && !m.cancelled,
            None => false,
        }
    }

    /// All fees on record, of every market and of none.
    pub fn get_accumulated_fees(&self) -> (total: i128)
        requires
            self@.wf(),
            self@.fees() <= i128::MAX,
        ensures
            total == self@.fees(),
    {
        let n: u64 = self.market_count.unwrap_or(0);
        let mut total: i128 = self.get_legacy_fees();
        let mut id: u64 = 0;
        while id < n
            invariant
                id <= n,
                n == self@.count(),
                self@.wf(),
                self@.fees() <= i128::MAX,
                total == self@.legacy() + self@.fees_upto(id as nat),
            decreases n - id,
        {
            id = id + 1;
            proof {
                lemma_fees_grow(self@, id as nat, n as nat);
                lemma_fees_grow(self@, (id - 1) as nat, id as nat);
            }
            total = total + self.market_fees.get_or(id, 0);
        }
        total
    }

    /// The fees that can be withdrawn.
    pub fn earned_fees(&self) -> (total: i128)
        requires
            self@.wf(),
            self@.earned() <= i128::MAX,
        ensures
            total == self@.earned(),
            0 <= total,
    {
        let n: u64 = self.market_count.unwrap_or(0);
        let mut total: i128 = self.get_legacy_fees();
        let mut id: u64 = 0;
        while id < n
            invariant
                id <= n,
                n == self@.count(),
                self@.wf(),
                self@.earned() <= i128::MAX,
                total == self@.legacy() + self@.earned_upto(id as nat),
                0 <= total,
            decreases n - id,
        {
            id = id + 1;
            proof {
                lemma_fees_grow(self@, id as nat, n as nat);
                lemma_fees_grow(self@, (id - 1) as nat, id as nat);
            }
            if self.is_settled(id) {
                total = total + self.market_fees.get_or(id, 0);
            }
        }
        total
    }

    /// Take `amount` out of the earned fees: first what belongs to no market,
    /// then from settled markets, newest first.
    pub(crate) fn debit_fees(&mut self, amount: i128)
        requires
            old(self)@.wf(),
            old(self)@.admin is Some,
            0 <= amount,
        ensures
            final(self)@ == old(self)@.debited(amount as int),
            final(self)@.wf(),
    {
        let ghost s = self@;
        proof {
            lemma_debit_keeps(s, amount as int);
        }
        let legacy: i128 = self.get_legacy_fees();
        let own: i128 = if legacy < amount {
            legacy
        } else {
            amount
        };
        if self.legacy_fees.is_some() {
            self.legacy_fees = Some(legacy - own);
        } else {
            self.accumulated_fees = Some(legacy - own);
        }
        let mut rest: i128 = amount - own;
        let mut id: u64 = self.market_count.unwrap_or(0);
        while id > 0 && rest > 0
            invariant
                0 <= rest,
                self@ == (MarketState {
                    market_fees: self@.market_fees,
                    ..s.with_legacy((legacy - own) as i128)
                }),
                s.taken(self@.market_fees, id as nat, rest as int) == s.taken(
                    s.market_fees,
                    s.count() as nat,
                    amount - own,
                ),
            decreases id,
        {
            let have: i128 = self.market_fees.get_or(id, 0);
            if self.is_settled(id) && have > 0 {
                let take: i128 = if have < rest {
                    have
                } else {
                    rest
                };
                self.market_fees.set(id, have - take);
                rest = rest - take;
            }
            id = id - 1;
        }
    }
}

/// Taking an amount that is there takes exactly that amount.
pub proof fn lemma_taken_exactly(s: MarketState, n: nat, amount: int, t: MarketState)
    requires
        s.wf(),
        n <= s.count(),
        0 <= amount <= s.earned_upto(n),
        t == (MarketState { market_fees: s.taken(s.market_fees, n, amount), ..s }),
    ensures
        t.fees_upto(n) == s.fees_upto(n) - amount,
        t.earned_upto(n) == s.earned_upto(n) - amount,
    decreases n,
{
    lemma_fees_grow(s, n, n);
    if n > 0 && amount > 0 {
        let id = n as u64;
        let m = (n - 1) as nat;
        let have = s.fees_of(id);
        lemma_fees_positive(s, id);
        if s.settled(id) && have > 0 {
            let take = if have < amount {
                have as int
            } else {
                amount
            };
            let mid = MarketState {
                market_fees: s.market_fees.insert(id, (have - take) as i128),
                ..s
            };
            lemma_mid_keeps(s, id, (have - take) as i128, mid);
            lemma_same_below(s, mid, m, id);
            lemma_fees_grow(s, m, n);
            lemma_taken_state(s, mid, mid.market_fees, m, amount - take);
            let t2 = MarketState {
                market_fees: mid.taken(mid.market_fees, m, amount - take),
                ..mid
            };
            lemma_taken_exactly(mid, m, amount - take, t2);
            crate::prediction_market::keeping::lemma_taken(s, mid.market_fees, m, amount - take);
            assert(t.market_fees == t2.market_fees);
            lemma_same_fees(t, t2, m);
            assert(find(t.market_fees, id) == find(mid.market_fees, id));
        } else {
            let t2 = MarketState { market_fees: s.taken(s.market_fees, m, amount), ..s };
            lemma_taken_exactly(s, m, amount, t2);
            crate::prediction_market::keeping::lemma_taken(s, s.market_fees, m, amount);
            assert(find(t.market_fees, id) == find(s.market_fees, id));
        }
    } else {
        lemma_same_fees(s, t, n);
        lemma_fees_grow(s, 0, n);
    }
}

/// Lowering the fees of a settled market keeps the invariant.
proof fn lemma_mid_keeps(s: MarketState, id: u64, fee: i128, t: MarketState)
    requires
        s.wf(),
        s.settled(id),
        0 <= fee,
        t == (MarketState { market_fees: s.market_fees.insert(id, fee), ..s }),
    ensures
        t.wf(),
{
    assert forall|i: u64, yes: bool| #[trigger]
        t.markets.dom().contains(i) implies crate::sums::sum(
        t.bets,
        #[trigger] crate::prediction_market::state::side_share(i, yes),
    ) <= t.markets[i].side(yes) by {
        assert(s.markets.dom().contains(i));
        assert(crate::sums::sum(s.bets, crate::prediction_market::state::side_share(i, yes))
            <= s.markets[i].side(yes));
    }
    assert forall|i: u64| #[trigger]
        t.markets.dom().contains(i) && t.markets[i].open() implies crate::sums::sum(
        t.bets,
        crate::prediction_market::state::fee_share(i),
    ) <= t.fees_of(i) by {
        assert(s.markets.dom().contains(i));
    }
    assert forall|x: (u64, u32)| #[trigger] t.bettor_at.dom().contains(x) implies 1 <= x.0
        <= t.count() && x.1 < t.bettors(x.0) by {
        assert(s.bettor_at.dom().contains(x));
    }
}

proof fn lemma_same_below(s: MarketState, t: MarketState, n: nat, id: u64)
    requires
        n < id,
        t == (MarketState { market_fees: t.market_fees, ..s }),
        forall|i: u64| i != id ==> #[trigger] find(t.market_fees, i) == find(s.market_fees, i),
    ensures
        t.fees_upto(n) == s.fees_upto(n),
        t.earned_upto(n) == s.earned_upto(n),
    decreases n,
{
    if n > 0 {
        lemma_same_below(s, t, (n - 1) as nat, id);
        assert(find(t.market_fees, n as u64) == find(s.market_fees, n as u64));
    }
}

/// Sums over the same fees and the same markets are the same.
pub proof fn lemma_same_fees(s: MarketState, t: MarketState, n: nat)
    requires
        t.market_fees == s.market_fees,
    ensures
        t.fees_upto(n) == s.fees_upto(n),
        t.markets == s.markets ==> t.earned_upto(n) == s.earned_upto(n),
    decreases n,
{
    if n > 0 {
        lemma_same_fees(s, t, (n - 1) as nat);
    }
}

/// Moving fees out of the old counter changes no amount, leaves the counter
/// gone, and doing it again changes nothing.
pub proof fn law_migration_changes_no_amount(s: MarketState)
    ensures
        ({
            let t = s.migrate_fee_ledger();
            &&& t.legacy() == s.legacy()
            &&& t.fees() == s.fees()
            &&& t.earned() == s.earned()
            &&& t.accumulated_fees is None
            &&& t.migrate_fee_ledger() == t
        }),
{
    lemma_same_fees(s, s.migrate_fee_ledger(), s.count() as nat);
}

/// Which fees are taken depends on the markets alone.
proof fn lemma_taken_state(
    s: MarketState,
    t: MarketState,
    fees: Map<u64, i128>,
    n: nat,
    amount: int,
)
    requires
        s.markets == t.markets,
    ensures
        s.taken(fees, n, amount) == t.taken(fees, n, amount),
    decreases n,
{
    if n > 0 && amount > 0 {
        let id = n as u64;
        let have = lookup(fees, id, 0);
        let take = if have < amount {
            have as int
        } else {
            amount
        };
        lemma_taken_state(
            s,
            t,
            fees.insert(id, (have - take) as i128),
            (n - 1) as nat,
            amount - take,
        );
        lemma_taken_state(s, t, fees, (n - 1) as nat, amount);
    }
}

/// A withdrawal takes exactly its amount out of the fees on record and out of
/// the earned fees, and leaves the fees of every market that is not settled.
pub proof fn law_debits_are_exact(s: MarketState, amount: int, id: u64)
    requires
        s.wf(),
        s.admin is Some,
        0 <= amount <= s.earned(),
    ensures
        s.debited(amount).fees() == s.fees() - amount,
        s.debited(amount).earned() == s.earned() - amount,
        s.debited(amount).fees_of(id) <= s.fees_of(id),
        !s.settled(id) ==> s.debited(amount).fees_of(id) == s.fees_of(id),
{
    let n = s.count() as nat;
    let own = if s.legacy() < amount {
        s.legacy() as int
    } else {
        amount
    };
    let t = MarketState {
        market_fees: s.taken(s.market_fees, n, amount - own),
        ..s
    };
    lemma_fees_grow(s, 0, n);
    lemma_taken_exactly(s, n, amount - own, t);
    crate::prediction_market::keeping::lemma_taken(s, s.market_fees, n, amount - own);
    lemma_same_fees(t, s.debited(amount), n);
    assert(find(s.debited(amount).market_fees, id) == find(s.market_fees, id) || s.settled(id));
    if s.market_fees.dom().contains(id) {
        assert(t.market_fees.dom().contains(id));
    } else {
        assert(!t.market_fees.dom().contains(id));
    }
}

} // verus!
