//! Keeping markets alive. Anybody may renew all that a market's claims and
//! refunds depend on.
use crate::address::Address;
use crate::env::Env;
use crate::prediction_market::state::{MarketState, PredictionMarketContract};
use crate::prediction_market::types::DataKey;
use crate::table::find;
use vstd::prelude::*;

verus! {

/// A key, where there is an entry under it.
pub open spec fn key_if(present: bool, key: DataKey) -> Set<DataKey> {
    if present {
        set![key]
    } else {
        Set::empty()
    }
}

impl MarketState {
    /// The entries of the bettors in the first `n` places of a market's index:
    /// the places themselves, the positions and the payouts.
    pub open spec fn bettor_keys(self, id: u64, n: nat) -> Set<DataKey>
        decreases n,
    {
        if n == 0 {
            Set::empty()
        } else {
            let at = (n - 1) as u32;
            self.bettor_keys(id, (n - 1) as nat).union(
                match find(self.bettor_at, (id, at)) {
                    Some(user) => set![DataKey::BettorAt(id, at)].union(
                        self.position_keys(id, user),
                    ),
                    None => Set::empty(),
                },
            )
        }
    }

    /// The entries of one bettor in a market.
    pub open spec fn position_keys(self, id: u64, user: Address) -> Set<DataKey> {
        key_if(self.bets.dom().contains((id, user)), DataKey::Bet(id, user)).union(
            key_if(self.payouts.dom().contains((id, user)), DataKey::Payout(id, user)),
        )
    }

    /// The entries of a market itself.
    pub open spec fn own_keys(self, id: u64) -> Set<DataKey> {
        set![DataKey::Market(id)].union(
            key_if(self.bettor_count.dom().contains(id), DataKey::BettorCount(id)),
        ).union(key_if(self.market_fees.dom().contains(id), DataKey::MarketFees(id))).union(
            key_if(self.forfeited.dom().contains(id), DataKey::ForfeitedPool(id)),
        )
    }

    /// All that is stored of a market and its bettors.
    pub open spec fn market_keys(self, id: u64) -> Set<DataKey> {
        if self.markets.dom().contains(id) {
            self.own_keys(id).union(self.bettor_keys(id, self.bettors(id) as nat))
        } else {
            Set::empty()
        }
    }

    /// The same of the markets `from..to`.
    pub open spec fn markets_keys(self, from: nat, to: nat) -> Set<DataKey>
        decreases to,
    {
        if to <= from {
            Set::empty()
        } else {
            self.markets_keys(from, (to - 1) as nat).union(self.market_keys((to - 1) as u64))
        }
    }

    /// How many of the markets `from..to` are stored.
    pub open spec fn stored(self, from: nat, to: nat) -> nat
        decreases to,
    {
        if to <= from {
            0
        } else {
            self.stored(from, (to - 1) as nat) + (if self.markets.dom().contains((to - 1) as u64) {
                1nat
            } else {
                0nat
            })
        }
    }

    /// Where a refresh of `limit` markets from `start` on ends: behind the last
    /// market at the latest.
    pub open spec fn refresh_end(self, start: u64, limit: u32) -> nat {
        if start + limit <= self.count() {
            (start + limit) as nat
        } else {
            self.count() as nat + 1
        }
    }
}

proof fn lemma_bettor_keys(s: MarketState, id: u64, n: nat, i: u32)
    requires
        i < n <= u32::MAX,
        s.bettor_at.dom().contains((id, i)),
    ensures
        s.bettor_keys(id, n).contains(DataKey::BettorAt(id, i)),
        s.position_keys(id, s.bettor_at[(id, i)]).subset_of(s.bettor_keys(id, n)),
    decreases n,
{
    if i < n - 1 {
        lemma_bettor_keys(s, id, (n - 1) as nat, i);
    } else {
        assert((n - 1) as u32 == i);
    }
}

/// Refreshing a market reaches everything that a claim or refund of one of its
/// bettors needs: the market, the position and the payout.
pub proof fn law_refreshes_reach_every_bettor(s: MarketState, id: u64, i: u32)
    requires
        s.wf(),
        s.markets.dom().contains(id),
        s.bettor_at.dom().contains((id, i)),
    ensures
        ({
            let user = s.bettor_at[(id, i)];
            let keys = s.market_keys(id);
            &&& keys.contains(DataKey::Market(id))
            &&& keys.contains(DataKey::BettorAt(id, i))
            &&& s.bets.dom().contains((id, user)) ==> keys.contains(DataKey::Bet(id, user))
            &&& s.payouts.dom().contains((id, user)) ==> keys.contains(DataKey::Payout(id, user))
        }),
{
    lemma_bettor_keys(s, id, s.bettors(id) as nat, i);
}

impl PredictionMarketContract {
    /// Whether a market is stored: 1 if it is, 0 if not.
    pub fn get_market_ttl(&self, market_id: u64) -> (n: u32)
        ensures
            n == (if self@.markets.dom().contains(market_id) {
                1u32
            } else {
                0u32
            }),
    {
        if self.markets.has(market_id) {
            1
        } else {
            0
        }
    }

    /// Renew all that is stored of a market and its bettors. Returns 1, or 0
    /// where there is no such market.
    pub fn refresh_market_ttl(&self, env: &mut Env<DataKey>, market_id: u64) -> (n: u32)
        ensures
            n == (if self@.markets.dom().contains(market_id) {
                1u32
            } else {
                0u32
            }),
            final(env).asks(*old(env), Seq::empty(), self@.market_keys(market_id), false),
    {
        let ghost s = self@;
        if !self.markets.has(market_id) {
            assert(env.asks(*old(env), Seq::empty(), Set::empty(), false));
            return 0;
        }
        env.renew(DataKey::Market(market_id));
        if self.bettor_count.has(market_id) {
            env.renew(DataKey::BettorCount(market_id));
        }
        if self.market_fees.has(market_id) {
            env.renew(DataKey::MarketFees(market_id));
        }
        if self.forfeited.has(market_id) {
            env.renew(DataKey::ForfeitedPool(market_id));
        }
        assert(env.asks(*old(env), Seq::empty(), s.own_keys(market_id), false));
        let count: u32 = self.bettor_count.get_or(market_id, 0);
        let mut i: u32 = 0;
        while i < count
            invariant
                i <= count,
                count == s.bettors(market_id),
                s == self@,
                env.asks(
                    *old(env),
                    Seq::empty(),
                    s.own_keys(market_id).union(s.bettor_keys(market_id, i as nat)),
                    false,
                ),
            decreases count - i,
        {
            assert((i + 1 - 1) as u32 == i);
            if let Some(user) = self.bettor_at.find((market_id, i)) {
                env.renew(DataKey::BettorAt(market_id, i));
                if self.bets.has((market_id, user)) {
                    env.renew(DataKey::Bet(market_id, user));
                }
                if self.payouts.has((market_id, user)) {
                    env.renew(DataKey::Payout(market_id, user));
                }
            }
            i = i + 1;
        }
        1
    }

    /// Renew `limit` markets from `start` on. Returns how many of them there are.
    pub fn refresh_markets(&self, env: &mut Env<DataKey>, start: u64, limit: u32) -> (n: u32)
        requires
            self@.count() < u64::MAX,
        ensures
            n == self@.stored(start as nat, self@.refresh_end(start, limit)),
            final(env).asks(
                *old(env),
                Seq::empty(),
                self@.markets_keys(start as nat, self@.refresh_end(start, limit)),
                false,
            ),
    {
        let ghost s = self@;
        let last: u64 = self.market_count.unwrap_or(0);
        let end: u64 = match start.checked_add(limit as u64) {
            Some(e) => if e <= last {
                e
            } else {
                last + 1
            },
            None => last + 1,
        };
        assert(end == s.refresh_end(start, limit));
        let mut n: u32 = 0;
        let mut id: u64 = start;
        assert(env.asks(*old(env), Seq::empty(), s.markets_keys(start as nat, id as nat), false));
        while id < end
            invariant
                start <= id,
                id <= end || id == start,
                end <= start + limit,
                s == self@,
                n <= id - start,
                n == s.stored(start as nat, id as nat),
                env.asks(
                    *old(env),
                    Seq::empty(),
                    s.markets_keys(start as nat, id as nat),
                    false,
                ),
            decreases end - id,
        {
            assert((id + 1 - 1) as u64 == id);
            let found: u32 = self.refresh_market_ttl(env, id);
            n = n + found;
            id = id + 1;
        }
        n
    }
}

} // verus!
