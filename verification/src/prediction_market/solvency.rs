//! What the market owes, and why it always holds it.
use crate::address::Address;
use crate::env::{Effect, Ledger};
use crate::prediction_market::fees::{law_debits_are_exact, lemma_fees_grow, lemma_same_fees};
use crate::prediction_market::keeping::{
    lemma_position_covered, lemma_position_part, lemma_split, lemma_unpaid,
};
use crate::prediction_market::settling::{lemma_settlement_payouts, lemma_settlement_within_pool};
use crate::prediction_market::state::{fee_share, referral_of, side_share, MarketState};
use crate::prediction_market::types::{BetEntry, Category};
use crate::sums::{lemma_sum_insert, lemma_sum_remove, lemma_sum_same, lemma_sum_zero, sum};
use crate::table::{find, lookup};
use vstd::prelude::*;

verus! {

/// What a position adds to the refunds of a market.
pub open spec fn refund_share(id: u64) -> spec_fn((u64, Address), BetEntry) -> int {
    |k: (u64, Address), e: BetEntry|
        if k.0 == id {
            e.refundable()
        } else {
            0
        }
}

/// What a position adds to the payouts of a market that are still to be
/// claimed.
pub open spec fn claim_share(payouts: Map<(u64, Address), i128>, id: u64) -> spec_fn(
    (u64, Address),
    BetEntry,
) -> int {
    |k: (u64, Address), e: BetEntry|
        if k.0 == id && !e.claimed {
            lookup(payouts, k, 0) as int
        } else {
            0
        }
}

/// The fees that are held back of a market.
pub open spec fn held_back(s: MarketState, id: u64) -> int {
    match find(s.forfeited, id) {
        Some(f) => if f.frozen {
            0
        } else {
            f.locked_fees as int
        },
        None => 0,
    }
}

/// What the market contract owes the bettors of one market: the pool while it
/// is open, the unclaimed payouts once it is resolved, the refunds not yet
/// collected once it is cancelled.
pub open spec fn owed_by(s: MarketState, id: u64) -> int {
    match find(s.markets, id) {
        None => 0,
        Some(m) => if m.cancelled {
            sum(s.bets, refund_share(id))
        } else if m.resolved {
            sum(s.bets, claim_share(s.payouts, id)) + held_back(s, id)
        } else {
            m.pool()
        },
    }
}

pub open spec fn owed_upto(s: MarketState, n: nat) -> int
    decreases n,
{
    if n == 0 {
        0
    } else {
        owed_upto(s, (n - 1) as nat) + owed_by(s, n as u64)
    }
}

/// Everything the market contract owes: to bettors, and the fees to whoever
/// will withdraw them.
pub open spec fn owed(s: MarketState) -> int {
    s.fees() + owed_upto(s, s.count() as nat)
}

/// Nobody has claimed in the market.
pub open spec fn unclaimed(s: MarketState, id: u64) -> bool {
    forall|user: Address| #[trigger]
        s.bets.dom().contains((id, user)) ==> !s.bets[(id, user)].claimed
}

/// The records agree with each other: payouts and claims exist only for
/// markets that are no longer open, a cancelled market keeps no fees, fees
/// are held back only of a resolved market that keeps no others, and until
/// somebody claims there they cover its refunds.
pub open spec fn books_agree(s: MarketState) -> bool {
    &&& forall|k: (u64, Address)| #[trigger]
        s.payouts.dom().contains(k) && s.markets.dom().contains(k.0) ==> !s.markets[k.0].open()
    &&& forall|k: (u64, Address)| #[trigger]
        s.bets.dom().contains(k) && s.markets.dom().contains(k.0) && s.markets[k.0].open()
            ==> !s.bets[k].claimed
    &&& forall|id: u64| #[trigger]
        s.markets.dom().contains(id) && s.markets[id].cancelled ==> s.fees_of(id) == 0
    &&& forall|id: u64| #[trigger]
        s.forfeited.dom().contains(id) ==> s.markets.dom().contains(id) && s.markets[id].resolved
            && s.fees_of(id) == 0 && s.markets[id].cancelled == s.forfeited[id].frozen
    &&& forall|id: u64| #[trigger]
        s.forfeited.dom().contains(id) && !s.forfeited[id].frozen && unclaimed(s, id) ==> sum(
            s.bets,
            refund_share(id),
        ) <= owed_by(s, id)
}

/// What a list of requests to the host brings in for a holder of an asset.
pub open spec fn brings(effects: Seq<Effect>, asset: Address, holder: Address) -> int
    decreases effects.len(),
{
    if effects.len() == 0 {
        0
    } else {
        brings(effects.drop_last(), asset, holder) + (match effects.last() {
            Effect::Transfer { asset: a, from, to, amount } => if a == asset {
                (if to == holder {
                    amount as int
                } else {
                    0
                }) - (if from == holder {
                    amount as int
                } else {
                    0
                })
            } else {
                0
            },
            _ => 0,
        })
    }
}

proof fn lemma_brings_push(effects: Seq<Effect>, e: Effect, asset: Address, holder: Address)
    ensures
        brings(effects.push(e), asset, holder) == brings(effects, asset, holder) + (match e {
            Effect::Transfer { asset: a, from, to, amount } => if a == asset {
                (if to == holder {
                    amount as int
                } else {
                    0
                }) - (if from == holder {
                    amount as int
                } else {
                    0
                })
            } else {
                0
            },
            _ => 0,
        }),
{
    assert(effects.push(e).drop_last() =~= effects);
}

/// Where only one market's fees differ, so does the sum of all fees.
proof fn lemma_fees_differ(s: MarketState, t: MarketState, id: u64, n: nat)
    requires
        n <= u64::MAX,
        forall|i: u64| i != id ==> #[trigger] t.fees_of(i) == s.fees_of(i),
    ensures
        t.fees_upto(n) - s.fees_upto(n) == (if 1 <= id <= n {
            t.fees_of(id) - s.fees_of(id)
        } else {
            0
        }),
    decreases n,
{
    if n > 0 {
        lemma_fees_differ(s, t, id, (n - 1) as nat);
        if n as u64 != id {
            assert(t.fees_of(n as u64) == s.fees_of(n as u64));
        }
    }
}

/// Where only one market owes something else, so does the sum.
proof fn lemma_owed_differs(s: MarketState, t: MarketState, id: u64, n: nat)
    requires
        n <= u64::MAX,
        forall|i: u64| 1 <= i <= n && i != id ==> #[trigger] owed_by(t, i) == owed_by(s, i),
    ensures
        owed_upto(t, n) - owed_upto(s, n) == (if 1 <= id <= n {
            owed_by(t, id) - owed_by(s, id)
        } else {
            0
        }),
    decreases n,
{
    if n > 0 {
        lemma_owed_differs(s, t, id, (n - 1) as nat);
        if n as u64 != id {
            assert(owed_by(t, n as u64) == owed_by(s, n as u64));
        }
    }
}

/// A position of one market does not matter to another.
pub proof fn lemma_other_markets_owe_the_same(
    s: MarketState,
    t: MarketState,
    k: (u64, Address),
    e: BetEntry,
    i: u64,
)
    requires
        s.wf(),
        i != k.0,
        t.bets == s.bets.insert(k, e),
        find(t.markets, i) == find(s.markets, i),
        find(t.forfeited, i) == find(s.forfeited, i),
        t.payouts == s.payouts,
    ensures
        owed_by(t, i) == owed_by(s, i),
{
    lemma_sum_insert(s.bets, refund_share(i), k, e);
    lemma_sum_insert(s.bets, claim_share(s.payouts, i), k, e);
}

/// Payouts of one market do not matter to another.
pub proof fn lemma_other_payouts_owe_the_same(s: MarketState, t: MarketState, id: u64, i: u64)
    requires
        s.wf(),
        i != id,
        t.bets == s.bets,
        find(t.markets, i) == find(s.markets, i),
        find(t.forfeited, i) == find(s.forfeited, i),
        forall|k: (u64, Address)| k.0 != id ==> #[trigger] find(t.payouts, k) == find(s.payouts, k),
    ensures
        owed_by(t, i) == owed_by(s, i),
{
    let f = claim_share(s.payouts, i);
    let g = claim_share(t.payouts, i);
    assert forall|k: (u64, Address)| s.bets.dom().contains(k) implies #[trigger] f(k, s.bets[k])
        == g(k, s.bets[k]) by {
        if k.0 == i {
            assert(find(t.payouts, k) == find(s.payouts, k));
        }
    }
    lemma_sum_same(s.bets, f, g);
}

/// A bet adds to what is owed exactly what it brings in.
pub proof fn law_bets_are_backed(
    s: MarketState,
    ledger: Ledger,
    user: Address,
    id: u64,
    is_yes: bool,
    amount: i128,
    referral_version: Option<u32>,
)
    requires
        s.wf(),
        s.can_bet(user, id, is_yes, amount),
        user != ledger.this,
        s.cfg->0.referral != ledger.this,
    ensures
        s.place_bet(ledger, user, id, is_yes, amount, referral_version) matches Ok(o) ==> owed(
            o.state,
        ) - owed(s) == brings(o.effects, s.cfg->0.xlm_sac, ledger.this),
{
    if let Ok(o) = s.place_bet(ledger, user, id, is_yes, amount, referral_version) {
        lemma_split(amount as int);
        let t = o.state;
        let k = (id, user);
        let e = s.raised(user, id, is_yes, amount);
        let n = s.count() as nat;
        assert(1 <= id <= n);
        assert forall|i: u64| 1 <= i <= n && i != id implies #[trigger] owed_by(t, i) == owed_by(
            s,
            i,
        ) by {
            lemma_other_markets_owe_the_same(s, t, k, e, i);
        }
        lemma_owed_differs(s, t, id, n);
        lemma_fees_differ(s, t, id, n);
        let asset = s.cfg->0.xlm_sac;
        let fee = referral_of(amount as int) as i128;
        let e0 = o.effects[0];
        let e1 = o.effects[1];
        let e2 = o.effects[2];
        let e3 = o.effects[3];
        let e4 = o.effects[4];
        let none = Seq::<Effect>::empty();
        assert(o.effects =~= none.push(e0).push(e1).push(e2).push(e3).push(e4));
        lemma_brings_push(none, e0, asset, ledger.this);
        lemma_brings_push(none.push(e0), e1, asset, ledger.this);
        lemma_brings_push(none.push(e0).push(e1), e2, asset, ledger.this);
        lemma_brings_push(none.push(e0).push(e1).push(e2), e3, asset, ledger.this);
        lemma_brings_push(none.push(e0).push(e1).push(e2).push(e3), e4, asset, ledger.this);
    }
}

/// Reducing a position of one market does not matter to another.
pub proof fn lemma_reductions_stay_in_their_market(
    s: MarketState,
    user: Address,
    id: u64,
    amount: i128,
    i: u64,
)
    requires
        s.wf(),
        i != id,
    ensures
        owed_by(s.with_less(user, id, amount), i) == owed_by(s, i),
        sum(s.with_less(user, id, amount).bets, refund_share(i)) == sum(s.bets, refund_share(i)),
{
    let k = (id, user);
    let t = s.with_less(user, id, amount);
    lemma_sum_remove(s.bets, refund_share(i), k);
    lemma_sum_remove(s.bets, claim_share(s.payouts, i), k);
    lemma_sum_insert(s.bets, refund_share(i), k, t.bets[k]);
    lemma_sum_insert(s.bets, claim_share(s.payouts, i), k, t.bets[k]);
}

/// A reduction takes from what is owed exactly what it pays.
pub proof fn law_reductions_are_exact(
    s: MarketState,
    ledger: Ledger,
    user: Address,
    id: u64,
    amount: i128,
)
    requires
        s.wf(),
        user != ledger.this,
    ensures
        s.reduce_position(ledger, user, id, amount) matches Ok(o) ==> {
            &&& owed(o.state) - owed(s) == brings(o.effects, s.cfg->0.xlm_sac, ledger.this)
            &&& owed(o.state) - owed(s) == -o.value
        },
{
    if let Ok(o) = s.reduce_position(ledger, user, id, amount) {
        let t = o.state;
        let k = (id, user);
        let n = s.count() as nat;
        assert(s.bets[k].wf());
        lemma_position_part(s.bets[k], amount);
        lemma_position_covered(s, k, true);
        lemma_position_covered(s, k, false);
        assert forall|i: u64| 1 <= i <= n && i != id implies #[trigger] owed_by(t, i) == owed_by(
            s,
            i,
        ) by {
            lemma_reductions_stay_in_their_market(s, user, id, amount, i);
        }
        lemma_owed_differs(s, t, id, n);
        lemma_fees_differ(s, t, id, n);
        let none = Seq::<Effect>::empty();
        let asset = s.cfg->0.xlm_sac;
        assert(o.effects =~= none.push(o.effects[0]).push(o.effects[1]));
        lemma_brings_push(none, o.effects[0], asset, ledger.this);
        lemma_brings_push(none.push(o.effects[0]), o.effects[1], asset, ledger.this);
    }
}

/// A refund takes from what is owed exactly what it pays.
pub proof fn law_refunds_are_exact(s: MarketState, ledger: Ledger, user: Address, id: u64)
    requires
        s.wf(),
        user != ledger.this,
    ensures
        s.cancel_refund(ledger, user, id) matches Ok(o) ==> {
            &&& owed(o.state) - owed(s) == brings(o.effects, s.cfg->0.xlm_sac, ledger.this)
            &&& owed(o.state) - owed(s) == -o.value
        },
{
    if let Ok(o) = s.cancel_refund(ledger, user, id) {
        let t = o.state;
        let k = (id, user);
        let e = t.bets[k];
        let n = s.count() as nat;
        assert(s.markets.dom().contains(id));
        assert(s.bets[k].wf());
        assert forall|i: u64| 1 <= i <= n && i != id implies #[trigger] owed_by(t, i) == owed_by(
            s,
            i,
        ) by {
            lemma_other_markets_owe_the_same(s, t, k, e, i);
        }
        lemma_owed_differs(s, t, id, n);
        lemma_same_fees(s, t, n);
        lemma_sum_insert(s.bets, refund_share(id), k, e);
        let none = Seq::<Effect>::empty();
        let asset = s.cfg->0.xlm_sac;
        assert(o.effects =~= none.push(o.effects[0]).push(o.effects[1]));
        lemma_brings_push(none, o.effects[0], asset, ledger.this);
        lemma_brings_push(none.push(o.effects[0]), o.effects[1], asset, ledger.this);
    }
}

/// What a claim asks of the host brings in nothing but minus the payout.
proof fn lemma_claim_brings(s: MarketState, ledger: Ledger, user: Address, id: u64)
    requires
        user != ledger.this,
    ensures
        brings(s.claim_effects(ledger, user, id), s.cfg->0.xlm_sac, ledger.this) == -(if s.payout(
            id,
            user,
        ) > 0 {
            s.payout(id, user) as int
        } else {
            0
        }),
{
    let e = s.claim_effects(ledger, user, id);
    let asset = s.cfg->0.xlm_sac;
    let none = Seq::<Effect>::empty();
    lemma_brings_push(none, e[0], asset, ledger.this);
    let a = none.push(e[0]);
    lemma_brings_push(a, e[1], asset, ledger.this);
    let b = a.push(e[1]);
    if e.len() == 2 {
        assert(e =~= b);
    } else {
        lemma_brings_push(b, e[2], asset, ledger.this);
        let c = b.push(e[2]);
        if e.len() == 3 {
            assert(e =~= c);
        } else {
            lemma_brings_push(c, e[3], asset, ledger.this);
            assert(e =~= c.push(e[3]));
        }
    }
}

/// A claim takes from what is owed exactly what it pays.
pub proof fn law_claims_are_exact(
    s: MarketState,
    ledger: Ledger,
    user: Address,
    id: u64,
    leaderboard_version: Option<u32>,
)
    requires
        s.wf(),
        user != ledger.this,
    ensures
        s.claim(ledger, user, id, leaderboard_version) matches Ok(o) ==> {
            &&& owed(o.state) - owed(s) == brings(o.effects, s.cfg->0.xlm_sac, ledger.this)
            &&& owed(o.state) - owed(s) == -s.payout(id, user)
        },
{
    if let Ok(o) = s.claim(ledger, user, id, leaderboard_version) {
        let t = o.state;
        let k = (id, user);
        let e = t.bets[k];
        let n = s.count() as nat;
        assert(s.markets.dom().contains(id));
        if s.payouts.dom().contains(k) {
            assert(s.payouts[k] >= 0);
        }
        assert forall|i: u64| 1 <= i <= n && i != id implies #[trigger] owed_by(t, i) == owed_by(
            s,
            i,
        ) by {
            lemma_other_markets_owe_the_same(s, t, k, e, i);
        }
        lemma_owed_differs(s, t, id, n);
        lemma_same_fees(s, t, n);
        lemma_sum_insert(s.bets, claim_share(s.payouts, id), k, e);
        lemma_claim_brings(s, ledger, user, id);
    }
}

/// The claims that a settlement sets come to what it paid out.
pub proof fn lemma_settled_claims(
    s: MarketState,
    id: u64,
    outcome: bool,
    n: nat,
    bets: Map<(u64, Address), BetEntry>,
)
    requires
        s.wf(),
        books_agree(s),
        s.markets.dom().contains(id),
        s.markets[id].open(),
        s.markets[id].pool() <= i128::MAX,
        n <= u32::MAX,
        bets == s.bets,
    ensures
        sum(bets, claim_share(s.settlement(id, outcome, n).payouts, id)) == s.settlement(
            id,
            outcome,
            n,
        ).total,
    decreases n,
{
    let after = s.settlement(id, outcome, n);
    if n == 0 {
        assert forall|k: (u64, Address)| bets.dom().contains(k) implies #[trigger] claim_share(
            s.payouts,
            id,
        )(k, bets[k]) == 0 by {
            assert(k.0 == id ==> !s.payouts.dom().contains(k));
        }
        lemma_sum_zero(bets, claim_share(s.payouts, id));
    } else {
        let m = (n - 1) as nat;
        lemma_settled_claims(s, id, outcome, m, bets);
        lemma_settlement_within_pool(s, id, outcome, n);
        lemma_settlement_within_pool(s, id, outcome, m);
        let before = s.settlement(id, outcome, m);
        let i = m as u32;
        if s.bettor_at.dom().contains((id, i)) {
            let user = s.bettor_at[(id, i)];
            let k = (id, user);
            if s.bets.dom().contains(k) {
                let e = s.bets[k];
                if let Some(p) = MarketState::payout_due(s.markets[id], outcome, e) {
                    assert(e.wf());
                    if s.markets[id].side(outcome) > 0 {
                        crate::prediction_market::settling::lemma_share_rounds_down(
                            e.staked_on(outcome) as int,
                            s.markets[id].pool(),
                            s.markets[id].side(outcome) as int,
                        );
                    }
                    lemma_unsettled_yet(s, id, outcome, m, user);
                    let f = claim_share(before.payouts, id);
                    let g = claim_share(after.payouts, id);
                    crate::sums::lemma_sum_split(bets, f, k);
                    crate::sums::lemma_sum_split(bets, g, k);
                    let rest = bets.remove(k);
                    assert forall|x: (u64, Address)| rest.dom().contains(x) implies #[trigger] f(
                        x,
                        rest[x],
                    ) == g(x, rest[x]) by {}
                    lemma_sum_same(rest, f, g);
                    assert(after.payouts == before.payouts.insert(k, p as i128));
                    assert((p as i128) as int == p);
                    assert(!e.claimed);
                }
            }
        }
    }
}

/// Nobody is paid twice on one walk along the index.
proof fn lemma_unsettled_yet(s: MarketState, id: u64, outcome: bool, n: nat, user: Address)
    requires
        s.wf(),
        books_agree(s),
        s.markets.dom().contains(id),
        s.markets[id].open(),
        n < u32::MAX,
        s.bettor_at.dom().contains((id, n as u32)),
        s.bettor_at[(id, n as u32)] == user,
    ensures
        !s.settlement(id, outcome, n).payouts.dom().contains((id, user)),
{
    lemma_unsettled_before(s, id, outcome, n, n as u32, user);
}

proof fn lemma_unsettled_before(
    s: MarketState,
    id: u64,
    outcome: bool,
    n: nat,
    at: u32,
    user: Address,
)
    requires
        s.wf(),
        books_agree(s),
        s.markets.dom().contains(id),
        s.markets[id].open(),
        n <= at,
        s.bettor_at.dom().contains((id, at)),
        s.bettor_at[(id, at)] == user,
    ensures
        !s.settlement(id, outcome, n).payouts.dom().contains((id, user)),
    decreases n,
{
    if n == 0 {
        assert(!s.payouts.dom().contains((id, user)));
    } else {
        lemma_unsettled_before(s, id, outcome, (n - 1) as nat, at, user);
        let i = (n - 1) as u32;
        if s.bettor_at.dom().contains((id, i)) {
            assert(s.bettor_at[(id, i)] != user);
        }
    }
}

/// Resolving a market moves its pool into payouts and fees, to the last unit:
/// what is owed in all does not change.
pub proof fn law_resolution_conserves(
    s: MarketState,
    ledger: Ledger,
    caller: Address,
    id: u64,
    outcome: bool,
)
    requires
        s.wf(),
        books_agree(s),
        s.can_resolve(ledger, id, outcome),
    ensures
        s.resolve_market(ledger, caller, id, outcome) matches Ok(o) ==> {
            &&& owed(o.state) == owed(s)
            &&& brings(o.effects, s.cfg->0.xlm_sac, ledger.this) == 0
        },
{
    if let Ok(o) = s.resolve_market(ledger, caller, id, outcome) {
        let t = o.state;
        let n = s.count() as nat;
        let walk = s.bettors(id) as nat;
        let settlement = s.full_settlement(id, outcome);
        lemma_settlement_payouts(s, id, outcome, walk);
        lemma_settlement_within_pool(s, id, outcome, walk);
        lemma_settled_claims(s, id, outcome, walk, s.bets);
        assert(s.fees_of(id) >= 0) by {
            assert(s.market_fees.dom().contains(id) ==> s.market_fees[id] >= 0);
        }
        assert forall|i: u64| 1 <= i <= n && i != id implies #[trigger] owed_by(t, i) == owed_by(
            s,
            i,
        ) by {
            lemma_other_payouts_owe_the_same(s, t, id, i);
        }
        lemma_owed_differs(s, t, id, n);
        lemma_fees_differ(s, t, id, n);
        if s.markets[id].pool() == 0 {
            assert forall|k: (u64, Address)| s.bets.dom().contains(k) implies #[trigger] claim_share(
                s.payouts,
                id,
            )(k, s.bets[k]) == 0 by {
                assert(k.0 == id ==> !s.payouts.dom().contains(k));
            }
            lemma_sum_zero(s.bets, claim_share(s.payouts, id));
        }
        assert(!s.forfeited.dom().contains(id));
        let none = Seq::<Effect>::empty();
        let asset = s.cfg->0.xlm_sac;
        assert(o.effects =~= none.push(o.effects[0]).push(o.effects[1]));
        lemma_brings_push(none, o.effects[0], asset, ledger.this);
        lemma_brings_push(none.push(o.effects[0]), o.effects[1], asset, ledger.this);
    }
}

/// The refunds of a market are its stakes and its fees.
pub proof fn lemma_refunds_split(bets: Map<(u64, Address), BetEntry>, id: u64)
    requires
        bets.dom().finite(),
    ensures
        sum(bets, refund_share(id)) == sum(bets, side_share(id, true)) + sum(
            bets,
            side_share(id, false),
        ) + sum(bets, fee_share(id)),
    decreases bets.dom().len(),
{
    if bets.dom().len() != 0 {
        let c = bets.dom().choose();
        crate::sums::lemma_sum_split(bets, refund_share(id), c);
        crate::sums::lemma_sum_split(bets, side_share(id, true), c);
        crate::sums::lemma_sum_split(bets, side_share(id, false), c);
        crate::sums::lemma_sum_split(bets, fee_share(id), c);
        lemma_refunds_split(bets.remove(c), id);
        assert(bets[c].net + bets[c].hedge == bets[c].staked_on(true) + bets[c].staked_on(false));
    }
}

/// Calling a market off turns its pool and its fees into refunds: nothing is
/// owed that was not owed before, and what every position on record paid in
/// stays owed in full.
pub proof fn law_cancellation_is_backed(s: MarketState, ledger: Ledger, admin: Address, id: u64)
    requires
        s.wf(),
    ensures
        s.cancel_market(admin, id) matches Ok(o) ==> {
            &&& owed(o.state) <= owed(s)
            &&& brings(o.effects, s.cfg->0.xlm_sac, ledger.this) == 0
            &&& sum(s.bets, side_share(id, true)) == s.markets[id].total_yes && sum(
                s.bets,
                side_share(id, false),
            ) == s.markets[id].total_no && sum(s.bets, fee_share(id)) == s.fees_of(id) ==> owed(
                o.state,
            ) == owed(s)
        },
{
    if let Ok(o) = s.cancel_market(admin, id) {
        let t = o.state;
        let n = s.count() as nat;
        assert(s.markets.dom().contains(id));
        assert forall|i: u64| 1 <= i <= n && i != id implies #[trigger] owed_by(t, i) == owed_by(
            s,
            i,
        ) by {}
        lemma_owed_differs(s, t, id, n);
        lemma_fees_differ(s, t, id, n);
        lemma_refunds_split(s.bets, id);
        assert(sum(s.bets, side_share(id, true)) <= s.markets[id].side(true));
        assert(sum(s.bets, side_share(id, false)) <= s.markets[id].side(false));
        let none = Seq::<Effect>::empty();
        assert(o.effects =~= none.push(o.effects[0]));
        lemma_brings_push(none, o.effects[0], s.cfg->0.xlm_sac, ledger.this);
    }
}

/// Fees that were debited are no longer owed.
proof fn lemma_debit_owes(s: MarketState, amount: int, t: MarketState)
    requires
        s.wf(),
        s.admin is Some,
        0 <= amount <= s.earned(),
        t == (MarketState {
            pending_withdrawals: t.pending_withdrawals,
            ..s.debited(amount)
        }),
    ensures
        owed(t) == owed(s) - amount,
{
    let n = s.count() as nat;
    law_debits_are_exact(s, amount, 0);
    lemma_same_fees(s.debited(amount), t, n);
    assert forall|i: u64| 1 <= i <= n && i != 0 implies #[trigger] owed_by(t, i) == owed_by(
        s,
        i,
    ) by {}
    lemma_owed_differs(s, t, 0, n);
}

/// A withdrawal takes from what is owed exactly what it pays, and it never
/// touches what is owed to bettors.
pub proof fn law_withdrawals_are_exact(
    s: MarketState,
    ledger: Ledger,
    caller: Address,
    recipient: Address,
)
    requires
        s.wf(),
        recipient != ledger.this,
        s.earned() <= i128::MAX,
    ensures
        s.withdraw_fees(ledger, caller, recipient) matches Ok(o) ==> {
            &&& owed(o.state) - owed(s) == brings(o.effects, s.cfg->0.xlm_sac, ledger.this)
            &&& owed(o.state) - owed(s) == -o.value
            &&& owed_upto(o.state, s.count() as nat) == owed_upto(s, s.count() as nat)
        },
{
    if let Ok(o) = s.withdraw_fees(ledger, caller, recipient) {
        let amount = s.immediate_amount();
        lemma_fees_grow(s, 0, s.count() as nat);
        assert(0 <= amount <= s.earned());
        lemma_debit_owes(s, amount, o.state);
        law_debits_are_exact(s, amount, 0);
        lemma_withdrawal_brings(o.effects, s.cfg->0.xlm_sac, ledger.this);
    }
}

proof fn lemma_withdrawal_brings(effects: Seq<Effect>, asset: Address, this: Address)
    requires
        effects.len() == 2,
        effects[0] is RequireAuth,
        effects[1] matches Effect::Transfer { asset: a, from, to, amount } && a == asset && from
            == this && to != this,
    ensures
        brings(effects, asset, this) == -effects[1]->Transfer_amount,
{
    let none = Seq::<Effect>::empty();
    assert(effects =~= none.push(effects[0]).push(effects[1]));
    lemma_brings_push(none, effects[0], asset, this);
    lemma_brings_push(none.push(effects[0]), effects[1], asset, this);
}

/// The same holds of a withdrawal that was requested before.
pub proof fn law_executed_withdrawals_are_exact(s: MarketState, ledger: Ledger, caller: Address)
    requires
        s.wf(),
        s.pending_withdrawals.dom().contains(caller)
            ==> s.pending_withdrawals[caller].recipient != ledger.this,
    ensures
        s.execute_withdraw_fees(ledger, caller) matches Ok(o) ==> {
            &&& owed(o.state) - owed(s) == brings(o.effects, s.cfg->0.xlm_sac, ledger.this)
            &&& owed(o.state) - owed(s) == -o.value
            &&& owed_upto(o.state, s.count() as nat) == owed_upto(s, s.count() as nat)
        },
{
    if let Ok(o) = s.execute_withdraw_fees(ledger, caller) {
        let amount = s.pending_withdrawals[caller].amount as int;
        lemma_debit_owes(s, amount, o.state);
        law_debits_are_exact(s, amount, 0);
        lemma_same_fees(s.debited(amount), o.state, s.count() as nat);
        lemma_withdrawal_brings(o.effects, s.cfg->0.xlm_sac, ledger.this);
    }
}

/// Releasing fees that were held back changes nothing in what is owed.
pub proof fn law_finalizing_conserves(s: MarketState, ledger: Ledger, id: u64)
    requires
        s.wf(),
        books_agree(s),
        s.forfeited.dom().contains(id) ==> s.fees_of(id) + s.forfeited[id].locked_fees
            <= i128::MAX,
    ensures
        s.finalize_zero_side(ledger, id) matches Ok(o) ==> owed(o.state) == owed(s),
{
    if let Ok(o) = s.finalize_zero_side(ledger, id) {
        let t = o.state;
        let n = s.count() as nat;
        assert(s.forfeited.dom().contains(id));
        assert(s.fees_of(id) >= 0) by {
            assert(s.market_fees.dom().contains(id) ==> s.market_fees[id] >= 0);
        }
        assert forall|i: u64| 1 <= i <= n && i != id implies #[trigger] owed_by(t, i) == owed_by(
            s,
            i,
        ) by {}
        lemma_owed_differs(s, t, id, n);
        lemma_fees_differ(s, t, id, n);
    }
}

/// A new market owes nothing.
pub proof fn law_creation_owes_nothing(
    s: MarketState,
    ledger: Ledger,
    admin: Address,
    question: String,
    image_url: String,
    category: Category,
    duration_secs: u64,
)
    requires
        s.wf(),
        s.count() < u64::MAX,
    ensures
        s.create_market(ledger, admin, question, image_url, category, duration_secs) matches Ok(o)
            ==> owed(o.state) == owed(s),
{
    if let Ok(o) = s.create_market(ledger, admin, question, image_url, category, duration_secs) {
        let t = o.state;
        let n = s.count() as nat;
        assert forall|i: u64| 1 <= i <= n && i != 0 implies #[trigger] owed_by(t, i) == owed_by(
            s,
            i,
        ) by {}
        lemma_owed_differs(s, t, 0, n);
        lemma_same_fees(s, t, n);
        assert(!s.market_fees.dom().contains((n + 1) as u64));
        assert(t.fees_upto((n + 1) as nat) == t.fees_upto(n) + t.fees_of((n + 1) as u64));
        assert(owed_upto(t, (n + 1) as nat) == owed_upto(t, n) + owed_by(t, (n + 1) as u64));
    }
}

/// Freezing a market before anybody claimed there turns what is owed for it
/// into refunds, and owes no more than before.
pub proof fn law_freezing_is_backed(s: MarketState, ledger: Ledger, admin: Address, id: u64)
    requires
        s.wf(),
        books_agree(s),
        unclaimed(s, id),
    ensures
        s.freeze_market(ledger, admin, id) matches Ok(o) ==> owed(o.state) <= owed(s),
{
    if let Ok(o) = s.freeze_market(ledger, admin, id) {
        let t = o.state;
        let n = s.count() as nat;
        assert(s.forfeited.dom().contains(id));
        assert(s.markets.dom().contains(id));
        lemma_unpaid(s, id, s.bettors(id) as nat);
        assert forall|i: u64| 1 <= i <= n && i != id implies #[trigger] owed_by(t, i) == owed_by(
            s,
            i,
        ) by {
            lemma_other_payouts_owe_the_same(s, t, id, i);
        }
        lemma_owed_differs(s, t, id, n);
        lemma_same_fees(s, t, n);
    }
}

/// Requests that move no asset bring in nothing.
pub proof fn lemma_brings_nothing(effects: Seq<Effect>, asset: Address, holder: Address)
    requires
        forall|i: int| 0 <= i < effects.len() ==> !(#[trigger] effects[i] is Transfer),
    ensures
        brings(effects, asset, holder) == 0,
    decreases effects.len(),
{
    if effects.len() > 0 {
        assert(!(effects[effects.len() - 1] is Transfer));
        assert forall|i: int| 0 <= i < effects.drop_last().len() implies !(#[trigger]
        effects.drop_last()[i] is Transfer) by {
            assert(!(effects[i] is Transfer));
        }
        lemma_brings_nothing(effects.drop_last(), asset, holder);
    }
}

/// Where the records of money are the same, so is what is owed.
pub proof fn lemma_same_owed(s: MarketState, t: MarketState)
    requires
        t.count() == s.count(),
        t.legacy() == s.legacy(),
        t.markets == s.markets,
        t.bets == s.bets,
        t.payouts == s.payouts,
        t.market_fees == s.market_fees,
        t.forfeited == s.forfeited,
    ensures
        owed(t) == owed(s),
{
    let n = s.count() as nat;
    assert forall|i: u64| 1 <= i <= n && i != 0 implies #[trigger] owed_by(t, i) == owed_by(
        s,
        i,
    ) by {}
    lemma_owed_differs(s, t, 0, n);
    lemma_same_fees(s, t, n);
}

} // verus!
