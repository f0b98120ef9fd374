//! While a market is open its records are complete: they account for the last
//! unit staked, and nobody is missing from the index.
use crate::address::Address;
use crate::env::Ledger;
use crate::prediction_market::fees::{law_debits_are_exact, lemma_fees_grow};
use crate::prediction_market::history::{is_settings, Call};
use crate::prediction_market::keeping::{
    lemma_position_changes, lemma_position_covered, lemma_position_part, lemma_reduction_changes,
    lemma_split,
};
use crate::prediction_market::settling::{
    lemma_not_walked_within, lemma_settlement_within_pool, lemma_share_rounds_down,
    lemma_walked_splits, not_walked, walked,
};
use crate::prediction_market::state::{fee_share, side_share, MarketState};
use crate::prediction_market::types::BetEntry;
use crate::sums::{lemma_sum_zero, sum};
use crate::table::find;
use vstd::prelude::*;

verus! {

/// The user is in the index of the market's bettors.
pub open spec fn is_indexed(s: MarketState, id: u64, user: Address) -> bool {
    exists|i: u32| #[trigger]
        s.bettor_at.dom().contains((id, i)) && s.bettor_at[(id, i)] == user
}

/// The records of one market account for all of its stakes and fees, and
/// everybody with a position is in its index.
pub open spec fn complete_at(s: MarketState, id: u64) -> bool {
    &&& sum(s.bets, side_share(id, true)) == s.markets[id].total_yes
    &&& sum(s.bets, side_share(id, false)) == s.markets[id].total_no
    &&& sum(s.bets, fee_share(id)) == s.fees_of(id)
    &&& forall|user: Address| #[trigger] s.bets.dom().contains((id, user)) ==> is_indexed(s, id, user)
}

/// The records of every open market are complete.
pub open spec fn complete(s: MarketState) -> bool {
    forall|id: u64| #[trigger]
        s.markets.dom().contains(id) && s.markets[id].open() ==> complete_at(s, id)
}

/// What completeness of a market looks at, apart from the positions.
pub open spec fn same_market(s: MarketState, t: MarketState, id: u64) -> bool {
    &&& s.markets.dom().contains(id)
    &&& s.markets[id].open()
    &&& t.markets[id].total_yes == s.markets[id].total_yes
    &&& t.markets[id].total_no == s.markets[id].total_no
    &&& t.fees_of(id) == s.fees_of(id)
    &&& t.bettor_at == s.bettor_at
}

proof fn lemma_same_positions(s: MarketState, t: MarketState)
    requires
        complete(s),
        t.bets == s.bets,
        forall|id: u64| #[trigger]
            t.markets.dom().contains(id) && t.markets[id].open() ==> same_market(s, t, id),
    ensures
        complete(t),
{
    assert forall|id: u64| #[trigger]
        t.markets.dom().contains(id) && t.markets[id].open() implies complete_at(t, id) by {
        assert(same_market(s, t, id));
        assert(complete_at(s, id));
        assert forall|user: Address| #[trigger] t.bets.dom().contains((id, user)) implies is_indexed(
            t,
            id,
            user,
        ) by {
            assert(is_indexed(s, id, user));
            let i = choose|i: u32| #[trigger]
                s.bettor_at.dom().contains((id, i)) && s.bettor_at[(id, i)] == user;
            assert(t.bettor_at.dom().contains((id, i)));
        }
    }
}

/// A position changes in a market that is not open.
proof fn lemma_closed_position(s: MarketState, t: MarketState, k: (u64, Address), e: BetEntry)
    requires
        s.wf(),
        complete(s),
        s.markets.dom().contains(k.0),
        !s.markets[k.0].open(),
        t == (MarketState { bets: s.bets.insert(k, e), ..s }),
    ensures
        complete(t),
{
    assert forall|id: u64| #[trigger]
        t.markets.dom().contains(id) && t.markets[id].open() implies complete_at(t, id) by {
        assert(s.markets.dom().contains(id));
        assert(complete_at(s, id));
        assert(id != k.0);
        lemma_position_changes(s.bets, k, e, id, true);
        lemma_position_changes(s.bets, k, e, id, false);
        assert forall|user: Address| #[trigger] t.bets.dom().contains((id, user)) implies is_indexed(
            t,
            id,
            user,
        ) by {
            assert(s.bets.dom().contains((id, user)));
            assert(is_indexed(s, id, user));
            let i = choose|i: u32| #[trigger]
                s.bettor_at.dom().contains((id, i)) && s.bettor_at[(id, i)] == user;
            assert(t.bettor_at.dom().contains((id, i)));
        }
    }
}

proof fn lemma_bet_completes(s: MarketState, user: Address, id: u64, is_yes: bool, amount: i128)
    requires
        s.wf(),
        complete(s),
        s.markets.dom().contains(id),
        s.markets[id].open(),
        crate::prediction_market::state::net_of(amount as int)
            >= crate::prediction_market::types::MIN_BET,
        s.can_bet(user, id, is_yes, amount),
    ensures
        complete(s.with_bet(user, id, is_yes, amount)),
{
    let t = s.with_bet(user, id, is_yes, amount);
    let k = (id, user);
    let e = s.raised(user, id, is_yes, amount);
    lemma_split(amount as int);
    if s.bets.dom().contains(k) {
        assert(s.bets[k].wf());
    }
    assert forall|i: u64| #[trigger]
        t.markets.dom().contains(i) && t.markets[i].open() implies complete_at(t, i) by {
        assert(s.markets.dom().contains(i));
        assert(complete_at(s, i));
        lemma_position_changes(s.bets, k, e, i, true);
        lemma_position_changes(s.bets, k, e, i, false);
        assert forall|who: Address| #[trigger] t.bets.dom().contains((i, who)) implies is_indexed(
            t,
            i,
            who,
        ) by {
            if (i, who) == k && !s.bets.dom().contains(k) {
                assert(t.bettor_at.dom().contains((id, s.bettors(id))));
            } else {
                assert(s.bets.dom().contains((i, who)));
                assert(is_indexed(s, i, who));
                let j = choose|j: u32| #[trigger]
                    s.bettor_at.dom().contains((i, j)) && s.bettor_at[(i, j)] == who;
                assert(t.bettor_at.dom().contains((i, j)));
            }
        }
    }
}

proof fn lemma_reduction_completes(s: MarketState, user: Address, id: u64, amount: i128)
    requires
        s.wf(),
        complete(s),
        s.markets.dom().contains(id),
        s.markets[id].open(),
        s.bets.dom().contains((id, user)),
        0 < amount <= s.bets[(id, user)].gross,
    ensures
        complete(s.with_less(user, id, amount)),
{
    let t = s.with_less(user, id, amount);
    let k = (id, user);
    assert(s.bets[k].wf());
    lemma_position_part(s.bets[k], amount);
    lemma_position_covered(s, k, true);
    lemma_position_covered(s, k, false);
    assert forall|i: u64| #[trigger]
        t.markets.dom().contains(i) && t.markets[i].open() implies complete_at(t, i) by {
        assert(s.markets.dom().contains(i));
        assert(complete_at(s, i));
        lemma_reduction_changes(s, user, id, amount, i, true);
        lemma_reduction_changes(s, user, id, amount, i, false);
        assert forall|who: Address| #[trigger] t.bets.dom().contains((i, who)) implies is_indexed(
            t,
            i,
            who,
        ) by {
            assert(s.bets.dom().contains((i, who)));
            assert(is_indexed(s, i, who));
            let j = choose|j: u32| #[trigger]
                s.bettor_at.dom().contains((i, j)) && s.bettor_at[(i, j)] == who;
            assert(t.bettor_at.dom().contains((i, j)));
        }
    }
}

proof fn lemma_creation_completes(s: MarketState, t: MarketState, id: u64)
    requires
        s.wf(),
        complete(s),
        id == s.count() + 1,
        t.bets == s.bets,
        t.bettor_at == s.bettor_at,
        t.market_fees == s.market_fees,
        t.markets == s.markets.insert(id, t.markets[id]),
        t.markets[id].total_yes == 0,
        t.markets[id].total_no == 0,
    ensures
        complete(t),
{
    assert forall|i: u64| #[trigger]
        t.markets.dom().contains(i) && t.markets[i].open() implies complete_at(t, i) by {
        if i == id {
            assert forall|k: (u64, Address)| t.bets.dom().contains(k) implies k.0 != id by {
                assert(s.bets.dom().contains(k));
            }
            assert forall|k: (u64, Address)| t.bets.dom().contains(k) implies #[trigger] side_share(
                id,
                true,
            )(k, t.bets[k]) == 0 by {}
            assert forall|k: (u64, Address)| t.bets.dom().contains(k) implies #[trigger] side_share(
                id,
                false,
            )(k, t.bets[k]) == 0 by {}
            assert forall|k: (u64, Address)| t.bets.dom().contains(k) implies #[trigger] fee_share(
                id,
            )(k, t.bets[k]) == 0 by {}
            lemma_sum_zero(t.bets, side_share(id, true));
            lemma_sum_zero(t.bets, side_share(id, false));
            lemma_sum_zero(t.bets, fee_share(id));
            assert(!s.market_fees.dom().contains(id));
        } else {
            assert(s.markets.dom().contains(i));
            assert(complete_at(s, i));
            assert forall|user: Address| #[trigger]
                t.bets.dom().contains((i, user)) implies is_indexed(t, i, user) by {
                assert(is_indexed(s, i, user));
                let j = choose|j: u32| #[trigger]
                    s.bettor_at.dom().contains((i, j)) && s.bettor_at[(i, j)] == user;
                assert(t.bettor_at.dom().contains((i, j)));
            }
        }
    }
}

proof fn lemma_debit_completes(s: MarketState, t: MarketState, amount: int)
    requires
        s.wf(),
        complete(s),
        s.admin is Some,
        0 <= amount <= s.earned(),
        t == (MarketState {
            pending_withdrawals: t.pending_withdrawals,
            ..s.debited(amount)
        }),
    ensures
        complete(t),
{
    assert forall|id: u64| #[trigger]
        t.markets.dom().contains(id) && t.markets[id].open() implies same_market(s, t, id) by {
        law_debits_are_exact(s, amount, id);
    }
    lemma_same_positions(s, t);
}

/// Every call keeps the records of open markets complete.
pub proof fn law_calls_keep_records_complete(s: MarketState, ledger: Ledger, call: Call)
    requires
        s.wf(),
        complete(s),
        forall|id: u64| #[trigger]
            s.forfeited.dom().contains(id) ==> s.markets.dom().contains(id)
                && !s.markets[id].open(),
        s.fits(ledger, call),
    ensures
        complete(s.after(ledger, call)),
{
    let t = s.after(ledger, call);
    match call {
        Call::CreateMarket { admin, question, image_url, category, duration_secs } => {
            if s.creation_refusal(ledger, admin, duration_secs) is None {
                lemma_creation_completes(s, t, t.count());
            }
        },
        Call::PlaceBet { user, id, is_yes, amount, referral_version } => {
            if s.place_bet(ledger, user, id, is_yes, amount, referral_version) is Ok {
                lemma_bet_completes(s, user, id, is_yes, amount);
            }
        },
        Call::ReducePosition { user, id, amount } => {
            if s.reduce_refusal(ledger, user, id, amount) is None {
                lemma_reduction_completes(s, user, id, amount);
            }
        },
        Call::CancelRefund { user, id } => {
            if s.refund_refusal(user, id) is None {
                lemma_closed_position(s, t, (id, user), t.bets[(id, user)]);
            }
        },
        Call::Claim { user, id, leaderboard_version } => {
            if s.claim(ledger, user, id, leaderboard_version) is Ok {
                lemma_closed_position(s, t, (id, user), t.bets[(id, user)]);
            }
        },
        Call::WithdrawFees { caller, recipient } => {
            if s.withdraw_refusal(caller, recipient) is None {
                lemma_fees_grow(s, 0, s.count() as nat);
                lemma_debit_completes(s, t, s.immediate_amount());
            }
        },
        Call::ExecuteWithdrawFees { caller } => {
            if s.execute_refusal(ledger, caller) is None {
                lemma_debit_completes(s, t, s.pending_withdrawals[caller].amount as int);
            }
        },
        Call::ResolveMarket { .. } => {
            lemma_closing_completes(s, ledger, call);
        },
        Call::CancelMarket { .. } => {
            lemma_closing_completes(s, ledger, call);
        },
        Call::FreezeMarket { .. } => {
            lemma_closing_completes(s, ledger, call);
        },
        Call::FinalizeZeroSide { .. } => {
            lemma_closing_completes(s, ledger, call);
        },
        _ => {
            lemma_rest_completes(s, ledger, call);
        },
    }
}

proof fn lemma_closing_completes(s: MarketState, ledger: Ledger, call: Call)
    requires
        s.wf(),
        complete(s),
        call is ResolveMarket || call is CancelMarket || call is FreezeMarket
            || call is FinalizeZeroSide,
        forall|id: u64| #[trigger]
            s.forfeited.dom().contains(id) ==> s.markets.dom().contains(id)
                && !s.markets[id].open(),
    ensures
        complete(s.after(ledger, call)),
{
    let t = s.after(ledger, call);
    assert forall|i: u64| #[trigger]
        t.markets.dom().contains(i) && t.markets[i].open() implies same_market(s, t, i) by {
        match call {
            Call::ResolveMarket { caller, id, outcome } => {
                assert(t.markets.dom() =~= s.markets.dom());
            },
            Call::CancelMarket { admin, id } => {},
            Call::FreezeMarket { admin, id } => {},
            _ => {},
        }
    }
    lemma_same_positions(s, t);
}

proof fn lemma_rest_completes(s: MarketState, ledger: Ledger, call: Call)
    requires
        complete(s),
        is_settings(call) || call is RequestWithdrawFees || call is CancelWithdrawalRequest,
    ensures
        complete(s.after(ledger, call)),
{
    let t = s.after(ledger, call);
    assert(t.bets == s.bets && t.markets == s.markets && t.market_fees == s.market_fees
        && t.bettor_at == s.bettor_at);
    lemma_same_positions(s, t);
}

/// A walk along a complete index meets every position.
proof fn lemma_walk_is_complete(s: MarketState, id: u64, yes: bool)
    requires
        s.wf(),
        s.markets.dom().contains(id),
        complete_at(s, id),
    ensures
        walked(s, id, s.bettors(id) as nat, side_share(id, yes)) == s.markets[id].side(yes),
{
    let n = s.bettors(id) as nat;
    let f = side_share(id, yes);
    lemma_walked_splits(s, id, n, f);
    lemma_not_walked_within(s, id, n);
    let rest = not_walked(s, id, n);
    assert forall|k: (u64, Address)| rest.dom().contains(k) implies #[trigger] f(k, rest[k])
        == 0 by {
        if k.0 == id {
            assert(s.bets.dom().contains((id, k.1)));
            assert(is_indexed(s, id, k.1));
            let i = choose|i: u32| #[trigger]
                s.bettor_at.dom().contains((id, i)) && s.bettor_at[(id, i)] == k.1;
            lemma_walked_is_gone(s, id, n, i);
        }
    }
    lemma_sum_zero(rest, f);
}

proof fn lemma_walked_is_gone(s: MarketState, id: u64, n: nat, i: u32)
    requires
        s.bettor_at.dom().contains((id, i)),
        i < n <= u32::MAX,
    ensures
        !not_walked(s, id, n).dom().contains((id, s.bettor_at[(id, i)])),
    decreases n,
{
    if i < n - 1 {
        lemma_walked_is_gone(s, id, (n - 1) as nat, i);
    }
}

/// How many of the first `n` bettors are paid.
pub open spec fn paid_count(s: MarketState, id: u64, outcome: bool, n: nat) -> int
    decreases n,
{
    if n == 0 {
        0
    } else {
        paid_count(s, id, outcome, (n - 1) as nat) + (match find(
            s.bettor_at,
            (id, (n - 1) as u32),
        ) {
            Some(user) => match find(s.bets, (id, user)) {
                Some(e) => if MarketState::payout_due(s.markets[id], outcome, e) is Some {
                    1int
                } else {
                    0int
                },
                None => 0int,
            },
            None => 0int,
        })
    }
}

/// Rounding loses less than one unit for each payout.
proof fn lemma_rounding_loss(s: MarketState, id: u64, outcome: bool, n: nat)
    requires
        s.wf(),
        s.markets.dom().contains(id),
        s.markets[id].side(outcome) > 0,
        n <= u32::MAX,
    ensures
        ({
            let m = s.markets[id];
            let win = m.side(outcome) as int;
            let short = walked(s, id, n, side_share(id, outcome)) * m.pool() - s.settlement(
                id,
                outcome,
                n,
            ).total * win;
            let paid = paid_count(s, id, outcome, n);
            &&& 0 <= paid <= n
            &&& paid == 0 ==> short == 0 && s.settlement(id, outcome, n).total == 0
            &&& paid > 0 ==> short < paid * win
        }),
    decreases n,
{
    let m = s.markets[id];
    let win = m.side(outcome) as int;
    let pool = m.pool();
    if n == 0 {
        assert(0 * pool == 0 && 0 * win == 0) by (nonlinear_arith);
    } else {
        let p = (n - 1) as nat;
        lemma_rounding_loss(s, id, outcome, p);
        let before = s.settlement(id, outcome, p);
        let i = p as u32;
        let paid = paid_count(s, id, outcome, p);
        if s.bettor_at.dom().contains((id, i)) {
            let k = (id, s.bettor_at[(id, i)]);
            if s.bets.dom().contains(k) {
                let e = s.bets[k];
                assert(e.wf());
                let stake = e.staked_on(outcome) as int;
                let w0 = walked(s, id, p, side_share(id, outcome));
                assert(walked(s, id, n, side_share(id, outcome)) == w0 + stake);
                lemma_share_rounds_down(stake, pool, win);
                let due = stake * pool / win;
                assert((before.total + due) * win == before.total * win + due * win)
                    by (nonlinear_arith);
                assert((w0 + stake) * pool == w0 * pool + stake * pool) by (nonlinear_arith);
                assert((due + 1) * win == due * win + win) by (nonlinear_arith);
                assert((paid + 1) * win == paid * win + win) by (nonlinear_arith);
                if paid == 0 {
                    assert(paid * win == 0) by (nonlinear_arith)
                        requires
                            paid == 0,
                    ;
                }
                if stake == 0 {
                    assert(stake * pool == 0) by (nonlinear_arith)
                        requires
                            stake == 0,
                    ;
                }
            }
        }
    }
}

/// A market that somebody won pays out its whole pool but for a remainder of
/// less than one unit for each winner.
pub proof fn law_payouts_exhaust_the_pool(s: MarketState, id: u64, outcome: bool)
    requires
        s.wf(),
        s.markets.dom().contains(id),
        complete_at(s, id),
    ensures
        ({
            let total = s.full_settlement(id, outcome).total;
            let dust = s.markets[id].pool() - total;
            &&& 0 <= dust
            &&& s.markets[id].side(outcome) > 0 ==> dust < paid_count(
                s,
                id,
                outcome,
                s.bettors(id) as nat,
            )
            &&& s.markets[id].side(outcome) == 0 ==> dust == 0
        }),
{
    let n = s.bettors(id) as nat;
    let m = s.markets[id];
    lemma_settlement_within_pool(s, id, outcome, n);
    lemma_walk_is_complete(s, id, outcome);
    lemma_walk_is_complete(s, id, true);
    lemma_walk_is_complete(s, id, false);
    crate::prediction_market::settling::lemma_settlement_total(s, id, outcome, n);
    if m.side(outcome) > 0 {
        lemma_rounding_loss(s, id, outcome, n);
        let win = m.side(outcome) as int;
        let pool = m.pool();
        let total = s.full_settlement(id, outcome).total;
        let paid = paid_count(s, id, outcome, n);
        assert(pool > 0);
        assert(paid > 0) by {
            if paid == 0 {
                assert(false) by (nonlinear_arith)
                    requires
                        win * pool - total * win == 0,
                        win > 0,
                        total == 0,
                        pool > 0,
                ;
            }
        }
        assert(pool - total < paid) by (nonlinear_arith)
            requires
                win * pool - total * win < paid * win,
                win > 0,
        ;
    }
}

/// The payout that a settlement sets for somebody in the index.
pub proof fn lemma_settled_at(
    s: MarketState,
    id: u64,
    outcome: bool,
    n: nat,
    at: u32,
    user: Address,
)
    requires
        s.wf(),
        s.bettor_at.dom().contains((id, at)),
        s.bettor_at[(id, at)] == user,
        s.bets.dom().contains((id, user)),
        n <= u32::MAX,
    ensures
        find(s.settlement(id, outcome, n).payouts, (id, user)) == (match MarketState::payout_due(
            s.markets[id],
            outcome,
            s.bets[(id, user)],
        ) {
            Some(p) => if at < n {
                Some(p as i128)
            } else {
                find(s.payouts, (id, user))
            },
            None => find(s.payouts, (id, user)),
        }),
    decreases n,
{
    if n > 0 {
        lemma_settled_at(s, id, outcome, (n - 1) as nat, at, user);
        let i = (n - 1) as u32;
        if i != at && s.bettor_at.dom().contains((id, i)) {
            assert(s.bettor_at[(id, i)] != user);
        }
    }
}

/// Resolving a market sets what everybody with a position there is due, to
/// the unit, and nothing for those who are due nothing.
pub proof fn law_everybody_is_paid(s: MarketState, id: u64, outcome: bool, user: Address)
    requires
        s.wf(),
        s.markets.dom().contains(id),
        s.markets[id].open(),
        crate::prediction_market::solvency::books_agree(s),
        complete_at(s, id),
        s.bets.dom().contains((id, user)),
    ensures
        find(s.full_settlement(id, outcome).payouts, (id, user)) == (match MarketState::payout_due(
            s.markets[id],
            outcome,
            s.bets[(id, user)],
        ) {
            Some(p) => Some(p as i128),
            None => None,
        }),
{
    assert(is_indexed(s, id, user));
    let at = choose|i: u32| #[trigger]
        s.bettor_at.dom().contains((id, i)) && s.bettor_at[(id, i)] == user;
    lemma_settled_at(s, id, outcome, s.bettors(id) as nat, at, user);
    assert(!s.payouts.dom().contains((id, user)));
}

} // verus!
