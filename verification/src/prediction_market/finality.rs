//! Claims and refunds: what one pays, and that it is paid once.
use crate::address::Address;
use crate::env::{Effect, Ledger};
use crate::prediction_market::fees::lemma_same_fees;
use crate::prediction_market::history::{
    in_order, latest, law_calls_keep_soundness, lemma_prefix_in_order, sound, Call,
};
use crate::prediction_market::rules::{law_closed_markets_stay_closed, lemma_positions_stay};
use crate::prediction_market::state::{version_refusal, MarketState};
use crate::prediction_market::types::{
    BetEntry, MarketError, Role, LEADERBOARD_REWARD_INTERFACE_VERSION,
};
use crate::table::find;
use vstd::prelude::*;

verus! {

/// A claim was made on the position, and its market stands as resolved.
pub open spec fn claim_stands(s: MarketState, k: (u64, Address)) -> bool {
    &&& s.bets.dom().contains(k)
    &&& s.bets[k].claimed
    &&& s.markets.dom().contains(k.0)
    &&& s.markets[k.0].resolved
    &&& !s.markets[k.0].cancelled
}

/// No call undoes a claim or the resolution it was made on.
proof fn lemma_claim_still_stands(
    s: MarketState,
    now: u64,
    ledger: Ledger,
    call: Call,
    k: (u64, Address),
)
    requires
        sound(s, now),
        now <= ledger.timestamp,
        s.fits(ledger, call),
        claim_stands(s, k),
    ensures
        claim_stands(s.after(ledger, call), k),
{
    reveal(sound);
    lemma_positions_stay(s, ledger, call, k);
    law_closed_markets_stay_closed(s, ledger, call, k.0);
    let t = s.after(ledger, call);
    match call {
        Call::CancelMarket { admin, id } => {
            assert(t == s || t.markets.dom().contains(id) && id != k.0 && t.markets[k.0]
                == s.markets[k.0]);
        },
        Call::FreezeMarket { admin, id } => {
            if s.freeze_refusal(ledger, admin, id) is None {
                assert(id != k.0) by {
                    if id == k.0 {
                        assert(s.forfeited[k.0].disputable_until <= now);
                    }
                }
            }
        },
        _ => {
            lemma_cancelling_calls(s, ledger, call, k.0);
        },
    }
}

/// Only a cancellation or a dispute cancels a market.
proof fn lemma_cancelling_calls(s: MarketState, ledger: Ledger, call: Call, id: u64)
    requires
        s.wf(),
        s.fits(ledger, call),
        s.markets.dom().contains(id),
        !s.markets[id].cancelled,
        !(call is CancelMarket),
        !(call is FreezeMarket),
    ensures
        !s.after(ledger, call).markets[id].cancelled,
{
    let t = s.after(ledger, call);
    match call {
        Call::CreateMarket { .. } => {
            let new = (s.count() + 1) as u64;
            assert(t == s || t.markets == s.markets.insert(new, t.markets[new]) && id != new);
        },
        Call::PlaceBet { user, id: i, is_yes, amount, referral_version } => {
            assert(t == s || t == s.with_bet(user, i, is_yes, amount));
        },
        Call::ReducePosition { user, id: i, amount } => {
            assert(t == s || t == s.with_less(user, i, amount));
        },
        Call::ResolveMarket { id: i, .. } => {
            assert(t == s || t.markets == s.markets.insert(i, t.markets[i])
                && t.markets[i].cancelled == s.markets[i].cancelled);
        },
        _ => {
            assert(t.markets == s.markets);
        },
    }
}

proof fn lemma_claims_stand_through(
    s: MarketState,
    now: u64,
    calls: Seq<(Ledger, Call)>,
    k: (u64, Address),
)
    requires
        sound(s, now),
        in_order(calls),
        calls.len() > 0 ==> now <= calls[0].0.timestamp,
        s.fits_all(calls),
        claim_stands(s, k),
    ensures
        claim_stands(s.after_all(calls), k),
        sound(
            s.after_all(calls),
            if calls.len() == 0 {
                now
            } else {
                latest(calls)
            },
        ),
    decreases calls.len(),
{
    if calls.len() > 0 {
        let before = calls.drop_last();
        lemma_prefix_in_order(calls);
        assert(before.len() > 0 ==> before[0] == calls[0]);
        lemma_claims_stand_through(s, now, before, k);
        let t = s.after_all(before);
        let by_then = if before.len() == 0 {
            now
        } else {
            latest(before)
        };
        assert(by_then <= calls.last().0.timestamp);
        lemma_claim_still_stands(t, by_then, calls.last().0, calls.last().1, k);
        law_calls_keep_soundness(t, by_then, calls.last().0, calls.last().1);
    }
}

/// Nobody claims twice: once a claim went through, whatever is called after
/// it, another one by the same user is refused as already made, at any time
/// and whatever the leaderboard reports, or because of a pause. It changes
/// nothing and asks for no transfer and no reward.
pub proof fn law_claims_are_final(
    s: MarketState,
    now: u64,
    ledger: Ledger,
    user: Address,
    id: u64,
    leaderboard_version: Option<u32>,
    calls: Seq<(Ledger, Call)>,
    later: Ledger,
    later_version: Option<u32>,
)
    requires
        sound(s, now),
        now <= ledger.timestamp,
        s.claim(ledger, user, id, leaderboard_version) is Ok,
        in_order(calls),
        calls.len() > 0 ==> ledger.timestamp <= calls[0].0.timestamp,
        s.after(ledger, Call::Claim { user, id, leaderboard_version }).fits_all(calls),
    ensures
        ({
            let t = s.after(ledger, Call::Claim { user, id, leaderboard_version }).after_all(calls);
            let refusal = if t.is_paused() {
                MarketError::ContractPaused
            } else {
                MarketError::AlreadyClaimed
            };
            &&& t.bets.dom().contains((id, user)) && t.bets[(id, user)].claimed
            &&& t.claim_refusal(later, user, id) == Some(refusal)
            &&& t.claim(later, user, id, later_version) matches Err(e) && e == refusal
            &&& t.after(later, Call::Claim { user, id, leaderboard_version: later_version }) == t
            &&& t.asked(
                later,
                Call::Claim { user, id, leaderboard_version: later_version },
            ).len() == 0
        }),
{
    let call = Call::Claim { user, id, leaderboard_version };
    let c = s.after(ledger, call);
    law_calls_keep_soundness(s, now, ledger, call);
    assert(claim_stands(c, (id, user)));
    lemma_claims_stand_through(c, ledger.timestamp, calls, (id, user));
}

/// A claim goes through exactly where nothing refuses it. It pays the stored
/// payout in one transfer, or transfers nothing where there is none, and
/// changes nothing but that the position is marked as claimed.
pub proof fn law_claims_pay_the_payout(
    s: MarketState,
    ledger: Ledger,
    user: Address,
    id: u64,
    leaderboard_version: Option<u32>,
    other: (u64, Address),
)
    requires
        other != (id, user),
    ensures
        ({
            let r = s.claim(ledger, user, id, leaderboard_version);
            let pay = Effect::Transfer {
                asset: s.cfg->0.xlm_sac,
                from: ledger.this,
                to: user,
                amount: s.payout(id, user),
            };
            &&& r is Ok == (s.claim_refusal(ledger, user, id) is None && version_refusal(
                leaderboard_version,
                LEADERBOARD_REWARD_INTERFACE_VERSION,
            ) is None)
            &&& r matches Ok(o) ==> {
                &&& o.state == (MarketState { bets: o.state.bets, ..s })
                &&& o.state.fees() == s.fees()
                &&& o.state.bets[(id, user)] == (BetEntry { claimed: true, ..s.bets[(id, user)] })
                &&& find(o.state.bets, other) == find(s.bets, other)
                &&& s.payout(id, user) > 0 ==> o.effects[1] == pay
                &&& forall|i: int|
                    0 <= i < o.effects.len() && #[trigger] o.effects[i] is Transfer ==> i == 1
                        && s.payout(id, user) > 0
            }
        }),
{
    if let Ok(o) = s.claim(ledger, user, id, leaderboard_version) {
        lemma_same_fees(s, o.state, s.count() as nat);
    }
}

/// A refund is refused for a market that was not cancelled, and otherwise
/// where there is nothing to refund; it is paid in every other case, paused
/// or not and whatever trust was revoked. It pays the stakes and the
/// platform's share of the position in one transfer, something and never more
/// than was paid in, empties the position so that the next attempt is refused,
/// and leaves every other position, the market, its fees and its payouts as
/// they were.
pub proof fn law_refunds_are_paid_once(
    s: MarketState,
    ledger: Ledger,
    user: Address,
    id: u64,
    other: (u64, Address),
    later: Ledger,
    paused: Option<bool>,
    trust_revoked: Map<Role, bool>,
)
    requires
        s.wf(),
        s.markets.dom().contains(id),
        other != (id, user),
    ensures
        ({
            let r = s.cancel_refund(ledger, user, id);
            let e = s.bets[(id, user)];
            let pending = s.bets.dom().contains((id, user)) && e.gross > 0;
            &&& !s.markets[id].cancelled ==> r is Err && r->Err_0 == MarketError::MarketNotCancelled
            &&& s.markets[id].cancelled && !pending ==> r is Err && r->Err_0
                == MarketError::NoBetFound
            &&& s.markets[id].cancelled && pending ==> r is Ok
            &&& r matches Ok(o) ==> {
                &&& o.value == e.refundable()
                &&& 0 < o.value <= e.gross
                &&& o.effects == seq![
                    Effect::RequireAuth(user),
                    Effect::Transfer {
                        asset: s.cfg->0.xlm_sac,
                        from: ledger.this,
                        to: user,
                        amount: o.value,
                    },
                ]
                &&& o.state == (MarketState { bets: o.state.bets, ..s })
                &&& o.state.fees() == s.fees()
                &&& o.state.bets[(id, user)].gross == 0
                &&& o.state.bets[(id, user)].refundable() == 0
                &&& find(o.state.bets, other) == find(s.bets, other)
                &&& o.state.cancel_refund(later, user, id) is Err
                &&& o.state.refund_refusal(user, id) == Some(MarketError::NoBetFound)
                &&& (MarketState { paused, trust_revoked, ..s }).cancel_refund(
                    ledger,
                    user,
                    id,
                ) matches Ok(p) && p.value == o.value && p.effects == o.effects
            }
        }),
{
    if s.bets.dom().contains((id, user)) {
        assert(s.bets[(id, user)].wf());
    }
    if let Ok(o) = s.cancel_refund(ledger, user, id) {
        lemma_same_fees(s, o.state, s.count() as nat);
    }
}

} // verus!
