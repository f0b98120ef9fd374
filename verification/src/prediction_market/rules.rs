//! Laws of the market's rules.
use crate::address::Address;
use crate::env::{Effect, Ledger};
use crate::prediction_market::fees::{
    law_debits_are_exact, lemma_earned_within, lemma_same_fees,
};
use crate::prediction_market::history::Call;
use crate::prediction_market::keeping::lemma_position_part;
use crate::prediction_market::state::{
    cap_of, net_of, platform_of, referral_of, role_named, MarketState,
};
use crate::prediction_market::types::{
    BetEntry, Category, Market, MarketError, Role, MAX_BETTORS_PER_PAGE, MAX_MARKETS_PER_HOUR,
    MIN_BET, RATE_WINDOW_LEDGERS, WITHDRAW_DELAY_SECS,
};
use crate::table::find;
use vstd::prelude::*;

verus! {

/// The parts of a bet come to the bet, to the unit: nothing is lost to
/// rounding, and no part is negative.
pub proof fn law_bets_split_exactly(amount: int)
    requires
        net_of(amount) >= MIN_BET,
    ensures
        net_of(amount) + platform_of(amount) + referral_of(amount) == amount,
        0 < net_of(amount) <= amount,
        0 <= platform_of(amount),
        0 <= referral_of(amount),
        amount - net_of(amount) >= platform_of(amount),
{
}

/// Whoever bet on the outcome gets at least their net stake back.
pub proof fn law_winners_keep_their_stake(m: Market, outcome: bool, e: BetEntry)
    requires
        m.total_yes >= 0,
        m.total_no >= 0,
        m.side(outcome) > 0,
        e.staked_on(outcome) > 0,
    ensures
        MarketState::payout_due(m, outcome, e) matches Some(p) && p >= e.staked_on(outcome),
{
    let stake = e.staked_on(outcome) as int;
    let pool = m.pool();
    let side = m.side(outcome) as int;
    assert(stake * pool / side >= stake) by (nonlinear_arith)
        requires
            stake > 0,
            pool >= side,
            side > 0,
    ;
}

/// Equal stakes on the outcome are paid equally, and larger ones no less.
pub proof fn law_payouts_follow_stakes(m: Market, outcome: bool, less: BetEntry, more: BetEntry)
    requires
        m.total_yes >= 0,
        m.total_no >= 0,
        m.side(outcome) > 0,
        0 < less.staked_on(outcome) <= more.staked_on(outcome),
    ensures
        MarketState::payout_due(m, outcome, less)->0 <= MarketState::payout_due(
            m,
            outcome,
            more,
        )->0,
{
    let a = less.staked_on(outcome) as int;
    let b = more.staked_on(outcome) as int;
    let pool = m.pool();
    let side = m.side(outcome) as int;
    assert(a * pool <= b * pool) by (nonlinear_arith)
        requires
            a <= b,
            pool >= 0,
    ;
    assert(a * pool / side <= b * pool / side) by (nonlinear_arith)
        requires
            a * pool <= b * pool,
            side > 0,
    ;
}

/// A reduction pays out a part of what the position is worth, no part of it
/// twice: what it pays and what is left to refund come to what there was, and
/// it never pays more than the amount taken off.
pub proof fn law_reductions_pay_their_part(
    s: MarketState,
    ledger: Ledger,
    user: Address,
    id: u64,
    amount: i128,
)
    requires
        s.wf(),
    ensures
        s.reduce_position(ledger, user, id, amount) matches Ok(o) ==> {
            let e = s.bets[(id, user)];
            &&& 0 <= o.value <= amount
            &&& amount < e.gross ==> {
                let rest = o.state.bets[(id, user)];
                &&& o.state.bets.dom().contains((id, user))
                &&& rest.gross == e.gross - amount
                &&& rest.refundable() == e.refundable() - o.value
                &&& 0 < rest.refundable() <= rest.gross
                &&& rest.count == e.count
                &&& rest.is_yes == e.is_yes
            }
        },
{
    if s.reduce_position(ledger, user, id, amount) is Ok {
        assert(s.bets[(id, user)].wf());
        lemma_position_part(s.bets[(id, user)], amount);
    }
}

/// Taking everything off closes the position: it is gone, it pays all that it
/// was worth, and neither a claim nor a refund finds anything of it.
pub proof fn law_full_reductions_close(
    s: MarketState,
    ledger: Ledger,
    user: Address,
    id: u64,
    amount: i128,
)
    requires
        s.wf(),
        s.bets.dom().contains((id, user)),
        amount == s.bets[(id, user)].gross,
    ensures
        s.reduce_position(ledger, user, id, amount) matches Ok(o) ==> {
            &&& o.value == s.bets[(id, user)].refundable()
            &&& !o.state.bets.dom().contains((id, user))
            &&& forall|i: u32| #[trigger]
                o.state.bettor_at.dom().contains((id, i)) ==> o.state.bettor_at[(id, i)] != user
            &&& o.state.claim_refusal(ledger, user, id) is Some
            &&& o.state.refund_refusal(user, id) is Some
        },
{
    if s.reduce_position(ledger, user, id, amount) is Ok {
        assert(s.bets[(id, user)].wf());
        lemma_position_part(s.bets[(id, user)], amount);
    }
}

/// A reduction concerns one position of one market: nobody else's position,
/// and no other market or its fees, changes.
pub proof fn law_reductions_are_isolated(
    s: MarketState,
    ledger: Ledger,
    user: Address,
    id: u64,
    amount: i128,
    other: (u64, Address),
)
    requires
        other != (id, user),
    ensures
        s.reduce_position(ledger, user, id, amount) matches Ok(o) ==> {
            &&& find(o.state.bets, other) == find(s.bets, other)
            &&& o.state.payouts == s.payouts
            &&& other.0 != id ==> find(o.state.markets, other.0) == find(s.markets, other.0)
                && o.state.fees_of(other.0) == s.fees_of(other.0)
        },
{
}

/// What calls leave of a position in a market that is not open.
pub proof fn lemma_positions_stay(s: MarketState, ledger: Ledger, call: Call, k: (u64, Address))
    requires
        s.bets.dom().contains(k),
        s.markets.dom().contains(k.0) ==> !s.markets[k.0].open(),
    ensures
        ({
            let t = s.after(ledger, call);
            &&& t.bets.dom().contains(k)
            &&& s.bets[k].claimed ==> t.bets[k].claimed
            &&& t.bets[k].is_yes == s.bets[k].is_yes
            &&& s.markets.dom().contains(k.0) && !s.markets[k.0].open() && s.bets[k].gross == 0
                ==> t.bets[k].gross == 0
        }),
{
    let t = s.after(ledger, call);
    match call {
        Call::PlaceBet { user, id, is_yes, amount, referral_version } => {
            assert(t == s || t == s.with_bet(user, id, is_yes, amount));
        },
        Call::ReducePosition { user, id, amount } => {
            assert(t == s || t == s.with_less(user, id, amount));
        },
        Call::CancelRefund { user, id } => {
            assert(t == s || t.bets == s.bets.insert((id, user), t.bets[(id, user)]));
        },
        Call::Claim { user, id, leaderboard_version } => {
            assert(t == s || t.bets == s.bets.insert((id, user), t.bets[(id, user)]));
        },
        _ => {
            assert(t.bets == s.bets);
        },
    }
}

/// Once a refund was collected, no call brings it back, and it is refused
/// from then on.
pub proof fn law_refunds_are_final(
    s: MarketState,
    ledger: Ledger,
    call: Call,
    user: Address,
    id: u64,
)
    requires
        s.wf(),
        s.fits(ledger, call),
        s.markets.dom().contains(id),
        s.markets[id].cancelled,
        s.bets.dom().contains((id, user)),
        s.bets[(id, user)].gross == 0,
    ensures
        s.after(ledger, call).bets.dom().contains((id, user)),
        s.after(ledger, call).bets[(id, user)].gross == 0,
        s.after(ledger, call).markets.dom().contains(id),
        s.after(ledger, call).markets[id].cancelled,
        s.refund_refusal(user, id) == Some(MarketError::NoBetFound),
{
    lemma_positions_stay(s, ledger, call, (id, user));
    law_closed_markets_stay_closed(s, ledger, call, id);
}

/// No call removes a market, reopens it or changes its creator or deadline,
/// and once it is closed neither its outcome nor its stakes change.
pub proof fn law_closed_markets_stay_closed(
    s: MarketState,
    ledger: Ledger,
    call: Call,
    id: u64,
)
    requires
        s.wf(),
        s.fits(ledger, call),
        s.markets.dom().contains(id),
    ensures
        ({
            let t = s.after(ledger, call);
            &&& t.markets.dom().contains(id)
            &&& s.markets[id].cancelled ==> t.markets[id].cancelled
            &&& s.markets[id].resolved ==> t.markets[id].resolved && t.markets[id].outcome
                == s.markets[id].outcome
            &&& !s.markets[id].open() ==> t.markets[id].total_yes == s.markets[id].total_yes
                && t.markets[id].total_no == s.markets[id].total_no
            &&& t.markets[id].end_time == s.markets[id].end_time
            &&& t.markets[id].creator == s.markets[id].creator
        }),
{
    let t = s.after(ledger, call);
    match call {
        Call::CreateMarket { admin, question, image_url, category, duration_secs } => {
            assert(t == s || t.markets == s.markets.insert(
                (s.count() + 1) as u64,
                t.markets[(s.count() + 1) as u64],
            ));
        },
        Call::PlaceBet { user, id, is_yes, amount, referral_version } => {
            assert(t == s || t == s.with_bet(user, id, is_yes, amount));
        },
        Call::ReducePosition { user, id, amount } => {
            assert(t == s || t == s.with_less(user, id, amount));
        },
        Call::ResolveMarket { caller, id, outcome } => {
            assert(t == s || t.markets == s.markets.insert(id, t.markets[id]));
        },
        Call::CancelMarket { admin, id } => {
            assert(t == s || t.markets == s.markets.insert(id, t.markets[id]));
        },
        Call::FreezeMarket { admin, id } => {
            assert(t == s || t.markets == s.markets.insert(id, t.markets[id]));
        },
        _ => {
            assert(t.markets == s.markets);
        },
    }
}

/// While trust in the referral contract is revoked, no bet is taken; while
/// that in the leaderboard is, no claim is paid. Only restoring it ends this:
/// no other call does, not even a change of the contracts' addresses.
pub proof fn law_revocations_hold(
    s: MarketState,
    ledger: Ledger,
    call: Call,
    role: Role,
    user: Address,
    id: u64,
    is_yes: bool,
    amount: i128,
    version: Option<u32>,
)
    requires
        s.is_revoked(role),
        call matches Call::RestoreTrust { role: named, .. } ==> role_named(named) != Some(role),
    ensures
        s.after(ledger, call).is_revoked(role),
        role is Referral ==> s.place_bet(ledger, user, id, is_yes, amount, version) is Err,
        role is Leaderboard ==> s.claim(ledger, user, id, version) is Err,
{
    let t = s.after(ledger, call);
    match call {
        Call::RevokeTrust { admin, role } => {},
        Call::RestoreTrust { admin, role } => {},
        _ => {
            assert(t.trust_revoked == s.trust_revoked);
        },
    }
}

/// While the market is paused it creates, takes, settles, pays and withdraws
/// nothing, and says why. Refunds of cancelled markets are still paid: see
/// [`law_refunds_ignore_pauses`].
pub proof fn law_pause_halts(s: MarketState, ledger: Ledger, call: Call)
    requires
        s.is_paused(),
        call is CreateMarket || call is PlaceBet || call is ReducePosition
            || call is ResolveMarket || call is CancelMarket || call is Claim
            || call is FreezeMarket || call is FinalizeZeroSide || call is WithdrawFees
            || call is RequestWithdrawFees || call is ExecuteWithdrawFees,
    ensures
        s.after(ledger, call) == s,
        s.refusal(ledger, call) == Some(MarketError::ContractPaused),
{
}

impl MarketState {
    /// Why a call that the pause concerns is refused.
    pub open spec fn refusal(self, ledger: Ledger, call: Call) -> Option<MarketError> {
        match call {
            Call::CreateMarket { admin, duration_secs, .. } => self.creation_refusal(
                ledger,
                admin,
                duration_secs,
            ),
            Call::PlaceBet { user, id, amount, .. } => self.bet_refusal(ledger, user, id, amount),
            Call::ReducePosition { user, id, amount } => self.reduce_refusal(
                ledger,
                user,
                id,
                amount,
            ),
            Call::ResolveMarket { caller, id, .. } => self.resolve_refusal(ledger, caller, id),
            Call::CancelMarket { admin, id } => self.cancel_refusal(admin, id),
            Call::CancelRefund { user, id } => self.refund_refusal(user, id),
            Call::Claim { user, id, .. } => self.claim_refusal(ledger, user, id),
            Call::FreezeMarket { admin, id } => self.freeze_refusal(ledger, admin, id),
            Call::FinalizeZeroSide { id } => self.finalize_refusal(ledger, id),
            Call::WithdrawFees { caller, recipient } => self.withdraw_refusal(caller, recipient),
            Call::RequestWithdrawFees { caller, recipient, amount } => self.request_refusal(
                caller,
                recipient,
                amount,
            ),
            Call::ExecuteWithdrawFees { caller } => self.execute_refusal(ledger, caller),
            _ => None,
        }
    }
}

/// Cancelling a market gives up exactly its own fees, and leaves every other
/// market, its fees and its positions alone.
pub proof fn law_cancellation_is_isolated(s: MarketState, admin: Address, id: u64, other: u64)
    requires
        s.wf(),
        s.cancel_refusal(admin, id) is None,
    ensures
        ({
            let t = s.cancel_market(admin, id)->Ok_0.state;
            &&& t.fees() == s.fees() - s.fees_of(id)
            &&& t.fees_of(id) == 0
            &&& t.earned() == s.earned()
            &&& t.bets == s.bets
            &&& t.payouts == s.payouts
            &&& other != id ==> t.fees_of(other) == s.fees_of(other) && find(t.markets, other)
                == find(s.markets, other)
        }),
{
    let t = s.cancel_market(admin, id)->Ok_0.state;
    assert(s.markets.dom().contains(id));
    lemma_fees_without(s, t, id, s.count() as nat);
}

proof fn lemma_fees_without(s: MarketState, t: MarketState, id: u64, n: nat)
    requires
        n <= u64::MAX,
        !s.settled(id),
        !t.settled(id),
        t.fees_of(id) == 0,
        forall|i: u64| i != id ==> #[trigger] t.fees_of(i) == s.fees_of(i),
        forall|i: u64| i != id ==> #[trigger] t.settled(i) == s.settled(i),
    ensures
        t.fees_upto(n) == s.fees_upto(n) - (if 1 <= id <= n {
            s.fees_of(id) as int
        } else {
            0
        }),
        t.earned_upto(n) == s.earned_upto(n),
    decreases n,
{
    if n > 0 {
        lemma_fees_without(s, t, id, (n - 1) as nat);
        if n as u64 != id {
            assert(t.fees_of(n as u64) == s.fees_of(n as u64));
            assert(t.settled(n as u64) == s.settled(n as u64));
        }
    }
}

/// An immediate withdrawal takes no more than the limit for one withdrawal
/// (or what is left, once that limit rounds to nothing), and it never touches
/// the fees of a market that is still open.
pub proof fn law_withdrawals_are_capped(
    s: MarketState,
    ledger: Ledger,
    caller: Address,
    recipient: Address,
    id: u64,
)
    requires
        s.wf(),
        s.earned() <= i128::MAX,
    ensures
        s.withdraw_fees(ledger, caller, recipient) matches Ok(o) ==> {
            &&& 0 < o.value <= s.earned() <= s.fees()
            &&& o.value <= cap_of(s.earned()) || s.earned() < 5
            &&& o.state.earned() == s.earned() - o.value
            &&& s.markets.dom().contains(id) && s.markets[id].open() ==> o.state.fees_of(id)
                == s.fees_of(id)
        },
{
    if let Ok(o) = s.withdraw_fees(ledger, caller, recipient) {
        lemma_earned_within(s, s.count() as nat);
        law_debits_are_exact(s, s.immediate_amount(), id);
    }
}

/// Earned fees can always be withdrawn to the last unit: each withdrawal
/// leaves strictly less.
pub proof fn law_withdrawals_make_progress(
    s: MarketState,
    ledger: Ledger,
    caller: Address,
    recipient: Address,
)
    requires
        s.wf(),
        s.earned() <= i128::MAX,
        s.earned() > 0,
        !s.is_paused(),
        s.admin == Some(caller),
        recipient == caller,
    ensures
        s.withdraw_fees(ledger, caller, recipient) matches Ok(o) && 0 <= o.state.earned()
            < s.earned(),
{
    lemma_earned_within(s, s.count() as nat);
    law_debits_are_exact(s, s.immediate_amount(), 0);
}

/// A requested withdrawal is refused without a request, before the delay has
/// passed, and where less is earned than was asked for, in this order; a refused
/// one leaves the request in place. In every other case it pays the recipient
/// exactly what was asked for, takes exactly that out of the fees on record, and
/// the request is gone.
pub proof fn law_requested_withdrawals_wait(s: MarketState, ledger: Ledger, caller: Address)
    requires
        s.wf(),
        !s.is_paused(),
        s.treasurer_refusal(caller) is None,
    ensures
        ({
            let r = s.execute_withdraw_fees(ledger, caller);
            let asked = s.pending_withdrawals.dom().contains(caller);
            let req = s.pending_withdrawals[caller];
            let soon = ledger.timestamp < req.requested_at + WITHDRAW_DELAY_SECS;
            &&& !asked ==> r is Err && r->Err_0 == MarketError::NoWithdrawalRequest
            &&& asked && soon ==> r is Err && r->Err_0 == MarketError::WithdrawalTooSoon
            &&& asked && !soon && s.earned() < req.amount ==> r is Err && r->Err_0
                == MarketError::WithdrawalTooLarge
            &&& asked && !soon && s.earned() >= req.amount ==> r is Ok
            &&& r is Err ==> s.after(ledger, Call::ExecuteWithdrawFees { caller }) == s
            &&& r matches Ok(o) ==> {
                &&& o.value == req.amount
                &&& o.effects == seq![
                    Effect::RequireAuth(caller),
                    Effect::Transfer {
                        asset: s.cfg->0.xlm_sac,
                        from: ledger.this,
                        to: req.recipient,
                        amount: req.amount,
                    },
                ]
                &&& o.state.fees() == s.fees() - req.amount
                &&& o.state.earned() == s.earned() - req.amount
                &&& o.state.pending_withdrawals == s.pending_withdrawals.remove(caller)
                &&& o.state.execute_refusal(ledger, caller) == Some(
                    MarketError::NoWithdrawalRequest,
                )
            }
        }),
{
    if let Ok(o) = s.execute_withdraw_fees(ledger, caller) {
        let d = s.debited(s.pending_withdrawals[caller].amount as int);
        law_debits_are_exact(s, s.pending_withdrawals[caller].amount as int, 0);
        lemma_same_fees(d, o.state, s.count() as nat);
    }
}

/// Whoever may no longer withdraw cannot have an earlier request executed.
pub proof fn law_requests_need_standing(s: MarketState, ledger: Ledger, caller: Address)
    requires
        s.is_paused() || s.treasurer_refusal(caller) is Some,
    ensures
        s.execute_withdraw_fees(ledger, caller) is Err,
        s.after(ledger, Call::ExecuteWithdrawFees { caller }) == s,
{
}

/// A request asks for no more than the limit for one withdrawal, is dated by
/// the ledger, and stays as it is until its owner executes it or the admin
/// cancels it.
pub proof fn law_requests_stand(s: MarketState, ledger: Ledger, call: Call, caller: Address)
    ensures
        call matches Call::RequestWithdrawFees { caller: who, recipient, amount }
            ==> s.request_withdraw_fees(ledger, who, recipient, amount) matches Ok(o) ==> {
            &&& 0 < amount <= cap_of(s.earned())
            &&& o.state.pending_withdrawals[who].requested_at == ledger.timestamp
            &&& o.state.pending_withdrawals[who].amount == amount
            &&& o.state.pending_withdrawals[who].recipient == recipient
            &&& o.state.fees() == s.fees()
        },
        s.pending_withdrawals.dom().contains(caller) && !(call matches Call::ExecuteWithdrawFees {
            caller: who,
        } && who == caller) && !(call matches Call::CancelWithdrawalRequest { caller: who, .. }
            && who == caller) ==> find(s.after(ledger, call).pending_withdrawals, caller) == find(
            s.pending_withdrawals,
            caller,
        ),
{
    let t = s.after(ledger, call);
    match call {
        Call::RequestWithdrawFees { .. } => {
            lemma_same_fees(s, t, s.count() as nat);
        },
        Call::ExecuteWithdrawFees { .. } => {},
        Call::CancelWithdrawalRequest { .. } => {},
        _ => {
            assert(t.pending_withdrawals == s.pending_withdrawals);
        },
    }
}

/// No more markets than the limit are created within a window, and a window
/// is left only after its full length.
pub proof fn law_creation_is_limited(
    s: MarketState,
    ledger: Ledger,
    admin: Address,
    question: String,
    image_url: String,
    category: Category,
    duration_secs: u64,
)
    ensures
        s.create_market(ledger, admin, question, image_url, category, duration_secs) matches Ok(o)
            ==> (o.state.rate_window matches Some(w) && w.count <= MAX_MARKETS_PER_HOUR && (
        s.rate_window matches Some(v) ==> if w.start == v.start && ledger.sequence - v.start
            < RATE_WINDOW_LEDGERS {
            w.count == v.count + 1
        } else {
            w.count == 1 && ledger.sequence >= v.start + RATE_WINDOW_LEDGERS
        })),
        s.rate_window matches Some(v) && v.count >= MAX_MARKETS_PER_HOUR && ledger.sequence
            - v.start < RATE_WINDOW_LEDGERS ==> s.create_market(
            ledger,
            admin,
            question,
            image_url,
            category,
            duration_secs,
        ) is Err,
{
}

/// Nobody resolves a market in which they have a stake, and no resolver bets.
pub proof fn law_resolvers_have_no_interest(
    s: MarketState,
    ledger: Ledger,
    who: Address,
    id: u64,
    outcome: bool,
    amount: i128,
    version: Option<u32>,
)
    ensures
        s.holds_stake(id, who) ==> s.resolve_market(ledger, who, id, outcome) is Err,
        s.is_resolver(who) ==> s.place_bet(ledger, who, id, outcome, amount, version) is Err,
{
}

/// Where nobody bet on the outcome, nobody claims before the window for
/// disputes closes, and nobody freezes the market afterwards.
pub proof fn law_disputes_have_a_window(
    s: MarketState,
    ledger: Ledger,
    admin: Address,
    user: Address,
    id: u64,
    version: Option<u32>,
)
    requires
        s.forfeited.dom().contains(id),
    ensures
        ledger.timestamp < s.forfeited[id].disputable_until ==> s.claim(
            ledger,
            user,
            id,
            version,
        ) is Err && s.finalize_zero_side(ledger, id) is Err,
        ledger.timestamp >= s.forfeited[id].disputable_until ==> s.freeze_market(
            ledger,
            admin,
            id,
        ) is Err,
{
}

/// Consecutive pages of bettors put together are the index, whatever the page
/// length.
pub proof fn law_pages_rebuild_the_index(s: MarketState, id: u64, start: u32, limit: u32)
    requires
        start <= s.bettors(id),
    ensures
        ({
            let end = s.page_end(id, start, limit);
            &&& start <= end <= s.bettors(id)
            &&& limit > 0 && start < s.bettors(id) ==> end > start
            &&& end - start <= MAX_BETTORS_PER_PAGE
            &&& s.indexed(id, 0, start as nat) + s.indexed(id, start as nat, end) == s.indexed(
                id,
                0,
                end,
            )
        }),
{
    lemma_index_joins(s, id, start as nat, s.page_end(id, start, limit));
}

proof fn lemma_index_joins(s: MarketState, id: u64, mid: nat, to: nat)
    requires
        mid <= to,
    ensures
        s.indexed(id, 0, mid) + s.indexed(id, mid, to) =~= s.indexed(id, 0, to),
    decreases to,
{
    if mid < to {
        lemma_index_joins(s, id, mid, (to - 1) as nat);
    }
}

} // verus!
