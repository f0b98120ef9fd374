//! What those who withdraw fees can rely on, said of the arguments of a call and
//! of the stored records before and after it.
use crate::address::Address;
use crate::env::{Effect, Ledger};
use crate::prediction_market::fees::{law_debits_are_exact, lemma_earned_within, lemma_same_fees};
use crate::prediction_market::keeping::lemma_taken;
use crate::prediction_market::promises::{fees_on_record, refused_as};
use crate::prediction_market::state::MarketState;
use crate::prediction_market::types::{DataKey, MarketError};
use crate::table::{find, lookup};
use vstd::prelude::*;

verus! {

/// The fees on record that belong to no market, wherever they are kept.
pub open spec fn unassigned(s: MarketState) -> int {
    match (s.legacy_fees, s.accumulated_fees) {
        (Some(n), _) => n as int,
        (None, Some(n)) => n as int,
        (None, None) => 0,
    }
}

/// The market's outcome stands: it was resolved and not cancelled.
pub open spec fn outcome_stands(s: MarketState, id: u64) -> bool {
    find(s.markets, id) matches Some(m) && m.resolved && !m.cancelled
}

/// Somebody may have fees paid to this address: it is the admin's, their own, or
/// that of a fee recipient.
pub open spec fn may_receive(s: MarketState, caller: Address, recipient: Address) -> bool {
    s.admin == Some(recipient) || recipient == caller || lookup(s.fee_recipients, recipient, false)
}

/// Where no fees of any market are on record, all fees are those that belong to no
/// market.
pub proof fn law_fees_without_markets(s: MarketState)
    requires
        s.market_fees == Map::<u64, i128>::empty(),
    ensures
        s.fees() == unassigned(s),
        s.earned() == unassigned(s),
        s.legacy() == unassigned(s),
{
    lemma_nothing_taken_in(s, s.count() as nat);
}

proof fn lemma_nothing_taken_in(s: MarketState, n: nat)
    requires
        s.market_fees == Map::<u64, i128>::empty(),
    ensures
        s.fees_upto(n) == 0,
        s.earned_upto(n) == 0,
    decreases n,
{
    if n > 0 {
        lemma_nothing_taken_in(s, (n - 1) as nat);
    }
}

/// What one market's fees add to all fees, and to those that are earned: all of
/// them to the former, and to the latter all of them where the market's outcome stands
/// and none otherwise. What belongs to no market counts in both.
pub proof fn law_fees_add_up(s: MarketState, id: u64, fee: i128)
    requires
        1 <= id <= s.market_count.unwrap_or(0),
    ensures
        ({
            let t = MarketState { market_fees: s.market_fees.insert(id, fee), ..s };
            let gain = fee - fees_on_record(s, id);
            &&& t.fees() == s.fees() + gain
            &&& t.earned() == s.earned() + (if outcome_stands(s, id) {
                gain
            } else {
                0
            })
            &&& s.fees_of(id) == fees_on_record(s, id)
            &&& s.settled(id) == outcome_stands(s, id)
        }),
{
    let t = MarketState { market_fees: s.market_fees.insert(id, fee), ..s };
    lemma_one_market_differs(s, t, id, s.count() as nat);
}

proof fn lemma_one_market_differs(s: MarketState, t: MarketState, id: u64, n: nat)
    requires
        1 <= id,
        n <= u64::MAX,
        t == (MarketState { market_fees: t.market_fees, ..s }),
        forall|i: u64| i != id ==> #[trigger] find(t.market_fees, i) == find(s.market_fees, i),
    ensures
        ({
            let gain = if id <= n {
                t.fees_of(id) - s.fees_of(id)
            } else {
                0
            };
            &&& t.fees_upto(n) == s.fees_upto(n) + gain
            &&& t.earned_upto(n) == s.earned_upto(n) + (if s.settled(id) {
                gain
            } else {
                0
            })
        }),
    decreases n,
{
    if n > 0 {
        lemma_one_market_differs(s, t, id, (n - 1) as nat);
        assert(n as u64 != id ==> find(t.market_fees, n as u64) == find(s.market_fees, n as u64));
    }
}

/// A debit takes what belongs to no market first; then from markets whose outcome
/// stands, the newest first: none loses anything while a newer one has something left.
/// In all it takes the amount. Nothing but those fees changes, and those that belong
/// to no market stay where they are kept.
pub proof fn law_debits_take_the_newest_first(
    s: MarketState,
    amount: int,
    older: u64,
    newer: u64,
)
    requires
        s.wf(),
        s.admin is Some,
        0 <= amount <= s.earned(),
        older < newer <= s.market_count.unwrap_or(0),
    ensures
        ({
            let t = s.debited(amount);
            &&& amount <= unassigned(s) ==> unassigned(t) == unassigned(s) - amount
            &&& amount > unassigned(s) ==> unassigned(t) == 0
            &&& amount <= unassigned(s) ==> t.market_fees == s.market_fees
            &&& outcome_stands(s, newer) && fees_on_record(t, older) < fees_on_record(s, older)
                ==> fees_on_record(t, newer) == 0
            &&& !outcome_stands(s, older) ==> fees_on_record(t, older) == fees_on_record(s, older)
            &&& 0 <= fees_on_record(t, older) <= fees_on_record(s, older)
            &&& t.fees() == s.fees() - amount
            &&& t.earned() == s.earned() - amount
            &&& (t.legacy_fees is Some) == (s.legacy_fees is Some)
            &&& s.legacy_fees is Some ==> t.accumulated_fees == s.accumulated_fees
            &&& t == (MarketState {
                legacy_fees: t.legacy_fees,
                accumulated_fees: t.accumulated_fees,
                market_fees: t.market_fees,
                ..s
            })
        }),
{
    let n = s.count() as nat;
    let own = if s.legacy() < amount {
        s.legacy() as int
    } else {
        amount
    };
    law_debits_are_exact(s, amount, older);
    lemma_taken(s, s.market_fees, n, amount - own);
    if s.settled(newer) {
        lemma_newest_first(s, s.market_fees, n, amount - own, older, newer);
    }
    assert(find(s.debited(amount).market_fees, older) == find(s.market_fees, older) || s.settled(
        older,
    ));
    assert(s.market_fees.dom().contains(older) ==> s.market_fees[older] >= 0);
    assert(s.debited(amount).market_fees.dom().contains(older) == s.market_fees.dom().contains(
        older,
    ));
}

proof fn lemma_newest_first(
    s: MarketState,
    fees: Map<u64, i128>,
    n: nat,
    amount: int,
    older: u64,
    newer: u64,
)
    requires
        n <= s.count(),
        0 <= amount,
        older < newer,
        newer <= n,
        forall|i: u64| #[trigger] fees.dom().contains(i) ==> fees[i] >= 0,
        s.settled(newer),
    ensures
        lookup(s.taken(fees, n, amount), older, 0) < lookup(fees, older, 0) ==> lookup(
            s.taken(fees, n, amount),
            newer,
            0,
        ) == 0,
    decreases n,
{
    if n > 0 && amount > 0 {
        let id = n as u64;
        let have = lookup(fees, id, 0);
        assert(fees.dom().contains(id) ==> fees[id] >= 0);
        let take = if s.settled(id) && have > 0 {
            if have < amount {
                have as int
            } else {
                amount
            }
        } else {
            0
        };
        let next = if s.settled(id) && have > 0 {
            fees.insert(id, (have - take) as i128)
        } else {
            fees
        };
        assert(s.taken(fees, n, amount) == s.taken(next, (n - 1) as nat, amount - take));
        lemma_taken(s, next, (n - 1) as nat, amount - take);
        let t = s.taken(fees, n, amount);
        if newer < id {
            lemma_newest_first(s, next, (n - 1) as nat, amount - take, older, newer);
        } else {
            assert(find(t, newer) == find(next, newer));
        }
    }
}

/// Moving the fees that belong to no market out of the old counter changes where
/// they are kept and nothing else.
pub proof fn law_migration_moves_the_counter(s: MarketState)
    ensures
        ({
            let t = s.migrate_fee_ledger();
            &&& t.legacy_fees is Some
            &&& t.accumulated_fees is None
            &&& unassigned(t) == unassigned(s)
            &&& t == (MarketState {
                legacy_fees: t.legacy_fees,
                accumulated_fees: t.accumulated_fees,
                ..s
            })
        }),
{
}

/// Which immediate withdrawals go through and why each of the others does not: the
/// admin alone withdraws, to an address that may receive fees, where any are earned.
pub proof fn law_which_withdrawals_go_through(
    s: MarketState,
    ledger: Ledger,
    caller: Address,
    recipient: Address,
)
    ensures
        ({
            let r = s.withdraw_fees(ledger, caller, recipient);
            let running = s.paused != Some(true);
            let ready = running && s.admin is Some;
            let allowed = ready && s.admin == Some(caller);
            let proper = allowed && may_receive(s, caller, recipient);
            &&& !running ==> refused_as(r, MarketError::ContractPaused)
            &&& running && !ready ==> refused_as(r, MarketError::NotInitialized)
            &&& ready && !allowed ==> refused_as(r, MarketError::NotAdmin)
            &&& allowed && !proper ==> refused_as(r, MarketError::InvalidFeeRecipient)
            &&& proper && s.earned() == 0 ==> refused_as(r, MarketError::NoFeesToWithdraw)
            &&& r is Ok == (proper && s.earned() != 0)
        }),
{
}

/// What an immediate withdrawal pays: a fifth of the earned fees, rounded down, or
/// all of them where that would be nothing. It is sent to the recipient, and the fees
/// on record and the earned ones are lower by it. Nothing but fees changes.
pub proof fn law_withdrawals_pay_a_fifth(
    s: MarketState,
    ledger: Ledger,
    caller: Address,
    recipient: Address,
)
    requires
        s.wf(),
        s.earned() <= i128::MAX,
    ensures
        s.withdraw_fees(ledger, caller, recipient) matches Ok(o) ==> {
            let paid = o.value as int;
            &&& 0 < paid <= s.earned()
            &&& s.earned() >= 5 ==> 5 * paid <= s.earned() < 5 * (paid + 1)
            &&& s.earned() < 5 ==> paid == s.earned()
            &&& o.effects == seq![
                Effect::RequireAuth(caller),
                Effect::Transfer {
                    asset: s.cfg->0.xlm_sac,
                    from: ledger.this,
                    to: recipient,
                    amount: o.value,
                },
            ]
            &&& o.state == s.debited(paid)
            &&& o.state.earned() == s.earned() - paid
            &&& o.state.fees() == s.fees() - paid
            &&& o.state == (MarketState {
                legacy_fees: o.state.legacy_fees,
                accumulated_fees: o.state.accumulated_fees,
                market_fees: o.state.market_fees,
                ..s
            })
            &&& o.renewed == Set::<DataKey>::empty()
            &&& !o.instance_renewed
        },
{
    if s.withdraw_fees(ledger, caller, recipient) is Ok {
        lemma_earned_within(s, s.count() as nat);
        law_debits_are_exact(s, s.immediate_amount(), 1);
    }
}

/// Which withdrawals can be requested and why each of the others cannot: the admin
/// and fee recipients ask, for an address that may receive fees, for one withdrawal at
/// a time, and for no more than a fifth of the earned fees.
pub proof fn law_which_withdrawals_can_be_requested(
    s: MarketState,
    ledger: Ledger,
    caller: Address,
    recipient: Address,
    amount: i128,
)
    requires
        s.wf(),
    ensures
        ({
            let r = s.request_withdraw_fees(ledger, caller, recipient, amount);
            let running = s.paused != Some(true);
            let ready = running && s.admin is Some;
            let allowed = ready && (s.admin == Some(caller) || lookup(
                s.fee_recipients,
                caller,
                false,
            ));
            let proper = allowed && may_receive(s, caller, recipient);
            let positive = proper && amount > 0;
            let free = positive && !s.pending_withdrawals.dom().contains(caller);
            &&& !running ==> refused_as(r, MarketError::ContractPaused)
            &&& running && !ready ==> refused_as(r, MarketError::NotInitialized)
            &&& ready && !allowed ==> refused_as(r, MarketError::NotAuthorized)
            &&& allowed && !proper ==> refused_as(r, MarketError::InvalidFeeRecipient)
            &&& proper && !positive ==> refused_as(r, MarketError::InvalidAmount)
            &&& positive && !free ==> refused_as(r, MarketError::WithdrawalRequestExists)
            &&& free && 5 * amount > s.earned() ==> refused_as(r, MarketError::WithdrawalTooLarge)
            &&& r is Ok == (free && 5 * amount <= s.earned())
        }),
{
    lemma_earned_within(s, s.count() as nat);
}

/// A request is on record under the one who made it, as it was made and with the
/// time it was made at. Nobody else's changes, nothing is paid, and nothing else
/// changes.
pub proof fn law_requests_are_recorded(
    s: MarketState,
    ledger: Ledger,
    caller: Address,
    recipient: Address,
    amount: i128,
    other: Address,
)
    requires
        other != caller,
    ensures
        s.request_withdraw_fees(ledger, caller, recipient, amount) matches Ok(o) ==> {
            let req = o.state.pending_withdrawals[caller];
            &&& o.state.pending_withdrawals.dom().contains(caller)
            &&& req.recipient == recipient
            &&& req.amount == amount
            &&& req.requested_at == ledger.timestamp
            &&& find(o.state.pending_withdrawals, other) == find(s.pending_withdrawals, other)
            &&& o.state == (MarketState {
                pending_withdrawals: o.state.pending_withdrawals,
                ..s
            })
            &&& o.effects == seq![Effect::RequireAuth(caller)]
            &&& o.renewed == set![DataKey::PendingWithdrawal(caller)]
            &&& !o.instance_renewed
        },
{
}

/// Which requests can be carried out and why each of the others cannot: by the one
/// who made it, who may still withdraw, a day later, while the fees are there.
pub proof fn law_which_requests_are_carried_out(
    s: MarketState,
    ledger: Ledger,
    caller: Address,
)
    ensures
        ({
            let r = s.execute_withdraw_fees(ledger, caller);
            let req = s.pending_withdrawals[caller];
            let running = s.paused != Some(true);
            let asked = running && s.pending_withdrawals.dom().contains(caller);
            let ready = asked && s.admin is Some;
            let allowed = ready && (s.admin == Some(caller) || lookup(
                s.fee_recipients,
                caller,
                false,
            ));
            let due = allowed && ledger.timestamp >= req.requested_at + 86_400;
            &&& !running ==> refused_as(r, MarketError::ContractPaused)
            &&& running && !asked ==> refused_as(r, MarketError::NoWithdrawalRequest)
            &&& asked && !ready ==> refused_as(r, MarketError::NotInitialized)
            &&& ready && !allowed ==> refused_as(r, MarketError::NotAuthorized)
            &&& allowed && !due ==> refused_as(r, MarketError::WithdrawalTooSoon)
            &&& due && s.earned() < req.amount ==> refused_as(r, MarketError::WithdrawalTooLarge)
            &&& r is Ok == (due && s.earned() >= req.amount)
        }),
{
}

/// Carrying out a request pays the amount asked for to the recipient named in it,
/// leaves the fees on record and the earned ones lower by it, and takes the request
/// off the record. Nobody else's request changes, and nothing but fees does.
pub proof fn law_requests_are_paid_as_asked(
    s: MarketState,
    ledger: Ledger,
    caller: Address,
    other: Address,
)
    requires
        s.wf(),
        other != caller,
    ensures
        s.execute_withdraw_fees(ledger, caller) matches Ok(o) ==> {
            let req = s.pending_withdrawals[caller];
            &&& o.value == req.amount
            &&& o.effects == seq![
                Effect::RequireAuth(caller),
                Effect::Transfer {
                    asset: s.cfg->0.xlm_sac,
                    from: ledger.this,
                    to: req.recipient,
                    amount: req.amount,
                },
            ]
            &&& find(o.state.pending_withdrawals, caller) is None
            &&& find(o.state.pending_withdrawals, other) == find(s.pending_withdrawals, other)
            &&& o.state.earned() == s.earned() - req.amount
            &&& o.state.fees() == s.fees() - req.amount
            &&& o.state.market_fees == s.debited(req.amount as int).market_fees
            &&& o.state == (MarketState {
                legacy_fees: s.debited(req.amount as int).legacy_fees,
                accumulated_fees: s.debited(req.amount as int).accumulated_fees,
                market_fees: o.state.market_fees,
                pending_withdrawals: o.state.pending_withdrawals,
                ..s
            })
            &&& o.renewed == Set::<DataKey>::empty()
            &&& !o.instance_renewed
        },
{
    if let Ok(o) = s.execute_withdraw_fees(ledger, caller) {
        let amount = s.pending_withdrawals[caller].amount as int;
        lemma_earned_within(s, s.count() as nat);
        law_debits_are_exact(s, amount, 1);
        lemma_same_fees(s.debited(amount), o.state, s.count() as nat);
    }
}

/// The admin alone withdraws somebody's request; nobody else's is touched.
pub proof fn law_requests_can_be_cancelled(
    s: MarketState,
    admin: Address,
    caller: Address,
    other: Address,
)
    requires
        other != caller,
    ensures
        ({
            let r = s.cancel_withdrawal_request(admin, caller);
            let asked = s.pending_withdrawals.dom().contains(caller);
            &&& s.admin is None ==> refused_as(r, MarketError::NotInitialized)
            &&& s.admin is Some && s.admin != Some(admin) ==> refused_as(r, MarketError::NotAdmin)
            &&& s.admin == Some(admin) && !asked ==> refused_as(
                r,
                MarketError::NoWithdrawalRequest,
            )
            &&& r is Ok == (s.admin == Some(admin) && asked)
            &&& r matches Ok(o) ==> {
                &&& find(o.state.pending_withdrawals, caller) is None
                &&& find(o.state.pending_withdrawals, other) == find(s.pending_withdrawals, other)
                &&& o.state == (MarketState {
                    pending_withdrawals: o.state.pending_withdrawals,
                    ..s
                })
                &&& o.effects == seq![Effect::RequireAuth(admin)]
                &&& o.renewed == Set::<DataKey>::empty()
                &&& !o.instance_renewed
            }
        }),
{
}

} // verus!
