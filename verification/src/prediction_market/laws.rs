//! Laws of the market as a whole.
use crate::address::Address;
use crate::env::{Effect, Ledger};
use crate::prediction_market::completeness::{complete, law_calls_keep_records_complete};
use crate::prediction_market::history::{
    in_order, is_settings, latest, law_histories_are_sound, lemma_prefix_in_order, lemma_reads,
    lemma_settings_only, sound, Call,
};
use crate::prediction_market::solvency::{
    brings, law_bets_are_backed, law_cancellation_is_backed, law_claims_are_exact,
    law_creation_owes_nothing, law_executed_withdrawals_are_exact, law_finalizing_conserves,
    law_freezing_is_backed, law_reductions_are_exact, law_refunds_are_exact,
    law_resolution_conserves, law_withdrawals_are_exact, lemma_brings_nothing, lemma_same_owed,
    owed, unclaimed,
};
use crate::prediction_market::state::{MarketState, Verdict};
use vstd::prelude::*;

verus! {

/// The requests of a call to the host: a refused call makes none.
pub open spec fn asked_by<R>(v: Verdict<R>) -> Seq<Effect> {
    match v {
        Ok(o) => o.effects,
        Err(_) => Seq::empty(),
    }
}

impl MarketState {
    /// What a call asks of the host.
    pub open spec fn asked(self, ledger: Ledger, call: Call) -> Seq<Effect> {
        match call {
            Call::Initialize { admin, cfg } => asked_by(self.initialize(admin, cfg)),
            Call::Upgrade { admin, hash } => asked_by(self.upgrade(admin, hash)),
            Call::SetConfig { governor, cfg, kinds } => asked_by(
                self.set_config(ledger, governor, cfg, kinds),
            ),
            Call::ApproveSetConfig { governor } => asked_by(
                self.approve_set_config(governor),
            ),
            Call::ExecuteSetConfig { governor } => asked_by(
                self.execute_set_config(ledger, governor),
            ),
            Call::CancelSetConfig { admin } => asked_by(self.cancel_set_config(admin)),
            Call::AddGovernor { admin, governor } => asked_by(
                self.add_governor(admin, governor),
            ),
            Call::SetGovernorThreshold { admin, threshold } => asked_by(
                self.set_governor_threshold(admin, threshold),
            ),
            Call::MigrateFeeLedger => Seq::empty(),
            Call::SetInterfaceVersion { admin, version } => asked_by(
                self.set_interface_version(admin, version),
            ),
            Call::RevokeTrust { admin, role } => asked_by(self.revoke_trust(admin, role)),
            Call::RestoreTrust { admin, role } => asked_by(self.restore_trust(admin, role)),
            Call::SetPaused { admin, paused } => asked_by(self.set_paused(admin, paused)),
            Call::AddResolver { admin, resolver } => asked_by(self.add_resolver(admin, resolver)),
            Call::RemoveResolver { admin, resolver } => asked_by(
                self.remove_resolver(admin, resolver),
            ),
            Call::AddFeeRecipient { admin, recipient } => asked_by(
                self.add_fee_recipient(admin, recipient),
            ),
            Call::RemoveFeeRecipient { admin, recipient } => asked_by(
                self.remove_fee_recipient(admin, recipient),
            ),
            Call::CreateMarket { admin, question, image_url, category, duration_secs } => asked_by(
                self.create_market(ledger, admin, question, image_url, category, duration_secs),
            ),
            Call::PlaceBet { user, id, is_yes, amount, referral_version } => asked_by(
                self.place_bet(ledger, user, id, is_yes, amount, referral_version),
            ),
            Call::CreditAnswered { .. } => Seq::empty(),
            Call::ReducePosition { user, id, amount } => asked_by(
                self.reduce_position(ledger, user, id, amount),
            ),
            Call::ResolveMarket { caller, id, outcome } => asked_by(
                self.resolve_market(ledger, caller, id, outcome),
            ),
            Call::CancelMarket { admin, id } => asked_by(self.cancel_market(admin, id)),
            Call::CancelRefund { user, id } => asked_by(self.cancel_refund(ledger, user, id)),
            Call::Claim { user, id, leaderboard_version } => asked_by(
                self.claim(ledger, user, id, leaderboard_version),
            ),
            Call::FreezeMarket { admin, id } => asked_by(self.freeze_market(ledger, admin, id)),
            Call::FinalizeZeroSide { id } => asked_by(self.finalize_zero_side(ledger, id)),
            Call::WithdrawFees { caller, recipient } => asked_by(
                self.withdraw_fees(ledger, caller, recipient),
            ),
            Call::RequestWithdrawFees { caller, recipient, amount } => asked_by(
                self.request_withdraw_fees(ledger, caller, recipient, amount),
            ),
            Call::ExecuteWithdrawFees { caller } => asked_by(
                self.execute_withdraw_fees(ledger, caller),
            ),
            Call::CancelWithdrawalRequest { admin, caller } => asked_by(
                self.cancel_withdrawal_request(admin, caller),
            ),
        }
    }

    /// Whoever the call moves the asset from or to is not the market contract
    /// itself.
    pub open spec fn between_outsiders(self, this: Address, call: Call) -> bool {
        match call {
            Call::PlaceBet { user, .. } => user != this && self.cfg->0.referral != this,
            Call::ReducePosition { user, .. } => user != this,
            Call::CancelRefund { user, .. } => user != this,
            Call::Claim { user, .. } => user != this,
            Call::WithdrawFees { recipient, .. } => recipient != this,
            Call::ExecuteWithdrawFees { caller } => self.pending_withdrawals.dom().contains(caller)
                ==> self.pending_withdrawals[caller].recipient != this,
            _ => true,
        }
    }
}

proof fn lemma_settings_ask_for_nothing(s: MarketState, ledger: Ledger, call: Call, asset: Address)
    requires
        is_settings(call),
    ensures
        brings(s.asked(ledger, call), asset, ledger.this) == 0,
{
    lemma_brings_nothing(s.asked(ledger, call), asset, ledger.this);
}

/// Whatever is called, what the market owes grows by no more than what comes
/// in, and shrinks by no less than what goes out.
pub proof fn law_every_call_is_backed(
    s: MarketState,
    now: u64,
    ledger: Ledger,
    call: Call,
)
    requires
        sound(s, now),
        now <= ledger.timestamp,
        s.fits(ledger, call),
        s.between_outsiders(ledger.this, call),
    ensures
        owed(s.after(ledger, call)) - owed(s) <= brings(
            s.asked(ledger, call),
            s.cfg->0.xlm_sac,
            ledger.this,
        ),
{
    reveal(sound);
    let t = s.after(ledger, call);
    let asset = s.cfg->0.xlm_sac;
    let this = ledger.this;
    match call {
        Call::CreateMarket { admin, question, image_url, category, duration_secs } => {
            law_creation_owes_nothing(
                s,
                ledger,
                admin,
                question,
                image_url,
                category,
                duration_secs,
            );
            lemma_brings_nothing(s.asked(ledger, call), asset, this);
        },
        Call::PlaceBet { user, id, is_yes, amount, referral_version } => {
            if s.place_bet(ledger, user, id, is_yes, amount, referral_version) is Ok {
                law_bets_are_backed(s, ledger, user, id, is_yes, amount, referral_version);
            }
        },
        Call::ResolveMarket { caller, id, outcome } => {
            if s.resolve_refusal(ledger, caller, id) is None {
                law_resolution_conserves(s, ledger, caller, id, outcome);
            }
        },
        Call::ReducePosition { user, id, amount } => {
            law_reductions_are_exact(s, ledger, user, id, amount);
        },
        Call::CancelMarket { admin, id } => {
            law_cancellation_is_backed(s, ledger, admin, id);
        },
        Call::CancelRefund { user, id } => {
            law_refunds_are_exact(s, ledger, user, id);
        },
        Call::Claim { user, id, leaderboard_version } => {
            law_claims_are_exact(s, ledger, user, id, leaderboard_version);
        },
        Call::FreezeMarket { admin, id } => {
            if s.freeze_refusal(ledger, admin, id) is None {
                assert(unclaimed(s, id)) by {
                    assert forall|user: Address| #[trigger]
                        s.bets.dom().contains((id, user)) implies !s.bets[(id, user)].claimed by {}
                }
                law_freezing_is_backed(s, ledger, admin, id);
            }
            lemma_brings_nothing(s.asked(ledger, call), asset, this);
        },
        Call::FinalizeZeroSide { id } => {
            law_finalizing_conserves(s, ledger, id);
            lemma_brings_nothing(s.asked(ledger, call), asset, this);
        },
        Call::WithdrawFees { caller, recipient } => {
            law_withdrawals_are_exact(s, ledger, caller, recipient);
        },
        Call::ExecuteWithdrawFees { caller } => {
            law_executed_withdrawals_are_exact(s, ledger, caller);
        },
        Call::RequestWithdrawFees { .. } => {
            lemma_same_owed(s, t);
            lemma_brings_nothing(s.asked(ledger, call), asset, this);
        },
        Call::CancelWithdrawalRequest { .. } => {
            lemma_same_owed(s, t);
            lemma_brings_nothing(s.asked(ledger, call), asset, this);
        },
        _ => {
            lemma_reads(s, now);
            lemma_settings_only(s, ledger, call);
            lemma_same_owed(s, t);
            lemma_settings_ask_for_nothing(s, ledger, call, asset);
        },
    }
}

/// What a history of calls brings in for the market contract.
pub open spec fn taken_in(calls: Seq<(Ledger, Call)>, asset: Address, this: Address) -> int
    decreases calls.len(),
{
    if calls.len() == 0 {
        0
    } else {
        taken_in(calls.drop_last(), asset, this) + brings(
            MarketState::blank().after_all(calls.drop_last()).asked(calls.last().0, calls.last().1),
            asset,
            this,
        )
    }
}

/// The calls were made to one contract, which always used one asset and moved
/// it between others only.
pub open spec fn on_one_asset(calls: Seq<(Ledger, Call)>, asset: Address, this: Address) -> bool
    decreases calls.len(),
{
    calls.len() == 0 || {
        let s = MarketState::blank().after_all(calls.drop_last());
        &&& on_one_asset(calls.drop_last(), asset, this)
        &&& calls.last().0.this == this
        &&& s.cfg is Some ==> s.cfg->0.xlm_sac == asset
        &&& s.between_outsiders(this, calls.last().1)
    }
}

/// Before it is set up, a market moves nothing.
proof fn lemma_unset_markets_move_nothing(
    s: MarketState,
    now: u64,
    ledger: Ledger,
    call: Call,
    asset: Address,
)
    requires
        sound(s, now),
        s.admin is None,
    ensures
        brings(s.asked(ledger, call), asset, ledger.this) == 0,
{
    reveal(sound);
    let asked = s.asked(ledger, call);
    match call {
        Call::PlaceBet { id, .. } => {
            assert(!s.markets.dom().contains(id));
        },
        Call::ReducePosition { id, .. } => {
            assert(!s.markets.dom().contains(id));
        },
        Call::CancelRefund { id, .. } => {
            assert(!s.markets.dom().contains(id));
        },
        Call::Claim { id, .. } => {
            assert(!s.markets.dom().contains(id));
        },
        _ => {},
    }
    lemma_brings_nothing(asked, asset, ledger.this);
}

/// Whatever was called since deployment, the market contract holds at least
/// what it owes: the pools of open markets, unclaimed payouts, refunds not
/// yet collected, and the fees.
pub proof fn law_market_is_solvent(calls: Seq<(Ledger, Call)>, asset: Address, this: Address)
    requires
        in_order(calls),
        MarketState::blank().fits_all(calls),
        on_one_asset(calls, asset, this),
    ensures
        owed(MarketState::blank().after_all(calls)) <= taken_in(calls, asset, this),
    decreases calls.len(),
{
    let start = MarketState::blank();
    if calls.len() == 0 {
        assert(crate::prediction_market::solvency::owed_upto(start, 0) == 0);
        assert(start.fees_upto(0) == 0);
    } else {
        let before = calls.drop_last();
        lemma_prefix_in_order(calls);
        law_histories_are_sound(before);
        law_market_is_solvent(before, asset, this);
        let s = start.after_all(before);
        let ledger = calls.last().0;
        let call = calls.last().1;
        law_every_call_is_backed(s, latest(before), ledger, call);
        if s.cfg is None {
            lemma_reads(s, latest(before));
            lemma_unset_markets_move_nothing(s, latest(before), ledger, call, asset);
            lemma_unset_markets_move_nothing(
                s,
                latest(before),
                ledger,
                call,
                s.cfg->0.xlm_sac,
            );
        }
    }
}

/// Whatever was called since deployment, the records of open markets are
/// complete.
pub proof fn law_histories_keep_records_complete(calls: Seq<(Ledger, Call)>)
    requires
        in_order(calls),
        MarketState::blank().fits_all(calls),
    ensures
        complete(MarketState::blank().after_all(calls)),
    decreases calls.len(),
{
    if calls.len() > 0 {
        let before = calls.drop_last();
        lemma_prefix_in_order(calls);
        law_histories_are_sound(before);
        law_histories_keep_records_complete(before);
        reveal(sound);
        law_calls_keep_records_complete(
            MarketState::blank().after_all(before),
            calls.last().0,
            calls.last().1,
        );
    }
}

} // verus!
