//! Any sequence of calls to the market: what it keeps.
use crate::address::{Address, WasmHash};
use crate::env::Ledger;
use crate::prediction_market::keeping::{
    lemma_bet_keeps, lemma_closing_keeps, lemma_creation_keeps, lemma_debit_keeps, lemma_fees_keep,
    lemma_position_keeps, lemma_reduction_keeps, lemma_requests_keep, lemma_resolution_keeps,
    lemma_unpaid,
};
use crate::prediction_market::governance::{
    lemma_approvals_are_counted, lemma_proposals_are_staged,
};
use crate::prediction_market::fees::{law_debits_are_exact, lemma_earned_within, lemma_fees_grow};
use crate::prediction_market::settling::{lemma_settlement_payouts, lemma_settlement_within_pool};
use crate::prediction_market::solvency::{
    books_agree, lemma_other_markets_owe_the_same, lemma_other_payouts_owe_the_same,
    lemma_reductions_stay_in_their_market, lemma_refunds_split, lemma_settled_claims, owed_by,
    refund_share, unclaimed,
};
use crate::prediction_market::state::{side_share, staged_by_governors, MarketState, Verdict};
use crate::prediction_market::types::{
    BetEntry, Category, Config, Executables, MAX_MARKETS_PER_HOUR, MAX_OPEN_MARKETS,
};
use crate::sums::{lemma_sum_insert, sum};
use crate::table::find;
use vstd::prelude::*;

verus! {

/// A call that may change the market, with its arguments.
pub enum Call {
    Initialize { admin: Address, cfg: Config },
    Upgrade { admin: Address, hash: WasmHash },
    SetConfig { governor: Address, cfg: Config, kinds: Executables },
    ApproveSetConfig { governor: Address },
    ExecuteSetConfig { governor: Address },
    CancelSetConfig { admin: Address },
    AddGovernor { admin: Address, governor: Address },
    SetGovernorThreshold { admin: Address, threshold: u32 },
    MigrateFeeLedger,
    SetInterfaceVersion { admin: Address, version: u32 },
    RevokeTrust { admin: Address, role: Seq<char> },
    RestoreTrust { admin: Address, role: Seq<char> },
    SetPaused { admin: Address, paused: bool },
    AddResolver { admin: Address, resolver: Address },
    RemoveResolver { admin: Address, resolver: Address },
    AddFeeRecipient { admin: Address, recipient: Address },
    RemoveFeeRecipient { admin: Address, recipient: Address },
    CreateMarket {
        admin: Address,
        question: String,
        image_url: String,
        category: Category,
        duration_secs: u64,
    },
    PlaceBet {
        user: Address,
        id: u64,
        is_yes: bool,
        amount: i128,
        referral_version: Option<u32>,
    },
    CreditAnswered { user: Address, credited: bool },
    ReducePosition { user: Address, id: u64, amount: i128 },
    ResolveMarket { caller: Address, id: u64, outcome: bool },
    CancelMarket { admin: Address, id: u64 },
    CancelRefund { user: Address, id: u64 },
    Claim { user: Address, id: u64, leaderboard_version: Option<u32> },
    FreezeMarket { admin: Address, id: u64 },
    FinalizeZeroSide { id: u64 },
    WithdrawFees { caller: Address, recipient: Address },
    RequestWithdrawFees { caller: Address, recipient: Address, amount: i128 },
    ExecuteWithdrawFees { caller: Address },
    CancelWithdrawalRequest { admin: Address, caller: Address },
}

/// The state a call leaves: a refused call changes nothing.
pub open spec fn left_by<R>(s: MarketState, v: Verdict<R>) -> MarketState {
    match v {
        Ok(o) => o.state,
        Err(_) => s,
    }
}

impl MarketState {
    /// The state after a call.
    pub open spec fn after(self, ledger: Ledger, call: Call) -> MarketState {
        match call {
            Call::Initialize { admin, cfg } => left_by(self, self.initialize(admin, cfg)),
            Call::Upgrade { admin, hash } => left_by(self, self.upgrade(admin, hash)),
            Call::SetConfig { governor, cfg, kinds } => left_by(
                self, self.set_config(ledger, governor, cfg, kinds),
            ),
            Call::ApproveSetConfig { governor } => left_by(
                self, self.approve_set_config(governor),
            ),
            Call::ExecuteSetConfig { governor } => left_by(
                self, self.execute_set_config(ledger, governor),
            ),
            Call::CancelSetConfig { admin } => left_by(self, self.cancel_set_config(admin)),
            Call::AddGovernor { admin, governor } => left_by(
                self, self.add_governor(admin, governor),
            ),
            Call::SetGovernorThreshold { admin, threshold } => left_by(
                self, self.set_governor_threshold(admin, threshold),
            ),
            Call::MigrateFeeLedger => self.migrate_fee_ledger(),
            Call::SetInterfaceVersion { admin, version } => left_by(
                self,
                self.set_interface_version(admin, version),
            ),
            Call::RevokeTrust { admin, role } => left_by(self, self.revoke_trust(admin, role)),
            Call::RestoreTrust { admin, role } => left_by(self, self.restore_trust(admin, role)),
            Call::SetPaused { admin, paused } => left_by(self, self.set_paused(admin, paused)),
            Call::AddResolver { admin, resolver } => left_by(
                self,
                self.add_resolver(admin, resolver),
            ),
            Call::RemoveResolver { admin, resolver } => left_by(
                self,
                self.remove_resolver(admin, resolver),
            ),
            Call::AddFeeRecipient { admin, recipient } => left_by(
                self,
                self.add_fee_recipient(admin, recipient),
            ),
            Call::RemoveFeeRecipient { admin, recipient } => left_by(
                self,
                self.remove_fee_recipient(admin, recipient),
            ),
            Call::CreateMarket { admin, question, image_url, category, duration_secs } => left_by(
                self,
                self.create_market(ledger, admin, question, image_url, category, duration_secs),
            ),
            Call::PlaceBet { user, id, is_yes, amount, referral_version } => left_by(
                self,
                self.place_bet(ledger, user, id, is_yes, amount, referral_version),
            ),
            Call::CreditAnswered { user, credited } => self.credit_answered(user, credited),
            Call::ReducePosition { user, id, amount } => left_by(
                self,
                self.reduce_position(ledger, user, id, amount),
            ),
            Call::ResolveMarket { caller, id, outcome } => left_by(
                self,
                self.resolve_market(ledger, caller, id, outcome),
            ),
            Call::CancelMarket { admin, id } => left_by(self, self.cancel_market(admin, id)),
            Call::CancelRefund { user, id } => left_by(
                self,
                self.cancel_refund(ledger, user, id),
            ),
            Call::Claim { user, id, leaderboard_version } => left_by(
                self,
                self.claim(ledger, user, id, leaderboard_version),
            ),
            Call::FreezeMarket { admin, id } => left_by(
                self,
                self.freeze_market(ledger, admin, id),
            ),
            Call::FinalizeZeroSide { id } => left_by(self, self.finalize_zero_side(ledger, id)),
            Call::WithdrawFees { caller, recipient } => left_by(
                self,
                self.withdraw_fees(ledger, caller, recipient),
            ),
            Call::RequestWithdrawFees { caller, recipient, amount } => left_by(
                self,
                self.request_withdraw_fees(ledger, caller, recipient, amount),
            ),
            Call::ExecuteWithdrawFees { caller } => left_by(
                self,
                self.execute_withdraw_fees(ledger, caller),
            ),
            Call::CancelWithdrawalRequest { admin, caller } => left_by(
                self,
                self.cancel_withdrawal_request(admin, caller),
            ),
        }
    }

    /// The machine's numbers can take the call.
    pub open spec fn fits(self, ledger: Ledger, call: Call) -> bool {
        match call {
            Call::CreateMarket { duration_secs, .. } => self.count() < u64::MAX
                && ledger.timestamp + duration_secs <= u64::MAX,
            Call::PlaceBet { user, id, is_yes, amount, .. } => self.markets.dom().contains(id)
                ==> self.can_bet(user, id, is_yes, amount),
            Call::ReducePosition { user, id, amount } => self.reduce_refusal(
                ledger,
                user,
                id,
                amount,
            ) is None ==> self.can_reduce(user, id, amount),
            Call::ResolveMarket { id, outcome, .. } => self.markets.dom().contains(id)
                ==> self.can_resolve(ledger, id, outcome),
            Call::FinalizeZeroSide { id } => self.forfeited.dom().contains(id) ==> self.fees_of(id)
                + self.forfeited[id].locked_fees <= i128::MAX,
            Call::WithdrawFees { .. } => self.earned() <= i128::MAX,
            _ => true,
        }
    }

    /// The states that calls can lead to, one call for each ledger.
    pub open spec fn after_all(self, calls: Seq<(Ledger, Call)>) -> MarketState
        decreases calls.len(),
    {
        if calls.len() == 0 {
            self
        } else {
            self.after_all(calls.drop_last()).after(calls.last().0, calls.last().1)
        }
    }

    /// The machine's numbers can take every one of the calls.
    pub open spec fn fits_all(self, calls: Seq<(Ledger, Call)>) -> bool
        decreases calls.len(),
    {
        calls.len() == 0 || (self.fits_all(calls.drop_last()) && self.after_all(
            calls.drop_last(),
        ).fits(calls.last().0, calls.last().1))
    }
}

/// Nobody who may resolve markets has a stake in an open one.
pub open spec fn resolvers_impartial(s: MarketState) -> bool {
    forall|who: Address| #[trigger] s.is_resolver(who) ==> !s.holds_open_stake(who)
}

/// The open markets.
pub open spec fn open_ids(s: MarketState) -> Set<u64> {
    s.markets.dom().filter(|id: u64| s.markets[id].open())
}

/// The count of open markets is right, and so are its limit and that of the
/// rate at which markets are created.
pub open spec fn counters_agree(s: MarketState) -> bool {
    &&& s.markets.dom().finite()
    &&& s.open_count() == open_ids(s).len()
    &&& s.open_count() <= MAX_OPEN_MARKETS
    &&& s.rate_window matches Some(w) ==> w.count <= MAX_MARKETS_PER_HOUR
}

/// Where fees are held back, claims were made only after the window for
/// disputes closed.
pub open spec fn claims_in_time(s: MarketState, now: u64) -> bool {
    forall|k: (u64, Address)| #[trigger]
        s.bets.dom().contains(k) && s.bets[k].claimed && s.forfeited.dom().contains(k.0)
            && !s.forfeited[k.0].frozen ==> s.forfeited[k.0].disputable_until <= now
}

/// What holds in every state that calls made up to `now` lead to.
#[verifier::opaque]
pub open spec fn sound(s: MarketState, now: u64) -> bool {
    &&& s.wf()
    &&& books_agree(s)
    &&& resolvers_impartial(s)
    &&& counters_agree(s)
    &&& claims_in_time(s, now)
}

/// Changing settings keeps the invariant.
pub proof fn lemma_settings_keep(s: MarketState, t: MarketState)
    requires
        s.wf(),
        t == (MarketState {
            admin: t.admin,
            cfg: t.cfg,
            market_count: t.market_count,
            accumulated_fees: t.accumulated_fees,
            legacy_fees: t.legacy_fees,
            interface_version: t.interface_version,
            paused: t.paused,
            resolvers: t.resolvers,
            fee_recipients: t.fee_recipients,
            has_referrer: t.has_referrer,
            trust_revoked: t.trust_revoked,
            pending_config: t.pending_config,
            governors: t.governors,
            governor_threshold: t.governor_threshold,
            pinned_hashes: t.pinned_hashes,
            ..s
        }),
        (t.admin is None) == (t.cfg is None),
        t.admin is None ==> s.admin is None,
        t.count() == s.count(),
        t.legacy() == s.legacy(),
        staged_by_governors(t.admin, t.governors, t.pending_config),
    ensures
        t.wf(),
{
    assert forall|i: u64, yes: bool| #[trigger]
        t.markets.dom().contains(i) implies sum(
        t.bets,
        #[trigger] side_share(i, yes),
    ) <= t.markets[i].side(yes) by {
        assert(s.markets.dom().contains(i));
    }
    assert forall|x: (u64, u32)| #[trigger] t.bettor_at.dom().contains(x) implies 1 <= x.0
        <= t.count() && x.1 < t.bettors(x.0) by {
        assert(s.bettor_at.dom().contains(x));
    }
}

/// Records that the books speak of.
pub open spec fn same_books(s: MarketState, t: MarketState) -> bool {
    &&& t.markets == s.markets
    &&& t.bets == s.bets
    &&& t.payouts == s.payouts
    &&& t.market_fees == s.market_fees
    &&& t.forfeited == s.forfeited
}

proof fn lemma_same_books(s: MarketState, t: MarketState, now: u64, later: u64)
    requires
        sound(s, now),
        now <= later,
        same_books(s, t),
        t.open_markets == s.open_markets,
        t.rate_window == s.rate_window,
    ensures
        books_agree(t),
        counters_agree(t),
        claims_in_time(t, later),
{
    reveal(sound);
    assert forall|id: u64| #[trigger] t.forfeited.dom().contains(id) && !t.forfeited[id].frozen
        && unclaimed(t, id) implies sum(t.bets, refund_share(id))
        <= owed_by(t, id) by {
        assert(s.forfeited.dom().contains(id));
        assert(unclaimed(s, id)) by {
            assert forall|user: Address| #[trigger] s.bets.dom().contains((id, user)) implies !s.bets[(
                id,
                user,
            )].claimed by {
                assert(t.bets.dom().contains((id, user)));
            }
        }
        assert(owed_by(t, id) == owed_by(s, id));
    }
    assert(open_ids(t) =~= open_ids(s));
}

proof fn lemma_settings_sound(s: MarketState, t: MarketState, now: u64, later: u64)
    requires
        sound(s, now),
        now <= later,
        t == (MarketState {
            admin: t.admin,
            cfg: t.cfg,
            market_count: t.market_count,
            accumulated_fees: t.accumulated_fees,
            legacy_fees: t.legacy_fees,
            interface_version: t.interface_version,
            paused: t.paused,
            resolvers: t.resolvers,
            fee_recipients: t.fee_recipients,
            has_referrer: t.has_referrer,
            trust_revoked: t.trust_revoked,
            pending_config: t.pending_config,
            governors: t.governors,
            governor_threshold: t.governor_threshold,
            pinned_hashes: t.pinned_hashes,
            ..s
        }),
        (t.admin is None) == (t.cfg is None),
        t.admin is None ==> s.admin is None,
        t.count() == s.count(),
        t.legacy() == s.legacy(),
        staged_by_governors(t.admin, t.governors, t.pending_config),
        forall|who: Address| #[trigger] t.is_resolver(who) ==> !s.holds_open_stake(who),
    ensures
        sound(t, later),
{
    lemma_same_books(s, t, now, later);
    reveal(sound);
    lemma_settings_keep(s, t);
    lemma_same_stakes(s, t);
}

/// Who holds a stake depends on the markets and the positions alone.
proof fn lemma_same_stakes(s: MarketState, t: MarketState)
    requires
        t.markets == s.markets,
        t.bets == s.bets,
    ensures
        forall|who: Address| #[trigger] t.holds_open_stake(who) == s.holds_open_stake(who),
{
    assert forall|who: Address| #[trigger] t.holds_open_stake(who) == s.holds_open_stake(
        who,
    ) by {
        if t.holds_open_stake(who) {
            let id = choose|id: u64| #[trigger]
                t.markets.dom().contains(id) && t.markets[id].open() && t.holds_stake(id, who);
            assert(s.markets.dom().contains(id) && s.markets[id].open() && s.holds_stake(id, who));
        }
        if s.holds_open_stake(who) {
            let id = choose|id: u64| #[trigger]
                s.markets.dom().contains(id) && s.markets[id].open() && s.holds_stake(id, who);
            assert(t.markets.dom().contains(id) && t.markets[id].open() && t.holds_stake(id, who));
        }
    }
}

/// A stake in an open market that was there before is still there to find.
proof fn lemma_stakes_were_there(s: MarketState, t: MarketState, who: Address)
    requires
        forall|id: u64| #[trigger]
            t.markets.dom().contains(id) && t.markets[id].open() && t.holds_stake(id, who)
                ==> s.markets.dom().contains(id) && s.markets[id].open() && s.holds_stake(id, who),
    ensures
        t.holds_open_stake(who) ==> s.holds_open_stake(who),
{
    if t.holds_open_stake(who) {
        let id = choose|id: u64| #[trigger]
            t.markets.dom().contains(id) && t.markets[id].open() && t.holds_stake(id, who);
        assert(s.markets.dom().contains(id) && s.markets[id].open() && s.holds_stake(id, who));
    }
}

proof fn lemma_requests_sound(s: MarketState, t: MarketState, now: u64, later: u64)
    requires
        sound(s, now),
        now <= later,
        t == (MarketState { pending_withdrawals: t.pending_withdrawals, ..s }),
        forall|who: Address| #[trigger]
            t.pending_withdrawals.dom().contains(who) ==> t.pending_withdrawals[who].amount > 0,
    ensures
        sound(t, later),
{
    lemma_same_books(s, t, now, later);
    reveal(sound);
    lemma_requests_keep(s, t);
    lemma_same_stakes(s, t);
    assert forall|who: Address| #[trigger] t.is_resolver(who) implies !t.holds_open_stake(
        who,
    ) by {
        assert(s.is_resolver(who));
    }
}

proof fn lemma_creation_sound(
    s: MarketState,
    now: u64,
    ledger: Ledger,
    admin: Address,
    question: String,
    image_url: String,
    category: Category,
    duration_secs: u64,
)
    requires
        sound(s, now),
        now <= ledger.timestamp,
        s.count() < u64::MAX,
        s.creation_refusal(ledger, admin, duration_secs) is None,
    ensures
        sound(
            s.create_market(ledger, admin, question, image_url, category, duration_secs)->Ok_0.state,
            ledger.timestamp,
        ),
{
    reveal(sound);
    let t = s.create_market(
        ledger,
        admin,
        question,
        image_url,
        category,
        duration_secs,
    )->Ok_0.state;
    let id = t.count();
    lemma_creation_keeps(s, t.markets[id], t);
    assert(!s.markets.dom().contains(id));
    assert(books_agree(t)) by {
        assert(t.fees_of(id) == 0) by {
            assert(s.market_fees.dom().contains(id) ==> s.market_fees[id] >= 0);
        }
        assert forall|i: u64| #[trigger]
            t.forfeited.dom().contains(i) && !t.forfeited[i].frozen && unclaimed(t, i) implies sum(
            t.bets,
            refund_share(i),
        ) <= owed_by(t, i) by {
            assert(s.forfeited.dom().contains(i));
            assert(i != id);
            assert(unclaimed(s, i)) by {
                assert forall|user: Address| #[trigger]
                    s.bets.dom().contains((i, user)) implies !s.bets[(i, user)].claimed by {
                    assert(t.bets.dom().contains((i, user)));
                }
            }
            assert(owed_by(t, i) == owed_by(s, i));
        }
    }
    assert(open_ids(t) =~= open_ids(s).insert(id));
    assert forall|who: Address| #[trigger] t.is_resolver(who) implies !t.holds_open_stake(
        who,
    ) by {
        assert(s.is_resolver(who));
        assert forall|i: u64| #[trigger]
            t.markets.dom().contains(i) && t.markets[i].open() && t.holds_stake(
                i,
                who,
            ) implies s.markets.dom().contains(i) && s.markets[i].open() && s.holds_stake(
            i,
            who,
        ) by {
            assert(s.bets.dom().contains((i, who)));
        }
        lemma_stakes_were_there(s, t, who);
    }
}

/// Records of other markets, where one position of a market changes.
proof fn lemma_others_covered(
    s: MarketState,
    t: MarketState,
    k: (u64, Address),
    e: BetEntry,
    i: u64,
)
    requires
        s.wf(),
        books_agree(s),
        i != k.0,
        t.bets == s.bets.insert(k, e),
        find(t.markets, i) == find(s.markets, i),
        find(t.forfeited, i) == find(s.forfeited, i),
        t.payouts == s.payouts,
        t.forfeited.dom().contains(i),
        t.markets.dom().contains(i),
        !t.forfeited[i].frozen,
        unclaimed(t, i),
    ensures
        sum(t.bets, refund_share(i)) <= owed_by(t, i),
{
    assert(s.forfeited.dom().contains(i));
    assert(s.markets.dom().contains(i));
    assert(unclaimed(s, i)) by {
        assert forall|user: Address| #[trigger] s.bets.dom().contains((i, user)) implies !s.bets[(
            i,
            user,
        )].claimed by {
            assert(t.bets.dom().contains((i, user)));
        }
    }
    lemma_other_markets_owe_the_same(s, t, k, e, i);
    lemma_sum_insert(s.bets, refund_share(i), k, e);
}

proof fn lemma_bet_sound(
    s: MarketState,
    now: u64,
    ledger: Ledger,
    user: Address,
    id: u64,
    is_yes: bool,
    amount: i128,
)
    requires
        sound(s, now),
        now <= ledger.timestamp,
        s.bet_refusal(ledger, user, id, amount) is None,
        s.can_bet(user, id, is_yes, amount),
    ensures
        sound(s.with_bet(user, id, is_yes, amount), ledger.timestamp),
{
    reveal(sound);
    let t = s.with_bet(user, id, is_yes, amount);
    let k = (id, user);
    let e = s.raised(user, id, is_yes, amount);
    lemma_bet_keeps(s, user, id, is_yes, amount);
    assert(!s.forfeited.dom().contains(id));
    assert(books_agree(t)) by {
        assert(!e.claimed);
        assert forall|i: u64| #[trigger]
            t.markets.dom().contains(i) && t.markets[i].cancelled implies t.fees_of(i) == 0 by {
            assert(s.markets.dom().contains(i));
        }
        assert forall|i: u64| #[trigger]
            t.forfeited.dom().contains(i) implies t.markets.dom().contains(i)
            && t.markets[i].resolved && t.fees_of(i) == 0 && t.markets[i].cancelled
            == t.forfeited[i].frozen by {
            assert(s.forfeited.dom().contains(i));
            assert(s.markets.dom().contains(i));
        }
        assert forall|i: u64| #[trigger]
            t.forfeited.dom().contains(i) && !t.forfeited[i].frozen && unclaimed(t, i) implies sum(
            t.bets,
            refund_share(i),
        ) <= owed_by(t, i) by {
            lemma_others_covered(s, t, k, e, i);
        }
        assert forall|x: (u64, Address)| #[trigger]
            t.bets.dom().contains(x) && t.markets.dom().contains(x.0)
                && t.markets[x.0].open() implies !t.bets[x].claimed by {
            if x != k {
                assert(s.bets.dom().contains(x));
                assert(s.markets.dom().contains(x.0));
            }
        }
    }
    assert(claims_in_time(t, ledger.timestamp)) by {
        assert forall|x: (u64, Address)| #[trigger]
            t.bets.dom().contains(x) && t.bets[x].claimed && t.forfeited.dom().contains(x.0)
                && !t.forfeited[x.0].frozen implies t.forfeited[x.0].disputable_until
            <= ledger.timestamp by {
            assert(s.bets.dom().contains(x));
        }
    }
    assert(open_ids(t) =~= open_ids(s));
    assert(t.markets.dom() =~= s.markets.dom());
    assert forall|who: Address| #[trigger] t.is_resolver(who) implies !t.holds_open_stake(
        who,
    ) by {
        assert(s.is_resolver(who));
        lemma_stakes_were_there(s, t, who);
    }
}

proof fn lemma_reduction_sound(
    s: MarketState,
    now: u64,
    ledger: Ledger,
    user: Address,
    id: u64,
    amount: i128,
)
    requires
        sound(s, now),
        now <= ledger.timestamp,
        s.reduce_refusal(ledger, user, id, amount) is None,
    ensures
        sound(s.with_less(user, id, amount), ledger.timestamp),
{
    reveal(sound);
    let t = s.with_less(user, id, amount);
    let k = (id, user);
    lemma_reduction_keeps(s, user, id, amount);
    assert(!s.forfeited.dom().contains(id));
    assert(books_agree(t)) by {
        assert forall|i: u64| #[trigger]
            t.markets.dom().contains(i) && t.markets[i].cancelled implies t.fees_of(i) == 0 by {
            assert(s.markets.dom().contains(i));
        }
        assert forall|i: u64| #[trigger]
            t.forfeited.dom().contains(i) implies t.markets.dom().contains(i)
            && t.markets[i].resolved && t.fees_of(i) == 0 && t.markets[i].cancelled
            == t.forfeited[i].frozen by {
            assert(s.forfeited.dom().contains(i));
            assert(s.markets.dom().contains(i));
        }
        assert forall|i: u64| #[trigger]
            t.forfeited.dom().contains(i) && !t.forfeited[i].frozen && unclaimed(t, i) implies sum(
            t.bets,
            refund_share(i),
        ) <= owed_by(t, i) by {
            assert(s.forfeited.dom().contains(i));
            assert(unclaimed(s, i)) by {
                assert forall|who: Address| #[trigger] s.bets.dom().contains((i, who)) implies !s.bets[(
                    i,
                    who,
                )].claimed by {
                    assert(t.bets.dom().contains((i, who)));
                }
            }
            lemma_reductions_stay_in_their_market(s, user, id, amount, i);
        }
        assert forall|x: (u64, Address)| #[trigger]
            t.bets.dom().contains(x) && t.markets.dom().contains(x.0)
                && t.markets[x.0].open() implies !t.bets[x].claimed by {
            assert(s.bets.dom().contains(x));
            assert(s.markets.dom().contains(x.0));
        }
        assert forall|x: (u64, Address)| #[trigger]
            t.payouts.dom().contains(x) && t.markets.dom().contains(
                x.0,
            ) implies !t.markets[x.0].open() by {
            assert(s.payouts.dom().contains(x));
            assert(s.markets.dom().contains(x.0));
        }
    }
    assert(claims_in_time(t, ledger.timestamp)) by {
        assert forall|x: (u64, Address)| #[trigger]
            t.bets.dom().contains(x) && t.bets[x].claimed && t.forfeited.dom().contains(x.0)
                && !t.forfeited[x.0].frozen implies t.forfeited[x.0].disputable_until
            <= ledger.timestamp by {
            assert(s.bets.dom().contains(x));
        }
    }
    assert(open_ids(t) =~= open_ids(s));
    assert(t.markets.dom() =~= s.markets.dom());
    assert forall|who: Address| #[trigger] t.is_resolver(who) implies !t.holds_open_stake(
        who,
    ) by {
        assert(s.is_resolver(who));
        lemma_stakes_were_there(s, t, who);
    }
}

/// One market stops being open.
proof fn lemma_one_less_open(s: MarketState, t: MarketState, id: u64)
    requires
        counters_agree(s),
        s.markets.dom().contains(id),
        s.markets[id].open(),
        t.markets == s.markets.insert(id, t.markets[id]),
        !t.markets[id].open(),
        t.open_markets == s.one_less_open(),
        t.rate_window == s.rate_window,
    ensures
        counters_agree(t),
{
    assert(open_ids(s).contains(id));
    assert(open_ids(t) =~= open_ids(s).remove(id));
    assert(t.markets.dom() =~= s.markets.dom());
}

proof fn lemma_closing_stakes(s: MarketState, t: MarketState, id: u64)
    requires
        resolvers_impartial(s),
        t.resolvers == s.resolvers,
        t.bets == s.bets,
        s.markets.dom().contains(id),
        t.markets == s.markets.insert(id, t.markets[id]),
        !t.markets[id].open(),
    ensures
        resolvers_impartial(t),
{
    assert forall|who: Address| #[trigger] t.is_resolver(who) implies !t.holds_open_stake(
        who,
    ) by {
        assert(s.is_resolver(who));
        lemma_stakes_were_there(s, t, who);
    }
}

proof fn lemma_cancel_sound(s: MarketState, now: u64, ledger: Ledger, admin: Address, id: u64)
    requires
        sound(s, now),
        now <= ledger.timestamp,
        s.cancel_refusal(admin, id) is None,
    ensures
        sound(s.cancel_market(admin, id)->Ok_0.state, ledger.timestamp),
{
    reveal(sound);
    let t = s.cancel_market(admin, id)->Ok_0.state;
    lemma_closing_keeps(s, id, t.markets[id], t);
    lemma_one_less_open(s, t, id);
    lemma_closing_stakes(s, t, id);
    assert(books_agree(t)) by {
        assert(!s.forfeited.dom().contains(id));
        assert forall|i: u64| #[trigger]
            t.forfeited.dom().contains(i) && !t.forfeited[i].frozen && unclaimed(t, i) implies sum(
            t.bets,
            refund_share(i),
        ) <= owed_by(t, i) by {
            assert(s.forfeited.dom().contains(i));
            assert(s.markets.dom().contains(i));
            assert(unclaimed(s, i)) by {
                assert forall|user: Address| #[trigger]
                    s.bets.dom().contains((i, user)) implies !s.bets[(i, user)].claimed by {
                    assert(t.bets.dom().contains((i, user)));
                }
            }
            assert(owed_by(t, i) == owed_by(s, i));
        }
    }
}

proof fn lemma_refund_sound(s: MarketState, now: u64, ledger: Ledger, user: Address, id: u64)
    requires
        sound(s, now),
        now <= ledger.timestamp,
        s.refund_refusal(user, id) is None,
    ensures
        sound(s.cancel_refund(ledger, user, id)->Ok_0.state, ledger.timestamp),
{
    reveal(sound);
    let t = s.cancel_refund(ledger, user, id)->Ok_0.state;
    let k = (id, user);
    let e = t.bets[k];
    lemma_position_keeps(s, k, e);
    lemma_position_sound(s, t, now, ledger.timestamp, k, e);
}

/// A position changes in a market that is not open.
proof fn lemma_position_sound(
    s: MarketState,
    t: MarketState,
    now: u64,
    later: u64,
    k: (u64, Address),
    e: BetEntry,
)
    requires
        sound(s, now),
        now <= later,
        s.bets.dom().contains(k),
        s.markets.dom().contains(k.0),
        !s.markets[k.0].open(),
        t == (MarketState { bets: s.bets.insert(k, e), ..s }),
        t.wf(),
        e.gross <= s.bets[k].gross,
        s.forfeited.dom().contains(k.0) && !s.forfeited[k.0].frozen ==> e.claimed
            && s.forfeited[k.0].disputable_until <= later,
    ensures
        sound(t, later),
{
    reveal(sound);
    assert(books_agree(t)) by {
        assert forall|i: u64| #[trigger]
            t.forfeited.dom().contains(i) && !t.forfeited[i].frozen && unclaimed(t, i) implies sum(
            t.bets,
            refund_share(i),
        ) <= owed_by(t, i) by {
            if i == k.0 {
                assert(t.bets.dom().contains((i, k.1)));
            } else {
                lemma_others_covered(s, t, k, e, i);
            }
        }
        assert forall|x: (u64, Address)| #[trigger]
            t.bets.dom().contains(x) && t.markets.dom().contains(x.0)
                && t.markets[x.0].open() implies !t.bets[x].claimed by {
            assert(s.bets.dom().contains(x));
        }
    }
    assert(claims_in_time(t, later)) by {
        assert forall|x: (u64, Address)| #[trigger]
            t.bets.dom().contains(x) && t.bets[x].claimed && t.forfeited.dom().contains(x.0)
                && !t.forfeited[x.0].frozen implies t.forfeited[x.0].disputable_until <= later by {
            assert(s.bets.dom().contains(x));
        }
    }
    assert(open_ids(t) =~= open_ids(s));
    assert forall|who: Address| #[trigger] t.is_resolver(who) implies !t.holds_open_stake(
        who,
    ) by {
        assert(s.is_resolver(who));
        lemma_stakes_were_there(s, t, who);
    }
}

proof fn lemma_claim_sound(
    s: MarketState,
    now: u64,
    ledger: Ledger,
    user: Address,
    id: u64,
    leaderboard_version: Option<u32>,
)
    requires
        sound(s, now),
        now <= ledger.timestamp,
        s.claim(ledger, user, id, leaderboard_version) is Ok,
    ensures
        sound(s.claim(ledger, user, id, leaderboard_version)->Ok_0.state, ledger.timestamp),
{
    reveal(sound);
    let t = s.claim(ledger, user, id, leaderboard_version)->Ok_0.state;
    let k = (id, user);
    let e = t.bets[k];
    lemma_position_keeps(s, k, e);
    lemma_position_sound(s, t, now, ledger.timestamp, k, e);
}

/// Records of other markets, where the payouts of one market change.
proof fn lemma_others_covered_by_payouts(s: MarketState, t: MarketState, id: u64, i: u64)
    requires
        s.wf(),
        books_agree(s),
        i != id,
        t.bets == s.bets,
        find(t.markets, i) == find(s.markets, i),
        find(t.forfeited, i) == find(s.forfeited, i),
        forall|k: (u64, Address)| k.0 != id ==> #[trigger] find(t.payouts, k) == find(s.payouts, k),
        t.forfeited.dom().contains(i),
        t.markets.dom().contains(i),
        !t.forfeited[i].frozen,
        unclaimed(t, i),
    ensures
        sum(t.bets, refund_share(i)) <= owed_by(t, i),
{
    assert(s.forfeited.dom().contains(i));
    assert(s.markets.dom().contains(i));
    assert(unclaimed(s, i)) by {
        assert forall|user: Address| #[trigger] s.bets.dom().contains((i, user)) implies !s.bets[(
            i,
            user,
        )].claimed by {
            assert(t.bets.dom().contains((i, user)));
        }
    }
    lemma_other_payouts_owe_the_same(s, t, id, i);
}

proof fn lemma_resolution_sound(
    s: MarketState,
    now: u64,
    ledger: Ledger,
    caller: Address,
    id: u64,
    outcome: bool,
)
    requires
        sound(s, now),
        now <= ledger.timestamp,
        s.resolve_refusal(ledger, caller, id) is None,
        s.can_resolve(ledger, id, outcome),
    ensures
        sound(s.resolve_market(ledger, caller, id, outcome)->Ok_0.state, ledger.timestamp),
{
    reveal(sound);
    let t = s.resolve_market(ledger, caller, id, outcome)->Ok_0.state;
    let walk = s.bettors(id) as nat;
    lemma_resolution_keeps(s, ledger, id, outcome);
    lemma_settlement_payouts(s, id, outcome, walk);
    lemma_settlement_within_pool(s, id, outcome, walk);
    lemma_settled_claims(s, id, outcome, walk, s.bets);
    lemma_refunds_split(s.bets, id);
    lemma_one_less_open(s, t, id);
    lemma_closing_stakes(s, t, id);
    assert(!s.forfeited.dom().contains(id));
    assert(s.fees_of(id) >= 0) by {
        assert(s.market_fees.dom().contains(id) ==> s.market_fees[id] >= 0);
    }
    assert(books_agree(t)) by {
        assert forall|k: (u64, Address)| #[trigger]
            t.payouts.dom().contains(k) && t.markets.dom().contains(
                k.0,
            ) implies !t.markets[k.0].open() by {
            if k.0 != id {
                assert(find(t.payouts, k) == find(s.payouts, k));
                assert(s.payouts.dom().contains(k));
            }
        }
        assert forall|i: u64| #[trigger]
            t.forfeited.dom().contains(i) implies t.markets.dom().contains(i)
            && t.markets[i].resolved && t.fees_of(i) == 0 && t.markets[i].cancelled
            == t.forfeited[i].frozen by {
            if i != id {
                assert(s.forfeited.dom().contains(i));
                assert(s.markets.dom().contains(i));
            }
        }
        assert forall|i: u64| #[trigger]
            t.forfeited.dom().contains(i) && !t.forfeited[i].frozen && unclaimed(t, i) implies sum(
            t.bets,
            refund_share(i),
        ) <= owed_by(t, i) by {
            if i != id {
                lemma_others_covered_by_payouts(s, t, id, i);
            } else {
                assert(sum(s.bets, side_share(id, true)) <= s.markets[id].side(true));
                assert(sum(s.bets, side_share(id, false)) <= s.markets[id].side(false));
            }
        }
    }
    assert(claims_in_time(t, ledger.timestamp)) by {
        assert forall|x: (u64, Address)| #[trigger]
            t.bets.dom().contains(x) && t.bets[x].claimed && t.forfeited.dom().contains(x.0)
                && !t.forfeited[x.0].frozen implies t.forfeited[x.0].disputable_until
            <= ledger.timestamp by {
            assert(s.bets.dom().contains(x));
            assert(s.markets.dom().contains(id));
        }
    }
}

proof fn lemma_freeze_sound(s: MarketState, now: u64, ledger: Ledger, admin: Address, id: u64)
    requires
        sound(s, now),
        now <= ledger.timestamp,
        s.freeze_refusal(ledger, admin, id) is None,
    ensures
        sound(s.freeze_market(ledger, admin, id)->Ok_0.state, ledger.timestamp),
{
    reveal(sound);
    let t = s.freeze_market(ledger, admin, id)->Ok_0.state;
    lemma_unpaid(s, id, s.bettors(id) as nat);
    lemma_closing_keeps(s, id, t.markets[id], t);
    lemma_closing_stakes(s, t, id);
    assert(open_ids(t) =~= open_ids(s));
    assert(t.markets.dom() =~= s.markets.dom());
    assert(books_agree(t)) by {
        assert forall|k: (u64, Address)| #[trigger]
            t.payouts.dom().contains(k) && t.markets.dom().contains(
                k.0,
            ) implies !t.markets[k.0].open() by {
            assert(s.payouts.dom().contains(k));
        }
        assert forall|i: u64| #[trigger]
            t.forfeited.dom().contains(i) implies t.markets.dom().contains(i)
            && t.markets[i].resolved && t.fees_of(i) == 0 && t.markets[i].cancelled
            == t.forfeited[i].frozen by {
            assert(s.forfeited.dom().contains(i));
            assert(s.markets.dom().contains(i));
        }
        assert forall|i: u64| #[trigger]
            t.forfeited.dom().contains(i) && !t.forfeited[i].frozen && unclaimed(t, i) implies sum(
            t.bets,
            refund_share(i),
        ) <= owed_by(t, i) by {
            lemma_others_covered_by_payouts(s, t, id, i);
        }
    }
}

proof fn lemma_finalize_sound(s: MarketState, now: u64, ledger: Ledger, id: u64)
    requires
        sound(s, now),
        now <= ledger.timestamp,
        s.finalize_refusal(ledger, id) is None,
        s.fees_of(id) + s.forfeited[id].locked_fees <= i128::MAX,
    ensures
        sound(s.finalize_zero_side(ledger, id)->Ok_0.state, ledger.timestamp),
{
    reveal(sound);
    let t = s.finalize_zero_side(ledger, id)->Ok_0.state;
    assert(s.fees_of(id) >= 0) by {
        assert(s.market_fees.dom().contains(id) ==> s.market_fees[id] >= 0);
    }
    lemma_fees_keep(s, id, t.fees_of(id), t);
    lemma_same_stakes(s, t);
    assert(open_ids(t) =~= open_ids(s));
    assert(books_agree(t)) by {
        assert forall|i: u64| #[trigger]
            t.markets.dom().contains(i) && t.markets[i].cancelled implies t.fees_of(i) == 0 by {
            assert(s.markets.dom().contains(i));
            if i == id {
                assert(s.forfeited.dom().contains(id));
            }
        }
        assert forall|i: u64| #[trigger]
            t.forfeited.dom().contains(i) && !t.forfeited[i].frozen && unclaimed(t, i) implies sum(
            t.bets,
            refund_share(i),
        ) <= owed_by(t, i) by {
            lemma_others_covered_by_payouts(s, t, id, i);
        }
    }
    assert forall|who: Address| #[trigger] t.is_resolver(who) implies !t.holds_open_stake(
        who,
    ) by {
        assert(s.is_resolver(who));
    }
}

proof fn lemma_debit_sound(s: MarketState, t: MarketState, now: u64, later: u64, amount: int)
    requires
        sound(s, now),
        now <= later,
        s.admin is Some,
        0 <= amount <= s.earned(),
        t == (MarketState {
            pending_withdrawals: t.pending_withdrawals,
            ..s.debited(amount)
        }),
        forall|who: Address| #[trigger]
            t.pending_withdrawals.dom().contains(who) ==> t.pending_withdrawals[who].amount > 0,
    ensures
        sound(t, later),
{
    reveal(sound);
    lemma_debit_keeps(s, amount);
    lemma_requests_keep(s.debited(amount), t);
    lemma_same_stakes(s, t);
    assert(open_ids(t) =~= open_ids(s));
    assert forall|i: u64| s.fees_of(i) == 0 implies #[trigger] t.fees_of(i) == 0 by {
        law_debits_are_exact(s, amount, i);
        if t.market_fees.dom().contains(i) {
            assert(t.market_fees[i] >= 0);
        }
    }
    assert(books_agree(t)) by {
        assert forall|i: u64| #[trigger]
            t.markets.dom().contains(i) && t.markets[i].cancelled implies t.fees_of(i) == 0 by {
            assert(s.markets.dom().contains(i));
            assert(s.fees_of(i) == 0);
        }
        assert forall|i: u64| #[trigger]
            t.forfeited.dom().contains(i) implies t.markets.dom().contains(i)
            && t.markets[i].resolved && t.fees_of(i) == 0 && t.markets[i].cancelled
            == t.forfeited[i].frozen by {
            assert(s.forfeited.dom().contains(i));
            assert(s.markets.dom().contains(i));
            assert(s.fees_of(i) == 0);
        }
        assert forall|i: u64| #[trigger]
            t.forfeited.dom().contains(i) && !t.forfeited[i].frozen && unclaimed(t, i) implies sum(
            t.bets,
            refund_share(i),
        ) <= owed_by(t, i) by {
            lemma_others_covered_by_payouts(s, t, 0, i);
        }
    }
    assert forall|who: Address| #[trigger] t.is_resolver(who) implies !t.holds_open_stake(
        who,
    ) by {
        assert(s.is_resolver(who));
    }
}

/// Every call keeps what holds of the market: the records agree with each
/// other, no resolver has a stake in an open market, no more than the limits
/// of markets are open or were created at once, and the count of open markets
/// is right.
pub proof fn law_calls_keep_soundness(s: MarketState, now: u64, ledger: Ledger, call: Call)
    requires
        sound(s, now),
        now <= ledger.timestamp,
        s.fits(ledger, call),
    ensures
        sound(s.after(ledger, call), ledger.timestamp),
{
    let t = s.after(ledger, call);
    lemma_later(s, now, ledger.timestamp);
    lemma_reads(s, now);
    match call {
        Call::CreateMarket { admin, question, image_url, category, duration_secs } => {
            if s.creation_refusal(ledger, admin, duration_secs) is None {
                lemma_creation_sound(
                    s,
                    now,
                    ledger,
                    admin,
                    question,
                    image_url,
                    category,
                    duration_secs,
                );
            }
        },
        Call::PlaceBet { user, id, is_yes, amount, referral_version } => {
            if s.place_bet(ledger, user, id, is_yes, amount, referral_version) is Ok {
                lemma_bet_sound(s, now, ledger, user, id, is_yes, amount);
            }
        },
        Call::ReducePosition { user, id, amount } => {
            if s.reduce_refusal(ledger, user, id, amount) is None {
                lemma_reduction_sound(s, now, ledger, user, id, amount);
            }
        },
        Call::ResolveMarket { caller, id, outcome } => {
            if s.resolve_refusal(ledger, caller, id) is None {
                lemma_resolution_sound(s, now, ledger, caller, id, outcome);
            }
        },
        Call::CancelMarket { admin, id } => {
            if s.cancel_refusal(admin, id) is None {
                lemma_cancel_sound(s, now, ledger, admin, id);
            }
        },
        Call::CancelRefund { user, id } => {
            if s.refund_refusal(user, id) is None {
                lemma_refund_sound(s, now, ledger, user, id);
            }
        },
        Call::Claim { user, id, leaderboard_version } => {
            if s.claim(ledger, user, id, leaderboard_version) is Ok {
                lemma_claim_sound(s, now, ledger, user, id, leaderboard_version);
            }
        },
        Call::FreezeMarket { admin, id } => {
            if s.freeze_refusal(ledger, admin, id) is None {
                lemma_freeze_sound(s, now, ledger, admin, id);
            }
        },
        Call::FinalizeZeroSide { id } => {
            if s.finalize_refusal(ledger, id) is None {
                lemma_finalize_sound(s, now, ledger, id);
            }
        },
        Call::WithdrawFees { caller, recipient } => {
            if s.withdraw_refusal(caller, recipient) is None {
                lemma_debit_sound(s, t, now, ledger.timestamp, s.immediate_amount());
            }
        },
        Call::RequestWithdrawFees { .. } => {
            lemma_requests_sound(s, t, now, ledger.timestamp);
        },
        Call::ExecuteWithdrawFees { caller } => {
            if s.execute_refusal(ledger, caller) is None {
                lemma_debit_sound(
                    s,
                    t,
                    now,
                    ledger.timestamp,
                    s.pending_withdrawals[caller].amount as int,
                );
            }
        },
        Call::CancelWithdrawalRequest { .. } => {
            lemma_requests_sound(s, t, now, ledger.timestamp);
        },
        _ => {
            lemma_settings_call(s, now, ledger, call);
        },
    }
}

/// The calls that touch no money and no market.
pub open spec fn is_settings(call: Call) -> bool {
    match call {
        Call::Initialize { .. } | Call::Upgrade { .. } | Call::SetConfig { .. }
        | Call::ApproveSetConfig { .. } | Call::ExecuteSetConfig { .. }
        | Call::CancelSetConfig { .. } | Call::AddGovernor { .. }
        | Call::SetGovernorThreshold { .. } | Call::MigrateFeeLedger
        | Call::SetInterfaceVersion { .. } | Call::RevokeTrust { .. } | Call::RestoreTrust { .. }
        | Call::SetPaused { .. } | Call::AddResolver { .. } | Call::RemoveResolver { .. }
        | Call::AddFeeRecipient { .. } | Call::RemoveFeeRecipient { .. }
        | Call::CreditAnswered { .. } => true,
        _ => false,
    }
}

/// Approvals stay with governors, each counted once.
proof fn lemma_staged_by_governors(s: MarketState, ledger: Ledger, call: Call)
    requires
        is_settings(call),
        staged_by_governors(s.admin, s.governors, s.pending_config),
    ensures
        ({
            let t = s.after(ledger, call);
            staged_by_governors(t.admin, t.governors, t.pending_config)
        }),
{
    match call {
        Call::SetConfig { governor, cfg, kinds } => {
            lemma_proposals_are_staged(s, ledger, governor, cfg, kinds);
        },
        Call::ApproveSetConfig { governor } => {
            lemma_approvals_are_counted(s, governor);
        },
        _ => {},
    }
}

/// A settings call changes nothing but settings.
pub proof fn lemma_settings_only(s: MarketState, ledger: Ledger, call: Call)
    requires
        is_settings(call),
        0 <= s.legacy(),
        (s.admin is None) == (s.cfg is None),
        s.admin is None ==> s.count() == 0 && s.legacy() == 0,
        staged_by_governors(s.admin, s.governors, s.pending_config),
        resolvers_impartial(s),
    ensures
        ({
            let t = s.after(ledger, call);
            &&& t == (MarketState {
                admin: t.admin,
                cfg: t.cfg,
                market_count: t.market_count,
                accumulated_fees: t.accumulated_fees,
                legacy_fees: t.legacy_fees,
                interface_version: t.interface_version,
                paused: t.paused,
                resolvers: t.resolvers,
                fee_recipients: t.fee_recipients,
                has_referrer: t.has_referrer,
                trust_revoked: t.trust_revoked,
                pending_config: t.pending_config,
                governors: t.governors,
                governor_threshold: t.governor_threshold,
                pinned_hashes: t.pinned_hashes,
                ..s
            })
            &&& (t.admin is None) == (t.cfg is None)
            &&& t.admin is None ==> s.admin is None
            &&& t.count() == s.count()
            &&& t.legacy() == s.legacy()
            &&& staged_by_governors(t.admin, t.governors, t.pending_config)
            &&& forall|who: Address| #[trigger] t.is_resolver(who) ==> !s.holds_open_stake(who)
        }),
{
    let t = s.after(ledger, call);
    lemma_staged_by_governors(s, ledger, call);
    assert forall|who: Address| #[trigger] t.is_resolver(who) implies !s.holds_open_stake(
        who,
    ) by {
        match call {
            Call::AddResolver { admin, resolver } => {
                assert(who == resolver && s.add_resolver(admin, resolver) is Ok || s.is_resolver(
                    who,
                ));
            },
            _ => {
                assert(s.is_resolver(who));
            },
        }
    }
}

proof fn lemma_settings_call(s: MarketState, now: u64, ledger: Ledger, call: Call)
    requires
        sound(s, now),
        now <= ledger.timestamp,
        is_settings(call),
    ensures
        sound(s.after(ledger, call), ledger.timestamp),
{
    lemma_reads(s, now);
    lemma_settings_only(s, ledger, call);
    lemma_settings_sound(s, s.after(ledger, call), now, ledger.timestamp);
}

proof fn lemma_later(s: MarketState, now: u64, later: u64)
    requires
        sound(s, now),
        now <= later,
    ensures
        sound(s, later),
{
    reveal(sound);
}

/// What the calls themselves look at.
pub proof fn lemma_reads(s: MarketState, now: u64)
    requires
        sound(s, now),
    ensures
        0 <= s.legacy(),
        0 <= s.earned(),
        (s.admin is None) == (s.cfg is None),
        s.admin is None ==> s.count() == 0 && s.legacy() == 0,
        staged_by_governors(s.admin, s.governors, s.pending_config),
        resolvers_impartial(s),
        forall|who: Address| #[trigger]
            s.pending_withdrawals.dom().contains(who) ==> s.pending_withdrawals[who].amount > 0,
{
    reveal(sound);
    lemma_earned_within(s, s.count() as nat);
    lemma_fees_grow(s, 0, s.count() as nat);
}

/// A market that was just deployed is sound.
pub proof fn law_deployed_markets_are_sound(now: u64)
    ensures
        sound(MarketState::blank(), now),
{
    reveal(sound);
    let s = MarketState::blank();
    assert forall|i: u64, yes: bool| #[trigger]
        s.markets.dom().contains(i) implies sum(s.bets, #[trigger] side_share(i, yes))
        <= s.markets[i].side(yes) by {}
    assert(open_ids(s) =~= Set::<u64>::empty());
}

/// The times of the calls do not decrease.
pub open spec fn in_order(calls: Seq<(Ledger, Call)>) -> bool {
    forall|i: int, j: int|
        0 <= i <= j < calls.len() ==> #[trigger] calls[i].0.timestamp <= #[trigger]
        calls[j].0.timestamp
}

/// The time of the last call.
pub open spec fn latest(calls: Seq<(Ledger, Call)>) -> u64 {
    if calls.len() == 0 {
        0
    } else {
        calls.last().0.timestamp
    }
}

pub proof fn lemma_prefix_in_order(calls: Seq<(Ledger, Call)>)
    requires
        in_order(calls),
        calls.len() > 0,
    ensures
        in_order(calls.drop_last()),
        latest(calls.drop_last()) <= calls.last().0.timestamp,
{
    let before = calls.drop_last();
    assert forall|i: int, j: int| 0 <= i <= j < before.len() implies #[trigger]
        before[i].0.timestamp <= #[trigger] before[j].0.timestamp by {
        assert(before[i] == calls[i] && before[j] == calls[j]);
    }
    if before.len() > 0 {
        assert(before.last() == calls[calls.len() - 2]);
        assert(calls[calls.len() - 2].0.timestamp <= calls[calls.len() - 1].0.timestamp);
    }
}

/// Whatever is called after deployment, in whatever order, the market stays
/// sound.
pub proof fn law_histories_are_sound(calls: Seq<(Ledger, Call)>)
    requires
        in_order(calls),
        MarketState::blank().fits_all(calls),
    ensures
        sound(MarketState::blank().after_all(calls), latest(calls)),
    decreases calls.len(),
{
    let s = MarketState::blank();
    if calls.len() == 0 {
        law_deployed_markets_are_sound(0);
    } else {
        let before = calls.drop_last();
        lemma_prefix_in_order(calls);
        law_histories_are_sound(before);
        law_calls_keep_soundness(
            s.after_all(before),
            latest(before),
            calls.last().0,
            calls.last().1,
        );
    }
}

} // verus!
