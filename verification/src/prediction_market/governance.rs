//! Changes of the configuration. A change is staged by a governor, waits for a
//! while in which it can be seen and cancelled, and lands only with enough
//! approvals.
use crate::address::{Address, WasmHash};
use crate::env::{settles, Effect, Env, Ledger};
use crate::prediction_market::contract::refused;
use crate::prediction_market::history::{is_settings, Call};
use crate::prediction_market::state::{
    done, governs, staged_by_governors, ConfigChange, MarketState,
    PredictionMarketContract, Verdict,
};
use crate::prediction_market::types::{
    Config, DataKey, Executable, Executables, MarketError, PendingConfig, PinnedHashes,
    CONFIG_DELAY_SECS,
};
use vstd::prelude::*;

verus! {

impl Executable {
    /// The hash of the code; all zeros where there is none.
    pub open spec fn hash(self) -> WasmHash {
        match self {
            Executable::Wasm(hash) => hash,
            _ => WasmHash { bytes: vstd::array::spec_array_fill_for_copy_type::<u8, 32>(0) },
        }
    }

    fn code(&self) -> (h: WasmHash)
        ensures
            h == self.hash(),
    {
        match self {
            Executable::Wasm(hash) => *hash,
            _ => WasmHash { bytes: [0u8; 32] },
        }
    }

    fn has_code(&self) -> (b: bool)
        ensures
            b == (self is Wasm),
    {
        match self {
            Executable::Wasm(_) => true,
            _ => false,
        }
    }

    fn is_asset(&self) -> (b: bool)
        ensures
            b == (self is StellarAsset),
    {
        match self {
            Executable::StellarAsset => true,
            _ => false,
        }
    }
}

impl Executables {
    /// Token, referral registry and leaderboard are contracts with code of
    /// their own, and the currency is the built-in contract of an asset.
    pub open spec fn expected(self) -> bool {
        &&& self.token is Wasm
        &&& self.referral is Wasm
        &&& self.leaderboard is Wasm
        &&& self.xlm_sac is StellarAsset
    }

    pub open spec fn hashes(self) -> PinnedHashes {
        PinnedHashes {
            token: self.token.hash(),
            referral: self.referral.hash(),
            leaderboard: self.leaderboard.hash(),
            xlm_sac: self.xlm_sac.hash(),
        }
    }
}

impl ConfigChange {
    /// The change has waited long enough to land.
    pub open spec fn mature(self, now: u64) -> bool {
        now >= self.requested_at + CONFIG_DELAY_SECS
    }

    /// The change with one more approval, counted once.
    pub open spec fn approved_by(self, governor: Address) -> ConfigChange {
        if self.approvers.contains(governor) {
            self
        } else {
            ConfigChange { approvers: self.approvers.push(governor), ..self }
        }
    }
}

impl MarketState {
    pub open spec fn is_governor(self, who: Address) -> bool {
        governs(self.admin, self.governors, who)
    }

    /// How many approvals a change needs. Whoever proposes it approves it.
    pub open spec fn approvals_needed(self) -> u32 {
        self.governor_threshold.unwrap_or(1)
    }

    pub open spec fn governor_refusal(self, caller: Address) -> Option<MarketError> {
        if self.admin is None {
            Some(MarketError::NotInitialized)
        } else if !self.is_governor(caller) {
            Some(MarketError::NotAuthorized)
        } else {
            None
        }
    }

    pub open spec fn proposal_refusal(self, governor: Address, kinds: Executables) -> Option<
        MarketError,
    > {
        if self.governor_refusal(governor) is Some {
            self.governor_refusal(governor)
        } else if self.pending_config is Some {
            Some(MarketError::ConfigChangePending)
        } else if !kinds.expected() {
            Some(MarketError::InvalidContract)
        } else {
            None
        }
    }

    pub open spec fn set_config(
        self,
        ledger: Ledger,
        governor: Address,
        cfg: Config,
        kinds: Executables,
    ) -> Verdict<()> {
        match self.proposal_refusal(governor, kinds) {
            Some(e) => Err(e),
            None => done(
                MarketState {
                    pending_config: Some(
                        ConfigChange {
                            cfg,
                            requested_at: ledger.timestamp,
                            pins: kinds.hashes(),
                            approvers: seq![governor],
                        },
                    ),
                    ..self
                },
                (),
                seq![Effect::RequireAuth(governor)],
            ),
        }
    }

    pub open spec fn approval_refusal(self, governor: Address) -> Option<MarketError> {
        if self.governor_refusal(governor) is Some {
            self.governor_refusal(governor)
        } else if self.pending_config is None {
            Some(MarketError::NoPendingConfig)
        } else {
            None
        }
    }

    pub open spec fn approve_set_config(self, governor: Address) -> Verdict<()> {
        match self.approval_refusal(governor) {
            Some(e) => Err(e),
            None => done(
                MarketState {
                    pending_config: Some(self.pending_config->0.approved_by(governor)),
                    ..self
                },
                (),
                seq![Effect::RequireAuth(governor)],
            ),
        }
    }

    pub open spec fn landing_refusal(self, ledger: Ledger, governor: Address) -> Option<
        MarketError,
    > {
        if self.approval_refusal(governor) is Some {
            self.approval_refusal(governor)
        } else if !self.pending_config->0.mature(ledger.timestamp) {
            Some(MarketError::ConfigTooSoon)
        } else if self.pending_config->0.approvers.len() < self.approvals_needed() {
            Some(MarketError::NotEnoughApprovals)
        } else {
            None
        }
    }

    pub open spec fn execute_set_config(self, ledger: Ledger, governor: Address) -> Verdict<()> {
        match self.landing_refusal(ledger, governor) {
            Some(e) => Err(e),
            None => done(
                MarketState {
                    cfg: Some(self.pending_config->0.cfg),
                    pinned_hashes: Some(self.pending_config->0.pins),
                    pending_config: None,
                    ..self
                },
                (),
                seq![Effect::RequireAuth(governor)],
            ),
        }
    }

    pub open spec fn cancel_set_config(self, admin: Address) -> Verdict<()> {
        match self.admin_refusal(admin) {
            Some(e) => Err(e),
            None => if self.pending_config is None {
                Err(MarketError::NoPendingConfig)
            } else {
                done(
                    MarketState { pending_config: None, ..self },
                    (),
                    seq![Effect::RequireAuth(admin)],
                )
            },
        }
    }

    pub open spec fn add_governor(self, admin: Address, governor: Address) -> Verdict<()> {
        match self.admin_refusal(admin) {
            Some(e) => Err(e),
            None => done(
                MarketState { governors: self.governors.insert(governor, true), ..self },
                (),
                seq![Effect::RequireAuth(admin)],
            ),
        }
    }

    pub open spec fn set_governor_threshold(self, admin: Address, threshold: u32) -> Verdict<()> {
        match self.admin_refusal(admin) {
            Some(e) => Err(e),
            None => done(
                MarketState { governor_threshold: Some(threshold), ..self },
                (),
                seq![Effect::RequireAuth(admin)],
            ),
        }
    }
}

/// A proposal counts the one governor who made it.
pub proof fn lemma_proposals_are_staged(
    s: MarketState,
    ledger: Ledger,
    governor: Address,
    cfg: Config,
    kinds: Executables,
)
    ensures
        s.set_config(ledger, governor, cfg, kinds) matches Ok(o) ==> staged_by_governors(
            o.state.admin,
            o.state.governors,
            o.state.pending_config,
        ),
{
}

/// An approval is added to the others without repeats.
pub proof fn lemma_approvals_are_counted(s: MarketState, governor: Address)
    requires
        staged_by_governors(s.admin, s.governors, s.pending_config),
    ensures
        s.approve_set_config(governor) matches Ok(o) ==> staged_by_governors(
            o.state.admin,
            o.state.governors,
            o.state.pending_config,
        ),
{
}

impl PredictionMarketContract {
    fn require_governor(&self, caller: Address) -> (r: Result<(), MarketError>)
        ensures
            r == refused(self@.governor_refusal(caller)),
    {
        match self.admin {
            None => Err(MarketError::NotInitialized),
            Some(admin) => {
                if caller == admin || self.governors.get_or(caller, false) {
                    Ok(())
                } else {
                    Err(MarketError::NotAuthorized)
                }
            },
        }
    }

    /// Stage a change of the contracts that the market works with. Governors
    /// only, and one change at a time. `kinds` is what the host knows of the
    /// four contracts. The configuration itself stays as it is.
    pub fn set_config(
        &mut self,
        env: &mut Env<DataKey>,
        governor: Address,
        cfg: Config,
        kinds: Executables,
    ) -> (r: Result<(), MarketError>)
        requires
            old(self)@.wf(),
        ensures
            final(self)@.wf(),
            settles(
                old(self)@.set_config(old(env).ledger, governor, cfg, kinds),
                (old(self)@, final(self)@),
                (*old(env), *final(env)),
                r,
            ),
    {
        self.require_governor(governor)?;
        if self.pending_config.is_some() {
            return Err(MarketError::ConfigChangePending);
        }
        if !kinds.token.has_code() || !kinds.referral.has_code() || !kinds.leaderboard.has_code()
            || !kinds.xlm_sac.is_asset() {
            return Err(MarketError::InvalidContract);
        }
        let ghost s = self@;
        env.ask(Effect::RequireAuth(governor));
        let mut approvers: Vec<Address> = Vec::new();
        approvers.push(governor);
        let pins: PinnedHashes = PinnedHashes {
            token: kinds.token.code(),
            referral: kinds.referral.code(),
            leaderboard: kinds.leaderboard.code(),
            xlm_sac: kinds.xlm_sac.code(),
        };
        self.pending_config = Some(
            PendingConfig { cfg, requested_at: env.ledger.timestamp, pins, approvers },
        );
        proof {
            assert(approvers@ =~= seq![governor]);
            lemma_proposals_are_staged(s, env.ledger, governor, cfg, kinds);
            lemma_staging_keeps(s, self@);
        }
        Ok(())
    }

    /// Approve the staged change. Governors only; approving twice counts once.
    pub fn approve_set_config(&mut self, env: &mut Env<DataKey>, governor: Address) -> (r: Result<
        (),
        MarketError,
    >)
        requires
            old(self)@.wf(),
        ensures
            final(self)@.wf(),
            settles(
                old(self)@.approve_set_config(governor),
                (old(self)@, final(self)@),
                (*old(env), *final(env)),
                r,
            ),
    {
        self.require_governor(governor)?;
        let ghost s = self@;
        match self.pending_config.take() {
            None => {
                self.pending_config = None;
                Err(MarketError::NoPendingConfig)
            },
            Some(change) => {
                let mut staged: PendingConfig = change;
                env.ask(Effect::RequireAuth(governor));
                if !is_among(&staged.approvers, governor) {
                    staged.approvers.push(governor);
                }
                self.pending_config = Some(staged);
                proof {
                    lemma_approvals_are_counted(s, governor);
                    lemma_staging_keeps(s, self@);
                }
                Ok(())
            },
        }
    }

    /// Let the staged change land, once it has waited long enough and has
    /// enough approvals. Governors only.
    pub fn execute_set_config(&mut self, env: &mut Env<DataKey>, governor: Address) -> (r: Result<
        (),
        MarketError,
    >)
        requires
            old(self)@.wf(),
        ensures
            final(self)@.wf(),
            settles(
                old(self)@.execute_set_config(old(env).ledger, governor),
                (old(self)@, final(self)@),
                (*old(env), *final(env)),
                r,
            ),
    {
        self.require_governor(governor)?;
        let (cfg, pins): (Config, PinnedHashes) = match &self.pending_config {
            None => return Err(MarketError::NoPendingConfig),
            Some(change) => {
                let now: u64 = env.ledger.timestamp;
                if now < change.requested_at || now - change.requested_at < CONFIG_DELAY_SECS {
                    return Err(MarketError::ConfigTooSoon);
                }
                if change.approvers.len() < self.governor_threshold.unwrap_or(1) as usize {
                    return Err(MarketError::NotEnoughApprovals);
                }
                (change.cfg, change.pins)
            },
        };
        let ghost s = self@;
        env.ask(Effect::RequireAuth(governor));
        self.cfg = Some(cfg);
        self.pinned_hashes = Some(pins);
        self.pending_config = None;
        proof {
            lemma_staging_keeps(s, self@);
        }
        Ok(())
    }

    /// Give up the staged change. Admin only.
    pub fn cancel_set_config(&mut self, env: &mut Env<DataKey>, admin: Address) -> (r: Result<
        (),
        MarketError,
    >)
        requires
            old(self)@.wf(),
        ensures
            final(self)@.wf(),
            settles(
                old(self)@.cancel_set_config(admin),
                (old(self)@, final(self)@),
                (*old(env), *final(env)),
                r,
            ),
    {
        self.require_admin(admin)?;
        if self.pending_config.is_none() {
            return Err(MarketError::NoPendingConfig);
        }
        let ghost s = self@;
        env.ask(Effect::RequireAuth(admin));
        self.pending_config = None;
        proof {
            lemma_staging_keeps(s, self@);
        }
        Ok(())
    }

    /// The staged change, if there is one.
    pub fn get_pending_config(&self) -> (change: Option<&PendingConfig>)
        ensures
            match change {
                Some(c) => self@.pending_config == Some(c@),
                None => self@.pending_config is None,
            },
    {
        self.pending_config.as_ref()
    }

    /// The code that the contracts of the configuration ran when it was
    /// proposed, if it was changed since the market was set up.
    pub fn get_pinned_hashes(&self) -> (pins: Option<PinnedHashes>)
        ensures
            pins == self@.pinned_hashes,
    {
        self.pinned_hashes
    }

    /// Let somebody propose and approve changes. Admin only.
    pub fn add_governor(
        &mut self,
        env: &mut Env<DataKey>,
        admin: Address,
        governor: Address,
    ) -> (r: Result<(), MarketError>)
        requires
            old(self)@.wf(),
        ensures
            final(self)@.wf(),
            settles(
                old(self)@.add_governor(admin, governor),
                (old(self)@, final(self)@),
                (*old(env), *final(env)),
                r,
            ),
    {
        self.require_admin(admin)?;
        let ghost s = self@;
        env.ask(Effect::RequireAuth(admin));
        self.governors.set(governor, true);
        proof {
            lemma_staging_keeps(s, self@);
        }
        Ok(())
    }

    /// Set how many approvals a change needs. Admin only.
    pub fn set_governor_threshold(
        &mut self,
        env: &mut Env<DataKey>,
        admin: Address,
        threshold: u32,
    ) -> (r: Result<(), MarketError>)
        requires
            old(self)@.wf(),
        ensures
            final(self)@.wf(),
            settles(
                old(self)@.set_governor_threshold(admin, threshold),
                (old(self)@, final(self)@),
                (*old(env), *final(env)),
                r,
            ),
    {
        self.require_admin(admin)?;
        let ghost s = self@;
        env.ask(Effect::RequireAuth(admin));
        self.governor_threshold = Some(threshold);
        proof {
            lemma_staging_keeps(s, self@);
        }
        Ok(())
    }
}

/// Whether somebody is in a list.
fn is_among(list: &Vec<Address>, who: Address) -> (found: bool)
    ensures
        found == list@.contains(who),
{
    let mut i: usize = 0;
    while i < list.len()
        invariant
            i <= list@.len(),
            forall|j: int| 0 <= j < i ==> list@[j] != who,
        decreases list@.len() - i,
    {
        if list[i] == who {
            assert(list@[i as int] == who);
            return true;
        }
        i = i + 1;
    }
    false
}

/// Governance touches no market and no money.
proof fn lemma_staging_keeps(s: MarketState, t: MarketState)
    requires
        s.wf(),
        t == (MarketState {
            cfg: t.cfg,
            pending_config: t.pending_config,
            governors: t.governors,
            governor_threshold: t.governor_threshold,
            pinned_hashes: t.pinned_hashes,
            ..s
        }),
        (t.cfg is None) == (s.cfg is None),
        staged_by_governors(t.admin, t.governors, t.pending_config),
    ensures
        t.wf(),
{
    crate::prediction_market::history::lemma_settings_keep(s, t);
}

/// The configuration changes only when a staged change lands, or is first set:
/// at the earliest once the delay has passed since it was staged, with as many
/// approvals of different governors as are needed. Before that anybody can see
/// it and the admin can cancel it.
pub proof fn law_configuration_changes_wait(s: MarketState, ledger: Ledger, call: Call)
    requires
        s.wf(),
        s.cfg is Some,
    ensures
        s.after(ledger, call).cfg != s.cfg ==> {
            let change = s.pending_config->0;
            &&& call is ExecuteSetConfig
            &&& s.is_governor(call->ExecuteSetConfig_governor)
            &&& s.pending_config is Some
            &&& ledger.timestamp >= change.requested_at + CONFIG_DELAY_SECS
            &&& change.approvers.len() >= s.approvals_needed()
            &&& change.approvers.no_duplicates()
            &&& forall|i: int|
                0 <= i < change.approvers.len() ==> s.is_governor(#[trigger] change.approvers[i])
            &&& s.after(ledger, call).cfg == Some(change.cfg)
            &&& s.after(ledger, call).pinned_hashes == Some(change.pins)
            &&& s.after(ledger, call).pending_config is None
        },
{
    if !is_settings(call) {
        lemma_money_stages_nothing(s, ledger, call);
    }
}

/// No other call concerns a staged change.
proof fn lemma_only_governance_stages(s: MarketState, ledger: Ledger, call: Call)
    requires
        !(call is SetConfig),
        !(call is ApproveSetConfig),
        !(call is ExecuteSetConfig),
        !(call is CancelSetConfig),
    ensures
        s.after(ledger, call).pending_config == s.pending_config,
{
    if is_settings(call) {
        lemma_other_settings(s, ledger, call);
    } else {
        lemma_money_stages_nothing(s, ledger, call);
    }
}

proof fn lemma_other_settings(s: MarketState, ledger: Ledger, call: Call)
    requires
        is_settings(call),
        !(call is SetConfig),
        !(call is ApproveSetConfig),
        !(call is ExecuteSetConfig),
        !(call is CancelSetConfig),
    ensures
        s.after(ledger, call).pending_config == s.pending_config,
{
}

proof fn lemma_money_stages_nothing(s: MarketState, ledger: Ledger, call: Call)
    requires
        !is_settings(call),
    ensures
        s.after(ledger, call).cfg == s.cfg,
        s.after(ledger, call).pending_config == s.pending_config,
{
    if call is PlaceBet || call is ReducePosition || call is CancelRefund || call is Claim {
        lemma_positions_stage_nothing(s, ledger, call);
    } else if call is WithdrawFees || call is RequestWithdrawFees || call is ExecuteWithdrawFees
        || call is CancelWithdrawalRequest {
        lemma_fees_stage_nothing(s, ledger, call);
    } else {
        lemma_markets_stage_nothing(s, ledger, call);
    }
}

proof fn lemma_positions_stage_nothing(s: MarketState, ledger: Ledger, call: Call)
    requires
        call is PlaceBet || call is ReducePosition || call is CancelRefund || call is Claim,
    ensures
        s.after(ledger, call).cfg == s.cfg,
        s.after(ledger, call).pending_config == s.pending_config,
{
    let t = s.after(ledger, call);
    match call {
        Call::PlaceBet { user, id, is_yes, amount, referral_version } => {
            assert(t == s || t == s.with_bet(user, id, is_yes, amount));
        },
        Call::ReducePosition { user, id, amount } => {
            assert(t == s || t == s.with_less(user, id, amount));
        },
        _ => {},
    }
}

proof fn lemma_fees_stage_nothing(s: MarketState, ledger: Ledger, call: Call)
    requires
        call is WithdrawFees || call is RequestWithdrawFees || call is ExecuteWithdrawFees
            || call is CancelWithdrawalRequest,
    ensures
        s.after(ledger, call).cfg == s.cfg,
        s.after(ledger, call).pending_config == s.pending_config,
{
}

proof fn lemma_markets_stage_nothing(s: MarketState, ledger: Ledger, call: Call)
    requires
        call is CreateMarket || call is ResolveMarket || call is CancelMarket
            || call is FreezeMarket || call is FinalizeZeroSide,
    ensures
        s.after(ledger, call).cfg == s.cfg,
        s.after(ledger, call).pending_config == s.pending_config,
{
}

/// A staged change stays what it is, with its date and the approvals it has,
/// until it lands or the admin cancels it; meanwhile no other is staged.
pub proof fn law_staged_changes_stand(s: MarketState, ledger: Ledger, call: Call)
    requires
        s.wf(),
        s.pending_config is Some,
    ensures
        ({
            let before = s.pending_config->0;
            let t = s.after(ledger, call);
            &&& call is SetConfig ==> t == s
            &&& t.pending_config matches Some(after) ==> {
                &&& after.cfg == before.cfg
                &&& after.requested_at == before.requested_at
                &&& after.pins == before.pins
                &&& before.approvers.is_prefix_of(after.approvers)
                &&& after != before ==> call is ApproveSetConfig
            }
            &&& t.pending_config is None ==> call is ExecuteSetConfig || call is CancelSetConfig
            &&& call is CancelSetConfig && s.admin == Some(call->CancelSetConfig_admin)
                ==> t.pending_config is None && t.cfg == s.cfg
        }),
{
    let before = s.pending_config->0;
    match call {
        Call::SetConfig { governor, cfg, kinds } => {
            assert(s.set_config(ledger, governor, cfg, kinds) is Err);
        },
        Call::ApproveSetConfig { governor } => {
            let after = before.approved_by(governor);
            assert(before.approvers.is_prefix_of(after.approvers));
            assert(before.approvers.is_prefix_of(before.approvers));
        },
        Call::ExecuteSetConfig { governor } => {
            assert(before.approvers.is_prefix_of(before.approvers));
        },
        Call::CancelSetConfig { admin } => {
            assert(before.approvers.is_prefix_of(before.approvers));
        },
        _ => {
            lemma_only_governance_stages(s, ledger, call);
            assert(before.approvers.is_prefix_of(before.approvers));
        },
    }
}

} // verus!
