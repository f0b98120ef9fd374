//! State of the prediction market and the meaning of each entry point.
use crate::address::{Address, WasmHash};
use crate::env::{Effect, Env, Event, Ledger, Outcome};
use crate::prediction_market::types::{
    BetEntry, Category, Config, DataKey, ForfeitedPool, Market, MarketError, PendingConfig,
    PinnedHashes, Position, RateWindow, Role, WithdrawalRequest, BPS_DENOM, DISPUTE_WINDOW_SECS,
    INTERFACE_VERSION, LEADERBOARD_REWARD_INTERFACE_VERSION, LOSE_POINTS, MAX_BETS_PER_USER,
    MAX_MARKETS_PER_HOUR, MAX_OPEN_MARKETS, MAX_WITHDRAWAL_BPS, MIN_BET,
    MIN_MARKET_DURATION_SECS, NET_NUMERATOR, PLATFORM_FEE_BPS, RATE_WINDOW_LEDGERS,
    REFERRAL_CREDIT_INTERFACE_VERSION, WIN_POINTS, WIN_TOKENS, WITHDRAW_DELAY_SECS,
};
use crate::sums::sum;
use crate::table::{find, lookup, Table};
use vstd::prelude::*;

verus! {

/// The prediction market's storage. An absent entry is `None` or not in its
/// table.
#[derive(Clone, Debug)]
pub struct PredictionMarketContract {
    pub admin: Option<Address>,
    pub cfg: Option<Config>,
    pub market_count: Option<u64>,
    /// Fees that belong to no market, until they are moved to `legacy_fees`.
    pub accumulated_fees: Option<i128>,
    pub legacy_fees: Option<i128>,
    pub interface_version: Option<u32>,
    pub paused: Option<bool>,
    pub rate_window: Option<RateWindow>,
    pub open_markets: Option<u32>,
    pub markets: Table<u64, Market>,
    pub bets: Table<(u64, Address), BetEntry>,
    pub bettor_count: Table<u64, u32>,
    pub bettor_at: Table<(u64, u32), Address>,
    pub payouts: Table<(u64, Address), i128>,
    /// Fees taken on the bets of each market.
    pub market_fees: Table<u64, i128>,
    pub forfeited: Table<u64, ForfeitedPool>,
    pub resolvers: Table<Address, bool>,
    pub fee_recipients: Table<Address, bool>,
    pub has_referrer: Table<Address, bool>,
    pub pending_withdrawals: Table<Address, WithdrawalRequest>,
    pub trust_revoked: Table<Role, bool>,
    pub pending_config: Option<PendingConfig>,
    pub governors: Table<Address, bool>,
    pub governor_threshold: Option<u32>,
    pub pinned_hashes: Option<PinnedHashes>,
}

/// The meaning of [`PredictionMarketContract`].
#[verifier::ext_equal]
pub struct MarketState {
    pub admin: Option<Address>,
    pub cfg: Option<Config>,
    pub market_count: Option<u64>,
    pub accumulated_fees: Option<i128>,
    pub legacy_fees: Option<i128>,
    pub interface_version: Option<u32>,
    pub paused: Option<bool>,
    pub rate_window: Option<RateWindow>,
    pub open_markets: Option<u32>,
    pub markets: Map<u64, Market>,
    pub bets: Map<(u64, Address), BetEntry>,
    pub bettor_count: Map<u64, u32>,
    pub bettor_at: Map<(u64, u32), Address>,
    pub payouts: Map<(u64, Address), i128>,
    pub market_fees: Map<u64, i128>,
    pub forfeited: Map<u64, ForfeitedPool>,
    pub resolvers: Map<Address, bool>,
    pub fee_recipients: Map<Address, bool>,
    pub has_referrer: Map<Address, bool>,
    pub pending_withdrawals: Map<Address, WithdrawalRequest>,
    pub trust_revoked: Map<Role, bool>,
    pub pending_config: Option<ConfigChange>,
    pub governors: Map<Address, bool>,
    pub governor_threshold: Option<u32>,
    pub pinned_hashes: Option<PinnedHashes>,
}

/// The meaning of [`PendingConfig`].
#[verifier::ext_equal]
pub struct ConfigChange {
    pub cfg: Config,
    pub requested_at: u64,
    pub pins: PinnedHashes,
    pub approvers: Seq<Address>,
}

impl View for PendingConfig {
    type V = ConfigChange;

    open spec fn view(&self) -> ConfigChange {
        ConfigChange {
            cfg: self.cfg,
            requested_at: self.requested_at,
            pins: self.pins,
            approvers: self.approvers@,
        }
    }
}

impl View for PredictionMarketContract {
    type V = MarketState;

    open spec fn view(&self) -> MarketState {
        MarketState {
            admin: self.admin,
            cfg: self.cfg,
            market_count: self.market_count,
            accumulated_fees: self.accumulated_fees,
            legacy_fees: self.legacy_fees,
            interface_version: self.interface_version,
            paused: self.paused,
            rate_window: self.rate_window,
            open_markets: self.open_markets,
            markets: self.markets@,
            bets: self.bets@,
            bettor_count: self.bettor_count@,
            bettor_at: self.bettor_at@,
            payouts: self.payouts@,
            market_fees: self.market_fees@,
            forfeited: self.forfeited@,
            resolvers: self.resolvers@,
            fee_recipients: self.fee_recipients@,
            has_referrer: self.has_referrer@,
            pending_withdrawals: self.pending_withdrawals@,
            trust_revoked: self.trust_revoked@,
            pending_config: match self.pending_config {
                Some(change) => Some(change@),
                None => None,
            },
            governors: self.governors@,
            governor_threshold: self.governor_threshold,
            pinned_hashes: self.pinned_hashes,
        }
    }
}

/// The admin and whoever was made a governor decide over the configuration.
pub open spec fn governs(
    admin: Option<Address>,
    governors: Map<Address, bool>,
    who: Address,
) -> bool {
    admin == Some(who) || lookup(governors, who, false)
}

/// A staged change was proposed and approved by governors, each counted once.
pub open spec fn staged_by_governors(
    admin: Option<Address>,
    governors: Map<Address, bool>,
    pending: Option<ConfigChange>,
) -> bool {
    pending matches Some(change) ==> {
        &&& change.approvers.len() > 0
        &&& change.approvers.no_duplicates()
        &&& forall|i: int|
            0 <= i < change.approvers.len() ==> governs(
                admin,
                governors,
                #[trigger] change.approvers[i],
            )
    }
}

pub type Verdict<R> = Result<Outcome<MarketState, DataKey, R>, MarketError>;

/// Success that renews nothing.
pub open spec fn done<R>(state: MarketState, value: R, effects: Seq<Effect>) -> Verdict<R> {
    Ok(Outcome { state, value, effects, renewed: Set::empty(), instance_renewed: false })
}

/// Success that renews some entries.
pub open spec fn renewing<R>(
    state: MarketState,
    value: R,
    effects: Seq<Effect>,
    renewed: Set<DataKey>,
) -> Verdict<R> {
    Ok(Outcome { state, value, effects, renewed, instance_renewed: false })
}

/// The part of a bet that is staked.
pub open spec fn net_of(amount: int) -> int {
    amount * NET_NUMERATOR as int / BPS_DENOM as int
}

/// The part of a bet that the platform keeps.
pub open spec fn platform_of(amount: int) -> int {
    amount * PLATFORM_FEE_BPS as int / BPS_DENOM as int
}

/// The rest of a bet, which goes to the referral contract.
pub open spec fn referral_of(amount: int) -> int {
    amount - net_of(amount) - platform_of(amount)
}

/// The part of `whole` that `amount` makes up of `gross`, rounded down.
pub open spec fn part_of(whole: int, amount: int, gross: int) -> int {
    whole * amount / gross
}

/// The part of earned fees that one withdrawal may take.
pub open spec fn cap_of(earned: int) -> int {
    earned * MAX_WITHDRAWAL_BPS as int / BPS_DENOM as int
}

/// The role that a symbol names, if any.
pub open spec fn role_named(symbol: Seq<char>) -> Option<Role> {
    if symbol == "referral"@ {
        Some(Role::Referral)
    } else if symbol == "leaderboard"@ {
        Some(Role::Leaderboard)
    } else {
        None
    }
}

/// Why a dependency that reports `version` is refused.
pub open spec fn version_refusal(version: Option<u32>, required: u32) -> Option<MarketError> {
    match version {
        None => Some(MarketError::InterfaceVersionMissing),
        Some(v) => if v < required {
            Some(MarketError::IncompatibleInterface)
        } else {
            None
        },
    }
}

impl BetEntry {
    /// The net stake on one side.
    pub open spec fn staked_on(self, yes: bool) -> i128 {
        if self.is_yes == yes {
            self.net
        } else {
            self.hedge
        }
    }

    /// What a cancelled market pays back.
    pub open spec fn refundable(self) -> int {
        self.net + self.hedge + self.fee
    }

    /// The net stakes on both sides.
    pub open spec fn stakes(self) -> int {
        self.net + self.hedge
    }

    /// The part of a position that `amount` of what was paid in makes up. Net
    /// stake, both stakes, and all that can be refunded are each rounded down,
    /// so that no rounding adds up over the three.
    pub open spec fn part(self, amount: i128) -> BetEntry {
        let net = part_of(self.net as int, amount as int, self.gross as int);
        let stakes = part_of(self.stakes(), amount as int, self.gross as int);
        let all = part_of(self.refundable(), amount as int, self.gross as int);
        BetEntry {
            net: net as i128,
            hedge: (stakes - net) as i128,
            gross: amount,
            fee: (all - stakes) as i128,
            ..self
        }
    }

    /// What is left of a position once a part of it is taken off.
    pub open spec fn less(self, off: BetEntry) -> BetEntry {
        BetEntry {
            net: (self.net - off.net) as i128,
            hedge: (self.hedge - off.hedge) as i128,
            gross: (self.gross - off.gross) as i128,
            fee: (self.fee - off.fee) as i128,
            ..self
        }
    }

    /// No part is negative, never more can be refunded than was paid in, and
    /// something can as long as anything of what was paid in is left.
    pub open spec fn wf(self) -> bool {
        &&& self.net >= 0
        &&& self.hedge >= 0
        &&& self.fee >= 0
        &&& self.refundable() <= self.gross
        &&& self.gross > 0 ==> self.refundable() > 0
    }

    pub open spec fn position(self) -> Position {
        Position {
            net_yes: self.staked_on(true),
            net_no: self.staked_on(false),
            gross: self.gross,
            count: self.count,
        }
    }
}

impl Market {
    pub open spec fn open(self) -> bool {
        !self.resolved && !self.cancelled
    }

    /// The net stakes on one side.
    pub open spec fn side(self, yes: bool) -> i128 {
        if yes {
            self.total_yes
        } else {
            self.total_no
        }
    }

    /// The net stakes on both sides.
    pub open spec fn pool(self) -> int {
        self.total_yes + self.total_no
    }
}

/// What a position adds to the stakes on one side of a market.
pub open spec fn side_share(id: u64, yes: bool) -> spec_fn((u64, Address), BetEntry) -> int {
    |k: (u64, Address), e: BetEntry|
        if k.0 == id {
            e.staked_on(yes) as int
        } else {
            0
        }
}

/// What a position adds to the fees of a market.
pub open spec fn fee_share(id: u64) -> spec_fn((u64, Address), BetEntry) -> int {
    |k: (u64, Address), e: BetEntry|
        if k.0 == id {
            e.fee as int
        } else {
            0
        }
}

/// The payouts that a settlement sets, what they come to, and the entries it
/// renews.
pub struct Settlement {
    pub payouts: Map<(u64, Address), i128>,
    pub total: int,
    pub renewed: Set<DataKey>,
}

impl MarketState {
    pub open spec fn blank() -> MarketState {
        MarketState {
            admin: None,
            cfg: None,
            market_count: None,
            accumulated_fees: None,
            legacy_fees: None,
            interface_version: None,
            paused: None,
            rate_window: None,
            open_markets: None,
            markets: Map::empty(),
            bets: Map::empty(),
            bettor_count: Map::empty(),
            bettor_at: Map::empty(),
            payouts: Map::empty(),
            market_fees: Map::empty(),
            forfeited: Map::empty(),
            resolvers: Map::empty(),
            fee_recipients: Map::empty(),
            has_referrer: Map::empty(),
            pending_withdrawals: Map::empty(),
            trust_revoked: Map::empty(),
            pending_config: None,
            governors: Map::empty(),
            governor_threshold: None,
            pinned_hashes: None,
        }
    }

    pub open spec fn count(self) -> u64 {
        self.market_count.unwrap_or(0)
    }

    /// The fees that belong to no market.
    pub open spec fn legacy(self) -> i128 {
        match self.legacy_fees {
            Some(n) => n,
            None => self.accumulated_fees.unwrap_or(0),
        }
    }

    /// The state with other fees that belong to no market, kept where they are.
    pub open spec fn with_legacy(self, n: i128) -> MarketState {
        if self.legacy_fees is Some {
            MarketState { legacy_fees: Some(n), ..self }
        } else {
            MarketState { accumulated_fees: Some(n), ..self }
        }
    }

    pub open spec fn is_paused(self) -> bool {
        self.paused.unwrap_or(false)
    }

    pub open spec fn open_count(self) -> u32 {
        self.open_markets.unwrap_or(0)
    }

    pub open spec fn is_revoked(self, role: Role) -> bool {
        lookup(self.trust_revoked, role, false)
    }

    pub open spec fn is_resolver(self, who: Address) -> bool {
        lookup(self.resolvers, who, false)
    }

    pub open spec fn is_fee_recipient(self, who: Address) -> bool {
        lookup(self.fee_recipients, who, false)
    }

    pub open spec fn bettors(self, id: u64) -> u32 {
        lookup(self.bettor_count, id, 0)
    }

    pub open spec fn fees_of(self, id: u64) -> i128 {
        lookup(self.market_fees, id, 0)
    }

    pub open spec fn payout(self, id: u64, user: Address) -> i128 {
        lookup(self.payouts, (id, user), 0)
    }

    /// The user has something at stake in the market.
    pub open spec fn holds_stake(self, id: u64, user: Address) -> bool {
        self.bets.dom().contains((id, user)) && self.bets[(id, user)].gross > 0
    }

    /// The user has something at stake in some open market.
    pub open spec fn holds_open_stake(self, user: Address) -> bool {
        exists|id: u64| #[trigger]
            self.markets.dom().contains(id) && self.markets[id].open() && self.holds_stake(
                id,
                user,
            )
    }

    /// Every record is about a market that was created; the stakes and fees on
    /// record come to no more than their market's totals; nobody is twice in
    /// the index of a market's bettors; and while a market is open everybody
    /// in its index has a position on record.
    pub open spec fn wf(self) -> bool {
        &&& self.bets.dom().finite()
        &&& self.payouts.dom().finite()
        &&& self.legacy() >= 0
        &&& (self.admin is None) == (self.cfg is None)
        &&& self.admin is None ==> self.count() == 0 && self.legacy() == 0
        &&& staged_by_governors(self.admin, self.governors, self.pending_config)
        &&& forall|id: u64| #[trigger]
            self.markets.dom().contains(id) ==> 1 <= id <= self.count() && self.markets[id].id
                == id && self.markets[id].total_yes >= 0 && self.markets[id].total_no >= 0
        &&& forall|k: (u64, Address)| #[trigger]
            self.bets.dom().contains(k) ==> 1 <= k.0 <= self.count() && self.bets[k].wf()
        &&& forall|id: u64, yes: bool| #[trigger]
            self.markets.dom().contains(id) ==> sum(self.bets, #[trigger] side_share(id, yes))
                <= self.markets[id].side(yes)
        &&& forall|id: u64| #[trigger]
            self.markets.dom().contains(id) && self.markets[id].open() ==> sum(
                self.bets,
                fee_share(id),
            ) <= self.fees_of(id)
        &&& forall|id: u64| #[trigger]
            self.market_fees.dom().contains(id) ==> 1 <= id <= self.count()
                && self.market_fees[id] >= 0
        &&& forall|id: u64| #[trigger]
            self.bettor_count.dom().contains(id) ==> 1 <= id <= self.count()
        &&& forall|k: (u64, u32)| #[trigger]
            self.bettor_at.dom().contains(k) ==> 1 <= k.0 <= self.count() && k.1 < self.bettors(
                k.0,
            )
        &&& forall|id: u64, i: u32, j: u32| #[trigger]
            self.bettor_at.dom().contains((id, i)) && #[trigger] self.bettor_at.dom().contains(
                (id, j),
            ) && self.bettor_at[(id, i)] == self.bettor_at[(id, j)] ==> i == j
        &&& forall|k: (u64, u32)| #[trigger]
            self.bettor_at.dom().contains(k) && self.markets.dom().contains(k.0)
                && self.markets[k.0].open() ==> self.bets.dom().contains(
                (k.0, self.bettor_at[k]),
            )
        &&& forall|k: (u64, Address)| #[trigger]
            self.payouts.dom().contains(k) ==> 1 <= k.0 <= self.count() && self.payouts[k] >= 0
        &&& forall|id: u64| #[trigger]
            self.forfeited.dom().contains(id) ==> 1 <= id <= self.count()
                && self.forfeited[id].locked_fees >= 0
        &&& forall|who: Address| #[trigger]
            self.pending_withdrawals.dom().contains(who)
                ==> self.pending_withdrawals[who].amount > 0
    }

    // Fees.

    /// The market's fees are earned: it was settled and can no longer be
    /// cancelled.
    pub open spec fn settled(self, id: u64) -> bool {
        &&& self.markets.dom().contains(id)
        &&& self.markets[id].resolved
        &&& !self.markets[id].cancelled
    }

    /// The fees of the first `n` markets.
    pub open spec fn fees_upto(self, n: nat) -> int
        decreases n,
    {
        if n == 0 {
            0
        } else {
            self.fees_upto((n - 1) as nat) + self.fees_of(n as u64)
        }
    }

    /// The earned fees of the first `n` markets.
    pub open spec fn earned_upto(self, n: nat) -> int
        decreases n,
    {
        if n == 0 {
            0
        } else {
            self.earned_upto((n - 1) as nat) + (if self.settled(n as u64) {
                self.fees_of(n as u64) as int
            } else {
                0
            })
        }
    }

    /// All fees on record.
    pub open spec fn fees(self) -> int {
        self.legacy() + self.fees_upto(self.count() as nat)
    }

    /// The fees that can be withdrawn. Those of an open market are not among
    /// them: they back its refunds should it be cancelled.
    pub open spec fn earned(self) -> int {
        self.legacy() + self.earned_upto(self.count() as nat)
    }

    /// `fees` after `amount` is taken from the settled ones of the first `n`
    /// markets, newest first.
    pub open spec fn taken(self, fees: Map<u64, i128>, n: nat, amount: int) -> Map<u64, i128>
        decreases n,
    {
        if n == 0 || amount <= 0 {
            fees
        } else {
            let id = n as u64;
            let have = lookup(fees, id, 0);
            if self.settled(id) && have > 0 {
                let take = if have < amount {
                    have as int
                } else {
                    amount
                };
                self.taken(
                    fees.insert(id, (have - take) as i128),
                    (n - 1) as nat,
                    amount - take,
                )
            } else {
                self.taken(fees, (n - 1) as nat, amount)
            }
        }
    }

    /// The state after `amount` of the earned fees is paid out: first what
    /// belongs to no market, then from settled markets, newest first.
    pub open spec fn debited(self, amount: int) -> MarketState {
        let own = if self.legacy() < amount {
            self.legacy() as int
        } else {
            amount
        };
        MarketState {
            market_fees: self.taken(self.market_fees, self.count() as nat, amount - own),
            ..self.with_legacy((self.legacy() - own) as i128)
        }
    }

    /// The fees that belong to no market are kept apart from the old counter.
    pub open spec fn migrate_fee_ledger(self) -> MarketState {
        MarketState { legacy_fees: Some(self.legacy()), accumulated_fees: None, ..self }
    }

    // Guards.

    pub open spec fn admin_refusal(self, caller: Address) -> Option<MarketError> {
        match self.admin {
            None => Some(MarketError::NotInitialized),
            Some(admin) => if caller != admin {
                Some(MarketError::NotAdmin)
            } else {
                None
            },
        }
    }

    pub open spec fn resolver_refusal(self, caller: Address) -> Option<MarketError> {
        match self.admin {
            None => Some(MarketError::NotInitialized),
            Some(admin) => if caller == admin || self.is_resolver(caller) {
                None
            } else {
                Some(MarketError::NotResolver)
            },
        }
    }

    pub open spec fn treasurer_refusal(self, caller: Address) -> Option<MarketError> {
        match self.admin {
            None => Some(MarketError::NotInitialized),
            Some(admin) => if caller == admin || self.is_fee_recipient(caller) {
                None
            } else {
                Some(MarketError::NotAuthorized)
            },
        }
    }

    pub open spec fn recipient_refusal(self, caller: Address, recipient: Address) -> Option<
        MarketError,
    > {
        match self.admin {
            None => Some(MarketError::NotInitialized),
            Some(admin) => if recipient == admin || recipient == caller || self.is_fee_recipient(
                recipient,
            ) {
                None
            } else {
                Some(MarketError::InvalidFeeRecipient)
            },
        }
    }

    // Administration.

    pub open spec fn initialize(self, admin: Address, cfg: Config) -> Verdict<()> {
        if self.admin is Some {
            Err(MarketError::AlreadyInitialized)
        } else {
            done(
                MarketState {
                    admin: Some(admin),
                    cfg: Some(cfg),
                    market_count: Some(0),
                    accumulated_fees: Some(0),
                    interface_version: Some(INTERFACE_VERSION),
                    ..self
                },
                (),
                seq![Effect::RequireAuth(admin)],
            )
        }
    }

    pub open spec fn upgrade(self, admin: Address, hash: WasmHash) -> Verdict<()> {
        match self.admin_refusal(admin) {
            Some(e) => Err(e),
            None => done(
                self,
                (),
                seq![Effect::RequireAuth(admin), Effect::UpdateWasm(hash)],
            ),
        }
    }

    pub open spec fn set_interface_version(self, admin: Address, version: u32) -> Verdict<()> {
        match self.admin_refusal(admin) {
            Some(e) => Err(e),
            None => done(
                MarketState { interface_version: Some(version), ..self },
                (),
                seq![Effect::RequireAuth(admin)],
            ),
        }
    }

    pub open spec fn revoke_trust(self, admin: Address, role: Seq<char>) -> Verdict<()> {
        match self.admin_refusal(admin) {
            Some(e) => Err(e),
            None => match role_named(role) {
                None => Err(MarketError::InvalidRole),
                Some(r) => renewing(
                    MarketState { trust_revoked: self.trust_revoked.insert(r, true), ..self },
                    (),
                    seq![Effect::RequireAuth(admin)],
                    set![DataKey::TrustRevoked(r)],
                ),
            },
        }
    }

    pub open spec fn restore_trust(self, admin: Address, role: Seq<char>) -> Verdict<()> {
        match self.admin_refusal(admin) {
            Some(e) => Err(e),
            None => match role_named(role) {
                None => Err(MarketError::InvalidRole),
                Some(r) => done(
                    MarketState { trust_revoked: self.trust_revoked.remove(r), ..self },
                    (),
                    seq![Effect::RequireAuth(admin)],
                ),
            },
        }
    }

    pub open spec fn set_paused(self, admin: Address, paused: bool) -> Verdict<()> {
        match self.admin_refusal(admin) {
            Some(e) => Err(e),
            None => done(
                MarketState { paused: Some(paused), ..self },
                (),
                seq![Effect::RequireAuth(admin)],
            ),
        }
    }

    pub open spec fn add_resolver(self, admin: Address, resolver: Address) -> Verdict<()> {
        match self.admin_refusal(admin) {
            Some(e) => Err(e),
            None => if self.holds_open_stake(resolver) {
                Err(MarketError::ConflictOfInterest)
            } else {
                renewing(
                    MarketState { resolvers: self.resolvers.insert(resolver, true), ..self },
                    (),
                    seq![Effect::RequireAuth(admin)],
                    set![DataKey::Resolver(resolver)],
                )
            },
        }
    }

    pub open spec fn remove_resolver(self, admin: Address, resolver: Address) -> Verdict<()> {
        match self.admin_refusal(admin) {
            Some(e) => Err(e),
            None => done(
                MarketState { resolvers: self.resolvers.remove(resolver), ..self },
                (),
                seq![Effect::RequireAuth(admin)],
            ),
        }
    }

    pub open spec fn add_fee_recipient(self, admin: Address, recipient: Address) -> Verdict<()> {
        match self.admin_refusal(admin) {
            Some(e) => Err(e),
            None => renewing(
                MarketState {
                    fee_recipients: self.fee_recipients.insert(recipient, true),
                    ..self
                },
                (),
                seq![Effect::RequireAuth(admin)],
                set![DataKey::FeeRecipient(recipient)],
            ),
        }
    }

    pub open spec fn remove_fee_recipient(self, admin: Address, recipient: Address) -> Verdict<
        (),
    > {
        match self.admin_refusal(admin) {
            Some(e) => Err(e),
            None => done(
                MarketState { fee_recipients: self.fee_recipients.remove(recipient), ..self },
                (),
                seq![Effect::RequireAuth(admin)],
            ),
        }
    }

    // Markets.

    /// The rate window after one more market is created at this ledger.
    pub open spec fn next_window(self, ledger: Ledger) -> Option<RateWindow> {
        let w = self.rate_window.unwrap_or(RateWindow { start: 0, count: 0 });
        if ledger.sequence - w.start < RATE_WINDOW_LEDGERS {
            if w.count >= MAX_MARKETS_PER_HOUR {
                None
            } else {
                Some(RateWindow { start: w.start, count: (w.count + 1) as u32 })
            }
        } else {
            Some(RateWindow { start: ledger.sequence, count: 1 })
        }
    }

    /// Why no market can be created.
    pub open spec fn creation_refusal(
        self,
        ledger: Ledger,
        admin: Address,
        duration_secs: u64,
    ) -> Option<MarketError> {
        if self.is_paused() {
            Some(MarketError::ContractPaused)
        } else if self.admin_refusal(admin) is Some {
            self.admin_refusal(admin)
        } else if self.open_count() >= MAX_OPEN_MARKETS {
            Some(MarketError::TooManyOpenMarkets)
        } else if self.next_window(ledger) is None {
            Some(MarketError::RateLimitExceeded)
        } else if duration_secs < MIN_MARKET_DURATION_SECS {
            Some(MarketError::InvalidDuration)
        } else {
            None
        }
    }

    pub open spec fn create_market(
        self,
        ledger: Ledger,
        admin: Address,
        question: String,
        image_url: String,
        category: Category,
        duration_secs: u64,
    ) -> Verdict<u64> {
        let id = (self.count() + 1) as u64;
        let end_time = (ledger.timestamp + duration_secs) as u64;
        match self.creation_refusal(ledger, admin, duration_secs) {
            Some(e) => Err(e),
            None => renewing(
                MarketState {
                    rate_window: self.next_window(ledger),
                    open_markets: Some((self.open_count() + 1) as u32),
                    market_count: Some(id),
                    markets: self.markets.insert(
                        id,
                        Market {
                            id,
                            question,
                            image_url,
                            category,
                            end_time,
                            total_yes: 0,
                            total_no: 0,
                            resolved: false,
                            outcome: false,
                            cancelled: false,
                            creator: admin,
                            bet_count: 0,
                        },
                    ),
                    ..self
                },
                id,
                seq![
                    Effect::RequireAuth(admin),
                    Effect::Publish(
                        Event::MarketCreated { market_id: id, creator: admin, end_time },
                    ),
                ],
                set![DataKey::Market(id)],
            ),
        }
    }

    // Betting.

    /// Why a bet is refused, before the referral contract is asked.
    pub open spec fn bet_refusal(
        self,
        ledger: Ledger,
        user: Address,
        id: u64,
        amount: i128,
    ) -> Option<MarketError> {
        if self.is_paused() {
            Some(MarketError::ContractPaused)
        } else if net_of(amount as int) < MIN_BET {
            Some(MarketError::BetTooSmall)
        } else if !self.markets.dom().contains(id) {
            Some(MarketError::MarketNotFound)
        } else if self.markets[id].cancelled {
            Some(MarketError::MarketCancelled)
        } else if self.markets[id].resolved {
            Some(MarketError::MarketResolved)
        } else if ledger.timestamp >= self.markets[id].end_time {
            Some(MarketError::MarketExpired)
        } else if self.bets.dom().contains((id, user)) && self.bets[(id, user)].count
            >= MAX_BETS_PER_USER {
            Some(MarketError::TooManyBets)
        } else if self.is_revoked(Role::Referral) {
            Some(MarketError::TrustRevoked)
        } else if self.is_resolver(user) {
            Some(MarketError::ConflictOfInterest)
        } else {
            None
        }
    }

    /// The user's position once a bet is added to it.
    pub open spec fn raised(self, user: Address, id: u64, is_yes: bool, amount: i128) -> BetEntry {
        let net = net_of(amount as int);
        let fee = platform_of(amount as int);
        match find(self.bets, (id, user)) {
            Some(e) => BetEntry {
                net: if e.is_yes == is_yes {
                    (e.net + net) as i128
                } else {
                    e.net
                },
                hedge: if e.is_yes == is_yes {
                    e.hedge
                } else {
                    (e.hedge + net) as i128
                },
                gross: (e.gross + amount) as i128,
                fee: (e.fee + fee) as i128,
                count: (e.count + 1) as u32,
                ..e
            },
            None => BetEntry {
                net: net as i128,
                hedge: 0,
                gross: amount,
                fee: fee as i128,
                is_yes,
                claimed: false,
                count: 1,
            },
        }
    }

    /// The machine's counters can take the bet.
    pub open spec fn can_bet(self, user: Address, id: u64, is_yes: bool, amount: i128) -> bool {
        let m = self.markets[id];
        let e = lookup(
            self.bets,
            (id, user),
            BetEntry {
                net: 0,
                hedge: 0,
                gross: 0,
                fee: 0,
                is_yes,
                claimed: false,
                count: 0,
            },
        );
        &&& m.side(is_yes) + net_of(amount as int) <= i128::MAX
        &&& e.staked_on(is_yes) + net_of(amount as int) <= i128::MAX
        &&& e.gross + amount <= i128::MAX
        &&& e.fee + platform_of(amount as int) <= i128::MAX
        &&& self.fees_of(id) + platform_of(amount as int) <= i128::MAX
        &&& !self.bets.dom().contains((id, user)) ==> m.bet_count < u32::MAX && self.bettors(id)
            < u32::MAX
    }

    /// The state once a bet is on record.
    pub open spec fn with_bet(
        self,
        user: Address,
        id: u64,
        is_yes: bool,
        amount: i128,
    ) -> MarketState {
        let first = !self.bets.dom().contains((id, user));
        let m = self.markets[id];
        let net = net_of(amount as int);
        let n = self.bettors(id);
        MarketState {
            bets: self.bets.insert((id, user), self.raised(user, id, is_yes, amount)),
            bettor_at: if first {
                self.bettor_at.insert((id, n), user)
            } else {
                self.bettor_at
            },
            bettor_count: if first {
                self.bettor_count.insert(id, (n + 1) as u32)
            } else {
                self.bettor_count
            },
            markets: self.markets.insert(
                id,
                Market {
                    total_yes: if is_yes {
                        (m.total_yes + net) as i128
                    } else {
                        m.total_yes
                    },
                    total_no: if is_yes {
                        m.total_no
                    } else {
                        (m.total_no + net) as i128
                    },
                    bet_count: if first {
                        (m.bet_count + 1) as u32
                    } else {
                        m.bet_count
                    },
                    ..m
                },
            ),
            market_fees: self.market_fees.insert(
                id,
                (self.fees_of(id) + platform_of(amount as int)) as i128,
            ),
            ..self
        }
    }

    /// The referral contract answered whether it credited a referrer. The
    /// first answer for each user is kept.
    pub open spec fn credit_answered(self, user: Address, credited: bool) -> MarketState {
        MarketState {
            has_referrer: if self.has_referrer.dom().contains(user) {
                self.has_referrer
            } else {
                self.has_referrer.insert(user, credited)
            },
            ..self
        }
    }

    pub open spec fn bet_renews(self, user: Address, id: u64) -> Set<DataKey> {
        let own = set![DataKey::Bet(id, user), DataKey::Market(id), DataKey::MarketFees(id)];
        let index = if self.bets.dom().contains((id, user)) {
            Set::empty()
        } else {
            set![DataKey::BettorAt(id, self.bettors(id)), DataKey::BettorCount(id)]
        };
        own.union(index)
    }

    pub open spec fn place_bet(
        self,
        ledger: Ledger,
        user: Address,
        id: u64,
        is_yes: bool,
        amount: i128,
        referral_version: Option<u32>,
    ) -> Verdict<()> {
        let cfg = self.cfg->0;
        let fee = referral_of(amount as int) as i128;
        match self.bet_refusal(ledger, user, id, amount) {
            Some(e) => Err(e),
            None => match version_refusal(referral_version, REFERRAL_CREDIT_INTERFACE_VERSION) {
                Some(e) => Err(e),
                None => renewing(
                    self.with_bet(user, id, is_yes, amount),
                    (),
                    seq![
                        Effect::RequireAuth(user),
                        Effect::Transfer {
                            asset: cfg.xlm_sac,
                            from: user,
                            to: ledger.this,
                            amount,
                        },
                        Effect::Transfer {
                            asset: cfg.xlm_sac,
                            from: ledger.this,
                            to: cfg.referral,
                            amount: fee,
                        },
                        Effect::Credit { referral: cfg.referral, user, fee },
                        Effect::Publish(
                            Event::BetPlaced { market_id: id, user, is_yes, amount },
                        ),
                    ],
                    self.bet_renews(user, id),
                ),
            },
        }
    }

    // Reducing a position.

    /// Why a position cannot be reduced.
    pub open spec fn reduce_refusal(
        self,
        ledger: Ledger,
        user: Address,
        id: u64,
        amount: i128,
    ) -> Option<MarketError> {
        if self.is_paused() {
            Some(MarketError::ContractPaused)
        } else if amount <= 0 {
            Some(MarketError::InvalidAmount)
        } else if !self.markets.dom().contains(id) {
            Some(MarketError::MarketNotFound)
        } else if self.markets[id].cancelled {
            Some(MarketError::MarketCancelled)
        } else if self.markets[id].resolved {
            Some(MarketError::MarketResolved)
        } else if ledger.timestamp >= self.markets[id].end_time {
            Some(MarketError::MarketExpired)
        } else if !self.bets.dom().contains((id, user)) {
            Some(MarketError::NoBetFound)
        } else if amount > self.bets[(id, user)].gross {
            Some(MarketError::InvalidAmount)
        } else {
            None
        }
    }

    /// The machine can compute the parts of a reduction.
    pub open spec fn can_reduce(self, user: Address, id: u64, amount: i128) -> bool {
        self.bets[(id, user)].refundable() * amount <= i128::MAX
    }

    /// The index of bettors without one user of one market.
    pub open spec fn unlisted(self, id: u64, user: Address) -> Map<(u64, u32), Address> {
        Map::new(
            |k: (u64, u32)|
                self.bettor_at.dom().contains(k) && !(k.0 == id && self.bettor_at[k] == user),
            |k: (u64, u32)| self.bettor_at[k],
        )
    }

    /// The state once a part of a position is given back. A position of which
    /// nothing is left is deleted, and its place in the index is given up.
    pub open spec fn with_less(self, user: Address, id: u64, amount: i128) -> MarketState {
        let m = self.markets[id];
        let e = self.bets[(id, user)];
        let off = e.part(amount);
        let closed = amount == e.gross;
        MarketState {
            bets: if closed {
                self.bets.remove((id, user))
            } else {
                self.bets.insert((id, user), e.less(off))
            },
            bettor_at: if closed {
                self.unlisted(id, user)
            } else {
                self.bettor_at
            },
            markets: self.markets.insert(
                id,
                Market {
                    total_yes: (m.total_yes - off.staked_on(true)) as i128,
                    total_no: (m.total_no - off.staked_on(false)) as i128,
                    ..m
                },
            ),
            market_fees: self.market_fees.insert(id, (self.fees_of(id) - off.fee) as i128),
            ..self
        }
    }

    pub open spec fn reduce_renews(self, user: Address, id: u64, amount: i128) -> Set<DataKey> {
        let market = set![DataKey::Market(id), DataKey::MarketFees(id)];
        if amount == self.bets[(id, user)].gross {
            market
        } else {
            market.insert(DataKey::Bet(id, user))
        }
    }

    /// Give back a part of a position: that part of its net stakes and of the
    /// platform's share. The referral share left with the bet.
    pub open spec fn reduce_position(
        self,
        ledger: Ledger,
        user: Address,
        id: u64,
        amount: i128,
    ) -> Verdict<i128> {
        let refund = self.bets[(id, user)].part(amount).refundable() as i128;
        match self.reduce_refusal(ledger, user, id, amount) {
            Some(e) => Err(e),
            None => renewing(
                self.with_less(user, id, amount),
                refund,
                seq![
                    Effect::RequireAuth(user),
                    Effect::Transfer {
                        asset: self.cfg->0.xlm_sac,
                        from: ledger.this,
                        to: user,
                        amount: refund,
                    },
                ],
                self.reduce_renews(user, id, amount),
            ),
        }
    }

    // Settlement.

    /// What a position is paid once its market is resolved, if anything: its
    /// share of the pool by its stake on the outcome, or, where nobody bet on
    /// the outcome, its own stakes back.
    pub open spec fn payout_due(m: Market, outcome: bool, e: BetEntry) -> Option<int> {
        if m.side(outcome) > 0 {
            if e.staked_on(outcome) > 0 {
                Some(e.staked_on(outcome) * m.pool() / (m.side(outcome) as int))
            } else {
                None
            }
        } else if e.net + e.hedge > 0 {
            Some(e.net + e.hedge)
        } else {
            None
        }
    }

    /// The settlement of the positions in the first `n` places of the index.
    pub open spec fn settlement(self, id: u64, outcome: bool, n: nat) -> Settlement
        decreases n,
    {
        if n == 0 {
            Settlement { payouts: self.payouts, total: 0, renewed: Set::empty() }
        } else {
            let before = self.settlement(id, outcome, (n - 1) as nat);
            match find(self.bettor_at, (id, (n - 1) as u32)) {
                None => before,
                Some(user) => {
                    let slot = before.renewed.insert(DataKey::BettorAt(id, (n - 1) as u32));
                    match find(self.bets, (id, user)) {
                        None => Settlement { renewed: slot, ..before },
                        Some(e) => {
                            let bet = slot.insert(DataKey::Bet(id, user));
                            match MarketState::payout_due(self.markets[id], outcome, e) {
                                None => Settlement { renewed: bet, ..before },
                                Some(p) => Settlement {
                                    payouts: before.payouts.insert((id, user), p as i128),
                                    total: before.total + p,
                                    renewed: bet.insert(DataKey::Payout(id, user)),
                                },
                            }
                        },
                    }
                },
            }
        }
    }

    pub open spec fn full_settlement(self, id: u64, outcome: bool) -> Settlement {
        self.settlement(id, outcome, self.bettors(id) as nat)
    }

    /// Why a market cannot be resolved.
    pub open spec fn resolve_refusal(self, ledger: Ledger, caller: Address, id: u64) -> Option<
        MarketError,
    > {
        if self.is_paused() {
            Some(MarketError::ContractPaused)
        } else if self.resolver_refusal(caller) is Some {
            self.resolver_refusal(caller)
        } else if !self.markets.dom().contains(id) {
            Some(MarketError::MarketNotFound)
        } else if self.markets[id].resolved {
            Some(MarketError::MarketResolved)
        } else if self.markets[id].cancelled {
            Some(MarketError::MarketCancelled)
        } else if ledger.timestamp < self.markets[id].end_time {
            Some(MarketError::MarketNotExpired)
        } else if self.holds_stake(id, caller) {
            Some(MarketError::ConflictOfInterest)
        } else {
            None
        }
    }

    /// The machine can compute the settlement.
    pub open spec fn can_resolve(self, ledger: Ledger, id: u64, outcome: bool) -> bool {
        let m = self.markets[id];
        &&& m.pool() <= i128::MAX
        &&& self.fees_of(id) + m.pool() <= i128::MAX
        &&& m.side(outcome) > 0 ==> forall|i: u32| #[trigger]
            self.bettor_at.dom().contains((id, i)) && self.bets.dom().contains(
                (id, self.bettor_at[(id, i)]),
            ) ==> self.bets[(id, self.bettor_at[(id, i)])].staked_on(outcome) * m.pool()
                <= i128::MAX
        &&& m.side(outcome) == 0 ==> ledger.timestamp + DISPUTE_WINDOW_SECS <= u64::MAX
    }

    /// Where the pool of a resolved market goes: payouts are set, and what
    /// rounding leaves over joins the market's fees. Where nobody bet on the
    /// outcome the fees are held back instead.
    pub open spec fn paid_out(self, ledger: Ledger, id: u64, outcome: bool) -> MarketState {
        let m = self.markets[id];
        let settlement = self.full_settlement(id, outcome);
        let dust = m.pool() - settlement.total;
        if m.pool() == 0 {
            self
        } else if m.side(outcome) > 0 {
            MarketState {
                payouts: settlement.payouts,
                market_fees: self.market_fees.insert(id, (self.fees_of(id) + dust) as i128),
                ..self
            }
        } else {
            MarketState {
                payouts: settlement.payouts,
                market_fees: self.market_fees.remove(id),
                forfeited: self.forfeited.insert(
                    id,
                    ForfeitedPool {
                        amount: settlement.total as i128,
                        locked_fees: (self.fees_of(id) + dust) as i128,
                        disputable_until: (ledger.timestamp + DISPUTE_WINDOW_SECS) as u64,
                        frozen: false,
                    },
                ),
                ..self
            }
        }
    }

    pub open spec fn resolve_renews(self, id: u64, outcome: bool) -> Set<DataKey> {
        let m = self.markets[id];
        let walked = if m.pool() == 0 {
            Set::empty()
        } else if self.bettors(id) > 0 {
            self.full_settlement(id, outcome).renewed.insert(DataKey::BettorCount(id))
        } else {
            Set::empty()
        };
        walked.insert(DataKey::Market(id))
    }

    /// One market less is open.
    pub open spec fn one_less_open(self) -> Option<u32> {
        Some(
            if self.open_count() > 0 {
                (self.open_count() - 1) as u32
            } else {
                0
            },
        )
    }

    pub open spec fn resolve_market(
        self,
        ledger: Ledger,
        caller: Address,
        id: u64,
        outcome: bool,
    ) -> Verdict<()> {
        match self.resolve_refusal(ledger, caller, id) {
            Some(e) => Err(e),
            None => renewing(
                MarketState {
                    markets: self.markets.insert(
                        id,
                        Market { resolved: true, outcome, ..self.markets[id] },
                    ),
                    open_markets: self.one_less_open(),
                    ..self.paid_out(ledger, id, outcome)
                },
                (),
                seq![
                    Effect::RequireAuth(caller),
                    Effect::Publish(Event::MarketResolved { market_id: id, outcome }),
                ],
                self.resolve_renews(id, outcome),
            ),
        }
    }

    pub open spec fn cancel_refusal(self, admin: Address, id: u64) -> Option<MarketError> {
        if self.is_paused() {
            Some(MarketError::ContractPaused)
        } else if self.admin_refusal(admin) is Some {
            self.admin_refusal(admin)
        } else if !self.markets.dom().contains(id) {
            Some(MarketError::MarketNotFound)
        } else if self.markets[id].resolved {
            Some(MarketError::MarketResolved)
        } else if self.markets[id].cancelled {
            Some(MarketError::MarketCancelled)
        } else {
            None
        }
    }

    pub open spec fn cancel_market(self, admin: Address, id: u64) -> Verdict<()> {
        match self.cancel_refusal(admin, id) {
            Some(e) => Err(e),
            None => renewing(
                MarketState {
                    markets: self.markets.insert(
                        id,
                        Market { cancelled: true, ..self.markets[id] },
                    ),
                    market_fees: self.market_fees.remove(id),
                    open_markets: self.one_less_open(),
                    ..self
                },
                (),
                seq![Effect::RequireAuth(admin)],
                set![DataKey::Market(id)],
            ),
        }
    }

    pub open spec fn refund_refusal(self, user: Address, id: u64) -> Option<MarketError> {
        if !self.markets.dom().contains(id) {
            Some(MarketError::MarketNotFound)
        } else if !self.markets[id].cancelled {
            Some(MarketError::MarketNotCancelled)
        } else if !self.bets.dom().contains((id, user)) || self.bets[(id, user)].gross == 0 {
            Some(MarketError::NoBetFound)
        } else {
            None
        }
    }

    pub open spec fn cancel_refund(self, ledger: Ledger, user: Address, id: u64) -> Verdict<i128> {
        let e = self.bets[(id, user)];
        let refund = e.refundable() as i128;
        match self.refund_refusal(user, id) {
            Some(e) => Err(e),
            None => renewing(
                MarketState {
                    bets: self.bets.insert(
                        (id, user),
                        BetEntry { net: 0, hedge: 0, gross: 0, fee: 0, ..e },
                    ),
                    ..self
                },
                refund,
                seq![
                    Effect::RequireAuth(user),
                    Effect::Transfer {
                        asset: self.cfg->0.xlm_sac,
                        from: ledger.this,
                        to: user,
                        amount: refund,
                    },
                ],
                set![DataKey::Bet(id, user), DataKey::Market(id)],
            ),
        }
    }

    /// Why a claim is refused, before the leaderboard is asked.
    pub open spec fn claim_refusal(self, ledger: Ledger, user: Address, id: u64) -> Option<
        MarketError,
    > {
        if self.is_paused() {
            Some(MarketError::ContractPaused)
        } else if !self.markets.dom().contains(id) {
            Some(MarketError::MarketNotFound)
        } else if self.markets[id].cancelled {
            Some(MarketError::MarketCancelled)
        } else if !self.markets[id].resolved {
            Some(MarketError::MarketNotResolved)
        } else if !self.bets.dom().contains((id, user)) {
            Some(MarketError::NoBetFound)
        } else if self.bets[(id, user)].claimed {
            Some(MarketError::AlreadyClaimed)
        } else if self.forfeited.dom().contains(id) && ledger.timestamp
            < self.forfeited[id].disputable_until {
            Some(MarketError::DisputeWindowActive)
        } else if self.is_revoked(Role::Leaderboard) {
            Some(MarketError::TrustRevoked)
        } else {
            None
        }
    }

    /// What a claim asks of the host: the payout, if any, and the score.
    pub open spec fn claim_effects(self, ledger: Ledger, user: Address, id: u64) -> Seq<Effect> {
        let m = self.markets[id];
        let cfg = self.cfg->0;
        let payout = self.payout(id, user);
        let won = self.bets[(id, user)].staked_on(m.outcome) > 0;
        let pay = if payout > 0 {
            seq![
                Effect::Transfer {
                    asset: cfg.xlm_sac,
                    from: ledger.this,
                    to: user,
                    amount: payout,
                },
            ]
        } else {
            Seq::empty()
        };
        let score = if won {
            seq![
                Effect::Reward {
                    leaderboard: cfg.leaderboard,
                    user,
                    points: WIN_POINTS,
                    tokens: WIN_TOKENS,
                    is_winner: true,
                },
            ]
        } else {
            seq![
                Effect::AddPts { leaderboard: cfg.leaderboard, user, pts: 0, is_won: false },
                Effect::Penalize { leaderboard: cfg.leaderboard, user, points: LOSE_POINTS },
            ]
        };
        seq![Effect::RequireAuth(user)] + pay + score
    }

    pub open spec fn claim(
        self,
        ledger: Ledger,
        user: Address,
        id: u64,
        leaderboard_version: Option<u32>,
    ) -> Verdict<()> {
        match self.claim_refusal(ledger, user, id) {
            Some(e) => Err(e),
            None => match version_refusal(
                leaderboard_version,
                LEADERBOARD_REWARD_INTERFACE_VERSION,
            ) {
                Some(e) => Err(e),
                None => renewing(
                    MarketState {
                        bets: self.bets.insert(
                            (id, user),
                            BetEntry { claimed: true, ..self.bets[(id, user)] },
                        ),
                        ..self
                    },
                    (),
                    self.claim_effects(ledger, user, id),
                    set![DataKey::Bet(id, user), DataKey::Market(id)].union(
                        if self.payouts.dom().contains((id, user)) {
                            set![DataKey::Payout(id, user)]
                        } else {
                            Set::empty()
                        },
                    ),
                ),
            },
        }
    }

    // Disputes over an outcome that nobody bet on.

    pub open spec fn freeze_refusal(self, ledger: Ledger, admin: Address, id: u64) -> Option<
        MarketError,
    > {
        if self.is_paused() {
            Some(MarketError::ContractPaused)
        } else if self.admin_refusal(admin) is Some {
            self.admin_refusal(admin)
        } else if !self.markets.dom().contains(id) {
            Some(MarketError::MarketNotFound)
        } else if !self.forfeited.dom().contains(id) {
            Some(MarketError::NotZeroSide)
        } else if self.forfeited[id].frozen {
            Some(MarketError::MarketCancelled)
        } else if ledger.timestamp >= self.forfeited[id].disputable_until {
            Some(MarketError::DisputeWindowClosed)
        } else {
            None
        }
    }

    /// The payouts without those of the first `n` bettors of a market.
    pub open spec fn unpaid(self, id: u64, n: nat) -> Map<(u64, Address), i128>
        decreases n,
    {
        if n == 0 {
            self.payouts
        } else {
            match find(self.bettor_at, (id, (n - 1) as u32)) {
                Some(user) => self.unpaid(id, (n - 1) as nat).remove((id, user)),
                None => self.unpaid(id, (n - 1) as nat),
            }
        }
    }

    pub open spec fn freeze_market(self, ledger: Ledger, admin: Address, id: u64) -> Verdict<()> {
        match self.freeze_refusal(ledger, admin, id) {
            Some(e) => Err(e),
            None => renewing(
                MarketState {
                    markets: self.markets.insert(
                        id,
                        Market { cancelled: true, ..self.markets[id] },
                    ),
                    payouts: self.unpaid(id, self.bettors(id) as nat),
                    forfeited: self.forfeited.insert(
                        id,
                        ForfeitedPool { frozen: true, ..self.forfeited[id] },
                    ),
                    ..self
                },
                (),
                seq![Effect::RequireAuth(admin)],
                set![DataKey::Market(id), DataKey::ForfeitedPool(id)],
            ),
        }
    }

    pub open spec fn finalize_refusal(self, ledger: Ledger, id: u64) -> Option<MarketError> {
        if self.is_paused() {
            Some(MarketError::ContractPaused)
        } else if !self.forfeited.dom().contains(id) {
            Some(MarketError::NotZeroSide)
        } else if self.forfeited[id].frozen {
            Some(MarketError::MarketCancelled)
        } else if ledger.timestamp < self.forfeited[id].disputable_until {
            Some(MarketError::DisputeWindowActive)
        } else {
            None
        }
    }

    pub open spec fn finalize_zero_side(self, ledger: Ledger, id: u64) -> Verdict<()> {
        match self.finalize_refusal(ledger, id) {
            Some(e) => Err(e),
            None => renewing(
                MarketState {
                    market_fees: self.market_fees.insert(
                        id,
                        (self.fees_of(id) + self.forfeited[id].locked_fees) as i128,
                    ),
                    forfeited: self.forfeited.remove(id),
                    ..self
                },
                (),
                Seq::empty(),
                set![DataKey::MarketFees(id)],
            ),
        }
    }

    // Withdrawals.

    /// What an immediate withdrawal takes: as much as one withdrawal may, and
    /// the rest once that rounds to nothing.
    pub open spec fn immediate_amount(self) -> int {
        if cap_of(self.earned()) > 0 {
            cap_of(self.earned())
        } else {
            self.earned()
        }
    }

    pub open spec fn withdraw_refusal(self, caller: Address, recipient: Address) -> Option<
        MarketError,
    > {
        if self.is_paused() {
            Some(MarketError::ContractPaused)
        } else if self.admin_refusal(caller) is Some {
            self.admin_refusal(caller)
        } else if self.recipient_refusal(caller, recipient) is Some {
            self.recipient_refusal(caller, recipient)
        } else if self.earned() == 0 {
            Some(MarketError::NoFeesToWithdraw)
        } else {
            None
        }
    }

    pub open spec fn withdraw_fees(
        self,
        ledger: Ledger,
        caller: Address,
        recipient: Address,
    ) -> Verdict<i128> {
        let amount = self.immediate_amount() as i128;
        match self.withdraw_refusal(caller, recipient) {
            Some(e) => Err(e),
            None => done(
                self.debited(self.immediate_amount()),
                amount,
                seq![
                    Effect::RequireAuth(caller),
                    Effect::Transfer {
                        asset: self.cfg->0.xlm_sac,
                        from: ledger.this,
                        to: recipient,
                        amount,
                    },
                ],
            ),
        }
    }

    pub open spec fn request_refusal(
        self,
        caller: Address,
        recipient: Address,
        amount: i128,
    ) -> Option<MarketError> {
        if self.is_paused() {
            Some(MarketError::ContractPaused)
        } else if self.treasurer_refusal(caller) is Some {
            self.treasurer_refusal(caller)
        } else if self.recipient_refusal(caller, recipient) is Some {
            self.recipient_refusal(caller, recipient)
        } else if amount <= 0 {
            Some(MarketError::InvalidAmount)
        } else if self.pending_withdrawals.dom().contains(caller) {
            Some(MarketError::WithdrawalRequestExists)
        } else if amount > self.earned() || amount > cap_of(self.earned()) {
            Some(MarketError::WithdrawalTooLarge)
        } else {
            None
        }
    }

    pub open spec fn request_withdraw_fees(
        self,
        ledger: Ledger,
        caller: Address,
        recipient: Address,
        amount: i128,
    ) -> Verdict<()> {
        match self.request_refusal(caller, recipient, amount) {
            Some(e) => Err(e),
            None => renewing(
                MarketState {
                    pending_withdrawals: self.pending_withdrawals.insert(
                        caller,
                        WithdrawalRequest {
                            recipient,
                            amount,
                            requested_at: ledger.timestamp,
                        },
                    ),
                    ..self
                },
                (),
                seq![Effect::RequireAuth(caller)],
                set![DataKey::PendingWithdrawal(caller)],
            ),
        }
    }

    pub open spec fn execute_refusal(self, ledger: Ledger, caller: Address) -> Option<
        MarketError,
    > {
        let req = self.pending_withdrawals[caller];
        if self.is_paused() {
            Some(MarketError::ContractPaused)
        } else if !self.pending_withdrawals.dom().contains(caller) {
            Some(MarketError::NoWithdrawalRequest)
        } else if self.treasurer_refusal(caller) is Some {
            self.treasurer_refusal(caller)
        } else if ledger.timestamp - req.requested_at < WITHDRAW_DELAY_SECS {
            Some(MarketError::WithdrawalTooSoon)
        } else if self.earned() < req.amount {
            Some(MarketError::WithdrawalTooLarge)
        } else {
            None
        }
    }

    pub open spec fn execute_withdraw_fees(self, ledger: Ledger, caller: Address) -> Verdict<
        i128,
    > {
        let req = self.pending_withdrawals[caller];
        match self.execute_refusal(ledger, caller) {
            Some(e) => Err(e),
            None => done(
                MarketState {
                    pending_withdrawals: self.pending_withdrawals.remove(caller),
                    ..self.debited(req.amount as int)
                },
                req.amount,
                seq![
                    Effect::RequireAuth(caller),
                    Effect::Transfer {
                        asset: self.cfg->0.xlm_sac,
                        from: ledger.this,
                        to: req.recipient,
                        amount: req.amount,
                    },
                ],
            ),
        }
    }

    pub open spec fn cancel_withdrawal_request(self, admin: Address, caller: Address) -> Verdict<
        (),
    > {
        match self.admin_refusal(admin) {
            Some(e) => Err(e),
            None => if !self.pending_withdrawals.dom().contains(caller) {
                Err(MarketError::NoWithdrawalRequest)
            } else {
                done(
                    MarketState {
                        pending_withdrawals: self.pending_withdrawals.remove(caller),
                        ..self
                    },
                    (),
                    seq![Effect::RequireAuth(admin)],
                )
            },
        }
    }

    // Reading.

    /// The bettors found in places `from..to` of a market's index.
    pub open spec fn indexed(self, id: u64, from: nat, to: nat) -> Seq<Address>
        decreases to,
    {
        if to <= from {
            Seq::empty()
        } else {
            let before = self.indexed(id, from, (to - 1) as nat);
            match find(self.bettor_at, (id, (to - 1) as u32)) {
                Some(user) => before.push(user),
                None => before,
            }
        }
    }

    /// The index entries found in places `from..to`.
    pub open spec fn indexed_keys(self, id: u64, from: nat, to: nat) -> Set<DataKey>
        decreases to,
    {
        if to <= from {
            Set::empty()
        } else {
            let before = self.indexed_keys(id, from, (to - 1) as nat);
            match find(self.bettor_at, (id, (to - 1) as u32)) {
                Some(_) => before.insert(DataKey::BettorAt(id, (to - 1) as u32)),
                None => before,
            }
        }
    }

    /// What asking for a page of bettors returns and keeps alive.
    pub open spec fn paged(
        self,
        id: u64,
        start: u32,
        limit: u32,
        env: (Env<DataKey>, Env<DataKey>),
        r: Result<Vec<Address>, MarketError>,
    ) -> bool {
        let end = self.page_end(id, start, limit);
        if self.markets.dom().contains(id) {
            &&& r matches Ok(page) && page@ == self.indexed(id, start as nat, end)
            &&& env.1.asks(
                env.0,
                Seq::empty(),
                (if self.bettors(id) > 0 {
                    set![DataKey::BettorCount(id)]
                } else {
                    Set::empty()
                }).union(self.indexed_keys(id, start as nat, end)),
                false,
            )
        } else {
            &&& r == Err::<Vec<Address>, MarketError>(MarketError::MarketNotFound)
            &&& env.1 == env.0
        }
    }

    /// Where a page that starts at `start` ends.
    pub open spec fn page_end(self, id: u64, start: u32, limit: u32) -> nat {
        let len = if limit < crate::prediction_market::types::MAX_BETTORS_PER_PAGE {
            limit as nat
        } else {
            crate::prediction_market::types::MAX_BETTORS_PER_PAGE as nat
        };
        if start + len < self.bettors(id) {
            (start + len) as nat
        } else {
            self.bettors(id) as nat
        }
    }
}

} // verus!
