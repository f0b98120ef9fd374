//! The prediction market's entry points.
use crate::address::{Address, WasmHash};
use crate::env::{settles, Effect, Env, Event};
use crate::prediction_market::keeping::{
    lemma_bet_keeps, lemma_closing_keeps, lemma_creation_keeps, lemma_fees_keep,
    lemma_position_covered, lemma_position_keeps, lemma_position_part, lemma_reduction_keeps,
    lemma_smaller_products,
    lemma_requests_keep, lemma_resolution_keeps, lemma_split, lemma_unpaid,
};
use crate::prediction_market::history::lemma_settings_keep;
use crate::prediction_market::settling::{lemma_settlement_within_pool, lemma_share_rounds_down};
use crate::prediction_market::state::{
    part_of, role_named, version_refusal, MarketState, PredictionMarketContract,
};
use crate::prediction_market::types::{
    Bet, BetEntry, Category, Config, DataKey, ForfeitedPool, Market, MarketError, Position,
    RateWindow, Role, WithdrawalRequest, BPS_DENOM, DISPUTE_WINDOW_SECS, INTERFACE_VERSION,
    LEADERBOARD_REWARD_INTERFACE_VERSION, LOSE_POINTS, MAX_BETS_PER_USER,
    MAX_BETTORS_PER_PAGE, MAX_MARKETS_PER_HOUR, MAX_OPEN_MARKETS, MAX_WITHDRAWAL_BPS, MIN_BET,
    MIN_MARKET_DURATION_SECS, NET_NUMERATOR, PLATFORM_FEE_BPS, RATE_WINDOW_LEDGERS,
    REFERRAL_CREDIT_INTERFACE_VERSION, WIN_POINTS, WIN_TOKENS, WITHDRAW_DELAY_SECS,
};
use crate::table::{find, Table};
use vstd::prelude::*;

verus! {

broadcast use crate::table::Table::lemma_finite;

/// A guard's answer as a result.
pub open spec fn refused(e: Option<MarketError>) -> Result<(), MarketError> {
    match e {
        Some(e) => Err(e),
        None => Ok(()),
    }
}

impl PredictionMarketContract {
    /// Freshly deployed: nothing is stored yet.
    pub fn new() -> (m: Self)
        ensures
            m@.wf(),
            m@ == MarketState::blank(),
    {
        PredictionMarketContract {
            admin: None,
            cfg: None,
            market_count: None,
            accumulated_fees: None,
            legacy_fees: None,
            interface_version: None,
            paused: None,
            rate_window: None,
            open_markets: None,
            markets: Table::new(),
            bets: Table::new(),
            bettor_count: Table::new(),
            bettor_at: Table::new(),
            payouts: Table::new(),
            market_fees: Table::new(),
            forfeited: Table::new(),
            resolvers: Table::new(),
            fee_recipients: Table::new(),
            has_referrer: Table::new(),
            pending_withdrawals: Table::new(),
            trust_revoked: Table::new(),
            pending_config: None,
            governors: Table::new(),
            governor_threshold: None,
            pinned_hashes: None,
        }
    }

    pub fn initialize(
        &mut self,
        env: &mut Env<DataKey>,
        admin: Address,
        token_contract: Address,
        referral_contract: Address,
        leaderboard_contract: Address,
        xlm_sac: Address,
    ) -> (r: Result<(), MarketError>)
        requires
            old(self)@.wf(),
        ensures
            final(self)@.wf(),
            settles(
                old(self)@.initialize(
                    admin,
                    Config {
                        token: token_contract,
                        referral: referral_contract,
                        leaderboard: leaderboard_contract,
                        xlm_sac,
                    },
                ),
                (old(self)@, final(self)@),
                (*old(env), *final(env)),
                r,
            ),
    {
        if self.admin.is_some() {
            return Err(MarketError::AlreadyInitialized);
        }
        env.ask(Effect::RequireAuth(admin));
        self.admin = Some(admin);
        self.cfg = Some(
            Config {
                token: token_contract,
                referral: referral_contract,
                leaderboard: leaderboard_contract,
                xlm_sac,
            },
        );
        self.market_count = Some(0);
        self.accumulated_fees = Some(0);
        self.interface_version = Some(INTERFACE_VERSION);
        Ok(())
    }

    /// Replace the contract's code in place. Admin only.
    pub fn upgrade(
        &mut self,
        env: &mut Env<DataKey>,
        admin: Address,
        new_wasm_hash: WasmHash,
    ) -> (r: Result<(), MarketError>)
        requires
            old(self)@.wf(),
        ensures
            final(self)@.wf(),
            settles(
                old(self)@.upgrade(admin, new_wasm_hash),
                (old(self)@, final(self)@),
                (*old(env), *final(env)),
                r,
            ),
    {
        self.require_admin(admin)?;
        env.ask(Effect::RequireAuth(admin));
        env.ask(Effect::UpdateWasm(new_wasm_hash));
        Ok(())
    }

    /// The contracts that the market works with.
    pub fn get_config(&self) -> (cfg: Config)
        requires
            self@.cfg is Some,
        ensures
            Some(cfg) == self@.cfg,
    {
        self.cfg.unwrap()
    }

    /// The declared interface version; 0 if none was declared.
    pub fn interface_version(&self) -> (v: u32)
        ensures
            v == self@.interface_version.unwrap_or(0),
    {
        self.interface_version.unwrap_or(0)
    }

    /// Declare the interface version. Admin only.
    pub fn set_interface_version(
        &mut self,
        env: &mut Env<DataKey>,
        admin: Address,
        version: u32,
    ) -> (r: Result<(), MarketError>)
        requires
            old(self)@.wf(),
        ensures
            final(self)@.wf(),
            settles(
                old(self)@.set_interface_version(admin, version),
                (old(self)@, final(self)@),
                (*old(env), *final(env)),
                r,
            ),
    {
        self.require_admin(admin)?;
        env.ask(Effect::RequireAuth(admin));
        self.interface_version = Some(version);
        Ok(())
    }

    /// Sever the dependency on another contract. Admin only. What relies on it
    /// is refused until the trust is restored.
    pub fn revoke_trust(
        &mut self,
        env: &mut Env<DataKey>,
        admin: Address,
        role: String,
    ) -> (r: Result<(), MarketError>)
        requires
            old(self)@.wf(),
        ensures
            final(self)@.wf(),
            settles(
                old(self)@.revoke_trust(admin, role@),
                (old(self)@, final(self)@),
                (*old(env), *final(env)),
                r,
            ),
    {
        self.require_admin(admin)?;
        match Self::role_of(&role) {
            None => Err(MarketError::InvalidRole),
            Some(known) => {
                env.ask(Effect::RequireAuth(admin));
                self.trust_revoked.set(known, true);
                env.renew(DataKey::TrustRevoked(known));
                Ok(())
            },
        }
    }

    /// Trust another contract again. Admin only. There is no other way to end a
    /// revocation.
    pub fn restore_trust(
        &mut self,
        env: &mut Env<DataKey>,
        admin: Address,
        role: String,
    ) -> (r: Result<(), MarketError>)
        requires
            old(self)@.wf(),
        ensures
            final(self)@.wf(),
            settles(
                old(self)@.restore_trust(admin, role@),
                (old(self)@, final(self)@),
                (*old(env), *final(env)),
                r,
            ),
    {
        self.require_admin(admin)?;
        match Self::role_of(&role) {
            None => Err(MarketError::InvalidRole),
            Some(known) => {
                env.ask(Effect::RequireAuth(admin));
                self.trust_revoked.remove(known);
                Ok(())
            },
        }
    }

    pub fn is_trust_revoked(&self, role: String) -> (b: bool)
        ensures
            b == (role_named(role@) matches Some(r) && self@.is_revoked(r)),
    {
        match Self::role_of(&role) {
            Some(known) => self.trust_revoked.get_or(known, false),
            None => false,
        }
    }

    fn role_of(role: &String) -> (r: Option<Role>)
        ensures
            r == role_named(role@),
    {
        if *role == String::from_str("referral") {
            Some(Role::Referral)
        } else if *role == String::from_str("leaderboard") {
            Some(Role::Leaderboard)
        } else {
            None
        }
    }

    /// Halt betting, settlement and withdrawals in an emergency. Admin only.
    /// Reading and refunds keep working.
    pub fn pause(
        &mut self,
        env: &mut Env<DataKey>,
        admin: Address,
    ) -> (r: Result<(), MarketError>)
        requires
            old(self)@.wf(),
        ensures
            final(self)@.wf(),
            settles(
                old(self)@.set_paused(admin, true),
                (old(self)@, final(self)@),
                (*old(env), *final(env)),
                r,
            ),
    {
        self.set_paused(env, admin, true)
    }

    /// Resume. Admin only.
    pub fn unpause(
        &mut self,
        env: &mut Env<DataKey>,
        admin: Address,
    ) -> (r: Result<(), MarketError>)
        requires
            old(self)@.wf(),
        ensures
            final(self)@.wf(),
            settles(
                old(self)@.set_paused(admin, false),
                (old(self)@, final(self)@),
                (*old(env), *final(env)),
                r,
            ),
    {
        self.set_paused(env, admin, false)
    }

    /// `pause` or `unpause`, as `paused` says.
    pub fn set_paused(
        &mut self,
        env: &mut Env<DataKey>,
        admin: Address,
        paused: bool,
    ) -> (r: Result<(), MarketError>)
        requires
            old(self)@.wf(),
        ensures
            final(self)@.wf(),
            settles(
                old(self)@.set_paused(admin, paused),
                (old(self)@, final(self)@),
                (*old(env), *final(env)),
                r,
            ),
    {
        self.require_admin(admin)?;
        env.ask(Effect::RequireAuth(admin));
        self.paused = Some(paused);
        Ok(())
    }

    pub fn is_paused(&self) -> (b: bool)
        ensures
            b == self@.is_paused(),
    {
        self.paused.unwrap_or(false)
    }

    pub fn paused(&self) -> (b: bool)
        ensures
            b == self@.is_paused(),
    {
        self.is_paused()
    }

    /// Let an address resolve markets. Admin only. Whoever has a stake in an
    /// open market cannot be given that role.
    pub fn add_resolver(
        &mut self,
        env: &mut Env<DataKey>,
        admin: Address,
        resolver: Address,
    ) -> (r: Result<(), MarketError>)
        requires
            old(self)@.wf(),
        ensures
            final(self)@.wf(),
            settles(
                old(self)@.add_resolver(admin, resolver),
                (old(self)@, final(self)@),
                (*old(env), *final(env)),
                r,
            ),
    {
        self.require_admin(admin)?;
        if self.has_open_stake(resolver) {
            return Err(MarketError::ConflictOfInterest);
        }
        env.ask(Effect::RequireAuth(admin));
        self.resolvers.set(resolver, true);
        env.renew(DataKey::Resolver(resolver));
        Ok(())
    }

    /// Take the role of resolver away. Admin only.
    pub fn remove_resolver(
        &mut self,
        env: &mut Env<DataKey>,
        admin: Address,
        resolver: Address,
    ) -> (r: Result<(), MarketError>)
        requires
            old(self)@.wf(),
        ensures
            final(self)@.wf(),
            settles(
                old(self)@.remove_resolver(admin, resolver),
                (old(self)@, final(self)@),
                (*old(env), *final(env)),
                r,
            ),
    {
        self.require_admin(admin)?;
        env.ask(Effect::RequireAuth(admin));
        self.resolvers.remove(resolver);
        Ok(())
    }

    pub fn is_resolver(&self, resolver: Address) -> (b: bool)
        ensures
            b == self@.is_resolver(resolver),
    {
        self.resolvers.get_or(resolver, false)
    }

    fn has_stake(&self, id: u64, user: Address) -> (b: bool)
        ensures
            b == self@.holds_stake(id, user),
    {
        match self.bets.find((id, user)) {
            Some(e) => e.gross > 0,
            None => false,
        }
    }

    fn has_open_stake(&self, user: Address) -> (b: bool)
        requires
            self@.wf(),
        ensures
            b == self@.holds_open_stake(user),
    {
        let n: u64 = self.market_count.unwrap_or(0);
        let mut id: u64 = 0;
        while id < n
            invariant
                id <= n,
                n == self@.count(),
                forall|i: u64|
                    1 <= i <= id && #[trigger] self@.markets.dom().contains(i)
                        && self@.markets[i].open() ==> !self@.holds_stake(i, user),
            decreases n - id,
        {
            id = id + 1;
            if let Some(m) = self.markets.get(id) {
                if !m.resolved && !m.cancelled && self.has_stake(id, user) {
                    assert(self@.markets.dom().contains(id));
                    return true;
                }
            }
        }
        false
    }

    /// Let an address receive and request fee withdrawals. Admin only.
    pub fn add_fee_recipient(
        &mut self,
        env: &mut Env<DataKey>,
        admin: Address,
        recipient: Address,
    ) -> (r: Result<(), MarketError>)
        requires
            old(self)@.wf(),
        ensures
            final(self)@.wf(),
            settles(
                old(self)@.add_fee_recipient(admin, recipient),
                (old(self)@, final(self)@),
                (*old(env), *final(env)),
                r,
            ),
    {
        self.require_admin(admin)?;
        env.ask(Effect::RequireAuth(admin));
        self.fee_recipients.set(recipient, true);
        env.renew(DataKey::FeeRecipient(recipient));
        Ok(())
    }

    /// Take the role of fee recipient away. Admin only.
    pub fn remove_fee_recipient(
        &mut self,
        env: &mut Env<DataKey>,
        admin: Address,
        recipient: Address,
    ) -> (r: Result<(), MarketError>)
        requires
            old(self)@.wf(),
        ensures
            final(self)@.wf(),
            settles(
                old(self)@.remove_fee_recipient(admin, recipient),
                (old(self)@, final(self)@),
                (*old(env), *final(env)),
                r,
            ),
    {
        self.require_admin(admin)?;
        env.ask(Effect::RequireAuth(admin));
        self.fee_recipients.remove(recipient);
        Ok(())
    }

    /// Open a market. Admin only. Returns its number.
    pub fn create_market(
        &mut self,
        env: &mut Env<DataKey>,
        admin: Address,
        question: String,
        image_url: String,
        category: Category,
        duration_secs: u64,
    ) -> (r: Result<u64, MarketError>)
        requires
            old(self)@.wf(),
            old(self)@.creation_refusal(old(env).ledger, admin, duration_secs) is None ==> old(
                self,
            )@.count() < u64::MAX && old(env).ledger.timestamp + duration_secs <= u64::MAX,
        ensures
            final(self)@.wf(),
            settles(
                old(self)@.create_market(
                    old(env).ledger,
                    admin,
                    question,
                    image_url,
                    category,
                    duration_secs,
                ),
                (old(self)@, final(self)@),
                (*old(env), *final(env)),
                r,
            ),
    {
        self.require_not_paused()?;
        self.require_admin(admin)?;
        if self.get_open_market_count() >= MAX_OPEN_MARKETS {
            return Err(MarketError::TooManyOpenMarkets);
        }
        let window: RateWindow = self.check_rate(env)?;
        if duration_secs < MIN_MARKET_DURATION_SECS {
            return Err(MarketError::InvalidDuration);
        }
        let market_id: u64 = self.get_market_count() + 1;
        let end_time: u64 = env.ledger.timestamp + duration_secs;
        let market = Market {
            id: market_id,
            question,
            image_url,
            category,
            end_time,
            total_yes: 0,
            total_no: 0,
            resolved: false,
            outcome: false,
            cancelled: false,
            creator: admin,
            bet_count: 0,
        };
        let ghost m = market;
        env.ask(Effect::RequireAuth(admin));
        self.rate_window = Some(window);
        self.open_markets = Some(self.get_open_market_count() + 1);
        self.markets.set(market_id, market);
        env.renew(DataKey::Market(market_id));
        self.market_count = Some(market_id);
        env.ask(
            Effect::Publish(Event::MarketCreated { market_id, creator: admin, end_time }),
        );
        proof {
            lemma_creation_keeps(old(self)@, m, self@);
        }
        Ok(market_id)
    }

    /// Bet `amount` on one side of a market.
    ///
    /// The net stake joins that side, the platform's share joins the market's
    /// fees, and the rest goes to the referral contract, whose interface
    /// version, as far as it reports one, is `referral_version`.
    pub fn place_bet(
        &mut self,
        env: &mut Env<DataKey>,
        user: Address,
        market_id: u64,
        is_yes: bool,
        amount: i128,
        referral_version: Option<u32>,
    ) -> (r: Result<(), MarketError>)
        requires
            old(self)@.wf(),
            old(self)@.is_paused() || amount * NET_NUMERATOR <= i128::MAX,
            old(self)@.place_bet(
                old(env).ledger,
                user,
                market_id,
                is_yes,
                amount,
                referral_version,
            ) is Ok ==> old(self)@.can_bet(user, market_id, is_yes, amount),
        ensures
            final(self)@.wf(),
            settles(
                old(self)@.place_bet(
                    old(env).ledger,
                    user,
                    market_id,
                    is_yes,
                    amount,
                    referral_version,
                ),
                (old(self)@, final(self)@),
                (*old(env), *final(env)),
                r,
            ),
    {
        self.check_bet(env, user, market_id, amount)?;
        Self::require_interface_version(referral_version, REFERRAL_CREDIT_INTERFACE_VERSION)?;
        let ghost s = self@;
        proof {
            lemma_split(amount as int);
            lemma_bet_keeps(s, user, market_id, is_yes, amount);
            assert(s.count() >= 1);
        }
        let cfg: Config = self.get_config();
        let net: i128 = amount * NET_NUMERATOR / BPS_DENOM;
        let platform_fee: i128 = amount * PLATFORM_FEE_BPS / BPS_DENOM;
        let referral_fee: i128 = amount - net - platform_fee;
        let this: Address = env.ledger.this;
        env.ask(Effect::RequireAuth(user));
        env.ask(Effect::Transfer { asset: cfg.xlm_sac, from: user, to: this, amount });
        env.ask(
            Effect::Transfer {
                asset: cfg.xlm_sac,
                from: this,
                to: cfg.referral,
                amount: referral_fee,
            },
        );
        env.ask(Effect::Credit { referral: cfg.referral, user, fee: referral_fee });
        let mut market: Market = self.load_market(market_id)?;
        let existing: Option<BetEntry> = self.bets.find((market_id, user));
        let new_entry: BetEntry = match existing {
            Some(e) => {
                let mut entry: BetEntry = e;
                if e.is_yes == is_yes {
                    entry.net = e.net + net;
                } else {
                    entry.hedge = e.hedge + net;
                }
                entry.gross = e.gross + amount;
                entry.fee = e.fee + platform_fee;
                entry.count = e.count + 1;
                entry
            },
            None => BetEntry {
                net,
                hedge: 0,
                gross: amount,
                fee: platform_fee,
                is_yes,
                claimed: false,
                count: 1,
            },
        };
        assert(new_entry == s.raised(user, market_id, is_yes, amount));
        self.bets.set((market_id, user), new_entry);
        env.renew(DataKey::Bet(market_id, user));
        if existing.is_none() {
            let count: u32 = self.bettor_count.get_or(market_id, 0);
            self.bettor_at.set((market_id, count), user);
            env.renew(DataKey::BettorAt(market_id, count));
            self.bettor_count.set(market_id, count + 1);
            env.renew(DataKey::BettorCount(market_id));
            market.bet_count = market.bet_count + 1;
        }
        if is_yes {
            market.total_yes = market.total_yes + net;
        } else {
            market.total_no = market.total_no + net;
        }
        self.markets.set(market_id, market);
        env.renew(DataKey::Market(market_id));
        let fees: i128 = self.market_fees.get_or(market_id, 0);
        self.market_fees.set(market_id, fees + platform_fee);
        env.renew(DataKey::MarketFees(market_id));
        env.ask(Effect::Publish(Event::BetPlaced { market_id, user, is_yes, amount }));
        assert(self@ == s.with_bet(user, market_id, is_yes, amount));
        Ok(())
    }

    /// Whether a bet would be taken, as far as the market can tell by itself.
    pub fn check_bet(
        &self,
        env: &Env<DataKey>,
        user: Address,
        market_id: u64,
        amount: i128,
    ) -> (r: Result<(), MarketError>)
        requires
            self@.is_paused() || amount * NET_NUMERATOR <= i128::MAX,
        ensures
            r == refused(self@.bet_refusal(env.ledger, user, market_id, amount)),
    {
        self.require_not_paused()?;
        if amount <= 0 {
            return Err(MarketError::BetTooSmall);
        }
        let net: i128 = amount * NET_NUMERATOR / BPS_DENOM;
        if net < MIN_BET {
            return Err(MarketError::BetTooSmall);
        }
        match self.markets.get(market_id) {
            None => {
                return Err(MarketError::MarketNotFound);
            },
            Some(market) => {
                if market.cancelled {
                    return Err(MarketError::MarketCancelled);
                }
                if market.resolved {
                    return Err(MarketError::MarketResolved);
                }
                if env.ledger.timestamp >= market.end_time {
                    return Err(MarketError::MarketExpired);
                }
            },
        }
        if let Some(e) = self.bets.find((market_id, user)) {
            if e.count >= MAX_BETS_PER_USER {
                return Err(MarketError::TooManyBets);
            }
        }
        self.require_trust_not_revoked(Role::Referral)?;
        if self.is_resolver(user) {
            return Err(MarketError::ConflictOfInterest);
        }
        Ok(())
    }

    /// Note whether the referral contract credited a referrer for a bet of
    /// this user. The first answer is kept.
    pub fn credit_answered(&mut self, env: &mut Env<DataKey>, user: Address, credited: bool)
        requires
            old(self)@.wf(),
        ensures
            final(self)@.wf(),
            final(self)@ == old(self)@.credit_answered(user, credited),
            final(env).asks(
                *old(env),
                Seq::empty(),
                if old(self)@.has_referrer.dom().contains(user) {
                    Set::empty()
                } else {
                    set![DataKey::HasReferrer(user)]
                },
                false,
            ),
    {
        if !self.has_referrer.has(user) {
            self.has_referrer.set(user, credited);
            env.renew(DataKey::HasReferrer(user));
        }
    }

    /// Take back `amount` of what was paid into a position, while bets are
    /// taken. Every part of the position shrinks in proportion; what comes back
    /// is that part of the net stakes and of the platform's share, rounded down
    /// and so never more than `amount`.
    pub fn reduce_position(
        &mut self,
        env: &mut Env<DataKey>,
        user: Address,
        market_id: u64,
        amount: i128,
    ) -> (r: Result<i128, MarketError>)
        requires
            old(self)@.wf(),
            old(self)@.reduce_refusal(old(env).ledger, user, market_id, amount) is None ==> old(
                self,
            )@.can_reduce(user, market_id, amount),
        ensures
            final(self)@.wf(),
            settles(
                old(self)@.reduce_position(old(env).ledger, user, market_id, amount),
                (old(self)@, final(self)@),
                (*old(env), *final(env)),
                r,
            ),
    {
        self.require_not_paused()?;
        if amount <= 0 {
            return Err(MarketError::InvalidAmount);
        }
        let mut market: Market = self.load_market(market_id)?;
        if market.cancelled {
            return Err(MarketError::MarketCancelled);
        }
        if market.resolved {
            return Err(MarketError::MarketResolved);
        }
        if env.ledger.timestamp >= market.end_time {
            return Err(MarketError::MarketExpired);
        }
        let entry: BetEntry = match self.bets.find((market_id, user)) {
            Some(e) => e,
            None => return Err(MarketError::NoBetFound),
        };
        if amount > entry.gross {
            return Err(MarketError::InvalidAmount);
        }
        let ghost s = self@;
        proof {
            assert(entry.wf() && s.count() >= 1);
            lemma_position_part(entry, amount);
            lemma_position_covered(s, (market_id, user), true);
            lemma_position_covered(s, (market_id, user), false);
            lemma_reduction_keeps(s, user, market_id, amount);
        }
        proof {
            lemma_smaller_products(entry, amount);
        }
        let stakes: i128 = entry.net + entry.hedge;
        let net: i128 = Self::part(entry.net, amount, entry.gross);
        let hedge: i128 = Self::part(stakes, amount, entry.gross) - net;
        let refund: i128 = Self::part(stakes + entry.fee, amount, entry.gross);
        let fee: i128 = refund - net - hedge;
        let cfg: Config = self.get_config();
        env.ask(Effect::RequireAuth(user));
        if amount == entry.gross {
            self.unlist(market_id, user);
            self.bets.remove((market_id, user));
        } else {
            let mut rest: BetEntry = entry;
            rest.net = entry.net - net;
            rest.hedge = entry.hedge - hedge;
            rest.gross = entry.gross - amount;
            rest.fee = entry.fee - fee;
            self.bets.set((market_id, user), rest);
            env.renew(DataKey::Bet(market_id, user));
        }
        if entry.is_yes {
            market.total_yes = market.total_yes - net;
            market.total_no = market.total_no - hedge;
        } else {
            market.total_no = market.total_no - net;
            market.total_yes = market.total_yes - hedge;
        }
        self.markets.set(market_id, market);
        env.renew(DataKey::Market(market_id));
        let fees: i128 = self.market_fees.get_or(market_id, 0);
        self.market_fees.set(market_id, fees - fee);
        env.renew(DataKey::MarketFees(market_id));
        env.ask(
            Effect::Transfer {
                asset: cfg.xlm_sac,
                from: env.ledger.this,
                to: user,
                amount: refund,
            },
        );
        assert(self@ == s.with_less(user, market_id, amount));
        Ok(refund)
    }

    /// The part of `whole` that `amount` makes up of `gross`, rounded down.
    fn part(whole: i128, amount: i128, gross: i128) -> (n: i128)
        requires
            0 <= whole,
            0 < amount <= gross,
            whole * amount <= i128::MAX,
        ensures
            n == part_of(whole as int, amount as int, gross as int),
    {
        assert(0 <= whole * amount) by (nonlinear_arith)
            requires
                0 <= whole,
                0 < amount,
        ;
        whole * amount / gross
    }

    /// Give up a user's place in the index of a market's bettors.
    fn unlist(&mut self, market_id: u64, user: Address)
        requires
            old(self)@.wf(),
        ensures
            final(self)@ == (MarketState {
                bettor_at: old(self)@.unlisted(market_id, user),
                ..old(self)@
            }),
    {
        let ghost s = self@;
        let bettors: u32 = self.bettor_count.get_or(market_id, 0);
        let mut i: u32 = 0;
        while i < bettors
            invariant
                i <= bettors,
                bettors == s.bettors(market_id),
                s.wf(),
                s == old(self)@,
                self@ == s,
                forall|j: u32|
                    j < i && #[trigger] s.bettor_at.dom().contains((market_id, j))
                        ==> s.bettor_at[(market_id, j)] != user,
            decreases bettors - i,
        {
            if let Some(bettor) = self.bettor_at.find((market_id, i)) {
                if bettor == user {
                    self.bettor_at.remove((market_id, i));
                    assert(self@.bettor_at =~= s.unlisted(market_id, user)) by {
                        assert forall|k: (u64, u32)| s.bettor_at.dom().contains(k) && k.0
                            == market_id && s.bettor_at[k] == user implies k.1 == i by {
                            assert(s.bettor_at.dom().contains((market_id, k.1)));
                            assert(s.bettor_at.dom().contains((market_id, i)));
                        }
                    }
                    return;
                }
            }
            i = i + 1;
        }
        assert(s.bettor_at =~= s.unlisted(market_id, user)) by {
            assert forall|k: (u64, u32)| s.bettor_at.dom().contains(k) && k.0
                == market_id implies s.bettor_at[k] != user by {
                assert(s.bettor_at.dom().contains((market_id, k.1)));
            }
        }
    }

    /// Set the payouts of a market's bettors. Returns what they come to.
    fn settle(&mut self, env: &mut Env<DataKey>, market: &Market, outcome: bool) -> (total: i128)
        requires
            old(self)@.wf(),
            old(self)@.markets.dom().contains(market.id),
            old(self)@.markets[market.id] == *market,
            old(self)@.can_resolve(old(env).ledger, market.id, outcome),
        ensures
            ({
                let t = old(self)@.full_settlement(market.id, outcome);
                &&& total == t.total
                &&& 0 <= total <= market.pool()
                &&& final(self)@ == (MarketState { payouts: t.payouts, ..old(self)@ })
                &&& final(env).asks(
                    *old(env),
                    Seq::empty(),
                    if old(self)@.bettors(market.id) > 0 {
                        t.renewed.insert(DataKey::BettorCount(market.id))
                    } else {
                        Set::empty()
                    },
                    false,
                )
            }),
    {
        let ghost s = self@;
        let id: u64 = market.id;
        let pool: i128 = market.total_yes + market.total_no;
        let winning_side: i128 = if outcome {
            market.total_yes
        } else {
            market.total_no
        };
        let bettors: u32 = self.bettor_count.get_or(id, 0);
        if bettors > 0 {
            env.renew(DataKey::BettorCount(id));
        }
        let mut total: i128 = 0;
        let mut i: u32 = 0;
        while i < bettors
            invariant
                i <= bettors,
                bettors == s.bettors(id),
                s.wf(),
                s.markets.dom().contains(id),
                s.markets[id] == *market,
                id == market.id,
                pool == market.pool(),
                winning_side == market.side(outcome),
                s.can_resolve(old(env).ledger, id, outcome),
                s == old(self)@,
                self@ == (MarketState {
                    payouts: s.settlement(id, outcome, i as nat).payouts,
                    ..s
                }),
                total == s.settlement(id, outcome, i as nat).total,
                env.asks(
                    *old(env),
                    Seq::empty(),
                    if bettors > 0 {
                        s.settlement(id, outcome, i as nat).renewed.insert(
                            DataKey::BettorCount(id),
                        )
                    } else {
                        Set::empty()
                    },
                    false,
                ),
            decreases bettors - i,
        {
            proof {
                assert((i + 1 - 1) as u32 == i);
                lemma_settlement_within_pool(s, id, outcome, (i + 1) as nat);
                lemma_settlement_within_pool(s, id, outcome, i as nat);
            }
            if let Some(bettor) = self.bettor_at.find((id, i)) {
                env.renew(DataKey::BettorAt(id, i));
                if let Some(entry) = self.bets.find((id, bettor)) {
                    env.renew(DataKey::Bet(id, bettor));
                    let stake: i128 = if entry.is_yes == outcome {
                        entry.net
                    } else {
                        entry.hedge
                    };
                    proof {
                        assert(s.bets.dom().contains((id, bettor)));
                        assert(entry.wf());
                        assert(s.bettor_at.dom().contains((id, i)));
                        if winning_side > 0 {
                            lemma_share_rounds_down(
                                stake as int,
                                pool as int,
                                winning_side as int,
                            );
                            assert(0 <= stake * pool) by (nonlinear_arith)
                                requires
                                    0 <= stake,
                                    0 <= pool,
                            ;
                        }
                    }
                    let due: Option<i128> = if winning_side > 0 {
                        if stake > 0 {
                            Some((stake * pool) / winning_side)
                        } else {
                            None
                        }
                    } else {
                        assert(entry.net + entry.hedge <= i128::MAX);
                        let both: i128 = entry.net + entry.hedge;
                        if both > 0 {
                            Some(both)
                        } else {
                            None
                        }
                    };
                    if let Some(payout) = due {
                        self.payouts.set((id, bettor), payout);
                        env.renew(DataKey::Payout(id, bettor));
                        total = total + payout;
                    }
                }
            }
            i = i + 1;
        }
        proof {
            lemma_settlement_within_pool(s, id, outcome, bettors as nat);
        }
        total
    }

    /// Whether a market could be settled by this caller now.
    pub fn check_resolution(&self, env: &Env<DataKey>, caller: Address, market_id: u64) -> (r:
        Result<(), MarketError>)
        ensures
            r == refused(self@.resolve_refusal(env.ledger, caller, market_id)),
    {
        self.require_not_paused()?;
        self.require_admin_or_resolver(caller)?;
        match self.markets.get(market_id) {
            None => {
                return Err(MarketError::MarketNotFound);
            },
            Some(market) => {
                if market.resolved {
                    return Err(MarketError::MarketResolved);
                }
                if market.cancelled {
                    return Err(MarketError::MarketCancelled);
                }
                if env.ledger.timestamp < market.end_time {
                    return Err(MarketError::MarketNotExpired);
                }
            },
        }
        if self.has_stake(market_id, caller) {
            return Err(MarketError::ConflictOfInterest);
        }
        Ok(())
    }

    /// Settle a market on an outcome. Admin and resolvers only, and nobody with
    /// a stake in it.
    ///
    /// Whoever bet on the outcome is owed a share of the pool by their stake;
    /// what rounding leaves over joins the market's fees. Where nobody bet on
    /// the outcome everybody is owed their own stake, and the fees are held
    /// back while the outcome can be disputed.
    pub fn resolve_market(
        &mut self,
        env: &mut Env<DataKey>,
        caller: Address,
        market_id: u64,
        outcome: bool,
    ) -> (r: Result<(), MarketError>)
        requires
            old(self)@.wf(),
            old(self)@.resolve_refusal(old(env).ledger, caller, market_id) is None ==> old(
                self,
            )@.can_resolve(old(env).ledger, market_id, outcome),
        ensures
            final(self)@.wf(),
            settles(
                old(self)@.resolve_market(old(env).ledger, caller, market_id, outcome),
                (old(self)@, final(self)@),
                (*old(env), *final(env)),
                r,
            ),
    {
        self.check_resolution(env, caller, market_id)?;
        let mut market: Market = self.load_market(market_id)?;
        let ghost s = self@;
        proof {
            lemma_resolution_keeps(s, env.ledger, market_id, outcome);
            assert(s.fees_of(market_id) >= 0);
        }
        env.ask(Effect::RequireAuth(caller));
        let total_pool: i128 = market.total_yes + market.total_no;
        let winning_side: i128 = if outcome {
            market.total_yes
        } else {
            market.total_no
        };
        if total_pool > 0 {
            let payout_sum: i128 = self.settle(env, &market, outcome);
            let dust: i128 = total_pool - payout_sum;
            let fees: i128 = self.market_fees.get_or(market_id, 0) + dust;
            if winning_side > 0 {
                self.market_fees.set(market_id, fees);
            } else {
                self.market_fees.remove(market_id);
                self.forfeited.set(
                    market_id,
                    ForfeitedPool {
                        amount: payout_sum,
                        locked_fees: fees,
                        disputable_until: env.ledger.timestamp + DISPUTE_WINDOW_SECS,
                        frozen: false,
                    },
                );
            }
        }
        assert(self@ == s.paid_out(old(env).ledger, market_id, outcome));
        market.resolved = true;
        market.outcome = outcome;
        self.markets.set(market_id, market);
        env.renew(DataKey::Market(market_id));
        self.close_one();
        env.ask(Effect::Publish(Event::MarketResolved { market_id, outcome }));
        Ok(())
    }

    /// One market less is open.
    fn close_one(&mut self)
        ensures
            final(self)@ == (MarketState {
                open_markets: old(self)@.one_less_open(),
                ..old(self)@
            }),
    {
        let open: u32 = self.get_open_market_count();
        self.open_markets = Some(
            if open > 0 {
                open - 1
            } else {
                0
            },
        );
    }

    /// Call a market off. Admin only. Its fees go back to its bettors, who
    /// collect what they are owed with `cancel_refund`.
    pub fn cancel_market(
        &mut self,
        env: &mut Env<DataKey>,
        admin: Address,
        market_id: u64,
    ) -> (r: Result<(), MarketError>)
        requires
            old(self)@.wf(),
        ensures
            final(self)@.wf(),
            settles(
                old(self)@.cancel_market(admin, market_id),
                (old(self)@, final(self)@),
                (*old(env), *final(env)),
                r,
            ),
    {
        self.require_not_paused()?;
        self.require_admin(admin)?;
        let mut market: Market = self.load_market(market_id)?;
        if market.resolved {
            return Err(MarketError::MarketResolved);
        }
        if market.cancelled {
            return Err(MarketError::MarketCancelled);
        }
        let ghost s = self@;
        env.ask(Effect::RequireAuth(admin));
        market.cancelled = true;
        let ghost m = market;
        self.markets.set(market_id, market);
        env.renew(DataKey::Market(market_id));
        self.market_fees.remove(market_id);
        self.close_one();
        proof {
            lemma_closing_keeps(s, market_id, m, self@);
        }
        Ok(())
    }

    /// Collect what a cancelled market owes: the net stakes and the platform's
    /// share. The referral share left the contract when the bet was placed.
    /// What comes back is never more than what was paid in. This works while the
    /// contract is paused.
    pub fn cancel_refund(
        &mut self,
        env: &mut Env<DataKey>,
        user: Address,
        market_id: u64,
    ) -> (r: Result<i128, MarketError>)
        requires
            old(self)@.wf(),
        ensures
            final(self)@.wf(),
            settles(
                old(self)@.cancel_refund(old(env).ledger, user, market_id),
                (old(self)@, final(self)@),
                (*old(env), *final(env)),
                r,
            ),
    {
        match self.markets.get(market_id) {
            None => {
                return Err(MarketError::MarketNotFound);
            },
            Some(market) => {
                if !market.cancelled {
                    return Err(MarketError::MarketNotCancelled);
                }
            },
        }
        let mut entry: BetEntry = match self.bets.find((market_id, user)) {
            Some(e) => e,
            None => return Err(MarketError::NoBetFound),
        };
        if entry.gross == 0 {
            return Err(MarketError::NoBetFound);
        }
        let ghost s = self@;
        assert(s.bets[(market_id, user)].wf() && s.count() >= 1);
        let refund: i128 = entry.net + entry.hedge + entry.fee;
        let cfg: Config = self.get_config();
        env.ask(Effect::RequireAuth(user));
        entry.net = 0;
        entry.hedge = 0;
        entry.gross = 0;
        entry.fee = 0;
        proof {
            lemma_position_keeps(s, (market_id, user), entry);
        }
        self.bets.set((market_id, user), entry);
        env.renew(DataKey::Bet(market_id, user));
        env.renew(DataKey::Market(market_id));
        env.ask(
            Effect::Transfer {
                asset: cfg.xlm_sac,
                from: env.ledger.this,
                to: user,
                amount: refund,
            },
        );
        Ok(refund)
    }

    /// Whether a claim would be paid, as far as the market can tell by itself.
    pub fn check_claim(&self, env: &Env<DataKey>, user: Address, market_id: u64) -> (r: Result<
        (),
        MarketError,
    >)
        ensures
            r == refused(self@.claim_refusal(env.ledger, user, market_id)),
    {
        self.require_not_paused()?;
        match self.markets.get(market_id) {
            None => {
                return Err(MarketError::MarketNotFound);
            },
            Some(market) => {
                if market.cancelled {
                    return Err(MarketError::MarketCancelled);
                }
                if !market.resolved {
                    return Err(MarketError::MarketNotResolved);
                }
            },
        }
        match self.bets.find((market_id, user)) {
            None => {
                return Err(MarketError::NoBetFound);
            },
            Some(entry) => {
                if entry.claimed {
                    return Err(MarketError::AlreadyClaimed);
                }
            },
        }
        if let Some(held) = self.forfeited.find(market_id) {
            if env.ledger.timestamp < held.disputable_until {
                return Err(MarketError::DisputeWindowActive);
            }
        }
        self.require_trust_not_revoked(Role::Leaderboard)
    }

    /// Collect what a resolved market owes and have the bet scored: a win earns
    /// points and tokens, a loss costs points. `leaderboard_version` is the
    /// interface version of the leaderboard, as far as it reports one.
    pub fn claim(
        &mut self,
        env: &mut Env<DataKey>,
        user: Address,
        market_id: u64,
        leaderboard_version: Option<u32>,
    ) -> (r: Result<(), MarketError>)
        requires
            old(self)@.wf(),
        ensures
            final(self)@.wf(),
            settles(
                old(self)@.claim(old(env).ledger, user, market_id, leaderboard_version),
                (old(self)@, final(self)@),
                (*old(env), *final(env)),
                r,
            ),
    {
        self.check_claim(env, user, market_id)?;
        Self::require_interface_version(
            leaderboard_version,
            LEADERBOARD_REWARD_INTERFACE_VERSION,
        )?;
        let ghost s = self@;
        let outcome: bool = match self.markets.get(market_id) {
            Some(market) => market.outcome,
            None => return Err(MarketError::MarketNotFound),
        };
        let mut entry: BetEntry = match self.bets.find((market_id, user)) {
            Some(e) => e,
            None => return Err(MarketError::NoBetFound),
        };
        assert(s.bets[(market_id, user)].wf() && s.count() >= 1);
        let cfg: Config = self.get_config();
        let this: Address = env.ledger.this;
        let stake: i128 = if entry.is_yes == outcome {
            entry.net
        } else {
            entry.hedge
        };
        entry.claimed = true;
        proof {
            lemma_position_keeps(s, (market_id, user), entry);
        }
        env.ask(Effect::RequireAuth(user));
        self.bets.set((market_id, user), entry);
        env.renew(DataKey::Bet(market_id, user));
        env.renew(DataKey::Market(market_id));
        let payout: i128 = match self.payouts.find((market_id, user)) {
            Some(p) => {
                env.renew(DataKey::Payout(market_id, user));
                p
            },
            None => 0,
        };
        if payout > 0 {
            env.ask(
                Effect::Transfer { asset: cfg.xlm_sac, from: this, to: user, amount: payout },
            );
        }
        if stake > 0 {
            env.ask(
                Effect::Reward {
                    leaderboard: cfg.leaderboard,
                    user,
                    points: WIN_POINTS,
                    tokens: WIN_TOKENS,
                    is_winner: true,
                },
            );
        } else {
            env.ask(
                Effect::AddPts { leaderboard: cfg.leaderboard, user, pts: 0, is_won: false },
            );
            env.ask(
                Effect::Penalize { leaderboard: cfg.leaderboard, user, points: LOSE_POINTS },
            );
        }
        Ok(())
    }

    /// Dispute an outcome that nobody bet on. Admin only, and only while the
    /// dispute window lasts. The market is called off, and everybody collects
    /// their refund.
    pub fn freeze_market(
        &mut self,
        env: &mut Env<DataKey>,
        admin: Address,
        market_id: u64,
    ) -> (r: Result<(), MarketError>)
        requires
            old(self)@.wf(),
        ensures
            final(self)@.wf(),
            settles(
                old(self)@.freeze_market(old(env).ledger, admin, market_id),
                (old(self)@, final(self)@),
                (*old(env), *final(env)),
                r,
            ),
    {
        self.require_not_paused()?;
        self.require_admin(admin)?;
        let mut market: Market = self.load_market(market_id)?;
        let mut held: ForfeitedPool = match self.forfeited.find(market_id) {
            Some(f) => f,
            None => return Err(MarketError::NotZeroSide),
        };
        if held.frozen {
            return Err(MarketError::MarketCancelled);
        }
        if env.ledger.timestamp >= held.disputable_until {
            return Err(MarketError::DisputeWindowClosed);
        }
        let ghost s = self@;
        env.ask(Effect::RequireAuth(admin));
        let bettors: u32 = self.bettor_count.get_or(market_id, 0);
        let mut i: u32 = 0;
        while i < bettors
            invariant
                i <= bettors,
                bettors == s.bettors(market_id),
                self@ == (MarketState { payouts: s.unpaid(market_id, i as nat), ..s }),
            decreases bettors - i,
        {
            assert((i + 1 - 1) as u32 == i);
            if let Some(bettor) = self.bettor_at.find((market_id, i)) {
                self.payouts.remove((market_id, bettor));
            }
            i = i + 1;
        }
        held.frozen = true;
        self.forfeited.set(market_id, held);
        env.renew(DataKey::ForfeitedPool(market_id));
        market.cancelled = true;
        let ghost m = market;
        self.markets.set(market_id, market);
        env.renew(DataKey::Market(market_id));
        proof {
            lemma_unpaid(s, market_id, bettors as nat);
            lemma_closing_keeps(s, market_id, m, self@);
        }
        Ok(())
    }

    /// Release the fees of a market whose outcome nobody bet on, once it can no
    /// longer be disputed. Anyone may call this.
    pub fn finalize_zero_side(
        &mut self,
        env: &mut Env<DataKey>,
        market_id: u64,
    ) -> (r: Result<(), MarketError>)
        requires
            old(self)@.wf(),
            old(self)@.finalize_refusal(old(env).ledger, market_id) is None ==> old(
                self,
            )@.fees_of(market_id) + old(self)@.forfeited[market_id].locked_fees <= i128::MAX,
        ensures
            final(self)@.wf(),
            settles(
                old(self)@.finalize_zero_side(old(env).ledger, market_id),
                (old(self)@, final(self)@),
                (*old(env), *final(env)),
                r,
            ),
    {
        self.require_not_paused()?;
        let held: ForfeitedPool = match self.forfeited.find(market_id) {
            Some(f) => f,
            None => return Err(MarketError::NotZeroSide),
        };
        if held.frozen {
            return Err(MarketError::MarketCancelled);
        }
        if env.ledger.timestamp < held.disputable_until {
            return Err(MarketError::DisputeWindowActive);
        }
        let ghost s = self@;
        assert(s.forfeited.dom().contains(market_id));
        let fees: i128 = self.market_fees.get_or(market_id, 0);
        assert(fees >= 0);
        self.market_fees.set(market_id, fees + held.locked_fees);
        env.renew(DataKey::MarketFees(market_id));
        self.forfeited.remove(market_id);
        proof {
            lemma_fees_keep(s, market_id, (fees + held.locked_fees) as i128, self@);
        }
        Ok(())
    }

    /// Withdraw earned fees at once, as much as one withdrawal may take. Admin
    /// only. Returns the amount.
    pub fn withdraw_fees(
        &mut self,
        env: &mut Env<DataKey>,
        caller: Address,
        recipient: Address,
    ) -> (r: Result<i128, MarketError>)
        requires
            old(self)@.wf(),
            old(self)@.withdraw_refusal(caller, recipient) is None ==> old(self)@.earned()
                * MAX_WITHDRAWAL_BPS <= i128::MAX,
        ensures
            final(self)@.wf(),
            settles(
                old(self)@.withdraw_fees(old(env).ledger, caller, recipient),
                (old(self)@, final(self)@),
                (*old(env), *final(env)),
                r,
            ),
    {
        self.require_not_paused()?;
        self.require_admin(caller)?;
        self.require_valid_fee_recipient(caller, recipient)?;
        let earned: i128 = self.earned_fees();
        if earned == 0 {
            return Err(MarketError::NoFeesToWithdraw);
        }
        let cap: i128 = earned * MAX_WITHDRAWAL_BPS / BPS_DENOM;
        let amount: i128 = if cap > 0 {
            cap
        } else {
            earned
        };
        let cfg: Config = self.get_config();
        env.ask(Effect::RequireAuth(caller));
        self.debit_fees(amount);
        env.ask(
            Effect::Transfer {
                asset: cfg.xlm_sac,
                from: env.ledger.this,
                to: recipient,
                amount,
            },
        );
        Ok(amount)
    }

    /// Ask for a withdrawal of earned fees. Admin and fee recipients only. It
    /// can be executed once the delay has passed.
    pub fn request_withdraw_fees(
        &mut self,
        env: &mut Env<DataKey>,
        caller: Address,
        recipient: Address,
        amount: i128,
    ) -> (r: Result<(), MarketError>)
        requires
            old(self)@.wf(),
            old(self)@.request_refusal(caller, recipient, amount) matches Some(e) && e
                != MarketError::WithdrawalTooLarge || old(self)@.earned() * MAX_WITHDRAWAL_BPS
                <= i128::MAX,
        ensures
            final(self)@.wf(),
            settles(
                old(self)@.request_withdraw_fees(old(env).ledger, caller, recipient, amount),
                (old(self)@, final(self)@),
                (*old(env), *final(env)),
                r,
            ),
    {
        self.require_not_paused()?;
        self.require_admin_or_fee_recipient(caller)?;
        self.require_valid_fee_recipient(caller, recipient)?;
        if amount <= 0 {
            return Err(MarketError::InvalidAmount);
        }
        if self.pending_withdrawals.has(caller) {
            return Err(MarketError::WithdrawalRequestExists);
        }
        let earned: i128 = self.earned_fees();
        if amount > earned {
            return Err(MarketError::WithdrawalTooLarge);
        }
        let cap: i128 = earned * MAX_WITHDRAWAL_BPS / BPS_DENOM;
        if amount > cap {
            return Err(MarketError::WithdrawalTooLarge);
        }
        env.ask(Effect::RequireAuth(caller));
        self.pending_withdrawals.set(
            caller,
            WithdrawalRequest { recipient, amount, requested_at: env.ledger.timestamp },
        );
        env.renew(DataKey::PendingWithdrawal(caller));
        proof {
            lemma_requests_keep(old(self)@, self@);
        }
        Ok(())
    }

    /// Pay out a withdrawal that was requested and has waited long enough. Who
    /// asked for it must still have the right to. Returns the amount.
    pub fn execute_withdraw_fees(
        &mut self,
        env: &mut Env<DataKey>,
        caller: Address,
    ) -> (r: Result<i128, MarketError>)
        requires
            old(self)@.wf(),
            old(self)@.execute_refusal(old(env).ledger, caller) matches Some(e) && e
                != MarketError::WithdrawalTooLarge || old(self)@.earned() <= i128::MAX,
        ensures
            final(self)@.wf(),
            settles(
                old(self)@.execute_withdraw_fees(old(env).ledger, caller),
                (old(self)@, final(self)@),
                (*old(env), *final(env)),
                r,
            ),
    {
        self.require_not_paused()?;
        let req: WithdrawalRequest = match self.pending_withdrawals.find(caller) {
            Some(r) => r,
            None => return Err(MarketError::NoWithdrawalRequest),
        };
        self.require_admin_or_fee_recipient(caller)?;
        let now: u64 = env.ledger.timestamp;
        if now < req.requested_at || now - req.requested_at < WITHDRAW_DELAY_SECS {
            return Err(MarketError::WithdrawalTooSoon);
        }
        let earned: i128 = self.earned_fees();
        if earned < req.amount {
            return Err(MarketError::WithdrawalTooLarge);
        }
        assert(self@.pending_withdrawals.dom().contains(caller));
        let cfg: Config = self.get_config();
        env.ask(Effect::RequireAuth(caller));
        self.debit_fees(req.amount);
        let ghost s = self@;
        self.pending_withdrawals.remove(caller);
        proof {
            lemma_requests_keep(s, self@);
        }
        env.ask(
            Effect::Transfer {
                asset: cfg.xlm_sac,
                from: env.ledger.this,
                to: req.recipient,
                amount: req.amount,
            },
        );
        Ok(req.amount)
    }

    /// Call off a requested withdrawal. Admin only.
    pub fn cancel_withdrawal_request(
        &mut self,
        env: &mut Env<DataKey>,
        admin: Address,
        caller: Address,
    ) -> (r: Result<(), MarketError>)
        requires
            old(self)@.wf(),
        ensures
            final(self)@.wf(),
            settles(
                old(self)@.cancel_withdrawal_request(admin, caller),
                (old(self)@, final(self)@),
                (*old(env), *final(env)),
                r,
            ),
    {
        self.require_admin(admin)?;
        if !self.pending_withdrawals.has(caller) {
            return Err(MarketError::NoWithdrawalRequest);
        }
        env.ask(Effect::RequireAuth(admin));
        self.pending_withdrawals.remove(caller);
        proof {
            lemma_requests_keep(old(self)@, self@);
        }
        Ok(())
    }

    /// A market's record. Asking keeps it alive.
    pub fn get_market(&self, env: &mut Env<DataKey>, market_id: u64) -> (r: Result<
        Market,
        MarketError,
    >)
        ensures
            match find(self@.markets, market_id) {
                Some(m) => r == Ok::<Market, MarketError>(m) && final(env).asks(
                    *old(env),
                    Seq::empty(),
                    set![DataKey::Market(market_id)],
                    false,
                ),
                None => r == Err::<Market, MarketError>(MarketError::MarketNotFound)
                    && *final(env) == *old(env),
            },
    {
        let market: Market = self.load_market(market_id)?;
        env.renew(DataKey::Market(market_id));
        Ok(market)
    }

    /// A position on the side of its first bet. Asking keeps it alive.
    pub fn get_bet(&self, env: &mut Env<DataKey>, market_id: u64, user: Address) -> (r: Result<
        Bet,
        MarketError,
    >)
        ensures
            match find(self@.bets, (market_id, user)) {
                Some(e) => r == Ok::<Bet, MarketError>(
                    Bet { amount: e.net, is_yes: e.is_yes, claimed: e.claimed },
                ) && final(env).asks(
                    *old(env),
                    Seq::empty(),
                    set![DataKey::Bet(market_id, user)],
                    false,
                ),
                None => r == Err::<Bet, MarketError>(MarketError::NoBetFound) && *final(env)
                    == *old(env),
            },
    {
        match self.bets.find((market_id, user)) {
            Some(e) => {
                env.renew(DataKey::Bet(market_id, user));
                Ok(Bet { amount: e.net, is_yes: e.is_yes, claimed: e.claimed })
            },
            None => Err(MarketError::NoBetFound),
        }
    }

    /// A position on both sides. Asking keeps it alive.
    pub fn get_position(&self, env: &mut Env<DataKey>, market_id: u64, user: Address) -> (r: Result<
        Position,
        MarketError,
    >)
        ensures
            match find(self@.bets, (market_id, user)) {
                Some(e) => r == Ok::<Position, MarketError>(e.position()) && final(env).asks(
                    *old(env),
                    Seq::empty(),
                    set![DataKey::Bet(market_id, user)],
                    false,
                ),
                None => r == Err::<Position, MarketError>(MarketError::NoBetFound)
                    && *final(env) == *old(env),
            },
    {
        match self.bets.find((market_id, user)) {
            Some(e) => {
                env.renew(DataKey::Bet(market_id, user));
                let (net_yes, net_no): (i128, i128) = if e.is_yes {
                    (e.net, e.hedge)
                } else {
                    (e.hedge, e.net)
                };
                Ok(Position { net_yes, net_no, gross: e.gross, count: e.count })
            },
            None => Err(MarketError::NoBetFound),
        }
    }

    pub fn get_market_count(&self) -> (n: u64)
        ensures
            n == self@.count(),
    {
        self.market_count.unwrap_or(0)
    }

    pub fn get_open_market_count(&self) -> (n: u32)
        ensures
            n == self@.open_count(),
    {
        self.open_markets.unwrap_or(0)
    }

    /// The first page of a market's bettors.
    pub fn get_market_bettors(&self, env: &mut Env<DataKey>, market_id: u64) -> (r: Result<
        Vec<Address>,
        MarketError,
    >)
        ensures
            self@.paged(
                market_id,
                0,
                MAX_BETTORS_PER_PAGE,
                (*old(env), *final(env)),
                r,
            ),
    {
        self.get_market_bettors_page(env, market_id, 0, MAX_BETTORS_PER_PAGE)
    }

    /// A page of a market's bettors in the order of their first bets. Places
    /// whose entry has expired are left out. Asking keeps the rest alive.
    pub fn get_market_bettors_page(
        &self,
        env: &mut Env<DataKey>,
        market_id: u64,
        start: u32,
        limit: u32,
    ) -> (r: Result<Vec<Address>, MarketError>)
        ensures
            self@.paged(market_id, start, limit, (*old(env), *final(env)), r),
    {
        if !self.markets.has(market_id) {
            return Err(MarketError::MarketNotFound);
        }
        let count: u32 = self.bettor_count.get_or(market_id, 0);
        if count > 0 {
            env.renew(DataKey::BettorCount(market_id));
        }
        let page_limit: u32 = if limit < MAX_BETTORS_PER_PAGE {
            limit
        } else {
            MAX_BETTORS_PER_PAGE
        };
        let reach: u32 = start.saturating_add(page_limit);
        let end: u32 = if reach < count {
            reach
        } else {
            count
        };
        let ghost s = self@;
        let ghost head = if count > 0 {
            set![DataKey::BettorCount(market_id)]
        } else {
            Set::empty()
        };
        let mut result: Vec<Address> = Vec::new();
        let mut i: u32 = start;
        while i < end
            invariant
                start <= i,
                i <= end || i == start,
                s == self@,
                result@ == s.indexed(market_id, start as nat, i as nat),
                env.asks(
                    *old(env),
                    Seq::empty(),
                    head.union(s.indexed_keys(market_id, start as nat, i as nat)),
                    false,
                ),
            decreases end - i,
        {
            assert((i + 1 - 1) as u32 == i);
            if let Some(bettor) = self.bettor_at.find((market_id, i)) {
                env.renew(DataKey::BettorAt(market_id, i));
                result.push(bettor);
            }
            i = i + 1;
        }
        proof {
            assert(end == s.page_end(market_id, start, limit));
            if end <= start {
                assert(s.indexed(market_id, start as nat, end as nat) =~= Seq::empty());
                assert(s.indexed(market_id, start as nat, i as nat) =~= Seq::empty());
                assert(s.indexed_keys(market_id, start as nat, end as nat) =~= Set::empty());
                assert(s.indexed_keys(market_id, start as nat, i as nat) =~= Set::empty());
            }
        }
        Ok(result)
    }

    /// The fees taken on a market's bets and not withdrawn.
    pub fn get_market_fees(&self, market_id: u64) -> (n: i128)
        ensures
            n == self@.fees_of(market_id),
    {
        self.market_fees.get_or(market_id, 0)
    }

    /// The fees that belong to no market.
    pub fn get_legacy_fees(&self) -> (n: i128)
        ensures
            n == self@.legacy(),
    {
        match self.legacy_fees {
            Some(n) => n,
            None => self.accumulated_fees.unwrap_or(0),
        }
    }

    /// Move the fees that belong to no market out of the old counter. Anybody
    /// may; it changes no amount, and doing it again changes nothing.
    pub fn migrate_fee_ledger(&mut self)
        requires
            old(self)@.wf(),
        ensures
            final(self)@ == old(self)@.migrate_fee_ledger(),
            final(self)@.wf(),
    {
        let ghost s = self@;
        self.legacy_fees = Some(self.get_legacy_fees());
        self.accumulated_fees = None;
        proof {
            lemma_settings_keep(s, self@);
        }
    }

    pub fn get_forfeited_pool(&self, market_id: u64) -> (f: Option<ForfeitedPool>)
        ensures
            f == find(self@.forfeited, market_id),
    {
        self.forfeited.find(market_id)
    }

    pub fn is_fee_recipient(&self, recipient: Address) -> (b: bool)
        ensures
            b == self@.is_fee_recipient(recipient),
    {
        self.fee_recipients.get_or(recipient, false)
    }

    pub fn get_pending_withdrawal(&self, caller: Address) -> (w: Option<WithdrawalRequest>)
        ensures
            w == find(self@.pending_withdrawals, caller),
    {
        self.pending_withdrawals.find(caller)
    }

    /// What a settled market owes a user; 0 where nothing was set. Asking
    /// keeps the entry alive.
    pub fn get_payout(&self, env: &mut Env<DataKey>, market_id: u64, user: Address) -> (n: i128)
        ensures
            n == self@.payout(market_id, user),
            final(env).asks(
                *old(env),
                Seq::empty(),
                if self@.payouts.dom().contains((market_id, user)) {
                    set![DataKey::Payout(market_id, user)]
                } else {
                    Set::empty()
                },
                false,
            ),
    {
        match self.payouts.find((market_id, user)) {
            Some(p) => {
                env.renew(DataKey::Payout(market_id, user));
                p
            },
            None => 0,
        }
    }

    pub fn get_user_bet_count(&self, market_id: u64, user: Address) -> (n: u32)
        ensures
            n == (match find(self@.bets, (market_id, user)) {
                Some(e) => e.count,
                None => 0,
            }),
    {
        match self.bets.find((market_id, user)) {
            Some(e) => e.count,
            None => 0,
        }
    }

    pub fn get_bet_gross(&self, market_id: u64, user: Address) -> (n: i128)
        ensures
            n == (match find(self@.bets, (market_id, user)) {
                Some(e) => e.gross,
                None => 0,
            }),
    {
        match self.bets.find((market_id, user)) {
            Some(e) => e.gross,
            None => 0,
        }
    }

    fn require_trust_not_revoked(&self, role: Role) -> (r: Result<(), MarketError>)
        ensures
            r == (if self@.is_revoked(role) {
                Err::<(), MarketError>(MarketError::TrustRevoked)
            } else {
                Ok(())
            }),
    {
        if self.trust_revoked.get_or(role, false) {
            return Err(MarketError::TrustRevoked);
        }
        Ok(())
    }

    fn require_not_paused(&self) -> (r: Result<(), MarketError>)
        ensures
            r == (if self@.is_paused() {
                Err::<(), MarketError>(MarketError::ContractPaused)
            } else {
                Ok(())
            }),
    {
        if self.is_paused() {
            return Err(MarketError::ContractPaused);
        }
        Ok(())
    }

    fn load_market(&self, market_id: u64) -> (r: Result<Market, MarketError>)
        ensures
            r == (match find(self@.markets, market_id) {
                Some(m) => Ok::<Market, MarketError>(m),
                None => Err(MarketError::MarketNotFound),
            }),
    {
        match self.markets.get(market_id) {
            Some(m) => Ok(m.copy()),
            None => Err(MarketError::MarketNotFound),
        }
    }

    /// The version that a dependency reports is high enough.
    pub fn require_interface_version(version: Option<u32>, required: u32) -> (r: Result<
        (),
        MarketError,
    >)
        ensures
            r == refused(version_refusal(version, required)),
    {
        match version {
            None => Err(MarketError::InterfaceVersionMissing),
            Some(v) => if v < required {
                Err(MarketError::IncompatibleInterface)
            } else {
                Ok(())
            },
        }
    }

    /// The rate window with one more market in it, if it has room.
    fn check_rate(&self, env: &Env<DataKey>) -> (r: Result<RateWindow, MarketError>)
        ensures
            r == (match self@.next_window(env.ledger) {
                Some(w) => Ok::<RateWindow, MarketError>(w),
                None => Err(MarketError::RateLimitExceeded),
            }),
    {
        let now: u32 = env.ledger.sequence;
        let w: RateWindow = self.rate_window.unwrap_or(RateWindow { start: 0, count: 0 });
        if now < w.start || now - w.start < RATE_WINDOW_LEDGERS {
            if w.count >= MAX_MARKETS_PER_HOUR {
                return Err(MarketError::RateLimitExceeded);
            }
            Ok(RateWindow { start: w.start, count: w.count + 1 })
        } else {
            Ok(RateWindow { start: now, count: 1 })
        }
    }

    pub(crate) fn require_admin(&self, caller: Address) -> (r: Result<(), MarketError>)
        ensures
            r == refused(self@.admin_refusal(caller)),
    {
        match self.admin {
            None => Err(MarketError::NotInitialized),
            Some(admin) => if caller != admin {
                Err(MarketError::NotAdmin)
            } else {
                Ok(())
            },
        }
    }

    fn require_admin_or_resolver(&self, caller: Address) -> (r: Result<(), MarketError>)
        ensures
            r == refused(self@.resolver_refusal(caller)),
    {
        match self.admin {
            None => Err(MarketError::NotInitialized),
            Some(admin) => if caller == admin || self.is_resolver(caller) {
                Ok(())
            } else {
                Err(MarketError::NotResolver)
            },
        }
    }

    fn require_admin_or_fee_recipient(&self, caller: Address) -> (r: Result<(), MarketError>)
        ensures
            r == refused(self@.treasurer_refusal(caller)),
    {
        match self.admin {
            None => Err(MarketError::NotInitialized),
            Some(admin) => if caller == admin || self.is_fee_recipient(caller) {
                Ok(())
            } else {
                Err(MarketError::NotAuthorized)
            },
        }
    }

    fn require_valid_fee_recipient(&self, caller: Address, recipient: Address) -> (r: Result<
        (),
        MarketError,
    >)
        ensures
            r == refused(self@.recipient_refusal(caller, recipient)),
    {
        match self.admin {
            None => Err(MarketError::NotInitialized),
            Some(admin) => if recipient == admin || recipient == caller
                || self.is_fee_recipient(recipient) {
                Ok(())
            } else {
                Err(MarketError::InvalidFeeRecipient)
            },
        }
    }
}

} // verus!
