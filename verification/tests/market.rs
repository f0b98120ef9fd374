//! The prediction market together with the contracts it works with.
#![allow(dead_code)]

use pulse_market::address::{Address, WasmHash};
use pulse_market::env::{Effect, Env as Call, Event, Ledger, TTL_BUMP, TTL_HIGH};
use pulse_market::leaderboard::state::LeaderboardContract;
use pulse_market::leaderboard::types::{DataKey as BoardKey, PlayerStats};
use pulse_market::prediction_market::state::PredictionMarketContract;
use pulse_market::prediction_market::types::{
    Bet, Category, Config, Executable, Executables, ForfeitedPool, Market, MarketError,
    PendingConfig, PinnedHashes, Position, WithdrawalRequest, DataKey as MarketKey, NET_NUMERATOR, BPS_DENOM,
    CONFIG_DELAY_SECS, DISPUTE_WINDOW_SECS, MAX_BETTORS_PER_PAGE,
    MAX_WITHDRAWAL_BPS, MIN_BET, MIN_MARKET_DURATION_SECS, PLATFORM_FEE_BPS,
    RATE_WINDOW_LEDGERS, TOTAL_FEE_BPS, WIN_POINTS, WIN_TOKENS, WITHDRAW_DELAY_SECS,
};
use pulse_market::pulse_token::model::{DataKey as TokenKey, PULSETokenContract};
use pulse_market::referral_registry::model::{DataKey as RegistryKey, ReferralRegistryContract};
use std::cell::RefCell;
use std::collections::BTreeMap;
use std::fmt::Debug;
use std::rc::Rc;

/// The ledger with the contracts on it. A clone of `Env` refers to the same
/// ledger.
#[derive(Clone)]
struct Env {
    chain: Rc<RefCell<Chain>>,
}

#[derive(Clone)]
struct Chain {
    timestamp: u64,
    sequence: u32,
    last_id: u64,
    market: PredictionMarketContract,
    board: LeaderboardContract,
    token: PULSETokenContract,
    registry: ReferralRegistryContract,
    market_id: Address,
    board_id: Address,
    token_id: Address,
    registry_id: Address,
    xlm_id: Address,
    xlm: BTreeMap<u64, i128>,
    /// Interface versions that other contracts report.
    foreign: BTreeMap<u64, u32>,
    /// Other contracts that report none.
    silent: Vec<u64>,
    live_until: BTreeMap<String, u32>,
    events: Vec<Event>,
}

impl Env {
    fn new() -> Env {
        let id = |n: u64| Address { id: n };
        Env {
            chain: Rc::new(RefCell::new(Chain {
                timestamp: 1_000_000,
                sequence: 100,
                last_id: 10,
                market: PredictionMarketContract::new(),
                board: LeaderboardContract::new(),
                token: PULSETokenContract::new(),
                registry: ReferralRegistryContract::new(),
                market_id: id(1),
                board_id: id(2),
                token_id: id(3),
                registry_id: id(4),
                xlm_id: id(5),
                xlm: BTreeMap::new(),
                foreign: BTreeMap::new(),
                silent: Vec::new(),
                live_until: BTreeMap::new(),
                events: Vec::new(),
            })),
        }
    }

    fn generate(&self) -> Address {
        let mut chain = self.chain.borrow_mut();
        chain.last_id += 1;
        Address { id: chain.last_id }
    }

    fn timestamp(&self) -> u64 {
        self.chain.borrow().timestamp
    }

    fn sequence(&self) -> u32 {
        self.chain.borrow().sequence
    }

    fn set_timestamp(&self, timestamp: u64) {
        self.chain.borrow_mut().timestamp = timestamp;
    }

    fn set_sequence(&self, sequence: u32) {
        self.chain.borrow_mut().sequence = sequence;
    }

    /// A contract that reports this interface version and does nothing else.
    fn foreign_contract(&self, version: u32) -> Address {
        let address = self.generate();
        self.chain.borrow_mut().foreign.insert(address.id, version);
        address
    }

    /// A contract without an interface version.
    fn silent_contract(&self) -> Address {
        let address = self.generate();
        self.chain.borrow_mut().silent.push(address.id);
        address
    }

    /// A step that fails leaves no trace.
    fn attempt<R>(&self, step: impl FnOnce(&mut Chain) -> Result<R, String>) -> Result<R, String> {
        let before = self.chain.borrow().clone();
        let r = step(&mut self.chain.borrow_mut());
        if r.is_err() {
            *self.chain.borrow_mut() = before;
        }
        r
    }

    /// How long an entry of a contract still lives, in ledgers.
    fn ttl(&self, contract: Address, key: &impl Debug) -> u32 {
        let chain = self.chain.borrow();
        let name = format!("{:?} {:?}", contract, key);
        chain.live_until.get(&name).map_or(0, |end| end.saturating_sub(chain.sequence))
    }

    fn instance_ttl(&self, contract: Address) -> u32 {
        self.ttl(contract, &"instance")
    }

    fn last_event(&self) -> Event {
        *self.chain.borrow().events.last().unwrap()
    }
}

/// The code of a contract, a different one for each.
fn code_of(contract: Address) -> WasmHash {
    let mut bytes = [7u8; 32];
    bytes[..8].copy_from_slice(&contract.id.to_be_bytes());
    WasmHash { bytes }
}

impl Chain {
    fn ledger(&self, this: Address) -> Ledger {
        Ledger { timestamp: self.timestamp, sequence: self.sequence, this }
    }

    fn version_of(&self, contract: Address) -> Option<u32> {
        if contract == self.board_id {
            Some(self.board.interface_version())
        } else if contract == self.registry_id {
            Some(self.registry.interface_version())
        } else if contract == self.token_id {
            Some(self.token.interface_version())
        } else {
            self.foreign.get(&contract.id).copied()
        }
    }

    fn executable(&self, address: Address) -> Executable {
        let known = [self.market_id, self.board_id, self.token_id, self.registry_id];
        if address == self.xlm_id {
            Executable::StellarAsset
        } else if known.contains(&address)
            || self.foreign.contains_key(&address.id)
            || self.silent.contains(&address.id)
        {
            Executable::Wasm(code_of(address))
        } else {
            Executable::Absent
        }
    }

    fn executables(&self, cfg: &Config) -> Executables {
        Executables {
            token: self.executable(cfg.token),
            referral: self.executable(cfg.referral),
            leaderboard: self.executable(cfg.leaderboard),
            xlm_sac: self.executable(cfg.xlm_sac),
        }
    }

    /// The version that one of the market's contracts reports.
    fn version_at(&self, which: impl FnOnce(Config) -> Address) -> Option<u32> {
        self.version_of(which(self.market.get_config()))
    }

    fn renew(&mut self, contract: Address, key: &impl Debug) {
        let name = format!("{:?} {:?}", contract, key);
        let end = self.live_until.entry(name).or_insert(self.sequence);
        if end.saturating_sub(self.sequence) < TTL_BUMP {
            *end = self.sequence + TTL_HIGH;
        }
    }

    fn xlm_of(&self, who: Address) -> i128 {
        self.xlm.get(&who.id).copied().unwrap_or(0)
    }

    /// Do what a call that was made at a contract asks for.
    fn settle<K: Debug>(&mut self, at: Address, call: Call<K>) -> Result<(), String> {
        for key in call.renewed.iter() {
            self.renew(at, key);
        }
        if call.instance_renewed {
            self.renew(at, &"instance");
        }
        for effect in call.effects.iter() {
            self.carry_out(at, *effect)?;
        }
        Ok(())
    }

    fn carry_out(&mut self, at: Address, effect: Effect) -> Result<(), String> {
        let token_version = Some(self.token.interface_version());
        match effect {
            Effect::Transfer { asset, from, to, amount } => {
                if asset != self.xlm_id || self.xlm_of(from) < amount {
                    return Err(String::from("transfer failed"));
                }
                let left = self.xlm_of(from) - amount;
                self.xlm.insert(from.id, left);
                let got = self.xlm_of(to) + amount;
                self.xlm.insert(to.id, got);
                Ok(())
            }
            Effect::Credit { referral, user, fee } => {
                self.expect(referral, self.registry_id)?;
                let mut call = Call::new(self.ledger(self.registry_id));
                let version = Some(self.board.interface_version());
                let credited = self
                    .registry
                    .credit(&mut call, at, user, fee, version)
                    .map_err(|e| format!("{:?}", e))?;
                self.settle(self.registry_id, call)?;
                let mut call = Call::new(self.ledger(self.market_id));
                self.market.credit_answered(&mut call, user, credited);
                self.settle(self.market_id, call)
            }
            Effect::Reward { leaderboard, user, points, tokens, is_winner } => {
                self.expect(leaderboard, self.board_id)?;
                let mut call = Call::new(self.ledger(self.board_id));
                self.board
                    .reward(&mut call, at, user, points, tokens, is_winner, token_version)
                    .map_err(|e| format!("{:?}", e))?;
                self.settle(self.board_id, call)
            }
            Effect::AddPts { leaderboard, user, pts, is_won } => {
                self.expect(leaderboard, self.board_id)?;
                let mut call = Call::new(self.ledger(self.board_id));
                self.board
                    .add_pts(&mut call, at, user, pts, is_won)
                    .map_err(|e| format!("{:?}", e))?;
                self.settle(self.board_id, call)
            }
            Effect::Penalize { leaderboard, user, points } => {
                self.expect(leaderboard, self.board_id)?;
                let mut call = Call::new(self.ledger(self.board_id));
                self.board
                    .penalize(&mut call, at, user, points)
                    .map_err(|e| format!("{:?}", e))?;
                self.settle(self.board_id, call)
            }
            Effect::RewardBonus { leaderboard, user, pts, tokens } => {
                self.expect(leaderboard, self.board_id)?;
                let mut call = Call::new(self.ledger(self.board_id));
                self.board
                    .reward_bonus(&mut call, at, user, pts, tokens, token_version)
                    .map_err(|e| format!("{:?}", e))?;
                self.settle(self.board_id, call)
            }
            Effect::AddBonusPts { leaderboard, user, pts } => {
                self.expect(leaderboard, self.board_id)?;
                let mut call = Call::new(self.ledger(self.board_id));
                self.board
                    .add_bonus_pts(&mut call, at, user, pts)
                    .map_err(|e| format!("{:?}", e))?;
                self.settle(self.board_id, call)
            }
            Effect::Mint { token, to, amount } => {
                self.expect(token, self.token_id)?;
                let mut call = Call::new(self.ledger(self.token_id));
                self.token.mint(&mut call, at, to, amount).map_err(|e| format!("{:?}", e))?;
                self.settle(self.token_id, call)
            }
            Effect::Publish(event) => {
                self.events.push(event);
                Ok(())
            }
            Effect::RequireAuth(_) | Effect::UpdateWasm(_) | Effect::KeepAllowance { .. } => Ok(()),
        }
    }

    fn expect(&self, contract: Address, known: Address) -> Result<(), String> {
        if contract == known {
            Ok(())
        } else {
            Err(String::from("no such function"))
        }
    }
}

struct MarketClient {
    env: Env,
    address: Address,
}

impl MarketClient {
    fn run<R, E: Debug>(
        &self,
        call: impl FnOnce(&mut PredictionMarketContract, &mut Call<MarketKey>) -> Result<R, E>,
    ) -> Result<R, String> {
        self.env.attempt(|chain| {
            let mut made: Call<MarketKey> = Call::new(chain.ledger(chain.market_id));
            let r = call(&mut chain.market, &mut made).map_err(|e| format!("{:?}", e))?;
            chain.settle(chain.market_id, made)?;
            Ok(r)
        })
    }

    fn try_initialize(&self, admin: &Address, token: &Address, referral: &Address, leaderboard: &Address, xlm_sac: &Address) -> Result<(), String> {
        self.run(|contract, call| contract.initialize(call, *admin, *token, *referral, *leaderboard, *xlm_sac))
    }

    fn initialize(&self, admin: &Address, token: &Address, referral: &Address, leaderboard: &Address, xlm_sac: &Address) {
        self.try_initialize(admin, token, referral, leaderboard, xlm_sac).unwrap_or_else(|e| panic!("{}", e))
    }

    fn try_set_config(&self, governor: &Address, cfg: &Config) -> Result<(), String> {
        let kinds = self.env.chain.borrow().executables(cfg);
        self.run(|contract, call| contract.set_config(call, *governor, *cfg, kinds))
    }

    fn set_config(&self, governor: &Address, cfg: &Config) {
        self.try_set_config(governor, cfg).unwrap_or_else(|e| panic!("{}", e))
    }

    fn try_approve_set_config(&self, governor: &Address) -> Result<(), String> {
        self.run(|contract, call| contract.approve_set_config(call, *governor))
    }

    fn approve_set_config(&self, governor: &Address) {
        self.try_approve_set_config(governor).unwrap_or_else(|e| panic!("{}", e))
    }

    fn try_execute_set_config(&self, governor: &Address) -> Result<(), String> {
        self.run(|contract, call| contract.execute_set_config(call, *governor))
    }

    fn execute_set_config(&self, governor: &Address) {
        self.try_execute_set_config(governor).unwrap_or_else(|e| panic!("{}", e))
    }

    fn try_cancel_set_config(&self, admin: &Address) -> Result<(), String> {
        self.run(|contract, call| contract.cancel_set_config(call, *admin))
    }

    fn cancel_set_config(&self, admin: &Address) {
        self.try_cancel_set_config(admin).unwrap_or_else(|e| panic!("{}", e))
    }

    fn try_add_governor(&self, admin: &Address, governor: &Address) -> Result<(), String> {
        self.run(|contract, call| contract.add_governor(call, *admin, *governor))
    }

    fn add_governor(&self, admin: &Address, governor: &Address) {
        self.try_add_governor(admin, governor).unwrap_or_else(|e| panic!("{}", e))
    }

    fn try_set_governor_threshold(&self, admin: &Address, threshold: &u32) -> Result<(), String> {
        self.run(|contract, call| contract.set_governor_threshold(call, *admin, *threshold))
    }

    fn set_governor_threshold(&self, admin: &Address, threshold: &u32) {
        self.try_set_governor_threshold(admin, threshold).unwrap_or_else(|e| panic!("{}", e))
    }

    fn get_pinned_hashes(&self) -> Option<PinnedHashes> {
        self.env.chain.borrow().market.get_pinned_hashes()
    }

    fn get_pending_config(&self) -> Option<PendingConfig> {
        self.env.chain.borrow().market.get_pending_config().cloned()
    }

    fn get_config(&self) -> Config {
        self.env.chain.borrow().market.get_config()
    }

    fn interface_version(&self) -> u32 {
        self.env.chain.borrow().market.interface_version()
    }

    fn try_set_interface_version(&self, admin: &Address, version: &u32) -> Result<(), String> {
        self.run(|contract, call| contract.set_interface_version(call, *admin, *version))
    }

    fn set_interface_version(&self, admin: &Address, version: &u32) {
        self.try_set_interface_version(admin, version).unwrap_or_else(|e| panic!("{}", e))
    }

    fn try_revoke_trust(&self, admin: &Address, role: &String) -> Result<(), String> {
        self.run(|contract, call| contract.revoke_trust(call, *admin, role.clone()))
    }

    fn revoke_trust(&self, admin: &Address, role: &String) {
        self.try_revoke_trust(admin, role).unwrap_or_else(|e| panic!("{}", e))
    }

    fn try_restore_trust(&self, admin: &Address, role: &String) -> Result<(), String> {
        self.run(|contract, call| contract.restore_trust(call, *admin, role.clone()))
    }

    fn restore_trust(&self, admin: &Address, role: &String) {
        self.try_restore_trust(admin, role).unwrap_or_else(|e| panic!("{}", e))
    }

    fn is_trust_revoked(&self, role: &String) -> bool {
        self.env.chain.borrow().market.is_trust_revoked(role.clone())
    }

    fn try_pause(&self, admin: &Address) -> Result<(), String> {
        self.run(|contract, call| contract.pause(call, *admin))
    }

    fn pause(&self, admin: &Address) {
        self.try_pause(admin).unwrap_or_else(|e| panic!("{}", e))
    }

    fn try_unpause(&self, admin: &Address) -> Result<(), String> {
        self.run(|contract, call| contract.unpause(call, *admin))
    }

    fn unpause(&self, admin: &Address) {
        self.try_unpause(admin).unwrap_or_else(|e| panic!("{}", e))
    }

    fn try_set_paused(&self, admin: &Address, paused: &bool) -> Result<(), String> {
        self.run(|contract, call| contract.set_paused(call, *admin, *paused))
    }

    fn set_paused(&self, admin: &Address, paused: &bool) {
        self.try_set_paused(admin, paused).unwrap_or_else(|e| panic!("{}", e))
    }

    fn is_paused(&self) -> bool {
        self.env.chain.borrow().market.is_paused()
    }

    fn paused(&self) -> bool {
        self.env.chain.borrow().market.paused()
    }

    fn try_add_resolver(&self, admin: &Address, resolver: &Address) -> Result<(), String> {
        self.run(|contract, call| contract.add_resolver(call, *admin, *resolver))
    }

    fn add_resolver(&self, admin: &Address, resolver: &Address) {
        self.try_add_resolver(admin, resolver).unwrap_or_else(|e| panic!("{}", e))
    }

    fn try_remove_resolver(&self, admin: &Address, resolver: &Address) -> Result<(), String> {
        self.run(|contract, call| contract.remove_resolver(call, *admin, *resolver))
    }

    fn remove_resolver(&self, admin: &Address, resolver: &Address) {
        self.try_remove_resolver(admin, resolver).unwrap_or_else(|e| panic!("{}", e))
    }

    fn is_resolver(&self, resolver: &Address) -> bool {
        self.env.chain.borrow().market.is_resolver(*resolver)
    }

    fn try_add_fee_recipient(&self, admin: &Address, recipient: &Address) -> Result<(), String> {
        self.run(|contract, call| contract.add_fee_recipient(call, *admin, *recipient))
    }

    fn add_fee_recipient(&self, admin: &Address, recipient: &Address) {
        self.try_add_fee_recipient(admin, recipient).unwrap_or_else(|e| panic!("{}", e))
    }

    fn try_remove_fee_recipient(&self, admin: &Address, recipient: &Address) -> Result<(), String> {
        self.run(|contract, call| contract.remove_fee_recipient(call, *admin, *recipient))
    }

    fn remove_fee_recipient(&self, admin: &Address, recipient: &Address) {
        self.try_remove_fee_recipient(admin, recipient).unwrap_or_else(|e| panic!("{}", e))
    }

    fn try_create_market(&self, admin: &Address, question: &String, image_url: &String, category: &Category, duration_secs: &u64) -> Result<u64, String> {
        self.run(|contract, call| contract.create_market(call, *admin, question.clone(), image_url.clone(), *category, *duration_secs))
    }

    fn create_market(&self, admin: &Address, question: &String, image_url: &String, category: &Category, duration_secs: &u64) -> u64 {
        self.try_create_market(admin, question, image_url, category, duration_secs).unwrap_or_else(|e| panic!("{}", e))
    }

    fn try_place_bet(&self, user: &Address, market_id: &u64, is_yes: &bool, amount: &i128) -> Result<(), String> {
        let version = self.env.chain.borrow().version_at(|c| c.referral);
        self.run(|contract, call| contract.place_bet(call, *user, *market_id, *is_yes, *amount, version))
    }

    fn place_bet(&self, user: &Address, market_id: &u64, is_yes: &bool, amount: &i128) {
        self.try_place_bet(user, market_id, is_yes, amount).unwrap_or_else(|e| panic!("{}", e))
    }

    fn try_reduce_position(&self, user: &Address, id: &u64, amount: &i128) -> Result<i128, String> {
        self.run(|contract, call| contract.reduce_position(call, *user, *id, *amount))
    }

    fn reduce_position(&self, user: &Address, id: &u64, amount: &i128) -> i128 {
        self.try_reduce_position(user, id, amount).unwrap_or_else(|e| panic!("{}", e))
    }

    fn try_resolve_market(&self, caller: &Address, market_id: &u64, outcome: &bool) -> Result<(), String> {
        self.run(|contract, call| contract.resolve_market(call, *caller, *market_id, *outcome))
    }

    fn resolve_market(&self, caller: &Address, market_id: &u64, outcome: &bool) {
        self.try_resolve_market(caller, market_id, outcome).unwrap_or_else(|e| panic!("{}", e))
    }

    fn try_cancel_market(&self, admin: &Address, market_id: &u64) -> Result<(), String> {
        self.run(|contract, call| contract.cancel_market(call, *admin, *market_id))
    }

    fn cancel_market(&self, admin: &Address, market_id: &u64) {
        self.try_cancel_market(admin, market_id).unwrap_or_else(|e| panic!("{}", e))
    }

    fn try_cancel_refund(&self, user: &Address, market_id: &u64) -> Result<i128, String> {
        self.run(|contract, call| contract.cancel_refund(call, *user, *market_id))
    }

    fn cancel_refund(&self, user: &Address, market_id: &u64) -> i128 {
        self.try_cancel_refund(user, market_id).unwrap_or_else(|e| panic!("{}", e))
    }

    fn try_claim(&self, user: &Address, market_id: &u64) -> Result<(), String> {
        let version = self.env.chain.borrow().version_at(|c| c.leaderboard);
        self.run(|contract, call| contract.claim(call, *user, *market_id, version))
    }

    fn claim(&self, user: &Address, market_id: &u64) {
        self.try_claim(user, market_id).unwrap_or_else(|e| panic!("{}", e))
    }

    fn try_freeze_market(&self, admin: &Address, market_id: &u64) -> Result<(), String> {
        self.run(|contract, call| contract.freeze_market(call, *admin, *market_id))
    }

    fn freeze_market(&self, admin: &Address, market_id: &u64) {
        self.try_freeze_market(admin, market_id).unwrap_or_else(|e| panic!("{}", e))
    }

    fn try_finalize_zero_side(&self, market_id: &u64) -> Result<(), String> {
        self.run(|contract, call| contract.finalize_zero_side(call, *market_id))
    }

    fn finalize_zero_side(&self, market_id: &u64) {
        self.try_finalize_zero_side(market_id).unwrap_or_else(|e| panic!("{}", e))
    }

    fn try_withdraw_fees(&self, caller: &Address, recipient: &Address) -> Result<i128, String> {
        self.run(|contract, call| contract.withdraw_fees(call, *caller, *recipient))
    }

    fn withdraw_fees(&self, caller: &Address, recipient: &Address) -> i128 {
        self.try_withdraw_fees(caller, recipient).unwrap_or_else(|e| panic!("{}", e))
    }

    fn try_request_withdraw_fees(&self, caller: &Address, recipient: &Address, amount: &i128) -> Result<(), String> {
        self.run(|contract, call| contract.request_withdraw_fees(call, *caller, *recipient, *amount))
    }

    fn request_withdraw_fees(&self, caller: &Address, recipient: &Address, amount: &i128) {
        self.try_request_withdraw_fees(caller, recipient, amount).unwrap_or_else(|e| panic!("{}", e))
    }

    fn try_execute_withdraw_fees(&self, caller: &Address) -> Result<i128, String> {
        self.run(|contract, call| contract.execute_withdraw_fees(call, *caller))
    }

    fn execute_withdraw_fees(&self, caller: &Address) -> i128 {
        self.try_execute_withdraw_fees(caller).unwrap_or_else(|e| panic!("{}", e))
    }

    fn try_cancel_withdrawal_request(&self, admin: &Address, caller: &Address) -> Result<(), String> {
        self.run(|contract, call| contract.cancel_withdrawal_request(call, *admin, *caller))
    }

    fn cancel_withdrawal_request(&self, admin: &Address, caller: &Address) {
        self.try_cancel_withdrawal_request(admin, caller).unwrap_or_else(|e| panic!("{}", e))
    }

    fn try_get_market(&self, market_id: &u64) -> Result<Market, String> {
        self.run(|contract, call| contract.get_market(call, *market_id))
    }

    fn get_market(&self, market_id: &u64) -> Market {
        self.try_get_market(market_id).unwrap_or_else(|e| panic!("{}", e))
    }

    fn try_get_bet(&self, market_id: &u64, user: &Address) -> Result<Bet, String> {
        self.run(|contract, call| contract.get_bet(call, *market_id, *user))
    }

    fn get_bet(&self, market_id: &u64, user: &Address) -> Bet {
        self.try_get_bet(market_id, user).unwrap_or_else(|e| panic!("{}", e))
    }

    fn try_get_position(&self, market_id: &u64, user: &Address) -> Result<Position, String> {
        self.run(|contract, call| contract.get_position(call, *market_id, *user))
    }

    fn get_position(&self, market_id: &u64, user: &Address) -> Position {
        self.try_get_position(market_id, user).unwrap_or_else(|e| panic!("{}", e))
    }

    fn get_market_count(&self) -> u64 {
        self.env.chain.borrow().market.get_market_count()
    }

    fn get_open_market_count(&self) -> u32 {
        self.env.chain.borrow().market.get_open_market_count()
    }

    fn try_get_market_bettors(&self, market_id: &u64) -> Result<Vec<Address>, String> {
        self.run(|contract, call| contract.get_market_bettors(call, *market_id))
    }

    fn get_market_bettors(&self, market_id: &u64) -> Vec<Address> {
        self.try_get_market_bettors(market_id).unwrap_or_else(|e| panic!("{}", e))
    }

    fn try_get_market_bettors_page(&self, market_id: &u64, start: &u32, limit: &u32) -> Result<Vec<Address>, String> {
        self.run(|contract, call| contract.get_market_bettors_page(call, *market_id, *start, *limit))
    }

    fn get_market_bettors_page(&self, market_id: &u64, start: &u32, limit: &u32) -> Vec<Address> {
        self.try_get_market_bettors_page(market_id, start, limit).unwrap_or_else(|e| panic!("{}", e))
    }

    fn get_market_fees(&self, market_id: &u64) -> i128 {
        self.env.chain.borrow().market.get_market_fees(*market_id)
    }

    fn get_market_ttl(&self, market_id: &u64) -> u32 {
        self.env.chain.borrow().market.get_market_ttl(*market_id)
    }

    fn refresh_market_ttl(&self, market_id: &u64) -> u32 {
        self.run(|contract, call| Ok::<u32, String>(contract.refresh_market_ttl(call, *market_id)))
            .unwrap()
    }

    fn refresh_markets(&self, start: &u64, limit: &u32) -> u32 {
        self.run(|contract, call| Ok::<u32, String>(contract.refresh_markets(call, *start, *limit)))
            .unwrap()
    }

    fn migrate_fee_ledger(&self) {
        self.env.chain.borrow_mut().market.migrate_fee_ledger();
    }

    fn get_legacy_fees(&self) -> i128 {
        self.env.chain.borrow().market.get_legacy_fees()
    }

    fn get_forfeited_pool(&self, market_id: &u64) -> Option<ForfeitedPool> {
        self.env.chain.borrow().market.get_forfeited_pool(*market_id)
    }

    fn get_pending_withdrawal(&self, caller: &Address) -> Option<WithdrawalRequest> {
        self.env.chain.borrow().market.get_pending_withdrawal(*caller)
    }

    fn get_payout(&self, market_id: &u64, user: &Address) -> i128 {
        self.run(|contract, call| Ok::<i128, String>(contract.get_payout(call, *market_id, *user)))
            .unwrap()
    }

    fn get_user_bet_count(&self, market_id: &u64, user: &Address) -> u32 {
        self.env.chain.borrow().market.get_user_bet_count(*market_id, *user)
    }

    fn get_bet_gross(&self, market_id: &u64, user: &Address) -> i128 {
        self.env.chain.borrow().market.get_bet_gross(*market_id, *user)
    }

    fn get_accumulated_fees(&self) -> i128 {
        self.env.chain.borrow().market.get_accumulated_fees()
    }

    fn earned_fees(&self) -> i128 {
        self.env.chain.borrow().market.earned_fees()
    }
}

struct BoardClient {
    env: Env,
    address: Address,
}

impl BoardClient {
    fn run<R, E: Debug>(
        &self,
        call: impl FnOnce(&mut LeaderboardContract, &mut Call<BoardKey>) -> Result<R, E>,
    ) -> Result<R, String> {
        self.env.attempt(|chain| {
            let mut made: Call<BoardKey> = Call::new(chain.ledger(chain.board_id));
            let r = call(&mut chain.board, &mut made).map_err(|e| format!("{:?}", e))?;
            chain.settle(chain.board_id, made)?;
            Ok(r)
        })
    }

    fn try_initialize(&self, admin: &Address, market: &Address, referral: &Address) -> Result<(), String> {
        self.run(|contract, call| contract.initialize(call, *admin, *market, *referral))
    }

    fn initialize(&self, admin: &Address, market: &Address, referral: &Address) {
        self.try_initialize(admin, market, referral).unwrap_or_else(|e| panic!("{}", e))
    }

    fn try_set_token_contract(&self, admin: &Address, token: &Address) -> Result<(), String> {
        self.run(|contract, call| contract.set_token_contract(call, *admin, *token))
    }

    fn set_token_contract(&self, admin: &Address, token: &Address) {
        self.try_set_token_contract(admin, token).unwrap_or_else(|e| panic!("{}", e))
    }

    fn try_set_paused(&self, admin: &Address, paused: &bool) -> Result<(), String> {
        self.run(|contract, call| contract.set_paused(call, *admin, *paused))
    }

    fn set_paused(&self, admin: &Address, paused: &bool) {
        self.try_set_paused(admin, paused).unwrap_or_else(|e| panic!("{}", e))
    }

    fn paused(&self) -> bool {
        self.env.chain.borrow().board.paused()
    }

    fn try_reward(&self, caller: &Address, user: &Address, points: &u64, tokens: &i128, is_winner: &bool) -> Result<(), String> {
        let version = Some(self.env.chain.borrow().token.interface_version());
        self.run(|contract, call| contract.reward(call, *caller, *user, *points, *tokens, *is_winner, version))
    }

    fn try_add_pts(&self, caller: &Address, user: &Address, pts: &u64, is_won: &bool) -> Result<(), String> {
        self.run(|contract, call| contract.add_pts(call, *caller, *user, *pts, *is_won))
    }

    fn add_pts(&self, caller: &Address, user: &Address, pts: &u64, is_won: &bool) {
        self.try_add_pts(caller, user, pts, is_won).unwrap_or_else(|e| panic!("{}", e))
    }

    fn try_claim_pending_rewards(&self, user: &Address) -> Result<(), String> {
        let version = Some(self.env.chain.borrow().token.interface_version());
        self.run(|contract, call| contract.claim_pending_rewards(call, *user, version))
    }

    fn claim_pending_rewards(&self, user: &Address) {
        self.try_claim_pending_rewards(user).unwrap_or_else(|e| panic!("{}", e))
    }

    fn get_points(&self, user: &Address) -> u64 {
        let chain = self.env.chain.borrow();
        let at: Call<BoardKey> = Call::new(chain.ledger(chain.board_id));
        chain.board.get_points(&at, *user)
    }

    fn get_stats(&self, user: &Address) -> PlayerStats {
        let chain = self.env.chain.borrow();
        let at: Call<BoardKey> = Call::new(chain.ledger(chain.board_id));
        chain.board.get_stats(&at, *user)
    }

    fn get_minted(&self, user: &Address) -> i128 {
        self.env.chain.borrow().board.get_minted(*user)
    }
}

struct TokenClient {
    env: Env,
    address: Address,
}

impl TokenClient {
    fn run<R, E: Debug>(
        &self,
        call: impl FnOnce(&mut PULSETokenContract, &mut Call<TokenKey>) -> Result<R, E>,
    ) -> Result<R, String> {
        self.env.attempt(|chain| {
            let mut made: Call<TokenKey> = Call::new(chain.ledger(chain.token_id));
            let r = call(&mut chain.token, &mut made).map_err(|e| format!("{:?}", e))?;
            chain.settle(chain.token_id, made)?;
            Ok(r)
        })
    }

    fn try_initialize(&self, admin: &Address, name: &String, symbol: &String, decimals: &u32) -> Result<(), String> {
        self.run(|contract, call| contract.initialize(call, *admin, name.clone(), symbol.clone(), *decimals, i128::MAX))
    }

    fn initialize(&self, admin: &Address, name: &String, symbol: &String, decimals: &u32) {
        self.try_initialize(admin, name, symbol, decimals).unwrap_or_else(|e| panic!("{}", e))
    }

    fn try_set_paused(&self, admin: &Address, paused: &bool) -> Result<(), String> {
        self.run(|contract, call| contract.set_paused(call, *admin, *paused))
    }

    fn set_paused(&self, admin: &Address, paused: &bool) {
        self.try_set_paused(admin, paused).unwrap_or_else(|e| panic!("{}", e))
    }

    fn try_set_minter(&self, minter: &Address) -> Result<(), String> {
        self.run(|contract, call| contract.set_minter(call, *minter))
    }

    fn set_minter(&self, minter: &Address) {
        self.try_set_minter(minter).unwrap_or_else(|e| panic!("{}", e))
    }

    fn try_mint(&self, minter: &Address, to: &Address, amount: &i128) -> Result<(), String> {
        self.run(|contract, call| contract.mint(call, *minter, *to, *amount))
    }

    fn try_transfer(&self, from: &Address, to: &Address, amount: &i128) -> Result<(), String> {
        self.run(|contract, call| contract.transfer(call, *from, *to, *amount))
    }

    fn balance(&self, account: &Address) -> i128 {
        self.env.chain.borrow().token.balance(*account)
    }

    fn total_supply(&self) -> i128 {
        self.env.chain.borrow().token.total_supply()
    }

    fn paused(&self) -> bool {
        self.env.chain.borrow().token.paused()
    }
}

struct RegistryClient {
    env: Env,
    address: Address,
}

impl RegistryClient {
    fn run<R, E: Debug>(
        &self,
        call: impl FnOnce(&mut ReferralRegistryContract, &mut Call<RegistryKey>) -> Result<R, E>,
    ) -> Result<R, String> {
        self.env.attempt(|chain| {
            let mut made: Call<RegistryKey> = Call::new(chain.ledger(chain.registry_id));
            let r = call(&mut chain.registry, &mut made).map_err(|e| format!("{:?}", e))?;
            chain.settle(chain.registry_id, made)?;
            Ok(r)
        })
    }

    fn try_initialize(&self, admin: &Address, market: &Address, token: &Address, leaderboard: &Address, xlm_sac: &Address) -> Result<(), String> {
        self.run(|contract, call| contract.initialize(call, *admin, *market, *token, *leaderboard, *xlm_sac))
    }

    fn initialize(&self, admin: &Address, market: &Address, token: &Address, leaderboard: &Address, xlm_sac: &Address) {
        self.try_initialize(admin, market, token, leaderboard, xlm_sac).unwrap_or_else(|e| panic!("{}", e))
    }

    fn try_set_paused(&self, admin: &Address, paused: &bool) -> Result<(), String> {
        self.run(|contract, call| contract.set_paused(call, *admin, *paused))
    }

    fn set_paused(&self, admin: &Address, paused: &bool) {
        self.try_set_paused(admin, paused).unwrap_or_else(|e| panic!("{}", e))
    }

    fn paused(&self) -> bool {
        self.env.chain.borrow().registry.paused()
    }

    fn try_register_referral(&self, user: &Address, name: &String, referrer: &Option<Address>) -> Result<(), String> {
        let version = Some(self.env.chain.borrow().board.interface_version());
        self.run(|contract, call| contract.register_referral(call, *user, name.clone(), *referrer, version))
    }

    fn register_referral(&self, user: &Address, name: &String, referrer: &Option<Address>) {
        self.try_register_referral(user, name, referrer).unwrap_or_else(|e| panic!("{}", e))
    }

    fn try_credit(&self, caller: &Address, user: &Address, fee: &i128) -> Result<bool, String> {
        let version = Some(self.env.chain.borrow().board.interface_version());
        self.run(|contract, call| contract.credit(call, *caller, *user, *fee, version))
    }

    fn get_referrer_count(&self, referrer: &Address) -> u32 {
        self.env.chain.borrow().registry.get_referrer_count(*referrer)
    }

    fn get_earnings(&self, referrer: &Address) -> i128 {
        self.env.chain.borrow().registry.get_earnings(*referrer)
    }
}

struct XlmClient {
    env: Env,
}

impl XlmClient {
    fn balance(&self, who: &Address) -> i128 {
        self.env.chain.borrow().xlm_of(*who)
    }

    fn mint(&self, to: &Address, amount: &i128) {
        let mut chain = self.env.chain.borrow_mut();
        let got = chain.xlm_of(*to) + *amount;
        chain.xlm.insert(to.id, got);
    }
}

struct TestSetup {
    env: Env,
    client: MarketClient,
    admin: Address,
    xlm_sac_id: Address,
    xlm_admin: XlmClient,
    xlm: XlmClient,
    token_client: TokenClient,
    leaderboard_client: BoardClient,
    referral_client: RegistryClient,
    market_id: Address,
    leaderboard_id: Address,
    referral_id: Address,
}

fn setup() -> TestSetup {
    let env = Env::new();
    let admin = env.generate();
    let (market_id, leaderboard_id, token_id, referral_id, xlm_sac_id) = {
        let chain = env.chain.borrow();
        (chain.market_id, chain.board_id, chain.token_id, chain.registry_id, chain.xlm_id)
    };
    let client = MarketClient { env: env.clone(), address: market_id };
    let token_client = TokenClient { env: env.clone(), address: token_id };
    let leaderboard_client = BoardClient { env: env.clone(), address: leaderboard_id };
    let referral_client = RegistryClient { env: env.clone(), address: referral_id };

    token_client.initialize(&admin, &String::from("PULSE"), &String::from("PLSE"), &7u32);
    client.initialize(&admin, &token_id, &referral_id, &leaderboard_id, &xlm_sac_id);
    leaderboard_client.initialize(&admin, &market_id, &referral_id);
    referral_client.initialize(&admin, &market_id, &token_id, &leaderboard_id, &xlm_sac_id);
    leaderboard_client.set_token_contract(&admin, &token_id);
    token_client.set_minter(&leaderboard_id);
    token_client.set_minter(&market_id);
    token_client.set_minter(&referral_id);

    TestSetup {
        client,
        admin,
        xlm_sac_id,
        xlm_admin: XlmClient { env: env.clone() },
        xlm: XlmClient { env: env.clone() },
        token_client,
        leaderboard_client,
        referral_client,
        market_id,
        leaderboard_id,
        referral_id,
        env,
    }
}

fn fund_user(t: &TestSetup, user: &Address, amount: i128) {
    t.xlm_admin.mint(user, &amount);
}

fn create_test_market(t: &TestSetup) -> u64 {
    t.client.create_market(
        &t.admin,
        &String::from("Will BTC hit 100k?"),
        &String::from("https://example.com/btc.png"),
        &Category::Crypto,
        &3600_u64,
    )
}

fn advance_time(env: &Env, secs: u64) {
    env.set_timestamp(env.timestamp() + secs);
    env.set_sequence(env.sequence() + 1);
}

fn rewind_time(env: &Env, secs: u64) {
    env.set_timestamp(env.timestamp() - secs);
    env.set_sequence(env.sequence() + 1);
}

fn advance_ledgers(env: &Env, n: u32) {
    env.set_timestamp(env.timestamp() + 1);
    env.set_sequence(env.sequence() + n);
}

/// One withdrawal takes a part of the fees, so repeat it until none are left.
fn withdraw_all_admin_fees(t: &TestSetup, recipient: &Address) -> i128 {
    let mut total = 0;
    while t.client.get_accumulated_fees() > 0 {
        total += t.client.withdraw_fees(&t.admin, recipient);
    }
    total
}

fn last_event_name(env: &Env) -> String {
    String::from(match env.last_event() {
        Event::MarketCreated { .. } => "market_created",
        Event::BetPlaced { .. } => "bet_placed",
        Event::MarketResolved { .. } => "market_resolved",
        _ => "other",
    })
}

#[test]
fn tests_test_initialize() {
    let t = setup();
    assert_eq!(t.client.get_market_count(), 0);
    assert_eq!(t.client.get_accumulated_fees(), 0);
}

#[test]
fn test_create_market() {
    let t = setup();
    let id = create_test_market(&t);
    assert_eq!(id, 1);
    assert_eq!(t.client.get_market_count(), 1);

    let market = t.client.get_market(&id);
    assert_eq!(market.total_yes, 0);
    assert_eq!(market.total_no, 0);
    assert!(!market.resolved);
    assert!(!market.cancelled);
    assert_eq!(market.bet_count, 0);
}

#[test]
#[should_panic(expected = "InvalidDuration")]
fn test_reject_zero_market_duration() {
    let t = setup();
    t.client.create_market(
        &t.admin,
        &String::from("Zero duration"),
        &String::from("https://x.png"),
        &Category::Other,
        &0_u64,
    );
}

#[test]
#[should_panic(expected = "InvalidDuration")]
fn test_reject_market_duration_below_minimum() {
    let t = setup();
    t.client.create_market(
        &t.admin,
        &String::from("Too short"),
        &String::from("https://x.png"),
        &Category::Other,
        &(MIN_MARKET_DURATION_SECS - 1),
    );
}

#[test]
fn test_market_duration_minimum_is_allowed() {
    let t = setup();
    let id = t.client.create_market(
        &t.admin,
        &String::from("Minimum duration"),
        &String::from("https://x.png"),
        &Category::Other,
        &MIN_MARKET_DURATION_SECS,
    );

    assert_eq!(
        t.client.get_market(&id).end_time,
        t.env.timestamp() + MIN_MARKET_DURATION_SECS
    );
}

#[test]
fn test_place_yes_bet() {
    let t = setup();
    let id = create_test_market(&t);
    let user = t.env.generate();
    fund_user(&t, &user, 200_0000000);

    t.client.place_bet(&user, &id, &true, &100_0000000_i128);

    let market = t.client.get_market(&id);
    assert_eq!(market.total_yes, 98_0000000);
    assert_eq!(market.total_no, 0);
    assert_eq!(market.bet_count, 1);

    let bet = t.client.get_bet(&id, &user);
    assert_eq!(bet.amount, 98_0000000);
    assert!(bet.is_yes);
    assert!(!bet.claimed);

    // Gross tracked correctly
    assert_eq!(t.client.get_bet_gross(&id, &user), 100_0000000);
}

#[test]
fn test_place_no_bet() {
    let t = setup();
    let id = create_test_market(&t);
    let user = t.env.generate();
    fund_user(&t, &user, 200_0000000);

    t.client.place_bet(&user, &id, &false, &100_0000000_i128);

    let market = t.client.get_market(&id);
    assert_eq!(market.total_yes, 0);
    assert_eq!(market.total_no, 98_0000000);
}

#[test]
fn test_fee_full_2_percent_no_referrer() {
    let t = setup();
    let id = create_test_market(&t);
    let user = t.env.generate();
    fund_user(&t, &user, 200_0000000);

    t.client.place_bet(&user, &id, &true, &100_0000000_i128);
    // No registered referrer: the registry refunds the 0.5%
    // referral share straight back to the bettor. Only the 1.5% platform
    // fee accrues to the market.
    assert_eq!(t.client.get_accumulated_fees(), 1_5000000);
}

#[test]
fn test_fee_split_with_referrer() {
    let t = setup();
    let id = create_test_market(&t);
    let user = t.env.generate();
    let referrer = t.env.generate();
    fund_user(&t, &user, 200_0000000);

    let no_ref: Option<Address> = None;
    t.referral_client
        .register_referral(&referrer, &String::from("Referrer"), &no_ref);
    t.referral_client.register_referral(
        &user,
        &String::from("Bettor"),
        &Some(referrer.clone()),
    );

    t.client.place_bet(&user, &id, &true, &100_0000000_i128);

    assert_eq!(t.client.get_accumulated_fees(), 1_5000000);
    assert_eq!(t.xlm.balance(&referrer), 5000000);
    t.leaderboard_client.claim_pending_rewards(&referrer);
    assert_eq!(t.leaderboard_client.get_points(&referrer), 8);
}

#[test]
#[should_panic(expected = "InvalidReferrer")]
fn test_reject_place_bet_with_unregistered_referrer() {
    let t = setup();
    let user = t.env.generate();
    let shady = t.env.generate();
    fund_user(&t, &user, 200_0000000);

    t.referral_client.register_referral(
        &user,
        &String::from("Victim"),
        &Some(shady.clone()),
    );
}

#[test]
#[should_panic(expected = "MarketExpired")]
fn test_reject_bet_expired_market() {
    let t = setup();
    let id = create_test_market(&t);
    let user = t.env.generate();
    fund_user(&t, &user, 200_0000000);
    advance_time(&t.env, 3601);
    t.client.place_bet(&user, &id, &true, &100_0000000_i128);
}

#[test]
#[should_panic(expected = "MarketResolved")]
fn test_reject_bet_resolved_market() {
    let t = setup();
    let id = create_test_market(&t);
    let user = t.env.generate();
    fund_user(&t, &user, 200_0000000);
    t.client.place_bet(&user, &id, &true, &50_0000000_i128);
    advance_time(&t.env, 3601);
    t.client.resolve_market(&t.admin, &id, &true);

    let user2 = t.env.generate();
    fund_user(&t, &user2, 200_0000000);
    t.client.place_bet(&user2, &id, &false, &50_0000000_i128);
}

#[test]
#[should_panic(expected = "MarketCancelled")]
fn test_reject_bet_cancelled_market() {
    let t = setup();
    let id = create_test_market(&t);
    t.client.cancel_market(&t.admin, &id);
    let user = t.env.generate();
    fund_user(&t, &user, 200_0000000);
    t.client.place_bet(&user, &id, &true, &100_0000000_i128);
}

#[test]
#[should_panic(expected = "BetTooSmall")]
fn test_reject_bet_below_minimum() {
    let t = setup();
    let id = create_test_market(&t);
    let user = t.env.generate();
    fund_user(&t, &user, 200_0000000);
    t.client.place_bet(&user, &id, &true, &5_000_000_i128);
}

#[test]
#[should_panic(expected = "BetTooSmall")]
fn test_reject_gross_minimum_when_net_is_too_small() {
    let t = setup();
    let id = create_test_market(&t);
    let user = t.env.generate();
    fund_user(&t, &user, 200_0000000);

    // The gross minimum is not enough to produce the one-XLM net minimum
    // after the two-percent fee.
    t.client.place_bet(&user, &id, &true, &MIN_BET);
}

#[test]
fn test_increase_position_same_side() {
    let t = setup();
    let id = create_test_market(&t);
    let user = t.env.generate();
    fund_user(&t, &user, 500_0000000);

    t.client.place_bet(&user, &id, &true, &100_0000000_i128);
    assert_eq!(t.client.get_bet(&id, &user).amount, 98_0000000);

    t.client.place_bet(&user, &id, &true, &50_0000000_i128);
    assert_eq!(t.client.get_bet(&id, &user).amount, 98_0000000 + 49_0000000);

    // Gross tracks full input (both bets)
    assert_eq!(t.client.get_bet_gross(&id, &user), 150_0000000);

    let market = t.client.get_market(&id);
    assert_eq!(market.total_yes, 98_0000000 + 49_0000000);
    assert_eq!(market.bet_count, 1);
}

#[test]
fn test_reduce_position_partial_no_referrer() {
    let t = setup();
    let id = create_test_market(&t);
    let user = t.env.generate();
    fund_user(&t, &user, 10_000_0000000);

    t.client.place_bet(&user, &id, &true, &100_0000000_i128); // 100 XLM
    assert_eq!(t.client.get_market(&id).total_yes, 98_0000000);
    assert_eq!(t.client.get_accumulated_fees(), 1_5000000); // platform only

    // Reduce 40 XLM of the 100 XLM position.
    let refund = t.client.reduce_position(&user, &id, &40_0000000_i128);
    // net(39.2) + platform(0.6) == 39.8 held by the contract; the 0.2
    // referral share left permanently at bet time.
    assert_eq!(refund, 39_8000000);
    assert_eq!(t.client.get_bet_gross(&id, &user), 60_0000000);
    assert_eq!(t.client.get_bet(&id, &user).amount, 58_8000000); // 98 - 39.2
    assert_eq!(t.client.get_market(&id).total_yes, 58_8000000);
    assert_eq!(t.client.get_accumulated_fees(), 0_9000000); // 1.5 - 0.6
    assert_eq!(t.client.get_user_bet_count(&id, &user), 1); // not a new bet
}

#[test]
fn test_reduce_position_with_referrer_paid() {
    let t = setup();
    let id = create_test_market(&t);
    let user = t.env.generate();
    let referrer = t.env.generate();
    fund_user(&t, &user, 1_000_0000000);

    let no_ref: Option<Address> = None;
    t.referral_client
        .register_referral(&referrer, &String::from("Referrer"), &no_ref);
    t.referral_client.register_referral(
        &user,
        &String::from("Bettor"),
        &Some(referrer.clone()),
    );
    t.client.place_bet(&user, &id, &true, &100_0000000_i128);
    assert_eq!(t.xlm.balance(&referrer), 5000000); // referral fee paid out

    let refund = t.client.reduce_position(&user, &id, &40_0000000_i128);
    // 39.2 net + 0.6 platform (referral 0.2 not clawed back from the referrer)
    assert_eq!(refund, 39_8000000);
    assert_eq!(t.xlm.balance(&referrer), 5000000); // referrer keeps the fee
    assert_eq!(t.client.get_accumulated_fees(), 9_000000); // 1.5 - 0.6
    assert_eq!(t.client.get_market(&id).total_yes, 58_8000000);
}

#[test]
fn test_reduce_position_full_close_deletes_position() {
    let t = setup();
    let id = create_test_market(&t);
    let user = t.env.generate();
    fund_user(&t, &user, 1_000_0000000);

    t.client.place_bet(&user, &id, &true, &100_0000000_i128);
    let refund = t.client.reduce_position(&user, &id, &100_0000000_i128);
    // net(98) + platform(1.5) == 99.5; the 0.5 referral share already left
    // permanently (refunded to this same no-referrer bettor) at bet time.
    assert_eq!(refund, 99_5000000);
    assert_eq!(t.client.get_bet_gross(&id, &user), 0);
    assert!(t.client.try_get_bet(&id, &user).is_err()); // NoBetFound
    assert_eq!(t.client.get_market(&id).total_yes, 0);
    assert_eq!(t.client.get_accumulated_fees(), 0);

    // Claiming the closed position must fail (no double payout, no rewards).
    let closed_claim = t.client.try_claim(&user, &id);
    assert!(closed_claim.is_err());
}

#[test]
fn test_reduce_position_keeps_resolution_exact() {
    let t = setup();
    let id = create_test_market(&t);
    let alice = t.env.generate();
    let bob = t.env.generate();
    fund_user(&t, &alice, 10_000_0000000);
    fund_user(&t, &bob, 10_000_0000000);

    t.client.place_bet(&alice, &id, &true, &100_0000000_i128); // net 98
    t.client.place_bet(&bob, &id, &false, &100_0000000_i128); // net 98
    t.client.reduce_position(&alice, &id, &40_0000000_i128); // net -39.2

    // Pools: yes 58.8, no 98, total 156.8
    let market = t.client.get_market(&id);
    assert_eq!(market.total_yes, 58_8000000);
    assert_eq!(market.total_no, 98_0000000);

    advance_time(&t.env, 3601);
    t.client.resolve_market(&t.admin, &id, &true);
    let alice_before = t.xlm.balance(&alice);
    t.client.claim(&alice, &id);
    // Single winner: payout == entry.net * total_pool / winning_side == the
    // entire remaining pool (156.8), so no dust and no dilution of Bob's stake.
    assert_eq!(t.xlm.balance(&alice) - alice_before, 156_8000000);

    let bob_before = t.xlm.balance(&bob);
    t.client.claim(&bob, &id);
    assert_eq!(t.xlm.balance(&bob), bob_before); // losing side gets nothing
}

#[test]
fn test_reduce_then_cancel_refund_pays_remaining_gross() {
    let t = setup();
    let id = create_test_market(&t);
    let user = t.env.generate();
    fund_user(&t, &user, 10_000_0000000);

    t.client.place_bet(&user, &id, &true, &100_0000000_i128);
    let reduced = t.client.reduce_position(&user, &id, &40_0000000_i128);
    assert_eq!(reduced, 39_8000000);
    assert_eq!(t.client.get_bet_gross(&id, &user), 60_0000000);

    t.client.cancel_market(&t.admin, &id);
    let refunded = t.client.cancel_refund(&user, &id);
    assert_eq!(refunded, 59_7000000);
    assert_eq!(t.client.get_bet_gross(&id, &user), 0);

    // Idempotent: a second refund attempt finds nothing left.
    let again = t.client.try_cancel_refund(&user, &id);
    assert!(again.is_err());
}

#[test]
#[should_panic(expected = "InvalidAmount")]
fn test_reduce_position_rejects_over_amount() {
    let t = setup();
    let id = create_test_market(&t);
    let user = t.env.generate();
    fund_user(&t, &user, 1_000_0000000);
    t.client.place_bet(&user, &id, &true, &100_0000000_i128);
    t.client.reduce_position(&user, &id, &100_0000001_i128);
}

#[test]
#[should_panic(expected = "InvalidAmount")]
fn test_reduce_position_rejects_zero_amount() {
    let t = setup();
    let id = create_test_market(&t);
    let user = t.env.generate();
    fund_user(&t, &user, 1_000_0000000);
    t.client.place_bet(&user, &id, &true, &100_0000000_i128);
    t.client.reduce_position(&user, &id, &0_i128);
}

#[test]
#[should_panic(expected = "NoBetFound")]
fn test_reduce_position_rejects_non_bettor() {
    let t = setup();
    let id = create_test_market(&t);
    let user = t.env.generate();
    t.client.reduce_position(&user, &id, &10_0000000_i128);
}

#[test]
#[should_panic(expected = "MarketResolved")]
fn test_reduce_position_rejects_resolved_market() {
    let t = setup();
    let id = create_test_market(&t);
    let user = t.env.generate();
    let other = t.env.generate();
    fund_user(&t, &user, 1_000_0000000);
    fund_user(&t, &other, 1_000_0000000);
    t.client.place_bet(&user, &id, &true, &100_0000000_i128);
    t.client.place_bet(&other, &id, &false, &100_0000000_i128);
    advance_time(&t.env, 3601);
    t.client.resolve_market(&t.admin, &id, &true);
    t.client.reduce_position(&user, &id, &10_0000000_i128);
}

#[test]
#[should_panic(expected = "MarketCancelled")]
fn test_reduce_position_rejects_cancelled_market() {
    let t = setup();
    let id = create_test_market(&t);
    let user = t.env.generate();
    fund_user(&t, &user, 1_000_0000000);
    t.client.place_bet(&user, &id, &true, &100_0000000_i128);
    t.client.cancel_market(&t.admin, &id);
    t.client.reduce_position(&user, &id, &10_0000000_i128);
}

#[test]
#[should_panic(expected = "MarketExpired")]
fn test_reduce_position_rejects_expired_market() {
    let t = setup();
    let id = create_test_market(&t);
    let user = t.env.generate();
    fund_user(&t, &user, 1_000_0000000);
    t.client.place_bet(&user, &id, &true, &100_0000000_i128);
    advance_time(&t.env, 3601);
    t.client.reduce_position(&user, &id, &10_0000000_i128);
}

#[test]
fn test_withdraw_fees_after_resolution() {
    let t = setup();
    let id = create_test_market(&t);
    let user = t.env.generate();
    fund_user(&t, &user, 200_0000000);
    t.client.place_bet(&user, &id, &true, &100_0000000_i128);

    advance_time(&t.env, 3601);
    t.client.resolve_market(&t.admin, &id, &true);

    let fees = t.client.get_accumulated_fees();
    assert!(fees > 0);
    let admin_xlm_before = t.xlm.balance(&t.admin);
    let withdrawn = withdraw_all_admin_fees(&t, &t.admin);
    assert_eq!(withdrawn, fees);
    assert_eq!(t.xlm.balance(&t.admin), admin_xlm_before + fees);
    assert_eq!(t.client.get_accumulated_fees(), 0);
}

#[test]
fn test_rebalance_accumulates_both_sides() {
    let t = setup();
    let id = create_test_market(&t);
    let user = t.env.generate();
    fund_user(&t, &user, 1000_0000000);

    t.client.place_bet(&user, &id, &true, &100_0000000_i128);
    t.client.place_bet(&user, &id, &false, &50_0000000_i128);
    t.client.place_bet(&user, &id, &true, &25_0000000_i128);
    t.client.place_bet(&user, &id, &false, &75_0000000_i128);

    let pos = t.client.get_position(&id, &user);
    assert_eq!(pos.net_yes, 98_0000000 + 24_5000000); // 122.5 XLM net
    assert_eq!(pos.net_no, 49_0000000 + 73_5000000); // 122.5 XLM net
    assert_eq!(pos.gross, 250_0000000);
    assert_eq!(pos.count, 4);

    // Settle the market, then the earned fees are withdrawable.
    advance_time(&t.env, 3601);
    t.client.resolve_market(&t.admin, &id, &true);

    let fees_before = t.client.get_accumulated_fees();
    assert!(fees_before > 0);
    let admin_xlm_before = t.xlm.balance(&t.admin);
    let withdrawn = withdraw_all_admin_fees(&t, &t.admin);
    assert_eq!(withdrawn, fees_before);
    assert_eq!(t.client.get_accumulated_fees(), 0);
    assert_eq!(t.xlm.balance(&t.admin), admin_xlm_before + fees_before);
    let market = t.client.get_market(&id);
    assert_eq!(market.total_yes, 98_0000000 + 24_5000000);
    assert_eq!(market.total_no, 49_0000000 + 73_5000000);
}

#[test]
#[should_panic(expected = "TooManyBets")]
fn test_reject_too_many_bets_across_sides() {
    let t = setup();
    let id = create_test_market(&t);
    let user = t.env.generate();
    fund_user(&t, &user, 100_000_000_000);

    // Both sides share one per-user entry/count: 21 alternating bets must
    // trip MAX_BETS_PER_USER regardless of side.
    for i in 0..=20u32 {
        t.client
            .place_bet(&user, &id, &(i % 2 == 0), &11_0000000_i128);
    }
}

#[test]
fn test_full_hedge_is_outcome_neutral() {
    for outcome in [true, false] {
        let t = setup();
        let id = create_test_market(&t);
        let user = t.env.generate();
        fund_user(&t, &user, 500_0000000);

        t.client.place_bet(&user, &id, &true, &100_0000000_i128);
        t.client.place_bet(&user, &id, &false, &100_0000000_i128);
        advance_time(&t.env, 3601);
        t.client.resolve_market(&t.admin, &id, &outcome);

        let before = t.xlm.balance(&user);
        t.client.claim(&user, &id);
        // payout = 98 * 196 / 98 = 196 — the whole pool back, losing only the 2% fee
        assert_eq!(t.xlm.balance(&user) - before, 196_0000000);
    }
}

#[test]
fn test_hedged_payout_conserves_pool() {
    let t = setup();
    let id = create_test_market(&t);
    let alice = t.env.generate();
    let bob = t.env.generate();
    fund_user(&t, &alice, 1000_0000000);
    fund_user(&t, &bob, 1000_0000000);

    // Alice hedges: YES 100 (net 98) + NO 50 (net 49). Bob bets NO 100 (net 98).
    t.client.place_bet(&alice, &id, &true, &100_0000000_i128);
    t.client.place_bet(&alice, &id, &false, &50_0000000_i128);
    t.client.place_bet(&bob, &id, &false, &100_0000000_i128);

    let market = t.client.get_market(&id);
    assert_eq!(market.total_yes, 98_0000000);
    assert_eq!(market.total_no, 147_0000000);

    advance_time(&t.env, 3601);
    t.client.resolve_market(&t.admin, &id, &true);

    // Alice wins on her YES side only — payout uses net_yes, never the losing NO net.
    let alice_before = t.xlm.balance(&alice);
    t.client.claim(&alice, &id);
    let alice_payout = t.xlm.balance(&alice) - alice_before;
    assert_eq!(alice_payout, 245_0000000); // 98 * 245 / 98

    // Bob loses: his NO net is absorbed by the pool and paid to winners.
    let bob_before = t.xlm.balance(&bob);
    t.client.claim(&bob, &id);
    assert_eq!(t.xlm.balance(&bob), bob_before);

    // Platform keeps exactly the 1.5% platform fee — referral share was
    // refunded to each bettor directly; pool is fully distributed to winners.
    assert_eq!(t.client.get_accumulated_fees(), 3_7500000); // 1.5% of 250 gross
}

#[test]
fn test_cancel_refund_two_sided_position() {
    let t = setup();
    let id = create_test_market(&t);
    let user = t.env.generate();
    fund_user(&t, &user, 500_0000000);

    let before = t.xlm.balance(&user);
    t.client.place_bet(&user, &id, &true, &100_0000000_i128);
    t.client.place_bet(&user, &id, &false, &50_0000000_i128);

    t.client.cancel_market(&t.admin, &id);
    let refunded = t.client.cancel_refund(&user, &id);
    assert_eq!(refunded, 149_2500000); // net + platform (99.5%) across both sides
    assert_eq!(t.xlm.balance(&user), before);
}

#[test]
#[should_panic(expected = "NoBetFound")]
fn test_get_position_no_bet_found() {
    let t = setup();
    let id = create_test_market(&t);
    let user = t.env.generate();
    t.client.get_position(&id, &user);
}

#[test]
fn test_resolve_market() {
    let t = setup();
    let id = create_test_market(&t);
    let user = t.env.generate();
    fund_user(&t, &user, 200_0000000);
    t.client.place_bet(&user, &id, &true, &50_0000000_i128);
    advance_time(&t.env, 3601);
    t.client.resolve_market(&t.admin, &id, &true);
    let market = t.client.get_market(&id);
    assert!(market.resolved);
    assert!(market.outcome);
}

#[test]
fn test_resolver_can_resolve() {
    let t = setup();
    let id = create_test_market(&t);
    let user = t.env.generate();
    fund_user(&t, &user, 200_0000000);
    t.client.place_bet(&user, &id, &true, &50_0000000_i128);

    let resolver = t.env.generate();
    t.client.add_resolver(&t.admin, &resolver);
    assert!(t.client.is_resolver(&resolver));

    advance_time(&t.env, 3601);
    t.client.resolve_market(&resolver, &id, &true);

    let market = t.client.get_market(&id);
    assert!(market.resolved);
}

#[test]
#[should_panic(expected = "NotResolver")]
fn test_reject_resolve_market_non_resolver() {
    let t = setup();
    let id = create_test_market(&t);
    let user = t.env.generate();
    fund_user(&t, &user, 200_0000000);
    t.client.place_bet(&user, &id, &true, &50_0000000_i128);
    advance_time(&t.env, 3601);
    let rando = t.env.generate();
    t.client.resolve_market(&rando, &id, &true);
}

#[test]
#[should_panic(expected = "MarketResolved")]
fn test_reject_double_resolution() {
    let t = setup();
    let id = create_test_market(&t);
    let user = t.env.generate();
    fund_user(&t, &user, 200_0000000);
    t.client.place_bet(&user, &id, &true, &50_0000000_i128);
    advance_time(&t.env, 3601);
    t.client.resolve_market(&t.admin, &id, &true);
    t.client.resolve_market(&t.admin, &id, &false);
}

#[test]
fn test_cancel_market_claim_style_refund() {
    let t = setup();
    let id = create_test_market(&t);
    let alice = t.env.generate();
    let bob = t.env.generate();
    fund_user(&t, &alice, 200_0000000);
    fund_user(&t, &bob, 200_0000000);

    let alice_before = t.xlm.balance(&alice);
    let bob_before = t.xlm.balance(&bob);

    t.client.place_bet(&alice, &id, &true, &100_0000000_i128);
    t.client.place_bet(&bob, &id, &false, &50_0000000_i128);

    t.client.cancel_market(&t.admin, &id);
    assert!(t.client.get_market(&id).cancelled);

    // Fees should be zeroed from AccumulatedFees since market is cancelled
    // (fees are returned to bettors via cancel_refund)
    let acc_fees_after_cancel = t.client.get_accumulated_fees();
    assert_eq!(acc_fees_after_cancel, 0);

    // Each bettor pulls net + platform (99.5% of gross) from cancel_refund;
    // the other 0.5% already came straight back to them from
    // the registry at bet time, so their final balance still nets out
    // to the full gross either way.
    let alice_refund = t.client.cancel_refund(&alice, &id);
    assert_eq!(alice_refund, 99_5000000);
    assert_eq!(t.xlm.balance(&alice), alice_before);
    assert_eq!(t.client.get_bet(&id, &alice).amount, 0);
    assert_eq!(t.client.get_bet_gross(&id, &alice), 0);

    let bob_refund = t.client.cancel_refund(&bob, &id);
    assert_eq!(bob_refund, 49_7500000);
    assert_eq!(t.xlm.balance(&bob), bob_before);
    assert_eq!(t.client.get_bet(&id, &bob).amount, 0);
    assert_eq!(t.client.get_bet_gross(&id, &bob), 0);
}

#[test]
#[should_panic(expected = "NoBetFound")]
fn test_cancel_refund_double_claim_rejected() {
    let t = setup();
    let id = create_test_market(&t);
    let user = t.env.generate();
    fund_user(&t, &user, 200_0000000);
    t.client.place_bet(&user, &id, &true, &100_0000000_i128);
    t.client.cancel_market(&t.admin, &id);
    t.client.cancel_refund(&user, &id);
    t.client.cancel_refund(&user, &id); // should fail: NoBetFound (gross zeroed)
}

#[test]
#[should_panic(expected = "MarketNotCancelled")]
fn test_cancel_refund_non_cancelled_rejected() {
    let t = setup();
    let id = create_test_market(&t);
    let user = t.env.generate();
    fund_user(&t, &user, 200_0000000);
    t.client.place_bet(&user, &id, &true, &100_0000000_i128);
    // Market NOT cancelled — should return MarketNotCancelled
    t.client.cancel_refund(&user, &id);
}

#[test]
#[should_panic(expected = "MarketResolved")]
fn test_reject_cancel_resolved_market() {
    let t = setup();
    let id = create_test_market(&t);
    let user = t.env.generate();
    fund_user(&t, &user, 200_0000000);
    t.client.place_bet(&user, &id, &true, &50_0000000_i128);
    advance_time(&t.env, 3601);
    t.client.resolve_market(&t.admin, &id, &true);
    t.client.cancel_market(&t.admin, &id);
}

#[test]
fn test_claim_winner() {
    let t = setup();
    let id = create_test_market(&t);
    let alice = t.env.generate();
    let bob = t.env.generate();
    fund_user(&t, &alice, 200_0000000);
    fund_user(&t, &bob, 200_0000000);

    t.client.place_bet(&alice, &id, &true, &100_0000000_i128);
    t.client.place_bet(&bob, &id, &false, &100_0000000_i128);

    let bob_pre_claim = t.xlm.balance(&bob);
    advance_time(&t.env, 3601);
    t.client.resolve_market(&t.admin, &id, &true);
    t.client.claim(&bob, &id);

    assert_eq!(t.xlm.balance(&bob), bob_pre_claim);
    let stats = t.leaderboard_client.get_stats(&bob);
    assert_eq!(stats.lost_bets, 1);
    assert_eq!(t.token_client.balance(&bob), 0);
}

#[test]
#[should_panic(expected = "AlreadyClaimed")]
fn test_reject_double_claim() {
    let t = setup();
    let id = create_test_market(&t);
    let user = t.env.generate();
    fund_user(&t, &user, 200_0000000);
    t.client.place_bet(&user, &id, &true, &100_0000000_i128);
    advance_time(&t.env, 3601);
    t.client.resolve_market(&t.admin, &id, &true);
    t.client.claim(&user, &id);
    t.client.claim(&user, &id);
}

#[test]
#[should_panic(expected = "MarketNotResolved")]
fn test_reject_claim_unresolved() {
    let t = setup();
    let id = create_test_market(&t);
    let user = t.env.generate();
    fund_user(&t, &user, 200_0000000);
    t.client.place_bet(&user, &id, &true, &100_0000000_i128);
    // Market not resolved yet.
    t.client.claim(&user, &id);
}

#[test]
#[should_panic(expected = "MarketCancelled")]
fn test_reject_claim_cancelled() {
    let t = setup();
    let id = create_test_market(&t);
    let user = t.env.generate();
    fund_user(&t, &user, 200_0000000);
    t.client.place_bet(&user, &id, &true, &100_0000000_i128);
    t.client.cancel_market(&t.admin, &id);
    t.client.claim(&user, &id);
}

#[test]
fn test_fee_recipient_withdraw() {
    let t = setup();
    let id = create_test_market(&t);
    let user = t.env.generate();
    fund_user(&t, &user, 200_0000000);
    t.client.place_bet(&user, &id, &true, &100_0000000_i128);

    advance_time(&t.env, 3601);
    t.client.resolve_market(&t.admin, &id, &true);

    let recipient = t.env.generate();
    let treasury = t.env.generate();
    t.client.add_fee_recipient(&t.admin, &recipient);
    t.client.add_fee_recipient(&t.admin, &treasury);

    let fees = t.client.get_accumulated_fees();
    let cap = fees * MAX_WITHDRAWAL_BPS / BPS_DENOM;
    let treasury_before = t.xlm.balance(&treasury);

    // Fee recipient requests a capped withdrawal to the registered treasury.
    t.client.request_withdraw_fees(&recipient, &treasury, &cap);

    // Payout is NOT immediate: timelocked for WITHDRAW_DELAY_SECS.
    let pending = t.client.get_pending_withdrawal(&recipient).unwrap();
    assert_eq!(pending.recipient, treasury);
    assert_eq!(pending.amount, cap);
    assert_eq!(t.xlm.balance(&treasury), treasury_before);

    // After the delay the payout executes.
    advance_time(&t.env, WITHDRAW_DELAY_SECS);
    let withdrawn = t.client.execute_withdraw_fees(&recipient);
    assert_eq!(withdrawn, cap);
    assert_eq!(t.xlm.balance(&treasury), treasury_before + cap);
    assert_eq!(t.client.get_accumulated_fees(), fees - cap);
}

#[test]
#[should_panic(expected = "NotAdmin")]
fn test_reject_fee_recipient_immediate_withdraw() {
    let t = setup();
    let id = create_test_market(&t);
    let user = t.env.generate();
    fund_user(&t, &user, 200_0000000);
    t.client.place_bet(&user, &id, &true, &100_0000000_i128);

    let recipient = t.env.generate();
    t.client.add_fee_recipient(&t.admin, &recipient);
    t.client.withdraw_fees(&recipient, &recipient);
}

#[test]
#[should_panic(expected = "InvalidFeeRecipient")]
fn test_reject_withdraw_fees_to_arbitrary_recipient() {
    let t = setup();
    let id = create_test_market(&t);
    let user = t.env.generate();
    fund_user(&t, &user, 200_0000000);
    t.client.place_bet(&user, &id, &true, &100_0000000_i128);

    let rando = t.env.generate();
    t.client.withdraw_fees(&t.admin, &rando);
}

#[test]
#[should_panic(expected = "InvalidFeeRecipient")]
fn test_reject_fee_recipient_request_arbitrary_recipient() {
    let t = setup();
    let id = create_test_market(&t);
    let user = t.env.generate();
    fund_user(&t, &user, 200_0000000);
    t.client.place_bet(&user, &id, &true, &100_0000000_i128);

    let recipient = t.env.generate();
    t.client.add_fee_recipient(&t.admin, &recipient);
    let rando = t.env.generate();
    t.client.request_withdraw_fees(&recipient, &rando, &1_i128);
}

#[test]
#[should_panic(expected = "WithdrawalTooLarge")]
fn test_reject_drain_entire_accumulator_in_one_request() {
    let t = setup();
    let id = create_test_market(&t);
    let user = t.env.generate();
    fund_user(&t, &user, 200_0000000);
    t.client.place_bet(&user, &id, &true, &100_0000000_i128);

    let recipient = t.env.generate();
    t.client.add_fee_recipient(&t.admin, &recipient);

    let fees = t.client.get_accumulated_fees();
    t.client
        .request_withdraw_fees(&recipient, &recipient, &fees);
}

#[test]
#[should_panic(expected = "WithdrawalTooSoon")]
fn test_withdrawal_execute_before_delay() {
    let t = setup();
    let id = create_test_market(&t);
    let user = t.env.generate();
    fund_user(&t, &user, 200_0000000);
    t.client.place_bet(&user, &id, &true, &100_0000000_i128);

    advance_time(&t.env, 3601);
    t.client.resolve_market(&t.admin, &id, &true);

    let recipient = t.env.generate();
    t.client.add_fee_recipient(&t.admin, &recipient);

    let fees = t.client.get_accumulated_fees();
    let cap = fees * MAX_WITHDRAWAL_BPS / BPS_DENOM;
    t.client.request_withdraw_fees(&recipient, &recipient, &cap);
    t.client.execute_withdraw_fees(&recipient);
}

#[test]
fn test_admin_cancel_pending_withdrawal() {
    let t = setup();
    let id = create_test_market(&t);
    let user = t.env.generate();
    fund_user(&t, &user, 200_0000000);
    t.client.place_bet(&user, &id, &true, &100_0000000_i128);

    advance_time(&t.env, 3601);
    t.client.resolve_market(&t.admin, &id, &true);

    let recipient = t.env.generate();
    t.client.add_fee_recipient(&t.admin, &recipient);

    let fees = t.client.get_accumulated_fees();
    let cap = fees * MAX_WITHDRAWAL_BPS / BPS_DENOM;
    t.client.request_withdraw_fees(&recipient, &recipient, &cap);
    assert!(t.client.get_pending_withdrawal(&recipient).is_some());

    t.client.cancel_withdrawal_request(&t.admin, &recipient);
    assert!(t.client.get_pending_withdrawal(&recipient).is_none());
    // Cancelling refunds the debited cap back into the accumulator.
    assert_eq!(t.client.get_accumulated_fees(), fees);
}

#[test]
#[should_panic(expected = "NoWithdrawalRequest")]
fn test_execute_without_request() {
    let t = setup();
    let rando = t.env.generate();
    t.client.execute_withdraw_fees(&rando);
}

#[test]
#[should_panic(expected = "NotAuthorized")]
fn test_execute_rejected_after_fee_recipient_removed() {
    let t = setup();
    let id = create_test_market(&t);
    let user = t.env.generate();
    fund_user(&t, &user, 200_0000000);
    t.client.place_bet(&user, &id, &true, &100_0000000_i128);

    advance_time(&t.env, 3601);
    t.client.resolve_market(&t.admin, &id, &true);

    let recipient = t.env.generate();
    t.client.add_fee_recipient(&t.admin, &recipient);

    let fees = t.client.get_accumulated_fees();
    let cap = fees * MAX_WITHDRAWAL_BPS / BPS_DENOM;
    t.client.request_withdraw_fees(&recipient, &recipient, &cap);

    // Role revoked while the 24h timelock is still running.
    t.client.remove_fee_recipient(&t.admin, &recipient);
    advance_time(&t.env, WITHDRAW_DELAY_SECS);
    t.client.execute_withdraw_fees(&recipient);
}

#[test]
#[should_panic(expected = "WithdrawalRequestExists")]
fn test_reject_duplicate_withdrawal_request() {
    let t = setup();
    let id = create_test_market(&t);
    let user = t.env.generate();
    fund_user(&t, &user, 200_0000000);
    t.client.place_bet(&user, &id, &true, &100_0000000_i128);

    advance_time(&t.env, 3601);
    t.client.resolve_market(&t.admin, &id, &true);

    let recipient = t.env.generate();
    t.client.add_fee_recipient(&t.admin, &recipient);

    let fees = t.client.get_accumulated_fees();
    let cap = fees * MAX_WITHDRAWAL_BPS / BPS_DENOM;
    t.client.request_withdraw_fees(&recipient, &recipient, &cap);
    t.client.request_withdraw_fees(&recipient, &recipient, &cap);
}

#[test]
#[should_panic(expected = "NotAdmin")]
fn test_reject_withdraw_fees_non_admin() {
    let t = setup();
    let id = create_test_market(&t);
    let user = t.env.generate();
    fund_user(&t, &user, 200_0000000);
    t.client.place_bet(&user, &id, &true, &100_0000000_i128);
    let rando = t.env.generate();
    t.client.withdraw_fees(&rando, &rando);
}

#[test]
fn test_bettor_index_enumeration() {
    let t = setup();
    let id = create_test_market(&t);
    let alice = t.env.generate();
    let bob = t.env.generate();
    let charlie = t.env.generate();
    fund_user(&t, &alice, 200_0000000);
    fund_user(&t, &bob, 200_0000000);
    fund_user(&t, &charlie, 200_0000000);

    t.client.place_bet(&alice, &id, &true, &10_0000000_i128);
    t.client.place_bet(&bob, &id, &false, &20_0000000_i128);
    t.client.place_bet(&charlie, &id, &true, &30_0000000_i128);

    let bettors = t.client.get_market_bettors(&id);
    assert_eq!(bettors.len(), 3);
    assert_eq!(bettors[0], alice);
    assert_eq!(bettors[1], bob);
    assert_eq!(bettors[2], charlie);

    let first_page = t.client.get_market_bettors_page(&id, &0, &2);
    assert_eq!(first_page.len(), 2);
    assert_eq!(first_page[0], alice);
    assert_eq!(first_page[1], bob);

    let second_page = t.client.get_market_bettors_page(&id, &2, &2);
    assert_eq!(second_page.len(), 1);
    assert_eq!(second_page[0], charlie);
}

#[test]
fn test_bettor_index_legacy_read_is_bounded() {
    let t = setup();
    let id = create_test_market(&t);
    let first = t.env.generate();
    let beyond_first_page = t.env.generate();

    t.env.attempt(|chain| {
        chain.market.bettor_count.set(id, MAX_BETTORS_PER_PAGE + 1);
        chain.market.bettor_at.set((id, 0), first);
        chain.market.bettor_at.set((id, MAX_BETTORS_PER_PAGE), beyond_first_page);
        Ok(())
    }).unwrap();

    let legacy_page = t.client.get_market_bettors(&id);
    assert_eq!(legacy_page.len(), 1);
    assert_eq!(legacy_page[0], first);

    let later_page = t
        .client
        .get_market_bettors_page(&id, &MAX_BETTORS_PER_PAGE, &1);
    assert_eq!(later_page.len(), 1);
    assert_eq!(later_page[0], beyond_first_page);
}

#[test]
fn test_bettor_index_legacy_read_is_capped_at_one_page() {
    let t = setup();
    let id = create_test_market(&t);

    let first = t.env.generate();
    let on_first_page = t.env.generate();
    let beyond = t.env.generate();

    t.env.attempt(|chain| {
        chain.market.bettor_count.set(id, 5_000_u32);
        chain.market.bettor_at.set((id, 0), first);
        chain.market.bettor_at.set((id, 1), on_first_page);
        chain.market.bettor_at.set((id, 4_999), beyond);
        Ok(())
    }).unwrap();

    let legacy = t.client.get_market_bettors(&id);
    // Only the two live index slots inside the first-page window are
    // returned — the read never touches slot 4_999 or any other page.
    assert_eq!(legacy.len(), 2);
    assert_eq!(legacy[0], first);
    assert_eq!(legacy[1], on_first_page);

    // The far entry is still reachable through direct indexed paging.
    let tail = t.client.get_market_bettors_page(&id, &4_999_u32, &1);
    assert_eq!(tail.len(), 1);
    assert_eq!(tail[0], beyond);
}

#[test]
fn test_bettor_index_pages_beyond_count_are_empty() {
    let t = setup();
    let id = create_test_market(&t);
    let user = t.env.generate();
    fund_user(&t, &user, 200_0000000);
    t.client.place_bet(&user, &id, &true, &10_0000000_i128);

    // Offsets past the live count return empty pages instead of scanning.
    assert_eq!(t.client.get_market_bettors_page(&id, &1, &10).len(), 0);
    assert_eq!(
        t.client.get_market_bettors_page(&id, &u32::MAX, &10).len(),
        0
    );
}

#[test]
fn test_bettor_index_limit_is_clamped_to_max_page() {
    let t = setup();
    let id = create_test_market(&t);
    for _ in 0..3u32 {
        let user = t.env.generate();
        fund_user(&t, &user, 200_0000000);
        t.client.place_bet(&user, &id, &true, &10_0000000_i128);
    }

    let page = t.client.get_market_bettors_page(&id, &0, &u32::MAX);
    assert_eq!(page.len(), 3);
}

#[test]
fn test_bettor_index_sequential_pages_reconstruct_full_list() {
    let t = setup();
    let id = create_test_market(&t);

    let total = 25u32;
    let mut expected: Vec<Address> = Vec::new();
    for _ in 0..total {
        let user = t.env.generate();
        fund_user(&t, &user, 200_0000000);
        t.client.place_bet(&user, &id, &true, &10_0000000_i128);
        expected.push(user);
    }

    let mut seen: Vec<Address> = Vec::new();
    let mut offset = 0_u32;
    while (offset as usize) < expected.len() {
        let page = t.client.get_market_bettors_page(&id, &offset, &10);
        assert!(page.len() <= 10);
        for i in 0..page.len() {
            seen.push(page[i].clone());
        }
        offset += page.len() as u32;
    }

    assert_eq!(seen.len(), expected.len());
    for i in 0..expected.len() {
        assert_eq!(seen[i], expected[i]);
    }
}

#[test]
fn test_referrer_bonus_points_per_bet() {
    let t = setup();
    let id = create_test_market(&t);
    let user = t.env.generate();
    let referrer = t.env.generate();
    fund_user(&t, &user, 500_0000000);

    let no_ref: Option<Address> = None;
    t.referral_client
        .register_referral(&referrer, &String::from("Referrer"), &no_ref);
    t.referral_client.register_referral(
        &user,
        &String::from("Fan"),
        &Some(referrer.clone()),
    );

    t.client.place_bet(&user, &id, &true, &100_0000000_i128);
    t.client.place_bet(&user, &id, &true, &50_0000000_i128);

    t.leaderboard_client.claim_pending_rewards(&referrer);
    assert_eq!(t.leaderboard_client.get_points(&referrer), 11);
}

#[test]
#[should_panic(expected = "TooManyBets")]
fn test_reject_too_many_bets() {
    let t = setup();
    let id = create_test_market(&t);
    let user = t.env.generate();
    fund_user(&t, &user, 100_000_000_000);

    // 1.1 XLM gross clears the net minimum (net = 1.078 XLM >= MIN_BET) so the
    // 21st bet actually trips the TooManyBets guard instead of BetTooSmall.
    for _ in 0..=20u32 {
        t.client.place_bet(&user, &id, &true, &11_0000000_i128);
    }
}

#[test]
fn test_market_creation_rate_limit_allows_up_to_max() {
    let t = setup();
    // Should be able to create up to MAX_MARKETS_PER_WINDOW (10) in the same window
    for i in 0..10u32 {
        let _ = t.client.create_market(
            &t.admin,
            &String::from("Market"),
            &String::from("https://x.png"),
            &Category::Crypto,
            &(3600_u64 + i as u64),
        );
    }
    assert_eq!(t.client.get_market_count(), 10);
}

#[test]
#[should_panic(expected = "RateLimitExceeded")]
fn test_market_creation_rate_limit_exceeded() {
    let t = setup();
    // Create 10 markets (the limit)
    for i in 0..10u32 {
        let _ = t.client.create_market(
            &t.admin,
            &String::from("Market"),
            &String::from("https://x.png"),
            &Category::Crypto,
            &(3600_u64 + i as u64),
        );
    }
    // 11th should fail
    t.client.create_market(
        &t.admin,
        &String::from("Over limit"),
        &String::from("https://x.png"),
        &Category::Sports,
        &7200_u64,
    );
}

#[test]
fn test_market_creation_rate_limit_resets_after_window() {
    let t = setup();
    for i in 0..10u32 {
        let _ = t.client.create_market(
            &t.admin,
            &String::from("Market"),
            &String::from("https://x.png"),
            &Category::Crypto,
            &(3600_u64 + i as u64),
        );
    }
    // Advance past the rate-limit window (~720 ledgers ≈ 1h)
    advance_ledgers(&t.env, RATE_WINDOW_LEDGERS);
    // Should be able to create again
    let id = t.client.create_market(
        &t.admin,
        &String::from("New window market"),
        &String::from("https://x.png"),
        &Category::Sports,
        &7200_u64,
    );
    assert_eq!(id, 11);
}

#[test]
#[should_panic(expected = "RateLimitExceeded")]
fn test_market_creation_rate_limit_rejects_timestamp_regression() {
    let t = setup();
    for i in 0..10u32 {
        let _ = t.client.create_market(
            &t.admin,
            &String::from("Market"),
            &String::from("https://x.png"),
            &Category::Crypto,
            &(3600_u64 + i as u64),
        );
    }

    // Rewinding the ledger must not reset the active rate-limit window.
    rewind_time(&t.env, 1);
    t.client.create_market(
        &t.admin,
        &String::from("Over limit after rewind"),
        &String::from("https://x.png"),
        &Category::Sports,
        &7200_u64,
    );
}

#[test]
#[should_panic(expected = "RateLimitExceeded")]
fn test_market_creation_rate_limit_not_reset_by_timestamp_jump() {
    let t = setup();
    for i in 0..10u32 {
        let _ = t.client.create_market(
            &t.admin,
            &String::from("Market"),
            &String::from("https://x.png"),
            &Category::Crypto,
            &(3600_u64 + i as u64),
        );
    }

    // A huge forward jump in wall-clock time without the corresponding ledger
    // progression must NOT expire the window: the limit is anchored to the
    // monotonic ledger sequence, not to timestamps.
    advance_time(&t.env, 86_400);
    t.client.create_market(
        &t.admin,
        &String::from("Over limit after time jump"),
        &String::from("https://x.png"),
        &Category::Sports,
        &7200_u64,
    );
}

#[test]
#[should_panic(expected = "AlreadyInitialized")]
fn tests_test_double_init_rejected() {
    let t = setup();
    let tok2 = t.env.generate();
    let ref2 = t.env.generate();
    let lb2 = t.env.generate();
    let xlm2 = t.env.generate();
    t.client.initialize(&t.admin, &tok2, &ref2, &lb2, &xlm2);
}

#[test]
#[should_panic(expected = "MarketNotExpired")]
fn test_reject_resolve_before_deadline() {
    let t = setup();
    let id = create_test_market(&t);
    let user = t.env.generate();
    fund_user(&t, &user, 200_0000000);
    t.client.place_bet(&user, &id, &true, &50_0000000_i128);
    t.client.resolve_market(&t.admin, &id, &true);
}

#[test]
#[should_panic(expected = "NoFeesToWithdraw")]
fn test_withdraw_fees_zero() {
    let t = setup();
    t.client.withdraw_fees(&t.admin, &t.admin);
}

#[test]
#[should_panic(expected = "NoBetFound")]
fn test_claim_no_bet_found() {
    let t = setup();
    let id = create_test_market(&t);
    let user = t.env.generate();
    fund_user(&t, &user, 200_0000000);
    t.client.place_bet(&user, &id, &true, &50_0000000_i128);
    advance_time(&t.env, 3601);
    t.client.resolve_market(&t.admin, &id, &true);
    let stranger = t.env.generate();
    t.client.claim(&stranger, &id);
}

#[test]
#[should_panic(expected = "NotAdmin")]
fn test_reject_create_market_non_admin() {
    let t = setup();
    let rando = t.env.generate();
    t.client.create_market(
        &rando,
        &String::from("Unauthorized?"),
        &String::from("https://x.png"),
        &Category::Other,
        &3600_u64,
    );
}

#[test]
#[should_panic(expected = "NotAdmin")]
fn test_reject_cancel_market_non_admin() {
    let t = setup();
    let id = create_test_market(&t);
    let rando = t.env.generate();
    t.client.cancel_market(&rando, &id);
}

#[test]
#[should_panic(expected = "MarketNotFound")]
fn test_market_not_found() {
    let t = setup();
    t.client.get_market(&999);
}

#[test]
fn test_create_multiple_markets() {
    let t = setup();
    let id1 = t.client.create_market(
        &t.admin,
        &String::from("Market A"),
        &String::from("https://a.png"),
        &Category::Crypto,
        &3600_u64,
    );
    let id2 = t.client.create_market(
        &t.admin,
        &String::from("Market B"),
        &String::from("https://b.png"),
        &Category::Sports,
        &7200_u64,
    );
    assert_eq!(id1, 1);
    assert_eq!(id2, 2);
    assert_eq!(t.client.get_market_count(), 2);
    assert_eq!(t.client.get_market(&id2).category, Category::Sports);
}

#[test]
fn test_empty_side_resolution_pool_to_fees() {
    let t = setup();
    let id = create_test_market(&t);
    let alice = t.env.generate();
    fund_user(&t, &alice, 200_0000000);

    // Only YES bets — no one bets NO
    t.client.place_bet(&alice, &id, &true, &100_0000000_i128);
    let fees_before = t.client.get_accumulated_fees();
    // No referrer: only the 1.5% platform fee accrues -- the registry
    // refunds the 0.5% referral share straight back to alice.
    assert_eq!(fees_before, 1_5000000);
    assert_eq!(t.client.get_market_fees(&id), 1_5000000);

    // Advance past end_time and resolve NO (empty winning side)
    advance_time(&t.env, 3601);
    t.client.resolve_market(&t.admin, &id, &false);

    assert_eq!(t.client.get_accumulated_fees(), 0);
    assert_eq!(t.client.get_payout(&id, &alice), 98_0000000);
    let fp = t.client.get_forfeited_pool(&id).expect("forfeited pool");
    assert_eq!(fp.amount, 98_0000000);
    assert_eq!(fp.locked_fees, 1_5000000);

    // Draining during the dispute window reverts.
    let treasury = t.env.generate();
    t.client.add_fee_recipient(&t.admin, &treasury);
    assert!(t.client.try_withdraw_fees(&t.admin, &treasury).is_err());

    // After the dispute window, finalize releases the locked fees.
    advance_time(&t.env, DISPUTE_WINDOW_SECS);
    t.client.finalize_zero_side(&id);
    let before = t.xlm.balance(&treasury);
    let withdrawn = withdraw_all_admin_fees(&t, &treasury);
    assert_eq!(withdrawn, fees_before);
    assert_eq!(t.xlm.balance(&treasury), before + fees_before);

    let alice_xlm_before = t.xlm.balance(&alice);
    t.client.claim(&alice, &id);
    let bet = t.client.get_bet(&id, &alice);
    assert!(bet.claimed);
    assert_eq!(t.xlm.balance(&alice), alice_xlm_before + 98_0000000);
    assert_eq!(t.token_client.balance(&alice), 0);
    assert_eq!(t.leaderboard_client.get_points(&alice), 0); // saturates at 0, was never credited
}

#[test]
fn test_cancel_fees_zeroed_correctly() {
    let t = setup();
    let id = create_test_market(&t);
    let alice = t.env.generate();
    let bob = t.env.generate();
    fund_user(&t, &alice, 200_0000000);
    fund_user(&t, &bob, 200_0000000);

    // Two bets accumulate fees. Neither bettor has a referrer, but
    // the registry refunds that 0.5% straight back to each
    // bettor -- only the 1.5% platform fee ever accrues to the market.
    t.client.place_bet(&alice, &id, &true, &100_0000000_i128); // 1.5 platform
    t.client.place_bet(&bob, &id, &false, &100_0000000_i128); // 1.5 platform
    assert_eq!(t.client.get_accumulated_fees(), 3_0000000);

    // Cancel zeroes out those fees
    t.client.cancel_market(&t.admin, &id);
    assert_eq!(t.client.get_accumulated_fees(), 0);

    // Bettors get their gross back
    t.client.cancel_refund(&alice, &id);
    t.client.cancel_refund(&bob, &id);
}

#[test]
#[should_panic(expected = "InvalidDuration")]
fn test_reject_market_below_min_duration() {
    let t = setup();
    t.client.create_market(
        &t.admin,
        &String::from("Too short"),
        &String::from("https://x.png"),
        &Category::Crypto,
        &3599_u64,
    );
}

#[test]
fn test_open_market_count_tracks_creations() {
    let t = setup();
    assert_eq!(t.client.get_open_market_count(), 0);
    create_test_market(&t);
    create_test_market(&t);
    create_test_market(&t);
    assert_eq!(t.client.get_open_market_count(), 3);
    assert_eq!(t.client.get_market_count(), 3);
}

#[test]
fn test_resolve_releases_open_market_slot() {
    let t = setup();
    let id1 = create_test_market(&t);
    let _ = create_test_market(&t);
    assert_eq!(t.client.get_open_market_count(), 2);

    let user = t.env.generate();
    fund_user(&t, &user, 200_0000000);
    t.client.place_bet(&user, &id1, &true, &50_0000000_i128);
    advance_time(&t.env, 3601);
    t.client.resolve_market(&t.admin, &id1, &true);
    assert_eq!(t.client.get_open_market_count(), 1);

    // The freed slot is immediately reusable.
    create_test_market(&t);
    assert_eq!(t.client.get_open_market_count(), 2);
}

#[test]
fn test_cancel_releases_open_market_slot() {
    let t = setup();
    let id1 = create_test_market(&t);
    let _ = create_test_market(&t);
    assert_eq!(t.client.get_open_market_count(), 2);

    t.client.cancel_market(&t.admin, &id1);
    assert_eq!(t.client.get_open_market_count(), 1);

    create_test_market(&t);
    assert_eq!(t.client.get_open_market_count(), 2);
}

#[test]
#[should_panic(expected = "TooManyOpenMarkets")]
fn test_open_market_cap_rejects_overflow() {
    let t = setup();
    // The per-window rate limit (10) is tighter than the concurrency cap
    // (50), so climb through 5 windows to fill MAX_OPEN_MARKETS.
    for _ in 0..5u32 {
        for i in 0..10u32 {
            let _ = t.client.create_market(
                &t.admin,
                &String::from("Market"),
                &String::from("https://x.png"),
                &Category::Crypto,
                &(3600_u64 + i as u64),
            );
        }
        advance_ledgers(&t.env, RATE_WINDOW_LEDGERS);
    }
    assert_eq!(t.client.get_open_market_count(), 50);
    // The 51st open market is rejected even with a fresh rate window — the
    // concurrency check runs before check_rate.
    t.client.create_market(
        &t.admin,
        &String::from("Over the cap"),
        &String::from("https://x.png"),
        &Category::Sports,
        &7200_u64,
    );
}

#[test]
fn test_open_market_cap_slot_released_by_cancel() {
    let t = setup();
    for _ in 0..5u32 {
        for i in 0..10u32 {
            let _ = t.client.create_market(
                &t.admin,
                &String::from("Market"),
                &String::from("https://x.png"),
                &Category::Crypto,
                &(3600_u64 + i as u64),
            );
        }
        advance_ledgers(&t.env, RATE_WINDOW_LEDGERS);
    }
    assert_eq!(t.client.get_open_market_count(), 50);

    // Cancelling one market frees a slot immediately.
    t.client.cancel_market(&t.admin, &1_u64);
    assert_eq!(t.client.get_open_market_count(), 49);

    // With a fresh rate window the freed slot can be used again.
    let id = t.client.create_market(
        &t.admin,
        &String::from("Fresh slot"),
        &String::from("https://x.png"),
        &Category::Sports,
        &7200_u64,
    );
    assert_eq!(id, 51);
    assert_eq!(t.client.get_open_market_count(), 50);
}

#[test]
fn test_e2e_full_inter_contract_flow() {
    let t = setup();

    let alice_user = t.env.generate();
    let bob = t.env.generate();
    let referrer = t.env.generate();
    fund_user(&t, &alice_user, 1000_0000000);
    fund_user(&t, &bob, 1000_0000000);

    let no_ref: Option<Address> = None;
    t.referral_client
        .register_referral(&referrer, &String::from("Referrer"), &no_ref);
    t.referral_client.register_referral(
        &alice_user,
        &String::from("Alice"),
        &Some(referrer.clone()),
    );
    t.leaderboard_client.claim_pending_rewards(&alice_user);
    assert_eq!(t.leaderboard_client.get_points(&alice_user), 5);
    assert_eq!(t.token_client.balance(&alice_user), 1_0000000);

    let market_id = t.client.create_market(
        &t.admin,
        &String::from("Will ETH flip BTC?"),
        &String::from("https://eth.png"),
        &Category::Crypto,
        &3600_u64,
    );
    assert_eq!(market_id, 1);

    // Alice bets YES 100 XLM — has referrer
    t.client
        .place_bet(&alice_user, &market_id, &true, &100_0000000_i128);
    assert_eq!(t.client.get_accumulated_fees(), 1_5000000);
    assert_eq!(t.xlm.balance(&referrer), 5000000);
    t.leaderboard_client.claim_pending_rewards(&referrer);
    assert_eq!(t.leaderboard_client.get_points(&referrer), 8);
    // Alice's welcome bonus counts as the activity: won(0) + lost(0) + bonus(1).
    assert_eq!(t.leaderboard_client.get_stats(&alice_user).total_bets, 1);
    assert_eq!(t.client.get_market(&market_id).total_yes, 98_0000000);
    assert_eq!(t.client.get_bet_gross(&market_id, &alice_user), 100_0000000);

    // Bob bets NO 200 XLM — no referrer
    t.client
        .place_bet(&bob, &market_id, &false, &200_0000000_i128);
    // Bob has no referrer, so the registry refunds his 0.5% referral
    // share straight back to him -- only platform fees accrue to the
    // market. Alice: 1.5M; Bob: 3M platform → 4.5M.
    assert_eq!(t.client.get_accumulated_fees(), 4_5000000);
    // Bob never registered, so no bonus: total_bets = won(0) + lost(0) + bonus(0).
    assert_eq!(t.leaderboard_client.get_stats(&bob).total_bets, 0);
    assert_eq!(t.client.get_market(&market_id).total_no, 196_0000000);

    // Alice increases YES (+50 XLM)
    t.client
        .place_bet(&alice_user, &market_id, &true, &50_0000000_i128);
    let alice_bet = t.client.get_bet(&market_id, &alice_user);
    assert_eq!(alice_bet.amount, 98_0000000 + 49_0000000);
    assert_eq!(t.client.get_bet_gross(&market_id, &alice_user), 150_0000000);
    assert_eq!(t.client.get_market(&market_id).total_yes, 147_0000000);
    assert_eq!(t.client.get_market(&market_id).bet_count, 2);
    t.leaderboard_client.claim_pending_rewards(&referrer);
    assert_eq!(t.leaderboard_client.get_points(&referrer), 11);

    // Add a resolver and resolve via them
    let resolver = t.env.generate();
    t.client.add_resolver(&t.admin, &resolver);
    advance_time(&t.env, 3601);
    t.client.resolve_market(&resolver, &market_id, &true);
    assert!(t.client.get_market(&market_id).resolved);

    let alice_xlm_before = t.xlm.balance(&alice_user);
    t.client.claim(&alice_user, &market_id);
    let alice_payout = t.xlm.balance(&alice_user) - alice_xlm_before;
    assert_eq!(alice_payout, 343_0000000);

    t.leaderboard_client.claim_pending_rewards(&alice_user);
    assert_eq!(t.leaderboard_client.get_points(&alice_user), 35); // 5 welcome + 30 win
    assert_eq!(t.token_client.balance(&alice_user), 11_0000000); // 1 welcome + 10 win

    let bob_xlm_before = t.xlm.balance(&bob);
    t.client.claim(&bob, &market_id);
    assert_eq!(t.xlm.balance(&bob), bob_xlm_before);
    assert_eq!(t.leaderboard_client.get_points(&bob), 0); // saturates at 0, was never credited
    assert_eq!(t.token_client.balance(&bob), 0);
    assert_eq!(t.leaderboard_client.get_stats(&bob).lost_bets, 1);

    // Fee withdrawal to a registered treasury address
    let treasury = t.env.generate();
    t.client.add_fee_recipient(&t.admin, &treasury);
    let fees_total = t.client.get_accumulated_fees();
    assert!(fees_total > 0);
    let treasury_before = t.xlm.balance(&treasury);
    let withdrawn = withdraw_all_admin_fees(&t, &treasury);
    assert_eq!(withdrawn, fees_total);
    assert_eq!(t.client.get_accumulated_fees(), 0);
    assert_eq!(t.xlm.balance(&treasury), treasury_before + fees_total);

    // Create second market, bet, then cancel — verify claim-style refund
    let market2 = t.client.create_market(
        &t.admin,
        &String::from("Will DOGE hit $1?"),
        &String::from("https://doge.png"),
        &Category::Crypto,
        &7200_u64,
    );
    let charlie = t.env.generate();
    fund_user(&t, &charlie, 500_0000000);
    let charlie_before = t.xlm.balance(&charlie);
    t.client
        .place_bet(&charlie, &market2, &true, &100_0000000_i128);
    t.client.cancel_market(&t.admin, &market2);
    // AccumulatedFees from market2 should be zeroed
    assert_eq!(t.client.get_accumulated_fees(), 0);
    let refunded = t.client.cancel_refund(&charlie, &market2);
    assert_eq!(refunded, 99_5000000);
    assert_eq!(t.xlm.balance(&charlie), charlie_before);
}

#[test]
#[should_panic(expected = "InvalidReferrer")]
fn test_reject_unregistered_referrer_e2e() {
    let t = setup();
    let user = t.env.generate();
    let attacker = t.env.generate();
    fund_user(&t, &user, 1_000_0000000);

    t.referral_client.register_referral(
        &user,
        &String::from("Victim"),
        &Some(attacker.clone()),
    );
}

#[test]
fn test_referral_fee_flow_registered_referrer() {
    let t = setup();
    let id = create_test_market(&t);
    let user = t.env.generate();
    let referrer = t.env.generate();
    fund_user(&t, &user, 1_000_0000000);

    // Referrer registers first (their welcome bonus is +5 pts), then user.
    t.referral_client
        .register_referral(&referrer, &String::from("Ref"), &None);
    t.referral_client.register_referral(
        &user,
        &String::from("User"),
        &Some(referrer.clone()),
    );

    t.client.place_bet(&user, &id, &true, &100_0000000_i128);
    // 1.5% platform fee accrues; 0.5% referral fee goes to the referrer.
    assert_eq!(t.client.get_accumulated_fees(), 1_5000000);
    assert_eq!(t.xlm.balance(&referrer), 5000000);
    // Referrer count, earnings and bonus pts all exist for the REGISTERED ref.
    assert_eq!(t.referral_client.get_referrer_count(&referrer), 1);
    assert_eq!(t.referral_client.get_earnings(&referrer), 5000000);
}

#[test]
fn test_referral_still_works_after_registered_referrer() {
    let t = setup();
    let id = create_test_market(&t);
    let user = t.env.generate();
    let referrer = t.env.generate();
    fund_user(&t, &user, 1_000_0000000);

    t.referral_client
        .register_referral(&referrer, &String::from("Ref"), &None);
    t.referral_client.register_referral(
        &user,
        &String::from("User"),
        &Some(referrer.clone()),
    );
    t.client.place_bet(&user, &id, &true, &100_0000000_i128);
    t.client.place_bet(&user, &id, &true, &50_0000000_i128);
    // 0.5% of 100 + 0.5% of 50 = 0.5 + 0.25 XLM = 7_500_000 stroops.
    assert_eq!(t.xlm.balance(&referrer), 7_500000);
    assert_eq!(t.leaderboard_client.get_points(&referrer), 5 + 3 + 3);
}

#[test]
fn test_many_winners_payouts_exact_and_dust_swept() {
    let t = setup();
    let id = create_test_market(&t);

    let w1 = t.env.generate();
    let w2 = t.env.generate();
    let w3 = t.env.generate();
    let l1 = t.env.generate();
    fund_user(&t, &w1, 10_000_000_000);
    fund_user(&t, &w2, 10_000_000_000);
    fund_user(&t, &w3, 10_000_000_000);
    fund_user(&t, &l1, 10_000_000_000);

    // Deliberately uneven stakes that do NOT divide the pool evenly.
    t.client.place_bet(&w1, &id, &true, &30_000_001_i128);
    t.client.place_bet(&w2, &id, &true, &40_000_003_i128);
    t.client.place_bet(&w3, &id, &true, &50_000_007_i128);
    t.client.place_bet(&l1, &id, &false, &27_777_779_i128);

    advance_time(&t.env, 3601);
    let fees_before = t.client.get_accumulated_fees();
    t.client.resolve_market(&t.admin, &id, &true);

    let market = t.client.get_market(&id);
    let pool: i128 = market.total_yes + market.total_no;
    let win: i128 = market.total_yes;

    let n1 = t.client.get_bet(&id, &w1).amount;
    let n2 = t.client.get_bet(&id, &w2).amount;
    let n3 = t.client.get_bet(&id, &w3).amount;
    assert_eq!(n1 + n2 + n3, win);

    // Stored payouts must equal the exact integer formula.
    let p1 = (n1 * pool) / win;
    let p2 = (n2 * pool) / win;
    let p3 = (n3 * pool) / win;
    assert_eq!(t.client.get_payout(&id, &w1), p1);
    assert_eq!(t.client.get_payout(&id, &w2), p2);
    assert_eq!(t.client.get_payout(&id, &w3), p3);
    assert_eq!(t.client.get_payout(&id, &l1), 0);

    // The dust is deterministic, bounded, and swept to the fee accumulator.
    let dust: i128 = pool - p1 - p2 - p3;
    assert!(dust >= 0);
    assert!(dust < win);
    assert_eq!(t.client.get_accumulated_fees(), fees_before + dust);

    // No overpay: the sum of payouts never exceeds the pool.
    assert!(p1 + p2 + p3 <= pool);

    // After all claims the market's balance drops by exactly Σ payouts.
    let market_contract = t.client.address.clone();
    let bal_before = t.xlm.balance(&market_contract);
    t.client.claim(&w1, &id);
    t.client.claim(&w2, &id);
    t.client.claim(&w3, &id);
    assert_eq!(bal_before - t.xlm.balance(&market_contract), p1 + p2 + p3);
    // w1 has no referrer, so the registry already refunded
    // their referral share straight back at bet time -- on top of the
    // claimed payout.
    let gross1 = 30_000_001_i128;
    let net1 = gross1 * NET_NUMERATOR / BPS_DENOM;
    let total_fee1 = gross1 - net1; // matches place_bet's exact derivation
    let platform_fee1 = gross1 * PLATFORM_FEE_BPS / BPS_DENOM;
    let referral_refund1 = total_fee1 - platform_fee1;
    assert_eq!(
        t.xlm.balance(&w1),
        10_000_000_000_i128 - gross1 + referral_refund1 + p1
    );
}

#[test]
fn test_payout_invariant_holds_through_partial_claims() {
    let t = setup();
    let id = create_test_market(&t);

    let w1 = t.env.generate();
    let w2 = t.env.generate();
    let w3 = t.env.generate();
    fund_user(&t, &w1, 1_000_0000000);
    fund_user(&t, &w2, 1_000_0000000);
    fund_user(&t, &w3, 1_000_0000000);

    // Deliberately uneven stakes that do not divide the pool evenly.
    t.client.place_bet(&w1, &id, &true, &10_300_007_i128); // net clears MIN_BET
    t.client.place_bet(&w2, &id, &true, &20_000_011_i128);
    t.client.place_bet(&w3, &id, &true, &30_000_013_i128);
    let loser = t.env.generate();
    fund_user(&t, &loser, 1_000_0000000);
    t.client.place_bet(&loser, &id, &false, &33_333_333_i128);

    advance_time(&t.env, 3601);
    let fees_before = t.client.get_accumulated_fees();
    t.client.resolve_market(&t.admin, &id, &true);

    let market = t.client.get_market(&id);
    let pool: i128 = market.total_yes + market.total_no;
    let win: i128 = market.total_yes;

    let n1 = t.client.get_bet(&id, &w1).amount;
    let n2 = t.client.get_bet(&id, &w2).amount;
    let n3 = t.client.get_bet(&id, &w3).amount;
    let payouts = [(n1 * pool) / win, (n2 * pool) / win, (n3 * pool) / win];
    assert_eq!(t.client.get_payout(&id, &w1), payouts[0]);
    assert_eq!(t.client.get_payout(&id, &w2), payouts[1]);
    assert_eq!(t.client.get_payout(&id, &w3), payouts[2]);
    let sum_payouts: i128 = payouts.iter().sum();

    // Deterministic dust is swept to fees exactly once, at settlement.
    let dust = pool - sum_payouts;
    assert!(dust >= 0);
    assert_eq!(t.client.get_accumulated_fees(), fees_before + dust);

    // After resolution: balance == unclaimed payouts + (fees + dust).
    let market_contract = t.client.address.clone();
    let bal_after_resolve = t.xlm.balance(&market_contract);
    assert_eq!(bal_after_resolve, sum_payouts + fees_before + dust);

    // Each partial claim drains exactly that winner's stored payout and
    // leaves the fee accumulator untouched.
    let mut claimed: i128 = 0;
    for (i, w) in [&w1, &w2].iter().enumerate() {
        let before = t.xlm.balance(&market_contract);
        t.client.claim(w, &id);
        let dropped = before - t.xlm.balance(&market_contract);
        assert_eq!(dropped, payouts[i]);
        claimed += dropped;
        assert_eq!(t.xlm.balance(&market_contract), bal_after_resolve - claimed);
        assert_eq!(t.client.get_accumulated_fees(), fees_before + dust);
    }

    // The final claim empties the payout side completely; only earned fees
    // remain in the contract.
    let before = t.xlm.balance(&market_contract);
    t.client.claim(&w3, &id);
    assert_eq!(before - t.xlm.balance(&market_contract), payouts[2]);
    assert_eq!(t.xlm.balance(&market_contract), fees_before + dust);

    // A loser claiming gets nothing and moves no funds.
    let loser_before = t.xlm.balance(&loser);
    t.client.claim(&loser, &id);
    assert_eq!(t.xlm.balance(&loser), loser_before);
    assert_eq!(t.xlm.balance(&market_contract), fees_before + dust);
}

#[test]
fn test_hedged_position_payout_uses_winning_side_net_only() {
    let t = setup();
    let id = create_test_market(&t);

    let hedger = t.env.generate();
    let pure_winner = t.env.generate();
    fund_user(&t, &hedger, 1_000_0000000);
    fund_user(&t, &pure_winner, 1_000_0000000);

    t.client.place_bet(&hedger, &id, &true, &60_0000000_i128);
    t.client.place_bet(&hedger, &id, &false, &40_0000000_i128); // hedge
    t.client
        .place_bet(&pure_winner, &id, &true, &50_0000000_i128);

    advance_time(&t.env, 3601);
    let fees_before = t.client.get_accumulated_fees();
    t.client.resolve_market(&t.admin, &id, &true);

    let market = t.client.get_market(&id);
    let pool: i128 = market.total_yes + market.total_no;
    let win: i128 = market.total_yes; // hedger's yes-net + pure winner

    let position = t.client.get_position(&id, &hedger);
    let hedge_net_yes = position.net_yes;
    let pure_net = t.client.get_bet(&id, &pure_winner).amount;
    assert_eq!(hedge_net_yes + pure_net, win);

    let p_hedge = (hedge_net_yes * pool) / win;
    let p_pure = (pure_net * pool) / win;
    assert_eq!(t.client.get_payout(&id, &hedger), p_hedge);
    assert_eq!(t.client.get_payout(&id, &pure_winner), p_pure);

    // Invariant holds with a hedged participant in the winner set.
    let dust = pool - p_hedge - p_pure;
    assert!(dust >= 0);
    assert_eq!(t.client.get_accumulated_fees(), fees_before + dust);

    // Hedger's losing-side stake stays pooled: their claim pays out only
    // the winning-side share, never their own no-stake back on top.
    t.client.claim(&hedger, &id);
    t.client.claim(&pure_winner, &id);

    let market_contract = t.client.address.clone();
    assert_eq!(t.xlm.balance(&market_contract), fees_before + dust);
    assert_eq!(p_hedge, hedge_net_yes * pool / win);
}

#[test]
fn test_single_winner_gets_whole_net_pool() {
    let t = setup();
    let id = create_test_market(&t);
    let winner = t.env.generate();
    let loser = t.env.generate();
    fund_user(&t, &winner, 10_000_000_000);
    fund_user(&t, &loser, 10_000_000_000);

    t.client.place_bet(&winner, &id, &true, &600_000_000_i128);
    t.client.place_bet(&loser, &id, &false, &600_000_000_i128);
    advance_time(&t.env, 3601);
    t.client.resolve_market(&t.admin, &id, &true);

    let market = t.client.get_market(&id);
    let total = market.total_yes + market.total_no;
    let before = t.xlm.balance(&winner);
    t.client.claim(&winner, &id);
    // Whole pool (both nets) goes to the single winner.
    assert_eq!(t.xlm.balance(&winner) - before, total);
    assert_eq!(t.client.get_payout(&id, &winner), total);
}

#[test]
fn test_claim_rebumps_ttl_entries() {
    let t = setup();
    let id = create_test_market(&t);
    let user = t.env.generate();
    fund_user(&t, &user, 200_0000000);
    t.client.place_bet(&user, &id, &true, &100_0000000_i128);
    advance_time(&t.env, 3601);
    t.client.resolve_market(&t.admin, &id, &true);

    // Fast-forward deep into the TTL window (but not past it).
    advance_ledgers(&t.env, 6_000_000);

    let market_contract = t.client.address.clone();
    let bet_key = MarketKey::Bet(id, user.clone());
    let market_key = MarketKey::Market(id);
    let ttl = |key: &MarketKey| -> u32 {
        t.env.ttl(market_contract, key)
    };
    let before_bet = ttl(&bet_key);
    let before_market = ttl(&market_key);

    t.client.claim(&user, &id);

    let after_bet = ttl(&bet_key);
    let after_market = ttl(&market_key);
    assert!(after_bet > before_bet);
    assert!(after_market > before_market);
}

#[test]
fn test_cancel_refund_rebumps_ttl_entries() {
    let t = setup();
    let id = create_test_market(&t);
    let user = t.env.generate();
    fund_user(&t, &user, 200_0000000);
    t.client.place_bet(&user, &id, &true, &100_0000000_i128);
    t.client.cancel_market(&t.admin, &id);

    advance_ledgers(&t.env, 6_000_000);

    let market_contract = t.client.address.clone();
    let bet_key = MarketKey::Bet(id, user.clone());
    let market_key = MarketKey::Market(id);
    let ttl = |key: &MarketKey| -> u32 {
        t.env.ttl(market_contract, key)
    };
    let bet_before = ttl(&bet_key);
    let market_before = ttl(&market_key);

    t.client.cancel_refund(&user, &id);

    assert!(ttl(&bet_key) > bet_before);
    assert!(ttl(&market_key) > market_before);
}

#[test]
fn tests_test_interface_version_reported() {
    let t = setup();
    assert_eq!(t.client.interface_version(), 1);
}

#[test]
fn test_resolve_market_rebumps_payout_entry() {
    let t = setup();
    let id = create_test_market(&t);
    let user = t.env.generate();
    fund_user(&t, &user, 200_0000000);
    t.client.place_bet(&user, &id, &true, &100_0000000_i128);
    advance_time(&t.env, 3601);

    advance_ledgers(&t.env, 6_000_000);
    t.client.resolve_market(&t.admin, &id, &true);

    let market_contract = t.client.address.clone();
    let payout_ttl = t.env.ttl(market_contract, &MarketKey::Payout(id, user.clone()));
    assert!(payout_ttl >= TTL_BUMP);
}

#[test]
fn tests_test_pause_unpause_admin_only() {
    let t = setup();
    assert!(!t.client.is_paused());
    assert!(!t.client.paused());

    t.client.pause(&t.admin);
    assert!(t.client.is_paused());
    assert!(t.client.paused());

    t.client.unpause(&t.admin);
    assert!(!t.client.is_paused());
    assert!(!t.client.paused());
}

#[test]
fn tests_test_set_paused_flow() {
    let t = setup();
    assert!(!t.client.paused());

    t.client.set_paused(&t.admin, &true);
    assert!(t.client.paused());
    assert!(t.client.is_paused());

    t.client.set_paused(&t.admin, &false);
    assert!(!t.client.paused());
    assert!(!t.client.is_paused());
}

#[test]
#[should_panic(expected = "NotAdmin")]
fn tests_test_set_paused_rejects_non_admin() {
    let t = setup();
    let not_admin = t.env.generate();
    t.client.set_paused(&not_admin, &true);
}

#[test]
#[should_panic(expected = "NotAdmin")]
fn tests_test_pause_rejects_non_admin() {
    let t = setup();
    let not_admin = t.env.generate();
    t.client.pause(&not_admin);
}

#[test]
#[should_panic(expected = "ContractPaused")]
fn test_paused_rejects_create_market() {
    let t = setup();
    t.client.pause(&t.admin);
    create_test_market(&t);
}

#[test]
#[should_panic(expected = "ContractPaused")]
fn test_paused_rejects_place_bet() {
    let t = setup();
    let id = create_test_market(&t);
    let user = t.env.generate();
    fund_user(&t, &user, 200_0000000);

    t.client.pause(&t.admin);
    t.client.place_bet(&user, &id, &true, &100_0000000_i128);
}

#[test]
#[should_panic(expected = "ContractPaused")]
fn test_paused_rejects_reduce_position() {
    let t = setup();
    let id = create_test_market(&t);
    let user = t.env.generate();
    fund_user(&t, &user, 200_0000000);
    t.client.place_bet(&user, &id, &true, &100_0000000_i128);

    t.client.set_paused(&t.admin, &true);
    t.client.reduce_position(&user, &id, &50_0000000_i128);
}

#[test]
#[should_panic(expected = "ContractPaused")]
fn test_paused_rejects_resolve_market() {
    let t = setup();
    let id = create_test_market(&t);
    let user = t.env.generate();
    fund_user(&t, &user, 200_0000000);
    t.client.place_bet(&user, &id, &true, &100_0000000_i128);
    advance_time(&t.env, 3601);

    t.client.pause(&t.admin);
    t.client.resolve_market(&t.admin, &id, &true);
}

#[test]
#[should_panic(expected = "ContractPaused")]
fn test_paused_rejects_claim() {
    let t = setup();
    let id = create_test_market(&t);
    let user = t.env.generate();
    fund_user(&t, &user, 200_0000000);
    t.client.place_bet(&user, &id, &true, &100_0000000_i128);
    advance_time(&t.env, 3601);
    t.client.resolve_market(&t.admin, &id, &true);

    t.client.pause(&t.admin);
    t.client.claim(&user, &id);
}

#[test]
#[should_panic(expected = "ContractPaused")]
fn test_paused_rejects_withdraw_fees() {
    let t = setup();
    let id = create_test_market(&t);
    let user = t.env.generate();
    fund_user(&t, &user, 200_0000000);
    t.client.place_bet(&user, &id, &true, &100_0000000_i128);

    t.client.pause(&t.admin);
    t.client.withdraw_fees(&t.admin, &t.admin);
}

#[test]
fn test_cancel_refund_still_works_while_paused() {
    let t = setup();
    let id = create_test_market(&t);
    let user = t.env.generate();
    fund_user(&t, &user, 200_0000000);
    t.client.place_bet(&user, &id, &true, &100_0000000_i128);
    t.client.cancel_market(&t.admin, &id);

    t.client.pause(&t.admin);
    let refunded = t.client.cancel_refund(&user, &id);
    assert_eq!(refunded, 99_5000000);
}

#[test]
fn tests_test_view_functions_work_while_paused() {
    let t = setup();
    let id = create_test_market(&t);
    t.client.pause(&t.admin);

    assert_eq!(t.client.get_market_count(), 1);
    let market = t.client.get_market(&id);
    assert_eq!(market.id, id);
}

#[test]
#[should_panic(expected = "ContractPaused")]
fn test_paused_rejects_cancel_market() {
    let t = setup();
    let id = create_test_market(&t);

    t.client.pause(&t.admin);
    t.client.cancel_market(&t.admin, &id);
}

#[test]
#[should_panic(expected = "ContractPaused")]
fn test_paused_rejects_request_withdraw_fees() {
    let t = setup();
    let id = create_test_market(&t);
    let user = t.env.generate();
    fund_user(&t, &user, 200_0000000);
    t.client.place_bet(&user, &id, &true, &100_0000000_i128);

    let recipient = t.env.generate();
    t.client.add_fee_recipient(&t.admin, &recipient);
    let fees = t.client.get_accumulated_fees();
    let cap = fees * MAX_WITHDRAWAL_BPS / BPS_DENOM;

    t.client.pause(&t.admin);
    t.client.request_withdraw_fees(&recipient, &recipient, &cap);
}

#[test]
#[should_panic(expected = "ContractPaused")]
fn test_paused_rejects_execute_withdraw_fees() {
    let t = setup();
    let id = create_test_market(&t);
    let user = t.env.generate();
    fund_user(&t, &user, 200_0000000);
    t.client.place_bet(&user, &id, &true, &100_0000000_i128);

    advance_time(&t.env, 3601);
    t.client.resolve_market(&t.admin, &id, &true);

    let recipient = t.env.generate();
    t.client.add_fee_recipient(&t.admin, &recipient);
    let fees = t.client.get_accumulated_fees();
    let cap = fees * MAX_WITHDRAWAL_BPS / BPS_DENOM;

    // Request while unpaused, then let the timelock mature — the pause check
    // in execute_withdraw_fees must still block payout even on a matured request.
    t.client.request_withdraw_fees(&recipient, &recipient, &cap);
    advance_time(&t.env, WITHDRAW_DELAY_SECS);

    t.client.pause(&t.admin);
    t.client.execute_withdraw_fees(&recipient);
}

#[test]
fn test_cancel_withdrawal_request_still_works_while_paused() {
    let t = setup();
    // Long duration so the config dispute-window delay doesn't expire it.
    let id = t.client.create_market(
        &t.admin,
        &String::from("Market"),
        &String::from("https://x.png"),
        &Category::Crypto,
        &1_000_000_u64,
    );
    let user = t.env.generate();
    fund_user(&t, &user, 200_0000000);
    t.client.place_bet(&user, &id, &true, &100_0000000_i128);

    advance_time(&t.env, 1_000_001);
    t.client.resolve_market(&t.admin, &id, &true);

    let recipient = t.env.generate();
    t.client.add_fee_recipient(&t.admin, &recipient);
    let fees = t.client.get_accumulated_fees();
    let cap = fees * MAX_WITHDRAWAL_BPS / BPS_DENOM;
    t.client.request_withdraw_fees(&recipient, &recipient, &cap);

    t.client.pause(&t.admin);
    t.client.cancel_withdrawal_request(&t.admin, &recipient);

    assert!(t.client.get_pending_withdrawal(&recipient).is_none());
}

#[test]
fn test_create_market_emits_event() {
    let t = setup();
    let _id = create_test_market(&t);
    assert_eq!(
        last_event_name(&t.env),
        String::from("market_created")
    );
}

#[test]
fn test_place_bet_emits_event() {
    let t = setup();
    let id = create_test_market(&t);
    let user = t.env.generate();
    fund_user(&t, &user, 200_0000000);
    t.client.place_bet(&user, &id, &true, &100_0000000_i128);
    assert_eq!(last_event_name(&t.env), String::from("bet_placed"));
}

#[test]
fn test_resolve_market_emits_event() {
    let t = setup();
    let id = create_test_market(&t);
    let alice = t.env.generate();
    let bob = t.env.generate();
    fund_user(&t, &alice, 200_0000000);
    fund_user(&t, &bob, 200_0000000);
    t.client.place_bet(&alice, &id, &true, &100_0000000_i128);
    t.client.place_bet(&bob, &id, &false, &100_0000000_i128);
    advance_time(&t.env, 3601);
    t.client.resolve_market(&t.admin, &id, &true);
    assert_eq!(
        last_event_name(&t.env),
        String::from("market_resolved")
    );
}

#[test]
fn test_cancel_does_not_wipe_other_market_fees() {
    let t = setup();
    let id1 = create_test_market(&t);
    let id2 = t.client.create_market(
        &t.admin,
        &String::from("Market 2"),
        &String::from("https://m2.png"),
        &Category::Other,
        &3600_u64,
    );

    let alice = t.env.generate();
    let bob = t.env.generate();
    fund_user(&t, &alice, 200_0000000);
    fund_user(&t, &bob, 200_0000000);

    t.client.place_bet(&alice, &id1, &true, &100_0000000_i128); // 1.5 XLM platform
    t.client.place_bet(&bob, &id2, &true, &100_0000000_i128); // 1.5 XLM platform
    assert_eq!(t.client.get_accumulated_fees(), 3_0000000);
    assert_eq!(t.client.get_market_fees(&id1), 1_5000000);
    assert_eq!(t.client.get_market_fees(&id2), 1_5000000);

    t.client.cancel_market(&t.admin, &id1);

    assert_eq!(t.client.get_market_fees(&id1), 0);
    assert_eq!(t.client.get_market_fees(&id2), 1_5000000);
    assert_eq!(t.client.get_accumulated_fees(), 1_5000000);
}

#[test]
fn test_cancel_market_reclaims_full_per_market_ledger() {
    let t = setup();
    let id = create_test_market(&t);
    let alice = t.env.generate();
    fund_user(&t, &alice, 200_0000000);
    t.client.place_bet(&alice, &id, &true, &100_0000000_i128);
    assert_eq!(t.client.get_market_fees(&id), 1_5000000);

    t.client.cancel_market(&t.admin, &id);
    // Full ledger balance is reclaimed - no stranded dust. Cancel debits the
    // whole recorded balance: an inflated ledger cannot be converted into
    // withdrawable fees - it is wiped with the market.
    assert_eq!(t.client.get_market_fees(&id), 0);
    assert_eq!(t.client.get_accumulated_fees(), 0);
}

#[test]
fn test_withdraw_fees_cannot_take_empty_side_principal() {
    let t = setup();
    let id = create_test_market(&t);
    let alice = t.env.generate();
    fund_user(&t, &alice, 200_0000000);
    t.client.place_bet(&alice, &id, &true, &100_0000000_i128);

    advance_time(&t.env, 3601);
    t.client.resolve_market(&t.admin, &id, &false);

    let treasury = t.env.generate();
    t.client.add_fee_recipient(&t.admin, &treasury);
    // Fees locked in ForfeitedPool — nothing withdrawable yet.
    assert_eq!(t.client.get_accumulated_fees(), 0);
    assert!(t.client.try_withdraw_fees(&t.admin, &treasury).is_err());

    advance_time(&t.env, DISPUTE_WINDOW_SECS);
    t.client.finalize_zero_side(&id);
    let withdrawn = withdraw_all_admin_fees(&t, &treasury);
    // Only the retained platform fee is withdrawable (referral share was
    // refunded to Alice at bet time); the empty side's principal is paid
    // back to her via the settlement ledger.
    assert_eq!(withdrawn, 1_5000000);

    let alice_before = t.xlm.balance(&alice);
    t.client.claim(&alice, &id);
    assert_eq!(t.xlm.balance(&alice), alice_before + 98_0000000);
}

#[test]
#[should_panic(expected = "InvalidFeeRecipient")]
fn test_fee_recipient_two_step_cannot_target_arbitrary_address() {
    let t = setup();
    let id = create_test_market(&t);
    let user = t.env.generate();
    fund_user(&t, &user, 200_0000000);
    t.client.place_bet(&user, &id, &true, &100_0000000_i128);

    let recipient = t.env.generate();
    let stranger = t.env.generate();
    t.client.add_fee_recipient(&t.admin, &recipient);

    let fees = t.client.get_accumulated_fees();
    let cap = fees * MAX_WITHDRAWAL_BPS / BPS_DENOM;
    t.client.request_withdraw_fees(&recipient, &stranger, &cap);
}

#[test]
fn test_admin_withdraw_respects_cap() {
    let t = setup();
    let id = create_test_market(&t);
    let user = t.env.generate();
    fund_user(&t, &user, 500_0000000);
    // Build a fee pot large enough that 20% is visibly less than 100%.
    t.client.place_bet(&user, &id, &true, &100_0000000_i128);
    t.client.place_bet(&user, &id, &true, &100_0000000_i128);
    t.client.place_bet(&user, &id, &true, &100_0000000_i128);
    let fees = t.client.get_accumulated_fees();
    assert_eq!(fees, 4_5000000); // 3 bets x 1.5% platform (referral refunded)

    assert!(t.client.try_withdraw_fees(&t.admin, &t.admin).is_err());

    // After resolution the earned pot is subject to the 20%-per-call cap.
    advance_time(&t.env, 3601);
    t.client.resolve_market(&t.admin, &id, &true);
    let cap = fees * MAX_WITHDRAWAL_BPS / BPS_DENOM;
    let withdrawn = t.client.withdraw_fees(&t.admin, &t.admin);
    assert_eq!(withdrawn, cap);
    assert_eq!(t.client.get_accumulated_fees(), fees - cap);
    assert!(withdrawn < fees);
}

#[test]
fn test_two_step_withdraw_debits_market_ledger() {
    let t = setup();
    let id = create_test_market(&t);
    let user = t.env.generate();
    fund_user(&t, &user, 200_0000000);
    t.client.place_bet(&user, &id, &true, &100_0000000_i128);
    assert_eq!(t.client.get_market_fees(&id), 1_5000000);

    let recipient = t.env.generate();
    t.client.add_fee_recipient(&t.admin, &recipient);
    assert!(t
        .client
        .try_request_withdraw_fees(&recipient, &recipient, &1_0000000)
        .is_err());
    assert!(t.client.try_withdraw_fees(&t.admin, &recipient).is_err());

    advance_time(&t.env, 3601);
    t.client.resolve_market(&t.admin, &id, &true);
    let fees = t.client.get_accumulated_fees();
    let cap = fees * MAX_WITHDRAWAL_BPS / BPS_DENOM;
    t.client.request_withdraw_fees(&recipient, &recipient, &cap);
    advance_time(&t.env, WITHDRAW_DELAY_SECS);
    let withdrawn = t.client.execute_withdraw_fees(&recipient);
    assert_eq!(withdrawn, cap);
    assert_eq!(t.client.get_market_fees(&id), fees - cap);
    assert_eq!(t.client.get_accumulated_fees(), fees - cap);
}

#[test]
#[should_panic(expected = "DisputeWindowActive")]
fn test_zero_side_claim_panics_during_dispute_window() {
    let t = setup();
    let id = create_test_market(&t);
    let alice = t.env.generate();
    fund_user(&t, &alice, 200_0000000);
    t.client.place_bet(&alice, &id, &true, &100_0000000_i128);
    advance_time(&t.env, 3601);
    t.client.resolve_market(&t.admin, &id, &false);
    t.client.claim(&alice, &id);
}

#[test]
#[should_panic(expected = "ConflictOfInterest")]
fn test_resolver_cannot_bet_on_any_market() {
    let t = setup();
    let id = create_test_market(&t);
    let resolver = t.env.generate();
    t.client.add_resolver(&t.admin, &resolver);
    fund_user(&t, &resolver, 200_0000000);
    t.client.place_bet(&resolver, &id, &true, &100_0000000_i128);
}

#[test]
#[should_panic(expected = "ConflictOfInterest")]
fn test_reject_add_resolver_who_holds_open_stake() {
    let t = setup();
    let id = create_test_market(&t);
    let colluder = t.env.generate();
    fund_user(&t, &colluder, 200_0000000);
    t.client.place_bet(&colluder, &id, &true, &100_0000000_i128);
    t.client.add_resolver(&t.admin, &colluder);
}

#[test]
#[should_panic(expected = "ConflictOfInterest")]
fn test_admin_cannot_resolve_market_they_staked() {
    let t = setup();
    let id = create_test_market(&t);
    fund_user(&t, &t.admin, 200_0000000);
    t.client.place_bet(&t.admin, &id, &true, &100_0000000_i128);
    advance_time(&t.env, 3601);
    t.client.resolve_market(&t.admin, &id, &false);
}

#[test]
fn test_two_sided_loser_does_not_receive_xlm_on_claim() {
    let t = setup();
    let id = create_test_market(&t);
    let alice = t.env.generate();
    let bob = t.env.generate();
    fund_user(&t, &alice, 200_0000000);
    fund_user(&t, &bob, 200_0000000);
    t.client.place_bet(&alice, &id, &true, &100_0000000_i128);
    t.client.place_bet(&bob, &id, &false, &100_0000000_i128);
    advance_time(&t.env, 3601);
    t.client.resolve_market(&t.admin, &id, &true);

    let bob_before = t.xlm.balance(&bob);
    t.client.claim(&bob, &id);
    assert_eq!(
        t.xlm.balance(&bob),
        bob_before,
        "loser must not receive XLM"
    );
    assert_eq!(t.token_client.balance(&bob), 0);
}

#[test]
fn test_loss_penalizes_existing_points_issue_24() {
    let t = setup();
    let alice = t.env.generate();
    let bob = t.env.generate();
    fund_user(&t, &alice, 500_0000000);
    fund_user(&t, &bob, 500_0000000);

    // Market 1: alice wins, banking WIN_POINTS.
    let id1 = create_test_market(&t);
    t.client.place_bet(&alice, &id1, &true, &100_0000000_i128);
    t.client.place_bet(&bob, &id1, &false, &100_0000000_i128);
    advance_time(&t.env, 3601);
    t.client.resolve_market(&t.admin, &id1, &true);
    t.client.claim(&alice, &id1);
    assert_eq!(t.leaderboard_client.get_points(&alice), 30); // WIN_POINTS

    // Market 2: alice loses a genuine two-sided bet (real competition, not
    // an empty-side edge case already covered elsewhere in this file).
    let id2 = create_test_market(&t);
    t.client.place_bet(&alice, &id2, &true, &100_0000000_i128);
    t.client.place_bet(&bob, &id2, &false, &100_0000000_i128);
    advance_time(&t.env, 3601);
    t.client.resolve_market(&t.admin, &id2, &false);

    let alice_tokens_before = t.token_client.balance(&alice);
    t.client.claim(&alice, &id2);

    assert_eq!(t.leaderboard_client.get_points(&alice), 20);
    assert_eq!(t.token_client.balance(&alice), alice_tokens_before);
    let stats = t.leaderboard_client.get_stats(&alice);
    assert_eq!(stats.won_bets, 1);
    assert_eq!(stats.lost_bets, 1);
}

#[test]
fn test_freeze_zero_side_during_dispute_refunds_gross() {
    let t = setup();
    let id = create_test_market(&t);
    let alice = t.env.generate();
    fund_user(&t, &alice, 200_0000000);
    let alice_before = t.xlm.balance(&alice);
    t.client.place_bet(&alice, &id, &true, &100_0000000_i128);
    advance_time(&t.env, 3601);
    t.client.resolve_market(&t.admin, &id, &false);

    t.client.freeze_market(&t.admin, &id);
    let fp = t.client.get_forfeited_pool(&id).unwrap();
    assert!(fp.frozen);
    assert!(t.client.get_market(&id).cancelled);
    assert_eq!(t.client.get_payout(&id, &alice), 0);

    assert!(t.client.try_claim(&alice, &id).is_err());
    let refunded = t.client.cancel_refund(&alice, &id);
    assert_eq!(refunded, 99_5000000);
    assert_eq!(t.xlm.balance(&alice), alice_before);
    assert_eq!(t.client.get_accumulated_fees(), 0);
}

#[test]
#[should_panic(expected = "DisputeWindowClosed")]
fn test_reject_freeze_after_dispute_window() {
    let t = setup();
    let id = create_test_market(&t);
    let alice = t.env.generate();
    fund_user(&t, &alice, 200_0000000);
    t.client.place_bet(&alice, &id, &true, &100_0000000_i128);
    advance_time(&t.env, 3601);
    t.client.resolve_market(&t.admin, &id, &false);
    advance_time(&t.env, DISPUTE_WINDOW_SECS);
    t.client.freeze_market(&t.admin, &id);
}

#[test]
#[should_panic(expected = "NotZeroSide")]
fn test_reject_freeze_two_sided_market() {
    let t = setup();
    let id = create_test_market(&t);
    let alice = t.env.generate();
    let bob = t.env.generate();
    fund_user(&t, &alice, 200_0000000);
    fund_user(&t, &bob, 200_0000000);
    t.client.place_bet(&alice, &id, &true, &100_0000000_i128);
    t.client.place_bet(&bob, &id, &false, &100_0000000_i128);
    advance_time(&t.env, 3601);
    t.client.resolve_market(&t.admin, &id, &true);
    t.client.freeze_market(&t.admin, &id);
}

#[test]
fn test_issue163_open_market_fees_are_reserved_from_withdrawal() {
    let t = setup();
    let id = create_test_market(&t);
    let alice = t.env.generate();
    fund_user(&t, &alice, 200_0000000);
    t.client.place_bet(&alice, &id, &true, &100_0000000_i128);
    assert_eq!(t.client.get_accumulated_fees(), 1_5000000);

    // Instant admin withdrawal and two-step requests must both be rejected
    // while the market is open — the fees back the cancellation refund.
    let treasury = t.env.generate();
    t.client.add_fee_recipient(&t.admin, &treasury);
    assert!(t.client.try_withdraw_fees(&t.admin, &treasury).is_err());
    assert!(t
        .client
        .try_request_withdraw_fees(&treasury, &treasury, &1_5000000)
        .is_err());

    // Cancellation still refunds the bettor net + platform in full.
    t.client.cancel_market(&t.admin, &id);
    let alice_before = t.xlm.balance(&alice);
    let refunded = t.client.cancel_refund(&alice, &id);
    assert_eq!(refunded, 99_5000000); // net 98 + platform 1.5
    assert_eq!(t.xlm.balance(&alice), alice_before + 99_5000000);
    assert_eq!(t.client.get_accumulated_fees(), 0);
}

#[test]
fn test_issue163_withdraw_after_resolution_then_cancel_other_market() {
    // Market A resolves (fees earned, withdrawable); market B stays open and
    // is later cancelled. Withdrawing A's earned fees must not affect B's
    // reserved fees or B's cancellation refund.
    let t = setup();
    let id_a = create_test_market(&t);
    let id_b = t.client.create_market(
        &t.admin,
        &String::from("Market B"),
        &String::from("https://b.png"),
        &Category::Other,
        &3600_u64,
    );

    let alice = t.env.generate();
    let bob = t.env.generate();
    fund_user(&t, &alice, 200_0000000);
    fund_user(&t, &bob, 200_0000000);
    t.client.place_bet(&alice, &id_a, &true, &100_0000000_i128);
    t.client.place_bet(&bob, &id_b, &true, &100_0000000_i128);
    assert_eq!(t.client.get_accumulated_fees(), 3_0000000);

    // Resolve A; only A's 1.5M becomes earned/withdrawable. B's 1.5M stays
    // reserved.
    advance_time(&t.env, 3601);
    t.client.resolve_market(&t.admin, &id_a, &true);

    let treasury = t.env.generate();
    t.client.add_fee_recipient(&t.admin, &treasury);
    // Withdraw exactly once: the cap takes 20% of the EARNED pot, and only
    // A's fees are earned (1.5M). B's 1.5M are reserved and cannot be
    // withdrawn. (withdraw_all_admin_fees cannot be used here — it loops on
    // the TOTAL accumulator, which still includes B's reserved fees.)
    let earned = t.client.get_accumulated_fees() - 1_5000000;
    assert_eq!(earned, 1_5000000);
    let withdrawn = t.client.withdraw_fees(&t.admin, &treasury);
    let cap = earned * MAX_WITHDRAWAL_BPS / BPS_DENOM;
    assert_eq!(withdrawn, cap);
    // The withdrawal came out of A's earned fees only (1.5M - cap taken);
    // B's reserved 1.5M remain untouched in the accumulator.
    assert_eq!(t.client.get_accumulated_fees(), 3_0000000 - cap);

    // B is cancelled: the bettor still gets net + platform back because B's
    // fees were never drained.
    t.client.cancel_market(&t.admin, &id_b);
    let bob_before = t.xlm.balance(&bob);
    let refunded = t.client.cancel_refund(&bob, &id_b);
    assert_eq!(refunded, 99_5000000);
    assert_eq!(t.xlm.balance(&bob), bob_before + 99_5000000);
    // B's reserved fees are reclaimed by the cancellation (not left behind),
    // and A's remaining earned fees stay withdrawable.
    assert_eq!(t.client.get_accumulated_fees(), 1_5000000 - cap);
}

#[test]
fn test_per_market_fee_provenance_is_isolated() {
    let t = setup();
    let id1 = create_test_market(&t);
    let id2 = t.client.create_market(
        &t.admin,
        &String::from("Market 2"),
        &String::from("https://m2.png"),
        &Category::Other,
        &3600_u64,
    );

    let alice = t.env.generate();
    let bob = t.env.generate();
    fund_user(&t, &alice, 500_0000000);
    fund_user(&t, &bob, 500_0000000);

    // Different bet sizes → different platform fees.
    t.client.place_bet(&alice, &id1, &true, &100_0000000_i128); // 1.5 XLM
    t.client.place_bet(&bob, &id2, &true, &200_0000000_i128); // 3.0 XLM

    assert_eq!(t.client.get_market_fees(&id1), 1_5000000);
    assert_eq!(t.client.get_market_fees(&id2), 3_0000000);
    assert_eq!(t.client.get_accumulated_fees(), 4_5000000);

    // Cancel market 1 — only its fees should be removed.
    t.client.cancel_market(&t.admin, &id1);

    assert_eq!(t.client.get_market_fees(&id1), 0);
    assert_eq!(t.client.get_market_fees(&id2), 3_0000000);
    assert_eq!(t.client.get_accumulated_fees(), 3_0000000);

    // Bettor on market 1 gets gross back (net + platform via cancel_refund;
    // the 0.5% referral share already came back to them at bet time).
    let alice_before = t.xlm.balance(&alice);
    t.client.cancel_refund(&alice, &id1);
    assert_eq!(t.xlm.balance(&alice), alice_before + 99_5000000);

    advance_time(&t.env, 3601);
    t.client.resolve_market(&t.admin, &id2, &true);
    let treasury = t.env.generate();
    t.client.add_fee_recipient(&t.admin, &treasury);
    let withdrawn = t.client.withdraw_fees(&t.admin, &treasury);
    assert!(withdrawn > 0);
}

#[test]
fn test_withdraw_only_takes_from_per_market_ledgers() {
    let t = setup();
    let id1 = create_test_market(&t);
    let id2 = t.client.create_market(
        &t.admin,
        &String::from("Market 2"),
        &String::from("https://m2.png"),
        &Category::Other,
        &3600_u64,
    );

    let alice = t.env.generate();
    let bob = t.env.generate();
    fund_user(&t, &alice, 200_0000000);
    fund_user(&t, &bob, 200_0000000);

    t.client.place_bet(&alice, &id1, &true, &100_0000000_i128); // 1.5 XLM
    t.client.place_bet(&bob, &id2, &true, &100_0000000_i128); // 1.5 XLM
    assert_eq!(t.client.get_accumulated_fees(), 3_0000000);

    advance_time(&t.env, 3601);
    t.client.resolve_market(&t.admin, &id1, &true);
    t.client.resolve_market(&t.admin, &id2, &true);

    // Withdraw — debits from per-market ledgers (newest first).
    let treasury = t.env.generate();
    t.client.add_fee_recipient(&t.admin, &treasury);
    let fees = t.client.get_accumulated_fees();
    let cap = fees * MAX_WITHDRAWAL_BPS / BPS_DENOM; // 20% = 6000000
    let withdrawn = t.client.withdraw_fees(&t.admin, &treasury);
    assert_eq!(withdrawn, cap);

    // Total should be reduced by exactly the withdrawn amount.
    assert_eq!(t.client.get_accumulated_fees(), 3_0000000 - cap);

    // Individual market fees are debited proportionally from per-market ledgers.
    let remaining1 = t.client.get_market_fees(&id1);
    let remaining2 = t.client.get_market_fees(&id2);
    assert_eq!(remaining1 + remaining2, 3_0000000 - cap);
}

#[test]
fn test_accumulated_fees_is_always_derived() {
    let t = setup();
    let id = create_test_market(&t);
    let user = t.env.generate();
    fund_user(&t, &user, 500_0000000);

    // Before any bets — total is 0.
    assert_eq!(t.client.get_accumulated_fees(), 0);

    // After one bet — total equals per-market fee.
    t.client.place_bet(&user, &id, &true, &100_0000000_i128);
    assert_eq!(t.client.get_market_fees(&id), 1_5000000);
    assert_eq!(t.client.get_accumulated_fees(), 1_5000000);

    // After resolution — single winner gets the full pool, so dust = 0.
    advance_time(&t.env, 3601);
    t.client.resolve_market(&t.admin, &id, &true);
    // Only the platform fee remains; dust is 0 because the single YES bettor
    // wins the entire pool (payout == total_pool).
    assert_eq!(t.client.get_accumulated_fees(), 1_5000000);

    // After claim — fees remain in per-market ledger (claims don't touch fees).
    t.client.claim(&user, &id);
    assert_eq!(t.client.get_accumulated_fees(), 1_5000000);

    // After cancel — full per-market ledger reclaimed.
    let id2 = create_test_market(&t);
    let user2 = t.env.generate();
    fund_user(&t, &user2, 200_0000000);
    t.client.place_bet(&user2, &id2, &true, &100_0000000_i128);
    let total_before_cancel = t.client.get_accumulated_fees();
    let market2_fees = t.client.get_market_fees(&id2);
    t.client.cancel_market(&t.admin, &id2);
    assert_eq!(
        t.client.get_accumulated_fees(),
        total_before_cancel - market2_fees
    );
}

#[test]
fn test_cancel_one_market_does_not_affect_other_fees() {
    let t = setup();
    let id1 = create_test_market(&t);
    let id2 = t.client.create_market(
        &t.admin,
        &String::from("Market 2"),
        &String::from("https://m2.png"),
        &Category::Other,
        &3600_u64,
    );

    let alice = t.env.generate();
    let bob = t.env.generate();
    fund_user(&t, &alice, 200_0000000);
    fund_user(&t, &bob, 200_0000000);

    t.client.place_bet(&alice, &id1, &true, &100_0000000_i128); // 1.5 XLM fees
    t.client.place_bet(&bob, &id2, &true, &100_0000000_i128); // 1.5 XLM fees
    assert_eq!(t.client.get_accumulated_fees(), 3_0000000);

    // Cancel market 1 — only market 1's ledger is zeroed.
    t.client.cancel_market(&t.admin, &id1);

    // Market 2's fees remain untouched.
    assert_eq!(t.client.get_market_fees(&id2), 1_5000000);

    assert_eq!(t.client.get_accumulated_fees(), 1_5000000);

    // Market 1's ledger is zero.
    assert_eq!(t.client.get_market_fees(&id1), 0);
}

#[test]
fn test_issue169_dust_is_swept_not_stranded() {
    let t = setup();
    let id = create_test_market(&t);

    let w1 = t.env.generate();
    let w2 = t.env.generate();
    let w3 = t.env.generate();
    fund_user(&t, &w1, 10_000_000_000);
    fund_user(&t, &w2, 10_000_000_000);
    fund_user(&t, &w3, 10_000_000_000);

    let l1 = t.env.generate();
    fund_user(&t, &l1, 10_000_000_000);

    // Uneven stakes that cannot divide the pool evenly (a loser on NO makes
    // pool > win, so the floor division leaves a non-zero remainder).
    t.client.place_bet(&w1, &id, &true, &17_777_779_i128);
    t.client.place_bet(&w2, &id, &true, &29_999_993_i128);
    t.client.place_bet(&w3, &id, &true, &41_111_107_i128);
    t.client.place_bet(&l1, &id, &false, &13_333_331_i128);

    advance_time(&t.env, 3601);
    let fees_before = t.client.get_accumulated_fees();
    t.client.resolve_market(&t.admin, &id, &true);

    let market = t.client.get_market(&id);
    let pool: i128 = market.total_yes + market.total_no;
    let win: i128 = market.total_yes;
    assert!(pool > win);

    let n1 = t.client.get_bet(&id, &w1).amount;
    let n2 = t.client.get_bet(&id, &w2).amount;
    let n3 = t.client.get_bet(&id, &w3).amount;

    let p1 = (n1 * pool) / win;
    let p2 = (n2 * pool) / win;
    let p3 = (n3 * pool) / win;
    let dust = pool - p1 - p2 - p3;
    assert!(
        dust > 0,
        "test needs a non-zero remainder to prove the sweep"
    );

    // Dust is deterministic, bounded, and credited to the fee accumulator at
    // settlement — never stranded in the contract balance.
    assert_eq!(t.client.get_payout(&id, &w1), p1);
    assert_eq!(t.client.get_payout(&id, &w2), p2);
    assert_eq!(t.client.get_payout(&id, &w3), p3);
    assert_eq!(t.client.get_accumulated_fees(), fees_before + dust);

    // After every claim, the contract balance equals exactly the earned fees
    // (payouts paid out + dust swept) — the balance invariant holds.
    let contract = t.client.address.clone();
    let bal_after_resolve = t.xlm.balance(&contract);
    assert_eq!(bal_after_resolve, p1 + p2 + p3 + fees_before + dust);
    t.client.claim(&w1, &id);
    t.client.claim(&w2, &id);
    t.client.claim(&w3, &id);
    assert_eq!(t.xlm.balance(&contract), fees_before + dust);
}

#[test]
fn test_inv_accumulator_equals_ledger_sum() {
    let t = setup();
    let id1 = create_test_market(&t);
    let id2 = t.client.create_market(
        &t.admin,
        &String::from("Market 2"),
        &String::from("https://m2.png"),
        &Category::Other,
        &3600_u64,
    );

    let alice = t.env.generate();
    let bob = t.env.generate();
    fund_user(&t, &alice, 500_0000000);
    fund_user(&t, &bob, 500_0000000);

    // Accumulate fees across multiple markets
    t.client.place_bet(&alice, &id1, &true, &100_0000000_i128);
    t.client.place_bet(&bob, &id2, &false, &200_0000000_i128);
    t.client.place_bet(&alice, &id2, &true, &50_0000000_i128);

    let acc = t.client.get_accumulated_fees();
    let m1 = t.client.get_market_fees(&id1);
    let m2 = t.client.get_market_fees(&id2);
    let legacy = t.client.get_legacy_fees();

    assert_eq!(acc, m1 + m2 + legacy, "accumulator must equal ledger sum");

    // Settle markets so their fees are earned and withdrawable
    advance_time(&t.env, 3601);
    t.client.resolve_market(&t.admin, &id1, &true);
    t.client.resolve_market(&t.admin, &id2, &true);

    // After a withdrawal, invariant must still hold
    let treasury = t.env.generate();
    t.client.add_fee_recipient(&t.admin, &treasury);
    t.client.withdraw_fees(&t.admin, &treasury);

    let acc2 = t.client.get_accumulated_fees();
    let m1_after = t.client.get_market_fees(&id1);
    let m2_after = t.client.get_market_fees(&id2);
    assert_eq!(
        acc2,
        m1_after + m2_after + legacy,
        "accumulator must equal ledger sum after withdrawal"
    );
}

/// cancel_market reclaims exactly the market's earned fees.
/// After cancel, AccumulatedFees decreases by the market's fee balance,
/// and no subsequent withdraw_fees can reclaim those fees.
#[test]
fn test_inv_cancel_reclaims_exact_market_fees() {
    let t = setup();
    let id1 = create_test_market(&t);
    let id2 = t.client.create_market(
        &t.admin,
        &String::from("Market 2"),
        &String::from("https://m2.png"),
        &Category::Other,
        &3600_u64,
    );

    let alice = t.env.generate();
    let bob = t.env.generate();
    fund_user(&t, &alice, 500_0000000);
    fund_user(&t, &bob, 500_0000000);

    t.client.place_bet(&alice, &id1, &true, &100_0000000_i128);
    t.client.place_bet(&bob, &id2, &true, &200_0000000_i128);

    let fees_before = t.client.get_accumulated_fees();
    let id1_fees_before = t.client.get_market_fees(&id1);

    // Cancel market 1 — its fees leave the accumulator
    t.client.cancel_market(&t.admin, &id1);

    let fees_after = t.client.get_accumulated_fees();
    assert_eq!(
        fees_before - fees_after,
        id1_fees_before,
        "cancel must reclaim exactly the market's fee balance"
    );

    // Market 2's fees remain untouched
    assert_eq!(t.client.get_market_fees(&id2), 3_0000000);

    // Settle market 2 so its fees are earned and withdrawable
    advance_time(&t.env, 3601);
    t.client.resolve_market(&t.admin, &id2, &true);

    // Withdraw all remaining fees — should equal market 2's fees only
    let treasury = t.env.generate();
    t.client.add_fee_recipient(&t.admin, &treasury);
    let withdrawn = withdraw_all_admin_fees(&t, &treasury);
    assert_eq!(
        withdrawn, fees_after,
        "withdrawable fees must equal post-cancel accumulator"
    );
}

/// withdraw_fees cap (MAX_WITHDRAWAL_BPS) prevents draining
/// the accumulator in a single call, even after cancel reclaims.
#[test]
fn test_inv_withdraw_cap_after_cancel() {
    let t = setup();
    let id = create_test_market(&t);
    let user = t.env.generate();
    fund_user(&t, &user, 1000_0000000);

    // Build up fees
    t.client.place_bet(&user, &id, &true, &100_0000000_i128);
    t.client.place_bet(&user, &id, &true, &100_0000000_i128);
    t.client.place_bet(&user, &id, &true, &100_0000000_i128);

    let fees = t.client.get_accumulated_fees();
    let cap = fees * MAX_WITHDRAWAL_BPS / BPS_DENOM;

    // Settle market so fees are earned and withdrawable
    advance_time(&t.env, 3601);
    t.client.resolve_market(&t.admin, &id, &true);

    // Single withdraw cannot exceed cap
    let treasury = t.env.generate();
    t.client.add_fee_recipient(&t.admin, &treasury);
    let withdrawn = t.client.withdraw_fees(&t.admin, &treasury);
    assert_eq!(withdrawn, cap, "single withdraw must be capped");
    assert!(withdrawn < fees, "cap must be less than total fees");

    // Remaining fees are still withdrawable (just not in one call)
    let remaining = t.client.get_accumulated_fees();
    assert_eq!(remaining, fees - cap);
}

/// Total PULSE minted equals sum of all reward() token amounts.
/// The leaderboard mints tokens on claim; total supply must track exactly.
#[test]
fn test_inv_pulse_supply_tracks_rewards() {
    let t = setup();
    let id = create_test_market(&t);
    let alice = t.env.generate();
    let bob = t.env.generate();
    fund_user(&t, &alice, 500_0000000);
    fund_user(&t, &bob, 500_0000000);

    t.client.place_bet(&alice, &id, &true, &100_0000000_i128);
    t.client.place_bet(&bob, &id, &false, &100_0000000_i128);

    advance_time(&t.env, 3601);
    t.client.resolve_market(&t.admin, &id, &true);

    // Claim triggers minting
    t.client.claim(&alice, &id);
    t.client.claim(&bob, &id);

    let expected_supply = WIN_TOKENS;
    assert_eq!(t.token_client.total_supply(), expected_supply);
}

/// Market TTL must outlive the market duration + dispute window.
/// A market running its full duration must still have live entries for claims.
#[test]
fn test_inv_market_ttl_outlives_duration() {
    let t = setup();
    let id = create_test_market(&t);

    let market_ttl = t.env.ttl(t.market_id, &MarketKey::Market(id));
    assert!(
        market_ttl >= TTL_BUMP,
        "market TTL must be at least TTL_BUMP"
    );

    // After the dispute window the market entry must still be live.
    advance_time(&t.env, DISPUTE_WINDOW_SECS);
    let ttl_after_dispute = t.env.ttl(t.market_id, &MarketKey::Market(id));
    assert!(
        ttl_after_dispute > 0,
        "market entry must survive past dispute window"
    );
}

/// Fee conservation across cancel + withdraw.
/// Total fees collected = fees withdrawn + fees reclaimed by cancels + remaining accumulator.
#[test]
fn test_inv_fee_conservation() {
    let t = setup();
    let id1 = create_test_market(&t);
    let id2 = t.client.create_market(
        &t.admin,
        &String::from("Market 2"),
        &String::from("https://m2.png"),
        &Category::Other,
        &3600_u64,
    );

    let alice = t.env.generate();
    let bob = t.env.generate();
    fund_user(&t, &alice, 500_0000000);
    fund_user(&t, &bob, 500_0000000);

    // Total fees collected from bets
    t.client.place_bet(&alice, &id1, &true, &100_0000000_i128);
    t.client.place_bet(&bob, &id1, &false, &100_0000000_i128);
    t.client.place_bet(&alice, &id2, &true, &200_0000000_i128);

    let total_fees_collected = 1_5000000_i128 + 1_5000000 + 3_0000000; // 6M
    assert_eq!(t.client.get_accumulated_fees(), total_fees_collected);

    // Cancel market 1 — fees reclaimed
    let id1_fees = t.client.get_market_fees(&id1);
    t.client.cancel_market(&t.admin, &id1);
    let reclaimed = id1_fees;

    // Settle market 2 so its fees are earned and withdrawable
    advance_time(&t.env, 3601);
    t.client.resolve_market(&t.admin, &id2, &true);

    // Withdraw remaining from market 2
    let treasury = t.env.generate();
    t.client.add_fee_recipient(&t.admin, &treasury);
    let withdrawn = withdraw_all_admin_fees(&t, &treasury);

    // Conservation: total = withdrawn + reclaimed + remaining(0)
    assert_eq!(total_fees_collected, withdrawn + reclaimed);
    assert_eq!(t.client.get_accumulated_fees(), 0);
}

#[test]
fn test_inv_leaderboard_points_conservation() {
    let t = setup();
    let id = create_test_market(&t);
    let alice = t.env.generate();
    let bob = t.env.generate();
    fund_user(&t, &alice, 500_0000000);
    fund_user(&t, &bob, 500_0000000);

    t.client.place_bet(&alice, &id, &true, &100_0000000_i128);
    t.client.place_bet(&bob, &id, &false, &100_0000000_i128);

    advance_time(&t.env, 3601);
    t.client.resolve_market(&t.admin, &id, &true);

    t.client.claim(&alice, &id);
    t.client.claim(&bob, &id);

    // Alice wins: WIN_POINTS (30)
    // Bob loses: penalized LOSE_POINTS (10), saturating at 0 since he had
    // no prior points to lose.
    assert_eq!(t.leaderboard_client.get_points(&alice), 30);
    assert_eq!(t.leaderboard_client.get_points(&bob), 0);
}

/// MAX_WITHDRAWAL_BPS cap is consistent with TOTAL_FEE_BPS.
/// The withdrawal cap (20%) must be >= the fee rate (2%) so fees can
/// actually be withdrawn as they accumulate.
#[test]
fn test_inv_withdraw_cap_exceeds_fee_rate() {
    // Compile-time invariant: MAX_WITHDRAWAL_BPS (2000) > TOTAL_FEE_BPS (200)
    // This ensures the cap doesn't prevent normal fee withdrawal.
    assert!(
        MAX_WITHDRAWAL_BPS > TOTAL_FEE_BPS,
        "withdrawal cap must exceed fee rate"
    );

    // The cap should allow at least one full market's fees to be withdrawn
    // in a reasonable number of calls (not require 1000s of transactions).
    let calls_to_withdraw_all = BPS_DENOM / MAX_WITHDRAWAL_BPS; // 5 calls
    assert!(calls_to_withdraw_all <= 10, "should drain in <= 10 calls");
}

/// DISPUTE_WINDOW_SECS < TTL_BUMP ensures entries survive
/// the dispute window for zero-side resolution.
#[test]
fn test_inv_dispute_window_fits_in_ttl() {
    // The 7-day dispute window must fit within the ~1 year TTL bump
    assert!(
        DISPUTE_WINDOW_SECS < TTL_BUMP as u64,
        "dispute window must fit within TTL"
    );

    // After dispute window, entries must still be claimable
    let t = setup();
    let id = create_test_market(&t);
    let user = t.env.generate();
    fund_user(&t, &user, 200_0000000);
    t.client.place_bet(&user, &id, &true, &100_0000000_i128);

    advance_time(&t.env, 3601); // expire market
    t.client.resolve_market(&t.admin, &id, &false);

    // During dispute window, claim is blocked
    assert!(t.client.try_claim(&user, &id).is_err());

    advance_time(&t.env, DISPUTE_WINDOW_SECS + 1);
    // After dispute window, claim succeeds
    t.client.claim(&user, &id);
}

/// Multi-market fee isolation — cancel of one market
/// cannot make another market's fees unrecoverable.
#[test]
fn test_inv_multi_market_fee_isolation() {
    let t = setup();
    let id1 = create_test_market(&t);
    let id2 = t.client.create_market(
        &t.admin,
        &String::from("Market 2"),
        &String::from("https://m2.png"),
        &Category::Other,
        &3600_u64,
    );
    let id3 = t.client.create_market(
        &t.admin,
        &String::from("Market 3"),
        &String::from("https://m3.png"),
        &Category::Other,
        &3600_u64,
    );

    let alice = t.env.generate();
    fund_user(&t, &alice, 1000_0000000);

    t.client.place_bet(&alice, &id1, &true, &100_0000000_i128);
    t.client.place_bet(&alice, &id2, &true, &100_0000000_i128);
    t.client.place_bet(&alice, &id3, &true, &100_0000000_i128);

    let id2_fees_before = t.client.get_market_fees(&id2);
    let id3_fees_before = t.client.get_market_fees(&id3);

    // Cancel market 1
    t.client.cancel_market(&t.admin, &id1);

    // Markets 2 and 3 fees are untouched
    assert_eq!(t.client.get_market_fees(&id2), id2_fees_before);
    assert_eq!(t.client.get_market_fees(&id3), id3_fees_before);

    // Settle markets 2 and 3 so their fees are earned and withdrawable
    advance_time(&t.env, 3601);
    t.client.resolve_market(&t.admin, &id2, &true);
    t.client.resolve_market(&t.admin, &id3, &true);

    // Withdraw all — should equal id2 + id3 fees
    let treasury = t.env.generate();
    t.client.add_fee_recipient(&t.admin, &treasury);
    let withdrawn = withdraw_all_admin_fees(&t, &treasury);
    assert_eq!(withdrawn, id2_fees_before + id3_fees_before);
}

/// TTL vs market duration — a market running its full duration
/// must still have live entries for the dispute window + claim.
/// TTL_BUMP must exceed DISPUTE_WINDOW_SECS for the full lifecycle.
#[test]
fn test_inv_ttl_outlives_duration_plus_dispute() {
    assert!(
        TTL_BUMP as u64 > DISPUTE_WINDOW_SECS,
        "TTL_BUMP must exceed DISPUTE_WINDOW"
    );

    let t = setup();
    let id = create_test_market(&t);

    let market_ttl = t.env.ttl(t.market_id, &MarketKey::Market(id));
    assert!(
        market_ttl >= TTL_BUMP,
        "market TTL must be at least TTL_BUMP"
    );

    // After the dispute window the entry must still be live.
    advance_time(&t.env, DISPUTE_WINDOW_SECS);
    let ttl_after_dispute = t.env.ttl(t.market_id, &MarketKey::Market(id));
    assert!(
        ttl_after_dispute > 0,
        "market entry must survive past dispute window"
    );
}

/// Order-of-operations between cancel_market reclaim and
/// withdraw_fees cap. If cancel and withdraw interleave, the accumulator
/// must never go negative or allow over-withdrawal.
#[test]
fn test_inv_cancel_then_withdraw_no_overdrain() {
    let t = setup();
    let id1 = create_test_market(&t);
    let id2 = t.client.create_market(
        &t.admin,
        &String::from("Market 2"),
        &String::from("https://m2.png"),
        &Category::Other,
        &3600_u64,
    );

    let alice = t.env.generate();
    let bob = t.env.generate();
    fund_user(&t, &alice, 1000_0000000);
    fund_user(&t, &bob, 1000_0000000);

    // Build fees in both markets
    t.client.place_bet(&alice, &id1, &true, &100_0000000_i128);
    t.client.place_bet(&bob, &id1, &false, &100_0000000_i128);
    t.client.place_bet(&alice, &id2, &true, &200_0000000_i128);

    let total_fees = t.client.get_accumulated_fees();

    // Settle market 2 so its fees are earned
    advance_time(&t.env, 3601);
    t.client.resolve_market(&t.admin, &id2, &true);

    // Withdraw some fees first (capped)
    let treasury = t.env.generate();
    t.client.add_fee_recipient(&t.admin, &treasury);
    let withdrawn_1 = t.client.withdraw_fees(&t.admin, &treasury);
    let fees_after_withdraw = t.client.get_accumulated_fees();
    assert!(withdrawn_1 <= total_fees);
    assert_eq!(fees_after_withdraw, total_fees - withdrawn_1);

    let id1_fees = t.client.get_market_fees(&id1);
    t.client.cancel_market(&t.admin, &id1);
    let fees_after_cancel = t.client.get_accumulated_fees();
    assert_eq!(fees_after_cancel, fees_after_withdraw - id1_fees);

    // Withdraw remaining — should equal market 2's fees only
    let withdrawn_2 = withdraw_all_admin_fees(&t, &treasury);
    assert_eq!(withdrawn_2, fees_after_cancel);
    assert_eq!(t.client.get_accumulated_fees(), 0);

    // Total withdrawn + reclaimed = total fees
    assert_eq!(withdrawn_1 + withdrawn_2 + id1_fees, total_fees);
}

/// Withdraw cap prevents draining even after multiple cancels.
/// Multiple cancel reclaims cannot create a race where withdraw exceeds 100%.
#[test]
fn test_inv_multiple_cancels_then_withdraw() {
    let t = setup();
    let id1 = create_test_market(&t);
    let id2 = t.client.create_market(
        &t.admin,
        &String::from("Market 2"),
        &String::from("https://m2.png"),
        &Category::Other,
        &3600_u64,
    );
    let id3 = t.client.create_market(
        &t.admin,
        &String::from("Market 3"),
        &String::from("https://m3.png"),
        &Category::Other,
        &3600_u64,
    );

    let alice = t.env.generate();
    fund_user(&t, &alice, 1000_0000000);

    t.client.place_bet(&alice, &id1, &true, &100_0000000_i128);
    t.client.place_bet(&alice, &id2, &true, &100_0000000_i128);
    t.client.place_bet(&alice, &id3, &true, &100_0000000_i128);

    let total_fees = t.client.get_accumulated_fees();

    // Cancel markets 1 and 2
    t.client.cancel_market(&t.admin, &id1);
    t.client.cancel_market(&t.admin, &id2);

    // Settle market 3 so its fees are earned and withdrawable
    advance_time(&t.env, 3601);
    t.client.resolve_market(&t.admin, &id3, &true);

    // Only market 3's fees remain
    let remaining = t.client.get_accumulated_fees();
    assert_eq!(remaining, t.client.get_market_fees(&id3));

    // Withdraw all remaining — cannot exceed what's left
    let treasury = t.env.generate();
    t.client.add_fee_recipient(&t.admin, &treasury);
    let withdrawn = withdraw_all_admin_fees(&t, &treasury);
    assert_eq!(withdrawn, remaining);
    assert!(withdrawn < total_fees);
}

/// Fee BPS constants preserve accumulator consistency.
/// TOTAL_FEE_BPS = PLATFORM_FEE_BPS + REFERRAL_FEE_BPS must hold.
#[test]
fn test_inv_fee_split_conservation() {
    // Compile-time invariant: fee split must sum correctly
    let referral_fee_bps = TOTAL_FEE_BPS - PLATFORM_FEE_BPS;
    assert_eq!(referral_fee_bps, 50); // 0.5% referral fee

    let t = setup();
    let id = create_test_market(&t);
    let user = t.env.generate();
    fund_user(&t, &user, 500_0000000);

    let bet_amount = 100_0000000_i128;
    let total_fee = bet_amount * TOTAL_FEE_BPS / BPS_DENOM;
    let platform_fee = bet_amount * PLATFORM_FEE_BPS / BPS_DENOM;
    let referral_fee = total_fee - platform_fee;

    t.client.place_bet(&user, &id, &true, &bet_amount);

    // Platform fee goes to market ledger
    assert_eq!(t.client.get_market_fees(&id), platform_fee);
    // Accumulator tracks platform fee only (referral fee sent to contract)
    assert_eq!(t.client.get_accumulated_fees(), platform_fee);
    // Referral fee amount is correct
    assert_eq!(referral_fee, bet_amount * 50 / BPS_DENOM);
}

#[test]
fn test_inv_reward_minting_bounded() {
    let t = setup();
    let id = create_test_market(&t);
    let alice = t.env.generate();
    let bob = t.env.generate();
    fund_user(&t, &alice, 500_0000000);
    fund_user(&t, &bob, 500_0000000);

    t.client.place_bet(&alice, &id, &true, &100_0000000_i128);
    t.client.place_bet(&bob, &id, &false, &100_0000000_i128);

    advance_time(&t.env, 3601);
    t.client.resolve_market(&t.admin, &id, &true);

    t.client.claim(&alice, &id);
    t.client.claim(&bob, &id);

    // Total supply = winner tokens only (bounded by constants)
    let expected_supply = WIN_TOKENS;
    assert_eq!(t.token_client.total_supply(), expected_supply);

    // Per-user minting matches constants exactly
    assert_eq!(t.token_client.balance(&alice), WIN_TOKENS);
    assert_eq!(t.token_client.balance(&bob), 0);
}

/// Referral depth vs fee caps — deep referral chains cannot
/// wipe the accumulator on cancel. The referral fee is sent per-bet, not
/// reclaimed on cancel, so deep chains don't affect the accumulator.
#[test]
fn test_inv_referral_depth_does_not_affect_accumulator() {
    let t = setup();

    // Create a referral chain: referrer1 <- referrer2 <- referrer3 <- user
    let referrer1 = t.env.generate();
    let referrer2 = t.env.generate();
    let referrer3 = t.env.generate();
    let user = t.env.generate();

    let no_ref: Option<Address> = None;
    t.referral_client
        .register_referral(&referrer1, &String::from("R1"), &no_ref);
    t.referral_client.register_referral(
        &referrer2,
        &String::from("R2"),
        &Some(referrer1.clone()),
    );
    t.referral_client.register_referral(
        &referrer3,
        &String::from("R3"),
        &Some(referrer2.clone()),
    );
    t.referral_client.register_referral(
        &user,
        &String::from("User"),
        &Some(referrer3.clone()),
    );

    let id = create_test_market(&t);
    fund_user(&t, &user, 500_0000000);

    // User bets — referral fee goes to referrer3
    t.client.place_bet(&user, &id, &true, &100_0000000_i128);

    // Accumulator only tracks platform fee (referral fee sent to contract)
    let platform_fee = 100_0000000_i128 * PLATFORM_FEE_BPS / BPS_DENOM;
    assert_eq!(t.client.get_accumulated_fees(), platform_fee);

    // Cancel market — only platform fee is reclaimed
    t.client.cancel_market(&t.admin, &id);
    assert_eq!(t.client.get_accumulated_fees(), 0);

    // Referrer3 received the referral fee (not affected by cancel)
    assert_eq!(t.xlm.balance(&referrer3), 5000000);
}

/// MAX_WITHDRAWAL_BPS cap is consistent with market count.
/// Even with many markets, the cap prevents draining in a single call.
#[test]
fn test_inv_withdraw_cap_scales_with_market_count() {
    let t = setup();

    let mut ids: Vec<u64> = Vec::new();
    let market_names = ["Market 0", "Market 1", "Market 2", "Market 3", "Market 4"];
    for i in 0..5 {
        let id = t.client.create_market(
            &t.admin,
            &String::from(market_names[i]),
            &String::from("https://m.png"),
            &Category::Other,
            &3600_u64,
        );
        ids.push(id);
    }

    let alice = t.env.generate();
    fund_user(&t, &alice, 1000_0000000);

    for id in ids.iter() {
        t.client.place_bet(&alice, id, &true, &100_0000000_i128);
    }

    let total_fees = t.client.get_accumulated_fees();
    let cap = total_fees * MAX_WITHDRAWAL_BPS / BPS_DENOM;

    // Settle markets so fees are earned and withdrawable
    advance_time(&t.env, 3601);
    for id in ids.iter() {
        t.client.resolve_market(&t.admin, id, &true);
    }

    let treasury = t.env.generate();
    t.client.add_fee_recipient(&t.admin, &treasury);
    let withdrawn = t.client.withdraw_fees(&t.admin, &treasury);

    // Single withdraw cannot exceed cap
    assert_eq!(withdrawn, cap);
    assert!(withdrawn < total_fees);
}

#[test]
fn test_claim_mints_once_and_the_leaderboard_tally_matches_supply() {
    let t = setup();
    let id = create_test_market(&t);
    let alice = t.env.generate();
    let bob = t.env.generate();
    fund_user(&t, &alice, 200_0000000);
    fund_user(&t, &bob, 200_0000000);

    t.client.place_bet(&alice, &id, &true, &100_0000000_i128);
    t.client.place_bet(&bob, &id, &false, &100_0000000_i128);

    advance_time(&t.env, 3601);
    t.client.resolve_market(&t.admin, &id, &true);

    assert_eq!(t.token_client.total_supply(), 0);

    t.client.claim(&alice, &id);
    t.client.claim(&bob, &id);

    assert_eq!(t.token_client.balance(&alice), WIN_TOKENS);
    assert_eq!(t.token_client.balance(&bob), 0);
    assert_eq!(t.token_client.total_supply(), WIN_TOKENS);

    // Points moved in step: a win credits WIN_POINTS; a loss costs
    // LOSE_POINTS via penalize(), saturating at 0 since bob had no points
    // before this (never negative).
    assert_eq!(t.leaderboard_client.get_points(&alice), WIN_POINTS);
    assert_eq!(t.leaderboard_client.get_points(&bob), 0);

    // And the leaderboard's tally accounts for exactly what it minted.
    assert_eq!(t.leaderboard_client.get_minted(&alice), WIN_TOKENS);
    assert_eq!(t.leaderboard_client.get_minted(&bob), 0);
    assert_eq!(
        t.leaderboard_client.get_minted(&alice) + t.leaderboard_client.get_minted(&bob),
        t.token_client.total_supply()
    );
}

#[test]
fn test_market_recording_a_bet_through_add_pts_moves_no_supply() {
    let t = setup();
    let user = t.env.generate();

    t.leaderboard_client
        .add_pts(&t.client.address, &user, &WIN_POINTS, &true);

    assert_eq!(t.leaderboard_client.get_points(&user), WIN_POINTS);
    assert_eq!(t.leaderboard_client.get_minted(&user), 0);
    assert_eq!(t.token_client.total_supply(), 0);
}

#[test]
fn test_inv_cross_accumulator_consistency() {
    let t = setup();
    let market_id = create_test_market(&t);

    let alice = t.env.generate();
    let bob = t.env.generate();
    t.xlm_admin.mint(&alice, &500_0000000);
    t.xlm_admin.mint(&bob, &500_0000000);

    t.client
        .place_bet(&alice, &market_id, &true, &100_0000000_i128);
    t.client
        .place_bet(&bob, &market_id, &false, &100_0000000_i128);

    let acc_before = t.client.get_accumulated_fees();
    let market_fees = t.client.get_market_fees(&market_id);
    let legacy = t.client.get_legacy_fees();

    assert_eq!(acc_before, market_fees + legacy);

    t.client.cancel_market(&t.admin, &market_id);

    assert_eq!(t.client.get_accumulated_fees(), 0);
    assert_eq!(t.client.get_market_fees(&market_id), 0);
}

/// Referral fee payment across contracts
/// Tests that referral fees are correctly paid to referrer through
/// the referral registry when a bet is placed
#[test]
fn test_inv_cross_referral_fee_payment() {
    let t = setup();
    let market_id = create_test_market(&t);

    let referrer = t.env.generate();
    let user = t.env.generate();
    t.xlm_admin.mint(&user, &500_0000000);

    t.referral_client.register_referral(
        &referrer,
        &String::from("Referrer"),
        &Option::<Address>::None,
    );
    t.referral_client.register_referral(
        &user,
        &String::from("User"),
        &Some(referrer.clone()),
    );

    let referrer_balance_before = t.xlm.balance(&referrer);

    t.client
        .place_bet(&user, &market_id, &true, &100_0000000_i128);

    assert_eq!(t.xlm.balance(&referrer), referrer_balance_before + 5000000);
}

#[test]
fn test_inv_cross_late_referrer_registration() {
    let t = setup();
    let market_id = create_test_market(&t);

    let referrer = t.env.generate();
    let user = t.env.generate();
    t.xlm_admin.mint(&user, &1000_0000000);

    t.referral_client.register_referral(
        &user,
        &String::from("User"),
        &Option::<Address>::None,
    );

    let user_balance_before = t.xlm.balance(&user);
    t.client
        .place_bet(&user, &market_id, &true, &100_0000000_i128);
    assert_eq!(
        t.xlm.balance(&user),
        user_balance_before - 100_0000000 + 5000000
    );

    t.referral_client.register_referral(
        &referrer,
        &String::from("Referrer"),
        &Option::<Address>::None,
    );

    t.referral_client.register_referral(
        &user,
        &String::from("User"),
        &Some(referrer.clone()),
    );

    let referrer_balance_before = t.xlm.balance(&referrer);
    t.client
        .place_bet(&user, &market_id, &true, &100_0000000_i128);
    assert_eq!(t.xlm.balance(&referrer), referrer_balance_before + 5000000);
}

#[test]
fn test_inv_cross_pulse_minting_bounded() {
    let t = setup();
    let market_id = create_test_market(&t);

    let alice = t.env.generate();
    let bob = t.env.generate();
    t.xlm_admin.mint(&alice, &500_0000000);
    t.xlm_admin.mint(&bob, &500_0000000);

    t.client
        .place_bet(&alice, &market_id, &true, &100_0000000_i128);
    t.client
        .place_bet(&bob, &market_id, &false, &100_0000000_i128);

    advance_time(&t.env, 3601);
    t.client.resolve_market(&t.admin, &market_id, &true);

    t.client.claim(&alice, &market_id);
    t.client.claim(&bob, &market_id);

    assert_eq!(t.token_client.total_supply(), 10_0000000);
    assert_eq!(t.token_client.balance(&alice), 10_0000000);
    assert_eq!(t.token_client.balance(&bob), 0);
}

/// Leaderboard points conservation
/// Tests that points are correctly credited through the leaderboard contract
/// when a market is resolved and claims are processed
#[test]
fn test_inv_cross_leaderboard_points() {
    let t = setup();
    let market_id = create_test_market(&t);

    let alice = t.env.generate();
    let bob = t.env.generate();
    t.xlm_admin.mint(&alice, &500_0000000);
    t.xlm_admin.mint(&bob, &500_0000000);

    t.client
        .place_bet(&alice, &market_id, &true, &100_0000000_i128);
    t.client
        .place_bet(&bob, &market_id, &false, &100_0000000_i128);

    advance_time(&t.env, 3601);
    t.client.resolve_market(&t.admin, &market_id, &true);

    t.client.claim(&alice, &market_id);
    t.client.claim(&bob, &market_id);

    assert_eq!(t.leaderboard_client.get_points(&alice), 30);
    assert_eq!(t.leaderboard_client.get_points(&bob), 0);
}

/// Withdraw cap prevents draining
/// Tests that a single withdraw_fees call cannot drain the entire accumulator
/// even after multiple markets have accumulated fees
#[test]
fn test_inv_cross_withdraw_cap() {
    let t = setup();
    let market_id = create_test_market(&t);

    let alice = t.env.generate();
    t.xlm_admin.mint(&alice, &500_0000000);

    t.client
        .place_bet(&alice, &market_id, &true, &100_0000000_i128);
    t.client
        .place_bet(&alice, &market_id, &true, &100_0000000_i128);
    t.client
        .place_bet(&alice, &market_id, &true, &100_0000000_i128);

    let total_fees = t.client.get_accumulated_fees();

    // Settle market so fees are earned and withdrawable
    advance_time(&t.env, 3601);
    t.client.resolve_market(&t.admin, &market_id, &true);

    let treasury = t.env.generate();
    t.client.add_fee_recipient(&t.admin, &treasury);

    let withdrawn = t.client.withdraw_fees(&t.admin, &treasury);
    assert!(withdrawn < total_fees);
    assert_eq!(t.client.get_accumulated_fees(), total_fees - withdrawn);
}

/// Multi-market fee isolation
/// Tests that canceling one market does not affect fees in other markets
#[test]
fn test_inv_cross_multi_market_isolation() {
    let t = setup();
    let market_id1 = create_test_market(&t);
    let market_id2 = create_test_market(&t);

    let alice = t.env.generate();
    t.xlm_admin.mint(&alice, &500_0000000);

    t.client
        .place_bet(&alice, &market_id1, &true, &100_0000000_i128);
    t.client
        .place_bet(&alice, &market_id2, &true, &100_0000000_i128);

    let market2_fees_before = t.client.get_market_fees(&market_id2);

    t.client.cancel_market(&t.admin, &market_id1);

    assert_eq!(t.client.get_market_fees(&market_id2), market2_fees_before);
    assert_eq!(t.client.get_market_fees(&market_id1), 0);
}

/// Dispute window fits within TTL
/// Tests that market entries survive the dispute window for claims
#[test]
fn test_inv_cross_dispute_window_ttl() {
    let t = setup();
    let market_id = create_test_market(&t);

    let alice = t.env.generate();
    t.xlm_admin.mint(&alice, &500_0000000);

    t.client
        .place_bet(&alice, &market_id, &true, &100_0000000_i128);

    advance_time(&t.env, 3601);
    t.client.resolve_market(&t.admin, &market_id, &false);

    assert!(t.client.try_claim(&alice, &market_id).is_err());

    advance_time(&t.env, 604_801);
    t.client.claim(&alice, &market_id);
}

/// Fee conservation across cancel + withdraw
/// Tests that total fees = withdrawn + reclaimed + remaining
#[test]
fn test_inv_cross_fee_conservation() {
    let t = setup();
    let market_id1 = create_test_market(&t);
    let market_id2 = create_test_market(&t);

    let alice = t.env.generate();
    t.xlm_admin.mint(&alice, &500_0000000);

    t.client
        .place_bet(&alice, &market_id1, &true, &100_0000000_i128);
    t.client
        .place_bet(&alice, &market_id2, &true, &100_0000000_i128);

    let total_fees = t.client.get_accumulated_fees();
    let market1_fees = t.client.get_market_fees(&market_id1);

    t.client.cancel_market(&t.admin, &market_id1);

    // Settle market 2 so fees are earned and withdrawable
    advance_time(&t.env, 3601);
    t.client.resolve_market(&t.admin, &market_id2, &true);

    let treasury = t.env.generate();
    t.client.add_fee_recipient(&t.admin, &treasury);

    let mut withdrawn = 0;
    while t.client.get_accumulated_fees() > 0 {
        withdrawn += t.client.withdraw_fees(&t.admin, &treasury);
    }

    assert_eq!(total_fees, withdrawn + market1_fees);
    assert_eq!(t.client.get_accumulated_fees(), 0);
}

/// Referral depth does not affect accumulator
/// Tests that deep referral chains do not wipe the accumulator on cancel
#[test]
fn test_inv_cross_referral_depth_isolation() {
    let t = setup();
    let market_id = create_test_market(&t);

    let referrer1 = t.env.generate();
    let referrer2 = t.env.generate();
    let referrer3 = t.env.generate();
    let user = t.env.generate();
    t.xlm_admin.mint(&user, &500_0000000);

    t.referral_client
        .register_referral(&referrer1, &String::from("R1"), &None);
    t.referral_client.register_referral(
        &referrer2,
        &String::from("R2"),
        &Some(referrer1),
    );
    t.referral_client.register_referral(
        &referrer3,
        &String::from("R3"),
        &Some(referrer2),
    );
    t.referral_client
        .register_referral(&user, &String::from("User"), &Some(referrer3));

    t.client
        .place_bet(&user, &market_id, &true, &100_0000000_i128);

    let platform_fee = 1_5000000_i128;
    assert_eq!(t.client.get_accumulated_fees(), platform_fee);

    t.client.cancel_market(&t.admin, &market_id);
    assert_eq!(t.client.get_accumulated_fees(), 0);
}

/// Emergency circuit-breaker halting all four contracts
/// Tests that pausing contracts halts state mutation across the entire system
/// while preserving recovery (cancel_refund) and read-only paths.
#[test]
fn test_inv_cross_emergency_pause_circuit_breaker() {
    let t = setup();
    let market_id = create_test_market(&t);

    let alice = t.env.generate();
    let bob = t.env.generate();
    t.xlm_admin.mint(&alice, &500_0000000);
    t.xlm_admin.mint(&bob, &500_0000000);

    // Initial setup before pause
    t.client
        .place_bet(&alice, &market_id, &true, &100_0000000_i128);

    // Trigger emergency circuit-breaker on all contracts
    t.client.set_paused(&t.admin, &true);
    t.token_client.set_paused(&t.admin, &true);
    t.referral_client.set_paused(&t.admin, &true);
    t.leaderboard_client.set_paused(&t.admin, &true);

    assert!(t.client.paused());
    assert!(t.token_client.paused());
    assert!(t.referral_client.paused());
    assert!(t.leaderboard_client.paused());

    // 1. Prediction market mutations blocked
    assert!(t.client
        .try_place_bet(&bob, &market_id, &false, &50_0000000_i128)
        .is_err());
    assert!(t.client
        .try_reduce_position(&alice, &market_id, &10_0000000_i128)
        .is_err());
    assert!(t.client
        .try_create_market(
            &t.admin,
            &String::from("New Market"),
            &String::from("https://x.png"),
            &Category::Crypto,
            &3600_u64
        )
        .is_err());

    // 2. Token mutations blocked
    assert!(t.token_client
        .try_transfer(&alice, &bob, &10_0000000_i128)
        .is_err());
    assert!(t.token_client
        .try_mint(&t.leaderboard_id, &bob, &10_0000000_i128)
        .is_err());

    // 3. Referral registrations and credits blocked
    assert!(t.referral_client
        .try_register_referral(&bob, &String::from("Bob"), &None)
        .is_err());
    assert!(t.referral_client
        .try_credit(&t.market_id, &alice, &10_0000000_i128)
        .is_err());

    // 4. Leaderboard mutations blocked
    assert!(t.leaderboard_client
        .try_reward(&t.market_id, &alice, &10_u64, &0_i128, &true)
        .is_err());
    assert!(t.leaderboard_client
        .try_add_pts(&t.market_id, &alice, &10_u64, &true)
        .is_err());

    // 5. Read-only views still function
    assert_eq!(t.token_client.balance(&alice), 0);
    assert_eq!(t.client.get_market_count(), 1);
    assert_eq!(t.leaderboard_client.get_points(&alice), 0);

    // Unpause system restores functionality
    t.client.set_paused(&t.admin, &false);
    t.token_client.set_paused(&t.admin, &false);
    t.referral_client.set_paused(&t.admin, &false);
    t.leaderboard_client.set_paused(&t.admin, &false);

    assert!(!t.client.paused());
    assert!(!t.token_client.paused());
    assert!(!t.referral_client.paused());
    assert!(!t.leaderboard_client.paused());

    // Operations succeed after unpause
    t.client
        .place_bet(&bob, &market_id, &false, &50_0000000_i128);
}

/// What the market holds and what it owes, in a mix of markets in every state.
#[test]
fn the_market_holds_what_it_owes() {
    let t = setup();
    let won = create_test_market(&t);
    let open = create_test_market(&t);
    let called_off = create_test_market(&t);
    let users: Vec<Address> = (0..4).map(|_| t.env.generate()).collect();
    for (i, user) in users.iter().enumerate() {
        fund_user(&t, user, 1_000_0000000);
        let odd = i as i128 * 1_234_567 + 13_333_331;
        t.client.place_bet(user, &won, &(i % 2 == 0), &odd);
        t.client.place_bet(user, &open, &(i % 2 == 1), &(odd + 17));
        t.client.place_bet(user, &called_off, &true, &(odd + 5));
    }
    let held = || t.xlm.balance(&t.market_id);
    let pool = |id: u64| t.client.get_market(&id).total_yes + t.client.get_market(&id).total_no;
    let fees = || t.client.get_accumulated_fees();
    assert_eq!(held(), pool(won) + pool(open) + pool(called_off) + fees());

    t.client.cancel_market(&t.admin, &called_off);
    let mut refunds: i128 = 0;
    for user in users.iter() {
        let before = held();
        let refund = t.client.cancel_refund(user, &called_off);
        assert_eq!(before - held(), refund);
        refunds += refund;
    }
    assert!(refunds > pool(called_off));
    assert_eq!(held(), pool(won) + pool(open) + fees());

    advance_time(&t.env, 3601);
    t.client.resolve_market(&t.admin, &won, &true);
    let owed: i128 = users.iter().map(|u| t.client.get_payout(&won, u)).sum();
    assert_eq!(held(), owed + pool(open) + fees());
    for user in users.iter() {
        t.client.claim(user, &won);
    }
    assert_eq!(held(), pool(open) + fees());

    let open_fees = t.client.get_market_fees(&open);
    while t.client.earned_fees() > 0 {
        t.client.withdraw_fees(&t.admin, &t.admin);
    }
    assert_eq!(fees(), open_fees);
    assert_eq!(held(), pool(open) + open_fees);
}

/// The parts of an odd amount come to the amount.
#[test]
fn a_bet_splits_to_the_unit() {
    let t = setup();
    let id = create_test_market(&t);
    let user = t.env.generate();
    fund_user(&t, &user, 100_0000000);
    t.client.place_bet(&user, &id, &true, &12_345_679_i128);
    assert_eq!(t.client.get_market(&id).total_yes, 12_098_765);
    assert_eq!(t.client.get_market_fees(&id), 185_185);
    // The rest went to the registry, which returned it.
    assert_eq!(t.xlm.balance(&user), 100_0000000 - 12_345_679 + 61_729);
    assert_eq!(t.xlm.balance(&t.market_id), 12_098_765 + 185_185);
}

/// Rounding leaves less than one unit for each winner, and it joins the fees.
#[test]
fn rounding_leaves_less_than_a_unit_for_each_winner() {
    let t = setup();
    let id = create_test_market(&t);
    let stakes: [i128; 4] = [10_204_083, 11_111_113, 12_345_677, 20_000_003];
    let mut winners: Vec<Address> = Vec::new();
    for (i, stake) in stakes.iter().enumerate() {
        let user = t.env.generate();
        fund_user(&t, &user, 100_0000000);
        t.client.place_bet(&user, &id, &(i < 3), stake);
        if i < 3 {
            winners.push(user);
        }
    }
    let m = t.client.get_market(&id);
    let pool = m.total_yes + m.total_no;
    let fees = t.client.get_market_fees(&id);
    let nets: Vec<i128> = winners.iter().map(|u| t.client.get_bet(&id, u).amount).collect();
    advance_time(&t.env, 3601);
    t.client.resolve_market(&t.admin, &id, &true);
    let mut total: i128 = 0;
    for (user, net) in winners.iter().zip(nets.iter()) {
        let payout = t.client.get_payout(&id, user);
        assert_eq!(payout, net * pool / m.total_yes);
        assert!(payout >= *net);
        total += payout;
    }
    let dust = pool - total;
    assert!(0 <= dust && dust < 3);
    assert_eq!(t.client.get_market_fees(&id), fees + dust);
    // The larger the stake, the larger the payout.
    assert!(t.client.get_payout(&id, &winners[0]) < t.client.get_payout(&id, &winners[1]));
    assert!(t.client.get_payout(&id, &winners[1]) < t.client.get_payout(&id, &winners[2]));
}

#[test]
fn a_claim_is_final() {
    let t = setup();
    let id = create_test_market(&t);
    let user = t.env.generate();
    fund_user(&t, &user, 100_0000000);
    t.client.place_bet(&user, &id, &true, &50_0000000);
    advance_time(&t.env, 3601);
    t.client.resolve_market(&t.admin, &id, &true);
    t.client.claim(&user, &id);
    assert_eq!(t.client.try_claim(&user, &id), Err(String::from("AlreadyClaimed")));
    t.client.set_interface_version(&t.admin, &2);
    assert_eq!(t.client.try_claim(&user, &id), Err(String::from("AlreadyClaimed")));
}

#[test]
fn a_refund_is_final() {
    let t = setup();
    let id = create_test_market(&t);
    let user = t.env.generate();
    fund_user(&t, &user, 100_0000000);
    t.client.place_bet(&user, &id, &true, &20_0000000);
    t.client.cancel_market(&t.admin, &id);
    assert_eq!(t.client.cancel_refund(&user, &id), 19_9000000);
    assert_eq!(t.client.try_cancel_refund(&user, &id), Err(String::from("NoBetFound")));
    assert_eq!(t.client.get_bet_gross(&id, &user), 0);
}

#[test]
fn a_closed_market_stays_as_it_is() {
    let t = setup();
    let id = create_test_market(&t);
    let user = t.env.generate();
    fund_user(&t, &user, 100_0000000);
    t.client.place_bet(&user, &id, &true, &20_0000000);
    advance_time(&t.env, 3601);
    t.client.resolve_market(&t.admin, &id, &true);
    let closed = t.client.get_market(&id);
    assert_eq!(
        t.client.try_resolve_market(&t.admin, &id, &false),
        Err(String::from("MarketResolved"))
    );
    assert_eq!(
        t.client.try_cancel_market(&t.admin, &id),
        Err(String::from("MarketResolved"))
    );
    assert_eq!(
        t.client.try_place_bet(&user, &id, &true, &20_0000000),
        Err(String::from("MarketResolved"))
    );
    t.client.claim(&user, &id);
    assert_eq!(t.client.get_market(&id), closed);
}

#[test]
fn a_revoked_referral_contract_takes_no_bets() {
    let t = setup();
    let id = create_long_market(&t);
    let user = t.env.generate();
    fund_user(&t, &user, 100_0000000);
    let role = String::from("referral");
    assert!(!t.client.is_trust_revoked(&role));
    t.client.revoke_trust(&t.admin, &role);
    assert!(t.client.is_trust_revoked(&role));
    let refused = Err(String::from("TrustRevoked"));
    assert_eq!(t.client.try_place_bet(&user, &id, &true, &20_0000000), refused);
    // Another address for the contract does not restore the trust.
    let cfg = t.client.get_config();
    activate_config(&t, &cfg);
    assert_eq!(t.client.try_place_bet(&user, &id, &true, &20_0000000), refused);
    assert_eq!(t.xlm.balance(&user), 100_0000000);
    t.client.restore_trust(&t.admin, &role);
    t.client.place_bet(&user, &id, &true, &20_0000000);
}

#[test]
fn a_revoked_leaderboard_pays_no_claims() {
    let t = setup();
    let id = create_test_market(&t);
    let user = t.env.generate();
    fund_user(&t, &user, 100_0000000);
    t.client.place_bet(&user, &id, &true, &20_0000000);
    advance_time(&t.env, 3601);
    t.client.resolve_market(&t.admin, &id, &true);
    let role = String::from("leaderboard");
    t.client.revoke_trust(&t.admin, &role);
    assert_eq!(t.client.try_claim(&user, &id), Err(String::from("TrustRevoked")));
    t.client.restore_trust(&t.admin, &role);
    t.client.claim(&user, &id);
    assert_eq!(t.leaderboard_client.get_points(&user), 30);
}

#[test]
fn trust_is_the_admins_to_give() {
    let t = setup();
    let rando = t.env.generate();
    let role = String::from("referral");
    let not_admin = Err(String::from("NotAdmin"));
    assert_eq!(t.client.try_revoke_trust(&rando, &role), not_admin);
    assert_eq!(t.client.try_restore_trust(&rando, &role), not_admin);
    let unknown = String::from("oracle");
    let no_role = Err(String::from("InvalidRole"));
    assert_eq!(t.client.try_revoke_trust(&t.admin, &unknown), no_role);
    assert_eq!(t.client.try_restore_trust(&t.admin, &unknown), no_role);
    assert!(!t.client.is_trust_revoked(&unknown));
}

#[test]
fn an_old_or_silent_dependency_is_refused() {
    let t = setup();
    let id = create_long_market(&t);
    let user = t.env.generate();
    fund_user(&t, &user, 100_0000000);
    let cfg = t.client.get_config();
    activate_config(&t, &Config { referral: t.env.foreign_contract(0), ..cfg });
    assert_eq!(
        t.client.try_place_bet(&user, &id, &true, &20_0000000),
        Err(String::from("IncompatibleInterface"))
    );
    activate_config(&t, &Config { referral: t.env.silent_contract(), ..cfg });
    assert_eq!(
        t.client.try_place_bet(&user, &id, &true, &20_0000000),
        Err(String::from("InterfaceVersionMissing"))
    );
    activate_config(&t, &cfg);
    t.client.place_bet(&user, &id, &true, &20_0000000);
    // A contract with the right version and no such function undoes the claim.
    advance_time(&t.env, 10 * CONFIG_DELAY_SECS);
    t.client.resolve_market(&t.admin, &id, &true);
    activate_config(&t, &Config { leaderboard: t.env.foreign_contract(1), ..cfg });
    let before = t.xlm.balance(&user);
    assert!(t.client.try_claim(&user, &id).is_err());
    assert_eq!(t.xlm.balance(&user), before);
    assert!(!t.client.get_bet(&id, &user).claimed);
}

#[test]
fn refunds_are_paid_during_a_pause() {
    let t = setup();
    let id = create_test_market(&t);
    let user = t.env.generate();
    fund_user(&t, &user, 100_0000000);
    t.client.place_bet(&user, &id, &true, &20_0000000);
    t.client.cancel_market(&t.admin, &id);
    t.client.pause(&t.admin);
    assert_eq!(t.client.cancel_refund(&user, &id), 19_9000000);
    assert_eq!(t.client.try_finalize_zero_side(&id), Err(String::from("ContractPaused")));
    assert_eq!(t.client.try_freeze_market(&t.admin, &id), Err(String::from("ContractPaused")));
}

#[test]
fn nothing_works_before_the_market_is_set_up() {
    let env = Env::new();
    let client = MarketClient { env: env.clone(), address: env.chain.borrow().market_id };
    let who = env.generate();
    let refused = Err(String::from("NotInitialized"));
    assert_eq!(client.try_pause(&who), refused);
    assert_eq!(client.try_add_resolver(&who, &who), refused);
    assert_eq!(client.try_cancel_withdrawal_request(&who, &who), refused);
    assert_eq!(client.get_market_count(), 0);
    assert_eq!(client.interface_version(), 0);
}

#[test]
fn unknown_markets_are_reported() {
    let t = setup();
    let user = t.env.generate();
    fund_user(&t, &user, 100_0000000);
    let missing = String::from("MarketNotFound");
    assert_eq!(t.client.try_get_market(&7), Err(missing.clone()));
    assert_eq!(t.client.try_place_bet(&user, &7, &true, &20_0000000), Err(missing.clone()));
    assert_eq!(t.client.try_resolve_market(&t.admin, &7, &true), Err(missing.clone()));
    assert_eq!(t.client.try_cancel_market(&t.admin, &7), Err(missing.clone()));
    assert_eq!(t.client.try_cancel_refund(&user, &7), Err(missing.clone()));
    assert_eq!(t.client.try_claim(&user, &7), Err(missing.clone()));
    assert_eq!(t.client.try_freeze_market(&t.admin, &7), Err(missing.clone()));
    assert_eq!(t.client.try_finalize_zero_side(&7), Err(String::from("NotZeroSide")));
    assert_eq!(t.client.try_get_market_bettors_page(&7, &0, &10), Err(missing));
    assert_eq!(t.client.get_payout(&7, &user), 0);
}

#[test]
fn a_withdrawal_takes_a_fifth_and_the_last_units_at_once() {
    let t = setup();
    let id = create_test_market(&t);
    let user = t.env.generate();
    fund_user(&t, &user, 1_000_0000000);
    t.client.place_bet(&user, &id, &true, &100_0000000);
    assert_eq!(
        t.client.try_withdraw_fees(&t.admin, &t.admin),
        Err(String::from("NoFeesToWithdraw"))
    );
    advance_time(&t.env, 3601);
    t.client.resolve_market(&t.admin, &id, &true);
    assert_eq!(t.client.earned_fees(), 1_5000000);
    assert_eq!(t.client.withdraw_fees(&t.admin, &t.admin), 3000000);
    assert_eq!(t.client.earned_fees(), 1_2000000);
    let mut last: i128 = 0;
    while t.client.earned_fees() > 0 {
        last = t.client.withdraw_fees(&t.admin, &t.admin);
    }
    assert!(last < 5);
    assert_eq!(t.xlm.balance(&t.admin), 1_5000000);
}

#[test]
fn a_requested_withdrawal_waits_a_day() {
    let t = setup();
    let id = create_test_market(&t);
    let user = t.env.generate();
    fund_user(&t, &user, 1_000_0000000);
    t.client.place_bet(&user, &id, &true, &100_0000000);
    advance_time(&t.env, 3601);
    t.client.resolve_market(&t.admin, &id, &true);
    let treasurer = t.env.generate();
    t.client.add_fee_recipient(&t.admin, &treasurer);
    assert_eq!(
        t.client.try_request_withdraw_fees(&treasurer, &treasurer, &3000001),
        Err(String::from("WithdrawalTooLarge"))
    );
    assert_eq!(
        t.client.try_request_withdraw_fees(&treasurer, &treasurer, &0),
        Err(String::from("InvalidAmount"))
    );
    t.client.request_withdraw_fees(&treasurer, &treasurer, &3000000);
    let asked = t.client.get_pending_withdrawal(&treasurer).unwrap();
    assert_eq!(asked.requested_at, t.env.timestamp());
    advance_time(&t.env, WITHDRAW_DELAY_SECS - 1);
    assert_eq!(
        t.client.try_execute_withdraw_fees(&treasurer),
        Err(String::from("WithdrawalTooSoon"))
    );
    assert_eq!(t.client.get_pending_withdrawal(&treasurer), Some(asked));
    advance_time(&t.env, 1);
    assert_eq!(t.client.execute_withdraw_fees(&treasurer), 3000000);
    assert_eq!(t.xlm.balance(&treasurer), 3000000);
    assert_eq!(
        t.client.try_execute_withdraw_fees(&treasurer),
        Err(String::from("NoWithdrawalRequest"))
    );
}

/// An outcome that nobody bet on: the window, the freeze and the release.
#[test]
fn a_frozen_market_refunds_everybody() {
    let t = setup();
    let id = create_test_market(&t);
    let user = t.env.generate();
    fund_user(&t, &user, 100_0000000);
    t.client.place_bet(&user, &id, &true, &20_0000000);
    advance_time(&t.env, 3601);
    t.client.resolve_market(&t.admin, &id, &false);
    let held = t.client.get_forfeited_pool(&id).unwrap();
    assert_eq!(held.amount, 19_6000000);
    assert_eq!(held.locked_fees, 3000000);
    assert_eq!(held.disputable_until, t.env.timestamp() + DISPUTE_WINDOW_SECS);
    assert_eq!(t.client.get_market_fees(&id), 0);
    assert_eq!(t.client.try_finalize_zero_side(&id), Err(String::from("DisputeWindowActive")));
    t.client.freeze_market(&t.admin, &id);
    assert_eq!(
        t.client.try_freeze_market(&t.admin, &id),
        Err(String::from("MarketCancelled"))
    );
    assert_eq!(t.client.try_claim(&user, &id), Err(String::from("MarketCancelled")));
    assert_eq!(t.client.cancel_refund(&user, &id), 19_9000000);
    assert_eq!(t.xlm.balance(&t.market_id), 0);
}

#[test]
fn an_undisputed_outcome_releases_the_fees() {
    let t = setup();
    let id = create_test_market(&t);
    let user = t.env.generate();
    fund_user(&t, &user, 100_0000000);
    t.client.place_bet(&user, &id, &true, &20_0000000);
    advance_time(&t.env, 3601);
    t.client.resolve_market(&t.admin, &id, &false);
    advance_time(&t.env, DISPUTE_WINDOW_SECS);
    assert_eq!(
        t.client.try_freeze_market(&t.admin, &id),
        Err(String::from("DisputeWindowClosed"))
    );
    t.client.finalize_zero_side(&id);
    assert_eq!(t.client.get_forfeited_pool(&id), None);
    assert_eq!(t.client.earned_fees(), 3000000);
    t.client.claim(&user, &id);
    assert_eq!(t.xlm.balance(&t.market_id), 3000000);
}

#[test]
fn creation_is_limited_by_rate_and_by_number() {
    let t = setup();
    for _ in 0..10 {
        create_test_market(&t);
    }
    let ask = || {
        t.client.try_create_market(
            &t.admin,
            &String::from("One more?"),
            &String::from("https://example.com/x.png"),
            &Category::Sports,
            &3600,
        )
    };
    assert_eq!(ask(), Err(String::from("RateLimitExceeded")));
    // The first window began with the ledger itself.
    t.env.set_sequence(RATE_WINDOW_LEDGERS - 1);
    assert_eq!(ask(), Err(String::from("RateLimitExceeded")));
    t.env.set_sequence(RATE_WINDOW_LEDGERS);
    assert_eq!(ask(), Ok(11));
    for n in 12..=50 {
        advance_ledgers(&t.env, RATE_WINDOW_LEDGERS);
        assert_eq!(ask(), Ok(n));
    }
    advance_ledgers(&t.env, RATE_WINDOW_LEDGERS);
    assert_eq!(t.client.get_open_market_count(), 50);
    assert_eq!(ask(), Err(String::from("TooManyOpenMarkets")));
    t.client.cancel_market(&t.admin, &1);
    assert_eq!(t.client.get_open_market_count(), 49);
    assert_eq!(ask(), Ok(51));
}

#[test]
fn whoever_resolves_has_no_stake() {
    let t = setup();
    let id = create_test_market(&t);
    let resolver = t.env.generate();
    fund_user(&t, &resolver, 100_0000000);
    t.client.add_resolver(&t.admin, &resolver);
    let conflict = Err(String::from("ConflictOfInterest"));
    assert_eq!(t.client.try_place_bet(&resolver, &id, &true, &20_0000000), conflict);
    t.client.remove_resolver(&t.admin, &resolver);
    t.client.place_bet(&resolver, &id, &true, &20_0000000);
    assert_eq!(t.client.try_add_resolver(&t.admin, &resolver), conflict);
    advance_time(&t.env, 3601);
    assert_eq!(
        t.client.try_resolve_market(&resolver, &id, &true),
        Err(String::from("NotResolver"))
    );
    t.client.resolve_market(&t.admin, &id, &true);
    // With the market settled there is no open stake left.
    t.client.add_resolver(&t.admin, &resolver);
    assert!(t.client.is_resolver(&resolver));
}

#[test]
fn errors_have_stable_numbers() {
    assert_eq!(MarketError::AlreadyInitialized.code(), 1);
    assert_eq!(MarketError::OppositeSideBet.code(), 11);
    assert_eq!(MarketError::TooManyBets.code(), 17);
    assert_eq!(MarketError::IncompatibleInterface.code(), 27);
    assert_eq!(MarketError::TrustRevoked.code(), 28);
    assert_eq!(MarketError::InvalidDuration.code(), 31);
    assert_eq!(MarketError::DisputeWindowActive.code(), 37);
    assert_eq!(MarketError::TooManyOpenMarkets.code(), 41);
}

#[test]
fn a_bet_remembers_the_first_answer_of_the_registry() {
    let t = setup();
    let id = create_test_market(&t);
    let user = t.env.generate();
    let referrer = t.env.generate();
    fund_user(&t, &user, 100_0000000);
    t.client.place_bet(&user, &id, &true, &20_0000000);
    t.referral_client.register_referral(&referrer, &String::from("R"), &None);
    t.referral_client.register_referral(&user, &String::from("U"), &Some(referrer));
    t.client.place_bet(&user, &id, &true, &20_0000000);
    assert_eq!(t.env.chain.borrow().market.has_referrer.find(user), Some(false));
    assert_eq!(t.referral_client.get_earnings(&referrer), 1000000);
}

#[test]
fn a_reduction_takes_every_part_in_proportion() {
    let t = setup();
    let id = create_test_market(&t);
    let user = t.env.generate();
    fund_user(&t, &user, 1_000_0000000);
    t.client.place_bet(&user, &id, &true, &100_0000000);
    t.client.place_bet(&user, &id, &false, &50_0000000);
    // A third of what was paid in: a third of either stake and of the fee.
    assert_eq!(t.client.reduce_position(&user, &id, &50_0000000), 49_7500000);
    let position = t.client.get_position(&id, &user);
    assert_eq!(position.net_yes, 98_0000000 - 32_6666666);
    assert_eq!(position.net_no, 49_0000000 - 16_3333334);
    assert_eq!(position.gross, 100_0000000);
    assert_eq!(position.count, 2);
    assert_eq!(t.client.get_market_fees(&id), 2_2500000 - 7500000);
    let market = t.client.get_market(&id);
    assert_eq!(market.total_yes, position.net_yes);
    assert_eq!(market.total_no, position.net_no);
}

#[test]
fn what_a_reduction_rounds_off_stays_in_the_position() {
    let t = setup();
    let id = create_test_market(&t);
    let user = t.env.generate();
    fund_user(&t, &user, 1_000_0000000);
    t.client.place_bet(&user, &id, &true, &100_0000000);
    let before = t.xlm.balance(&user);
    assert_eq!(t.client.reduce_position(&user, &id, &1), 0);
    let rest = t.client.get_bet_gross(&id, &user);
    assert_eq!(rest, 100_0000000 - 1);
    assert_eq!(t.client.reduce_position(&user, &id, &rest), 99_5000000);
    assert_eq!(t.xlm.balance(&user) - before, 99_5000000);
    assert_eq!(t.client.get_market(&id).total_yes, 0);
    assert_eq!(t.client.get_market_fees(&id), 0);
}

#[test]
fn a_closed_position_leaves_the_index_and_can_be_opened_again() {
    let t = setup();
    let id = create_test_market(&t);
    let (alice, bob) = (t.env.generate(), t.env.generate());
    fund_user(&t, &alice, 1_000_0000000);
    fund_user(&t, &bob, 1_000_0000000);
    t.client.place_bet(&alice, &id, &true, &100_0000000);
    t.client.place_bet(&bob, &id, &false, &100_0000000);
    t.client.reduce_position(&alice, &id, &100_0000000);
    assert_eq!(t.client.get_market_bettors(&id), vec![bob]);
    assert_eq!(t.client.get_user_bet_count(&id, &alice), 0);
    assert_eq!(
        t.client.try_reduce_position(&alice, &id, &1),
        Err(String::from("NoBetFound"))
    );
    t.client.place_bet(&alice, &id, &true, &50_0000000);
    assert_eq!(t.client.get_market_bettors(&id), vec![bob, alice]);
    advance_time(&t.env, 3601);
    t.client.resolve_market(&t.admin, &id, &true);
    // Whoever comes back is paid once: the whole pool, as the only winner.
    assert_eq!(t.client.get_payout(&id, &alice), 49_0000000 + 98_0000000);
    assert_eq!(t.client.get_payout(&id, &bob), 0);
}

#[test]
fn a_reduction_needs_a_market() {
    let t = setup();
    let user = t.env.generate();
    assert_eq!(
        t.client.try_reduce_position(&user, &9, &1),
        Err(String::from("MarketNotFound"))
    );
}

#[test]
fn a_reduction_leaves_everybody_else_alone() {
    let t = setup();
    let (a, b) = (create_test_market(&t), create_test_market(&t));
    let (alice, bob) = (t.env.generate(), t.env.generate());
    fund_user(&t, &alice, 1_000_0000000);
    fund_user(&t, &bob, 1_000_0000000);
    for id in [a, b] {
        t.client.place_bet(&alice, &id, &true, &100_0000000);
        t.client.place_bet(&bob, &id, &true, &60_0000000);
    }
    t.client.reduce_position(&alice, &a, &25_0000000);
    assert_eq!(t.client.get_position(&a, &bob), t.client.get_position(&b, &bob));
    assert_eq!(t.client.get_bet(&b, &alice).amount, 98_0000000);
    assert_eq!(t.client.get_market(&b).total_yes, 98_0000000 + 58_8000000);
    assert_eq!(t.client.get_market_fees(&b), 2_4000000);
    assert_eq!(t.client.get_market_fees(&a), 2_4000000 - 3750000);
}

#[test]
fn a_leaderboard_that_is_too_old_holds_claims_up() {
    let t = setup();
    let id = create_test_market(&t);
    let user = t.env.generate();
    fund_user(&t, &user, 100_0000000);
    t.client.place_bet(&user, &id, &true, &50_0000000);
    advance_time(&t.env, 3601);
    t.client.resolve_market(&t.admin, &id, &true);
    let board = &t.leaderboard_client;
    board.run(|c, call| c.set_interface_version(call, t.admin, 0)).unwrap();
    let before = t.xlm.balance(&user);
    assert_eq!(t.client.try_claim(&user, &id), Err(String::from("IncompatibleInterface")));
    assert_eq!(t.xlm.balance(&user), before);
    board.run(|c, call| c.set_interface_version(call, t.admin, 1)).unwrap();
    t.client.claim(&user, &id);
    assert_eq!(t.xlm.balance(&user) - before, 49_0000000);
}

fn create_long_market(t: &TestSetup) -> u64 {
    t.client.create_market(
        &t.admin,
        &String::from("Market"),
        &String::from("https://x.png"),
        &Category::Crypto,
        &(10 * CONFIG_DELAY_SECS),
    )
}

/// Stage a configuration, wait, and let it land.
fn activate_config(t: &TestSetup, cfg: &Config) {
    t.client.set_config(&t.admin, cfg);
    advance_time(&t.env, CONFIG_DELAY_SECS);
    t.client.execute_set_config(&t.admin);
}

fn second_leaderboard(t: &TestSetup) -> Address {
    t.env.foreign_contract(1)
}

#[test]
fn test_legacy_fees_start_empty_on_fresh_deploy() {
    let t = setup();
    t.client.migrate_fee_ledger();
    assert_eq!(t.client.get_legacy_fees(), 0);
    assert_eq!(t.client.get_accumulated_fees(), 0);
}

#[test]
fn test_get_market_ttl_tracks_live_entry() {
    let t = setup();
    assert_eq!(t.client.get_market_ttl(&99_u64), 0);
    let id = create_test_market(&t);
    // Only existence is reported (0 or 1); the entry itself is alive.
    assert!(t.client.get_market_ttl(&id) > 0);
    assert!(t.env.ttl(t.client.address, &MarketKey::Market(id)) >= TTL_BUMP);
}

#[test]
fn test_refresh_market_ttl_rebumps_bet_and_market() {
    let t = setup();
    let id = create_test_market(&t);
    let user = t.env.generate();
    fund_user(&t, &user, 200_0000000);
    t.client.place_bet(&user, &id, &true, &100_0000000_i128);

    advance_ledgers(&t.env, 6_000_000);
    let bet_key = MarketKey::Bet(id, user);
    let market_key = MarketKey::Market(id);
    let ttl = |key: &MarketKey| -> u32 { t.env.ttl(t.client.address, key) };
    let bet_before = ttl(&bet_key);
    let market_before = ttl(&market_key);

    assert_eq!(t.client.refresh_market_ttl(&id), 1);
    assert!(ttl(&bet_key) > bet_before);
    assert!(ttl(&market_key) > market_before);
    assert!(t.client.get_market_ttl(&id) > 0);
}

#[test]
fn test_refresh_markets_migrates_existing_entries() {
    let t = setup();
    let a = create_test_market(&t);
    let b = create_test_market(&t);
    let user = t.env.generate();
    fund_user(&t, &user, 400_0000000);
    t.client.place_bet(&user, &a, &true, &100_0000000_i128);
    t.client.place_bet(&user, &b, &true, &100_0000000_i128);

    advance_ledgers(&t.env, 6_000_000);
    let real_ttl = |id: u64| -> u32 { t.env.ttl(t.client.address, &MarketKey::Market(id)) };
    let before_a = real_ttl(a);
    let bumped = t.client.refresh_markets(&1_u64, &20_u32);
    assert_eq!(bumped, 2);
    assert!(real_ttl(a) > before_a);
    assert!(real_ttl(b) >= TTL_BUMP);
}

#[test]
fn a_refresh_reaches_what_is_there_and_no_more() {
    let t = setup();
    let (a, b, c) = (create_test_market(&t), create_test_market(&t), create_test_market(&t));
    let user = t.env.generate();
    fund_user(&t, &user, 400_0000000);
    t.client.place_bet(&user, &a, &true, &100_0000000);
    advance_time(&t.env, 3601);
    t.client.resolve_market(&t.admin, &a, &true);
    advance_ledgers(&t.env, 6_000_000);
    let ttl = |key: &MarketKey| -> u32 { t.env.ttl(t.client.address, key) };
    assert_eq!(t.client.refresh_market_ttl(&9), 0);
    assert_eq!(t.client.refresh_markets(&a, &2), 2);
    for key in [
        MarketKey::Market(a),
        MarketKey::MarketFees(a),
        MarketKey::BettorCount(a),
        MarketKey::BettorAt(a, 0),
        MarketKey::Bet(a, user),
        MarketKey::Payout(a, user),
        MarketKey::Market(b),
    ] {
        assert_eq!(ttl(&key), TTL_HIGH);
    }
    assert!(ttl(&MarketKey::Market(c)) < TTL_BUMP);
    assert_eq!(t.client.refresh_markets(&c, &20), 1);
    assert_eq!(t.client.refresh_markets(&(c + 1), &20), 0);
    assert_eq!(t.client.refresh_markets(&u64::MAX, &20), 0);
}

#[test]
fn test_migrate_fee_ledger_snapshots_legacy_balance() {
    let t = setup();
    let legacy_amount: i128 = 7_5000000;
    t.env.chain.borrow_mut().market.accumulated_fees = Some(legacy_amount);

    t.client.migrate_fee_ledger();
    assert_eq!(t.client.get_legacy_fees(), legacy_amount);
    assert_eq!(t.client.get_accumulated_fees(), legacy_amount);

    // New bets after migration land on per-market ledgers, not LegacyFees.
    let id = create_test_market(&t);
    let user = t.env.generate();
    fund_user(&t, &user, 200_0000000);
    t.client.place_bet(&user, &id, &true, &100_0000000_i128);
    assert_eq!(t.client.get_legacy_fees(), legacy_amount);
    // No referrer: only the 1.5% platform fee accrues.
    assert_eq!(t.client.get_market_fees(&id), 1_5000000);
    assert_eq!(t.client.get_accumulated_fees(), legacy_amount + 1_5000000);
}

#[test]
fn test_migration_snapshots_and_removes_global_counter() {
    let t = setup();
    let legacy_amount: i128 = 7_5000000;
    t.env.chain.borrow_mut().market.accumulated_fees = Some(legacy_amount);

    t.client.migrate_fee_ledger();
    assert_eq!(t.client.get_legacy_fees(), legacy_amount);
    assert_eq!(t.client.get_accumulated_fees(), legacy_amount);

    // The old counter is removed: the total is now derived.
    assert!(t.env.chain.borrow().market.accumulated_fees.is_none());

    // New bets land on per-market ledgers, total is still derived correctly.
    let id = create_test_market(&t);
    let user = t.env.generate();
    fund_user(&t, &user, 200_0000000);
    t.client.place_bet(&user, &id, &true, &100_0000000_i128);
    assert_eq!(t.client.get_legacy_fees(), legacy_amount);
    assert_eq!(t.client.get_market_fees(&id), 1_5000000);
    assert_eq!(t.client.get_accumulated_fees(), legacy_amount + 1_5000000);
}

#[test]
fn test_migration_from_existing_per_market_fees() {
    let t = setup();

    // The old counter beside entries of single markets.
    let legacy_amount: i128 = 5_0000000;
    let market_fees_amount: i128 = 3_0000000;
    let id = create_test_market(&t);
    {
        let mut chain = t.env.chain.borrow_mut();
        chain.market.accumulated_fees = Some(legacy_amount);
        chain.market.market_fees.set(1, market_fees_amount);
    }

    t.client.migrate_fee_ledger();

    assert_eq!(t.client.get_legacy_fees(), legacy_amount);
    // Fees that a market already had are preserved.
    assert_eq!(t.client.get_market_fees(&1), market_fees_amount);
    assert_eq!(t.client.get_accumulated_fees(), legacy_amount + market_fees_amount);
    assert!(t.env.chain.borrow().market.accumulated_fees.is_none());

    // New bets after migration land on per-market ledgers.
    let user = t.env.generate();
    fund_user(&t, &user, 200_0000000);
    t.client.place_bet(&user, &id, &true, &100_0000000_i128);
    assert_eq!(
        t.client.get_accumulated_fees(),
        legacy_amount + market_fees_amount + 1_5000000
    );
}

#[test]
fn migrated_fees_are_withdrawn_like_before() {
    let t = setup();
    fund_user(&t, &t.market_id, 100_0000000);
    t.env.chain.borrow_mut().market.accumulated_fees = Some(100_0000000);
    t.client.migrate_fee_ledger();
    assert_eq!(t.client.withdraw_fees(&t.admin, &t.admin), 20_0000000);
    assert_eq!(t.client.get_legacy_fees(), 80_0000000);
    t.client.migrate_fee_ledger();
    assert_eq!(t.client.get_legacy_fees(), 80_0000000);
    assert_eq!(t.client.get_accumulated_fees(), 80_0000000);
}

#[test]
#[should_panic]
fn test_matching_version_does_not_guarantee_claim_succeeds() {
    let t = setup();
    let id = create_test_market(&t);
    let user = t.env.generate();
    fund_user(&t, &user, 200_0000000);
    t.client.place_bet(&user, &id, &true, &100_0000000_i128);
    advance_time(&t.env, 3601);
    t.client.resolve_market(&t.admin, &id, &true);

    let fake_leaderboard = t.env.foreign_contract(1);
    let cfg = t.client.get_config();
    activate_config(&t, &Config { leaderboard: fake_leaderboard, ..cfg });

    t.client.claim(&user, &id);
}

#[test]
fn test_set_config_is_timelocked() {
    let t = setup();
    let new_token = t.env.foreign_contract(1);
    let new_referral = t.env.foreign_contract(1);
    let new_leaderboard = second_leaderboard(&t);
    let new_xlm = t.xlm_sac_id;

    let before = t.client.get_config();
    t.client.set_config(
        &t.admin,
        &Config {
            token: new_token,
            referral: new_referral,
            leaderboard: new_leaderboard,
            xlm_sac: new_xlm,
        },
    );

    // Staged but NOT applied yet.
    assert_eq!(t.client.get_config(), before);
    let pending = t.client.get_pending_config().unwrap();
    assert_eq!(pending.cfg.token, new_token);
    assert_eq!(pending.requested_at, t.env.timestamp());

    // After the delay it lands.
    advance_time(&t.env, CONFIG_DELAY_SECS);
    t.client.execute_set_config(&t.admin);

    let after = t.client.get_config();
    assert_eq!(after.token, new_token);
    assert_eq!(after.referral, new_referral);
    assert_eq!(after.leaderboard, new_leaderboard);
    assert_eq!(after.xlm_sac, new_xlm);
    assert!(t.client.get_pending_config().is_none());
}

#[test]
#[should_panic(expected = "ConfigTooSoon")]
fn test_execute_set_config_before_delay_rejected() {
    let t = setup();
    let cfg = t.client.get_config();
    let new_lb = second_leaderboard(&t);
    t.client.set_config(&t.admin, &Config { leaderboard: new_lb, ..cfg });
    // Too soon: the change has not matured.
    t.client.execute_set_config(&t.admin);
}

#[test]
#[should_panic(expected = "NoPendingConfig")]
fn test_execute_set_config_without_pending_rejected() {
    let t = setup();
    t.client.execute_set_config(&t.admin);
}

#[test]
fn test_set_config_does_not_apply_immediately() {
    let t = setup();
    let cfg = t.client.get_config();
    let new_lb = second_leaderboard(&t);

    t.client.set_config(&t.admin, &Config { leaderboard: new_lb, ..cfg });

    // The configuration stays until the change lands after the delay.
    assert_eq!(t.client.get_config().leaderboard, cfg.leaderboard);
    let pending = t.client.get_pending_config().expect("pending change");
    assert_eq!(pending.cfg.leaderboard, new_lb);
    assert_eq!(pending.approvers.len(), 1);
}

#[test]
#[should_panic(expected = "InvalidContract")]
fn test_set_config_rejects_arbitrary_address() {
    let t = setup();
    let cfg = t.client.get_config();
    let attacker = t.env.generate();
    t.client.set_config(&t.admin, &Config { referral: attacker, ..cfg });
}

#[test]
#[should_panic(expected = "InvalidContract")]
fn test_set_config_rejects_wasm_as_xlm_sac() {
    let t = setup();
    let cfg = t.client.get_config();
    // A contract with code of its own cannot stand in for the currency.
    t.client.set_config(&t.admin, &Config { xlm_sac: cfg.token, ..cfg });
}

#[test]
#[should_panic(expected = "ConfigTooSoon")]
fn test_set_config_execute_before_delay() {
    let t = setup();
    let cfg = t.client.get_config();
    let new_lb = second_leaderboard(&t);
    t.client.set_config(&t.admin, &Config { leaderboard: new_lb, ..cfg });
    t.client.execute_set_config(&t.admin);
}

#[test]
fn test_set_config_execute_after_delay_and_pin() {
    let t = setup();
    let cfg = t.client.get_config();
    let new_lb = second_leaderboard(&t);
    t.client.set_config(&t.admin, &Config { leaderboard: new_lb, ..cfg });
    advance_time(&t.env, CONFIG_DELAY_SECS);
    t.client.execute_set_config(&t.admin);

    assert_eq!(t.client.get_config().leaderboard, new_lb);
    assert!(t.client.get_pending_config().is_none());
    let pins = t.client.get_pinned_hashes().expect("pins");
    assert_eq!(pins.xlm_sac, WasmHash { bytes: [0u8; 32] });
}

#[test]
fn a_landed_change_pins_the_code_that_was_proposed() {
    let t = setup();
    assert!(t.client.get_pinned_hashes().is_none());
    let cfg = Config { token: t.env.foreign_contract(1), ..t.client.get_config() };
    t.client.set_config(&t.admin, &cfg);
    assert!(t.client.get_pinned_hashes().is_none());
    advance_time(&t.env, CONFIG_DELAY_SECS);
    t.client.execute_set_config(&t.admin);
    let pins = t.client.get_pinned_hashes().unwrap();
    assert_eq!(pins.token, code_of(cfg.token));
    assert_eq!(pins.referral, code_of(cfg.referral));
    assert_eq!(pins.leaderboard, code_of(cfg.leaderboard));
}

#[test]
fn test_cancel_set_config_during_dispute_window() {
    let t = setup();
    let cfg = t.client.get_config();
    let new_lb = second_leaderboard(&t);
    t.client.set_config(&t.admin, &Config { leaderboard: new_lb, ..cfg });
    t.client.cancel_set_config(&t.admin);
    assert!(t.client.get_pending_config().is_none());
    assert_eq!(t.client.get_config().leaderboard, cfg.leaderboard);
}

#[test]
#[should_panic(expected = "NotEnoughApprovals")]
fn test_set_config_multisig_requires_threshold() {
    let t = setup();
    let g2 = t.env.generate();
    t.client.add_governor(&t.admin, &g2);
    t.client.set_governor_threshold(&t.admin, &2_u32);

    let cfg = t.client.get_config();
    let new_lb = second_leaderboard(&t);
    t.client.set_config(&t.admin, &Config { leaderboard: new_lb, ..cfg });
    advance_time(&t.env, CONFIG_DELAY_SECS);
    // Only the proposer approved (1 of 2).
    t.client.execute_set_config(&t.admin);
}

#[test]
fn test_cancel_set_config_removes_pending() {
    let t = setup();
    let before = t.client.get_config();
    let new_lb = second_leaderboard(&t);
    let cfg = t.client.get_config();
    t.client.set_config(&t.admin, &Config { leaderboard: new_lb, ..cfg });
    assert!(t.client.get_pending_config().is_some());

    t.client.cancel_set_config(&t.admin);

    assert!(t.client.get_pending_config().is_none());
    assert_eq!(t.client.get_config(), before);
}

#[test]
#[should_panic(expected = "NotAuthorized")]
fn test_set_config_rejects_non_admin() {
    let t = setup();
    let rando = t.env.generate();
    let new_token = t.env.generate();
    let new_referral = t.env.generate();
    let new_leaderboard = t.env.generate();
    let new_xlm = t.env.generate();
    t.client.set_config(
        &rando,
        &Config {
            token: new_token,
            referral: new_referral,
            leaderboard: new_leaderboard,
            xlm_sac: new_xlm,
        },
    );
}

#[test]
fn test_set_config_multisig_execute_with_second_approval() {
    let t = setup();
    let g2 = t.env.generate();
    t.client.add_governor(&t.admin, &g2);
    t.client.set_governor_threshold(&t.admin, &2_u32);

    let cfg = t.client.get_config();
    let new_lb = second_leaderboard(&t);
    t.client.set_config(&t.admin, &Config { leaderboard: new_lb, ..cfg });
    t.client.approve_set_config(&g2);
    advance_time(&t.env, CONFIG_DELAY_SECS);
    t.client.execute_set_config(&g2);

    assert_eq!(t.client.get_config().leaderboard, new_lb);
}

#[test]
#[should_panic(expected = "NotAuthorized")]
fn test_set_config_non_governor_rejected() {
    let t = setup();
    let cfg = t.client.get_config();
    let stranger = t.env.generate();
    t.client.set_config(&stranger, &cfg);
}

#[test]
#[should_panic(expected = "ConfigChangePending")]
fn test_set_config_rejects_duplicate_proposal() {
    let t = setup();
    let cfg = t.client.get_config();
    let new_lb = second_leaderboard(&t);
    t.client.set_config(&t.admin, &Config { leaderboard: new_lb, ..cfg });

    // A second proposal while one is pending must be rejected.
    t.client.set_config(&t.admin, &Config { leaderboard: new_lb, ..cfg });
}

#[test]
fn a_staged_change_lands_no_sooner_than_the_delay() {
    let t = setup();
    let cfg = Config { token: t.env.foreign_contract(1), ..t.client.get_config() };
    let staged_at = t.env.timestamp();
    t.client.set_config(&t.admin, &cfg);
    t.env.set_timestamp(staged_at + CONFIG_DELAY_SECS - 1);
    assert_eq!(
        t.client.try_execute_set_config(&t.admin),
        Err(String::from("ConfigTooSoon"))
    );
    t.env.set_timestamp(staged_at + CONFIG_DELAY_SECS);
    t.client.execute_set_config(&t.admin);
    assert_eq!(t.client.get_config(), cfg);
    // It lands once.
    assert_eq!(
        t.client.try_execute_set_config(&t.admin),
        Err(String::from("NoPendingConfig"))
    );
}

#[test]
fn approvals_are_counted_once_and_only_of_governors() {
    let t = setup();
    let (g2, g3, rando) = (t.env.generate(), t.env.generate(), t.env.generate());
    let not_authorized = Err(String::from("NotAuthorized"));
    assert_eq!(
        t.client.try_approve_set_config(&t.admin),
        Err(String::from("NoPendingConfig"))
    );
    assert_eq!(
        t.client.try_cancel_set_config(&t.admin),
        Err(String::from("NoPendingConfig"))
    );
    t.client.add_governor(&t.admin, &g2);
    t.client.add_governor(&t.admin, &g3);
    t.client.set_governor_threshold(&t.admin, &3);
    let cfg = Config { leaderboard: second_leaderboard(&t), ..t.client.get_config() };
    t.client.set_config(&g2, &cfg);
    t.client.approve_set_config(&g2);
    t.client.approve_set_config(&g3);
    t.client.approve_set_config(&g3);
    assert_eq!(t.client.get_pending_config().unwrap().approvers, vec![g2, g3]);
    assert_eq!(t.client.try_approve_set_config(&rando), not_authorized);
    advance_time(&t.env, CONFIG_DELAY_SECS);
    assert_eq!(t.client.try_execute_set_config(&rando), not_authorized);
    assert_eq!(
        t.client.try_execute_set_config(&g3),
        Err(String::from("NotEnoughApprovals"))
    );
    t.client.approve_set_config(&t.admin);
    t.client.execute_set_config(&g3);
    assert_eq!(t.client.get_config(), cfg);
}

#[test]
fn governors_are_the_admins_to_appoint() {
    let t = setup();
    let (g2, rando) = (t.env.generate(), t.env.generate());
    let not_admin = Err(String::from("NotAdmin"));
    assert_eq!(t.client.try_add_governor(&rando, &rando), not_admin);
    assert_eq!(t.client.try_set_governor_threshold(&rando, &0), not_admin);
    t.client.add_governor(&t.admin, &g2);
    let cfg = t.client.get_config();
    t.client.set_config(&g2, &Config { leaderboard: second_leaderboard(&t), ..cfg });
    // A governor proposes; only the admin cancels.
    assert_eq!(t.client.try_cancel_set_config(&g2), not_admin);
    t.client.cancel_set_config(&t.admin);
    assert_eq!(t.client.get_config(), cfg);
}

#[test]
fn a_refund_is_never_more_than_was_paid_in() {
    let t = setup();
    let id = create_test_market(&t);
    let user = t.env.generate();
    fund_user(&t, &user, 1_000_0000000);
    t.client.place_bet(&user, &id, &true, &100_0000000);
    t.client.place_bet(&user, &id, &false, &50_0000000);
    // All but the last unit, in uneven steps.
    let mut back = 0;
    for amount in [1, 7, 33_3333333, 100_0000000, 16_6666658] {
        let refund = t.client.reduce_position(&user, &id, &amount);
        assert!(0 <= refund && refund <= amount);
        back += refund;
    }
    assert_eq!(t.client.get_bet_gross(&id, &user), 1);
    t.client.cancel_market(&t.admin, &id);
    assert_eq!(t.client.cancel_refund(&user, &id), 1);
    assert_eq!(back + 1, 149_2500000);
    assert_eq!(t.client.try_cancel_refund(&user, &id), Err(String::from("NoBetFound")));
}

#[test]
fn a_claim_is_final_through_whatever_follows() {
    let t = setup();
    let id = create_test_market(&t);
    let user = t.env.generate();
    fund_user(&t, &user, 100_0000000);
    // Nobody bets on the outcome, so that it can be disputed for a while.
    t.client.place_bet(&user, &id, &true, &50_0000000);
    advance_time(&t.env, 3601);
    t.client.resolve_market(&t.admin, &id, &false);
    advance_time(&t.env, DISPUTE_WINDOW_SECS);
    t.client.claim(&user, &id);
    let claimed = Err(String::from("AlreadyClaimed"));
    assert_eq!(t.client.try_claim(&user, &id), claimed);
    assert_eq!(
        t.client.try_freeze_market(&t.admin, &id),
        Err(String::from("DisputeWindowClosed"))
    );
    t.client.finalize_zero_side(&id);
    t.client.pause(&t.admin);
    assert_eq!(t.client.try_claim(&user, &id), Err(String::from("ContractPaused")));
    t.client.unpause(&t.admin);
    t.client.revoke_trust(&t.admin, &String::from("leaderboard"));
    assert_eq!(t.client.try_claim(&user, &id), claimed);
}

#[test]
fn errors_of_configuration_changes_have_their_numbers() {
    assert_eq!(MarketError::InvalidDuration.code(), 31);
    assert_eq!(MarketError::ConfigTooSoon.code(), 32);
    assert_eq!(MarketError::NotEnoughApprovals.code(), 33);
    assert_eq!(MarketError::NoPendingConfig.code(), 34);
    assert_eq!(MarketError::InvalidContract.code(), 35);
    assert_eq!(MarketError::ConfigChangePending.code(), 36);
    assert_eq!(MarketError::DisputeWindowActive.code(), 37);
}

#[test]
fn a_resolvers_bet_is_refused_like_any_other_first() {
    let t = setup();
    let id = create_test_market(&t);
    let resolver = t.env.generate();
    fund_user(&t, &resolver, 100_0000000);
    t.client.add_resolver(&t.admin, &resolver);
    let bet = |id: u64| t.client.try_place_bet(&resolver, &id, &true, &20_0000000);
    assert_eq!(bet(9), Err(String::from("MarketNotFound")));
    assert_eq!(bet(id), Err(String::from("ConflictOfInterest")));
    advance_time(&t.env, 3601);
    assert_eq!(bet(id), Err(String::from("MarketExpired")));
}

#[test]
fn a_withdrawal_waits_to_the_second() {
    let t = setup();
    fund_user(&t, &t.market_id, 100_0000000);
    t.env.chain.borrow_mut().market.accumulated_fees = Some(100_0000000);
    let recipient = t.env.generate();
    t.client.add_fee_recipient(&t.admin, &recipient);
    assert_eq!(
        t.client.try_execute_withdraw_fees(&recipient),
        Err(String::from("NoWithdrawalRequest"))
    );
    t.client.request_withdraw_fees(&recipient, &recipient, &7_0000000);
    assert_eq!(t.client.get_accumulated_fees(), 100_0000000);
    advance_time(&t.env, WITHDRAW_DELAY_SECS - 1);
    assert_eq!(
        t.client.try_execute_withdraw_fees(&recipient),
        Err(String::from("WithdrawalTooSoon"))
    );
    assert!(t.client.get_pending_withdrawal(&recipient).is_some());
    advance_time(&t.env, 1);
    assert_eq!(t.client.execute_withdraw_fees(&recipient), 7_0000000);
    assert_eq!(t.xlm.balance(&recipient), 7_0000000);
    assert_eq!(t.client.get_accumulated_fees(), 93_0000000);
    assert!(t.client.get_pending_withdrawal(&recipient).is_none());
}
