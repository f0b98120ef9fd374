//! The registry, with the leaderboard and the token that its bonuses go through.
#![allow(dead_code)]

use pulse_market::address::Address;
use pulse_market::env::{Effect, Env as Call, Event, Ledger, TTL_BUMP, TTL_HIGH};
use pulse_market::leaderboard::state::LeaderboardContract;
use pulse_market::leaderboard::types::{DataKey as BoardKey};
use pulse_market::pulse_token::model::{DataKey as TokenKey, PULSETokenContract};
use pulse_market::referral_registry::model::{
    DataKey as RegistryKey, ReferralRegistryContract, ReferralRegistryError,
};
use std::cell::RefCell;
use std::collections::BTreeMap;
use std::fmt::Debug;
use std::rc::Rc;

/// The ledger with the registry, the leaderboard and the token on it. A clone of `Env` refers to the same
/// ledger.
#[derive(Clone)]
struct Env {
    chain: Rc<RefCell<Chain>>,
}

#[derive(Clone)]
struct Chain {
    timestamp: u64,
    sequence: u32,
    last_id: u64,
    board: LeaderboardContract,
    token: PULSETokenContract,
    registry: ReferralRegistryContract,
    board_id: Address,
    token_id: Address,
    registry_id: Address,
    xlm_id: Address,
    xlm: BTreeMap<u64, i128>,
    live_until: BTreeMap<String, u32>,
    events: Vec<Event>,
}

impl Env {
    fn new() -> Env {
        let id = |n: u64| Address { id: n };
        Env {
            chain: Rc::new(RefCell::new(Chain {
                timestamp: 1_000_000,
                sequence: 100,
                last_id: 10,
                board: LeaderboardContract::new(),
                token: PULSETokenContract::new(),
                registry: ReferralRegistryContract::new(),
                board_id: id(2),
                token_id: id(3),
                registry_id: id(4),
                xlm_id: id(5),
                xlm: BTreeMap::new(),
                live_until: BTreeMap::new(),
                events: Vec::new(),
            })),
        }
    }

    fn generate(&self) -> Address {
        let mut chain = self.chain.borrow_mut();
        chain.last_id += 1;
        Address { id: chain.last_id }
    }

    fn timestamp(&self) -> u64 {
        self.chain.borrow().timestamp
    }

    fn sequence(&self) -> u32 {
        self.chain.borrow().sequence
    }

    fn set_timestamp(&self, timestamp: u64) {
        self.chain.borrow_mut().timestamp = timestamp;
    }

    fn set_sequence(&self, sequence: u32) {
        self.chain.borrow_mut().sequence = sequence;
    }

    /// A step that fails leaves no trace.
    fn attempt<R>(&self, step: impl FnOnce(&mut Chain) -> Result<R, String>) -> Result<R, String> {
        let before = self.chain.borrow().clone();
        let r = step(&mut self.chain.borrow_mut());
        if r.is_err() {
            *self.chain.borrow_mut() = before;
        }
        r
    }

    /// How long an entry of a contract still lives, in ledgers.
    fn ttl(&self, contract: Address, key: &impl Debug) -> u32 {
        let chain = self.chain.borrow();
        let name = format!("{:?} {:?}", contract, key);
        chain.live_until.get(&name).map_or(0, |end| end.saturating_sub(chain.sequence))
    }

    fn instance_ttl(&self, contract: Address) -> u32 {
        self.ttl(contract, &"instance")
    }

    fn last_event(&self) -> Event {
        *self.chain.borrow().events.last().unwrap()
    }
}

impl Chain {
    fn ledger(&self, this: Address) -> Ledger {
        Ledger { timestamp: self.timestamp, sequence: self.sequence, this }
    }

    fn renew(&mut self, contract: Address, key: &impl Debug) {
        let name = format!("{:?} {:?}", contract, key);
        let end = self.live_until.entry(name).or_insert(self.sequence);
        if end.saturating_sub(self.sequence) < TTL_BUMP {
            *end = self.sequence + TTL_HIGH;
        }
    }

    fn xlm_of(&self, who: Address) -> i128 {
        self.xlm.get(&who.id).copied().unwrap_or(0)
    }

    /// Do what a call that was made at a contract asks for.
    fn settle<K: Debug>(&mut self, at: Address, call: Call<K>) -> Result<(), String> {
        for key in call.renewed.iter() {
            self.renew(at, key);
        }
        if call.instance_renewed {
            self.renew(at, &"instance");
        }
        for effect in call.effects.iter() {
            self.carry_out(at, *effect)?;
        }
        Ok(())
    }

    fn carry_out(&mut self, at: Address, effect: Effect) -> Result<(), String> {
        let token_version = Some(self.token.interface_version());
        match effect {
            Effect::Transfer { asset, from, to, amount } => {
                if asset != self.xlm_id || self.xlm_of(from) < amount {
                    return Err(String::from("transfer failed"));
                }
                let left = self.xlm_of(from) - amount;
                self.xlm.insert(from.id, left);
                let got = self.xlm_of(to) + amount;
                self.xlm.insert(to.id, got);
                Ok(())
            }
            Effect::RewardBonus { leaderboard, user, pts, tokens } => {
                self.expect(leaderboard, self.board_id)?;
                let mut call = Call::new(self.ledger(self.board_id));
                self.board
                    .reward_bonus(&mut call, at, user, pts, tokens, token_version)
                    .map_err(|e| format!("{:?}", e))?;
                self.settle(self.board_id, call)
            }
            Effect::AddBonusPts { leaderboard, user, pts } => {
                self.expect(leaderboard, self.board_id)?;
                let mut call = Call::new(self.ledger(self.board_id));
                self.board
                    .add_bonus_pts(&mut call, at, user, pts)
                    .map_err(|e| format!("{:?}", e))?;
                self.settle(self.board_id, call)
            }
            Effect::Mint { token, to, amount } => {
                self.expect(token, self.token_id)?;
                let mut call = Call::new(self.ledger(self.token_id));
                self.token.mint(&mut call, at, to, amount).map_err(|e| format!("{:?}", e))?;
                self.settle(self.token_id, call)
            }
            Effect::Publish(event) => {
                self.events.push(event);
                Ok(())
            }
            _ => Ok(()),
        }
    }

    fn expect(&self, contract: Address, known: Address) -> Result<(), String> {
        if contract == known {
            Ok(())
        } else {
            Err(String::from("no such function"))
        }
    }
}

struct RegistryClient {
    env: Env,
    address: Address,
}

impl RegistryClient {
    fn run<R, E: Debug>(
        &self,
        call: impl FnOnce(&mut ReferralRegistryContract, &mut Call<RegistryKey>) -> Result<R, E>,
    ) -> Result<R, String> {
        self.env.attempt(|chain| {
            let mut made: Call<RegistryKey> = Call::new(chain.ledger(chain.registry_id));
            let r = call(&mut chain.registry, &mut made).map_err(|e| format!("{:?}", e))?;
            chain.settle(chain.registry_id, made)?;
            Ok(r)
        })
    }

    fn try_initialize(&self, admin: &Address, market: &Address, token: &Address, leaderboard: &Address, xlm_sac: &Address) -> Result<(), String> {
        self.run(|contract, call| contract.initialize(call, *admin, *market, *token, *leaderboard, *xlm_sac))
    }

    fn initialize(&self, admin: &Address, market: &Address, token: &Address, leaderboard: &Address, xlm_sac: &Address) {
        self.try_initialize(admin, market, token, leaderboard, xlm_sac).unwrap_or_else(|e| panic!("{}", e))
    }

    fn try_pause(&self, admin: &Address) -> Result<(), String> {
        self.run(|contract, call| contract.pause(call, *admin))
    }

    fn pause(&self, admin: &Address) {
        self.try_pause(admin).unwrap_or_else(|e| panic!("{}", e))
    }

    fn try_unpause(&self, admin: &Address) -> Result<(), String> {
        self.run(|contract, call| contract.unpause(call, *admin))
    }

    fn unpause(&self, admin: &Address) {
        self.try_unpause(admin).unwrap_or_else(|e| panic!("{}", e))
    }

    fn try_set_paused(&self, admin: &Address, paused: &bool) -> Result<(), String> {
        self.run(|contract, call| contract.set_paused(call, *admin, *paused))
    }

    fn set_paused(&self, admin: &Address, paused: &bool) {
        self.try_set_paused(admin, paused).unwrap_or_else(|e| panic!("{}", e))
    }

    fn is_paused(&self) -> bool {
        self.env.chain.borrow().registry.is_paused()
    }

    fn paused(&self) -> bool {
        self.env.chain.borrow().registry.paused()
    }

    fn interface_version(&self) -> u32 {
        self.env.chain.borrow().registry.interface_version()
    }

    fn try_set_token_contract(&self, admin: &Address, token: &Address) -> Result<(), String> {
        self.run(|contract, call| contract.set_token_contract(call, *admin, *token))
    }

    fn set_token_contract(&self, admin: &Address, token: &Address) {
        self.try_set_token_contract(admin, token).unwrap_or_else(|e| panic!("{}", e))
    }

    fn try_revoke_trust(&self, admin: &Address, role: &String) -> Result<(), String> {
        self.run(|contract, call| contract.revoke_trust(call, *admin, role.clone()))
    }

    fn revoke_trust(&self, admin: &Address, role: &String) {
        self.try_revoke_trust(admin, role).unwrap_or_else(|e| panic!("{}", e))
    }

    fn try_restore_trust(&self, admin: &Address, role: &String) -> Result<(), String> {
        self.run(|contract, call| contract.restore_trust(call, *admin, role.clone()))
    }

    fn restore_trust(&self, admin: &Address, role: &String) {
        self.try_restore_trust(admin, role).unwrap_or_else(|e| panic!("{}", e))
    }

    fn is_trust_revoked(&self, role: &String) -> bool {
        self.env.chain.borrow().registry.is_trust_revoked(role.clone())
    }

    fn try_register(&self, caller: &Address, name: &String) -> Result<(), String> {
        self.run(|contract, call| contract.register(call, *caller, name.clone()))
    }

    fn register(&self, caller: &Address, name: &String) {
        self.try_register(caller, name).unwrap_or_else(|e| panic!("{}", e))
    }

    fn try_register_referral(&self, user: &Address, name: &String, referrer: &Option<Address>) -> Result<(), String> {
        let version = Some(self.env.chain.borrow().board.interface_version());
        self.run(|contract, call| contract.register_referral(call, *user, name.clone(), *referrer, version))
    }

    fn register_referral(&self, user: &Address, name: &String, referrer: &Option<Address>) {
        self.try_register_referral(user, name, referrer).unwrap_or_else(|e| panic!("{}", e))
    }

    fn referral_depth(&self, who: &Address) -> u32 {
        self.env.chain.borrow().registry.referral_depth(*who)
    }

    fn try_credit(&self, caller: &Address, user: &Address, fee: &i128) -> Result<bool, String> {
        let version = Some(self.env.chain.borrow().board.interface_version());
        self.run(|contract, call| contract.credit(call, *caller, *user, *fee, version))
    }

    fn credit(&self, caller: &Address, user: &Address, fee: &i128) -> bool {
        self.try_credit(caller, user, fee).unwrap_or_else(|e| panic!("{}", e))
    }

    fn get_referrer(&self, user: &Address) -> Option<Address> {
        self.env.chain.borrow().registry.get_referrer(*user)
    }

    fn get_referrer_count(&self, referrer: &Address) -> u32 {
        self.env.chain.borrow().registry.get_referrer_count(*referrer)
    }

    fn get_earnings(&self, referrer: &Address) -> i128 {
        self.env.chain.borrow().registry.get_earnings(*referrer)
    }

    fn is_registered(&self, user: &Address) -> bool {
        self.env.chain.borrow().registry.is_registered(*user)
    }

    fn get_display_name(&self, user: &Address) -> Option<String> {
        self.env.chain.borrow().registry.get_display_name(*user)
    }
}

struct BoardClient {
    env: Env,
    address: Address,
}

impl BoardClient {
    fn run<R, E: Debug>(
        &self,
        call: impl FnOnce(&mut LeaderboardContract, &mut Call<BoardKey>) -> Result<R, E>,
    ) -> Result<R, String> {
        self.env.attempt(|chain| {
            let mut made: Call<BoardKey> = Call::new(chain.ledger(chain.board_id));
            let r = call(&mut chain.board, &mut made).map_err(|e| format!("{:?}", e))?;
            chain.settle(chain.board_id, made)?;
            Ok(r)
        })
    }

    fn try_initialize(&self, admin: &Address, market: &Address, referral: &Address) -> Result<(), String> {
        self.run(|contract, call| contract.initialize(call, *admin, *market, *referral))
    }

    fn initialize(&self, admin: &Address, market: &Address, referral: &Address) {
        self.try_initialize(admin, market, referral).unwrap_or_else(|e| panic!("{}", e))
    }

    fn try_set_token_contract(&self, admin: &Address, token: &Address) -> Result<(), String> {
        self.run(|contract, call| contract.set_token_contract(call, *admin, *token))
    }

    fn set_token_contract(&self, admin: &Address, token: &Address) {
        self.try_set_token_contract(admin, token).unwrap_or_else(|e| panic!("{}", e))
    }

    fn get_points(&self, user: &Address) -> u64 {
        let chain = self.env.chain.borrow();
        let at: Call<BoardKey> = Call::new(chain.ledger(chain.board_id));
        chain.board.get_points(&at, *user)
    }
}

struct TokenClient {
    env: Env,
    address: Address,
}

impl TokenClient {
    fn run<R, E: Debug>(
        &self,
        call: impl FnOnce(&mut PULSETokenContract, &mut Call<TokenKey>) -> Result<R, E>,
    ) -> Result<R, String> {
        self.env.attempt(|chain| {
            let mut made: Call<TokenKey> = Call::new(chain.ledger(chain.token_id));
            let r = call(&mut chain.token, &mut made).map_err(|e| format!("{:?}", e))?;
            chain.settle(chain.token_id, made)?;
            Ok(r)
        })
    }

    fn try_initialize(&self, admin: &Address, name: &String, symbol: &String, decimals: &u32) -> Result<(), String> {
        self.run(|contract, call| contract.initialize(call, *admin, name.clone(), symbol.clone(), *decimals, i128::MAX))
    }

    fn initialize(&self, admin: &Address, name: &String, symbol: &String, decimals: &u32) {
        self.try_initialize(admin, name, symbol, decimals).unwrap_or_else(|e| panic!("{}", e))
    }

    fn try_set_minter(&self, minter: &Address) -> Result<(), String> {
        self.run(|contract, call| contract.set_minter(call, *minter))
    }

    fn set_minter(&self, minter: &Address) {
        self.try_set_minter(minter).unwrap_or_else(|e| panic!("{}", e))
    }

    fn balance(&self, account: &Address) -> i128 {
        self.env.chain.borrow().token.balance(*account)
    }
}

struct XlmClient {
    env: Env,
}

impl XlmClient {
    fn balance(&self, who: &Address) -> i128 {
        self.env.chain.borrow().xlm_of(*who)
    }

    fn mint(&self, to: &Address, amount: &i128) {
        let mut chain = self.env.chain.borrow_mut();
        let got = chain.xlm_of(*to) + *amount;
        chain.xlm.insert(to.id, got);
    }
}

struct TestSetup {
    env: Env,
    client: RegistryClient,
    admin: Address,
    market: Address,
    token_client: TokenClient,
    leaderboard_client: BoardClient,
    xlm: XlmClient,
}

fn setup() -> TestSetup {
    let env = Env::new();
    let admin = env.generate();
    let market = env.generate();
    let (leaderboard_id, token_id, referral_id, xlm_sac_id) = {
        let chain = env.chain.borrow();
        (chain.board_id, chain.token_id, chain.registry_id, chain.xlm_id)
    };
    let token_client = TokenClient { env: env.clone(), address: token_id };
    token_client.initialize(&admin, &String::from("PULSE"), &String::from("PLSE"), &7u32);
    let leaderboard_client = BoardClient { env: env.clone(), address: leaderboard_id };
    let client = RegistryClient { env: env.clone(), address: referral_id };
    leaderboard_client.initialize(&admin, &market, &referral_id);
    client.initialize(&admin, &market, &token_id, &leaderboard_id, &xlm_sac_id);
    leaderboard_client.set_token_contract(&admin, &token_id);
    token_client.set_minter(&leaderboard_id);
    token_client.set_minter(&referral_id);
    token_client.set_minter(&market);
    let xlm = XlmClient { env: env.clone() };
    xlm.mint(&referral_id, &1000_0000000);
    TestSetup { env, client, admin, market, token_client, leaderboard_client, xlm }
}

#[test]
fn test_initialize() {
    let t = setup();
    assert_eq!(t.client.interface_version(), 1);
    assert!(!t.client.is_paused());
}

#[test]
fn test_register_referral_without_referrer() {
    let t = setup();
    let user = t.env.generate();

    t.client.register_referral(
        &user,
        &String::from("User"),
        &Option::<Address>::None,
    );

    assert_eq!(t.client.get_referrer(&user), None);
    assert_eq!(
        t.client.get_display_name(&user),
        Some(String::from("User"))
    );
}

#[test]
fn test_register_referral_with_referrer() {
    let t = setup();
    let referrer = t.env.generate();
    let user = t.env.generate();

    t.client.register_referral(
        &referrer,
        &String::from("Referrer"),
        &Option::<Address>::None,
    );

    t.client.register_referral(
        &user,
        &String::from("User"),
        &Some(referrer.clone()),
    );

    assert_eq!(t.client.get_referrer(&user), Some(referrer.clone()));
    assert_eq!(t.client.get_referrer_count(&referrer), 1);
}

#[test]
fn test_credit_with_referrer_pays_referrer() {
    let t = setup();
    let referrer = t.env.generate();
    let user = t.env.generate();

    t.client.register_referral(
        &referrer,
        &String::from("Referrer"),
        &Option::<Address>::None,
    );
    t.client.register_referral(
        &user,
        &String::from("User"),
        &Some(referrer.clone()),
    );

    let referral_fee = 5_0000000_i128;
    let referrer_balance_before = t.xlm.balance(&referrer);

    let paid = t.client.credit(&t.market, &user, &referral_fee);
    assert_eq!(paid, true);

    assert_eq!(
        t.xlm.balance(&referrer),
        referrer_balance_before + referral_fee
    );
    assert_eq!(t.client.get_earnings(&referrer), referral_fee);
}

#[test]
fn test_credit_without_referrer_returns_to_bettor() {
    let t = setup();
    let user = t.env.generate();

    t.client.register_referral(
        &user,
        &String::from("User"),
        &Option::<Address>::None,
    );

    let referral_fee = 5_0000000_i128;
    let user_balance_before = t.xlm.balance(&user);

    let paid = t.client.credit(&t.market, &user, &referral_fee);
    assert_eq!(paid, false);

    assert_eq!(t.xlm.balance(&user), user_balance_before + referral_fee);
}

#[test]
fn test_register_referral_rejects_unregistered_referrer() {
    let t = setup();
    let referrer = t.env.generate();
    let user = t.env.generate();

    // `referrer` has never called register_referral, so it has no Referrer
    // entry of its own yet -- citing it must fail, not silently succeed.
    let result = t.client.try_register_referral(
        &user,
        &String::from("User"),
        &Some(referrer.clone()),
    );
    assert!(
        result.is_err(),
        "registering with an unregistered referrer must be rejected"
    );
    assert_eq!(t.client.get_referrer(&user), None);

    // Once the referrer legitimately registers first, the same call succeeds.
    t.client.register_referral(
        &referrer,
        &String::from("Referrer"),
        &Option::<Address>::None,
    );

    t.client.register_referral(
        &user,
        &String::from("User"),
        &Some(referrer.clone()),
    );
    assert_eq!(t.client.get_referrer(&user), Some(referrer));
}

#[test]
#[should_panic(expected = "UnauthorizedCaller")]
fn test_credit_rejects_non_market_caller() {
    let t = setup();
    let user = t.env.generate();
    let rando = t.env.generate();

    t.client.register_referral(
        &user,
        &String::from("User"),
        &Option::<Address>::None,
    );

    t.client.credit(&rando, &user, &5_0000000_i128);
}

#[test]
#[should_panic(expected = "AlreadyRegistered")]
fn test_register_referral_rejects_double_registration() {
    let t = setup();
    let user = t.env.generate();

    t.client.register_referral(
        &user,
        &String::from("User"),
        &Option::<Address>::None,
    );
    t.client.register_referral(
        &user,
        &String::from("User"),
        &Option::<Address>::None,
    );
}

#[test]
#[should_panic(expected = "SelfReferral")]
fn test_register_referral_rejects_self_referral() {
    let t = setup();
    let user = t.env.generate();

    t.client.register_referral(
        &user,
        &String::from("User"),
        &Some(user.clone()),
    );
}

#[test]
fn test_referral_depth_limit() {
    let t = setup();
    let max_depth = 5;

    let mut users: Vec<Address> = Vec::new();
    for _ in 0..(max_depth + 2) {
        users.push(t.env.generate());
    }

    t.client.register_referral(
        &users[0],
        &String::from("U0"),
        &Option::<Address>::None,
    );

    // referral_depth(ref_addr) counts hops from ref_addr back to the chain
    // root: users[0] (no referrer) sits at depth 0, and each subsequent
    // registration in this chain is one hop deeper, so users[k] sits at
    // depth == k. register_referral rejects a new registration once its
    // cited referrer's depth + 1 >= MAX_REFERRAL_DEPTH. At loop iteration i,
    // the referrer is users[i-1], at depth i-1, so the check becomes
    // i >= MAX_REFERRAL_DEPTH -- i.e. rejection first fires exactly at
    // i == max_depth (the max_depth-th registration), not one hop later.
    for i in 1..=max_depth {
        let referrer = users[i - 1];
        let user = users[i];
        if i == max_depth {
            let result = t.client.try_register_referral(
                &user,
                &String::from("U"),
                &Some(referrer.clone()),
            );
            assert!(result.is_err(), "should fail at depth limit");
        } else {
            t.client.register_referral(
                &user,
                &String::from("U"),
                &Some(referrer.clone()),
            );
        }
    }
}

#[test]
fn test_pause_unpause() {
    let t = setup();
    let user = t.env.generate();

    t.client.pause(&t.admin);
    assert!(t.client.is_paused());
    assert!(t.client.paused());

    let result = t.client.try_register_referral(
        &user,
        &String::from("User"),
        &Option::<Address>::None,
    );
    assert!(result.is_err());

    t.client.unpause(&t.admin);
    assert!(!t.client.is_paused());
    assert!(!t.client.paused());

    t.client.register_referral(
        &user,
        &String::from("User"),
        &Option::<Address>::None,
    );
    assert_eq!(t.client.get_referrer(&user), None);
}

#[test]
fn test_set_paused_flow() {
    let t = setup();
    assert!(!t.client.paused());

    t.client.set_paused(&t.admin, &true);
    assert!(t.client.paused());
    assert!(t.client.is_paused());

    let user = t.env.generate();
    let reg_result = t.client.try_register_referral(
        &user,
        &String::from("User"),
        &Option::<Address>::None,
    );
    assert!(reg_result.is_err());

    let cred_result = t.client.try_credit(&t.market, &user, &100_i128);
    assert!(cred_result.is_err());

    t.client.set_paused(&t.admin, &false);
    assert!(!t.client.paused());
}

#[test]
fn test_set_paused_rejects_non_admin() {
    let t = setup();
    let rando = t.env.generate();
    let result = t.client.try_set_paused(&rando, &true);
    assert!(result.is_err());
}

#[test]
fn test_set_token_contract() {
    let t = setup();
    let new_token = t.env.generate();

    t.client.set_token_contract(&t.admin, &new_token);
}

#[test]
fn registering_pays_the_welcome_bonus_once() {
    let t = setup();
    let user = t.env.generate();
    let referrer = t.env.generate();
    t.client.register_referral(&referrer, &String::from("Ref"), &None);
    t.client.register_referral(&user, &String::from("User"), &None);
    assert_eq!(t.leaderboard_client.get_points(&user), 5);
    assert_eq!(t.token_client.balance(&user), 1_0000000);
    t.client.register_referral(&user, &String::from("Other"), &Some(referrer));
    assert_eq!(t.leaderboard_client.get_points(&user), 5);
    assert_eq!(t.token_client.balance(&user), 1_0000000);
    // The first name stays.
    assert_eq!(t.client.get_display_name(&user), Some(String::from("User")));
    assert_eq!(t.client.get_referrer(&user), Some(referrer));
    assert_eq!(
        t.client.try_register_referral(&user, &String::from("User"), &Some(referrer)),
        Err(String::from("AlreadyRegistered"))
    );
}

#[test]
fn a_credit_gives_the_referrer_the_fee_and_points() {
    let t = setup();
    let (user, referrer) = (t.env.generate(), t.env.generate());
    t.client.register_referral(&referrer, &String::from("Ref"), &None);
    t.client.register_referral(&user, &String::from("User"), &Some(referrer));
    assert!(t.client.credit(&t.market, &user, &100));
    assert!(t.client.credit(&t.market, &user, &23));
    assert_eq!(t.client.get_earnings(&referrer), 123);
    assert_eq!(t.client.get_earnings(&user), 0);
    assert_eq!(t.xlm.balance(&referrer), 123);
    assert_eq!(t.leaderboard_client.get_points(&referrer), 5 + 3 + 3);
    assert_eq!(t.client.try_credit(&t.market, &user, &0), Err(String::from("InvalidAmount")));
}

#[test]
fn names_are_at_most_sixty_four_bytes_and_stick() {
    let t = setup();
    let (a, b) = (t.env.generate(), t.env.generate());
    let long = "x".repeat(65);
    assert_eq!(t.client.try_register(&a, &long), Err(String::from("DisplayNameTooLong")));
    assert_eq!(
        t.client.try_register_referral(&a, &long, &None),
        Err(String::from("DisplayNameTooLong"))
    );
    let fits = "x".repeat(64);
    t.client.register(&a, &fits);
    assert_eq!(t.client.get_display_name(&a), Some(fits));
    assert!(t.client.is_registered(&a));
    assert_eq!(
        t.client.try_register(&a, &String::from("again")),
        Err(String::from("AlreadyInitialized"))
    );
    // Length is counted in bytes.
    assert_eq!(
        t.client.try_register(&b, &"\u{e9}".repeat(33)),
        Err(String::from("DisplayNameTooLong"))
    );
    assert_eq!(t.client.get_display_name(&b), None);
    assert!(!t.client.is_registered(&b));
}

#[test]
fn the_admin_has_an_empty_profile_and_sets_up_once() {
    let t = setup();
    assert_eq!(t.client.get_display_name(&t.admin), Some(String::new()));
    let other = t.env.generate();
    assert_eq!(
        t.client.try_initialize(&other, &other, &other, &other, &other),
        Err(String::from("AlreadyInitialized"))
    );
}

#[test]
fn chains_are_shorter_than_the_limit() {
    let t = setup();
    let users: Vec<Address> = (0..6).map(|_| t.env.generate()).collect();
    t.client.register_referral(&users[0], &String::from("U"), &None);
    for i in 1..5 {
        t.client.register_referral(&users[i], &String::from("U"), &Some(users[i - 1]));
        assert_eq!(t.client.referral_depth(&users[i]), i as u32);
    }
    assert_eq!(
        t.client.try_register_referral(&users[5], &String::from("U"), &Some(users[4])),
        Err(String::from("ReferralTooDeep"))
    );
    assert_eq!(t.client.get_referrer_count(&users[0]), 1);
    assert_eq!(t.client.get_referrer_count(&users[4]), 0);
}

#[test]
fn revoked_roles_refuse_what_depends_on_them() {
    let t = setup();
    let (user, referrer, rando) = (t.env.generate(), t.env.generate(), t.env.generate());
    t.client.register_referral(&referrer, &String::from("Ref"), &None);
    t.client.register_referral(&user, &String::from("User"), &Some(referrer));
    let refused = String::from("TrustRevoked");
    for name in ["market", "xlm_sac", "leaderboard"] {
        let role = String::from(name);
        t.client.revoke_trust(&t.admin, &role);
        assert!(t.client.is_trust_revoked(&role));
        assert_eq!(t.client.try_credit(&t.market, &user, &100), Err(refused.clone()));
        let fresh = t.env.generate();
        let asked = t.client.try_register_referral(&fresh, &String::from("F"), &None);
        assert_eq!(asked.is_err(), name == "leaderboard");
        assert_eq!(t.client.get_referrer(&user), Some(referrer));
        t.client.restore_trust(&t.admin, &role);
    }
    // Without a referrer the leaderboard is not needed.
    t.client.revoke_trust(&t.admin, &String::from("leaderboard"));
    assert!(!t.client.credit(&t.market, &referrer, &100));
    // Nothing depends on the token, and a new address restores nothing.
    t.client.revoke_trust(&t.admin, &String::from("token"));
    t.client.set_token_contract(&t.admin, &rando);
    assert!(t.client.is_trust_revoked(&String::from("token")));
    assert_eq!(
        t.client.try_revoke_trust(&t.admin, &String::from("oracle")),
        Err(String::from("InvalidRole"))
    );
    assert_eq!(
        t.client.try_revoke_trust(&rando, &String::from("token")),
        Err(String::from("NotAdmin"))
    );
}

#[test]
fn a_paused_registry_says_so() {
    let t = setup();
    let user = t.env.generate();
    t.client.pause(&t.admin);
    let paused = String::from("ContractPaused");
    assert_eq!(
        t.client.try_register_referral(&user, &String::from("U"), &None),
        Err(paused.clone())
    );
    assert_eq!(t.client.try_credit(&t.market, &user, &1), Err(paused));
}

#[test]
fn a_leaderboard_that_is_old_or_silent_gets_no_bonuses() {
    let mut registry = ReferralRegistryContract::new();
    let who = |n: u64| Address { id: n };
    let at = Ledger { timestamp: 0, sequence: 1, this: who(1) };
    let mut call = Call::new(at);
    let user = who(9);
    assert_eq!(
        registry.register_referral(&mut call, user, String::from("U"), None, Some(1)),
        Err(ReferralRegistryError::NotInitialized)
    );
    assert_eq!(
        registry.credit(&mut call, who(3), user, 5, Some(1)),
        Err(ReferralRegistryError::NotInitialized)
    );
    registry.initialize(&mut call, who(2), who(3), who(4), who(5), who(6)).unwrap();
    assert_eq!(
        registry.register_referral(&mut call, user, String::from("U"), None, None),
        Err(ReferralRegistryError::InterfaceVersionMissing)
    );
    assert_eq!(
        registry.register_referral(&mut call, user, String::from("U"), None, Some(0)),
        Err(ReferralRegistryError::IncompatibleInterface)
    );
    registry.register_referral(&mut call, user, String::from("U"), None, Some(1)).unwrap();
    registry.register_referral(&mut call, who(10), String::from("V"), Some(user), Some(1)).unwrap();
    assert_eq!(
        registry.credit(&mut call, who(3), who(10), 5, None),
        Err(ReferralRegistryError::InterfaceVersionMissing)
    );
    assert_eq!(registry.credit(&mut call, who(3), user, 5, None), Ok(false));
    assert_eq!(ReferralRegistryError::DisplayNameTooLong.code(), 1);
    assert_eq!(ReferralRegistryError::SelfReferral.code(), 7);
    assert_eq!(ReferralRegistryError::InvalidAmount.code(), 15);
}
