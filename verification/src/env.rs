//! What a call sees of the ledger, and what it asks of the host.
use crate::address::{Address, WasmHash};
use vstd::prelude::*;

verus! {

/// A stored entry with less time to live than this, in ledgers, is renewed
/// (about a year at five seconds a ledger).
pub const TTL_BUMP: u32 = 3_153_600;

/// The time to live that a renewal sets, in ledgers (about two years).
pub const TTL_HIGH: u32 = 6_307_200;

/// Something published for observers of the ledger.
#[derive(Clone, Copy, Debug, PartialEq, Eq)]
pub enum Event {
    Minted { minter: Address, to: Address, amount: i128 },
    Paused { admin: Address },
    Unpaused { admin: Address },
    /// A settled bet was scored.
    BetScored { user: Address, points: u64, won_bets: u32, lost_bets: u32 },
    /// A bonus was scored.
    BonusScored { user: Address, points: u64, bonus_bets: u32 },
    /// Points were taken away.
    Penalized { user: Address, points: u64 },
    PlayerRemoved { admin: Address, user: Address },
    PlayerBanned { admin: Address, user: Address },
    PlayerReset { admin: Address, user: Address },
    MarketCreated { market_id: u64, creator: Address, end_time: u64 },
    BetPlaced { market_id: u64, user: Address, is_yes: bool, amount: i128 },
    MarketResolved { market_id: u64, outcome: bool },
}

/// One thing the host has to do for a call to take effect. If it cannot do all
/// of them the call as a whole has no effect.
#[derive(Clone, Copy, Debug, PartialEq, Eq)]
pub enum Effect {
    /// The address must have authorized this call.
    RequireAuth(Address),
    /// Replace the code of the running contract.
    UpdateWasm(WasmHash),
    /// Keep an allowance alive for this many further ledgers.
    KeepAllowance { from: Address, spender: Address, ledgers: u32 },
    /// Move an amount of an asset between two holders.
    Transfer { asset: Address, from: Address, to: Address, amount: i128 },
    /// Tell the referral contract of the share it was sent for a bettor. It
    /// keeps it for the bettor's referrer or returns it to the bettor.
    Credit { referral: Address, user: Address, fee: i128 },
    /// Have the leaderboard score a won bet.
    Reward { leaderboard: Address, user: Address, points: u64, tokens: i128, is_winner: bool },
    /// Have the leaderboard count a bet.
    AddPts { leaderboard: Address, user: Address, pts: u64, is_won: bool },
    /// Have the leaderboard take points away.
    Penalize { leaderboard: Address, user: Address, points: u64 },
    /// Have the leaderboard score a bonus and mint tokens for it.
    RewardBonus { leaderboard: Address, user: Address, pts: u64, tokens: i128 },
    /// Have the leaderboard score a bonus.
    AddBonusPts { leaderboard: Address, user: Address, pts: u64 },
    /// Have the token contract mint, with the running contract as the minter.
    Mint { token: Address, to: Address, amount: i128 },
    Publish(Event),
}

/// The ledger position of a call and the address of the contract it runs in.
#[derive(Clone, Copy, Debug, PartialEq, Eq)]
pub struct Ledger {
    pub timestamp: u64,
    pub sequence: u32,
    pub this: Address,
}

/// The ledger position of a call and the record of what it asks of the host.
/// `K` names the entries of the contract's storage.
#[derive(Clone, Debug)]
pub struct Env<K> {
    pub ledger: Ledger,
    /// What the host has to do, in order.
    pub effects: Vec<Effect>,
    /// Stored entries to renew.
    pub renewed: Vec<K>,
    /// Whether the contract instance itself is to be renewed.
    pub instance_renewed: bool,
}

/// What a call that succeeds leaves behind: the contract's new state, the value
/// returned, and what the host is asked for.
#[verifier::reject_recursive_types(K)]
pub struct Outcome<M, K, R> {
    pub state: M,
    pub value: R,
    pub effects: Seq<Effect>,
    pub renewed: Set<K>,
    pub instance_renewed: bool,
}

/// A call did what `expected` says: on success it committed exactly that
/// outcome, on failure it returned that error and left no trace.
pub open spec fn settles<M, K, R, E>(
    expected: Result<Outcome<M, K, R>, E>,
    state: (M, M),
    env: (Env<K>, Env<K>),
    returned: Result<R, E>,
) -> bool {
    match expected {
        Ok(outcome) => {
            &&& returned == Ok::<R, E>(outcome.value)
            &&& state.1 == outcome.state
            &&& env.1.asks(env.0, outcome.effects, outcome.renewed, outcome.instance_renewed)
        },
        Err(e) => {
            &&& returned == Err::<R, E>(e)
            &&& state.1 == state.0
            &&& env.1 == env.0
        },
    }
}

/// A call that settles on success returns the value, leaves the state, and asks for the
/// effects behind those asked for before, in order and nothing else, with the renewals
/// that were owed; one that settles on an error returns it and leaves no trace.
pub proof fn law_calls_commit_or_leave_no_trace<M, K, R, E>(
    expected: Result<Outcome<M, K, R>, E>,
    state: (M, M),
    env: (Env<K>, Env<K>),
    returned: Result<R, E>,
    i: int,
    key: K,
)
    requires
        settles(expected, state, env, returned),
    ensures
        expected matches Err(e) ==> returned == Err::<R, E>(e) && state.1 == state.0 && env.1
            == env.0,
        expected matches Ok(o) ==> {
            let before = env.0.effects@.len();
            &&& returned == Ok::<R, E>(o.value)
            &&& state.1 == o.state
            &&& env.1.ledger == env.0.ledger
            &&& env.1.effects@.len() == before + o.effects.len()
            &&& 0 <= i < before ==> env.1.effects@[i] == env.0.effects@[i]
            &&& 0 <= i < o.effects.len() ==> env.1.effects@[before + i] == o.effects[i]
            &&& env.1.renewed@.contains(key) == (env.0.renewed@.contains(key)
                || o.renewed.contains(key))
            &&& env.1.instance_renewed == (env.0.instance_renewed || o.instance_renewed)
        },
{
    if let Ok(o) = expected {
        let after = env.1.renewed@.to_set();
        assert(after == env.0.renewed@.to_set().union(o.renewed));
        assert(after.contains(key) == env.1.renewed@.contains(key));
        assert(env.0.renewed@.to_set().contains(key) == env.0.renewed@.contains(key));
    }
}

impl<K> Env<K> {
    /// The environment of a call that has asked for nothing yet.
    pub fn new(ledger: Ledger) -> (env: Self)
        ensures
            env.ledger == ledger,
            env.effects@ == Seq::<Effect>::empty(),
            env.renewed@ == Seq::<K>::empty(),
            env.instance_renewed == false,
    {
        Env { ledger, effects: Vec::new(), renewed: Vec::new(), instance_renewed: false }
    }

    /// This is `before` after further asking for `effects`, the renewal of the
    /// entries in `keys` and, where `instance` says so, of the instance.
    pub open spec fn asks(
        self,
        before: Self,
        effects: Seq<Effect>,
        keys: Set<K>,
        instance: bool,
    ) -> bool {
        &&& self.ledger == before.ledger
        &&& self.effects@ =~= before.effects@ + effects
        &&& self.renewed@.to_set() =~= before.renewed@.to_set().union(keys)
        &&& self.instance_renewed == (before.instance_renewed || instance)
    }

    /// Record one thing for the host to do.
    pub fn ask(&mut self, effect: Effect)
        ensures
            final(self).asks(*old(self), seq![effect], Set::empty(), false),
    {
        self.effects.push(effect);
        assert(self.effects@ =~= old(self).effects@ + seq![effect]);
        assert(self.renewed@.to_set() =~= old(self).renewed@.to_set().union(Set::empty()));
    }

    /// Record that a stored entry is to be renewed.
    pub fn renew(&mut self, key: K)
        ensures
            final(self).asks(*old(self), Seq::empty(), set![key], false),
    {
        let ghost before = self.renewed@;
        self.renewed.push(key);
        proof {
            lemma_push_to_set(before, key);
            assert(self.effects@ =~= old(self).effects@ + Seq::<Effect>::empty());
        }
    }

    /// Record that the contract instance is to be renewed.
    pub fn renew_instance(&mut self)
        ensures
            final(self).asks(*old(self), Seq::empty(), Set::empty(), true),
    {
        self.instance_renewed = true;
        assert(self.effects@ =~= old(self).effects@ + Seq::<Effect>::empty());
        assert(self.renewed@.to_set() =~= old(self).renewed@.to_set().union(Set::empty()));
    }
}

proof fn lemma_push_to_set<K>(s: Seq<K>, k: K)
    ensures
        s.push(k).to_set() == s.to_set().union(set![k]),
{
    let p = s.push(k);
    assert forall|x: K| p.contains(x) == (s.contains(x) || x == k) by {
        if s.contains(x) {
            let i = choose|i: int| 0 <= i < s.len() && s[i] == x;
            assert(p[i] == x);
        }
        if x == k {
            assert(p[s.len() as int] == x);
        }
    }
    assert(p.to_set() =~= s.to_set().union(set![k]));
}

} // verus!
