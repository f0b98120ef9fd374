//! State of the leaderboard contract and the meaning of each entry point.
use crate::address::Address;
use crate::env::{Effect, Event, Ledger, Outcome};
use crate::leaderboard::decay::{decayed, epoch_of, periods_since};
use crate::leaderboard::top_model::{above, pair, pairs, Top, TopList};
use crate::leaderboard::types::{
    DataKey, LeaderboardError, PendingReward, Role, StoredStats,
    EXPECTED_TOKEN_INTERFACE_VERSION, INTERFACE_VERSION, UNRANKED_RANK,
};
use crate::table::{find, lookup, Table};
use vstd::prelude::*;

verus! {

/// The leaderboard contract's storage. An absent entry is `None` or not in its
/// table.
#[derive(Clone, Debug)]
pub struct LeaderboardContract {
    pub admin: Option<Address>,
    pub market_contract: Option<Address>,
    pub referral_contract: Option<Address>,
    pub token_contract: Option<Address>,
    pub interface_version: Option<u32>,
    pub paused: Option<bool>,
    pub top: TopList,
    pub stats: Table<Address, StoredStats>,
    pub stats_epoch: Table<Address, u32>,
    pub pending: Table<Address, PendingReward>,
    pub banned: Table<Address, bool>,
    pub minted: Table<Address, i128>,
    pub revoked: Table<Role, bool>,
}

/// The meaning of [`LeaderboardContract`].
#[verifier::ext_equal]
pub struct LeaderboardState {
    pub admin: Option<Address>,
    pub market_contract: Option<Address>,
    pub referral_contract: Option<Address>,
    pub token_contract: Option<Address>,
    pub interface_version: Option<u32>,
    pub paused: Option<bool>,
    pub top: Top,
    pub stats: Map<Address, StoredStats>,
    pub stats_epoch: Map<Address, u32>,
    pub pending: Map<Address, PendingReward>,
    pub banned: Map<Address, bool>,
    pub minted: Map<Address, i128>,
    pub revoked: Map<Role, bool>,
}

impl View for LeaderboardContract {
    type V = LeaderboardState;

    open spec fn view(&self) -> LeaderboardState {
        LeaderboardState {
            admin: self.admin,
            market_contract: self.market_contract,
            referral_contract: self.referral_contract,
            token_contract: self.token_contract,
            interface_version: self.interface_version,
            paused: self.paused,
            top: self.top@,
            stats: self.stats@,
            stats_epoch: self.stats_epoch@,
            pending: self.pending@,
            banned: self.banned@,
            minted: self.minted@,
            revoked: self.revoked@,
        }
    }
}

pub type Done = Outcome<LeaderboardState, DataKey, ()>;

pub type Verdict = Result<Done, LeaderboardError>;

/// The role that a symbol names, if any.
pub open spec fn role_named(symbol: Seq<char>) -> Option<Role> {
    if symbol == "market"@ {
        Some(Role::Market)
    } else if symbol == "referral"@ {
        Some(Role::Referral)
    } else if symbol == "token"@ {
        Some(Role::Token)
    } else {
        None
    }
}

pub open spec fn no_reward() -> PendingReward {
    PendingReward { points: 0, tokens: 0, won_delta: 0, lost_delta: 0, bet_delta: 0 }
}

impl PendingReward {
    /// Wins and losses are among the bets.
    pub open spec fn counted(self) -> bool {
        self.won_delta + self.lost_delta <= self.bet_delta
    }

    /// Bets that were queued as bonuses.
    pub open spec fn bonus_delta(self) -> int {
        if self.bet_delta > self.won_delta + self.lost_delta {
            self.bet_delta - (self.won_delta + self.lost_delta)
        } else {
            0
        }
    }
}

/// What a settled bet or a bonus adds to a record.
pub struct Gain {
    pub points: int,
    pub won: int,
    pub lost: int,
    pub bonus: int,
}

pub open spec fn bet_gain(points: u64, is_won: bool) -> Gain {
    Gain {
        points: points as int,
        won: if is_won {
            1
        } else {
            0
        },
        lost: if is_won {
            0
        } else {
            1
        },
        bonus: 0,
    }
}

pub open spec fn bonus_gain(points: u64) -> Gain {
    Gain { points: points as int, won: 0, lost: 0, bonus: 1 }
}

pub open spec fn claim_gain(p: PendingReward) -> Gain {
    Gain {
        points: p.points as int,
        won: p.won_delta as int,
        lost: p.lost_delta as int,
        bonus: p.bonus_delta(),
    }
}

/// Why a dependency that reports `version`, if any, is refused.
pub open spec fn version_refusal(version: Option<u32>, required: u32) -> Option<LeaderboardError> {
    match version {
        None => Some(LeaderboardError::InterfaceVersionMissing),
        Some(v) => if v < required {
            Some(LeaderboardError::IncompatibleInterface)
        } else {
            None
        },
    }
}

impl LeaderboardState {
    pub open spec fn blank() -> LeaderboardState {
        LeaderboardState {
            admin: None,
            market_contract: None,
            referral_contract: None,
            token_contract: None,
            interface_version: None,
            paused: None,
            top: Top::blank(),
            stats: Map::empty(),
            stats_epoch: Map::empty(),
            pending: Map::empty(),
            banned: Map::empty(),
            minted: Map::empty(),
            revoked: Map::empty(),
        }
    }

    /// The list is well formed, and before there is an admin nobody can score
    /// and nobody is listed.
    pub open spec fn wf(self) -> bool {
        &&& self.top.wf()
        &&& forall|user: Address| #[trigger]
            self.pending.dom().contains(user) ==> self.pending[user].counted()
        &&& self.admin is None ==> {
            &&& self.market_contract is None
            &&& self.referral_contract is None
            &&& self.pending.dom() =~= Set::empty()
            &&& self.top.len() == 0
        }
    }

    pub open spec fn is_paused(self) -> bool {
        self.paused.unwrap_or(false)
    }

    pub open spec fn is_banned(self, user: Address) -> bool {
        lookup(self.banned, user, false)
    }

    pub open spec fn is_revoked(self, role: Role) -> bool {
        lookup(self.revoked, role, false)
    }

    pub open spec fn minted_to(self, user: Address) -> i128 {
        lookup(self.minted, user, 0)
    }

    /// A player's record as it was last written.
    pub open spec fn stored(self, user: Address) -> StoredStats {
        lookup(self.stats, user, StoredStats::nothing())
    }

    /// A player's points in epoch `now`.
    pub open spec fn points(self, user: Address, now: u32) -> u64 {
        decayed(
            self.stored(user).points,
            periods_since(lookup(self.stats_epoch, user, now), now),
        )
    }

    /// A player's record in epoch `now`. Only the points decay.
    pub open spec fn current(self, user: Address, now: u32) -> StoredStats {
        StoredStats { points: self.points(user, now), ..self.stored(user) }
    }

    /// A player's record once `gain` is added to it.
    pub open spec fn gained(self, user: Address, now: u32, gain: Gain) -> StoredStats {
        let s = self.current(user, now);
        StoredStats {
            points: (s.points + gain.points) as u64,
            won_bets: (s.won_bets + gain.won) as u32,
            lost_bets: (s.lost_bets + gain.lost) as u32,
            bonus_bets: (s.bonus_bets + gain.bonus) as u32,
        }
    }

    /// The machine's counters can take `gain`.
    pub open spec fn can_gain(self, user: Address, now: u32, gain: Gain) -> bool {
        let s = self.current(user, now);
        &&& s.points + gain.points <= u64::MAX
        &&& s.won_bets + gain.won <= u32::MAX
        &&& s.lost_bets + gain.lost <= u32::MAX
        &&& s.bonus_bets + gain.bonus <= u32::MAX
        &&& self.top.can_update(user, (s.points + gain.points) as u64, now)
    }

    /// The machine's tally can take `tokens`.
    pub open spec fn can_mint(self, user: Address, tokens: i128) -> bool {
        tokens > 0 ==> self.minted_to(user) + tokens <= i128::MAX
    }

    /// A record is written, stamped with the epoch it is expressed in.
    pub open spec fn committed(self, user: Address, s: StoredStats, now: u32) -> LeaderboardState {
        LeaderboardState {
            stats: self.stats.insert(user, s),
            stats_epoch: self.stats_epoch.insert(user, now),
            ..self
        }
    }

    pub open spec fn committed_renews(self, user: Address) -> Set<DataKey> {
        set![DataKey::Stats(user), DataKey::StatsEpoch(user)]
    }

    /// A record is written and its player gets the place it earns.
    pub open spec fn scored(self, user: Address, s: StoredStats, now: u32) -> LeaderboardState {
        LeaderboardState {
            top: self.top.updated(user, s.points, now),
            ..self.committed(user, s, now)
        }
    }

    pub open spec fn scored_renews(self, user: Address, s: StoredStats, now: u32) -> Set<
        DataKey,
    > {
        self.committed_renews(user).union(self.top.updated_renews(user, s.points, now))
    }

    /// Minted tokens are tallied.
    pub open spec fn tallied(self, user: Address, tokens: i128) -> LeaderboardState {
        if tokens > 0 {
            LeaderboardState {
                minted: self.minted.insert(user, (self.minted_to(user) + tokens) as i128),
                ..self
            }
        } else {
            self
        }
    }

    pub open spec fn tallied_renews(self, user: Address, tokens: i128) -> Set<DataKey> {
        if tokens > 0 {
            set![DataKey::Minted(user)]
        } else {
            Set::empty()
        }
    }

    /// What minting asks of the host.
    pub open spec fn minting(self, user: Address, tokens: i128) -> Seq<Effect> {
        if tokens > 0 {
            match self.token_contract {
                Some(token) => seq![Effect::Mint { token, to: user, amount: tokens }],
                None => Seq::empty(),
            }
        } else {
            Seq::empty()
        }
    }

    /// Why a call of the market contract is refused.
    pub open spec fn market_refusal(self, caller: Address) -> Option<LeaderboardError> {
        if self.is_paused() {
            Some(LeaderboardError::ContractPaused)
        } else {
            match self.market_contract {
                None => Some(LeaderboardError::NotInitialized),
                Some(market) => if caller != market {
                    Some(LeaderboardError::UnauthorizedCaller)
                } else if self.is_revoked(Role::Market) {
                    Some(LeaderboardError::TrustRevoked)
                } else {
                    None
                },
            }
        }
    }

    /// Why a call of the referral contract is refused.
    pub open spec fn referral_refusal(self, caller: Address) -> Option<LeaderboardError> {
        if self.is_paused() {
            Some(LeaderboardError::ContractPaused)
        } else {
            match self.referral_contract {
                None => Some(LeaderboardError::NotInitialized),
                Some(referral) => if caller != referral {
                    Some(LeaderboardError::UnauthorizedCaller)
                } else if self.is_revoked(Role::Referral) {
                    Some(LeaderboardError::TrustRevoked)
                } else {
                    None
                },
            }
        }
    }

    /// Why points cannot be awarded to or taken from a player.
    pub open spec fn player_refusal(self, user: Address, points: u64) -> Option<
        LeaderboardError,
    > {
        if points == 0 {
            Some(LeaderboardError::InvalidPoints)
        } else if self.is_banned(user) {
            Some(LeaderboardError::PlayerBanned)
        } else {
            None
        }
    }

    /// Why `tokens` cannot be minted through a token contract that reports
    /// `token_version`, if it reports any.
    pub open spec fn mint_refusal(self, tokens: i128, token_version: Option<u32>) -> Option<
        LeaderboardError,
    > {
        if tokens <= 0 {
            None
        } else if self.is_revoked(Role::Token) {
            Some(LeaderboardError::TrustRevoked)
        } else if self.token_contract is None {
            Some(LeaderboardError::TokenNotConfigured)
        } else {
            version_refusal(token_version, EXPECTED_TOKEN_INTERFACE_VERSION)
        }
    }

    /// A settled bet is scored and `tokens` are minted for it.
    pub open spec fn settle_bet(
        self,
        ledger: Ledger,
        caller: Address,
        user: Address,
        points: u64,
        tokens: i128,
        is_won: bool,
        token_version: Option<u32>,
    ) -> Verdict {
        let now = epoch_of(ledger.sequence);
        let s = self.gained(user, now, bet_gain(points, is_won));
        if self.is_banned(user) {
            Err(LeaderboardError::PlayerBanned)
        } else {
            match self.mint_refusal(tokens, token_version) {
                Some(e) => Err(e),
                None => Ok(
                    Outcome {
                        state: self.scored(user, s, now).tallied(user, tokens),
                        value: (),
                        effects: seq![
                            Effect::RequireAuth(caller),
                            Effect::Publish(
                                Event::BetScored {
                                    user,
                                    points: s.points,
                                    won_bets: s.won_bets,
                                    lost_bets: s.lost_bets,
                                },
                            ),
                        ] + self.minting(user, tokens),
                        renewed: self.scored_renews(user, s, now).union(
                            self.tallied_renews(user, tokens),
                        ),
                        instance_renewed: true,
                    },
                ),
            }
        }
    }

    /// A bonus is scored and `tokens` are minted for it.
    pub open spec fn settle_bonus(
        self,
        ledger: Ledger,
        caller: Address,
        user: Address,
        points: u64,
        tokens: i128,
        token_version: Option<u32>,
    ) -> Verdict {
        let now = epoch_of(ledger.sequence);
        let s = self.gained(user, now, bonus_gain(points));
        match self.referral_refusal(caller) {
            Some(e) => Err(e),
            None => match self.player_refusal(user, points) {
                Some(e) => Err(e),
                None => match self.mint_refusal(tokens, token_version) {
                    Some(e) => Err(e),
                    None => Ok(
                        Outcome {
                            state: self.scored(user, s, now).tallied(user, tokens),
                            value: (),
                            effects: seq![
                                Effect::RequireAuth(caller),
                                Effect::Publish(
                                    Event::BonusScored {
                                        user,
                                        points: s.points,
                                        bonus_bets: s.bonus_bets,
                                    },
                                ),
                            ] + self.minting(user, tokens),
                            renewed: self.scored_renews(user, s, now).union(
                                self.tallied_renews(user, tokens),
                            ),
                            instance_renewed: true,
                        },
                    ),
                },
            },
        }
    }

    pub open spec fn reward(
        self,
        ledger: Ledger,
        caller: Address,
        user: Address,
        points: u64,
        tokens: i128,
        is_winner: bool,
        token_version: Option<u32>,
    ) -> Verdict {
        match self.market_refusal(caller) {
            Some(e) => Err(e),
            None => if points == 0 {
                Err(LeaderboardError::InvalidPoints)
            } else {
                self.settle_bet(ledger, caller, user, points, tokens, is_winner, token_version)
            },
        }
    }

    pub open spec fn add_pts(
        self,
        ledger: Ledger,
        caller: Address,
        user: Address,
        pts: u64,
        is_won: bool,
    ) -> Verdict {
        match self.market_refusal(caller) {
            Some(e) => Err(e),
            None => self.settle_bet(ledger, caller, user, pts, 0, is_won, None),
        }
    }

    pub open spec fn penalize(
        self,
        ledger: Ledger,
        caller: Address,
        user: Address,
        points: u64,
    ) -> Verdict {
        let now = epoch_of(ledger.sequence);
        let s = self.current(user, now);
        let left = if s.points > points {
            (s.points - points) as u64
        } else {
            0
        };
        match self.market_refusal(caller) {
            Some(e) => Err(e),
            None => match self.player_refusal(user, points) {
                Some(e) => Err(e),
                None => Ok(
                    Outcome {
                        state: LeaderboardState {
                            top: self.top.lowered(user, left, now),
                            ..self.committed(user, StoredStats { points: left, ..s }, now)
                        },
                        value: (),
                        effects: seq![
                            Effect::RequireAuth(caller),
                            Effect::Publish(Event::Penalized { user, points: left }),
                        ],
                        renewed: self.committed_renews(user).union(
                            match self.top.place(user) {
                                Some(i) => pair(i, user),
                                None => Set::empty(),
                            },
                        ),
                        instance_renewed: true,
                    },
                ),
            },
        }
    }

    /// What is queued for a player once a reward is added.
    pub open spec fn queued(
        self,
        user: Address,
        points: u64,
        tokens: i128,
        won: int,
        lost: int,
    ) -> PendingReward {
        let p = lookup(self.pending, user, no_reward());
        PendingReward {
            points: (p.points + points) as u64,
            tokens: (p.tokens + tokens) as i128,
            won_delta: (p.won_delta + won) as u32,
            lost_delta: (p.lost_delta + lost) as u32,
            bet_delta: (p.bet_delta + 1) as u32,
        }
    }

    /// The machine's counters can take another queued reward.
    pub open spec fn can_queue(
        self,
        user: Address,
        points: u64,
        tokens: i128,
        won: int,
        lost: int,
    ) -> bool {
        let p = lookup(self.pending, user, no_reward());
        &&& p.points + points <= u64::MAX
        &&& i128::MIN <= p.tokens + tokens <= i128::MAX
        &&& p.won_delta + won <= u32::MAX
        &&& p.lost_delta + lost <= u32::MAX
        &&& p.bet_delta + 1 <= u32::MAX
    }

    /// A reward is queued.
    pub open spec fn enqueue(
        self,
        caller: Address,
        user: Address,
        points: u64,
        tokens: i128,
        won: int,
        lost: int,
    ) -> Verdict {
        match self.player_refusal(user, points) {
            Some(e) => Err(e),
            None => Ok(
                Outcome {
                    state: LeaderboardState {
                        pending: self.pending.insert(
                            user,
                            self.queued(user, points, tokens, won, lost),
                        ),
                        ..self
                    },
                    value: (),
                    effects: seq![Effect::RequireAuth(caller)],
                    renewed: set![DataKey::PendingReward(user)],
                    instance_renewed: true,
                },
            ),
        }
    }

    pub open spec fn queue_reward(
        self,
        caller: Address,
        user: Address,
        points: u64,
        tokens: i128,
        is_winner: bool,
    ) -> Verdict {
        match self.market_refusal(caller) {
            Some(e) => Err(e),
            None => self.enqueue(
                caller,
                user,
                points,
                tokens,
                bet_gain(points, is_winner).won,
                bet_gain(points, is_winner).lost,
            ),
        }
    }

    pub open spec fn queue_bonus_reward(
        self,
        caller: Address,
        user: Address,
        points: u64,
        tokens: i128,
    ) -> Verdict {
        match self.referral_refusal(caller) {
            Some(e) => Err(e),
            None => self.enqueue(caller, user, points, tokens, 0, 0),
        }
    }

    pub open spec fn claim_pending_rewards(
        self,
        ledger: Ledger,
        user: Address,
        token_version: Option<u32>,
    ) -> Verdict {
        let now = epoch_of(ledger.sequence);
        if self.is_paused() {
            Err(LeaderboardError::ContractPaused)
        } else if self.is_banned(user) {
            Err(LeaderboardError::PlayerBanned)
        } else {
            match find(self.pending, user) {
                None => Ok(
                    Outcome {
                        state: self,
                        value: (),
                        effects: Seq::empty(),
                        renewed: Set::empty(),
                        instance_renewed: false,
                    },
                ),
                Some(p) => match self.mint_refusal(p.tokens, token_version) {
                    Some(e) => Err(e),
                    None => {
                        let s = self.gained(user, now, claim_gain(p));
                        Ok(
                            Outcome {
                                state: LeaderboardState {
                                    pending: self.pending.remove(user),
                                    ..self.scored(user, s, now).tallied(user, p.tokens)
                                },
                                value: (),
                                effects: self.minting(user, p.tokens),
                                renewed: self.scored_renews(user, s, now).union(
                                    self.tallied_renews(user, p.tokens),
                                ),
                                instance_renewed: true,
                            },
                        )
                    },
                },
            }
        }
    }

    pub open spec fn record_bet(self, caller: Address) -> Verdict {
        match self.market_refusal(caller) {
            Some(e) => Err(e),
            None => Ok(
                Outcome {
                    state: self,
                    value: (),
                    effects: Seq::empty(),
                    renewed: Set::empty(),
                    instance_renewed: false,
                },
            ),
        }
    }

    /// The rank of a player in epoch `now`: one more than the number of listed
    /// players with a higher score.
    pub open spec fn rank(self, user: Address, now: u32) -> int {
        match self.top.place(user) {
            Some(i) => 1int + above(
                self.top.at,
                self.top.len() as nat,
                now,
                self.top.at[i].points_at(now),
            ),
            None => UNRANKED_RANK as int,
        }
    }

    pub open spec fn initialize(
        self,
        admin: Address,
        market_contract: Address,
        referral_contract: Address,
    ) -> Verdict {
        if self.admin is Some {
            Err(LeaderboardError::AlreadyInitialized)
        } else {
            Ok(
                Outcome {
                    state: LeaderboardState {
                        admin: Some(admin),
                        market_contract: Some(market_contract),
                        referral_contract: Some(referral_contract),
                        interface_version: Some(INTERFACE_VERSION),
                        top: Top {
                            count: Some(0),
                            min_points: Some(0),
                            min_slot: Some(0),
                            ..self.top
                        },
                        ..self
                    },
                    value: (),
                    effects: seq![Effect::RequireAuth(admin)],
                    renewed: Set::empty(),
                    instance_renewed: true,
                },
            )
        }
    }

    /// Why an admin-only call is refused.
    pub open spec fn admin_refusal(self, admin: Address) -> Option<LeaderboardError> {
        match self.admin {
            None => Some(LeaderboardError::NotInitialized),
            Some(stored) => if admin != stored {
                Some(LeaderboardError::NotAdmin)
            } else {
                None
            },
        }
    }

    pub open spec fn set_token(self, admin: Address, token: Address) -> Verdict {
        match self.admin_refusal(admin) {
            Some(e) => Err(e),
            None => Ok(
                Outcome {
                    state: LeaderboardState { token_contract: Some(token), ..self },
                    value: (),
                    effects: seq![Effect::RequireAuth(admin)],
                    renewed: Set::empty(),
                    instance_renewed: true,
                },
            ),
        }
    }

    pub open spec fn set_interface_version(self, admin: Address, version: u32) -> Verdict {
        match self.admin_refusal(admin) {
            Some(e) => Err(e),
            None => Ok(
                Outcome {
                    state: LeaderboardState { interface_version: Some(version), ..self },
                    value: (),
                    effects: seq![Effect::RequireAuth(admin)],
                    renewed: Set::empty(),
                    instance_renewed: false,
                },
            ),
        }
    }

    pub open spec fn set_paused(self, admin: Address, paused: bool) -> Verdict {
        match self.admin_refusal(admin) {
            Some(e) => Err(e),
            None => Ok(
                Outcome {
                    state: LeaderboardState { paused: Some(paused), ..self },
                    value: (),
                    effects: seq![
                        Effect::RequireAuth(admin),
                        Effect::Publish(
                            if paused {
                                Event::Paused { admin }
                            } else {
                                Event::Unpaused { admin }
                            },
                        ),
                    ],
                    renewed: Set::empty(),
                    instance_renewed: false,
                },
            ),
        }
    }

    pub open spec fn revoke_trust(self, admin: Address, role: Seq<char>) -> Verdict {
        match self.admin_refusal(admin) {
            Some(e) => Err(e),
            None => match role_named(role) {
                None => Err(LeaderboardError::InvalidRole),
                Some(r) => Ok(
                    Outcome {
                        state: LeaderboardState { revoked: self.revoked.insert(r, true), ..self },
                        value: (),
                        effects: seq![Effect::RequireAuth(admin)],
                        renewed: set![DataKey::TrustRevoked(r)],
                        instance_renewed: false,
                    },
                ),
            },
        }
    }

    pub open spec fn restore_trust(self, admin: Address, role: Seq<char>) -> Verdict {
        match self.admin_refusal(admin) {
            Some(e) => Err(e),
            None => match role_named(role) {
                None => Err(LeaderboardError::InvalidRole),
                Some(r) => Ok(
                    Outcome {
                        state: LeaderboardState { revoked: self.revoked.remove(r), ..self },
                        value: (),
                        effects: seq![Effect::RequireAuth(admin)],
                        renewed: Set::empty(),
                        instance_renewed: false,
                    },
                ),
            },
        }
    }

    /// A player's record, queued rewards and place in the list are erased.
    pub open spec fn erased(self, user: Address, now: u32) -> LeaderboardState {
        LeaderboardState {
            stats: self.stats.remove(user),
            stats_epoch: self.stats_epoch.remove(user),
            pending: self.pending.remove(user),
            top: self.top.dropped(user, now),
            ..self
        }
    }

    /// The entries that taking a player off the list renews.
    pub open spec fn dropped_renews(self, user: Address) -> Set<DataKey> {
        match self.top.place(user) {
            Some(i) => self.top.looked_up_renews(user).union(
                pairs(self.top.looked_up(user).cleared(i).list()),
            ),
            None => self.top.looked_up_renews(user),
        }
    }

    pub open spec fn remove_player(self, ledger: Ledger, admin: Address, user: Address) -> Verdict {
        match self.admin_refusal(admin) {
            Some(e) => Err(e),
            None => if !self.stats.dom().contains(user) && !self.pending.dom().contains(user)
                && !self.top.listed(user) {
                Err(LeaderboardError::PlayerNotFound)
            } else {
                Ok(
                    Outcome {
                        state: self.erased(user, epoch_of(ledger.sequence)),
                        value: (),
                        effects: seq![
                            Effect::RequireAuth(admin),
                            Effect::Publish(Event::PlayerRemoved { admin, user }),
                        ],
                        renewed: self.dropped_renews(user),
                        instance_renewed: true,
                    },
                )
            },
        }
    }

    pub open spec fn ban_player(self, ledger: Ledger, admin: Address, user: Address) -> Verdict {
        match self.admin_refusal(admin) {
            Some(e) => Err(e),
            None => Ok(
                Outcome {
                    state: LeaderboardState {
                        banned: self.banned.insert(user, true),
                        ..self.erased(user, epoch_of(ledger.sequence))
                    },
                    value: (),
                    effects: seq![
                        Effect::RequireAuth(admin),
                        Effect::Publish(Event::PlayerBanned { admin, user }),
                    ],
                    renewed: self.dropped_renews(user).union(
                        set![DataKey::BannedPlayer(user)],
                    ),
                    instance_renewed: true,
                },
            ),
        }
    }

    pub open spec fn reset_player(self, ledger: Ledger, admin: Address, user: Address) -> Verdict {
        let now = epoch_of(ledger.sequence);
        match self.admin_refusal(admin) {
            Some(e) => Err(e),
            None => if !self.stats.dom().contains(user) && !self.top.listed(user) {
                Err(LeaderboardError::PlayerNotFound)
            } else {
                Ok(
                    Outcome {
                        state: LeaderboardState {
                            pending: self.pending.remove(user),
                            top: self.top.dropped(user, now),
                            ..self.committed(
                                user,
                                StoredStats { points: 0, ..self.stored(user) },
                                now,
                            )
                        },
                        value: (),
                        effects: seq![
                            Effect::RequireAuth(admin),
                            Effect::Publish(Event::PlayerReset { admin, user }),
                        ],
                        renewed: self.committed_renews(user).union(self.dropped_renews(user)),
                        instance_renewed: true,
                    },
                )
            },
        }
    }
}

} // verus!
