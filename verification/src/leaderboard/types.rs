//! Records, errors and storage names of the leaderboard.
use crate::address::Address;
use crate::table::Key;
use vstd::prelude::*;

verus! {

/// How many players the top list holds.
pub const MAX_TOP_PLAYERS: u32 = 50;

/// The rank of a player who is not in the top list. It is greater than every
/// rank in the list, so an unranked player never sorts above a ranked one.
pub const UNRANKED_RANK: u32 = MAX_TOP_PLAYERS + 1;

/// The longest page that `get_top_players` returns: the whole list.
pub const MAX_PAGE_SIZE: u32 = MAX_TOP_PLAYERS;

/// How many slots one call may move an entry up. An entry that cannot reach
/// its place in one call settles on later writes; ranks and pages are computed
/// from the scores themselves, so the reported order is exact regardless.
pub const MAX_BUBBLE_STEPS: u32 = 8;

/// The interface version this contract implements and stores when it is set up.
pub const INTERFACE_VERSION: u32 = 1;

/// The interface version of the token contract that minting relies on.
pub const EXPECTED_TOKEN_INTERFACE_VERSION: u32 = 1;

#[derive(Clone, Copy, Debug, PartialEq, Eq, PartialOrd, Ord, Structural)]
pub enum LeaderboardError {
    AlreadyInitialized,
    NotInitialized,
    UnauthorizedCaller,
    InvalidPoints,
    NotAdmin,
    ContractPaused,
    IncompatibleInterface,
    TokenNotConfigured,
    /// The player to remove or reset was never tracked.
    PlayerNotFound,
    /// A banned player tried to earn points.
    PlayerBanned,
    /// The admin has revoked the trust in the contract this call depends on.
    TrustRevoked,
    /// No such role.
    InvalidRole,
    /// The token contract reports no interface version.
    InterfaceVersionMissing,
}

impl LeaderboardError {
    /// The number under which the error is reported to callers.
    pub open spec fn number(self) -> u32 {
        match self {
            LeaderboardError::AlreadyInitialized => 1,
            LeaderboardError::NotInitialized => 2,
            LeaderboardError::UnauthorizedCaller => 3,
            LeaderboardError::InvalidPoints => 4,
            LeaderboardError::NotAdmin => 5,
            LeaderboardError::ContractPaused => 6,
            LeaderboardError::IncompatibleInterface => 7,
            LeaderboardError::TokenNotConfigured => 8,
            LeaderboardError::PlayerNotFound => 9,
            LeaderboardError::PlayerBanned => 10,
            LeaderboardError::TrustRevoked => 11,
            LeaderboardError::InvalidRole => 12,
            LeaderboardError::InterfaceVersionMissing => 13,
        }
    }

    pub fn code(self) -> (n: u32)
        ensures
            n == self.number(),
    {
        match self {
            LeaderboardError::AlreadyInitialized => 1,
            LeaderboardError::NotInitialized => 2,
            LeaderboardError::UnauthorizedCaller => 3,
            LeaderboardError::InvalidPoints => 4,
            LeaderboardError::NotAdmin => 5,
            LeaderboardError::ContractPaused => 6,
            LeaderboardError::IncompatibleInterface => 7,
            LeaderboardError::TokenNotConfigured => 8,
            LeaderboardError::PlayerNotFound => 9,
            LeaderboardError::PlayerBanned => 10,
            LeaderboardError::TrustRevoked => 11,
            LeaderboardError::InvalidRole => 12,
            LeaderboardError::InterfaceVersionMissing => 13,
        }
    }
}

/// A contract that the leaderboard depends on.
#[derive(Clone, Copy, Debug, PartialEq, Eq, Structural)]
pub enum Role {
    Market,
    Referral,
    Token,
}

impl Key for Role {
    fn same(&self, other: &Self) -> (b: bool) {
        *self == *other
    }
}

/// Names of the stored entries.
#[derive(Clone, Copy, Debug, PartialEq, Eq)]
pub enum DataKey {
    Admin,
    MarketContract,
    ReferralContract,
    TokenContract,
    Stats(Address),
    TopPlayerAt(u32),
    TopPlayerCount,
    TopPlayerSlot(Address),
    /// Counter that feeds `PlayerEntry::seq`.
    SeqCounter,
    /// Points of the weakest listed player.
    MinPoints,
    /// Slot of the weakest listed player.
    MinSlot,
    Paused,
    InterfaceVersion,
    StatsEpoch(Address),
    PendingReward(Address),
    BannedPlayer(Address),
    /// What was minted to a player so far.
    Minted(Address),
    TrustRevoked(Role),
}

/// A place in the top list.
#[derive(Clone, Copy, Debug, PartialEq, Eq)]
pub struct PlayerEntry {
    pub address: Address,
    pub points: u64,
    /// The decay epoch that `points` is expressed in.
    pub epoch: u32,
    /// Order of insertion. Among equally weak entries the oldest leaves first.
    pub seq: u64,
}

/// A player's record as reported. `total_bets` counts wins, losses and bonuses.
#[derive(Clone, Copy, Debug, PartialEq, Eq)]
pub struct PlayerStats {
    pub points: u64,
    pub total_bets: u32,
    pub won_bets: u32,
    pub lost_bets: u32,
}

/// A player's record as stored. Bonuses are counted apart from wins and losses.
#[derive(Clone, Copy, Debug, PartialEq, Eq)]
pub struct StoredStats {
    pub points: u64,
    pub won_bets: u32,
    pub lost_bets: u32,
    pub bonus_bets: u32,
}

impl StoredStats {
    pub open spec fn nothing() -> StoredStats {
        StoredStats { points: 0, won_bets: 0, lost_bets: 0, bonus_bets: 0 }
    }

    /// The number of bets of any kind.
    pub open spec fn total(self) -> int {
        self.won_bets + self.lost_bets + self.bonus_bets
    }

    /// The number of bets of any kind fits the reported counter.
    pub open spec fn countable(self) -> bool {
        self.total() <= u32::MAX
    }

    /// The reported form of this record.
    pub open spec fn reported(self) -> PlayerStats {
        PlayerStats {
            points: self.points,
            total_bets: self.total() as u32,
            won_bets: self.won_bets,
            lost_bets: self.lost_bets,
        }
    }

    pub fn zero() -> (s: Self)
        ensures
            s == StoredStats::nothing(),
    {
        StoredStats { points: 0, won_bets: 0, lost_bets: 0, bonus_bets: 0 }
    }

    pub fn to_player_stats(&self) -> (s: PlayerStats)
        requires
            self.countable(),
        ensures
            s == self.reported(),
    {
        PlayerStats {
            points: self.points,
            total_bets: self.won_bets + self.lost_bets + self.bonus_bets,
            won_bets: self.won_bets,
            lost_bets: self.lost_bets,
        }
    }
}

/// Rewards that were queued and not claimed yet.
#[derive(Clone, Copy, Debug, PartialEq, Eq)]
pub struct PendingReward {
    pub points: u64,
    pub tokens: i128,
    pub won_delta: u32,
    pub lost_delta: u32,
    pub bet_delta: u32,
}

} // verus!
