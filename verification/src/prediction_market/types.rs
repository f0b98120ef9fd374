//! Records, errors, limits and storage names of the prediction market.
use crate::address::{Address, WasmHash};
use crate::table::Key;
use vstd::prelude::*;

verus! {

/// The smallest net stake, in stroops: one lumen.
pub const MIN_BET: i128 = 10_000_000;

/// How many bets one user may place on one market, both sides together.
pub const MAX_BETS_PER_USER: u32 = 20;

/// How many markets may be created in one rate window.
pub const MAX_MARKETS_PER_HOUR: u32 = 10;

/// The length of a rate window in ledgers, about an hour. Windows are counted
/// in ledgers, which only ever advance, and not in clock time.
pub const RATE_WINDOW_LEDGERS: u32 = 720;

/// How many markets may be open at once.
pub const MAX_OPEN_MARKETS: u32 = 50;

/// The shortest market, in seconds.
pub const MIN_MARKET_DURATION_SECS: u64 = 3_600;

/// The longest page of bettors.
pub const MAX_BETTORS_PER_PAGE: u32 = 100;

/// The fee on a bet, in basis points.
pub const TOTAL_FEE_BPS: i128 = 200;

/// The part of the fee that the platform keeps, in basis points.
pub const PLATFORM_FEE_BPS: i128 = 150;

pub const BPS_DENOM: i128 = 10_000;

/// The part of a bet that is staked, in basis points.
pub const NET_NUMERATOR: i128 = 9_800;

pub const WIN_POINTS: u64 = 30;

/// The points that a lost bet costs.
pub const LOSE_POINTS: u64 = 10;

pub const WIN_TOKENS: i128 = 10_0000000;

/// Identifies the interface this contract offers to its callers.
pub const INTERFACE_VERSION: u32 = 1;

/// The least interface version of the referral contract that a bet needs.
pub const REFERRAL_CREDIT_INTERFACE_VERSION: u32 = 1;

/// The least interface version of the leaderboard that a claim needs.
pub const LEADERBOARD_REWARD_INTERFACE_VERSION: u32 = 1;

/// How long a requested withdrawal has to wait, in seconds.
pub const WITHDRAW_DELAY_SECS: u64 = 86_400;

/// The part of the earned fees that one withdrawal may take, in basis points.
pub const MAX_WITHDRAWAL_BPS: i128 = 2_000;

/// How long an outcome that nobody bet on can be disputed, in seconds.
pub const DISPUTE_WINDOW_SECS: u64 = 604_800;

/// How long a staged change of the configuration waits, in seconds.
pub const CONFIG_DELAY_SECS: u64 = 604_800;

#[derive(Clone, Copy, Debug, PartialEq, Eq, PartialOrd, Ord, Structural)]
pub enum MarketError {
    AlreadyInitialized,
    NotInitialized,
    NotAdmin,
    MarketNotFound,
    MarketExpired,
    MarketNotExpired,
    MarketResolved,
    MarketCancelled,
    MarketNotResolved,
    BetTooSmall,
    /// Reserved. A position may lie on both sides.
    OppositeSideBet,
    AlreadyClaimed,
    NoBetFound,
    InvalidAmount,
    NoFeesToWithdraw,
    NotResolver,
    TooManyBets,
    NotAuthorized,
    MarketNotCancelled,
    RateLimitExceeded,
    InvalidFeeRecipient,
    WithdrawalTooLarge,
    WithdrawalRequestExists,
    NoWithdrawalRequest,
    WithdrawalTooSoon,
    /// A contract that this call depends on reports no interface version.
    InterfaceVersionMissing,
    /// A contract that this call depends on reports too low a version.
    IncompatibleInterface,
    /// The admin has revoked the trust in the contract this call depends on.
    TrustRevoked,
    /// No such role.
    InvalidRole,
    ContractPaused,
    InvalidDuration,
    /// The staged change has not waited long enough.
    ConfigTooSoon,
    /// Too few governors have approved the staged change.
    NotEnoughApprovals,
    /// No change of the configuration is staged.
    NoPendingConfig,
    /// A contract is not of the kind that its role calls for.
    InvalidContract,
    /// Another change of the configuration is staged.
    ConfigChangePending,
    /// The outcome nobody bet on can still be disputed.
    DisputeWindowActive,
    /// The market was not resolved to an outcome nobody bet on.
    NotZeroSide,
    /// The outcome can no longer be disputed.
    DisputeWindowClosed,
    /// Whoever resolves markets has no stake in an open one.
    ConflictOfInterest,
    /// As many markets are open as may be.
    TooManyOpenMarkets,
}

impl MarketError {
    /// The number under which the error is reported to callers.
    pub open spec fn number(self) -> u32 {
        match self {
            MarketError::AlreadyInitialized => 1,
            MarketError::NotInitialized => 2,
            MarketError::NotAdmin => 3,
            MarketError::MarketNotFound => 4,
            MarketError::MarketExpired => 5,
            MarketError::MarketNotExpired => 6,
            MarketError::MarketResolved => 7,
            MarketError::MarketCancelled => 8,
            MarketError::MarketNotResolved => 9,
            MarketError::BetTooSmall => 10,
            MarketError::OppositeSideBet => 11,
            MarketError::AlreadyClaimed => 12,
            MarketError::NoBetFound => 13,
            MarketError::InvalidAmount => 14,
            MarketError::NoFeesToWithdraw => 15,
            MarketError::NotResolver => 16,
            MarketError::TooManyBets => 17,
            MarketError::NotAuthorized => 18,
            MarketError::MarketNotCancelled => 19,
            MarketError::RateLimitExceeded => 20,
            MarketError::InvalidFeeRecipient => 21,
            MarketError::WithdrawalTooLarge => 22,
            MarketError::WithdrawalRequestExists => 23,
            MarketError::NoWithdrawalRequest => 24,
            MarketError::WithdrawalTooSoon => 25,
            MarketError::InterfaceVersionMissing => 26,
            MarketError::IncompatibleInterface => 27,
            MarketError::TrustRevoked => 28,
            MarketError::InvalidRole => 29,
            MarketError::ContractPaused => 30,
            MarketError::InvalidDuration => 31,
            MarketError::ConfigTooSoon => 32,
            MarketError::NotEnoughApprovals => 33,
            MarketError::NoPendingConfig => 34,
            MarketError::InvalidContract => 35,
            MarketError::ConfigChangePending => 36,
            MarketError::DisputeWindowActive => 37,
            MarketError::NotZeroSide => 38,
            MarketError::DisputeWindowClosed => 39,
            MarketError::ConflictOfInterest => 40,
            MarketError::TooManyOpenMarkets => 41,
        }
    }

    pub fn code(self) -> (n: u32)
        ensures
            n == self.number(),
    {
        match self {
            MarketError::AlreadyInitialized => 1,
            MarketError::NotInitialized => 2,
            MarketError::NotAdmin => 3,
            MarketError::MarketNotFound => 4,
            MarketError::MarketExpired => 5,
            MarketError::MarketNotExpired => 6,
            MarketError::MarketResolved => 7,
            MarketError::MarketCancelled => 8,
            MarketError::MarketNotResolved => 9,
            MarketError::BetTooSmall => 10,
            MarketError::OppositeSideBet => 11,
            MarketError::AlreadyClaimed => 12,
            MarketError::NoBetFound => 13,
            MarketError::InvalidAmount => 14,
            MarketError::NoFeesToWithdraw => 15,
            MarketError::NotResolver => 16,
            MarketError::TooManyBets => 17,
            MarketError::NotAuthorized => 18,
            MarketError::MarketNotCancelled => 19,
            MarketError::RateLimitExceeded => 20,
            MarketError::InvalidFeeRecipient => 21,
            MarketError::WithdrawalTooLarge => 22,
            MarketError::WithdrawalRequestExists => 23,
            MarketError::NoWithdrawalRequest => 24,
            MarketError::WithdrawalTooSoon => 25,
            MarketError::InterfaceVersionMissing => 26,
            MarketError::IncompatibleInterface => 27,
            MarketError::TrustRevoked => 28,
            MarketError::InvalidRole => 29,
            MarketError::ContractPaused => 30,
            MarketError::InvalidDuration => 31,
            MarketError::ConfigTooSoon => 32,
            MarketError::NotEnoughApprovals => 33,
            MarketError::NoPendingConfig => 34,
            MarketError::InvalidContract => 35,
            MarketError::ConfigChangePending => 36,
            MarketError::DisputeWindowActive => 37,
            MarketError::NotZeroSide => 38,
            MarketError::DisputeWindowClosed => 39,
            MarketError::ConflictOfInterest => 40,
            MarketError::TooManyOpenMarkets => 41,
        }
    }
}

/// A contract that the market depends on.
#[derive(Clone, Copy, Debug, PartialEq, Eq, Structural)]
pub enum Role {
    Referral,
    Leaderboard,
}

impl Key for Role {
    fn same(&self, other: &Self) -> (b: bool) {
        *self == *other
    }
}

/// Names of the stored entries.
#[derive(Clone, Copy, Debug, PartialEq, Eq)]
pub enum DataKey {
    Admin,
    Cfg,
    MarketCount,
    /// Fees that belong to no market, until they are moved to `LegacyFees`.
    AccumulatedFees,
    Market(u64),
    Bet(u64, Address),
    BettorCount(u64),
    BettorAt(u64, u32),
    Resolver(Address),
    FeeRecipient(Address),
    HasReferrer(Address),
    RateWindow,
    Payout(u64, Address),
    PendingWithdrawal(Address),
    InterfaceVersion,
    TrustRevoked(Role),
    Paused,
    /// Fees taken on the bets of one market.
    MarketFees(u64),
    OpenMarkets,
    ForfeitedPool(u64),
    PendingConfig,
    Governor(Address),
    GovernorThreshold,
    PinnedHashes,
    LegacyFees,
}

#[derive(Clone, Copy, Debug, PartialEq, Eq)]
pub struct Config {
    pub token: Address,
    pub referral: Address,
    pub leaderboard: Address,
    pub xlm_sac: Address,
}

/// What an address runs, as the host knows it.
#[derive(Clone, Copy, Debug, PartialEq, Eq)]
pub enum Executable {
    /// A contract with code of its own.
    Wasm(WasmHash),
    /// The built-in contract of an asset.
    StellarAsset,
    /// No contract: an account, or nothing at all.
    Absent,
}

/// What each contract of a configuration runs.
#[derive(Clone, Copy, Debug, PartialEq, Eq)]
pub struct Executables {
    pub token: Executable,
    pub referral: Executable,
    pub leaderboard: Executable,
    pub xlm_sac: Executable,
}

/// The code of each contract of a configuration; all zeros for the built-in
/// contract of an asset, which has none.
#[derive(Clone, Copy, Debug, PartialEq, Eq)]
pub struct PinnedHashes {
    pub token: WasmHash,
    pub referral: WasmHash,
    pub leaderboard: WasmHash,
    pub xlm_sac: WasmHash,
}

/// A staged change of the configuration.
#[derive(Clone, Debug, PartialEq, Eq)]
pub struct PendingConfig {
    pub cfg: Config,
    pub requested_at: u64,
    /// The code that the contracts ran when the change was proposed.
    pub pins: PinnedHashes,
    /// The governors who approved it, who proposed it first.
    pub approvers: Vec<Address>,
}

/// A user's position in a market. Both sides share one record.
#[derive(Clone, Copy, Debug, PartialEq, Eq)]
pub struct BetEntry {
    /// The net stake on the side of the first bet.
    pub net: i128,
    /// The net stake on the other side.
    pub hedge: i128,
    /// Everything paid in.
    pub gross: i128,
    /// The platform fee taken on it.
    pub fee: i128,
    /// The side of the first bet.
    pub is_yes: bool,
    pub claimed: bool,
    /// Bets placed, on both sides together.
    pub count: u32,
}

#[derive(Clone, Copy, Debug, PartialEq, Eq)]
pub struct WithdrawalRequest {
    pub recipient: Address,
    pub amount: i128,
    pub requested_at: u64,
}

#[derive(Clone, Copy, Debug, PartialEq, Eq)]
pub enum Category {
    Crypto,
    Sports,
    Politics,
    Entertainment,
    Science,
    Other,
}

#[derive(Clone, Debug, PartialEq, Eq)]
pub struct Market {
    pub id: u64,
    pub question: String,
    pub image_url: String,
    pub category: Category,
    pub end_time: u64,
    pub total_yes: i128,
    pub total_no: i128,
    pub resolved: bool,
    pub outcome: bool,
    pub cancelled: bool,
    pub creator: Address,
    pub bet_count: u32,
}

impl Market {
    /// Another record of the same market.
    pub fn copy(&self) -> (m: Market)
        ensures
            m == *self,
    {
        Market {
            id: self.id,
            question: self.question.clone(),
            image_url: self.image_url.clone(),
            category: self.category,
            end_time: self.end_time,
            total_yes: self.total_yes,
            total_no: self.total_no,
            resolved: self.resolved,
            outcome: self.outcome,
            cancelled: self.cancelled,
            creator: self.creator,
            bet_count: self.bet_count,
        }
    }
}

/// A position as reported on its first side.
#[derive(Clone, Copy, Debug, PartialEq, Eq)]
pub struct Bet {
    pub amount: i128,
    pub is_yes: bool,
    pub claimed: bool,
}

/// A position as reported on both sides.
#[derive(Clone, Copy, Debug, PartialEq, Eq)]
pub struct Position {
    pub net_yes: i128,
    pub net_no: i128,
    pub gross: i128,
    pub count: u32,
}

/// What is held back of a market whose outcome nobody bet on.
#[derive(Clone, Copy, Debug, PartialEq, Eq)]
pub struct ForfeitedPool {
    /// The net stakes, which stay claimable.
    pub amount: i128,
    /// The fees, which nobody can withdraw before the window has passed.
    pub locked_fees: i128,
    /// When the outcome can no longer be disputed.
    pub disputable_until: u64,
    /// The outcome was disputed and everybody is refunded.
    pub frozen: bool,
}

/// The markets created since the ledger at which the window began.
#[derive(Clone, Copy, Debug, PartialEq, Eq)]
pub struct RateWindow {
    pub start: u32,
    pub count: u32,
}

} // verus!
