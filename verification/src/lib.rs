//! A prediction market with a reward leaderboard, a capped reward token and a
//! registry of display names and referrals, as deterministic state machines.
//!
//! Each contract is a plain state value. An entry point reads the state and the
//! ledger position from [`env::Env`], decides, and either leaves everything as
//! it was and returns an error, or writes its new state and records in the
//! environment what the host has to do: which accounts must have signed, which
//! asset transfers and calls to make, which events to publish and which stored
//! entries to keep alive.
pub mod address;
pub mod env;
pub mod referral_registry;
pub mod sums;
pub mod table;
pub mod leaderboard;
pub mod prediction_market;
pub mod pulse_token;
