//! The leaderboard: decaying scores, a bounded list of the strongest players,
//! queued rewards and the admin's governance over players.
pub mod contract;
pub mod decay;
pub mod entries;
pub mod laws;
pub mod places;
pub mod promises;
pub mod ranking;
pub mod top;
pub mod top_model;
pub mod types;
pub mod top_proofs;
pub mod state;
