//! The registry of display names and referrals.
pub mod contract;
pub mod laws;
pub mod model;
pub mod promises;
