//! The reward token: balances, allowances, a list of authorized minters and a
//! supply ceiling that can only come down.
pub mod contract;
pub mod laws;
pub mod model;
pub mod promises;
