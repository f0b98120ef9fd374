//! The prediction market: markets, bets on either side, settlement, refunds
//! and the withdrawal of earned fees.
pub mod closing;
pub mod completeness;
pub mod contract;
pub mod duties;
pub mod fees;
pub mod finality;
pub mod governance;
pub mod history;
pub mod keeping;
pub mod laws;
pub mod promises;
pub mod refreshing;
pub mod rules;
pub mod settling;
pub mod solvency;
pub mod state;
pub mod treasury;
pub mod types;
