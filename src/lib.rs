//! Reward points for retail receipts: a scoring engine whose rules are
//! proved against their specification, and a store that keeps each score
//! under the identifier handed out for it.

pub mod decimal;
pub mod laws;
pub mod receipt;
pub mod rules;
pub mod store;
pub mod text;
