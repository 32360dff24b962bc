//! Verified core of a prediction-market standard: outcome-token accounting,
//! the conditional token framework, the market lifecycle, optimistic and
//! multi-source oracle resolution, and the stake-weighted dispute vote.
pub mod errors;
pub mod fixed;
pub mod keys;
pub mod outcome_token;
pub mod market;
pub mod ctf;
pub mod oracle;
pub mod reputation;
pub mod executor;
