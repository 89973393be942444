//! Reputation and claim engines for a token-ownership registry.
//!
//! The reputation engine scores the senders of transfers, throttled by a
//! per-asset quota, and keeps a bounded leaderboard of the highest scores.
//! The claim engine releases a pending claim to whoever proves possession of
//! the private half of a one-time key.

pub mod access;
pub mod data_uri;
pub mod edition;
pub mod karma;
pub mod leaderboard;
pub mod linkdrop;
pub mod order;
pub mod quota;
pub mod restore;
pub mod signature;
