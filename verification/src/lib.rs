//! Activity accounting for a chat community: message counts per user, the
//! roles those counts earn, and the grants that bring a member's roles up to
//! what they have earned.

pub mod config;
pub mod counter;
pub mod engine;
pub mod error;
pub mod query;
pub mod reconcile;
pub mod roster;
pub mod runner;
pub mod text;
pub mod thresholds;
