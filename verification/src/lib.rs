//! A roulette wheel, a player who raises the stake while losing, and the
//! ranking of many such players, with every function verified against its
//! contract.
//!
//! Money is counted in whole units: a stake is a `u64`, the amounts won and
//! lost are `i128`.

pub mod enums;
pub mod player;
pub mod render;
pub mod report;
pub mod roulette;
pub mod simulation;
