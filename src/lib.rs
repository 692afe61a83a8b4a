//! Decision logic of a proof-of-work minting worker: difficulty selection,
//! seed-coin scheduling, batch selection, the durable submission queue and
//! the profit/loss fail-safe.

pub mod model;
pub mod difficulty;
pub mod batch;
pub mod seeds;
pub mod fees;
pub mod db;
pub mod codec;
pub mod queue;
pub mod worker;
pub mod address;
pub mod units;
