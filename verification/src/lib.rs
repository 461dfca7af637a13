//! A data-contribution marketplace engine: users contribute data into named
//! pools, buyers pay for time-bounded access to a pool, and each payment is
//! split proportionally among the pool's contributors, net of a platform fee.
//!
//! The engine is the accounting core only. The hosting environment supplies
//! the external collaborators: it authenticates callers before invoking the
//! engine, persists the engine value between calls, delivers events, and
//! passes the current time into every time-dependent operation as a plain
//! argument.

pub mod access;
pub mod distribution;
pub mod fees;
pub mod marketplace;
pub mod platform;
pub mod settlement;
pub mod types;
