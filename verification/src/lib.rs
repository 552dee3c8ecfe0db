//! Rules of a generalized N-by-N, K-in-a-row board game together with the
//! discrete parts of a self-play trainer, each function carrying a contract
//! that Verus proves.

pub mod board;
pub mod cell;
mod chance;
pub mod diagonals;
pub mod environment;
pub mod policy;
pub mod progress;
pub mod runs;
pub mod schedule;
pub mod streak;
pub mod trainer;
