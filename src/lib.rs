//! Population-based stochastic search: a fixed set of Gaussian guessers
//! ("Burts") evolves toward a hidden target through rounds of evaluation,
//! ranking, teacher-to-learner transfer and random mutation.
//!
//! Distribution parameters are fixed-point integers counted in millionths of
//! a unit, and rates are counted in parts per million.
use vstd::prelude::*;

pub mod burt;
pub mod gang;
pub mod input;
pub mod laws;
pub mod random;
pub mod ranking;
pub mod text;
pub mod ui;

pub use burt::{distance_from, judge_draw, Burt, DrawOutcome, MAX_DRAWS};
pub use gang::{populate_burts, BurtGang, ConfigError, IndexOutOfRange, Policy, TrainingDraw};
pub use input::get_in_range;
pub use ranking::rank;
pub use ui::{Event, MenuItem};

verus! {

/// Millionths in one unit: means and standard deviations are stored in
/// these fixed-point units.
pub const UNIT: u64 = 1_000_000;

/// A rate of one, in parts per million.
pub const RATE_ONE: u32 = 1_000_000;

} // verus!
