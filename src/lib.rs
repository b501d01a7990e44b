//! Input checks and solve planning for Bradley-Terry performance ratings.
//!
//! The Newton iteration itself runs in floating point and lives outside the
//! verified library; this crate decides, from plain values, whether a solve
//! request is acceptable, which iteration cap applies, and whether any
//! iteration is needed at all.

pub mod plan;

pub use plan::{plan_solve, BattleEntry, InputError, RatingEntry, SolvePlan, DEFAULT_MAX_ITERATIONS};
