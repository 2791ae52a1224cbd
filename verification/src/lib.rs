//! The two front stages of a rigid-body collision pipeline: an incremental
//! broad phase that discovers and drops candidate collider pairs over a
//! spatial index, and a continuous-collision-detection estimator that turns a
//! candidate pair into an ordered time-of-impact candidate.
//!
//! All quantities are fixed-point integers, `SCALE` raw units per simulation
//! unit; shape-pair geometric queries are consumed through the
//! `QueryDispatcher` capability that a collaborator supplies.

pub mod bounds;
pub mod math;
pub mod index;
pub mod toi_entry;
pub mod broad_phase;

use vstd::prelude::*;

verus! {

/// Greatest magnitude, in raw fixed-point units, that any coordinate, time,
/// distance or velocity component handled by this crate may take. Keeping all
/// quantities within this range lets every intermediate product fit in `i128`.
pub const VAL_MAX: i64 = 1_000_000_000_000;

/// Number of raw fixed-point units per simulation unit.
pub const SCALE: i64 = 1_000_000;

/// A raw fixed-point quantity is in range when its magnitude is at most `VAL_MAX`.
pub open spec fn in_range(v: i64) -> bool {
    -VAL_MAX <= v <= VAL_MAX
}

/// Clamp a contact distance to its non-negative part.
pub fn nonneg(v: i64) -> (r: i64)
    requires
        in_range(v),
    ensures
        r == if v >= 0 { v as int } else { 0int },
{
    if v >= 0 { v } else { 0 }
}

} // verus!
