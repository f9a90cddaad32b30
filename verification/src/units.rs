use vstd::prelude::*;

verus! {

/// Grid steps in one field unit.
pub const UNIT: i64 = 6000;

/// Clock steps in one second. Equal to [`UNIT`], so that a speed in field units
/// per second is the same number in grid steps per clock step.
pub const SECOND: u32 = 6000;

/// Clock steps in one frame of a sixty-frames-per-second loop.
pub const FRAME: u32 = 100;

/// Largest magnitude of a coordinate from which a trajectory may start or at
/// which it may aim, in grid steps.
pub const REACH: i64 = 2147483648;

} // verus!
