//! Access to the process random-number generator.
//!
//! Everything random in the renderer (scatter directions, defocus and
//! motion-blur sampling, free-flight distances) is derived in verified
//! code from raw draws obtained here.

use vstd::prelude::*;

verus! {

/// Relies on rand::random: a fresh draw from the thread-local generator.
/// Nothing is promised about the value; callers state what holds of every
/// outcome.
pub assume_specification<T>[ rand::random::<T> ]() -> (r: T)
    where
        rand::distr::StandardUniform: rand::distr::Distribution<T>,
;

/// A raw 64-bit draw.
pub fn random_u64() -> u64 {
    rand::random::<u64>()
}

/// A fixed-point draw in `[0, ONE)`, i.e. uniform over one unit.
pub fn random_unit_fx() -> (r: i64)
    ensures
        0 <= r < crate::fx::ONE,
{
    let x: u64 = rand::random::<u64>();
    (x % 65536) as i64
}

/// A fixed-point draw in `[min, max)` (empty ranges return `min`).
pub fn random_range_fx(min: i64, max: i64) -> (r: i64)
    requires
        -0x4000_0000_0000 <= min <= 0x4000_0000_0000,
        -0x4000_0000_0000 <= max <= 0x4000_0000_0000,
    ensures
        min <= max ==> min <= r <= max,
        min > max ==> r == min,
{
    if min >= max {
        return min;
    }
    let span: u64 = (max - min) as u64;
    let x: u64 = rand::random::<u64>();
    let off: u64 = x % span;
    min + (off as i64)
}

} // verus!
