//! Closed scalar intervals over fixed-point values.
//!
//! The empty and universal sentinels use the `INF` magnitude from
//! [`crate::fx`]; integer `min`/`max` arithmetic then treats them the way
//! a floating-point formulation would treat signed infinities.

use vstd::prelude::*;
use crate::fx::INF;

verus! {

#[derive(Clone, Copy, Debug, PartialEq, Eq, Structural)]
pub struct Interval {
    pub min: i64,
    pub max: i64,
}

/// An interval is empty when its bounds are crossed.
pub open spec fn iv_empty(iv: Interval) -> bool {
    iv.min > iv.max
}

impl Interval {
    pub fn new(min: i64, max: i64) -> (r: Interval)
        ensures
            r.min == min,
            r.max == max,
    {
        Interval { min, max }
    }

    /// The empty sentinel: `[+INF, -INF]`.
    pub fn empty() -> (r: Interval)
        ensures
            r.min == INF,
            r.max == -INF,
            iv_empty(r),
    {
        Interval { min: INF, max: -INF }
    }

    /// The universal sentinel: `[-INF, +INF]`.
    pub fn universe() -> (r: Interval)
        ensures
            r.min == -INF,
            r.max == INF,
    {
        Interval { min: -INF, max: INF }
    }

    pub fn size(&self) -> (r: i64)
        requires
            i64::MIN <= self.max - self.min <= i64::MAX,
        ensures
            r == self.max - self.min,
    {
        self.max - self.min
    }

    pub fn contains(&self, x: i64) -> (r: bool)
        ensures
            r == (self.min <= x <= self.max),
    {
        self.min <= x && x <= self.max
    }

    pub fn surrounds(&self, x: i64) -> (r: bool)
        ensures
            r == (self.min < x < self.max),
    {
        self.min < x && x < self.max
    }

    pub fn clamp(&self, x: i64) -> (r: i64)
        ensures
            r == if x < self.min {
                self.min as int
            } else if x > self.max {
                self.max as int
            } else {
                x as int
            },
    {
        if x < self.min {
            self.min
        } else if x > self.max {
            self.max
        } else {
            x
        }
    }

    /// Widen by `delta / 2` on each side.
    pub fn expand(&mut self, delta: i64)
        requires
            0 <= delta,
            i64::MIN <= old(self).min - delta / 2,
            old(self).max + delta / 2 <= i64::MAX,
        ensures
            final(self).min == old(self).min - delta / 2,
            final(self).max == old(self).max + delta / 2,
    {
        let padding: i64 = delta / 2;
        self.min = self.min - padding;
        self.max = self.max + padding;
    }

    /// Union of bounds. When at least one input is nonempty, the result is
    /// nonempty (the data-model invariant for merges).
    pub fn merge(&self, other: &Interval) -> (r: Interval)
        ensures
            r.min == if self.min <= other.min { self.min as int } else { other.min as int },
            r.max == if self.max >= other.max { self.max as int } else { other.max as int },
            !iv_empty(*self) || !iv_empty(*other) ==> !iv_empty(r),
    {
        Interval {
            min: if self.min <= other.min { self.min } else { other.min },
            max: if self.max >= other.max { self.max } else { other.max },
        }
    }

    /// Merge of a whole collection, starting from the empty sentinel when
    /// the collection is empty.
    pub fn from_iter(items: &Vec<Interval>) -> (r: Interval)
        ensures
            r.min == iv_fold_min(items@, items@.len() as int),
            r.max == iv_fold_max(items@, items@.len() as int),
    {
        let mut acc = Interval::empty();
        let mut k: usize = 0;
        while k < items.len()
            invariant
                k <= items@.len(),
                acc.min == iv_fold_min(items@, k as int),
                acc.max == iv_fold_max(items@, k as int),
            decreases items@.len() - k,
        {
            acc = acc.merge(&items[k]);
            k = k + 1;
        }
        acc
    }

    /// Shift both endpoints by `offset`.
    pub fn shift(&self, offset: i64) -> (r: Interval)
        requires
            i64::MIN <= self.min + offset <= i64::MAX,
            i64::MIN <= self.max + offset <= i64::MAX,
        ensures
            r.min == self.min + offset,
            r.max == self.max + offset,
    {
        Interval { min: self.min + offset, max: self.max + offset }
    }
}

/// Smallest lower bound among the first `k` intervals (starting from the
/// empty sentinel's `+INF`).
pub open spec fn iv_fold_min(items: Seq<Interval>, k: int) -> int
    decreases k,
{
    if k <= 0 {
        INF as int
    } else {
        let prev = iv_fold_min(items, k - 1);
        if prev <= items[k - 1].min {
            prev
        } else {
            items[k - 1].min as int
        }
    }
}

/// Largest upper bound among the first `k` intervals.
pub open spec fn iv_fold_max(items: Seq<Interval>, k: int) -> int
    decreases k,
{
    if k <= 0 {
        -INF as int
    } else {
        let prev = iv_fold_max(items, k - 1);
        if prev >= items[k - 1].max {
            prev
        } else {
            items[k - 1].max as int
        }
    }
}

} // verus!
