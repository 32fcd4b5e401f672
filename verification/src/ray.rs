//! Parametric rays with a motion-blur time stamp.

use vstd::prelude::*;
use crate::fx::{ONE, div_floor};
use crate::vec3::{Vec3, Point3, v_bounded};

verus! {

#[derive(Clone, Copy, Debug)]
pub struct Ray {
    pub orig: Point3,
    pub dir: Vec3,
    /// Time stamp in `[0, ONE]`, fixed point.
    pub ts: i64,
}

/// Component `i` of the point the ray reaches at fixed-point parameter `t`:
/// `orig + (t / ONE) * dir`, rounded toward negative infinity.
pub open spec fn ray_at_axis(orig: Vec3, dir: Vec3, t: int, i: int) -> int {
    orig.e[i] + div_floor(t * dir.e[i], ONE as int)
}

impl Ray {
    pub fn new(origin: Point3, direction: Vec3, timestamp: i64) -> (r: Ray)
        ensures
            r.orig == origin,
            r.dir == direction,
            r.ts == timestamp,
    {
        Ray { orig: origin, dir: direction, ts: timestamp }
    }

    /// Evaluate the ray at fixed-point parameter `t`.
    pub fn at(&self, t: i64) -> (p: Point3)
        requires
            v_bounded(self.orig, 0x4000_0000_0000_0000),
            v_bounded(self.dir, 0x8000_0000),
            -0x4000_0000_0000_0000_0000 <= t <= 0x4000_0000_0000_0000_0000,
            forall|i: int| 0 <= i < 3 ==>
                i64::MIN <= #[trigger] ray_at_axis(self.orig, self.dir, t as int, i) <= i64::MAX,
        ensures
            forall|i: int| 0 <= i < 3 ==>
                #[trigger] p.e[i] == ray_at_axis(self.orig, self.dir, t as int, i),
    {
        proof {
            let m = 0x4000_0000_0000_0000_0000int;
            assert forall|i: int| 0 <= i < 3 implies
                -(m * 0x8000_0000) <= #[trigger] (t * self.dir.e[i]) <= m * 0x8000_0000 by {
                crate::fx::lemma_mul_abs_bound(t as int, self.dir.e[i] as int, m, 0x8000_0000);
            }
            assert forall|i: int| 0 <= i < 3 implies
                -(m * 0x8000_0000) - 1 <= #[trigger] div_floor(t * self.dir.e[i], ONE as int)
                    <= m * 0x8000_0000 by {
                crate::fx::lemma_div_floor_quotient_abs(t * self.dir.e[i], ONE as int,
                    m * 0x8000_0000);
            }
        }
        let p0: i128 = (self.orig.e[0] as i128)
            + crate::fx::floor_div_i128((t as i128) * (self.dir.e[0] as i128), ONE as i128);
        let p1: i128 = (self.orig.e[1] as i128)
            + crate::fx::floor_div_i128((t as i128) * (self.dir.e[1] as i128), ONE as i128);
        let p2: i128 = (self.orig.e[2] as i128)
            + crate::fx::floor_div_i128((t as i128) * (self.dir.e[2] as i128), ONE as i128);
        Vec3 { e: [p0 as i64, p1 as i64, p2 as i64] }
    }
}

} // verus!
