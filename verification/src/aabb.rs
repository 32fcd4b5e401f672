//! Axis-aligned bounding boxes and the slab intersection test.
//!
//! The slab test here is exact: instead of dividing by direction
//! components (which in the floating-point formulation yields signed
//! infinities), it keeps the running parameter range as a pair of exact
//! rationals and compares by cross-multiplication. Its contract is a full
//! characterization: the test succeeds exactly when some rational ray
//! parameter inside the query window puts the ray strictly inside the box
//! on every axis.

use vstd::prelude::*;
use crate::fx::{ONE, INF, lemma_mul_abs_bound};
use crate::interval::{Interval, iv_empty};
use crate::vec3::{Vec3, v_bounded};
use crate::ray::Ray;

verus! {

#[derive(Clone, Copy, Debug, PartialEq, Eq, Structural)]
pub struct Aabb {
    pub x: Interval,
    pub y: Interval,
    pub z: Interval,
}

/// Minimum axis thickness: degenerate (flat) boxes are widened so that the
/// slab test still sees a volume.
pub const MIN_THICKNESS: i64 = 8;

/// Extra margin added around primitive bounding boxes. It absorbs the
/// fixed-point rounding of reported hit parameters, so that the exact ray
/// point at an accepted parameter always lies strictly inside the
/// primitive's box: a parameter is off by less than one tick, so the
/// point is off by less than one tick times a direction component, below
/// 8192 for every direction within the geometry budget.
pub const BOX_PAD: i64 = 8192;

/// Interval of axis `i` (any index other than 1 or 2 selects `x`, as the
/// executable accessor does).
pub open spec fn axis_iv(b: Aabb, i: int) -> Interval {
    if i == 1 {
        b.y
    } else if i == 2 {
        b.z
    } else {
        b.x
    }
}

/// All bounds of `b` within magnitude `m`.
pub open spec fn aabb_finite(b: Aabb, m: int) -> bool {
    forall|i: int| 0 <= i < 3 ==>
        -m <= (#[trigger] axis_iv(b, i)).min <= m && -m <= axis_iv(b, i).max <= m
}

/// All box bounds within the sentinel magnitude (with room for the
/// minimum-thickness padding).
pub open spec fn aabb_wf(b: Aabb) -> bool {
    aabb_finite(b, (INF as int) + 4)
}

/// At rational ray parameter `tn / td` (with `td > 0`), the ray point
/// `o + (tn / td) * d` lies strictly inside the box's slab on axis `i`.
pub open spec fn axis_pass_s(amin: int, amax: int, o: int, d: int, tn: int, td: int) -> bool {
    amin * td < o * td + tn * d && o * td + tn * d < amax * td
}

pub open spec fn axis_pass(b: Aabb, o: Vec3, d: Vec3, i: int, tn: int, td: int) -> bool {
    axis_pass_s(axis_iv(b, i).min as int, axis_iv(b, i).max as int, o.e[i] as int,
        d.e[i] as int, tn, td)
}

/// The ray point at rational parameter `tn / td` is strictly inside the box.
pub open spec fn ray_hits_box_at(b: Aabb, o: Vec3, d: Vec3, tn: int, td: int) -> bool {
    forall|i: int| 0 <= i < 3 ==> #[trigger] axis_pass(b, o, d, i, tn, td)
}

/// The rational parameter `tn / td` lies strictly inside the query window
/// `(tmin / ONE, tmax / ONE)` (query bounds are fixed-point values).
pub open spec fn in_window(tmin: int, tmax: int, tn: int, td: int) -> bool {
    tmin * td < tn * (ONE as int) && tn * (ONE as int) < tmax * td
}

/// The slab test's exact meaning: some rational parameter in the query
/// window puts the ray strictly inside the box on every axis.
pub open spec fn aabb_hit_spec(b: Aabb, o: Vec3, d: Vec3, tmin: int, tmax: int) -> bool {
    exists|tn: int, td: int|
        td > 0 && #[trigger] in_window(tmin, tmax, tn, td) && ray_hits_box_at(b, o, d, tn, td)
}

/// Membership of `tn / td` in the open rational range
/// `(lon / lod, hin / hid)`.
/// `tn / td` exceeds `ln / ld` (both denominators positive).
pub open spec fn rat_gt(ln: int, ld: int, tn: int, td: int) -> bool {
    ln * td < tn * ld
}

/// `tn / td` is below `hn / hd` (both denominators positive).
pub open spec fn rat_lt(hn: int, hd: int, tn: int, td: int) -> bool {
    tn * hd < hn * td
}

pub open spec fn rat_in(lon: int, lod: int, hin: int, hid: int, tn: int, td: int) -> bool {
    rat_gt(lon, lod, tn, td) && rat_lt(hin, hid, tn, td)
}

/// Strict rational order is transitive (denominators positive).
proof fn lemma_rat_lt_trans(an: int, ad: int, bn: int, bd: int, cn: int, cd: int)
    requires
        ad >= 1,
        bd >= 1,
        cd >= 1,
        an * bd < bn * ad,
        bn * cd < cn * bd,
    ensures
        an * cd < cn * ad,
{
    assert(an * bd * cd < bn * ad * cd) by (nonlinear_arith)
        requires an * bd < bn * ad, cd >= 1;
    assert(bn * cd * ad < cn * bd * ad) by (nonlinear_arith)
        requires bn * cd < cn * bd, ad >= 1;
    assert(an * cd * bd < cn * ad * bd) by (nonlinear_arith)
        requires an * bd * cd < bn * ad * cd, bn * cd * ad < cn * bd * ad;
    assert(an * cd < cn * ad) by (nonlinear_arith)
        requires an * cd * bd < cn * ad * bd, bd >= 1;
}

/// A non-strict step followed by a strict step stays strict.
proof fn lemma_rat_le_lt_trans(an: int, ad: int, bn: int, bd: int, cn: int, cd: int)
    requires
        ad >= 1,
        bd >= 1,
        cd >= 1,
        an * bd <= bn * ad,
        bn * cd < cn * bd,
    ensures
        an * cd < cn * ad,
{
    assert(an * bd * cd <= bn * ad * cd) by (nonlinear_arith)
        requires an * bd <= bn * ad, cd >= 1;
    assert(bn * cd * ad < cn * bd * ad) by (nonlinear_arith)
        requires bn * cd < cn * bd, ad >= 1;
    assert(an * cd * bd < cn * ad * bd) by (nonlinear_arith)
        requires an * bd * cd <= bn * ad * cd, bn * cd * ad < cn * bd * ad;
    assert(an * cd < cn * ad) by (nonlinear_arith)
        requires an * cd * bd < cn * ad * bd, bd >= 1;
}

/// A strict step followed by a non-strict step stays strict.
proof fn lemma_rat_lt_le_trans(an: int, ad: int, bn: int, bd: int, cn: int, cd: int)
    requires
        ad >= 1,
        bd >= 1,
        cd >= 1,
        an * bd < bn * ad,
        bn * cd <= cn * bd,
    ensures
        an * cd < cn * ad,
{
    assert(an * bd * cd < bn * ad * cd) by (nonlinear_arith)
        requires an * bd < bn * ad, cd >= 1;
    assert(bn * cd * ad <= cn * bd * ad) by (nonlinear_arith)
        requires bn * cd <= cn * bd, ad >= 1;
    assert(an * cd * bd < cn * ad * bd) by (nonlinear_arith)
        requires an * bd * cd < bn * ad * cd, bn * cd * ad <= cn * bd * ad;
    assert(an * cd < cn * ad) by (nonlinear_arith)
        requires an * cd * bd < cn * ad * bd, bd >= 1;
}

/// The open rational range `(lon / lod, hin / hid)` holds some rational
/// exactly when its endpoints are strictly ordered.
proof fn lemma_rat_nonempty_iff(lon: int, lod: int, hin: int, hid: int)
    requires
        lod >= 1,
        hid >= 1,
    ensures
        (lon * hid < hin * lod) <==> exists|tn: int, td: int|
            td > 0 && #[trigger] rat_in(lon, lod, hin, hid, tn, td),
{
    if lon * hid < hin * lod {
        let tn = lon * hid + hin * lod;
        let td = 2 * lod * hid;
        assert(td > 0) by (nonlinear_arith)
            requires lod >= 1, hid >= 1, td == 2 * lod * hid;
        assert(lon * td < tn * lod && tn * hid < hin * td) by (nonlinear_arith)
            requires
                lon * hid < hin * lod,
                tn == lon * hid + hin * lod,
                td == 2 * lod * hid,
                lod >= 1,
                hid >= 1,
        ;
        assert(rat_in(lon, lod, hin, hid, tn, td));
    }
    if exists|tn: int, td: int| td > 0 && #[trigger] rat_in(lon, lod, hin, hid, tn, td) {
        let (tn, td) = choose|tn: int, td: int|
            td > 0 && #[trigger] rat_in(lon, lod, hin, hid, tn, td);
        lemma_rat_lt_trans(lon, lod, tn, td, hin, hid);
    }
}

/// One axis of the slab test. Given the running open rational parameter
/// range, intersect it with the axis constraint and report whether the
/// range is still nonempty. The returned range admits exactly the rational
/// parameters that the incoming range admitted and that pass this axis.
fn slab_axis(amin: i64, amax: i64, o: i64, d: i64, lon: i128, lod: i128, hin: i128, hid: i128)
    -> (res: (bool, i128, i128, i128, i128))
    requires
        1 <= lod <= 0x8000_0000,
        1 <= hid <= 0x8000_0000,
        -0x8000_0000_0000_0000 <= lon <= 0x8000_0000_0000_0000,
        -0x8000_0000_0000_0000 <= hin <= 0x8000_0000_0000_0000,
        -(INF as int) - 4 <= amin <= (INF as int) + 4,
        -(INF as int) - 4 <= amax <= (INF as int) + 4,
        -0x4000_0000 <= o <= 0x4000_0000,
        -0x4000_0000 <= d <= 0x4000_0000,
    ensures
        1 <= res.2 <= 0x8000_0000,
        1 <= res.4 <= 0x8000_0000,
        -0x8000_0000_0000_0000 <= res.1 <= 0x8000_0000_0000_0000,
        -0x8000_0000_0000_0000 <= res.3 <= 0x8000_0000_0000_0000,
        forall|tn: int, td: int| td > 0 ==>
            (#[trigger] rat_in(res.1 as int, res.2 as int, res.3 as int, res.4 as int, tn, td)
                <==> rat_in(lon as int, lod as int, hin as int, hid as int, tn, td)
                    && axis_pass_s(amin as int, amax as int, o as int, d as int, tn, td)),
        res.0 == (res.1 * res.4 < res.3 * res.2),
{
    if d == 0 {
        if amin < o && o < amax {
            proof {
                assert forall|tn: int, td: int| td > 0 implies
                    #[trigger] axis_pass_s(amin as int, amax as int, o as int, d as int, tn, td)
                    by {
                    assert(amin * td < o * td && o * td < amax * td) by (nonlinear_arith)
                        requires amin < o, o < amax, td > 0;
                }
            }
            proof {
                lemma_mul_abs_bound(lon as int, hid as int, 0x8000_0000_0000_0000,
                    0x8000_0000);
                lemma_mul_abs_bound(hin as int, lod as int, 0x8000_0000_0000_0000,
                    0x8000_0000);
            }
            let alive = lon * hid < hin * lod;
            (alive, lon, lod, hin, hid)
        } else {
            proof {
                assert forall|tn: int, td: int| td > 0 implies
                    !#[trigger] axis_pass_s(amin as int, amax as int, o as int, d as int, tn, td)
                    by {
                    assert(!(amin * td < o * td && o * td < amax * td)) by (nonlinear_arith)
                        requires !(amin < o && o < amax), td > 0;
                }
                assert forall|tn: int, td: int| td > 0 implies
                    !#[trigger] rat_in(0, 1, 0, 1, tn, td) by {
                }
            }
            (false, 0, 1, 0, 1)
        }
    } else {
        // Normalize the axis bounds to rationals with positive denominators.
        let (nearn, neard, farn, fard): (i128, i128, i128, i128) = if d > 0 {
            ((amin as i128) - (o as i128), d as i128, (amax as i128) - (o as i128), d as i128)
        } else {
            ((o as i128) - (amax as i128), -(d as i128), (o as i128) - (amin as i128), -(d as i128))
        };
        proof {
            // Passing the axis is exactly lying strictly between near and far.
            assert forall|tn: int, td: int| td > 0 implies
                (#[trigger] axis_pass_s(amin as int, amax as int, o as int, d as int, tn, td)
                    <==> (rat_gt(nearn as int, neard as int, tn, td)
                        && rat_lt(farn as int, fard as int, tn, td))) by {
                if d > 0 {
                    assert((amin * td < o * td + tn * d) <==> ((amin - o) * td < tn * d))
                        by (nonlinear_arith);
                    assert((o * td + tn * d < amax * td) <==> (tn * d < (amax - o) * td))
                        by (nonlinear_arith);
                } else {
                    assert((amin * td < o * td + tn * d) <==> (tn * (-d) < (o - amin) * td))
                        by (nonlinear_arith);
                    assert((o * td + tn * d < amax * td) <==> ((o - amax) * td < tn * (-d)))
                        by (nonlinear_arith);
                }
            }
        }
        proof {
            lemma_mul_abs_bound(nearn as int, lod as int, 0x8000_0000_0000_0000, 0x8000_0000);
            lemma_mul_abs_bound(lon as int, neard as int, 0x8000_0000_0000_0000, 0x8000_0000);
            lemma_mul_abs_bound(farn as int, hid as int, 0x8000_0000_0000_0000, 0x8000_0000);
            lemma_mul_abs_bound(hin as int, fard as int, 0x8000_0000_0000_0000, 0x8000_0000);
        }
        // Tighten the lower bound to max(lo, near).
        let (l2n, l2d): (i128, i128) = if nearn * lod > lon * neard {
            (nearn, neard)
        } else {
            (lon, lod)
        };
        proof {
            assert forall|tn: int, td: int| td > 0 implies
                (#[trigger] rat_gt(l2n as int, l2d as int, tn, td)
                    <==> (rat_gt(lon as int, lod as int, tn, td)
                        && rat_gt(nearn as int, neard as int, tn, td))) by {
                if nearn * lod > lon * neard {
                    if nearn * td < tn * neard {
                        lemma_rat_lt_trans(lon as int, lod as int, nearn as int, neard as int,
                            tn, td);
                    }
                } else {
                    if lon * td < tn * lod {
                        lemma_rat_le_lt_trans(nearn as int, neard as int, lon as int, lod as int,
                            tn, td);
                    }
                }
            }
        }
        // Tighten the upper bound to min(hi, far).
        let (h2n, h2d): (i128, i128) = if farn * hid < hin * fard {
            (farn, fard)
        } else {
            (hin, hid)
        };
        proof {
            assert forall|tn: int, td: int| td > 0 implies
                (#[trigger] rat_lt(h2n as int, h2d as int, tn, td)
                    <==> (rat_lt(hin as int, hid as int, tn, td)
                        && rat_lt(farn as int, fard as int, tn, td))) by {
                if farn * hid < hin * fard {
                    if tn * fard < farn * td {
                        lemma_rat_lt_trans(tn, td, farn as int, fard as int, hin as int,
                            hid as int);
                    }
                } else {
                    if tn * hid < hin * td {
                        lemma_rat_lt_le_trans(tn, td, hin as int, hid as int, farn as int,
                            fard as int);
                    }
                }
            }
        }
        proof {
            lemma_mul_abs_bound(l2n as int, h2d as int, 0x8000_0000_0000_0000, 0x8000_0000);
            lemma_mul_abs_bound(h2n as int, l2d as int, 0x8000_0000_0000_0000, 0x8000_0000);
        }
        let alive = l2n * h2d < h2n * l2d;
        (alive, l2n, l2d, h2n, h2d)
    }
}

impl Aabb {
    /// Build from per-axis intervals, padded to the minimum thickness.
    pub fn new(x: Interval, y: Interval, z: Interval) -> (r: Aabb)
        requires
            -(INF as int) <= x.min <= INF as int && -(INF as int) <= x.max <= INF as int,
            -(INF as int) <= y.min <= INF as int && -(INF as int) <= y.max <= INF as int,
            -(INF as int) <= z.min <= INF as int && -(INF as int) <= z.max <= INF as int,
        ensures
            r == pad_spec(Aabb { x, y, z }),
            aabb_wf(r),
    {
        let mut aabb = Aabb { x, y, z };
        aabb.pad_to_minimum();
        aabb
    }

    /// The box spanned by two corner points, padded to minimum thickness.
    pub fn from_points(a: Vec3, b: Vec3) -> (r: Aabb)
        requires
            v_bounded(a, 0x4000_0000_0000_0000),
            v_bounded(b, 0x4000_0000_0000_0000),
        ensures
            r == pad_spec(corners_box(a, b)),
            aabb_wf(r),
    {
        let x = if a.e[0] <= b.e[0] {
            Interval { min: a.e[0], max: b.e[0] }
        } else {
            Interval { min: b.e[0], max: a.e[0] }
        };
        let y = if a.e[1] <= b.e[1] {
            Interval { min: a.e[1], max: b.e[1] }
        } else {
            Interval { min: b.e[1], max: a.e[1] }
        };
        let z = if a.e[2] <= b.e[2] {
            Interval { min: a.e[2], max: b.e[2] }
        } else {
            Interval { min: b.e[2], max: a.e[2] }
        };
        let mut aabb = Aabb { x, y, z };
        aabb.pad_to_minimum();
        aabb
    }

    pub fn empty() -> (r: Aabb)
        ensures
            r.x.min == INF && r.x.max == -INF,
            r.y.min == INF && r.y.max == -INF,
            r.z.min == INF && r.z.max == -INF,
            aabb_wf(r),
    {
        Aabb { x: Interval::empty(), y: Interval::empty(), z: Interval::empty() }
    }

    pub fn universe() -> (r: Aabb)
        ensures
            r.x.min == -INF && r.x.max == INF,
            r.y.min == -INF && r.y.max == INF,
            r.z.min == -INF && r.z.max == INF,
            aabb_wf(r),
    {
        Aabb { x: Interval::universe(), y: Interval::universe(), z: Interval::universe() }
    }

    /// Axis interval by index; any index other than 1 or 2 selects `x`.
    pub fn axis_interval(&self, n: usize) -> (r: &Interval)
        ensures
            *r == axis_iv(*self, n as int),
    {
        match n {
            1 => &self.y,
            2 => &self.z,
            _ => &self.x,
        }
    }

    /// Exact slab test: true exactly when some rational ray parameter in
    /// the open query window puts the ray strictly inside the box on every
    /// axis (a direction component of zero demands that the origin lie
    /// strictly inside that axis's slab).
    pub fn hit(&self, r: &Ray, ray_t: Interval) -> (res: bool)
        requires
            aabb_wf(*self),
            v_bounded(r.orig, 0x4000_0000),
            v_bounded(r.dir, 0x4000_0000),
            -(INF as int) <= ray_t.min <= INF as int,
            -(INF as int) <= ray_t.max <= INF as int,
        ensures
            res == aabb_hit_spec(*self, r.orig, r.dir, ray_t.min as int, ray_t.max as int),
    {
        proof {
            assert(axis_iv(*self, 0) == self.x);
            assert(axis_iv(*self, 1) == self.y);
            assert(axis_iv(*self, 2) == self.z);
        }
        let o = r.orig;
        let d = r.dir;
        let l0n: i128 = ray_t.min as i128;
        let h0n: i128 = ray_t.max as i128;
        let sd: i128 = ONE as i128;
        let ghost tmin = ray_t.min as int;
        let ghost tmax = ray_t.max as int;

        let (alive1, l1n, l1d, h1n, h1d) =
            slab_axis(self.x.min, self.x.max, o.e[0], d.e[0], l0n, sd, h0n, sd);
        proof {
            assert forall|tn: int, td: int| td > 0 implies
                (#[trigger] rat_in(l1n as int, l1d as int, h1n as int, h1d as int, tn, td)
                    <==> in_window(tmin, tmax, tn, td)
                        && axis_pass(*self, o, d, 0, tn, td)) by {
                assert(rat_in(l0n as int, sd as int, h0n as int, sd as int, tn, td)
                    == in_window(tmin, tmax, tn, td));
            }
        }
        if !alive1 {
            proof {
                lemma_rat_nonempty_iff(l1n as int, l1d as int, h1n as int, h1d as int);
                assert(!aabb_hit_spec(*self, o, d, tmin, tmax)) by {
                    if aabb_hit_spec(*self, o, d, tmin, tmax) {
                        let (tn, td) = choose|tn: int, td: int|
                            td > 0 && #[trigger] in_window(tmin, tmax, tn, td)
                                && ray_hits_box_at(*self, o, d, tn, td);
                        assert(axis_pass(*self, o, d, 0, tn, td));
                        assert(rat_in(l1n as int, l1d as int, h1n as int, h1d as int, tn, td));
                    }
                }
            }
            return false;
        }

        let (alive2, l2n, l2d, h2n, h2d) =
            slab_axis(self.y.min, self.y.max, o.e[1], d.e[1], l1n, l1d, h1n, h1d);
        proof {
            assert forall|tn: int, td: int| td > 0 implies
                (#[trigger] rat_in(l2n as int, l2d as int, h2n as int, h2d as int, tn, td)
                    <==> in_window(tmin, tmax, tn, td)
                        && axis_pass(*self, o, d, 0, tn, td)
                        && axis_pass(*self, o, d, 1, tn, td)) by {
            }
        }
        if !alive2 {
            proof {
                lemma_rat_nonempty_iff(l2n as int, l2d as int, h2n as int, h2d as int);
                assert(!aabb_hit_spec(*self, o, d, tmin, tmax)) by {
                    if aabb_hit_spec(*self, o, d, tmin, tmax) {
                        let (tn, td) = choose|tn: int, td: int|
                            td > 0 && #[trigger] in_window(tmin, tmax, tn, td)
                                && ray_hits_box_at(*self, o, d, tn, td);
                        assert(axis_pass(*self, o, d, 0, tn, td));
                        assert(axis_pass(*self, o, d, 1, tn, td));
                        assert(rat_in(l2n as int, l2d as int, h2n as int, h2d as int, tn, td));
                    }
                }
            }
            return false;
        }

        let (alive3, l3n, l3d, h3n, h3d) =
            slab_axis(self.z.min, self.z.max, o.e[2], d.e[2], l2n, l2d, h2n, h2d);
        proof {
            assert forall|tn: int, td: int| td > 0 implies
                (#[trigger] rat_in(l3n as int, l3d as int, h3n as int, h3d as int, tn, td)
                    <==> in_window(tmin, tmax, tn, td)
                        && ray_hits_box_at(*self, o, d, tn, td)) by {
                if rat_in(l3n as int, l3d as int, h3n as int, h3d as int, tn, td) {
                    assert(axis_pass(*self, o, d, 0, tn, td));
                    assert(axis_pass(*self, o, d, 1, tn, td));
                    assert(axis_pass(*self, o, d, 2, tn, td));
                    assert forall|i: int| 0 <= i < 3 implies
                        #[trigger] axis_pass(*self, o, d, i, tn, td) by {
                        if i == 0 {
                        } else if i == 1 {
                        } else {
                        }
                    }
                }
                if in_window(tmin, tmax, tn, td) && ray_hits_box_at(*self, o, d, tn, td) {
                    assert(axis_pass(*self, o, d, 0, tn, td));
                    assert(axis_pass(*self, o, d, 1, tn, td));
                    assert(axis_pass(*self, o, d, 2, tn, td));
                    assert(rat_in(l1n as int, l1d as int, h1n as int, h1d as int, tn, td));
                    assert(rat_in(l2n as int, l2d as int, h2n as int, h2d as int, tn, td));
                    assert(rat_in(l3n as int, l3d as int, h3n as int, h3d as int, tn, td));
                }
            }
            lemma_rat_nonempty_iff(l3n as int, l3d as int, h3n as int, h3d as int);
            if alive3 {
                let (tn, td) = choose|tn: int, td: int|
                    td > 0 && #[trigger] rat_in(l3n as int, l3d as int, h3n as int, h3d as int,
                        tn, td);
                assert(in_window(tmin, tmax, tn, td));
                assert(aabb_hit_spec(*self, o, d, tmin, tmax));
            } else {
                assert(!aabb_hit_spec(*self, o, d, tmin, tmax)) by {
                    if aabb_hit_spec(*self, o, d, tmin, tmax) {
                        let (tn, td) = choose|tn: int, td: int|
                            td > 0 && #[trigger] in_window(tmin, tmax, tn, td)
                                && ray_hits_box_at(*self, o, d, tn, td);
                        assert(rat_in(l3n as int, l3d as int, h3n as int, h3d as int, tn, td));
                    }
                }
            }
        }
        alive3
    }

    /// Bounding union.
    pub fn merge(&self, other: &Aabb) -> (r: Aabb)
        ensures
            r == merge_spec(*self, *other),
    {
        Aabb {
            x: self.x.merge(&other.x),
            y: self.y.merge(&other.y),
            z: self.z.merge(&other.z),
        }
    }

    /// Index of the widest axis; on ties the earlier axis wins (x, then
    /// y, then z).
    pub fn longest_axis(&self) -> (r: usize)
        requires
            forall|i: int| 0 <= i < 3 ==>
                i64::MIN <= (#[trigger] axis_iv(*self, i)).max - axis_iv(*self, i).min
                    <= i64::MAX,
        ensures
            r == longest_axis_spec(*self),
    {
        proof {
            assert(axis_iv(*self, 0) == self.x);
            assert(axis_iv(*self, 1) == self.y);
            assert(axis_iv(*self, 2) == self.z);
        }
        let sx = self.x.size();
        let sy = self.y.size();
        let sz = self.z.size();
        if sx >= sy && sx >= sz {
            0
        } else if sy >= sz {
            1
        } else {
            2
        }
    }

    /// Widen every axis thinner than the minimum thickness.
    pub fn pad_to_minimum(&mut self)
        requires
            -(INF as int) <= old(self).x.min <= INF as int,
            -(INF as int) <= old(self).x.max <= INF as int,
            -(INF as int) <= old(self).y.min <= INF as int,
            -(INF as int) <= old(self).y.max <= INF as int,
            -(INF as int) <= old(self).z.min <= INF as int,
            -(INF as int) <= old(self).z.max <= INF as int,
        ensures
            *final(self) == pad_spec(*old(self)),
            aabb_wf(*final(self)),
    {
        if (self.x.max as i128) - (self.x.min as i128) < MIN_THICKNESS as i128 {
            self.x.expand(MIN_THICKNESS);
        }
        if (self.y.max as i128) - (self.y.min as i128) < MIN_THICKNESS as i128 {
            self.y.expand(MIN_THICKNESS);
        }
        if (self.z.max as i128) - (self.z.min as i128) < MIN_THICKNESS as i128 {
            self.z.expand(MIN_THICKNESS);
        }
    }

    /// The box translated by `offset`.
    pub fn add(&self, offset: &Vec3) -> (r: Aabb)
        requires
            aabb_finite(*self, 0x4000_0000_0000),
            v_bounded(*offset, 0x4000_0000),
        ensures
            forall|i: int| 0 <= i < 3 ==>
                (#[trigger] axis_iv(r, i)).min == axis_iv(*self, i).min + offset.e[i]
                && axis_iv(r, i).max == axis_iv(*self, i).max + offset.e[i],
    {
        proof {
            assert(axis_iv(*self, 0) == self.x);
            assert(axis_iv(*self, 1) == self.y);
            assert(axis_iv(*self, 2) == self.z);
        }
        Aabb {
            x: self.x.shift(offset.e[0]),
            y: self.y.shift(offset.e[1]),
            z: self.z.shift(offset.e[2]),
        }
    }

    /// The box widened by `m` on every side.
    pub fn outset(&self, m: i64) -> (r: Aabb)
        requires
            0 <= m <= 0x1_0000_0000,
            aabb_finite(*self, 0x4000_0000_0000),
        ensures
            forall|i: int| 0 <= i < 3 ==>
                (#[trigger] axis_iv(r, i)).min == axis_iv(*self, i).min - m
                && axis_iv(r, i).max == axis_iv(*self, i).max + m,
    {
        proof {
            assert(axis_iv(*self, 0) == self.x);
            assert(axis_iv(*self, 1) == self.y);
            assert(axis_iv(*self, 2) == self.z);
        }
        Aabb {
            x: Interval { min: self.x.min - m, max: self.x.max + m },
            y: Interval { min: self.y.min - m, max: self.y.max + m },
            z: Interval { min: self.z.min - m, max: self.z.max + m },
        }
    }

    /// Merge of a whole collection, starting from the empty sentinel.
    pub fn from_iter(items: &Vec<Aabb>) -> (r: Aabb)
        ensures
            r == boxes_fold(items@, items@.len() as int),
    {
        let mut acc = Aabb::empty();
        let mut k: usize = 0;
        while k < items.len()
            invariant
                k <= items@.len(),
                acc == boxes_fold(items@, k as int),
            decreases items@.len() - k,
        {
            acc = acc.merge(&items[k]);
            k = k + 1;
        }
        acc
    }
}

/// One interval widened when thinner than the minimum thickness.
pub open spec fn pad_iv_spec(iv: Interval) -> Interval {
    if iv.max - iv.min < MIN_THICKNESS {
        Interval {
            min: (iv.min - MIN_THICKNESS / 2) as i64,
            max: (iv.max + MIN_THICKNESS / 2) as i64,
        }
    } else {
        iv
    }
}

/// Every axis padded to minimum thickness.
pub open spec fn pad_spec(b: Aabb) -> Aabb {
    Aabb { x: pad_iv_spec(b.x), y: pad_iv_spec(b.y), z: pad_iv_spec(b.z) }
}

/// The unpadded box spanned by two corner points.
pub open spec fn corners_box(a: Vec3, b: Vec3) -> Aabb {
    Aabb {
        x: Interval {
            min: if a.e[0] <= b.e[0] { a.e[0] } else { b.e[0] },
            max: if a.e[0] <= b.e[0] { b.e[0] } else { a.e[0] },
        },
        y: Interval {
            min: if a.e[1] <= b.e[1] { a.e[1] } else { b.e[1] },
            max: if a.e[1] <= b.e[1] { b.e[1] } else { a.e[1] },
        },
        z: Interval {
            min: if a.e[2] <= b.e[2] { a.e[2] } else { b.e[2] },
            max: if a.e[2] <= b.e[2] { b.e[2] } else { a.e[2] },
        },
    }
}

/// The longest-axis choice, ties resolved x, then y, then z.
pub open spec fn longest_axis_spec(b: Aabb) -> int {
    let sx = b.x.max - b.x.min;
    let sy = b.y.max - b.y.min;
    let sz = b.z.max - b.z.min;
    if sx >= sy && sx >= sz {
        0
    } else if sy >= sz {
        1
    } else {
        2
    }
}

/// Fold of `merge` over the first `k` boxes, starting from the empty box.
pub open spec fn boxes_fold(items: Seq<Aabb>, k: int) -> Aabb
    decreases k,
{
    if k <= 0 {
        Aabb {
            x: Interval { min: INF, max: (-INF) as i64 },
            y: Interval { min: INF, max: (-INF) as i64 },
            z: Interval { min: INF, max: (-INF) as i64 },
        }
    } else {
        merge_spec(boxes_fold(items, k - 1), items[k - 1])
    }
}

/// Spec-level bounding union.
pub open spec fn merge_spec(a: Aabb, b: Aabb) -> Aabb {
    Aabb {
        x: Interval {
            min: if a.x.min <= b.x.min { a.x.min } else { b.x.min },
            max: if a.x.max >= b.x.max { a.x.max } else { b.x.max },
        },
        y: Interval {
            min: if a.y.min <= b.y.min { a.y.min } else { b.y.min },
            max: if a.y.max >= b.y.max { a.y.max } else { b.y.max },
        },
        z: Interval {
            min: if a.z.min <= b.z.min { a.z.min } else { b.z.min },
            max: if a.z.max >= b.z.max { a.z.max } else { b.z.max },
        },
    }
}

/// Exact membership test: is the ray point at fixed-point parameter `t`
/// strictly inside the box on every axis? This is the reported-hit
/// invariant that every surface's intersection routine establishes.
pub fn box_contains_param(b: &Aabb, o: &Vec3, d: &Vec3, t: i128) -> (res: bool)
    requires
        aabb_wf(*b),
        v_bounded(*o, 0x4000_0000),
        v_bounded(*d, 0x4000_0000),
        -0x1_0000_0000_0000_0000_0000 <= t <= 0x1_0000_0000_0000_0000_0000,
    ensures
        res == ray_hits_box_at(*b, *o, *d, t as int, ONE as int),
{
    proof {
        assert(axis_iv(*b, 0) == b.x);
        assert(axis_iv(*b, 1) == b.y);
        assert(axis_iv(*b, 2) == b.z);
        let m = 0x1_0000_0000_0000_0000_0000int;
        lemma_mul_abs_bound(t as int, o.e[0] as int, m, 0x4000_0000);
        lemma_mul_abs_bound(t as int, d.e[0] as int, m, 0x4000_0000);
        lemma_mul_abs_bound(t as int, d.e[1] as int, m, 0x4000_0000);
        lemma_mul_abs_bound(t as int, d.e[2] as int, m, 0x4000_0000);
    }
    let s: i128 = ONE as i128;
    let p0: i128 = (o.e[0] as i128) * s + t * (d.e[0] as i128);
    let p1: i128 = (o.e[1] as i128) * s + t * (d.e[1] as i128);
    let p2: i128 = (o.e[2] as i128) * s + t * (d.e[2] as i128);
    let ok = (b.x.min as i128) * s < p0 && p0 < (b.x.max as i128) * s
        && (b.y.min as i128) * s < p1 && p1 < (b.y.max as i128) * s
        && (b.z.min as i128) * s < p2 && p2 < (b.z.max as i128) * s;
    proof {
        if ok {
            assert forall|i: int| 0 <= i < 3 implies
                #[trigger] axis_pass(*b, *o, *d, i, t as int, ONE as int) by {
                if i == 0 {
                } else if i == 1 {
                } else {
                }
            }
        } else {
            if ray_hits_box_at(*b, *o, *d, t as int, ONE as int) {
                assert(axis_pass(*b, *o, *d, 0, t as int, ONE as int));
                assert(axis_pass(*b, *o, *d, 1, t as int, ONE as int));
                assert(axis_pass(*b, *o, *d, 2, t as int, ONE as int));
            }
        }
    }
    ok
}

/// One axis of the translation argument: shifting slab bounds and origin
/// by the same amount does not change whether the ray point passes.
pub proof fn lemma_axis_pass_translate(
    amin: int,
    amax: int,
    o: int,
    d: int,
    v: int,
    tn: int,
    td: int,
)
    ensures
        axis_pass_s(amin + v, amax + v, o + v, d, tn, td) == axis_pass_s(amin, amax, o, d, tn,
            td),
{
    assert(((amin + v) * td < (o + v) * td + tn * d && (o + v) * td + tn * d < (amax + v) * td)
        == (amin * td < o * td + tn * d && o * td + tn * d < amax * td)) by (nonlinear_arith);
}

/// Translating the box and the ray origin by the same vector leaves the
/// slab test's outcome unchanged.
pub proof fn lemma_hit_translation_invariant(
    b: Aabb,
    o: Vec3,
    d: Vec3,
    v: Vec3,
    b2: Aabb,
    o2: Vec3,
    tmin: int,
    tmax: int,
)
    requires
        forall|i: int| 0 <= i < 3 ==>
            (#[trigger] axis_iv(b2, i)).min == axis_iv(b, i).min + v.e[i]
            && axis_iv(b2, i).max == axis_iv(b, i).max + v.e[i],
        forall|i: int| 0 <= i < 3 ==> #[trigger] o2.e[i] == o.e[i] + v.e[i],
    ensures
        aabb_hit_spec(b2, o2, d, tmin, tmax) == aabb_hit_spec(b, o, d, tmin, tmax),
{
    assert forall|tn: int, td: int| td > 0 implies
        (ray_hits_box_at(b2, o2, d, tn, td) <==> ray_hits_box_at(b, o, d, tn, td)) by {
        assert forall|i: int| 0 <= i < 3 implies
            (#[trigger] axis_pass(b2, o2, d, i, tn, td) <==> axis_pass(b, o, d, i, tn, td)) by {
            assert(axis_iv(b2, i).min == axis_iv(b, i).min + v.e[i]);
            assert(axis_iv(b2, i).max == axis_iv(b, i).max + v.e[i]);
            assert(o2.e[i] == o.e[i] + v.e[i]);
            lemma_axis_pass_translate(axis_iv(b, i).min as int, axis_iv(b, i).max as int,
                o.e[i] as int, d.e[i] as int, v.e[i] as int, tn, td);
        }
        if ray_hits_box_at(b2, o2, d, tn, td) {
            assert forall|i: int| 0 <= i < 3 implies #[trigger] axis_pass(b, o, d, i, tn, td)
                by {
                assert(axis_pass(b2, o2, d, i, tn, td));
            }
            assert(ray_hits_box_at(b, o, d, tn, td));
        }
        if ray_hits_box_at(b, o, d, tn, td) {
            assert forall|i: int| 0 <= i < 3 implies #[trigger] axis_pass(b2, o2, d, i, tn, td)
                by {
                assert(axis_pass(b, o, d, i, tn, td));
            }
            assert(ray_hits_box_at(b2, o2, d, tn, td));
        }
    }
    if aabb_hit_spec(b2, o2, d, tmin, tmax) {
        let (tn, td) = choose|tn: int, td: int|
            td > 0 && #[trigger] in_window(tmin, tmax, tn, td) && ray_hits_box_at(b2, o2, d, tn,
                td);
        assert(in_window(tmin, tmax, tn, td) && ray_hits_box_at(b, o, d, tn, td));
    }
    if aabb_hit_spec(b, o, d, tmin, tmax) {
        let (tn, td) = choose|tn: int, td: int|
            td > 0 && #[trigger] in_window(tmin, tmax, tn, td) && ray_hits_box_at(b, o, d, tn,
                td);
        assert(in_window(tmin, tmax, tn, td) && ray_hits_box_at(b2, o2, d, tn, td));
    }
}

} // verus!
