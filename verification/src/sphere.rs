//! Spheres, static or linearly moving, with an exactly specified
//! intersection routine.
//!
//! The intersection decision (discriminant sign, root selection, window
//! and box membership) is computed in exact integer arithmetic, and the
//! contract pins the result to the spec-level mirrors below. Scene
//! geometry is kept within `GEOM_MAX` so every intermediate product fits
//! in `i128`.

use vstd::prelude::*;
use crate::fx::{ONE, div_floor, floor_div_i128, isqrt_u128, lemma_mul_abs_bound,
    lemma_div_floor_abs, lemma_div_floor_quotient_abs};
use crate::vec3::{Vec3, Point3, v_dot, v_bounded, sqrt_floor, is_isqrt, lemma_isqrt_unique};
use crate::ray::{Ray, ray_at_axis};
use crate::interval::Interval;
use crate::aabb::{Aabb, aabb_wf, aabb_finite, axis_iv, axis_pass, BOX_PAD,
    box_contains_param, ray_hits_box_at, in_window, pad_spec, corners_box, merge_spec};
use crate::hittable::{HitRecord, hit_sound, hit_within, oriented_normal};

verus! {

/// Magnitude bound on scene coordinates, radii and ray directions
/// (4096 scene units at the fixed-point scale).
pub const GEOM_MAX: i64 = 0x1000_0000;

#[derive(Clone, Copy, Debug)]
pub struct Sphere {
    /// Center as a ray: origin at time zero, direction the per-unit-time
    /// displacement (zero for static spheres).
    pub center: Ray,
    pub radius: i64,
    pub material: usize,
    pub aabb: Aabb,
}

/// Geometry bounds that the intersection routine needs.
pub open spec fn sphere_wf(s: Sphere) -> bool {
    &&& v_bounded(s.center.orig, GEOM_MAX as int)
    &&& v_bounded(s.center.dir, 2 * GEOM_MAX as int)
    &&& 0 <= s.radius <= GEOM_MAX
    &&& aabb_finite(s.aabb, 0x4000_0000)
}

/// Center at the ray's time stamp (fixed point, rounded like `Ray::at`).
pub open spec fn sph_cc(s: Sphere, ts: int, i: int) -> int {
    ray_at_axis(s.center.orig, s.center.dir, ts, i)
}

/// Squared direction length (`a` in the quadratic), scale `ONE * ONE`.
pub open spec fn sph_a(dir: Vec3) -> int {
    v_dot(dir, dir)
}

/// Half-b coefficient: `dir . (cc - orig)`, scale `ONE * ONE`.
pub open spec fn sph_h(s: Sphere, orig: Vec3, dir: Vec3, ts: int) -> int {
    dir.e[0] * (sph_cc(s, ts, 0) - orig.e[0]) + dir.e[1] * (sph_cc(s, ts, 1) - orig.e[1])
        + dir.e[2] * (sph_cc(s, ts, 2) - orig.e[2])
}

/// Constant coefficient: `|cc - orig|^2 - radius^2`, scale `ONE * ONE`.
pub open spec fn sph_c0(s: Sphere, orig: Vec3, ts: int) -> int {
    (sph_cc(s, ts, 0) - orig.e[0]) * (sph_cc(s, ts, 0) - orig.e[0])
        + (sph_cc(s, ts, 1) - orig.e[1]) * (sph_cc(s, ts, 1) - orig.e[1])
        + (sph_cc(s, ts, 2) - orig.e[2]) * (sph_cc(s, ts, 2) - orig.e[2])
        - s.radius * s.radius
}

/// Discriminant of the quadratic, scale `ONE^4`.
pub open spec fn sph_disc(s: Sphere, orig: Vec3, dir: Vec3, ts: int) -> int {
    sph_h(s, orig, dir, ts) * sph_h(s, orig, dir, ts) - sph_a(dir) * sph_c0(s, orig, ts)
}

/// The smaller root, as a fixed-point parameter (floor).
pub open spec fn sph_root0(s: Sphere, orig: Vec3, dir: Vec3, ts: int) -> int {
    div_floor(
        (sph_h(s, orig, dir, ts) - sqrt_floor(sph_disc(s, orig, dir, ts))) * (ONE as int),
        sph_a(dir),
    )
}

/// The larger root, as a fixed-point parameter (floor).
pub open spec fn sph_root1(s: Sphere, orig: Vec3, dir: Vec3, ts: int) -> int {
    div_floor(
        (sph_h(s, orig, dir, ts) + sqrt_floor(sph_disc(s, orig, dir, ts))) * (ONE as int),
        sph_a(dir),
    )
}

/// The parameter the routine reports, if any: the smaller root when it
/// lies strictly inside the query window, otherwise the larger one; the
/// winner must also put the exact ray point inside the sphere's padded
/// box.
pub open spec fn sph_chosen(s: Sphere, orig: Vec3, dir: Vec3, ts: int, tmin: int,
    tmax: int) -> Option<int> {
    if s.radius <= 0 || sph_a(dir) == 0 || sph_disc(s, orig, dir, ts) < 0 {
        None
    } else {
        let r0 = sph_root0(s, orig, dir, ts);
        let r1 = sph_root1(s, orig, dir, ts);
        if tmin < r0 < tmax {
            if ray_hits_box_at(s.aabb, orig, dir, r0, ONE as int) {
                Some(r0)
            } else {
                None
            }
        } else if tmin < r1 < tmax {
            if ray_hits_box_at(s.aabb, orig, dir, r1, ONE as int) {
                Some(r1)
            } else {
                None
            }
        } else {
            None
        }
    }
}

/// Outward normal at the reported parameter: `(p - cc) / radius`,
/// componentwise fixed-point division.
pub open spec fn sph_outward_vec(s: Sphere, orig: Vec3, dir: Vec3, ts: int, t: int) -> Vec3 {
    Vec3 {
        e: [
            div_floor((ray_at_axis(orig, dir, t, 0) - sph_cc(s, ts, 0)) * (ONE as int),
                s.radius as int) as i64,
            div_floor((ray_at_axis(orig, dir, t, 1) - sph_cc(s, ts, 1)) * (ONE as int),
                s.radius as int) as i64,
            div_floor((ray_at_axis(orig, dir, t, 2) - sph_cc(s, ts, 2)) * (ONE as int),
                s.radius as int) as i64,
        ],
    }
}

/// Corner of the padded sphere box: center plus or minus
/// `radius + BOX_PAD` on every axis.
pub open spec fn spec_sphere_corner(center: Vec3, radius: int, sign: int) -> Vec3 {
    Vec3 {
        e: [
            (center.e[0] + sign * (radius + BOX_PAD)) as i64,
            (center.e[1] + sign * (radius + BOX_PAD)) as i64,
            (center.e[2] + sign * (radius + BOX_PAD)) as i64,
        ],
    }
}

/// The padded box of a sphere of radius `rad` centered at `c`.
pub open spec fn sphere_box_spec(c: Vec3, rad: int) -> Aabb {
    pad_spec(corners_box(spec_sphere_corner(c, rad, -1), spec_sphere_corner(c, rad, 1)))
}

impl Sphere {
    /// A static sphere. The stored box spans the sphere plus `BOX_PAD`.
    pub fn new(center: Point3, radius: i64, material: usize) -> (s: Sphere)
        requires
            v_bounded(center, GEOM_MAX as int),
            -GEOM_MAX <= radius <= GEOM_MAX,
        ensures
            s.center.orig == center,
            forall|i: int| 0 <= i < 3 ==> #[trigger] s.center.dir.e[i] == 0,
            s.center.ts == 0,
            s.radius == if radius >= 0 { radius as int } else { 0 },
            s.material == material,
            s.aabb == sphere_box_spec(center, s.radius as int),
            sphere_wf(s),
    {
        let rad: i64 = if radius >= 0 { radius } else { 0 };
        let rv: i64 = rad + BOX_PAD;
        let lo = Vec3 { e: [center.e[0] - rv, center.e[1] - rv, center.e[2] - rv] };
        let hi = Vec3 { e: [center.e[0] + rv, center.e[1] + rv, center.e[2] + rv] };
        let aabb = Aabb::from_points(lo, hi);
        proof {
            assert(lo.e =~= spec_sphere_corner(center, rad as int, -1).e);
            assert(hi.e =~= spec_sphere_corner(center, rad as int, 1).e);
        }
        Sphere {
            center: Ray { orig: center, dir: Vec3 { e: [0, 0, 0] }, ts: 0 },
            radius: rad,
            material,
            aabb,
        }
    }

    /// A sphere whose center moves linearly from `center0` (time 0) to
    /// `center1` (time `ONE`). The box spans both extremes.
    pub fn new_moving(center0: Point3, center1: Point3, radius: i64, material: usize)
        -> (s: Sphere)
        requires
            v_bounded(center0, GEOM_MAX as int),
            v_bounded(center1, GEOM_MAX as int),
            -GEOM_MAX <= radius <= GEOM_MAX,
        ensures
            s.center.orig == center0,
            forall|i: int| 0 <= i < 3 ==>
                #[trigger] s.center.dir.e[i] == center1.e[i] - center0.e[i],
            s.center.ts == 0,
            s.radius == if radius >= 0 { radius as int } else { 0 },
            s.material == material,
            s.aabb == merge_spec(sphere_box_spec(center0, s.radius as int),
                sphere_box_spec(center1, s.radius as int)),
            sphere_wf(s),
    {
        let rad: i64 = if radius >= 0 { radius } else { 0 };
        let rv: i64 = rad + BOX_PAD;
        let lo0 = Vec3 { e: [center0.e[0] - rv, center0.e[1] - rv, center0.e[2] - rv] };
        let hi0 = Vec3 { e: [center0.e[0] + rv, center0.e[1] + rv, center0.e[2] + rv] };
        let lo1 = Vec3 { e: [center1.e[0] - rv, center1.e[1] - rv, center1.e[2] - rv] };
        let hi1 = Vec3 { e: [center1.e[0] + rv, center1.e[1] + rv, center1.e[2] + rv] };
        let box0 = Aabb::from_points(lo0, hi0);
        let box1 = Aabb::from_points(lo1, hi1);
        proof {
            assert(lo0.e =~= spec_sphere_corner(center0, rad as int, -1).e);
            assert(hi0.e =~= spec_sphere_corner(center0, rad as int, 1).e);
            assert(lo1.e =~= spec_sphere_corner(center1, rad as int, -1).e);
            assert(hi1.e =~= spec_sphere_corner(center1, rad as int, 1).e);
        }
        let dirv = Vec3 {
            e: [
                center1.e[0] - center0.e[0],
                center1.e[1] - center0.e[1],
                center1.e[2] - center0.e[2],
            ],
        };
        Sphere {
            center: Ray { orig: center0, dir: dirv, ts: 0 },
            radius: rad,
            material,
            aabb: box0.merge(&box1),
        }
    }

    pub fn bounding_box(&self) -> (r: Aabb)
        ensures
            r == self.aabb,
    {
        self.aabb
    }
}

/// Closest-hit query against a sphere. The decision and the reported
/// parameter are pinned exactly by `sph_chosen`; the record's point,
/// normal and orientation are pinned by the mirrors above.
pub fn sphere_hit(s: &Sphere, r: &Ray, ray_t: &Interval) -> (res: Option<HitRecord>)
    requires
        sphere_wf(*s),
        v_bounded(r.orig, GEOM_MAX as int),
        v_bounded(r.dir, GEOM_MAX as int),
        0 <= r.ts <= ONE,
        -0x4000_0000_0000_0000 <= ray_t.min <= 0x4000_0000_0000_0000,
        -0x4000_0000_0000_0000 <= ray_t.max <= 0x4000_0000_0000_0000,
    ensures
        hit_sound(s.aabb, r.orig, r.dir, ray_t.min as int, ray_t.max as int, res),
        res.is_some() == sph_chosen(*s, r.orig, r.dir, r.ts as int, ray_t.min as int,
            ray_t.max as int).is_some(),
        res.is_some() ==> sphere_record_ok(*s, *r, sph_chosen(*s, r.orig, r.dir, r.ts as int,
            ray_t.min as int, ray_t.max as int).unwrap(), res.unwrap()),
{
    if s.radius <= 0 {
        return None;
    }
    let ghost ts = r.ts as int;
    proof {
        assert forall|i: int| 0 <= i < 3 implies
            -0x4000_0000 <= #[trigger] ray_at_axis(s.center.orig, s.center.dir, ts, i)
                <= 0x4000_0000 by {
            lemma_mul_abs_bound(ts, s.center.dir.e[i] as int, 0x1_0000, 2 * GEOM_MAX as int);
            lemma_div_floor_quotient_abs(ts * s.center.dir.e[i], ONE as int,
                0x2_0000_0000_0000);
        }
    }
    let cc = s.center.at(r.ts);
    let oc0: i128 = (cc.e[0] as i128) - (r.orig.e[0] as i128);
    let oc1: i128 = (cc.e[1] as i128) - (r.orig.e[1] as i128);
    let oc2: i128 = (cc.e[2] as i128) - (r.orig.e[2] as i128);
    let d0: i128 = r.dir.e[0] as i128;
    let d1: i128 = r.dir.e[1] as i128;
    let d2: i128 = r.dir.e[2] as i128;
    proof {
        assert(oc0 == sph_cc(*s, ts, 0) - r.orig.e[0]);
        assert(oc1 == sph_cc(*s, ts, 1) - r.orig.e[1]);
        assert(oc2 == sph_cc(*s, ts, 2) - r.orig.e[2]);
        lemma_mul_abs_bound(d0 as int, d0 as int, 0x1000_0000, 0x1000_0000);
        lemma_mul_abs_bound(d1 as int, d1 as int, 0x1000_0000, 0x1000_0000);
        lemma_mul_abs_bound(d2 as int, d2 as int, 0x1000_0000, 0x1000_0000);
        lemma_mul_abs_bound(d0 as int, oc0 as int, 0x1000_0000, 0x8000_0000);
        lemma_mul_abs_bound(d1 as int, oc1 as int, 0x1000_0000, 0x8000_0000);
        lemma_mul_abs_bound(d2 as int, oc2 as int, 0x1000_0000, 0x8000_0000);
        lemma_mul_abs_bound(oc0 as int, oc0 as int, 0x8000_0000, 0x8000_0000);
        lemma_mul_abs_bound(oc1 as int, oc1 as int, 0x8000_0000, 0x8000_0000);
        lemma_mul_abs_bound(oc2 as int, oc2 as int, 0x8000_0000, 0x8000_0000);
        lemma_mul_abs_bound(s.radius as int, s.radius as int, 0x1000_0000, 0x1000_0000);
    }
    let a: i128 = d0 * d0 + d1 * d1 + d2 * d2;
    proof {
        assert(d0 * d0 >= 0 && d1 * d1 >= 0 && d2 * d2 >= 0) by (nonlinear_arith);
    }
    if a == 0 {
        return None;
    }
    let h: i128 = d0 * oc0 + d1 * oc1 + d2 * oc2;
    let c0: i128 = oc0 * oc0 + oc1 * oc1 + oc2 * oc2 - (s.radius as i128) * (s.radius as i128);
    proof {
        assert(a as int == sph_a(r.dir));
        assert(h as int == sph_h(*s, r.orig, r.dir, ts));
        assert(c0 as int == sph_c0(*s, r.orig, ts));
        lemma_mul_abs_bound(h as int, h as int, 0x2000_0000_0000_0000,
            0x2000_0000_0000_0000);
        lemma_mul_abs_bound(a as int, c0 as int, 0x400_0000_0000_0000,
            0x1_0000_0000_0000_0000);
    }
    let disc: i128 = h * h - a * c0;
    proof {
        assert(disc as int == sph_disc(*s, r.orig, r.dir, ts));
    }
    if disc < 0 {
        return None;
    }
    let sq: u128 = isqrt_u128(disc as u128);
    proof {
        lemma_isqrt_unique(disc as int, sq as int);
        assert(sq < 0x2_0000_0000_0000_0000u128) by (nonlinear_arith)
            requires
                sq * sq <= disc,
                disc <= 0x4_0000_0000_0000_0000_0000_0000_0000_0000int,
        ;
    }
    let sqi: i128 = sq as i128;
    proof {
        lemma_mul_abs_bound((h - sqi) as int, ONE as int, 0x4_0000_0000_0000_0000, 0x1_0000);
        lemma_mul_abs_bound((h + sqi) as int, ONE as int, 0x4_0000_0000_0000_0000, 0x1_0000);
    }
    let num0: i128 = (h - sqi) * (ONE as i128);
    let num1: i128 = (h + sqi) * (ONE as i128);
    let r0: i128 = floor_div_i128(num0, a);
    let r1: i128 = floor_div_i128(num1, a);
    proof {
        assert(r0 as int == sph_root0(*s, r.orig, r.dir, ts));
        assert(r1 as int == sph_root1(*s, r.orig, r.dir, ts));
        lemma_div_floor_abs(num0 as int, a as int, 0x4_0000_0000_0000_0000_0000);
        lemma_div_floor_abs(num1 as int, a as int, 0x4_0000_0000_0000_0000_0000);
    }
    let tmin: i128 = ray_t.min as i128;
    let tmax: i128 = ray_t.max as i128;
    let cand: i128 = if tmin < r0 && r0 < tmax {
        r0
    } else if tmin < r1 && r1 < tmax {
        r1
    } else {
        return None;
    };
    if !box_contains_param(&s.aabb, &r.orig, &r.dir, cand) {
        return None;
    }
    proof {
        assert(in_window(ray_t.min as int, ray_t.max as int, cand as int, ONE as int))
            by (nonlinear_arith)
            requires
                (ray_t.min as int) < cand as int,
                (cand as int) < ray_t.max as int,
                ONE == 65536,
        ;
    }
    let t: i64 = cand as i64;
    proof {
        assert(t as int == cand as int);
        assert(ray_hits_box_at(s.aabb, r.orig, r.dir, t as int, ONE as int));
        lemma_box_param_point_bounds(s.aabb, r.orig, r.dir, t as int, 0x4000_0000);
        assert forall|i: int| 0 <= i < 3 implies
            i64::MIN <= #[trigger] ray_at_axis(r.orig, r.dir, t as int, i) <= i64::MAX by {
            assert(-0x4000_0000 <= ray_at_axis(r.orig, r.dir, t as int, i) <= 0x4000_0000);
        }
    }
    let p = r.at(t);
    let n0: i128 = ((p.e[0] as i128) - (cc.e[0] as i128)) * (ONE as i128);
    let n1: i128 = ((p.e[1] as i128) - (cc.e[1] as i128)) * (ONE as i128);
    let n2: i128 = ((p.e[2] as i128) - (cc.e[2] as i128)) * (ONE as i128);
    proof {
        lemma_mul_abs_bound((p.e[0] - cc.e[0]) as int, ONE as int, 0x1_0000_0000, 0x1_0000);
        lemma_mul_abs_bound((p.e[1] - cc.e[1]) as int, ONE as int, 0x1_0000_0000, 0x1_0000);
        lemma_mul_abs_bound((p.e[2] - cc.e[2]) as int, ONE as int, 0x1_0000_0000, 0x1_0000);
        lemma_div_floor_abs(n0 as int, s.radius as int, 0x1_0000_0000_0000);
        lemma_div_floor_abs(n1 as int, s.radius as int, 0x1_0000_0000_0000);
        lemma_div_floor_abs(n2 as int, s.radius as int, 0x1_0000_0000_0000);
    }
    let outward = Vec3 {
        e: [
            floor_div_i128(n0, s.radius as i128) as i64,
            floor_div_i128(n1, s.radius as i128) as i64,
            floor_div_i128(n2, s.radius as i128) as i64,
        ],
    };
    proof {
        assert(outward.e =~= sph_outward_vec(*s, r.orig, r.dir, ts, cand as int).e);
    }
    let mut rec = HitRecord::new(p, t, (0, 0), s.material);
    rec.set_face_normal(r, &outward);
    Some(rec)
}

/// What the reported record holds when the chosen parameter is `t`.
pub open spec fn sphere_record_ok(s: Sphere, r: Ray, t: int, h: HitRecord) -> bool {
    &&& h.t == t
    &&& (forall|i: int| 0 <= i < 3 ==> #[trigger] h.p.e[i] == ray_at_axis(r.orig, r.dir, t, i))
    &&& h.material == s.material
    &&& h.uv == (0i64, 0i64)
    &&& h.front_face == (v_dot(r.dir, sph_outward_vec(s, r.orig, r.dir, r.ts as int, t)) < 0)
    &&& (forall|i: int| 0 <= i < 3 ==> #[trigger] h.normal.e[i] == oriented_normal(r.dir,
        sph_outward_vec(s, r.orig, r.dir, r.ts as int, t), i))
}

/// A parameter that passes the exact box test yields ray points within
/// the box's bounds (needed before calling `Ray::at`).
pub proof fn lemma_box_param_point_bounds(b: Aabb, o: Vec3, d: Vec3, t: int, m: int)
    requires
        aabb_finite(b, m),
        0 <= m,
        ray_hits_box_at(b, o, d, t, ONE as int),
    ensures
        forall|i: int| 0 <= i < 3 ==>
            -m <= #[trigger] ray_at_axis(o, d, t, i) <= m,
{
    assert forall|i: int| 0 <= i < 3 implies
        -m <= #[trigger] ray_at_axis(o, d, t, i) <= m by {
        assert(axis_pass(b, o, d, i, t, ONE as int));
        let mn = axis_iv(b, i).min as int;
        let mx = axis_iv(b, i).max as int;
        let pnum = o.e[i] * (ONE as int) + t * d.e[i];
        assert(mn * (ONE as int) < pnum < mx * (ONE as int));
        assert(ray_at_axis(o, d, t, i) == div_floor(pnum, ONE as int)) by {
            vstd::arithmetic::div_mod::lemma_hoist_over_denominator(t * d.e[i],
                o.e[i] as int, ONE as nat);
        }
        vstd::arithmetic::div_mod::lemma_div_is_ordered(mn * (ONE as int), pnum, ONE as int);
        vstd::arithmetic::div_mod::lemma_div_is_ordered(pnum, mx * (ONE as int), ONE as int);
        vstd::arithmetic::div_mod::lemma_div_multiples_vanish(mn, ONE as int);
        vstd::arithmetic::div_mod::lemma_div_multiples_vanish(mx, ONE as int);
    }
}

/// The full record reported for chosen parameter `t`, as a value.
pub open spec fn sphere_record(s: Sphere, r: Ray, t: int) -> HitRecord {
    let outv = sph_outward_vec(s, r.orig, r.dir, r.ts as int, t);
    HitRecord {
        p: Vec3 {
            e: [
                ray_at_axis(r.orig, r.dir, t, 0) as i64,
                ray_at_axis(r.orig, r.dir, t, 1) as i64,
                ray_at_axis(r.orig, r.dir, t, 2) as i64,
            ],
        },
        normal: Vec3 {
            e: [
                oriented_normal(r.dir, outv, 0) as i64,
                oriented_normal(r.dir, outv, 1) as i64,
                oriented_normal(r.dir, outv, 2) as i64,
            ],
        },
        t: t as i64,
        uv: (0i64, 0i64),
        front_face: v_dot(r.dir, outv) < 0,
        material: s.material,
    }
}

/// A record satisfying the fieldwise description is the record value.
pub proof fn lemma_sphere_record_eq(s: Sphere, r: Ray, t: int, h: HitRecord)
    requires
        sphere_record_ok(s, r, t, h),
        -0x8000_0000_0000_0000 <= t < 0x8000_0000_0000_0000,
    ensures
        h == sphere_record(s, r, t),
{
    let g = sphere_record(s, r, t);
    assert(h.p.e =~= g.p.e);
    assert(h.normal.e =~= g.normal.e);
    assert(h == g);
}

/// A ray aimed along a diameter of a sphere, with a unit direction,
/// meets it at parameters `center_distance - radius` and
/// `center_distance + radius`, exactly: the discriminant is a perfect
/// square and the fixed-point roots incur no rounding.
pub proof fn lemma_diameter_roots(sp: Sphere, orig: Vec3, dir: Vec3, ts: int, k: int)
    requires
        1 <= sp.radius,
        sph_a(dir) == (ONE as int) * (ONE as int),
        forall|i: int| 0 <= i < 3 ==>
            (ONE as int) * (sph_cc(sp, ts, i) - orig.e[i]) == k * (#[trigger] dir.e[i]),
        0 <= k,
    ensures
        sph_disc(sp, orig, dir, ts) >= 0,
        sph_root0(sp, orig, dir, ts) == k - sp.radius,
        sph_root1(sp, orig, dir, ts) == k + sp.radius,
{
    let s1 = ONE as int;
    let r = sp.radius as int;
    let oc0 = sph_cc(sp, ts, 0) - orig.e[0];
    let oc1 = sph_cc(sp, ts, 1) - orig.e[1];
    let oc2 = sph_cc(sp, ts, 2) - orig.e[2];
    let d0 = dir.e[0] as int;
    let d1 = dir.e[1] as int;
    let d2 = dir.e[2] as int;
    let h = sph_h(sp, orig, dir, ts);
    let c0 = sph_c0(sp, orig, ts);
    // The half-b coefficient: s1 * h == k * (d . d) == k * s1^2.
    assert(d0 * (s1 * oc0) == k * (d0 * d0)) by (nonlinear_arith)
        requires s1 * oc0 == k * d0;
    assert(d1 * (s1 * oc1) == k * (d1 * d1)) by (nonlinear_arith)
        requires s1 * oc1 == k * d1;
    assert(d2 * (s1 * oc2) == k * (d2 * d2)) by (nonlinear_arith)
        requires s1 * oc2 == k * d2;
    assert(s1 * h == s1 * (d0 * oc0) + s1 * (d1 * oc1) + s1 * (d2 * oc2))
        by (nonlinear_arith)
        requires h == d0 * oc0 + d1 * oc1 + d2 * oc2;
    assert(s1 * (d0 * oc0) == d0 * (s1 * oc0)) by (nonlinear_arith);
    assert(s1 * (d1 * oc1) == d1 * (s1 * oc1)) by (nonlinear_arith);
    assert(s1 * (d2 * oc2) == d2 * (s1 * oc2)) by (nonlinear_arith);
    assert(k * (d0 * d0) + k * (d1 * d1) + k * (d2 * d2)
        == k * (d0 * d0 + d1 * d1 + d2 * d2)) by (nonlinear_arith);
    assert(s1 * h == k * (s1 * s1));
    assert(h == k * s1) by (nonlinear_arith)
        requires
            s1 * h == k * (s1 * s1),
            s1 == 65536,
    ;
    // The squared center offset: s1^2 * |oc|^2 == k^2 * s1^2.
    assert((s1 * s1) * (oc0 * oc0) == (k * k) * (d0 * d0)) by (nonlinear_arith)
        requires s1 * oc0 == k * d0;
    assert((s1 * s1) * (oc1 * oc1) == (k * k) * (d1 * d1)) by (nonlinear_arith)
        requires s1 * oc1 == k * d1;
    assert((s1 * s1) * (oc2 * oc2) == (k * k) * (d2 * d2)) by (nonlinear_arith)
        requires s1 * oc2 == k * d2;
    assert((s1 * s1) * (oc0 * oc0 + oc1 * oc1 + oc2 * oc2)
        == (s1 * s1) * (oc0 * oc0) + (s1 * s1) * (oc1 * oc1) + (s1 * s1) * (oc2 * oc2))
        by (nonlinear_arith);
    assert((k * k) * (d0 * d0) + (k * k) * (d1 * d1) + (k * k) * (d2 * d2)
        == (k * k) * (d0 * d0 + d1 * d1 + d2 * d2)) by (nonlinear_arith);
    assert((s1 * s1) * (oc0 * oc0 + oc1 * oc1 + oc2 * oc2) == (k * k) * (s1 * s1));
    assert(oc0 * oc0 + oc1 * oc1 + oc2 * oc2 == k * k) by (nonlinear_arith)
        requires
            (s1 * s1) * (oc0 * oc0 + oc1 * oc1 + oc2 * oc2) == (k * k) * (s1 * s1),
            s1 == 65536,
    ;
    assert(c0 == k * k - r * r);
    // The discriminant is the perfect square (s1 * r)^2.
    let disc = sph_disc(sp, orig, dir, ts);
    assert(disc == (s1 * r) * (s1 * r)) by (nonlinear_arith)
        requires
            disc == h * h - (s1 * s1) * (k * k - r * r),
            h == k * s1,
    ;
    assert(disc >= 0) by (nonlinear_arith)
        requires disc == (s1 * r) * (s1 * r);
    assert(is_isqrt(disc, s1 * r)) by (nonlinear_arith)
        requires
            disc == (s1 * r) * (s1 * r),
            s1 * r >= 1,
    ;
    lemma_isqrt_unique(disc, s1 * r);
    // Exact division for both roots.
    assert((h - s1 * r) * s1 == (k - r) * (s1 * s1)) by (nonlinear_arith)
        requires h == k * s1;
    assert((h + s1 * r) * s1 == (k + r) * (s1 * s1)) by (nonlinear_arith)
        requires h == k * s1;
    vstd::arithmetic::div_mod::lemma_div_multiples_vanish(k - r, s1 * s1);
    vstd::arithmetic::div_mod::lemma_div_multiples_vanish(k + r, s1 * s1);
    assert((s1 * s1) * (k - r) == (k - r) * (s1 * s1)) by (nonlinear_arith);
    assert((s1 * s1) * (k + r) == (k + r) * (s1 * s1)) by (nonlinear_arith);
}

/// The hit-level diameter law: a static sphere queried along a diameter
/// (unit direction, origin at raw distance `k` before the center) reports
/// exactly the near root `k - radius` whenever the query window admits
/// it. The exact ray point at that root lies on the sphere's surface,
/// strictly inside the padded stored box, so the routine's box filter
/// never discards it.
pub proof fn lemma_diameter_hit(sp: Sphere, orig: Vec3, dir: Vec3, ts: int, k: int,
    tmin: int, tmax: int)
    requires
        1 <= sp.radius <= GEOM_MAX,
        forall|i: int| 0 <= i < 3 ==> #[trigger] sp.center.dir.e[i] == 0,
        sp.aabb == sphere_box_spec(sp.center.orig, sp.radius as int),
        v_bounded(sp.center.orig, GEOM_MAX as int),
        sph_a(dir) == (ONE as int) * (ONE as int),
        forall|i: int| 0 <= i < 3 ==>
            (ONE as int) * (sph_cc(sp, ts, i) - orig.e[i]) == k * (#[trigger] dir.e[i]),
        0 <= k,
        tmin < k - sp.radius < tmax,
    ensures
        sph_chosen(sp, orig, dir, ts, tmin, tmax) == Some(k - sp.radius as int),
{
    let s1 = ONE as int;
    let r = sp.radius as int;
    lemma_diameter_roots(sp, orig, dir, ts, k);
    let t0 = k - r;
    // The stationary center: the time interpolation moves nothing.
    assert forall|i: int| 0 <= i < 3 implies #[trigger] sph_cc(sp, ts, i)
        == sp.center.orig.e[i] by {
        assert(ts * sp.center.dir.e[i] == 0) by (nonlinear_arith)
            requires sp.center.dir.e[i] == 0;
        assert(div_floor(0, s1) == 0);
    }
    // Unit direction components stay within one unit.
    assert forall|i: int| 0 <= i < 3 implies -s1 <= #[trigger] dir.e[i] <= s1 by {
        assert(dir.e[i] * dir.e[i] <= (s1) * (s1)) by (nonlinear_arith)
            requires
                dir.e[0int] * dir.e[0int] + dir.e[1int] * dir.e[1int] + dir.e[2int]
                    * dir.e[2int] == s1 * s1,
                0 <= i < 3,
                dir.e[i] == dir.e[0int] || dir.e[i] == dir.e[1int] || dir.e[i]
                    == dir.e[2int],
        ;
        assert(-s1 <= dir.e[i] <= s1) by (nonlinear_arith)
            requires dir.e[i] * dir.e[i] <= s1 * s1, s1 == 65536;
    }
    // The exact ray point at the near root sits on the sphere: on each
    // axis it is the center displaced by `- r * dir / ONE`, within the
    // radius, hence strictly inside the padded box.
    assert(ray_hits_box_at(sp.aabb, orig, dir, t0, s1)) by {
        assert forall|i: int| 0 <= i < 3 implies #[trigger] axis_pass(sp.aabb, orig, dir, i,
            t0, s1) by {
            let c = sp.center.orig.e[i] as int;
            let d = dir.e[i] as int;
            // o * ONE + t0 * d == c * ONE - r * d.
            assert(orig.e[i] * s1 + t0 * d == c * s1 - r * d) by (nonlinear_arith)
                requires
                    s1 * (c - orig.e[i]) == k * d,
                    t0 == k - r,
            ;
            assert(-(r * s1) <= r * d <= r * s1) by (nonlinear_arith)
                requires -s1 <= d <= s1, 1 <= r;
            lemma_sphere_box_axis(sp.center.orig, r, i, sp.aabb);
            assert(axis_iv(sp.aabb, i).min * s1 < c * s1 - r * d) by (nonlinear_arith)
                requires
                    (axis_iv(sp.aabb, i).min as int) <= c - r - BOX_PAD + 4,
                    -(r * s1) <= r * d <= r * s1,
                    s1 == 65536,
                    BOX_PAD == 8192,
                    1 <= r,
            ;
            assert(c * s1 - r * d < axis_iv(sp.aabb, i).max * s1) by (nonlinear_arith)
                requires
                    (axis_iv(sp.aabb, i).max as int) >= c + r + BOX_PAD - 4,
                    -(r * s1) <= r * d <= r * s1,
                    s1 == 65536,
                    BOX_PAD == 8192,
                    1 <= r,
            ;
        }
    }
    assert(sph_disc(sp, orig, dir, ts) >= 0);
    assert(sph_a(dir) != 0);
}

/// Each axis of the padded sphere box brackets the center by at least the
/// radius plus most of the pad (the minimum-thickness padding can only
/// widen it further).
proof fn lemma_sphere_box_axis(c: Vec3, r: int, i: int, bx: Aabb)
    requires
        0 <= i < 3,
        1 <= r <= GEOM_MAX,
        v_bounded(c, GEOM_MAX as int),
        bx == sphere_box_spec(c, r),
    ensures
        (axis_iv(bx, i).min as int) <= c.e[i] - r - BOX_PAD + 4,
        (axis_iv(bx, i).max as int) >= c.e[i] + r + BOX_PAD - 4,
{
    let lo = spec_sphere_corner(c, r, -1);
    let hi = spec_sphere_corner(c, r, 1);
    assert forall|j: int| 0 <= j < 3 implies #[trigger] lo.e[j] == c.e[j] - r - BOX_PAD
        && hi.e[j] == c.e[j] + r + BOX_PAD by {
        assert(c.e[j] + (-1) * (r + BOX_PAD) == c.e[j] - r - BOX_PAD) by (nonlinear_arith);
        assert(c.e[j] + 1 * (r + BOX_PAD) == c.e[j] + r + BOX_PAD) by (nonlinear_arith);
    }
    let cb = crate::aabb::corners_box(lo, hi);
    if i == 0 {
        assert(axis_iv(bx, 0) == crate::aabb::pad_iv_spec(cb.x));
    } else if i == 1 {
        assert(axis_iv(bx, 1) == crate::aabb::pad_iv_spec(cb.y));
    } else {
        assert(axis_iv(bx, 2) == crate::aabb::pad_iv_spec(cb.z));
    }
}

} // verus!
