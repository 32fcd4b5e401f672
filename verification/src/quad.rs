//! Planar parallelogram patches (quads).
//!
//! A quad is an anchor point plus two edge vectors. The plane equation is
//! kept with the exact (rescaled) cross-product normal, so the hit test
//! is a pure integer computation whose contract pins result and planar
//! coordinates exactly.

use vstd::prelude::*;
use crate::fx::{ONE, div_floor, floor_div_i128, lemma_mul_abs_bound, lemma_div_floor_abs};
use crate::vec3::{Vec3, Point3, v_dot, v_cross, v_bounded, sqrt_floor};
use crate::ray::{Ray, ray_at_axis};
use crate::interval::Interval;
use crate::aabb::{Aabb, aabb_finite, box_contains_param, ray_hits_box_at, in_window, BOX_PAD};
use crate::hittable::{HitRecord, hit_sound, oriented_normal, Surface, surf_wf, box_covers};
use crate::sphere::{GEOM_MAX, lemma_box_param_point_bounds};

verus! {

#[derive(Clone, Copy, Debug)]
pub struct Quad {
    pub p0: Point3,
    pub u: Vec3,
    pub v: Vec3,
    pub material: usize,
    pub aabb: Aabb,
    /// Plane normal: the cross product `u x v`, rescaled to component
    /// scale (not normalized).
    pub n: Vec3,
    /// Plane offset: `n . p0`, exact, at scale `ONE * ONE`.
    pub d: i128,
    /// Unit-length version of `n` (zero when the quad is degenerate).
    pub normal: Vec3,
}

/// Geometry bounds the intersection routine needs.
pub open spec fn quad_wf(q: Quad) -> bool {
    &&& v_bounded(q.p0, GEOM_MAX as int)
    &&& v_bounded(q.u, GEOM_MAX as int)
    &&& v_bounded(q.v, GEOM_MAX as int)
    &&& v_bounded(q.n, 0x400_0000_0000)
    &&& v_bounded(q.normal, ONE as int)
    &&& -0x1000_0000_0000_0000_0000 <= q.d <= 0x1000_0000_0000_0000_0000
    &&& aabb_finite(q.aabb, 0x4000_0000)
}

/// Denominator of the plane equation: `n . dir`, scale `ONE * ONE`.
pub open spec fn quad_denom(q: Quad, dir: Vec3) -> int {
    v_dot(q.n, dir)
}

/// The fixed-point plane-crossing parameter (floor).
pub open spec fn quad_t(q: Quad, orig: Vec3, dir: Vec3) -> int {
    div_floor((q.d - v_dot(q.n, orig)) * (ONE as int), quad_denom(q, dir))
}

/// Denominator of the planar coordinates: `(v x u) . n`, scale `ONE^5`.
pub open spec fn quad_ab_denom(q: Quad) -> int {
    v_cross(q.v, q.u, 0) * q.n.e[0] + v_cross(q.v, q.u, 1) * q.n.e[1]
        + v_cross(q.v, q.u, 2) * q.n.e[2]
}

/// Spec-level point on the ray at fixed-point parameter `t`.
pub open spec fn ray_point(orig: Vec3, dir: Vec3, t: int) -> Vec3 {
    Vec3 {
        e: [
            ray_at_axis(orig, dir, t, 0) as i64,
            ray_at_axis(orig, dir, t, 1) as i64,
            ray_at_axis(orig, dir, t, 2) as i64,
        ],
    }
}

/// Numerator of the alpha coordinate at hit point `p`: `(v x (p - p0)) . n`.
pub open spec fn quad_alpha_num(q: Quad, p: Vec3) -> int {
    let q0 = p.e[0] - q.p0.e[0];
    let q1 = p.e[1] - q.p0.e[1];
    let q2 = p.e[2] - q.p0.e[2];
    (q.v.e[1] * q2 - q.v.e[2] * q1) * q.n.e[0] + (q.v.e[2] * q0 - q.v.e[0] * q2) * q.n.e[1]
        + (q.v.e[0] * q1 - q.v.e[1] * q0) * q.n.e[2]
}

/// Numerator of the beta coordinate at hit point `p`: `((p - p0) x u) . n`.
pub open spec fn quad_beta_num(q: Quad, p: Vec3) -> int {
    let q0 = p.e[0] - q.p0.e[0];
    let q1 = p.e[1] - q.p0.e[1];
    let q2 = p.e[2] - q.p0.e[2];
    (q1 * q.u.e[2] - q2 * q.u.e[1]) * q.n.e[0] + (q2 * q.u.e[0] - q0 * q.u.e[2]) * q.n.e[1]
        + (q0 * q.u.e[1] - q1 * q.u.e[0]) * q.n.e[2]
}

/// Planar alpha coordinate, fixed point (floor).
pub open spec fn quad_alpha(q: Quad, p: Vec3) -> int {
    div_floor(quad_alpha_num(q, p) * (ONE as int), quad_ab_denom(q))
}

/// Planar beta coordinate, fixed point (floor).
pub open spec fn quad_beta(q: Quad, p: Vec3) -> int {
    div_floor(quad_beta_num(q, p) * (ONE as int), quad_ab_denom(q))
}

/// The parameter the routine reports, if any: the plane crossing must lie
/// strictly inside the query window, the exact ray point must lie inside
/// the quad's padded box, the quad must be nondegenerate, and the planar
/// coordinates must both lie in `[0, ONE]`.
pub open spec fn quad_chosen(q: Quad, orig: Vec3, dir: Vec3, tmin: int, tmax: int)
    -> Option<int> {
    if quad_denom(q, dir) == 0 {
        None
    } else {
        let t = quad_t(q, orig, dir);
        if !(tmin < t < tmax) {
            None
        } else if !ray_hits_box_at(q.aabb, orig, dir, t, ONE as int) {
            None
        } else if quad_ab_denom(q) == 0 {
            None
        } else {
            let p = ray_point(orig, dir, t);
            if 0 <= quad_alpha(q, p) <= ONE as int && 0 <= quad_beta(q, p) <= ONE as int {
                Some(t)
            } else {
                None
            }
        }
    }
}

/// The corner `p0 + u + v` of a quad's parallelogram.
pub open spec fn quad_corner(p0: Vec3, a: Vec3, b: Vec3) -> Vec3 {
    Vec3 {
        e: [
            (p0.e[0] + a.e[0] + b.e[0]) as i64,
            (p0.e[1] + a.e[1] + b.e[1]) as i64,
            (p0.e[2] + a.e[2] + b.e[2]) as i64,
        ],
    }
}

/// The corner `p0 + a` of a quad's parallelogram.
pub open spec fn quad_edge_corner(p0: Vec3, a: Vec3) -> Vec3 {
    Vec3 { e: [(p0.e[0] + a.e[0]) as i64, (p0.e[1] + a.e[1]) as i64, (p0.e[2] + a.e[2]) as i64] }
}

/// The stored quad box before the outset: the bounding union of the two
/// diagonal corner boxes, each padded to minimum thickness.
pub open spec fn quad_box_core(p0: Vec3, u: Vec3, v: Vec3) -> Aabb {
    crate::aabb::merge_spec(
        crate::aabb::pad_spec(crate::aabb::corners_box(p0, quad_corner(p0, u, v))),
        crate::aabb::pad_spec(crate::aabb::corners_box(quad_edge_corner(p0, v),
            quad_edge_corner(p0, u))),
    )
}

impl Quad {
    /// Anchor and two edges. Precomputes the plane normal, plane offset,
    /// unit normal and the padded bounding box of the four corners.
    #[verifier::rlimit(100)]
    #[verifier::spinoff_prover]
    pub fn new(p0: Point3, u: Vec3, v: Vec3, material: usize) -> (q: Quad)
        requires
            v_bounded(p0, GEOM_MAX as int),
            v_bounded(u, GEOM_MAX as int),
            v_bounded(v, GEOM_MAX as int),
        ensures
            q.p0 == p0,
            q.u == u,
            q.v == v,
            q.material == material,
            forall|i: int| 0 <= i < 3 ==>
                #[trigger] q.n.e[i] == div_floor(v_cross(u, v, i), ONE as int),
            q.d == v_dot(q.n, p0),
            quad_wf(q),
            forall|i: int| 0 <= i < 3 ==>
                (#[trigger] crate::aabb::axis_iv(q.aabb, i)).min == crate::aabb::axis_iv(
                    quad_box_core(p0, u, v), i).min - BOX_PAD
                && crate::aabb::axis_iv(q.aabb, i).max == crate::aabb::axis_iv(
                    quad_box_core(p0, u, v), i).max + BOX_PAD,
            v_dot(q.n, q.n) >= 1 ==> forall|i: int| 0 <= i < 3 ==>
                #[trigger] q.normal.e[i] == div_floor(q.n.e[i] * (ONE as int),
                    sqrt_floor(v_dot(q.n, q.n))),
            v_dot(q.n, q.n) == 0 ==> forall|i: int| 0 <= i < 3 ==>
                #[trigger] q.normal.e[i] == 0,
    {
        let n = u.cross(&v);
        proof {
            let m = 0x1000_0000int;
            assert forall|i: int| 0 <= i < 3 implies
                -0x400_0000_0000 <= #[trigger] n.e[i] <= 0x400_0000_0000 by {
                lemma_mul_abs_bound(u.e[1] as int, v.e[2] as int, m, m);
                lemma_mul_abs_bound(u.e[2] as int, v.e[1] as int, m, m);
                lemma_mul_abs_bound(u.e[2] as int, v.e[0] as int, m, m);
                lemma_mul_abs_bound(u.e[0] as int, v.e[2] as int, m, m);
                lemma_mul_abs_bound(u.e[0] as int, v.e[1] as int, m, m);
                lemma_mul_abs_bound(u.e[1] as int, v.e[0] as int, m, m);
                crate::fx::lemma_div_floor_quotient_abs(v_cross(u, v, i), ONE as int,
                    0x4_0000_0000_0000_0000);
            }
        }
        let d = n.dot(&p0);
        proof {
            lemma_mul_abs_bound(n.e[0] as int, p0.e[0] as int, 0x400_0000_0000, 0x1000_0000);
            lemma_mul_abs_bound(n.e[1] as int, p0.e[1] as int, 0x400_0000_0000, 0x1000_0000);
            lemma_mul_abs_bound(n.e[2] as int, p0.e[2] as int, 0x400_0000_0000, 0x1000_0000);
        }
        let lensq = n.length_squared();
        let normal = if lensq == 0 {
            Vec3 { e: [0, 0, 0] }
        } else {
            n.unit_vector()
        };
        let corner_uv = Vec3 {
            e: [
                p0.e[0] + u.e[0] + v.e[0],
                p0.e[1] + u.e[1] + v.e[1],
                p0.e[2] + u.e[2] + v.e[2],
            ],
        };
        let corner_u = Vec3 { e: [p0.e[0] + u.e[0], p0.e[1] + u.e[1], p0.e[2] + u.e[2]] };
        let corner_v = Vec3 { e: [p0.e[0] + v.e[0], p0.e[1] + v.e[1], p0.e[2] + v.e[2]] };
        proof {
            assert(corner_uv.e =~= quad_corner(p0, u, v).e);
            assert(corner_u.e =~= quad_edge_corner(p0, u).e);
            assert(corner_v.e =~= quad_edge_corner(p0, v).e);
        }
        let box1 = Aabb::from_points(p0, corner_uv);
        let box2 = Aabb::from_points(corner_v, corner_u);
        let aabb = box1.merge(&box2).outset(BOX_PAD);
        Quad { p0, u, v, material, aabb, n, d, normal }
    }

    pub fn bounding_box(&self) -> (r: Aabb)
        ensures
            r == self.aabb,
    {
        self.aabb
    }

    /// Both planar coordinates within `[0, ONE]` accept the point as
    /// inside the parallelogram (this is the tie-break between "on the
    /// quad" and "on the infinite plane").
    pub fn is_interior(&self, alpha: i64, beta: i64) -> (r: bool)
        ensures
            r == (0 <= alpha <= ONE as int && 0 <= beta <= ONE as int),
    {
        let unit = Interval::new(0, ONE);
        unit.contains(alpha) && unit.contains(beta)
    }
}

/// Closest-hit query against a quad: result pinned by `quad_chosen`, the
/// reported planar coordinates by `quad_alpha` / `quad_beta`.
#[verifier::rlimit(80)]
pub fn quad_hit(q: &Quad, r: &Ray, ray_t: &Interval) -> (res: Option<HitRecord>)
    requires
        quad_wf(*q),
        v_bounded(r.orig, GEOM_MAX as int),
        v_bounded(r.dir, GEOM_MAX as int),
        -0x4000_0000_0000_0000 <= ray_t.min <= 0x4000_0000_0000_0000,
        -0x4000_0000_0000_0000 <= ray_t.max <= 0x4000_0000_0000_0000,
    ensures
        hit_sound(q.aabb, r.orig, r.dir, ray_t.min as int, ray_t.max as int, res),
        res.is_some() == quad_chosen(*q, r.orig, r.dir, ray_t.min as int,
            ray_t.max as int).is_some(),
        res.is_some() ==> quad_record_ok(*q, *r, quad_chosen(*q, r.orig, r.dir,
            ray_t.min as int, ray_t.max as int).unwrap(), res.unwrap()),
{
    proof {
        lemma_mul_abs_bound(q.n.e[0] as int, r.dir.e[0] as int, 0x400_0000_0000, 0x1000_0000);
        lemma_mul_abs_bound(q.n.e[1] as int, r.dir.e[1] as int, 0x400_0000_0000, 0x1000_0000);
        lemma_mul_abs_bound(q.n.e[2] as int, r.dir.e[2] as int, 0x400_0000_0000, 0x1000_0000);
        lemma_mul_abs_bound(q.n.e[0] as int, r.orig.e[0] as int, 0x400_0000_0000, 0x1000_0000);
        lemma_mul_abs_bound(q.n.e[1] as int, r.orig.e[1] as int, 0x400_0000_0000, 0x1000_0000);
        lemma_mul_abs_bound(q.n.e[2] as int, r.orig.e[2] as int, 0x400_0000_0000, 0x1000_0000);
    }
    let denom: i128 = (q.n.e[0] as i128) * (r.dir.e[0] as i128)
        + (q.n.e[1] as i128) * (r.dir.e[1] as i128)
        + (q.n.e[2] as i128) * (r.dir.e[2] as i128);
    if denom == 0 {
        return None;
    }
    let n_dot_o: i128 = (q.n.e[0] as i128) * (r.orig.e[0] as i128)
        + (q.n.e[1] as i128) * (r.orig.e[1] as i128)
        + (q.n.e[2] as i128) * (r.orig.e[2] as i128);
    let tnum: i128 = (q.d - n_dot_o) * (ONE as i128);
    proof {
        assert(denom as int == quad_denom(*q, r.dir));
        assert(n_dot_o as int == v_dot(q.n, r.orig));
        lemma_mul_abs_bound((q.d - n_dot_o) as int, ONE as int, 0x2000_0000_0000_0000_0000,
            0x1_0000);
    }
    let t128: i128 = if denom > 0 {
        floor_div_i128(tnum, denom)
    } else {
        floor_div_i128(-tnum, -denom)
    };
    proof {
        assert(t128 as int == quad_t(*q, r.orig, r.dir));
        lemma_div_floor_abs(tnum as int, denom as int, 0x2_0000_0000_0000_0000_0000_0000);
    }
    let tmin: i128 = ray_t.min as i128;
    let tmax: i128 = ray_t.max as i128;
    if !(tmin < t128 && t128 < tmax) {
        return None;
    }
    if !box_contains_param(&q.aabb, &r.orig, &r.dir, t128) {
        return None;
    }
    let t: i64 = t128 as i64;
    proof {
        assert(t as int == t128 as int);
        assert(in_window(ray_t.min as int, ray_t.max as int, t as int, ONE as int))
            by (nonlinear_arith)
            requires
                (ray_t.min as int) < t as int,
                (t as int) < ray_t.max as int,
                ONE == 65536,
        ;
        lemma_box_param_point_bounds(q.aabb, r.orig, r.dir, t as int, 0x4000_0000);
        assert forall|i: int| 0 <= i < 3 implies
            i64::MIN <= #[trigger] ray_at_axis(r.orig, r.dir, t as int, i) <= i64::MAX by {
            assert(-0x4000_0000 <= ray_at_axis(r.orig, r.dir, t as int, i) <= 0x4000_0000);
        }
    }
    let p = r.at(t);
    proof {
        assert(p.e =~= ray_point(r.orig, r.dir, t as int).e);
    }
    let qp0: i128 = (p.e[0] as i128) - (q.p0.e[0] as i128);
    let qp1: i128 = (p.e[1] as i128) - (q.p0.e[1] as i128);
    let qp2: i128 = (p.e[2] as i128) - (q.p0.e[2] as i128);
    proof {
        let em = 0x1000_0000int;
        let qm = 0x8000_0000int;
        lemma_mul_abs_bound(q.v.e[1] as int, qp2 as int, em, qm);
        lemma_mul_abs_bound(q.v.e[2] as int, qp1 as int, em, qm);
        lemma_mul_abs_bound(q.v.e[2] as int, qp0 as int, em, qm);
        lemma_mul_abs_bound(q.v.e[0] as int, qp2 as int, em, qm);
        lemma_mul_abs_bound(q.v.e[0] as int, qp1 as int, em, qm);
        lemma_mul_abs_bound(q.v.e[1] as int, qp0 as int, em, qm);
        lemma_mul_abs_bound(qp1 as int, q.u.e[2] as int, qm, em);
        lemma_mul_abs_bound(qp2 as int, q.u.e[1] as int, qm, em);
        lemma_mul_abs_bound(qp2 as int, q.u.e[0] as int, qm, em);
        lemma_mul_abs_bound(qp0 as int, q.u.e[2] as int, qm, em);
        lemma_mul_abs_bound(qp0 as int, q.u.e[1] as int, qm, em);
        lemma_mul_abs_bound(qp1 as int, q.u.e[0] as int, qm, em);
        lemma_mul_abs_bound(q.v.e[1] as int, q.u.e[2] as int, em, em);
        lemma_mul_abs_bound(q.v.e[2] as int, q.u.e[1] as int, em, em);
        lemma_mul_abs_bound(q.v.e[2] as int, q.u.e[0] as int, em, em);
        lemma_mul_abs_bound(q.v.e[0] as int, q.u.e[2] as int, em, em);
        lemma_mul_abs_bound(q.v.e[0] as int, q.u.e[1] as int, em, em);
        lemma_mul_abs_bound(q.v.e[1] as int, q.u.e[0] as int, em, em);
    }
    let ca0: i128 = (q.v.e[1] as i128) * qp2 - (q.v.e[2] as i128) * qp1;
    let ca1: i128 = (q.v.e[2] as i128) * qp0 - (q.v.e[0] as i128) * qp2;
    let ca2: i128 = (q.v.e[0] as i128) * qp1 - (q.v.e[1] as i128) * qp0;
    let cb0: i128 = qp1 * (q.u.e[2] as i128) - qp2 * (q.u.e[1] as i128);
    let cb1: i128 = qp2 * (q.u.e[0] as i128) - qp0 * (q.u.e[2] as i128);
    let cb2: i128 = qp0 * (q.u.e[1] as i128) - qp1 * (q.u.e[0] as i128);
    let cd0: i128 = (q.v.e[1] as i128) * (q.u.e[2] as i128)
        - (q.v.e[2] as i128) * (q.u.e[1] as i128);
    let cd1: i128 = (q.v.e[2] as i128) * (q.u.e[0] as i128)
        - (q.v.e[0] as i128) * (q.u.e[2] as i128);
    let cd2: i128 = (q.v.e[0] as i128) * (q.u.e[1] as i128)
        - (q.v.e[1] as i128) * (q.u.e[0] as i128);
    proof {
        let cm = 0x1_0000_0000_0000_0000int;
        let nm = 0x400_0000_0000int;
        lemma_mul_abs_bound(ca0 as int, q.n.e[0] as int, cm, nm);
        lemma_mul_abs_bound(ca1 as int, q.n.e[1] as int, cm, nm);
        lemma_mul_abs_bound(ca2 as int, q.n.e[2] as int, cm, nm);
        lemma_mul_abs_bound(cb0 as int, q.n.e[0] as int, cm, nm);
        lemma_mul_abs_bound(cb1 as int, q.n.e[1] as int, cm, nm);
        lemma_mul_abs_bound(cb2 as int, q.n.e[2] as int, cm, nm);
        lemma_mul_abs_bound(cd0 as int, q.n.e[0] as int, cm, nm);
        lemma_mul_abs_bound(cd1 as int, q.n.e[1] as int, cm, nm);
        lemma_mul_abs_bound(cd2 as int, q.n.e[2] as int, cm, nm);
    }
    let anum: i128 = ca0 * (q.n.e[0] as i128) + ca1 * (q.n.e[1] as i128)
        + ca2 * (q.n.e[2] as i128);
    let bnum: i128 = cb0 * (q.n.e[0] as i128) + cb1 * (q.n.e[1] as i128)
        + cb2 * (q.n.e[2] as i128);
    let abden: i128 = cd0 * (q.n.e[0] as i128) + cd1 * (q.n.e[1] as i128)
        + cd2 * (q.n.e[2] as i128);
    proof {
        assert(anum as int == quad_alpha_num(*q, p));
        assert(bnum as int == quad_beta_num(*q, p));
        assert(abden as int == quad_ab_denom(*q));
    }
    if abden == 0 {
        return None;
    }
    let anum_s: i128 = anum * (ONE as i128);
    let bnum_s: i128 = bnum * (ONE as i128);
    proof {
        lemma_mul_abs_bound(anum as int, ONE as int, 0x1000_0000_0000_0000_0000_0000_0000,
            0x1_0000);
        lemma_mul_abs_bound(bnum as int, ONE as int, 0x1000_0000_0000_0000_0000_0000_0000,
            0x1_0000);
    }
    let alpha: i128 = if abden > 0 {
        floor_div_i128(anum_s, abden)
    } else {
        floor_div_i128(-anum_s, -abden)
    };
    let beta: i128 = if abden > 0 {
        floor_div_i128(bnum_s, abden)
    } else {
        floor_div_i128(-bnum_s, -abden)
    };
    proof {
        assert(alpha as int == quad_alpha(*q, p));
        assert(beta as int == quad_beta(*q, p));
    }
    if !(0 <= alpha && alpha <= ONE as i128 && 0 <= beta && beta <= ONE as i128) {
        return None;
    }
    let mut rec = HitRecord::new(p, t, (alpha as i64, beta as i64), q.material);
    rec.set_face_normal(r, &q.normal);
    Some(rec)
}

/// What the reported record holds when the chosen parameter is `t`.
pub open spec fn quad_record_ok(q: Quad, r: Ray, t: int, h: HitRecord) -> bool {
    &&& h.t == t
    &&& (forall|i: int| 0 <= i < 3 ==> #[trigger] h.p.e[i] == ray_at_axis(r.orig, r.dir, t, i))
    &&& h.material == q.material
    &&& h.uv.0 == quad_alpha(q, ray_point(r.orig, r.dir, t))
    &&& h.uv.1 == quad_beta(q, ray_point(r.orig, r.dir, t))
    &&& h.front_face == (v_dot(r.dir, q.normal) < 0)
    &&& (forall|i: int| 0 <= i < 3 ==> #[trigger] h.normal.e[i] == oriented_normal(r.dir,
        q.normal, i))
}

/// The full record reported for chosen parameter `t`, as a value.
pub open spec fn quad_record(q: Quad, r: Ray, t: int) -> HitRecord {
    let p = ray_point(r.orig, r.dir, t);
    HitRecord {
        p: p,
        normal: Vec3 {
            e: [
                oriented_normal(r.dir, q.normal, 0) as i64,
                oriented_normal(r.dir, q.normal, 1) as i64,
                oriented_normal(r.dir, q.normal, 2) as i64,
            ],
        },
        t: t as i64,
        uv: (quad_alpha(q, p) as i64, quad_beta(q, p) as i64),
        front_face: v_dot(r.dir, q.normal) < 0,
        material: q.material,
    }
}

/// A record satisfying the fieldwise description is the record value.
pub proof fn lemma_quad_record_eq(q: Quad, r: Ray, t: int, h: HitRecord)
    requires
        quad_record_ok(q, r, t, h),
        -0x8000_0000_0000_0000 <= t < 0x8000_0000_0000_0000,
        -0x8000_0000_0000_0000 <= quad_alpha(q, ray_point(r.orig, r.dir, t))
            < 0x8000_0000_0000_0000,
        -0x8000_0000_0000_0000 <= quad_beta(q, ray_point(r.orig, r.dir, t))
            < 0x8000_0000_0000_0000,
    ensures
        h == quad_record(q, r, t),
{
    let g = quad_record(q, r, t);
    assert(h.p.e =~= g.p.e);
    assert(h.normal.e =~= g.normal.e);
    assert(h.uv == g.uv);
    assert(h == g);
}

/// Componentwise minimum corner of two points.
pub open spec fn corner_min(a: Vec3, b: Vec3) -> Vec3 {
    Vec3 {
        e: [
            if a.e[0] <= b.e[0] { a.e[0] } else { b.e[0] },
            if a.e[1] <= b.e[1] { a.e[1] } else { b.e[1] },
            if a.e[2] <= b.e[2] { a.e[2] } else { b.e[2] },
        ],
    }
}

/// Componentwise maximum corner of two points.
pub open spec fn corner_max(a: Vec3, b: Vec3) -> Vec3 {
    Vec3 {
        e: [
            if a.e[0] <= b.e[0] { b.e[0] } else { a.e[0] },
            if a.e[1] <= b.e[1] { b.e[1] } else { a.e[1] },
            if a.e[2] <= b.e[2] { b.e[2] } else { a.e[2] },
        ],
    }
}

/// Anchor of face `k` of the axis-aligned box spanned by `mn` and `mx`
/// (front, right, back, left, top, bottom).
pub open spec fn box_face_p0(mn: Vec3, mx: Vec3, k: int) -> Vec3 {
    if k == 0 {
        Vec3 { e: [mn.e[0], mn.e[1], mx.e[2]] }
    } else if k == 1 {
        Vec3 { e: [mx.e[0], mn.e[1], mx.e[2]] }
    } else if k == 2 {
        Vec3 { e: [mx.e[0], mn.e[1], mn.e[2]] }
    } else if k == 3 {
        Vec3 { e: [mn.e[0], mn.e[1], mn.e[2]] }
    } else if k == 4 {
        Vec3 { e: [mn.e[0], mx.e[1], mx.e[2]] }
    } else {
        Vec3 { e: [mn.e[0], mn.e[1], mn.e[2]] }
    }
}

/// First edge of face `k` (the box extents along the axes).
pub open spec fn box_face_u(mn: Vec3, mx: Vec3, k: int) -> Vec3 {
    let dxv = Vec3 { e: [(mx.e[0] - mn.e[0]) as i64, 0i64, 0i64] };
    let ndxv = Vec3 { e: [(mn.e[0] - mx.e[0]) as i64, 0i64, 0i64] };
    let dzv = Vec3 { e: [0i64, 0i64, (mx.e[2] - mn.e[2]) as i64] };
    let ndzv = Vec3 { e: [0i64, 0i64, (mn.e[2] - mx.e[2]) as i64] };
    if k == 0 {
        dxv
    } else if k == 1 {
        ndzv
    } else if k == 2 {
        ndxv
    } else if k == 3 {
        dzv
    } else if k == 4 {
        dxv
    } else {
        dxv
    }
}

/// Second edge of face `k`.
pub open spec fn box_face_v(mn: Vec3, mx: Vec3, k: int) -> Vec3 {
    let dyv = Vec3 { e: [0i64, (mx.e[1] - mn.e[1]) as i64, 0i64] };
    let dzv = Vec3 { e: [0i64, 0i64, (mx.e[2] - mn.e[2]) as i64] };
    let ndzv = Vec3 { e: [0i64, 0i64, (mn.e[2] - mx.e[2]) as i64] };
    if k == 4 {
        ndzv
    } else if k == 5 {
        dzv
    } else {
        dyv
    }
}

/// Six quads forming an axis-aligned box between two corner points,
/// collected in a list pushed into the world: the six face quads are
/// appended first (all carrying the given shader), then the list that
/// holds exactly those six, whose index is returned.
pub fn make_box(world: &mut crate::hittable::World, p0: Point3, p1: Point3, material: usize)
    -> (r: Option<usize>)
    requires
        old(world).wf(),
        v_bounded(p0, 0x800_0000),
        v_bounded(p1, 0x800_0000),
    ensures
        final(world).wf(),
        r is Some,
        ({
            let n0 = old(world).surfaces@.len();
            let id = r.unwrap();
            &&& id == n0 + 6
            &&& final(world).surfaces@.len() == n0 + 7
            &&& final(world).surfaces@[id as int] is List
            &&& final(world).surfaces@[id as int]->List_0.objects@.len() == 6
            &&& (forall|k: int| 0 <= k < 6 ==>
                final(world).surfaces@[id as int]->List_0.objects@[k] == n0 + k)
            &&& (forall|k: int| 0 <= k < 6 ==> (#[trigger] final(world).surfaces@[n0 + k])
                is Quad && final(world).surfaces@[n0 + k]->Quad_0.material == material
                && final(world).surfaces@[n0 + k]->Quad_0.p0 == box_face_p0(corner_min(p0,
                    p1), corner_max(p0, p1), k)
                && final(world).surfaces@[n0 + k]->Quad_0.u == box_face_u(corner_min(p0,
                    p1), corner_max(p0, p1), k)
                && final(world).surfaces@[n0 + k]->Quad_0.v == box_face_v(corner_min(p0,
                    p1), corner_max(p0, p1), k))
        }),
{
    let ghost n0 = world.surfaces@.len() as int;
    let minp = Vec3 {
        e: [
            if p0.e[0] <= p1.e[0] { p0.e[0] } else { p1.e[0] },
            if p0.e[1] <= p1.e[1] { p0.e[1] } else { p1.e[1] },
            if p0.e[2] <= p1.e[2] { p0.e[2] } else { p1.e[2] },
        ],
    };
    let maxp = Vec3 {
        e: [
            if p0.e[0] <= p1.e[0] { p1.e[0] } else { p0.e[0] },
            if p0.e[1] <= p1.e[1] { p1.e[1] } else { p0.e[1] },
            if p0.e[2] <= p1.e[2] { p1.e[2] } else { p0.e[2] },
        ],
    };
    proof {
        assert forall|i: int| 0 <= i < 3 implies
            -0x800_0000 <= #[trigger] minp.e[i] <= 0x800_0000
            && -0x800_0000 <= maxp.e[i] <= 0x800_0000 by {
            if i == 0 {
            } else if i == 1 {
            } else {
            }
        }
    }
    let dx = Vec3 { e: [maxp.e[0] - minp.e[0], 0, 0] };
    let dy = Vec3 { e: [0, maxp.e[1] - minp.e[1], 0] };
    let dz = Vec3 { e: [0, 0, maxp.e[2] - minp.e[2]] };
    let ndx = Vec3 { e: [minp.e[0] - maxp.e[0], 0, 0] };
    let ndz = Vec3 { e: [0, 0, minp.e[2] - maxp.e[2]] };
    proof {
        lemma_edge_bounds(minp, maxp, dx, dy, dz, ndx, ndz);
    }
    let mut sides = crate::hittable_list::HittableList::new();
    let quads = [
        Quad::new(Vec3 { e: [minp.e[0], minp.e[1], maxp.e[2]] }, dx, dy, material),
        Quad::new(Vec3 { e: [maxp.e[0], minp.e[1], maxp.e[2]] }, ndz, dy, material),
        Quad::new(Vec3 { e: [maxp.e[0], minp.e[1], minp.e[2]] }, ndx, dy, material),
        Quad::new(Vec3 { e: [minp.e[0], minp.e[1], minp.e[2]] }, dz, dy, material),
        Quad::new(Vec3 { e: [minp.e[0], maxp.e[1], maxp.e[2]] }, dx, ndz, material),
        Quad::new(Vec3 { e: [minp.e[0], minp.e[1], minp.e[2]] }, dx, dz, material),
    ];
    proof {
        assert(minp.e =~= corner_min(p0, p1).e);
        assert(maxp.e =~= corner_max(p0, p1).e);
        assert forall|m: int| 0 <= m < 6 implies quad_wf(#[trigger] quads@[m])
            && quads@[m].material == material
            && quads@[m].p0 == box_face_p0(corner_min(p0, p1), corner_max(p0, p1), m)
            && quads@[m].u == box_face_u(corner_min(p0, p1), corner_max(p0, p1), m)
            && quads@[m].v == box_face_v(corner_min(p0, p1), corner_max(p0, p1), m) by {
            if m == 0 {
                assert(quads@[m].p0.e =~= box_face_p0(corner_min(p0, p1), corner_max(p0,
                    p1), m).e);
                assert(quads@[m].u.e =~= box_face_u(corner_min(p0, p1), corner_max(p0, p1),
                    m).e);
                assert(quads@[m].v.e =~= box_face_v(corner_min(p0, p1), corner_max(p0, p1),
                    m).e);
            } else if m == 1 {
                assert(quads@[m].p0.e =~= box_face_p0(corner_min(p0, p1), corner_max(p0,
                    p1), m).e);
                assert(quads@[m].u.e =~= box_face_u(corner_min(p0, p1), corner_max(p0, p1),
                    m).e);
                assert(quads@[m].v.e =~= box_face_v(corner_min(p0, p1), corner_max(p0, p1),
                    m).e);
            } else if m == 2 {
                assert(quads@[m].p0.e =~= box_face_p0(corner_min(p0, p1), corner_max(p0,
                    p1), m).e);
                assert(quads@[m].u.e =~= box_face_u(corner_min(p0, p1), corner_max(p0, p1),
                    m).e);
                assert(quads@[m].v.e =~= box_face_v(corner_min(p0, p1), corner_max(p0, p1),
                    m).e);
            } else if m == 3 {
                assert(quads@[m].p0.e =~= box_face_p0(corner_min(p0, p1), corner_max(p0,
                    p1), m).e);
                assert(quads@[m].u.e =~= box_face_u(corner_min(p0, p1), corner_max(p0, p1),
                    m).e);
                assert(quads@[m].v.e =~= box_face_v(corner_min(p0, p1), corner_max(p0, p1),
                    m).e);
            } else if m == 4 {
                assert(quads@[m].p0.e =~= box_face_p0(corner_min(p0, p1), corner_max(p0,
                    p1), m).e);
                assert(quads@[m].u.e =~= box_face_u(corner_min(p0, p1), corner_max(p0, p1),
                    m).e);
                assert(quads@[m].v.e =~= box_face_v(corner_min(p0, p1), corner_max(p0, p1),
                    m).e);
            } else {
                assert(quads@[m].p0.e =~= box_face_p0(corner_min(p0, p1), corner_max(p0,
                    p1), m).e);
                assert(quads@[m].u.e =~= box_face_u(corner_min(p0, p1), corner_max(p0, p1),
                    m).e);
                assert(quads@[m].v.e =~= box_face_v(corner_min(p0, p1), corner_max(p0, p1),
                    m).e);
            }
        }
    }
    let mut k: usize = 0;
    while k < 6
        invariant
            world.wf(),
            k <= 6,
            n0 == old(world).surfaces@.len(),
            world.surfaces@.len() == n0 + k,
            forall|m: int| 0 <= m < 6 ==> quad_wf(#[trigger] quads@[m])
                && quads@[m].material == material
                && quads@[m].p0 == box_face_p0(corner_min(p0, p1), corner_max(p0, p1), m)
                && quads@[m].u == box_face_u(corner_min(p0, p1), corner_max(p0, p1), m)
                && quads@[m].v == box_face_v(corner_min(p0, p1), corner_max(p0, p1), m),
            forall|m: int| 0 <= m < k ==> #[trigger] world.surfaces@[n0 + m]
                == Surface::Quad(quads@[m]),
            sides.objects@.len() == k,
            forall|m: int| 0 <= m < k ==> #[trigger] sides.objects@[m] == n0 + m,
            forall|m: int| 0 <= m < k ==> box_covers(sides.aabb,
                crate::hittable::surf_bbox(#[trigger] world.surfaces@[n0 + m])),
            crate::aabb::aabb_wf(sides.aabb),
        decreases 6 - k,
    {
        let q = quads[k];
        let qb = q.aabb;
        let ghost pre = world.surfaces@;
        let added = world.add(Surface::Quad(q));
        proof {
            assert(pre.push(Surface::Quad(quads@[k as int]))[n0 + k]
                == Surface::Quad(quads@[k as int]));
            assert(surf_wf(pre.push(Surface::Quad(quads@[k as int])), pre.len() as int));
        }
        let id = match added {
            Some(v) => v,
            None => {
                proof {
                    assert(false);
                }
                return None;
            },
        };
        let ghost old_box = sides.aabb;
        sides.add(id, &qb);
        proof {
            crate::bvh::lemma_covers_refl(qb);
            assert forall|m: int| 0 <= m < k + 1 implies box_covers(sides.aabb,
                crate::hittable::surf_bbox(#[trigger] world.surfaces@[n0 + m])) by {
                if m < k {
                    crate::bvh::lemma_merge_covers(old_box, qb,
                        crate::hittable::surf_bbox(world.surfaces@[n0 + m]));
                } else {
                    crate::bvh::lemma_merge_covers(old_box, qb, qb);
                }
            }
            crate::bvh::lemma_merge_wf(old_box, qb);
        }
        k = k + 1;
    }
    let ghost pre = world.surfaces@;
    let ghost list_entry = Surface::List(sides);
    let res = world.add(Surface::List(sides));
    proof {
        let a2 = pre.push(list_entry);
        assert(a2[n0 + 6] == list_entry);
        assert(surf_wf(a2, pre.len() as int)) by {
            assert forall|m: int| 0 <= m < 6 implies
                #[trigger] list_entry->List_0.objects@[m] < pre.len()
                && box_covers(list_entry->List_0.aabb,
                    crate::hittable::surf_bbox(a2[list_entry->List_0.objects@[m] as int]))
                by {
                assert(list_entry->List_0.objects@[m] == n0 + m);
                assert(a2[n0 + m] == pre[n0 + m]);
            }
        }
    }
    res
}

/// Corner-point differences stay within the geometry budget.
proof fn lemma_edge_bounds(minp: Vec3, maxp: Vec3, dx: Vec3, dy: Vec3, dz: Vec3, ndx: Vec3,
    ndz: Vec3)
    requires
        forall|i: int| 0 <= i < 3 ==> -0x800_0000 <= #[trigger] minp.e[i] <= 0x800_0000
            && -0x800_0000 <= maxp.e[i] <= 0x800_0000,
        dx.e[0] == maxp.e[0] - minp.e[0] && dx.e[1] == 0 && dx.e[2] == 0,
        dy.e[1] == maxp.e[1] - minp.e[1] && dy.e[0] == 0 && dy.e[2] == 0,
        dz.e[2] == maxp.e[2] - minp.e[2] && dz.e[0] == 0 && dz.e[1] == 0,
        ndx.e[0] == minp.e[0] - maxp.e[0] && ndx.e[1] == 0 && ndx.e[2] == 0,
        ndz.e[2] == minp.e[2] - maxp.e[2] && ndz.e[0] == 0 && ndz.e[1] == 0,
    ensures
        v_bounded(dx, GEOM_MAX as int),
        v_bounded(dy, GEOM_MAX as int),
        v_bounded(dz, GEOM_MAX as int),
        v_bounded(ndx, GEOM_MAX as int),
        v_bounded(ndz, GEOM_MAX as int),
        v_bounded(minp, GEOM_MAX as int),
        v_bounded(maxp, GEOM_MAX as int),
{
    assert forall|i: int| 0 <= i < 3 implies -(GEOM_MAX as int) <= #[trigger] dx.e[i]
        <= GEOM_MAX as int by {
        if i == 0 {
        } else if i == 1 {
        } else {
        }
    }
    assert forall|i: int| 0 <= i < 3 implies -(GEOM_MAX as int) <= #[trigger] dy.e[i]
        <= GEOM_MAX as int by {
        if i == 0 {
        } else if i == 1 {
        } else {
        }
    }
    assert forall|i: int| 0 <= i < 3 implies -(GEOM_MAX as int) <= #[trigger] dz.e[i]
        <= GEOM_MAX as int by {
        if i == 0 {
        } else if i == 1 {
        } else {
        }
    }
    assert forall|i: int| 0 <= i < 3 implies -(GEOM_MAX as int) <= #[trigger] ndx.e[i]
        <= GEOM_MAX as int by {
        if i == 0 {
        } else if i == 1 {
        } else {
        }
    }
    assert forall|i: int| 0 <= i < 3 implies -(GEOM_MAX as int) <= #[trigger] ndz.e[i]
        <= GEOM_MAX as int by {
        if i == 0 {
        } else if i == 1 {
        } else {
        }
    }
}

/// Planar coordinates at the parallelogram's corners: the anchor maps to
/// `(0, 0)` and the far corner `p0 + u + v` maps exactly to `(1, 1)` (one
/// unit in fixed point), whenever the quad is nondegenerate.
pub proof fn lemma_planar_coordinates_at_corners(q: Quad, corner: Vec3)
    requires
        quad_ab_denom(q) != 0,
        forall|i: int| 0 <= i < 3 ==>
            #[trigger] corner.e[i] == q.p0.e[i] + q.u.e[i] + q.v.e[i],
    ensures
        quad_alpha(q, q.p0) == 0,
        quad_beta(q, q.p0) == 0,
        quad_alpha(q, corner) == ONE,
        quad_beta(q, corner) == ONE,
{
    let den = quad_ab_denom(q);
    let s1 = ONE as int;
    // At the anchor the offset vanishes, so both numerators are zero.
    assert(quad_alpha_num(q, q.p0) == 0) by (nonlinear_arith);
    assert(quad_beta_num(q, q.p0) == 0) by (nonlinear_arith);
    assert(div_floor(0, den) == 0) by {
        if den > 0 {
            vstd::arithmetic::div_mod::lemma_div_multiples_vanish(0, den);
        } else {
            vstd::arithmetic::div_mod::lemma_div_multiples_vanish(0, -den);
        }
    }
    // At the far corner the offset is u + v, and the cross products
    // collapse to the coordinate denominator itself.
    let u0 = q.u.e[0] as int;
    let u1 = q.u.e[1] as int;
    let u2 = q.u.e[2] as int;
    let w0 = q.v.e[0] as int;
    let w1 = q.v.e[1] as int;
    let w2 = q.v.e[2] as int;
    assert(quad_alpha_num(q, corner) == den) by (nonlinear_arith)
        requires
            corner.e[0] == q.p0.e[0] + u0 + w0,
            corner.e[1] == q.p0.e[1] + u1 + w1,
            corner.e[2] == q.p0.e[2] + u2 + w2,
            u0 == q.u.e[0] && u1 == q.u.e[1] && u2 == q.u.e[2],
            w0 == q.v.e[0] && w1 == q.v.e[1] && w2 == q.v.e[2],
            den == quad_ab_denom(q),
            quad_alpha_num(q, corner) == (w1 * (corner.e[2] - q.p0.e[2]) - w2 * (corner.e[1]
                - q.p0.e[1])) * q.n.e[0] + (w2 * (corner.e[0] - q.p0.e[0]) - w0 * (corner.e[2]
                - q.p0.e[2])) * q.n.e[1] + (w0 * (corner.e[1] - q.p0.e[1]) - w1 * (corner.e[0]
                - q.p0.e[0])) * q.n.e[2],
            den == (w1 * u2 - w2 * u1) * q.n.e[0] + (w2 * u0 - w0 * u2) * q.n.e[1] + (w0 * u1
                - w1 * u0) * q.n.e[2],
    ;
    assert(quad_beta_num(q, corner) == den) by (nonlinear_arith)
        requires
            corner.e[0] == q.p0.e[0] + u0 + w0,
            corner.e[1] == q.p0.e[1] + u1 + w1,
            corner.e[2] == q.p0.e[2] + u2 + w2,
            u0 == q.u.e[0] && u1 == q.u.e[1] && u2 == q.u.e[2],
            w0 == q.v.e[0] && w1 == q.v.e[1] && w2 == q.v.e[2],
            den == quad_ab_denom(q),
            quad_beta_num(q, corner) == ((corner.e[1] - q.p0.e[1]) * u2 - (corner.e[2]
                - q.p0.e[2]) * u1) * q.n.e[0] + ((corner.e[2] - q.p0.e[2]) * u0 - (corner.e[0]
                - q.p0.e[0]) * u2) * q.n.e[1] + ((corner.e[0] - q.p0.e[0]) * u1 - (corner.e[1]
                - q.p0.e[1]) * u0) * q.n.e[2],
            den == (w1 * u2 - w2 * u1) * q.n.e[0] + (w2 * u0 - w0 * u2) * q.n.e[1] + (w0 * u1
                - w1 * u0) * q.n.e[2],
    ;
    // Dividing the denominator by itself (at the fixed-point scale) is
    // exactly one unit.
    assert(div_floor(den * s1, den) == s1) by {
        if den > 0 {
            vstd::arithmetic::div_mod::lemma_div_multiples_vanish(s1, den);
            assert(den * s1 == den * s1);
        } else {
            vstd::arithmetic::div_mod::lemma_div_multiples_vanish(s1, -den);
            assert(-(den * s1) == (-den) * s1) by (nonlinear_arith);
        }
    }
}

/// The hit-level anchor law: when the plane crossing lands the ray exactly
/// on the quad's anchor and the crossing parameter lies inside the query
/// window, the intersection routine reports exactly that parameter, and
/// the planar coordinates of the hit point are both zero. The box premise
/// is what `Quad::new` ensures of the stored box.
pub proof fn lemma_anchor_hit(q: Quad, orig: Vec3, dir: Vec3, tmin: int, tmax: int)
    requires
        quad_wf(q),
        forall|i: int| 0 <= i < 3 ==>
            (#[trigger] crate::aabb::axis_iv(q.aabb, i)).min == crate::aabb::axis_iv(
                quad_box_core(q.p0, q.u, q.v), i).min - BOX_PAD
            && crate::aabb::axis_iv(q.aabb, i).max == crate::aabb::axis_iv(
                quad_box_core(q.p0, q.u, q.v), i).max + BOX_PAD,
        quad_denom(q, dir) != 0,
        quad_ab_denom(q) != 0,
        forall|i: int| 0 <= i < 3 ==>
            orig.e[i] * (ONE as int) + quad_t(q, orig, dir) * (#[trigger] dir.e[i])
                == q.p0.e[i] * (ONE as int),
        tmin < quad_t(q, orig, dir) < tmax,
    ensures
        quad_chosen(q, orig, dir, tmin, tmax) == Some(quad_t(q, orig, dir)),
        quad_alpha(q, ray_point(orig, dir, quad_t(q, orig, dir))) == 0,
        quad_beta(q, ray_point(orig, dir, quad_t(q, orig, dir))) == 0,
{
    let s1 = ONE as int;
    let t = quad_t(q, orig, dir);
    let p = ray_point(orig, dir, t);
    // The exact ray point at the crossing is the anchor itself: on each
    // axis the displacement is an exact multiple of the scale, so the
    // floor in the ray evaluation loses nothing.
    assert forall|i: int| 0 <= i < 3 implies #[trigger] p.e[i] == q.p0.e[i] by {
        assert(t * dir.e[i] == s1 * (q.p0.e[i] - orig.e[i]));
        vstd::arithmetic::div_mod::lemma_div_multiples_vanish(q.p0.e[i] - orig.e[i], s1);
        assert(div_floor(t * dir.e[i], s1) == q.p0.e[i] - orig.e[i]);
        assert(crate::ray::ray_at_axis(orig, dir, t, i) == q.p0.e[i]);
        if i == 0 {
        } else if i == 1 {
        } else {
        }
    }
    assert(p.e =~= q.p0.e);
    assert(p == q.p0);
    // The anchor lies strictly inside the stored box: it is a corner of
    // the first corner box, the padding and the merge only widen, and the
    // final outset pushes both walls a full pad away.
    let cuv = quad_corner(q.p0, q.u, q.v);
    let core = quad_box_core(q.p0, q.u, q.v);
    assert forall|i: int| 0 <= i < 3 implies
        #[trigger] cuv.e[i] == q.p0.e[i] + q.u.e[i] + q.v.e[i] by {
        if i == 0 {
        } else if i == 1 {
        } else {
        }
    }
    assert(crate::aabb::ray_hits_box_at(q.aabb, orig, dir, t, s1)) by {
        assert forall|i: int| 0 <= i < 3 implies #[trigger] crate::aabb::axis_pass(q.aabb,
            orig, dir, i, t, s1) by {
            let c1 = crate::aabb::corners_box(q.p0, cuv);
            assert((crate::aabb::axis_iv(c1, i).min as int) <= q.p0.e[i]
                && (crate::aabb::axis_iv(c1, i).max as int) >= q.p0.e[i]) by {
                if i == 0 {
                } else if i == 1 {
                } else {
                }
            }
            assert((crate::aabb::axis_iv(core, i).min as int)
                <= (crate::aabb::axis_iv(c1, i).min as int)
                && (crate::aabb::axis_iv(core, i).max as int)
                    >= (crate::aabb::axis_iv(c1, i).max as int)) by {
                if i == 0 {
                } else if i == 1 {
                } else {
                }
            }
            let amin = crate::aabb::axis_iv(q.aabb, i).min as int;
            let amax = crate::aabb::axis_iv(q.aabb, i).max as int;
            assert(amin <= q.p0.e[i] - BOX_PAD);
            assert(amax >= q.p0.e[i] + BOX_PAD);
            assert(orig.e[i] * s1 + t * dir.e[i] == q.p0.e[i] * s1);
            assert(amin * s1 < q.p0.e[i] * s1);
            assert(q.p0.e[i] * s1 < amax * s1);
        }
    }
    lemma_planar_coordinates_at_corners(q, cuv);
    assert(quad_alpha(q, p) == 0);
    assert(quad_beta(q, p) == 0);
}

} // verus!
