//! Hit records and the shared vocabulary of intersection contracts.
//!
//! A reported hit always satisfies two facts that the acceleration
//! structure relies on: its parameter lies strictly inside the query
//! window, and the exact ray point at that parameter lies strictly inside
//! the reporting surface's bounding box (both stated through the rational
//! slab predicates of [`crate::aabb`], with denominator `ONE`).

use vstd::prelude::*;
use crate::fx::{ONE, INF, div_floor, floor_div_i128, fx_mul, fx_div};
use crate::vec3::{Vec3, Point3, v_dot, v_bounded};
use crate::ray::{Ray, ray_at_axis};
use crate::interval::Interval;
use crate::aabb::{Aabb, axis_iv, aabb_wf, aabb_finite, ray_hits_box_at, in_window,
    box_contains_param, aabb_hit_spec};
use crate::sphere::{Sphere, sphere_wf, sphere_hit, sph_chosen, sphere_record_ok, GEOM_MAX,
    lemma_box_param_point_bounds};
use crate::quad::{Quad, quad_wf, quad_hit, quad_chosen, quad_record_ok};
use crate::hittable_list::HittableList;
use crate::constant_medium::ConstantMedium;
use crate::bvh::{BvhNode, BvhNd, BvhChild, bvh_nodes_acyclic, child_in_range,
    child_measure};

verus! {

#[derive(Clone, Copy, Debug)]
pub struct HitRecord {
    pub p: Point3,
    pub normal: Vec3,
    /// Ray parameter of the hit, fixed point.
    pub t: i64,
    /// Texture coordinates, fixed point in `[0, ONE]`.
    pub uv: (i64, i64),
    pub front_face: bool,
    /// Index of the shader responsible for this surface point.
    pub material: usize,
}

/// What every accepted hit guarantees: the parameter is strictly inside
/// the query window and the exact ray point at the parameter is strictly
/// inside `bbox`.
pub open spec fn hit_within(bbox: Aabb, orig: Vec3, dir: Vec3, tmin: int, tmax: int,
    h: HitRecord) -> bool {
    in_window(tmin, tmax, h.t as int, ONE as int)
        && ray_hits_box_at(bbox, orig, dir, h.t as int, ONE as int)
}

/// `hit_within` lifted over an optional result.
pub open spec fn hit_sound(bbox: Aabb, orig: Vec3, dir: Vec3, tmin: int, tmax: int,
    res: Option<HitRecord>) -> bool {
    match res {
        Some(h) => hit_within(bbox, orig, dir, tmin, tmax, h),
        None => true,
    }
}

/// The stored normal after orientation: against the incoming ray.
pub open spec fn oriented_normal(dir: Vec3, outward: Vec3, i: int) -> int {
    if v_dot(dir, outward) < 0 {
        outward.e[i] as int
    } else {
        -outward.e[i] as int
    }
}

impl HitRecord {
    pub fn new(p: Point3, t: i64, uv: (i64, i64), material: usize) -> (r: HitRecord)
        ensures
            r.p == p,
            r.t == t,
            r.uv == uv,
            r.material == material,
            r.front_face == false,
            forall|i: int| 0 <= i < 3 ==> #[trigger] r.normal.e[i] == 0,
    {
        HitRecord {
            p,
            normal: Vec3 { e: [0, 0, 0] },
            t,
            uv,
            front_face: false,
            material,
        }
    }

    /// Record the orientation of `outward_normal` against the ray: the
    /// stored normal always points against the incoming direction.
    pub fn set_face_normal(&mut self, r: &Ray, outward_normal: &Vec3)
        requires
            v_bounded(r.dir, 0x4000_0000_0000_0000),
            v_bounded(*outward_normal, 0x4000_0000_0000_0000),
        ensures
            final(self).front_face == (v_dot(r.dir, *outward_normal) < 0),
            forall|i: int| 0 <= i < 3 ==>
                #[trigger] final(self).normal.e[i]
                    == oriented_normal(r.dir, *outward_normal, i),
            final(self).p == old(self).p,
            final(self).t == old(self).t,
            final(self).uv == old(self).uv,
            final(self).material == old(self).material,
    {
        let d = r.dir.dot(outward_normal);
        self.front_face = d < 0;
        self.normal = if self.front_face {
            *outward_normal
        } else {
            outward_normal.neg()
        };
    }
}

/// A pose decorator: the wrapped surface, translated by `offset`.
#[derive(Clone, Copy, Debug)]
pub struct Translate {
    /// Arena index of the wrapped surface.
    pub obj: usize,
    pub offset: Vec3,
    /// The wrapped surface's box, shifted by `offset`.
    pub aabb: Aabb,
}

impl Translate {
    pub fn new(obj: usize, obj_box: &Aabb, offset: Vec3) -> (r: Translate)
        requires
            aabb_finite(*obj_box, 0x4000_0000_0000),
            v_bounded(offset, 0x4000_0000),
        ensures
            r.obj == obj,
            r.offset == offset,
            forall|i: int| 0 <= i < 3 ==>
                (#[trigger] axis_iv(r.aabb, i)).min == axis_iv(*obj_box, i).min + offset.e[i]
                && axis_iv(r.aabb, i).max == axis_iv(*obj_box, i).max + offset.e[i],
    {
        Translate { obj, offset, aabb: obj_box.add(&offset) }
    }
}

/// A pose decorator: the wrapped surface, rotated about the y axis.
#[derive(Clone, Copy, Debug)]
pub struct RotateY {
    /// Arena index of the wrapped surface.
    pub obj: usize,
    pub sin_theta: i64,
    pub cos_theta: i64,
    pub aabb: Aabb,
}

/// The rotated-corner coverage a `RotateY` box provides: for each of the
/// child box's four corner columns, the world-rotated x and z values lie
/// inside the stored box, and the y extent is carried over.
pub open spec fn rotate_box_covers(aabb: Aabb, c: int, s: int, child: Aabb) -> bool {
    &&& (forall|x: int, z: int|
        (x == child.x.min || x == child.x.max) && (z == child.z.min || z == child.z.max)
            ==> aabb.x.min < #[trigger] rot_world_x(c, s, x, z)
            && rot_world_x(c, s, x, z) < aabb.x.max && aabb.z.min < rot_world_z(c, s, x, z)
            && rot_world_z(c, s, x, z) < aabb.z.max)
    &&& aabb.y.min < child.y.min
    &&& child.y.max < aabb.y.max
}

impl RotateY {
    /// Wrap a surface in a rotation about the y axis by the given angle
    /// (fixed-point degrees). The stored sine and cosine are exactly the
    /// library's trigonometric values for that angle; the stored box is
    /// the padded bounding union of the child box's corners rotated into
    /// world space (an unbounded child box yields the universal box).
    pub fn new(obj: usize, obj_box: &Aabb, angle_degrees: i64) -> (r: RotateY)
        requires
            -0x4000_0000_0000 <= angle_degrees <= 0x4000_0000_0000,
        ensures
            r.obj == obj,
            r.sin_theta == crate::trig::sin_deg_spec(angle_degrees as int),
            r.cos_theta == crate::trig::cos_deg_spec(angle_degrees as int),
            aabb_wf(r.aabb),
            aabb_finite(*obj_box, 0x4000_0000) ==> rotate_box_covers(r.aabb,
                r.cos_theta as int, r.sin_theta as int, *obj_box),
    {
        let (sn, cs) = crate::trig::sin_cos_deg(angle_degrees);
        if !box_finite_exec(obj_box) {
            let r = RotateY { obj, sin_theta: sn, cos_theta: cs, aabb: Aabb::universe() };
            proof {
                if aabb_finite(*obj_box, 0x4000_0000) {
                    assert(-0x4000_0000 <= obj_box.x.min <= 0x4000_0000) by {
                        assert(axis_iv(*obj_box, 0) == obj_box.x);
                    }
                    assert(-0x4000_0000 <= obj_box.x.max <= 0x4000_0000) by {
                        assert(axis_iv(*obj_box, 0) == obj_box.x);
                    }
                    assert(-0x4000_0000 <= obj_box.y.min <= 0x4000_0000
                        && -0x4000_0000 <= obj_box.y.max <= 0x4000_0000) by {
                        assert(axis_iv(*obj_box, 1) == obj_box.y);
                    }
                    assert(-0x4000_0000 <= obj_box.z.min <= 0x4000_0000
                        && -0x4000_0000 <= obj_box.z.max <= 0x4000_0000) by {
                        assert(axis_iv(*obj_box, 2) == obj_box.z);
                    }
                }
            }
            return r;
        }
        let (w00x, w00z) = rot_pair_world(cs, sn, obj_box.x.min, obj_box.z.min);
        let (w01x, w01z) = rot_pair_world(cs, sn, obj_box.x.min, obj_box.z.max);
        let (w10x, w10z) = rot_pair_world(cs, sn, obj_box.x.max, obj_box.z.min);
        let (w11x, w11z) = rot_pair_world(cs, sn, obj_box.x.max, obj_box.z.max);
        let minx = min4(w00x, w01x, w10x, w11x);
        let maxx = max4(w00x, w01x, w10x, w11x);
        let minz = min4(w00z, w01z, w10z, w11z);
        let maxz = max4(w00z, w01z, w10z, w11z);
        proof {
            lemma_rot_world_bounds(cs as int, sn as int, obj_box.x.min as int,
                obj_box.z.min as int);
            lemma_rot_world_bounds(cs as int, sn as int, obj_box.x.min as int,
                obj_box.z.max as int);
            lemma_rot_world_bounds(cs as int, sn as int, obj_box.x.max as int,
                obj_box.z.min as int);
            lemma_rot_world_bounds(cs as int, sn as int, obj_box.x.max as int,
                obj_box.z.max as int);
        }
        let lo = Vec3 {
            e: [minx - crate::aabb::BOX_PAD, obj_box.y.min - crate::aabb::BOX_PAD,
                minz - crate::aabb::BOX_PAD],
        };
        let hi = Vec3 {
            e: [maxx + crate::aabb::BOX_PAD, obj_box.y.max + crate::aabb::BOX_PAD,
                maxz + crate::aabb::BOX_PAD],
        };
        let aabb = Aabb::from_points(lo, hi);
        let r = RotateY { obj, sin_theta: sn, cos_theta: cs, aabb };
        proof {
            assert forall|x: int, z: int|
                (x == obj_box.x.min || x == obj_box.x.max) && (z == obj_box.z.min
                    || z == obj_box.z.max) implies aabb.x.min < #[trigger] rot_world_x(
                cs as int, sn as int, x, z) && rot_world_x(cs as int, sn as int, x, z)
                < aabb.x.max && aabb.z.min < rot_world_z(cs as int, sn as int, x, z)
                && rot_world_z(cs as int, sn as int, x, z) < aabb.z.max by {
            }
        }
        r
    }
}

/// The world rotation of budget-bounded coordinates stays within twice
/// the budget.
proof fn lemma_rot_world_bounds(c: int, s: int, x: int, z: int)
    requires
        -(ONE as int) <= c <= ONE as int,
        -(ONE as int) <= s <= ONE as int,
        -0x4000_0000 <= x <= 0x4000_0000,
        -0x4000_0000 <= z <= 0x4000_0000,
    ensures
        -0x8000_0001 <= rot_world_x(c, s, x, z) <= 0x8000_0000,
        -0x8000_0001 <= rot_world_z(c, s, x, z) <= 0x8000_0000,
{
    crate::fx::lemma_mul_abs_bound(c, x, ONE as int, 0x4000_0000);
    crate::fx::lemma_mul_abs_bound(s, z, ONE as int, 0x4000_0000);
    crate::fx::lemma_mul_abs_bound(c, z, ONE as int, 0x4000_0000);
    crate::fx::lemma_mul_abs_bound(s, x, ONE as int, 0x4000_0000);
    crate::fx::lemma_div_floor_quotient_abs(c * x + s * z, ONE as int,
        0x8000_0000_0000_0000);
    crate::fx::lemma_div_floor_quotient_abs(c * z - s * x, ONE as int,
        0x8000_0000_0000_0000);
}

/// Smallest of four values.
fn min4(a: i64, b: i64, c: i64, d: i64) -> (r: i64)
    ensures
        r <= a && r <= b && r <= c && r <= d,
        r == a || r == b || r == c || r == d,
{
    let m1 = if a <= b { a } else { b };
    let m2 = if c <= d { c } else { d };
    if m1 <= m2 { m1 } else { m2 }
}

/// Largest of four values.
fn max4(a: i64, b: i64, c: i64, d: i64) -> (r: i64)
    ensures
        r >= a && r >= b && r >= c && r >= d,
        r == a || r == b || r == c || r == d,
{
    let m1 = if a >= b { a } else { b };
    let m2 = if c >= d { c } else { d };
    if m1 >= m2 { m1 } else { m2 }
}

/// Exec test that a box's bounds are within the rotation budget.
fn box_finite_exec(b: &Aabb) -> (r: bool)
    ensures
        r == (-0x4000_0000 <= b.x.min <= 0x4000_0000 && -0x4000_0000 <= b.x.max
            <= 0x4000_0000 && -0x4000_0000 <= b.y.min <= 0x4000_0000 && -0x4000_0000
            <= b.y.max <= 0x4000_0000 && -0x4000_0000 <= b.z.min <= 0x4000_0000
            && -0x4000_0000 <= b.z.max <= 0x4000_0000),
{
    b.x.min >= -0x4000_0000 && b.x.max <= 0x4000_0000 && b.x.min <= 0x4000_0000
        && b.x.max >= -0x4000_0000 && b.y.min >= -0x4000_0000 && b.y.max <= 0x4000_0000
        && b.y.min <= 0x4000_0000 && b.y.max >= -0x4000_0000 && b.z.min >= -0x4000_0000
        && b.z.max <= 0x4000_0000 && b.z.min <= 0x4000_0000 && b.z.max >= -0x4000_0000
}

/// Any geometric or volumetric entity the integrator can query.
#[derive(Clone, Debug)]
pub enum Surface {
    Sphere(Sphere),
    Quad(Quad),
    Translate(Translate),
    RotateY(RotateY),
    Medium(ConstantMedium),
    List(HittableList),
    Bvh(BvhNode),
}

/// The stored bounding box of a surface.
pub open spec fn surf_bbox(s: Surface) -> Aabb {
    match s {
        Surface::Sphere(sp) => sp.aabb,
        Surface::Quad(q) => q.aabb,
        Surface::Translate(t) => t.aabb,
        Surface::RotateY(ry) => ry.aabb,
        Surface::Medium(m) => m.aabb,
        Surface::List(l) => l.aabb,
        Surface::Bvh(b) => b.aabb,
    }
}

/// `outer` contains `inner` axis by axis.
pub open spec fn box_covers(outer: Aabb, inner: Aabb) -> bool {
    forall|i: int| 0 <= i < 3 ==>
        (#[trigger] axis_iv(outer, i)).min <= axis_iv(inner, i).min
        && axis_iv(inner, i).max <= axis_iv(outer, i).max
}

/// Well-formedness of one arena entry: children point strictly below the
/// entry, geometry is within bounds, and stored boxes cover the children.
pub open spec fn surf_wf(arena: Seq<Surface>, i: int) -> bool {
    match arena[i] {
        Surface::Sphere(sp) => sphere_wf(sp),
        Surface::Quad(q) => quad_wf(q),
        Surface::Translate(t) => {
            &&& t.obj < i
            &&& v_bounded(t.offset, GEOM_MAX as int)
            &&& aabb_wf(t.aabb)
            &&& (forall|ax: int| 0 <= ax < 3 ==>
                (#[trigger] axis_iv(t.aabb, ax)).min
                    == axis_iv(surf_bbox(arena[t.obj as int]), ax).min + t.offset.e[ax]
                && axis_iv(t.aabb, ax).max
                    == axis_iv(surf_bbox(arena[t.obj as int]), ax).max + t.offset.e[ax])
        },
        Surface::RotateY(ry) => {
            &&& ry.obj < i
            &&& -(ONE as int) <= ry.sin_theta <= ONE as int
            &&& -(ONE as int) <= ry.cos_theta <= ONE as int
            &&& aabb_wf(ry.aabb)
        },
        Surface::Medium(m) => {
            &&& m.boundary < i
            &&& 1 <= m.density <= 0x4000_0000
            &&& m.aabb == surf_bbox(arena[m.boundary as int])
            &&& aabb_wf(m.aabb)
        },
        Surface::List(l) => {
            &&& (forall|k: int| 0 <= k < l.objects@.len() ==> #[trigger] l.objects@[k] < i)
            &&& (forall|k: int| 0 <= k < l.objects@.len() ==>
                box_covers(l.aabb, surf_bbox(arena[#[trigger] l.objects@[k] as int])))
            &&& aabb_wf(l.aabb)
        },
        Surface::Bvh(b) => {
            &&& bvh_nodes_acyclic(b.nodes@)
            &&& (forall|j: int| 0 <= j < b.nodes@.len() ==>
                bvh_nd_wf(arena, i, b.nodes@, #[trigger] b.nodes@[j]))
            &&& match b.root {
                Some(c) => {
                    &&& child_in_range(b.nodes@, c)
                    &&& bvh_child_ref_ok(arena, i, b.nodes@, c)
                    &&& box_covers(b.aabb, bvh_child_box(arena, b.nodes@, c))
                },
                None => true,
            }
            &&& aabb_wf(b.aabb)
        },
    }
}

/// The box a BVH child stands for.
pub open spec fn bvh_child_box(arena: Seq<Surface>, nodes: Seq<BvhNd>, c: BvhChild) -> Aabb {
    match c {
        BvhChild::Prim(p) => surf_bbox(arena[p as int]),
        BvhChild::Node(k) => nodes[k as int].aabb,
    }
}

/// A child reference is valid: primitive indices point strictly below the
/// BVH's own arena slot, node indices into the pool.
pub open spec fn bvh_child_ref_ok(arena: Seq<Surface>, i: int, nodes: Seq<BvhNd>,
    c: BvhChild) -> bool {
    match c {
        BvhChild::Prim(p) => p < i,
        BvhChild::Node(k) => 0 <= k < nodes.len(),
    }
}

/// One BVH node is well formed: both children valid and covered by the
/// node's box.
pub open spec fn bvh_nd_wf(arena: Seq<Surface>, i: int, nodes: Seq<BvhNd>, nd: BvhNd) -> bool {
    &&& bvh_child_ref_ok(arena, i, nodes, nd.left)
    &&& bvh_child_ref_ok(arena, i, nodes, nd.right)
    &&& box_covers(nd.aabb, bvh_child_box(arena, nodes, nd.left))
    &&& box_covers(nd.aabb, bvh_child_box(arena, nodes, nd.right))
    &&& aabb_wf(nd.aabb)
}

/// The whole arena is well formed.
pub open spec fn arena_wf(arena: Seq<Surface>) -> bool {
    forall|i: int| 0 <= i < arena.len() ==> #[trigger] surf_wf(arena, i)
}

/// The exec bounding-box accessor.
pub fn surface_bounding_box(arena: &Vec<Surface>, id: usize) -> (r: Aabb)
    requires
        id < arena@.len(),
    ensures
        r == surf_bbox(arena@[id as int]),
{
    match &arena[id] {
        Surface::Sphere(sp) => sp.aabb,
        Surface::Quad(q) => q.aabb,
        Surface::Translate(t) => t.aabb,
        Surface::RotateY(ry) => ry.aabb,
        Surface::Medium(m) => m.aabb,
        Surface::List(l) => l.aabb,
        Surface::Bvh(b) => b.aabb,
    }
}

/// The deterministic half of a volumetric query (for a medium whose
/// boundary subtree holds no further media): a miss of the boundary on
/// the universal window, a missing second boundary hit past the advanced
/// window, or a crossed clamped entry/exit interval each force a miss;
/// an accepted scatter parameter lies within the clamped crossing
/// segment. Only which parameter inside that segment is drawn remains
/// random (see `crate::constant_medium::medium_free_flight`).
pub open spec fn medium_miss_ok(arena: Seq<Surface>, id: int, r: Ray, tmin: int, tmax: int,
    res: Option<HitRecord>) -> bool {
    let m = arena[id]->Medium_0;
    let h1 = hit_spec(arena, m.boundary as int, r, -(INF as int), INF as int);
    match h1 {
        None => res is None,
        Some(e1) => {
            let adv = if e1.t + 7 <= INF as int {
                e1.t + 7
            } else {
                INF as int
            };
            let h2 = hit_spec(arena, m.boundary as int, r, adv, INF as int);
            match h2 {
                None => res is None,
                Some(e2) => {
                    let ta = if (e1.t as int) < tmin {
                        tmin
                    } else {
                        e1.t as int
                    };
                    let tb = if (e2.t as int) > tmax {
                        tmax
                    } else {
                        e2.t as int
                    };
                    &&& (ta >= tb ==> res is None)
                    &&& (res is Some ==> ({
                        let ta0 = if ta < 0 {
                            0
                        } else {
                            ta
                        };
                        ta0 <= res.unwrap().t <= tb
                    }))
                },
            }
        },
    }
}

/// Rays the intersection layer accepts: bounded origin and direction,
/// time stamp within one unit.
pub open spec fn ray_ok(r: Ray) -> bool {
    &&& v_bounded(r.orig, GEOM_MAX as int)
    &&& v_bounded(r.dir, GEOM_MAX as int)
    &&& 0 <= r.ts <= ONE
}

/// Query-window endpoints within the sentinel magnitude.
pub open spec fn window_ok(tmin: int, tmax: int) -> bool {
    -(INF as int) <= tmin <= INF as int && -(INF as int) <= tmax <= INF as int
}

/// No volumetric medium anywhere in the arena: every intersection result
/// is then a deterministic function of the query.
pub open spec fn arena_det(arena: Seq<Surface>) -> bool {
    forall|i: int| 0 <= i < arena.len() ==> !((#[trigger] arena[i]) is Medium)
}

/// No volumetric medium among the arena entries below `b`. Children
/// always point strictly below their owner, so `det_below(arena, id + 1)`
/// makes the whole subtree of `id` deterministic (and
/// `det_below(arena, id)` does the same for a medium's boundary subtree).
pub open spec fn det_below(arena: Seq<Surface>, b: int) -> bool {
    forall|j: int| 0 <= j < b ==> !((#[trigger] arena[j]) is Medium)
}

/// Object-space x component of a y-rotation by (`c`, `s`).
pub open spec fn rot_obj_x(c: int, s: int, x: int, z: int) -> int {
    div_floor(c * x - s * z, ONE as int)
}

/// Object-space z component of a y-rotation by (`c`, `s`).
pub open spec fn rot_obj_z(c: int, s: int, x: int, z: int) -> int {
    div_floor(s * x + c * z, ONE as int)
}

/// World-space x component (the inverse rotation).
pub open spec fn rot_world_x(c: int, s: int, x: int, z: int) -> int {
    div_floor(c * x + s * z, ONE as int)
}

/// World-space z component (the inverse rotation).
pub open spec fn rot_world_z(c: int, s: int, x: int, z: int) -> int {
    div_floor(c * z - s * x, ONE as int)
}

/// The deterministic mirror of the intersection dispatcher. For a medium
/// (whose outcome is random) it says nothing; `arena_det` excludes
/// that arm.
pub open spec fn hit_spec(arena: Seq<Surface>, id: int, r: Ray, tmin: int, tmax: int)
    -> Option<HitRecord>
    decreases id, 1int, 0int,
    when 0 <= id < arena.len() && arena_wf(arena) && surf_wf(arena, id)
{
    match arena[id] {
        Surface::Sphere(sp) => match sph_chosen(sp, r.orig, r.dir, r.ts as int, tmin, tmax) {
            Some(t) => Some(crate::sphere::sphere_record(sp, r, t)),
            None => None,
        },
        Surface::Quad(q) => match quad_chosen(q, r.orig, r.dir, tmin, tmax) {
            Some(t) => Some(crate::quad::quad_record(q, r, t)),
            None => None,
        },
        Surface::Translate(t) => {
            let o2 = Vec3 {
                e: [
                    (r.orig.e[0] - t.offset.e[0]) as i64,
                    (r.orig.e[1] - t.offset.e[1]) as i64,
                    (r.orig.e[2] - t.offset.e[2]) as i64,
                ],
            };
            if !v_bounded(o2, GEOM_MAX as int) {
                None
            } else {
                match hit_spec(arena, t.obj as int, Ray { orig: o2, dir: r.dir, ts: r.ts },
                    tmin, tmax) {
                    Some(h) => Some(HitRecord {
                        p: Vec3 {
                            e: [
                                (h.p.e[0] + t.offset.e[0]) as i64,
                                (h.p.e[1] + t.offset.e[1]) as i64,
                                (h.p.e[2] + t.offset.e[2]) as i64,
                            ],
                        },
                        ..h
                    }),
                    None => None,
                }
            }
        },
        Surface::RotateY(ry) => {
            let c = ry.cos_theta as int;
            let sn = ry.sin_theta as int;
            let o2 = Vec3 {
                e: [
                    rot_obj_x(c, sn, r.orig.e[0] as int, r.orig.e[2] as int) as i64,
                    r.orig.e[1],
                    rot_obj_z(c, sn, r.orig.e[0] as int, r.orig.e[2] as int) as i64,
                ],
            };
            let d2 = Vec3 {
                e: [
                    rot_obj_x(c, sn, r.dir.e[0] as int, r.dir.e[2] as int) as i64,
                    r.dir.e[1],
                    rot_obj_z(c, sn, r.dir.e[0] as int, r.dir.e[2] as int) as i64,
                ],
            };
            if !v_bounded(o2, GEOM_MAX as int) || !v_bounded(d2, GEOM_MAX as int) {
                None
            } else {
                match hit_spec(arena, ry.obj as int, Ray { orig: o2, dir: d2, ts: r.ts },
                    tmin, tmax) {
                    Some(h0) => if v_bounded(h0.p, 0x4000_0000)
                        && v_bounded(h0.normal, 0x4000_0000)
                        && ray_hits_box_at(ry.aabb, r.orig, r.dir, h0.t as int, ONE as int) {
                        Some(HitRecord {
                            p: Vec3 {
                                e: [
                                    rot_world_x(c, sn, h0.p.e[0] as int,
                                        h0.p.e[2] as int) as i64,
                                    h0.p.e[1],
                                    rot_world_z(c, sn, h0.p.e[0] as int,
                                        h0.p.e[2] as int) as i64,
                                ],
                            },
                            normal: Vec3 {
                                e: [
                                    rot_world_x(c, sn, h0.normal.e[0] as int,
                                        h0.normal.e[2] as int) as i64,
                                    h0.normal.e[1],
                                    rot_world_z(c, sn, h0.normal.e[0] as int,
                                        h0.normal.e[2] as int) as i64,
                                ],
                            },
                            ..h0
                        })
                    } else {
                        None
                    },
                    None => None,
                }
            }
        },
        Surface::Medium(_) => None,
        Surface::List(l) => scan_spec(arena, id, l.objects@, 0, r, tmin, tmax, None),
        Surface::Bvh(b) => match b.root {
            Some(c) => bvh_traverse_spec(arena, id, b.nodes@, c, r, tmin, tmax, None),
            None => None,
        },
    }
}

/// Best-so-far reduction over a sequence of arena indices: each member is
/// probed on the window shrunk to the closest hit so far.
pub open spec fn scan_spec(arena: Seq<Surface>, idb: int, ids: Seq<usize>, k: int, r: Ray,
    tmin: int, cap: int, acc: Option<HitRecord>) -> Option<HitRecord>
    decreases idb, 0int, ids.len() - k,
    when 0 <= k <= ids.len() && 0 <= idb <= arena.len() && arena_wf(arena)
        && (forall|j: int| 0 <= j < ids.len() ==> #[trigger] ids[j] < idb)
{
    if k >= ids.len() {
        acc
    } else {
        match hit_spec(arena, ids[k] as int, r, tmin, cap) {
            Some(h) => scan_spec(arena, idb, ids, k + 1, r, tmin, h.t as int, Some(h)),
            None => scan_spec(arena, idb, ids, k + 1, r, tmin, cap, acc),
        }
    }
}

/// The BVH traversal, mirrored: reject a node whose box misses the
/// current window, otherwise probe left then right on the shrunk window.
pub open spec fn bvh_traverse_spec(arena: Seq<Surface>, idb: int, nodes: Seq<BvhNd>,
    c: BvhChild, r: Ray, tmin: int, cap: int, acc: Option<HitRecord>) -> Option<HitRecord>
    decreases idb, 0int, child_measure(c),
    when 0 <= idb <= arena.len() && arena_wf(arena) && bvh_nodes_acyclic(nodes)
        && child_in_range(nodes, c) && bvh_child_ref_ok(arena, idb, nodes, c)
        && (forall|j: int| 0 <= j < nodes.len() ==>
            bvh_nd_wf(arena, idb, nodes, #[trigger] nodes[j]))
{
    match c {
        BvhChild::Prim(p) => match hit_spec(arena, p as int, r, tmin, cap) {
            Some(h) => Some(h),
            None => acc,
        },
        BvhChild::Node(k) => if !aabb_hit_spec(nodes[k as int].aabb, r.orig, r.dir, tmin,
            cap) {
            acc
        } else {
            let a1 = bvh_traverse_spec(arena, idb, nodes, nodes[k as int].left, r, tmin, cap,
                acc);
            let cap1 = match a1 {
                Some(h) => h.t as int,
                None => cap,
            };
            bvh_traverse_spec(arena, idb, nodes, nodes[k as int].right, r, tmin, cap1, a1)
        },
    }
}

/// Containment is preserved by growing the box.
pub proof fn lemma_hits_covered_box(outer: Aabb, inner: Aabb, o: Vec3, d: Vec3, tn: int,
    td: int)
    requires
        box_covers(outer, inner),
        ray_hits_box_at(inner, o, d, tn, td),
        td > 0,
    ensures
        ray_hits_box_at(outer, o, d, tn, td),
{
    assert forall|i: int| 0 <= i < 3 implies
        #[trigger] crate::aabb::axis_pass(outer, o, d, i, tn, td) by {
        assert(crate::aabb::axis_pass(inner, o, d, i, tn, td));
        assert(axis_iv(outer, i).min * td <= axis_iv(inner, i).min * td
            && axis_iv(inner, i).max * td <= axis_iv(outer, i).max * td) by (nonlinear_arith)
            requires
                td > 0,
                axis_iv(outer, i).min <= axis_iv(inner, i).min,
                axis_iv(inner, i).max <= axis_iv(outer, i).max,
        ;
    }
}

/// A hit inside a shrunk window is inside the wider one.
pub proof fn lemma_in_window_widen(tmin: int, cap1: int, cap: int, t: int)
    requires
        in_window(tmin, cap1, t, ONE as int),
        cap1 <= cap,
    ensures
        in_window(tmin, cap, t, ONE as int),
{
    assert(t * (ONE as int) < cap * (ONE as int)) by (nonlinear_arith)
        requires
            t * (ONE as int) < cap1 * (ONE as int),
            cap1 <= cap,
    ;
}

/// Strict window membership in fixed-point form gives strict bounds.
pub proof fn lemma_window_strict(tmin: int, tmax: int, t: int)
    requires
        in_window(tmin, tmax, t, ONE as int),
    ensures
        tmin < t < tmax,
{
    assert(tmin < t && t < tmax) by (nonlinear_arith)
        requires
            tmin * (ONE as int) < t * (ONE as int),
            t * (ONE as int) < tmax * (ONE as int),
            ONE == 65536,
    ;
}

/// Shifting a box and the ray origin together preserves slab membership.
pub proof fn lemma_box_shifted(child_box: Aabb, tbox: Aabb, off: Vec3, o2: Vec3, o: Vec3,
    d: Vec3, tn: int, td: int)
    requires
        forall|ax: int| 0 <= ax < 3 ==>
            (#[trigger] axis_iv(tbox, ax)).min == axis_iv(child_box, ax).min + off.e[ax]
            && axis_iv(tbox, ax).max == axis_iv(child_box, ax).max + off.e[ax],
        forall|ax: int| 0 <= ax < 3 ==> #[trigger] o.e[ax] == o2.e[ax] + off.e[ax],
        ray_hits_box_at(child_box, o2, d, tn, td),
        td > 0,
    ensures
        ray_hits_box_at(tbox, o, d, tn, td),
{
    assert forall|i: int| 0 <= i < 3 implies
        #[trigger] crate::aabb::axis_pass(tbox, o, d, i, tn, td) by {
        assert(crate::aabb::axis_pass(child_box, o2, d, i, tn, td));
        crate::aabb::lemma_axis_pass_translate(axis_iv(child_box, i).min as int,
            axis_iv(child_box, i).max as int, o2.e[i] as int, d.e[i] as int, off.e[i] as int,
            tn, td);
    }
}

/// Rotate `(x, z)` into object space by the stored `(cos, sin)` pair.
fn rot_pair_obj(c: i64, sn: i64, x: i64, z: i64) -> (r: (i64, i64))
    requires
        -(ONE as int) <= c <= ONE as int,
        -(ONE as int) <= sn <= ONE as int,
        -0x8000_0000 <= x <= 0x8000_0000,
        -0x8000_0000 <= z <= 0x8000_0000,
    ensures
        r.0 == rot_obj_x(c as int, sn as int, x as int, z as int),
        r.1 == rot_obj_z(c as int, sn as int, x as int, z as int),
{
    proof {
        crate::fx::lemma_mul_abs_bound(c as int, x as int, ONE as int, 0x8000_0000);
        crate::fx::lemma_mul_abs_bound(sn as int, z as int, ONE as int, 0x8000_0000);
        crate::fx::lemma_mul_abs_bound(sn as int, x as int, ONE as int, 0x8000_0000);
        crate::fx::lemma_mul_abs_bound(c as int, z as int, ONE as int, 0x8000_0000);
        crate::fx::lemma_div_floor_abs((c * x - sn * z) as int, ONE as int,
            0x2_0000_0000_0000);
        crate::fx::lemma_div_floor_abs((sn * x + c * z) as int, ONE as int,
            0x2_0000_0000_0000);
    }
    let nx: i128 = (c as i128) * (x as i128) - (sn as i128) * (z as i128);
    let nz: i128 = (sn as i128) * (x as i128) + (c as i128) * (z as i128);
    (floor_div_i128(nx, ONE as i128) as i64, floor_div_i128(nz, ONE as i128) as i64)
}

/// Rotate `(x, z)` back into world space.
fn rot_pair_world(c: i64, sn: i64, x: i64, z: i64) -> (r: (i64, i64))
    requires
        -(ONE as int) <= c <= ONE as int,
        -(ONE as int) <= sn <= ONE as int,
        -0x8000_0000 <= x <= 0x8000_0000,
        -0x8000_0000 <= z <= 0x8000_0000,
    ensures
        r.0 == rot_world_x(c as int, sn as int, x as int, z as int),
        r.1 == rot_world_z(c as int, sn as int, x as int, z as int),
{
    proof {
        crate::fx::lemma_mul_abs_bound(c as int, x as int, ONE as int, 0x8000_0000);
        crate::fx::lemma_mul_abs_bound(sn as int, z as int, ONE as int, 0x8000_0000);
        crate::fx::lemma_mul_abs_bound(sn as int, x as int, ONE as int, 0x8000_0000);
        crate::fx::lemma_mul_abs_bound(c as int, z as int, ONE as int, 0x8000_0000);
        crate::fx::lemma_div_floor_abs((c * x + sn * z) as int, ONE as int,
            0x2_0000_0000_0000);
        crate::fx::lemma_div_floor_abs((c * z - sn * x) as int, ONE as int,
            0x2_0000_0000_0000);
    }
    let nx: i128 = (c as i128) * (x as i128) + (sn as i128) * (z as i128);
    let nz: i128 = (c as i128) * (z as i128) - (sn as i128) * (x as i128);
    (floor_div_i128(nx, ONE as i128) as i64, floor_div_i128(nz, ONE as i128) as i64)
}

/// Closest-hit query against any surface in the arena. For arenas without
/// media the result is pinned exactly by `hit_spec`; in every case an
/// accepted hit lies strictly inside the query window and its exact ray
/// point lies strictly inside the surface's bounding box.
#[verifier::rlimit(100)]
pub fn hit_surface(arena: &Vec<Surface>, id: usize, r: &Ray, ray_t: &Interval)
    -> (res: Option<HitRecord>)
    requires
        arena_wf(arena@),
        id < arena@.len(),
        ray_ok(*r),
        window_ok(ray_t.min as int, ray_t.max as int),
    ensures
        hit_sound(surf_bbox(arena@[id as int]), r.orig, r.dir, ray_t.min as int,
            ray_t.max as int, res),
        det_below(arena@, id as int + 1) ==> res == hit_spec(arena@, id as int, *r,
            ray_t.min as int, ray_t.max as int),
        arena@[id as int] is Medium && det_below(arena@, id as int) ==> medium_miss_ok(
            arena@, id as int, *r, ray_t.min as int, ray_t.max as int, res),
        arena@[id as int] is Medium && res is Some ==> ({
            let h = res.unwrap();
            &&& h.material == arena@[id as int]->Medium_0.phase_function
            &&& h.normal == (Vec3 { e: [ONE, 0i64, 0i64] })
            &&& h.front_face
            &&& h.uv == (0i64, 0i64)
            &&& (forall|i: int| 0 <= i < 3 ==> #[trigger] h.p.e[i] == ray_at_axis(r.orig,
                r.dir, h.t as int, i))
        }),
    decreases id, 1int, 0int,
{
    proof {
        assert(surf_wf(arena@, id as int));
    }
    let ghost tmin = ray_t.min as int;
    let ghost tmax = ray_t.max as int;
    match &arena[id] {
        Surface::Sphere(sp) => {
            let res = sphere_hit(sp, r, ray_t);
            proof {
                if res.is_some() {
                    let t = sph_chosen(*sp, r.orig, r.dir, r.ts as int, tmin, tmax).unwrap();
                    crate::sphere::lemma_sphere_record_eq(*sp, *r, t, res.unwrap());
                }
            }
            res
        },
        Surface::Quad(q) => {
            let res = quad_hit(q, r, ray_t);
            proof {
                if res.is_some() {
                    let t = quad_chosen(*q, r.orig, r.dir, tmin, tmax).unwrap();
                    crate::quad::lemma_quad_record_eq(*q, *r, t, res.unwrap());
                }
            }
            res
        },
        Surface::Translate(t) => {
            let o2 = Vec3 {
                e: [
                    r.orig.e[0] - t.offset.e[0],
                    r.orig.e[1] - t.offset.e[1],
                    r.orig.e[2] - t.offset.e[2],
                ],
            };
            if !(o2.e[0] >= -GEOM_MAX && o2.e[0] <= GEOM_MAX && o2.e[1] >= -GEOM_MAX
                && o2.e[1] <= GEOM_MAX && o2.e[2] >= -GEOM_MAX && o2.e[2] <= GEOM_MAX) {
                proof {
                    assert(!v_bounded(o2, GEOM_MAX as int));
                }
                return None;
            }
            let r2 = Ray { orig: o2, dir: r.dir, ts: r.ts };
            let child = hit_surface(arena, t.obj, &r2, ray_t);
            match child {
                Some(h) => {
                    let p2 = Vec3 {
                        e: [
                            #[verifier::truncate] (((h.p.e[0] as i128)
                                + (t.offset.e[0] as i128)) as i64),
                            #[verifier::truncate] (((h.p.e[1] as i128)
                                + (t.offset.e[1] as i128)) as i64),
                            #[verifier::truncate] (((h.p.e[2] as i128)
                                + (t.offset.e[2] as i128)) as i64),
                        ],
                    };
                    let res = Some(HitRecord { p: p2, ..h });
                    proof {
                        lemma_box_shifted(surf_bbox(arena@[t.obj as int]), t.aabb, t.offset,
                            o2, r.orig, r.dir, h.t as int, ONE as int);
                        if det_below(arena@, id as int + 1) {
                            let hs = hit_spec(arena@, id as int, *r, tmin, tmax);
                            assert(p2.e =~= (match hit_spec(arena@, id as int, *r, tmin,
                                tmax) {
                                Some(g) => g.p.e,
                                None => p2.e,
                            }));
                        }
                    }
                    res
                },
                None => None,
            }
        },
        Surface::RotateY(ry) => {
            let (ox, oz) = rot_pair_obj(ry.cos_theta, ry.sin_theta, r.orig.e[0], r.orig.e[2]);
            let (dx, dz) = rot_pair_obj(ry.cos_theta, ry.sin_theta, r.dir.e[0], r.dir.e[2]);
            let o2 = Vec3 { e: [ox, r.orig.e[1], oz] };
            let d2 = Vec3 { e: [dx, r.dir.e[1], dz] };
            let ok = ox >= -GEOM_MAX && ox <= GEOM_MAX && oz >= -GEOM_MAX && oz <= GEOM_MAX
                && dx >= -GEOM_MAX && dx <= GEOM_MAX && dz >= -GEOM_MAX && dz <= GEOM_MAX;
            if !ok {
                proof {
                    assert(!(v_bounded(o2, GEOM_MAX as int) && v_bounded(d2,
                        GEOM_MAX as int))) by {
                        if v_bounded(o2, GEOM_MAX as int) && v_bounded(d2, GEOM_MAX as int) {
                            assert(-GEOM_MAX <= o2.e[0] <= GEOM_MAX);
                            assert(-GEOM_MAX <= o2.e[2] <= GEOM_MAX);
                            assert(-GEOM_MAX <= d2.e[0] <= GEOM_MAX);
                            assert(-GEOM_MAX <= d2.e[2] <= GEOM_MAX);
                        }
                    }
                }
                return None;
            }
            proof {
                assert(v_bounded(o2, GEOM_MAX as int));
                assert(v_bounded(d2, GEOM_MAX as int));
            }
            let r2 = Ray { orig: o2, dir: d2, ts: r.ts };
            let child = hit_surface(arena, ry.obj, &r2, ray_t);
            match child {
                Some(h0) => {
                    let pb = h0.p.e[0] >= -0x4000_0000 && h0.p.e[0] <= 0x4000_0000
                        && h0.p.e[1] >= -0x4000_0000 && h0.p.e[1] <= 0x4000_0000
                        && h0.p.e[2] >= -0x4000_0000 && h0.p.e[2] <= 0x4000_0000
                        && h0.normal.e[0] >= -0x4000_0000 && h0.normal.e[0] <= 0x4000_0000
                        && h0.normal.e[1] >= -0x4000_0000 && h0.normal.e[1] <= 0x4000_0000
                        && h0.normal.e[2] >= -0x4000_0000 && h0.normal.e[2] <= 0x4000_0000;
                    if !pb {
                        proof {
                            assert(!(v_bounded(h0.p, 0x4000_0000) && v_bounded(h0.normal,
                                0x4000_0000))) by {
                                if v_bounded(h0.p, 0x4000_0000) && v_bounded(h0.normal,
                                    0x4000_0000) {
                                    assert(-0x4000_0000 <= h0.p.e[0] <= 0x4000_0000);
                                    assert(-0x4000_0000 <= h0.p.e[1] <= 0x4000_0000);
                                    assert(-0x4000_0000 <= h0.p.e[2] <= 0x4000_0000);
                                    assert(-0x4000_0000 <= h0.normal.e[0] <= 0x4000_0000);
                                    assert(-0x4000_0000 <= h0.normal.e[1] <= 0x4000_0000);
                                    assert(-0x4000_0000 <= h0.normal.e[2] <= 0x4000_0000);
                                }
                            }
                        }
                        return None;
                    }
                    proof {
                        assert(v_bounded(h0.p, 0x4000_0000));
                        assert(v_bounded(h0.normal, 0x4000_0000));
                        lemma_window_strict(tmin, tmax, h0.t as int);
                    }
                    if !box_contains_param(&ry.aabb, &r.orig, &r.dir, h0.t as i128) {
                        return None;
                    }
                    let (wx, wz) = rot_pair_world(ry.cos_theta, ry.sin_theta, h0.p.e[0],
                        h0.p.e[2]);
                    let (nx, nz) = rot_pair_world(ry.cos_theta, ry.sin_theta, h0.normal.e[0],
                        h0.normal.e[2]);
                    let res = Some(HitRecord {
                        p: Vec3 { e: [wx, h0.p.e[1], wz] },
                        normal: Vec3 { e: [nx, h0.normal.e[1], nz] },
                        ..h0
                    });
                    proof {
                        if det_below(arena@, id as int + 1) {
                            let hs = hit_spec(arena@, id as int, *r, tmin, tmax);
                            assert(hs.is_some());
                            assert(res.unwrap().p.e =~= hs.unwrap().p.e);
                            assert(res.unwrap().normal.e =~= hs.unwrap().normal.e);
                        }
                    }
                    res
                },
                None => None,
            }
        },
        Surface::Medium(m) => {
            proof {
                assert(!det_below(arena@, id as int + 1)) by {
                    assert(arena@[id as int] is Medium);
                }
            }
            let universe = Interval::universe();
            let rec1 = hit_surface(arena, m.boundary, r, &universe);
            proof {
                if det_below(arena@, id as int) {
                    assert(det_below(arena@, m.boundary as int + 1));
                }
            }
            let t1f: i64 = match &rec1 {
                Some(h1) => h1.t,
                None => {
                    return None;
                },
            };
            proof {
                lemma_window_strict(-(INF as int), INF as int, t1f as int);
            }
            let adv: i64 = if t1f + 7 <= INF { t1f + 7 } else { INF };
            let rec2 = hit_surface(arena, m.boundary, r, &Interval::new(adv, INF));
            let t2f: i64 = match &rec2 {
                Some(h2) => h2.t,
                None => {
                    return None;
                },
            };
            proof {
                lemma_window_strict(adv as int, INF as int, t2f as int);
            }
            let mut ta: i64 = t1f;
            let mut tb: i64 = t2f;
            if ta < ray_t.min {
                ta = ray_t.min;
            }
            if tb > ray_t.max {
                tb = ray_t.max;
            }
            if ta >= tb {
                return None;
            }
            if ta < 0 {
                ta = 0;
            }
            if ta >= tb {
                return None;
            }
            let ray_length = r.dir.length();
            if ray_length == 0 {
                return None;
            }
            if ray_length >= 0x4000_0000 {
                return None;
            }
            let u = crate::rng::random_unit_fx();
            let tnew: i64 = match crate::constant_medium::medium_free_flight(u, m.density,
                ta, tb, ray_length) {
                Some(t0) => t0,
                None => {
                    return None;
                },
            };
            let tcand: i128 = tnew as i128;
            if !(((ray_t.min as i128) < tcand) && (tcand < (ray_t.max as i128))) {
                return None;
            }
            if !box_contains_param(&m.aabb, &r.orig, &r.dir, tcand) {
                return None;
            }
            let t: i64 = tcand as i64;
            proof {
                assert(t as int == tcand as int);
                assert(ray_hits_box_at(m.aabb, r.orig, r.dir, t as int, ONE as int));
                lemma_box_param_point_bounds(m.aabb, r.orig, r.dir, t as int,
                    (INF as int) + 4);
                assert forall|i: int| 0 <= i < 3 implies
                    i64::MIN <= #[trigger] ray_at_axis(r.orig, r.dir, t as int, i)
                        <= i64::MAX by {
                    assert(-(INF as int) - 4 <= ray_at_axis(r.orig, r.dir, t as int, i)
                        <= (INF as int) + 4);
                }
                assert(in_window(tmin, tmax, t as int, ONE as int)) by (nonlinear_arith)
                    requires
                        tmin < (t as int) && (t as int) < tmax,
                        ONE == 65536,
                ;
            }
            let p = r.at(t);
            Some(HitRecord {
                p,
                normal: Vec3 { e: [ONE, 0, 0] },
                t,
                uv: (0, 0),
                front_face: true,
                material: m.phase_function,
            })
        },
        Surface::List(l) => {
            let ghost ids = l.objects@;
            let mut acc: Option<HitRecord> = None;
            let mut cap: i64 = ray_t.max;
            let mut k: usize = 0;
            while k < l.objects.len()
                invariant
                    arena_wf(arena@),
                    id < arena@.len(),
                    arena@[id as int] == Surface::List(*l),
                    surf_wf(arena@, id as int),
                    ray_ok(*r),
                    window_ok(tmin, tmax),
                    tmin == ray_t.min as int,
                    tmax == ray_t.max as int,
                    ids == l.objects@,
                    k <= ids.len(),
                    -(INF as int) <= cap as int <= INF as int,
                    acc is Some ==> acc.unwrap().t == cap
                        && hit_within(l.aabb, r.orig, r.dir, tmin, tmax, acc.unwrap()),
                    acc is None ==> cap as int == tmax,
                    cap as int <= tmax,
                    det_below(arena@, id as int + 1) ==> scan_spec(arena@, id as int, ids,
                        k as int, *r, tmin, cap as int, acc) == scan_spec(arena@,
                        id as int, ids, 0, *r, tmin, tmax, None),
                decreases ids.len() - k,
            {
                let child_id = l.objects[k];
                proof {
                    assert(ids[k as int] < id);
                }
                let probe = hit_surface(arena, child_id, r, &Interval::new(ray_t.min, cap));
                match probe {
                    Some(h) => {
                        proof {
                            lemma_window_strict(tmin, cap as int, h.t as int);
                            lemma_in_window_widen(tmin, cap as int, tmax, h.t as int);
                            lemma_hits_covered_box(l.aabb,
                                surf_bbox(arena@[ids[k as int] as int]), r.orig, r.dir,
                                h.t as int, ONE as int);
                        }
                        cap = h.t;
                        acc = Some(h);
                    },
                    None => {
                    },
                }
                k = k + 1;
            }
            acc
        },
        Surface::Bvh(b) => {
            match &b.root {
                Some(c) => {
                    let res = bvh_hit_child(arena, Ghost(id as int), &b.nodes, *c, r,
                        ray_t.min, ray_t.max, None);
                    proof {
                        if res.is_some() {
                            lemma_hits_covered_box(b.aabb,
                                bvh_child_box(arena@, b.nodes@, *c), r.orig, r.dir,
                                res.unwrap().t as int, ONE as int);
                        }
                    }
                    res
                },
                None => None,
            }
        },
    }
}

/// One step of the BVH traversal: reject the child's box against the
/// current window, otherwise probe its subtree, threading the closest
/// hit so far.
fn bvh_hit_child(arena: &Vec<Surface>, Ghost(idb): Ghost<int>, nodes: &Vec<BvhNd>,
    c: BvhChild, r: &Ray, tmin: i64, cap: i64, acc: Option<HitRecord>)
    -> (res: Option<HitRecord>)
    requires
        arena_wf(arena@),
        0 <= idb <= arena@.len(),
        bvh_nodes_acyclic(nodes@),
        forall|j: int| 0 <= j < nodes@.len() ==>
            bvh_nd_wf(arena@, idb, nodes@, #[trigger] nodes@[j]),
        child_in_range(nodes@, c),
        bvh_child_ref_ok(arena@, idb, nodes@, c),
        ray_ok(*r),
        window_ok(tmin as int, cap as int),
        acc is Some ==> tmin < acc.unwrap().t <= cap,
    ensures
        det_below(arena@, idb) ==> res == bvh_traverse_spec(arena@, idb, nodes@, c, *r,
            tmin as int, cap as int, acc),
        res == acc || (res.is_some() && hit_within(bvh_child_box(arena@, nodes@, c), r.orig,
            r.dir, tmin as int, cap as int, res.unwrap())),
        res is Some ==> tmin < res.unwrap().t <= cap,
    decreases idb, 0int, child_measure(c),
{
    match c {
        BvhChild::Prim(p) => {
            let rp = hit_surface(arena, p, r, &Interval::new(tmin, cap));
            proof {
                if rp.is_some() {
                    lemma_window_strict(tmin as int, cap as int, rp.unwrap().t as int);
                }
            }
            match rp {
                Some(h) => Some(h),
                None => acc,
            }
        },
        BvhChild::Node(k) => {
            let nd = nodes[k];
            proof {
                assert(bvh_nd_wf(arena@, idb, nodes@, nodes@[k as int]));
            }
            if !nd.aabb.hit(r, Interval::new(tmin, cap)) {
                return acc;
            }
            let a1 = bvh_hit_child(arena, Ghost(idb), nodes, nd.left, r, tmin, cap, acc);
            let cap1: i64 = match &a1 {
                Some(h) => h.t,
                None => cap,
            };
            let a2 = bvh_hit_child(arena, Ghost(idb), nodes, nd.right, r, tmin, cap1, a1);
            proof {
                if a1 != acc && a1.is_some() {
                    lemma_hits_covered_box(nd.aabb, bvh_child_box(arena@, nodes@, nd.left),
                        r.orig, r.dir, a1.unwrap().t as int, ONE as int);
                }
                if a2 != a1 && a2.is_some() {
                    lemma_hits_covered_box(nd.aabb, bvh_child_box(arena@, nodes@, nd.right),
                        r.orig, r.dir, a2.unwrap().t as int, ONE as int);
                    lemma_in_window_widen(tmin as int, cap1 as int, cap as int,
                        a2.unwrap().t as int);
                }
            }
            a2
        },
    }
}

/// Exec check of `aabb_finite`.
fn check_box_finite(b: &Aabb, m: i64) -> (r: bool)
    requires
        0 <= m,
    ensures
        r == aabb_finite(*b, m as int),
{
    let r = b.x.min >= -m && b.x.max <= m && b.x.min <= m && b.x.max >= -m
        && b.y.min >= -m && b.y.max <= m && b.y.min <= m && b.y.max >= -m
        && b.z.min >= -m && b.z.max <= m && b.z.min <= m && b.z.max >= -m;
    proof {
        assert(axis_iv(*b, 0) == b.x);
        assert(axis_iv(*b, 1) == b.y);
        assert(axis_iv(*b, 2) == b.z);
        if r {
            assert forall|i: int| 0 <= i < 3 implies
                -(m as int) <= (#[trigger] axis_iv(*b, i)).min <= m as int
                && -(m as int) <= axis_iv(*b, i).max <= m as int by {
                if i == 0 {
                } else if i == 1 {
                } else {
                }
            }
        }
    }
    r
}

/// Exec check of `v_bounded`.
fn check_v_bounded(v: &Vec3, m: i64) -> (r: bool)
    requires
        0 <= m,
    ensures
        r == v_bounded(*v, m as int),
{
    let r = v.e[0] >= -m && v.e[0] <= m && v.e[1] >= -m && v.e[1] <= m && v.e[2] >= -m
        && v.e[2] <= m;
    proof {
        if r {
            assert forall|i: int| 0 <= i < 3 implies
                -(m as int) <= #[trigger] v.e[i] <= m as int by {
                if i == 0 {
                } else if i == 1 {
                } else {
                }
            }
        }
    }
    r
}

/// Exec check of `box_covers`.
fn check_box_covers(outer: &Aabb, inner: &Aabb) -> (r: bool)
    ensures
        r == box_covers(*outer, *inner),
{
    let r = outer.x.min <= inner.x.min && inner.x.max <= outer.x.max
        && outer.y.min <= inner.y.min && inner.y.max <= outer.y.max
        && outer.z.min <= inner.z.min && inner.z.max <= outer.z.max;
    proof {
        assert(axis_iv(*outer, 0) == outer.x && axis_iv(*inner, 0) == inner.x);
        assert(axis_iv(*outer, 1) == outer.y && axis_iv(*inner, 1) == inner.y);
        assert(axis_iv(*outer, 2) == outer.z && axis_iv(*inner, 2) == inner.z);
        if r {
            assert forall|i: int| 0 <= i < 3 implies
                (#[trigger] axis_iv(*outer, i)).min <= axis_iv(*inner, i).min
                && axis_iv(*inner, i).max <= axis_iv(*outer, i).max by {
                if i == 0 {
                } else if i == 1 {
                } else {
                }
            }
        }
    }
    r
}

/// Runtime validation of a candidate entry against the arena it would be
/// appended to.
#[verifier::rlimit(100)]
fn surf_check(arena: &Vec<Surface>, s: &Surface) -> (r: bool)
    ensures
        r ==> surf_wf(arena@.push(*s), arena@.len() as int),
        surf_wf(arena@.push(*s), arena@.len() as int) ==> r,
{
    let n = arena.len();
    let ghost a2 = arena@.push(*s);
    proof {
        assert(arena@.push(*s)[n as int] == *s);
        assert forall|j: int| 0 <= j < n implies
            #[trigger] arena@.push(*s)[j] == arena@[j] by {
        }
    }
    match s {
        Surface::Sphere(sp) => {
            check_v_bounded(&sp.center.orig, GEOM_MAX)
                && check_v_bounded(&sp.center.dir, 2 * GEOM_MAX)
                && sp.radius >= 0 && sp.radius <= GEOM_MAX
                && check_box_finite(&sp.aabb, 0x4000_0000)
        },
        Surface::Quad(q) => {
            check_v_bounded(&q.p0, GEOM_MAX) && check_v_bounded(&q.u, GEOM_MAX)
                && check_v_bounded(&q.v, GEOM_MAX) && check_v_bounded(&q.n, 0x400_0000_0000)
                && check_v_bounded(&q.normal, ONE)
                && q.d >= -0x1000_0000_0000_0000_0000 && q.d <= 0x1000_0000_0000_0000_0000
                && check_box_finite(&q.aabb, 0x4000_0000)
        },
        Surface::Translate(t) => {
            if !(t.obj < n) {
                return false;
            }
            let cb = surface_bounding_box(arena, t.obj);
            check_v_bounded(&t.offset, GEOM_MAX) && check_box_finite(&t.aabb, INF + 4)
                && check_shifted(&t.aabb, &cb, &t.offset)
        },
        Surface::RotateY(ry) => {
            ry.obj < n && ry.sin_theta >= -ONE && ry.sin_theta <= ONE && ry.cos_theta >= -ONE
                && ry.cos_theta <= ONE && check_box_finite(&ry.aabb, INF + 4)
        },
        Surface::Medium(m) => {
            if !(m.boundary < n) {
                return false;
            }
            let cb = surface_bounding_box(arena, m.boundary);
            m.density >= 1 && m.density <= 0x4000_0000 && boxes_equal(&m.aabb, &cb)
                && check_box_finite(&m.aabb, INF + 4)
        },
        Surface::List(l) => {
            if !check_box_finite(&l.aabb, INF + 4) {
                return false;
            }
            let mut k: usize = 0;
            let mut good: bool = true;
            while k < l.objects.len()
                invariant
                    k <= l.objects@.len(),
                    n == arena@.len(),
                    good ==> (forall|j: int| 0 <= j < k ==> #[trigger] l.objects@[j] < n
                        && box_covers(l.aabb, surf_bbox(arena@[l.objects@[j] as int]))),
                    (forall|j: int| 0 <= j < l.objects@.len() ==> #[trigger] l.objects@[j]
                        < n && box_covers(l.aabb, surf_bbox(arena@[l.objects@[j] as int])))
                        ==> good,
                decreases l.objects@.len() - k,
            {
                let cid = l.objects[k];
                if cid < n {
                    let cb = surface_bounding_box(arena, cid);
                    let c = check_box_covers(&l.aabb, &cb);
                    good = good && c;
                } else {
                    good = false;
                }
                k = k + 1;
            }
            proof {
                if good {
                    assert forall|j: int| 0 <= j < l.objects@.len() implies
                        #[trigger] l.objects@[j] < n
                        && box_covers(l.aabb, surf_bbox(arena@.push(*s)[
                            l.objects@[j] as int])) by {
                        assert(l.objects@[j] < n);
                        assert(arena@.push(*s)[l.objects@[j] as int]
                            == arena@[l.objects@[j] as int]);
                    }
                }
            }
            good
        },
        Surface::Bvh(b) => {
            let finite_root = check_box_finite(&b.aabb, INF + 4);
            if !finite_root {
                proof {
                    if surf_wf(a2, n as int) {
                        assert(aabb_wf(b.aabb));
                    }
                }
                return false;
            }
            let mut k: usize = 0;
            let mut good: bool = true;
            while k < b.nodes.len()
                invariant
                    k <= b.nodes@.len(),
                    n == arena@.len(),
                    a2 == arena@.push(*s),
                    a2[n as int] == *s,
                    (*s) is Bvh && (*s)->Bvh_0 == b,
                    forall|j: int| 0 <= j < n ==> #[trigger] a2[j] == arena@[j],
                    good ==> ((forall|j: int| 0 <= j < k ==> child_measure(
                        #[trigger] b.nodes@[j].left) <= j && child_measure(b.nodes@[j].right)
                        <= j) && (forall|j: int| 0 <= j < k ==> bvh_nd_wf(arena@, n as int,
                        b.nodes@, #[trigger] b.nodes@[j]))),
                    ((forall|j: int| 0 <= j < b.nodes@.len() ==> child_measure(
                        #[trigger] b.nodes@[j].left) <= j && child_measure(b.nodes@[j].right)
                        <= j) && (forall|j: int| 0 <= j < b.nodes@.len() ==> bvh_nd_wf(
                        arena@, n as int, b.nodes@, #[trigger] b.nodes@[j]))) ==> good,
                decreases b.nodes@.len() - k,
            {
                let c1 = check_bvh_child(arena, &b.nodes, k, b.nodes[k].left);
                let c2 = check_bvh_child(arena, &b.nodes, k, b.nodes[k].right);
                let c3 = check_box_finite(&b.nodes[k].aabb, INF + 4);
                good = good && c1 && c2 && c3;
                proof {
                    if good {
                        assert(bvh_nd_wf(arena@, n as int, b.nodes@, b.nodes@[k as int]));
                    }
                }
                k = k + 1;
            }
            if !good {
                proof {
                    if surf_wf(a2, n as int) {
                        assert forall|j: int| 0 <= j < b.nodes@.len() implies
                            child_measure(#[trigger] b.nodes@[j].left) <= j && child_measure(
                            b.nodes@[j].right) <= j && bvh_nd_wf(arena@, n as int, b.nodes@,
                            b.nodes@[j]) by {
                            assert(bvh_nd_wf(a2, n as int, b.nodes@, b.nodes@[j]));
                            lemma_bvh_nd_wf_unpush(arena@, *s, n as int, b.nodes@,
                                b.nodes@[j]);
                        }
                    }
                }
                return false;
            }
            proof {
                assert(bvh_nodes_acyclic(b.nodes@));
            }
            let rok: bool = match &b.root {
                Some(c) => {
                    let cc = *c;
                    let inr: bool = match cc {
                        BvhChild::Prim(p) => p < n,
                        BvhChild::Node(kk) => kk < b.nodes.len(),
                    };
                    if inr {
                        let cb = bvh_child_box_exec(arena, &b.nodes, cc);
                        check_box_covers(&b.aabb, &cb)
                    } else {
                        false
                    }
                },
                None => true,
            };
            proof {
                if rok {
                    assert forall|j: int| 0 <= j < b.nodes@.len() implies
                        bvh_nd_wf(arena@.push(*s), n as int, b.nodes@,
                            #[trigger] b.nodes@[j]) by {
                        lemma_bvh_nd_wf_push(arena@, *s, n as int, b.nodes@, b.nodes@[j]);
                    }
                    match b.root {
                        Some(c) => {
                            lemma_child_box_push(arena@, *s, b.nodes@, c);
                        },
                        None => {
                        },
                    }
                } else {
                    if surf_wf(a2, n as int) {
                        match b.root {
                            Some(c) => {
                                lemma_child_box_push(arena@, *s, b.nodes@, c);
                            },
                            None => {
                            },
                        }
                    }
                }
            }
            rok
        },
    }
}

/// Exec equality of two boxes.
fn boxes_equal(a: &Aabb, b: &Aabb) -> (r: bool)
    ensures
        r == (*a == *b),
{
    a.x.min == b.x.min && a.x.max == b.x.max && a.y.min == b.y.min && a.y.max == b.y.max
        && a.z.min == b.z.min && a.z.max == b.z.max
}

/// Exec check that a box equals another box shifted by `off`.
fn check_shifted(tbox: &Aabb, child: &Aabb, off: &Vec3) -> (r: bool)
    ensures
        r == (forall|ax: int| 0 <= ax < 3 ==>
            (#[trigger] axis_iv(*tbox, ax)).min == axis_iv(*child, ax).min + off.e[ax]
            && axis_iv(*tbox, ax).max == axis_iv(*child, ax).max + off.e[ax]),
{
    proof {
        assert(axis_iv(*tbox, 0) == tbox.x && axis_iv(*child, 0) == child.x);
        assert(axis_iv(*tbox, 1) == tbox.y && axis_iv(*child, 1) == child.y);
        assert(axis_iv(*tbox, 2) == tbox.z && axis_iv(*child, 2) == child.z);
    }
    let r = (tbox.x.min as i128) == (child.x.min as i128) + (off.e[0] as i128)
        && (tbox.x.max as i128) == (child.x.max as i128) + (off.e[0] as i128)
        && (tbox.y.min as i128) == (child.y.min as i128) + (off.e[1] as i128)
        && (tbox.y.max as i128) == (child.y.max as i128) + (off.e[1] as i128)
        && (tbox.z.min as i128) == (child.z.min as i128) + (off.e[2] as i128)
        && (tbox.z.max as i128) == (child.z.max as i128) + (off.e[2] as i128);
    proof {
        if r {
            assert forall|ax: int| 0 <= ax < 3 implies
                (#[trigger] axis_iv(*tbox, ax)).min == axis_iv(*child, ax).min + off.e[ax]
                && axis_iv(*tbox, ax).max == axis_iv(*child, ax).max + off.e[ax] by {
                if ax == 0 {
                } else if ax == 1 {
                } else {
                }
            }
        }
    }
    r
}

/// Exec check of one BVH child reference at node index `k`.
fn check_bvh_child(arena: &Vec<Surface>, nodes: &Vec<BvhNd>, k: usize, c: BvhChild)
    -> (r: bool)
    requires
        k < nodes@.len(),
    ensures
        r == (bvh_child_ref_ok(arena@, arena@.len() as int, nodes@, c)
            && child_measure(c) <= k as int
            && box_covers(nodes@[k as int].aabb, bvh_child_box(arena@, nodes@, c))),
{
    match c {
        BvhChild::Prim(p) => {
            if p < arena.len() {
                let cb = surface_bounding_box(arena, p);
                check_box_covers(&nodes[k].aabb, &cb)
            } else {
                false
            }
        },
        BvhChild::Node(m) => {
            if m < k {
                check_box_covers(&nodes[k].aabb, &nodes[m].aabb)
            } else {
                false
            }
        },
    }
}

/// Exec lookup of the box a BVH child stands for.
fn bvh_child_box_exec(arena: &Vec<Surface>, nodes: &Vec<BvhNd>, c: BvhChild) -> (r: Aabb)
    requires
        child_in_range(nodes@, c),
        match c {
            BvhChild::Prim(p) => p < arena@.len(),
            BvhChild::Node(_) => true,
        },
    ensures
        r == bvh_child_box(arena@, nodes@, c),
{
    match c {
        BvhChild::Prim(p) => surface_bounding_box(arena, p),
        BvhChild::Node(k) => nodes[k].aabb,
    }
}

/// Node facts carry back from the appended arena to the current one.
proof fn lemma_bvh_nd_wf_unpush(arena: Seq<Surface>, s: Surface, i: int, nodes: Seq<BvhNd>,
    nd: BvhNd)
    requires
        bvh_nd_wf(arena.push(s), i, nodes, nd),
        i == arena.len(),
    ensures
        bvh_nd_wf(arena, i, nodes, nd),
{
    match nd.left {
        BvhChild::Prim(p) => {
            assert(arena.push(s)[p as int] == arena[p as int]);
        },
        BvhChild::Node(_) => {
        },
    }
    match nd.right {
        BvhChild::Prim(p) => {
            assert(arena.push(s)[p as int] == arena[p as int]);
        },
        BvhChild::Node(_) => {
        },
    }
}

/// Appending a surface does not disturb an existing node's facts.
pub proof fn lemma_bvh_nd_wf_push(arena: Seq<Surface>, s: Surface, i: int, nodes: Seq<BvhNd>,
    nd: BvhNd)
    requires
        bvh_nd_wf(arena, i, nodes, nd),
        i == arena.len(),
    ensures
        bvh_nd_wf(arena.push(s), i, nodes, nd),
{
    lemma_child_box_push(arena, s, nodes, nd.left);
    lemma_child_box_push(arena, s, nodes, nd.right);
}

/// Appending a surface leaves existing child boxes unchanged.
pub proof fn lemma_child_box_push(arena: Seq<Surface>, s: Surface, nodes: Seq<BvhNd>,
    c: BvhChild)
    requires
        match c {
            BvhChild::Prim(p) => p < arena.len(),
            BvhChild::Node(_) => true,
        },
    ensures
        bvh_child_box(arena.push(s), nodes, c) == bvh_child_box(arena, nodes, c),
{
    match c {
        BvhChild::Prim(p) => {
            assert(arena.push(s)[p as int] == arena[p as int]);
        },
        BvhChild::Node(_) => {
        },
    }
}

/// Appending an entry preserves the facts of every earlier entry.
proof fn lemma_surf_wf_push(arena: Seq<Surface>, s: Surface, i: int)
    requires
        0 <= i < arena.len(),
        surf_wf(arena, i),
    ensures
        surf_wf(arena.push(s), i),
{
    let a2 = arena.push(s);
    assert(a2[i] == arena[i]);
    match arena[i] {
        Surface::Sphere(_) => {
        },
        Surface::Quad(_) => {
        },
        Surface::Translate(t) => {
            assert(a2[t.obj as int] == arena[t.obj as int]);
        },
        Surface::RotateY(_) => {
        },
        Surface::Medium(m) => {
            assert(a2[m.boundary as int] == arena[m.boundary as int]);
        },
        Surface::List(l) => {
            assert forall|k: int| 0 <= k < l.objects@.len() implies
                box_covers(l.aabb, surf_bbox(a2[#[trigger] l.objects@[k] as int])) by {
                assert(l.objects@[k] < i);
                assert(a2[l.objects@[k] as int] == arena[l.objects@[k] as int]);
            }
        },
        Surface::Bvh(b) => {
            assert forall|j: int| 0 <= j < b.nodes@.len() implies
                bvh_nd_wf(a2, i, b.nodes@, #[trigger] b.nodes@[j]) by {
                match b.nodes@[j].left {
                    BvhChild::Prim(p) => {
                        assert(a2[p as int] == arena[p as int]);
                    },
                    BvhChild::Node(_) => {
                    },
                }
                match b.nodes@[j].right {
                    BvhChild::Prim(p) => {
                        assert(a2[p as int] == arena[p as int]);
                    },
                    BvhChild::Node(_) => {
                    },
                }
            }
            match b.root {
                Some(c) => {
                    match c {
                        BvhChild::Prim(p) => {
                            assert(a2[p as int] == arena[p as int]);
                        },
                        BvhChild::Node(_) => {
                        },
                    }
                },
                None => {
                },
            }
        },
    }
}

/// The scene: an arena of surfaces addressed by stable index. `add`
/// validates each entry at run time, so unverified callers can only ever
/// build well-formed scenes.
#[derive(Clone, Debug)]
pub struct World {
    pub surfaces: Vec<Surface>,
}

impl World {
    pub open spec fn wf(self) -> bool {
        arena_wf(self.surfaces@)
    }

    pub fn new() -> (r: World)
        ensures
            r.wf(),
            r.surfaces@.len() == 0,
    {
        World { surfaces: Vec::new() }
    }

    pub fn len(&self) -> (r: usize)
        ensures
            r == self.surfaces@.len(),
    {
        self.surfaces.len()
    }

    /// Validate and append a surface; returns its index, or `None` when
    /// the entry fails validation.
    pub fn add(&mut self, s: Surface) -> (r: Option<usize>)
        requires
            old(self).wf(),
        ensures
            final(self).wf(),
            r is Some ==> r.unwrap() == old(self).surfaces@.len()
                && final(self).surfaces@ == old(self).surfaces@.push(s),
            r is None ==> final(self).surfaces@ == old(self).surfaces@,
            surf_wf(old(self).surfaces@.push(s), old(self).surfaces@.len() as int)
                ==> r is Some,
    {
        if surf_check(&self.surfaces, &s) {
            let id = self.surfaces.len();
            proof {
                assert forall|i: int| 0 <= i < self.surfaces@.push(s).len() implies
                    #[trigger] surf_wf(self.surfaces@.push(s), i) by {
                    if i < self.surfaces@.len() {
                        assert(surf_wf(self.surfaces@, i));
                        lemma_surf_wf_push(self.surfaces@, s, i);
                    }
                }
            }
            self.surfaces.push(s);
            Some(id)
        } else {
            None
        }
    }

    /// Bounding box of a member surface.
    pub fn bounding_box(&self, id: usize) -> (r: Aabb)
        requires
            id < self.surfaces@.len(),
        ensures
            r == surf_bbox(self.surfaces@[id as int]),
    {
        surface_bounding_box(&self.surfaces, id)
    }

    /// Closest-hit query through the arena.
    pub fn hit(&self, id: usize, r: &Ray, ray_t: &Interval) -> (res: Option<HitRecord>)
        requires
            self.wf(),
            id < self.surfaces@.len(),
            ray_ok(*r),
            window_ok(ray_t.min as int, ray_t.max as int),
        ensures
            hit_sound(surf_bbox(self.surfaces@[id as int]), r.orig, r.dir, ray_t.min as int,
                ray_t.max as int, res),
            det_below(self.surfaces@, id as int + 1) ==> res == hit_spec(self.surfaces@,
                id as int, *r, ray_t.min as int, ray_t.max as int),
            self.surfaces@[id as int] is Medium && res is Some ==> ({
                let h = res.unwrap();
                &&& h.material == self.surfaces@[id as int]->Medium_0.phase_function
                &&& h.normal == (Vec3 { e: [ONE, 0i64, 0i64] })
                &&& h.front_face
            }),
            self.surfaces@[id as int] is Medium && det_below(self.surfaces@, id as int)
                ==> medium_miss_ok(self.surfaces@, id as int, *r, ray_t.min as int,
                ray_t.max as int, res),
    {
        hit_surface(&self.surfaces, id, r, ray_t)
    }
}

/// Wrapping a surface in a translation and then in the opposite
/// translation reports exactly the hits of the bare surface: same
/// parameter, orientation, texture coordinates and point. (The point
/// comparison assumes the intermediate shifted point stays within the
/// 64-bit component range, which every in-budget scene satisfies.)
pub proof fn lemma_translate_round_trip(arena: Seq<Surface>, sid: int, id1: int, id2: int,
    r: Ray, tmin: int, tmax: int)
    requires
        arena_wf(arena),
        arena_det(arena),
        0 <= sid < id1 < id2 < arena.len(),
        arena[id1] is Translate,
        arena[id2] is Translate,
        arena[id1]->Translate_0.obj == sid,
        arena[id2]->Translate_0.obj == id1,
        forall|i: int| 0 <= i < 3 ==>
            #[trigger] arena[id2]->Translate_0.offset.e[i]
                == -arena[id1]->Translate_0.offset.e[i],
        v_bounded(r.orig, GEOM_MAX as int),
        v_bounded(arena[id1]->Translate_0.offset, GEOM_MAX as int),
        forall|i: int| 0 <= i < 3 ==>
            -GEOM_MAX <= #[trigger] (r.orig.e[i] + arena[id1]->Translate_0.offset.e[i])
                <= GEOM_MAX,
        (match hit_spec(arena, sid, r, tmin, tmax) {
            Some(h) => v_bounded(h.p, 0x4000_0000_0000_0000),
            None => true,
        }),
    ensures
        hit_spec(arena, id2, r, tmin, tmax) == hit_spec(arena, sid, r, tmin, tmax),
{
    let t1 = arena[id1]->Translate_0;
    let t2 = arena[id2]->Translate_0;
    assert(surf_wf(arena, id1));
    assert(surf_wf(arena, id2));
    // The outer decorator shifts the origin by the negated offset, i.e.
    // adds the original offset back.
    let o2 = Vec3 {
        e: [
            (r.orig.e[0] - t2.offset.e[0]) as i64,
            (r.orig.e[1] - t2.offset.e[1]) as i64,
            (r.orig.e[2] - t2.offset.e[2]) as i64,
        ],
    };
    assert(o2.e[0] == r.orig.e[0] + t1.offset.e[0]);
    assert(o2.e[1] == r.orig.e[1] + t1.offset.e[1]);
    assert(o2.e[2] == r.orig.e[2] + t1.offset.e[2]);
    assert(v_bounded(o2, GEOM_MAX as int)) by {
        assert forall|i: int| 0 <= i < 3 implies -GEOM_MAX <= #[trigger] o2.e[i] <= GEOM_MAX
            by {
            assert(-GEOM_MAX <= r.orig.e[i] + t1.offset.e[i] <= GEOM_MAX);
        }
    }
    let r2 = Ray { orig: o2, dir: r.dir, ts: r.ts };
    // The inner decorator shifts back to the original origin.
    let o3 = Vec3 {
        e: [
            (o2.e[0] - t1.offset.e[0]) as i64,
            (o2.e[1] - t1.offset.e[1]) as i64,
            (o2.e[2] - t1.offset.e[2]) as i64,
        ],
    };
    assert(o3.e =~= r.orig.e);
    let r3 = Ray { orig: o3, dir: r.dir, ts: r.ts };
    assert(r3 == r);
    assert(v_bounded(o3, GEOM_MAX as int)) by {
        assert forall|i: int| 0 <= i < 3 implies -GEOM_MAX <= #[trigger] o3.e[i] <= GEOM_MAX
            by {
            assert(o3.e[i] == r.orig.e[i]);
        }
    }
    let base = hit_spec(arena, sid, r, tmin, tmax);
    let mid = hit_spec(arena, id1, r2, tmin, tmax);
    match base {
        None => {
            assert(mid is None);
            assert(hit_spec(arena, id2, r, tmin, tmax) is None);
        },
        Some(h) => {
            let p1 = Vec3 {
                e: [
                    (h.p.e[0] + t1.offset.e[0]) as i64,
                    (h.p.e[1] + t1.offset.e[1]) as i64,
                    (h.p.e[2] + t1.offset.e[2]) as i64,
                ],
            };
            assert(mid == Some(HitRecord { p: p1, ..h }));
            let back = hit_spec(arena, id2, r, tmin, tmax);
            let p2 = Vec3 {
                e: [
                    (p1.e[0] + t2.offset.e[0]) as i64,
                    (p1.e[1] + t2.offset.e[1]) as i64,
                    (p1.e[2] + t2.offset.e[2]) as i64,
                ],
            };
            assert(back == Some(HitRecord { p: p2, ..(mid.unwrap()) }));
            assert(p1.e[0] == h.p.e[0] + t1.offset.e[0]);
            assert(p1.e[1] == h.p.e[1] + t1.offset.e[1]);
            assert(p1.e[2] == h.p.e[2] + t1.offset.e[2]);
            assert(p2.e =~= h.p.e);
            assert(back.unwrap() == h);
        },
    }
}

/// Rotating into object space and back composes to a scaling by
/// `cos^2 + sin^2` before the fixed-point division, so with an exactly
/// unit rotation pair the two pose decorators cancel.
pub proof fn lemma_rotation_round_trip(c: int, s: int, x: int, z: int)
    ensures
        c * (c * x - s * z) + s * (s * x + c * z) == (c * c + s * s) * x,
        c * (s * x + c * z) - s * (c * x - s * z) == (c * c + s * s) * z,
{
    assert(c * (c * x - s * z) + s * (s * x + c * z) == (c * c + s * s) * x)
        by (nonlinear_arith);
    assert(c * (s * x + c * z) - s * (c * x - s * z) == (c * c + s * s) * z)
        by (nonlinear_arith);
}

/// The geometric fact the hierarchy's culling rests on: when a node's box
/// covers a sphere's box and the slab test rejects the node's box over
/// the query window, the sphere reports no hit on that window. (Every
/// accepted sphere parameter lies in the window with its exact ray point
/// strictly inside the sphere's box, which the covering box contains.)
pub proof fn lemma_cull_excludes_sphere(sp: crate::sphere::Sphere, orig: Vec3, dir: Vec3,
    ts: int, node_box: Aabb, tmin: int, tmax: int)
    requires
        box_covers(node_box, sp.aabb),
        !aabb_hit_spec(node_box, orig, dir, tmin, tmax),
    ensures
        sph_chosen(sp, orig, dir, ts, tmin, tmax) is None,
{
    if sph_chosen(sp, orig, dir, ts, tmin, tmax) is Some {
        let t = sph_chosen(sp, orig, dir, ts, tmin, tmax).unwrap();
        assert(in_window(tmin, tmax, t, ONE as int));
        assert(ray_hits_box_at(sp.aabb, orig, dir, t, ONE as int));
        lemma_hits_covered_box(node_box, sp.aabb, orig, dir, t, ONE as int);
        assert(aabb_hit_spec(node_box, orig, dir, tmin, tmax));
    }
}

/// The same culling fact for quads.
pub proof fn lemma_cull_excludes_quad(q: Quad, orig: Vec3, dir: Vec3, node_box: Aabb,
    tmin: int, tmax: int)
    requires
        box_covers(node_box, q.aabb),
        !aabb_hit_spec(node_box, orig, dir, tmin, tmax),
    ensures
        quad_chosen(q, orig, dir, tmin, tmax) is None,
{
    if quad_chosen(q, orig, dir, tmin, tmax) is Some {
        let t = quad_chosen(q, orig, dir, tmin, tmax).unwrap();
        assert(in_window(tmin, tmax, t, ONE as int));
        assert(ray_hits_box_at(q.aabb, orig, dir, t, ONE as int));
        lemma_hits_covered_box(node_box, q.aabb, orig, dir, t, ONE as int);
        assert(aabb_hit_spec(node_box, orig, dir, tmin, tmax));
    }
}

} // verus!
