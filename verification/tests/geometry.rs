// Geometric scenarios: slab test, sphere roots, quad interior,
// reflection, and pose-decorator round trips.

use pathtracer::fx::{ONE, INF};
use pathtracer::vec3::Vec3;
use pathtracer::ray::Ray;
use pathtracer::interval::Interval;
use pathtracer::aabb::Aabb;
use pathtracer::sphere::{Sphere, sphere_hit};
use pathtracer::quad::{Quad, quad_hit};
use pathtracer::hittable::{Surface, Translate, RotateY, World};

fn v(x: i64, y: i64, z: i64) -> Vec3 {
    Vec3 { e: [x, y, z] }
}

fn unit_box_at_origin() -> Aabb {
    Aabb::from_points(v(-ONE, -ONE, -ONE), v(ONE, ONE, ONE))
}

#[test]
fn aabb_slab_hit_through_box() {
    let b = unit_box_at_origin();
    let r = Ray::new(v(-3 * ONE, 0, 0), v(ONE, ONE / 4, ONE / 8), 0);
    assert!(b.hit(&r, Interval::universe()));
}

#[test]
fn aabb_slab_miss_beside_box() {
    let b = unit_box_at_origin();
    let r = Ray::new(v(-3 * ONE, 3 * ONE, 0), v(ONE, 0, 0), 0);
    assert!(!b.hit(&r, Interval::universe()));
}

#[test]
fn aabb_slab_translation_invariant() {
    let b = unit_box_at_origin();
    let shift = v(5 * ONE, -2 * ONE, 7 * ONE);
    let b2 = b.add(&shift);
    for (dx, dy, dz) in [(ONE, ONE / 3, 0), (ONE / 2, -ONE, ONE / 5), (0, 0, -ONE)] {
        let o = v(-4 * ONE, ONE / 2, ONE / 3);
        let o2 = v(o.e[0] + shift.e[0], o.e[1] + shift.e[1], o.e[2] + shift.e[2]);
        let d = v(dx, dy, dz);
        let r1 = Ray::new(o, d, 0);
        let r2 = Ray::new(o2, d, 0);
        assert_eq!(
            b.hit(&r1, Interval::universe()),
            b2.hit(&r2, Interval::universe())
        );
    }
}

#[test]
fn aabb_slab_behind_origin_needs_window() {
    let b = unit_box_at_origin();
    let r = Ray::new(v(-3 * ONE, 0, 0), v(ONE, 0, 0), 0);
    // With a forward-only window starting past the box, the test fails.
    assert!(!b.hit(&r, Interval::new(10 * ONE, INF)));
    assert!(b.hit(&r, Interval::new(0, INF)));
}

#[test]
fn sphere_diameter_roots_are_center_distance_plus_minus_radius() {
    // Unit sphere at the origin; ray along the x diameter from distance 3.
    let s = Sphere::new(v(0, 0, 0), ONE, 0);
    let r = Ray::new(v(-3 * ONE, 0, 0), v(ONE, 0, 0), 0);
    let hit = sphere_hit(&s, &r, &Interval::new(0, INF)).expect("diameter ray must hit");
    assert_eq!(hit.t, 2 * ONE); // center distance 3 minus radius 1
    // Push the window past the first root: the far root at distance 4.
    let hit2 = sphere_hit(&s, &r, &Interval::new(hit.t + 1, INF)).expect("far root");
    assert_eq!(hit2.t, 4 * ONE);
    // Hit point and outward normal at the near root.
    assert_eq!(hit.p.e, [-ONE, 0, 0]);
    assert_eq!(hit.normal.e, [-ONE, 0, 0]);
    assert!(hit.front_face);
}

#[test]
fn sphere_miss_when_closest_approach_exceeds_radius() {
    let s = Sphere::new(v(0, 0, 0), ONE, 0);
    let r = Ray::new(v(-3 * ONE, 2 * ONE, 0), v(ONE, 0, 0), 0);
    assert!(sphere_hit(&s, &r, &Interval::new(0, INF)).is_none());
}

#[test]
fn quad_planar_coordinates_at_anchor_and_far_corner() {
    // Unit quad in the z = -1 plane, anchored at (-1/2, -1/2).
    let q = Quad::new(v(-ONE / 2, -ONE / 2, -ONE), v(ONE, 0, 0), v(0, ONE, 0), 0);
    // Through the anchor point.
    let r0 = Ray::new(v(-ONE / 2, -ONE / 2, 0), v(0, 0, -ONE), 0);
    let h0 = quad_hit(&q, &r0, &Interval::new(0, INF)).expect("anchor hit");
    assert_eq!(h0.uv, (0, 0));
    // Through anchor + u + v.
    let r1 = Ray::new(v(ONE / 2, ONE / 2, 0), v(0, 0, -ONE), 0);
    let h1 = quad_hit(&q, &r1, &Interval::new(0, INF)).expect("far corner hit");
    assert_eq!(h1.uv, (ONE, ONE));
    // On the infinite plane but outside the parallelogram: rejected.
    let r2 = Ray::new(v(2 * ONE, 2 * ONE, 0), v(0, 0, -ONE), 0);
    assert!(quad_hit(&q, &r2, &Interval::new(0, INF)).is_none());
}

#[test]
fn quad_interior_test_is_the_unit_square() {
    let q = Quad::new(v(0, 0, -ONE), v(ONE, 0, 0), v(0, ONE, 0), 0);
    assert!(q.is_interior(0, 0));
    assert!(q.is_interior(ONE, ONE));
    assert!(q.is_interior(ONE / 2, ONE / 3));
    assert!(!q.is_interior(-1, 0));
    assert!(!q.is_interior(0, ONE + 1));
}

#[test]
fn reflect_about_axis_normal_is_involution() {
    // With an axis-aligned unit normal the fixed-point reflection is
    // exact, so reflecting twice returns the original vector.
    let n = v(0, 0, ONE);
    let w = v(12345, -6789, 54321);
    let once = Vec3::reflect(&w, &n);
    let twice = Vec3::reflect(&once, &n);
    assert_eq!(twice.e, w.e);
    // And the reflection actually flips the normal component.
    assert_eq!(once.e, [12345, -6789, -54321]);
}

#[test]
fn translate_round_trip_reports_the_same_hit() {
    let mut world = World::new();
    let s = Sphere::new(v(0, 0, -3 * ONE), ONE, 0);
    let sid = world.add(Surface::Sphere(s)).unwrap();
    let off = v(2 * ONE, ONE, -ONE);
    let noff = v(-2 * ONE, -ONE, ONE);
    let b0 = world.bounding_box(sid);
    let t1 = Translate::new(sid, &b0, off);
    let id1 = world.add(Surface::Translate(t1)).unwrap();
    let b1 = world.bounding_box(id1);
    let t2 = Translate::new(id1, &b1, noff);
    let id2 = world.add(Surface::Translate(t2)).unwrap();
    let r = Ray::new(v(0, 0, 0), v(0, 0, -ONE), 0);
    let w = Interval::new(1, INF);
    let direct = world.hit(sid, &r, &w).expect("direct hit");
    let wrapped = world.hit(id2, &r, &w).expect("round-trip hit");
    assert_eq!(direct.t, wrapped.t);
    assert_eq!(direct.p.e, wrapped.p.e);
    assert_eq!(direct.normal.e, wrapped.normal.e);
    assert_eq!(direct.front_face, wrapped.front_face);
}

#[test]
fn rotate_round_trip_reports_the_same_hit() {
    // A quarter turn has exact sine and cosine, so rotating there and
    // back is exact in fixed point.
    let (s90, c90) = pathtracer::trig::sin_cos_deg(90 * ONE);
    let (sm90, cm90) = pathtracer::trig::sin_cos_deg(-90 * ONE);
    assert_eq!((s90, c90), (ONE, 0));
    assert_eq!((sm90, cm90), (-ONE, 0));
    let mut world = World::new();
    let s = Sphere::new(v(0, 0, -3 * ONE), ONE, 0);
    let sid = world.add(Surface::Sphere(s)).unwrap();
    let b0 = world.bounding_box(sid);
    let r1 = RotateY::new(sid, &b0, 90 * ONE);
    let id1 = world.add(Surface::RotateY(r1)).unwrap();
    let b1 = world.bounding_box(id1);
    let r2 = RotateY::new(id1, &b1, -90 * ONE);
    let id2 = world.add(Surface::RotateY(r2)).unwrap();
    let r = Ray::new(v(0, 0, 0), v(0, 0, -ONE), 0);
    let w = Interval::new(1, INF);
    let direct = world.hit(sid, &r, &w).expect("direct hit");
    let wrapped = world.hit(id2, &r, &w).expect("round-trip hit");
    assert_eq!(direct.t, wrapped.t);
    assert_eq!(direct.p.e, wrapped.p.e);
    assert_eq!(direct.normal.e, wrapped.normal.e);
}
