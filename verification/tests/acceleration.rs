// The acceleration structure against the linear scan: for a fixed
// primitive collection, the BVH must report the same closest hit as the
// flat list, over many rays and windows.

use pathtracer::fx::{ONE, INF};
use pathtracer::vec3::Vec3;
use pathtracer::ray::Ray;
use pathtracer::interval::Interval;
use pathtracer::sphere::Sphere;
use pathtracer::quad::Quad;
use pathtracer::hittable::{Surface, World};
use pathtracer::hittable_list::HittableList;
use pathtracer::bvh::BvhNode;

fn v(x: i64, y: i64, z: i64) -> Vec3 {
    Vec3 { e: [x, y, z] }
}

fn build_scene() -> (World, usize, usize) {
    let mut world = World::new();
    let mut list = HittableList::new();
    let centers = [
        (0, 0, -5), (2, 1, -7), (-3, 0, -6), (1, -2, -4), (-1, 2, -8), (3, -1, -9),
        (0, 3, -6), (-2, -2, -5), (2, 2, -10), (-3, 3, -7),
    ];
    for (cx, cy, cz) in centers {
        let s = Sphere::new(v(cx * ONE, cy * ONE, cz * ONE), ONE / 2, 0);
        let id = world.add(Surface::Sphere(s)).unwrap();
        let b = world.bounding_box(id);
        list.add(id, &b);
    }
    let q = Quad::new(v(-4 * ONE, -4 * ONE, -12 * ONE), v(8 * ONE, 0, 0), v(0, 8 * ONE, 0),
        0);
    let qid = world.add(Surface::Quad(q)).unwrap();
    let qb = world.bounding_box(qid);
    list.add(qid, &qb);

    let mut bvh_list = list.clone();
    let bvh = BvhNode::new_from_list(&world, &mut bvh_list);
    let list_id = world.add(Surface::List(list)).unwrap();
    let bvh_id = world.add(Surface::Bvh(bvh)).unwrap();
    (world, list_id, bvh_id)
}

#[test]
fn bvh_matches_linear_scan_on_many_rays() {
    let (world, list_id, bvh_id) = build_scene();
    let mut checked = 0;
    for ox in [-2i64, 0, 2] {
        for oy in [-2i64, 0, 2] {
            for dx in [-1i64, 0, 1] {
                for dy in [-1i64, 0, 1] {
                    let r = Ray::new(
                        v(ox * ONE, oy * ONE, 2 * ONE),
                        v(dx * ONE / 4, dy * ONE / 4, -ONE),
                        0,
                    );
                    let w = Interval::new(66, INF);
                    let a = world.hit(list_id, &r, &w);
                    let b = world.hit(bvh_id, &r, &w);
                    match (a, b) {
                        (None, None) => {},
                        (Some(ha), Some(hb)) => {
                            assert_eq!(ha.t, hb.t);
                            assert_eq!(ha.p.e, hb.p.e);
                            assert_eq!(ha.normal.e, hb.normal.e);
                            assert_eq!(ha.material, hb.material);
                            checked += 1;
                        },
                        (x, y) => {
                            panic!(
                                "disagreement: list {:?} bvh {:?}",
                                x.map(|h| h.t),
                                y.map(|h| h.t)
                            );
                        },
                    }
                }
            }
        }
    }
    assert!(checked > 20, "expected plenty of hits, got {checked}");
}

#[test]
fn bvh_matches_linear_scan_on_shrunk_windows() {
    let (world, list_id, bvh_id) = build_scene();
    let r = Ray::new(v(0, 0, 2 * ONE), v(0, 0, -ONE), 0);
    for tmax in [3 * ONE, 6 * ONE, 9 * ONE, 13 * ONE, INF] {
        let w = Interval::new(66, tmax);
        let a = world.hit(list_id, &r, &w);
        let b = world.hit(bvh_id, &r, &w);
        assert_eq!(a.map(|h| (h.t, h.material)), b.map(|h| (h.t, h.material)));
    }
}

#[test]
fn bvh_build_keeps_the_member_count() {
    let (world, _list_id, bvh_id) = build_scene();
    match &world.surfaces[bvh_id] {
        Surface::Bvh(b) => {
            assert!(b.root.is_some());
            assert!(b.nodes.len() >= 1);
        },
        _ => panic!("expected the hierarchy"),
    }
}
