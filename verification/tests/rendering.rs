// End-to-end scenarios: the emitted image and the dielectric's
// vacuum-equivalent scattering.

use pathtracer::fx::ONE;
use pathtracer::vec3::Vec3;
use pathtracer::ray::Ray;
use pathtracer::camera::Camera;
use pathtracer::sphere::Sphere;
use pathtracer::hittable::{Surface, World, HitRecord};
use pathtracer::material::{Material, Lambertian, Dielectric, scatter};
use pathtracer::color::Color;

fn v(x: i64, y: i64, z: i64) -> Vec3 {
    Vec3 { e: [x, y, z] }
}

#[test]
fn render_single_sphere_header_and_center_darker_than_sky() {
    let mut world = World::new();
    let s = Sphere::new(v(0, 0, -3 * ONE), ONE, 0);
    let root = world.add(Surface::Sphere(s)).unwrap();
    let mats = vec![Material::Lambertian(Lambertian::new_color(Color {
        e: [ONE / 2, ONE / 2, ONE / 2],
    }))];
    let mut cam = Camera::new(
        ONE,            // square aspect
        16,             // width
        1,              // one sample per pixel
        1,              // recursion depth one
        90 * ONE,       // vertical field of view
        v(0, 0, 0),
        v(0, 0, -ONE),
        v(0, ONE, 0),
        0,              // no defocus
        10 * ONE,
    );
    let out = cam.render(&world, root, &mats);
    let text = String::from_utf8(out).expect("ascii output");
    let mut lines = text.lines();
    assert_eq!(lines.next(), Some("P3"));
    assert_eq!(lines.next(), Some("16 16"));
    assert_eq!(lines.next(), Some("255"));
    let pixels: Vec<&str> = lines.collect();
    assert_eq!(pixels.len(), 16 * 16);
    let parse = |line: &str| -> (u32, u32, u32) {
        let mut it = line.split_whitespace().map(|t| t.parse::<u32>().unwrap());
        (it.next().unwrap(), it.next().unwrap(), it.next().unwrap())
    };
    // Center pixel: the sphere absorbs at depth one, so it is black.
    let center = parse(pixels[8 * 16 + 8]);
    assert_eq!(center, (0, 0, 0));
    // Corner pixel: sky gradient, clearly bright, blue dominant.
    let corner = parse(pixels[0]);
    assert!(corner.0 > 100 && corner.2 > 100);
    assert!(corner.2 >= corner.0);
    // Non-uniform image.
    assert!(center != corner);
}

#[test]
fn dielectric_with_unit_index_does_not_bend_head_on_rays() {
    let de = Material::Dielectric(Dielectric::new(ONE));
    let incoming = Ray::new(v(0, 0, 2 * ONE), v(0, 0, -ONE), 0);
    let mut rec = HitRecord::new(v(0, 0, 0), 2 * ONE, (0, 0), 0);
    rec.set_face_normal(&incoming, &v(0, 0, ONE));
    assert!(rec.front_face);
    let (att, scattered) = scatter(&de, &incoming, &rec).expect("dielectric scatters");
    assert_eq!(att.e, [ONE, ONE, ONE]);
    // Vacuum-equivalent: the outgoing ray continues along the incoming
    // direction, exactly in this axis-aligned configuration.
    assert_eq!(scattered.orig.e, rec.p.e);
    assert_eq!(scattered.dir.e, [0, 0, -ONE]);
}

#[test]
fn dielectric_with_unit_index_oblique_ray_stays_collinear() {
    let de = Material::Dielectric(Dielectric::new(ONE));
    let dir = v(ONE / 2, 0, -ONE);
    let incoming = Ray::new(v(0, 0, 2 * ONE), dir, 0);
    let mut rec = HitRecord::new(v(0, 0, 0), 2 * ONE, (0, 0), 0);
    rec.set_face_normal(&incoming, &v(0, 0, ONE));
    let (_att, scattered) = scatter(&de, &incoming, &rec).expect("dielectric scatters");
    // Compare directions as unit vectors, within fixed-point tolerance.
    let len_in = ((dir.e[0] as f64).powi(2) + (dir.e[2] as f64).powi(2)).sqrt();
    let len_out = ((scattered.dir.e[0] as f64).powi(2)
        + (scattered.dir.e[1] as f64).powi(2)
        + (scattered.dir.e[2] as f64).powi(2))
        .sqrt();
    let ux_in = dir.e[0] as f64 / len_in;
    let uz_in = dir.e[2] as f64 / len_in;
    let ux_out = scattered.dir.e[0] as f64 / len_out;
    let uy_out = scattered.dir.e[1] as f64 / len_out;
    let uz_out = scattered.dir.e[2] as f64 / len_out;
    assert!((ux_in - ux_out).abs() < 0.01, "{ux_in} vs {ux_out}");
    assert!(uy_out.abs() < 0.01);
    assert!((uz_in - uz_out).abs() < 0.01, "{uz_in} vs {uz_out}");
}

#[test]
fn diffuse_light_never_scatters() {
    let dl = Material::DiffuseLight(pathtracer::material::DiffuseLight::new_color(Color {
        e: [ONE, ONE, ONE],
    }));
    let incoming = Ray::new(v(0, 0, 2 * ONE), v(0, 0, -ONE), 0);
    let mut rec = HitRecord::new(v(0, 0, 0), 2 * ONE, (0, 0), 0);
    rec.set_face_normal(&incoming, &v(0, 0, ONE));
    assert!(scatter(&dl, &incoming, &rec).is_none());
    let e = pathtracer::material::emitted(&dl, 0, 0, &v(0, 0, 0));
    assert_eq!(e.e, [ONE, ONE, ONE]);
}
