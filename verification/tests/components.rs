// Component-level checks: color pipeline, intervals, images, the
// stopwatch formatter, scene validation and the box builder.

use pathtracer::fx::{ONE, INF, neg_ln_fx};
use pathtracer::vec3::Vec3;
use pathtracer::interval::Interval;
use pathtracer::color::{gamma_byte, write_color, linear_to_gamma};
use pathtracer::image::{RtwImage, clamp_i32};
use pathtracer::texture::{Texture, SolidColor, CheckerTexture, texture_value};
use pathtracer::hittable::{Surface, Translate, World};
use pathtracer::sphere::Sphere;
use pathtracer::quad::make_box;
use pathtracer::timer::{Timer, fmt_micros_as_ms_3dp};
use pathtracer::material::Metal;
use pathtracer::aabb::Aabb;

fn v(x: i64, y: i64, z: i64) -> Vec3 {
    Vec3 { e: [x, y, z] }
}

#[test]
fn gamma_bytes_at_the_extremes_and_midpoint() {
    assert_eq!(gamma_byte(0), 0);
    assert_eq!(gamma_byte(-5 * ONE), 0);
    assert_eq!(gamma_byte(ONE), 255);
    assert_eq!(gamma_byte(10 * ONE), 255);
    // 0.5^(5/11) is about 0.7297, so the byte is floor(256 * 0.7297) = 186.
    assert_eq!(gamma_byte(ONE / 2), 186);
    // Monotone on a few samples.
    let mut prev = 0u8;
    for k in 0..16 {
        let b = gamma_byte(k * (ONE / 16));
        assert!(b >= prev);
        prev = b;
    }
}

#[test]
fn pixel_lines_are_plain_decimal_triples() {
    let line = write_color(&v(0, 0, 0));
    assert_eq!(String::from_utf8(line).unwrap(), "0 0 0\n");
    let line = write_color(&v(ONE, ONE / 2, 0));
    assert_eq!(String::from_utf8(line).unwrap(), "255 186 0\n");
}

#[test]
fn gamma_color_channels_are_byte_scaled() {
    let g = linear_to_gamma(&v(ONE, 0, ONE / 2));
    assert_eq!(g.e, [255 * 256, 0, 186 * 256]);
}

#[test]
fn interval_contains_surrounds_clamp_merge() {
    let iv = Interval::new(-ONE, ONE);
    assert!(iv.contains(ONE));
    assert!(!iv.surrounds(ONE));
    assert!(iv.surrounds(0));
    assert_eq!(iv.clamp(3 * ONE), ONE);
    assert_eq!(iv.clamp(-3 * ONE), -ONE);
    let m = iv.merge(&Interval::new(2 * ONE, 3 * ONE));
    assert_eq!((m.min, m.max), (-ONE, 3 * ONE));
    let empty = Interval::empty();
    assert!(empty.min > empty.max);
    let merged = empty.merge(&iv);
    assert_eq!((merged.min, merged.max), (-ONE, ONE));
    assert_eq!(Interval::universe().min, -INF);
}

#[test]
fn image_pixel_lookup_is_clamped_and_magenta_when_empty() {
    let empty = RtwImage::new_empty();
    assert_eq!(empty.pixel_data(3, 7), [255, 0, 255]);
    // A 2 x 2 image with distinct pixels.
    let data = vec![
        10, 11, 12, 20, 21, 22, //
        30, 31, 32, 40, 41, 42,
    ];
    let img = RtwImage::new(2, 2, data);
    assert_eq!(img.pixel_data(0, 0), [10, 11, 12]);
    assert_eq!(img.pixel_data(1, 0), [20, 21, 22]);
    assert_eq!(img.pixel_data(0, 1), [30, 31, 32]);
    // Out-of-range queries clamp to the border.
    assert_eq!(img.pixel_data(-5, 0), [10, 11, 12]);
    assert_eq!(img.pixel_data(9, 9), [40, 41, 42]);
    // Inconsistent dimensions collapse to the empty image.
    let bad = RtwImage::new(3, 3, vec![1, 2, 3]);
    assert_eq!(bad.pixel_data(0, 0), [255, 0, 255]);
}

#[test]
fn clamp_i32_matches_the_half_open_range() {
    assert_eq!(clamp_i32(-3, 0, 10), 0);
    assert_eq!(clamp_i32(4, 0, 10), 4);
    assert_eq!(clamp_i32(10, 0, 10), 9);
    assert_eq!(clamp_i32(99, 0, 10), 9);
}

#[test]
fn candidate_paths_shape() {
    let paths = RtwImage::candidate_paths("earth.jpg");
    assert_eq!(paths.len(), 8);
    assert_eq!(paths[0], "earth.jpg");
    assert_eq!(paths[1], "images/earth.jpg");
    assert_eq!(paths[2], "../images/earth.jpg");
    assert_eq!(paths[7], "../../../../../../images/earth.jpg");
}

#[test]
fn checker_texture_alternates_cells() {
    let red = v(ONE, 0, 0);
    let blue = v(0, 0, ONE);
    let checker = Texture::Checker(CheckerTexture::new_color(ONE, red, blue));
    let a = texture_value(&checker, 0, 0, &v(ONE / 2, ONE / 2, ONE / 2));
    let b = texture_value(&checker, 0, 0, &v(3 * ONE / 2, ONE / 2, ONE / 2));
    assert!(a.e != b.e, "adjacent cells must alternate");
    let solid = Texture::Solid(SolidColor::new(red));
    assert_eq!(texture_value(&solid, 0, 0, &v(0, 0, 0)).e, red.e);
}

#[test]
fn stopwatch_formatter_pads_three_decimals() {
    assert_eq!(fmt_micros_as_ms_3dp(0), "0.000");
    assert_eq!(fmt_micros_as_ms_3dp(1234), "1.234");
    assert_eq!(fmt_micros_as_ms_3dp(1000), "1.000");
    assert_eq!(fmt_micros_as_ms_3dp(987654), "987.654");
    assert_eq!(fmt_micros_as_ms_3dp(7), "0.007");
    let mut t = Timer::new();
    t.start();
    t.stop();
    let text = t.elapsed_ms_3dp();
    assert!(text.contains('.'));
}

#[test]
fn world_validation_rejects_forward_references() {
    let mut world = World::new();
    // A translate wrapping a surface that does not exist yet is refused.
    let bogus = Translate { obj: 5, offset: v(0, 0, 0), aabb: pathtracer::aabb::Aabb::empty() };
    assert!(world.add(Surface::Translate(bogus)).is_none());
    // A sphere with in-range geometry is accepted.
    let s = Sphere::new(v(0, 0, 0), ONE, 0);
    assert_eq!(world.add(Surface::Sphere(s)), Some(0));
}

#[test]
fn make_box_builds_six_sides() {
    let mut world = World::new();
    let id = make_box(&mut world, v(0, 0, 0), v(ONE, ONE, ONE), 0).expect("box list");
    assert_eq!(world.len(), 7); // six quads plus the list
    match &world.surfaces[id] {
        Surface::List(l) => assert_eq!(l.objects.len(), 6),
        _ => panic!("expected the list of sides"),
    }
}

#[test]
fn longest_axis_prefers_earlier_axes_on_ties() {
    // All-equal extents: the tie-break order is x, then y, then z.
    let cube = Aabb::from_points(v(0, 0, 0), v(ONE, ONE, ONE));
    assert_eq!(cube.longest_axis(), 0);
    // y and z tied and widest: y wins.
    let tall = Aabb::from_points(v(0, 0, 0), v(ONE, 2 * ONE, 2 * ONE));
    assert_eq!(tall.longest_axis(), 1);
    // z strictly widest.
    let deep = Aabb::from_points(v(0, 0, 0), v(ONE, ONE, 3 * ONE));
    assert_eq!(deep.longest_axis(), 2);
}

#[test]
fn metal_fuzz_is_clamped() {
    let m = Metal::new(v(ONE, ONE, ONE), 5 * ONE);
    assert_eq!(m.fuzz, ONE);
    let m2 = Metal::new(v(ONE, ONE, ONE), -3);
    assert_eq!(m2.fuzz, 0);
}

#[test]
fn negative_log_grows_by_an_octave_per_halving() {
    // One octave below the top: ln 2 is approximated linearly as 1/2.
    assert_eq!(neg_ln_fx(ONE / 2), ONE / 2);
    // Each halving adds one ln 2 step.
    assert_eq!(neg_ln_fx(ONE / 4) - neg_ln_fx(ONE / 2), 45426);
    assert_eq!(neg_ln_fx(ONE / 8) - neg_ln_fx(ONE / 4), 45426);
    // Near one the value vanishes; near zero it is large.
    assert!(neg_ln_fx(ONE - 1) <= 2);
    assert!(neg_ln_fx(1) > 10 * 45426);
}
