//! Viewport geometry, per-pixel sampling and the recursive radiance
//! estimator, emitting a plain-text image.
//!
//! The emitted bytes start with the exact header `P3\n<w> <h>\n255\n`;
//! each pixel contributes one line produced by `write_color`. Derived
//! camera state is clamped into the geometry budget during
//! initialization, so every generated ray satisfies the intersection
//! layer's bounds by construction.

use vstd::prelude::*;
use crate::fx::{ONE, INF, fx_mul, fx_div};
use crate::vec3::{Vec3, Point3, v_dot, v_bounded};
use crate::ray::Ray;
use crate::interval::Interval;
use crate::color::{Color, write_color, color_line};
use crate::hittable::{World, HitRecord, ray_ok};
use crate::material::{Material, mats_wf, scatter, emitted, rec_shadable};

verus! {

/// Budget for camera-derived vectors.
pub const CAM_MAX: i64 = 0x400_0000;

#[derive(Clone, Debug)]
pub struct Camera {
    /// Width over height.
    pub aspect_ratio: i64,
    pub image_width: u32,
    pub samples_per_pixel: u32,
    pub max_depth: u32,
    /// Vertical field of view, fixed-point degrees.
    pub vfov: i64,
    pub lookfrom: Point3,
    pub lookat: Point3,
    pub vup: Vec3,
    /// Defocus aperture angle, fixed-point degrees.
    pub defocus_angle: i64,
    pub focus_dist: i64,
    // Derived state, computed by `initialize`.
    pub image_height: u32,
    pub center: Point3,
    pub pixel00_loc: Point3,
    pub pixel_delta_u: Vec3,
    pub pixel_delta_v: Vec3,
    pub u: Vec3,
    pub v: Vec3,
    pub w: Vec3,
    pub defocus_disk_u: Vec3,
    pub defocus_disk_v: Vec3,
}

/// Derived state within the budget, image dimensions within range.
pub open spec fn cam_derived_ok(c: Camera) -> bool {
    &&& 1 <= c.image_width <= 4096
    &&& 1 <= c.image_height <= 4096
    &&& 1 <= c.samples_per_pixel <= 4096
    &&& v_bounded(c.center, CAM_MAX as int)
    &&& v_bounded(c.pixel00_loc, CAM_MAX as int)
    &&& v_bounded(c.pixel_delta_u, CAM_MAX as int)
    &&& v_bounded(c.pixel_delta_v, CAM_MAX as int)
    &&& v_bounded(c.defocus_disk_u, CAM_MAX as int)
    &&& v_bounded(c.defocus_disk_v, CAM_MAX as int)
}

/// The exact plain-text image header: `P3\n<w> <h>\n255\n`.
pub open spec fn ppm_header(w: int, h: int) -> Seq<u8> {
    seq![80u8, 51u8, 10u8] + dec_u32(w) + seq![32u8] + dec_u32(h) + seq![10u8, 50u8, 53u8,
        53u8, 10u8]
}

/// ASCII decimal digits of a dimension (up to four digits).
pub open spec fn dec_u32(n: int) -> Seq<u8> {
    if n < 10 {
        seq![(48 + n) as u8]
    } else if n < 100 {
        seq![(48 + n / 10) as u8, (48 + n % 10) as u8]
    } else if n < 1000 {
        seq![(48 + n / 100) as u8, (48 + (n / 10) % 10) as u8, (48 + n % 10) as u8]
    } else {
        seq![(48 + n / 1000) as u8, (48 + (n / 100) % 10) as u8, (48 + (n / 10) % 10) as u8,
            (48 + n % 10) as u8]
    }
}

/// A byte sequence that consists of exactly `count` pixel lines.
pub open spec fn pixel_lines_shape(body: Seq<u8>, count: int) -> bool
    decreases count,
    when count >= 0
{
    if count <= 0 {
        body.len() == 0
    } else {
        exists|r: int, g: int, b: int, rest: Seq<u8>|
            0 <= r <= 255 && 0 <= g <= 255 && 0 <= b <= 255 && body == #[trigger] (color_line(
                r, g, b) + rest) && pixel_lines_shape(rest, count - 1)
    }
}

/// Appending one more pixel line extends the shape by one.
proof fn lemma_pixel_lines_snoc(body: Seq<u8>, count: int, r: int, g: int, b: int)
    requires
        count >= 0,
        pixel_lines_shape(body, count),
        0 <= r <= 255,
        0 <= g <= 255,
        0 <= b <= 255,
    ensures
        pixel_lines_shape(body + color_line(r, g, b), count + 1),
    decreases count,
{
    if count == 0 {
        assert(body + color_line(r, g, b) =~= color_line(r, g, b) + Seq::<u8>::empty());
        assert(pixel_lines_shape(Seq::<u8>::empty(), 0));
    } else {
        let (r0, g0, b0, rest) = choose|r0: int, g0: int, b0: int, rest: Seq<u8>|
            0 <= r0 <= 255 && 0 <= g0 <= 255 && 0 <= b0 <= 255 && body == #[trigger] (
                color_line(r0, g0, b0) + rest) && pixel_lines_shape(rest, count - 1);
        lemma_pixel_lines_snoc(rest, count - 1, r, g, b);
        assert(body + color_line(r, g, b) =~= color_line(r0, g0, b0) + (rest + color_line(r,
            g, b)));
    }
}

/// The sky gradient the radiance estimator returns on a miss, mirrored
/// from the executable computation (vertical blend from white to blue).
pub open spec fn sky_axis(r: Ray, i: int) -> int {
    let lsq = v_dot(r.dir, r.dir);
    let uy = if lsq == 0 {
        ONE as int
    } else {
        crate::fx::div_floor(r.dir.e[1] * (ONE as int), crate::vec3::sqrt_floor(lsq))
    };
    let a = if (uy + ONE as int) / 2 < 0 {
        0
    } else if (uy + ONE as int) / 2 > ONE as int {
        ONE as int
    } else {
        (uy + ONE as int) / 2
    };
    let blue = if i == 0 {
        32768
    } else if i == 1 {
        45875
    } else {
        ONE as int
    };
    clamped(ONE - a + (a * blue) / (ONE as int), 4 * ONE as int)
}

/// The two 8x8 sampling masks, as specification values.
pub open spec fn bn_table_a() -> Seq<u8> {
    seq![32u8, 0, 48, 16, 56, 24, 40, 8, 12, 44, 28, 60, 4, 36, 20, 52, 51, 19, 35, 3, 43,
        11, 59, 27, 23, 55, 7, 39, 31, 63, 15, 47, 34, 2, 50, 18, 58, 26, 42, 10, 6, 38, 22,
        54, 14, 46, 30, 62, 49, 17, 33, 1, 41, 9, 57, 25, 21, 53, 5, 37, 13, 45, 29, 61]
}

pub open spec fn bn_table_b() -> Seq<u8> {
    seq![0u8, 32, 16, 48, 8, 40, 24, 56, 44, 12, 60, 28, 36, 4, 52, 20, 19, 51, 3, 35, 11,
        43, 27, 59, 55, 23, 39, 7, 63, 31, 47, 15, 2, 34, 18, 50, 26, 58, 10, 42, 38, 6, 54,
        22, 46, 14, 62, 30, 17, 49, 1, 33, 9, 41, 25, 57, 53, 21, 37, 5, 45, 13, 61, 29]
}

/// The deterministic sub-pixel offset drawn from a mask: the table entry
/// at `(pixel cell + sample stride)` mapped from 0..63 into one pixel
/// width centered on zero.
pub open spec fn blue_offset(i: u32, j: u32, sidx: u32, table: Seq<u8>, mult: int) -> int {
    let base = ((j & 7) as int) * 8 + ((i & 7) as int);
    let idx = (base + (sidx as int) * mult) % 64;
    let v = table[idx] as int;
    clamped((v * (ONE as int) + (ONE as int) / 2) / 64 - (ONE as int) / 2, (ONE as int) / 2)
}

/// A vector clamped componentwise into `[-m, m]`.
pub open spec fn clamped_v(v: Vec3, m: int) -> Vec3 {
    Vec3 {
        e: [
            clamped(v.e[0] as int, m) as i64,
            clamped(v.e[1] as int, m) as i64,
            clamped(v.e[2] as int, m) as i64,
        ],
    }
}

/// The rescaled cross product as a vector value.
pub open spec fn cross_v(a: Vec3, b: Vec3) -> Vec3 {
    Vec3 {
        e: [
            crate::fx::div_floor(crate::vec3::v_cross(a, b, 0), ONE as int) as i64,
            crate::fx::div_floor(crate::vec3::v_cross(a, b, 1), ONE as int) as i64,
            crate::fx::div_floor(crate::vec3::v_cross(a, b, 2), ONE as int) as i64,
        ],
    }
}

/// The view axis: the unit vector from target toward eye, with the
/// degenerate eye-equals-target case falling back to the z axis.
pub open spec fn basis_w(lookfrom: Vec3, lookat: Vec3) -> Vec3 {
    let g = clamped_v(Vec3 {
        e: [
            (lookfrom.e[0] - lookat.e[0]) as i64,
            (lookfrom.e[1] - lookat.e[1]) as i64,
            (lookfrom.e[2] - lookat.e[2]) as i64,
        ],
    }, 0x800_0000);
    if v_dot(g, g) == 0 {
        Vec3 { e: [0i64, 0i64, ONE] }
    } else {
        crate::material::unit_of(g)
    }
}

/// The right axis: the normalized cross of the up hint with the view
/// axis, the x axis when they are parallel.
pub open spec fn basis_u(vup: Vec3, w: Vec3) -> Vec3 {
    let uc = clamped_v(cross_v(vup, w), 0x1000_0000_0000);
    if v_dot(uc, uc) == 0 {
        Vec3 { e: [ONE, 0i64, 0i64] }
    } else {
        crate::material::unit_of(uc)
    }
}

/// The focus-scaled tangent of half an angle, clamped into the budget
/// (the defocus-disk radius and the viewport half-height share it).
pub open spec fn tan_half_clamped(angle: int) -> int {
    let sv = crate::trig::sin_deg_spec(angle / 2);
    let cv = crate::trig::cos_deg_spec(angle / 2);
    let cv2 = if cv < 64 {
        64
    } else {
        cv
    };
    clamped(crate::fx::div_floor(sv * (ONE as int), cv2), 0x100_0000)
}

/// The jittered pixel sample point for pixel `(i, j)` and sample index
/// `sidx`: the first pixel's center advanced by the fractional pixel
/// coordinates along the two delta vectors, clamped into the ray budget.
pub open spec fn sample_point(c: Camera, i: u32, j: u32, sidx: u32) -> Vec3 {
    let fi = (i as int) * (ONE as int) + blue_offset(i, j, sidx, bn_table_a(), 73);
    let fj = (j as int) * (ONE as int) + blue_offset(i, j, sidx, bn_table_b(), 97);
    clamped_v(Vec3 {
        e: [
            (c.pixel00_loc.e[0] + (c.pixel_delta_u.e[0] * fi) / (ONE as int)
                + (c.pixel_delta_v.e[0] * fj) / (ONE as int)) as i64,
            (c.pixel00_loc.e[1] + (c.pixel_delta_u.e[1] * fi) / (ONE as int)
                + (c.pixel_delta_v.e[1] * fj) / (ONE as int)) as i64,
            (c.pixel00_loc.e[2] + (c.pixel_delta_u.e[2] * fi) / (ONE as int)
                + (c.pixel_delta_v.e[2] * fj) / (ONE as int)) as i64,
        ],
    }, 0x1000_0000)
}

/// The full viewport height: twice the focus-scaled tangent of half the
/// vertical field of view, clamped.
pub open spec fn grid_vh(vfov: int, focus: int) -> int {
    2 * clamped((tan_half_clamped(vfov) * focus) / (ONE as int), 0x200_0000)
}

/// The viewport width: the height scaled by the pixel aspect, clamped.
pub open spec fn grid_vw(vfov: int, focus: int, iw: int, ih: int) -> int {
    clamped(crate::fx::div_trunc(grid_vh(vfov, focus) * iw, ih), 0x400_0000)
}

/// Component `i` of the viewport's horizontal edge vector.
pub open spec fn grid_vu(u: Vec3, vfov: int, focus: int, iw: int, ih: int, i: int) -> int {
    (u.e[i] * grid_vw(vfov, focus, iw, ih)) / (ONE as int)
}

/// Component `i` of the viewport's (downward) vertical edge vector.
pub open spec fn grid_vv(v: Vec3, vfov: int, focus: int, i: int) -> int {
    -((v.e[i] * grid_vh(vfov, focus)) / (ONE as int))
}

/// Component `i` of the per-pixel horizontal delta.
pub open spec fn grid_du(u: Vec3, vfov: int, focus: int, iw: int, ih: int, i: int) -> int {
    clamped(crate::fx::div_trunc(grid_vu(u, vfov, focus, iw, ih, i), iw), CAM_MAX as int)
}

/// Component `i` of the per-pixel vertical delta.
pub open spec fn grid_dv(v: Vec3, vfov: int, focus: int, iw: int, ih: int, i: int) -> int {
    clamped(crate::fx::div_trunc(grid_vv(v, vfov, focus, i), ih), CAM_MAX as int)
}

/// Component `i` of the first pixel's sample center: the eye pushed to
/// the focus plane, walked to the upper-left viewport corner, advanced
/// half a pixel.
pub open spec fn grid_p00(u: Vec3, v: Vec3, w: Vec3, center: Vec3, vfov: int, focus: int,
    iw: int, ih: int, i: int) -> int {
    clamped(
        center.e[i] - (w.e[i] * focus) / (ONE as int) - crate::fx::div_trunc(grid_vu(u,
            vfov, focus, iw, ih, i), 2) - crate::fx::div_trunc(grid_vv(v, vfov, focus, i),
            2) + crate::fx::div_trunc(grid_du(u, vfov, focus, iw, ih, i), 2)
            + crate::fx::div_trunc(grid_dv(v, vfov, focus, iw, ih, i), 2),
        CAM_MAX as int,
    )
}

/// The defocus-disk radius: the focus distance scaled by the tangent of
/// half the aperture angle, clamped.
pub open spec fn defocus_radius_spec(focus: int, angle: int) -> int {
    clamped((focus * tan_half_clamped(angle)) / (ONE as int), 0x100_0000)
}

/// Component `i` of a defocus-disk basis vector: the camera-plane axis
/// scaled by the disk radius, clamped.
pub open spec fn defocus_axis(b: Vec3, focus: int, angle: int, i: int) -> int {
    clamped((b.e[i] * defocus_radius_spec(focus, angle)) / (ONE as int), CAM_MAX as int)
}

/// Append the decimal digits of a dimension (at most 4096).
fn push_dec_u32(out: &mut Vec<u8>, n: u32)
    requires
        n <= 9999,
    ensures
        final(out)@ == old(out)@ + dec_u32(n as int),
{
    let ghost before = out@;
    if n < 10 {
        out.push(48 + n as u8);
        proof {
            assert(out@ =~= before + dec_u32(n as int));
        }
    } else if n < 100 {
        out.push(48 + (n / 10) as u8);
        out.push(48 + (n % 10) as u8);
        proof {
            assert(out@ =~= before + dec_u32(n as int));
        }
    } else if n < 1000 {
        out.push(48 + (n / 100) as u8);
        out.push(48 + ((n / 10) % 10) as u8);
        out.push(48 + (n % 10) as u8);
        proof {
            assert(out@ =~= before + dec_u32(n as int));
        }
    } else {
        out.push(48 + (n / 1000) as u8);
        out.push(48 + ((n / 100) % 10) as u8);
        out.push(48 + ((n / 10) % 10) as u8);
        out.push(48 + (n % 10) as u8);
        proof {
            assert(out@ =~= before + dec_u32(n as int));
        }
    }
}

/// A scalar clamped into `[-m, m]`.
pub open spec fn clamped(x: int, m: int) -> int {
    if x < -m {
        -m
    } else if x > m {
        m
    } else {
        x
    }
}

/// A dimension clamped into `[1, 4096]`.
pub open spec fn clamped_dim(x: int) -> int {
    if x < 1 {
        1
    } else if x > 4096 {
        4096
    } else {
        x
    }
}

/// Clamp a vector into a budget.
fn clamp_v(v: Vec3, m: i64) -> (r: Vec3)
    requires
        0 <= m,
    ensures
        v_bounded(r, m as int),
        forall|i: int| 0 <= i < 3 ==> #[trigger] r.e[i] == clamped(v.e[i] as int, m as int),
{
    let c0 = clamp_s(v.e[0], m);
    let c1 = clamp_s(v.e[1], m);
    let c2 = clamp_s(v.e[2], m);
    let r = Vec3 { e: [c0, c1, c2] };
    proof {
        assert forall|i: int| 0 <= i < 3 implies -(m as int) <= #[trigger] r.e[i]
            <= m as int by {
            if i == 0 {
            } else if i == 1 {
            } else {
            }
        }
    }
    r
}

/// Clamp a scalar into a budget.
fn clamp_s(x: i64, m: i64) -> (r: i64)
    requires
        0 <= m,
    ensures
        -(m as int) <= r <= m as int,
        r == clamped(x as int, m as int),
{
    if x < -m {
        -m
    } else if x > m {
        m
    } else {
        x
    }
}

/// The per-pixel deltas and the location of the first pixel's sample
/// center, from the camera basis and viewport geometry.
#[verifier::rlimit(100)]
#[verifier::spinoff_prover]
fn derive_grid(u: Vec3, v: Vec3, w: Vec3, center: Vec3, focus_dist: i64, vfov: i64,
    image_width: u32, image_height: u32) -> (r: (Vec3, Vec3, Vec3))
    requires
        v_bounded(u, 2 * ONE as int),
        v_bounded(v, 2 * ONE as int),
        v_bounded(w, 2 * ONE as int),
        v_bounded(center, CAM_MAX as int),
        1 <= focus_dist <= 0x100_0000,
        0 <= vfov <= 179 * (ONE as int),
        1 <= image_width <= 4096,
        1 <= image_height <= 4096,
    ensures
        v_bounded(r.0, CAM_MAX as int),
        v_bounded(r.1, CAM_MAX as int),
        v_bounded(r.2, CAM_MAX as int),
        forall|i: int| 0 <= i < 3 ==> #[trigger] r.0.e[i] == grid_du(u, vfov as int,
            focus_dist as int, image_width as int, image_height as int, i),
        forall|i: int| 0 <= i < 3 ==> #[trigger] r.1.e[i] == grid_dv(v, vfov as int,
            focus_dist as int, image_width as int, image_height as int, i),
        forall|i: int| 0 <= i < 3 ==> #[trigger] r.2.e[i] == grid_p00(u, v, w, center,
            vfov as int, focus_dist as int, image_width as int, image_height as int, i),
{
    // Viewport dimensions from the field of view and focus distance.
    let (sv, cv) = crate::trig::sin_cos_deg(vfov / 2);
    let cv2: i64 = if cv < 64 {
        64
    } else {
        cv
    };
    proof {
        crate::fx::lemma_div_floor_quotient_abs((sv as int) * (ONE as int), cv2 as int,
            0x1_0000_0000_0000);
    }
    let tanv: i64 = clamp_s(fx_div(sv, cv2), 0x100_0000);
    proof {
        assert(tanv == tan_half_clamped(vfov as int));
        crate::fx::lemma_mul_abs_bound(tanv as int, focus_dist as int, 0x100_0000,
            0x100_0000);
    }
    let vh2: i64 = clamp_s(fx_mul(tanv, focus_dist), 0x200_0000);
    let viewport_height: i64 = 2 * vh2;
    proof {
        assert(viewport_height == grid_vh(vfov as int, focus_dist as int));
        crate::fx::lemma_mul_abs_bound(viewport_height as int, image_width as int,
            0x800_0000, 4096);
    }
    let vw: i128 = (viewport_height as i128) * (image_width as i128)
        / (image_height as i128);
    let viewport_width: i64 = clamp_s(if vw > 0x7fff_ffff_ffff {
        0x7fff_ffff_ffff
    } else if vw < -0x7fff_ffff_ffff {
        -0x7fff_ffff_ffff
    } else {
        vw as i64
    }, 0x400_0000);
    proof {
        assert(vw == crate::fx::div_trunc(grid_vh(vfov as int, focus_dist as int)
            * (image_width as int), image_height as int));
        assert(viewport_width == grid_vw(vfov as int, focus_dist as int,
            image_width as int, image_height as int));
    }

    // Viewport edges and per-pixel deltas.
    proof {
        crate::fx::lemma_mul_abs_bound(u.e[0] as int, viewport_width as int, 2 * ONE as int,
            0x400_0000);
        crate::fx::lemma_mul_abs_bound(u.e[1] as int, viewport_width as int, 2 * ONE as int,
            0x400_0000);
        crate::fx::lemma_mul_abs_bound(u.e[2] as int, viewport_width as int, 2 * ONE as int,
            0x400_0000);
        crate::fx::lemma_mul_abs_bound(v.e[0] as int, viewport_height as int,
            2 * ONE as int, 0x400_0000);
        crate::fx::lemma_mul_abs_bound(v.e[1] as int, viewport_height as int,
            2 * ONE as int, 0x400_0000);
        crate::fx::lemma_mul_abs_bound(v.e[2] as int, viewport_height as int,
            2 * ONE as int, 0x400_0000);
    }
    let viewport_u = Vec3 {
        e: [
            fx_mul(u.e[0], viewport_width),
            fx_mul(u.e[1], viewport_width),
            fx_mul(u.e[2], viewport_width),
        ],
    };
    let viewport_v = Vec3 {
        e: [
            -fx_mul(v.e[0], viewport_height),
            -fx_mul(v.e[1], viewport_height),
            -fx_mul(v.e[2], viewport_height),
        ],
    };
    proof {
        let gvfov = vfov as int;
        let gfocus = focus_dist as int;
        let giw = image_width as int;
        let gih = image_height as int;
        assert forall|i: int| 0 <= i < 3 implies #[trigger] viewport_u.e[i] == grid_vu(u,
            gvfov, gfocus, giw, gih, i) && viewport_v.e[i] == grid_vv(v, gvfov, gfocus, i)
            by {
            if i == 0 {
            } else if i == 1 {
            } else {
            }
        }
    }
    let wi: i64 = image_width as i64;
    let hi: i64 = image_height as i64;
    let du = clamp_v(Vec3 {
        e: [viewport_u.e[0] / wi, viewport_u.e[1] / wi, viewport_u.e[2] / wi],
    }, CAM_MAX);
    let dv = clamp_v(Vec3 {
        e: [viewport_v.e[0] / hi, viewport_v.e[1] / hi, viewport_v.e[2] / hi],
    }, CAM_MAX);
    proof {
        let gvfov = vfov as int;
        let gfocus = focus_dist as int;
        let giw = image_width as int;
        let gih = image_height as int;
        assert forall|i: int| 0 <= i < 3 implies #[trigger] du.e[i] == grid_du(u, gvfov,
            gfocus, giw, gih, i) && dv.e[i] == grid_dv(v, gvfov, gfocus, giw, gih, i) by {
            if i == 0 {
            } else if i == 1 {
            } else {
            }
        }
    }

    // Upper-left pixel center.
    proof {
        crate::fx::lemma_mul_abs_bound(w.e[0] as int, focus_dist as int, 2 * ONE as int,
            0x100_0000);
        crate::fx::lemma_mul_abs_bound(w.e[1] as int, focus_dist as int, 2 * ONE as int,
            0x100_0000);
        crate::fx::lemma_mul_abs_bound(w.e[2] as int, focus_dist as int, 2 * ONE as int,
            0x100_0000);
    }
    let p00 = Vec3 {
        e: [
            center.e[0] - fx_mul(w.e[0], focus_dist) - viewport_u.e[0] / 2
                - viewport_v.e[0] / 2 + du.e[0] / 2 + dv.e[0] / 2,
            center.e[1] - fx_mul(w.e[1], focus_dist) - viewport_u.e[1] / 2
                - viewport_v.e[1] / 2 + du.e[1] / 2 + dv.e[1] / 2,
            center.e[2] - fx_mul(w.e[2], focus_dist) - viewport_u.e[2] / 2
                - viewport_v.e[2] / 2 + du.e[2] / 2 + dv.e[2] / 2,
        ],
    };
    let p00c = clamp_v(p00, CAM_MAX);
    proof {
        let gvfov = vfov as int;
        let gfocus = focus_dist as int;
        let giw = image_width as int;
        let gih = image_height as int;
        assert forall|i: int| 0 <= i < 3 implies #[trigger] p00c.e[i] == grid_p00(u, v, w,
            center, gvfov, gfocus, giw, gih, i) by {
            if i == 0 {
            } else if i == 1 {
            } else {
            }
        }
    }
    (du, dv, p00c)
}

/// The camera's orthonormal basis from the eye, target and up hint, with
/// degenerate configurations falling back to the coordinate axes.
fn derive_basis(lookfrom: Vec3, lookat: Vec3, vup: Vec3) -> (r: (Vec3, Vec3, Vec3))
    requires
        v_bounded(lookfrom, CAM_MAX as int),
        v_bounded(lookat, CAM_MAX as int),
        v_bounded(vup, CAM_MAX as int),
    ensures
        v_bounded(r.0, 2 * ONE as int),
        v_bounded(r.1, 2 * ONE as int),
        v_bounded(r.2, 2 * ONE as int),
        r.2 == clamped_v(basis_w(lookfrom, lookat), 2 * ONE as int),
        r.0 == clamped_v(basis_u(vup, basis_w(lookfrom, lookat)), 2 * ONE as int),
        r.1 == clamped_v(cross_v(basis_w(lookfrom, lookat), clamped_v(basis_u(vup,
            basis_w(lookfrom, lookat)), 2 * ONE as int)), 2 * ONE as int),
{
    let gaze = clamp_v(Vec3 {
        e: [
            lookfrom.e[0] - lookat.e[0],
            lookfrom.e[1] - lookat.e[1],
            lookfrom.e[2] - lookat.e[2],
        ],
    }, 0x800_0000);
    let glen = gaze.length_squared();
    let wv: Vec3 = if glen == 0 {
        Vec3 { e: [0, 0, ONE] }
    } else {
        gaze.unit_vector()
    };
    proof {
        assert(gaze.e =~= clamped_v(Vec3 {
            e: [
                (lookfrom.e[0] - lookat.e[0]) as i64,
                (lookfrom.e[1] - lookat.e[1]) as i64,
                (lookfrom.e[2] - lookat.e[2]) as i64,
            ],
        }, 0x800_0000).e);
        assert(wv.e =~= basis_w(lookfrom, lookat).e);
    }
    let ucross = clamp_v(vup.cross(&wv), 0x1000_0000_0000);
    let uclen = ucross.length_squared();
    let uv: Vec3 = if uclen == 0 {
        Vec3 { e: [ONE, 0, 0] }
    } else {
        ucross.unit_vector()
    };
    proof {
        assert(ucross.e =~= clamped_v(cross_v(vup, wv), 0x1000_0000_0000).e);
        assert(uv.e =~= basis_u(vup, wv).e);
    }
    let vv = wv.cross(&uv);
    let ru = clamp_v(uv, 2 * ONE);
    let rv = clamp_v(vv, 2 * ONE);
    let rw = clamp_v(wv, 2 * ONE);
    proof {
        assert(ru.e =~= clamped_v(basis_u(vup, basis_w(lookfrom, lookat)),
            2 * ONE as int).e);
        assert(rv.e =~= clamped_v(cross_v(basis_w(lookfrom, lookat), ru),
            2 * ONE as int).e);
        assert(rw.e =~= clamped_v(basis_w(lookfrom, lookat), 2 * ONE as int).e);
    }
    (ru, rv, rw)
}

/// Defocus-disk basis vectors: the camera-plane basis scaled by
/// `focus_dist * tan(defocus_angle / 2)`, clamped into the budget.
fn derive_defocus(u: Vec3, v: Vec3, focus_dist: i64, defocus_angle: i64)
    -> (r: (Vec3, Vec3))
    requires
        v_bounded(u, 2 * ONE as int),
        v_bounded(v, 2 * ONE as int),
        1 <= focus_dist <= 0x100_0000,
        0 <= defocus_angle <= 179 * (ONE as int),
    ensures
        v_bounded(r.0, CAM_MAX as int),
        v_bounded(r.1, CAM_MAX as int),
        forall|i: int| 0 <= i < 3 ==> #[trigger] r.0.e[i] == defocus_axis(u,
            focus_dist as int, defocus_angle as int, i),
        forall|i: int| 0 <= i < 3 ==> #[trigger] r.1.e[i] == defocus_axis(v,
            focus_dist as int, defocus_angle as int, i),
{
    let (sd, cd) = crate::trig::sin_cos_deg(defocus_angle / 2);
    let cd2: i64 = if cd < 64 {
        64
    } else {
        cd
    };
    proof {
        crate::fx::lemma_div_floor_quotient_abs((sd as int) * (ONE as int), cd2 as int,
            0x1_0000_0000_0000);
    }
    let tand: i64 = clamp_s(fx_div(sd, cd2), 0x100_0000);
    proof {
        crate::fx::lemma_mul_abs_bound(focus_dist as int, tand as int, 0x100_0000,
            0x100_0000);
    }
    let defocus_radius: i64 = clamp_s(fx_mul(focus_dist, tand), 0x100_0000);
    proof {
        assert(tand == tan_half_clamped(defocus_angle as int));
        assert(defocus_radius == defocus_radius_spec(focus_dist as int,
            defocus_angle as int));
    }
    proof {
        crate::fx::lemma_mul_abs_bound(u.e[0] as int, defocus_radius as int, 2 * ONE as int,
            0x100_0000);
        crate::fx::lemma_mul_abs_bound(u.e[1] as int, defocus_radius as int, 2 * ONE as int,
            0x100_0000);
        crate::fx::lemma_mul_abs_bound(u.e[2] as int, defocus_radius as int, 2 * ONE as int,
            0x100_0000);
        crate::fx::lemma_mul_abs_bound(v.e[0] as int, defocus_radius as int, 2 * ONE as int,
            0x100_0000);
        crate::fx::lemma_mul_abs_bound(v.e[1] as int, defocus_radius as int, 2 * ONE as int,
            0x100_0000);
        crate::fx::lemma_mul_abs_bound(v.e[2] as int, defocus_radius as int, 2 * ONE as int,
            0x100_0000);
    }
    let du = clamp_v(Vec3 {
        e: [
            fx_mul(u.e[0], defocus_radius),
            fx_mul(u.e[1], defocus_radius),
            fx_mul(u.e[2], defocus_radius),
        ],
    }, CAM_MAX);
    let dv = clamp_v(Vec3 {
        e: [
            fx_mul(v.e[0], defocus_radius),
            fx_mul(v.e[1], defocus_radius),
            fx_mul(v.e[2], defocus_radius),
        ],
    }, CAM_MAX);
    proof {
        assert forall|i: int| 0 <= i < 3 implies #[trigger] du.e[i] == defocus_axis(u,
            focus_dist as int, defocus_angle as int, i) && dv.e[i] == defocus_axis(v,
            focus_dist as int, defocus_angle as int, i) by {
            if i == 0 {
            } else if i == 1 {
            } else {
            }
        }
    }
    (du, dv)
}

impl Default for Camera {
    /// The stock configuration: a small square image, ten samples and
    /// bounces, a ninety-degree field of view looking down the negative
    /// z axis.
    fn default() -> (c: Camera)
        ensures
            c.image_width == 100,
            c.samples_per_pixel == 10,
            c.max_depth == 10,
            1 <= c.aspect_ratio <= 0x100_0000,
            1 <= c.focus_dist <= 0x100_0000,
            0 <= c.vfov <= 179 * (ONE as int),
            0 <= c.defocus_angle <= 179 * (ONE as int),
            v_bounded(c.lookfrom, CAM_MAX as int),
            v_bounded(c.lookat, CAM_MAX as int),
            v_bounded(c.vup, CAM_MAX as int),
    {
        Camera::new(
            ONE,
            100,
            10,
            10,
            90 * ONE,
            Vec3 { e: [0, 0, 0] },
            Vec3 { e: [0, 0, -ONE] },
            Vec3 { e: [0, ONE, 0] },
            0,
            10 * ONE,
        )
    }
}

impl Camera {
    /// User configuration; derived state is filled in by `initialize`
    /// (called from `render`). Out-of-range settings are clamped.
    pub fn new(
        aspect_ratio: i64,
        image_width: u32,
        samples_per_pixel: u32,
        max_depth: u32,
        vfov: i64,
        lookfrom: Point3,
        lookat: Point3,
        vup: Vec3,
        defocus_angle: i64,
        focus_dist: i64,
    ) -> (c: Camera)
        ensures
            1 <= c.image_width <= 4096,
            1 <= c.samples_per_pixel <= 4096,
            c.max_depth <= 64,
            c.image_width == if image_width < 1 {
                1int
            } else if image_width > 4096 {
                4096int
            } else {
                image_width as int
            },
            c.samples_per_pixel == if samples_per_pixel < 1 {
                1int
            } else if samples_per_pixel > 4096 {
                4096int
            } else {
                samples_per_pixel as int
            },
            c.max_depth == if max_depth > 64 { 64int } else { max_depth as int },
            v_bounded(c.lookfrom, CAM_MAX as int),
            v_bounded(c.lookat, CAM_MAX as int),
            v_bounded(c.vup, CAM_MAX as int),
            forall|i: int| 0 <= i < 3 ==> #[trigger] c.lookfrom.e[i]
                == clamped(lookfrom.e[i] as int, CAM_MAX as int),
            forall|i: int| 0 <= i < 3 ==> #[trigger] c.lookat.e[i]
                == clamped(lookat.e[i] as int, CAM_MAX as int),
            forall|i: int| 0 <= i < 3 ==> #[trigger] c.vup.e[i]
                == clamped(vup.e[i] as int, CAM_MAX as int),
            1 <= c.aspect_ratio <= 0x100_0000,
            1 <= c.focus_dist <= 0x100_0000,
            0 <= c.vfov <= 179 * (ONE as int),
            0 <= c.defocus_angle <= 179 * (ONE as int),
            c.aspect_ratio == if aspect_ratio < 1 {
                1int
            } else if aspect_ratio > 0x100_0000 {
                0x100_0000int
            } else {
                aspect_ratio as int
            },
            c.focus_dist == if focus_dist < 1 {
                1int
            } else if focus_dist > 0x100_0000 {
                0x100_0000int
            } else {
                focus_dist as int
            },
            c.vfov == if vfov < 0 {
                0int
            } else if vfov > 179 * (ONE as int) {
                179 * (ONE as int)
            } else {
                vfov as int
            },
            c.defocus_angle == if defocus_angle < 0 {
                0int
            } else if defocus_angle > 179 * (ONE as int) {
                179 * (ONE as int)
            } else {
                defocus_angle as int
            },
    {
        let w: u32 = if image_width < 1 {
            1
        } else if image_width > 4096 {
            4096
        } else {
            image_width
        };
        let spp: u32 = if samples_per_pixel < 1 {
            1
        } else if samples_per_pixel > 4096 {
            4096
        } else {
            samples_per_pixel
        };
        let depth: u32 = if max_depth > 64 {
            64
        } else {
            max_depth
        };
        let ar: i64 = if aspect_ratio < 1 {
            1
        } else if aspect_ratio > 0x100_0000 {
            0x100_0000
        } else {
            aspect_ratio
        };
        let fd: i64 = if focus_dist < 1 {
            1
        } else if focus_dist > 0x100_0000 {
            0x100_0000
        } else {
            focus_dist
        };
        let fv: i64 = if vfov < 0 {
            0
        } else if vfov > 179 * ONE {
            179 * ONE
        } else {
            vfov
        };
        let da: i64 = if defocus_angle < 0 {
            0
        } else if defocus_angle > 179 * ONE {
            179 * ONE
        } else {
            defocus_angle
        };
        Camera {
            aspect_ratio: ar,
            image_width: w,
            samples_per_pixel: spp,
            max_depth: depth,
            vfov: fv,
            lookfrom: clamp_v(lookfrom, CAM_MAX),
            lookat: clamp_v(lookat, CAM_MAX),
            vup: clamp_v(vup, CAM_MAX),
            defocus_angle: da,
            focus_dist: fd,
            image_height: 1,
            center: Vec3 { e: [0, 0, 0] },
            pixel00_loc: Vec3 { e: [0, 0, 0] },
            pixel_delta_u: Vec3 { e: [0, 0, 0] },
            pixel_delta_v: Vec3 { e: [0, 0, 0] },
            u: Vec3 { e: [0, 0, 0] },
            v: Vec3 { e: [0, 0, 0] },
            w: Vec3 { e: [0, 0, 0] },
            defocus_disk_u: Vec3 { e: [0, 0, 0] },
            defocus_disk_v: Vec3 { e: [0, 0, 0] },
        }
    }

    /// Compute the derived viewport state (once per render).
    #[verifier::rlimit(100)]
    #[verifier::spinoff_prover]
    fn initialize(&mut self)
        requires
            1 <= old(self).image_width <= 4096,
            1 <= old(self).samples_per_pixel <= 4096,
            v_bounded(old(self).lookfrom, CAM_MAX as int),
            v_bounded(old(self).lookat, CAM_MAX as int),
            v_bounded(old(self).vup, CAM_MAX as int),
            1 <= old(self).aspect_ratio <= 0x100_0000,
            1 <= old(self).focus_dist <= 0x100_0000,
            0 <= old(self).vfov <= 179 * (ONE as int),
            0 <= old(self).defocus_angle <= 179 * (ONE as int),
        ensures
            cam_derived_ok(*final(self)),
            final(self).image_width == old(self).image_width,
            final(self).samples_per_pixel == old(self).samples_per_pixel,
            final(self).max_depth == old(self).max_depth,
            final(self).image_height == clamped_dim((old(self).image_width * (ONE as int))
                / (old(self).aspect_ratio as int)),
            final(self).center == old(self).lookfrom,
            final(self).w == clamped_v(basis_w(old(self).lookfrom, old(self).lookat),
                2 * ONE as int),
            final(self).u == clamped_v(basis_u(old(self).vup, basis_w(old(self).lookfrom,
                old(self).lookat)), 2 * ONE as int),
            final(self).v == clamped_v(cross_v(basis_w(old(self).lookfrom,
                old(self).lookat), final(self).u), 2 * ONE as int),
            forall|i: int| 0 <= i < 3 ==> #[trigger] final(self).pixel_delta_u.e[i]
                == grid_du(final(self).u, old(self).vfov as int, old(self).focus_dist as int,
                old(self).image_width as int, final(self).image_height as int, i),
            forall|i: int| 0 <= i < 3 ==> #[trigger] final(self).pixel_delta_v.e[i]
                == grid_dv(final(self).v, old(self).vfov as int, old(self).focus_dist as int,
                old(self).image_width as int, final(self).image_height as int, i),
            forall|i: int| 0 <= i < 3 ==> #[trigger] final(self).pixel00_loc.e[i]
                == grid_p00(final(self).u, final(self).v, final(self).w,
                old(self).lookfrom, old(self).vfov as int, old(self).focus_dist as int,
                old(self).image_width as int, final(self).image_height as int, i),
            forall|i: int| 0 <= i < 3 ==> #[trigger] final(self).defocus_disk_u.e[i]
                == defocus_axis(final(self).u, old(self).focus_dist as int,
                old(self).defocus_angle as int, i),
            forall|i: int| 0 <= i < 3 ==> #[trigger] final(self).defocus_disk_v.e[i]
                == defocus_axis(final(self).v, old(self).focus_dist as int,
                old(self).defocus_angle as int, i),
    {
        // Integer height from the aspect ratio, clamped to [1, 4096].
        let wfx: i128 = (self.image_width as i128) * (ONE as i128);
        let hh: i128 = wfx / (self.aspect_ratio as i128);
        let h: u32 = if hh < 1 {
            1
        } else if hh > 4096 {
            4096
        } else {
            hh as u32
        };
        self.image_height = h;
        self.center = self.lookfrom;

        // Orthonormal camera basis.
        let (bu, bv, bw) = derive_basis(self.lookfrom, self.lookat, self.vup);
        self.u = bu;
        self.v = bv;
        self.w = bw;

        // Viewport geometry and the pixel grid.
        let (du, dv, p00v) = derive_grid(self.u, self.v, self.w, self.center,
            self.focus_dist, self.vfov, self.image_width, self.image_height);
        self.pixel_delta_u = du;
        self.pixel_delta_v = dv;
        self.pixel00_loc = p00v;

        // Defocus disk basis.
        let (ddu, ddv) = derive_defocus(self.u, self.v, self.focus_dist, self.defocus_angle);
        self.defocus_disk_u = ddu;
        self.defocus_disk_v = ddv;
    }

    /// Tiled low-discrepancy sub-pixel offset in `[-ONE/2, ONE/2)`,
    /// deterministic in the pixel coordinates and sample index.
    fn sample_square_blue(&self, i: u32, j: u32, sample_idx: u32) -> (r: (i64, i64))
        ensures
            -(ONE as int) / 2 <= r.0 <= (ONE as int) / 2,
            -(ONE as int) / 2 <= r.1 <= (ONE as int) / 2,
            r.0 == blue_offset(i, j, sample_idx, bn_table_a(), 73),
            r.1 == blue_offset(i, j, sample_idx, bn_table_b(), 97),
    {
        let bn_a: [u8; 64] = [
            32, 0, 48, 16, 56, 24, 40, 8, 12, 44, 28, 60, 4, 36, 20, 52, 51, 19, 35, 3, 43,
            11, 59, 27, 23, 55, 7, 39, 31, 63, 15, 47, 34, 2, 50, 18, 58, 26, 42, 10, 6, 38,
            22, 54, 14, 46, 30, 62, 49, 17, 33, 1, 41, 9, 57, 25, 21, 53, 5, 37, 13, 45, 29,
            61,
        ];
        let bn_b: [u8; 64] = [
            0, 32, 16, 48, 8, 40, 24, 56, 44, 12, 60, 28, 36, 4, 52, 20, 19, 51, 3, 35, 11,
            43, 27, 59, 55, 23, 39, 7, 63, 31, 47, 15, 2, 34, 18, 50, 26, 58, 10, 42, 38, 6,
            54, 22, 46, 14, 62, 30, 17, 49, 1, 33, 9, 41, 25, 57, 53, 21, 37, 5, 45, 13, 61,
            29,
        ];
        let ix: u64 = (i & 7) as u64;
        let jy: u64 = (j & 7) as u64;
        let base: u64 = jy * 8 + ix;
        let idx_x: usize = ((base + (sample_idx as u64) * 73) % 64) as usize;
        let idx_y: usize = ((base + (sample_idx as u64) * 97) % 64) as usize;
        proof {
            assert(ix < 8 && jy < 8) by (bit_vector)
                requires ix == (i & 7) as u64, jy == (j & 7) as u64;
            assert(bn_a@ =~= bn_table_a());
            assert(bn_b@ =~= bn_table_b());
            assert(idx_x as int == (((j & 7) as int) * 8 + ((i & 7) as int)
                + (sample_idx as int) * 73) % 64);
            assert(idx_y as int == (((j & 7) as int) * 8 + ((i & 7) as int)
                + (sample_idx as int) * 97) % 64);
        }
        let vx: i64 = bn_a[idx_x] as i64;
        let vy: i64 = bn_b[idx_y] as i64;
        // Map 0..63 to [-ONE/2, ONE/2).
        let dx: i64 = (vx * ONE + ONE / 2) / 64 - ONE / 2;
        let dy: i64 = (vy * ONE + ONE / 2) / 64 - ONE / 2;
        let dxc = clamp_s(dx, ONE / 2);
        let dyc = clamp_s(dy, ONE / 2);
        (dxc, dyc)
    }

    /// A point on the defocus disk.
    fn defocus_disk_sample(&self) -> (r: Point3)
        requires
            cam_derived_ok(*self),
        ensures
            v_bounded(r, 0x1000_0000),
    {
        let p = Vec3::random_in_unit_disk();
        proof {
            crate::fx::lemma_mul_abs_bound(p.e[0] as int, self.defocus_disk_u.e[0] as int,
                ONE as int, CAM_MAX as int);
            crate::fx::lemma_mul_abs_bound(p.e[0] as int, self.defocus_disk_u.e[1] as int,
                ONE as int, CAM_MAX as int);
            crate::fx::lemma_mul_abs_bound(p.e[0] as int, self.defocus_disk_u.e[2] as int,
                ONE as int, CAM_MAX as int);
            crate::fx::lemma_mul_abs_bound(p.e[1] as int, self.defocus_disk_v.e[0] as int,
                ONE as int, CAM_MAX as int);
            crate::fx::lemma_mul_abs_bound(p.e[1] as int, self.defocus_disk_v.e[1] as int,
                ONE as int, CAM_MAX as int);
            crate::fx::lemma_mul_abs_bound(p.e[1] as int, self.defocus_disk_v.e[2] as int,
                ONE as int, CAM_MAX as int);
        }
        let r = Vec3 {
            e: [
                self.center.e[0] + fx_mul(p.e[0], self.defocus_disk_u.e[0]) + fx_mul(p.e[1],
                    self.defocus_disk_v.e[0]),
                self.center.e[1] + fx_mul(p.e[0], self.defocus_disk_u.e[1]) + fx_mul(p.e[1],
                    self.defocus_disk_v.e[1]),
                self.center.e[2] + fx_mul(p.e[0], self.defocus_disk_u.e[2]) + fx_mul(p.e[1],
                    self.defocus_disk_v.e[2]),
            ],
        };
        clamp_v(r, 0x1000_0000)
    }

    /// Build the ray for pixel `(i, j)`, sample `sample_idx`: from the
    /// camera center (or the defocus disk) toward the jittered pixel
    /// sample point, with a random time stamp.
    fn get_ray(&self, i: u32, j: u32, sample_idx: u32) -> (r: Ray)
        requires
            cam_derived_ok(*self),
            i <= 4096,
            j <= 4096,
        ensures
            ray_ok(r),
            self.defocus_angle <= 0 ==> r.orig == clamped_v(self.center, 0x1000_0000),
            self.defocus_angle <= 0 ==> (forall|ax: int| 0 <= ax < 3 ==>
                #[trigger] r.dir.e[ax] == clamped(sample_point(*self, i, j,
                    sample_idx).e[ax] - clamped_v(self.center, 0x1000_0000).e[ax],
                    0x1000_0000)),
    {
        let (dx, dy) = self.sample_square_blue(i, j, sample_idx);
        let fi: i64 = (i as i64) * ONE + dx;
        let fj: i64 = (j as i64) * ONE + dy;
        proof {
            crate::fx::lemma_mul_abs_bound(self.pixel_delta_u.e[0] as int, fi as int,
                CAM_MAX as int, 0x1001_0000);
            crate::fx::lemma_mul_abs_bound(self.pixel_delta_u.e[1] as int, fi as int,
                CAM_MAX as int, 0x1001_0000);
            crate::fx::lemma_mul_abs_bound(self.pixel_delta_u.e[2] as int, fi as int,
                CAM_MAX as int, 0x1001_0000);
            crate::fx::lemma_mul_abs_bound(self.pixel_delta_v.e[0] as int, fj as int,
                CAM_MAX as int, 0x1001_0000);
            crate::fx::lemma_mul_abs_bound(self.pixel_delta_v.e[1] as int, fj as int,
                CAM_MAX as int, 0x1001_0000);
            crate::fx::lemma_mul_abs_bound(self.pixel_delta_v.e[2] as int, fj as int,
                CAM_MAX as int, 0x1001_0000);
        }
        let pixel_sample = Vec3 {
            e: [
                self.pixel00_loc.e[0] + fx_mul(self.pixel_delta_u.e[0], fi) + fx_mul(
                    self.pixel_delta_v.e[0], fj),
                self.pixel00_loc.e[1] + fx_mul(self.pixel_delta_u.e[1], fi) + fx_mul(
                    self.pixel_delta_v.e[1], fj),
                self.pixel00_loc.e[2] + fx_mul(self.pixel_delta_u.e[2], fi) + fx_mul(
                    self.pixel_delta_v.e[2], fj),
            ],
        };
        let ps = clamp_v(pixel_sample, 0x1000_0000);
        proof {
            assert(ps.e =~= sample_point(*self, i, j, sample_idx).e);
        }
        let ray_origin: Point3 = if self.defocus_angle <= 0 {
            let c = clamp_v(self.center, 0x1000_0000);
            proof {
                assert(c.e =~= clamped_v(self.center, 0x1000_0000).e);
            }
            c
        } else {
            self.defocus_disk_sample()
        };
        let ray_direction = clamp_v(Vec3 {
            e: [
                ps.e[0] - ray_origin.e[0],
                ps.e[1] - ray_origin.e[1],
                ps.e[2] - ray_origin.e[2],
            ],
        }, 0x1000_0000);
        let ts = crate::rng::random_unit_fx();
        Ray { orig: ray_origin, dir: ray_direction, ts }
    }

    /// Recursive radiance estimate: black at depth zero or on absorption,
    /// the sky gradient on a miss, attenuated recursion on a scatter.
    /// Self-emission is deliberately not summed along the path: a ray
    /// that lands on a pure emitter terminates black, and only the sky
    /// contributes direct radiance. Always within a few units per channel.
    fn ray_color(r: &Ray, depth: u32, world: &World, root: usize, mats: &Vec<Material>)
        -> (c: Color)
        requires
            world.wf(),
            root < world.surfaces@.len(),
            mats_wf(mats@),
            ray_ok(*r),
        ensures
            v_bounded(c, 4 * ONE as int),
            depth == 0 ==> c == (Vec3 { e: [0i64, 0i64, 0i64] }),
            depth > 0 && crate::hittable::arena_det(world.surfaces@) && crate::hittable::hit_spec(
                world.surfaces@, root as int, *r, 66, INF as int) is None ==> (forall|i: int|
                0 <= i < 3 ==> #[trigger] c.e[i] == sky_axis(*r, i)),
            depth > 0 && crate::hittable::arena_det(world.surfaces@) && ({
                let hs = crate::hittable::hit_spec(world.surfaces@, root as int, *r, 66,
                    INF as int);
                hs is Some && hs.unwrap().material < mats@.len() && mats@[
                    hs.unwrap().material as int] is DiffuseLight
            }) ==> c == (Vec3 { e: [0i64, 0i64, 0i64] }),
        decreases depth,
    {
        if depth == 0 {
            return Vec3 { e: [0, 0, 0] };
        }
        let window = Interval::new(66, INF);
        let hit = world.hit(root, r, &window);
        proof {
            if crate::hittable::arena_det(world.surfaces@) {
                assert(crate::hittable::det_below(world.surfaces@, root as int + 1));
            }
        }
        match hit {
            Some(rec) => {
                if rec.material >= mats.len() {
                    return Vec3 { e: [0, 0, 0] };
                }
                let pb = rec.p.e[0] >= -0x1000_0000 && rec.p.e[0] <= 0x1000_0000
                    && rec.p.e[1] >= -0x1000_0000 && rec.p.e[1] <= 0x1000_0000
                    && rec.p.e[2] >= -0x1000_0000 && rec.p.e[2] <= 0x1000_0000
                    && rec.normal.e[0] >= -2 * ONE && rec.normal.e[0] <= 2 * ONE
                    && rec.normal.e[1] >= -2 * ONE && rec.normal.e[1] <= 2 * ONE
                    && rec.normal.e[2] >= -2 * ONE && rec.normal.e[2] <= 2 * ONE
                    && rec.uv.0 >= -ONE && rec.uv.0 <= ONE && rec.uv.1 >= -ONE
                    && rec.uv.1 <= ONE;
                if !pb {
                    return Vec3 { e: [0, 0, 0] };
                }
                proof {
                    assert(rec_shadable(rec) && v_bounded(rec.p, 0x1000_0000)) by {
                        assert forall|i: int| 0 <= i < 3 implies
                            -0x1000_0000 <= #[trigger] rec.p.e[i] <= 0x1000_0000 by {
                            if i == 0 {
                            } else if i == 1 {
                            } else {
                            }
                        }
                        assert forall|i: int| 0 <= i < 3 implies
                            -2 * (ONE as int) <= #[trigger] rec.normal.e[i]
                                <= 2 * (ONE as int) by {
                            if i == 0 {
                            } else if i == 1 {
                            } else {
                            }
                        }
                    }
                }
                match scatter(&mats[rec.material], r, &rec) {
                    Some((attenuation, scattered)) => {
                        let next = Self::ray_color(&scattered, depth - 1, world, root, mats);
                        proof {
                            crate::fx::lemma_mul_abs_bound(attenuation.e[0] as int,
                                next.e[0] as int, 16 * ONE as int, 4 * ONE as int);
                            crate::fx::lemma_mul_abs_bound(attenuation.e[1] as int,
                                next.e[1] as int, 16 * ONE as int, 4 * ONE as int);
                            crate::fx::lemma_mul_abs_bound(attenuation.e[2] as int,
                                next.e[2] as int, 16 * ONE as int, 4 * ONE as int);
                        }
                        let mixed = Vec3 {
                            e: [
                                fx_mul(attenuation.e[0], next.e[0]),
                                fx_mul(attenuation.e[1], next.e[1]),
                                fx_mul(attenuation.e[2], next.e[2]),
                            ],
                        };
                        clamp_v(mixed, 4 * ONE)
                    },
                    None => Vec3 { e: [0, 0, 0] },
                }
            },
            None => {
                let lsq = r.dir.length_squared();
                let unit: Vec3 = if lsq == 0 {
                    Vec3 { e: [0, ONE, 0] }
                } else {
                    r.dir.unit_vector()
                };
                let mut a: i64 = (unit.e[1] + ONE) / 2;
                if a < 0 {
                    a = 0;
                }
                if a > ONE {
                    a = ONE;
                }
                let oma: i64 = ONE - a;
                proof {
                    crate::fx::lemma_mul_abs_bound(a as int, 32768, ONE as int, 32768);
                    crate::fx::lemma_mul_abs_bound(a as int, 45875, ONE as int, 45875);
                    crate::fx::lemma_mul_abs_bound(a as int, ONE as int, ONE as int,
                        ONE as int);
                }
                let sky = Vec3 {
                    e: [
                        oma + fx_mul(a, 32768),
                        oma + fx_mul(a, 45875),
                        oma + fx_mul(a, ONE),
                    ],
                };
                let skyc = clamp_v(sky, 4 * ONE);
                proof {
                    assert forall|i: int| 0 <= i < 3 implies #[trigger] skyc.e[i]
                        == sky_axis(*r, i) by {
                        if i == 0 {
                        } else if i == 1 {
                        } else {
                        }
                    }
                }
                skyc
            },
        }
    }

    /// Render the scene into plain-text image bytes. The output begins
    /// with the exact header `P3\n<w> <h>\n255\n`, followed by one
    /// `write_color` line per pixel, row major.
    pub fn render(&mut self, world: &World, root: usize, mats: &Vec<Material>)
        -> (out: Vec<u8>)
        requires
            world.wf(),
            root < world.surfaces@.len(),
            mats_wf(mats@),
            1 <= old(self).image_width <= 4096,
            1 <= old(self).samples_per_pixel <= 4096,
            v_bounded(old(self).lookfrom, CAM_MAX as int),
            v_bounded(old(self).lookat, CAM_MAX as int),
            v_bounded(old(self).vup, CAM_MAX as int),
            1 <= old(self).aspect_ratio <= 0x100_0000,
            1 <= old(self).focus_dist <= 0x100_0000,
            0 <= old(self).vfov <= 179 * (ONE as int),
            0 <= old(self).defocus_angle <= 179 * (ONE as int),
        ensures
            out@.len() >= ppm_header(final(self).image_width as int,
                final(self).image_height as int).len(),
            out@.subrange(0, ppm_header(final(self).image_width as int,
                final(self).image_height as int).len() as int) == ppm_header(
                final(self).image_width as int, final(self).image_height as int),
            pixel_lines_shape(out@.skip(ppm_header(final(self).image_width as int,
                final(self).image_height as int).len() as int),
                (final(self).image_width as int) * (final(self).image_height as int)),
            1 <= final(self).image_height <= 4096,
            final(self).image_width == old(self).image_width,
            final(self).image_height == clamped_dim((old(self).image_width * (ONE as int))
                / (old(self).aspect_ratio as int)),
    {
        self.initialize();
        let mut out: Vec<u8> = Vec::new();
        out.push(80);
        out.push(51);
        out.push(10);
        push_dec_u32(&mut out, self.image_width);
        out.push(32);
        push_dec_u32(&mut out, self.image_height);
        out.push(10);
        out.push(50);
        out.push(53);
        out.push(53);
        out.push(10);
        proof {
            assert(out@ =~= ppm_header(self.image_width as int, self.image_height as int));
        }
        let ghost header = out@;
        proof {
            assert(out@.skip(header.len() as int) =~= Seq::<u8>::empty());
            assert(pixel_lines_shape(out@.skip(header.len() as int), 0));
            assert(out@.subrange(0, header.len() as int) =~= header);
        }
        let h = self.image_height;
        let w = self.image_width;
        let spp = self.samples_per_pixel;
        let mut j: u32 = 0;
        while j < h
            invariant
                cam_derived_ok(*self),
                world.wf(),
                root < world.surfaces@.len(),
                mats_wf(mats@),
                h == self.image_height,
                w == self.image_width,
                spp == self.samples_per_pixel,
                header == ppm_header(w as int, h as int),
                j <= h,
                out@.len() >= header.len(),
                out@.subrange(0, header.len() as int) == header,
                pixel_lines_shape(out@.skip(header.len() as int),
                    (j as int) * (w as int)),
            decreases h - j,
        {
            let mut i: u32 = 0;
            while i < w
                invariant
                    cam_derived_ok(*self),
                    world.wf(),
                    root < world.surfaces@.len(),
                    mats_wf(mats@),
                    h == self.image_height,
                    w == self.image_width,
                    spp == self.samples_per_pixel,
                    header == ppm_header(w as int, h as int),
                    j < h,
                    i <= w,
                    out@.len() >= header.len(),
                    out@.subrange(0, header.len() as int) == header,
                    pixel_lines_shape(out@.skip(header.len() as int),
                        (j as int) * (w as int) + i as int),
                decreases w - i,
            {
                let mut sum = Vec3 { e: [0, 0, 0] };
                let mut s: u32 = 0;
                while s < spp
                    invariant
                        cam_derived_ok(*self),
                        world.wf(),
                        root < world.surfaces@.len(),
                        mats_wf(mats@),
                        spp <= 4096,
                        s <= spp,
                        j < h,
                        i < w,
                        h <= 4096,
                        w <= 4096,
                        v_bounded(sum, (s as int) * 4 * (ONE as int)),
                    decreases spp - s,
                {
                    let ray = self.get_ray(i, j, s);
                    let c = Self::ray_color(&ray, self.max_depth, world, root, mats);
                    proof {
                        assert forall|k: int| 0 <= k < 3 implies
                            -((s + 1) as int) * 4 * (ONE as int) <= #[trigger] (sum.e[k]
                                + c.e[k]) <= ((s + 1) as int) * 4 * (ONE as int) by {
                            assert(-(s as int) * 4 * (ONE as int) <= sum.e[k]
                                <= (s as int) * 4 * (ONE as int));
                            assert(-4 * (ONE as int) <= c.e[k] <= 4 * (ONE as int));
                        }
                    }
                    sum = Vec3 {
                        e: [sum.e[0] + c.e[0], sum.e[1] + c.e[1], sum.e[2] + c.e[2]],
                    };
                    s = s + 1;
                }
                let n: i64 = spp as i64;
                let scaled = Vec3 {
                    e: [sum.e[0] / n, sum.e[1] / n, sum.e[2] / n],
                };
                let mut line = write_color(&scaled);
                let ghost pre = out@;
                let ghost lv = line@;
                out.append(&mut line);
                proof {
                    let (lr, lg, lb) = choose|lr: int, lg: int, lb: int|
                        crate::color::is_gamma_byte(scaled.e[0] as int, lr)
                            && crate::color::is_gamma_byte(scaled.e[1] as int, lg)
                            && crate::color::is_gamma_byte(scaled.e[2] as int, lb)
                            && lv == #[trigger] color_line(lr, lg, lb);
                    assert(out@ == pre + lv);
                    assert(out@.subrange(0, header.len() as int)
                        =~= pre.subrange(0, header.len() as int));
                    assert(out@.skip(header.len() as int)
                        =~= pre.skip(header.len() as int) + lv);
                    lemma_pixel_lines_snoc(pre.skip(header.len() as int),
                        (j as int) * (w as int) + i as int, lr, lg, lb);
                }
                i = i + 1;
            }
            proof {
                assert(((j + 1) as int) * (w as int) == (j as int) * (w as int) + w as int)
                    by (nonlinear_arith);
            }
            j = j + 1;
        }
        proof {
            assert((w as int) * (h as int) == (h as int) * (w as int)) by (nonlinear_arith);
        }
        out
    }
}

} // verus!
