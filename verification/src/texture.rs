//! Color sources: solid colors, checkerboards, image samples and noise.

use vstd::prelude::*;
use crate::fx::{ONE, fx_mul, fx_div, div_floor, div_trunc, floor_div_i128};
use crate::vec3::{Vec3, Point3, v_bounded};
use crate::color::Color;
use crate::image::{RtwImage, image_wf, pixel_spec};
use crate::perlin::{Perlin, perlin_wf};

verus! {

#[derive(Clone, Debug)]
pub struct SolidColor {
    pub albedo: Color,
}

#[derive(Debug)]
pub struct CheckerTexture {
    pub inv_scale: i64,
    pub odd: Box<Texture>,
    pub even: Box<Texture>,
}

#[derive(Clone, Debug)]
pub struct ImageTexture {
    pub image: RtwImage,
}

#[derive(Clone, Debug)]
pub struct NoiseTexture {
    pub noise: Perlin,
    pub scale: i64,
}

/// A color source: maps `(u, v, point)` to a color.
#[derive(Debug)]
pub enum Texture {
    Solid(SolidColor),
    Checker(CheckerTexture),
    Image(ImageTexture),
    Noise(NoiseTexture),
}

/// Bounds every texture keeps so its samples stay within a few units.
pub open spec fn tex_wf(t: Texture) -> bool
    decreases t,
{
    match t {
        Texture::Solid(s) => v_bounded(s.albedo, 16 * ONE as int),
        Texture::Checker(c) => {
            &&& -0x1_0000_0000 <= c.inv_scale <= 0x1_0000_0000
            &&& tex_wf(*c.odd)
            &&& tex_wf(*c.even)
        },
        Texture::Image(im) => image_wf(im.image),
        Texture::Noise(n) => perlin_wf(n.noise) && -0x10_0000 <= n.scale <= 0x10_0000,
    }
}

/// A channel clamped into `[0, ONE]`.
pub open spec fn unit_clamped(x: int) -> int {
    if x < 0 {
        0
    } else if x > ONE as int {
        ONE as int
    } else {
        x
    }
}

/// The checkerboard parity cell of a point: the truncated integer cell
/// index on each axis, summed, with the machine remainder (so the parity
/// of negative cells follows the truncating division convention).
pub open spec fn checker_is_odd(inv_scale: int, p: Vec3) -> bool {
    let xi = div_trunc((inv_scale * p.e[0]) / (ONE as int), ONE as int);
    let yi = div_trunc((inv_scale * p.e[1]) / (ONE as int), ONE as int);
    let zi = div_trunc((inv_scale * p.e[2]) / (ONE as int), ONE as int);
    let sm = xi + yi + zi;
    sm - div_trunc(sm, 2) * 2 == 1
}

/// What a texture sample is, relationally: solid colors and checkerboards
/// and image lookups are pinned exactly; a noise sample is gray (equal
/// channels within one unit), its scalar left open.
pub open spec fn tex_value_ok(t: Texture, u: int, v: int, p: Vec3, r: Color) -> bool
    decreases t,
{
    match t {
        Texture::Solid(sc) => r == sc.albedo,
        Texture::Checker(c) => if checker_is_odd(c.inv_scale as int, p) {
            tex_value_ok(*c.odd, u, v, p, r)
        } else {
            tex_value_ok(*c.even, u, v, p, r)
        },
        Texture::Image(im) => if im.image.width == 0 || im.image.height == 0 {
            r == (Vec3 { e: [0i64, ONE, ONE] })
        } else {
            let uc = unit_clamped(u);
            let vc = (ONE as int) - unit_clamped(v);
            let ii = (uc * (im.image.width as int)) / (ONE as int);
            let jj = (vc * (im.image.height as int)) / (ONE as int);
            let px = pixel_spec(im.image, ii, jj);
            &&& r.e[0] == (px.0 * (ONE as int)) / 255
            &&& r.e[1] == (px.1 * (ONE as int)) / 255
            &&& r.e[2] == (px.2 * (ONE as int)) / 255
        },
        Texture::Noise(_) => r.e[0] == r.e[1] && r.e[1] == r.e[2] && 0 <= r.e[0]
            <= ONE as int,
    }
}

impl SolidColor {
    pub fn new(albedo: Color) -> (r: SolidColor)
        ensures
            r.albedo == albedo,
    {
        SolidColor { albedo }
    }

    pub fn new_rgb(red: i64, green: i64, blue: i64) -> (r: SolidColor)
        ensures
            r.albedo.e[0] == red,
            r.albedo.e[1] == green,
            r.albedo.e[2] == blue,
    {
        SolidColor { albedo: Vec3 { e: [red, green, blue] } }
    }
}

impl CheckerTexture {
    /// `scale` is the checker period; degenerate scales fall back to one.
    pub fn new(scale: i64, odd: Box<Texture>, even: Box<Texture>) -> (r: CheckerTexture)
        ensures
            r.odd == odd,
            r.even == even,
            -0x1_0000_0000 <= r.inv_scale <= 0x1_0000_0000,
    {
        let sc: i64 = if scale == 0 {
            ONE
        } else {
            scale
        };
        proof {
            crate::fx::lemma_div_floor_abs((ONE as int) * (ONE as int), sc as int,
                0x1_0000_0000_0000);
        }
        let mut inv: i64 = fx_div(ONE, sc);
        if inv > 0x1_0000_0000 {
            inv = 0x1_0000_0000;
        }
        if inv < -0x1_0000_0000 {
            inv = -0x1_0000_0000;
        }
        CheckerTexture { inv_scale: inv, odd, even }
    }

    pub fn new_color(scale: i64, c1: Color, c2: Color) -> (r: CheckerTexture)
        ensures
            -0x1_0000_0000 <= r.inv_scale <= 0x1_0000_0000,
            r.odd == Box::new(Texture::Solid(SolidColor { albedo: c1 })),
            r.even == Box::new(Texture::Solid(SolidColor { albedo: c2 })),
    {
        CheckerTexture::new(
            scale,
            Box::new(Texture::Solid(SolidColor::new(c1))),
            Box::new(Texture::Solid(SolidColor::new(c2))),
        )
    }
}

impl ImageTexture {
    pub fn new(image: RtwImage) -> (r: ImageTexture)
        ensures
            r.image == image,
    {
        ImageTexture { image }
    }
}

impl NoiseTexture {
    /// Builds its own gradient tables from the process generator.
    pub fn new(scale: i64) -> (r: NoiseTexture)
        ensures
            perlin_wf(r.noise),
            r.scale == if -0x10_0000 <= scale <= 0x10_0000 { scale as int } else { 0 },
    {
        let sc: i64 = if scale >= -0x10_0000 && scale <= 0x10_0000 {
            scale
        } else {
            0
        };
        NoiseTexture { noise: Perlin::new(), scale: sc }
    }
}

/// Sample a texture. Every result stays within sixteen units per
/// channel (emissive colors well exceed one unit).
pub fn texture_value(t: &Texture, u: i64, v: i64, p: &Point3) -> (r: Color)
    requires
        tex_wf(*t),
        -(ONE as int) <= u <= ONE as int,
        -(ONE as int) <= v <= ONE as int,
        v_bounded(*p, 0x4000_0000),
    ensures
        v_bounded(r, 16 * ONE as int),
        t is Solid ==> r == t->Solid_0.albedo,
        tex_value_ok(*t, u as int, v as int, *p, r),
    decreases *t,
{
    match t {
        Texture::Solid(s) => s.albedo,
        Texture::Checker(c) => {
            proof {
                crate::fx::lemma_mul_abs_bound(c.inv_scale as int, p.e[0] as int,
                    0x1_0000_0000, 0x4000_0000);
                crate::fx::lemma_mul_abs_bound(c.inv_scale as int, p.e[1] as int,
                    0x1_0000_0000, 0x4000_0000);
                crate::fx::lemma_mul_abs_bound(c.inv_scale as int, p.e[2] as int,
                    0x1_0000_0000, 0x4000_0000);
            }
            let x_int: i64 = fx_mul(c.inv_scale, p.e[0]) / ONE;
            let y_int: i64 = fx_mul(c.inv_scale, p.e[1]) / ONE;
            let z_int: i64 = fx_mul(c.inv_scale, p.e[2]) / ONE;
            let sm: i64 = x_int + y_int + z_int;
            let is_odd = sm - (sm / 2) * 2 == 1;
            proof {
                assert(is_odd == checker_is_odd(c.inv_scale as int, *p));
            }
            if is_odd {
                texture_value(&c.odd, u, v, p)
            } else {
                texture_value(&c.even, u, v, p)
            }
        },
        Texture::Image(im) => {
            if im.image.width == 0 || im.image.height == 0 {
                return Vec3 { e: [0, ONE, ONE] };
            }
            let uc: i64 = if u < 0 {
                0
            } else if u > ONE {
                ONE
            } else {
                u
            };
            let vc0: i64 = if v < 0 {
                0
            } else if v > ONE {
                ONE
            } else {
                v
            };
            let vc: i64 = ONE - vc0;
            proof {
                crate::fx::lemma_mul_abs_bound(uc as int, im.image.width as int, ONE as int,
                    16384);
                crate::fx::lemma_mul_abs_bound(vc as int, im.image.height as int,
                    ONE as int, 16384);
            }
            let i: i64 = ((uc as i128) * (im.image.width as i128) / (ONE as i128)) as i64;
            let j: i64 = ((vc as i128) * (im.image.height as i128) / (ONE as i128)) as i64;
            let px = fetch_pixel(&im.image, i, j);
            Vec3 { e: [
                (px[0] as i64) * ONE / 255,
                (px[1] as i64) * ONE / 255,
                (px[2] as i64) * ONE / 255,
            ] }
        },
        Texture::Noise(n) => {
            proof {
                crate::fx::lemma_mul_abs_bound(n.scale as int, p.e[2] as int, 0x10_0000,
                    0x4000_0000);
            }
            let turb = n.noise.turbulence(p, 7);
            let mut arg: i64 = fx_mul(n.scale, p.e[2]);
            if arg > 0x100_0000 {
                arg = 0x100_0000;
            }
            if arg < -0x100_0000 {
                arg = -0x100_0000;
            }
            let full: i64 = arg + 10 * turb;
            // Convert the (radian-scale) phase to degrees for the sine.
            proof {
                crate::fx::lemma_mul_abs_bound(full as int, 3754936, 0x4000_0000, 3754936);
            }
            let deg: i64 = fx_mul(full, 3754936);
            let (sn, _cs) = crate::trig::sin_cos_deg(clamp_angle(deg));
            let h: i64 = (ONE + sn) / 2;
            Vec3 { e: [h, h, h] }
        },
    }
}

/// Clamp a phase angle into the range the trigonometric routine accepts.
fn clamp_angle(x: i64) -> (r: i64)
    ensures
        -0x4000_0000_0000 <= r <= 0x4000_0000_0000,
{
    if x < -0x4000_0000_0000 {
        -0x4000_0000_0000
    } else if x > 0x4000_0000_0000 {
        0x4000_0000_0000
    } else {
        x
    }
}

/// Clamped pixel fetch for the image arm.
fn fetch_pixel(img: &RtwImage, i: i64, j: i64) -> (r: [u8; 3])
    requires
        image_wf(*img),
        -0x1_0000_0000 <= i <= 0x1_0000_0000,
        -0x1_0000_0000 <= j <= 0x1_0000_0000,
    ensures
        r[0] as int == pixel_spec(*img, i as int, j as int).0,
        r[1] as int == pixel_spec(*img, i as int, j as int).1,
        r[2] as int == pixel_spec(*img, i as int, j as int).2,
{
    let xi: i32 = if i < -2147483648 {
        -2147483648
    } else if i > 2147483647 {
        2147483647
    } else {
        i as i32
    };
    let yj: i32 = if j < -2147483648 {
        -2147483648
    } else if j > 2147483647 {
        2147483647
    } else {
        j as i32
    };
    img.pixel_data(xi, yj)
}

} // verus!
