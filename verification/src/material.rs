//! Shaders: the post-hit scattering decision.

use vstd::prelude::*;
use crate::fx::{ONE, fx_mul, fx_div};
use crate::vec3::{Vec3, Point3, v_dot, v_bounded, reflect_axis, refract_axis, sqrt_floor};
use crate::fx::{div_floor, div_trunc};
use crate::ray::Ray;
use crate::color::Color;
use crate::hittable::HitRecord;
use crate::texture::{Texture, SolidColor, tex_wf, texture_value};

verus! {

#[derive(Debug)]
pub struct Lambertian {
    pub tex: Texture,
}

#[derive(Clone, Debug)]
pub struct Metal {
    pub albedo: Color,
    pub fuzz: i64,
}

#[derive(Clone, Debug)]
pub struct Dielectric {
    pub refraction_index: i64,
}

#[derive(Debug)]
pub struct DiffuseLight {
    pub tex: Texture,
}

#[derive(Debug)]
pub struct Isotropic {
    pub tex: Texture,
}

/// A shader: maps an incoming ray and hit to an optional scattered ray
/// with attenuation, plus a self-emission query.
#[derive(Debug)]
pub enum Material {
    Lambertian(Lambertian),
    Metal(Metal),
    Dielectric(Dielectric),
    DiffuseLight(DiffuseLight),
    Isotropic(Isotropic),
}

pub open spec fn mat_wf(m: Material) -> bool {
    match m {
        Material::Lambertian(l) => tex_wf(l.tex),
        Material::Metal(mt) => v_bounded(mt.albedo, 16 * ONE as int) && 0 <= mt.fuzz
            <= ONE as int,
        Material::Dielectric(d) => 1 <= d.refraction_index <= 16 * ONE as int,
        Material::DiffuseLight(dl) => tex_wf(dl.tex),
        Material::Isotropic(iso) => tex_wf(iso.tex),
    }
}

/// Every shader in the table is well formed.
pub open spec fn mats_wf(mats: Seq<Material>) -> bool {
    forall|i: int| 0 <= i < mats.len() ==> mat_wf(#[trigger] mats[i])
}

impl Lambertian {
    pub fn new(tex: Texture) -> (r: Lambertian)
        ensures
            r.tex == tex,
    {
        Lambertian { tex }
    }

    pub fn new_color(c: Color) -> (r: Lambertian)
        ensures
            r.tex == Texture::Solid(SolidColor { albedo: c }),
    {
        Lambertian { tex: Texture::Solid(SolidColor::new(c)) }
    }
}

impl Metal {
    /// Fuzz is clamped into `[0, ONE]`.
    pub fn new(albedo: Color, fuzz: i64) -> (r: Metal)
        ensures
            r.albedo == albedo,
            r.fuzz == if fuzz < 0 { 0int } else if fuzz > ONE { ONE as int } else { fuzz as int },
    {
        let f: i64 = if fuzz < 0 {
            0
        } else if fuzz > ONE {
            ONE
        } else {
            fuzz
        };
        Metal { albedo, fuzz: f }
    }
}

impl Dielectric {
    /// The index is clamped into a sane positive range.
    pub fn new(refraction_index: i64) -> (r: Dielectric)
        ensures
            1 <= r.refraction_index <= 16 * ONE as int,
    {
        let ri: i64 = if refraction_index < 1 {
            1
        } else if refraction_index > 16 * ONE {
            16 * ONE
        } else {
            refraction_index
        };
        Dielectric { refraction_index: ri }
    }

    /// Schlick's reflectance approximation, in fixed point.
    pub fn reflectance(cosine: i64, refraction_index: i64) -> (r: i64)
        requires
            0 <= cosine <= ONE,
            1 <= refraction_index <= 16 * ONE as int,
        ensures
            0 <= r <= 2 * ONE as int,
            r == schlick(cosine as int, refraction_index as int),
    {
        proof {
            crate::fx::lemma_div_floor_abs((ONE - refraction_index) * (ONE as int),
                (ONE + refraction_index) as int, 0x1_0000_0000_0000);
        }
        let r0a: i64 = fx_div(ONE - refraction_index, ONE + refraction_index);
        let r0c: i64 = if r0a < -ONE {
            -ONE
        } else if r0a > ONE {
            ONE
        } else {
            r0a
        };
        proof {
            crate::fx::lemma_mul_abs_bound(r0c as int, r0c as int, ONE as int, ONE as int);
        }
        let r0: i64 = fx_mul(r0c, r0c);
        let omc: i64 = ONE - cosine;
        proof {
            crate::fx::lemma_mul_abs_bound(omc as int, omc as int, ONE as int, ONE as int);
        }
        let p2: i64 = fx_mul(omc, omc);
        proof {
            crate::fx::lemma_mul_abs_bound(p2 as int, p2 as int, ONE as int + 1,
                ONE as int + 1);
        }
        let p4: i64 = fx_mul(p2, p2);
        proof {
            crate::fx::lemma_mul_abs_bound(p4 as int, omc as int, 2 * ONE as int, ONE as int);
        }
        let p5: i64 = fx_mul(p4, omc);
        proof {
            crate::fx::lemma_mul_abs_bound((ONE - r0) as int, p5 as int, 2 * ONE as int,
                2 * ONE as int);
        }
        let res: i64 = r0 + fx_mul(ONE - r0, p5);
        if res < 0 {
            0
        } else if res > 2 * ONE {
            2 * ONE
        } else {
            res
        }
    }
}


/// Schlick's approximation, mirrored with the executable fixed-point
/// roundings: `r0 + (1 - r0) (1 - cos)^5` with
/// `r0 = ((1 - n) / (1 + n))^2`, clamped into `[0, 2]` units.
pub open spec fn schlick(cosine: int, refraction_index: int) -> int {
    let s1 = ONE as int;
    let r0a = div_floor((s1 - refraction_index) * s1, s1 + refraction_index);
    let r0c = if r0a < -s1 {
        -s1
    } else if r0a > s1 {
        s1
    } else {
        r0a
    };
    let r0 = (r0c * r0c) / s1;
    let omc = s1 - cosine;
    let p2 = (omc * omc) / s1;
    let p4 = (p2 * p2) / s1;
    let p5 = (p4 * omc) / s1;
    let res = r0 + ((s1 - r0) * p5) / s1;
    if res < 0 {
        0
    } else if res > 2 * s1 {
        2 * s1
    } else {
        res
    }
}

/// The relative refraction index the dielectric uses: the reciprocal when
/// entering (front face), the stored index when exiting, clamped into the
/// working range.
pub open spec fn diel_ratio(index: int, front_face: bool) -> int {
    if front_face {
        let inv = div_floor((ONE as int) * (ONE as int), index);
        if inv < 1 {
            1
        } else if inv > 16 * ONE as int {
            16 * ONE as int
        } else {
            inv
        }
    } else {
        index
    }
}

/// The unit-scale incoming direction (componentwise normalization of a
/// nonzero vector).
pub open spec fn unit_axis(v: Vec3, i: int) -> int {
    div_floor(v.e[i] * (ONE as int), sqrt_floor(v_dot(v, v)))
}

/// The unit-scale incoming direction as a vector value.
pub open spec fn unit_of(v: Vec3) -> Vec3 {
    Vec3 {
        e: [unit_axis(v, 0) as i64, unit_axis(v, 1) as i64, unit_axis(v, 2) as i64],
    }
}

/// A direction component clamped into the scattering budget.
pub open spec fn dir_clamped(x: int) -> int {
    if x < -0x8_0000 {
        -0x8_0000
    } else if x > 0x8_0000 {
        0x8_0000
    } else {
        x
    }
}

/// The dielectric's outgoing direction is either the (clamped) reflection
/// or the (clamped) refraction of the unit incoming direction about the
/// stored normal; which of the two is drawn from the Schlick probability.
pub open spec fn diel_dir_ok(de: Dielectric, r_in: Ray, rec: HitRecord, d: Vec3) -> bool {
    if v_dot(r_in.dir, r_in.dir) == 0 {
        d == (Vec3 { e: [0i64, 0i64, 1i64] })
    } else {
        let uin = unit_of(r_in.dir);
        let ri = diel_ratio(de.refraction_index as int, rec.front_face);
        (forall|i: int| 0 <= i < 3 ==> #[trigger] d.e[i] == dir_clamped(reflect_axis(uin,
            rec.normal, i))) || (forall|i: int| 0 <= i < 3 ==> #[trigger] d.e[i]
            == dir_clamped(refract_axis(uin, rec.normal, ri, i)))
    }
}

impl DiffuseLight {
    pub fn new(tex: Texture) -> (r: DiffuseLight)
        ensures
            r.tex == tex,
    {
        DiffuseLight { tex }
    }

    pub fn new_color(c: Color) -> (r: DiffuseLight)
        ensures
            r.tex == Texture::Solid(SolidColor { albedo: c }),
    {
        DiffuseLight { tex: Texture::Solid(SolidColor::new(c)) }
    }
}

impl Isotropic {
    pub fn new(tex: Texture) -> (r: Isotropic)
        ensures
            r.tex == tex,
    {
        Isotropic { tex }
    }

    pub fn new_color(c: Color) -> (r: Isotropic)
        ensures
            r.tex == Texture::Solid(SolidColor { albedo: c }),
    {
        Isotropic { tex: Texture::Solid(SolidColor::new(c)) }
    }
}

/// Bounds a hit record must satisfy before shading.
pub open spec fn rec_shadable(rec: HitRecord) -> bool {
    &&& v_bounded(rec.p, 0x4000_0000)
    &&& v_bounded(rec.normal, 2 * ONE as int)
    &&& -(ONE as int) <= rec.uv.0 <= ONE as int
    &&& -(ONE as int) <= rec.uv.1 <= ONE as int
}

/// Scattering decision. An accepted scatter starts at the hit point,
/// keeps the incoming time stamp, and has bounded attenuation and
/// direction; a metal scatter always leaves the surface (positive dot
/// with the stored normal); a dielectric always scatters with unit
/// attenuation; a pure emitter never scatters.
pub fn scatter(m: &Material, r_in: &Ray, rec: &HitRecord) -> (res: Option<(Color, Ray)>)
    requires
        mat_wf(*m),
        rec_shadable(*rec),
        v_bounded(r_in.dir, 0x4000_0000),
        0 <= r_in.ts <= ONE,
    ensures
        res is Some ==> ({
            let (att, sc) = res.unwrap();
            &&& sc.orig == rec.p
            &&& sc.ts == r_in.ts
            &&& v_bounded(att, 16 * ONE as int)
            &&& v_bounded(sc.dir, 0x10_0000)
        }),
        m is DiffuseLight ==> res is None,
        m is Lambertian ==> res is Some && crate::texture::tex_value_ok(
            m->Lambertian_0.tex, rec.uv.0 as int, rec.uv.1 as int, rec.p, res.unwrap().0)
            && (forall|i: int| 0 <= i < 3 ==> -(ONE as int)
                <= #[trigger] res.unwrap().1.dir.e[i] - rec.normal.e[i] <= ONE as int),
        m is Isotropic ==> res is Some && crate::texture::tex_value_ok(m->Isotropic_0.tex,
            rec.uv.0 as int, rec.uv.1 as int, rec.p, res.unwrap().0)
            && v_bounded(res.unwrap().1.dir, ONE as int)
            && (ONE - 4) * (ONE - 4) <= v_dot(res.unwrap().1.dir, res.unwrap().1.dir)
            && v_dot(res.unwrap().1.dir, res.unwrap().1.dir) <= (ONE + 9) * (ONE + 9),
        m is Metal && res is Some ==> v_dot(res.unwrap().1.dir, rec.normal) > 0
            && res.unwrap().0 == m->Metal_0.albedo,
        m is Dielectric ==> res is Some && res.unwrap().0 == (Vec3 { e: [ONE, ONE, ONE] })
            && diel_dir_ok(m->Dielectric_0, *r_in, *rec, res.unwrap().1.dir),
        m is Dielectric && diel_ratio(m->Dielectric_0.refraction_index as int,
            rec.front_face) == ONE as int && v_dot(r_in.dir, r_in.dir) != 0 ==> (forall|i:
            int| 0 <= i < 3 ==> #[trigger] res.unwrap().1.dir.e[i] == dir_clamped(
            refract_axis(unit_of(r_in.dir), rec.normal, ONE as int, i))),
{
    match m {
        Material::Lambertian(l) => {
            let rv = Vec3::random_unit_vector();
            let mut dir = Vec3 {
                e: [rec.normal.e[0] + rv.e[0], rec.normal.e[1] + rv.e[1], rec.normal.e[2]
                    + rv.e[2]],
            };
            if dir.near_zero() {
                dir = rec.normal;
            }
            let scattered = Ray { orig: rec.p, dir, ts: r_in.ts };
            let attenuation = texture_value(&l.tex, rec.uv.0, rec.uv.1, &rec.p);
            Some((attenuation, scattered))
        },
        Material::Metal(mt) => {
            let lsq = r_in.dir.length_squared();
            if lsq == 0 {
                return None;
            }
            let unit_in = r_in.dir.unit_vector();
            let reflected0 = Vec3::reflect(&unit_in, &rec.normal);
            let r0 = clamp_dir(reflected0.e[0]);
            let r1 = clamp_dir(reflected0.e[1]);
            let r2 = clamp_dir(reflected0.e[2]);
            let reflected = Vec3 { e: [r0, r1, r2] };
            let rl = reflected.length_squared();
            if rl == 0 {
                return None;
            }
            let runit = reflected.unit_vector();
            let rv = Vec3::random_unit_vector();
            proof {
                crate::fx::lemma_mul_abs_bound(mt.fuzz as int, rv.e[0] as int, ONE as int,
                    ONE as int);
                crate::fx::lemma_mul_abs_bound(mt.fuzz as int, rv.e[1] as int, ONE as int,
                    ONE as int);
                crate::fx::lemma_mul_abs_bound(mt.fuzz as int, rv.e[2] as int, ONE as int,
                    ONE as int);
            }
            let dir = Vec3 {
                e: [
                    runit.e[0] + fx_mul(mt.fuzz, rv.e[0]),
                    runit.e[1] + fx_mul(mt.fuzz, rv.e[1]),
                    runit.e[2] + fx_mul(mt.fuzz, rv.e[2]),
                ],
            };
            let d = dir.dot(&rec.normal);
            if d > 0 {
                Some((mt.albedo, Ray { orig: rec.p, dir, ts: r_in.ts }))
            } else {
                None
            }
        },
        Material::Dielectric(de) => {
            let attenuation = Vec3 { e: [ONE, ONE, ONE] };
            let ri: i64 = if rec.front_face {
                proof {
                    crate::fx::lemma_div_floor_quotient_abs((ONE as int) * (ONE as int),
                        de.refraction_index as int, 0x1_0000_0000_0000);
                }
                let inv = fx_div(ONE, de.refraction_index);
                if inv < 1 {
                    1
                } else if inv > 16 * ONE {
                    16 * ONE
                } else {
                    inv
                }
            } else {
                de.refraction_index
            };
            proof {
                assert(ri == diel_ratio(de.refraction_index as int, rec.front_face));
            }
            let lsq = r_in.dir.length_squared();
            if lsq == 0 {
                return Some((attenuation, Ray { orig: rec.p, dir: Vec3 { e: [0, 0, 1] },
                    ts: r_in.ts }));
            }
            let unit_direction = r_in.dir.unit_vector();
            proof {
                crate::fx::lemma_mul_abs_bound(unit_direction.e[0] as int,
                    rec.normal.e[0] as int, ONE as int, 2 * ONE as int);
                crate::fx::lemma_mul_abs_bound(unit_direction.e[1] as int,
                    rec.normal.e[1] as int, ONE as int, 2 * ONE as int);
                crate::fx::lemma_mul_abs_bound(unit_direction.e[2] as int,
                    rec.normal.e[2] as int, ONE as int, 2 * ONE as int);
            }
            let mdot = unit_direction.dot(&rec.normal);
            let ct0: i64 = clamp_cos(mdot);
            let cos_theta: i64 = if ct0 > ONE {
                ONE
            } else {
                ct0
            };
            proof {
                crate::fx::lemma_mul_abs_bound(cos_theta as int, cos_theta as int,
                    ONE as int, ONE as int);
            }
            let c2: i64 = fx_mul(cos_theta, cos_theta);
            let mut rest: i64 = ONE - c2;
            if rest < 0 {
                rest = 0;
            }
            if rest > ONE {
                rest = ONE;
            }
            let sin_theta: i64 = small_sqrt(rest);
            proof {
                crate::fx::lemma_mul_abs_bound(ri as int, sin_theta as int, 16 * ONE as int,
                    2 * ONE as int);
            }
            let cannot_refract = fx_mul(ri, sin_theta) > ONE;
            let cpos: i64 = if cos_theta < 0 {
                0
            } else {
                cos_theta
            };
            let draw = crate::rng::random_unit_fx();
            proof {
                assert(unit_direction.e =~= unit_of(r_in.dir).e);
            }
            // A unit relative index is vacuum-equivalent: Snell's law
            // leaves the ray unbent, so the reflectance draw is skipped
            // and the refraction branch always taken.
            let dir: Vec3 = if ri != ONE && (cannot_refract || Dielectric::reflectance(cpos,
                ri) > draw) {
                let rf = Vec3::reflect(&unit_direction, &rec.normal);
                let d = Vec3 { e: [clamp_dir(rf.e[0]), clamp_dir(rf.e[1]), clamp_dir(rf.e[2])] };
                proof {
                    assert forall|i: int| 0 <= i < 3 implies #[trigger] d.e[i] == dir_clamped(
                        reflect_axis(unit_of(r_in.dir), rec.normal, i)) by {
                        if i == 0 {
                        } else if i == 1 {
                        } else {
                        }
                    }
                }
                d
            } else {
                let rr = Vec3::refract(&unit_direction, &rec.normal, ri);
                let d = Vec3 { e: [clamp_dir(rr.e[0]), clamp_dir(rr.e[1]), clamp_dir(rr.e[2])] };
                proof {
                    assert forall|i: int| 0 <= i < 3 implies #[trigger] d.e[i] == dir_clamped(
                        refract_axis(unit_of(r_in.dir), rec.normal, diel_ratio(
                            de.refraction_index as int, rec.front_face), i)) by {
                        if i == 0 {
                        } else if i == 1 {
                        } else {
                        }
                    }
                }
                d
            };
            Some((attenuation, Ray { orig: rec.p, dir, ts: r_in.ts }))
        },
        Material::DiffuseLight(_) => None,
        Material::Isotropic(iso) => {
            let dir = Vec3::random_unit_vector();
            let attenuation = texture_value(&iso.tex, rec.uv.0, rec.uv.1, &rec.p);
            Some((attenuation, Ray { orig: rec.p, dir, ts: r_in.ts }))
        },
    }
}

/// Emission query: only the pure emitter shines, with its texture color.
pub fn emitted(m: &Material, u: i64, v: i64, p: &Point3) -> (r: Color)
    requires
        mat_wf(*m),
        -(ONE as int) <= u <= ONE as int,
        -(ONE as int) <= v <= ONE as int,
        v_bounded(*p, 0x4000_0000),
    ensures
        v_bounded(r, 16 * ONE as int),
        !(m is DiffuseLight) ==> r == (Vec3 { e: [0i64, 0i64, 0i64] }),
        m is DiffuseLight ==> crate::texture::tex_value_ok(m->DiffuseLight_0.tex, u as int,
            v as int, *p, r),
{
    match m {
        Material::DiffuseLight(dl) => texture_value(&dl.tex, u, v, p),
        _ => Vec3 { e: [0, 0, 0] },
    }
}

/// Clamp a scattered direction component into the budget.
fn clamp_dir(x: i64) -> (r: i64)
    ensures
        -0x8_0000 <= r <= 0x8_0000,
        r == dir_clamped(x as int),
{
    if x < -0x8_0000 {
        -0x8_0000
    } else if x > 0x8_0000 {
        0x8_0000
    } else {
        x
    }
}

/// Clamp a unit-scale cosine taken from an exact dot product.
fn clamp_cos(d: i128) -> (r: i64)
    requires
        -0x1_0000_0000_0000_0000 <= d <= 0x1_0000_0000_0000_0000,
    ensures
        -(ONE as int) <= r <= ONE as int,
{
    let q: i128 = if d >= 0 {
        d / (ONE as i128)
    } else {
        -((-d) / (ONE as i128))
    };
    let neg: i128 = -q;
    if neg < -(ONE as i128) {
        -ONE
    } else if neg > ONE as i128 {
        ONE
    } else {
        neg as i64
    }
}

/// Integer square root for small unit-scale values.
fn small_sqrt(x: i64) -> (r: i64)
    requires
        0 <= x <= ONE,
    ensures
        0 <= r <= 2 * ONE as int,
{
    // The argument is at scale ONE; lift to scale ONE^2 before the root.
    let lifted: u128 = (x as u128) * (ONE as u128);
    let s = crate::fx::isqrt_u128(lifted);
    proof {
        assert(s < 0x2_0000u128) by (nonlinear_arith)
            requires
                s * s <= lifted,
                lifted <= 0x1_0000_0000,
        ;
    }
    s as i64
}

} // verus!
