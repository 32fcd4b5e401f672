//! Isotropic participating media bounded by another surface.

use vstd::prelude::*;
use crate::aabb::Aabb;
use crate::color::Color;
use crate::fx::{ONE, div_floor, floor_div_i128, fx_div, neg_ln_fx, neg_ln_spec};
use crate::material::{Material, Isotropic};

verus! {

/// A constant-density volume. Rays entering the boundary scatter after an
/// exponentially distributed free-flight distance; the scatter decision
/// is made by the intersection dispatcher.
#[derive(Clone, Copy, Debug)]
pub struct ConstantMedium {
    /// Arena index of the boundary surface.
    pub boundary: usize,
    /// Density, fixed point, at least one unit.
    pub density: i64,
    /// Shader index of the isotropic phase function.
    pub phase_function: usize,
    /// Copy of the boundary's bounding box.
    pub aabb: Aabb,
}

impl ConstantMedium {
    pub fn new(boundary: usize, density: i64, phase_function: usize, boundary_box: &Aabb)
        -> (r: ConstantMedium)
        ensures
            r.boundary == boundary,
            r.density == if density >= 1 { density as int } else { 1 },
            r.phase_function == phase_function,
            r.aabb == *boundary_box,
    {
        ConstantMedium {
            boundary,
            density: if density >= 1 { density } else { 1 },
            phase_function,
            aabb: *boundary_box,
        }
    }

    /// Convenience constructor: registers a solid-color isotropic phase
    /// function in the shader table and attaches it.
    pub fn new_color(boundary: usize, density: i64, albedo: Color, boundary_box: &Aabb,
        mats: &mut Vec<Material>) -> (r: ConstantMedium)
        ensures
            r.boundary == boundary,
            r.density == if density >= 1 { density as int } else { 1 },
            r.phase_function == old(mats)@.len(),
            r.aabb == *boundary_box,
            final(mats)@.len() == old(mats)@.len() + 1,
            final(mats)@[old(mats)@.len() as int] == Material::Isotropic(Isotropic {
                tex: crate::texture::Texture::Solid(crate::texture::SolidColor {
                    albedo: albedo,
                }),
            }),
            forall|i: int| 0 <= i < old(mats)@.len() ==> #[trigger] final(mats)@[i]
                == old(mats)@[i],
    {
        let phase = mats.len();
        mats.push(Material::Isotropic(Isotropic::new_color(albedo)));
        ConstantMedium::new(boundary, density, phase, boundary_box)
    }
}

/// The scatter decision for one uniform draw `u` (fixed point in
/// `[0, ONE)`): with free-flight distance `-ln(u) / density`, the ray
/// scatters exactly when that distance does not exceed the length of the
/// boundary crossing `(tb - ta) * len`, at parameter
/// `ta + distance / len`; a zero draw stands for an unbounded flight and
/// never scatters.
pub open spec fn free_flight_spec(u: int, density: int, ta: int, tb: int, len: int)
    -> Option<int> {
    if u == 0 {
        None
    } else {
        let nl = neg_ln_spec(u);
        let hd = div_floor(nl * (ONE as int), density);
        let dist = ((tb - ta) * len) / (ONE as int);
        if hd > dist {
            None
        } else {
            Some(ta + div_floor(hd * (ONE as int), len))
        }
    }
}

/// The free-flight decision, exactly as `free_flight_spec` describes,
/// with the scatter parameter confined to the crossing segment.
pub fn medium_free_flight(u: i64, density: i64, ta: i64, tb: i64, ray_length: i64)
    -> (res: Option<i64>)
    requires
        0 <= u < ONE,
        1 <= density <= 0x4000_0000,
        -0x4000_0000_0000_0000 <= ta < tb <= 0x4000_0000_0000_0000,
        1 <= ray_length < 0x4000_0000,
    ensures
        res is Some == free_flight_spec(u as int, density as int, ta as int, tb as int,
            ray_length as int) is Some,
        res is Some ==> res.unwrap() == free_flight_spec(u as int, density as int,
            ta as int, tb as int, ray_length as int).unwrap(),
        res is Some ==> ta <= res.unwrap() <= tb,
{
    if u == 0 {
        return None;
    }
    let nl = neg_ln_fx(u);
    proof {
        crate::fx::lemma_div_floor_quotient_abs((nl as int) * (ONE as int), density as int,
            0x100_0000_0000);
        crate::fx::lemma_mul_abs_bound((tb as int) - (ta as int), ray_length as int,
            0x8000_0000_0000_0000_0000, 0x4000_0000);
    }
    let hd: i64 = fx_div(nl, density);
    let dist: i128 = floor_div_i128(((tb as i128) - (ta as i128)) * (ray_length as i128),
        ONE as i128);
    if (hd as i128) > dist {
        return None;
    }
    proof {
        lemma_flight_confined(hd as int, dist as int, ta as int, tb as int,
            ray_length as int);
    }
    let dt: i128 = floor_div_i128((hd as i128) * (ONE as i128), ray_length as i128);
    Some(ta + dt as i64)
}

/// A flight distance within the crossing keeps the scatter parameter
/// within the crossing segment: `0 <= dt <= tb - ta`.
proof fn lemma_flight_confined(hd: int, dist: int, ta: int, tb: int, len: int)
    requires
        0 <= hd <= dist,
        dist == ((tb - ta) * len) / (ONE as int),
        ta < tb,
        1 <= len,
    ensures
        0 <= div_floor(hd * (ONE as int), len) <= tb - ta,
{
    let s1 = ONE as int;
    let x = (tb - ta) * len;
    // dist * ONE <= (tb - ta) * len, by the division's fundamental law.
    vstd::arithmetic::div_mod::lemma_fundamental_div_mod(x, s1);
    vstd::arithmetic::div_mod::lemma_mod_bound(x, s1);
    assert(dist * s1 <= x) by (nonlinear_arith)
        requires
            s1 * dist + x % s1 == x,
            0 <= x % s1,
    ;
    // Hence hd * ONE <= (tb - ta) * len and the quotient by len is at
    // most tb - ta.
    assert(hd * s1 <= x) by (nonlinear_arith)
        requires
            hd <= dist,
            dist * s1 <= x,
            s1 >= 1,
    ;
    vstd::arithmetic::div_mod::lemma_div_is_ordered(hd * s1, x, len);
    vstd::arithmetic::div_mod::lemma_div_multiples_vanish(tb - ta, len);
    assert(x / len == tb - ta) by {
        assert(x == len * (tb - ta)) by (nonlinear_arith)
            requires x == (tb - ta) * len;
    }
    vstd::arithmetic::div_mod::lemma_div_pos_is_pos(hd * s1, len);
    assert(hd * s1 >= 0) by (nonlinear_arith)
        requires hd >= 0, s1 >= 1;
}

} // verus!
