//! Three-component fixed-point vectors.
//!
//! Components are fixed-point scalars in the sense of [`crate::fx`]: an
//! `i64` component stands for `component / ONE`. Sums, differences and
//! cross/dot products are computed exactly in `i128`; results that must
//! come back to the component scale are divided by `ONE`, rounding toward
//! negative infinity, and the contracts state that rounding exactly.

use vstd::prelude::*;
use crate::fx::{
    ONE, div_floor, floor_div_i128, fx_mul, fx_div, isqrt_u128, lemma_mul_abs_bound,
    lemma_div_floor_quotient_abs,
};

verus! {

#[derive(Clone, Copy, Debug)]
pub struct Vec3 {
    pub e: [i64; 3],
}

/// Points are vectors, as in the rest of the codebase.
pub type Point3 = Vec3;

/// The dot product of `a` and `b`, exactly, at scale `ONE * ONE`.
pub open spec fn v_dot(a: Vec3, b: Vec3) -> int {
    a.e[0] * b.e[0] + a.e[1] * b.e[1] + a.e[2] * b.e[2]
}

/// Component `i` of the cross product of `a` and `b`, exactly, at scale
/// `ONE * ONE` (no rescaling).
pub open spec fn v_cross(a: Vec3, b: Vec3, i: int) -> int {
    if i == 0 {
        a.e[1] * b.e[2] - a.e[2] * b.e[1]
    } else if i == 1 {
        a.e[2] * b.e[0] - a.e[0] * b.e[2]
    } else {
        a.e[0] * b.e[1] - a.e[1] * b.e[0]
    }
}

/// All components of `v` are bounded by `m` in magnitude.
pub open spec fn v_bounded(v: Vec3, m: int) -> bool {
    forall|i: int| 0 <= i < 3 ==> -m <= #[trigger] v.e[i] <= m
}

/// Whether `r` is the integer square root (floor) of `n`.
pub open spec fn is_isqrt(n: int, r: int) -> bool {
    0 <= r && r * r <= n < (r + 1) * (r + 1)
}

/// The integer square root of `n` (floor of the real square root),
/// defined for `n >= 0`.
pub closed spec fn sqrt_floor(n: int) -> int {
    choose|r: int| is_isqrt(n, r)
}

/// The integer square root is unique, so an executable routine that
/// brackets its result pins it to `sqrt_floor`.
pub proof fn lemma_isqrt_unique(n: int, r: int)
    requires
        is_isqrt(n, r),
    ensures
        r == sqrt_floor(n),
{
    let s = choose|s: int| is_isqrt(n, s);
    assert(is_isqrt(n, s));
    assert(r == s) by (nonlinear_arith)
        requires
            0 <= r,
            r * r <= n < (r + 1) * (r + 1),
            0 <= s,
            s * s <= n < (s + 1) * (s + 1),
    ;
}

impl Vec3 {
    pub fn new(e0: i64, e1: i64, e2: i64) -> (r: Vec3)
        ensures
            r.e[0] == e0,
            r.e[1] == e1,
            r.e[2] == e2,
    {
        Vec3 { e: [e0, e1, e2] }
    }

    pub fn x(&self) -> (r: i64)
        ensures
            r == self.e[0],
    {
        self.e[0]
    }

    pub fn y(&self) -> (r: i64)
        ensures
            r == self.e[1],
    {
        self.e[1]
    }

    pub fn z(&self) -> (r: i64)
        ensures
            r == self.e[2],
    {
        self.e[2]
    }

    /// Component by runtime axis index.
    pub fn axis(&self, i: usize) -> (r: i64)
        requires
            i < 3,
        ensures
            r == self.e[i as int],
    {
        self.e[i]
    }

    pub fn add(&self, o: &Vec3) -> (r: Vec3)
        requires
            forall|i: int| 0 <= i < 3 ==> i64::MIN <= #[trigger] self.e[i] + o.e[i] <= i64::MAX,
        ensures
            forall|i: int| 0 <= i < 3 ==> #[trigger] r.e[i] == self.e[i] + o.e[i],
    {
        Vec3 { e: [self.e[0] + o.e[0], self.e[1] + o.e[1], self.e[2] + o.e[2]] }
    }

    pub fn sub(&self, o: &Vec3) -> (r: Vec3)
        requires
            forall|i: int| 0 <= i < 3 ==> i64::MIN <= #[trigger] self.e[i] - o.e[i] <= i64::MAX,
        ensures
            forall|i: int| 0 <= i < 3 ==> #[trigger] r.e[i] == self.e[i] - o.e[i],
    {
        Vec3 { e: [self.e[0] - o.e[0], self.e[1] - o.e[1], self.e[2] - o.e[2]] }
    }

    pub fn neg(&self) -> (r: Vec3)
        requires
            forall|i: int| 0 <= i < 3 ==> #[trigger] self.e[i] != i64::MIN,
        ensures
            forall|i: int| 0 <= i < 3 ==> #[trigger] r.e[i] == -self.e[i],
    {
        Vec3 { e: [-self.e[0], -self.e[1], -self.e[2]] }
    }

    /// Componentwise fixed-point product (used for color attenuation).
    pub fn mul(&self, o: &Vec3) -> (r: Vec3)
        requires
            forall|i: int| 0 <= i < 3 ==>
                i64::MIN <= #[trigger] (self.e[i] * o.e[i]) / (ONE as int) <= i64::MAX,
        ensures
            forall|i: int| 0 <= i < 3 ==>
                #[trigger] r.e[i] == (self.e[i] * o.e[i]) / (ONE as int),
    {
        Vec3 { e: [
            fx_mul(self.e[0], o.e[0]),
            fx_mul(self.e[1], o.e[1]),
            fx_mul(self.e[2], o.e[2]),
        ] }
    }

    /// Scale by a fixed-point scalar.
    pub fn scale(&self, t: i64) -> (r: Vec3)
        requires
            forall|i: int| 0 <= i < 3 ==>
                i64::MIN <= #[trigger] (self.e[i] * t) / (ONE as int) <= i64::MAX,
        ensures
            forall|i: int| 0 <= i < 3 ==>
                #[trigger] r.e[i] == (self.e[i] * t) / (ONE as int),
    {
        Vec3 { e: [fx_mul(self.e[0], t), fx_mul(self.e[1], t), fx_mul(self.e[2], t)] }
    }

    /// Divide by a fixed-point scalar (componentwise, rounding down).
    pub fn scale_div(&self, t: i64) -> (r: Vec3)
        requires
            t != 0,
            forall|i: int| 0 <= i < 3 ==>
                i64::MIN <= div_floor(#[trigger] self.e[i] * (ONE as int), t as int) <= i64::MAX,
        ensures
            forall|i: int| 0 <= i < 3 ==>
                #[trigger] r.e[i] == div_floor(self.e[i] * (ONE as int), t as int),
    {
        Vec3 { e: [fx_div(self.e[0], t), fx_div(self.e[1], t), fx_div(self.e[2], t)] }
    }

    /// Exact dot product at scale `ONE * ONE`.
    pub fn dot(&self, o: &Vec3) -> (r: i128)
        requires
            v_bounded(*self, 0x4000_0000_0000_0000),
            v_bounded(*o, 0x4000_0000_0000_0000),
        ensures
            r == v_dot(*self, *o),
    {
        proof {
            let m = 0x4000_0000_0000_0000int;
            lemma_mul_abs_bound(self.e[0] as int, o.e[0] as int, m, m);
            lemma_mul_abs_bound(self.e[1] as int, o.e[1] as int, m, m);
            lemma_mul_abs_bound(self.e[2] as int, o.e[2] as int, m, m);
        }
        (self.e[0] as i128) * (o.e[0] as i128)
            + (self.e[1] as i128) * (o.e[1] as i128)
            + (self.e[2] as i128) * (o.e[2] as i128)
    }

    /// Cross product, rescaled back to component scale (each component is
    /// the exact cross-product component divided by `ONE`, rounding down).
    pub fn cross(&self, o: &Vec3) -> (r: Vec3)
        requires
            v_bounded(*self, 0x40_0000_0000),
            v_bounded(*o, 0x40_0000_0000),
        ensures
            forall|i: int| 0 <= i < 3 ==>
                #[trigger] r.e[i] == div_floor(v_cross(*self, *o, i), ONE as int),
    {
        proof {
            let m = 0x40_0000_0000int;
            assert forall|i: int, j: int| 0 <= i < 3 && 0 <= j < 3 implies
                -(m * m) <= #[trigger] (self.e[i] * o.e[j]) <= m * m by {
                lemma_mul_abs_bound(self.e[i] as int, o.e[j] as int, m, m);
            }
            assert forall|i: int| 0 <= i < 3 implies
                -0x2000_0000_0000_0000int - 1
                    <= #[trigger] div_floor(v_cross(*self, *o, i), ONE as int)
                    <= 0x2000_0000_0000_0000int by {
                lemma_div_floor_quotient_abs(v_cross(*self, *o, i), ONE as int,
                    0x2_0000_0000_0000_0000_0000int);
            }
        }
        let c0: i128 = (self.e[1] as i128) * (o.e[2] as i128)
            - (self.e[2] as i128) * (o.e[1] as i128);
        let c1: i128 = (self.e[2] as i128) * (o.e[0] as i128)
            - (self.e[0] as i128) * (o.e[2] as i128);
        let c2: i128 = (self.e[0] as i128) * (o.e[1] as i128)
            - (self.e[1] as i128) * (o.e[0] as i128);
        Vec3 { e: [
            floor_div_i128(c0, ONE as i128) as i64,
            floor_div_i128(c1, ONE as i128) as i64,
            floor_div_i128(c2, ONE as i128) as i64,
        ] }
    }

    /// Exact squared length at scale `ONE * ONE`.
    pub fn length_squared(&self) -> (r: i128)
        requires
            v_bounded(*self, 0x4000_0000_0000_0000),
        ensures
            r == v_dot(*self, *self),
            r >= 0,
    {
        let r = self.dot(self);
        proof {
            assert(v_dot(*self, *self) >= 0) by (nonlinear_arith);
        }
        r
    }

    /// Length at component scale: the integer square root of the squared
    /// length.
    pub fn length(&self) -> (r: i64)
        requires
            v_bounded(*self, 0x2000_0000_0000_0000),
        ensures
            r == sqrt_floor(v_dot(*self, *self)),
            r >= 0,
            r * r <= v_dot(*self, *self) < (r + 1) * (r + 1),
    {
        let ls = self.length_squared();
        proof {
            assert(v_dot(*self, *self) < 0x1000_0000_0000_0000_0000_0000_0000_0000int)
                by (nonlinear_arith)
                requires v_bounded(*self, 0x2000_0000_0000_0000);
        }
        let s = isqrt_u128(ls as u128);
        proof {
            lemma_isqrt_unique(v_dot(*self, *self), s as int);
            assert(s < 0x4000_0000_0000_0000u128) by (nonlinear_arith)
                requires
                    s * s <= v_dot(*self, *self),
                    v_dot(*self, *self) < 0x1000_0000_0000_0000_0000_0000_0000_0000int,
            ;
        }
        s as i64
    }

    /// Normalize: each component becomes `e[i] * ONE / length`, rounding
    /// down. The caller must ensure the vector is nonzero.
    pub fn unit_vector(&self) -> (r: Vec3)
        requires
            v_bounded(*self, 0x2000_0000_0000_0000),
            v_dot(*self, *self) >= 1,
        ensures
            forall|i: int| 0 <= i < 3 ==>
                #[trigger] r.e[i]
                    == div_floor(self.e[i] * (ONE as int), sqrt_floor(v_dot(*self, *self))),
            v_bounded(r, ONE as int),
            268435456 <= v_dot(*self, *self) <= 4294967296 ==> (ONE - 4) * (ONE - 4)
                <= v_dot(r, r) <= (ONE + 9) * (ONE + 9),
    {
        let len = self.length();
        proof {
            let n = v_dot(*self, *self);
            let l = len as int;
            assert(l >= 1) by (nonlinear_arith)
                requires
                    l >= 0,
                    l * l <= n,
                    n < (l + 1) * (l + 1),
                    n >= 1,
            ;
            assert(self.e[0] * self.e[0] <= n && self.e[1] * self.e[1] <= n
                && self.e[2] * self.e[2] <= n) by (nonlinear_arith)
                requires
                    self.e[0int] * self.e[0int] + self.e[1int] * self.e[1int]
                        + self.e[2int] * self.e[2int] == n,
            ;
            lemma_component_le_len(self.e[0] as int, n, l);
            lemma_component_le_len(self.e[1] as int, n, l);
            lemma_component_le_len(self.e[2] as int, n, l);
            assert forall|i: int| 0 <= i < 3 implies
                -(ONE as int) <= div_floor(#[trigger] self.e[i] * (ONE as int), l)
                    <= ONE as int by {
                lemma_div_floor_bounds_by_magnitude(self.e[i] as int, l);
            }
        }
        let res = self.scale_div(len);
        proof {
            let n = v_dot(*self, *self);
            let l = len as int;
            if 268435456 <= n <= 4294967296 {
                assert(16384 <= l <= 65536) by (nonlinear_arith)
                    requires
                        l * l <= n,
                        n < (l + 1) * (l + 1),
                        268435456 <= n <= 4294967296,
                        l >= 0,
                ;
                lemma_unit_norm_bracket(self.e[0] as int, self.e[1] as int,
                    self.e[2] as int, res.e[0] as int, res.e[1] as int, res.e[2] as int, l,
                    n);
            }
        }
        res
    }

    /// True when every component is below the degeneracy threshold.
    /// The customary threshold (1e-8) is finer than one fixed-point
    /// step, so at this scale it means exactly zero.
    pub fn near_zero(&self) -> (r: bool)
        ensures
            r == (self.e[0] == 0 && self.e[1] == 0 && self.e[2] == 0),
    {
        self.e[0] == 0 && self.e[1] == 0 && self.e[2] == 0
    }
}

/// A value whose square is below `(l + 1)^2` has magnitude at most `l`.
proof fn lemma_component_le_len(v: int, n: int, l: int)
    requires
        v * v <= n,
        n < (l + 1) * (l + 1),
        l >= 0,
    ensures
        -l <= v <= l,
{
    assert(-l <= v <= l) by (nonlinear_arith)
        requires
            v * v <= n,
            n < (l + 1) * (l + 1),
            l >= 0,
    ;
}

/// For `den >= 1` and `|a| <= den`, the floor of `a * ONE / den` stays
/// within `[-ONE, ONE]`.
pub proof fn lemma_div_floor_bounds_by_magnitude(a: int, den: int)
    requires
        den >= 1,
        -den <= a <= den,
    ensures
        -(ONE as int) <= div_floor(a * (ONE as int), den) <= ONE as int,
{
    let q = div_floor(a * (ONE as int), den);
    vstd::arithmetic::div_mod::lemma_fundamental_div_mod(a * (ONE as int), den);
    vstd::arithmetic::div_mod::lemma_mod_bound(a * (ONE as int), den);
    assert(-(ONE as int) <= q <= ONE as int) by (nonlinear_arith)
        requires
            den * q + (a * (ONE as int)) % den == a * (ONE as int),
            0 <= (a * (ONE as int)) % den < den,
            den >= 1,
            -den <= a <= den,
            q == (a * (ONE as int)) / den,
    ;
}

/// Component `i` of the reflection of `v` about `n` (with `n` at unit
/// scale): `v - 2 (v . n) n`, with one fixed-point rounding.
pub open spec fn reflect_axis(v: Vec3, n: Vec3, i: int) -> int {
    v.e[i] - div_floor(2 * v_dot(v, n) * n.e[i], (ONE as int) * (ONE as int))
}

impl Vec3 {
    /// A vector with every component drawn uniformly from `[min, max)`.
    pub fn random(min: i64, max: i64) -> (r: Vec3)
        requires
            -0x4000_0000_0000 <= min <= 0x4000_0000_0000,
            -0x4000_0000_0000 <= max <= 0x4000_0000_0000,
            min <= max,
        ensures
            forall|i: int| 0 <= i < 3 ==> min <= #[trigger] r.e[i] <= max,
    {
        Vec3 { e: [
            crate::rng::random_range_fx(min, max),
            crate::rng::random_range_fx(min, max),
            crate::rng::random_range_fx(min, max),
        ] }
    }

    /// Rejection-sample a direction of unit length (within fixed-point
    /// rounding): draws from the cube until the point falls inside the
    /// unit ball with length at least a quarter unit (the fixed-point
    /// stand-in for the vanishing-length guard), then normalizes. After
    /// sixty-four consecutive rejections -- a probability too small to
    /// observe -- the positive x axis is returned. Only the component
    /// bounds are stated: the near-unit length of the normalized result
    /// would need a rounding-error analysis that nothing downstream
    /// relies on.
    pub fn random_unit_vector() -> (r: Vec3)
        ensures
            v_bounded(r, ONE as int),
            (ONE - 4) * (ONE - 4) <= v_dot(r, r) <= (ONE + 9) * (ONE + 9),
    {
        let mut tries: u32 = 0;
        while tries < 64
            invariant
                tries <= 64,
            decreases 64 - tries,
        {
            let p = Vec3::random(-ONE, ONE);
            let lensq = p.length_squared();
            let quarter: i128 = 268435456;
            if lensq <= 4294967296i128 && lensq >= quarter {
                let u = p.unit_vector();
                if v_dot_positive(&u, &u) {
                    return u;
                }
            }
            tries = tries + 1;
        }
        let fallback = Vec3 { e: [ONE, 0, 0] };
        proof {
            assert(v_dot(fallback, fallback) == (ONE as int) * (ONE as int))
                by (nonlinear_arith)
                requires
                    fallback.e[0int] == ONE && fallback.e[1int] == 0 && fallback.e[2int]
                        == 0,
                    ONE == 65536,
            ;
        }
        fallback
    }

    /// A unit-scale direction on the hemisphere of `normal`.
    pub fn random_on_hemisphere(normal: &Vec3) -> (r: Vec3)
        requires
            v_bounded(*normal, 0x4000_0000_0000_0000),
        ensures
            v_bounded(r, ONE as int),
    {
        let on_unit_sphere = Vec3::random_unit_vector();
        if on_unit_sphere.dot(normal) > 0 {
            on_unit_sphere
        } else {
            on_unit_sphere.neg()
        }
    }

    /// Rejection-sample a point in the unit disk (z component zero).
    pub fn random_in_unit_disk() -> (r: Vec3)
        ensures
            v_bounded(r, ONE as int),
            r.e[2] == 0,
    {
        let mut tries: u32 = 0;
        while tries < 64
            invariant
                tries <= 64,
            decreases 64 - tries,
        {
            let p = Vec3 { e: [
                crate::rng::random_range_fx(-ONE, ONE),
                crate::rng::random_range_fx(-ONE, ONE),
                0,
            ] };
            let lensq = p.length_squared();
            if lensq <= 4294967296i128 {
                return p;
            }
            tries = tries + 1;
        }
        Vec3 { e: [0, 0, 0] }
    }

    /// Reflect `v` about the unit-scale normal `n`.
    pub fn reflect(v: &Vec3, n: &Vec3) -> (r: Vec3)
        requires
            v_bounded(*v, 0x10_0000),
            v_bounded(*n, 0x10_0000),
        ensures
            forall|i: int| 0 <= i < 3 ==> #[trigger] r.e[i] == reflect_axis(*v, *n, i),
    {
        let d: i128 = v.dot(n);
        proof {
            let m = 0x10_0000int;
            lemma_mul_abs_bound(v.e[0] as int, n.e[0] as int, m, m);
            lemma_mul_abs_bound(v.e[1] as int, n.e[1] as int, m, m);
            lemma_mul_abs_bound(v.e[2] as int, n.e[2] as int, m, m);
            lemma_mul_abs_bound(2 * v_dot(*v, *n), n.e[0] as int, 0x40_0000_0000_0001, m);
            lemma_mul_abs_bound(2 * v_dot(*v, *n), n.e[1] as int, 0x40_0000_0000_0001, m);
            lemma_mul_abs_bound(2 * v_dot(*v, *n), n.e[2] as int, 0x40_0000_0000_0001, m);
            lemma_div_floor_quotient_abs(2 * v_dot(*v, *n) * n.e[0],
                (ONE as int) * (ONE as int), 0x4000_0000_0000_0000_0000);
            lemma_div_floor_quotient_abs(2 * v_dot(*v, *n) * n.e[1],
                (ONE as int) * (ONE as int), 0x4000_0000_0000_0000_0000);
            lemma_div_floor_quotient_abs(2 * v_dot(*v, *n) * n.e[2],
                (ONE as int) * (ONE as int), 0x4000_0000_0000_0000_0000);
        }
        let s2: i128 = 4294967296;
        let r0: i64 = v.e[0] - floor_div_i128(2 * d * (n.e[0] as i128), s2) as i64;
        let r1: i64 = v.e[1] - floor_div_i128(2 * d * (n.e[1] as i128), s2) as i64;
        let r2: i64 = v.e[2] - floor_div_i128(2 * d * (n.e[2] as i128), s2) as i64;
        Vec3 { e: [r0, r1, r2] }
    }

    /// Refract `uv` about unit-scale normal `n` with relative index
    /// `etai_over_etat` (Snell's law; total internal reflection is the
    /// caller's concern, as in the surrounding scattering code).
    pub fn refract(uv: &Vec3, n: &Vec3, etai_over_etat: i64) -> (r: Vec3)
        requires
            v_bounded(*uv, 2 * ONE as int),
            v_bounded(*n, 2 * ONE as int),
            0 <= etai_over_etat <= 16 * ONE as int,
        ensures
            v_bounded(r, 0x100_0000_0000),
            forall|i: int| 0 <= i < 3 ==>
                #[trigger] r.e[i] == refract_axis(*uv, *n, etai_over_etat as int, i),
    {
        proof {
            let m = 2 * ONE as int;
            lemma_mul_abs_bound(uv.e[0] as int, n.e[0] as int, m, m);
            lemma_mul_abs_bound(uv.e[1] as int, n.e[1] as int, m, m);
            lemma_mul_abs_bound(uv.e[2] as int, n.e[2] as int, m, m);
        }
        let md0: i128 = uv.dot(n);
        let md: i128 = if md0 > 0x1_0000_0000_0000 {
            0x1_0000_0000_0000
        } else if md0 < -0x1_0000_0000_0000 {
            -0x1_0000_0000_0000
        } else {
            md0
        };
        let mut cos_theta: i64 = fx_i128_to_scalar(-md);
        if cos_theta > ONE {
            cos_theta = ONE;
        }
        if cos_theta < -0x10_0000 {
            cos_theta = -0x10_0000;
        }
        proof {
            assert(cos_theta == refract_cos(*uv, *n));
        }
        proof {
            lemma_mul_abs_bound(cos_theta as int, n.e[0] as int, 0x10_0000, 2 * ONE as int);
            lemma_mul_abs_bound(cos_theta as int, n.e[1] as int, 0x10_0000, 2 * ONE as int);
            lemma_mul_abs_bound(cos_theta as int, n.e[2] as int, 0x10_0000, 2 * ONE as int);
        }
        let c0: i64 = uv.e[0] + fx_mul(cos_theta, n.e[0]);
        let c1: i64 = uv.e[1] + fx_mul(cos_theta, n.e[1]);
        let c2: i64 = uv.e[2] + fx_mul(cos_theta, n.e[2]);
        proof {
            lemma_mul_abs_bound(etai_over_etat as int, c0 as int, 16 * ONE as int,
                0x80_0000);
            lemma_mul_abs_bound(etai_over_etat as int, c1 as int, 16 * ONE as int,
                0x80_0000);
            lemma_mul_abs_bound(etai_over_etat as int, c2 as int, 16 * ONE as int,
                0x80_0000);
        }
        let p0: i64 = fx_mul(etai_over_etat, c0);
        let p1: i64 = fx_mul(etai_over_etat, c1);
        let p2: i64 = fx_mul(etai_over_etat, c2);
        let perp = Vec3 { e: [p0, p1, p2] };
        proof {
            let eta = etai_over_etat as int;
            assert(p0 == refract_perp_axis(*uv, *n, eta, 0));
            assert(p1 == refract_perp_axis(*uv, *n, eta, 1));
            assert(p2 == refract_perp_axis(*uv, *n, eta, 2));
        }
        let plen: i128 = perp.length_squared();
        let one2: i128 = 4294967296;
        let diff: i128 = if one2 >= plen {
            one2 - plen
        } else {
            plen - one2
        };
        let sq = isqrt_u128(diff as u128);
        proof {
            lemma_isqrt_unique(diff as int, sq as int);
            assert(one2 as int == (ONE as int) * (ONE as int));
            assert(v_dot(perp, perp) == perp.e[0int] * perp.e[0int] + perp.e[1int]
                * perp.e[1int] + perp.e[2int] * perp.e[2int]);
        }
        let spar: i64 = if sq > 0x7fff_ffff {
            0x7fff_ffff
        } else {
            sq as i64
        };
        proof {
            lemma_mul_abs_bound(spar as int, n.e[0] as int, 0x8000_0000, 2 * ONE as int);
            lemma_mul_abs_bound(spar as int, n.e[1] as int, 0x8000_0000, 2 * ONE as int);
            lemma_mul_abs_bound(spar as int, n.e[2] as int, 0x8000_0000, 2 * ONE as int);
        }
        let q0: i64 = p0 - fx_mul(spar, n.e[0]);
        let q1: i64 = p1 - fx_mul(spar, n.e[1]);
        let q2: i64 = p2 - fx_mul(spar, n.e[2]);
        Vec3 { e: [q0, q1, q2] }
    }
}

/// Clamp an exact dot product (scale `ONE * ONE`) back to scalar scale.
fn fx_i128_to_scalar(d: i128) -> (r: i64)
    requires
        -0x1_0000_0000_0000_0000 <= d <= 0x1_0000_0000_0000_0000,
    ensures
        -0x8000_0000_0000 <= r <= 0x8000_0000_0000,
        r == scalar_of_dot(d as int),
{
    let q: i128 = if d >= 0 {
        d / (ONE as i128)
    } else {
        -((-d) / (ONE as i128))
    };
    if q > 0x8000_0000_0000 {
        0x8000_0000_0000
    } else if q < -0x8000_0000_0000 {
        -0x8000_0000_0000
    } else {
        q as i64
    }
}

/// Exec test whether a dot product is at least one (used to reject the
/// measure-zero degenerate normalization outcomes).
fn v_dot_positive(a: &Vec3, b: &Vec3) -> (r: bool)
    requires
        v_bounded(*a, 0x4000_0000_0000_0000),
        v_bounded(*b, 0x4000_0000_0000_0000),
    ensures
        r == (v_dot(*a, *b) >= 1),
{
    let d = a.dot(b);
    d >= 1
}


/// A dot product brought back to scalar scale with truncation and a
/// symmetric clamp (the executable conversion, mirrored).
pub open spec fn scalar_of_dot(d: int) -> int {
    let q = crate::fx::div_trunc(d, ONE as int);
    if q > 0x8000_0000_0000 {
        0x8000_0000_0000
    } else if q < -0x8000_0000_0000 {
        -0x8000_0000_0000
    } else {
        q
    }
}

/// The incoming cosine used by the refraction formula: the negated,
/// scalar-scale dot product of `uv` and `n`, clamped into the working
/// range with an upper cap of one.
pub open spec fn refract_cos(uv: Vec3, n: Vec3) -> int {
    let md0 = v_dot(uv, n);
    let md = if md0 > 0x1_0000_0000_0000 {
        0x1_0000_0000_0000
    } else if md0 < -0x1_0000_0000_0000 {
        -0x1_0000_0000_0000
    } else {
        md0
    };
    let c0 = scalar_of_dot(-md);
    let c1 = if c0 > ONE as int {
        ONE as int
    } else {
        c0
    };
    if c1 < -0x10_0000 {
        -0x10_0000
    } else {
        c1
    }
}

/// Component `i` of the perpendicular part of the refracted direction:
/// `eta * (uv + cos * n)`, with the fixed-point roundings of the
/// executable computation.
pub open spec fn refract_perp_axis(uv: Vec3, n: Vec3, eta: int, i: int) -> int {
    let c = refract_cos(uv, n);
    (eta * (uv.e[i] + (c * n.e[i]) / (ONE as int))) / (ONE as int)
}

/// Component `i` of the refracted direction: the perpendicular part minus
/// the parallel part along the normal.
pub open spec fn refract_axis(uv: Vec3, n: Vec3, eta: int, i: int) -> int {
    let p0 = refract_perp_axis(uv, n, eta, 0);
    let p1 = refract_perp_axis(uv, n, eta, 1);
    let p2 = refract_perp_axis(uv, n, eta, 2);
    let plen = p0 * p0 + p1 * p1 + p2 * p2;
    let one2 = (ONE as int) * (ONE as int);
    let diff = if one2 >= plen {
        one2 - plen
    } else {
        plen - one2
    };
    let sq = sqrt_floor(diff);
    let spar = if sq > 0x7fff_ffff {
        0x7fff_ffff
    } else {
        sq
    };
    refract_perp_axis(uv, n, eta, i) - (spar * n.e[i]) / (ONE as int)
}


/// Normalizing a vector whose length is between a quarter unit and one
/// unit yields a near-unit result: the squared length of the normalized
/// vector lies within a few ticks of one squared unit (each component is
/// floored once, and the floor errors cannot add up to more).
pub proof fn lemma_unit_norm_bracket(p0: int, p1: int, p2: int, r0: int, r1: int, r2: int,
    lv: int, n: int)
    requires
        n == p0 * p0 + p1 * p1 + p2 * p2,
        lv * lv <= n < (lv + 1) * (lv + 1),
        16384 <= lv <= 65536,
        r0 == div_floor(p0 * (ONE as int), lv),
        r1 == div_floor(p1 * (ONE as int), lv),
        r2 == div_floor(p2 * (ONE as int), lv),
    ensures
        (ONE - 4) * (ONE - 4) <= r0 * r0 + r1 * r1 + r2 * r2,
        r0 * r0 + r1 * r1 + r2 * r2 <= (ONE + 9) * (ONE + 9),
{
    let s1 = ONE as int;
    // Components are bounded by the length.
    assert(p0 * p0 <= n && p1 * p1 <= n && p2 * p2 <= n) by (nonlinear_arith)
        requires n == p0 * p0 + p1 * p1 + p2 * p2;
    lemma_component_le_len(p0, n, lv);
    lemma_component_le_len(p1, n, lv);
    lemma_component_le_len(p2, n, lv);
    // The flooring remainders.
    vstd::arithmetic::div_mod::lemma_fundamental_div_mod(p0 * s1, lv);
    vstd::arithmetic::div_mod::lemma_mod_bound(p0 * s1, lv);
    vstd::arithmetic::div_mod::lemma_fundamental_div_mod(p1 * s1, lv);
    vstd::arithmetic::div_mod::lemma_mod_bound(p1 * s1, lv);
    vstd::arithmetic::div_mod::lemma_fundamental_div_mod(p2 * s1, lv);
    vstd::arithmetic::div_mod::lemma_mod_bound(p2 * s1, lv);
    let e0 = (p0 * s1) % lv;
    let e1 = (p1 * s1) % lv;
    let e2 = (p2 * s1) % lv;
    assert(r0 * lv == p0 * s1 - e0);
    assert(r1 * lv == p1 * s1 - e1);
    assert(r2 * lv == p2 * s1 - e2);
    // Per-component squared identities and bounds.
    assert((r0 * lv) * (r0 * lv) == (r0 * r0) * (lv * lv)) by (nonlinear_arith);
    assert((r1 * lv) * (r1 * lv) == (r1 * r1) * (lv * lv)) by (nonlinear_arith);
    assert((r2 * lv) * (r2 * lv) == (r2 * r2) * (lv * lv)) by (nonlinear_arith);
    assert((p0 * s1 - e0) * (p0 * s1 - e0) == (p0 * p0) * (s1 * s1) - 2 * (p0 * s1) * e0
        + e0 * e0) by (nonlinear_arith);
    assert((p1 * s1 - e1) * (p1 * s1 - e1) == (p1 * p1) * (s1 * s1) - 2 * (p1 * s1) * e1
        + e1 * e1) by (nonlinear_arith);
    assert((p2 * s1 - e2) * (p2 * s1 - e2) == (p2 * p2) * (s1 * s1) - 2 * (p2 * s1) * e2
        + e2 * e2) by (nonlinear_arith);
    assert(-(2 * (s1 * (lv * lv))) <= 2 * (p0 * s1) * e0 <= 2 * (s1 * (lv * lv)))
        by (nonlinear_arith)
        requires -lv <= p0 <= lv, 0 <= e0 < lv, s1 == 65536, lv >= 1;
    assert(-(2 * (s1 * (lv * lv))) <= 2 * (p1 * s1) * e1 <= 2 * (s1 * (lv * lv)))
        by (nonlinear_arith)
        requires -lv <= p1 <= lv, 0 <= e1 < lv, s1 == 65536, lv >= 1;
    assert(-(2 * (s1 * (lv * lv))) <= 2 * (p2 * s1) * e2 <= 2 * (s1 * (lv * lv)))
        by (nonlinear_arith)
        requires -lv <= p2 <= lv, 0 <= e2 < lv, s1 == 65536, lv >= 1;
    assert(0 <= e0 * e0 <= lv * lv) by (nonlinear_arith) requires 0 <= e0 < lv;
    assert(0 <= e1 * e1 <= lv * lv) by (nonlinear_arith) requires 0 <= e1 < lv;
    assert(0 <= e2 * e2 <= lv * lv) by (nonlinear_arith) requires 0 <= e2 < lv;
    // Summed: the normalized squared length scaled by lv^2 sits within
    // six-and-a-bit flooring corrections of s1^2 * n.
    let total = (r0 * r0 + r1 * r1 + r2 * r2) * (lv * lv);
    assert(total == (r0 * r0) * (lv * lv) + (r1 * r1) * (lv * lv) + (r2 * r2) * (lv * lv))
        by (nonlinear_arith)
        requires total == (r0 * r0 + r1 * r1 + r2 * r2) * (lv * lv);
    assert((p0 * p0) * (s1 * s1) + (p1 * p1) * (s1 * s1) + (p2 * p2) * (s1 * s1)
        == n * (s1 * s1)) by (nonlinear_arith)
        requires n == p0 * p0 + p1 * p1 + p2 * p2;
    assert(total == (p0 * s1 - e0) * (p0 * s1 - e0) + (p1 * s1 - e1) * (p1 * s1 - e1)
        + (p2 * s1 - e2) * (p2 * s1 - e2));
    assert(n * (s1 * s1) - 6 * (s1 * (lv * lv)) <= total);
    assert(total <= n * (s1 * s1) + 6 * (s1 * (lv * lv)) + 3 * (lv * lv));
    // Numeric envelopes: with lv between a quarter unit and one unit the
    // corrections fit inside the stated bracket.
    assert((s1 - 4) * (s1 - 4) * (lv * lv) <= n * (s1 * s1) - 6 * (s1 * (lv * lv)))
        by (nonlinear_arith)
        requires
            lv * lv <= n,
            16384 <= lv <= 65536,
            s1 == 65536,
    ;
    assert(n * (s1 * s1) + 6 * (s1 * (lv * lv)) + 3 * (lv * lv)
        <= (s1 + 9) * (s1 + 9) * (lv * lv)) by (nonlinear_arith)
        requires
            n < (lv + 1) * (lv + 1),
            16384 <= lv <= 65536,
            s1 == 65536,
    ;
    assert((s1 - 4) * (s1 - 4) <= r0 * r0 + r1 * r1 + r2 * r2) by (nonlinear_arith)
        requires
            (s1 - 4) * (s1 - 4) * (lv * lv) <= total,
            total == (r0 * r0 + r1 * r1 + r2 * r2) * (lv * lv),
            lv >= 1,
            s1 == 65536,
    ;
    assert(r0 * r0 + r1 * r1 + r2 * r2 <= (s1 + 9) * (s1 + 9)) by (nonlinear_arith)
        requires
            total <= (s1 + 9) * (s1 + 9) * (lv * lv),
            total == (r0 * r0 + r1 * r1 + r2 * r2) * (lv * lv),
            lv >= 1,
            s1 == 65536,
    ;
}

/// Reflecting twice about the same normal returns the original vector,
/// scaled by the squared normal length at each application: over exact
/// integers, `reflect(reflect(v)) == (n . n)^2 * v` componentwise, so
/// with a unit normal the reflection is an involution.
pub proof fn lemma_reflect_involution(
    v0: int, v1: int, v2: int, n0: int, n1: int, n2: int,
)
    ensures
        ({
            let nn = n0 * n0 + n1 * n1 + n2 * n2;
            let d = v0 * n0 + v1 * n1 + v2 * n2;
            let w0 = v0 * nn - 2 * d * n0;
            let w1 = v1 * nn - 2 * d * n1;
            let w2 = v2 * nn - 2 * d * n2;
            let d2 = w0 * n0 + w1 * n1 + w2 * n2;
            w0 * nn - 2 * d2 * n0 == nn * nn * v0
                && w1 * nn - 2 * d2 * n1 == nn * nn * v1
                && w2 * nn - 2 * d2 * n2 == nn * nn * v2
        }),
{
    let nn = n0 * n0 + n1 * n1 + n2 * n2;
    let d = v0 * n0 + v1 * n1 + v2 * n2;
    let w0 = v0 * nn - 2 * d * n0;
    let w1 = v1 * nn - 2 * d * n1;
    let w2 = v2 * nn - 2 * d * n2;
    let d2 = w0 * n0 + w1 * n1 + w2 * n2;
    assert(w0 * n0 == (v0 * n0) * nn - 2 * d * (n0 * n0)) by (nonlinear_arith)
        requires w0 == v0 * nn - 2 * d * n0;
    assert(w1 * n1 == (v1 * n1) * nn - 2 * d * (n1 * n1)) by (nonlinear_arith)
        requires w1 == v1 * nn - 2 * d * n1;
    assert(w2 * n2 == (v2 * n2) * nn - 2 * d * (n2 * n2)) by (nonlinear_arith)
        requires w2 == v2 * nn - 2 * d * n2;
    assert((v0 * n0) * nn + (v1 * n1) * nn + (v2 * n2) * nn == d * nn) by (nonlinear_arith)
        requires d == v0 * n0 + v1 * n1 + v2 * n2;
    assert(2 * d * (n0 * n0) + 2 * d * (n1 * n1) + 2 * d * (n2 * n2) == 2 * d * nn)
        by (nonlinear_arith)
        requires nn == n0 * n0 + n1 * n1 + n2 * n2;
    assert(d2 == -(d * nn)) by (nonlinear_arith)
        requires
            d2 == w0 * n0 + w1 * n1 + w2 * n2,
            w0 * n0 == (v0 * n0) * nn - 2 * d * (n0 * n0),
            w1 * n1 == (v1 * n1) * nn - 2 * d * (n1 * n1),
            w2 * n2 == (v2 * n2) * nn - 2 * d * (n2 * n2),
            (v0 * n0) * nn + (v1 * n1) * nn + (v2 * n2) * nn == d * nn,
            2 * d * (n0 * n0) + 2 * d * (n1 * n1) + 2 * d * (n2 * n2) == 2 * d * nn,
    ;
    assert(w0 * nn - 2 * d2 * n0 == nn * nn * v0) by (nonlinear_arith)
        requires
            w0 == v0 * nn - 2 * d * n0,
            d2 == -(d * nn),
    ;
    assert(w1 * nn - 2 * d2 * n1 == nn * nn * v1) by (nonlinear_arith)
        requires
            w1 == v1 * nn - 2 * d * n1,
            d2 == -(d * nn),
    ;
    assert(w2 * nn - 2 * d2 * n2 == nn * nn * v2) by (nonlinear_arith)
        requires
            w2 == v2 * nn - 2 * d * n2,
            d2 == -(d * nn),
    ;
}

} // verus!
