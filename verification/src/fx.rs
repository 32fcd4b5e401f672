//! Fixed-point scalar arithmetic.
//!
//! Every geometric quantity in this library is a binary fixed-point number:
//! an `i64` whose value is the stored integer divided by `ONE` (2^16).
//! All operations are exact integer computations (products are taken in
//! `i128`), so every function here carries an exact contract over `int`.

use vstd::prelude::*;

verus! {

/// The fixed-point scale: stored values represent `stored / ONE`.
pub const ONE: i64 = 65536;

/// Sentinel magnitude standing in for an unbounded interval endpoint (2^62).
/// It exceeds every representable coordinate or ray parameter, so ordinary
/// `min`/`max` arithmetic treats it the way IEEE infinities would be treated.
pub const INF: i64 = 4611686018427387904;

/// Floor division as a spec-level function, defined for any nonzero divisor.
/// (The spec operator `/` is Euclidean division, which rounds toward negative
/// infinity only for a positive divisor; this normalizes the divisor's sign.)
pub open spec fn div_floor(a: int, b: int) -> int {
    if b > 0 {
        a / b
    } else {
        (-a) / (-b)
    }
}

/// Truncating division (toward zero), as the machine division operator
/// computes it, defined for positive divisors.
pub open spec fn div_trunc(a: int, b: int) -> int {
    if a >= 0 {
        a / b
    } else {
        -((-a) / b)
    }
}

/// Truncating remainder (sign of the dividend), as the machine remainder
/// operator computes it, defined for positive divisors.
pub open spec fn rem_trunc(a: int, b: int) -> int {
    a - div_trunc(a, b) * b
}

/// Euclidean (floor, for a positive divisor) division on `i128`.
pub fn floor_div_i128(a: i128, b: i128) -> (q: i128)
    requires
        1 <= b,
        a != i128::MIN,
    ensures
        q == (a as int) / (b as int),
{
    if a >= 0 {
        a / b
    } else {
        let m: i128 = -a;
        let d: i128 = m / b;
        proof {
            vstd::arithmetic::div_mod::lemma_fundamental_div_mod(m as int, b as int);
            vstd::arithmetic::div_mod::lemma_mod_bound(m as int, b as int);
            vstd::arithmetic::div_mod::lemma_div_pos_is_pos(m as int, b as int);
            assert(d * b <= m) by (nonlinear_arith)
                requires
                    b * d + (m as int) % (b as int) == m,
                    0 <= (m as int) % (b as int),
            ;
            vstd::arithmetic::div_mod::lemma_fundamental_div_mod(a as int, b as int);
            vstd::arithmetic::div_mod::lemma_mod_bound(a as int, b as int);
            let q0 = (a as int) / (b as int);
            let r0 = (a as int) % (b as int);
            let r2 = (m as int) % (b as int);
            if r2 == 0 {
                assert(q0 == -d) by (nonlinear_arith)
                    requires
                        (b as int) * q0 + r0 == a,
                        (b as int) * (d as int) == m,
                        m == -(a as int),
                        0 <= r0 < b,
                        1 <= b,
                ;
            } else {
                assert(q0 == -d - 1) by (nonlinear_arith)
                    requires
                        (b as int) * q0 + r0 == a,
                        (b as int) * (d as int) + r2 == m,
                        m == -(a as int),
                        0 <= r0 < b,
                        0 < r2 < b,
                        1 <= b,
                ;
            }
        }
        if d * b == m {
            -d
        } else {
            -d - 1
        }
    }
}

/// Integer square root: the unique `r` with `r * r <= n < (r + 1) * (r + 1)`.
pub fn isqrt_u128(n: u128) -> (r: u128)
    ensures
        r * r <= n < (r + 1) * (r + 1),
{
    let mut lo: u128 = 0;
    let mut hi: u128 = 18446744073709551616u128;
    while lo + 1 < hi
        invariant
            lo < hi <= 18446744073709551616u128,
            lo * lo <= n,
            n < hi * hi,
        decreases hi - lo,
    {
        let mid: u128 = lo + (hi - lo) / 2;
        proof {
            assert(mid * mid <= 18446744073709551615u128 * 18446744073709551615u128)
                by (nonlinear_arith)
                requires mid <= 18446744073709551615u128;
        }
        if mid * mid <= n {
            lo = mid;
        } else {
            proof {
                assert(n < mid * mid);
            }
            hi = mid;
        }
    }
    lo
}

/// Fixed-point product: `(a * b) / ONE`, rounded toward negative infinity.
pub fn fx_mul(a: i64, b: i64) -> (r: i64)
    requires
        i64::MIN <= a * b / (ONE as int) <= i64::MAX,
    ensures
        r == a * b / (ONE as int),
{
    let p: i128 = (a as i128) * (b as i128);
    let q: i128 = floor_div_i128(p, ONE as i128);
    q as i64
}

/// Fixed-point quotient: `(a * ONE) / b`, rounded toward negative infinity.
/// The divisor's sign is arbitrary but it must be nonzero.
pub fn fx_div(a: i64, b: i64) -> (r: i64)
    requires
        b != 0,
        i64::MIN <= div_floor(a * (ONE as int), b as int) <= i64::MAX,
    ensures
        r == div_floor(a * (ONE as int), b as int),
{
    let num: i128 = (a as i128) * (ONE as i128);
    let q: i128 = if b > 0 {
        floor_div_i128(num, b as i128)
    } else {
        floor_div_i128(-num, -(b as i128))
    };
    q as i64
}

/// Magnitude bound for a product from magnitude bounds on the factors.
pub proof fn lemma_mul_abs_bound(a: int, b: int, am: int, bm: int)
    requires
        -am <= a <= am,
        -bm <= b <= bm,
        0 <= am,
        0 <= bm,
    ensures
        -(am * bm) <= a * b <= am * bm,
{
    assert(-(am * bm) <= a * b <= am * bm) by (nonlinear_arith)
        requires
            -am <= a <= am,
            -bm <= b <= bm,
            0 <= am,
            0 <= bm,
    ;
}

/// Dividing by a nonzero integer cannot grow the magnitude.
pub proof fn lemma_div_floor_abs(a: int, b: int, am: int)
    requires
        b != 0,
        -am <= a <= am,
        0 <= am,
    ensures
        -am - 1 <= div_floor(a, b) <= am,
{
    if b > 0 {
        vstd::arithmetic::div_mod::lemma_fundamental_div_mod(a, b);
        vstd::arithmetic::div_mod::lemma_mod_bound(a, b);
        assert(-am - 1 <= a / b <= am) by (nonlinear_arith)
            requires
                b * (a / b) + a % b == a,
                0 <= a % b < b,
                b >= 1,
                -am <= a <= am,
                0 <= am,
        ;
    } else {
        vstd::arithmetic::div_mod::lemma_fundamental_div_mod(-a, -b);
        vstd::arithmetic::div_mod::lemma_mod_bound(-a, -b);
        assert(-am - 1 <= (-a) / (-b) <= am) by (nonlinear_arith)
            requires
                (-b) * ((-a) / (-b)) + (-a) % (-b) == -a,
                0 <= (-a) % (-b) < -b,
                -b >= 1,
                -am <= a <= am,
                0 <= am,
        ;
    }
}

/// Quotient magnitude bound: dividing a bounded value by `b >= 1` gives a
/// quotient within the divided bound (give or take the floor step).
pub proof fn lemma_div_floor_quotient_abs(a: int, b: int, am: int)
    requires
        b >= 1,
        -am <= a <= am,
        0 <= am,
    ensures
        -(am / b) - 1 <= div_floor(a, b) <= am / b,
{
    vstd::arithmetic::div_mod::lemma_div_is_ordered(a, am, b);
    vstd::arithmetic::div_mod::lemma_div_is_ordered(-am, a, b);
    vstd::arithmetic::div_mod::lemma_fundamental_div_mod(-am, b);
    vstd::arithmetic::div_mod::lemma_mod_bound(-am, b);
    vstd::arithmetic::div_mod::lemma_fundamental_div_mod(am, b);
    vstd::arithmetic::div_mod::lemma_mod_bound(am, b);
    assert((-am) / b >= -(am / b) - 1) by (nonlinear_arith)
        requires
            b * ((-am) / b) + (-am) % b == -am,
            b * (am / b) + am % b == am,
            0 <= (-am) % b < b,
            0 <= am % b < b,
            b >= 1,
    ;
}

/// Number of doublings that bring `v` up into the top octave
/// `[ONE/2, ONE)`.
pub open spec fn ln_octaves(v: int) -> int
    decreases 65536 - v,
    when 1 <= v < 65536
{
    if v >= 32768 {
        0
    } else {
        1 + ln_octaves(2 * v)
    }
}

/// The value `v` brought up into the top octave by doubling.
pub open spec fn ln_scaled(v: int) -> int
    decreases 65536 - v,
    when 1 <= v < 65536
{
    if v >= 32768 {
        v
    } else {
        ln_scaled(2 * v)
    }
}

/// The logarithm approximation as a value: octave count times `ln 2`
/// plus the linear remainder.
pub open spec fn neg_ln_spec(u: int) -> int {
    ln_octaves(u) * (LN2_FX as int) + (ONE as int) - ln_scaled(u)
}

/// Natural-logarithm constant: `ln 2` at the fixed-point scale.
pub const LN2_FX: i64 = 45426;

/// A nonnegative approximation of `-ln(u / ONE)` for `0 < u < ONE`:
/// the octave count times `ln 2`, plus a linear remainder (`-ln(v)` is
/// replaced by `1 - v` on `[1/2, 1)`). Monotone draws from it keep the
/// free-flight distances of the participating medium qualitatively
/// exponential.
pub fn neg_ln_fx(u: i64) -> (r: i64)
    requires
        1 <= u < ONE,
    ensures
        0 <= r <= 16 * (LN2_FX as int) + ONE as int,
        r == neg_ln_spec(u as int),
{
    let mut v: i64 = u;
    let mut k: i64 = 0;
    proof {
        vstd::arithmetic::power2::lemma2_to64();
        assert(u * vstd::arithmetic::power2::pow2(0) == u) by (nonlinear_arith)
            requires vstd::arithmetic::power2::pow2(0) == 1;
    }
    while v < 32768
        invariant
            1 <= u < ONE,
            1 <= v < ONE,
            0 <= k <= 15,
            v == u * vstd::arithmetic::power2::pow2(k as nat),
            ln_octaves(u as int) == k + ln_octaves(v as int),
            ln_scaled(u as int) == ln_scaled(v as int),
        decreases ONE - v,
    {
        proof {
            vstd::arithmetic::power2::lemma2_to64();
            let pw = vstd::arithmetic::power2::pow2(k as nat);
            assert(v >= pw) by (nonlinear_arith)
                requires
                    v == u * pw,
                    u >= 1,
                    pw >= 1,
            ;
            if k == 15 {
                assert(v >= 32768);
            }
            assert(vstd::arithmetic::power2::pow2((k + 1) as nat) == 2 * pw) by {
                vstd::arithmetic::power2::lemma_pow2_unfold((k + 1) as nat);
            }
            assert(2 * (u * pw) == u * (2 * pw)) by (nonlinear_arith);
            assert(ln_octaves(v as int) == 1 + ln_octaves(2 * v as int));
            assert(ln_scaled(v as int) == ln_scaled(2 * v as int));
        }
        v = v * 2;
        k = k + 1;
    }
    proof {
        assert(ln_octaves(v as int) == 0);
        assert(ln_scaled(v as int) == v);
    }
    k * LN2_FX + (ONE - v)
}

} // verus!
