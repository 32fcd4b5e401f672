//! Color emission: gamma correction and plain-text pixel lines.
//!
//! Gamma uses exponent `1/2.2`, which is exactly `5/11`: the emitted byte
//! is the largest `b <= 255` with `(b/256)^11 <= (x/ONE)^5`, an exact
//! integer characterization (no floating point involved).

use vstd::prelude::*;
use crate::fx::ONE;
use crate::vec3::Vec3;

verus! {

/// Colors are vectors, as in the rest of the codebase.
pub type Color = Vec3;

/// Fifth power.
pub open spec fn pow5(x: int) -> int {
    x * x * x * x * x
}

/// Eleventh power.
pub open spec fn pow11(x: int) -> int {
    x * x * x * x * x * x * x * x * x * x * x
}

/// The input channel clamped into `[0, ONE]`.
pub open spec fn clamp_unit(x: int) -> int {
    if x < 0 {
        0
    } else if x > ONE as int {
        ONE as int
    } else {
        x
    }
}

/// The gamma byte of a channel: the largest `b <= 255` such that
/// `(b/256)^11 <= (clamped x / ONE)^5`, i.e. `b^11 <= x^5 * 256`.
pub open spec fn is_gamma_byte(x: int, b: int) -> bool {
    &&& 0 <= b <= 255
    &&& pow11(b) <= pow5(clamp_unit(x)) * 256
    &&& (b < 255 ==> pow5(clamp_unit(x)) * 256 < pow11(b + 1))
}

/// Exec fifth power over `u128` for channel values up to `ONE`.
fn pow5_u128(x: u128) -> (r: u128)
    requires
        x <= 65536,
    ensures
        r == pow5(x as int),
{
    proof {
        assert(x * x <= 65536 * 65536) by (nonlinear_arith)
            requires x <= 65536;
        assert(x * x * x <= 65536 * 65536 * 65536) by (nonlinear_arith)
            requires x <= 65536;
        assert(x * x * x * x <= 65536 * 65536 * 65536 * 65536) by (nonlinear_arith)
            requires x <= 65536;
        assert(x * x * x * x * x <= 65536 * 65536 * 65536 * 65536 * 65536)
            by (nonlinear_arith)
            requires x <= 65536;
    }
    x * x * x * x * x
}

/// Exec eleventh power over `u128` for bytes up to 256.
fn pow11_u128(x: u128) -> (r: u128)
    requires
        x <= 256,
    ensures
        r == pow11(x as int),
{
    proof {
        assert(x * x <= 256 * 256) by (nonlinear_arith) requires x <= 256;
        assert(x * x * x <= 256 * 256 * 256) by (nonlinear_arith) requires x <= 256;
        assert(x * x * x * x <= 0x1_0000_0000) by (nonlinear_arith) requires x <= 256;
        assert(x * x * x * x * x <= 0x100_0000_0000) by (nonlinear_arith) requires x <= 256;
        assert(x * x * x * x * x * x <= 0x1_0000_0000_0000) by (nonlinear_arith)
            requires x <= 256;
        assert(x * x * x * x * x * x * x <= 0x100_0000_0000_0000) by (nonlinear_arith)
            requires x <= 256;
        assert(x * x * x * x * x * x * x * x <= 0x1_0000_0000_0000_0000) by (nonlinear_arith)
            requires x <= 256;
        assert(x * x * x * x * x * x * x * x * x <= 0x100_0000_0000_0000_0000)
            by (nonlinear_arith)
            requires x <= 256;
        assert(x * x * x * x * x * x * x * x * x * x <= 0x1_0000_0000_0000_0000_0000)
            by (nonlinear_arith)
            requires x <= 256;
        assert(x * x * x * x * x * x * x * x * x * x * x
            <= 0x100_0000_0000_0000_0000_0000) by (nonlinear_arith)
            requires x <= 256;
    }
    x * x * x * x * x * x * x * x * x * x * x
}

/// The gamma byte of one channel, by binary search on the (monotone)
/// eleventh power.
pub fn gamma_byte(x: i64) -> (b: u8)
    ensures
        is_gamma_byte(x as int, b as int),
{
    let xc: u128 = if x < 0 {
        0
    } else if x > ONE {
        ONE as u128
    } else {
        x as u128
    };
    let p5: u128 = pow5_u128(xc);
    proof {
        assert(pow5(xc as int) <= pow5(65536int)) by (nonlinear_arith)
            requires 0 <= xc <= 65536;
        assert(pow5(65536int) == 0x1_0000_0000_0000_0000_0000int);
    }
    let target: u128 = p5 * 256;
    let mut lo: u128 = 0;
    let mut hi: u128 = 256;
    proof {
        assert(pow11(0int) == 0);
        assert(pow5(65536int) * 256 == pow11(256int));
        assert(pow5(clamp_unit(x as int)) * 256 <= pow5(65536int) * 256) by (nonlinear_arith)
            requires 0 <= clamp_unit(x as int) <= 65536;
    }
    while lo + 1 < hi
        invariant
            lo < hi <= 256,
            pow11(lo as int) <= pow5(clamp_unit(x as int)) * 256,
            target == pow5(clamp_unit(x as int)) * 256,
            pow5(clamp_unit(x as int)) * 256 < pow11(hi as int) || hi == 256,
            hi == 256 ==> pow5(clamp_unit(x as int)) * 256 <= pow11(256int),
        decreases hi - lo,
    {
        let mid: u128 = lo + (hi - lo) / 2;
        let p = pow11_u128(mid);
        if p <= target {
            lo = mid;
        } else {
            hi = mid;
        }
    }
    proof {
        assert(lo == hi - 1);
    }
    lo as u8
}

/// Gamma correction of a color: each channel is replaced by its gamma
/// byte at the fixed-point scale (`byte * 256`).
pub fn linear_to_gamma(color: &Color) -> (r: Color)
    ensures
        forall|i: int| 0 <= i < 3 ==> is_gamma_byte(color.e[i] as int,
            (#[trigger] r.e[i]) / 256),
        forall|i: int| 0 <= i < 3 ==> 0 <= #[trigger] r.e[i] <= ONE as int
            && r.e[i] % 256 == 0,
{
    let b0 = gamma_byte(color.e[0]);
    let b1 = gamma_byte(color.e[1]);
    let b2 = gamma_byte(color.e[2]);
    let r = Vec3 { e: [(b0 as i64) * 256, (b1 as i64) * 256, (b2 as i64) * 256] };
    proof {
        assert(r.e[0] / 256 == b0 as int);
        assert(r.e[1] / 256 == b1 as int);
        assert(r.e[2] / 256 == b2 as int);
    }
    r
}

/// ASCII decimal digits of a byte value.
pub open spec fn dec3(n: int) -> Seq<u8> {
    if n < 10 {
        seq![(48 + n) as u8]
    } else if n < 100 {
        seq![(48 + n / 10) as u8, (48 + n % 10) as u8]
    } else {
        seq![(48 + n / 100) as u8, (48 + (n / 10) % 10) as u8, (48 + n % 10) as u8]
    }
}

/// The emitted line for one pixel: three decimal bytes, space separated,
/// newline terminated.
pub open spec fn color_line(r: int, g: int, b: int) -> Seq<u8> {
    dec3(r) + seq![32u8] + dec3(g) + seq![32u8] + dec3(b) + seq![10u8]
}

/// Append the decimal digits of a byte value.
fn push_dec3(out: &mut Vec<u8>, n: u8)
    ensures
        final(out)@ == old(out)@ + dec3(n as int),
{
    let ghost before = out@;
    if n < 10 {
        out.push(48 + n);
        proof {
            assert(out@ =~= before + dec3(n as int));
        }
    } else if n < 100 {
        out.push(48 + n / 10);
        out.push(48 + n % 10);
        proof {
            assert(out@ =~= before + dec3(n as int));
        }
    } else {
        out.push(48 + n / 100);
        out.push(48 + (n / 10) % 10);
        out.push(48 + n % 10);
        proof {
            assert(out@ =~= before + dec3(n as int));
        }
    }
}

/// Produce the plain-text line for one pixel: gamma-correct each channel
/// and emit its byte in decimal.
pub fn write_color(pixel_color: &Color) -> (line: Vec<u8>)
    ensures
        exists|r: int, g: int, b: int|
            is_gamma_byte(pixel_color.e[0] as int, r) && is_gamma_byte(
                pixel_color.e[1] as int, g) && is_gamma_byte(pixel_color.e[2] as int, b)
                && line@ == #[trigger] color_line(r, g, b),
{
    let rb = gamma_byte(pixel_color.e[0]);
    let gb = gamma_byte(pixel_color.e[1]);
    let bb = gamma_byte(pixel_color.e[2]);
    let mut out: Vec<u8> = Vec::new();
    push_dec3(&mut out, rb);
    out.push(32);
    push_dec3(&mut out, gb);
    out.push(32);
    push_dec3(&mut out, bb);
    out.push(10);
    proof {
        assert(out@ =~= color_line(rb as int, gb as int, bb as int));
    }
    out
}

} // verus!
