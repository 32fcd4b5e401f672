//! Fixed-point sine and cosine for the pose decorators and the camera.
//!
//! The angle is given in degrees at the fixed-point scale. Results are
//! clamped into `[-ONE, ONE]`; right-angle multiples are exact, and the
//! interior of each quadrant uses a cubic approximation of the sine.

use vstd::prelude::*;
use crate::fx::{ONE, fx_mul, fx_div, div_floor, div_trunc, rem_trunc};

verus! {

/// Degrees-to-radians factor at the fixed-point scale
/// (`pi / 180 * ONE`, rounded).
pub const RAD_PER_DEG: i64 = 1144;

/// Quarter turn in fixed-point degrees.
pub const QUARTER_TURN: i64 = 5898240;

/// The quadrant sine, mirrored from the executable polynomial: zero and
/// one at the quadrant ends, the clamped odd polynomial in between.
pub open spec fn sin_q_spec(x: int) -> int {
    if x == 0 {
        0
    } else if x == QUARTER_TURN as int {
        ONE as int
    } else {
        let s1 = ONE as int;
        let rad0 = (x * (RAD_PER_DEG as int)) / s1;
        let rad = if rad0 < 0 {
            0
        } else if rad0 > 103000 {
            103000
        } else {
            rad0
        };
        let r2 = (rad * rad) / s1;
        let r3 = (r2 * rad) / s1;
        let r5 = (r3 * r2) / s1;
        let sv = rad - div_trunc(r3, 6) + div_trunc(r5, 120);
        if sv < 0 {
            0
        } else if sv > s1 {
            s1
        } else {
            sv
        }
    }
}

/// The full-circle reduction: the angle brought into `[0, 360)` degrees
/// with the machine remainder.
pub open spec fn reduced_angle(angle: int) -> int {
    let full = 4 * QUARTER_TURN as int;
    let a0 = rem_trunc(angle, full);
    if a0 < 0 {
        a0 + full
    } else {
        a0
    }
}

/// The sine of an angle in fixed-point degrees, by quadrant.
pub open spec fn sin_deg_spec(angle: int) -> int {
    let q = QUARTER_TURN as int;
    let a = reduced_angle(angle);
    if a < q {
        sin_q_spec(a)
    } else if a < 2 * q {
        sin_q_spec(q - (a - q))
    } else if a < 3 * q {
        -sin_q_spec(a - 2 * q)
    } else {
        -sin_q_spec(q - (a - 3 * q))
    }
}

/// The cosine of an angle in fixed-point degrees, by quadrant.
pub open spec fn cos_deg_spec(angle: int) -> int {
    let q = QUARTER_TURN as int;
    let a = reduced_angle(angle);
    if a < q {
        sin_q_spec(q - a)
    } else if a < 2 * q {
        -sin_q_spec(a - q)
    } else if a < 3 * q {
        -sin_q_spec(q - (a - 2 * q))
    } else {
        sin_q_spec(a - 3 * q)
    }
}

/// Sine on one quadrant: `x` in fixed-point degrees within `[0, 90]`.
/// Returns a value in `[0, ONE]`, exactly 0 at 0 and exactly `ONE` at 90.
fn sin_quadrant(x: i64) -> (r: i64)
    requires
        0 <= x <= QUARTER_TURN,
    ensures
        0 <= r <= ONE,
        x == 0 ==> r == 0,
        x == QUARTER_TURN ==> r == ONE,
        r == sin_q_spec(x as int),
{
    if x == 0 {
        return 0;
    }
    if x == QUARTER_TURN {
        return ONE;
    }
    // Radians, then the polynomial `s - s^3/6 + s^5/120`.
    proof {
        crate::fx::lemma_mul_abs_bound(x as int, RAD_PER_DEG as int, QUARTER_TURN as int,
            2048);
    }
    let rad0: i64 = fx_mul(x, RAD_PER_DEG);
    let rad: i64 = if rad0 < 0 {
        0
    } else if rad0 > 103000 {
        103000
    } else {
        rad0
    };
    proof {
        crate::fx::lemma_mul_abs_bound(rad as int, rad as int, 103000, 103000);
    }
    let r2: i64 = fx_mul(rad, rad);
    proof {
        crate::fx::lemma_mul_abs_bound(r2 as int, rad as int, 161900, 103000);
    }
    let r3: i64 = fx_mul(r2, rad);
    proof {
        crate::fx::lemma_mul_abs_bound(r3 as int, r2 as int, 254500, 161900);
    }
    let r5: i64 = fx_mul(r3, r2);
    let s: i64 = rad - r3 / 6 + r5 / 120;
    if s < 0 {
        0
    } else if s > ONE {
        ONE
    } else {
        s
    }
}

/// Sine and cosine of an angle in fixed-point degrees. Both results are
/// in `[-ONE, ONE]`; multiples of a quarter turn are exact.
pub fn sin_cos_deg(angle: i64) -> (r: (i64, i64))
    requires
        -0x4000_0000_0000 <= angle <= 0x4000_0000_0000,
    ensures
        -(ONE as int) <= r.0 <= ONE as int,
        -(ONE as int) <= r.1 <= ONE as int,
        angle == 0 ==> r.0 == 0 && r.1 == ONE,
        angle == QUARTER_TURN ==> r.0 == ONE && r.1 == 0,
        r.0 == sin_deg_spec(angle as int),
        r.1 == cos_deg_spec(angle as int),
{
    // Reduce into [0, 360) degrees.
    let full: i64 = 4 * QUARTER_TURN;
    let mut a: i64 = angle - (angle / full) * full;
    proof {
        assert(a == rem_trunc(angle as int, full as int));
    }
    if a < 0 {
        a = a + full;
    }
    proof {
        assert(a == reduced_angle(angle as int));
    }
    // Quadrant split.
    if a < QUARTER_TURN {
        let s = sin_quadrant(a);
        let c = sin_quadrant(QUARTER_TURN - a);
        (s, c)
    } else if a < 2 * QUARTER_TURN {
        let b = a - QUARTER_TURN;
        let s = sin_quadrant(QUARTER_TURN - b);
        let c = sin_quadrant(b);
        (s, -c)
    } else if a < 3 * QUARTER_TURN {
        let b = a - 2 * QUARTER_TURN;
        let s = sin_quadrant(b);
        let c = sin_quadrant(QUARTER_TURN - b);
        (-s, -c)
    } else {
        let b = a - 3 * QUARTER_TURN;
        let s = sin_quadrant(QUARTER_TURN - b);
        let c = sin_quadrant(b);
        (-s, c)
    }
}

} // verus!
