//! Perlin-style gradient noise over fixed-point coordinates.

use vstd::prelude::*;
use crate::fx::{ONE, fx_mul};
use crate::vec3::{Vec3, Point3, v_bounded};

verus! {

/// Gradient table plus three axis permutations. The tables always hold
/// exactly 256 entries; gradient vectors stay within one unit.
#[derive(Clone, Debug)]
pub struct Perlin {
    pub randvec: Vec<Vec3>,
    pub perm_x: Vec<u8>,
    pub perm_y: Vec<u8>,
    pub perm_z: Vec<u8>,
}

pub open spec fn perlin_wf(p: Perlin) -> bool {
    &&& p.randvec@.len() == 256
    &&& p.perm_x@.len() == 256
    &&& p.perm_y@.len() == 256
    &&& p.perm_z@.len() == 256
    &&& forall|i: int| 0 <= i < 256 ==> v_bounded(#[trigger] p.randvec@[i], ONE as int)
}

/// Fill a table with the identity permutation and shuffle it with draws
/// from the process generator.
fn perlin_generate_perm() -> (r: Vec<u8>)
    ensures
        r@.len() == 256,
{
    let mut p: Vec<u8> = Vec::new();
    let mut i: usize = 0;
    while i < 256
        invariant
            p@.len() == i,
            i <= 256,
        decreases 256 - i,
    {
        p.push(i as u8);
        i = i + 1;
    }
    shuffle_in_place(&mut p);
    p
}

/// Fisher-Yates shuffle driven by the process generator.
fn shuffle_in_place(p: &mut Vec<u8>)
    requires
        old(p)@.len() == 256,
    ensures
        final(p)@.len() == 256,
        final(p)@.to_multiset() == old(p)@.to_multiset(),
{
    let mut i: usize = 256;
    while i > 1
        invariant
            p@.len() == 256,
            i <= 256,
            p@.to_multiset() == old(p)@.to_multiset(),
        decreases i,
    {
        i = i - 1;
        let draw = crate::rng::random_u64();
        let target: usize = (draw % ((i as u64) + 1)) as usize;
        proof {
            broadcast use vstd::seq_lib::group_to_multiset_ensures;
            let sq = p@;
            let va = sq[i as int];
            let vb = sq[target as int];
            vstd::seq_lib::lemma_update_is_remove_insert(sq, i as int, vb);
            vstd::seq_lib::lemma_update_is_remove_insert(sq.update(i as int, vb),
                target as int, va);
            assert(sq.update(i as int, vb)[target as int] == if target == i {
                vb
            } else {
                sq[target as int]
            });
            assert(sq.contains(va)) by {
                assert(sq[i as int] == va);
            }
            assert(sq.to_multiset().count(va) > 0);
            if target != i {
                assert(sq.update(i as int, vb).update(target as int, va).to_multiset()
                    =~= sq.to_multiset());
            } else {
                assert(sq.update(i as int, vb).update(target as int, va) =~= sq);
            }
        }
        let a = p[i];
        let b = p[target];
        p.set(i, b);
        p.set(target, a);
    }
}

impl Perlin {
    pub fn new() -> (r: Perlin)
        ensures
            perlin_wf(r),
    {
        let mut randvec: Vec<Vec3> = Vec::new();
        let mut i: usize = 0;
        while i < 256
            invariant
                randvec@.len() == i,
                i <= 256,
                forall|j: int| 0 <= j < i ==> v_bounded(#[trigger] randvec@[j], ONE as int),
            decreases 256 - i,
        {
            let v = Vec3::random_unit_vector();
            randvec.push(v);
            i = i + 1;
        }
        Perlin {
            randvec,
            perm_x: perlin_generate_perm(),
            perm_y: perlin_generate_perm(),
            perm_z: perlin_generate_perm(),
        }
    }

    /// Gradient noise at `p`; bounded by a few units.
    pub fn noise(&self, p: &Point3) -> (r: i64)
        requires
            perlin_wf(*self),
            v_bounded(*p, 0x4000_0000),
        ensures
            -8 * (ONE as int) <= r <= 8 * (ONE as int),
    {
        proof {
            crate::fx::lemma_div_floor_quotient_abs(p.e[0] as int, ONE as int, 0x4000_0000);
            crate::fx::lemma_div_floor_quotient_abs(p.e[1] as int, ONE as int, 0x4000_0000);
            crate::fx::lemma_div_floor_quotient_abs(p.e[2] as int, ONE as int, 0x4000_0000);
        }
        let i0: i64 = clamp_lattice(crate::fx::floor_div_i128(p.e[0] as i128,
            ONE as i128));
        let j0: i64 = clamp_lattice(crate::fx::floor_div_i128(p.e[1] as i128,
            ONE as i128));
        let k0: i64 = clamp_lattice(crate::fx::floor_div_i128(p.e[2] as i128,
            ONE as i128));
        let u: i64 = p.e[0] - i0 * ONE;
        let v: i64 = p.e[1] - j0 * ONE;
        let w: i64 = p.e[2] - k0 * ONE;
        let uc = clamp_unit_range(u);
        let vc = clamp_unit_range(v);
        let wc = clamp_unit_range(w);
        let uu = hermite(uc);
        let vv = hermite(vc);
        let ww = hermite(wc);
        let mut accum: i64 = 0;
        let mut di: usize = 0;
        while di < 2
            invariant
                perlin_wf(*self),
                di <= 2,
                -8 * (ONE as int) <= accum <= 8 * (ONE as int),
                0 <= uu <= ONE && 0 <= vv <= ONE && 0 <= ww <= ONE,
                0 <= uc <= ONE && 0 <= vc <= ONE && 0 <= wc <= ONE,
                -20000 <= i0 <= 20000 && -20000 <= j0 <= 20000 && -20000 <= k0 <= 20000,
            decreases 2 - di,
        {
            let mut dj: usize = 0;
            while dj < 2
                invariant
                    perlin_wf(*self),
                    dj <= 2,
                    di < 2,
                    -8 * (ONE as int) <= accum <= 8 * (ONE as int),
                    0 <= uu <= ONE && 0 <= vv <= ONE && 0 <= ww <= ONE,
                    0 <= uc <= ONE && 0 <= vc <= ONE && 0 <= wc <= ONE,
                    -20000 <= i0 <= 20000 && -20000 <= j0 <= 20000 && -20000 <= k0 <= 20000,
                decreases 2 - dj,
            {
                let mut dk: usize = 0;
                while dk < 2
                    invariant
                        perlin_wf(*self),
                        dk <= 2,
                        di < 2,
                        dj < 2,
                        -8 * (ONE as int) <= accum <= 8 * (ONE as int),
                        0 <= uu <= ONE && 0 <= vv <= ONE && 0 <= ww <= ONE,
                        0 <= uc <= ONE && 0 <= vc <= ONE && 0 <= wc <= ONE,
                        -20000 <= i0 <= 20000 && -20000 <= j0 <= 20000 && -20000 <= k0
                            <= 20000,
                    decreases 2 - dk,
                {
                    let ix = index_mod_256(i0 + di as i64);
                    let iy = index_mod_256(j0 + dj as i64);
                    let iz = index_mod_256(k0 + dk as i64);
                    let g = self.perm_x[ix] ^ self.perm_y[iy] ^ self.perm_z[iz];
                    let grad = self.randvec[g as usize];
                    let sx: i64 = if di == 1 { uu } else { ONE - uu };
                    let sy: i64 = if dj == 1 { vv } else { ONE - vv };
                    let sz: i64 = if dk == 1 { ww } else { ONE - ww };
                    let wx: i64 = if di == 1 { uc - ONE } else { uc };
                    let wy: i64 = if dj == 1 { vc - ONE } else { vc };
                    let wz: i64 = if dk == 1 { wc - ONE } else { wc };
                    proof {
                        crate::fx::lemma_mul_abs_bound(grad.e[0] as int, wx as int,
                            ONE as int, ONE as int);
                        crate::fx::lemma_mul_abs_bound(grad.e[1] as int, wy as int,
                            ONE as int, ONE as int);
                        crate::fx::lemma_mul_abs_bound(grad.e[2] as int, wz as int,
                            ONE as int, ONE as int);
                    }
                    let dotw: i64 = fx_mul(grad.e[0], wx) + fx_mul(grad.e[1], wy)
                        + fx_mul(grad.e[2], wz);
                    proof {
                        crate::fx::lemma_mul_abs_bound(sx as int, sy as int, ONE as int,
                            ONE as int);
                    }
                    let sxy: i64 = fx_mul(sx, sy);
                    proof {
                        crate::fx::lemma_mul_abs_bound(sxy as int, sz as int, ONE as int + 1,
                            ONE as int);
                    }
                    let sxyz: i64 = fx_mul(sxy, sz);
                    proof {
                        crate::fx::lemma_mul_abs_bound(sxyz as int, dotw as int,
                            2 * ONE as int, 4 * ONE as int);
                    }
                    let term: i64 = fx_mul(sxyz, dotw);
                    let mut next: i64 = accum + term;
                    if next > 8 * ONE {
                        next = 8 * ONE;
                    }
                    if next < -8 * ONE {
                        next = -8 * ONE;
                    }
                    accum = next;
                    dk = dk + 1;
                }
                dj = dj + 1;
            }
            di = di + 1;
        }
        accum
    }

    /// Sum of scaled noise octaves; always nonnegative.
    pub fn turbulence(&self, p: &Point3, depth: u32) -> (r: i64)
        requires
            perlin_wf(*self),
            v_bounded(*p, 0x4000_0000),
        ensures
            0 <= r <= 64 * (ONE as int),
    {
        let mut accum: i64 = 0;
        let mut temp = Vec3 { e: [p.e[0], p.e[1], p.e[2]] };
        let mut weight: i64 = ONE;
        let mut d: u32 = 0;
        let dd: u32 = if depth > 16 { 16 } else { depth };
        while d < dd
            invariant
                perlin_wf(*self),
                dd <= 16,
                v_bounded(temp, 0x4000_0000),
                0 <= weight <= ONE,
                -64 * (ONE as int) <= accum <= 64 * (ONE as int),
            decreases dd - d,
        {
            let n = self.noise(&temp);
            proof {
                crate::fx::lemma_mul_abs_bound(weight as int, n as int, ONE as int,
                    8 * ONE as int);
            }
            let term = fx_mul(weight, n);
            let mut next = accum + term;
            if next > 64 * ONE {
                next = 64 * ONE;
            }
            if next < -64 * ONE {
                next = -64 * ONE;
            }
            accum = next;
            weight = weight / 2;
            let t0 = clamp_coord(temp.e[0] * 2);
            let t1 = clamp_coord(temp.e[1] * 2);
            let t2 = clamp_coord(temp.e[2] * 2);
            temp = Vec3 { e: [t0, t1, t2] };
            d = d + 1;
        }
        if accum >= 0 {
            accum
        } else {
            -accum
        }
    }
}

/// Clamp a residue into `[0, ONE]` (it already is, up to the division
/// convention at the boundaries).
fn clamp_unit_range(x: i64) -> (r: i64)
    ensures
        0 <= r <= ONE,
{
    if x < 0 {
        0
    } else if x > ONE {
        ONE
    } else {
        x
    }
}

/// Clamp a doubled coordinate back into the geometry budget.
fn clamp_coord(x: i64) -> (r: i64)
    ensures
        -0x4000_0000 <= r <= 0x4000_0000,
{
    if x < -0x4000_0000 {
        -0x4000_0000
    } else if x > 0x4000_0000 {
        0x4000_0000
    } else {
        x
    }
}

/// Clamp a lattice cell index into a safe range.
fn clamp_lattice(x: i128) -> (r: i64)
    ensures
        -20000 <= r <= 20000,
{
    if x < -20000 {
        -20000
    } else if x > 20000 {
        20000
    } else {
        x as i64
    }
}

/// Lattice index folded into `[0, 256)`.
fn index_mod_256(x: i64) -> (r: usize)
    requires
        -0x7000_0000_0000_0000 <= x <= 0x7000_0000_0000_0000,
    ensures
        r < 256,
{
    let m: i64 = x % 256;
    let m2: i64 = (m + 256) % 256;
    m2 as usize
}

/// Hermite smoothing `x^2 (3 - 2x)` on `[0, ONE]`.
fn hermite(x: i64) -> (r: i64)
    requires
        0 <= x <= ONE,
    ensures
        0 <= r <= ONE,
{
    proof {
        crate::fx::lemma_mul_abs_bound(x as int, x as int, ONE as int, ONE as int);
    }
    let x2: i64 = fx_mul(x, x);
    proof {
        crate::fx::lemma_mul_abs_bound(x2 as int, 3 * ONE - 2 * x as int, ONE as int + 1,
            3 * ONE as int);
    }
    let h: i64 = fx_mul(x2, 3 * ONE - 2 * x);
    if h < 0 {
        0
    } else if h > ONE {
        ONE
    } else {
        h
    }
}

} // verus!
