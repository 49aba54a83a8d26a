//! Executable saturating arithmetic on the fixed-width numerator and
//! power, each operation proved against its clamped model in [`crate::model`].

use crate::model::{sat32, sat8, shl_sat};
use vstd::arithmetic::power2::{
    lemma2_to64, lemma2_to64_rest, lemma_pow2_adds, lemma_pow2_strictly_increases, pow2,
};
use vstd::prelude::*;

verus! {

/// `pow2(e1) <= pow2(e2)` whenever `e1 <= e2`.
pub proof fn lemma_pow2_le(e1: nat, e2: nat)
    requires
        e1 <= e2,
    ensures
        pow2(e1) <= pow2(e2),
{
    if e1 < e2 {
        lemma_pow2_strictly_increases(e1, e2);
    }
}

/// `2^k` as an i64, for exponents small enough to fit.
pub fn pow2_i64(k: u32) -> (r: i64)
    requires
        k <= 62,
    ensures
        r == pow2(k as nat),
        r >= 1,
{
    let mut r: i64 = 1;
    let mut i: u32 = 0;
    proof {
        lemma2_to64();
        lemma2_to64_rest();
    }
    while i < k
        invariant
            i <= k <= 62,
            r == pow2(i as nat),
            pow2(62) == 0x4000000000000000,
        decreases k - i,
    {
        proof {
            lemma_pow2_le((i + 1) as nat, 62nat);
            lemma_pow2_adds(i as nat, 1nat);
            lemma2_to64();
        }
        r = r * 2;
        i = i + 1;
    }
    proof {
        vstd::arithmetic::power2::lemma_pow2_pos(k as nat);
    }
    r
}

/// Clamp an i64 into the i32 range.
pub fn sat_to_i32(x: i64) -> (r: i32)
    ensures
        r == sat32(x as int),
{
    if x > i32::MAX as i64 {
        i32::MAX
    } else if x < i32::MIN as i64 {
        i32::MIN
    } else {
        x as i32
    }
}

/// Saturating addition of two numerators.
pub fn sat_add_i32(a: i32, b: i32) -> (r: i32)
    ensures
        r == sat32(a + b),
{
    let s: i64 = a as i64 + b as i64;
    sat_to_i32(s)
}

/// Saturating subtraction of two numerators.
pub fn sat_sub_i32(a: i32, b: i32) -> (r: i32)
    ensures
        r == sat32(a - b),
{
    let s: i64 = a as i64 - b as i64;
    sat_to_i32(s)
}

/// Saturating multiplication of two numerators.
pub fn sat_mul_i32(a: i32, b: i32) -> (r: i32)
    ensures
        r == sat32(a * b),
{
    proof {
        assert((a as i64) * (b as i64) == a * b && -0x4000000000000000 <= a * b
            <= 0x4000000000000000) by (nonlinear_arith)
            requires
                -0x80000000 <= a <= 0x7fffffff,
                -0x80000000 <= b <= 0x7fffffff,
        ;
    }
    let p: i64 = (a as i64) * (b as i64);
    sat_to_i32(p)
}

/// Saturating addition of two powers.
pub fn sat_add_i8(a: i8, b: i8) -> (r: i8)
    ensures
        r == sat8(a + b),
{
    let s: i32 = a as i32 + b as i32;
    if s > i8::MAX as i32 {
        i8::MAX
    } else if s < i8::MIN as i32 {
        i8::MIN
    } else {
        s as i8
    }
}

/// Saturating left shift of a numerator by `k` bits: multiplication by
/// `2^k` clamped to the i32 range. A shift of 32 or more cannot be
/// executed on a 32-bit value; any nonzero numerator has then overflowed
/// to the boundary of its sign.
pub fn shl_sat_i32(n: i32, k: u32) -> (r: i32)
    ensures
        r == shl_sat(n as int, k as nat),
{
    if n == 0 {
        proof {
            assert(0int * pow2(k as nat) == 0) by (nonlinear_arith);
        }
        0
    } else if k >= 32 {
        proof {
            lemma2_to64();
            lemma_pow2_le(32nat, k as nat);
            assert(n > 0 ==> n * pow2(k as nat) >= pow2(k as nat)) by (nonlinear_arith);
            assert(n < 0 ==> n * pow2(k as nat) <= -pow2(k as nat)) by (nonlinear_arith);
        }
        if n > 0 {
            i32::MAX
        } else {
            i32::MIN
        }
    } else {
        let d: i64 = pow2_i64(k);
        proof {
            lemma_pow2_le(k as nat, 31nat);
            lemma2_to64();
            assert((n as i64) * d == n * pow2(k as nat) && -0x4000000000000000 <= n * pow2(k as nat)
                <= 0x4000000000000000) by (nonlinear_arith)
                requires
                    -0x80000000 <= n <= 0x7fffffff,
                    d == pow2(k as nat),
                    1 <= d <= 0x80000000,
            ;
        }
        let p: i64 = (n as i64) * d;
        sat_to_i32(p)
    }
}

/// Division of a numerator by `2^k`, rounding toward negative infinity
/// (arithmetic-shift semantics).
pub fn floor_div_pow2(n: i32, k: u32) -> (r: i32)
    requires
        1 <= k <= 31,
    ensures
        r == (n as int) / (pow2(k as nat) as int),
{
    let d: i64 = pow2_i64(k);
    proof {
        lemma_pow2_le(k as nat, 31nat);
        lemma2_to64();
    }
    if n >= 0 {
        let q: i64 = (n as i64) / d;
        proof {
            vstd::arithmetic::div_mod::lemma_div_nonincreasing(n as int, d as int);
            vstd::arithmetic::div_mod::lemma_div_pos_is_pos(n as int, d as int);
        }
        q as i32
    } else {
        let m: i64 = -(n as i64);
        let q0: i64 = m / d;
        let rem: i64 = m % d;
        proof {
            vstd::arithmetic::div_mod::lemma_div_pos_is_pos(m as int, d as int);
            vstd::arithmetic::div_mod::lemma_div_is_ordered_by_denominator(m as int, 2int, d as int);
            vstd::arithmetic::div_mod::lemma_fundamental_div_mod(m as int, d as int);
            assert(n as int == (-q0 as int) * d - rem && n as int == (-q0 - 1) * (d as int) + (d
                - rem)) by (nonlinear_arith)
                requires
                    m == (d as int) * q0 + rem,
                    n as int == -(m as int),
            ;
            if rem == 0 {
                vstd::arithmetic::div_mod::lemma_fundamental_div_mod_converse(
                    n as int,
                    d as int,
                    -q0 as int,
                    0int,
                );
            } else {
                vstd::arithmetic::div_mod::lemma_fundamental_div_mod_converse(
                    n as int,
                    d as int,
                    (-q0 - 1) as int,
                    (d - rem) as int,
                );
            }
        }
        if rem == 0 {
            (-q0) as i32
        } else {
            (-q0 - 1) as i32
        }
    }
}

} // verus!
