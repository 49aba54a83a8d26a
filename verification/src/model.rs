//! The mathematical model of dyadic fractions.
//!
//! A value is a pair `(n, p)` of unbounded integers standing for the i32
//! numerator and the i8 denominator exponent of a [`crate::DyadicFraction`]:
//! the represented number is `n / 2^p` (a pre-scaled integer `n * 2^(-p)`
//! when `p < 0`). Every executable operation of the library is specified
//! exactly by one of the functions below; all arithmetic saturates at the
//! i32 (numerator) and i8 (power) boundaries instead of wrapping.

use vstd::arithmetic::power2::pow2;
use vstd::prelude::*;

verus! {

/// Clamp an unbounded integer to the i32 range.
pub open spec fn sat32(x: int) -> int {
    if x > i32::MAX {
        i32::MAX as int
    } else if x < i32::MIN {
        i32::MIN as int
    } else {
        x
    }
}

/// Clamp an unbounded integer to the i8 range.
pub open spec fn sat8(x: int) -> int {
    if x > i8::MAX {
        i8::MAX as int
    } else if x < i8::MIN {
        i8::MIN as int
    } else {
        x
    }
}

/// The sign of an integer: -1, 0 or 1.
pub open spec fn sign_of(x: int) -> int {
    if x > 0 {
        1int
    } else if x < 0 {
        -1int
    } else {
        0int
    }
}

/// Magnitude of an integer.
pub open spec fn abs_of(x: int) -> int {
    if x < 0 {
        -x
    } else {
        x
    }
}

/// Saturating left shift of a numerator by `k` bits: multiplication by
/// `2^k`, clamped to the i32 range.
pub open spec fn shl_sat(n: int, k: nat) -> int {
    sat32(n * pow2(k))
}

/// Canonicalization: while the power is positive and the numerator even,
/// halve the numerator and decrement the power; a zero numerator forces
/// power 0. The power never drops below 0 and an odd numerator is never
/// touched.
pub open spec fn canon_frac(n: int, p: int) -> (int, int)
    decreases p,
{
    if n == 0 {
        (0int, 0int)
    } else if p > 0 && n % 2 == 0 {
        canon_frac(n / 2, p - 1)
    } else {
        (n, p)
    }
}

/// A pair is in canonical form: zero is `(0, 0)`, and a positive power
/// demands an odd numerator.
pub open spec fn is_canon(n: int, p: int) -> bool {
    &&& n == 0 ==> p == 0
    &&& p > 0 ==> n % 2 != 0
}

/// The represented number, scaled by the fixed factor `2^127` so that every
/// representable power yields an integer: `(n, p)` stands for
/// `n * 2^(127 - p)`. Two pairs denote the same number exactly when their
/// scaled values agree.
pub open spec fn scaled(n: int, p: int) -> int {
    n * pow2((127 - p) as nat)
}

/// Whether an unbounded integer lies within the i32 range, so that no
/// saturation occurs when it is clamped.
pub open spec fn fits_i32(x: int) -> bool {
    i32::MIN <= x <= i32::MAX
}

/// Addition of two pairs stays within saturation bounds: both aligned
/// numerators and their sum fit the i32 range.
pub open spec fn add_exact(a: (int, int), b: (int, int)) -> bool {
    let p = cross_power(a, b);
    &&& fits_i32(a.0 * pow2((p - a.1) as nat))
    &&& fits_i32(b.0 * pow2((p - b.1) as nat))
    &&& fits_i32(a.0 * pow2((p - a.1) as nat) + b.0 * pow2((p - b.1) as nat))
}

/// Subtraction of two pairs stays within saturation bounds: both aligned
/// numerators and their difference fit the i32 range.
pub open spec fn sub_exact(a: (int, int), b: (int, int)) -> bool {
    let p = cross_power(a, b);
    &&& fits_i32(a.0 * pow2((p - a.1) as nat))
    &&& fits_i32(b.0 * pow2((p - b.1) as nat))
    &&& fits_i32(a.0 * pow2((p - a.1) as nat) - b.0 * pow2((p - b.1) as nat))
}

/// The common power two operands are brought to before adding or
/// subtracting: the larger of the two.
pub open spec fn cross_power(a: (int, int), b: (int, int)) -> int {
    if a.1 >= b.1 {
        a.1
    } else {
        b.1
    }
}

/// A numerator re-expressed at the (not smaller) power `p`: left-shifted,
/// saturating, by the power difference.
pub open spec fn aligned_num(x: (int, int), p: int) -> int {
    shl_sat(x.0, (p - x.1) as nat)
}

/// Addition: align both numerators at the larger power, add with
/// saturation, canonicalize.
pub open spec fn add_pp(a: (int, int), b: (int, int)) -> (int, int) {
    let p = cross_power(a, b);
    canon_frac(sat32(aligned_num(a, p) + aligned_num(b, p)), p)
}

/// Subtraction: align both numerators at the larger power, subtract with
/// saturation, canonicalize.
pub open spec fn sub_pp(a: (int, int), b: (int, int)) -> (int, int) {
    let p = cross_power(a, b);
    canon_frac(sat32(aligned_num(a, p) - aligned_num(b, p)), p)
}

/// Multiplication: numerators multiply (saturating at i32), powers add
/// (saturating at i8), then canonicalize.
pub open spec fn mul_pp(a: (int, int), b: (int, int)) -> (int, int) {
    canon_frac(sat32(a.0 * b.0), sat8(a.1 + b.1))
}

/// Negation: numerator sign flip (saturating, so the minimum numerator
/// negates to the maximum), power unchanged, then canonicalize.
pub open spec fn neg_pp(a: (int, int)) -> (int, int) {
    canon_frac(sat32(-a.0), a.1)
}

/// Absolute value: numerator magnitude (saturating), power unchanged,
/// then canonicalize.
pub open spec fn abs_pp(a: (int, int)) -> (int, int) {
    canon_frac(sat32(abs_of(a.0)), a.1)
}

/// Sign as a fraction: -1, 0 or 1 at power 0.
pub open spec fn signum_pp(a: (int, int)) -> (int, int) {
    (sign_of(a.0), 0int)
}

/// Ordering is the sign of the (saturating) difference: 1 when `a` is the
/// larger, -1 when `b` is, 0 when the difference cancels to zero.
pub open spec fn cmp_pp(a: (int, int), b: (int, int)) -> int {
    sign_of(sub_pp(a, b).0)
}

/// Equality: the canonical pairs match exactly.
pub open spec fn eq_pp(a: (int, int), b: (int, int)) -> bool {
    canon_frac(a.0, a.1) == canon_frac(b.0, b.1)
}

/// Conversion to integer with floor semantics, on the canonical form: a
/// non-positive power left-shifts the numerator (saturating); a positive
/// power divides by `2^p` rounding toward negative infinity, and a power
/// of 32 or more shifts everything out, leaving 0.
pub open spec fn floor_pp(a: (int, int)) -> int {
    let c = canon_frac(a.0, a.1);
    if c.1 <= 0 {
        shl_sat(c.0, (-c.1) as nat)
    } else if c.1 >= 32 {
        0int
    } else {
        c.0 / pow2(c.1 as nat) as int
    }
}

/// Scaling an integer quantity by a fixed-point coefficient: the
/// canonical value times `(m, 0)`, floored to an integer.
pub open spec fn scale_pp(a: (int, int), m: int) -> int {
    floor_pp(mul_pp(canon_frac(a.0, a.1), (m, 0int)))
}

/// Halving: the power grows by one (saturating); the numerator is not
/// touched, so the result may be non-canonical.
pub open spec fn half_pp(a: (int, int)) -> (int, int) {
    (a.0, sat8(a.1 + 1))
}

/// One truncation pass of rounding, on a canonical pair: while the power
/// exceeds both the target and 0, clear the numerator's lowest bit (the
/// numerator is odd here, so subtract 1) and re-canonicalize. The
/// even-numerator branch is never reached from a canonical pair and only
/// keeps the recursion well-founded.
pub open spec fn round_go(n: int, p: int, t: int) -> (int, int)
    decreases p,
    via round_go_decreases
{
    if p <= t || p <= 0 {
        (n, p)
    } else if n % 2 == 0 {
        (n, p)
    } else {
        let c = canon_frac(n - 1, p);
        round_go(c.0, c.1, t)
    }
}

#[via_fn]
proof fn round_go_decreases(n: int, p: int, t: int) {
    if !(p <= t || p <= 0) && n % 2 != 0 {
        lemma_canon_power_drops(n - 1, p);
        lemma_canon_power_le(n - 1, p);
    }
}

/// Rounding to a target power: canonicalize, then truncate bits until the
/// power no longer exceeds the target (or no fractional bits remain).
pub open spec fn round_pp(a: (int, int), t: int) -> (int, int) {
    let c = canon_frac(a.0, a.1);
    round_go(c.0, c.1, t)
}

/// Exponentiation: `pow(0)` is the sign (a documented convention of this
/// type, not the multiplicative identity); `pow(n)` for positive `n` is
/// `n - 1` repeated self-multiplications.
pub open spec fn pow_pp(a: (int, int), n: nat) -> (int, int)
    decreases n,
{
    if n == 0 {
        signum_pp(a)
    } else if n == 1 {
        a
    } else {
        mul_pp(pow_pp(a, (n - 1) as nat), a)
    }
}

/// Canonicalizing an even nonzero numerator at a positive power strictly
/// lowers the power: the termination argument for rounding.
pub proof fn lemma_canon_power_drops(n: int, p: int)
    requires
        p > 0,
        n % 2 == 0,
    ensures
        canon_frac(n, p).1 < p,
    decreases p,
{
    if n == 0 {
    } else {
        lemma_canon_power_le(n / 2, p - 1);
    }
}

/// Canonicalization lands in canonical form.
pub proof fn lemma_canon_canonical(n: int, p: int)
    ensures
        is_canon(canon_frac(n, p).0, canon_frac(n, p).1),
    decreases p,
{
    if n == 0 {
    } else if p > 0 && n % 2 == 0 {
        lemma_canon_canonical(n / 2, p - 1);
    }
}

/// Canonicalization of an in-range pair stays in range: the numerator
/// only ever halves and the power only ever moves toward 0.
pub proof fn lemma_canon_in_range(n: int, p: int)
    requires
        i32::MIN <= n <= i32::MAX,
        i8::MIN <= p <= i8::MAX,
    ensures
        i32::MIN <= canon_frac(n, p).0 <= i32::MAX,
        i8::MIN <= canon_frac(n, p).1 <= i8::MAX,
        abs_of(canon_frac(n, p).0) <= abs_of(n),
    decreases p,
{
    if n == 0 {
    } else if p > 0 && n % 2 == 0 {
        lemma_canon_in_range(n / 2, p - 1);
    }
}

/// The canonical power never exceeds the starting power (for a
/// non-negative start it also never drops below 0).
pub proof fn lemma_canon_power_le(n: int, p: int)
    ensures
        canon_frac(n, p).1 <= p || (n == 0 && p < 0),
        p >= 0 ==> 0 <= canon_frac(n, p).1 <= p,
    decreases p,
{
    if n == 0 {
    } else if p > 0 && n % 2 == 0 {
        lemma_canon_power_le(n / 2, p - 1);
    }
}

} // verus!
