//! The general laws of the fixed-point type, stated over the model of
//! [`crate::model`] and proved once and for all: canonicalization
//! preserves the represented number and is idempotent, canonical forms
//! with non-negative powers are unique per number, addition followed by
//! subtraction of the same value is the identity within saturation
//! bounds, and a value cancels against its negation.

use crate::model::{
    add_exact, add_pp, aligned_num, canon_frac, cmp_pp, cross_power, eq_pp, fits_i32, is_canon,
    lemma_canon_canonical, lemma_canon_in_range, lemma_canon_power_le, neg_pp, sat32, scaled, sign_of,
    sub_exact, sub_pp,
};
use crate::DyadicFraction;
use vstd::arithmetic::mul::{
    lemma_mul_equality_converse, lemma_mul_is_associative, lemma_mul_is_commutative,
    lemma_mul_is_distributive_add_other_way, lemma_mul_is_distributive_sub_other_way,
};
use vstd::arithmetic::power2::{lemma_pow2_adds, lemma_pow2_pos, pow2};
use vstd::prelude::*;

verus! {

/// Cancel a common (always positive) power-of-two factor.
proof fn lemma_scaled_cancel(x: int, y: int, e: nat)
    requires
        x * pow2(e) == y * pow2(e),
    ensures
        x == y,
{
    lemma_pow2_pos(e);
    lemma_mul_is_commutative(x, pow2(e) as int);
    lemma_mul_is_commutative(y, pow2(e) as int);
    lemma_mul_equality_converse(pow2(e) as int, x, y);
}

/// Canonicalization never changes the represented number: the scaled
/// value of the canonical pair equals the scaled value of the input.
pub proof fn lemma_canon_scaled(n: int, p: int)
    requires
        p <= 127,
    ensures
        scaled(canon_frac(n, p).0, canon_frac(n, p).1) == scaled(n, p),
    decreases p,
{
    if n == 0 {
        assert(scaled(0, 0) == 0) by {
            lemma_mul_is_commutative(0, pow2(127nat) as int);
        }
        assert(scaled(0, p) == 0) by {
            lemma_mul_is_commutative(0, pow2((127 - p) as nat) as int);
        }
    } else if p > 0 && n % 2 == 0 {
        let h = n / 2;
        let q = pow2((127 - p) as nat) as int;
        lemma_canon_scaled(h, p - 1);
        assert(pow2((128 - p) as nat) == 2 * q) by {
            lemma_pow2_adds(1nat, (127 - p) as nat);
            vstd::arithmetic::power2::lemma2_to64();
        }
        assert(h * (2 * q) == (h * 2) * q) by {
            lemma_mul_is_associative(h, 2, q);
        }
        assert(h * 2 == n);
        assert(scaled(h, p - 1) == scaled(n, p));
    }
}

/// Canonicalization is idempotent: a pair already in canonical form is
/// returned unchanged.
pub proof fn lemma_canonical_idempotent(n: int, p: int)
    requires
        is_canon(n, p),
    ensures
        canon_frac(n, p) == (n, p),
{
}

/// Equality of two fractions holds exactly when their canonical
/// `(numerator, power)` pairs are identical.
pub proof fn lemma_eq_is_canonical_pair_equality(a: DyadicFraction, b: DyadicFraction)
    ensures
        eq_pp(a@, b@) <==> canon_frac(a.num as int, a.power as int) == canon_frac(
            b.num as int,
            b.power as int,
        ),
{
}

/// Among canonical pairs with non-negative powers, the representation of
/// a number is unique: equal scaled values force equal pairs.
pub proof fn lemma_canon_unique(n1: int, p1: int, n2: int, p2: int)
    requires
        is_canon(n1, p1),
        is_canon(n2, p2),
        0 <= p1 <= 127,
        0 <= p2 <= 127,
        scaled(n1, p1) == scaled(n2, p2),
    ensures
        n1 == n2,
        p1 == p2,
{
    if p1 <= p2 {
        lemma_canon_unique_ordered(n1, p1, n2, p2);
    } else {
        lemma_canon_unique_ordered(n2, p2, n1, p1);
    }
}

/// The ordered case of [`lemma_canon_unique`]: the pair with the larger
/// power would need an even numerator to denote the same number.
proof fn lemma_canon_unique_ordered(n1: int, p1: int, n2: int, p2: int)
    requires
        is_canon(n1, p1),
        is_canon(n2, p2),
        0 <= p1 <= p2 <= 127,
        scaled(n1, p1) == scaled(n2, p2),
    ensures
        n1 == n2,
        p1 == p2,
{
    let q1 = pow2((127 - p1) as nat) as int;
    let q2 = pow2((127 - p2) as nat) as int;
    if p1 == p2 {
        lemma_scaled_cancel(n1, n2, (127 - p1) as nat);
    } else {
        let k = (p2 - p1) as nat;
        assert(q1 == pow2(k) * q2) by {
            lemma_pow2_adds(k, (127 - p2) as nat);
        }
        assert(n1 * (pow2(k) * q2) == (n1 * pow2(k)) * q2) by {
            lemma_mul_is_associative(n1, pow2(k) as int, q2);
        }
        lemma_scaled_cancel(n1 * pow2(k), n2, (127 - p2) as nat);
        assert(n2 == n1 * pow2(k));
        if n1 == 0 {
            assert(n2 == 0) by {
                lemma_mul_is_commutative(0, pow2(k) as int);
            }
            assert(false);
        } else {
            assert(pow2(k) == 2 * pow2((k - 1) as nat)) by {
                lemma_pow2_adds(1nat, (k - 1) as nat);
                vstd::arithmetic::power2::lemma2_to64();
            }
            let m = pow2((k - 1) as nat) as int;
            assert(n1 * (2 * m) == 2 * (n1 * m)) by {
                lemma_mul_is_associative(n1, 2, m);
                lemma_mul_is_commutative(n1, 2);
                lemma_mul_is_associative(2, n1, m);
            }
            assert(n2 == 2 * (n1 * m));
            assert(n2 % 2 == 0);
            assert(false);
        }
    }
}

/// Within saturation bounds, addition is exact: the scaled value of the
/// sum is the sum of the scaled values.
pub proof fn lemma_add_pp_exact(a: (int, int), b: (int, int))
    requires
        fits_i32(a.0),
        fits_i32(b.0),
        -128 <= a.1 <= 127,
        -128 <= b.1 <= 127,
        add_exact(a, b),
    ensures
        scaled(add_pp(a, b).0, add_pp(a, b).1) == scaled(a.0, a.1) + scaled(b.0, b.1),
{
    let p = cross_power(a, b);
    let ka = (p - a.1) as nat;
    let kb = (p - b.1) as nat;
    let sa = a.0 * pow2(ka);
    let sb = b.0 * pow2(kb);
    assert(aligned_num(a, p) == sa && aligned_num(b, p) == sb);
    let s = sa + sb;
    assert(sat32(s) == s);
    lemma_canon_scaled(s, p);
    let q = pow2((127 - p) as nat) as int;
    assert((sa + sb) * q == sa * q + sb * q) by {
        lemma_mul_is_distributive_add_other_way(q, sa, sb);
    }
    assert(sa * q == scaled(a.0, a.1)) by {
        lemma_mul_is_associative(a.0, pow2(ka) as int, q);
        lemma_pow2_adds(ka, (127 - p) as nat);
    }
    assert(sb * q == scaled(b.0, b.1)) by {
        lemma_mul_is_associative(b.0, pow2(kb) as int, q);
        lemma_pow2_adds(kb, (127 - p) as nat);
    }
}

/// Within saturation bounds, subtraction is exact: the scaled value of
/// the difference is the difference of the scaled values.
pub proof fn lemma_sub_pp_exact(a: (int, int), b: (int, int))
    requires
        fits_i32(a.0),
        fits_i32(b.0),
        -128 <= a.1 <= 127,
        -128 <= b.1 <= 127,
        sub_exact(a, b),
    ensures
        scaled(sub_pp(a, b).0, sub_pp(a, b).1) == scaled(a.0, a.1) - scaled(b.0, b.1),
{
    let p = cross_power(a, b);
    let ka = (p - a.1) as nat;
    let kb = (p - b.1) as nat;
    let sa = a.0 * pow2(ka);
    let sb = b.0 * pow2(kb);
    assert(aligned_num(a, p) == sa && aligned_num(b, p) == sb);
    let s = sa - sb;
    assert(sat32(s) == s);
    lemma_canon_scaled(s, p);
    let q = pow2((127 - p) as nat) as int;
    assert((sa - sb) * q == sa * q - sb * q) by {
        lemma_mul_is_distributive_sub_other_way(q, sa, sb);
    }
    assert(sa * q == scaled(a.0, a.1)) by {
        lemma_mul_is_associative(a.0, pow2(ka) as int, q);
        lemma_pow2_adds(ka, (127 - p) as nat);
    }
    assert(sb * q == scaled(b.0, b.1)) by {
        lemma_mul_is_associative(b.0, pow2(kb) as int, q);
        lemma_pow2_adds(kb, (127 - p) as nat);
    }
}

/// Multiplying by a (positive) power of two keeps the sign: a scaled
/// value has the sign of its numerator.
proof fn lemma_sign_of_scaled(n: int, p: int)
    ensures
        sign_of(scaled(n, p)) == sign_of(n),
{
    let q = pow2((127 - p) as nat) as int;
    lemma_pow2_pos((127 - p) as nat);
    if n > 0 {
        assert(n * q > 0) by (nonlinear_arith)
            requires
                n > 0,
                q > 0,
        ;
    } else if n < 0 {
        assert(n * q < 0) by (nonlinear_arith)
            requires
                n < 0,
                q > 0,
        ;
    } else {
        assert(0int * q == 0) by (nonlinear_arith);
    }
}

/// Within saturation bounds the ordering is the true numeric one: the
/// comparison sign of `a` against `b` is the sign of the difference of
/// the numbers they represent.
pub proof fn lemma_cmp_matches_values(a: DyadicFraction, b: DyadicFraction)
    requires
        sub_exact(a@, b@),
    ensures
        cmp_pp(a@, b@) == sign_of(
            scaled(a.num as int, a.power as int) - scaled(b.num as int, b.power as int),
        ),
{
    lemma_sub_pp_exact(a@, b@);
    let r = sub_pp(a@, b@);
    lemma_sign_of_scaled(r.0, r.1);
}

/// The no-saturation round trip: for values with non-negative powers,
/// when neither the addition nor the following subtraction saturates,
/// `(a + b) - b` returns exactly the canonical form of `a` — so it
/// compares equal to `a`. (With a negative power the round trip can land
/// on a different representative of the same number: the power of the
/// result never drops below 0, while `a` may already be below.)
pub proof fn lemma_add_sub_round_trip(a: DyadicFraction, b: DyadicFraction)
    requires
        a.power >= 0,
        b.power >= 0,
        add_exact(a@, b@),
        sub_exact(add_pp(a@, b@), b@),
    ensures
        sub_pp(add_pp(a@, b@), b@) == canon_frac(a.num as int, a.power as int),
        eq_pp(sub_pp(add_pp(a@, b@), b@), a@),
{
    let r1 = add_pp(a@, b@);
    lemma_add_pp_exact(a@, b@);
    lemma_canon_canonical(sat32(aligned_num(a@, cross_power(a@, b@)) + aligned_num(
        b@,
        cross_power(a@, b@),
    )), cross_power(a@, b@));
    lemma_canon_in_range(sat32(aligned_num(a@, cross_power(a@, b@)) + aligned_num(
        b@,
        cross_power(a@, b@),
    )), cross_power(a@, b@));
    lemma_canon_power_le(sat32(aligned_num(a@, cross_power(a@, b@)) + aligned_num(
        b@,
        cross_power(a@, b@),
    )), cross_power(a@, b@));
    let r2 = sub_pp(r1, b@);
    lemma_sub_pp_exact(r1, b@);
    lemma_canon_canonical(sat32(aligned_num(r1, cross_power(r1, b@)) - aligned_num(
        b@,
        cross_power(r1, b@),
    )), cross_power(r1, b@));
    lemma_canon_power_le(sat32(aligned_num(r1, cross_power(r1, b@)) - aligned_num(
        b@,
        cross_power(r1, b@),
    )), cross_power(r1, b@));
    let ca = canon_frac(a.num as int, a.power as int);
    lemma_canon_scaled(a.num as int, a.power as int);
    lemma_canon_canonical(a.num as int, a.power as int);
    lemma_canon_power_le(a.num as int, a.power as int);
    assert(scaled(r2.0, r2.1) == scaled(ca.0, ca.1));
    lemma_canon_unique(r2.0, r2.1, ca.0, ca.1);
    lemma_canonical_idempotent(r2.0, r2.1);
}

/// A value cancels against its negation: `a + (-a)` is exactly zero,
/// for every value whose numerator is not the minimum representable one
/// (there the negation saturates and the sum cannot cancel).
pub proof fn lemma_add_neg_cancels(a: DyadicFraction)
    requires
        a.num != i32::MIN,
    ensures
        add_pp(a@, neg_pp(a@)) == (0int, 0int),
{
    let n = a.num as int;
    let p = a.power as int;
    let c = neg_pp(a@);
    lemma_canon_power_le(-n, p);
    lemma_canon_in_range(-n, p);
    lemma_canon_scaled(-n, p);
    if n == 0 {
        assert(c == (0int, 0int));
        let cp = cross_power(a@, c);
        assert(aligned_num(a@, cp) == sat32(0int * pow2((cp - p) as nat))
            && aligned_num(c, cp) == sat32(0int * pow2(cp as nat))) by {
            vstd::arithmetic::mul::lemma_mul_basics(pow2((cp - p) as nat) as int);
            vstd::arithmetic::mul::lemma_mul_basics(pow2(cp as nat) as int);
        }
        assert(0int * pow2((cp - p) as nat) == 0 && 0int * pow2(cp as nat) == 0) by {
            vstd::arithmetic::mul::lemma_mul_basics(pow2((cp - p) as nat) as int);
            vstd::arithmetic::mul::lemma_mul_basics(pow2(cp as nat) as int);
        }
        assert(add_pp(a@, c) == canon_frac(0, cp));
    } else {
        assert(c.1 <= p);
        let cp = cross_power(a@, c);
        assert(cp == p);
        assert(aligned_num(a@, p) == sat32(n * pow2(0nat)));
        assert(n * pow2(0nat) == n) by {
            vstd::arithmetic::power2::lemma2_to64();
            lemma_mul_is_commutative(n, 1);
        }
        let k = (p - c.1) as nat;
        let q = pow2((127 - p) as nat) as int;
        assert(c.0 * pow2((127 - c.1) as nat) == scaled(-n, p));
        assert(pow2((127 - c.1) as nat) == pow2(k) * q) by {
            lemma_pow2_adds(k, (127 - p) as nat);
        }
        assert(c.0 * (pow2(k) * q) == (c.0 * pow2(k)) * q) by {
            lemma_mul_is_associative(c.0, pow2(k) as int, q);
        }
        lemma_scaled_cancel(c.0 * pow2(k), -n, (127 - p) as nat);
        assert(aligned_num(c, p) == sat32(c.0 * pow2(k)));
        assert(sat32(n) + sat32(-n) == 0);
        assert(add_pp(a@, c) == canon_frac(sat32(n + -n), p));
    }
}

} // verus!

