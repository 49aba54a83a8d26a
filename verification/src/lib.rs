//! Deterministic, overflow-safe fixed-point arithmetic on dyadic
//! fractions (`numerator / 2^power`), for platforms that avoid floating
//! point. Every operation is total: numerator overflow saturates at the
//! i32 boundaries, power overflow at the i8 boundaries, and over-wide
//! bit shifts resolve to the saturated extremes.

use vstd::prelude::*;

pub mod laws;
pub mod model;
pub mod pid;
pub mod sat;
pub mod text;

use crate::model::{
    abs_pp, add_pp, canon_frac, cmp_pp, eq_pp, floor_pp, half_pp, is_canon, lemma_canon_canonical,
    lemma_canon_in_range, lemma_canon_power_drops, lemma_canon_power_le, mul_pp, neg_pp, pow_pp,
    round_go, round_pp, sat32, scale_pp, sign_of, signum_pp, sub_pp,
};
use crate::sat::{floor_div_pow2, sat_add_i32, sat_add_i8, sat_mul_i32, sat_sub_i32, shl_sat_i32};
use core::cmp::Ordering;

verus! {

/// A dyadic fraction: `num / 2^power` (for `power >= 0`), or the
/// pre-scaled integer `num * 2^(-power)` (for `power < 0`).
#[derive(Copy, Clone, Debug)]
pub struct DyadicFraction {
    pub num: i32,
    pub power: i8,
}

pub type DF = DyadicFraction;

impl View for DyadicFraction {
    type V = (int, int);

    open spec fn view(&self) -> (int, int) {
        (self.num as int, self.power as int)
    }
}

/// The fraction whose fields hold the given (in-range) model pair.
pub open spec fn frac_of(t: (int, int)) -> DyadicFraction {
    DyadicFraction { num: t.0 as i32, power: t.1 as i8 }
}

impl DyadicFraction {
    /// Construct from a numerator and a denominator exponent; the value is
    /// canonicalized immediately. Every input is accepted.
    pub fn new(numerator: i32, denominator_power: i8) -> (r: Self)
        ensures
            r@ == canon_frac(numerator as int, denominator_power as int),
    {
        let df = Self { num: numerator, power: denominator_power };
        df.canonical()
    }

    /// The canonical representation of zero.
    pub fn zero() -> (r: Self)
        ensures
            r@ == (0int, 0int),
    {
        Self { num: 0, power: 0 }
    }

    /// The canonical representative of the same number: while the power is
    /// positive and the numerator even, halve the numerator and decrement
    /// the power; a zero numerator forces power 0.
    pub fn canonical(&self) -> (r: Self)
        ensures
            r@ == canon_frac(self.num as int, self.power as int),
    {
        let mut num = self.num;
        let mut power = self.power;
        if num == 0 {
            power = 0;
        }
        while num != 0 && power > 0 && num % 2 == 0
            invariant
                num == 0 ==> power == 0,
                canon_frac(num as int, power as int) == canon_frac(
                    self.num as int,
                    self.power as int,
                ),
            decreases power,
        {
            num = num / 2;
            power = power - 1;
        }
        Self { num, power }
    }

    /// Absolute value: numerator magnitude (the minimum numerator
    /// saturates to the maximum), power unchanged, canonicalized.
    pub fn abs(self) -> (r: Self)
        ensures
            r@ == abs_pp(self@),
    {
        let m: i32 = if self.num == i32::MIN {
            i32::MAX
        } else if self.num < 0 {
            -self.num
        } else {
            self.num
        };
        Self { num: m, power: self.power }.canonical()
    }

    /// The sign of the value, as a fraction: -1, 0 or 1 at power 0.
    pub fn signum(self) -> (r: Self)
        ensures
            r@ == signum_pp(self@),
    {
        let s: i32 = if self.num > 0 {
            1
        } else if self.num < 0 {
            -1
        } else {
            0
        };
        Self { num: s, power: 0 }
    }

    /// Adopt the sign of `sign`: if it matches the numerator's sign the
    /// value is returned unchanged (zero matches only a zero request);
    /// otherwise the value is negated.
    pub fn copysign(self, sign: i32) -> (r: Self)
        ensures
            sign_of(sign as int) == sign_of(self.num as int) ==> r == self,
            sign_of(sign as int) != sign_of(self.num as int) ==> r@ == neg_pp(self@),
    {
        let ss: i32 = if sign > 0 {
            1
        } else if sign < 0 {
            -1
        } else {
            0
        };
        let ns: i32 = if self.num > 0 {
            1
        } else if self.num < 0 {
            -1
        } else {
            0
        };
        if ss == ns {
            return self;
        }
        let m: i32 = if self.num == i32::MIN {
            i32::MAX
        } else {
            -self.num
        };
        let r = Self { num: m, power: self.power }.canonical();
        proof {
            lemma_canon_in_range(sat32(-(self.num as int)), self.power as int);
        }
        r
    }

    /// Whether the numerator (and so the value) is strictly positive.
    pub fn is_positive(self) -> (r: bool)
        ensures
            r == (self.num > 0),
    {
        self.num > 0
    }

    /// Whether the numerator (and so the value) is strictly negative.
    pub fn is_negative(self) -> (r: bool)
        ensures
            r == (self.num < 0),
    {
        self.num < 0
    }

    /// Halve in constant time: the power grows by one (saturating at the
    /// i8 boundary); the numerator is untouched.
    pub fn div_by_two(&self) -> (r: Self)
        ensures
            r@ == half_pp(self@),
    {
        Self { num: self.num, power: sat_add_i8(self.power, 1) }
    }

    /// Fused multiply-add: `self * a + b`, with the same saturating
    /// behavior as performing the multiply and then the add.
    pub fn mul_add(self, a: Self, b: Self) -> (r: Self)
        ensures
            r@ == add_pp(mul_pp(self@, a@), b@),
    {
        self * a + b
    }

    /// Apply this fixed-point coefficient to an integer quantity: the
    /// canonical value is multiplied by `a` and floored to an integer.
    pub fn scale(self, a: i32) -> (r: i32)
        ensures
            r as int == scale_pp(self@, a as int),
    {
        let c = self.canonical();
        let p = c * Self { num: a, power: 0 };
        p.floor()
    }

    /// Exponentiation: `pow(0)` is the value's sign (a documented
    /// convention of this type, not the multiplicative identity); for
    /// positive `n`, `n - 1` repeated self-multiplications.
    pub fn pow(self, n: u8) -> (r: Self)
        ensures
            r@ == pow_pp(self@, n as nat),
    {
        if n == 0 {
            return self.signum();
        }
        let mut res = self;
        let mut i: u8 = 1;
        while i < n
            invariant
                1 <= i <= n,
                res@ == pow_pp(self@, i as nat),
            decreases n - i,
        {
            res = res * self;
            i = i + 1;
        }
        res
    }

    /// The larger of the two values; when they compare equal the first
    /// argument is returned.
    pub fn max(lhs: Self, rhs: Self) -> (r: Self)
        ensures
            r == (if cmp_pp(lhs@, rhs@) >= 0 {
                lhs
            } else {
                rhs
            }),
    {
        if lhs >= rhs {
            lhs
        } else {
            rhs
        }
    }

    /// The smaller of the two values; when they compare equal the second
    /// argument is returned.
    pub fn min(lhs: Self, rhs: Self) -> (r: Self)
        ensures
            r == (if cmp_pp(lhs@, rhs@) < 0 {
                lhs
            } else {
                rhs
            }),
    {
        if lhs < rhs {
            lhs
        } else {
            rhs
        }
    }

    /// Conversion to integer with floor semantics: on the canonical form,
    /// a non-positive power left-shifts the numerator (saturating); a
    /// positive power truncates toward negative infinity, and a power of
    /// 32 or more leaves 0.
    pub fn floor(self) -> (r: i32)
        ensures
            r as int == floor_pp(self@),
    {
        let c = self.canonical();
        if c.power <= 0 {
            shl_sat_i32(c.num, (-(c.power as i32)) as u32)
        } else if c.power >= 32 {
            0
        } else {
            floor_div_pow2(c.num, c.power as u32)
        }
    }

    /// Round to the given target power by iterative bit truncation: while
    /// the canonical power exceeds both the target and 0, clear the
    /// numerator's lowest bit and re-canonicalize. A single step can drop
    /// the power by more than one.
    pub fn round(&self, denominator_power: i8) -> (r: Self)
        ensures
            r@ == round_pp(self@, denominator_power as int),
    {
        let mut res = self.canonical();
        proof {
            lemma_canon_canonical(self.num as int, self.power as int);
        }
        if denominator_power >= res.power {
            return res;
        }
        while res.power > denominator_power && res.power > 0
            invariant
                is_canon(res.num as int, res.power as int),
                round_go(res.num as int, res.power as int, denominator_power as int) == round_pp(
                    self@,
                    denominator_power as int,
                ),
            decreases res.power,
        {
            let next = Self { num: res.num - 1, power: res.power };
            proof {
                lemma_canon_canonical(next.num as int, next.power as int);
                lemma_canon_power_drops(next.num as int, next.power as int);
                lemma_canon_power_le(next.num as int, next.power as int);
            }
            res = next.canonical();
        }
        res
    }

    /// The raw numerator of this representation.
    pub fn numerator(&self) -> (r: i32)
        ensures
            r == self.num,
    {
        self.num
    }

    /// The raw denominator exponent of this representation.
    pub fn denominator_power(&self) -> (r: i8)
        ensures
            r == self.power,
    {
        self.power
    }
}

impl core::ops::Neg for DyadicFraction {
    type Output = Self;

    /// Negation: numerator sign flip (the minimum numerator saturates to
    /// the maximum), power unchanged, canonicalized.
    fn neg(self) -> (r: Self)
        ensures
            r@ == neg_pp(self@),
    {
        let m: i32 = if self.num == i32::MIN {
            i32::MAX
        } else {
            -self.num
        };
        let r = Self { num: m, power: self.power }.canonical();
        proof {
            lemma_canon_in_range(sat32(-self.num as int), self.power as int);
        }
        r
    }
}

impl vstd::std_specs::ops::NegSpecImpl for DyadicFraction {
    open spec fn obeys_neg_spec() -> bool {
        true
    }

    open spec fn neg_req(self) -> bool {
        true
    }

    open spec fn neg_spec(self) -> Self {
        frac_of(neg_pp(self@))
    }
}

impl core::ops::Add for DyadicFraction {
    type Output = Self;

    /// Addition: both numerators are aligned at the larger power by a
    /// saturating left shift, added with saturation, then canonicalized.
    fn add(self, other: Self) -> (r: Self)
        ensures
            r@ == add_pp(self@, other@),
    {
        let p: i8 = if self.power >= other.power {
            self.power
        } else {
            other.power
        };
        let ka: u32 = (p as i32 - self.power as i32) as u32;
        let kb: u32 = (p as i32 - other.power as i32) as u32;
        let fst: i32 = shl_sat_i32(self.num, ka);
        let snd: i32 = shl_sat_i32(other.num, kb);
        let s: i32 = sat_add_i32(fst, snd);
        let r = Self { num: s, power: p }.canonical();
        proof {
            lemma_canon_in_range(s as int, p as int);
        }
        r
    }
}

impl vstd::std_specs::ops::AddSpecImpl for DyadicFraction {
    open spec fn obeys_add_spec() -> bool {
        true
    }

    open spec fn add_req(self, rhs: Self) -> bool {
        true
    }

    open spec fn add_spec(self, rhs: Self) -> Self {
        frac_of(add_pp(self@, rhs@))
    }
}

impl core::ops::Sub for DyadicFraction {
    type Output = Self;

    /// Subtraction: both numerators are aligned at the larger power by a
    /// saturating left shift, subtracted with saturation, then
    /// canonicalized.
    fn sub(self, other: Self) -> (r: Self)
        ensures
            r@ == sub_pp(self@, other@),
    {
        let p: i8 = if self.power >= other.power {
            self.power
        } else {
            other.power
        };
        let ka: u32 = (p as i32 - self.power as i32) as u32;
        let kb: u32 = (p as i32 - other.power as i32) as u32;
        let fst: i32 = shl_sat_i32(self.num, ka);
        let snd: i32 = shl_sat_i32(other.num, kb);
        let s: i32 = sat_sub_i32(fst, snd);
        let r = Self { num: s, power: p }.canonical();
        proof {
            lemma_canon_in_range(s as int, p as int);
        }
        r
    }
}

impl vstd::std_specs::ops::SubSpecImpl for DyadicFraction {
    open spec fn obeys_sub_spec() -> bool {
        true
    }

    open spec fn sub_req(self, rhs: Self) -> bool {
        true
    }

    open spec fn sub_spec(self, rhs: Self) -> Self {
        frac_of(sub_pp(self@, rhs@))
    }
}

impl core::ops::Mul for DyadicFraction {
    type Output = Self;

    /// Multiplication: the numerators multiply (saturating at the i32
    /// boundary), the powers add (saturating at the i8 boundary), then
    /// the result is canonicalized.
    fn mul(self, other: Self) -> (r: Self)
        ensures
            r@ == mul_pp(self@, other@),
    {
        let s: i32 = sat_mul_i32(self.num, other.num);
        let p: i8 = sat_add_i8(self.power, other.power);
        let r = Self { num: s, power: p }.canonical();
        proof {
            lemma_canon_in_range(s as int, p as int);
        }
        r
    }
}

impl vstd::std_specs::ops::MulSpecImpl for DyadicFraction {
    open spec fn obeys_mul_spec() -> bool {
        true
    }

    open spec fn mul_req(self, rhs: Self) -> bool {
        true
    }

    open spec fn mul_spec(self, rhs: Self) -> Self {
        frac_of(mul_pp(self@, rhs@))
    }
}

impl PartialEq for DyadicFraction {
    /// Equality compares canonical representations: two values are equal
    /// exactly when their canonical `(numerator, power)` pairs match.
    fn eq(&self, other: &Self) -> (r: bool)
        ensures
            r == eq_pp(self@, other@),
    {
        let lhs = self.canonical();
        let rhs = other.canonical();
        lhs.num == rhs.num && lhs.power == rhs.power
    }
}

impl vstd::std_specs::cmp::PartialEqSpecImpl for DyadicFraction {
    open spec fn obeys_eq_spec() -> bool {
        true
    }

    open spec fn eq_spec(&self, other: &Self) -> bool {
        eq_pp(self@, other@)
    }
}

impl Eq for DyadicFraction {

}

/// The ordering that a comparison sign (-1, 0 or 1) denotes.
pub open spec fn ord_of_sign(c: int) -> Ordering {
    if c > 0 {
        Ordering::Greater
    } else if c < 0 {
        Ordering::Less
    } else {
        Ordering::Equal
    }
}

impl PartialOrd for DyadicFraction {
    /// Ordering is total and follows the sign of the saturating
    /// difference `self - other`.
    fn partial_cmp(&self, other: &Self) -> (r: Option<Ordering>)
        ensures
            r == Some(ord_of_sign(cmp_pp(self@, other@))),
    {
        let delta = *self - *other;
        if delta.num > 0 {
            Some(Ordering::Greater)
        } else if delta.num < 0 {
            Some(Ordering::Less)
        } else {
            Some(Ordering::Equal)
        }
    }
}

impl vstd::std_specs::cmp::PartialOrdSpecImpl for DyadicFraction {
    open spec fn obeys_partial_cmp_spec() -> bool {
        true
    }

    open spec fn partial_cmp_spec(&self, other: &Self) -> Option<Ordering> {
        Some(ord_of_sign(cmp_pp(self@, other@)))
    }
}

impl Default for DyadicFraction {
    /// The default value is zero.
    fn default() -> (r: Self)
        ensures
            r@ == (0int, 0int),
    {
        Self::zero()
    }
}

impl From<i32> for DyadicFraction {
    /// An integer converts to the fraction with that numerator at power 0.
    fn from(num: i32) -> (r: Self)
        ensures
            r@ == (num as int, 0int),
    {
        Self { num, power: 0 }
    }
}

impl vstd::std_specs::convert::FromSpecImpl<i32> for DyadicFraction {
    open spec fn obeys_from_spec() -> bool {
        true
    }

    open spec fn from_spec(num: i32) -> Self {
        DyadicFraction { num, power: 0 }
    }
}

impl From<i16> for DyadicFraction {
    /// An integer converts to the fraction with that numerator at power 0.
    fn from(num: i16) -> (r: Self)
        ensures
            r@ == (num as int, 0int),
    {
        Self { num: num as i32, power: 0 }
    }
}

impl vstd::std_specs::convert::FromSpecImpl<i16> for DyadicFraction {
    open spec fn obeys_from_spec() -> bool {
        true
    }

    open spec fn from_spec(num: i16) -> Self {
        DyadicFraction { num: num as i32, power: 0 }
    }
}

impl From<u16> for DyadicFraction {
    /// An integer converts to the fraction with that numerator at power 0.
    fn from(num: u16) -> (r: Self)
        ensures
            r@ == (num as int, 0int),
    {
        Self { num: num as i32, power: 0 }
    }
}

impl vstd::std_specs::convert::FromSpecImpl<u16> for DyadicFraction {
    open spec fn obeys_from_spec() -> bool {
        true
    }

    open spec fn from_spec(num: u16) -> Self {
        DyadicFraction { num: num as i32, power: 0 }
    }
}

impl From<i8> for DyadicFraction {
    /// An integer converts to the fraction with that numerator at power 0.
    fn from(num: i8) -> (r: Self)
        ensures
            r@ == (num as int, 0int),
    {
        Self { num: num as i32, power: 0 }
    }
}

impl vstd::std_specs::convert::FromSpecImpl<i8> for DyadicFraction {
    open spec fn obeys_from_spec() -> bool {
        true
    }

    open spec fn from_spec(num: i8) -> Self {
        DyadicFraction { num: num as i32, power: 0 }
    }
}

impl From<u8> for DyadicFraction {
    /// An integer converts to the fraction with that numerator at power 0.
    fn from(num: u8) -> (r: Self)
        ensures
            r@ == (num as int, 0int),
    {
        Self { num: num as i32, power: 0 }
    }
}

impl vstd::std_specs::convert::FromSpecImpl<u8> for DyadicFraction {
    open spec fn obeys_from_spec() -> bool {
        true
    }

    open spec fn from_spec(num: u8) -> Self {
        DyadicFraction { num: num as i32, power: 0 }
    }
}

} // verus!
