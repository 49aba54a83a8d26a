//! Textual form of a fraction, exactly as the model states it: the
//! canonical value prints as a plain (saturated) integer when its power
//! is non-positive, and as `"numerator/denominator"` with a power-of-two
//! denominator otherwise. The decimal rendering itself is verified
//! character by character.

use crate::model::{canon_frac, shl_sat};
use crate::sat::shl_sat_i32;
use crate::DyadicFraction;
use vstd::prelude::*;

verus! {

/// The character of a single decimal digit.
pub open spec fn dec_digit(d: int) -> char {
    if d == 0 {
        '0'
    } else if d == 1 {
        '1'
    } else if d == 2 {
        '2'
    } else if d == 3 {
        '3'
    } else if d == 4 {
        '4'
    } else if d == 5 {
        '5'
    } else if d == 6 {
        '6'
    } else if d == 7 {
        '7'
    } else if d == 8 {
        '8'
    } else {
        '9'
    }
}

/// The decimal digits of a non-negative integer, most significant first.
pub open spec fn dec_nat(n: int) -> Seq<char>
    decreases n,
{
    if n < 10 {
        seq![dec_digit(n)]
    } else {
        dec_nat(n / 10) + seq![dec_digit(n % 10)]
    }
}

/// The decimal form of an integer: a minus sign before the digits of the
/// magnitude when negative.
pub open spec fn dec_int(n: int) -> Seq<char> {
    if n < 0 {
        seq!['-'] + dec_nat(-n)
    } else {
        dec_nat(n)
    }
}

/// The textual form of a fraction: canonicalize; with power at most 0,
/// the saturated integer value; with a positive power, numerator, a
/// slash, and the saturated denominator `2^power`.
pub open spec fn display_pp(a: (int, int)) -> Seq<char> {
    let c = canon_frac(a.0, a.1);
    if c.1 <= 0 {
        dec_int(shl_sat(c.0, (-c.1) as nat))
    } else {
        dec_int(c.0) + seq!['/'] + dec_int(shl_sat(1, c.1 as nat))
    }
}

/// Append one decimal digit character.
fn push_digit(out: &mut String, d: u32)
    requires
        d < 10,
    ensures
        final(out)@ == old(out)@ + seq![dec_digit(d as int)],
{
    if d == 0 {
        out.append("0");
        proof {
            reveal_strlit("0");
            assert(final(out)@ =~= old(out)@ + seq![dec_digit(d as int)]);
        }
    } else if d == 1 {
        out.append("1");
        proof {
            reveal_strlit("1");
            assert(final(out)@ =~= old(out)@ + seq![dec_digit(d as int)]);
        }
    } else if d == 2 {
        out.append("2");
        proof {
            reveal_strlit("2");
            assert(final(out)@ =~= old(out)@ + seq![dec_digit(d as int)]);
        }
    } else if d == 3 {
        out.append("3");
        proof {
            reveal_strlit("3");
            assert(final(out)@ =~= old(out)@ + seq![dec_digit(d as int)]);
        }
    } else if d == 4 {
        out.append("4");
        proof {
            reveal_strlit("4");
            assert(final(out)@ =~= old(out)@ + seq![dec_digit(d as int)]);
        }
    } else if d == 5 {
        out.append("5");
        proof {
            reveal_strlit("5");
            assert(final(out)@ =~= old(out)@ + seq![dec_digit(d as int)]);
        }
    } else if d == 6 {
        out.append("6");
        proof {
            reveal_strlit("6");
            assert(final(out)@ =~= old(out)@ + seq![dec_digit(d as int)]);
        }
    } else if d == 7 {
        out.append("7");
        proof {
            reveal_strlit("7");
            assert(final(out)@ =~= old(out)@ + seq![dec_digit(d as int)]);
        }
    } else if d == 8 {
        out.append("8");
        proof {
            reveal_strlit("8");
            assert(final(out)@ =~= old(out)@ + seq![dec_digit(d as int)]);
        }
    } else {
        out.append("9");
        proof {
            reveal_strlit("9");
            assert(final(out)@ =~= old(out)@ + seq![dec_digit(d as int)]);
        }
    }
}

/// Append the decimal digits of a non-negative number, most significant
/// first.
fn push_dec_nat(out: &mut String, m: u32)
    ensures
        final(out)@ == old(out)@ + dec_nat(m as int),
    decreases m,
{
    if m < 10 {
        push_digit(out, m);
    } else {
        push_dec_nat(out, m / 10);
        push_digit(out, m % 10);
        proof {
            assert(final(out)@ =~= old(out)@ + dec_nat(m as int));
        }
    }
}

/// Append the decimal form of a signed number.
fn push_dec_i32(out: &mut String, n: i32)
    ensures
        final(out)@ == old(out)@ + dec_int(n as int),
{
    if n < 0 {
        out.append("-");
        proof {
            reveal_strlit("-");
        }
        let m: u32 = (-(n as i64)) as u32;
        push_dec_nat(out, m);
        proof {
            assert("-"@ =~= seq!['-']);
            assert(final(out)@ =~= old(out)@ + dec_int(n as int));
        }
    } else {
        push_dec_nat(out, n as u32);
    }
}

impl DyadicFraction {
    /// The textual form of the value: a plain (saturated) integer when
    /// the canonical power is at most 0, and `"numerator/denominator"`
    /// with a power-of-two (saturated) denominator otherwise.
    pub fn display(&self) -> (s: String)
        ensures
            s@ == display_pp(self@),
    {
        let c = self.canonical();
        let mut out = String::new();
        if c.power <= 0 {
            let v = shl_sat_i32(c.num, (-(c.power as i32)) as u32);
            push_dec_i32(&mut out, v);
        } else {
            push_dec_i32(&mut out, c.num);
            out.append("/");
            let den = shl_sat_i32(1, c.power as u32);
            push_dec_i32(&mut out, den);
            proof {
                reveal_strlit("/");
                assert("/"@ =~= seq!['/']);
                assert(out@ =~= display_pp(self@));
            }
        }
        out
    }
}

} // verus!
