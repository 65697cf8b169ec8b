//! Rendering a decimal value as a classic decimal string: the magnitude's
//! digits are split at the decimal point according to the scale, padding with
//! zeros where the magnitude has fewer digits than the scale demands or where
//! a nonpositive scale appends trailing zeros.  An explicitly requested
//! precision truncates or zero-pads the fractional part without rounding;
//! the sign is rendered only for negative magnitudes.

use vstd::prelude::*;
use crate::arith::{abs_int, dec_seq, zero_chars};
use crate::bigint::{big_abs, big_to_decimal};
use crate::decimal::BigDecimal;

verus! {

/// The digits before the decimal point, given the magnitude's digit string
/// and the scale.
pub open spec fn int_chars(a: Seq<char>, s: int) -> Seq<char> {
    if s >= a.len() {
        seq!['0']
    } else if s <= 0 {
        a + zero_chars((-s) as nat)
    } else {
        a.subrange(0, a.len() - s)
    }
}

/// The digits after the decimal point, given the magnitude's digit string
/// and the scale.
pub open spec fn frac_chars(a: Seq<char>, s: int) -> Seq<char> {
    if s >= a.len() {
        zero_chars((s - a.len()) as nat) + a
    } else if s <= 0 {
        Seq::empty()
    } else {
        a.subrange(a.len() - s, a.len() as int)
    }
}

/// Joins an integer part and a fractional part; the point appears only when
/// the fraction is nonempty.
pub open spec fn with_fraction(i: Seq<char>, f: Seq<char>) -> Seq<char> {
    if f.len() > 0 {
        i + seq!['.'] + f
    } else {
        i
    }
}

/// A fractional part held to exactly `p` digits: zero-padded or truncated,
/// never rounded.
pub open spec fn adjust_prec(f: Seq<char>, p: nat) -> Seq<char> {
    if f.len() < p {
        f + zero_chars((p - f.len()) as nat)
    } else {
        f.subrange(0, p as int)
    }
}

/// The rendering of the value `(m, s)`.
pub open spec fn format_chars(m: int, s: int) -> Seq<char> {
    let a = dec_seq(abs_int(m) as nat);
    let body = with_fraction(int_chars(a, s), frac_chars(a, s));
    if m < 0 {
        seq!['-'] + body
    } else {
        body
    }
}

/// The rendering of the value `(m, s)` with the fractional part held to
/// exactly `p` digits.
pub open spec fn format_chars_prec(m: int, s: int, p: nat) -> Seq<char> {
    let a = dec_seq(abs_int(m) as nat);
    let body = with_fraction(int_chars(a, s), adjust_prec(frac_chars(a, s), p));
    if m < 0 {
        seq!['-'] + body
    } else {
        body
    }
}

/// Appends `k` zero characters.
fn push_zeros(out: &mut String, k: u64)
    ensures
        final(out)@ == old(out)@ + zero_chars(k as nat),
{
    proof {
        reveal_strlit("0");
        assert(old(out)@ + zero_chars(0) =~= old(out)@);
    }
    let mut i: u64 = 0;
    while i < k
        invariant
            i <= k,
            out@ == old(out)@ + zero_chars(i as nat),
        decreases k - i,
    {
        proof {
            reveal_strlit("0");
            assert((old(out)@ + zero_chars(i as nat)) + "0"@ =~= old(out)@ + zero_chars(
                (i + 1) as nat,
            ));
        }
        out.append("0");
        i = i + 1;
    }
}

impl BigDecimal {
    /// The integer part and the fractional part of the rendering, without
    /// sign or point.
    fn decimal_parts(&self) -> (r: (String, String))
        ensures
            r.0@ == int_chars(dec_seq(abs_int(self.m()) as nat), self.s()),
            r.1@ == frac_chars(dec_seq(abs_int(self.m()) as nat), self.s()),
    {
        proof {
            self.lemma_repr();
        }
        let mag = big_abs(&self.int_val);
        let a = big_to_decimal(&mag);
        let alen = a.as_str().unicode_len();
        let ghost aseq = dec_seq(abs_int(self.m()) as nat);
        if self.scale as i128 >= alen as i128 {
            let mut frac = String::new();
            push_zeros(&mut frac, (self.scale as i128 - alen as i128) as u64);
            let frac = frac.concat(a.as_str());
            proof {
                reveal_strlit("0");
                assert(Seq::<char>::empty() + zero_chars((self.s() - aseq.len()) as nat) + aseq
                    =~= zero_chars((self.s() - aseq.len()) as nat) + aseq);
            }
            (String::from_str("0"), frac)
        } else if self.scale <= 0 {
            let mut int_part = String::from_str(a.as_str());
            push_zeros(&mut int_part, (-(self.scale as i128)) as u64);
            (int_part, String::new())
        } else {
            let split = alen - (self.scale as usize);
            let lead = a.as_str().substring_char(0, split);
            let trail = a.as_str().substring_char(split, alen);
            (String::from_str(lead), String::from_str(trail))
        }
    }

    /// The decimal string of the value: digits split at the decimal point by
    /// the scale, a leading `-` only for negative magnitudes.
    pub fn to_string(&self) -> (r: String)
        ensures
            r@ == format_chars(self.m(), self.s()),
    {
        let (int_part, frac_part) = self.decimal_parts();
        let mut out = if self.is_negative() {
            String::from_str("-")
        } else {
            String::new()
        };
        proof {
            reveal_strlit("-");
            reveal_strlit(".");
        }
        let ghost base = out@;
        out.append(int_part.as_str());
        if frac_part.as_str().unicode_len() > 0 {
            out.append(".");
            out.append(frac_part.as_str());
            proof {
                assert(((base + int_part@) + "."@) + frac_part@ =~= base + (int_part@
                    + seq!['.'] + frac_part@));
            }
        }
        proof {
            if self.m() < 0 {
                assert("-"@ =~= seq!['-']);
                assert(out@ =~= format_chars(self.m(), self.s()));
            } else {
                assert(out@ =~= format_chars(self.m(), self.s()));
            }
        }
        out
    }

    /// The decimal string of the value with the fractional part held to
    /// exactly `precision` digits: zero-padded or truncated for display,
    /// never rounded.
    pub fn to_string_with_precision(&self, precision: usize) -> (r: String)
        ensures
            r@ == format_chars_prec(self.m(), self.s(), precision as nat),
    {
        let (int_part, frac_part) = self.decimal_parts();
        let flen = frac_part.as_str().unicode_len();
        let frac = if flen < precision {
            let mut f = String::from_str(frac_part.as_str());
            push_zeros(&mut f, (precision - flen) as u64);
            f
        } else {
            String::from_str(frac_part.as_str().substring_char(0, precision))
        };
        let mut out = if self.is_negative() {
            String::from_str("-")
        } else {
            String::new()
        };
        proof {
            reveal_strlit("-");
            reveal_strlit(".");
        }
        let ghost base = out@;
        out.append(int_part.as_str());
        if frac.as_str().unicode_len() > 0 {
            out.append(".");
            out.append(frac.as_str());
            proof {
                assert(((base + int_part@) + "."@) + frac@ =~= base + (int_part@ + seq!['.']
                    + frac@));
            }
        }
        proof {
            if self.m() < 0 {
                assert("-"@ =~= seq!['-']);
                assert(out@ =~= format_chars_prec(self.m(), self.s(), precision as nat));
            } else {
                assert(out@ =~= format_chars_prec(self.m(), self.s(), precision as nat));
            }
        }
        out
    }
}

} // verus!
