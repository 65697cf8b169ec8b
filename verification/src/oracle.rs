//! The multiply oracle's computing core: two numeric strings in, their exact
//! product out, rendered without the trailing zeros that representation
//! alone would add.  The surrounding adapter extracts the strings from its
//! JSON request and wraps the answer; this module owns the arithmetic.

use vstd::prelude::*;
use crate::decimal::BigDecimal;
use crate::parse::{ParseBigDecimalError, spec_parse_decimal};
use crate::format::format_chars;

verus! {

/// The adapter's own failure: a request field that is not a numeric string.
#[derive(Debug, Clone, Copy, PartialEq, Eq, Structural)]
pub enum Error {
    InvalidEncoding,
}

/// Why a multiplication request failed: one of the operands did not parse,
/// or the request itself was malformed.
#[derive(Debug, Clone)]
pub enum MultiplyError {
    ParseBigDecimalError(ParseBigDecimalError),
    ResultError(Error),
}

/// Drops trailing zero characters.
pub open spec fn strip_trailing_zeros(s: Seq<char>) -> Seq<char>
    decreases s.len(),
{
    if s.len() > 0 && s.last() == '0' {
        strip_trailing_zeros(s.drop_last())
    } else {
        s
    }
}

/// Drops one trailing decimal point.
pub open spec fn strip_trailing_dot(s: Seq<char>) -> Seq<char> {
    if s.len() > 0 && s.last() == '.' {
        s.drop_last()
    } else {
        s
    }
}

pub open spec fn has_char(s: Seq<char>, c: char) -> bool {
    exists|i: int| 0 <= i < s.len() && s[i] == c
}

/// A rendered decimal without its trailing zeros: when the string has a
/// decimal point, trailing zeros fall away and a then-bare point does too.
pub open spec fn trim_decimal(s: Seq<char>) -> Seq<char> {
    if has_char(s, '.') {
        strip_trailing_dot(strip_trailing_zeros(s))
    } else {
        s
    }
}

/// Renders a decimal without the trailing zeros of its representation:
/// when the string has a decimal point, trailing zeros are removed, and a
/// decimal point left bare is removed too.
pub fn format_decimal(value: &BigDecimal) -> (r: String)
    ensures
        r@ == trim_decimal(format_chars(value.m(), value.s())),
{
    let out = value.to_string();
    let s = out.as_str();
    let n = s.unicode_len();
    let mut has_dot = false;
    let mut j: usize = 0;
    while j < n
        invariant
            j <= n,
            n == s@.len(),
            has_dot == exists|i: int| 0 <= i < j && s@[i] == '.',
        decreases n - j,
    {
        if s.get_char(j) == '.' {
            has_dot = true;
            proof {
                assert(s@[j as int] == '.');
            }
            j = n;
        } else {
            j = j + 1;
        }
    }
    if !has_dot {
        proof {
            assert(!has_char(s@, '.'));
        }
        return out;
    }
    let mut i = n;
    proof {
        assert(s@.subrange(0, n as int) =~= s@);
    }
    while i > 0 && s.get_char(i - 1) == '0'
        invariant
            i <= n,
            n == s@.len(),
            strip_trailing_zeros(s@) == strip_trailing_zeros(s@.subrange(0, i as int)),
        decreases i,
    {
        proof {
            assert(s@.subrange(0, i as int).last() == s@[i - 1]);
            assert(s@.subrange(0, i as int).drop_last() =~= s@.subrange(0, i - 1));
        }
        i = i - 1;
    }
    proof {
        if i > 0 {
            assert(s@.subrange(0, i as int).last() == s@[i - 1]);
        }
        assert(strip_trailing_zeros(s@.subrange(0, i as int)) == s@.subrange(0, i as int));
    }
    let cut = if i > 0 && s.get_char(i - 1) == '.' {
        i - 1
    } else {
        i
    };
    proof {
        if i > 0 && s@[i - 1] == '.' {
            assert(s@.subrange(0, i as int).drop_last() =~= s@.subrange(0, i - 1));
        }
        assert(has_char(s@, '.'));
    }
    String::from_str(s.substring_char(0, cut))
}

/// Multiplies two decimal strings exactly: the multiplicand from the input,
/// the multiplier from the adapter, rendered without trailing zeros.  A
/// product whose scale would leave the 64-bit range is reported through the
/// parse error's catch-all kind.
pub fn multiply_values(value: &str, times: &str) -> (r: Result<String, MultiplyError>)
    ensures
        spec_parse_decimal(value@) is Err ==> (r matches Err(e) && e matches
            MultiplyError::ParseBigDecimalError(_)),
        spec_parse_decimal(value@) is Ok && spec_parse_decimal(times@) is Err ==> (r matches Err(
            e,
        ) && e matches MultiplyError::ParseBigDecimalError(_)),
        (spec_parse_decimal(value@) is Ok && spec_parse_decimal(times@) is Ok && !(i64::MIN
            <= spec_parse_decimal(value@)->Ok_0.1 + spec_parse_decimal(times@)->Ok_0.1
            <= i64::MAX)) ==> (r matches Err(e) && e matches MultiplyError::ParseBigDecimalError(
            pe,
        ) && pe matches ParseBigDecimalError::Other(_)),
        (spec_parse_decimal(value@) is Ok && spec_parse_decimal(times@) is Ok && i64::MIN
            <= spec_parse_decimal(value@)->Ok_0.1 + spec_parse_decimal(times@)->Ok_0.1
            <= i64::MAX) ==> (r matches Ok(s) && s@ == trim_decimal(
            format_chars(
                spec_parse_decimal(value@)->Ok_0.0 * spec_parse_decimal(times@)->Ok_0.0,
                spec_parse_decimal(value@)->Ok_0.1 + spec_parse_decimal(times@)->Ok_0.1,
            ),
        )),
{
    let multiplicand = match BigDecimal::from_str(value) {
        Ok(d) => d,
        Err(e) => {
            return Err(MultiplyError::ParseBigDecimalError(e));
        },
    };
    let multiplier = match BigDecimal::from_str(times) {
        Ok(d) => d,
        Err(e) => {
            return Err(MultiplyError::ParseBigDecimalError(e));
        },
    };
    proof {
        multiplicand.lemma_repr();
        multiplier.lemma_repr();
    }
    let ns = multiplicand.scale as i128 + multiplier.scale as i128;
    if ns > i64::MAX as i128 || ns < i64::MIN as i128 {
        return Err(
            MultiplyError::ParseBigDecimalError(
                ParseBigDecimalError::Other(String::from_str("the scale is out of range")),
            ),
        );
    }
    let product = multiplicand.mul(&multiplier);
    Ok(format_decimal(&product))
}

} // verus!
