//! Parsing decimal strings: an optional sign, digits with at most one decimal
//! point, and an optional exponent marker `e`/`E` whose following `+` may be
//! doubled.  The digits before and after the point form one magnitude, and
//! the scale is the count of digits after the point minus the exponent.

use vstd::prelude::*;
use crate::arith::{is_digit_char, digit_val, all_digits, digits_val};
use crate::bigint::{int_of, big_from_i64, big_add, big_mul, big_neg};
use crate::decimal::BigDecimal;
use crate::numeric::ParseFloatError;
use vstd::string::StringSliceAdditionalSpecFns;

verus! {

/// How an integer parse fails, following the kinds of the standard library.
#[derive(Debug, Clone, Copy, PartialEq, Eq, Structural)]
pub enum IntErrorKind {
    Empty,
    InvalidDigit,
    PosOverflow,
    NegOverflow,
}

/// How a magnitude parse fails: an empty digit string is distinct from a
/// malformed one.
#[derive(Debug, Clone, Copy, PartialEq, Eq, Structural)]
pub enum BigIntErrorKind {
    Empty,
    InvalidDigit,
}

/// The error of parsing a decimal string; each failure is a distinct,
/// inspectable kind.
#[derive(Debug, Clone)]
pub enum ParseBigDecimalError {
    ParseDecimal(ParseFloatError),
    ParseInt(IntErrorKind),
    ParseBigInt(BigIntErrorKind),
    Empty,
    Other(String),
}

/// Where a decimal parse goes wrong, in the order the input is examined: a
/// bad exponent field, an empty base, bad digits, or a scale outside the
/// 64-bit range.
pub enum ParseIssue {
    Exponent(IntErrorKind),
    EmptyBase,
    Digits(BigIntErrorKind),
    ScaleRange,
}

pub open spec fn is_sign_char(c: char) -> bool {
    c == '+' || c == '-'
}

/// The first position at or after `i` holding `a` or `b`.
pub open spec fn first_index_of(s: Seq<char>, i: int, a: char, b: char) -> Option<int>
    decreases s.len() - i,
{
    if i < 0 || i >= s.len() {
        None
    } else if s[i] == a || s[i] == b {
        Some(i)
    } else {
        first_index_of(s, i + 1, a, b)
    }
}

/// A left-to-right signed accumulation over digit characters, stopping at
/// the first non-digit or at the first step out of the 64-bit range, as the
/// standard library's integer parser does.
pub open spec fn scan_i64(ds: Seq<char>, i: int, acc: int, neg: bool) -> Result<int, IntErrorKind>
    decreases ds.len() - i,
{
    if i < 0 || i >= ds.len() {
        Ok(acc)
    } else if !is_digit_char(ds[i]) {
        Err(IntErrorKind::InvalidDigit)
    } else {
        let a2 = if neg {
            10 * acc - digit_val(ds[i])
        } else {
            10 * acc + digit_val(ds[i])
        };
        if a2 > i64::MAX {
            Err(IntErrorKind::PosOverflow)
        } else if a2 < i64::MIN {
            Err(IntErrorKind::NegOverflow)
        } else {
            scan_i64(ds, i + 1, a2, neg)
        }
    }
}

/// A signed 64-bit integer: an optional sign and at least one digit.
pub open spec fn spec_parse_i64(s: Seq<char>) -> Result<int, IntErrorKind> {
    if s.len() == 0 {
        Err(IntErrorKind::Empty)
    } else {
        let neg = s[0] == '-';
        let ds = if is_sign_char(s[0]) {
            s.subrange(1, s.len() as int)
        } else {
            s
        };
        if ds.len() == 0 {
            Err(IntErrorKind::InvalidDigit)
        } else {
            scan_i64(ds, 0, 0, neg)
        }
    }
}

/// The exponent field: one extra leading `+` is skipped before the integer
/// parse.
pub open spec fn spec_parse_exponent(s: Seq<char>) -> Result<int, IntErrorKind> {
    if s.len() > 0 && s[0] == '+' {
        spec_parse_i64(s.subrange(1, s.len() as int))
    } else {
        spec_parse_i64(s)
    }
}

/// A signed magnitude: an optional sign and at least one digit, with no size
/// limit.
pub open spec fn spec_parse_bigint(s: Seq<char>) -> Result<int, BigIntErrorKind> {
    if s.len() == 0 {
        Err(BigIntErrorKind::Empty)
    } else {
        let neg = s[0] == '-';
        let ds = if is_sign_char(s[0]) {
            s.subrange(1, s.len() as int)
        } else {
            s
        };
        if ds.len() == 0 {
            Err(BigIntErrorKind::Empty)
        } else if !all_digits(ds) {
            Err(BigIntErrorKind::InvalidDigit)
        } else if neg {
            Ok(-digits_val(ds))
        } else {
            Ok(digits_val(ds))
        }
    }
}

/// The whole grammar: the input is split at the first `e`/`E` into a base
/// and an exponent (zero when absent), the base is split at the first `.`,
/// the digits around the point form the magnitude, and the scale is the
/// count of digits after the point minus the exponent.
pub open spec fn spec_parse_decimal(s: Seq<char>) -> Result<(int, int), ParseIssue> {
    let ei = first_index_of(s, 0, 'e', 'E');
    let base = match ei {
        Some(i) => s.subrange(0, i),
        None => s,
    };
    let expres = match ei {
        Some(i) => spec_parse_exponent(s.subrange(i + 1, s.len() as int)),
        None => Ok(0int),
    };
    match expres {
        Err(k) => Err(ParseIssue::Exponent(k)),
        Ok(exponent) => {
            if base.len() == 0 {
                Err(ParseIssue::EmptyBase)
            } else {
                let di = first_index_of(base, 0, '.', '.');
                let digits = match di {
                    Some(i) => base.subrange(0, i) + base.subrange(i + 1, base.len() as int),
                    None => base,
                };
                let offset: int = match di {
                    Some(i) => base.len() - i - 1,
                    None => 0,
                };
                match spec_parse_bigint(digits) {
                    Err(k) => Err(ParseIssue::Digits(k)),
                    Ok(m) => {
                        let sc = offset - exponent;
                        if i64::MIN <= sc <= i64::MAX {
                            Ok((m, sc))
                        } else {
                            Err(ParseIssue::ScaleRange)
                        }
                    },
                }
            }
        },
    }
}

/// The outcome `r` is what the grammar assigns to `s`.
pub open spec fn parse_result_matches(
    s: Seq<char>,
    r: Result<BigDecimal, ParseBigDecimalError>,
) -> bool {
    match spec_parse_decimal(s) {
        Ok(v) => match r {
            Ok(d) => d.m() == v.0 && d.s() == v.1,
            Err(_) => false,
        },
        Err(issue) => match r {
            Ok(_) => false,
            Err(e) => match issue {
                ParseIssue::Exponent(k) => e matches ParseBigDecimalError::ParseInt(k2) && k2 == k,
                ParseIssue::EmptyBase => e matches ParseBigDecimalError::Empty,
                ParseIssue::Digits(k) => e matches ParseBigDecimalError::ParseBigInt(k2) && k2
                    == k,
                ParseIssue::ScaleRange => e matches ParseBigDecimalError::Other(_),
            },
        },
    }
}

/// The first position at or after `from` where `s` holds `a` or `b`.
fn find_first(s: &str, from: usize, a: char, b: char) -> (r: Option<usize>)
    requires
        from <= s@.len(),
    ensures
        match r {
            Some(i) => Some(i as int) == first_index_of(s@, from as int, a, b) && from <= i
                < s@.len(),
            None => first_index_of(s@, from as int, a, b) is None,
        },
{
    let n = s.unicode_len();
    let mut i = from;
    while i < n
        invariant
            from <= i <= n,
            n == s@.len(),
            first_index_of(s@, from as int, a, b) == first_index_of(s@, i as int, a, b),
        decreases n - i,
    {
        let c = s.get_char(i);
        if c == a || c == b {
            return Some(i);
        }
        i = i + 1;
    }
    None
}

/// The exponent field as a signed 64-bit integer.
fn parse_exponent_part(s: &str) -> (r: Result<i64, IntErrorKind>)
    ensures
        match r {
            Ok(v) => spec_parse_exponent(s@) == Ok::<int, IntErrorKind>(v as int),
            Err(k) => spec_parse_exponent(s@) == Err::<int, IntErrorKind>(k),
        },
{
    let n = s.unicode_len();
    if n > 0 && s.get_char(0) == '+' {
        let rest = s.substring_char(1, n);
        parse_i64_digits(rest)
    } else {
        parse_i64_digits(s)
    }
}

/// A signed 64-bit integer from a decimal string.
fn parse_i64_digits(s: &str) -> (r: Result<i64, IntErrorKind>)
    ensures
        match r {
            Ok(v) => spec_parse_i64(s@) == Ok::<int, IntErrorKind>(v as int),
            Err(k) => spec_parse_i64(s@) == Err::<int, IntErrorKind>(k),
        },
{
    let n = s.unicode_len();
    if n == 0 {
        return Err(IntErrorKind::Empty);
    }
    let c0 = s.get_char(0);
    let neg = c0 == '-';
    let start: usize = if c0 == '-' || c0 == '+' {
        1
    } else {
        0
    };
    let ghost ds = if is_sign_char(s@[0]) {
        s@.subrange(1, s@.len() as int)
    } else {
        s@
    };
    if n - start == 0 {
        return Err(IntErrorKind::InvalidDigit);
    }
    let mut acc: i128 = 0;
    let mut i: usize = start;
    while i < n
        invariant
            start <= i <= n,
            n == s@.len(),
            start == (if is_sign_char(s@[0]) { 1int } else { 0int }),
            n > 0,
            ds == (if is_sign_char(s@[0]) {
                s@.subrange(1, s@.len() as int)
            } else {
                s@
            }),
            ds.len() == n - start,
            forall|j: int| 0 <= j < ds.len() ==> ds[j] == s@[j + start],
            i64::MIN <= acc <= i64::MAX,
            scan_i64(ds, 0, 0, neg) == scan_i64(ds, (i - start) as int, acc as int, neg),
            neg == (s@[0] == '-'),
        decreases n - i,
    {
        let c = s.get_char(i);
        if c < '0' || c > '9' {
            return Err(IntErrorKind::InvalidDigit);
        }
        let d = (c as u32) - 48;
        let a2: i128 = if neg {
            10 * acc - d as i128
        } else {
            10 * acc + d as i128
        };
        if a2 > i64::MAX as i128 {
            return Err(IntErrorKind::PosOverflow);
        }
        if a2 < i64::MIN as i128 {
            return Err(IntErrorKind::NegOverflow);
        }
        acc = a2;
        i = i + 1;
    }
    Ok(acc as i64)
}

/// A signed magnitude built digit by digit, of any size.
fn parse_bigint_digits(s: &str) -> (r: Result<num_bigint::BigInt, BigIntErrorKind>)
    ensures
        match r {
            Ok(v) => spec_parse_bigint(s@) == Ok::<int, BigIntErrorKind>(int_of(v)),
            Err(k) => spec_parse_bigint(s@) == Err::<int, BigIntErrorKind>(k),
        },
{
    let n = s.unicode_len();
    if n == 0 {
        return Err(BigIntErrorKind::Empty);
    }
    let c0 = s.get_char(0);
    let neg = c0 == '-';
    let start: usize = if c0 == '-' || c0 == '+' {
        1
    } else {
        0
    };
    let ghost ds = if is_sign_char(s@[0]) {
        s@.subrange(1, s@.len() as int)
    } else {
        s@
    };
    if n - start == 0 {
        return Err(BigIntErrorKind::Empty);
    }
    let ten = big_from_i64(10);
    let mut acc = big_from_i64(0);
    let mut i: usize = start;
    proof {
        assert(ds.subrange(0, 0) =~= Seq::<char>::empty());
    }
    while i < n
        invariant
            start <= i <= n,
            n == s@.len(),
            n > 0,
            start == (if is_sign_char(s@[0]) { 1int } else { 0int }),
            ds == (if is_sign_char(s@[0]) {
                s@.subrange(1, s@.len() as int)
            } else {
                s@
            }),
            ds.len() == n - start,
            forall|j: int| 0 <= j < ds.len() ==> ds[j] == s@[j + start],
            int_of(ten) == 10,
            all_digits(ds.subrange(0, (i - start) as int)),
            int_of(acc) == digits_val(ds.subrange(0, (i - start) as int)),
        decreases n - i,
    {
        let c = s.get_char(i);
        if c < '0' || c > '9' {
            proof {
                assert(ds[(i - start) as int] == c);
                assert(!is_digit_char(c));
            }
            return Err(BigIntErrorKind::InvalidDigit);
        }
        let d = (c as u32) - 48;
        let db = big_from_i64(d as i64);
        let acc10 = big_mul(&acc, &ten);
        proof {
            let pre = ds.subrange(0, (i - start) as int);
            let post = ds.subrange(0, (i - start) as int + 1);
            assert(post.drop_last() =~= pre);
            assert(post.last() == ds[(i - start) as int] == c);
            assert(digits_val(post) == 10 * digits_val(pre) + digit_val(c));
        }
        acc = big_add(&acc10, &db);
        i = i + 1;
    }
    proof {
        assert(ds.subrange(0, (n - start) as int) =~= ds);
    }
    if neg {
        Ok(big_neg(&acc))
    } else {
        Ok(acc)
    }
}

impl BigDecimal {
    /// Parses a decimal string.  Only radix 10 is accepted; any other radix
    /// is rejected with a message.
    pub fn from_str_radix(s: &str, radix: u32) -> (r: Result<BigDecimal, ParseBigDecimalError>)
        ensures
            radix == 10 ==> parse_result_matches(s@, r),
            radix != 10 ==> (r matches Err(e) && e matches ParseBigDecimalError::Other(msg)
                && msg@ == "The radix for decimal MUST be 10"@),
    {
        if radix != 10 {
            return Err(
                ParseBigDecimalError::Other(String::from_str("The radix for decimal MUST be 10")),
            );
        }
        let n = s.unicode_len();
        let mut exponent: i64 = 0;
        let base = match find_first(s, 0, 'e', 'E') {
            None => s,
            Some(i) => {
                let exp_str = s.substring_char(i + 1, n);
                match parse_exponent_part(exp_str) {
                    Err(k) => {
                        return Err(ParseBigDecimalError::ParseInt(k));
                    },
                    Ok(v) => {
                        exponent = v;
                    },
                }
                s.substring_char(0, i)
            },
        };
        let bn = base.unicode_len();
        if bn == 0 {
            return Err(ParseBigDecimalError::Empty);
        }
        let mut offset: usize = 0;
        let digits_string = match find_first(base, 0, '.', '.') {
            None => String::from_str(base),
            Some(i) => {
                let lead = base.substring_char(0, i);
                let trail = base.substring_char(i + 1, bn);
                let mut d = String::from_str(lead);
                d.append(trail);
                offset = bn - i - 1;
                d
            },
        };
        match parse_bigint_digits(digits_string.as_str()) {
            Err(k) => Err(ParseBigDecimalError::ParseBigInt(k)),
            Ok(m) => {
                let sc = offset as i128 - exponent as i128;
                if sc < i64::MIN as i128 || sc > i64::MAX as i128 {
                    Err(ParseBigDecimalError::Other(String::from_str("the scale is out of range")))
                } else {
                    Ok(BigDecimal::new(m, sc as i64))
                }
            },
        }
    }

    /// Parses a decimal string in radix 10.
    pub fn from_str(s: &str) -> (r: Result<BigDecimal, ParseBigDecimalError>)
        ensures
            parse_result_matches(s@, r),
    {
        BigDecimal::from_str_radix(s, 10)
    }

    /// Parses a byte slice as a decimal string; any failure, including
    /// invalid UTF-8, yields `None`.
    pub fn parse_bytes(buf: &[u8], radix: u32) -> (r: Option<BigDecimal>)
        ensures
            !vstd::utf8::valid_utf8(buf@) ==> r is None,
            radix != 10 ==> r is None,
            vstd::utf8::valid_utf8(buf@) && radix == 10 ==> match spec_parse_decimal(
                vstd::utf8::decode_utf8(buf@),
            ) {
                Ok(v) => r matches Some(d) && d.m() == v.0 && d.s() == v.1,
                Err(_) => r is None,
            },
    {
        match bytes_to_str(buf) {
            None => None,
            Some(t) => {
                proof {
                    vstd::utf8::encode_utf8_decode_utf8(t@);
                }
                match BigDecimal::from_str_radix(t, radix) {
                    Ok(d) => Some(d),
                    Err(_) => None,
                }
            },
        }
    }
}

/// Relies on `core::str::from_utf8`: a slice of valid UTF-8 decodes to the
/// string of exactly those bytes; invalid UTF-8 is rejected.
#[verifier::external_body]
fn bytes_to_str(buf: &[u8]) -> (r: Option<&str>)
    ensures
        r is Some <==> vstd::utf8::valid_utf8(buf@),
        r matches Some(v) ==> v.spec_bytes() == buf@,
{
    core::str::from_utf8(buf).ok()
}

} // verus!
