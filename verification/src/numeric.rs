//! Generic numeric traits: additive and multiplicative identities, operator
//! bundles, string conversion with a radix, and a clamp over any partial
//! order.

use vstd::prelude::*;
use vstd::std_specs::cmp::PartialOrdSpec;
use crate::parse::IntErrorKind;

verus! {

/// What went wrong while parsing a floating-point number.
#[derive(Debug, Clone, Copy, PartialEq, Eq, Structural)]
pub enum FloatErrorKind {
    Empty,
    Invalid,
}

/// The error of parsing a floating-point number from a string.
#[derive(Debug, Clone, Copy, PartialEq, Eq, Structural)]
pub struct ParseFloatError {
    pub kind: FloatErrorKind,
}

/// An additive identity element.
pub trait Zero: Sized {
    /// Returns the additive identity element, `0`.
    fn zero() -> Self;

    /// Returns `true` if `self` is equal to the additive identity.
    fn is_zero(&self) -> bool;
}

/// A multiplicative identity element.
pub trait One: Sized {
    /// Returns the multiplicative identity element, `1`.
    fn one() -> Self;
}

/// The trait for types implementing basic numeric operations.
pub trait NumOps<Rhs = Self, Output = Self>: core::ops::Add<Rhs, Output = Output> + core::ops::Sub<
    Rhs,
    Output = Output,
> + core::ops::Mul<Rhs, Output = Output> + core::ops::Div<Rhs, Output = Output> + core::ops::Rem<
    Rhs,
    Output = Output,
> {

}

impl<T, Rhs, Output> NumOps<Rhs, Output> for T where
    T: core::ops::Add<Rhs, Output = Output> + core::ops::Sub<Rhs, Output = Output> + core::ops::Mul<
        Rhs,
        Output = Output,
    > + core::ops::Div<Rhs, Output = Output> + core::ops::Rem<Rhs, Output = Output>,
 {

}

/// The base trait for numeric types: identities, comparison, the basic
/// operators, and conversion from a string in a radix up to 36.
pub trait Num: PartialEq + Zero + One + NumOps {
    type FromStrRadixErr;

    /// Convert from a string and radix <= 36.
    fn from_str_radix(s: &str, radix: u32) -> Result<Self, Self::FromStrRadixErr>;
}

/// Returns the additive identity, `0`.
pub fn zero<T: Zero>() -> T {
    T::zero()
}

/// Returns the multiplicative identity, `1`.
pub fn one<T: One>() -> T {
    T::one()
}

/// A value bounded by a minimum and a maximum: below `min` this returns
/// `min`, above `max` it returns `max`, otherwise the input itself.
pub fn clamp<T: PartialOrd>(input: T, min: T, max: T) -> (r: T)
    ensures
        T::obeys_partial_cmp_spec() ==> r == (if input.partial_cmp_spec(&min) == Some(
            core::cmp::Ordering::Less,
        ) {
            min
        } else if input.partial_cmp_spec(&max) == Some(core::cmp::Ordering::Greater) {
            max
        } else {
            input
        }),
{
    if input < min {
        min
    } else if input > max {
        max
    } else {
        input
    }
}

/// The trait for `Num` types whose operators also take the second operand by
/// reference.
pub trait NumRef: Num + for<'r> NumOps<&'r Self> {

}

impl<T> NumRef for T where T: Num + for<'r> NumOps<&'r T> {

}

/// The trait for references implementing the numeric operators, taking the
/// second operand either by value or by reference.
pub trait RefNum<Base>: NumOps<Base, Base> + for<'r> NumOps<&'r Base, Base> {

}

impl<T, Base> RefNum<Base> for T where T: NumOps<Base, Base> + for<'r> NumOps<&'r Base, Base> {

}

/// The trait for types implementing the numeric assignment operators.
pub trait NumAssignOps<Rhs = Self> {

}

impl NumAssignOps for usize {

}

impl NumAssignOps for u8 {

}

impl NumAssignOps for u16 {

}

impl NumAssignOps for u32 {

}

impl NumAssignOps for u64 {

}

impl NumAssignOps for isize {

}

impl NumAssignOps for i8 {

}

impl NumAssignOps for i16 {

}

impl NumAssignOps for i32 {

}

impl NumAssignOps for i64 {

}


/// The trait for `Num` types which also implement assignment operators.
pub trait NumAssign: Num + NumAssignOps {

}

impl<T> NumAssign for T where T: Num + NumAssignOps {

}

/// The trait for `NumAssign` types whose assignment operators also take the
/// second operand by reference.
pub trait NumAssignRef: NumAssign + for<'r> NumAssignOps<&'r Self> {

}

impl<T> NumAssignRef for T where T: NumAssign + for<'r> NumAssignOps<&'r T> {

}

/// The value of one digit character in a radix up to 36, with letters of
/// either case; 99 marks a character that is no digit at all.
pub open spec fn radix_digit_val(c: char) -> int {
    if '0' <= c && c <= '9' {
        c as int - '0' as int
    } else if 'a' <= c && c <= 'z' {
        c as int - 'a' as int + 10
    } else if 'A' <= c && c <= 'Z' {
        c as int - 'A' as int + 10
    } else {
        99
    }
}

/// A left-to-right signed accumulation in a radix, stopping at the first
/// character outside the radix or the first step out of `[min, max]`, as the
/// standard library's integer parsers do.
pub open spec fn scan_radix(
    ds: Seq<char>,
    i: int,
    acc: int,
    neg: bool,
    radix: int,
    min: int,
    max: int,
) -> Result<int, IntErrorKind>
    decreases ds.len() - i,
{
    if i < 0 || i >= ds.len() {
        Ok(acc)
    } else if radix_digit_val(ds[i]) >= radix {
        Err(IntErrorKind::InvalidDigit)
    } else {
        let a2 = if neg {
            radix * acc - radix_digit_val(ds[i])
        } else {
            radix * acc + radix_digit_val(ds[i])
        };
        if a2 > max {
            Err(IntErrorKind::PosOverflow)
        } else if a2 < min {
            Err(IntErrorKind::NegOverflow)
        } else {
            scan_radix(ds, i + 1, a2, neg, radix, min, max)
        }
    }
}

/// An integer in `[min, max]` from a string in a radix: an optional sign
/// (`-` only when the range holds negative numbers) and at least one digit.
pub open spec fn spec_parse_int_radix(
    s: Seq<char>,
    radix: int,
    min: int,
    max: int,
) -> Result<int, IntErrorKind> {
    if s.len() == 0 {
        Err(IntErrorKind::Empty)
    } else {
        let neg = s[0] == '-';
        let ds = if s[0] == '+' || s[0] == '-' {
            s.subrange(1, s.len() as int)
        } else {
            s
        };
        if neg && min == 0 {
            Err(IntErrorKind::InvalidDigit)
        } else if ds.len() == 0 {
            Err(IntErrorKind::InvalidDigit)
        } else {
            scan_radix(ds, 0, 0, neg, radix, min, max)
        }
    }
}

/// An integer in `[min, max]` from a string in the given radix.
fn parse_int_radix(s: &str, radix: u32, min: i128, max: i128) -> (r: Result<i128, IntErrorKind>)
    requires
        2 <= radix <= 36,
        min <= 0 < max,
        i64::MIN <= min,
        max <= u64::MAX,
    ensures
        match r {
            Ok(v) => spec_parse_int_radix(s@, radix as int, min as int, max as int) == Ok::<
                int,
                IntErrorKind,
            >(v as int) && min <= v <= max,
            Err(k) => spec_parse_int_radix(s@, radix as int, min as int, max as int) == Err::<
                int,
                IntErrorKind,
            >(k),
        },
{
    let n = s.unicode_len();
    if n == 0 {
        return Err(IntErrorKind::Empty);
    }
    let c0 = s.get_char(0);
    let neg = c0 == '-';
    let start: usize = if c0 == '-' || c0 == '+' {
        1
    } else {
        0
    };
    let ghost ds = if s@[0] == '+' || s@[0] == '-' {
        s@.subrange(1, s@.len() as int)
    } else {
        s@
    };
    if neg && min == 0 {
        return Err(IntErrorKind::InvalidDigit);
    }
    if n - start == 0 {
        return Err(IntErrorKind::InvalidDigit);
    }
    let mut acc: i128 = 0;
    let mut i: usize = start;
    while i < n
        invariant
            start <= i <= n,
            n == s@.len(),
            n > 0,
            2 <= radix <= 36,
            min <= 0 < max,
            i64::MIN <= min,
            max <= u64::MAX,
            start == (if s@[0] == '+' || s@[0] == '-' { 1int } else { 0int }),
            ds == (if s@[0] == '+' || s@[0] == '-' {
                s@.subrange(1, s@.len() as int)
            } else {
                s@
            }),
            ds.len() == n - start,
            forall|j: int| 0 <= j < ds.len() ==> ds[j] == s@[j + start],
            min <= acc <= max,
            !(neg && min == 0),
            scan_radix(ds, 0, 0, neg, radix as int, min as int, max as int) == scan_radix(
                ds,
                (i - start) as int,
                acc as int,
                neg,
                radix as int,
                min as int,
                max as int,
            ),
            neg == (s@[0] == '-'),
        decreases n - i,
    {
        let c = s.get_char(i);
        let cv = c as u32;
        let d: u32 = if cv >= 48 && cv <= 57 {
            cv - 48
        } else if cv >= 97 && cv <= 122 {
            cv - 97 + 10
        } else if cv >= 65 && cv <= 90 {
            cv - 65 + 10
        } else {
            99
        };
        proof {
            assert(ds[(i - start) as int] == c);
            assert(d as int == radix_digit_val(c));
        }
        if d >= radix {
            return Err(IntErrorKind::InvalidDigit);
        }
        proof {
            assert(36 * (i64::MIN as i128) <= radix as i128 * acc <= 36 * (u64::MAX as i128))
                by (nonlinear_arith)
                requires
                    2 <= radix <= 36 && i64::MIN <= acc && acc <= u64::MAX,
            ;
        }
        let a2: i128 = if neg {
            radix as i128 * acc - d as i128
        } else {
            radix as i128 * acc + d as i128
        };
        if a2 > max {
            return Err(IntErrorKind::PosOverflow);
        }
        if a2 < min {
            return Err(IntErrorKind::NegOverflow);
        }
        acc = a2;
        i = i + 1;
    }
    Ok(acc)
}

impl Zero for usize {
    fn zero() -> usize {
        0
    }

    fn is_zero(&self) -> bool {
        *self == 0
    }
}

impl One for usize {
    fn one() -> usize {
        1
    }
}

impl Zero for u8 {
    fn zero() -> u8 {
        0
    }

    fn is_zero(&self) -> bool {
        *self == 0
    }
}

impl One for u8 {
    fn one() -> u8 {
        1
    }
}

impl Zero for u16 {
    fn zero() -> u16 {
        0
    }

    fn is_zero(&self) -> bool {
        *self == 0
    }
}

impl One for u16 {
    fn one() -> u16 {
        1
    }
}

impl Zero for u32 {
    fn zero() -> u32 {
        0
    }

    fn is_zero(&self) -> bool {
        *self == 0
    }
}

impl One for u32 {
    fn one() -> u32 {
        1
    }
}

impl Zero for u64 {
    fn zero() -> u64 {
        0
    }

    fn is_zero(&self) -> bool {
        *self == 0
    }
}

impl One for u64 {
    fn one() -> u64 {
        1
    }
}

impl Zero for isize {
    fn zero() -> isize {
        0
    }

    fn is_zero(&self) -> bool {
        *self == 0
    }
}

impl One for isize {
    fn one() -> isize {
        1
    }
}

impl Zero for i8 {
    fn zero() -> i8 {
        0
    }

    fn is_zero(&self) -> bool {
        *self == 0
    }
}

impl One for i8 {
    fn one() -> i8 {
        1
    }
}

impl Zero for i16 {
    fn zero() -> i16 {
        0
    }

    fn is_zero(&self) -> bool {
        *self == 0
    }
}

impl One for i16 {
    fn one() -> i16 {
        1
    }
}

impl Zero for i32 {
    fn zero() -> i32 {
        0
    }

    fn is_zero(&self) -> bool {
        *self == 0
    }
}

impl One for i32 {
    fn one() -> i32 {
        1
    }
}

impl Zero for i64 {
    fn zero() -> i64 {
        0
    }

    fn is_zero(&self) -> bool {
        *self == 0
    }
}

impl One for i64 {
    fn one() -> i64 {
        1
    }
}

impl Num for usize {
    type FromStrRadixErr = IntErrorKind;

    fn from_str_radix(s: &str, radix: u32) -> Result<usize, IntErrorKind> {
        if radix < 2 || radix > 36 {
            return Err(IntErrorKind::InvalidDigit);
        }
        match parse_int_radix(s, radix, 0, usize::MAX as i128) {
            Ok(v) => Ok(v as usize),
            Err(e) => Err(e),
        }
    }
}

impl Num for u8 {
    type FromStrRadixErr = IntErrorKind;

    fn from_str_radix(s: &str, radix: u32) -> Result<u8, IntErrorKind> {
        if radix < 2 || radix > 36 {
            return Err(IntErrorKind::InvalidDigit);
        }
        match parse_int_radix(s, radix, 0, u8::MAX as i128) {
            Ok(v) => Ok(v as u8),
            Err(e) => Err(e),
        }
    }
}

impl Num for u16 {
    type FromStrRadixErr = IntErrorKind;

    fn from_str_radix(s: &str, radix: u32) -> Result<u16, IntErrorKind> {
        if radix < 2 || radix > 36 {
            return Err(IntErrorKind::InvalidDigit);
        }
        match parse_int_radix(s, radix, 0, u16::MAX as i128) {
            Ok(v) => Ok(v as u16),
            Err(e) => Err(e),
        }
    }
}

impl Num for u32 {
    type FromStrRadixErr = IntErrorKind;

    fn from_str_radix(s: &str, radix: u32) -> Result<u32, IntErrorKind> {
        if radix < 2 || radix > 36 {
            return Err(IntErrorKind::InvalidDigit);
        }
        match parse_int_radix(s, radix, 0, u32::MAX as i128) {
            Ok(v) => Ok(v as u32),
            Err(e) => Err(e),
        }
    }
}

impl Num for u64 {
    type FromStrRadixErr = IntErrorKind;

    fn from_str_radix(s: &str, radix: u32) -> Result<u64, IntErrorKind> {
        if radix < 2 || radix > 36 {
            return Err(IntErrorKind::InvalidDigit);
        }
        match parse_int_radix(s, radix, 0, u64::MAX as i128) {
            Ok(v) => Ok(v as u64),
            Err(e) => Err(e),
        }
    }
}

impl Num for isize {
    type FromStrRadixErr = IntErrorKind;

    fn from_str_radix(s: &str, radix: u32) -> Result<isize, IntErrorKind> {
        if radix < 2 || radix > 36 {
            return Err(IntErrorKind::InvalidDigit);
        }
        match parse_int_radix(s, radix, isize::MIN as i128, isize::MAX as i128) {
            Ok(v) => Ok(v as isize),
            Err(e) => Err(e),
        }
    }
}

impl Num for i8 {
    type FromStrRadixErr = IntErrorKind;

    fn from_str_radix(s: &str, radix: u32) -> Result<i8, IntErrorKind> {
        if radix < 2 || radix > 36 {
            return Err(IntErrorKind::InvalidDigit);
        }
        match parse_int_radix(s, radix, i8::MIN as i128, i8::MAX as i128) {
            Ok(v) => Ok(v as i8),
            Err(e) => Err(e),
        }
    }
}

impl Num for i16 {
    type FromStrRadixErr = IntErrorKind;

    fn from_str_radix(s: &str, radix: u32) -> Result<i16, IntErrorKind> {
        if radix < 2 || radix > 36 {
            return Err(IntErrorKind::InvalidDigit);
        }
        match parse_int_radix(s, radix, i16::MIN as i128, i16::MAX as i128) {
            Ok(v) => Ok(v as i16),
            Err(e) => Err(e),
        }
    }
}

impl Num for i32 {
    type FromStrRadixErr = IntErrorKind;

    fn from_str_radix(s: &str, radix: u32) -> Result<i32, IntErrorKind> {
        if radix < 2 || radix > 36 {
            return Err(IntErrorKind::InvalidDigit);
        }
        match parse_int_radix(s, radix, i32::MIN as i128, i32::MAX as i128) {
            Ok(v) => Ok(v as i32),
            Err(e) => Err(e),
        }
    }
}

impl Num for i64 {
    type FromStrRadixErr = IntErrorKind;

    fn from_str_radix(s: &str, radix: u32) -> Result<i64, IntErrorKind> {
        if radix < 2 || radix > 36 {
            return Err(IntErrorKind::InvalidDigit);
        }
        match parse_int_radix(s, radix, i64::MIN as i128, i64::MAX as i128) {
            Ok(v) => Ok(v as i64),
            Err(e) => Err(e),
        }
    }
}

impl Zero for crate::decimal::BigDecimal {
    fn zero() -> crate::decimal::BigDecimal {
        crate::decimal::BigDecimal::zero()
    }

    fn is_zero(&self) -> bool {
        crate::decimal::BigDecimal::is_zero(self)
    }
}

impl One for crate::decimal::BigDecimal {
    fn one() -> crate::decimal::BigDecimal {
        crate::decimal::BigDecimal::one()
    }
}

} // verus!
