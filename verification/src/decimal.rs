//! The decimal value: an arbitrary-precision integer magnitude together with
//! a signed 64-bit scale.  The pair `(m, s)` denotes the number `m * 10^(-s)`,
//! so a positive scale puts digits after the decimal point and a negative
//! scale appends trailing zeros.  The representation is not canonical: two
//! pairs denote the same number whenever their magnitudes agree after aligning
//! both to the larger scale, and equality and ordering are defined that way.

use vstd::prelude::*;
use crate::arith::{pow10, abs_int, sign_int, tdiv, tmod, n_digits, trunc_value, rounding_term};
use crate::arith::{lemma_pow10_pos, lemma_pow10_add, lemma_n_digits_bounds};
use crate::bigint::{int_of, big_from_i64, big_from_u64, big_clone, big_add, big_sub, big_mul, big_neg,
    big_div_rem, big_lt, big_eq, big_is_zero, big_to_i64, big_to_u64, big_abs, ten_to_the,
    count_decimal_digits};
use num_bigint::BigInt;

verus! {

/// The magnitude `m`, aligned from scale `s` up to scale `t`.
pub open spec fn aligned(m: int, s: int, t: int) -> int {
    m * pow10((t - s) as nat)
}

pub open spec fn max_scale(s1: int, s2: int) -> int {
    if s1 >= s2 {
        s1
    } else {
        s2
    }
}

/// Two (magnitude, scale) pairs denote the same number.
pub open spec fn same_value(m1: int, s1: int, m2: int, s2: int) -> bool {
    aligned(m1, s1, max_scale(s1, s2)) == aligned(m2, s2, max_scale(s1, s2))
}

/// The number denoted by `(m1, s1)` is less than the one denoted by `(m2, s2)`.
pub open spec fn lt_value(m1: int, s1: int, m2: int, s2: int) -> bool {
    aligned(m1, s1, max_scale(s1, s2)) < aligned(m2, s2, max_scale(s1, s2))
}

/// Aligning further multiplies the magnitude by a power of ten.
pub proof fn lemma_aligned_chain(m: int, s: int, t: int, u: int)
    requires
        s <= t <= u,
    ensures
        aligned(aligned(m, s, t), t, u) == aligned(m, s, u),
{
    lemma_pow10_add((t - s) as nat, (u - t) as nat);
    assert((m * pow10((t - s) as nat)) * pow10((u - t) as nat) == m * (pow10((t - s) as nat)
        * pow10((u - t) as nat))) by (nonlinear_arith);
}

/// Aligning to the value's own scale changes nothing.
pub proof fn lemma_aligned_self(m: int, s: int)
    ensures
        aligned(m, s, s) == m,
{
    assert(pow10(0) == 1);
}

/// Equality of values may be tested at any common scale.
pub proof fn lemma_same_value_at(m1: int, s1: int, m2: int, s2: int, t: int)
    requires
        s1 <= t,
        s2 <= t,
    ensures
        same_value(m1, s1, m2, s2) <==> aligned(m1, s1, t) == aligned(m2, s2, t),
{
    let t0 = max_scale(s1, s2);
    lemma_aligned_chain(m1, s1, t0, t);
    lemma_aligned_chain(m2, s2, t0, t);
    let p = pow10((t - t0) as nat);
    lemma_pow10_pos((t - t0) as nat);
    let a = aligned(m1, s1, t0);
    let b = aligned(m2, s2, t0);
    assert(a * p == b * p <==> a == b) by (nonlinear_arith)
        requires
            p >= 1,
    ;
}

/// Order of values may be tested at any common scale.
pub proof fn lemma_lt_value_at(m1: int, s1: int, m2: int, s2: int, t: int)
    requires
        s1 <= t,
        s2 <= t,
    ensures
        lt_value(m1, s1, m2, s2) <==> aligned(m1, s1, t) < aligned(m2, s2, t),
{
    let t0 = max_scale(s1, s2);
    lemma_aligned_chain(m1, s1, t0, t);
    lemma_aligned_chain(m2, s2, t0, t);
    let p = pow10((t - t0) as nat);
    lemma_pow10_pos((t - t0) as nat);
    let a = aligned(m1, s1, t0);
    let b = aligned(m2, s2, t0);
    assert(a * p < b * p <==> a < b) by (nonlinear_arith)
        requires
            p >= 1,
    ;
}

/// The sign of a value is the sign of its magnitude, at any alignment.
pub proof fn lemma_aligned_sign(m: int, s: int, t: int)
    requires
        s <= t,
    ensures
        sign_int(aligned(m, s, t)) == sign_int(m),
{
    lemma_pow10_pos((t - s) as nat);
    let p = pow10((t - s) as nat);
    assert(m > 0 ==> m * p > 0) by (nonlinear_arith)
        requires
            p >= 1,
    ;
    assert(m < 0 ==> m * p < 0) by (nonlinear_arith)
        requires
            p >= 1,
    ;
    assert(m == 0 ==> m * p == 0) by (nonlinear_arith);
}

/// The sign of a decimal value.
#[derive(Clone, Copy, PartialEq, Eq, Debug, Structural)]
pub enum Sign {
    Minus,
    NoSign,
    Plus,
}

/// An arbitrary-precision decimal number: `int_val * 10^(-scale)`.
#[derive(Debug)]
pub struct BigDecimal {
    pub(crate) int_val: BigInt,
    // A positive scale means a negative power of 10
    pub(crate) scale: i64,
}

impl BigDecimal {
    /// The integer magnitude, as a mathematical integer.
    pub closed spec fn m(&self) -> int {
        int_of(self.int_val)
    }

    /// The scale, as a mathematical integer.
    pub closed spec fn s(&self) -> int {
        self.scale as int
    }

    /// The spec views are the views of the fields.
    pub(crate) proof fn lemma_repr(&self)
        ensures
            self.m() == int_of(self.int_val),
            self.s() == self.scale as int,
    {
    }

    /// Creates a decimal from a magnitude and a scale.
    pub fn new(digits: BigInt, scale: i64) -> (r: BigDecimal)
        ensures
            r.m() == int_of(digits),
            r.s() == scale as int,
    {
        BigDecimal { int_val: digits, scale }
    }

    /// The decimal zero, at scale 0.
    pub fn zero() -> (r: BigDecimal)
        ensures
            r.m() == 0,
            r.s() == 0,
    {
        BigDecimal { int_val: big_from_i64(0), scale: 0 }
    }

    /// The decimal one, at scale 0.
    pub fn one() -> (r: BigDecimal)
        ensures
            r.m() == 1,
            r.s() == 0,
    {
        BigDecimal { int_val: big_from_i64(1), scale: 0 }
    }

    /// True exactly when the value is zero.
    pub fn is_zero(&self) -> (r: bool)
        ensures
            r == (self.m() == 0),
    {
        big_is_zero(&self.int_val)
    }

    /// True exactly when the value equals one.
    pub fn is_one(&self) -> (r: bool)
        ensures
            r == same_value(self.m(), self.s(), 1, 0),
    {
        let one = BigDecimal::one();
        self.eq(&one)
    }

    /// The internal magnitude and scale.
    pub fn as_bigint_and_exponent(&self) -> (r: (BigInt, i64))
        ensures
            int_of(r.0) == self.m(),
            r.1 as int == self.s(),
    {
        (big_clone(&self.int_val), self.scale)
    }

    /// Consumes the value, returning the magnitude and scale.
    pub fn into_bigint_and_exponent(self) -> (r: (BigInt, i64))
        ensures
            int_of(r.0) == self.m(),
            r.1 as int == self.s(),
    {
        (self.int_val, self.scale)
    }

    /// The sign of the value.
    pub fn sign(&self) -> (r: Sign)
        ensures
            r == Sign::Minus <==> self.m() < 0,
            r == Sign::NoSign <==> self.m() == 0,
            r == Sign::Plus <==> self.m() > 0,
    {
        let zero = big_from_i64(0);
        if big_lt(&self.int_val, &zero) {
            Sign::Minus
        } else if big_is_zero(&self.int_val) {
            Sign::NoSign
        } else {
            Sign::Plus
        }
    }

    /// A decimal from a signed 64-bit integer, at scale 0.
    pub fn from_i64(n: i64) -> (r: Option<BigDecimal>)
        ensures
            r matches Some(d) && d.m() == n as int && d.s() == 0,
    {
        Some(BigDecimal { int_val: big_from_i64(n), scale: 0 })
    }

    /// A decimal from an unsigned 64-bit integer, at scale 0.
    pub fn from_u64(n: u64) -> (r: Option<BigDecimal>)
        ensures
            r matches Some(d) && d.m() == n as int && d.s() == 0,
    {
        Some(BigDecimal { int_val: big_from_u64(n), scale: 0 })
    }

    /// A decimal from a signed 8-bit integer, at scale 0.
    pub fn from_i8(n: i8) -> (r: Option<BigDecimal>)
        ensures
            r matches Some(d) && d.m() == n as int && d.s() == 0,
    {
        BigDecimal::from_i64(n as i64)
    }

    /// A decimal from a signed 16-bit integer, at scale 0.
    pub fn from_i16(n: i16) -> (r: Option<BigDecimal>)
        ensures
            r matches Some(d) && d.m() == n as int && d.s() == 0,
    {
        BigDecimal::from_i64(n as i64)
    }

    /// A decimal from a signed 32-bit integer, at scale 0.
    pub fn from_i32(n: i32) -> (r: Option<BigDecimal>)
        ensures
            r matches Some(d) && d.m() == n as int && d.s() == 0,
    {
        BigDecimal::from_i64(n as i64)
    }

    /// A decimal from an unsigned 8-bit integer, at scale 0.
    pub fn from_u8(n: u8) -> (r: Option<BigDecimal>)
        ensures
            r matches Some(d) && d.m() == n as int && d.s() == 0,
    {
        BigDecimal::from_i64(n as i64)
    }

    /// A decimal from an unsigned 16-bit integer, at scale 0.
    pub fn from_u16(n: u16) -> (r: Option<BigDecimal>)
        ensures
            r matches Some(d) && d.m() == n as int && d.s() == 0,
    {
        BigDecimal::from_i64(n as i64)
    }

    /// A decimal from an unsigned 32-bit integer, at scale 0.
    pub fn from_u32(n: u32) -> (r: Option<BigDecimal>)
        ensures
            r matches Some(d) && d.m() == n as int && d.s() == 0,
    {
        BigDecimal::from_i64(n as i64)
    }

    /// True when the value is strictly positive.
    pub fn is_positive(&self) -> (r: bool)
        ensures
            r == (self.m() > 0),
    {
        let zero = big_from_i64(0);
        big_lt(&zero, &self.int_val)
    }

    /// True when the value is strictly negative.
    pub fn is_negative(&self) -> (r: bool)
        ensures
            r == (self.m() < 0),
    {
        let zero = big_from_i64(0);
        big_lt(&self.int_val, &zero)
    }
}

impl Clone for BigDecimal {
    /// An equal-valued copy, with the same magnitude and scale.
    fn clone(&self) -> (r: Self)
        ensures
            r.m() == self.m(),
            r.s() == self.s(),
    {
        BigDecimal { int_val: big_clone(&self.int_val), scale: self.scale }
    }
}

impl PartialEq for BigDecimal {
    /// Numeric equality: scales are aligned before magnitudes are compared.
    fn eq(&self, other: &BigDecimal) -> (r: bool) {
        proof {
            lemma_same_value_at(
                self.m(),
                self.s(),
                other.m(),
                other.s(),
                max_scale(self.s(), other.s()),
            );
            lemma_aligned_self(self.m(), self.s());
            lemma_aligned_self(other.m(), other.s());
        }
        if self.scale == other.scale {
            big_eq(&self.int_val, &other.int_val)
        } else if self.scale > other.scale {
            let a = aligned_magnitude(other, self.scale);
            big_eq(&self.int_val, &a)
        } else {
            let a = aligned_magnitude(self, other.scale);
            big_eq(&a, &other.int_val)
        }
    }
}

impl Eq for BigDecimal {

}

impl vstd::std_specs::cmp::PartialEqSpecImpl for BigDecimal {
    open spec fn obeys_eq_spec() -> bool {
        true
    }

    open spec fn eq_spec(&self, other: &BigDecimal) -> bool {
        same_value(self.m(), self.s(), other.m(), other.s())
    }
}

impl PartialOrd for BigDecimal {
    /// Total numeric order: scales are aligned before magnitudes are compared.
    fn partial_cmp(&self, other: &BigDecimal) -> (r: Option<core::cmp::Ordering>) {
        proof {
            let t = max_scale(self.s(), other.s());
            lemma_same_value_at(self.m(), self.s(), other.m(), other.s(), t);
            lemma_lt_value_at(self.m(), self.s(), other.m(), other.s(), t);
            lemma_lt_value_at(other.m(), other.s(), self.m(), self.s(), t);
            lemma_aligned_self(self.m(), self.s());
            lemma_aligned_self(other.m(), other.s());
        }
        let (a, b) = if self.scale == other.scale {
            (big_clone(&self.int_val), big_clone(&other.int_val))
        } else if self.scale > other.scale {
            (big_clone(&self.int_val), aligned_magnitude(other, self.scale))
        } else {
            (aligned_magnitude(self, other.scale), big_clone(&other.int_val))
        };
        if big_lt(&a, &b) {
            Some(core::cmp::Ordering::Less)
        } else if big_eq(&a, &b) {
            Some(core::cmp::Ordering::Equal)
        } else {
            Some(core::cmp::Ordering::Greater)
        }
    }
}

impl vstd::std_specs::cmp::PartialOrdSpecImpl for BigDecimal {
    open spec fn obeys_partial_cmp_spec() -> bool {
        true
    }

    open spec fn partial_cmp_spec(&self, other: &BigDecimal) -> Option<core::cmp::Ordering> {
        if lt_value(self.m(), self.s(), other.m(), other.s()) {
            Some(core::cmp::Ordering::Less)
        } else if same_value(self.m(), self.s(), other.m(), other.s()) {
            Some(core::cmp::Ordering::Equal)
        } else {
            Some(core::cmp::Ordering::Greater)
        }
    }
}

impl Default for BigDecimal {
    /// The default value is zero.
    fn default() -> (r: BigDecimal)
        ensures
            r.m() == 0,
            r.s() == 0,
    {
        BigDecimal::zero()
    }
}

/// Negating a number negates its remainder class: divisibility is unchanged.
pub proof fn lemma_neg_mod_zero(a: int, p: int)
    requires
        p > 0,
    ensures
        ((-a) % p == 0) == (a % p == 0),
{
    vstd::arithmetic::div_mod::lemma_fundamental_div_mod(a, p);
    vstd::arithmetic::div_mod::lemma_fundamental_div_mod(-a, p);
    if a % p == 0 {
        assert(-a == p * (-(a / p))) by (nonlinear_arith)
            requires
                a == p * (a / p),
        ;
        vstd::arithmetic::div_mod::lemma_mod_multiples_basic(-(a / p), p);
        assert((-(a / p)) * p == p * (-(a / p))) by (nonlinear_arith);
    }
    if (-a) % p == 0 {
        assert(a == p * (-((-a) / p))) by (nonlinear_arith)
            requires
                -a == p * ((-a) / p),
        ;
        vstd::arithmetic::div_mod::lemma_mod_multiples_basic(-((-a) / p), p);
        assert((-((-a) / p)) * p == p * (-((-a) / p))) by (nonlinear_arith);
    }
}

/// Truncated and Euclidean remainders vanish together.
pub proof fn lemma_tmod_zero(a: int, p: int)
    requires
        p > 0,
    ensures
        (tmod(a, p) == 0) == (a % p == 0),
{
    if a < 0 {
        lemma_neg_mod_zero(a, p);
    }
}

impl BigDecimal {
    /// The number of decimal digits of the magnitude; zero counts as one.
    pub fn digits(&self) -> (r: u64)
        ensures
            r == n_digits(abs_int(self.m()) as nat),
            r >= 1,
    {
        count_decimal_digits(&self.int_val)
    }

    /// The absolute value: the sign is cleared, the scale kept.
    pub fn abs(&self) -> (r: BigDecimal)
        ensures
            r.m() == abs_int(self.m()),
            r.s() == self.s(),
    {
        BigDecimal { int_val: big_abs(&self.int_val), scale: self.scale }
    }

    /// The negation: the magnitude flips sign, the scale is kept.
    pub fn neg(&self) -> (r: BigDecimal)
        ensures
            r.m() == -self.m(),
            r.s() == self.s(),
    {
        BigDecimal { int_val: big_neg(&self.int_val), scale: self.scale }
    }

    /// Twice the value: the magnitude doubles, the scale is kept.
    pub fn double(&self) -> (r: BigDecimal)
        ensures
            r.m() == 2 * self.m(),
            r.s() == self.s(),
    {
        if self.is_zero() {
            self.clone()
        } else {
            let two = big_from_i64(2);
            BigDecimal { int_val: big_mul(&self.int_val, &two), scale: self.scale }
        }
    }

    /// Half the value, exactly: an even magnitude is divided by two; an odd
    /// one is multiplied by five while the scale grows by one.
    pub fn half(&self) -> (r: BigDecimal)
        requires
            self.m() % 2 != 0 ==> self.s() < i64::MAX,
        ensures
            self.m() % 2 == 0 ==> r.m() == self.m() / 2 && r.s() == self.s(),
            self.m() % 2 != 0 ==> r.m() == 5 * self.m() && r.s() == self.s() + 1,
    {
        if self.is_zero() {
            self.clone()
        } else {
            let two = big_from_i64(2);
            let (q, rem) = big_div_rem(&self.int_val, &two);
            proof {
                lemma_tmod_zero(self.m(), 2);
            }
            if big_is_zero(&rem) {
                proof {
                    assert(self.m() == int_of(q) * 2);
                    vstd::arithmetic::div_mod::lemma_mod_multiples_basic(int_of(q), 2);
                    vstd::arithmetic::div_mod::lemma_div_multiples_vanish(int_of(q), 2);
                    assert((2 * int_of(q)) / 2 == int_of(q));
                }
                BigDecimal { int_val: q, scale: self.scale }
            } else {
                proof {
                    if self.m() % 2 == 0 {
                        vstd::arithmetic::div_mod::lemma_fundamental_div_mod(self.m(), 2);
                        assert(self.m() == 2 * (self.m() / 2));
                        assert(int_of(rem) == 2 * (self.m() / 2 - int_of(q))) by (nonlinear_arith)
                            requires
                                self.m() == int_of(q) * 2 + int_of(rem) && self.m() == 2 * (
                                self.m() / 2),
                        ;
                        assert(abs_int(int_of(rem)) < 2);
                        assert(false);
                    }
                }
                let five = big_from_i64(5);
                BigDecimal {
                    int_val: big_mul(&self.int_val, &five),
                    scale: self.scale + 1,
                }
            }
        }
    }

    /// The square, exactly: the scale doubles.  Zero and one return
    /// themselves unchanged.
    pub fn square(&self) -> (r: BigDecimal)
        requires
            self.m() != 0 && !same_value(self.m(), self.s(), 1, 0) ==> i64::MIN <= 2 * self.s()
                <= i64::MAX,
        ensures
            self.m() == 0 || same_value(self.m(), self.s(), 1, 0) ==> r.m() == self.m() && r.s()
                == self.s(),
            self.m() != 0 && !same_value(self.m(), self.s(), 1, 0) ==> r.m() == self.m()
                * self.m() && r.s() == 2 * self.s(),
    {
        if self.is_zero() || self.is_one() {
            self.clone()
        } else {
            BigDecimal {
                int_val: big_mul(&self.int_val, &self.int_val),
                scale: self.scale * 2,
            }
        }
    }

    /// The cube, exactly: the scale triples.  Zero and one return themselves
    /// unchanged.
    pub fn cube(&self) -> (r: BigDecimal)
        requires
            self.m() != 0 && !same_value(self.m(), self.s(), 1, 0) ==> i64::MIN <= 3 * self.s()
                <= i64::MAX,
        ensures
            self.m() == 0 || same_value(self.m(), self.s(), 1, 0) ==> r.m() == self.m() && r.s()
                == self.s(),
            self.m() != 0 && !same_value(self.m(), self.s(), 1, 0) ==> r.m() == self.m()
                * self.m() * self.m() && r.s() == 3 * self.s(),
    {
        if self.is_zero() || self.is_one() {
            self.clone()
        } else {
            let sq = big_mul(&self.int_val, &self.int_val);
            BigDecimal { int_val: big_mul(&sq, &self.int_val), scale: self.scale * 3 }
        }
    }

    /// True when the value has no fractional part.
    pub fn is_integer(&self) -> (r: bool)
        ensures
            r == (self.s() <= 0 || self.m() % pow10(self.s() as nat) == 0),
    {
        if self.scale <= 0 {
            true
        } else {
            let p = ten_to_the(self.scale as u64);
            proof {
                lemma_pow10_pos(self.s() as nat);
                lemma_tmod_zero(self.m(), pow10(self.s() as nat));
            }
            let (q, rem) = big_div_rem(&self.int_val, &p);
            proof {
                lemma_tdiv_from_div_rem(
                    self.m(),
                    pow10(self.s() as nat),
                    int_of(q),
                    int_of(rem),
                );
            }
            big_is_zero(&rem)
        }
    }

    /// The same number at another scale.  Raising the scale pads the
    /// magnitude with zeros exactly; lowering it truncates toward zero and
    /// loses the discarded digits.  A zero magnitude short-circuits.
    pub fn with_scale(&self, new_scale: i64) -> (r: BigDecimal)
        ensures
            r.s() == new_scale as int,
            self.m() == 0 ==> r.m() == 0,
            self.m() != 0 && new_scale as int >= self.s() ==> r.m() == aligned(
                self.m(),
                self.s(),
                new_scale as int,
            ),
            self.m() != 0 && (new_scale as int) < self.s() ==> r.m() == tdiv(
                self.m(),
                pow10((self.s() - new_scale as int) as nat),
            ),
    {
        if self.is_zero() {
            BigDecimal { int_val: big_from_i64(0), scale: new_scale }
        } else if new_scale > self.scale {
            let m = aligned_magnitude(self, new_scale);
            BigDecimal { int_val: m, scale: new_scale }
        } else if new_scale < self.scale {
            let diff = (self.scale as i128 - new_scale as i128) as u64;
            let p = ten_to_the(diff);
            proof {
                lemma_pow10_pos(diff as nat);
            }
            let (q, rem) = big_div_rem(&self.int_val, &p);
            proof {
                lemma_tdiv_from_div_rem(self.m(), pow10(diff as nat), int_of(q), int_of(rem));
            }
            BigDecimal { int_val: q, scale: new_scale }
        } else {
            proof {
                lemma_aligned_self(self.m(), self.s());
            }
            self.clone()
        }
    }

    /// The value truncated to an integer, when it fits in an `i64`.
    pub fn to_i64(&self) -> (r: Option<i64>)
        ensures
            r is Some <==> i64::MIN <= trunc_value(self.m(), self.s()) <= i64::MAX,
            r matches Some(v) ==> v as int == trunc_value(self.m(), self.s()),
    {
        let w = self.with_scale(0);
        proof {
            lemma_trunc_with_scale_zero(self.m(), self.s(), w.m());
        }
        big_to_i64(&w.int_val)
    }

    /// The value truncated to an integer, when it fits in a `u64`.
    pub fn to_u64(&self) -> (r: Option<u64>)
        ensures
            r is Some <==> 0 <= trunc_value(self.m(), self.s()) <= u64::MAX,
            r matches Some(v) ==> v as int == trunc_value(self.m(), self.s()),
    {
        let w = self.with_scale(0);
        proof {
            lemma_trunc_with_scale_zero(self.m(), self.s(), w.m());
        }
        big_to_u64(&w.int_val)
    }

    /// The same number adjusted to exactly `prec` significant digits.
    /// Reducing truncates the magnitude and conditionally rounds the last
    /// kept digit: the discarded remainder rounds the quotient up only when
    /// it has no leading zero (`10 * remainder` exceeds the divisor) and its
    /// own leading digit is at least 5.  Increasing pads with zeros exactly.
    pub fn with_prec(&self, prec: u64) -> (r: BigDecimal)
        requires
            n_digits(abs_int(self.m()) as nat) > prec ==> i64::MIN <= self.s() - (n_digits(
                abs_int(self.m()) as nat,
            ) - prec),
            n_digits(abs_int(self.m()) as nat) < prec ==> self.s() + (prec - n_digits(
                abs_int(self.m()) as nat,
            )) <= i64::MAX,
        ensures
            prec_spec_holds(self.m(), self.s(), prec as nat, r.m(), r.s()),
    {
        let digits = self.digits();
        proof {
            let nd = n_digits(abs_int(self.m()) as nat);
            assert(digits == nd);
        }
        if digits > prec {
            let diff = digits - prec;
            let p = ten_to_the(diff);
            proof {
                lemma_pow10_pos(diff as nat);
            }
            let (q, rem) = big_div_rem(&self.int_val, &p);
            proof {
                lemma_tdiv_from_div_rem(self.m(), pow10(diff as nat), int_of(q), int_of(rem));
            }
            let ten = big_from_i64(10);
            let r10 = big_mul(&ten, &rem);
            let q2 = if big_lt(&p, &r10) {
                let rt = get_rounding_term(&rem);
                let rtb = big_from_i64(rt as i64);
                big_add(&q, &rtb)
            } else {
                big_clone(&q)
            };
            let scale = (self.scale as i128 - diff as i128) as i64;
            BigDecimal { int_val: q2, scale }
        } else if digits < prec {
            let diff = prec - digits;
            let p = ten_to_the(diff);
            let m = big_mul(&self.int_val, &p);
            let scale = (self.scale as i128 + diff as i128) as i64;
            BigDecimal { int_val: m, scale }
        } else {
            self.clone()
        }
    }

    /// The sign of the value as a decimal: one, zero or minus one.
    pub fn signum(&self) -> (r: BigDecimal)
        ensures
            r.m() == sign_int(self.m()),
            r.s() == 0,
    {
        if self.is_positive() {
            BigDecimal::one()
        } else if self.is_negative() {
            BigDecimal::one().neg()
        } else {
            BigDecimal::zero()
        }
    }

    /// The positive difference: `self - other` when that is positive, else
    /// zero.
    pub fn abs_sub(&self, other: &BigDecimal) -> (r: BigDecimal)
        ensures
            lt_value(other.m(), other.s(), self.m(), self.s()) ==> r.s() == max_scale(
                self.s(),
                other.s(),
            ) && r.m() == aligned(self.m(), self.s(), max_scale(self.s(), other.s())) - aligned(
                other.m(),
                other.s(),
                max_scale(self.s(), other.s()),
            ),
            !lt_value(other.m(), other.s(), self.m(), self.s()) ==> r.m() == 0 && r.s() == 0,
    {
        proof {
            let t = max_scale(self.s(), other.s());
            lemma_lt_value_at(other.m(), other.s(), self.m(), self.s(), t);
            lemma_same_value_at(self.m(), self.s(), other.m(), other.s(), t);
            lemma_aligned_self(self.m(), self.s());
            lemma_aligned_self(other.m(), other.s());
        }
        let le = match self.partial_cmp(other) {
            Some(core::cmp::Ordering::Greater) => false,
            _ => true,
        };
        if le {
            BigDecimal::zero()
        } else {
            self.sub(other)
        }
    }

    /// The value truncated toward zero, as a big integer.
    pub fn to_bigint(&self) -> (r: Option<BigInt>)
        ensures
            r matches Some(b) && int_of(b) == trunc_value(self.m(), self.s()),
    {
        let w = self.with_scale(0);
        proof {
            lemma_trunc_with_scale_zero(self.m(), self.s(), w.m());
        }
        Some(w.int_val)
    }

    /// Exact addition: the operand with the smaller scale is aligned up to
    /// the larger scale, never truncating, and the magnitudes are added.
    pub fn add(&self, other: &BigDecimal) -> (r: BigDecimal)
        ensures
            r.s() == max_scale(self.s(), other.s()),
            r.m() == aligned(self.m(), self.s(), max_scale(self.s(), other.s())) + aligned(
                other.m(),
                other.s(),
                max_scale(self.s(), other.s()),
            ),
    {
        proof {
            lemma_aligned_self(self.m(), self.s());
            lemma_aligned_self(other.m(), other.s());
        }
        if self.scale == other.scale {
            BigDecimal {
                int_val: big_add(&self.int_val, &other.int_val),
                scale: self.scale,
            }
        } else if self.scale > other.scale {
            let a = aligned_magnitude(other, self.scale);
            BigDecimal { int_val: big_add(&self.int_val, &a), scale: self.scale }
        } else {
            let a = aligned_magnitude(self, other.scale);
            BigDecimal { int_val: big_add(&a, &other.int_val), scale: other.scale }
        }
    }

    /// Exact subtraction, by scale alignment like [`BigDecimal::add`].
    pub fn sub(&self, other: &BigDecimal) -> (r: BigDecimal)
        ensures
            r.s() == max_scale(self.s(), other.s()),
            r.m() == aligned(self.m(), self.s(), max_scale(self.s(), other.s())) - aligned(
                other.m(),
                other.s(),
                max_scale(self.s(), other.s()),
            ),
    {
        proof {
            lemma_aligned_self(self.m(), self.s());
            lemma_aligned_self(other.m(), other.s());
        }
        if self.scale == other.scale {
            BigDecimal {
                int_val: big_sub(&self.int_val, &other.int_val),
                scale: self.scale,
            }
        } else if self.scale > other.scale {
            let a = aligned_magnitude(other, self.scale);
            BigDecimal { int_val: big_sub(&self.int_val, &a), scale: self.scale }
        } else {
            let a = aligned_magnitude(self, other.scale);
            BigDecimal { int_val: big_sub(&a, &other.int_val), scale: other.scale }
        }
    }

    /// Exact multiplication: magnitudes multiply and scales add, so no
    /// alignment is needed and no precision is lost.
    pub fn mul(&self, other: &BigDecimal) -> (r: BigDecimal)
        requires
            i64::MIN <= self.s() + other.s() <= i64::MAX,
        ensures
            r.m() == self.m() * other.m(),
            r.s() == self.s() + other.s(),
    {
        let scale = (self.scale as i128 + other.scale as i128) as i64;
        BigDecimal { int_val: big_mul(&self.int_val, &other.int_val), scale }
    }
}

/// The magnitude and scale that adjusting `(m, s)` to `prec` significant
/// digits yields.
pub open spec fn prec_apply(m: int, s: int, prec: nat) -> (int, int) {
    let nd = n_digits(abs_int(m) as nat);
    if nd > prec {
        let p = pow10((nd - prec) as nat);
        let q = tdiv(m, p);
        let rest = tmod(m, p);
        (
            q + (if p < 10 * rest {
                rounding_term(rest)
            } else {
                0
            }),
            s - (nd - prec),
        )
    } else if nd < prec {
        (m * pow10((prec - nd) as nat), s + (prec - nd))
    } else {
        (m, s)
    }
}

/// What adjusting `(m, s)` to `prec` significant digits yields.
pub open spec fn prec_spec_holds(m: int, s: int, prec: nat, rm: int, rs: int) -> bool {
    (rm, rs) == prec_apply(m, s, prec)
}

/// The magnitude and scale of an exact addition: both operands aligned to
/// the larger scale, the magnitudes summed.
pub open spec fn add_apply(m1: int, s1: int, m2: int, s2: int) -> (int, int) {
    let t = max_scale(s1, s2);
    (aligned(m1, s1, t) + aligned(m2, s2, t), t)
}

/// The magnitude and scale of an exact halving: an even magnitude divides by
/// two, an odd one multiplies by five while the scale grows by one.
pub open spec fn half_apply(m: int, s: int) -> (int, int) {
    if m % 2 == 0 {
        (m / 2, s)
    } else {
        (5 * m, s + 1)
    }
}

/// Adjusting the precision of a positive value keeps it positive.
pub proof fn lemma_with_prec_pos(m: int, s: int, prec: nat, rm: int, rs: int)
    requires
        m >= 1,
        prec >= 1,
        prec_spec_holds(m, s, prec, rm, rs),
    ensures
        rm >= 1,
{
    let nd = n_digits(m as nat);
    crate::arith::lemma_n_digits_bounds(m as nat);
    if nd > prec {
        let p = pow10((nd - prec) as nat);
        lemma_pow10_pos((nd - prec) as nat);
        assert(m >= p) by {
            lemma_pow10_add((nd - prec) as nat, (prec - 1) as nat);
            lemma_pow10_pos((prec - 1) as nat);
            assert(pow10((nd - 1) as nat) >= p) by (nonlinear_arith)
                requires
                    pow10((nd - 1) as nat) == p * pow10((prec - 1) as nat) && p >= 1 && pow10(
                        (prec - 1) as nat,
                    ) >= 1,
            ;
        };
        assert(tdiv(m, p) == m / p);
        vstd::arithmetic::div_mod::lemma_div_is_ordered(p, m, p);
        vstd::arithmetic::div_mod::lemma_div_by_self(p);
        assert(rounding_term(tmod(m, p)) >= 0);
    } else if nd < prec {
        lemma_pow10_pos((prec - nd) as nat);
        assert(m * pow10((prec - nd) as nat) >= 1) by (nonlinear_arith)
            requires
                m >= 1 && pow10((prec - nd) as nat) >= 1,
        ;
    }
}

/// The rounding bit of a nonnegative remainder: 1 when its most significant
/// digit is at least 5, else 0; zero rounds to 0.  Decided by comparing the
/// doubled remainder against the next power of ten.
pub fn get_rounding_term(num: &BigInt) -> (r: u8)
    requires
        int_of(*num) >= 0,
    ensures
        r as int == rounding_term(int_of(*num)),
        r == 0 || r == 1,
{
    if big_is_zero(num) {
        0
    } else {
        let d = count_decimal_digits(num);
        let p = ten_to_the(d);
        let two = big_from_i64(2);
        let n2 = big_mul(&two, num);
        proof {
            crate::arith::lemma_rounding_term_doubling(int_of(*num) as nat);
        }
        if big_lt(&n2, &p) {
            0
        } else {
            1
        }
    }
}

/// What `with_scale(0)` leaves in the magnitude is the value truncated to an
/// integer.
pub proof fn lemma_trunc_with_scale_zero(m: int, s: int, w: int)
    requires
        m == 0 ==> w == 0,
        m != 0 && s <= 0 ==> w == aligned(m, s, 0),
        m != 0 && s > 0 ==> w == tdiv(m, pow10(s as nat)),
    ensures
        w == trunc_value(m, s),
{
    if m == 0 {
        if s > 0 {
            lemma_pow10_pos(s as nat);
            vstd::arithmetic::div_mod::lemma_div_of0(pow10(s as nat));
        } else {
            assert(0 * pow10((-s) as nat) == 0) by (nonlinear_arith);
        }
    }
}

/// A quotient and remainder with the dividend's sign determine truncated
/// division and its remainder.
pub proof fn lemma_tdiv_from_div_rem(a: int, p: int, q: int, rem: int)
    requires
        p > 0,
        a == q * p + rem,
        abs_int(rem) < p,
        rem == 0 || sign_int(rem) == sign_int(a),
    ensures
        q == tdiv(a, p),
        rem == tmod(a, p),
{
    if a >= 0 {
        assert(rem >= 0);
        vstd::arithmetic::div_mod::lemma_fundamental_div_mod_converse(a, p, q, rem);
    } else {
        assert(rem <= 0);
        assert(-a == (-q) * p + (-rem)) by (nonlinear_arith)
            requires
                a == q * p + rem,
        ;
        vstd::arithmetic::div_mod::lemma_fundamental_div_mod_converse(-a, p, -q, -rem);
    }
}

/// The magnitude of `v` aligned up to scale `t`.
pub fn aligned_magnitude(v: &BigDecimal, t: i64) -> (r: BigInt)
    requires
        v.s() <= t as int,
    ensures
        int_of(r) == aligned(v.m(), v.s(), t as int),
{
    let (mag, s) = v.as_bigint_and_exponent();
    let diff = (t as i128 - s as i128) as u64;
    let p = ten_to_the(diff);
    big_mul(&mag, &p)
}

} // verus!
