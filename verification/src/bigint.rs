//! Trusted boundary around `num_bigint::BigInt`, and verified helpers built
//! on it.
//!
//! `BigInt` is opaque to the verifier; the uninterpreted map [`int_of`] names
//! the mathematical integer a `BigInt` holds, and each wrapper states what the
//! wrapped `num_bigint` operation does to that value, as its source shows.

use vstd::prelude::*;
use crate::arith::{pow10, abs_int, sign_int, n_digits, dec_seq};
use crate::arith::{lemma_pow10_add, lemma_dec_seq_props};
use num_bigint::BigInt;

verus! {

#[verifier::external_type_specification]
#[verifier::external_body]
pub struct ExBigInt(BigInt);

/// The integer value held by a `BigInt`.
pub uninterp spec fn int_of(b: BigInt) -> int;

/// Relies on `num_bigint::BigInt::from` for `i64`: the integer with that value.
#[verifier::external_body]
pub fn big_from_i64(n: i64) -> (r: BigInt)
    ensures
        int_of(r) == n as int,
{
    BigInt::from(n)
}

/// Relies on `num_bigint::BigInt::from` for `u64`: the integer with that value.
#[verifier::external_body]
pub fn big_from_u64(n: u64) -> (r: BigInt)
    ensures
        int_of(r) == n as int,
{
    BigInt::from(n)
}

/// Relies on the `Clone` impl of `num_bigint::BigInt`: an equal-valued copy.
#[verifier::external_body]
pub fn big_clone(a: &BigInt) -> (r: BigInt)
    ensures
        int_of(r) == int_of(*a),
{
    a.clone()
}

/// Relies on the `+` operator of `num_bigint::BigInt`: exact integer addition.
#[verifier::external_body]
pub fn big_add(a: &BigInt, b: &BigInt) -> (r: BigInt)
    ensures
        int_of(r) == int_of(*a) + int_of(*b),
{
    a + b
}

/// Relies on the `-` operator of `num_bigint::BigInt`: exact integer subtraction.
#[verifier::external_body]
pub fn big_sub(a: &BigInt, b: &BigInt) -> (r: BigInt)
    ensures
        int_of(r) == int_of(*a) - int_of(*b),
{
    a - b
}

/// Relies on the `*` operator of `num_bigint::BigInt`: exact integer multiplication.
#[verifier::external_body]
pub fn big_mul(a: &BigInt, b: &BigInt) -> (r: BigInt)
    ensures
        int_of(r) == int_of(*a) * int_of(*b),
{
    a * b
}

/// Relies on the unary `-` operator of `num_bigint::BigInt`: exact negation.
#[verifier::external_body]
pub fn big_neg(a: &BigInt) -> (r: BigInt)
    ensures
        int_of(r) == -int_of(*a),
{
    -a
}

/// Relies on `num_integer::Integer::div_rem` for `BigInt`: simultaneous
/// truncated division and remainder; the remainder takes the dividend's sign.
#[verifier::external_body]
pub fn big_div_rem(a: &BigInt, b: &BigInt) -> (r: (BigInt, BigInt))
    requires
        int_of(*b) != 0,
    ensures
        int_of(*a) == int_of(r.0) * int_of(*b) + int_of(r.1),
        abs_int(int_of(r.1)) < abs_int(int_of(*b)),
        int_of(r.1) == 0 || sign_int(int_of(r.1)) == sign_int(int_of(*a)),
{
    num_integer::Integer::div_rem(a, b)
}

/// Relies on the `<` comparison of `num_bigint::BigInt`: numeric order.
#[verifier::external_body]
pub fn big_lt(a: &BigInt, b: &BigInt) -> (r: bool)
    ensures
        r == (int_of(*a) < int_of(*b)),
{
    a < b
}

/// Relies on the `==` comparison of `num_bigint::BigInt`: numeric equality.
#[verifier::external_body]
pub fn big_eq(a: &BigInt, b: &BigInt) -> (r: bool)
    ensures
        r == (int_of(*a) == int_of(*b)),
{
    a == b
}

/// Relies on `num_traits::Zero::is_zero` for `BigInt`: true exactly on zero.
#[verifier::external_body]
pub fn big_is_zero(a: &BigInt) -> (r: bool)
    ensures
        r == (int_of(*a) == 0),
{
    num_traits::Zero::is_zero(a)
}

/// Relies on `num_bigint::BigInt::to_str_radix` with radix 10: the decimal
/// digit string of a nonnegative value, most significant digit first, no sign.
#[verifier::external_body]
pub fn big_to_decimal(a: &BigInt) -> (r: String)
    requires
        int_of(*a) >= 0,
    ensures
        r@ == dec_seq(int_of(*a) as nat),
{
    a.to_str_radix(10)
}

/// Relies on `num_traits::ToPrimitive::to_i64` for `BigInt`: the value when it
/// fits in an `i64`, `None` otherwise.
#[verifier::external_body]
pub fn big_to_i64(a: &BigInt) -> (r: Option<i64>)
    ensures
        r is Some <==> i64::MIN <= int_of(*a) <= i64::MAX,
        r matches Some(v) ==> v as int == int_of(*a),
{
    num_traits::ToPrimitive::to_i64(a)
}

/// Relies on `num_traits::ToPrimitive::to_u64` for `BigInt`: the value when it
/// fits in a `u64`, `None` otherwise.
#[verifier::external_body]
pub fn big_to_u64(a: &BigInt) -> (r: Option<u64>)
    ensures
        r is Some <==> 0 <= int_of(*a) <= u64::MAX,
        r matches Some(v) ==> v as int == int_of(*a),
{
    num_traits::ToPrimitive::to_u64(a)
}

/// Absolute value, from the comparison and negation wrappers.
pub fn big_abs(a: &BigInt) -> (r: BigInt)
    ensures
        int_of(r) == abs_int(int_of(*a)),
{
    let zero = big_from_i64(0);
    if big_lt(a, &zero) {
        big_neg(a)
    } else {
        big_clone(a)
    }
}

/// `10^pow` as a `BigInt`, by repeated squaring of a sixteenth of the
/// exponent for large exponents.
pub fn ten_to_the(pow: u64) -> (r: BigInt)
    ensures
        int_of(r) == pow10(pow as nat),
    decreases pow,
{
    if pow < 16 {
        let mut i: u64 = 0;
        let mut r = big_from_i64(1);
        while i < pow
            invariant
                i <= pow,
                int_of(r) == pow10(i as nat),
            decreases pow - i,
        {
            let ten = big_from_i64(10);
            r = big_mul(&r, &ten);
            i = i + 1;
        }
        r
    } else {
        let half = pow / 16;
        let rem = pow % 16;
        let mut x = ten_to_the(half);
        proof {
            assert(half < pow);
            assert(16 * half + rem == pow);
        }
        proof {
            assert((1u64 << 0u64) == 1) by (bit_vector);
        }
        let mut i: u64 = 0;
        while i < 4
            invariant
                i <= 4,
                int_of(x) == pow10((half * (1u64 << i)) as nat),
            decreases 4 - i,
        {
            proof {
                let k = (half * (1u64 << i)) as nat;
                lemma_pow10_add(k, k);
                assert((1u64 << (i + 1)) == 2 * (1u64 << i)) by (bit_vector)
                    requires
                        i < 4,
                ;
                assert(half * (2 * (1u64 << i)) == (half * (1u64 << i)) + (half * (1u64 << i)))
                    by (nonlinear_arith);
            }
            x = big_mul(&x, &x);
            i = i + 1;
        }
        proof {
            assert((1u64 << 4u64) == 16) by (bit_vector);
        }
        if rem == 0 {
            x
        } else {
            let y = ten_to_the(rem);
            proof {
                lemma_pow10_add((16 * half) as nat, rem as nat);
                assert(half * 16 == 16 * half) by (nonlinear_arith);
            }
            big_mul(&x, &y)
        }
    }
}

/// Count of decimal digits of the absolute value; zero counts as one digit.
pub fn count_decimal_digits(v: &BigInt) -> (r: u64)
    ensures
        r == n_digits(abs_int(int_of(*v)) as nat),
        r >= 1,
{
    let a = big_abs(v);
    let s = big_to_decimal(&a);
    proof {
        lemma_dec_seq_props(abs_int(int_of(*v)) as nat);
    }
    let n = s.as_str().unicode_len();
    n as u64
}

} // verus!
