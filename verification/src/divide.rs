//! The long-division engine: quotients to a caller-chosen number of
//! significant digits, with the last digit rounded half away from zero, and
//! the scale-aligned remainder.

use vstd::prelude::*;
use crate::arith::{pow10, abs_int, sign_int, tmod, n_digits, rounding_term};
use crate::arith::{lemma_pow10_pos, lemma_pow10_add};
use crate::bigint::{int_of, big_from_i64, big_clone, big_add, big_mul, big_neg, big_div_rem,
    big_lt, big_eq, big_is_zero, big_abs, count_decimal_digits};
use crate::decimal::{BigDecimal, aligned, max_scale, same_value, get_rounding_term,
    aligned_magnitude, lemma_aligned_self, lemma_tdiv_from_div_rem};
use num_bigint::BigInt;

verus! {

/// The error of an arithmetic operation: dividing by zero is rejected, never
/// a silent wrong result.
#[derive(Clone, Copy, PartialEq, Eq, Debug, Structural)]
pub enum ArithmeticError {
    DivisionByZero,
}

/// How many times the numerator must be multiplied by ten before it reaches
/// the denominator: the least `k` with `n * 10^k >= d`, for positive `n`, `d`.
pub open spec fn shift_steps(n: int, d: int) -> nat
    decreases (if d >= n { d - n } else { 0 }),
{
    if n <= 0 || d <= 0 {
        0
    } else if n >= d {
        0
    } else {
        1 + shift_steps(10 * n, d)
    }
}

/// How many fraction digits the generation loop emits: it stops on a zero
/// remainder or when the digit budget is exhausted.
pub open spec fn gen_steps(rem: int, d: int, fuel: nat) -> nat
    decreases fuel,
{
    if rem == 0 || fuel == 0 {
        0
    } else {
        1 + gen_steps((10 * rem) % d, d, (fuel - 1) as nat)
    }
}

/// The total shift applied to the numerator by a division of `n` by `d` to at
/// most `maxp` significant digits, for positive `n`, `d`.
pub open spec fn div_shift(n: int, d: int, maxp: nat) -> nat {
    let k = shift_steps(n, d);
    let t0 = n * pow10(k);
    let q0 = t0 / d;
    let r0 = t0 % d;
    let p0 = n_digits(q0 as nat);
    let fuel = if p0 >= maxp {
        0
    } else {
        (maxp - p0) as nat
    };
    k + gen_steps(r0, d, fuel)
}

/// The quotient magnitude of a division of `n` by `d` to at most `maxp`
/// significant digits, for positive `n`, `d`: the shifted numerator divided
/// by `d` and rounded half away from zero.
pub open spec fn div_mag(n: int, d: int, maxp: nat) -> int {
    let t = n * pow10(div_shift(n, d, maxp));
    (2 * t + d) / (2 * d)
}

/// The magnitude and scale the division engine returns for
/// `(nm * 10^-scale') / dm` where the incoming `scale` has already absorbed
/// both operands' scales.
pub open spec fn div_apply(nm: int, dm: int, scale: int, maxp: nat) -> (int, int) {
    if nm == 0 {
        (0, 0)
    } else {
        let n = abs_int(nm);
        let d = abs_int(dm);
        (sign_int(nm) * sign_int(dm) * div_mag(n, d, maxp), scale + div_shift(n, d, maxp))
    }
}

/// What the division engine returns, as a relation on its outputs.
pub open spec fn division_result(
    nm: int,
    dm: int,
    scale: int,
    maxp: nat,
    rm: int,
    rs: int,
) -> bool {
    (rm, rs) == div_apply(nm, dm, scale, maxp)
}

/// The digit generation cannot run past its budget.
proof fn lemma_gen_steps_le_fuel(rem: int, d: int, fuel: nat)
    ensures
        gen_steps(rem, d, fuel) <= fuel,
    decreases fuel,
{
    if rem != 0 && fuel != 0 {
        lemma_gen_steps_le_fuel((10 * rem) % d, d, (fuel - 1) as nat);
    }
}

/// Shifting by at most the denominator's digit count reaches it.
proof fn lemma_shift_steps_le(n: int, d: int, k: nat)
    requires
        n >= 1,
        d >= 1,
        n * pow10(k) >= d,
    ensures
        shift_steps(n, d) <= k,
    decreases k,
{
    if n < d {
        assert(pow10(0) == 1);
        assert(n * pow10(0) == n) by (nonlinear_arith)
            requires
                pow10(0) == 1,
        ;
        assert(k >= 1);
        lemma_pow10_add(1, (k - 1) as nat);
        assert(pow10(1) == 10 * pow10(0));
        assert(pow10(0) == 1);
        assert((10 * n) * pow10((k - 1) as nat) == n * (10 * pow10((k - 1) as nat)))
            by (nonlinear_arith);
        lemma_shift_steps_le(10 * n, d, (k - 1) as nat);
    }
}

/// The total shift of a division is at most the denominator's digit count
/// plus the digit budget.
pub proof fn lemma_div_shift_bound(n: int, d: int, maxp: nat)
    requires
        n >= 1,
        d >= 1,
    ensures
        div_shift(n, d, maxp) <= n_digits(d as nat) + maxp,
{
    let k = shift_steps(n, d);
    crate::arith::lemma_n_digits_bounds(d as nat);
    lemma_pow10_pos(n_digits(d as nat));
    assert(n * pow10(n_digits(d as nat)) >= d) by (nonlinear_arith)
        requires
            n >= 1 && pow10(n_digits(d as nat)) > d && d >= 1,
    ;
    lemma_shift_steps_le(n, d, n_digits(d as nat));
    let t0 = n * pow10(k);
    let p0 = n_digits((t0 / d) as nat);
    let fuel = if p0 >= maxp {
        0nat
    } else {
        (maxp - p0) as nat
    };
    lemma_gen_steps_le_fuel(t0 % d, d, fuel);
}

/// The shifted numerator reaches the denominator.
proof fn lemma_shifted_reaches(n: int, d: int)
    requires
        n >= 1,
        d >= 1,
    ensures
        n * pow10(shift_steps(n, d)) >= d,
    decreases (if d >= n { d - n } else { 0 }),
{
    if n >= d {
        assert(pow10(0) == 1);
    } else {
        lemma_shifted_reaches(10 * n, d);
        let k = shift_steps(10 * n, d);
        lemma_pow10_add(1, k);
        assert(pow10(0) == 1);
        assert(pow10(1) == 10 * pow10(0));
        assert(n * (10 * pow10(k)) == (10 * n) * pow10(k)) by (nonlinear_arith);
    }
}

/// A quotient magnitude is at least one.
pub proof fn lemma_div_mag_pos(n: int, d: int, maxp: nat)
    requires
        n >= 1,
        d >= 1,
    ensures
        div_mag(n, d, maxp) >= 1,
{
    let j = div_shift(n, d, maxp);
    let k = shift_steps(n, d);
    lemma_shifted_reaches(n, d);
    assert(j >= k);
    lemma_pow10_add(k, (j - k) as nat);
    lemma_pow10_pos(k);
    lemma_pow10_pos((j - k) as nat);
    let t = n * pow10(j);
    assert(t >= n * pow10(k)) by (nonlinear_arith)
        requires
            pow10(j) == pow10(k) * pow10((j - k) as nat) && pow10((j - k) as nat) >= 1 && n >= 1
                && pow10(k) >= 1 && t == n * pow10(j),
    ;
    assert(2 * t + d >= 1 * (2 * d)) by (nonlinear_arith)
        requires
            t >= d && d >= 1,
    ;
    vstd::arithmetic::div_mod::lemma_div_is_ordered(2 * d, 2 * t + d, 2 * d);
    vstd::arithmetic::div_mod::lemma_div_by_self(2 * d);
}

/// Round-half-away folds into one floor division:
/// `(2*(q*d + r) + d) / (2*d) == q + (if 2*r >= d { 1 } else { 0 })`
/// whenever `0 <= r < d`.
proof fn lemma_round_div(q: int, d: int, r: int)
    requires
        d >= 1,
        0 <= r < d,
    ensures
        (2 * (q * d + r) + d) / (2 * d) == q + (if 2 * r >= d {
            1int
        } else {
            0int
        }),
{
    let t = q * d + r;
    if 2 * r < d {
        assert(2 * t + d == q * (2 * d) + (2 * r + d)) by (nonlinear_arith)
            requires
                t == q * d + r,
        ;
        vstd::arithmetic::div_mod::lemma_fundamental_div_mod_converse(
            2 * t + d,
            2 * d,
            q,
            2 * r + d,
        );
    } else {
        assert(2 * t + d == (q + 1) * (2 * d) + (2 * r - d)) by (nonlinear_arith)
            requires
                t == q * d + r,
        ;
        vstd::arithmetic::div_mod::lemma_fundamental_div_mod_converse(
            2 * t + d,
            2 * d,
            q + 1,
            2 * r - d,
        );
    }
}

/// Long division of `num * 10^-scale` by `den`, to at most `max_precision`
/// significant digits.  The numerator is shifted by whole digits until it
/// reaches the denominator, digits are generated until the remainder
/// vanishes or the budget is reached, and a nonzero final remainder rounds
/// the last digit half away from zero.
pub fn impl_division(num: &BigInt, den: &BigInt, scale: i64, max_precision: u64) -> (r:
    BigDecimal)
    requires
        int_of(*den) != 0,
        int_of(*num) != 0 ==> scale + div_shift(
            abs_int(int_of(*num)),
            abs_int(int_of(*den)),
            max_precision as nat,
        ) <= i64::MAX,
    ensures
        division_result(
            int_of(*num),
            int_of(*den),
            scale as int,
            max_precision as nat,
            r.m(),
            r.s(),
        ),
{
    if big_is_zero(num) {
        return BigDecimal::new(big_from_i64(0), 0);
    }
    let zero = big_from_i64(0);
    let negative = big_lt(num, &zero) != big_lt(den, &zero);
    let mut n = big_abs(num);
    let d = big_abs(den);
    let ten = big_from_i64(10);

    let ghost nn = abs_int(int_of(*num));
    let ghost dd = abs_int(int_of(*den));
    let ghost kk = shift_steps(nn, dd);
    let ghost maxp = max_precision as nat;

    // shift the numerator up to the denominator
    let mut scale_acc: i64 = scale;
    proof {
        assert(pow10(0) == 1);
        assert(nn * 1 == nn) by (nonlinear_arith);
    }
    while big_lt(&n, &d)
        invariant
            int_of(ten) == 10,
            int_of(d) == dd,
            dd >= 1,
            int_of(n) >= 1,
            int_of(n) == nn * pow10((scale_acc - scale) as nat),
            scale <= scale_acc,
            scale_acc - scale + shift_steps(int_of(n), dd) == kk,
            scale + kk <= i64::MAX,
        decreases shift_steps(int_of(n), int_of(d)),
    {
        proof {
            assert(shift_steps(int_of(n), dd) == 1 + shift_steps(10 * int_of(n), dd));
            let e = (scale_acc - scale) as nat;
            lemma_pow10_add(e, 1);
            assert(pow10(0) == 1);
            assert(pow10(1) == 10 * pow10(0));
            assert((nn * pow10(e)) * 10 == nn * (pow10(e) * 10)) by (nonlinear_arith);
            assert(pow10(e) * 10 == pow10(e + 1));
        }
        n = big_mul(&n, &ten);
        scale_acc = scale_acc + 1;
    }
    proof {
        assert(shift_steps(int_of(n), dd) == 0);
        assert(scale_acc - scale == kk);
    }

    // first division
    let (q0, r0) = big_div_rem(&n, &d);
    proof {
        lemma_tdiv_from_div_rem(int_of(n), dd, int_of(q0), int_of(r0));
        assert(int_of(q0) == int_of(n) / dd);
        assert(int_of(r0) == int_of(n) % dd);
        vstd::arithmetic::div_mod::lemma_div_pos_is_pos(int_of(n), dd);
    }
    let ghost t0 = nn * pow10(kk);
    let ghost p0 = n_digits((t0 / dd) as nat);
    let ghost fuel = if p0 >= maxp { 0nat } else { (maxp - p0) as nat };
    let ghost t_total = gen_steps(t0 % dd, dd, fuel);

    let mut quotient = big_clone(&q0);
    let mut precision = count_decimal_digits(&q0);
    proof {
        assert(int_of(n) >= dd);
        vstd::arithmetic::div_mod::lemma_div_non_zero(int_of(n), dd);
        assert(abs_int(int_of(q0)) == int_of(q0));
        assert(precision == p0);
    }
    let mut remainder = if big_is_zero(&r0) {
        big_clone(&r0)
    } else {
        big_mul(&r0, &ten)
    };
    let ghost mut t_done: nat = 0;

    while !(big_is_zero(&remainder) || precision >= max_precision)
        invariant
            int_of(ten) == 10,
            int_of(d) == dd,
            dd >= 1,
            nn >= 1,
            t_done <= t_total,
            t_done <= fuel,
            precision == p0 + t_done,
            scale_acc == scale + kk + t_done,
            scale + kk + t_total <= i64::MAX,
            int_of(quotient) == (nn * pow10(kk + t_done)) / dd,
            int_of(remainder) == 10 * ((nn * pow10(kk + t_done)) % dd),
            gen_steps((nn * pow10(kk + t_done)) % dd, dd, (fuel - t_done) as nat) == t_total
                - t_done,
            t_done < t_total ==> fuel - t_done > 0,
            fuel == (if p0 >= maxp { 0int } else { maxp - p0 }),
            maxp == max_precision as nat,
        decreases t_total - t_done,
    {
        proof {
            let tt = nn * pow10(kk + t_done);
            assert(int_of(remainder) != 0);
            assert(tt % dd != 0);
            assert(precision < maxp);
            assert(fuel - t_done > 0);
            assert(gen_steps(tt % dd, dd, (fuel - t_done) as nat) == 1 + gen_steps(
                (10 * (tt % dd)) % dd,
                dd,
                (fuel - t_done - 1) as nat,
            ));
            assert(t_total - t_done >= 1);
        }
        let (qd, r2) = big_div_rem(&remainder, &d);
        proof {
            let tt = nn * pow10(kk + t_done);
            let rr = tt % dd;
            assert(int_of(remainder) == 10 * rr);
            assert(10 * rr >= 0) by {
                vstd::arithmetic::div_mod::lemma_mod_division_less_than_divisor(tt, dd);
            };
            lemma_tdiv_from_div_rem(10 * rr, dd, int_of(qd), int_of(r2));
            assert(int_of(qd) == (10 * rr) / dd);
            assert(int_of(r2) == (10 * rr) % dd);
            // next aligned numerator
            let tn = nn * pow10(kk + t_done + 1);
            lemma_pow10_add((kk + t_done) as nat, 1);
            assert(pow10(0) == 1);
            assert(pow10(1) == 10 * pow10(0));
            assert(pow10(kk + t_done + 1) == pow10((kk + t_done) as nat) * 10);
            assert(tn == tt * 10) by (nonlinear_arith)
                requires
                    tn == nn * (pow10((kk + t_done) as nat) * 10) && tt == nn * pow10(
                        (kk + t_done) as nat,
                    ),
            ;
            vstd::arithmetic::div_mod::lemma_fundamental_div_mod(tt, dd);
            assert(tt == dd * (tt / dd) + rr);
            assert(tn == (10 * (tt / dd) + int_of(qd)) * dd + int_of(r2)) by (nonlinear_arith)
                requires
                    tn == tt * 10 && tt == dd * (tt / dd) + rr && 10 * rr == int_of(qd) * dd
                        + int_of(r2),
            ;
            assert(0 <= int_of(r2) < dd) by {
                vstd::arithmetic::div_mod::lemma_mod_division_less_than_divisor(10 * rr, dd);
            };
            vstd::arithmetic::div_mod::lemma_fundamental_div_mod_converse(
                tn,
                dd,
                10 * (tt / dd) + int_of(qd),
                int_of(r2),
            );
            assert(tn / dd == 10 * (tt / dd) + int_of(qd));
            assert(tn % dd == int_of(r2));
        }
        let q10 = big_mul(&quotient, &ten);
        quotient = big_add(&q10, &qd);
        remainder = big_mul(&r2, &ten);
        precision = precision + 1;
        scale_acc = scale_acc + 1;
        proof {
            t_done = t_done + 1;
        }
    }

    proof {
        // at exit the generation count is complete
        let tt = nn * pow10(kk + t_done);
        if int_of(remainder) == 0 {
            assert(tt % dd == 0);
            assert(gen_steps(tt % dd, dd, (fuel - t_done) as nat) == 0);
        } else {
            assert(precision >= maxp);
            assert(fuel - t_done == 0);
            assert(gen_steps(tt % dd, dd, 0) == 0);
        }
        assert(t_done == t_total);
        assert(kk + t_total == div_shift(nn, dd, maxp));
    }

    let final_quotient = if big_is_zero(&remainder) {
        proof {
            let tt = nn * pow10(kk + t_done);
            vstd::arithmetic::div_mod::lemma_fundamental_div_mod(tt, dd);
            lemma_round_div(tt / dd, dd, 0);
            assert(tt == (tt / dd) * dd + 0) by (nonlinear_arith)
                requires
                    tt == dd * (tt / dd),
            ;
            assert(int_of(quotient) == div_mag(nn, dd, maxp));
        }
        quotient
    } else {
        let (digit, r3) = big_div_rem(&remainder, &d);
        proof {
            let tt = nn * pow10(kk + t_done);
            let rr = tt % dd;
            assert(0 <= rr < dd) by {
                vstd::arithmetic::div_mod::lemma_mod_division_less_than_divisor(tt, dd);
            };
            assert(rr != 0);
            assert(int_of(remainder) == 10 * rr);
            lemma_tdiv_from_div_rem(10 * rr, dd, int_of(digit), int_of(r3));
            assert(int_of(digit) == (10 * rr) / dd);
            lemma_rounding_digit(rr, dd);
            vstd::arithmetic::div_mod::lemma_fundamental_div_mod(tt, dd);
            lemma_round_div(tt / dd, dd, rr);
            assert(tt == (tt / dd) * dd + rr) by (nonlinear_arith)
                requires
                    tt == dd * (tt / dd) + rr,
            ;
        }
        let rt = get_rounding_term(&digit);
        let rtb = big_from_i64(rt as i64);
        let fq = big_add(&quotient, &rtb);
        proof {
            assert(int_of(fq) == div_mag(nn, dd, maxp));
        }
        fq
    };

    proof {
        assert(int_of(final_quotient) == div_mag(nn, dd, maxp));
        lemma_sign_product(int_of(*num), int_of(*den));
    }
    if negative {
        proof {
            assert(sign_int(int_of(*num)) * sign_int(int_of(*den)) == -1);
            assert(-int_of(final_quotient) == sign_int(int_of(*num)) * sign_int(int_of(*den))
                * div_mag(nn, dd, maxp)) by (nonlinear_arith)
                requires
                    int_of(final_quotient) == div_mag(nn, dd, maxp) && sign_int(int_of(*num))
                        * sign_int(int_of(*den)) == -1,
            ;
        }
        BigDecimal::new(big_neg(&final_quotient), scale_acc)
    } else {
        proof {
            assert(sign_int(int_of(*num)) * sign_int(int_of(*den)) == 1);
            assert(int_of(final_quotient) == sign_int(int_of(*num)) * sign_int(int_of(*den))
                * div_mag(nn, dd, maxp)) by (nonlinear_arith)
                requires
                    int_of(final_quotient) == div_mag(nn, dd, maxp) && sign_int(int_of(*num))
                        * sign_int(int_of(*den)) == 1,
            ;
        }
        BigDecimal::new(final_quotient, scale_acc)
    }
}

/// What dividing `(m1, s1)` by a nonzero `(m2, s2)` yields: zero dividends
/// and unit divisors return the dividend unchanged, equal magnitudes give a
/// quotient of one at the difference of the scales, and everything else goes
/// through the division engine at 100 significant digits.
pub open spec fn div_result_spec(m1: int, s1: int, m2: int, s2: int, rm: int, rs: int) -> bool {
    if m1 == 0 || same_value(m2, s2, 1, 0) {
        rm == m1 && rs == s1
    } else if m1 == m2 {
        rm == 1 && rs == s1 - s2
    } else {
        division_result(m1, m2, s1 - s2, 100, rm, rs)
    }
}

impl BigDecimal {
    /// Division to at most 100 significant digits, the last digit rounded
    /// half away from zero.  Dividing by zero is an error; it is the only
    /// failure an arithmetic operator can produce.
    pub fn div(&self, other: &BigDecimal) -> (r: Result<BigDecimal, ArithmeticError>)
        requires
            other.m() != 0 && self.m() != 0 && !same_value(other.m(), other.s(), 1, 0)
                ==> i64::MIN <= self.s() - other.s() <= i64::MAX,
            other.m() != 0 && self.m() != 0 && !same_value(other.m(), other.s(), 1, 0)
                && self.m() != other.m() ==> self.s() - other.s() + div_shift(
                abs_int(self.m()),
                abs_int(other.m()),
                100,
            ) <= i64::MAX,
        ensures
            r is Err <==> other.m() == 0,
            r matches Err(e) ==> e == ArithmeticError::DivisionByZero,
            r matches Ok(q) ==> div_result_spec(
                self.m(),
                self.s(),
                other.m(),
                other.s(),
                q.m(),
                q.s(),
            ),
    {
        proof {
            self.lemma_repr();
            other.lemma_repr();
        }
        if other.is_zero() {
            return Err(ArithmeticError::DivisionByZero);
        }
        if self.is_zero() || other.is_one() {
            return Ok(self.clone());
        }
        let scale = (self.scale as i128 - other.scale as i128) as i64;
        if big_eq(&self.int_val, &other.int_val) {
            return Ok(BigDecimal::new(big_from_i64(1), scale));
        }
        Ok(impl_division(&self.int_val, &other.int_val, scale, 100))
    }

    /// The remainder after aligning both operands to the larger scale, which
    /// loses no precision; it takes the sign of the dividend.  A zero divisor
    /// is an error.
    pub fn rem(&self, other: &BigDecimal) -> (r: Result<BigDecimal, ArithmeticError>)
        ensures
            r is Err <==> other.m() == 0,
            r matches Err(e) ==> e == ArithmeticError::DivisionByZero,
            r matches Ok(q) ==> {
                let t = max_scale(self.s(), other.s());
                &&& q.s() == t
                &&& q.m() == tmod(
                    aligned(self.m(), self.s(), t),
                    abs_int(aligned(other.m(), other.s(), t)),
                )
            },
    {
        proof {
            self.lemma_repr();
            other.lemma_repr();
        }
        if other.is_zero() {
            return Err(ArithmeticError::DivisionByZero);
        }
        proof {
            lemma_aligned_self(self.m(), self.s());
            lemma_aligned_self(other.m(), other.s());
        }
        let t = if self.scale >= other.scale {
            self.scale
        } else {
            other.scale
        };
        let num = aligned_magnitude(self, t);
        let den = aligned_magnitude(other, t);
        proof {
            let p = pow10((t as int - other.s()) as nat);
            lemma_pow10_pos((t as int - other.s()) as nat);
            assert(other.m() * p != 0) by (nonlinear_arith)
                requires
                    other.m() != 0 && p >= 1,
            ;
        }
        let (q, rm) = big_div_rem(&num, &den);
        proof {
            lemma_trunc_rem_abs(int_of(num), int_of(den), int_of(q), int_of(rm));
        }
        Ok(BigDecimal::new(rm, t))
    }
}

/// A remainder with the dividend's sign and bounded by `|d|` is the
/// truncated remainder of division by `|d|`.
proof fn lemma_trunc_rem_abs(a: int, d: int, q: int, r: int)
    requires
        d != 0,
        a == q * d + r,
        abs_int(r) < abs_int(d),
        r == 0 || sign_int(r) == sign_int(a),
    ensures
        r == tmod(a, abs_int(d)),
{
    if d > 0 {
        lemma_tdiv_from_div_rem(a, d, q, r);
    } else {
        assert(a == (-q) * (-d) + r) by (nonlinear_arith)
            requires
                a == q * d + r,
        ;
        lemma_tdiv_from_div_rem(a, -d, -q, r);
    }
}

/// The rounding bit of the next digit `(10*r)/d` says whether `2*r >= d`.
proof fn lemma_rounding_digit(r: int, d: int)
    requires
        d >= 1,
        0 < r < d,
    ensures
        rounding_term((10 * r) / d) == (if 2 * r >= d {
            1int
        } else {
            0int
        }),
{
    let g = (10 * r) / d;
    vstd::arithmetic::div_mod::lemma_fundamental_div_mod(10 * r, d);
    vstd::arithmetic::div_mod::lemma_mod_division_less_than_divisor(10 * r, d);
    vstd::arithmetic::div_mod::lemma_div_pos_is_pos(10 * r, d);
    assert(g * d <= 10 * r < (g + 1) * d) by (nonlinear_arith)
        requires
            10 * r == d * g + (10 * r) % d && 0 <= (10 * r) % d < d,
    ;
    assert(g <= 9) by (nonlinear_arith)
        requires
            g * d <= 10 * r && r < d && d >= 1 && g >= 0,
    ;
    if g >= 1 {
        assert(n_digits(g as nat) == 1);
        assert(pow10(0) == 1);
        assert(crate::arith::leading_digit(g as nat) == g);
        if 2 * r >= d {
            assert(10 * r >= 5 * d);
            assert(g >= 5) by (nonlinear_arith)
                requires
                    10 * r < (g + 1) * d && 10 * r >= 5 * d && d >= 1,
            ;
        } else {
            assert(10 * r < 5 * d);
            assert(g < 5) by (nonlinear_arith)
                requires
                    g * d <= 10 * r && 10 * r < 5 * d && d >= 1,
            ;
        }
    } else {
        assert(g == 0);
        assert(10 * r < d) by (nonlinear_arith)
            requires
                10 * r < (g + 1) * d && g == 0,
        ;
        assert(2 * r < d);
    }
}

/// Signs multiply through a quotient of magnitudes.
proof fn lemma_sign_product(a: int, b: int)
    requires
        a != 0,
        b != 0,
    ensures
        (a < 0) != (b < 0) ==> sign_int(a) * sign_int(b) == -1,
        (a < 0) == (b < 0) ==> sign_int(a) * sign_int(b) == 1,
{
}

} // verus!
