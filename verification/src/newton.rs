//! Square root, cube root, reciprocal and the natural exponential, by
//! fixed-point iteration on top of the division engine.  An initial guess is
//! placed at roughly the right order of magnitude from the digit count and
//! scale; each refinement runs the division engine with one guard digit, and
//! iteration stops when two consecutive results agree once truncated to the
//! target precision.  That stopping rule is a heuristic with no proven bound,
//! so the iteration is capped and `None` reports a failure to settle, as it
//! also reports an undefined input or a scale pushed outside the 64-bit
//! range.
//!
//! Every step of each iteration is deterministic, so the whole computation is
//! mirrored by recursive spec functions on the representation
//! ([`sqrt_spec`], [`cbrt_spec`], [`inverse_spec`], [`exp_spec`]), and each
//! public function promises exactly their outcome: which inputs settle, and
//! to which magnitude and scale.

use vstd::prelude::*;
use crate::arith::{pow10, abs_int, sign_int, tdiv, n_digits};
use crate::arith::{lemma_pow10_pos};
use crate::bigint::{int_of, big_from_i64, big_mul, big_is_zero, count_decimal_digits};
use crate::decimal::{BigDecimal, aligned, max_scale, same_value, add_apply, half_apply,
    prec_apply, lemma_with_prec_pos, lemma_aligned_sign};
use crate::divide::{impl_division, division_result, div_apply, div_mag, lemma_div_shift_bound,
    lemma_div_mag_pos};
use num_bigint::BigInt;

verus! {

/// The iteration cap: refinements that have not settled after this many
/// rounds report a convergence failure.
pub const MAX_ITERATIONS: u64 = 1000;

/// What the checked division returns: the division engine's exact result,
/// or `None` when the result's scale would leave the 64-bit range.
pub open spec fn div_checked_spec(nm: int, dm: int, scale: int, maxp: nat) -> Option<(int, int)> {
    if nm == 0 {
        Some((0int, 0int))
    } else if scale < i64::MIN {
        None
    } else if scale > i64::MAX - n_digits(abs_int(dm) as nat) - maxp {
        None
    } else {
        Some(div_apply(nm, dm, scale, maxp))
    }
}

/// What the checked precision adjustment returns: the exact adjustment, or
/// `None` when the adjusted scale would leave the 64-bit range.
pub open spec fn clip_spec(m: int, s: int, prec: nat) -> Option<(int, int)> {
    let nd = n_digits(abs_int(m) as nat);
    if nd > prec && s - (nd - prec) < i64::MIN {
        None
    } else if nd < prec && s + (prec - nd) > i64::MAX {
        None
    } else {
        Some(prec_apply(m, s, prec))
    }
}

/// Clipping to 100 significant digits, applied only when there are more.
pub open spec fn clip_over_100(m: int, s: int) -> Option<(int, int)> {
    if n_digits(abs_int(m) as nat) > 100 {
        clip_spec(m, s, 100)
    } else {
        Some((m, s))
    }
}

/// The division engine with the scale headroom checked at run time.
fn div_checked(num: &BigInt, den: &BigInt, scale: i128, maxp: u64) -> (r: Option<BigDecimal>)
    requires
        int_of(*den) != 0,
    ensures
        match r {
            Some(d) => div_checked_spec(int_of(*num), int_of(*den), scale as int, maxp as nat)
                == Some((d.m(), d.s())),
            None => div_checked_spec(int_of(*num), int_of(*den), scale as int, maxp as nat)
                is None,
        },
{
    if big_is_zero(num) {
        return Some(BigDecimal::new(big_from_i64(0), 0));
    }
    let dd = count_decimal_digits(den);
    if scale < i64::MIN as i128 {
        return None;
    }
    if scale > i64::MAX as i128 - dd as i128 - maxp as i128 {
        return None;
    }
    proof {
        lemma_div_shift_bound(abs_int(int_of(*num)), abs_int(int_of(*den)), maxp as nat);
    }
    Some(impl_division(num, den, scale as i64, maxp))
}

/// A precision adjustment with the scale headroom checked at run time.
fn clip(v: &BigDecimal, prec: u64) -> (r: Option<BigDecimal>)
    ensures
        match r {
            Some(d) => clip_spec(v.m(), v.s(), prec as nat) == Some((d.m(), d.s())),
            None => clip_spec(v.m(), v.s(), prec as nat) is None,
        },
{
    proof {
        v.lemma_repr();
    }
    let dg = v.digits();
    if dg > prec {
        if (v.scale as i128) - ((dg - prec) as i128) < i64::MIN as i128 {
            return None;
        }
    } else if dg < prec {
        if (v.scale as i128) + ((prec - dg) as i128) > i64::MAX as i128 {
            return None;
        }
    }
    Some(v.with_prec(prec))
}

/// A positive value stays positive after alignment; used for sums of
/// positive operands.
proof fn lemma_add_pos(m1: int, s1: int, m2: int, s2: int, t: int)
    requires
        m1 >= 1,
        m2 >= 1,
        s1 <= t,
        s2 <= t,
    ensures
        aligned(m1, s1, t) + aligned(m2, s2, t) >= 2,
{
    lemma_pow10_pos((t - s1) as nat);
    lemma_pow10_pos((t - s2) as nat);
    assert(m1 * pow10((t - s1) as nat) >= 1) by (nonlinear_arith)
        requires
            m1 >= 1 && pow10((t - s1) as nat) >= 1,
    ;
    assert(m2 * pow10((t - s2) as nat) >= 1) by (nonlinear_arith)
        requires
            m2 >= 1 && pow10((t - s2) as nat) >= 1,
    ;
}

/// A checked division of two positive decimals gives a positive decimal.
proof fn lemma_div_checked_pos(nm: int, dm: int, scale: int, maxp: nat, rm: int, rs: int)
    requires
        nm >= 1,
        dm >= 1,
        division_result(nm, dm, scale, maxp, rm, rs),
    ensures
        rm >= 1,
{
    lemma_div_mag_pos(nm, dm, maxp);
    assert(sign_int(nm) == 1 && sign_int(dm) == 1);
    assert(sign_int(nm) * sign_int(dm) * div_mag(abs_int(nm), abs_int(dm), maxp) == div_mag(
        abs_int(nm),
        abs_int(dm),
        maxp,
    )) by (nonlinear_arith)
        requires
            sign_int(nm) == 1 && sign_int(dm) == 1,
    ;
}

/// One square-root refinement on the representation: `(x/r + r) / 2`, the
/// division at one digit past 100.
pub open spec fn sqrt_step(xm: int, xs: int, rm: int, rs: int) -> Option<(int, int)> {
    match div_checked_spec(xm, rm, xs - rs, 101) {
        None => None,
        Some(tmp) => {
            let sum = add_apply(tmp.0, tmp.1, rm, rs);
            if sum.1 == i64::MAX {
                None
            } else {
                Some(half_apply(sum.0, sum.1))
            }
        },
    }
}

/// One Newton-Raphson refinement for the square root of `x`:
/// `(x / r + r) / 2`, at one digit past 100.
fn sqrt_iter(x: &BigDecimal, r: &BigDecimal) -> (out: Option<BigDecimal>)
    requires
        x.m() >= 1,
        r.m() >= 1,
    ensures
        out matches Some(v) ==> v.m() >= 1,
        match out {
            Some(v) => sqrt_step(x.m(), x.s(), r.m(), r.s()) == Some((v.m(), v.s())),
            None => sqrt_step(x.m(), x.s(), r.m(), r.s()) is None,
        },
{
    proof {
        x.lemma_repr();
        r.lemma_repr();
    }
    let tmp = match div_checked(&x.int_val, &r.int_val, x.scale as i128 - r.scale as i128, 101) {
        None => {
            return None;
        },
        Some(t) => t,
    };
    proof {
        lemma_div_checked_pos(x.m(), r.m(), x.s() - r.s(), 101, tmp.m(), tmp.s());
    }
    let sum = tmp.add(r);
    proof {
        lemma_add_pos(tmp.m(), tmp.s(), r.m(), r.s(), max_scale(tmp.s(), r.s()));
        sum.lemma_repr();
    }
    if sum.scale == i64::MAX {
        return None;
    }
    proof {
        if sum.m() % 2 == 0 {
            vstd::arithmetic::div_mod::lemma_div_is_ordered(2, sum.m(), 2);
            vstd::arithmetic::div_mod::lemma_div_by_self(2);
        }
    }
    Some(sum.half())
}

/// Halves a scale, truncating toward zero; exact so the initial guess is
/// pinned.
fn halve_scale(t: i128) -> (r: i128)
    requires
        t != i128::MIN,
    ensures
        r as int == tdiv(t as int, 2),
{
    if t >= 0 {
        ((t as u128) / 2) as i128
    } else {
        -(((-t) as u128 / 2) as i128)
    }
}

/// The square-root refinement loop: one step from `running`, a clip to 100
/// significant digits, and a halt as soon as two consecutive clipped results
/// denote the same number; exhausting the fuel yields `None`.
pub open spec fn sqrt_loop(
    xm: int,
    xs: int,
    pm: int,
    ps: int,
    qm: int,
    qs: int,
    runm: int,
    runs: int,
    fuel: nat,
) -> Option<(int, int)>
    decreases fuel,
{
    if same_value(pm, ps, qm, qs) {
        Some((qm, qs))
    } else if fuel == 0 {
        None
    } else {
        match sqrt_step(xm, xs, runm, runs) {
            None => None,
            Some(run2) => match clip_over_100(run2.0, run2.1) {
                None => None,
                Some(q2) => sqrt_loop(
                    xm,
                    xs,
                    qm,
                    qs,
                    q2.0,
                    q2.1,
                    run2.0,
                    run2.1,
                    (fuel - 1) as nat,
                ),
            },
        }
    }
}

/// The whole square-root computation on a positive representation that is
/// not one: the order-of-magnitude guess `(1, (s - digits)/2)`, a first
/// refinement, then the settled loop, capped at [`MAX_ITERATIONS`] rounds.
pub open spec fn sqrt_spec(m: int, s: int) -> Option<(int, int)> {
    let gs = tdiv(s - n_digits(abs_int(m) as nat), 2);
    if gs < i64::MIN || gs > i64::MAX {
        None
    } else {
        match sqrt_step(m, s, 1, gs) {
            None => None,
            Some(run0) => sqrt_loop(m, s, 1, 0, 0, 0, run0.0, run0.1, MAX_ITERATIONS as nat),
        }
    }
}

impl BigDecimal {
    /// The square root to 100 significant digits, by Newton-Raphson
    /// iteration.  Zero and one return themselves and a negative value gives
    /// `None`; every other input returns exactly what [`sqrt_spec`] assigns
    /// to its representation — `None` only where that model's scale checks
    /// fail or its [`MAX_ITERATIONS`] rounds pass without two consecutive
    /// clipped results agreeing.  A returned value is never negative.
    pub fn sqrt(&self) -> (r: Option<BigDecimal>)
        ensures
            self.m() == 0 || same_value(self.m(), self.s(), 1, 0) ==> (r matches Some(d) && d.m()
                == self.m() && d.s() == self.s()),
            self.m() < 0 ==> r is None,
            r matches Some(d) ==> d.m() >= 0,
            self.m() > 0 ==> (r matches Some(d) ==> d.m() >= 1),
            self.m() >= 1 && !same_value(self.m(), self.s(), 1, 0) ==> (match r {
                Some(d) => sqrt_spec(self.m(), self.s()) == Some((d.m(), d.s())),
                None => sqrt_spec(self.m(), self.s()) is None,
            }),
    {
        proof {
            self.lemma_repr();
            lemma_aligned_sign(self.m(), self.s(), max_scale(self.s(), 0));
            lemma_aligned_sign(1, 0, max_scale(self.s(), 0));
        }
        if self.is_zero() || self.is_one() {
            return Some(self.clone());
        }
        if self.is_negative() {
            return None;
        }
        let dg = self.digits();
        let gs = halve_scale(self.scale as i128 - dg as i128);
        if gs < i64::MIN as i128 || gs > i64::MAX as i128 {
            return None;
        }
        let guess = BigDecimal::new(big_from_i64(1), gs as i64);
        let mut running = match sqrt_iter(self, &guess) {
            None => {
                return None;
            },
            Some(v) => v,
        };
        let mut prev = BigDecimal::one();
        let mut result = BigDecimal::zero();
        let mut iters: u64 = 0;
        while iters < MAX_ITERATIONS && !prev.eq(&result)
            invariant
                self.m() >= 1,
                !same_value(self.m(), self.s(), 1, 0),
                iters <= MAX_ITERATIONS,
                running.m() >= 1,
                result.m() >= 1 || (result.m() == 0 && result.s() == 0 && prev.m() == 1 && prev.s()
                    == 0),
                sqrt_loop(
                    self.m(),
                    self.s(),
                    prev.m(),
                    prev.s(),
                    result.m(),
                    result.s(),
                    running.m(),
                    running.s(),
                    (MAX_ITERATIONS - iters) as nat,
                ) == sqrt_spec(self.m(), self.s()),
            decreases MAX_ITERATIONS - iters,
        {
            prev = result;
            running = match sqrt_iter(self, &running) {
                None => {
                    return None;
                },
                Some(v) => v,
            };
            result = if running.digits() > 100 {
                let clipped = match clip(&running, 100) {
                    None => {
                        return None;
                    },
                    Some(v) => v,
                };
                proof {
                    lemma_with_prec_pos(running.m(), running.s(), 100, clipped.m(), clipped.s());
                }
                clipped
            } else {
                running.clone()
            };
            iters = iters + 1;
        }
        if !prev.eq(&result) {
            return None;
        }
        proof {
            assert(pow10(0) == 1);
            if result.m() < 1 {
                assert(aligned(1, 0, 0) == 1) by (nonlinear_arith)
                    requires
                        pow10(0) == 1 && aligned(1, 0, 0) == 1 * pow10(0),
                ;
                assert(aligned(0, 0, 0) == 0) by (nonlinear_arith)
                    requires
                        aligned(0, 0, 0) == 0 * pow10(0),
                ;
                assert(!same_value(prev.m(), prev.s(), result.m(), result.s()));
                assert(false);
            }
        }
        Some(result)
    }
}

/// Thirds a scale, truncating toward zero; exact so the initial guess is
/// pinned.
fn third_scale(t: i128) -> (r: i128)
    requires
        t != i128::MIN,
    ensures
        r as int == tdiv(t as int, 3),
{
    if t >= 0 {
        ((t as u128) / 3) as i128
    } else {
        -(((-t) as u128 / 3) as i128)
    }
}

/// The magnitude and scale of an exact squaring, with the zero/one
/// shortcut that squaring applies.
pub open spec fn square_apply(m: int, s: int) -> (int, int) {
    if m == 0 || same_value(m, s, 1, 0) {
        (m, s)
    } else {
        (m * m, 2 * s)
    }
}

/// One cube-root refinement on the representation: `(x/r^2 + 2r) / 3`, the
/// divisions at one digit past 100.
pub open spec fn cbrt_step(xm: int, xs: int, rm: int, rs: int) -> Option<(int, int)> {
    if 2 * rs > i64::MAX || 2 * rs < i64::MIN {
        None
    } else {
        let sq = square_apply(rm, rs);
        match div_checked_spec(xm, sq.0, xs - sq.1, 101) {
            None => None,
            Some(tmp) => {
                let sum = add_apply(tmp.0, tmp.1, 2 * rm, rs);
                div_checked_spec(sum.0, 3, sum.1, 101)
            },
        }
    }
}

/// One Newton-Raphson refinement for the cube root of `x`:
/// `(x / r^2 + 2r) / 3`, at one digit past 100.
fn cbrt_iter(x: &BigDecimal, r: &BigDecimal) -> (out: Option<BigDecimal>)
    requires
        x.m() >= 1,
        r.m() >= 1,
    ensures
        out matches Some(v) ==> v.m() >= 1,
        match out {
            Some(v) => cbrt_step(x.m(), x.s(), r.m(), r.s()) == Some((v.m(), v.s())),
            None => cbrt_step(x.m(), x.s(), r.m(), r.s()) is None,
        },
{
    proof {
        x.lemma_repr();
        r.lemma_repr();
    }
    let ds = 2 * (r.scale as i128);
    if ds > i64::MAX as i128 || ds < i64::MIN as i128 {
        return None;
    }
    let sqrd = r.square();
    proof {
        sqrd.lemma_repr();
        assert(r.m() * r.m() >= 1) by (nonlinear_arith)
            requires
                r.m() >= 1,
        ;
        assert(sqrd.m() >= 1);
    }
    let tmp = match div_checked(
        &x.int_val,
        &sqrd.int_val,
        x.scale as i128 - sqrd.scale as i128,
        101,
    ) {
        None => {
            return None;
        },
        Some(t) => t,
    };
    proof {
        lemma_div_checked_pos(x.m(), sqrd.m(), x.s() - sqrd.s(), 101, tmp.m(), tmp.s());
    }
    let dbl = r.double();
    let sum = tmp.add(&dbl);
    proof {
        lemma_add_pos(tmp.m(), tmp.s(), dbl.m(), dbl.s(), max_scale(tmp.s(), dbl.s()));
        sum.lemma_repr();
    }
    let three = big_from_i64(3);
    let out = match div_checked(&sum.int_val, &three, sum.scale as i128, 101) {
        None => {
            return None;
        },
        Some(t) => t,
    };
    proof {
        lemma_div_checked_pos(sum.m(), 3, sum.s(), 101, out.m(), out.s());
    }
    Some(out)
}

/// The cube-root refinement loop, shaped like [`sqrt_loop`].
pub open spec fn cbrt_loop(
    xm: int,
    xs: int,
    pm: int,
    ps: int,
    qm: int,
    qs: int,
    runm: int,
    runs: int,
    fuel: nat,
) -> Option<(int, int)>
    decreases fuel,
{
    if same_value(pm, ps, qm, qs) {
        Some((qm, qs))
    } else if fuel == 0 {
        None
    } else {
        match cbrt_step(xm, xs, runm, runs) {
            None => None,
            Some(run2) => match clip_over_100(run2.0, run2.1) {
                None => None,
                Some(q2) => cbrt_loop(
                    xm,
                    xs,
                    qm,
                    qs,
                    q2.0,
                    q2.1,
                    run2.0,
                    run2.1,
                    (fuel - 1) as nat,
                ),
            },
        }
    }
}

/// The whole cube-root computation on a positive representation: the
/// order-of-magnitude guess `(1, (s - digits)/3)`, a first refinement, then
/// the settled loop, capped at [`MAX_ITERATIONS`] rounds.
pub open spec fn cbrt_spec(m: int, s: int) -> Option<(int, int)> {
    let gs = tdiv(s - n_digits(abs_int(m) as nat), 3);
    if gs < i64::MIN || gs > i64::MAX {
        None
    } else {
        match cbrt_step(m, s, 1, gs) {
            None => None,
            Some(run0) => cbrt_loop(m, s, 1, 0, 0, 0, run0.0, run0.1, MAX_ITERATIONS as nat),
        }
    }
}

/// The magnitude and scale of an exact subtraction: both operands aligned to
/// the larger scale.
pub open spec fn sub_apply(m1: int, s1: int, m2: int, s2: int) -> (int, int) {
    let t = max_scale(s1, s2);
    (aligned(m1, s1, t) - aligned(m2, s2, t), t)
}

/// One reciprocal refinement on the representation: `r * (2 - x*r)`,
/// truncated to 100 significant digits.
pub open spec fn inverse_step(xm: int, xs: int, rm: int, rs: int) -> Option<(int, int)> {
    if xs + rs > i64::MAX || xs + rs < i64::MIN {
        None
    } else {
        let t = sub_apply(2, 0, xm * rm, xs + rs);
        if rs + t.1 > i64::MAX || rs + t.1 < i64::MIN {
            None
        } else {
            clip_spec(rm * t.0, rs + t.1, 100)
        }
    }
}

/// One refinement for the reciprocal of `x`: `r * (2 - x*r)`, truncated to
/// 100 significant digits.
fn inverse_iter(x: &BigDecimal, r: &BigDecimal) -> (out: Option<BigDecimal>)
    ensures
        match out {
            Some(v) => inverse_step(x.m(), x.s(), r.m(), r.s()) == Some((v.m(), v.s())),
            None => inverse_step(x.m(), x.s(), r.m(), r.s()) is None,
        },
{
    proof {
        x.lemma_repr();
        r.lemma_repr();
    }
    let ps = x.scale as i128 + r.scale as i128;
    if ps > i64::MAX as i128 || ps < i64::MIN as i128 {
        return None;
    }
    let prod = x.mul(r);
    let two = BigDecimal::new(big_from_i64(2), 0);
    let t = two.sub(&prod);
    proof {
        r.lemma_repr();
        t.lemma_repr();
    }
    let ns = r.scale as i128 + t.scale as i128;
    if ns > i64::MAX as i128 || ns < i64::MIN as i128 {
        return None;
    }
    let nxt = r.mul(&t);
    clip(&nxt, 100)
}

/// The reciprocal refinement loop, shaped like [`sqrt_loop`].
pub open spec fn inverse_loop(
    xm: int,
    xs: int,
    pm: int,
    ps: int,
    qm: int,
    qs: int,
    runm: int,
    runs: int,
    fuel: nat,
) -> Option<(int, int)>
    decreases fuel,
{
    if same_value(pm, ps, qm, qs) {
        Some((qm, qs))
    } else if fuel == 0 {
        None
    } else {
        match inverse_step(xm, xs, runm, runs) {
            None => None,
            Some(run2) => match clip_over_100(run2.0, run2.1) {
                None => None,
                Some(q2) => inverse_loop(
                    xm,
                    xs,
                    qm,
                    qs,
                    q2.0,
                    q2.1,
                    run2.0,
                    run2.1,
                    (fuel - 1) as nat,
                ),
            },
        }
    }
}

/// The whole reciprocal computation on a positive representation: the
/// order-of-magnitude guess `(1, digits - s)`, a first refinement, then the
/// settled loop, capped at [`MAX_ITERATIONS`] rounds.
pub open spec fn inverse_spec(m: int, s: int) -> Option<(int, int)> {
    let gs = n_digits(abs_int(m) as nat) - s;
    if gs < i64::MIN || gs > i64::MAX {
        None
    } else {
        match inverse_step(m, s, 1, gs) {
            None => None,
            Some(run0) => inverse_loop(m, s, 1, 0, 0, 0, run0.0, run0.1, MAX_ITERATIONS as nat),
        }
    }
}

impl BigDecimal {
    /// The cube root of a positive value, by Newton-Raphson iteration:
    /// exactly what [`cbrt_spec`] assigns to the representation.
    fn cbrt_pos(&self) -> (r: Option<BigDecimal>)
        requires
            self.m() >= 1,
        ensures
            r matches Some(d) ==> d.m() >= 1,
            match r {
                Some(d) => cbrt_spec(self.m(), self.s()) == Some((d.m(), d.s())),
                None => cbrt_spec(self.m(), self.s()) is None,
            },
    {
        proof {
            self.lemma_repr();
        }
        let dg = self.digits();
        let gs = third_scale(self.scale as i128 - dg as i128);
        if gs < i64::MIN as i128 || gs > i64::MAX as i128 {
            return None;
        }
        let guess = BigDecimal::new(big_from_i64(1), gs as i64);
        let mut running = match cbrt_iter(self, &guess) {
            None => {
                return None;
            },
            Some(v) => v,
        };
        let mut prev = BigDecimal::one();
        let mut result = BigDecimal::zero();
        let mut iters: u64 = 0;
        while iters < MAX_ITERATIONS && !prev.eq(&result)
            invariant
                self.m() >= 1,
                iters <= MAX_ITERATIONS,
                running.m() >= 1,
                result.m() >= 1 || (result.m() == 0 && result.s() == 0 && prev.m() == 1 && prev.s()
                    == 0),
                cbrt_loop(
                    self.m(),
                    self.s(),
                    prev.m(),
                    prev.s(),
                    result.m(),
                    result.s(),
                    running.m(),
                    running.s(),
                    (MAX_ITERATIONS - iters) as nat,
                ) == cbrt_spec(self.m(), self.s()),
            decreases MAX_ITERATIONS - iters,
        {
            prev = result;
            running = match cbrt_iter(self, &running) {
                None => {
                    return None;
                },
                Some(v) => v,
            };
            result = if running.digits() > 100 {
                let clipped = match clip(&running, 100) {
                    None => {
                        return None;
                    },
                    Some(v) => v,
                };
                proof {
                    lemma_with_prec_pos(running.m(), running.s(), 100, clipped.m(), clipped.s());
                }
                clipped
            } else {
                running.clone()
            };
            iters = iters + 1;
        }
        if !prev.eq(&result) {
            return None;
        }
        proof {
            assert(pow10(0) == 1);
            if result.m() < 1 {
                assert(aligned(1, 0, 0) == 1) by (nonlinear_arith)
                    requires
                        pow10(0) == 1 && aligned(1, 0, 0) == 1 * pow10(0),
                ;
                assert(aligned(0, 0, 0) == 0) by (nonlinear_arith)
                    requires
                        aligned(0, 0, 0) == 0 * pow10(0),
                ;
                assert(!same_value(prev.m(), prev.s(), result.m(), result.s()));
                assert(false);
            }
        }
        Some(result)
    }

    /// The cube root to 100 significant digits.  Zero and one return
    /// themselves; a positive value returns exactly what [`cbrt_spec`]
    /// assigns; the cube root of a negative value is the negation of the
    /// cube root of its absolute value, so the result keeps the sign of the
    /// input.  `None` reports an iteration that failed to settle.
    pub fn cbrt(&self) -> (r: Option<BigDecimal>)
        ensures
            self.m() == 0 || same_value(self.m(), self.s(), 1, 0) ==> (r matches Some(d) && d.m()
                == self.m() && d.s() == self.s()),
            r matches Some(d) ==> sign_int(d.m()) == sign_int(self.m()),
            self.m() >= 1 && !same_value(self.m(), self.s(), 1, 0) ==> (match r {
                Some(d) => cbrt_spec(self.m(), self.s()) == Some((d.m(), d.s())),
                None => cbrt_spec(self.m(), self.s()) is None,
            }),
            self.m() <= -1 ==> (match r {
                Some(d) => cbrt_spec(-self.m(), self.s()) == Some((-d.m(), d.s())),
                None => cbrt_spec(-self.m(), self.s()) is None,
            }),
    {
        proof {
            self.lemma_repr();
            lemma_aligned_sign(self.m(), self.s(), max_scale(self.s(), 0));
            lemma_aligned_sign(1, 0, max_scale(self.s(), 0));
        }
        if self.is_zero() || self.is_one() {
            return Some(self.clone());
        }
        if self.is_negative() {
            let a = self.abs();
            match a.cbrt_pos() {
                None => None,
                Some(v) => Some(v.neg()),
            }
        } else {
            self.cbrt_pos()
        }
    }

    /// The reciprocal of a positive value, by fixed-point iteration: exactly
    /// what [`inverse_spec`] assigns to the representation.
    fn inverse_pos(&self) -> (r: Option<BigDecimal>)
        requires
            self.m() >= 1,
        ensures
            match r {
                Some(d) => inverse_spec(self.m(), self.s()) == Some((d.m(), d.s())),
                None => inverse_spec(self.m(), self.s()) is None,
            },
    {
        proof {
            self.lemma_repr();
        }
        let dg = self.digits();
        let gs = dg as i128 - self.scale as i128;
        if gs < i64::MIN as i128 || gs > i64::MAX as i128 {
            return None;
        }
        let guess = BigDecimal::new(big_from_i64(1), gs as i64);
        let mut running = match inverse_iter(self, &guess) {
            None => {
                return None;
            },
            Some(v) => v,
        };
        let mut prev = BigDecimal::one();
        let mut result = BigDecimal::zero();
        let mut iters: u64 = 0;
        while iters < MAX_ITERATIONS && !prev.eq(&result)
            invariant
                self.m() >= 1,
                iters <= MAX_ITERATIONS,
                inverse_loop(
                    self.m(),
                    self.s(),
                    prev.m(),
                    prev.s(),
                    result.m(),
                    result.s(),
                    running.m(),
                    running.s(),
                    (MAX_ITERATIONS - iters) as nat,
                ) == inverse_spec(self.m(), self.s()),
            decreases MAX_ITERATIONS - iters,
        {
            prev = result;
            running = match inverse_iter(self, &running) {
                None => {
                    return None;
                },
                Some(v) => v,
            };
            result = if running.digits() > 100 {
                match clip(&running, 100) {
                    None => {
                        return None;
                    },
                    Some(v) => v,
                }
            } else {
                running.clone()
            };
            iters = iters + 1;
        }
        if !prev.eq(&result) {
            return None;
        }
        Some(result)
    }

    /// The reciprocal to 100 significant digits.  Zero and one return
    /// themselves; a positive value returns exactly what [`inverse_spec`]
    /// assigns; the reciprocal of a negative value is the negation of the
    /// reciprocal of its absolute value.  `None` reports an iteration that
    /// failed to settle.
    pub fn inverse(&self) -> (r: Option<BigDecimal>)
        ensures
            self.m() == 0 || same_value(self.m(), self.s(), 1, 0) ==> (r matches Some(d) && d.m()
                == self.m() && d.s() == self.s()),
            self.m() >= 1 && !same_value(self.m(), self.s(), 1, 0) ==> (match r {
                Some(d) => inverse_spec(self.m(), self.s()) == Some((d.m(), d.s())),
                None => inverse_spec(self.m(), self.s()) is None,
            }),
            self.m() <= -1 ==> (match r {
                Some(d) => inverse_spec(-self.m(), self.s()) == Some((-d.m(), d.s())),
                None => inverse_spec(-self.m(), self.s()) is None,
            }),
    {
        proof {
            self.lemma_repr();
            lemma_aligned_sign(self.m(), self.s(), max_scale(self.s(), 0));
            lemma_aligned_sign(1, 0, max_scale(self.s(), 0));
        }
        if self.is_zero() || self.is_one() {
            return Some(self.clone());
        }
        if self.is_negative() {
            let a = self.abs();
            match a.inverse_pos() {
                None => None,
                Some(v) => Some(v.neg()),
            }
        } else {
            self.inverse_pos()
        }
    }
}

/// The Maclaurin summation loop for the exponential: each round multiplies
/// the term by `x`, grows the factorial, adds `term / factorial` at the
/// guard precision, and halts when the 105-digit truncation of the running
/// sum stops changing, returning its 100-digit truncation.
pub open spec fn exp_loop(
    xm: int,
    xs: int,
    tm: int,
    ts: int,
    qm: int,
    qs: int,
    pm: int,
    ps: int,
    fact: int,
    n: int,
    fuel: nat,
    guard: nat,
) -> Option<(int, int)>
    decreases fuel,
{
    if fuel == 0 {
        None
    } else if ts + xs > i64::MAX || ts + xs < i64::MIN {
        None
    } else {
        let f2 = fact * n;
        match div_checked_spec(tm * xm, f2, ts + xs, guard) {
            None => None,
            Some(dterm) => {
                let q2 = add_apply(qm, qs, dterm.0, dterm.1);
                match clip_spec(q2.0, q2.1, 105) {
                    None => None,
                    Some(trimmed) => if same_value(pm, ps, trimmed.0, trimmed.1) {
                        clip_spec(trimmed.0, trimmed.1, 100)
                    } else {
                        exp_loop(
                            xm,
                            xs,
                            tm * xm,
                            ts + xs,
                            q2.0,
                            q2.1,
                            trimmed.0,
                            trimmed.1,
                            f2,
                            n + 1,
                            (fuel - 1) as nat,
                            guard,
                        )
                    },
                }
            },
        }
    }
}

/// The whole exponential computation on a nonzero representation: the sum
/// starts at `1 + x`, the guard precision is 117 digits past the input's
/// digit count, and the summation is capped at [`MAX_ITERATIONS`] rounds.
pub open spec fn exp_spec(m: int, s: int) -> Option<(int, int)> {
    let precision = n_digits(abs_int(m) as nat);
    if precision > u64::MAX - 117 {
        None
    } else {
        let q0 = add_apply(m, s, 1, 0);
        exp_loop(
            m,
            s,
            m,
            s,
            q0.0,
            q0.1,
            q0.0,
            q0.1,
            1,
            2,
            MAX_ITERATIONS as nat,
            (117 + precision) as nat,
        )
    }
}

impl BigDecimal {
    /// The natural exponential, by summing the Maclaurin series `x^n / n!`
    /// with the division engine at a high guard precision.  `e^0` is exactly
    /// one; every other input returns exactly what [`exp_spec`] assigns to
    /// its representation, a sum settled to 100 significant digits.  `None`
    /// reports a sum that failed to settle.
    pub fn exp(&self) -> (r: Option<BigDecimal>)
        ensures
            self.m() == 0 ==> (r matches Some(d) && d.m() == 1 && d.s() == 0),
            self.m() != 0 ==> (match r {
                Some(d) => exp_spec(self.m(), self.s()) == Some((d.m(), d.s())),
                None => exp_spec(self.m(), self.s()) is None,
            }),
    {
        proof {
            self.lemma_repr();
        }
        if self.is_zero() {
            return Some(BigDecimal::one());
        }
        let precision = self.digits();
        if precision > u64::MAX - 117 {
            return None;
        }
        let guard = 117 + precision;
        let one = BigDecimal::one();
        let mut term = self.clone();
        let mut result = self.add(&one);
        let mut prev = result.clone();
        let mut factorial = big_from_i64(1);
        let mut n: u64 = 2;
        while n < MAX_ITERATIONS + 2
            invariant
                self.m() != 0,
                int_of(factorial) >= 1,
                2 <= n <= MAX_ITERATIONS + 2,
                guard == 117 + n_digits(abs_int(self.m()) as nat),
                exp_loop(
                    self.m(),
                    self.s(),
                    term.m(),
                    term.s(),
                    result.m(),
                    result.s(),
                    prev.m(),
                    prev.s(),
                    int_of(factorial),
                    n as int,
                    (MAX_ITERATIONS + 2 - n) as nat,
                    guard as nat,
                ) == exp_spec(self.m(), self.s()),
            decreases MAX_ITERATIONS + 2 - n,
        {
            proof {
                term.lemma_repr();
                self.lemma_repr();
            }
            let ts = term.scale as i128 + self.scale as i128;
            if ts > i64::MAX as i128 || ts < i64::MIN as i128 {
                return None;
            }
            term = term.mul(self);
            let nb = big_from_i64(n as i64);
            let f2 = big_mul(&factorial, &nb);
            proof {
                assert(int_of(f2) >= 1) by (nonlinear_arith)
                    requires
                        int_of(f2) == int_of(factorial) * (n as int) && int_of(factorial) >= 1 && n
                            >= 2,
                ;
            }
            factorial = f2;
            proof {
                term.lemma_repr();
            }
            let dterm = match div_checked(&term.int_val, &factorial, term.scale as i128, guard) {
                None => {
                    return None;
                },
                Some(v) => v,
            };
            result = result.add(&dterm);
            let trimmed = match clip(&result, 105) {
                None => {
                    return None;
                },
                Some(v) => v,
            };
            if prev.eq(&trimmed) {
                return clip(&trimmed, 100);
            }
            prev = trimmed;
            n = n + 1;
        }
        None
    }
}

} // verus!
