//! The laws the library promises, stated over the same spec functions its
//! contracts use: rendering a value and parsing it back preserves the value,
//! adding zero changes nothing, addition commutes, an exact division
//! multiplies back to the dividend, and halving a doubled value restores it.

use vstd::prelude::*;
use crate::arith::{pow10, abs_int, sign_int, dec_seq, zero_chars, digits_val, all_digits,
    is_digit_char};
use crate::arith::{lemma_pow10_pos, lemma_dec_seq_props, lemma_zero_chars_val,
    lemma_digits_val_add};
use crate::decimal::{aligned, max_scale, same_value, lemma_aligned_self, lemma_same_value_at};
use crate::divide::{div_shift, div_mag, div_result_spec};
use crate::format::{format_chars, int_chars, frac_chars, with_fraction};
use crate::parse::{spec_parse_decimal, spec_parse_bigint, first_index_of, is_sign_char,
    ParseIssue};

verus! {

proof fn lemma_first_index_none(s: Seq<char>, i: int, a: char, b: char)
    requires
        0 <= i,
        forall|j: int| i <= j < s.len() ==> s[j] != a && s[j] != b,
    ensures
        first_index_of(s, i, a, b) is None,
    decreases s.len() - i,
{
    if i < s.len() {
        lemma_first_index_none(s, i + 1, a, b);
    }
}

proof fn lemma_first_index_some(s: Seq<char>, i: int, k: int, a: char, b: char)
    requires
        0 <= i <= k < s.len(),
        s[k] == a || s[k] == b,
        forall|j: int| i <= j < k ==> s[j] != a && s[j] != b,
    ensures
        first_index_of(s, i, a, b) == Some(k),
    decreases k - i,
{
    if i < k {
        lemma_first_index_some(s, i + 1, k, a, b);
    }
}

/// An optional minus sign followed by digits parses to the signed value of
/// the digits.
proof fn lemma_parse_signed_digits(neg: bool, core: Seq<char>)
    requires
        all_digits(core),
        core.len() >= 1,
    ensures
        spec_parse_bigint(
            (if neg {
                seq!['-']
            } else {
                Seq::<char>::empty()
            }) + core,
        ) == Ok::<int, crate::parse::BigIntErrorKind>(
            if neg {
                -digits_val(core)
            } else {
                digits_val(core)
            },
        ),
{
    let s = (if neg {
        seq!['-']
    } else {
        Seq::<char>::empty()
    }) + core;
    if neg {
        assert(s[0] == '-');
        assert(s.subrange(1, s.len() as int) =~= core);
    } else {
        assert(s =~= core);
        assert(s[0] == core[0]);
        assert(is_digit_char(core[0]));
        assert(!is_sign_char(s[0]));
    }
}

/// Rendering a representable value and parsing the rendering back yields an
/// equal value.
#[verifier::rlimit(60)]
pub proof fn lemma_round_trip(m: int, s: int)
    requires
        i64::MIN <= s <= i64::MAX,
    ensures
        spec_parse_decimal(format_chars(m, s)) is Ok,
        same_value(
            spec_parse_decimal(format_chars(m, s))->Ok_0.0,
            spec_parse_decimal(format_chars(m, s))->Ok_0.1,
            m,
            s,
        ),
{
    let am = abs_int(m) as nat;
    let a = dec_seq(am);
    let d = a.len() as int;
    lemma_dec_seq_props(am);
    let ic = int_chars(a, s);
    let fc = frac_chars(a, s);
    let body = with_fraction(ic, fc);
    let sign = if m < 0 {
        seq!['-']
    } else {
        Seq::<char>::empty()
    };
    let f = format_chars(m, s);
    assert(f =~= sign + body);
    let o: int = if m < 0 {
        1
    } else {
        0
    };

    if s >= d {
        // "0." zeros a
        lemma_zero_chars_val((s - d) as nat);
        let zn = zero_chars((s - d) as nat);
        assert(fc == zn + a);
        assert(ic == seq!['0']);
        assert(fc.len() == s);
        assert(body =~= seq!['0'] + seq!['.'] + fc);
        assert(f.len() == o + 2 + s - d + d);
        // locate characters
        assert(f[o] == '0');
        assert(f[o + 1] == '.');
        assert forall|j: int| 0 <= j < f.len() implies f[j] != 'e' && f[j] != 'E' by {
            if j >= o + 2 {
                if j - o - 2 < s - d {
                    assert(f[j] == zn[j - o - 2]);
                    assert(f[j] == '0');
                } else {
                    assert(f[j] == a[j - o - 2 - (s - d)]);
                    assert(is_digit_char(f[j]));
                }
            }
        };
        lemma_first_index_none(f, 0, 'e', 'E');
        assert forall|j: int| 0 <= j < o + 1 implies f[j] != '.' by {}
        lemma_first_index_some(f, 0, o + 1, '.', '.');
        let digits = f.subrange(0, o + 1) + f.subrange(o + 2, f.len() as int);
        let core = seq!['0'] + zn + a;
        assert(digits =~= sign + core);
        assert(all_digits(core)) by {
            assert forall|j: int| 0 <= j < core.len() implies is_digit_char(core[j]) by {
                if j == 0 {
                } else if j - 1 < s - d {
                    assert(core[j] == zn[j - 1]);
                    assert(core[j] == '0');
                } else {
                    assert(core[j] == a[j - 1 - (s - d)]);
                }
            };
        };
        assert(digits_val(core) == abs_int(m)) by {
            lemma_digits_val_add(seq!['0'] + zn, a);
            lemma_zero_chars_val((s - d) as nat);
            assert(all_digits(seq!['0'] + zn)) by {
                assert forall|j: int| 0 <= j < 1 + zn.len() implies is_digit_char(
                    (seq!['0'] + zn)[j],
                ) by {
                    if j > 0 {
                        assert((seq!['0'] + zn)[j] == zn[j - 1]);
                        assert((seq!['0'] + zn)[j] == '0');
                    }
                };
            };
            assert(digits_val(seq!['0'] + zn) == 0) by {
                lemma_digits_val_add(seq!['0'], zn);
                assert(digits_val(seq!['0']) == 0) by {
                    assert(seq!['0'].len() == 1);
                    assert(seq!['0'].last() == '0');
                    assert(seq!['0'].drop_last() =~= Seq::<char>::empty());
                    assert(digits_val(Seq::<char>::empty()) == 0);
                    crate::arith::lemma_digit_char_val(0);
                };
                assert(0 * pow10(zn.len()) == 0) by (nonlinear_arith);
            };
            assert(0 * pow10(a.len()) == 0) by (nonlinear_arith);
        };
        lemma_parse_signed_digits(m < 0, core);
        // the fraction length is s, the exponent zero
        assert(f.len() - (o + 1) - 1 == s);
        let out = spec_parse_decimal(f);
        assert(out == Ok::<(int, int), ParseIssue>((m, s)));
    } else if s <= 0 {
        // a zeros, no dot
        lemma_zero_chars_val((-s) as nat);
        let zn = zero_chars((-s) as nat);
        assert(ic == a + zn);
        assert(fc.len() == 0);
        assert(body == ic);
        assert(f =~= sign + (a + zn));
        assert forall|j: int| 0 <= j < f.len() implies f[j] != 'e' && f[j] != 'E' && f[j]
            != '.' by {
            if j >= o {
                if j - o < d {
                    assert(f[j] == a[j - o]);
                    assert(is_digit_char(f[j]));
                } else {
                    assert(f[j] == zn[j - o - d]);
                    assert(f[j] == '0');
                }
            }
        };
        lemma_first_index_none(f, 0, 'e', 'E');
        lemma_first_index_none(f, 0, '.', '.');
        let core = a + zn;
        assert(all_digits(core)) by {
            assert forall|j: int| 0 <= j < core.len() implies is_digit_char(core[j]) by {
                if j < d {
                    assert(core[j] == a[j]);
                } else {
                    assert(core[j] == zn[j - d]);
                    assert(core[j] == '0');
                }
            };
        };
        assert(digits_val(core) == abs_int(m) * pow10((-s) as nat)) by {
            lemma_digits_val_add(a, zn);
        };
        lemma_parse_signed_digits(m < 0, core);
        let out = spec_parse_decimal(f);
        let pm = if m < 0 {
            -(abs_int(m) * pow10((-s) as nat))
        } else {
            abs_int(m) * pow10((-s) as nat)
        };
        assert(pm == m * pow10((-s) as nat)) by (nonlinear_arith)
            requires
                pm == (if m < 0 {
                    -(abs_int(m) * pow10((-s) as nat))
                } else {
                    abs_int(m) * pow10((-s) as nat)
                }),
        ;
        assert(out == Ok::<(int, int), ParseIssue>((pm, 0)));
        // the value is unchanged: aligning (m, s) to scale 0 gives pm
        assert(same_value(pm, 0, m, s)) by {
            lemma_same_value_at(pm, 0, m, s, 0);
            lemma_aligned_self(pm, 0);
            assert(aligned(m, s, 0) == m * pow10((-s) as nat));
        };
    } else {
        // a split around the point
        assert(ic == a.subrange(0, d - s));
        assert(fc == a.subrange(d - s, d));
        assert(fc.len() == s);
        assert(body =~= ic + seq!['.'] + fc);
        assert(f =~= sign + ic + seq!['.'] + fc);
        assert(f.len() == o + d + 1);
        assert(f[o + d - s] == '.');
        assert forall|j: int| 0 <= j < f.len() implies f[j] != 'e' && f[j] != 'E' by {
            if j >= o && j < o + d - s {
                assert(f[j] == a[j - o]);
                assert(is_digit_char(f[j]));
            } else if j > o + d - s {
                assert(f[j] == a[j - o - 1]);
                assert(is_digit_char(f[j]));
            }
        };
        lemma_first_index_none(f, 0, 'e', 'E');
        assert forall|j: int| 0 <= j < o + d - s implies f[j] != '.' by {
            if j >= o {
                assert(f[j] == a[j - o]);
                assert(is_digit_char(f[j]));
            }
        };
        lemma_first_index_some(f, 0, o + d - s, '.', '.');
        let digits = f.subrange(0, o + d - s) + f.subrange(o + d - s + 1, f.len() as int);
        assert(digits =~= sign + a);
        lemma_parse_signed_digits(m < 0, a);
        assert(digits_val(a) == abs_int(m));
        let pm = if m < 0 {
            -abs_int(m)
        } else {
            abs_int(m)
        };
        assert(pm == m);
        assert(f.len() - (o + d - s) - 1 == s);
        let out = spec_parse_decimal(f);
        assert(out == Ok::<(int, int), ParseIssue>((m, s)));
    }
}

/// Equality of decimals ignores the representation: denoting the same
/// number is reflexive, whatever scale a value carries.
pub proof fn lemma_same_value_refl(m: int, s: int)
    ensures
        same_value(m, s, m, s),
{
}

/// Denoting the same number is symmetric.
pub proof fn lemma_same_value_symm(m1: int, s1: int, m2: int, s2: int)
    ensures
        same_value(m1, s1, m2, s2) == same_value(m2, s2, m1, s1),
{
}

/// Denoting the same number is transitive, so the equality of
/// [`crate::decimal::BigDecimal`] is an equivalence over all
/// representations of a value.
pub proof fn lemma_same_value_trans(m1: int, s1: int, m2: int, s2: int, m3: int, s3: int)
    requires
        same_value(m1, s1, m2, s2),
        same_value(m2, s2, m3, s3),
    ensures
        same_value(m1, s1, m3, s3),
{
    let t = max_scale(max_scale(s1, s2), s3);
    lemma_same_value_at(m1, s1, m2, s2, t);
    lemma_same_value_at(m2, s2, m3, s3, t);
    lemma_same_value_at(m1, s1, m3, s3, t);
}

/// Adding zero leaves the value unchanged, whatever scale the zero carries:
/// the sum that [`crate::decimal::BigDecimal::add`] promises for a zero
/// operand denotes the other operand's value.
pub proof fn lemma_add_zero(m: int, s: int, zs: int, rm: int, rs: int)
    requires
        rs == max_scale(s, zs),
        rm == aligned(m, s, max_scale(s, zs)) + aligned(0, zs, max_scale(s, zs)),
    ensures
        same_value(rm, rs, m, s),
{
    assert(aligned(0, zs, rs) == 0) by {
        assert(0 * pow10((rs - zs) as nat) == 0) by (nonlinear_arith);
    };
    lemma_same_value_at(rm, rs, m, s, rs);
    lemma_aligned_self(rm, rs);
}

/// Addition commutes representation-for-representation: the magnitude and
/// scale that [`crate::decimal::BigDecimal::add`] promises are symmetric in
/// the operands.
pub proof fn lemma_add_commutes(m1: int, s1: int, m2: int, s2: int)
    ensures
        max_scale(s1, s2) == max_scale(s2, s1),
        aligned(m1, s1, max_scale(s1, s2)) + aligned(m2, s2, max_scale(s1, s2)) == aligned(
            m2,
            s2,
            max_scale(s2, s1),
        ) + aligned(m1, s1, max_scale(s2, s1)),
{
}

/// Doubling and then halving restores a value exactly: a doubled magnitude
/// is even, and dividing it by two gives the magnitude back, so
/// `a.double().half()` returns `a`'s own representation.
pub proof fn lemma_double_half(m: int, s: int)
    ensures
        (2 * m) % 2 == 0,
        (2 * m) / 2 == m,
{
    vstd::arithmetic::div_mod::lemma_mod_multiples_basic(m, 2);
    assert(m * 2 == 2 * m);
    vstd::arithmetic::div_mod::lemma_div_multiples_vanish(m, 2);
}

/// A divisor that denotes one is a power of ten at a nonnegative scale.
proof fn lemma_unit_divisor(m2: int, s2: int)
    requires
        same_value(m2, s2, 1, 0),
    ensures
        s2 >= 0,
        m2 == pow10(s2 as nat),
{
    if s2 >= 0 {
        lemma_same_value_at(m2, s2, 1, 0, s2);
        lemma_aligned_self(m2, s2);
        assert(aligned(1, 0, s2) == 1 * pow10(s2 as nat));
    } else {
        lemma_same_value_at(m2, s2, 1, 0, 0);
        lemma_aligned_self(1, 0);
        let p = pow10((-s2) as nat);
        assert(m2 * p == 1);
        lemma_pow10_pos((-s2) as nat);
        assert(pow10((-s2) as nat) == 10 * pow10((-s2 - 1) as nat));
        lemma_pow10_pos((-s2 - 1) as nat);
        assert(p >= 10);
        assert(false) by (nonlinear_arith)
            requires
                m2 * p == 1 && p >= 10,
        ;
    }
}

/// Division exactness: when the divisor divides the dividend evenly at the
/// reached precision, multiplying the quotient back by the divisor restores
/// the dividend's value: `(a / b) * b == a`.
pub proof fn lemma_division_exact(m1: int, s1: int, m2: int, s2: int, qm: int, qs: int)
    requires
        m2 != 0,
        div_result_spec(m1, s1, m2, s2, qm, qs),
        m1 != 0 && !same_value(m2, s2, 1, 0) && m1 != m2 ==> (abs_int(m1) * pow10(
            div_shift(abs_int(m1), abs_int(m2), 100),
        )) % abs_int(m2) == 0,
    ensures
        same_value(qm * m2, qs + s2, m1, s1),
{
    if m1 == 0 {
        assert(qm * m2 == 0) by (nonlinear_arith)
            requires
                qm == 0,
        ;
        lemma_same_value_at(0, qs + s2, 0, s1, max_scale(qs + s2, s1));
        assert(0 * pow10((max_scale(qs + s2, s1) - (qs + s2)) as nat) == 0) by (nonlinear_arith);
        assert(0 * pow10((max_scale(qs + s2, s1) - s1) as nat) == 0) by (nonlinear_arith);
    } else if same_value(m2, s2, 1, 0) {
        lemma_unit_divisor(m2, s2);
        assert(qm == m1 && qs == s1);
        assert(qm * m2 == m1 * pow10(s2 as nat));
        assert(aligned(m1, s1, s1 + s2) == m1 * pow10(s2 as nat));
        lemma_same_value_at(qm * m2, s1 + s2, m1, s1, s1 + s2);
        lemma_aligned_self(qm * m2, s1 + s2);
    } else if m1 == m2 {
        assert(qm == 1 && qs == s1 - s2);
        assert(1 * m2 == m2);
        lemma_same_value_at(m2, s1, m1, s1, s1);
        lemma_aligned_self(m2, s1);
        lemma_aligned_self(m1, s1);
    } else {
        let n = abs_int(m1);
        let dn = abs_int(m2);
        let j = div_shift(n, dn, 100);
        let t = n * pow10(j);
        assert(t % dn == 0);
        vstd::arithmetic::div_mod::lemma_fundamental_div_mod(t, dn);
        assert(t == dn * (t / dn));
        // the rounded quotient is the exact quotient
        assert(div_mag(n, dn, 100) == t / dn) by {
            assert(2 * t + dn == (t / dn) * (2 * dn) + dn) by (nonlinear_arith)
                requires
                    t == dn * (t / dn),
            ;
            vstd::arithmetic::div_mod::lemma_fundamental_div_mod_converse(
                2 * t + dn,
                2 * dn,
                t / dn,
                dn,
            );
        };
        assert(qm == sign_int(m1) * sign_int(m2) * (t / dn));
        assert(qs == s1 - s2 + j);
        assert(sign_int(m1) * n == m1) by {
            if m1 < 0 {
                assert((-1) * (-m1) == m1) by (nonlinear_arith);
            }
        };
        assert(sign_int(m2) * dn == m2) by {
            if m2 < 0 {
                assert((-1) * (-m2) == m2) by (nonlinear_arith);
            }
        };
        assert(sign_int(m2) * sign_int(m2) == 1);
        // multiply back
        assert(qm * m2 == m1 * pow10(j)) by (nonlinear_arith)
            requires
                qm == sign_int(m1) * sign_int(m2) * (t / dn) && t == dn * (t / dn) && t == n
                    * pow10(j) && sign_int(m1) * n == m1 && sign_int(m2) * dn == m2 && sign_int(m2)
                    * sign_int(m2) == 1,
        ;
        lemma_same_value_at(qm * m2, s1 + j, m1, s1, s1 + j);
        lemma_aligned_self(qm * m2, s1 + j);
        assert(aligned(m1, s1, s1 + j) == m1 * pow10(j));
    }
}

} // verus!
