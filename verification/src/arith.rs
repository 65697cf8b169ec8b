//! Pure integer arithmetic used by the decimal model: powers of ten, decimal
//! digit counts, digit strings, truncated division, and the rounding bit.

use vstd::prelude::*;

verus! {

/// `10^n`.
pub open spec fn pow10(n: nat) -> int
    decreases n,
{
    if n == 0 {
        1
    } else {
        10 * pow10((n - 1) as nat)
    }
}

/// Absolute value.
pub open spec fn abs_int(x: int) -> int {
    if x >= 0 {
        x
    } else {
        -x
    }
}

/// Sign of an integer: -1, 0 or 1.
pub open spec fn sign_int(x: int) -> int {
    if x > 0 {
        1
    } else if x == 0 {
        0
    } else {
        -1
    }
}

/// Division truncated toward zero, for a positive divisor.
pub open spec fn tdiv(a: int, d: int) -> int {
    if a >= 0 {
        a / d
    } else {
        -((-a) / d)
    }
}

/// Remainder of division truncated toward zero, for a positive divisor;
/// takes the sign of the dividend.
pub open spec fn tmod(a: int, d: int) -> int {
    if a >= 0 {
        a % d
    } else {
        -((-a) % d)
    }
}

/// Count of decimal digits of a nonnegative integer; zero counts as one digit.
pub open spec fn n_digits(n: nat) -> nat
    decreases n,
{
    if n < 10 {
        1
    } else {
        1 + n_digits(n / 10)
    }
}

/// The character for one decimal digit.
pub open spec fn digit_char(d: int) -> char {
    if d == 0 {
        '0'
    } else if d == 1 {
        '1'
    } else if d == 2 {
        '2'
    } else if d == 3 {
        '3'
    } else if d == 4 {
        '4'
    } else if d == 5 {
        '5'
    } else if d == 6 {
        '6'
    } else if d == 7 {
        '7'
    } else if d == 8 {
        '8'
    } else {
        '9'
    }
}

pub open spec fn is_digit_char(c: char) -> bool {
    '0' <= c && c <= '9'
}

/// The numeric value of one decimal digit character.
pub open spec fn digit_val(c: char) -> int {
    c as int - '0' as int
}

/// The decimal digit string of a nonnegative integer, most significant first.
pub open spec fn dec_seq(n: nat) -> Seq<char>
    decreases n,
{
    if n < 10 {
        seq![digit_char(n as int)]
    } else {
        dec_seq(n / 10).push(digit_char((n % 10) as int))
    }
}

/// The value of a sequence of decimal digit characters.
pub open spec fn digits_val(s: Seq<char>) -> int
    decreases s.len(),
{
    if s.len() == 0 {
        0
    } else {
        10 * digits_val(s.drop_last()) + digit_val(s.last())
    }
}

pub open spec fn all_digits(s: Seq<char>) -> bool {
    forall|i: int| 0 <= i < s.len() ==> is_digit_char(#[trigger] s[i])
}

/// The most significant decimal digit of a positive integer.
pub open spec fn leading_digit(n: nat) -> int {
    n as int / pow10((n_digits(n) - 1) as nat)
}

/// The rounding bit of a remainder: 1 when the most significant digit is at
/// least 5 (round half away from zero), else 0.  Zero and negative
/// remainders round to 0.
pub open spec fn rounding_term(n: int) -> int {
    if n >= 1 && leading_digit(n as nat) >= 5 {
        1
    } else {
        0
    }
}

/// The value truncated toward zero to an integer.
pub open spec fn trunc_value(m: int, s: int) -> int {
    if s <= 0 {
        m * pow10((-s) as nat)
    } else {
        tdiv(m, pow10(s as nat))
    }
}

/// A sequence of `k` zero characters.
pub open spec fn zero_chars(k: nat) -> Seq<char> {
    Seq::new(k, |i: int| '0')
}

pub proof fn lemma_pow10_pos(n: nat)
    ensures
        pow10(n) >= 1,
    decreases n,
{
    if n > 0 {
        lemma_pow10_pos((n - 1) as nat);
    }
}

pub proof fn lemma_pow10_add(a: nat, b: nat)
    ensures
        pow10(a + b) == pow10(a) * pow10(b),
    decreases a,
{
    if a == 0 {
    } else {
        lemma_pow10_add((a - 1) as nat, b);
        assert(pow10(a + b) == 10 * pow10((a + b - 1) as nat));
        assert(pow10((a - 1) as nat + b) == pow10((a - 1) as nat) * pow10(b));
        assert(10 * (pow10((a - 1) as nat) * pow10(b)) == (10 * pow10((a - 1) as nat)) * pow10(b))
            by (nonlinear_arith);
    }
}

pub proof fn lemma_pow10_mono(a: nat, b: nat)
    requires
        a <= b,
    ensures
        pow10(a) <= pow10(b),
    decreases b,
{
    if a < b {
        lemma_pow10_mono(a, (b - 1) as nat);
        lemma_pow10_pos((b - 1) as nat);
    }
}


/// The digit count brackets the value: `10^(d-1) <= n < 10^d` for `n >= 1`.
pub proof fn lemma_n_digits_bounds(n: nat)
    ensures
        n < pow10(n_digits(n)),
        n >= 1 ==> n >= pow10((n_digits(n) - 1) as nat),
    decreases n,
{
    if n < 10 {
        assert(pow10(0) == 1);
        assert(pow10(1) == 10 * pow10(0));
    } else {
        lemma_n_digits_bounds(n / 10);
        let d = n_digits(n / 10);
        assert(n_digits(n) == d + 1);
        assert(pow10(d + 1) == 10 * pow10(d));
        assert(n / 10 < pow10(d));
        vstd::arithmetic::div_mod::lemma_fundamental_div_mod(n as int, 10);
        assert(n < 10 * pow10(d)) by {
            assert(n == 10 * (n / 10) + n % 10);
            assert(n / 10 <= pow10(d) - 1);
            assert(10 * (n / 10) <= 10 * (pow10(d) - 1));
        };
        assert(n / 10 >= pow10((d - 1) as nat));
        assert(n >= 10 * pow10((d - 1) as nat)) by {
            assert(n >= 10 * (n / 10));
            assert(10 * (n / 10) >= 10 * pow10((d - 1) as nat));
        };
        assert(pow10((d + 1 - 1) as nat) == pow10(d));
    }
}

/// A digit character reads back to its digit.
pub proof fn lemma_digit_char_val(d: int)
    requires
        0 <= d < 10,
    ensures
        digit_val(digit_char(d)) == d,
        is_digit_char(digit_char(d)),
{
    if d == 0 {
        assert(digit_val('0') == 0 && is_digit_char('0'));
    } else if d == 1 {
        assert(digit_val('1') == 1 && is_digit_char('1'));
    } else if d == 2 {
        assert(digit_val('2') == 2 && is_digit_char('2'));
    } else if d == 3 {
        assert(digit_val('3') == 3 && is_digit_char('3'));
    } else if d == 4 {
        assert(digit_val('4') == 4 && is_digit_char('4'));
    } else if d == 5 {
        assert(digit_val('5') == 5 && is_digit_char('5'));
    } else if d == 6 {
        assert(digit_val('6') == 6 && is_digit_char('6'));
    } else if d == 7 {
        assert(digit_val('7') == 7 && is_digit_char('7'));
    } else if d == 8 {
        assert(digit_val('8') == 8 && is_digit_char('8'));
    } else {
        assert(digit_val('9') == 9 && is_digit_char('9'));
    }
}


/// The decimal digit string of `n` has exactly `n_digits(n)` characters,
/// all of them digits, and reads back to `n`.
pub proof fn lemma_dec_seq_props(n: nat)
    ensures
        dec_seq(n).len() == n_digits(n),
        all_digits(dec_seq(n)),
        digits_val(dec_seq(n)) == n,
        dec_seq(n)[0] == digit_char(n as int / pow10((n_digits(n) - 1) as nat)),
    decreases n,
{
    if n < 10 {
        let s = dec_seq(n);
        lemma_digit_char_val(n as int);
        assert(s.len() == 1);
        assert(s.drop_last() =~= Seq::<char>::empty());
        assert(digits_val(Seq::<char>::empty()) == 0);
        assert(s.last() == digit_char(n as int));
        assert(digits_val(s) == digit_val(digit_char(n as int)));
    } else {
        lemma_dec_seq_props(n / 10);
        let s = dec_seq(n);
        let s0 = dec_seq(n / 10);
        assert(s == s0.push(digit_char((n % 10) as int)));
        assert(s.drop_last() == s0);
        assert(s.last() == digit_char((n % 10) as int));
        lemma_digit_char_val((n % 10) as int);
        assert(digit_val(digit_char((n % 10) as int)) == n % 10);
        assert(digits_val(s) == 10 * digits_val(s0) + (n % 10) as int);
        assert(10 * (n / 10) + n % 10 == n);
        assert forall|i: int| 0 <= i < s.len() implies is_digit_char(s[i]) by {
            if i < s0.len() {
                assert(s[i] == s0[i]);
            }
        };
        // leading digit
        let d = n_digits(n);
        assert(s[0] == s0[0]);
        assert((n / 10) as int / pow10((d - 2) as nat) == n as int / pow10((d - 1) as nat)) by {
            lemma_pow10_pos((d - 2) as nat);
            vstd::arithmetic::div_mod::lemma_div_denominator(
                n as int,
                10,
                pow10((d - 2) as nat),
            );
            assert(10 * pow10((d - 2) as nat) == pow10((d - 1) as nat));
        };
    }
}

/// Values of concatenated digit strings.
pub proof fn lemma_digits_val_add(a: Seq<char>, b: Seq<char>)
    ensures
        digits_val(a + b) == digits_val(a) * pow10(b.len()) + digits_val(b),
    decreases b.len(),
{
    if b.len() == 0 {
        assert(a + b =~= a);
        assert(pow10(0) == 1);
    } else {
        lemma_digits_val_add(a, b.drop_last());
        assert((a + b).drop_last() =~= a + b.drop_last());
        assert((a + b).last() == b.last());
        let p = pow10((b.len() - 1) as nat);
        assert(pow10(b.len()) == 10 * p);
        assert(digits_val(a + b) == 10 * digits_val(a + b.drop_last()) + digit_val(b.last()));
        assert(digits_val(b) == 10 * digits_val(b.drop_last()) + digit_val(b.last()));
        assert(10 * (digits_val(a) * p + digits_val(b.drop_last())) == digits_val(a) * (10 * p)
            + 10 * digits_val(b.drop_last())) by (nonlinear_arith);
    }
}

/// A string of zeros reads back to zero.
pub proof fn lemma_zero_chars_val(k: nat)
    ensures
        zero_chars(k).len() == k,
        all_digits(zero_chars(k)),
        digits_val(zero_chars(k)) == 0,
    decreases k,
{
    if k > 0 {
        lemma_zero_chars_val((k - 1) as nat);
        assert(zero_chars(k).drop_last() =~= zero_chars((k - 1) as nat));
        assert(zero_chars(k).last() == '0');
    }
}

/// The rounding bit can be decided by doubling: the most significant digit of
/// a positive `n` is at least 5 exactly when `2n >= 10^(n_digits(n))`.
pub proof fn lemma_rounding_term_doubling(n: nat)
    requires
        n >= 1,
    ensures
        rounding_term(n as int) == 1 <==> 2 * n >= pow10(n_digits(n)),
        rounding_term(n as int) == 0 <==> 2 * n < pow10(n_digits(n)),
{
    let d = n_digits(n);
    let p = pow10((d - 1) as nat);
    let lead = n as int / p;
    lemma_n_digits_bounds(n);
    lemma_pow10_pos((d - 1) as nat);
    assert(pow10(d) == 10 * p);
    vstd::arithmetic::div_mod::lemma_fundamental_div_mod(n as int, p);
    let rest = n as int % p;
    assert(n as int == p * lead + rest);
    assert(0 <= rest < p) by {
        vstd::arithmetic::div_mod::lemma_mod_division_less_than_divisor(n as int, p);
    };
    if lead >= 5 {
        assert(p * lead >= p * 5) by (nonlinear_arith)
            requires
                p >= 1 && lead >= 5,
        ;
        assert(2 * n >= 10 * p);
    } else {
        assert(lead >= 0) by {
            vstd::arithmetic::div_mod::lemma_div_pos_is_pos(n as int, p);
        };
        assert(p * lead <= p * 4) by (nonlinear_arith)
            requires
                p >= 1 && lead <= 4,
        ;
        assert(2 * n <= 8 * p + 2 * rest);
        assert(2 * n < 10 * p);
    }
}

} // verus!
