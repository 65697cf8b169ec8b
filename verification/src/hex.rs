//! A hexadecimal encoder and decoder for byte strings.  Bytes are rendered
//! as lowercase digit pairs separated by single spaces; the decoder accepts
//! pairs of hexadecimal digits of either case, skipping a space wherever a
//! new pair could begin.

use vstd::prelude::*;

verus! {

pub open spec fn is_hex_digit(c: char) -> bool {
    ('0' <= c && c <= '9') || ('a' <= c && c <= 'f') || ('A' <= c && c <= 'F')
}

/// The value of one hexadecimal digit character.
pub open spec fn hex_digit_val(c: char) -> int {
    if '0' <= c && c <= '9' {
        c as int - '0' as int
    } else if 'a' <= c && c <= 'f' {
        c as int - 'a' as int + 10
    } else {
        c as int - 'A' as int + 10
    }
}

/// A well-formed hexadecimal input: wherever a pair could begin there is
/// either a space or two hexadecimal digits.
pub open spec fn valid_hex_input(s: Seq<char>) -> bool
    decreases s.len(),
{
    if s.len() == 0 {
        true
    } else if s[0] == ' ' {
        valid_hex_input(s.subrange(1, s.len() as int))
    } else {
        s.len() >= 2 && is_hex_digit(s[0]) && is_hex_digit(s[1]) && valid_hex_input(
            s.subrange(2, s.len() as int),
        )
    }
}

/// The bytes encoded by a well-formed hexadecimal input.
pub open spec fn spec_decode_hex(s: Seq<char>) -> Seq<u8>
    decreases s.len(),
{
    if s.len() == 0 {
        Seq::empty()
    } else if s[0] == ' ' {
        spec_decode_hex(s.subrange(1, s.len() as int))
    } else if s.len() >= 2 {
        seq![(16 * hex_digit_val(s[0]) + hex_digit_val(s[1])) as u8] + spec_decode_hex(
            s.subrange(2, s.len() as int),
        )
    } else {
        Seq::empty()
    }
}

/// The lowercase character of one hexadecimal digit.
pub open spec fn hex_digit_char(d: int) -> char {
    if d == 0 {
        '0'
    } else if d == 1 {
        '1'
    } else if d == 2 {
        '2'
    } else if d == 3 {
        '3'
    } else if d == 4 {
        '4'
    } else if d == 5 {
        '5'
    } else if d == 6 {
        '6'
    } else if d == 7 {
        '7'
    } else if d == 8 {
        '8'
    } else if d == 9 {
        '9'
    } else if d == 10 {
        'a'
    } else if d == 11 {
        'b'
    } else if d == 12 {
        'c'
    } else if d == 13 {
        'd'
    } else if d == 14 {
        'e'
    } else {
        'f'
    }
}

/// The two characters of one byte.
pub open spec fn hex_byte_chars(b: u8) -> Seq<char> {
    seq![hex_digit_char(b as int / 16), hex_digit_char(b as int % 16)]
}

/// The space-separated rendering of a byte string.
pub open spec fn spec_encode_hex(bs: Seq<u8>) -> Seq<char>
    decreases bs.len(),
{
    if bs.len() == 0 {
        Seq::empty()
    } else if bs.len() == 1 {
        hex_byte_chars(bs[0])
    } else {
        spec_encode_hex(bs.drop_last()) + seq![' '] + hex_byte_chars(bs.last())
    }
}

/// The value of one hexadecimal digit character of either case.
pub fn decode_hex_digit(digit: char) -> (r: u8)
    requires
        is_hex_digit(digit),
    ensures
        r as int == hex_digit_val(digit),
        r < 16,
{
    let v = digit as u32;
    if v >= 48 && v <= 57 {
        (v - 48) as u8
    } else if v >= 97 && v <= 102 {
        (v - 97 + 10) as u8
    } else {
        (v - 65 + 10) as u8
    }
}

/// The bytes of a well-formed hexadecimal string: digit pairs of either
/// case, with spaces allowed wherever a pair could begin.
pub fn decode_hex(hex: &str) -> (r: Vec<u8>)
    requires
        valid_hex_input(hex@),
    ensures
        r@ == spec_decode_hex(hex@),
{
    let n = hex.unicode_len();
    let mut r: Vec<u8> = Vec::new();
    let mut i: usize = 0;
    proof {
        assert(hex@.subrange(0, n as int) =~= hex@);
    }
    while i < n
        invariant
            i <= n,
            n == hex@.len(),
            valid_hex_input(hex@.subrange(i as int, n as int)),
            r@ + spec_decode_hex(hex@.subrange(i as int, n as int)) == spec_decode_hex(hex@),
        decreases n - i,
    {
        let ghost rest = hex@.subrange(i as int, n as int);
        let first = hex.get_char(i);
        if first == ' ' {
            proof {
                assert(rest[0] == ' ');
                assert(rest.subrange(1, rest.len() as int) =~= hex@.subrange(
                    i + 1,
                    n as int,
                ));
            }
            i = i + 1;
        } else {
            proof {
                assert(rest[0] == first);
                assert(rest.len() >= 2);
                assert(rest[1] == hex@[i + 1]);
                assert(rest.subrange(2, rest.len() as int) =~= hex@.subrange(
                    i + 2,
                    n as int,
                ));
            }
            let second = hex.get_char(i + 1);
            let b = 16 * decode_hex_digit(first) + decode_hex_digit(second);
            r.push(b);
            proof {
                assert(r@ == (r@.drop_last()).push(b));
                assert(r@.drop_last() + (seq![b] + spec_decode_hex(
                    hex@.subrange(i + 2, n as int),
                )) =~= r@ + spec_decode_hex(hex@.subrange(i + 2, n as int)));
            }
            i = i + 2;
        }
    }
    proof {
        assert(hex@.subrange(n as int, n as int) =~= Seq::<char>::empty());
        assert(r@ + Seq::<u8>::empty() =~= r@);
    }
    r
}

/// The lowercase character of one hexadecimal digit.
pub fn encode_hex_digit(digit: u8) -> (r: char)
    requires
        digit < 16,
    ensures
        r == hex_digit_char(digit as int),
        is_hex_digit(r),
        !('A' <= r && r <= 'F'),
{
    if digit == 0 {
        '0'
    } else if digit == 1 {
        '1'
    } else if digit == 2 {
        '2'
    } else if digit == 3 {
        '3'
    } else if digit == 4 {
        '4'
    } else if digit == 5 {
        '5'
    } else if digit == 6 {
        '6'
    } else if digit == 7 {
        '7'
    } else if digit == 8 {
        '8'
    } else if digit == 9 {
        '9'
    } else if digit == 10 {
        'a'
    } else if digit == 11 {
        'b'
    } else if digit == 12 {
        'c'
    } else if digit == 13 {
        'd'
    } else if digit == 14 {
        'e'
    } else {
        'f'
    }
}

/// The two characters of one byte, high digit first.
pub fn encode_hex_byte(byte: u8) -> (r: [char; 2])
    ensures
        r@ == hex_byte_chars(byte),
{
    [encode_hex_digit(byte / 16), encode_hex_digit(byte % 16)]
}

/// The space-separated lowercase rendering of a byte string.
pub fn encode_hex(bytes: &[u8]) -> (r: String)
    ensures
        r@ == spec_encode_hex(bytes@),
{
    let n = bytes.len();
    let mut out = String::new();
    let mut i: usize = 0;
    proof {
        assert(bytes@.subrange(0, 0) =~= Seq::<u8>::empty());
    }
    while i < n
        invariant
            i <= n,
            n == bytes@.len(),
            out@ == spec_encode_hex(bytes@.subrange(0, i as int)),
        decreases n - i,
    {
        let b = bytes[i];
        proof {
            reveal_strlit(" ");
            let pre = bytes@.subrange(0, i as int);
            let post = bytes@.subrange(0, i as int + 1);
            assert(post.drop_last() =~= pre);
            assert(post.last() == b);
            if i > 0 {
                assert((out@ + " "@) + hex_byte_chars(b) =~= spec_encode_hex(post));
            } else {
                assert(post.len() == 1);
            }
        }
        if i > 0 {
            out.append(" ");
        }
        let hi = encode_hex_digit(b / 16);
        let lo = encode_hex_digit(b % 16);
        let ghost mid = out@;
        out = push_char(out, hi);
        out = push_char(out, lo);
        proof {
            assert((mid + seq![hi]) + seq![lo] =~= mid + hex_byte_chars(b));
        }
        i = i + 1;
    }
    proof {
        assert(bytes@.subrange(0, n as int) =~= bytes@);
    }
    out
}

/// Appends one character to a string.
fn push_char(s: String, c: char) -> (r: String)
    requires
        is_hex_digit(c),
        !('A' <= c && c <= 'F'),
    ensures
        r@ == s@ + seq![c],
{
    let single = char_str(c);
    proof {
        reveal_strlit("0");
        reveal_strlit("1");
        reveal_strlit("2");
        reveal_strlit("3");
        reveal_strlit("4");
        reveal_strlit("5");
        reveal_strlit("6");
        reveal_strlit("7");
        reveal_strlit("8");
        reveal_strlit("9");
        reveal_strlit("a");
        reveal_strlit("b");
        reveal_strlit("c");
        reveal_strlit("d");
        reveal_strlit("e");
        reveal_strlit("f");
        assert(single@ =~= seq![c]);
    }
    s.concat(single)
}

/// One lowercase hexadecimal character as a string slice.
fn char_str(c: char) -> (r: &'static str)
    requires
        is_hex_digit(c),
        !('A' <= c && c <= 'F'),
    ensures
        ({
            &&& r@.len() == 1
            &&& r@[0] == c
        }),
{
    proof {
        reveal_strlit("0");
        reveal_strlit("1");
        reveal_strlit("2");
        reveal_strlit("3");
        reveal_strlit("4");
        reveal_strlit("5");
        reveal_strlit("6");
        reveal_strlit("7");
        reveal_strlit("8");
        reveal_strlit("9");
        reveal_strlit("a");
        reveal_strlit("b");
        reveal_strlit("c");
        reveal_strlit("d");
        reveal_strlit("e");
        reveal_strlit("f");
    }
    if c == '0' {
        "0"
    } else if c == '1' {
        "1"
    } else if c == '2' {
        "2"
    } else if c == '3' {
        "3"
    } else if c == '4' {
        "4"
    } else if c == '5' {
        "5"
    } else if c == '6' {
        "6"
    } else if c == '7' {
        "7"
    } else if c == '8' {
        "8"
    } else if c == '9' {
        "9"
    } else if c == 'a' {
        "a"
    } else if c == 'b' {
        "b"
    } else if c == 'c' {
        "c"
    } else if c == 'd' {
        "d"
    } else if c == 'e' {
        "e"
    } else {
        "f"
    }
}

} // verus!
