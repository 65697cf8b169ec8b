use bigdecimal::BigDecimal;
use bigdecimal::format_decimal;
use bigdecimal::ParseBigDecimalError;
use bigdecimal::Sign;
use std::collections::hash_map::DefaultHasher;
use std::hash::{Hash, Hasher};

fn dec(s: &str) -> BigDecimal {
    BigDecimal::from_str(s).unwrap()
}

fn hash_normalized(d: &BigDecimal) -> u64 {
    let mut hasher = DefaultHasher::new();
    format_decimal(d).hash(&mut hasher);
    hasher.finish()
}

#[test]
fn test_fmt() {
    let vals = vec![
        // b  s   ( {}        {:.1}     {:.4}
        (1, 0, ("1", "1.0", "1.0000")),
        (1, 1, ("0.1", "0.1", "0.1000")),
        (1, 2, ("0.01", "0.0", "0.0100")),
        (1, -2, ("100", "100.0", "100.0000")),
        (-1, 0, ("-1", "-1.0", "-1.0000")),
        (-1, 1, ("-0.1", "-0.1", "-0.1000")),
        (-1, 2, ("-0.01", "-0.0", "-0.0100")),
    ];
    for (i, scale, results) in vals {
        let x = BigDecimal::new(num_bigint::BigInt::from(i as i64), scale);
        assert_eq!(x.to_string(), results.0);
        assert_eq!(x.to_string_with_precision(1), results.1);
        assert_eq!(x.to_string_with_precision(4), results.2);
    }
}

#[test]
fn test_hash_equal() {
    let vals = vec![
        ("1.1234", "1.1234000"),
        ("1.12340000", "1.1234"),
        ("001.1234", "1.1234000"),
        ("001.1234", "0001.1234"),
        ("1.1234000000", "1.1234000"),
        ("1.12340", "1.1234000000"),
        ("-0901300e-3", "-901.3"),
        ("-0.901300e+3", "-901.3"),
        ("100", "100.00"),
        ("100.00", "100"),
        ("0.00", "0"),
        ("0.00", "0.000"),
        ("-0.00", "0.000"),
        ("0.00", "-0.000"),
    ];
    for &(x, y) in vals.iter() {
        let a = dec(x);
        let b = dec(y);
        assert_eq!(a, b);
        assert_eq!(hash_normalized(&a), hash_normalized(&b));
    }
}

#[test]
fn test_hash_not_equal() {
    let vals = vec![("1.1234", "1.1234001"), ("10000", "10"), ("10", "10000"), ("10.0", "100")];
    for &(x, y) in vals.iter() {
        let a = dec(x);
        let b = dec(y);
        assert!(a != b);
        assert!(hash_normalized(&a) != hash_normalized(&b));
    }
}

#[test]
fn test_hash_equal_scale() {
    let vals = vec![
        ("1234.5678", -2, "1200", 0),
        ("1234.5678", -2, "1200", -2),
        ("1234.5678", 0, "1234.1234", 0),
        ("1234.5678", -3, "1200", -3),
        ("-1234", -2, "-1200", 0),
    ];
    for &(x, xs, y, ys) in vals.iter() {
        let a = dec(x).with_scale(xs);
        let b = dec(y).with_scale(ys);
        assert_eq!(a, b);
        assert_eq!(hash_normalized(&a), hash_normalized(&b));
    }
}

#[test]
#[should_panic(expected = "InvalidDigit")]
fn test_bad_string_nan() {
    BigDecimal::from_str("hello").unwrap();
}

#[test]
#[should_panic(expected = "Empty")]
fn test_bad_string_empty() {
    BigDecimal::from_str("").unwrap();
}

#[test]
#[should_panic(expected = "InvalidDigit")]
fn test_bad_string_invalid_char() {
    BigDecimal::from_str("12z3.12").unwrap();
}

#[test]
#[should_panic(expected = "InvalidDigit")]
fn test_bad_string_nan_exponent() {
    BigDecimal::from_str("123.123eg").unwrap();
}

#[test]
#[should_panic(expected = "Empty")]
fn test_bad_string_empty_exponent() {
    BigDecimal::from_str("123.123E").unwrap();
}

#[test]
#[should_panic(expected = "InvalidDigit")]
fn test_bad_string_multiple_decimal_points() {
    BigDecimal::from_str("123.12.45").unwrap();
}

#[test]
#[should_panic(expected = "Empty")]
fn test_bad_string_only_decimal() {
    BigDecimal::from_str(".").unwrap();
}

#[test]
#[should_panic(expected = "Empty")]
fn test_bad_string_only_decimal_and_exponent() {
    BigDecimal::from_str(".e4").unwrap();
}

#[test]
fn test_parse_bytes() {
    assert_eq!(BigDecimal::parse_bytes(b"0", 10).unwrap(), BigDecimal::zero());
    assert_eq!(BigDecimal::parse_bytes(b"-12.34", 10).unwrap(), dec("-12.34"));
    assert!(BigDecimal::parse_bytes(b"12x", 10).is_none());
    assert!(BigDecimal::parse_bytes(b"\xff\xfe", 10).is_none());
}

#[test]
fn test_round_trip_strings() {
    let vals = vec![
        "12.34", "-12.34", "0", "0.001", "-0.001", "1234000", "98765.43210", "-0.5", "1e3",
        "1e-3", "184467440737e3380",
    ];
    for s in vals {
        let a = dec(s);
        let b = dec(a.to_string().as_str());
        assert_eq!(a, b);
    }
}

#[test]
fn test_scale_invariance_of_equality() {
    assert_eq!(dec("2"), dec("2.0"));
    assert_eq!(dec("2"), dec("0.2e1"));
    assert_eq!(dec("2.0"), dec("0.2e1"));
}

#[test]
fn test_format_decimal_trims() {
    assert_eq!(format_decimal(&dec("1.2300")), "1.23");
    assert_eq!(format_decimal(&dec("100")), "100");
    assert_eq!(format_decimal(&dec("1.000")), "1");
    assert_eq!(format_decimal(&dec("0.00")), "0");
}

#[test]
fn test_multiply_values() {
    assert_eq!(bigdecimal::multiply_values("12.34", "1.234").unwrap(), "15.22756");
    assert_eq!(bigdecimal::multiply_values("100", "0.50").unwrap(), "50");
    assert!(bigdecimal::multiply_values("abc", "2").is_err());
    assert!(bigdecimal::multiply_values("2", "").is_err());
}

#[test]
fn test_from_str_radix_rejects_non_decimal() {
    let r = BigDecimal::from_str_radix("ff", 16);
    assert!(matches!(r, Err(ParseBigDecimalError::Other(_))));
    let r = BigDecimal::from_str_radix("10", 2);
    assert!(matches!(r, Err(ParseBigDecimalError::Other(_))));
    assert_eq!(BigDecimal::from_str_radix("12.5", 10).unwrap(), dec("12.5"));
}

#[test]
fn test_sign() {
    assert_eq!(dec("-1").sign(), Sign::Minus);
    assert_eq!(dec("0").sign(), Sign::NoSign);
    assert_eq!(dec("1").sign(), Sign::Plus);
}

#[test]
fn test_to_u64() {
    assert_eq!(dec("50000").to_u64(), Some(50000));
    assert_eq!(dec("12.34").to_u64(), Some(12));
    assert_eq!(dec("0.001").to_u64(), Some(0));
    assert_eq!(dec("-3").to_u64(), None);
}
