use bigdecimal::BigDecimal;
use bigdecimal::ArithmeticError;
use num_traits::ToPrimitive;
use std::str::FromStr;
use num_bigint::BigInt;
use bigdecimal::decimal::get_rounding_term;
use bigdecimal::bigint::count_decimal_digits;

fn dec(s: &str) -> BigDecimal {
    BigDecimal::from_str(s).unwrap()
}

#[test]
fn test_add() {
    let vals = vec![
        ("12.34", "1.234", "13.574"),
        ("12.34", "-1.234", "11.106"),
        ("1234e6", "1234e-6", "1234000000.001234"),
        ("1234e-6", "1234e6", "1234000000.001234"),
        ("18446744073709551616.0", "1", "18446744073709551617"),
        ("184467440737e3380", "0", "184467440737e3380"),
    ];
    for &(x, y, z) in vals.iter() {
        let a = dec(x);
        let b = dec(y);
        let c = dec(z);
        assert_eq!(a.add(&b), c);
        assert_eq!(b.add(&a), c);
    }
}

#[test]
fn test_sub() {
    let vals = vec![
        ("12.34", "1.234", "11.106"),
        ("12.34", "-1.234", "13.574"),
        ("1234e6", "1234e-6", "1233999999.998766"),
    ];
    for &(x, y, z) in vals.iter() {
        let a = dec(x);
        let b = dec(y);
        let c = dec(z);
        assert_eq!(a.sub(&b), c);
    }
}

#[test]
fn test_mul() {
    let vals = vec![
        ("2", "1", "2"),
        ("12.34", "1.234", "15.22756"),
        ("2e1", "1", "20"),
        ("3", ".333333", "0.999999"),
        ("2389472934723", "209481029831", "500549251119075878721813"),
        ("1e-450", "1e500", ".1e51"),
    ];
    for &(x, y, z) in vals.iter() {
        let a = dec(x);
        let b = dec(y);
        let c = dec(z);
        assert_eq!(a.mul(&b), c);
        assert_eq!(b.mul(&a), c);
    }
}

#[test]
fn test_div() {
    let vals = vec![
        ("0", "1", "0"),
        ("0", "10", "0"),
        ("2", "1", "2"),
        ("2e1", "1", "2e1"),
        ("10", "10", "1"),
        ("100", "10.0", "1e1"),
        ("20.0", "200", ".1"),
        ("4", "2", "2.0"),
        ("15", "3", "5.0"),
        ("1", "2", "0.5"),
        ("1", "2e-2", "5e1"),
        ("1", "0.2", "5"),
        ("1.0", "0.02", "50"),
        ("1", "0.020", "5e1"),
        ("5.0", "4.00", "1.25"),
        ("5.0", "4.000", "1.25"),
        ("5", "4.000", "1.25"),
        ("5", "4", "125e-2"),
        ("100", "5", "20"),
        ("-50", "5", "-10"),
        ("200", "-5", "-40."),
        ("1", "3", ".3333333333333333333333333333333333333333333333333333333333333333333333333333333333333333333333333333"),
        ("-2", "-3", ".6666666666666666666666666666666666666666666666666666666666666666666666666666666666666666666666666667"),
        ("-12.34", "1.233", "-10.00811030008110300081103000811030008110300081103000811030008110300081103000811030008110300081103001"),
        ("125348", "352.2283", "355.8714617763535752237966114591019517738921035021887792661748076460636467881768727839301952739175132"),
    ];
    for &(x, y, z) in vals.iter() {
        let a = dec(x);
        let b = dec(y);
        let c = dec(z);
        assert_eq!(a.div(&b).unwrap(), c);
    }
}

#[test]
fn test_division_by_zero_panics() {
    let x = dec("3.14");
    let r = x.div(&BigDecimal::from_i64(0).unwrap());
    assert!(matches!(r, Err(ArithmeticError::DivisionByZero)));
}

#[test]
fn test_division_by_zero_panics_v2() {
    let x = dec("3.14");
    let r = x.div(&BigDecimal::zero());
    assert!(matches!(r, Err(ArithmeticError::DivisionByZero)));
}

#[test]
fn test_rem() {
    let vals = vec![
        ("100", "5", "0"),
        ("2e1", "1", "0"),
        ("2", "1", "0"),
        ("1", "3", "1"),
        ("1", "0.5", "0"),
        ("1.5", "1", "0.5"),
        ("1", "3e-2", "1e-2"),
        ("10", "0.003", "0.001"),
        ("3", "2", "1"),
        ("-3", "2", "-1"),
        ("3", "-2", "1"),
        ("-3", "-2", "-1"),
        ("12.34", "1.233", "0.01"),
    ];
    for &(x, y, z) in vals.iter() {
        let a = dec(x);
        let b = dec(y);
        let c = dec(z);
        let rem = a.rem(&b).unwrap();
        assert_eq!(rem, c);
    }
    let vals = vec![
        (("100", -2), ("50", -1), "0"),
        (("100", 0), ("50", -1), "0"),
        (("100", -2), ("30", 0), "10"),
        (("100", 0), ("30", -1), "10"),
    ];
    for &((x, xs), (y, ys), z) in vals.iter() {
        let a = dec(x).with_scale(xs);
        let b = dec(y).with_scale(ys);
        let c = dec(z);
        let rem = a.rem(&b).unwrap();
        assert_eq!(rem, c);
    }
}

#[test]
fn test_equal() {
    let vals = vec![
        ("2", ".2e1"),
        ("0e1", "0.0"),
        ("0e0", "0.0"),
        ("0e-0", "0.0"),
        ("-0901300e-3", "-901.3"),
        ("-0.901300e+3", "-901.3"),
        ("-0e-1", "-0.0"),
        ("2123121e1231", "212.3121e1235"),
    ];
    for &(x, y) in vals.iter() {
        let a = dec(x);
        let b = dec(y);
        assert_eq!(a, b);
    }
}

#[test]
fn test_not_equal() {
    let vals = vec![("2", ".2e2"), ("1e45", "1e-900"), ("1e+900", "1e-900")];
    for &(x, y) in vals.iter() {
        let a = dec(x);
        let b = dec(y);
        assert!(a != b);
    }
}

#[test]
fn test_with_prec() {
    let vals = vec![
        ("7", 1, "7"),
        ("7", 2, "7.0"),
        ("895", 2, "900"),
        ("8934", 2, "8900"),
        ("8934", 1, "9000"),
        ("1.0001", 5, "1.0001"),
        ("1.0001", 4, "1"),
        ("1.00009", 6, "1.00009"),
        ("1.00009", 5, "1.0001"),
        ("1.00009", 4, "1.000"),
    ];
    for &(x, p, y) in vals.iter() {
        let a = dec(x).with_prec(p);
        assert_eq!(a, dec(y));
    }
}

#[test]
fn test_digits() {
    let vals = vec![("0", 1), ("7", 1), ("10", 2), ("8934", 4)];
    for &(x, y) in vals.iter() {
        let a = dec(x);
        assert_eq!(a.digits(), y);
    }
}

#[test]
fn test_get_rounding_term() {
    let vals = vec![
        ("0", 0),
        ("4", 0),
        ("5", 1),
        ("10", 0),
        ("15", 0),
        ("49", 0),
        ("50", 1),
        ("51", 1),
        ("8934", 1),
        ("9999", 1),
        ("10000", 0),
        ("50000", 1),
        ("99999", 1),
        ("100000", 0),
        ("100001", 0),
        ("10000000000", 0),
        ("9999999999999999999999999999999999999999", 1),
        ("10000000000000000000000000000000000000000", 0),
    ];
    for &(x, y) in vals.iter() {
        let a = BigInt::from_str(x).unwrap();
        assert_eq!(get_rounding_term(&a), y);
    }
}

#[test]
fn test_abs() {
    let vals = vec![("10", "10"), ("-10", "10")];
    for &(x, y) in vals.iter() {
        let a = dec(x).abs();
        let b = dec(y);
        assert!(a == b);
    }
}

#[test]
fn test_count_decimal_digits() {
    let vals = vec![
        ("10", 2),
        ("1", 1),
        ("9", 1),
        ("999", 3),
        ("1000", 4),
        ("9900", 4),
        ("9999", 4),
        ("10000", 5),
        ("99999", 5),
        ("100000", 6),
        ("999999", 6),
        ("1000000", 7),
        ("9999999", 7),
        ("999999999999", 12),
        ("999999999999999999999999", 24),
        ("999999999999999999999999999999999999999999999999", 48),
        ("999999999999999999999999999999999999999999999999999999999999999999999999999999999999999999999999", 96),
        ("199999911199999999999999999999999999999999999999999999999999999999999999999999999999999999999000", 96),
        ("999999999999999999999999999999999999999999999999999999999999999999999999999999999999999999999999999999999999999999999999999999999999999999999999999999999999999999999999999999999999999999999991", 192),
        ("199999999999999999999999999999999999999999999999999999999999999999999999999999999999999999999999999999999999999999999999999999999999999999999999999999999999999999999999999999999999999999999999", 192),
    ];
    for &(x, y) in vals.iter() {
        let a = BigInt::from_str(x).unwrap();
        let b = count_decimal_digits(&a);
        assert_eq!(b, y);
    }
}

#[test]
fn test_half() {
    let vals = vec![
        ("100", "50."),
        ("2", "1"),
        (".2", ".1"),
        ("42", "21"),
        ("3", "1.5"),
        ("99", "49.5"),
        ("3.141592653", "1.5707963265"),
        ("3.1415926536", "1.5707963268"),
    ];
    for &(x, y) in vals.iter() {
        let a = dec(x).half();
        let b = dec(y);
        assert_eq!(a, b);
        assert_eq!(a.as_bigint_and_exponent().1, b.as_bigint_and_exponent().1);
    }
}

#[test]
fn test_is_integer() {
    let true_vals = vec!["100", "100.00", "1724e4", "31.47e8", "-31.47e8", "-0.0"];
    let false_vals = vec!["100.1", "0.001", "3147e-3", "3147e-8", "-0.01", "-1e-3"];
    for s in true_vals {
        let d = dec(s);
        assert!(d.is_integer());
    }
    for s in false_vals {
        let d = dec(s);
        assert!(!d.is_integer());
    }
}

#[test]
fn test_double() {
    let vals = vec![
        ("1", "2"),
        ("1.00", "2.00"),
        ("1.50", "3.00"),
        ("5", "10"),
        ("5.0", "10.0"),
        ("5.5", "11.0"),
        ("5.05", "10.10"),
    ];
    for &(x, y) in vals.iter() {
        let a = dec(x).double();
        let b = dec(y);
        assert_eq!(a, b);
        assert_eq!(a.as_bigint_and_exponent().1, b.as_bigint_and_exponent().1);
    }
}

#[test]
fn test_square() {
    let vals = vec![
        ("1.00", "1.00"),
        ("1.5", "2.25"),
        ("1.50", "2.2500"),
        ("5", "25"),
        ("5.0", "25.00"),
        ("-5.0", "25.00"),
        ("5.5", "30.25"),
        ("0.80", "0.6400"),
        ("0.01234", "0.0001522756"),
        ("3.1415926", "9.86960406437476"),
    ];
    for &(x, y) in vals.iter() {
        let a = dec(x).square();
        let b = dec(y);
        assert_eq!(a, b);
        assert_eq!(a.as_bigint_and_exponent().1, b.as_bigint_and_exponent().1);
    }
}

#[test]
fn test_cube() {
    let vals = vec![
        ("1.00", "1.00"),
        ("1.50", "3.375000"),
        ("5", "125"),
        ("5.0", "125.000"),
        ("5.00", "125.000000"),
        ("-5", "-125"),
        ("-5.0", "-125.000"),
        ("2.01", "8.120601"),
        ("5.5", "166.375"),
        ("0.01234", "0.000001879080904"),
        ("3.1415926", "31.006275093569669642776"),
    ];
    for &(x, y) in vals.iter() {
        let a = dec(x).cube();
        let b = dec(y);
        assert_eq!(a, b);
        assert_eq!(a.as_bigint_and_exponent().1, b.as_bigint_and_exponent().1);
    }
}

#[test]
fn test_to_i64() {
    let vals = vec![("12.34", 12), ("3.14", 3), ("50", 50), ("50000", 50000), ("0.001", 0)];
    for (s, ans) in vals {
        let calculated = dec(s).to_i64().unwrap();
        assert_eq!(ans, calculated);
    }
}

#[test]
fn test_from_i8() {
    let vals = vec![
        ("0", 0),
        ("1", 1),
        ("12", 12),
        ("-13", -13),
        ("111", 111),
        ("-128", i8::MIN),
        ("127", i8::MAX),
    ];
    for (s, n) in vals {
        let expected = dec(s);
        let value = BigDecimal::from_i8(n).unwrap();
        assert_eq!(expected, value);
    }
}

#[test]
fn test_signed() {
    assert!(!BigDecimal::zero().is_positive());
    assert!(!BigDecimal::one().is_negative());
    assert!(BigDecimal::one().is_positive());
    assert!(BigDecimal::one().neg().is_negative());
    assert!(BigDecimal::one().neg().abs().is_positive());
}

#[test]
fn test_from_str() {
    let vals = vec![
        ("1331.107", 1331107, 3),
        ("1.0", 10, 1),
        ("2e1", 2, -1),
        ("0.00123", 123, 5),
        ("-123", -123, 0),
        ("-1230", -1230, 0),
        ("12.3", 123, 1),
        ("123e-1", 123, 1),
        ("1.23e+1", 123, 1),
        ("1.23E+3", 123, -1),
        ("1.23E-8", 123, 10),
        ("-1.23E-10", -123, 12),
    ];
    for &(source, val, scale) in vals.iter() {
        let x = dec(source);
        let (mag, sc) = x.as_bigint_and_exponent();
        assert_eq!(mag.to_i32().unwrap(), val);
        assert_eq!(sc, scale);
    }
}

#[test]
fn test_signum() {
    assert_eq!(dec("5.5").signum(), dec("1"));
    assert_eq!(dec("-5.5").signum(), dec("-1"));
    assert_eq!(dec("0").signum(), dec("0"));
}

#[test]
fn test_abs_sub() {
    assert_eq!(dec("5").abs_sub(&dec("3")), dec("2"));
    assert_eq!(dec("3").abs_sub(&dec("5")), dec("0"));
    assert_eq!(dec("3").abs_sub(&dec("3")), dec("0"));
}

#[test]
fn test_to_bigint() {
    assert_eq!(dec("12.34").to_bigint().unwrap(), BigInt::from(12));
    assert_eq!(dec("-12.99").to_bigint().unwrap(), BigInt::from(-12));
    assert_eq!(dec("1e3").to_bigint().unwrap(), BigInt::from(1000));
}
