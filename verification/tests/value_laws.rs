use bigdecimal::BigDecimal;

fn dec(s: &str) -> BigDecimal {
    BigDecimal::from_str(s).unwrap()
}

#[test]
fn add_identity_sampled() {
    let zero = BigDecimal::zero();
    let samples = vec!["0", "1", "-1", "12.34", "-0.001", "1e9", "1e-9", "98765.4321"];
    for s in samples {
        let a = dec(s);
        assert_eq!(a.add(&zero), a);
        assert_eq!(zero.add(&a), a);
    }
}

#[test]
fn add_commutes_sampled() {
    let samples = vec![
        ("12.34", "1.234"),
        ("-5", "0.125"),
        ("1e9", "1e-9"),
        ("0", "-0.0"),
        ("98765.4321", "-98765.4321"),
    ];
    for (x, y) in samples {
        let a = dec(x);
        let b = dec(y);
        assert_eq!(a.add(&b), b.add(&a));
    }
}

#[test]
fn mul_scale_adds_exactly() {
    let samples = vec![
        ("12.34", "1.234"),
        ("-5.0", "0.125"),
        ("1e9", "1e-9"),
        ("2.50", "4.000"),
    ];
    for (x, y) in samples {
        let a = dec(x);
        let b = dec(y);
        let p = a.mul(&b);
        let sa = a.as_bigint_and_exponent().1;
        let sb = b.as_bigint_and_exponent().1;
        assert_eq!(p.as_bigint_and_exponent().1, sa + sb);
    }
}

#[test]
fn division_exact_multiplies_back() {
    let samples = vec![
        ("100", "10.0"),
        ("15", "3"),
        ("1", "0.2"),
        ("-50", "5"),
        ("5.0", "4.00"),
    ];
    for (x, y) in samples {
        let a = dec(x);
        let b = dec(y);
        let q = a.div(&b).unwrap();
        assert_eq!(q.mul(&b), a);
    }
    assert_eq!(dec("100").div(&dec("10.0")).unwrap(), dec("1e1"));
}

#[test]
fn double_half_inverse_sampled() {
    let samples = vec!["1", "-1", "3", "0.5", "12.34", "-99.9", "1e9", "7e-9"];
    for s in samples {
        let a = dec(s);
        let back = a.double().half();
        assert_eq!(back, a);
        assert_eq!(
            back.as_bigint_and_exponent().1,
            a.as_bigint_and_exponent().1,
        );
    }
}

#[test]
fn format_parse_round_trip_sampled() {
    let samples = vec![
        "0", "1", "-1", "12.34", "-12.34", "0.001", "-0.001", "1e3", "-1e3", "1e-3",
        "123456789.987654321", "2123121e1231", "-0901300e-3",
    ];
    for s in samples {
        let a = dec(s);
        let again = dec(a.to_string().as_str());
        assert_eq!(again, a);
    }
}
