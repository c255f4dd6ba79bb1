use mousehole::number::Double;

fn of(n: f64) -> Double {
    Double { bits: n.to_bits() }
}

#[test]
fn doubles_are_classified_by_their_bits() {
    for n in [0.0, -0.0, 1.0, 0.1, f64::MAX, f64::MIN_POSITIVE, 5e-324, -7.5] {
        assert!(of(n).is_finite());
    }
    for n in [f64::NAN, f64::INFINITY, f64::NEG_INFINITY] {
        assert!(!of(n).is_finite());
    }
    assert!(of(f64::NAN).is_nan() && of(-f64::NAN).is_nan());
    assert!(!of(f64::INFINITY).is_nan() && !of(1.0).is_nan());
    assert_eq!(Double::infinity(false), of(f64::INFINITY));
    assert_eq!(Double::infinity(true), of(f64::NEG_INFINITY));
    assert!(of(5e-324).is_positive());
    assert!(of(f64::MAX).is_positive());
    for n in [0.0, -0.0, -1.0] {
        assert!(!of(n).is_positive());
    }
}

#[test]
fn whole_doubles_are_found() {
    for n in [0.0, -0.0, 1.0, -3.0, 4503599627370496.0, 1e300, f64::MAX, 9007199254740992.0] {
        assert!(of(n).is_whole(), "{n}");
    }
    for n in [0.5, 1.5, -0.25, 5e-324, 4503599627370495.5, 0.1, 1e-300] {
        assert!(!of(n).is_whole(), "{n}");
    }
}

#[test]
fn doubles_compare_with_integers() {
    assert!(of(65535.5).exceeds(65535));
    assert!(!of(65535.0).exceeds(65535));
    assert!(!of(-1.0).exceeds(0));
    assert!(of(1e300).exceeds(u64::MAX as u128));
    assert!(of(0.999).below_one());
    assert!(!of(1.0).below_one());
    assert!(of(-1e300).below_one());
    assert!(of(-0.0).below_one());
}

#[test]
fn whole_parts_are_exact() {
    assert_eq!(of(300.0).whole_part(), 300);
    assert_eq!(of(2.75).whole_part(), 2);
    assert_eq!(of(9007199254740992.0).whole_part(), 9007199254740992);
    assert_eq!(of(18446744073709549568.0).whole_part(), 18446744073709549568);
    assert_eq!(of(18446744073709551616.0).whole_part(), u64::MAX);
    assert_eq!(of(0.5).whole_part(), 0);
}
