use mousehole::number::Double;
use mousehole::numeral::{meaning, read, Numeral};

fn decimal(s: &str) -> Numeral {
    Numeral::Decimal(s.to_string())
}

#[test]
fn decimal_numbers_are_taken_as_they_stand() {
    for s in ["0", "007", "+5", "-5", "1.5", "5.", ".5", "-.5e+3", "1E5", "1e-300", "1.e2"] {
        assert_eq!(read(s), decimal(s));
    }
    for s in ["", "+", "-", ".", "e5", "1e", "1e+", "1.2.3", "1e5e3", "1e5.0", "--1", "1 2", "1_0", "\u{661}"] {
        assert_eq!(read(s), Numeral::NotANumber, "{s}");
    }
}

#[test]
fn infinity_has_one_spelling() {
    assert_eq!(read("Infinity"), Numeral::Infinite { negative: false });
    assert_eq!(read("+Infinity"), Numeral::Infinite { negative: false });
    assert_eq!(read("-Infinity"), Numeral::Infinite { negative: true });
    for s in ["inf", "infinity", "INFINITY", "nan", "NaN", "--Infinity"] {
        assert_eq!(read(s), Numeral::NotANumber);
    }
}

#[test]
fn prefixes_announce_the_radix() {
    assert_eq!(read("0x0"), decimal("0"));
    assert_eq!(read("0x10"), decimal("16"));
    assert_eq!(read("0XfF"), decimal("255"));
    assert_eq!(read("0o777"), decimal("511"));
    assert_eq!(read("0B1010"), decimal("10"));
    assert_eq!(read("0x0000A"), decimal("10"));
    assert_eq!(read("0xFFFFFFFFFFFFFFFF"), decimal("18446744073709551615"));
    assert_eq!(
        read("0x10000000000000000000000000000000000000000"),
        decimal("1461501637330902918203684832716283019655932542976")
    );
    for s in ["0x", "0xG", "0o8", "0b2", "+0x1", "-0x1", "0x1.8", "x10", "0y1"] {
        assert_eq!(read(s), Numeral::NotANumber, "{s}");
    }
}

#[test]
fn the_reader_is_asked_of_decimal_numbers_alone() {
    let reader = |s: &str| {
        assert!(!s.contains('n') && !s.contains('x'));
        s.parse::<f64>().ok().map(|n| Double { bits: n.to_bits() })
    };
    let means = |s: &str| meaning(s, &reader).map(|d| f64::from_bits(d.bits));
    assert_eq!(means("0.5"), Some(0.5));
    assert_eq!(means("0x20"), Some(32.0));
    assert_eq!(means("Infinity"), Some(f64::INFINITY));
    assert_eq!(means("-Infinity"), Some(f64::NEG_INFINITY));
    assert_eq!(means("nan"), None);
}
