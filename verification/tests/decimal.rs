use raytracer::decimal::{push_decimal, to_decimal};

#[test]
fn numerals_have_no_leading_zero() {
    assert_eq!(to_decimal(0), "0");
    assert_eq!(to_decimal(7), "7");
    assert_eq!(to_decimal(10), "10");
    assert_eq!(to_decimal(255), "255");
    assert_eq!(to_decimal(1009), "1009");
    assert_eq!(to_decimal(u32::MAX), "4294967295");
}

#[test]
fn numerals_agree_with_formatting() {
    for n in 0..100_000u32 {
        assert_eq!(to_decimal(n), format!("{}", n));
    }
}

#[test]
fn a_numeral_is_appended() {
    let mut s = String::from("w=");
    push_decimal(&mut s, 640);
    assert_eq!(s, "w=640");
}
