use raytracer::utils::{fp_approx_eq, EPSILON};

fn approx(a: f64, b: f64) -> bool {
    fp_approx_eq(a.to_bits(), b.to_bits())
}

#[test]
fn the_tolerance_is_one_hundred_thousandth() {
    assert_eq!(EPSILON, 0.00001f64.to_bits());
}

#[test]
fn numbers_closer_than_the_tolerance_are_equal() {
    assert!(approx(1.0, 1.0));
    assert!(approx(1.0, 1.000001));
    assert!(approx(1.000001, 1.0));
    assert!(approx(-3.5, -3.500009));
    assert!(approx(0.0, -0.0));
    assert!(approx(0.0, 0.0000099));
}

#[test]
fn numbers_at_or_beyond_the_tolerance_differ() {
    assert!(!approx(1.0, 1.0001));
    assert!(!approx(1.0, -1.0));
    assert!(!approx(0.0, 0.00001));
    assert!(!approx(0.00001, 0.0));
    assert!(!approx(1.0e300, -1.0e300));
}

#[test]
fn nan_and_infinities_equal_nothing() {
    assert!(!approx(f64::NAN, f64::NAN));
    assert!(!approx(f64::NAN, 1.0));
    assert!(!approx(1.0, f64::NAN));
    assert!(!approx(f64::INFINITY, f64::INFINITY));
    assert!(!approx(f64::INFINITY, f64::NEG_INFINITY));
    assert!(!approx(f64::INFINITY, 1.0));
}

#[test]
fn the_tolerance_agrees_with_float_arithmetic() {
    let mut state: u64 = 0x9e37_79b9_7f4a_7c15;
    for _ in 0..200_000 {
        state ^= state << 13;
        state ^= state >> 7;
        state ^= state << 17;
        let a = (state % 2_000_000) as f64 / 1.0e6;
        state ^= state << 13;
        state ^= state >> 7;
        state ^= state << 17;
        let b = a + ((state % 41) as f64 - 20.0) * 1.0e-6;
        assert_eq!(approx(a, b), (a - b).abs() < 0.00001, "{} {}", a, b);
    }
}
