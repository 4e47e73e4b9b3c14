use raytracer::color::quantize;
use raytracer::color::Color;

fn by_float(bits: u32) -> u8 {
    (f32::from_bits(bits) * 255.).ceil() as u8
}

fn agree_on_exponent(field: u32) {
    let low = field << 23;
    for bits in low..low + (1 << 23) {
        assert_eq!(quantize(bits), by_float(bits), "bits {:#010x}", bits);
    }
}

#[test]
fn colors_are_rgb_tuples() {
    let c = Color::new((-0.5f32).to_bits(), 0.4f32.to_bits(), 1.7f32.to_bits());

    assert_eq!(f32::from_bits(c.r), -0.5);
    assert_eq!(f32::from_bits(c.g), 0.4);
    assert_eq!(f32::from_bits(c.b), 1.7);
}

#[test]
fn black_is_three_zeros() {
    let black = Color::black();
    assert_eq!((black.r, black.g, black.b), (0, 0, 0));
    assert_eq!(black.rgb8(), (0, 0, 0));
}

fn color(r: f32, g: f32, b: f32) -> Color {
    Color::new(r.to_bits(), g.to_bits(), b.to_bits())
}

fn floats(c: Color) -> (f32, f32, f32) {
    (f32::from_bits(c.r), f32::from_bits(c.g), f32::from_bits(c.b))
}

#[test]
fn adding_colors() {
    let a = color(0.9, 0.6, 0.75);
    let b = color(0.7, 0.1, 0.25);

    assert_eq!(a.add(b), color(1.6, 0.7, 1.0));
}

#[test]
fn subtracting_colors() {
    let a = color(0.9, 0.6, 0.75);
    let b = color(0.7, 0.1, 0.25);

    assert_eq!(a.sub(b), color(0.2, 0.5, 0.5));
}

#[test]
fn multiplying_color_by_scalar() {
    let c = color(0.2, 0.3, 0.4);

    assert_eq!(c.mul(2.0f32.to_bits()), color(0.4, 0.6, 0.8));
}

#[test]
fn multiplying_color_by_color() {
    let a = color(1., 0.2, 0.4);
    let b = color(0.9, 1., 0.1);

    assert_eq!(a.mul_color(b), color(0.9, 0.2, 0.04));
}

#[test]
fn dividing_color_by_scalar() {
    let c = color(0.2, 0.3, 0.4);

    assert_eq!(c.div(2.0f32.to_bits()), color(0.1, 0.15, 0.2));
    assert_eq!(floats(c.div(4.0f32.to_bits())), (0.2 * (1. / 4.), 0.3 * (1. / 4.), 0.4 * (1. / 4.)));
}

#[test]
fn dividing_a_color_by_zero_gives_infinities() {
    let c = color(0.2, -0.3, 0.);
    let q = floats(c.div(0.0f32.to_bits()));
    assert_eq!(q.0, f32::INFINITY);
    assert_eq!(q.1, f32::NEG_INFINITY);
    assert!(q.2.is_nan());
}

#[test]
fn negating_a_color() {
    let c = color(0.2, -0.3, 0.);
    assert_eq!(floats(c.neg()), (-0.2, 0.3, -0.));
    assert_eq!(c.neg().b, 0x8000_0000);
}

#[test]
fn subtracting_colors_is_adding_the_negated() {
    let a = color(0.9, 0.6, 0.75);
    let b = color(0.7, 0.1, 0.25);
    let (x, y) = (a.sub(b), a.add(b.neg()));
    assert_eq!((x.r, x.g, x.b), (y.r, y.g, y.b));
    assert_eq!(floats(x), (0.9 - 0.7, 0.6 - 0.1, 0.75 - 0.25));
}

#[test]
fn color_arithmetic_is_float_arithmetic() {
    let a = color(0.9, 0.6, 0.75);
    let b = color(0.7, 0.1, 0.25);
    assert_eq!(floats(a.add(b)), (0.9 + 0.7, 0.6 + 0.1, 0.75 + 0.25));
    assert_eq!(floats(a.mul_color(b)), (0.9 * 0.7, 0.6 * 0.1, 0.75 * 0.25));
    assert_eq!(floats(a.mul(3.3f32.to_bits())), (0.9 * 3.3, 0.6 * 3.3, 0.75 * 3.3));
}

#[test]
fn colors_are_equal_within_the_tolerance() {
    assert!(color(0.5, 0.5, 0.5) == color(0.500001, 0.499999, 0.5));
    assert!(color(0.5, 0.5, 0.5) != color(0.50002, 0.5, 0.5));
    assert!(color(0.5, 0.5, 0.5) != color(0.5, 0.5, 0.49998));
    assert!(color(f32::NAN, 0., 0.) != color(f32::NAN, 0., 0.));
    assert!(color(0., 0., 0.) == color(-0., 0., 0.));
}

#[test]
fn the_bytes_of_a_colour() {
    let c = Color::new(1.5f32.to_bits(), 0.5f32.to_bits(), (-0.5f32).to_bits());
    assert_eq!(c.rgb8(), (255, 128, 0));
}

#[test]
fn channels_round_up() {
    assert_eq!(quantize(0.0f32.to_bits()), 0);
    assert_eq!(quantize(1.0f32.to_bits()), 255);
    assert_eq!(quantize(0.5f32.to_bits()), 128);
    assert_eq!(quantize(0.25f32.to_bits()), 64);
    assert_eq!(quantize(0.001f32.to_bits()), 1);
    assert_eq!(quantize(0.2f32.to_bits()), 51);
    assert_eq!(quantize(0.4f32.to_bits()), 102);
    assert_eq!(quantize(0.996f32.to_bits()), 254);
    assert_eq!(quantize(0.997f32.to_bits()), 255);
}

#[test]
fn channels_out_of_range_saturate() {
    assert_eq!(quantize(1.5f32.to_bits()), 255);
    assert_eq!(quantize(2.0f32.to_bits()), 255);
    assert_eq!(quantize(1.0e30f32.to_bits()), 255);
    assert_eq!(quantize(f32::MAX.to_bits()), 255);
    assert_eq!(quantize(f32::INFINITY.to_bits()), 255);
    assert_eq!(quantize((-0.5f32).to_bits()), 0);
    assert_eq!(quantize((-0.0f32).to_bits()), 0);
    assert_eq!(quantize((-1.0e-40f32).to_bits()), 0);
    assert_eq!(quantize(f32::NEG_INFINITY.to_bits()), 0);
    assert_eq!(quantize(f32::NAN.to_bits()), 0);
    assert_eq!(quantize(0x7f80_0001), 0);
    assert_eq!(quantize(0xffc0_0000), 0);
}

#[test]
fn tiny_positive_channels_give_one() {
    assert_eq!(quantize(1), 1);
    assert_eq!(quantize(f32::MIN_POSITIVE.to_bits()), 1);
    assert_eq!(quantize(0x007f_ffff), 1);
    assert_eq!(quantize(1.0e-20f32.to_bits()), 1);
}

#[test]
fn the_product_is_rounded_before_the_ceiling() {
    // The least number above 1/255: its exact product with 255 is above 1,
    // yet rounds to 1 in single precision.
    assert_eq!(quantize(0x3b80_8081), 1);
    assert_eq!(by_float(0x3b80_8081), 1);
    assert_eq!(quantize(0x3b80_8082), 2);
    assert_eq!(by_float(0x3b80_8082), 2);
}

#[test]
fn bytes_agree_with_float_arithmetic_on_a_sweep() {
    let mut bits: u32 = 0;
    loop {
        assert_eq!(quantize(bits), by_float(bits), "bits {:#010x}", bits);
        match bits.checked_add(1021) {
            Some(next) => bits = next,
            None => break,
        }
    }
}

#[test]
fn bytes_agree_with_float_arithmetic_near_each_exponent() {
    for field in 0..=255u32 {
        let low = field << 23;
        for offset in [0u32, 1, 2, 0x3f_ffff, 0x40_0000, 0x40_0001, 0x7f_fffe, 0x7f_ffff] {
            for sign in [0u32, 0x8000_0000] {
                let bits = sign | low | offset;
                assert_eq!(quantize(bits), by_float(bits), "bits {:#010x}", bits);
            }
        }
    }
}

#[test]
fn bytes_agree_with_float_arithmetic_exponent_118() {
    agree_on_exponent(118);
}

#[test]
fn bytes_agree_with_float_arithmetic_exponent_119() {
    agree_on_exponent(119);
}

#[test]
fn bytes_agree_with_float_arithmetic_exponent_120() {
    agree_on_exponent(120);
}

#[test]
fn bytes_agree_with_float_arithmetic_exponent_121() {
    agree_on_exponent(121);
}

#[test]
fn bytes_agree_with_float_arithmetic_exponent_122() {
    agree_on_exponent(122);
}

#[test]
fn bytes_agree_with_float_arithmetic_exponent_123() {
    agree_on_exponent(123);
}

#[test]
fn bytes_agree_with_float_arithmetic_exponent_124() {
    agree_on_exponent(124);
}

#[test]
fn bytes_agree_with_float_arithmetic_exponent_125() {
    agree_on_exponent(125);
}

#[test]
fn bytes_agree_with_float_arithmetic_exponent_126() {
    agree_on_exponent(126);
}

#[test]
fn bytes_agree_with_float_arithmetic_exponent_127() {
    agree_on_exponent(127);
}

#[test]
fn bytes_agree_with_float_arithmetic_exponent_128() {
    agree_on_exponent(128);
}
