use raytracer::tuple::Tuple;

fn d(x: f64) -> u64 {
    x.to_bits()
}

fn f(bits: u64) -> f64 {
    f64::from_bits(bits)
}

fn tuple(x: f64, y: f64, z: f64, w: f64) -> Tuple {
    Tuple::new(d(x), d(y), d(z), d(w))
}

fn point(x: f64, y: f64, z: f64) -> Tuple {
    Tuple::point(d(x), d(y), d(z))
}

fn vector(x: f64, y: f64, z: f64) -> Tuple {
    Tuple::vector(d(x), d(y), d(z))
}

fn floats(t: Tuple) -> (f64, f64, f64, f64) {
    (f(t.x), f(t.y), f(t.z), f(t.w))
}

fn length(x: f64, y: f64, z: f64, w: f64) -> f64 {
    (x.powi(2) + y.powi(2) + z.powi(2) + w.powi(2)).sqrt()
}

struct Rng(u64);

impl Rng {
    fn next(&mut self) -> u64 {
        self.0 ^= self.0 << 13;
        self.0 ^= self.0 >> 7;
        self.0 ^= self.0 << 17;
        self.0
    }

    fn coordinate(&mut self) -> f64 {
        (self.next() % 2_000_001) as f64 / 1000.0 - 1000.0
    }
}

#[test]
fn a_tuple_with_w_1_is_a_point() {
    let t = tuple(4.3, -4.2, 3.1, 1.0);

    assert_eq!(f(t.x), 4.3);
    assert_eq!(f(t.y), -4.2);
    assert_eq!(f(t.z), 3.1);
    assert_eq!(f(t.w), 1.0);
}

#[test]
fn a_tuple_with_w_0_is_a_vector() {
    let t = tuple(4.3, -4.2, 3.1, 0.0);

    assert_eq!(f(t.x), 4.3);
    assert_eq!(f(t.y), -4.2);
    assert_eq!(f(t.z), 3.1);
    assert_eq!(f(t.w), 0.0);
}

#[test]
fn point_creates_tuples_with_w_1() {
    let p = point(4., -4., 3.);

    assert_eq!(p, tuple(4., -4., 3., 1.));
    assert_eq!(p.w, 1.0f64.to_bits());
}

#[test]
fn vector_creates_tuples_with_w_0() {
    let p = vector(4., -4., 3.);

    assert_eq!(p, tuple(4., -4., 3., 0.));
    assert_eq!(p.w, 0);
}

#[test]
fn adding_two_tuples() {
    let a = tuple(3., -2., 5., 1.);
    let b = tuple(-2., 3., 1., 0.);

    assert_eq!(a.add(b), tuple(1., 1., 6., 1.));
}

#[test]
fn subtracting_two_points() {
    let a = point(3., 2., 1.);
    let b = point(5., 6., 7.);

    assert_eq!(a.sub(b), vector(-2., -4., -6.));
}

#[test]
fn subtracting_a_vector_from_a_point() {
    let a = point(3., 2., 1.);
    let b = vector(5., 6., 7.);

    assert_eq!(a.sub(b), point(-2., -4., -6.));
}

#[test]
fn subtracting_two_vectors() {
    let a = point(3., 2., 1.);
    let b = vector(5., 6., 7.);

    assert_eq!(a.sub(b), point(-2., -4., -6.));
}

#[test]
fn negating_a_tuple() {
    let a = tuple(1., -2., 3., -4.);

    assert_eq!(a.neg(), tuple(-1., 2., -3., 4.));
}

#[test]
fn multiplying_a_tuple_by_a_scalar() {
    let a = tuple(1., -2., 3., -4.);

    assert_eq!(a.mul(d(3.5)), tuple(3.5, -7., 10.5, -14.));
}

#[test]
fn multiplying_a_tuple_by_a_fraction() {
    let a = tuple(1., -2., 3., -4.);

    assert_eq!(a.mul(d(0.5)), tuple(0.5, -1., 1.5, -2.));
}

#[test]
fn dividing_a_tuple_by_a_scalar() {
    let a = tuple(1., -2., 3., -4.);

    assert_eq!(a.div(d(2.)), tuple(0.5, -1., 1.5, -2.));
}

#[test]
fn magnitude_of_vector_100() {
    let v = vector(1., 0., 0.);

    assert_eq!(f(v.magnitude), 1.);
}

#[test]
fn magnitude_of_vector_010() {
    let v = vector(0., 1., 0.);

    assert_eq!(f(v.magnitude), 1.);
}

#[test]
fn magnitude_of_vector_001() {
    let v = vector(0., 0., 1.);

    assert_eq!(f(v.magnitude), 1.);
}

#[test]
fn magnitude_of_vector_123() {
    let v = vector(1., 2., 3.);

    assert_eq!(f(v.magnitude), 14_f64.sqrt());
}

#[test]
fn magnitude_of_vector_negative_123() {
    let v = vector(-1., -2., -3.);

    assert_eq!(f(v.magnitude), 14_f64.sqrt());
}

#[test]
fn normalizing_vector_400_gives_100() {
    let v = vector(4., 0., 0.);

    assert_eq!(v.normalize(), vector(1., 0., 0.));
}

#[test]
fn normalizing_vector_123() {
    let v = vector(1., 2., 3.);

    assert_eq!(v.normalize(), vector(0.26726, 0.53452, 0.80178));
}

#[test]
fn dot_product_of_two_tuples() {
    let a = vector(1., 2., 3.);
    let b = vector(2., 3., 4.);

    assert_eq!(f(a.dot(&b)), 20.);
}

#[test]
fn cross_product_of_two_tuples() {
    let a = vector(1., 2., 3.);
    let b = vector(2., 3., 4.);

    assert_eq!(a.cross(&b), vector(-1., 2., -1.));
    assert_eq!(b.cross(&a), vector(1., -2., 1.));
}

#[test]
fn the_magnitude_is_the_root_of_the_sum_of_squares() {
    let mut rng = Rng(0x1234_5678_9abc_def1);
    for _ in 0..50_000 {
        let (x, y, z, w) = (rng.coordinate(), rng.coordinate(), rng.coordinate(), rng.coordinate());
        let t = tuple(x, y, z, w);
        assert_eq!(f(t.magnitude), length(x, y, z, w));
        assert!((f(t.magnitude) - (x * x + y * y + z * z + w * w).sqrt()).abs() < 0.00001);
    }
    assert_eq!(f(tuple(1., 2., 3., 4.).magnitude), 30_f64.sqrt());
    assert_eq!(f(tuple(0., 0., 0., 0.).magnitude), 0.);
}

#[test]
fn points_have_w_one_and_vectors_w_zero() {
    let mut rng = Rng(0x0fed_cba9_8765_4321);
    for _ in 0..10_000 {
        let (x, y, z) = (rng.next(), rng.next(), rng.next());
        let p = Tuple::point(x, y, z);
        let v = Tuple::vector(x, y, z);
        assert_eq!((p.x, p.y, p.z, p.w), (x, y, z, 1.0f64.to_bits()));
        assert_eq!((v.x, v.y, v.z, v.w), (x, y, z, 0.0f64.to_bits()));
    }
}

#[test]
fn subtracting_is_adding_the_negated() {
    let mut rng = Rng(0x5555_aaaa_3333_cccc);
    for _ in 0..10_000 {
        let a = tuple(rng.coordinate(), rng.coordinate(), rng.coordinate(), 1.);
        let b = tuple(rng.coordinate(), rng.coordinate(), rng.coordinate(), 0.);
        let (s, t) = (a.sub(b), a.add(b.neg()));
        assert_eq!((s.x, s.y, s.z, s.w, s.magnitude), (t.x, t.y, t.z, t.w, t.magnitude));
        assert_eq!(floats(s), (f(a.x) - f(b.x), f(a.y) - f(b.y), f(a.z) - f(b.z), 1.));
    }
}

#[test]
fn normalized_vectors_have_magnitude_one() {
    let mut rng = Rng(0x1111_2222_3333_4444);
    for _ in 0..50_000 {
        let v = vector(rng.coordinate(), rng.coordinate(), rng.coordinate());
        if f(v.magnitude) == 0. {
            continue;
        }
        let n = v.normalize();
        assert!((f(n.magnitude) - 1.).abs() < 0.00001);
        let m = f(v.magnitude);
        assert_eq!(floats(n), (f(v.x) / m, f(v.y) / m, f(v.z) / m, 0. / m));
    }
}

#[test]
fn normalizing_the_zero_vector_gives_nan() {
    let n = vector(0., 0., 0.).normalize();
    assert!(f(n.x).is_nan() && f(n.y).is_nan() && f(n.z).is_nan() && f(n.w).is_nan());
    assert!(f(n.magnitude).is_nan());
}

#[test]
fn dividing_a_tuple_by_zero_gives_infinities() {
    let t = tuple(1., -2., 3., -4.).div(d(0.));
    assert_eq!(floats(t), (f64::INFINITY, f64::NEG_INFINITY, f64::INFINITY, f64::NEG_INFINITY));
    assert_eq!(f(t.magnitude), f64::INFINITY);
}

#[test]
fn adding_two_points_gives_w_two() {
    let s = point(1., 2., 3.).add(point(4., 5., 6.));
    assert_eq!(floats(s), (5., 7., 9., 2.));
}

#[test]
fn tuple_arithmetic_is_float_arithmetic() {
    let mut rng = Rng(0x9999_8888_7777_6666);
    for _ in 0..20_000 {
        let (ax, ay, az) = (rng.coordinate(), rng.coordinate(), rng.coordinate());
        let (bx, by, bz) = (rng.coordinate(), rng.coordinate(), rng.coordinate());
        let s = rng.coordinate();
        let (a, b) = (vector(ax, ay, az), vector(bx, by, bz));
        assert_eq!(floats(a.add(b)), (ax + bx, ay + by, az + bz, 0. + 0.));
        assert_eq!(floats(a.neg()), (-ax, -ay, -az, -0.));
        assert_eq!(floats(a.mul(d(s))), (ax * s, ay * s, az * s, 0. * s));
        let r = 1. / s;
        if !r.is_nan() {
            assert_eq!(floats(a.div(d(s))), (ax * r, ay * r, az * r, 0. * r));
        }
        assert_eq!(f(a.dot(&b)), ax * bx + ay * by + az * bz + 0. * 0.);
        assert_eq!(
            floats(a.cross(&b)),
            (ay * bz - az * by, az * bx - ax * bz, ax * by - ay * bx, 0.)
        );
    }
}

#[test]
fn the_cross_product_changes_sign_with_the_order() {
    let mut rng = Rng(0x7777_6666_5555_4444);
    for _ in 0..10_000 {
        let a = vector(rng.coordinate(), rng.coordinate(), rng.coordinate());
        let b = vector(rng.coordinate(), rng.coordinate(), rng.coordinate());
        assert_eq!(a.cross(&b), b.cross(&a).neg());
    }
}

#[test]
fn tuples_are_equal_within_the_tolerance() {
    assert!(tuple(1., 2., 3., 1.) == tuple(1.000001, 1.999999, 3., 1.));
    assert!(tuple(1., 2., 3., 1.) != tuple(1.0001, 2., 3., 1.));
    assert!(tuple(1., 2., 3., 1.) != tuple(1., 2., 3., 0.));
    assert!(tuple(f64::NAN, 0., 0., 0.) != tuple(f64::NAN, 0., 0., 0.));
}
