use rusty_cyclone::precision::{AsReal, Real, SCALE};
use rusty_cyclone::vec3::Vec3;
use rusty_cyclone::error::PhysError;

#[test]
fn vec3_invert() {
    let mut vec = Vec3::new(2i32.as_real(), 1i32.as_real(), (-3i32).as_real());

    vec.invert();

    assert_eq!(vec, Vec3::new((-2i32).as_real(), (-1i32).as_real(), 3i32.as_real()));
}

#[test]
fn vec3_magnitude() {
    let vec = Vec3::new(4i32.as_real(), 2i32.as_real(), (-4i32).as_real());
    let magnitude = Real::from_int(6);
    assert_eq!(magnitude, vec.magnitude());
}

#[test]
fn vec3_mult() {
    let v = Vec3::new(Real::from_int(1), Real::from_int(2), Real::from_int(1));
    assert_eq!(
        v.mul(Real::from_int(2)),
        Vec3::new(Real::from_int(2), Real::from_int(4), Real::from_int(2))
    );
}

#[test]
fn random_vec3() {
    let vec = Vec3::from_range(4..8);
    assert!(vec.magnitude().raw > 3_999_000);
}

#[test]
fn i32_as_real() {
    let x = 5_i32;
    assert_eq!(Real::from_int(5), x.as_real());
}

#[test]
fn u8_as_real() {
    let x = 5_u8;
    assert_eq!(Real::from_int(5), x.as_real());
}

#[test]
fn add_scalar_vector() {
    let v: Vec3 = Default::default();
    let v = v.add_scalar(3i32.as_real());
    assert_eq!(Vec3::new(3i32.as_real(), 3i32.as_real(), 3i32.as_real()), v);
}

#[test]
fn sub_scalar_vector() {
    let v1 = Vec3::new(Real::from_int(3), Real::from_raw(4_500_000), Real::from_int(1));
    let v2 = v1.sub_scalar(Real::from_int(2));
    assert_eq!(
        v2,
        Vec3::new(Real::from_int(1), Real::from_raw(2_500_000), Real::from_int(-1))
    );
}

#[test]
fn dot_product() {
    let v1 = Vec3::new(2i32.as_real(), 3i32.as_real(), 4i32.as_real());
    let v2 = Vec3::new((-1i32).as_real(), 2i32.as_real(), 2i32.as_real());
    let v3 = v1.dot(v2);
    assert_eq!(v3, Real::from_int(12));
}

#[test]
fn invert_twice_is_identity() {
    let mut v = Vec3::new(Real::from_raw(123_456), Real::from_raw(-9_876_543), Real::zero());
    let original = v;
    v.invert();
    v.invert();
    assert_eq!(v, original);
}

#[test]
fn normalize_zero_vector_is_zero() {
    let mut v = Vec3::zeros();
    v.normalize();
    assert_eq!(v, Vec3::zeros());
}

#[test]
fn normalize_scales_to_unit() {
    let mut v = Vec3::new(Real::from_int(3), Real::from_int(4), Real::zero());
    v.normalize();
    assert_eq!(v, Vec3::new(Real::from_raw(600_000), Real::from_raw(800_000), Real::zero()));
}

#[test]
fn normalize_quantum_scale_vector() {
    // The smallest representable diagonal: one raw unit on two axes.
    let mut v = Vec3::new(Real::from_raw(1), Real::from_raw(1), Real::zero());
    v.normalize();
    assert_eq!(v, Vec3::new(Real::from_raw(707_107), Real::from_raw(707_107), Real::zero()));
    assert_eq!(v.magnitude(), Real::one());
}

#[test]
fn normalize_yields_unit_magnitude() {
    let cases = [
        (1i64, 1, 0),
        (123, -456, 789),
        (3_000_000, 4_000_000, 0),
        (10_000_000_000_000, 10_000_000_000_000, 10_000_000_000_000),
        (5_000_000_000_000_000_000, 1, 0),
        (-7, 0, 0),
    ];
    for (x, y, z) in cases {
        let mut v = Vec3::new(Real::from_raw(x), Real::from_raw(y), Real::from_raw(z));
        v.normalize();
        let m = v.magnitude();
        assert!((m.raw - SCALE).abs() <= 4, "magnitude {} for ({x}, {y}, {z})", m.raw);
    }
}

#[test]
fn normalize_is_idempotent_within_rounding() {
    let cases = [
        (1i64, 1, 0),
        (123, -456, 789),
        (3_000_000, 4_000_000, 0),
        (10_000_000_000_000, 10_000_000_000_000, 10_000_000_000_000),
        (5_000_000_000_000_000_000, 1, 0),
        (0, 0, 0),
    ];
    for (x, y, z) in cases {
        let mut once = Vec3::new(Real::from_raw(x), Real::from_raw(y), Real::from_raw(z));
        once.normalize();
        let mut twice = once;
        twice.normalize();
        for (a, b) in [(once.x, twice.x), (once.y, twice.y), (once.z, twice.z)] {
            assert!((a.raw - b.raw).abs() <= 5, "({x}, {y}, {z}): {} vs {}", a.raw, b.raw);
        }
    }
}

#[test]
fn magnitude_squared_matches_square_magnitude() {
    let v = Vec3::new(Real::from_int(3), Real::from_int(4), Real::zero());
    let m = v.magnitude();
    assert_eq!(m, Real::from_int(5));
    assert_eq!(v.square_magnitude(), Real::from_int(25));
    assert_eq!(m.mul(m), v.square_magnitude());
}

#[test]
fn cross_product_is_orthogonal() {
    let v = Vec3::new(Real::from_raw(2_500_000), Real::from_raw(-1_250_000), Real::from_raw(750_000));
    let w = Vec3::new(Real::from_raw(1_100_000), Real::from_raw(4_000_000), Real::from_raw(-300_000));
    let c = v.vec_prod(w);
    let d = v.dot(c);
    // Within a few rounding units of exactly zero.
    assert!(d.raw.abs() <= 10);
}

#[test]
fn vec_prod_right_handed() {
    let x_axis = Vec3::new(Real::one(), Real::zero(), Real::zero());
    let y_axis = Vec3::new(Real::zero(), Real::one(), Real::zero());
    let z_axis = Vec3::new(Real::zero(), Real::zero(), Real::one());
    assert_eq!(x_axis.vec_prod(y_axis), z_axis);
}

#[test]
fn vec_prod_assign_replaces_in_place() {
    let mut v = Vec3::new(Real::one(), Real::zero(), Real::zero());
    v.vec_prod_assign(Vec3::new(Real::zero(), Real::one(), Real::zero()));
    assert_eq!(v, Vec3::new(Real::zero(), Real::zero(), Real::one()));
}

#[test]
fn elementwise_prod_multiplies_components() {
    let v = Vec3::new(Real::from_int(2), Real::from_int(-3), Real::from_raw(500_000));
    let w = Vec3::new(Real::from_int(4), Real::from_int(2), Real::from_int(2));
    assert_eq!(
        v.elementwise_prod(w),
        Vec3::new(Real::from_int(8), Real::from_int(-6), Real::from_int(1))
    );
    let mut u = v;
    u.elementwise_prod_assign(w);
    assert_eq!(u, v.elementwise_prod(w));
}

#[test]
fn add_and_sub_are_componentwise() {
    let v = Vec3::new(Real::from_int(1), Real::from_int(2), Real::from_int(3));
    let w = Vec3::new(Real::from_int(4), Real::from_int(-1), Real::from_raw(250_000));
    assert_eq!(
        v.add(w),
        Vec3::new(Real::from_int(5), Real::from_int(1), Real::from_raw(3_250_000))
    );
    assert_eq!(
        v.sub(w),
        Vec3::new(Real::from_int(-3), Real::from_int(3), Real::from_raw(2_750_000))
    );
}

#[test]
fn add_scaled_vector_is_axpy() {
    let mut v = Vec3::new(Real::from_int(1), Real::from_int(1), Real::from_int(1));
    let w = Vec3::new(Real::from_int(2), Real::from_int(4), Real::from_int(-2));
    v.add_scaled_vector(w, Real::from_raw(500_000));
    assert_eq!(v, Vec3::new(Real::from_int(2), Real::from_int(3), Real::from_int(0)));
}

#[test]
fn division_by_zero_scalar_is_refused() {
    let v = Vec3::new(Real::from_int(1), Real::from_int(2), Real::from_int(3));
    assert_eq!(v.div(Real::zero()), Err(PhysError::InvalidOperation));
}

#[test]
fn division_by_scalar_divides_components() {
    let v = Vec3::new(Real::from_int(3), Real::from_int(-2), Real::from_int(1));
    let r = v.div(Real::from_int(2)).unwrap();
    assert_eq!(
        r,
        Vec3::new(Real::from_raw(1_500_000), Real::from_int(-1), Real::from_raw(500_000))
    );
}

#[test]
fn from_range_components_are_whole_and_bounded() {
    for _ in 0..32 {
        let v = Vec3::from_range(-3..5);
        for c in [v.x, v.y, v.z] {
            assert!(c.raw % SCALE == 0);
            assert!(-3 * SCALE <= c.raw && c.raw <= 4 * SCALE);
        }
    }
}

#[test]
fn ones_and_zeros() {
    assert_eq!(Vec3::zeros(), Vec3::new(Real::zero(), Real::zero(), Real::zero()));
    assert_eq!(Vec3::ones(), Vec3::new(Real::one(), Real::one(), Real::one()));
}
