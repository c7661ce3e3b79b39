use echo_math::scalar::dfix64::DFix64;
use echo_math::scalar::traits::Scalar;
use echo_math::types::{Direction3, Point3};
use echo_math::vec3::Vec3;

fn fx(x: f32) -> DFix64 {
    DFix64::from_f32_bits(x.to_bits())
}

fn fl(v: DFix64) -> f32 {
    f32::from_bits(v.to_f32_bits())
}

#[test]
fn test_vec3_f32_creation() {
    let v = Vec3::<DFix64>::new(fx(1.0), fx(2.0), fx(3.0));
    assert_eq!(fl(v.x), 1.0);
    assert_eq!(fl(v.y), 2.0);
    assert_eq!(fl(v.z), 3.0);
}

#[test]
fn test_vec3_f32_ops() {
    let v1 = Vec3::<DFix64>::new(fx(1.0), fx(2.0), fx(3.0));
    let v2 = Vec3::<DFix64>::new(fx(4.0), fx(5.0), fx(6.0));

    let v_add = v1 + v2;
    assert_eq!(fl(v_add.x), 5.0);

    let v_sub = v2 - v1;
    assert_eq!(fl(v_sub.x), 3.0);

    let v_mul = v1 * fx(2.0);
    assert_eq!(fl(v_mul.x), 2.0);

    let dot = v1.dot(&v2);
    assert_eq!(fl(dot), 32.0);
}

#[test]
fn test_vec3_f32det_creation() {
    let v = Vec3::<DFix64>::new(fx(1.0), fx(2.0), fx(3.0));
    assert_eq!(v.x.0, 65_536);
    assert_eq!(v.y.0, 2 * 65_536);
    assert_eq!(v.z.0, 3 * 65_536);
    assert_eq!(fl(v.x), 1.0);
    assert_eq!(fl(v.y), 2.0);
    assert_eq!(fl(v.z), 3.0);
}

#[test]
fn test_vec3_f32det_ops() {
    let v1 = Vec3::<DFix64>::new(fx(1.0), fx(2.0), fx(3.0));
    let v2 = Vec3::<DFix64>::new(fx(4.0), fx(5.0), fx(6.0));

    let v_add = v1 + v2;
    assert_eq!(fl(v_add.x), 5.0);
    assert_eq!(v_add, Vec3::new(fx(5.0), fx(7.0), fx(9.0)));

    let v_sub = v2 - v1;
    assert_eq!(fl(v_sub.x), 3.0);
    assert_eq!(v_sub, Vec3::splat(fx(3.0)));

    let v_mul = v1 * fx(2.0);
    assert_eq!(fl(v_mul.x), 2.0);
    assert_eq!(v_mul, Vec3::new(fx(2.0), fx(4.0), fx(6.0)));

    let dot = v1.dot(&v2);
    assert_eq!(fl(dot), 32.0);
    assert_eq!(dot, DFix64(32 * 65_536));
}

#[test]
fn splat_fills_every_component() {
    let v = Vec3::splat(DFix64(7));
    assert_eq!(v, Vec3::new(DFix64(7), DFix64(7), DFix64(7)));
}

#[test]
fn dot_rounds_each_product_down() {
    let a = Vec3::new(DFix64(3), DFix64(-7), DFix64(65_536));
    let b = Vec3::new(DFix64(32_768), DFix64(3), DFix64(-5));
    // 3 * 32768 >> 16 = 1, -21 >> 16 = -1, 65536 * -5 >> 16 = -5.
    assert_eq!(a.dot(&b), DFix64(-5));
}

#[test]
fn length_is_the_root_of_the_squared_length() {
    let v = Vec3::new(fx(3.0), fx(4.0), fx(0.0));
    assert_eq!(v.length_sq(), fx(25.0));
    assert_eq!(v.length(), fx(5.0));
    let w = Vec3::new(fx(1.0), fx(1.0), fx(0.0));
    assert_eq!(w.length(), DFix64(92_681));
}

#[test]
fn normalize_scales_by_the_reciprocal_length() {
    let v = Vec3::new(fx(3.0), fx(4.0), fx(0.0));
    let n = v.normalize();
    assert_eq!(n, Vec3::new(DFix64(39_321), DFix64(52_428), DFix64(0)));
    let unit = Vec3::new(fx(0.0), fx(-2.0), fx(0.0)).normalize();
    assert_eq!(unit, Vec3::new(fx(0.0), fx(-1.0), fx(0.0)));
}

#[test]
fn normalize_keeps_a_vector_of_length_zero() {
    let zero = Vec3::splat(DFix64::zero());
    assert_eq!(zero.normalize(), zero);
    // Each square is below one quantum, so the length is zero.
    let tiny = Vec3::new(DFix64(200), DFix64(-100), DFix64(3));
    assert_eq!(tiny.length(), DFix64(0));
    assert_eq!(tiny.normalize(), tiny);
}

#[test]
fn points_and_directions() {
    let p = Point3::new(fx(1.0), fx(2.0), fx(3.0));
    let q = Point3::new(fx(4.0), fx(6.0), fx(8.0));
    let d = q - p;
    assert_eq!(d, Direction3::new(fx(3.0), fx(4.0), fx(5.0)));
    assert_eq!(p + d, q);
    assert_eq!(d * fx(2.0), Direction3::new(fx(6.0), fx(8.0), fx(10.0)));
    assert_eq!(d * fx(0.5), Direction3::new(fx(1.5), fx(2.0), fx(2.5)));
}
