use echo_math::angle::{DegAngle, RadAngle, RADIANS_PER_DEGREE_BITS};
use echo_math::scalar::dfix64::DFix64;
use echo_math::scalar::fixed::FIXED_HALF_PI;

#[test]
fn radians_per_degree_is_the_float_quotient() {
    assert_eq!((core::f32::consts::PI / 180.0).to_bits(), RADIANS_PER_DEGREE_BITS);
}

#[test]
fn radian_angle_keeps_its_measure() {
    let a = RadAngle::<DFix64>::from_radians(DFix64(12_345));
    assert_eq!(a.to_radians(), DFix64(12_345));
}

#[test]
fn radian_angle_operations_are_those_of_the_backend() {
    assert_eq!(RadAngle::<DFix64>::from_radians(DFix64(FIXED_HALF_PI)).sin(), DFix64(65_536));
    assert_eq!(RadAngle::<DFix64>::from_radians(DFix64(FIXED_HALF_PI)).cos(), DFix64(0));
    assert_eq!(RadAngle::<DFix64>::from_radians(DFix64(65_536)).tan(), DFix64(102_067));
}

#[test]
fn degree_angle_keeps_its_measure() {
    let a = DegAngle::<DFix64>::from_degrees(DFix64(90 * 65_536));
    assert_eq!(a.to_degrees(), DFix64(90 * 65_536));
}

#[test]
fn degrees_to_radians_multiplies_by_the_backend_factor() {
    let half_turn = DegAngle::<DFix64>::from_degrees(DFix64(180 * 65_536)).to_radians();
    assert_eq!(half_turn.to_radians(), DFix64(205_740));
    let quarter = DegAngle::<DFix64>::from_degrees(DFix64(90 * 65_536)).to_radians();
    assert_eq!(quarter.to_radians(), DFix64(102_870));
    let back = DegAngle::<DFix64>::from_degrees(DFix64(-90 * 65_536)).to_radians();
    assert_eq!(back.to_radians(), DFix64(-102_870));
}
