use rusty_cyclone::precision::Real;
use rusty_cyclone::vec3::Vec3;
use rusty_cyclone::particle::{Particle, ParticleLike};
use rusty_cyclone::error::PhysError;

fn vec(x: i64, y: i64, z: i64) -> Vec3 {
    Vec3::new(Real::from_int(x), Real::from_int(y), Real::from_int(z))
}

#[test]
fn integrate_zero_duration_is_a_noop() {
    let mut p = Particle::from_position(
        vec(1, 2, 3),
        Real::from_int(2),
        vec(4, 5, 6),
        vec(0, -10, 0),
        Real::from_raw(990_000),
    );
    p.add_force(vec(7, 7, 7));
    let before = p;
    p.integrate(Real::zero());
    assert_eq!(p, before);
    p.integrate(Real::from_int(-1));
    assert_eq!(p, before);
}

#[test]
fn integrate_ballistic_step() {
    // Position (0, 1.5, 0), velocity (40, 30, 0), constant acceleration
    // (0, -20, 0), damping 0.99, one full second, no registry forces.
    let mut p = Particle::from_position(
        Vec3::new(Real::zero(), Real::from_raw(1_500_000), Real::zero()),
        Real::from_int(200),
        vec(40, 30, 0),
        vec(0, -20, 0),
        Real::from_raw(990_000),
    );
    p.integrate(Real::one());
    // Position moves by the pre-step velocity.
    assert_eq!(
        p.get_position(),
        Vec3::new(Real::from_int(40), Real::from_raw(31_500_000), Real::zero())
    );
    // The working acceleration is acceleration * (1 + duration): (0, -40, 0);
    // the velocity becomes ((40, 30, 0) + (0, -40, 0)) * 0.99^1.0.
    assert_eq!(
        p.get_velocity(),
        Vec3::new(Real::from_raw(39_600_000), Real::from_raw(-9_900_000), Real::zero())
    );
    // The accumulator is cleared by the step.
    assert_eq!(p.force_accum, Vec3::zeros());
}

#[test]
fn integrate_clears_accumulator() {
    let mut p = Particle::new(Real::from_int(1), vec(0, 0, 0), vec(0, 0, 0), Real::one());
    p.add_force(vec(3, -2, 1));
    assert_eq!(p.force_accum, vec(3, -2, 1));
    p.integrate(Real::one());
    assert_eq!(p.force_accum, Vec3::zeros());
}

#[test]
fn add_force_accumulates() {
    let mut p = Particle::new(Real::from_int(1), vec(0, 0, 0), vec(0, 0, 0), Real::one());
    p.add_force(vec(1, 2, 3));
    p.add_force(vec(10, 20, 30));
    assert_eq!(p.force_accum, vec(11, 22, 33));
    p.clear_accumulator();
    assert_eq!(p.force_accum, Vec3::zeros());
}

#[test]
fn mass_round_trip() {
    let mut p = Particle::new(Real::from_int(2), vec(0, 0, 0), vec(0, 0, 0), Real::one());
    assert!(p.has_finite_mass());
    assert_eq!(p.get_mass(), Real::from_int(2));
    assert_eq!(p.set_mass(Real::from_int(4)), Ok(()));
    assert_eq!(p.get_mass(), Real::from_int(4));
}

#[test]
fn zero_or_negative_mass_is_refused() {
    let mut p = Particle::new(Real::from_int(2), vec(0, 0, 0), vec(0, 0, 0), Real::one());
    let before = p;
    assert_eq!(p.set_mass(Real::zero()), Err(PhysError::InvalidMass));
    assert_eq!(p.set_mass(Real::from_int(-3)), Err(PhysError::InvalidMass));
    assert_eq!(p, before);
}

#[test]
fn infinite_mass_is_a_dedicated_path() {
    let mut p = Particle::new(Real::from_int(2), vec(0, 0, 0), vec(0, 0, 0), Real::one());
    assert!(p.has_finite_mass());
    p.set_infinite_mass();
    assert!(!p.has_finite_mass());
    assert_eq!(p.inverse_mass, Real::zero());
}

#[test]
fn accessors_round_trip() {
    let mut p = Particle::new(Real::from_int(1), vec(1, 2, 3), vec(4, 5, 6), Real::one());
    p.set_position(vec(9, 8, 7));
    assert_eq!(p.get_position(), vec(9, 8, 7));
    p.set_velocity(vec(-1, -2, -3));
    assert_eq!(p.get_velocity(), vec(-1, -2, -3));
    p.set_acceleration(vec(0, -10, 0));
    assert_eq!(p.get_acceleration(), vec(0, -10, 0));
    p.set_damping(Real::from_raw(950_000));
    assert_eq!(p.get_damping(), Real::from_raw(950_000));
}

#[test]
fn damping_decays_velocity_per_unit_time() {
    // Damping 0.5 over two seconds scales the velocity by 0.25.
    let mut p = Particle::new(
        Real::from_int(1),
        vec(8, 0, 0),
        vec(0, 0, 0),
        Real::from_raw(500_000),
    );
    p.integrate(Real::from_int(2));
    assert_eq!(p.get_velocity(), vec(2, 0, 0));
}

#[test]
fn pow_on_whole_and_half_exponents() {
    assert_eq!(Real::from_raw(500_000).pow(Real::from_int(2)), Real::from_raw(250_000));
    assert_eq!(Real::from_raw(250_000).pow(Real::from_raw(500_000)), Real::from_raw(500_000));
    assert_eq!(Real::from_raw(990_000).pow(Real::one()), Real::from_raw(990_000));
    assert_eq!(Real::from_raw(990_000).pow(Real::zero()), Real::one());
}
