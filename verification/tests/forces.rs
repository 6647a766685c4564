use rusty_cyclone::precision::Real;
use rusty_cyclone::vec3::Vec3;
use rusty_cyclone::particle::{Particle, ParticleLike};
use rusty_cyclone::pfgen::{
    ForceGenerator, ParticleDrag, ParticleForceGeneratorLike, ParticleForceRegistry,
    ParticleGravity,
};
use rusty_cyclone::error::PhysError;

fn vec(x: i64, y: i64, z: i64) -> Vec3 {
    Vec3::new(Real::from_int(x), Real::from_int(y), Real::from_int(z))
}

fn resting_particle(mass: i64) -> Particle {
    Particle::new(Real::from_int(mass), vec(0, 0, 0), vec(0, 0, 0), Real::one())
}

#[test]
fn gravity_scales_by_mass() {
    let gravity = ParticleGravity::from(vec(0, -10, 0));
    let mut p = resting_particle(2);
    gravity.update_force(&mut p, Real::one());
    assert_eq!(p.force_accum, vec(0, -20, 0));
}

#[test]
fn gravity_skips_infinite_mass() {
    let gravity = ParticleGravity::from(vec(0, -10, 0));
    let mut p = resting_particle(2);
    p.add_force(vec(1, 1, 1));
    p.set_infinite_mass();
    let before = p;
    gravity.update_force(&mut p, Real::one());
    assert_eq!(p, before);
}

#[test]
fn drag_on_resting_particle_deposits_zero() {
    let drag = ParticleDrag::from(Real::from_int(1), Real::from_int(2));
    let mut p = resting_particle(1);
    let before = p;
    drag.update_force(&mut p, Real::one());
    assert_eq!(p, before);
}

#[test]
fn drag_opposes_velocity() {
    // Velocity (3, 4, 0): speed 5; coefficient k1*5 + k2*25 = 30; the force
    // is the unit direction (0.6, 0.8, 0) times -30.
    let drag = ParticleDrag::from(Real::from_int(1), Real::from_int(1));
    let mut p = Particle::new(Real::from_int(1), vec(3, 4, 0), vec(0, 0, 0), Real::one());
    drag.update_force(&mut p, Real::one());
    assert_eq!(p.force_accum, vec(-18, -24, 0));
}

#[test]
fn generators_do_not_clear_the_accumulator() {
    let gravity = ParticleGravity::from(vec(0, -10, 0));
    let mut p = resting_particle(1);
    p.add_force(vec(5, 5, 5));
    gravity.update_force(&mut p, Real::one());
    assert_eq!(p.force_accum, vec(5, -5, 5));
}

#[test]
fn double_registration_deposits_twice_the_force() {
    let mut particles = vec![resting_particle(2)];
    let generators = vec![ForceGenerator::Gravity(ParticleGravity::from(vec(0, -10, 0)))];
    let mut registry = ParticleForceRegistry::new();
    registry.add(0, 0);
    registry.add(0, 0);
    let r = registry.update_forces(&mut particles, &generators, Real::one());
    assert_eq!(r, Ok(()));
    assert_eq!(particles[0].force_accum, vec(0, -40, 0));
}

#[test]
fn update_forces_applies_each_registration_once() {
    let mut particles = vec![resting_particle(1), resting_particle(4)];
    let generators = vec![ForceGenerator::Gravity(ParticleGravity::from(vec(0, -10, 0)))];
    let mut registry = ParticleForceRegistry::new();
    registry.add(0, 0);
    registry.add(1, 0);
    let r = registry.update_forces(&mut particles, &generators, Real::one());
    assert_eq!(r, Ok(()));
    assert_eq!(particles[0].force_accum, vec(0, -10, 0));
    assert_eq!(particles[1].force_accum, vec(0, -40, 0));
}

#[test]
fn removing_unregistered_pair_fails_with_not_found() {
    let mut registry = ParticleForceRegistry::new();
    assert_eq!(registry.remove(0, 0), Err(PhysError::NotFound));
    registry.add(1, 0);
    assert_eq!(registry.remove(2, 0), Err(PhysError::NotFound));
}

#[test]
fn remove_takes_out_one_registration() {
    let mut particles = vec![resting_particle(1)];
    let generators = vec![ForceGenerator::Gravity(ParticleGravity::from(vec(0, -10, 0)))];
    let mut registry = ParticleForceRegistry::new();
    registry.add(0, 0);
    registry.add(0, 0);
    assert_eq!(registry.remove(0, 0), Ok(()));
    let r = registry.update_forces(&mut particles, &generators, Real::one());
    assert_eq!(r, Ok(()));
    assert_eq!(particles[0].force_accum, vec(0, -10, 0));
    assert_eq!(registry.remove(0, 0), Ok(()));
    assert_eq!(registry.remove(0, 0), Err(PhysError::NotFound));
}

#[test]
fn clear_drops_all_registrations() {
    let mut particles = vec![resting_particle(1)];
    let generators = vec![ForceGenerator::Gravity(ParticleGravity::from(vec(0, -10, 0)))];
    let mut registry = ParticleForceRegistry::new();
    registry.add(0, 0);
    registry.clear();
    let r = registry.update_forces(&mut particles, &generators, Real::one());
    assert_eq!(r, Ok(()));
    assert_eq!(particles[0].force_accum, Vec3::zeros());
}

#[test]
fn stale_handle_deposits_nothing_and_fails() {
    let mut particles = vec![resting_particle(1)];
    let generators = vec![ForceGenerator::Gravity(ParticleGravity::from(vec(0, -10, 0)))];
    let mut registry = ParticleForceRegistry::new();
    registry.add(0, 0);
    registry.add(7, 0);
    let r = registry.update_forces(&mut particles, &generators, Real::one());
    assert_eq!(r, Err(PhysError::NotFound));
    assert_eq!(particles[0].force_accum, Vec3::zeros());
}

#[test]
fn accumulate_then_integrate_two_phase_step() {
    // One full step: the registry deposits for every particle, then each
    // particle integrates, consuming and clearing its accumulator.
    let mut particles = vec![Particle::new(
        Real::from_int(2),
        vec(1, 0, 0),
        vec(0, 0, 0),
        Real::one(),
    )];
    let generators = vec![ForceGenerator::Gravity(ParticleGravity::from(vec(0, -10, 0)))];
    let mut registry = ParticleForceRegistry::new();
    registry.add(0, 0);
    let r = registry.update_forces(&mut particles, &generators, Real::one());
    assert_eq!(r, Ok(()));
    assert_eq!(particles[0].force_accum, vec(0, -20, 0));
    let mut p = particles[0];
    p.integrate(Real::one());
    particles[0] = p;
    assert_eq!(particles[0].force_accum, Vec3::zeros());
    // The integration step consumes the accumulated force by clearing it
    // alone, never folding it into the velocity, so the deposit above
    // leaves position and velocity exactly as free motion.
    assert_eq!(particles[0].get_position(), vec(1, 0, 0));
    assert_eq!(particles[0].get_velocity(), vec(1, 0, 0));
}
