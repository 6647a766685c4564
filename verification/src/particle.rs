//! Point masses: kinematic state, the force accumulator, and the explicit
//! integration step.

use vstd::prelude::*;
use crate::precision::{Real, SCALE, in_real_range, div_r, pow_r};
use crate::vec3::{
    Vec3, Vec3V, vzero, vadd, vscale, vin_range, vadd_fits, vscale_fits, lemma_vscale_unit,
};
use crate::error::PhysError;

verus! {

/// Largest raw mass the mass setter accepts: beyond it the reciprocal would
/// round down to zero, which is reserved for the infinite-mass path.
pub const MASS_LIMIT: i64 = 1_000_000_000_000;

/// The mathematical model of a particle: the raw value of every scalar and
/// vector field.
pub ghost struct ParticleV {
    /// Linear position in world space.
    pub position: Vec3V,
    /// Linear velocity in world space.
    pub velocity: Vec3V,
    /// Constant acceleration applied every step.
    pub acceleration: Vec3V,
    /// Per-unit-time multiplicative velocity retention factor, in `(0, 1]`.
    pub damping: int,
    /// Reciprocal of the mass; zero denotes infinite mass.
    pub inverse_mass: int,
    /// Sum of the forces deposited since the last integration.
    pub force_accum: Vec3V,
}

/// A particle is the simplest object that can be simulated in the physics
/// system.
#[derive(Clone, Copy, Debug, PartialEq, Eq, Structural)]
pub struct Particle {
    /// Holds the linear position of the particle in world space.
    pub position: Vec3,
    /// Holds the linear velocity of the particle in world space.
    pub velocity: Vec3,
    /// Holds the acceleration of the particle.
    pub acceleration: Vec3,
    /// Holds the amount of damping applied to linear motion.
    pub damping: Real,
    /// Holds the inverse of the mass of the particle.
    pub inverse_mass: Real,
    /// Holds the accumulated force to be applied at the next simulation
    /// iteration only. The value is zeroed at each integration step.
    pub force_accum: Vec3,
}

impl View for Particle {
    type V = ParticleV;

    open spec fn view(&self) -> ParticleV {
        ParticleV {
            position: self.position@,
            velocity: self.velocity@,
            acceleration: self.acceleration@,
            damping: self.damping@,
            inverse_mass: self.inverse_mass@,
            force_accum: self.force_accum@,
        }
    }
}

/// Well-formedness of a particle: the damping factor lies in `(0, 1]` and
/// the inverse mass is not negative. Constructors establish it and every
/// method preserves it.
pub open spec fn pwf(p: ParticleV) -> bool {
    &&& 0 < p.damping <= SCALE
    &&& 0 <= p.inverse_mass
    &&& vin_range(p.position)
    &&& vin_range(p.velocity)
    &&& vin_range(p.acceleration)
    &&& vin_range(p.force_accum)
}

/// The working acceleration of one step: the constant acceleration plus
/// itself scaled by the duration, that is `acceleration * (1 + duration)`.
/// This combination rule is a deliberate design decision, kept over the
/// conventional constant-acceleration formula; likewise the accumulated
/// force is never folded into the velocity: `integrate` consumes the
/// accumulator by clearing it alone. The end-to-end tests assert numbers
/// computed from exactly this rule.
pub open spec fn working_acceleration(p: ParticleV, dt: int) -> Vec3V {
    vadd(p.acceleration, vscale(p.acceleration, dt))
}

/// One positive-duration integration step, in this exact order: the position
/// moves by the pre-step velocity; the velocity gains the working
/// acceleration scaled by the duration, then decays by `damping ^ duration`;
/// the force accumulator is cleared.
pub open spec fn integrate_step(p: ParticleV, dt: int) -> ParticleV {
    let pos1 = vadd(p.position, vscale(p.velocity, dt));
    let vel1 = vadd(p.velocity, vscale(working_acceleration(p, dt), dt));
    let vel2 = vscale(vel1, pow_r(p.damping, dt));
    ParticleV {
        position: pos1,
        velocity: vel2,
        acceleration: p.acceleration,
        damping: p.damping,
        inverse_mass: p.inverse_mass,
        force_accum: vzero(),
    }
}

/// The integration step for any duration: zero or negative durations are a
/// deliberate no-op that leaves the particle untouched, accumulator
/// included.
pub open spec fn integrate_spec(p: ParticleV, dt: int) -> ParticleV {
    if dt <= 0 {
        p
    } else {
        integrate_step(p, dt)
    }
}

/// Every intermediate value of a positive-duration step stays
/// representable. The damping decay needs no clause of its own: scaling by a
/// factor from `[0, 1]` cannot leave the representable range.
pub open spec fn integrate_fits(p: ParticleV, dt: int) -> bool {
    dt > 0 ==> {
        &&& vscale_fits(p.velocity, dt)
        &&& vadd_fits(p.position, vscale(p.velocity, dt))
        &&& vscale_fits(p.acceleration, dt)
        &&& vadd_fits(p.acceleration, vscale(p.acceleration, dt))
        &&& vscale_fits(working_acceleration(p, dt), dt)
        &&& vadd_fits(p.velocity, vscale(working_acceleration(p, dt), dt))
    }
}

/// The public contract of a particle, stated over its mathematical state.
pub trait ParticleLike: Sized {
    /// The mathematical state of the particle.
    spec fn pview(&self) -> ParticleV;

    /// Integrates the particle forward in time by the given duration.
    fn integrate(&mut self, duration: Real)
        requires
            pwf(old(self).pview()),
            integrate_fits(old(self).pview(), duration@),
        ensures
            final (self).pview() == integrate_spec(old(self).pview(), duration@),
    ;

    /// The mass, as the reciprocal of the stored inverse mass; defined only
    /// for finite-mass particles, so check `has_finite_mass` first.
    fn get_mass(&self) -> (r: Real)
        requires
            self.pview().inverse_mass != 0,
        ensures
            r@ == div_r(SCALE as int, self.pview().inverse_mass),
    ;

    /// Sets the mass; zero or negative masses are refused with
    /// `InvalidMass`, and infinite mass has its own construction path.
    fn set_mass(&mut self, mass: Real) -> (r: Result<(), PhysError>)
        requires
            mass@ <= MASS_LIMIT,
        ensures
            mass@ <= 0 ==> r == Result::<(), PhysError>::Err(PhysError::InvalidMass)
                && final (self).pview() == old(self).pview(),
            mass@ > 0 ==> r == Result::<(), PhysError>::Ok(()) && final (self).pview()
                == (ParticleV { inverse_mass: div_r(SCALE as int, mass@), ..old(self).pview() })
                && final (self).pview().inverse_mass > 0,
    ;

    /// The linear position in world space.
    fn get_position(&self) -> (r: Vec3)
        ensures
            r@ == self.pview().position,
    ;

    /// Replaces the linear position.
    fn set_position(&mut self, position: Vec3)
        ensures
            final (self).pview() == (ParticleV { position: position@, ..old(self).pview() }),
    ;

    /// The linear velocity in world space.
    fn get_velocity(&self) -> (r: Vec3)
        ensures
            r@ == self.pview().velocity,
    ;

    /// Replaces the linear velocity.
    fn set_velocity(&mut self, velocity: Vec3)
        ensures
            final (self).pview() == (ParticleV { velocity: velocity@, ..old(self).pview() }),
    ;

    /// The constant acceleration.
    fn get_acceleration(&self) -> (r: Vec3)
        ensures
            r@ == self.pview().acceleration,
    ;

    /// Replaces the constant acceleration.
    fn set_acceleration(&mut self, acceleration: Vec3)
        ensures
            final (self).pview() == (ParticleV {
                acceleration: acceleration@,
                ..old(self).pview()
            }),
    ;

    /// The damping factor.
    fn get_damping(&self) -> (r: Real)
        ensures
            r@ == self.pview().damping,
    ;

    /// Replaces the damping factor; it must lie in `(0, 1]`.
    fn set_damping(&mut self, damping: Real)
        requires
            0 < damping@ <= SCALE,
        ensures
            final (self).pview() == (ParticleV { damping: damping@, ..old(self).pview() }),
    ;

    /// Resets the force accumulator to the zero vector.
    fn clear_accumulator(&mut self)
        ensures
            final (self).pview() == (ParticleV { force_accum: vzero(), ..old(self).pview() }),
    ;

    /// Deposits a force into the accumulator; contributions are additive and
    /// commutative between integrations.
    fn add_force(&mut self, force: Vec3)
        requires
            vadd_fits(old(self).pview().force_accum, force@),
        ensures
            final (self).pview() == (ParticleV {
                force_accum: vadd(old(self).pview().force_accum, force@),
                ..old(self).pview()
            }),
    ;

    /// Whether the particle has a finite mass, that is a non-zero inverse
    /// mass.
    fn has_finite_mass(&self) -> (r: bool)
        ensures
            r == (self.pview().inverse_mass != 0),
    ;
}

impl ParticleLike for Particle {
    open spec fn pview(&self) -> ParticleV {
        self@
    }

    fn integrate(&mut self, duration: Real) {
        if duration.raw > 0 {
            // Update linear position from the pre-step velocity.
            self.position.add_scaled_vector(self.velocity, duration);
            // Work out the acceleration of this step.
            let mut acc = self.acceleration;
            acc.add_scaled_vector(self.acceleration, duration);
            // Update linear velocity from the acceleration.
            self.velocity.add_scaled_vector(acc, duration);
            // Impose drag.
            let decay = self.damping.pow(duration);
            proof {
                lemma_vscale_unit(self.velocity@, decay@);
            }
            self.velocity = self.velocity.mul(decay);
            // Clear the forces.
            self.force_accum = Vec3::zeros();
        }
    }

    fn get_position(&self) -> (r: Vec3) {
        self.position
    }

    fn get_velocity(&self) -> (r: Vec3) {
        self.velocity
    }

    fn get_acceleration(&self) -> (r: Vec3) {
        self.acceleration
    }

    fn get_mass(&self) -> (r: Real) {
        proof {
            lemma_reciprocal_in_range(self@.inverse_mass);
        }
        Real::one().div(self.inverse_mass)
    }

    fn set_mass(&mut self, mass: Real) -> (r: Result<(), PhysError>) {
        if mass.raw <= 0 {
            Err(PhysError::InvalidMass)
        } else {
            proof {
                lemma_positive_reciprocal(mass@);
            }
            self.inverse_mass = Real::one().div(mass);
            Ok(())
        }
    }

    fn set_position(&mut self, position: Vec3) {
        self.position = position;
    }

    fn set_velocity(&mut self, velocity: Vec3) {
        self.velocity = velocity;
    }

    fn set_acceleration(&mut self, acceleration: Vec3) {
        self.acceleration = acceleration;
    }

    fn set_damping(&mut self, damping: Real) {
        self.damping = damping;
    }

    fn get_damping(&self) -> (r: Real) {
        self.damping
    }

    fn clear_accumulator(&mut self) {
        self.force_accum = Vec3::zeros();
    }

    fn add_force(&mut self, force: Vec3) {
        self.force_accum = self.force_accum.add(force);
    }

    fn has_finite_mass(&self) -> (r: bool) {
        self.inverse_mass.raw != 0
    }
}

/// The reciprocal of a positive mass up to `MASS_LIMIT` is positive and
/// representable.
proof fn lemma_positive_reciprocal(m: int)
    requires
        0 < m <= MASS_LIMIT,
    ensures
        0 < div_r(SCALE as int, m),
        div_r(SCALE as int, m) <= MASS_LIMIT,
{
    assert(div_r(SCALE as int, m) == ((SCALE as int) * SCALE) / m);
    assert((SCALE as int) * SCALE == 1_000_000_000_000);
    vstd::arithmetic::div_mod::lemma_div_non_zero(1_000_000_000_000, m);
    vstd::arithmetic::div_mod::lemma_div_nonincreasing(1_000_000_000_000, m);
}

/// The reciprocal of any non-zero inverse mass is representable.
proof fn lemma_reciprocal_in_range(im: int)
    requires
        im != 0,
    ensures
        in_real_range(div_r(SCALE as int, im)),
{
    if im > 0 {
        assert(div_r(SCALE as int, im) == 1_000_000_000_000int / im);
        vstd::arithmetic::div_mod::lemma_div_pos_is_pos(1_000_000_000_000, im);
        vstd::arithmetic::div_mod::lemma_div_nonincreasing(1_000_000_000_000, im);
    } else {
        assert(div_r(SCALE as int, im) == (-1_000_000_000_000int) / (-im));
        let d = -im;
        assert(d * (-1_000_000_000_000) <= -1_000_000_000_000) by (nonlinear_arith)
            requires
                d >= 1,
        ;
        vstd::arithmetic::div_mod::lemma_div_is_ordered(
            d * (-1_000_000_000_000),
            -1_000_000_000_000,
            d,
        );
        vstd::arithmetic::div_mod::lemma_div_multiples_vanish(-1_000_000_000_000, d);
        vstd::arithmetic::div_mod::lemma_div_is_ordered(-1_000_000_000_000, 0, d);
        vstd::arithmetic::div_mod::lemma_div_of0(d);
    }
}

impl Particle {
    /// Creates a new particle at the given position. The mass must be
    /// positive; infinite mass is obtained through `set_infinite_mass`, never
    /// from a mass value.
    pub fn from_position(
        position: Vec3,
        mass: Real,
        velocity: Vec3,
        acceleration: Vec3,
        damping: Real,
    ) -> (r: Particle)
        requires
            0 < mass@ <= MASS_LIMIT,
            0 < damping@ <= SCALE,
        ensures
            r@ == (ParticleV {
                position: position@,
                velocity: velocity@,
                acceleration: acceleration@,
                damping: damping@,
                inverse_mass: div_r(SCALE as int, mass@),
                force_accum: vzero(),
            }),
            r@.inverse_mass > 0,
            pwf(r@),
    {
        proof {
            lemma_positive_reciprocal(mass@);
        }
        Particle {
            position,
            velocity,
            acceleration,
            damping,
            inverse_mass: Real::one().div(mass),
            force_accum: Vec3::zeros(),
        }
    }

    /// Creates a new particle and sets the position automatically to the
    /// origin.
    pub fn new(mass: Real, velocity: Vec3, acceleration: Vec3, damping: Real) -> (r: Particle)
        requires
            0 < mass@ <= MASS_LIMIT,
            0 < damping@ <= SCALE,
        ensures
            r@ == (ParticleV {
                position: vzero(),
                velocity: velocity@,
                acceleration: acceleration@,
                damping: damping@,
                inverse_mass: div_r(SCALE as int, mass@),
                force_accum: vzero(),
            }),
            r@.inverse_mass > 0,
            pwf(r@),
    {
        Particle::from_position(Vec3::zeros(), mass, velocity, acceleration, damping)
    }

    /// The dedicated infinite-mass path: assigns a zero inverse mass
    /// directly, which no mass value can produce through `set_mass`.
    pub fn set_infinite_mass(&mut self)
        ensures
            final (self)@ == (ParticleV { inverse_mass: 0, ..old(self)@ }),
    {
        self.inverse_mass = Real::zero();
    }
}

} // verus!
