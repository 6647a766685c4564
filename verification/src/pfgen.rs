//! Force generators and the registry that drives per-step force
//! accumulation.

use vstd::prelude::*;
use crate::precision::{Real, SCALE, in_real_range, mul_r, div_r};
use crate::vec3::{
    Vec3, Vec3V, vzero, vadd, vscale, vadd_fits, vscale_fits, vmag, vmag_fits, vnormalize,
};
use crate::particle::{Particle, ParticleV, ParticleLike};
use crate::error::PhysError;

verus! {

/// The particle state with one more force deposited into its accumulator;
/// nothing else may change: generators produce, only the particle's
/// integration step consumes and clears.
pub open spec fn with_deposit(p: ParticleV, f: Vec3V) -> ParticleV {
    ParticleV { force_accum: vadd(p.force_accum, f), ..p }
}

/// The capability of a force source: deposit a force into a particle's
/// accumulator for a given step duration.
pub trait ParticleForceGeneratorLike: Sized {
    /// The force this generator deposits for the given particle state and
    /// duration.
    spec fn force_spec(&self, p: ParticleV, duration: int) -> Vec3V;

    /// When the deposit and its intermediate values stay representable.
    spec fn force_fits(&self, p: ParticleV, duration: int) -> bool;

    /// Deposits `force_spec` into the particle's accumulator and changes
    /// nothing else; in particular it never clears the accumulator.
    fn update_force(&self, particle: &mut Particle, duration: Real)
        requires
            self.force_fits(old(particle)@, duration@),
        ensures
            final (particle)@ == with_deposit(
                old(particle)@,
                self.force_spec(old(particle)@, duration@),
            ),
    ;
}

/// The force gravity deposits: the gravity vector scaled by the particle's
/// mass, and nothing at all for an infinite-mass particle.
pub open spec fn gravity_force(g: Vec3V, p: ParticleV) -> Vec3V {
    if p.inverse_mass == 0 {
        vzero()
    } else {
        vscale(g, div_r(SCALE as int, p.inverse_mass))
    }
}

/// When the gravity deposit stays representable.
pub open spec fn gravity_fits(g: Vec3V, p: ParticleV) -> bool {
    p.inverse_mass != 0 ==> {
        &&& vscale_fits(g, div_r(SCALE as int, p.inverse_mass))
        &&& vadd_fits(p.force_accum, vscale(g, div_r(SCALE as int, p.inverse_mass)))
    }
}

/// A force generator that applies a gravitational force.
pub struct ParticleGravity {
    /// Holds the acceleration due to gravity.
    pub gravity: Vec3,
}

impl ParticleGravity {
    /// Builds the generator from the acceleration due to gravity.
    pub fn from(gravity: Vec3) -> (r: ParticleGravity)
        ensures
            r.gravity@ == gravity@,
    {
        ParticleGravity { gravity }
    }
}

impl ParticleForceGeneratorLike for ParticleGravity {
    open spec fn force_spec(&self, p: ParticleV, duration: int) -> Vec3V {
        gravity_force(self.gravity@, p)
    }

    open spec fn force_fits(&self, p: ParticleV, duration: int) -> bool {
        gravity_fits(self.gravity@, p)
    }

    fn update_force(&self, particle: &mut Particle, duration: Real) {
        if particle.has_finite_mass() {
            let mass = particle.get_mass();
            particle.add_force(self.gravity.mul(mass));
        }
    }
}

/// The coefficient of the drag force: linear and quadratic in the speed.
pub open spec fn drag_coefficient(k1: int, k2: int, v: Vec3V) -> int {
    mul_r(k1, vmag(v)) + mul_r(k2, mul_r(vmag(v), vmag(v)))
}

/// The force drag deposits: the velocity's direction scaled by the negated
/// drag coefficient. A particle at rest normalizes to the zero vector, so
/// the deposit is the zero vector with no special case.
pub open spec fn drag_force(k1: int, k2: int, p: ParticleV) -> Vec3V {
    vscale(vnormalize(p.velocity), -drag_coefficient(k1, k2, p.velocity))
}

/// When the drag deposit and its intermediate values stay representable.
pub open spec fn drag_fits(k1: int, k2: int, p: ParticleV) -> bool {
    let m = vmag(p.velocity);
    &&& vmag_fits(p.velocity)
    &&& in_real_range(mul_r(k1, m))
    &&& in_real_range(mul_r(m, m))
    &&& in_real_range(mul_r(k2, mul_r(m, m)))
    &&& in_real_range(drag_coefficient(k1, k2, p.velocity))
    &&& in_real_range(-drag_coefficient(k1, k2, p.velocity))
    &&& vscale_fits(vnormalize(p.velocity), -drag_coefficient(k1, k2, p.velocity))
    &&& vadd_fits(p.force_accum, drag_force(k1, k2, p))
}

/// Used to apply a drag force to the particles.
pub struct ParticleDrag {
    /// Holds the velocity drag coefficient.
    pub k1: Real,
    /// Holds the squared drag coefficient.
    pub k2: Real,
}

impl ParticleDrag {
    /// Builds the generator from the linear and quadratic drag coefficients.
    pub fn from(k1: Real, k2: Real) -> (r: ParticleDrag)
        ensures
            r.k1@ == k1@,
            r.k2@ == k2@,
    {
        ParticleDrag { k1, k2 }
    }
}

impl ParticleForceGeneratorLike for ParticleDrag {
    open spec fn force_spec(&self, p: ParticleV, duration: int) -> Vec3V {
        drag_force(self.k1@, self.k2@, p)
    }

    open spec fn force_fits(&self, p: ParticleV, duration: int) -> bool {
        drag_fits(self.k1@, self.k2@, p)
    }

    fn update_force(&self, particle: &mut Particle, duration: Real) {
        let mut force = particle.get_velocity();
        // Calculate the total drag coefficient.
        let speed = force.magnitude();
        let coeff = self.k1.mul(speed).add(self.k2.mul(speed.mul(speed)));
        // Calculate the final force and apply it.
        force.normalize();
        let deposit = force.mul(coeff.neg());
        particle.add_force(deposit);
    }
}

/// The closed set of generators the registry dispatches over; open for
/// extension by adding a variant.
pub enum ForceGenerator {
    /// A constant gravitational pull.
    Gravity(ParticleGravity),
    /// A velocity-opposing drag.
    Drag(ParticleDrag),
}

impl ParticleForceGeneratorLike for ForceGenerator {
    open spec fn force_spec(&self, p: ParticleV, duration: int) -> Vec3V {
        match self {
            ForceGenerator::Gravity(g) => g.force_spec(p, duration),
            ForceGenerator::Drag(d) => d.force_spec(p, duration),
        }
    }

    open spec fn force_fits(&self, p: ParticleV, duration: int) -> bool {
        match self {
            ForceGenerator::Gravity(g) => g.force_fits(p, duration),
            ForceGenerator::Drag(d) => d.force_fits(p, duration),
        }
    }

    fn update_force(&self, particle: &mut Particle, duration: Real) {
        match self {
            ForceGenerator::Gravity(g) => g.update_force(particle, duration),
            ForceGenerator::Drag(d) => d.update_force(particle, duration),
        }
    }
}

/// Keeps track of one force generator and the particle it applies to, as
/// stable handles (indices) into flat stores owned by the simulation.
#[derive(Clone, Copy, Debug, PartialEq, Eq, Structural)]
pub struct ParticleForceRegistration {
    /// Handle of the particle in the simulation's particle store.
    pub particle: usize,
    /// Handle of the generator in the simulation's generator store.
    pub generator: usize,
}

/// Holds all the force generators and the particles they apply to, in
/// registration order. The registry owns neither particles nor generators:
/// a registration is a pair of handles, resolved to live objects at use
/// time, with a defined `NotFound` failure if a handle no longer resolves.
pub struct ParticleForceRegistry {
    /// List of registrations.
    pub registrations: Vec<ParticleForceRegistration>,
}

/// The index of the first registration for the given particle handle, or -1
/// when there is none. Matching is by particle handle alone, consistent
/// with the registry's best-effort generator matching.
pub open spec fn find_registration(regs: Seq<ParticleForceRegistration>, particle: int) -> int
    decreases regs.len(),
{
    if regs.len() == 0 {
        -1
    } else if regs[0].particle as int == particle {
        0
    } else if find_registration(regs.drop_first(), particle) == -1 {
        -1
    } else {
        find_registration(regs.drop_first(), particle) + 1
    }
}

/// The first matching index is what `find_registration` returns.
proof fn lemma_find_registration_at(regs: Seq<ParticleForceRegistration>, particle: int, j: int)
    requires
        0 <= j < regs.len(),
        regs[j].particle as int == particle,
        forall|k: int| 0 <= k < j ==> regs[k].particle as int != particle,
    ensures
        find_registration(regs, particle) == j,
    decreases j,
{
    if j > 0 {
        assert(forall|k: int|
            0 <= k < j - 1 ==> regs.drop_first()[k].particle as int != particle);
        lemma_find_registration_at(regs.drop_first(), particle, j - 1);
    }
}

/// Without a matching registration `find_registration` returns -1.
proof fn lemma_find_registration_none(regs: Seq<ParticleForceRegistration>, particle: int)
    requires
        forall|k: int| 0 <= k < regs.len() ==> regs[k].particle as int != particle,
    ensures
        find_registration(regs, particle) == -1,
    decreases regs.len(),
{
    if regs.len() > 0 {
        assert(forall|k: int|
            0 <= k < regs.len() - 1 ==> regs.drop_first()[k].particle as int != particle);
        lemma_find_registration_none(regs.drop_first(), particle);
    }
}

/// The views of a store of particles.
pub open spec fn pviews(ps: Seq<Particle>) -> Seq<ParticleV> {
    ps.map_values(|p: Particle| p@)
}

/// Every registration resolves into the two stores.
pub open spec fn registrations_valid(
    regs: Seq<ParticleForceRegistration>,
    n_particles: int,
    n_generators: int,
) -> bool {
    forall|i: int|
        0 <= i < regs.len() ==> (regs[i].particle as int) < n_particles && (
        regs[i].generator as int) < n_generators
}

/// The particle views with one registration's deposit applied.
pub open spec fn apply_one(
    ps: Seq<ParticleV>,
    gens: Seq<ForceGenerator>,
    r: ParticleForceRegistration,
    dt: int,
) -> Seq<ParticleV> {
    ps.update(
        r.particle as int,
        with_deposit(
            ps[r.particle as int],
            gens[r.generator as int].force_spec(ps[r.particle as int], dt),
        ),
    )
}

/// The particle views after every registration's deposit, applied in
/// registration order.
pub open spec fn apply_registrations(
    regs: Seq<ParticleForceRegistration>,
    ps: Seq<ParticleV>,
    gens: Seq<ForceGenerator>,
    dt: int,
) -> Seq<ParticleV>
    decreases regs.len(),
{
    if regs.len() == 0 {
        ps
    } else {
        apply_registrations(regs.drop_first(), apply_one(ps, gens, regs[0], dt), gens, dt)
    }
}

/// Every deposit along the way stays representable.
pub open spec fn apply_registrations_fits(
    regs: Seq<ParticleForceRegistration>,
    ps: Seq<ParticleV>,
    gens: Seq<ForceGenerator>,
    dt: int,
) -> bool
    decreases regs.len(),
{
    regs.len() == 0 || {
        &&& gens[regs[0].generator as int].force_fits(ps[regs[0].particle as int], dt)
        &&& apply_registrations_fits(
            regs.drop_first(),
            apply_one(ps, gens, regs[0], dt),
            gens,
            dt,
        )
    }
}

impl ParticleForceRegistry {
    /// An empty registry.
    pub fn new() -> (r: ParticleForceRegistry)
        ensures
            r.registrations@ == Seq::<ParticleForceRegistration>::empty(),
    {
        ParticleForceRegistry { registrations: Vec::new() }
    }

    /// Registers the given force generator to apply to the given particle.
    /// Appends with no deduplication: registering the same pair twice makes
    /// that generator run twice per step, which is allowed.
    pub fn add(&mut self, particle: usize, generator: usize)
        ensures
            final (self).registrations@ == old(self).registrations@.push(
                ParticleForceRegistration { particle, generator },
            ),
    {
        self.registrations.push(ParticleForceRegistration { particle, generator });
    }

    /// Removes exactly one registration for the given particle handle, the
    /// earliest; matching is by particle handle alone (generator matching is
    /// best-effort). Fails with `NotFound` when no registration matches.
    pub fn remove(&mut self, particle: usize, generator: usize) -> (r: Result<(), PhysError>)
        ensures
            find_registration(old(self).registrations@, particle as int) == -1 ==> r
                == Result::<(), PhysError>::Err(PhysError::NotFound) && final (self).registrations@
                == old(self).registrations@,
            find_registration(old(self).registrations@, particle as int) >= 0 ==> r
                == Result::<(), PhysError>::Ok(()) && final (self).registrations@ == old(
                self,
            ).registrations@.remove(find_registration(old(self).registrations@, particle as int)),
    {
        let ghost regs0 = self.registrations@;
        let n = self.registrations.len();
        let mut i: usize = 0;
        while i < n
            invariant
                i <= n,
                n == self.registrations@.len(),
                self.registrations@ == regs0,
                regs0 == old(self).registrations@,
                forall|k: int| 0 <= k < i ==> regs0[k].particle as int != particle as int,
            decreases n - i,
        {
            if self.registrations[i].particle == particle {
                proof {
                    lemma_find_registration_at(regs0, particle as int, i as int);
                }
                self.registrations.remove(i);
                return Ok(());
            }
            i = i + 1;
        }
        proof {
            lemma_find_registration_none(regs0, particle as int);
        }
        Err(PhysError::NotFound)
    }

    /// Clears all registrations. This does not delete the particles or the
    /// force generators themselves, just the records.
    pub fn clear(&mut self)
        ensures
            final (self).registrations@ == Seq::<ParticleForceRegistration>::empty(),
    {
        self.registrations = Vec::new();
    }

    /// Calls all the force generators, in registration order, to update the
    /// forces of their corresponding particles. Every handle is resolved
    /// before any force is deposited: with a stale handle nothing is
    /// deposited and `NotFound` is returned; otherwise every registered
    /// deposit lands before the caller integrates any particle.
    pub fn update_forces(
        &self,
        particles: &mut Vec<Particle>,
        generators: &Vec<ForceGenerator>,
        duration: Real,
    ) -> (r: Result<(), PhysError>)
        requires
            registrations_valid(
                self.registrations@,
                old(particles)@.len() as int,
                generators@.len() as int,
            ) ==> apply_registrations_fits(
                self.registrations@,
                pviews(old(particles)@),
                generators@,
                duration@,
            ),
        ensures
            !registrations_valid(
                self.registrations@,
                old(particles)@.len() as int,
                generators@.len() as int,
            ) ==> r == Result::<(), PhysError>::Err(PhysError::NotFound) && final (particles)@
                == old(particles)@,
            registrations_valid(
                self.registrations@,
                old(particles)@.len() as int,
                generators@.len() as int,
            ) ==> r == Result::<(), PhysError>::Ok(()) && pviews(final (particles)@)
                == apply_registrations(
                self.registrations@,
                pviews(old(particles)@),
                generators@,
                duration@,
            ),
    {
        let ghost regs = self.registrations@;
        let n = self.registrations.len();
        // Resolve every handle before any deposit.
        let mut i: usize = 0;
        while i < n
            invariant
                i <= n,
                n == self.registrations@.len(),
                self.registrations@ == regs,
                particles@ == old(particles)@,
                forall|k: int|
                    0 <= k < i ==> (regs[k].particle as int) < particles@.len() as int && (
                    regs[k].generator as int) < generators@.len() as int,
            decreases n - i,
        {
            let reg = self.registrations[i];
            if reg.particle >= particles.len() || reg.generator >= generators.len() {
                return Err(PhysError::NotFound);
            }
            i = i + 1;
        }
        // Apply every deposit, in registration order.
        let ghost target = apply_registrations(regs, pviews(particles@), generators@, duration@);
        proof {
            assert(registrations_valid(regs, particles@.len() as int, generators@.len() as int));
            assert(regs.skip(0) =~= regs);
        }
        let mut i: usize = 0;
        while i < n
            invariant
                i <= n,
                n == self.registrations@.len(),
                self.registrations@ == regs,
                particles@.len() == old(particles)@.len(),
                registrations_valid(regs, particles@.len() as int, generators@.len() as int),
                apply_registrations(
                    regs.skip(i as int),
                    pviews(particles@),
                    generators@,
                    duration@,
                ) == target,
                apply_registrations_fits(
                    regs.skip(i as int),
                    pviews(particles@),
                    generators@,
                    duration@,
                ),
            decreases n - i,
        {
            let ghost before = pviews(particles@);
            let ghost rest = regs.skip(i as int);
            proof {
                assert(rest[0] == regs[i as int]);
            }
            let reg = self.registrations[i];
            let mut p = particles[reg.particle];
            generators[reg.generator].update_force(&mut p, duration);
            particles.set(reg.particle, p);
            proof {
                assert(rest.drop_first() =~= regs.skip(i + 1));
                assert(pviews(particles@) =~= apply_one(before, generators@, reg, duration@));
            }
            i = i + 1;
        }
        proof {
            assert(regs.skip(n as int) =~= Seq::<ParticleForceRegistration>::empty());
        }
        Ok(())
    }
}

/// Gravity leaves an infinite-mass particle exactly unchanged: its deposit
/// is the zero vector, and depositing the zero vector changes nothing.
pub proof fn lemma_gravity_skips_infinite_mass(g: Vec3V, p: ParticleV)
    requires
        p.inverse_mass == 0,
    ensures
        gravity_force(g, p) == vzero(),
        with_deposit(p, gravity_force(g, p)) == p,
{
}

/// Drag deposits exactly the zero vector on a particle at rest: the zero
/// velocity normalizes to the zero vector, so no special case is needed.
pub proof fn lemma_drag_rest_deposits_zero(k1: int, k2: int, p: ParticleV)
    requires
        p.velocity == vzero(),
    ensures
        drag_force(k1, k2, p) == vzero(),
        with_deposit(p, drag_force(k1, k2, p)) == p,
{
    crate::precision::lemma_sqrt_floor_is(0, 0);
    assert(vmag(p.velocity) == 0);
}

/// No generator's force reads the accumulator (gravity reads the inverse
/// mass, drag the velocity), so what one deposit leaves behind never changes
/// the next deposit's force.
pub proof fn lemma_force_ignores_accumulator(g: ForceGenerator, p: ParticleV, f: Vec3V, dt: int)
    ensures
        g.force_spec(with_deposit(p, f), dt) == g.force_spec(p, dt),
{
}

/// Accumulation is commutative and associative, so the order of two
/// registrations does not affect the forces they leave accumulated.
pub proof fn lemma_adjacent_registrations_commute(
    r1: ParticleForceRegistration,
    r2: ParticleForceRegistration,
    ps: Seq<ParticleV>,
    gens: Seq<ForceGenerator>,
    dt: int,
)
    requires
        0 <= (r1.particle as int) < ps.len(),
        0 <= (r1.generator as int) < gens.len(),
        0 <= (r2.particle as int) < ps.len(),
        0 <= (r2.generator as int) < gens.len(),
    ensures
        apply_registrations(seq![r1, r2], ps, gens, dt) == apply_registrations(
            seq![r2, r1],
            ps,
            gens,
            dt,
        ),
{
    let p1 = r1.particle as int;
    let p2 = r2.particle as int;
    let g1 = gens[r1.generator as int];
    let g2 = gens[r2.generator as int];
    lemma_two_registrations(r1, r2, ps, gens, dt);
    lemma_two_registrations(r2, r1, ps, gens, dt);
    let a = apply_one(ps, gens, r1, dt);
    let b = apply_one(ps, gens, r2, dt);
    if p1 == p2 {
        lemma_force_ignores_accumulator(g2, ps[p1], g1.force_spec(ps[p1], dt), dt);
        lemma_force_ignores_accumulator(g1, ps[p1], g2.force_spec(ps[p1], dt), dt);
        assert(apply_one(a, gens, r2, dt) =~= apply_one(b, gens, r1, dt));
    } else {
        assert(a[p2] == ps[p2]);
        assert(b[p1] == ps[p1]);
        assert(apply_one(a, gens, r2, dt) =~= apply_one(b, gens, r1, dt));
    }
}

/// Unfolds the application of exactly two registrations.
proof fn lemma_two_registrations(
    r1: ParticleForceRegistration,
    r2: ParticleForceRegistration,
    ps: Seq<ParticleV>,
    gens: Seq<ForceGenerator>,
    dt: int,
)
    ensures
        apply_registrations(seq![r1, r2], ps, gens, dt) == apply_one(
            apply_one(ps, gens, r1, dt),
            gens,
            r2,
            dt,
        ),
{
    let two = seq![r1, r2];
    assert(two[0] == r1);
    assert(two.drop_first() =~= seq![r2]);
    assert(seq![r2][0] == r2);
    assert(seq![r2].drop_first() =~= Seq::<ParticleForceRegistration>::empty());
    let mid = apply_one(ps, gens, r1, dt);
    assert(apply_registrations(two, ps, gens, dt) == apply_registrations(seq![r2], mid, gens, dt));
    assert(apply_registrations(seq![r2], mid, gens, dt) == apply_registrations(
        Seq::<ParticleForceRegistration>::empty(),
        apply_one(mid, gens, r2, dt),
        gens,
        dt,
    ));
}

/// Registering the same particle-gravity pair twice and updating forces
/// once deposits exactly twice the single-registration force: the effect is
/// additive and linear in the registration count.
pub proof fn lemma_double_registration_doubles_force(
    reg: ParticleForceRegistration,
    ps: Seq<ParticleV>,
    gens: Seq<ForceGenerator>,
    g: ParticleGravity,
    dt: int,
)
    requires
        0 <= (reg.particle as int) < ps.len(),
        0 <= (reg.generator as int) < gens.len(),
        gens[reg.generator as int] == ForceGenerator::Gravity(g),
    ensures
        ({
            let f = gravity_force(g.gravity@, ps[reg.particle as int]);
            apply_registrations(seq![reg, reg], ps, gens, dt) == ps.update(
                reg.particle as int,
                with_deposit(ps[reg.particle as int], vadd(f, f)),
            )
        }),
{
    let pi = reg.particle as int;
    let p = ps[pi];
    let f = gravity_force(g.gravity@, p);
    let two = seq![reg, reg];
    let p1 = with_deposit(p, f);
    let ps1 = ps.update(pi, p1);
    // The second application sees the same inverse mass, so the same force.
    assert(gravity_force(g.gravity@, p1) == f);
    assert(two.drop_first() =~= seq![reg]);
    assert(seq![reg].drop_first() =~= Seq::<ParticleForceRegistration>::empty());
    assert(two[0] == reg);
    assert(seq![reg][0] == reg);
    assert(apply_one(ps, gens, reg, dt) == ps1);
    assert(apply_one(ps1, gens, reg, dt) == ps1.update(pi, with_deposit(p1, f)));
    assert(apply_registrations(two, ps, gens, dt) == apply_registrations(seq![reg], ps1, gens, dt));
    assert(apply_registrations(seq![reg], ps1, gens, dt) == apply_registrations(
        Seq::<ParticleForceRegistration>::empty(),
        apply_one(ps1, gens, reg, dt),
        gens,
        dt,
    ));
    assert(apply_registrations(two, ps, gens, dt) == ps1.update(pi, with_deposit(p1, f)));
    assert(ps1.update(pi, with_deposit(p1, f)) =~= ps.update(pi, with_deposit(p, vadd(f, f))));
}

} // verus!
