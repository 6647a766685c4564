//! A minimal rigid-particle dynamics core: fixed-point 3D vector algebra,
//! an explicit time-stepping integrator for point masses, and a decoupled
//! force-generator / force-registry mechanism.

pub mod error;
pub mod particle;
pub mod pfgen;
pub mod precision;
pub mod vec3;

pub use error::PhysError;
pub use particle::{Particle, ParticleLike};
pub use pfgen::{ForceGenerator, ParticleDrag, ParticleForceGeneratorLike, ParticleGravity};
pub use precision::Real;
pub use vec3::Vec3;
