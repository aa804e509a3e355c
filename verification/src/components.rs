//! What a particle carries: where it is, how it moves, and what it is.

use crate::fixed::Fixed;
use crate::vector::Vec2;
use vstd::prelude::*;

verus! {

/// The velocity of a particle, in units per second.
#[derive(Clone, Copy, Debug, PartialEq, Eq, Structural)]
pub struct Velocity(pub Vec2);

/// The mass of a particle; positive in every well-formed particle.
#[derive(Clone, Copy, Debug, PartialEq, Eq, Structural)]
pub struct Mass(pub Fixed);

/// The index of a particle's type in the catalogue of the rules.
#[derive(Clone, Copy, Debug, PartialEq, Eq, Structural)]
pub struct ParticleTypeID(pub usize);

/// The identifier of a field. It is a type of its own so that it is not
/// taken for the index of a particle type, even where the two coincide.
#[derive(Clone, Copy, Debug, PartialEq, Eq, Hash, Structural)]
pub struct FieldTypeID(pub usize);

/// A simulation particle.
#[derive(Clone, Copy, Debug, PartialEq, Eq, Structural)]
pub struct Particle {
    pub position: Vec2,
    pub velocity: Velocity,
    pub mass: Mass,
    pub type_id: ParticleTypeID,
}

impl Particle {
    /// A particle at rest at `position`.
    pub fn at_rest(position: Vec2, mass: Mass, type_id: ParticleTypeID) -> (p: Particle)
        ensures
            p == (Particle { position, velocity: Velocity(Vec2::spec_zero()), mass, type_id }),
    {
        Particle { position, velocity: Velocity(Vec2::zero()), mass, type_id }
    }
}

} // verus!
