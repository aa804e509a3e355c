//! New particles: where they appear and what they start with.

use crate::components::Mass;
use crate::components::Particle;
use crate::components::ParticleTypeID;
use crate::components::Velocity;
use crate::fixed::Fixed;
use crate::resources::ParticleTypeDefinition;
use crate::vector::Vec2;
use rand::Rng;
use vstd::prelude::*;

verus! {

/// How far, in raw units, a new particle may appear from the place asked
/// for, along either axis: 50.
pub const JITTER_RAW: i64 = 50_000_000;

/// `jitter` is a displacement that a new particle may get: at least -50
/// and less than 50 along either axis.
pub open spec fn is_jitter(jitter: Vec2) -> bool {
    &&& -JITTER_RAW <= jitter.x.raw < JITTER_RAW
    &&& -JITTER_RAW <= jitter.y.raw < JITTER_RAW
}

/// A particle of type `type_id`, defined by `def`, at rest at `position`.
pub open spec fn placed(type_id: usize, position: Vec2, def: ParticleTypeDefinition) -> Particle {
    Particle {
        position,
        velocity: Velocity(Vec2::spec_zero()),
        mass: Mass(def.default_mass),
        type_id: ParticleTypeID(type_id),
    }
}

/// `rand::Rng::gen_range` on the generator of the calling thread, with the
/// range from `low` up to but without `high`. The range must not be empty,
/// and the number that comes back lies in it. Which number comes back is
/// not stated.
#[verifier::external_body]
fn random_between(low: i64, high: i64) -> (r: i64)
    requires
        low < high,
    ensures
        low <= r < high,
{
    rand::thread_rng().gen_range(low..high)
}

/// A displacement drawn at random.
pub fn random_jitter() -> (jitter: Vec2)
    ensures
        is_jitter(jitter),
{
    let x = random_between(-JITTER_RAW, JITTER_RAW);
    let y = random_between(-JITTER_RAW, JITTER_RAW);
    Vec2 { x: Fixed { raw: x }, y: Fixed { raw: y } }
}

/// A particle of type `type_id` at rest at `pos` displaced by `jitter`,
/// with the mass that `def` gives its type.
pub fn place_particle(
    type_id: usize,
    pos: Vec2,
    jitter: Vec2,
    def: &ParticleTypeDefinition,
) -> (particle: Particle)
    ensures
        particle == placed(type_id, pos.spec_plus(jitter), *def),
{
    Particle::at_rest(pos.plus(jitter), Mass(def.default_mass), ParticleTypeID(type_id))
}

/// A new particle of type `type_id` at rest near `pos`: displaced from it
/// by a jitter drawn at random.
pub fn spawn_particle(type_id: usize, pos: Vec2, def: &ParticleTypeDefinition) -> (particle:
    Particle)
    ensures
        exists|jitter: Vec2|
            is_jitter(jitter) && particle == #[trigger] placed(
                type_id,
                pos.spec_plus(jitter),
                *def,
            ),
{
    let jitter = random_jitter();
    let particle = place_particle(type_id, pos, jitter, def);
    proof {
        assert(is_jitter(jitter) && particle == placed(type_id, pos.spec_plus(jitter), *def));
    }
    particle
}

} // verus!
