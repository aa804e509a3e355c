//! The two steps of a tick: forces change velocities, velocities change
//! positions.

use crate::components::FieldTypeID;
use crate::components::Particle;
use crate::components::ParticleTypeID;
use crate::components::Velocity;
use crate::curve::index_at;
use crate::curve::index_of;
use crate::curve::LUT_SIZE;
use crate::fixed::lemma_over_sign;
use crate::fixed::lemma_quotient_bounds;
use crate::fixed::lemma_root_floor;
use crate::fixed::lemma_times_sign;
use crate::fixed::quotient;
use crate::fixed::root_floor;
use crate::fixed::Fixed;
use crate::fixed::SCALE;
use crate::resources::AlchemyRules;
use crate::resources::FieldShape;
use crate::resources::GlobalConstants;
use crate::vector::Vec2;
use vstd::prelude::*;

verus! {

/// The nominal length of a force step in raw units: 0.016 seconds.
pub const FIXED_STEP_RAW: i64 = 16_000;

/// The distance, in raw units, below which two particles do not act on
/// each other: 0.1.
pub const MIN_DISTANCE_RAW: i64 = 100_000;

/// A particle that emits a field, as it stood before the forces of a tick.
#[derive(Clone, Copy, Debug, PartialEq, Eq, Structural)]
pub struct FieldSource {
    /// The index of the particle among the particles.
    pub entity: usize,
    pub position: Vec2,
    /// The field that it emits.
    pub field: FieldTypeID,
    /// Its type, whose shape the field has.
    pub emitter: ParticleTypeID,
}

/// Every particle has a type of the catalogue and a positive mass.
pub open spec fn particles_fit(particles: Seq<Particle>, rules: AlchemyRules) -> bool {
    forall|i: int|
        0 <= i < particles.len() ==> {
            &&& (#[trigger] particles[i]).type_id.0 < rules.particle_types@.len()
            &&& particles[i].mass.0.raw > 0
        }
}

/// Every source has a type of the catalogue.
pub open spec fn sources_fit(sources: Seq<FieldSource>, rules: AlchemyRules) -> bool {
    forall|k: int|
        0 <= k < sources.len() ==> (#[trigger] sources[k]).emitter.0 < rules.particle_types@.len()
}

/// The sources among the first `n` particles, in the order of the particles.
pub open spec fn sources_upto(particles: Seq<Particle>, rules: AlchemyRules, n: int) -> Seq<
    FieldSource,
>
    decreases n,
{
    if n <= 0 {
        Seq::empty()
    } else {
        let rest = sources_upto(particles, rules, n - 1);
        let p = particles[n - 1];
        match rules.particle_types@[p.type_id.0 as int].emits_field {
            Some(field) => rest.push(
                FieldSource {
                    entity: (n - 1) as usize,
                    position: p.position,
                    field,
                    emitter: p.type_id,
                },
            ),
            None => rest,
        }
    }
}

/// The particles that emit a field, each with its index, position, field
/// and type.
pub open spec fn snapshot(particles: Seq<Particle>, rules: AlchemyRules) -> Seq<FieldSource> {
    sources_upto(particles, rules, particles.len() as int)
}

/// The index of the sample for `distance` under a shape of radius
/// `max_radius`: that of the distance as a share of the radius.
pub open spec fn lut_index(distance: Fixed, max_radius: Fixed) -> int {
    index_at(distance.raw as int, max_radius.raw as int)
}

/// The strength of a field of shape `shape` at `distance` from its source.
pub open spec fn field_strength(shape: FieldShape, distance: Fixed) -> Fixed {
    shape.lut@[lut_index(distance, shape.max_radius)].spec_times(shape.strength_scale)
}

/// The force on a particle at `subject` that answers with `weight` to a
/// field of shape `shape` whose source is at `source`: nothing nearer
/// than the least distance or beyond the radius; else the direction to
/// the source times the strength there times the weight.
pub open spec fn pull(subject: Vec2, weight: Fixed, source: Vec2, shape: FieldShape) -> Vec2 {
    let delta = source.spec_minus(subject);
    let distance = delta.spec_length();
    if distance.raw < MIN_DISTANCE_RAW || distance.raw > shape.max_radius.raw {
        Vec2::spec_zero()
    } else {
        delta.spec_shrunk(distance).spec_scaled(field_strength(shape, distance)).spec_scaled(weight)
    }
}

/// The sum of the pulls of the first `n` sources on `particle`, which is the
/// particle with index `entity` and does not pull on itself.
pub open spec fn force_upto(
    entity: int,
    particle: Particle,
    sources: Seq<FieldSource>,
    rules: AlchemyRules,
    n: int,
) -> Vec2
    decreases n,
{
    if n <= 0 {
        Vec2::spec_zero()
    } else {
        let rest = force_upto(entity, particle, sources, rules, n - 1);
        let s = sources[n - 1];
        if s.entity == entity {
            rest
        } else {
            rest.spec_plus(
                pull(
                    particle.position,
                    rules.spec_weight(particle.type_id.0, s.field),
                    s.position,
                    rules.particle_types@[s.emitter.0 as int].emission_shape,
                ),
            )
        }
    }
}

/// The sum of the pulls of all `sources` but itself on `particle`.
pub open spec fn net_force(
    entity: int,
    particle: Particle,
    sources: Seq<FieldSource>,
    rules: AlchemyRules,
) -> Vec2 {
    force_upto(entity, particle, sources, rules, sources.len() as int)
}

/// The length of a force step: 0.016 seconds of simulated time.
pub open spec fn force_step(constants: GlobalConstants) -> Fixed {
    (Fixed { raw: FIXED_STEP_RAW }).spec_times(constants.time_scale)
}

/// `particle` after `force` acted on it for `dt`: its velocity grew by
/// the force over its mass, times `dt`.
pub open spec fn pushed(particle: Particle, force: Vec2, dt: Fixed) -> Particle {
    Particle {
        velocity: Velocity(
            particle.velocity.0.spec_plus(force.spec_shrunk(particle.mass.0).spec_scaled(dt)),
        ),
        ..particle
    }
}

/// `velocity`, brought down to the speed `limit` in the same direction
/// where it is faster.
pub open spec fn capped(velocity: Vec2, limit: Fixed) -> Vec2 {
    if velocity.spec_length().raw > limit.raw {
        velocity.spec_normalized().spec_scaled(limit)
    } else {
        velocity
    }
}

/// `particle` after `dt`: its velocity capped at `limit`, and its position
/// advanced by the capped velocity times `dt`.
pub open spec fn moved(particle: Particle, limit: Fixed, dt: Fixed) -> Particle {
    let velocity = capped(particle.velocity.0, limit);
    Particle {
        position: particle.position.spec_plus(velocity.spec_scaled(dt)),
        velocity: Velocity(velocity),
        ..particle
    }
}

/// Records the particles that emit a field.
pub fn collect_sources(particles: &Vec<Particle>, alchemy: &AlchemyRules) -> (sources: Vec<
    FieldSource,
>)
    requires
        particles_fit(particles@, *alchemy),
    ensures
        sources@ == snapshot(particles@, *alchemy),
        sources_fit(sources@, *alchemy),
{
    let mut sources: Vec<FieldSource> = Vec::new();
    let mut i: usize = 0;
    while i < particles.len()
        invariant
            i <= particles.len(),
            particles_fit(particles@, *alchemy),
            sources@ == sources_upto(particles@, *alchemy, i as int),
            sources_fit(sources@, *alchemy),
        decreases particles.len() - i,
    {
        let p = particles[i];
        match alchemy.particle_types[p.type_id.0].emits_field {
            Some(field) => {
                sources.push(
                    FieldSource { entity: i, position: p.position, field, emitter: p.type_id },
                );
            },
            None => {},
        }
        i += 1;
    }
    sources
}

/// The index of the sample for `distance`.
pub fn sample_index(distance: Fixed, max_radius: Fixed) -> (index: usize)
    requires
        max_radius.raw > 0,
    ensures
        index == lut_index(distance, max_radius),
        index < LUT_SIZE,
{
    index_of(distance.raw, max_radius.raw)
}

/// The force of one source on one particle.
pub fn pull_of(subject: Vec2, weight: Fixed, source: Vec2, shape: &FieldShape) -> (force: Vec2)
    requires
        shape.well_formed(),
    ensures
        force == pull(subject, weight, source, *shape),
{
    let delta = source.minus(subject);
    let distance = delta.length();
    if distance.raw < MIN_DISTANCE_RAW || distance.raw > shape.max_radius.raw {
        return Vec2::zero();
    }
    let direction = delta.shrunk(distance);
    let index = sample_index(distance, shape.max_radius);
    let strength = shape.lut[index].times(shape.strength_scale);
    direction.scaled(strength).scaled(weight)
}

/// The sum of the pulls of all `sources` but itself on the particle with
/// index `entity`.
pub fn force_on(
    entity: usize,
    particle: &Particle,
    sources: &Vec<FieldSource>,
    alchemy: &AlchemyRules,
) -> (force: Vec2)
    requires
        alchemy.well_formed(),
        sources_fit(sources@, *alchemy),
    ensures
        force == net_force(entity as int, *particle, sources@, *alchemy),
{
    let mut total: Vec2 = Vec2::zero();
    let mut k: usize = 0;
    while k < sources.len()
        invariant
            k <= sources.len(),
            alchemy.well_formed(),
            sources_fit(sources@, *alchemy),
            total == force_upto(entity as int, *particle, sources@, *alchemy, k as int),
        decreases sources.len() - k,
    {
        let s = sources[k];
        if s.entity != entity {
            let weight = alchemy.weight(particle.type_id.0, s.field);
            if weight.raw != 0 {
                let shape = &alchemy.particle_types[s.emitter.0].emission_shape;
                total = total.plus(pull_of(particle.position, weight, s.position, shape));
            } else {
                proof {
                    lemma_no_weight_no_pull(
                        particle.position,
                        s.position,
                        alchemy.particle_types@[s.emitter.0 as int].emission_shape,
                    );
                }
            }
        }
        k += 1;
    }
    total
}

/// A particle that answers to a field with weight zero is not pulled by
/// it, however near or far the source is.
pub proof fn lemma_no_weight_no_pull(subject: Vec2, source: Vec2, shape: FieldShape)
    ensures
        pull(subject, Fixed::spec_zero(), source, shape) == Vec2::spec_zero(),
{
}

/// A source farther away than the radius of its field, or nearer than the
/// least distance, does not pull, whatever the weight.
pub proof fn lemma_out_of_range_no_pull(
    subject: Vec2,
    weight: Fixed,
    source: Vec2,
    shape: FieldShape,
)
    requires
        source.spec_minus(subject).spec_length().raw > shape.max_radius.raw || source.spec_minus(
            subject,
        ).spec_length().raw < MIN_DISTANCE_RAW,
    ensures
        pull(subject, weight, source, shape) == Vec2::spec_zero(),
{
}

/// No component of `a` points against the same component of `b`.
pub open spec fn points_with(a: Vec2, b: Vec2) -> bool {
    &&& b.x.raw >= 0 ==> a.x.raw >= 0
    &&& b.x.raw <= 0 ==> a.x.raw <= 0
    &&& b.y.raw >= 0 ==> a.y.raw >= 0
    &&& b.y.raw <= 0 ==> a.y.raw <= 0
}

/// No component of `a` points the same way as that component of `b`.
pub open spec fn points_against(a: Vec2, b: Vec2) -> bool {
    &&& b.x.raw >= 0 ==> a.x.raw <= 0
    &&& b.x.raw <= 0 ==> a.x.raw >= 0
    &&& b.y.raw >= 0 ==> a.y.raw <= 0
    &&& b.y.raw <= 0 ==> a.y.raw >= 0
}

/// A pull points toward the source where the weight and the strength of
/// the field have the same sign, and away from it where their signs differ.
pub proof fn lemma_pull_direction(subject: Vec2, weight: Fixed, source: Vec2, shape: FieldShape)
    ensures
        ({
            let delta = source.spec_minus(subject);
            let strength = field_strength(shape, delta.spec_length());
            &&& (weight.raw >= 0 && strength.raw >= 0) || (weight.raw <= 0 && strength.raw <= 0)
                ==> points_with(pull(subject, weight, source, shape), delta)
            &&& (weight.raw >= 0 && strength.raw <= 0) || (weight.raw <= 0 && strength.raw >= 0)
                ==> points_against(pull(subject, weight, source, shape), delta)
        }),
{
    let delta = source.spec_minus(subject);
    let distance = delta.spec_length();
    let strength = field_strength(shape, distance);
    if !(distance.raw < MIN_DISTANCE_RAW || distance.raw > shape.max_radius.raw) {
        let direction = delta.spec_shrunk(distance);
        lemma_over_sign(delta.x, distance);
        lemma_over_sign(delta.y, distance);
        let scaled = direction.spec_scaled(strength);
        lemma_times_sign(direction.x, strength);
        lemma_times_sign(direction.y, strength);
        lemma_times_sign(scaled.x, weight);
        lemma_times_sign(scaled.y, weight);
    }
}

/// Where no source but the particle itself pulls on it, there is no force
/// on it.
pub proof fn lemma_no_pull_no_force(
    entity: int,
    particle: Particle,
    sources: Seq<FieldSource>,
    rules: AlchemyRules,
    n: int,
)
    requires
        0 <= n <= sources.len(),
        forall|k: int|
            0 <= k < n && (#[trigger] sources[k]).entity != entity ==> pull(
                particle.position,
                rules.spec_weight(particle.type_id.0, sources[k].field),
                sources[k].position,
                rules.particle_types@[sources[k].emitter.0 as int].emission_shape,
            ) == Vec2::spec_zero(),
    ensures
        force_upto(entity, particle, sources, rules, n) == Vec2::spec_zero(),
    decreases n,
{
    if n > 0 {
        lemma_no_pull_no_force(entity, particle, sources, rules, n - 1);
        let s = sources[n - 1];
        assert(s.entity != entity ==> pull(
            particle.position,
            rules.spec_weight(particle.type_id.0, s.field),
            s.position,
            rules.particle_types@[s.emitter.0 as int].emission_shape,
        ) == Vec2::spec_zero());
    }
}

/// A particle that answers with weight zero to the field of every source
/// feels no force, and a step of forces leaves it as it is.
pub proof fn lemma_no_weight_no_force(
    entity: int,
    particle: Particle,
    sources: Seq<FieldSource>,
    rules: AlchemyRules,
    dt: Fixed,
)
    requires
        forall|k: int|
            0 <= k < sources.len() ==> rules.spec_weight(
                particle.type_id.0,
                (#[trigger] sources[k]).field,
            ) == Fixed::spec_zero(),
    ensures
        net_force(entity, particle, sources, rules) == Vec2::spec_zero(),
        pushed(particle, net_force(entity, particle, sources, rules), dt) == particle,
{
    assert forall|k: int|
        0 <= k < sources.len() && (#[trigger] sources[k]).entity != entity implies pull(
        particle.position,
        rules.spec_weight(particle.type_id.0, sources[k].field),
        sources[k].position,
        rules.particle_types@[sources[k].emitter.0 as int].emission_shape,
    ) == Vec2::spec_zero() by {
        lemma_no_weight_no_pull(
            particle.position,
            sources[k].position,
            rules.particle_types@[sources[k].emitter.0 as int].emission_shape,
        );
    }
    lemma_no_pull_no_force(entity, particle, sources, rules, sources.len() as int);
    lemma_no_force_no_push(particle, dt);
}

/// A particle on which no force acts keeps its velocity.
pub proof fn lemma_no_force_no_push(particle: Particle, dt: Fixed)
    ensures
        pushed(particle, Vec2::spec_zero(), dt) == particle,
{
    let still = Vec2::spec_zero().spec_shrunk(particle.mass.0);
    assert(still == Vec2::spec_zero());
    assert(still.spec_scaled(dt) == Vec2::spec_zero());
}

/// A velocity whose length can be told is, once capped, not longer than
/// the limit, and points the way it did: no component changes its sign.
pub proof fn lemma_capped_speed(velocity: Vec2, limit: Fixed)
    requires
        limit.raw > 0,
        velocity.spec_length().raw < i64::MAX,
    ensures
        capped(velocity, limit).spec_length().raw <= limit.raw,
        velocity.x.raw >= 0 ==> capped(velocity, limit).x.raw >= 0,
        velocity.x.raw <= 0 ==> capped(velocity, limit).x.raw <= 0,
        velocity.y.raw >= 0 ==> capped(velocity, limit).y.raw >= 0,
        velocity.y.raw <= 0 ==> capped(velocity, limit).y.raw <= 0,
{
    let x = velocity.x.raw as int;
    let y = velocity.y.raw as int;
    let c = limit.raw as int;
    let n = x * x + y * y;
    assert(x * x >= 0 && y * y >= 0) by (nonlinear_arith);
    lemma_root_floor(n);
    let len = root_floor(n);
    if velocity.spec_length().raw > limit.raw {
        assert(velocity.spec_length().raw == len);
        let out = capped(velocity, limit);
        lemma_capped_component(x, len, c, n - x * x);
        lemma_capped_component(y, len, c, n - y * y);
        let a = out.x.raw as int;
        let b = out.y.raw as int;
        let w = a * a + b * b;
        assert(a * a >= 0 && b * b >= 0) by (nonlinear_arith);
        assert(w * (len * len) <= n * (c * c)) by (nonlinear_arith)
            requires
                w == a * a + b * b,
                n == x * x + y * y,
                a * a * (len * len) <= x * x * (c * c),
                b * b * (len * len) <= y * y * (c * c),
        ;
        assert(w < (c + 1) * (c + 1)) by (nonlinear_arith)
            requires
                w * (len * len) <= n * (c * c),
                n < (len + 1) * (len + 1),
                0 < c < len,
                w >= 0,
        ;
        lemma_root_floor(w);
        let r = root_floor(w);
        assert(r <= c) by (nonlinear_arith)
            requires
                r >= 0,
                c >= 0,
                r * r <= w,
                w < (c + 1) * (c + 1),
        ;
    }
}

/// One component `x` of a velocity of length `len`, divided by the length
/// and multiplied by the limit `c`: its square, and its sign.
proof fn lemma_capped_component(x: int, len: int, c: int, rest: int)
    requires
        0 < c < len,
        rest >= 0,
        len * len <= x * x + rest,
        x * x + rest < (len + 1) * (len + 1),
        i64::MIN <= x <= i64::MAX,
        len <= i64::MAX,
        c <= i64::MAX,
    ensures
        ({
            let unit = Fixed::saturate(quotient(x * SCALE, len));
            let out = Fixed::saturate(quotient(unit.raw * c, SCALE as int));
            &&& out.raw * out.raw * (len * len) <= x * x * (c * c)
            &&& (x >= 0 ==> out.raw >= 0)
            &&& (x <= 0 ==> out.raw <= 0)
        }),
{
    let m = if x >= 0 { x } else { -x };
    assert(m * m == x * x) by (nonlinear_arith)
        requires
            m == x || m == -x,
    ;
    assert(m <= len) by (nonlinear_arith)
        requires
            m * m + rest < (len + 1) * (len + 1),
            m >= 0,
            len >= 0,
            rest >= 0,
    ;
    let q = quotient(x * SCALE, len);
    lemma_quotient_bounds(x * SCALE, len);
    let qm = if q >= 0 { q } else { -q };
    // The size of the quotient, times the length, is at most the size of
    // the component, times the scale.
    assert(qm * len <= m * SCALE) by (nonlinear_arith)
        requires
            x >= 0 ==> 0 <= q * len <= x * SCALE,
            x <= 0 ==> x * SCALE <= q * len <= 0,
            x >= 0 ==> q >= 0,
            x <= 0 ==> q <= 0,
            qm == q || qm == -q,
            qm >= 0,
            m == x || m == -x,
            m >= 0,
            len > 0,
    ;
    assert(qm <= SCALE) by (nonlinear_arith)
        requires
            qm * len <= m * SCALE,
            m <= len,
            len > 0,
            qm >= 0,
            SCALE == 1_000_000,
    ;
    let unit = Fixed::saturate(q);
    assert(unit.raw == q);
    let p = quotient(q * c, SCALE as int);
    lemma_quotient_bounds(q * c, SCALE as int);
    assert(q >= 0 ==> q * c >= 0) by (nonlinear_arith)
        requires
            c > 0,
    ;
    assert(q <= 0 ==> q * c <= 0) by (nonlinear_arith)
        requires
            c > 0,
    ;
    let pm = if p >= 0 { p } else { -p };
    assert(pm * SCALE <= qm * c) by (nonlinear_arith)
        requires
            q * c >= 0 ==> 0 <= p * SCALE <= q * c,
            q * c <= 0 ==> q * c <= p * SCALE <= 0,
            q >= 0 ==> q * c >= 0,
            q <= 0 ==> q * c <= 0,
            qm == q || qm == -q,
            qm >= 0,
            pm == p || pm == -p,
            pm >= 0,
            c > 0,
    ;
    assert(pm <= c) by (nonlinear_arith)
        requires
            pm * SCALE <= qm * c,
            qm <= SCALE,
            c > 0,
            pm >= 0,
            SCALE == 1_000_000,
    ;
    let out = Fixed::saturate(p);
    assert(out.raw == p);
    // Size of the outcome times the length is at most size of the
    // component times the limit.
    assert(pm * len <= m * c) by (nonlinear_arith)
        requires
            pm * SCALE <= qm * c,
            qm * len <= m * SCALE,
            pm >= 0,
            qm >= 0,
            m >= 0,
            c > 0,
            len > 0,
            SCALE == 1_000_000,
    ;
    assert(pm * pm * (len * len) <= m * m * (c * c)) by (nonlinear_arith)
        requires
            pm * len <= m * c,
            pm >= 0,
            len > 0,
            m >= 0,
            c > 0,
    ;
    assert(pm * pm == p * p) by (nonlinear_arith)
        requires
            pm == p || pm == -p,
    ;
}

/// Changes the velocity of every particle by the fields of all the
/// others, each taken at the position it had before the call.
pub fn particle_interaction_system(
    particles: &mut Vec<Particle>,
    global_consts: &GlobalConstants,
    alchemy: &AlchemyRules,
)
    requires
        alchemy.well_formed(),
        particles_fit(old(particles)@, *alchemy),
    ensures
        final(particles)@.len() == old(particles)@.len(),
        forall|i: int|
            0 <= i < old(particles)@.len() ==> #[trigger] final(particles)@[i] == pushed(
                old(particles)@[i],
                net_force(i, old(particles)@[i], snapshot(old(particles)@, *alchemy), *alchemy),
                force_step(*global_consts),
            ),
{
    let sources = collect_sources(particles, alchemy);
    let dt = Fixed::from_raw(FIXED_STEP_RAW).times(global_consts.time_scale);
    let n: usize = particles.len();
    let mut i: usize = 0;
    while i < n
        invariant
            i <= n,
            n == particles.len(),
            n == old(particles)@.len(),
            alchemy.well_formed(),
            particles_fit(old(particles)@, *alchemy),
            sources@ == snapshot(old(particles)@, *alchemy),
            sources_fit(sources@, *alchemy),
            dt == force_step(*global_consts),
            forall|j: int|
                0 <= j < i ==> #[trigger] particles@[j] == pushed(
                    old(particles)@[j],
                    net_force(j, old(particles)@[j], sources@, *alchemy),
                    dt,
                ),
            forall|j: int| i <= j < n ==> #[trigger] particles@[j] == old(particles)@[j],
        decreases n - i,
    {
        let p = particles[i];
        let force = force_on(i, &p, &sources, alchemy);
        let acceleration = force.shrunk(p.mass.0);
        let velocity = p.velocity.0.plus(acceleration.scaled(dt));
        particles.set(
            i,
            Particle {
                position: p.position,
                velocity: Velocity(velocity),
                mass: p.mass,
                type_id: p.type_id,
            },
        );
        i += 1;
    }
}

/// Caps the velocity of every particle at the speed of light and moves
/// it by the capped velocity.
pub fn physics_integration_system(
    particles: &mut Vec<Particle>,
    global_consts: &GlobalConstants,
    elapsed_seconds: Fixed,
)
    requires
        global_consts.well_formed(),
    ensures
        final(particles)@.len() == old(particles)@.len(),
        forall|i: int|
            0 <= i < old(particles)@.len() ==> #[trigger] final(particles)@[i] == moved(
                old(particles)@[i],
                global_consts.light_speed,
                elapsed_seconds.spec_times(global_consts.time_scale),
            ),
        forall|i: int|
            0 <= i < old(particles)@.len() && old(particles)@[i].velocity.0.spec_length().raw
                < i64::MAX ==> (#[trigger] final(particles)@[i]).velocity.0.spec_length().raw
                <= global_consts.light_speed.raw,
{
    let dt = elapsed_seconds.times(global_consts.time_scale);
    let c = global_consts.light_speed;
    let n: usize = particles.len();
    let mut i: usize = 0;
    while i < n
        invariant
            i <= n,
            n == particles.len(),
            n == old(particles)@.len(),
            c.raw > 0,
            forall|j: int| 0 <= j < i ==> #[trigger] particles@[j] == moved(old(particles)@[j], c, dt),
            forall|j: int| i <= j < n ==> #[trigger] particles@[j] == old(particles)@[j],
        decreases n - i,
    {
        let p = particles[i];
        let mut velocity = p.velocity.0;
        let speed = velocity.length();
        if speed.raw > c.raw {
            velocity = velocity.normalized().scaled(c);
        }
        particles.set(
            i,
            Particle {
                position: p.position.plus(velocity.scaled(dt)),
                velocity: Velocity(velocity),
                mass: p.mass,
                type_id: p.type_id,
            },
        );
        i += 1;
    }
    proof {
        assert forall|i: int|
            0 <= i < old(particles)@.len() && old(particles)@[i].velocity.0.spec_length().raw
                < i64::MAX implies (#[trigger] particles@[i]).velocity.0.spec_length().raw
            <= c.raw by {
            lemma_capped_speed(old(particles)@[i].velocity.0, c);
        }
    }
}

} // verus!
