use iuma::components::FieldTypeID;
use iuma::components::Mass;
use iuma::components::Particle;
use iuma::components::ParticleTypeID;
use iuma::components::Velocity;
use iuma::curve::CurvePoint;
use iuma::fixed::Fixed;
use iuma::physics::collect_sources;
use iuma::physics::force_on;
use iuma::physics::particle_interaction_system;
use iuma::physics::physics_integration_system;
use iuma::physics::pull_of;
use iuma::physics::sample_index;
use iuma::physics::FieldSource;
use iuma::resources::AlchemyRules;
use iuma::resources::Color;
use iuma::resources::FieldShape;
use iuma::resources::GlobalConstants;
use iuma::resources::ParticleTypeDefinition;
use iuma::vector::Vec2;

fn fx(raw: i64) -> Fixed {
    Fixed::from_raw(raw)
}

fn units(n: i64) -> Fixed {
    Fixed::from_int(n)
}

fn v(x: i64, y: i64) -> Vec2 {
    Vec2::new(fx(x), fx(y))
}

fn at(x: i64, y: i64, type_id: usize) -> Particle {
    Particle::at_rest(v(x, y), Mass(units(1)), ParticleTypeID(type_id))
}

fn constants(light_speed: i64, time_scale: i64) -> GlobalConstants {
    GlobalConstants {
        light_speed: fx(light_speed),
        time_scale: fx(time_scale),
        bloom_enabled: false,
        bloom_intensity: fx(0),
    }
}

/// A shape whose every sample is one.
fn flat_shape(radius: i64, strength: i64) -> FieldShape {
    let mut shape = FieldShape {
        max_radius: fx(radius),
        strength_scale: fx(strength),
        points: vec![CurvePoint { x: fx(0), y: fx(1_000_000) }],
        lut: Vec::new(),
    };
    shape.bake_lut();
    shape
}

fn kind(name: &str, emits: Option<usize>, shape: FieldShape) -> ParticleTypeDefinition {
    ParticleTypeDefinition {
        name: name.to_string(),
        default_mass: units(1),
        default_color: Color::red(),
        emits_field: emits.map(FieldTypeID),
        emission_shape: shape,
    }
}

/// One type that emits field 0 with a flat shape of radius 300 and
/// strength 10, and answers to it with `weight`.
fn flat_rules(weight: i64) -> AlchemyRules {
    let mut rules = AlchemyRules::new();
    rules.particle_types.push(kind("Flat", Some(0), flat_shape(300_000_000, 10_000_000)));
    rules.set_weight(0, FieldTypeID(0), fx(weight));
    rules
}

#[test]
fn two_default_particles_of_different_type() {
    let rules = AlchemyRules::default();
    let mut particles = vec![at(0, 0, 0), at(100_000_000, 0, 1)];
    particle_interaction_system(&mut particles, &constants(1_000_000_000, 1_000_000), &rules);
    // Sample 33 of the table is 0.666667; times the strength 1000 and the
    // weight -2 the force is 1333.334, pointing away from the other
    // particle; over 0.016 seconds that is a change of 21.333344.
    assert_eq!(particles[0].velocity, Velocity(v(-21_333_344, 0)));
    assert_eq!(particles[1].velocity, Velocity(v(21_333_344, 0)));
    assert_eq!(particles[0].position, v(0, 0));
    assert_eq!(particles[1].position, v(100_000_000, 0));
    assert_eq!(particles[0].mass, Mass(units(1)));
    assert_eq!(particles[0].type_id, ParticleTypeID(0));
    assert_eq!(particles[1].type_id, ParticleTypeID(1));
}

#[test]
fn two_default_particles_of_the_same_type() {
    let rules = AlchemyRules::default();
    let mut particles = vec![at(0, 0, 0), at(100_000_000, 0, 0)];
    particle_interaction_system(&mut particles, &constants(1_000_000_000, 1_000_000), &rules);
    // The weight is one: 666.667 toward the other, times 0.016.
    assert_eq!(particles[0].velocity, Velocity(v(10_666_672, 0)));
    assert_eq!(particles[1].velocity, Velocity(v(-10_666_672, 0)));
}

#[test]
fn force_is_divided_by_mass_and_scaled_by_time() {
    let rules = AlchemyRules::default();
    let mut particles = vec![at(0, 0, 0), at(100_000_000, 0, 0)];
    particles[0].mass = Mass(units(4));
    particle_interaction_system(&mut particles, &constants(1_000_000_000, 2_000_000), &rules);
    // 666.667 / 4 = 166.66675, times 0.032 = 5.333336.
    assert_eq!(particles[0].velocity, Velocity(v(5_333_336, 0)));
    assert_eq!(particles[1].velocity, Velocity(v(-21_333_344, 0)));
}

#[test]
fn time_scale_zero_changes_no_velocity() {
    let rules = AlchemyRules::default();
    let mut particles = vec![at(0, 0, 0), at(100_000_000, 0, 1)];
    particle_interaction_system(&mut particles, &constants(1_000_000_000, 0), &rules);
    assert_eq!(particles[0].velocity, Velocity(v(0, 0)));
    assert_eq!(particles[1].velocity, Velocity(v(0, 0)));
}

#[test]
fn velocity_is_added_to() {
    let rules = AlchemyRules::default();
    let mut particles = vec![at(0, 0, 0), at(100_000_000, 0, 1)];
    particles[0].velocity = Velocity(v(1_000_000, -3_000_000));
    particle_interaction_system(&mut particles, &constants(1_000_000_000, 1_000_000), &rules);
    assert_eq!(particles[0].velocity, Velocity(v(-20_333_344, -3_000_000)));
}

#[test]
fn forces_point_along_the_line_between_the_particles() {
    let rules = flat_rules(1_000_000);
    let mut particles = vec![at(0, 0, 0), at(30_000_000, 40_000_000, 0)];
    particle_interaction_system(&mut particles, &constants(1_000_000_000, 1_000_000), &rules);
    // Direction (0.6, 0.8), strength 10, weight 1, times 0.016.
    assert_eq!(particles[0].velocity, Velocity(v(96_000, 128_000)));
    assert_eq!(particles[1].velocity, Velocity(v(-96_000, -128_000)));
}

#[test]
fn a_particle_alone_feels_nothing() {
    let rules = AlchemyRules::default();
    let mut particles = vec![at(5_000_000, 5_000_000, 0)];
    particle_interaction_system(&mut particles, &constants(1_000_000_000, 1_000_000), &rules);
    assert_eq!(particles[0], at(5_000_000, 5_000_000, 0));
    let mut none: Vec<Particle> = Vec::new();
    particle_interaction_system(&mut none, &constants(1_000_000_000, 1_000_000), &rules);
    assert_eq!(none.len(), 0);
}

#[test]
fn weight_zero_gives_no_force_at_any_distance() {
    let mut rules = AlchemyRules::default();
    rules.set_weight(0, FieldTypeID(1), fx(0));
    for distance in [100_000, 1_000_000, 100_000_000, 299_000_000, 300_000_000] {
        let mut particles = vec![at(0, 0, 0), at(distance, 0, 1)];
        particle_interaction_system(&mut particles, &constants(1_000_000_000, 1_000_000), &rules);
        assert_eq!(particles[0].velocity, Velocity(v(0, 0)));
    }
}

#[test]
fn absent_weight_gives_no_force() {
    let mut rules = AlchemyRules::new();
    rules.particle_types.push(kind("A", Some(0), flat_shape(300_000_000, 10_000_000)));
    rules.particle_types.push(kind("B", Some(1), flat_shape(300_000_000, 10_000_000)));
    rules.set_weight(0, FieldTypeID(1), units(1));
    let mut particles = vec![at(0, 0, 0), at(10_000_000, 0, 1)];
    particle_interaction_system(&mut particles, &constants(1_000_000_000, 1_000_000), &rules);
    assert_eq!(particles[0].velocity, Velocity(v(160_000, 0)));
    assert_eq!(particles[1].velocity, Velocity(v(0, 0)));
}

#[test]
fn beyond_the_radius_there_is_no_force() {
    for weight in [1_000_000, -1_000_000, 1_000_000_000_000, -1_000_000_000_000] {
        let rules = flat_rules(weight);
        let mut particles = vec![at(0, 0, 0), at(300_000_001, 0, 0)];
        particle_interaction_system(&mut particles, &constants(1_000_000_000, 1_000_000), &rules);
        assert_eq!(particles[0].velocity, Velocity(v(0, 0)));
        assert_eq!(particles[1].velocity, Velocity(v(0, 0)));
    }
}

#[test]
fn at_the_radius_there_is_force() {
    let rules = flat_rules(1_000_000);
    let mut particles = vec![at(0, 0, 0), at(300_000_000, 0, 0)];
    particle_interaction_system(&mut particles, &constants(1_000_000_000, 1_000_000), &rules);
    assert_eq!(particles[0].velocity, Velocity(v(160_000, 0)));
    assert_eq!(particles[1].velocity, Velocity(v(-160_000, 0)));
}

#[test]
fn nearer_than_a_tenth_there_is_no_force() {
    for weight in [1_000_000, -1_000_000, 1_000_000_000_000] {
        let rules = flat_rules(weight);
        let mut particles = vec![at(0, 0, 0), at(99_999, 0, 0), at(0, 0, 0)];
        particle_interaction_system(&mut particles, &constants(1_000_000_000, 1_000_000), &rules);
        assert_eq!(particles[0].velocity, Velocity(v(0, 0)));
        assert_eq!(particles[1].velocity, Velocity(v(0, 0)));
        assert_eq!(particles[2].velocity, Velocity(v(0, 0)));
    }
}

#[test]
fn at_a_tenth_there_is_force() {
    let rules = flat_rules(1_000_000);
    let mut particles = vec![at(0, 0, 0), at(100_000, 0, 0)];
    particle_interaction_system(&mut particles, &constants(1_000_000_000, 1_000_000), &rules);
    assert_eq!(particles[0].velocity, Velocity(v(160_000, 0)));
}

#[test]
fn a_type_without_field_pulls_nothing_but_is_pulled() {
    let mut rules = AlchemyRules::new();
    rules.particle_types.push(kind("Source", Some(0), flat_shape(300_000_000, 10_000_000)));
    rules.particle_types.push(kind("Silent", None, flat_shape(300_000_000, 10_000_000)));
    rules.set_weight(0, FieldTypeID(0), units(1));
    rules.set_weight(1, FieldTypeID(0), units(1));
    rules.set_weight(0, FieldTypeID(1), units(1));
    let mut particles = vec![at(0, 0, 0), at(10_000_000, 0, 1)];
    particle_interaction_system(&mut particles, &constants(1_000_000_000, 1_000_000), &rules);
    assert_eq!(particles[0].velocity, Velocity(v(0, 0)));
    assert_eq!(particles[1].velocity, Velocity(v(-160_000, 0)));
}

#[test]
fn forces_of_several_sources_add_up() {
    let rules = flat_rules(1_000_000);
    let mut particles = vec![at(0, 0, 0), at(10_000_000, 0, 0), at(0, 20_000_000, 0), at(-5_000_000, 0, 0)];
    particle_interaction_system(&mut particles, &constants(1_000_000_000, 1_000_000), &rules);
    // Pulled by ten to the right, up, and to the left.
    assert_eq!(particles[0].velocity, Velocity(v(0, 160_000)));
}

#[test]
fn every_velocity_is_computed_from_the_positions_before_the_step() {
    let rules = AlchemyRules::default();
    let consts = constants(1_000_000_000, 1_000_000);
    let mut forward = vec![at(0, 0, 0), at(100_000_000, 0, 1), at(40_000_000, 70_000_000, 0)];
    let mut backward = vec![forward[2], forward[1], forward[0]];
    particle_interaction_system(&mut forward, &consts, &rules);
    particle_interaction_system(&mut backward, &consts, &rules);
    assert_eq!(forward[1], backward[1]);
    // The two others have two sources each, whose pulls are added in the
    // order of the particles; here the sums do not depend on that order.
    assert_eq!(forward[0], backward[2]);
    assert_eq!(forward[2], backward[0]);
}

#[test]
fn sources_are_the_particles_that_emit() {
    let mut rules = AlchemyRules::new();
    rules.particle_types.push(kind("Source", Some(7), flat_shape(300_000_000, 10_000_000)));
    rules.particle_types.push(kind("Silent", None, flat_shape(300_000_000, 10_000_000)));
    let particles = vec![at(1, 2, 1), at(3, 4, 0), at(5, 6, 1), at(7, 8, 0)];
    let sources = collect_sources(&particles, &rules);
    assert_eq!(
        sources,
        vec![
            FieldSource { entity: 1, position: v(3, 4), field: FieldTypeID(7), emitter: ParticleTypeID(0) },
            FieldSource { entity: 3, position: v(7, 8), field: FieldTypeID(7), emitter: ParticleTypeID(0) },
        ]
    );
}

#[test]
fn force_on_leaves_out_the_particle_itself() {
    let rules = flat_rules(1_000_000);
    let particles = vec![at(0, 0, 0), at(10_000_000, 0, 0)];
    let sources = collect_sources(&particles, &rules);
    assert_eq!(force_on(0, &particles[0], &sources, &rules), v(10_000_000, 0));
    assert_eq!(force_on(1, &particles[1], &sources, &rules), v(-10_000_000, 0));
    // Taken as a third particle at the place of the first, it is pulled by
    // the second only: the first is nearer than a tenth.
    assert_eq!(force_on(2, &particles[0], &sources, &rules), v(10_000_000, 0));
}

#[test]
fn pull_follows_the_formula() {
    let shape = FieldShape::new_linear_falloff(units(300), units(1000));
    // Distance 150: sample 49 is 0.505051, strength 505.051, weight 0.5.
    let force = pull_of(v(0, 0), fx(500_000), v(0, -150_000_000), &shape);
    assert_eq!(force, v(0, -252_525_500));
    assert_eq!(pull_of(v(0, 0), fx(500_000), v(0, -300_000_001), &shape), v(0, 0));
    assert_eq!(pull_of(v(0, 0), fx(500_000), v(0, 99_999), &shape), v(0, 0));
    assert_eq!(pull_of(v(0, 0), fx(0), v(0, -150_000_000), &shape), v(0, 0));
}

#[test]
fn sample_index_is_the_share_of_the_radius_times_ninety_nine() {
    assert_eq!(sample_index(units(100), units(300)), 33);
    assert_eq!(sample_index(units(150), units(300)), 49);
    assert_eq!(sample_index(units(300), units(300)), 99);
    assert_eq!(sample_index(units(0), units(300)), 0);
    assert_eq!(sample_index(fx(100_000), units(300)), 0);
    assert_eq!(sample_index(units(299), units(300)), 98);
}

#[test]
fn speed_is_capped_at_light_speed() {
    let mut particles = vec![at(0, 0, 0)];
    particles[0].velocity = Velocity(v(1_000_000_000, 0));
    physics_integration_system(&mut particles, &constants(500_000_000, 1_000_000), fx(16_000));
    assert_eq!(particles[0].velocity, Velocity(v(500_000_000, 0)));
    // 500 * 0.016 = 8
    assert_eq!(particles[0].position, v(8_000_000, 0));
}

#[test]
fn capped_velocity_keeps_its_direction() {
    let mut particles = vec![at(1_000_000, 1_000_000, 0)];
    particles[0].velocity = Velocity(v(-3_000_000_000, 4_000_000_000));
    physics_integration_system(&mut particles, &constants(500_000_000, 1_000_000), fx(1_000_000));
    assert_eq!(particles[0].velocity, Velocity(v(-300_000_000, 400_000_000)));
    assert_eq!(particles[0].position, v(-299_000_000, 401_000_000));
}

#[test]
fn velocity_at_or_below_light_speed_is_kept() {
    let mut particles = vec![at(0, 0, 0), at(0, 0, 0)];
    particles[0].velocity = Velocity(v(500_000_000, 0));
    particles[1].velocity = Velocity(v(3_000_000, -4_000_000));
    physics_integration_system(&mut particles, &constants(500_000_000, 2_000_000), fx(500_000));
    assert_eq!(particles[0].velocity, Velocity(v(500_000_000, 0)));
    assert_eq!(particles[0].position, v(500_000_000, 0));
    assert_eq!(particles[1].velocity, Velocity(v(3_000_000, -4_000_000)));
    assert_eq!(particles[1].position, v(3_000_000, -4_000_000));
}

#[test]
fn integration_with_time_scale_zero_moves_nothing_but_still_caps() {
    let mut particles = vec![at(7, 9, 0)];
    particles[0].velocity = Velocity(v(0, -2_000_000_000));
    physics_integration_system(&mut particles, &constants(1_000_000_000, 0), fx(16_000));
    assert_eq!(particles[0].position, v(7, 9));
    assert_eq!(particles[0].velocity, Velocity(v(0, -1_000_000_000)));
}

#[test]
fn integration_keeps_mass_and_type() {
    let mut particles = vec![at(0, 0, 1)];
    particles[0].mass = Mass(units(3));
    particles[0].velocity = Velocity(v(1, 1));
    physics_integration_system(&mut particles, &constants(1_000_000_000, 1_000_000), fx(16_000));
    assert_eq!(particles[0].mass, Mass(units(3)));
    assert_eq!(particles[0].type_id, ParticleTypeID(1));
}

#[test]
fn a_tick_is_forces_then_movement() {
    let rules = AlchemyRules::default();
    let consts = constants(1_000_000_000, 1_000_000);
    let mut particles = vec![at(0, 0, 0), at(100_000_000, 0, 1)];
    particle_interaction_system(&mut particles, &consts, &rules);
    physics_integration_system(&mut particles, &consts, fx(16_000));
    // 21.333344 * 0.016 = 0.341333
    assert_eq!(particles[0].position, v(-341_333, 0));
    assert_eq!(particles[1].position, v(100_341_333, 0));
}

#[test]
fn capped_speed_is_not_above_light_speed() {
    let limits = [1, 7, 1_000_000, 500_000_000, 4_999_999_999];
    let velocities = [
        (1_000_000_000, 0),
        (123_456_789, -987_654_321),
        (-1, 600_000_000),
        (3, 4),
        (-7_777_777_777, -1),
        (5_000_000_001, 5_000_000_001),
        (0, -9),
    ];
    for limit in limits {
        for (x, y) in velocities {
            let mut particles = vec![at(0, 0, 0)];
            particles[0].velocity = Velocity(v(x, y));
            physics_integration_system(&mut particles, &constants(limit, 1_000_000), fx(16_000));
            let after = particles[0].velocity.0;
            assert!(after.length().raw <= limit || after == v(x, y));
            if v(x, y).length().raw > limit {
                assert!(after.length().raw <= limit);
            }
            assert!(after.x.raw.signum() == 0 || after.x.raw.signum() == x.signum());
            assert!(after.y.raw.signum() == 0 || after.y.raw.signum() == y.signum());
        }
    }
}

#[test]
fn pull_points_toward_the_source_for_a_positive_weight_and_away_for_a_negative() {
    let shape = FieldShape::new_linear_falloff(units(300), units(1000));
    let toward = pull_of(v(10_000_000, 10_000_000), units(1), v(40_000_000, -30_000_000), &shape);
    assert!(toward.x.raw > 0 && toward.y.raw < 0);
    let away = pull_of(v(10_000_000, 10_000_000), units(-1), v(40_000_000, -30_000_000), &shape);
    assert!(away.x.raw < 0 && away.y.raw > 0);
    assert_eq!(away.x.raw, -toward.x.raw);
    assert_eq!(away.y.raw, -toward.y.raw);
}
