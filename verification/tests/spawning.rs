use iuma::components::Mass;
use iuma::components::ParticleTypeID;
use iuma::components::Velocity;
use iuma::fixed::Fixed;
use iuma::resources::AlchemyRules;
use iuma::spawner::place_particle;
use iuma::spawner::random_jitter;
use iuma::spawner::spawn_particle;
use iuma::spawner::JITTER_RAW;
use iuma::vector::Vec2;

fn fx(raw: i64) -> Fixed {
    Fixed::from_raw(raw)
}

#[test]
fn placed_particle_rests_at_the_displaced_position() {
    let rules = AlchemyRules::default();
    let p = place_particle(
        1,
        Vec2::new(fx(10_000_000), fx(-20_000_000)),
        Vec2::new(fx(-1_500_000), fx(2_500_000)),
        &rules.particle_types[1],
    );
    assert_eq!(p.position, Vec2::new(fx(8_500_000), fx(-17_500_000)));
    assert_eq!(p.velocity, Velocity(Vec2::zero()));
    assert_eq!(p.mass, Mass(Fixed::one()));
    assert_eq!(p.type_id, ParticleTypeID(1));
}

#[test]
fn jitter_stays_within_fifty() {
    assert_eq!(JITTER_RAW, 50_000_000);
    for _ in 0..200 {
        let j = random_jitter();
        assert!(-JITTER_RAW <= j.x.raw && j.x.raw < JITTER_RAW);
        assert!(-JITTER_RAW <= j.y.raw && j.y.raw < JITTER_RAW);
    }
}

#[test]
fn jitter_is_not_one_of_its_bounds_every_time() {
    let mut all_low = true;
    let mut all_high = true;
    for _ in 0..64 {
        let j = random_jitter();
        if j.x.raw != -JITTER_RAW || j.y.raw != -JITTER_RAW {
            all_low = false;
        }
        if j.x.raw != JITTER_RAW || j.y.raw != JITTER_RAW {
            all_high = false;
        }
    }
    assert!(!all_low);
    assert!(!all_high);
}

#[test]
fn spawned_particle_rests_near_the_place_asked_for() {
    let rules = AlchemyRules::default();
    for _ in 0..100 {
        let p = spawn_particle(0, Vec2::new(fx(1_000_000_000), fx(-1_000_000_000)), &rules.particle_types[0]);
        assert!(950_000_000 <= p.position.x.raw && p.position.x.raw < 1_050_000_000);
        assert!(-1_050_000_000 <= p.position.y.raw && p.position.y.raw < -950_000_000);
        assert_eq!(p.velocity, Velocity(Vec2::zero()));
        assert_eq!(p.mass, Mass(Fixed::one()));
        assert_eq!(p.type_id, ParticleTypeID(0));
    }
}
