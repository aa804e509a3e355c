use iuma::components::FieldTypeID;
use iuma::curve::CurvePoint;
use iuma::fixed::Fixed;
use iuma::resources::AlchemyRules;
use iuma::resources::Color;
use iuma::resources::FieldShape;
use iuma::resources::GlobalConstants;
use iuma::resources::ParticleTypeDefinition;

fn fx(raw: i64) -> Fixed {
    Fixed::from_raw(raw)
}

#[test]
fn default_constants() {
    let c = GlobalConstants::default();
    assert_eq!(c.light_speed.raw, 1_000_000_000);
    assert_eq!(c.time_scale.raw, 1_000_000);
    assert!(c.bloom_enabled);
    assert_eq!(c.bloom_intensity.raw, 300_000);
}

#[test]
fn default_catalogue_has_protons_and_electrons() {
    let rules = AlchemyRules::default();
    assert_eq!(rules.particle_types.len(), 2);
    let proton = &rules.particle_types[0];
    let electron = &rules.particle_types[1];
    assert_eq!(proton.name, "Proton");
    assert_eq!(electron.name, "Electron");
    assert_eq!(proton.default_mass.raw, 1_000_000);
    assert_eq!(electron.default_mass.raw, 1_000_000);
    assert_eq!(proton.default_color, Color::red());
    assert_eq!(electron.default_color, Color::blue());
    assert_eq!(proton.emits_field, Some(FieldTypeID(0)));
    assert_eq!(electron.emits_field, Some(FieldTypeID(1)));
}

#[test]
fn default_catalogue_shapes_fall_in_a_straight_line() {
    let rules = AlchemyRules::default();
    for def in &rules.particle_types {
        let shape = &def.emission_shape;
        assert_eq!(shape.max_radius.raw, 300_000_000);
        assert_eq!(shape.strength_scale.raw, 1_000_000_000);
        assert_eq!(
            shape.points,
            vec![
                CurvePoint { x: fx(0), y: fx(1_000_000) },
                CurvePoint { x: fx(1_000_000), y: fx(0) },
            ]
        );
        assert_eq!(shape.lut.len(), 100);
        assert_eq!(shape.lut[0].raw, 1_000_000);
        assert_eq!(shape.lut[99].raw, 0);
    }
}

#[test]
fn default_weights() {
    let rules = AlchemyRules::default();
    assert_eq!(rules.weight(0, FieldTypeID(0)).raw, 1_000_000);
    assert_eq!(rules.weight(1, FieldTypeID(1)).raw, 1_000_000);
    assert_eq!(rules.weight(0, FieldTypeID(1)).raw, -2_000_000);
    assert_eq!(rules.weight(1, FieldTypeID(0)).raw, -2_000_000);
    assert_eq!(rules.interactions.len(), 4);
}

#[test]
fn absent_weight_is_zero() {
    let rules = AlchemyRules::default();
    assert_eq!(rules.weight(2, FieldTypeID(0)).raw, 0);
    assert_eq!(rules.weight(0, FieldTypeID(2)).raw, 0);
    assert_eq!(rules.weight(usize::MAX, FieldTypeID(usize::MAX)).raw, 0);
    let empty = AlchemyRules::new();
    assert_eq!(empty.weight(0, FieldTypeID(0)).raw, 0);
    assert_eq!(empty.particle_types.len(), 0);
}

#[test]
fn set_weight_changes_one_pair_only() {
    let mut rules = AlchemyRules::default();
    rules.set_weight(0, FieldTypeID(1), fx(3_500_000));
    assert_eq!(rules.weight(0, FieldTypeID(1)).raw, 3_500_000);
    assert_eq!(rules.weight(1, FieldTypeID(0)).raw, -2_000_000);
    assert_eq!(rules.weight(0, FieldTypeID(0)).raw, 1_000_000);
    assert_eq!(rules.weight(1, FieldTypeID(1)).raw, 1_000_000);
    rules.set_weight(5, FieldTypeID(7), fx(-1));
    assert_eq!(rules.weight(5, FieldTypeID(7)).raw, -1);
    assert_eq!(rules.weight(7, FieldTypeID(5)).raw, 0);
}

#[test]
fn weights_of_pairs_do_not_collide() {
    let mut rules = AlchemyRules::new();
    rules.set_weight(1, FieldTypeID(0), fx(10));
    rules.set_weight(0, FieldTypeID(1), fx(20));
    rules.set_weight(usize::MAX, FieldTypeID(0), fx(30));
    rules.set_weight(0, FieldTypeID(usize::MAX), fx(40));
    rules.set_weight(usize::MAX, FieldTypeID(usize::MAX), fx(50));
    assert_eq!(rules.weight(1, FieldTypeID(0)).raw, 10);
    assert_eq!(rules.weight(0, FieldTypeID(1)).raw, 20);
    assert_eq!(rules.weight(usize::MAX, FieldTypeID(0)).raw, 30);
    assert_eq!(rules.weight(0, FieldTypeID(usize::MAX)).raw, 40);
    assert_eq!(rules.weight(usize::MAX, FieldTypeID(usize::MAX)).raw, 50);
    assert_eq!(rules.weight(0, FieldTypeID(0)).raw, 0);
    assert_eq!(rules.interactions.len(), 5);
}

#[test]
fn a_weight_set_to_zero_reads_as_zero() {
    let mut rules = AlchemyRules::default();
    rules.set_weight(0, FieldTypeID(0), fx(0));
    assert_eq!(rules.weight(0, FieldTypeID(0)).raw, 0);
}

#[test]
fn a_catalogue_can_be_built_by_hand() {
    let mut rules = AlchemyRules::new();
    rules.particle_types.push(ParticleTypeDefinition {
        name: "Neutron".to_string(),
        default_mass: fx(2_000_000),
        default_color: Color { red: 1, green: 2, blue: 3, alpha: 4 },
        emits_field: None,
        emission_shape: FieldShape::new_linear_falloff(fx(50_000_000), fx(1_000_000)),
    });
    assert_eq!(rules.particle_types.len(), 1);
    assert_eq!(rules.particle_types[0].emits_field, None);
    assert_eq!(rules.particle_types[0].default_color.alpha, 4);
}
