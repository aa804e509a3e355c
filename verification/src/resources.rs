//! The rules of a universe: its constants, the shapes of its fields, the
//! catalogue of particle types and the weights of their interactions.

use crate::components::FieldTypeID;
use crate::curve::bake;
use crate::curve::baked;
use crate::curve::lemma_sorted_by_x;
use crate::curve::lemma_sorted_by_x_of_ascending;
use crate::curve::parameter;
use crate::curve::sample_curve;
use crate::curve::sampled;
use crate::curve::segment_from;
use crate::curve::sorted_by_x;
use crate::curve::CurvePoint;
use crate::curve::LUT_SIZE;
use crate::fixed::Fixed;
use crate::fixed::SCALE;
use std::collections::HashMap;
use vstd::prelude::*;

verus! {

/// The constants of a universe.
#[derive(Clone, Copy, Debug, PartialEq, Eq, Structural)]
pub struct GlobalConstants {
    /// The largest speed a particle keeps; positive.
    pub light_speed: Fixed,
    /// How fast simulated time runs against measured time; not negative.
    pub time_scale: Fixed,
    pub bloom_enabled: bool,
    pub bloom_intensity: Fixed,
}

impl GlobalConstants {
    /// The speed limit is positive and time does not run backwards.
    pub open spec fn well_formed(&self) -> bool {
        self.light_speed.raw > 0 && self.time_scale.raw >= 0
    }
}

impl Default for GlobalConstants {
    fn default() -> (r: GlobalConstants)
        ensures
            r.light_speed == Fixed::spec_from_int(1000),
            r.time_scale == Fixed::spec_one(),
            r.bloom_enabled,
            r.bloom_intensity.raw == 300_000,
            r.well_formed(),
    {
        GlobalConstants {
            light_speed: Fixed::from_int(1000),
            time_scale: Fixed::one(),
            bloom_enabled: true,
            bloom_intensity: Fixed::from_raw(300_000),
        }
    }
}

/// How the field of a particle type falls off with distance.
#[derive(Clone, Debug)]
pub struct FieldShape {
    /// The distance beyond which the field is not felt; positive.
    pub max_radius: Fixed,
    /// The factor by which every sample is multiplied.
    pub strength_scale: Fixed,
    /// The control points, in the order in which they were edited.
    pub points: Vec<CurvePoint>,
    /// The table baked from the points.
    pub lut: Vec<Fixed>,
}

impl FieldShape {
    /// The table is complete and the radius positive: what the physics
    /// needs to read the shape.
    pub open spec fn well_formed(&self) -> bool {
        self.max_radius.raw > 0 && self.lut@.len() == LUT_SIZE
    }

    /// The table is the one baked from the points as they stand.
    pub open spec fn is_baked(&self) -> bool {
        self.lut@ == baked(self.points@)
    }

    /// The two points of a straight fall from one at the centre to zero at
    /// the radius.
    pub open spec fn linear_points() -> Seq<CurvePoint> {
        seq![
            CurvePoint { x: Fixed::spec_zero(), y: Fixed::spec_one() },
            CurvePoint { x: Fixed::spec_one(), y: Fixed::spec_zero() },
        ]
    }

    /// The table of the straight fall: sample `i` is one less the
    /// parameter of `i`, so the samples never rise.
    pub proof fn lemma_linear_table(i: int)
        requires
            0 <= i < LUT_SIZE,
        ensures
            baked(Self::linear_points())[i].raw == SCALE - (i * SCALE) / (LUT_SIZE - 1),
            forall|j: int|
                i <= j < LUT_SIZE ==> baked(Self::linear_points())[i].raw >= (#[trigger] baked(
                    Self::linear_points(),
                )[j]).raw,
    {
        lemma_sorted_by_x_of_ascending(Self::linear_points());
        Self::lemma_linear_sample(i);
        assert forall|j: int| i <= j < LUT_SIZE implies baked(Self::linear_points())[i].raw >= (
        #[trigger] baked(Self::linear_points())[j]).raw by {
            Self::lemma_linear_sample(j);
        }
    }

    proof fn lemma_linear_sample(i: int)
        requires
            0 <= i < LUT_SIZE,
        ensures
            sampled(Self::linear_points(), parameter(i)).raw == SCALE - (i * SCALE) / (LUT_SIZE
                - 1),
    {
        let pts = Self::linear_points();
        let t = parameter(i);
        if 0 < t.raw < SCALE {
            assert(segment_from(pts, t, 0) == 0);
            let fall = pts[1].y.spec_minus(pts[0].y);
            assert(fall.raw == -SCALE);
            let along = t.spec_minus(pts[0].x);
            assert(along == t);
            assert(fall.raw * along.raw == -(SCALE * t.raw)) by (nonlinear_arith)
                requires
                    fall.raw == -SCALE,
                    along.raw == t.raw,
            ;
            assert(fall.spec_times(along).raw == -t.raw);
        }
    }

    /// A shape that falls in a straight line from full strength at the
    /// centre to nothing at `radius`, baked.
    pub fn new_linear_falloff(radius: Fixed, strength: Fixed) -> (shape: FieldShape)
        ensures
            shape.max_radius == radius,
            shape.strength_scale == strength,
            shape.points@ == Self::linear_points(),
            shape.lut@ == baked(Self::linear_points()),
            shape.is_baked(),
            forall|i: int|
                0 <= i < LUT_SIZE ==> (#[trigger] shape.lut@[i]).raw == SCALE - (i * SCALE) / (
                LUT_SIZE - 1),
            forall|i: int, j: int|
                0 <= i <= j < LUT_SIZE ==> shape.lut@[i].raw >= shape.lut@[j].raw,
    {
        let mut points: Vec<CurvePoint> = Vec::new();
        points.push(CurvePoint { x: Fixed::zero(), y: Fixed::one() });
        points.push(CurvePoint { x: Fixed::one(), y: Fixed::zero() });
        proof {
            assert(points@ =~= Self::linear_points());
        }
        let mut shape = FieldShape {
            max_radius: radius,
            strength_scale: strength,
            points,
            lut: Vec::new(),
        };
        shape.bake_lut();
        proof {
            lemma_sorted_by_x_of_ascending(Self::linear_points());
            assert forall|i: int| 0 <= i < LUT_SIZE implies (#[trigger] shape.lut@[i]).raw == SCALE
                - (i * SCALE) / (LUT_SIZE - 1) by {
                Self::lemma_linear_table(i);
            }
            assert forall|i: int, j: int| 0 <= i <= j < LUT_SIZE implies shape.lut@[i].raw
                >= shape.lut@[j].raw by {
                Self::lemma_linear_table(i);
            }
        }
        shape
    }

    /// Sorts the points by `x` and bakes the table anew.
    pub fn bake_lut(&mut self)
        ensures
            final(self).max_radius == old(self).max_radius,
            final(self).strength_scale == old(self).strength_scale,
            final(self).points@ == sorted_by_x(old(self).points@),
            final(self).lut@ == baked(old(self).points@),
            final(self).lut@.len() == LUT_SIZE,
            final(self).is_baked(),
    {
        let lut = bake(&mut self.points);
        self.lut = lut;
        proof {
            lemma_sorted_by_x(old(self).points@);
            lemma_sorted_by_x_of_ascending(sorted_by_x(old(self).points@));
            assert(baked(self.points@) =~= baked(old(self).points@));
        }
    }

    /// The curve through the points, as they stand, at `t`.
    pub fn sample_points(&self, t: Fixed) -> (value: Fixed)
        ensures
            value == sampled(self.points@, t),
    {
        sample_curve(&self.points, t)
    }
}

/// A colour, carried from the catalogue to whatever draws the particles.
#[derive(Clone, Copy, Debug, PartialEq, Eq, Structural)]
pub struct Color {
    pub red: u8,
    pub green: u8,
    pub blue: u8,
    pub alpha: u8,
}

/// The blueprint of a particle type.
#[derive(Clone, Debug)]
pub struct ParticleTypeDefinition {
    pub name: String,
    pub default_mass: Fixed,
    pub default_color: Color,
    /// The field that particles of this type emit, if they emit one.
    pub emits_field: Option<FieldTypeID>,
    pub emission_shape: FieldShape,
}

/// The key under which the weight of `field` on particles of type
/// `subject` is kept: one number made of the two.
pub open spec fn interaction_key(subject: usize, field: FieldTypeID) -> u128 {
    (subject * 0x1_0000_0000_0000_0000 + field.0) as u128
}

/// Two pairs share a key only where they are the same pair.
pub proof fn lemma_interaction_key_injective(s1: usize, f1: FieldTypeID, s2: usize, f2: FieldTypeID)
    requires
        interaction_key(s1, f1) == interaction_key(s2, f2),
    ensures
        s1 == s2,
        f1 == f2,
{
}

fn key_of(subject: usize, field: FieldTypeID) -> (key: u128)
    ensures
        key == interaction_key(subject, field),
{
    (subject as u128) * 0x1_0000_0000_0000_0000u128 + (field.0 as u128)
}

/// The catalogue of particle types and the weights with which each type
/// answers to each field.
pub struct AlchemyRules {
    /// The particle types; the index of a type is its identifier.
    pub particle_types: Vec<ParticleTypeDefinition>,
    /// The weights that were set, each under its `interaction_key`.
    pub interactions: HashMap<u128, Fixed>,
}

impl Color {
    pub open spec fn spec_red() -> Color {
        Color { red: 255, green: 0, blue: 0, alpha: 255 }
    }

    pub open spec fn spec_blue() -> Color {
        Color { red: 0, green: 0, blue: 255, alpha: 255 }
    }

    pub fn red() -> (c: Color)
        ensures
            c == Self::spec_red(),
    {
        Color { red: 255, green: 0, blue: 0, alpha: 255 }
    }

    pub fn blue() -> (c: Color)
        ensures
            c == Self::spec_blue(),
    {
        Color { red: 0, green: 0, blue: 255, alpha: 255 }
    }
}

impl ParticleTypeDefinition {
    /// A type of the starting catalogue: mass one, emitting `field` with a
    /// straight fall over a radius of 300 and a strength of 1000.
    pub open spec fn is_starting_type(&self, name: Seq<char>, color: Color, field: usize) -> bool {
        &&& self.name@ == name
        &&& self.default_mass == Fixed::spec_one()
        &&& self.default_color == color
        &&& self.emits_field == Some(FieldTypeID(field))
        &&& self.emission_shape.max_radius == Fixed::spec_from_int(300)
        &&& self.emission_shape.strength_scale == Fixed::spec_from_int(1000)
        &&& self.emission_shape.points@ == FieldShape::linear_points()
        &&& self.emission_shape.lut@ == baked(FieldShape::linear_points())
    }
}

/// The weights of the starting catalogue: one between a type and its own
/// field, minus two between a type and the field of the other.
pub open spec fn starting_weight(subject: usize, field: FieldTypeID) -> Fixed {
    if subject >= 2 || field.0 >= 2 {
        Fixed::spec_zero()
    } else if subject == field.0 {
        Fixed::spec_one()
    } else {
        Fixed::saturate(-2 * SCALE)
    }
}

impl Default for AlchemyRules {
    /// The starting catalogue: protons and electrons.
    fn default() -> (rules: AlchemyRules)
        ensures
            rules.particle_types@.len() == 2,
            rules.particle_types@[0].is_starting_type("Proton"@, Color::spec_red(), 0),
            rules.particle_types@[1].is_starting_type("Electron"@, Color::spec_blue(), 1),
            forall|s: usize, f: FieldTypeID| #[trigger]
                rules.spec_weight(s, f) == starting_weight(s, f),
            rules.well_formed(),
    {
        let mut rules = AlchemyRules::new();
        rules.particle_types.push(
            ParticleTypeDefinition {
                name: "Proton".to_owned(),
                default_mass: Fixed::one(),
                default_color: Color::red(),
                emits_field: Some(FieldTypeID(0)),
                emission_shape: FieldShape::new_linear_falloff(
                    Fixed::from_int(300),
                    Fixed::from_int(1000),
                ),
            },
        );
        rules.particle_types.push(
            ParticleTypeDefinition {
                name: "Electron".to_owned(),
                default_mass: Fixed::one(),
                default_color: Color::blue(),
                emits_field: Some(FieldTypeID(1)),
                emission_shape: FieldShape::new_linear_falloff(
                    Fixed::from_int(300),
                    Fixed::from_int(1000),
                ),
            },
        );
        rules.set_weight(0, FieldTypeID(0), Fixed::one());
        rules.set_weight(1, FieldTypeID(1), Fixed::one());
        rules.set_weight(0, FieldTypeID(1), Fixed::from_int(-2));
        rules.set_weight(1, FieldTypeID(0), Fixed::from_int(-2));
        rules
    }
}

impl AlchemyRules {
    /// The weight with which particles of type `subject` answer to
    /// `field`: zero unless one was set.
    pub open spec fn spec_weight(&self, subject: usize, field: FieldTypeID) -> Fixed {
        if self.interactions@.contains_key(interaction_key(subject, field)) {
            self.interactions@[interaction_key(subject, field)]
        } else {
            Fixed::spec_zero()
        }
    }

    /// Every shape in the catalogue can be read by the physics.
    pub open spec fn well_formed(&self) -> bool {
        forall|i: int|
            0 <= i < self.particle_types@.len()
                ==> (#[trigger] self.particle_types@[i]).emission_shape.well_formed()
    }

    /// Rules without particle types and without weights.
    pub fn new() -> (rules: AlchemyRules)
        ensures
            rules.particle_types@.len() == 0,
            rules.interactions@ == Map::<u128, Fixed>::empty(),
            rules.well_formed(),
            forall|s: usize, f: FieldTypeID| #[trigger]
                rules.spec_weight(s, f) == Fixed::spec_zero(),
    {
        AlchemyRules { particle_types: Vec::new(), interactions: HashMap::new() }
    }

    /// The weight with which particles of type `subject` answer to `field`.
    pub fn weight(&self, subject: usize, field: FieldTypeID) -> (w: Fixed)
        ensures
            w == self.spec_weight(subject, field),
    {
        broadcast use vstd::std_specs::hash::group_hash_axioms;

        let key = key_of(subject, field);
        match self.interactions.get(&key) {
            Some(w) => *w,
            None => Fixed::zero(),
        }
    }

    /// Sets the weight with which particles of type `subject` answer to
    /// `field`, and leaves every other weight as it was.
    pub fn set_weight(&mut self, subject: usize, field: FieldTypeID, w: Fixed)
        ensures
            final(self).particle_types == old(self).particle_types,
            final(self).interactions@ == old(self).interactions@.insert(
                interaction_key(subject, field),
                w,
            ),
            final(self).spec_weight(subject, field) == w,
            forall|s: usize, f: FieldTypeID|
                s != subject || f != field ==> #[trigger] final(self).spec_weight(s, f) == old(
                    self,
                ).spec_weight(s, f),
    {
        broadcast use vstd::std_specs::hash::group_hash_axioms;

        let key = key_of(subject, field);
        self.interactions.insert(key, w);
        proof {
            assert forall|s: usize, f: FieldTypeID| s != subject || f != field implies self.spec_weight(
                s,
                f,
            ) == old(self).spec_weight(s, f) by {
                if interaction_key(s, f) == interaction_key(subject, field) {
                    lemma_interaction_key_injective(s, f, subject, field);
                }
            }
        }
    }
}

} // verus!
