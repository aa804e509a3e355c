//! What the drawing of a field needs from its shape: a row of pixels
//! for the table, and the brightness and size of the disc.

use crate::curve::index_at;
use crate::curve::index_of;
use crate::curve::LUT_SIZE;
use crate::fixed::Fixed;
use crate::fixed::SCALE;
use crate::resources::FieldShape;
use crate::resources::ParticleTypeDefinition;
use vstd::prelude::*;

verus! {

/// The least brightness of a disc, in raw units: 0.2.
pub const MIN_INTENSITY_RAW: i64 = 200_000;

/// The greatest brightness of a disc, in raw units: 2.
pub const MAX_INTENSITY_RAW: i64 = 2_000_000;

/// The change of brightness, in raw units, up to which a disc is left as
/// it is: 0.01.
pub const INTENSITY_TOLERANCE_RAW: i64 = 10_000;

/// The change of size, in raw units, up to which a disc is left as it
/// is: 0.1.
pub const SCALE_TOLERANCE_RAW: i64 = 100_000;

/// The number of pixels in the row that shows the table of a shape.
pub const TEXTURE_WIDTH: u32 = 128;

/// How the disc of a field is drawn.
#[derive(Clone, Copy, Debug, PartialEq, Eq, Structural)]
pub struct FieldVisual {
    /// The brightness of the disc.
    pub intensity: Fixed,
    /// The radius of the disc.
    pub scale: Fixed,
}

/// The brightness of a pixel for a sample: the size of the sample times
/// 255, rounded down, and 255 at most.
pub open spec fn brightness(value: Fixed) -> u8 {
    let level = value.spec_magnitude().spec_times(Fixed::spec_from_int(255)).raw / SCALE;
    if level > 255 {
        255
    } else {
        level as u8
    }
}

/// The index of the sample for pixel `i` in a row of `width` pixels:
/// that of `i` as a share of `width - 1`, and the first in a row of one
/// pixel.
pub open spec fn pixel_index(i: u32, width: u32) -> int {
    if width <= 1 {
        0
    } else {
        index_at(i as int, width - 1)
    }
}

/// The brightness of pixel `i` in a row of `width` pixels for `shape`.
pub open spec fn pixel(shape: FieldShape, i: u32, width: u32) -> u8 {
    brightness(shape.lut@[pixel_index(i, width)])
}

/// Byte `b` of the texture `data` after the first `n` of `width` pixels
/// were painted for `shape`. A pixel takes four bytes, and is painted
/// where all four lie within `data`: three times its brightness, then 255.
pub open spec fn painted(data: Seq<u8>, n: int, width: u32, shape: FieldShape, b: int) -> u8 {
    let i = b / 4;
    if i < n && 4 * i + 3 < data.len() {
        if b % 4 == 3 {
            255
        } else {
            pixel(shape, i as u32, width)
        }
    } else {
        data[b]
    }
}

/// The brightness of the disc of a field of shape `shape`: a thousandth
/// of its strength, kept between 0.2 and 2.
pub open spec fn target_intensity(shape: FieldShape) -> Fixed {
    let wanted = shape.strength_scale.spec_over(Fixed::spec_from_int(1000));
    if wanted.raw < MIN_INTENSITY_RAW {
        Fixed { raw: MIN_INTENSITY_RAW }
    } else if wanted.raw > MAX_INTENSITY_RAW {
        Fixed { raw: MAX_INTENSITY_RAW }
    } else {
        wanted
    }
}

/// `current` where it is within `tolerance` of `target`, else `target`.
pub open spec fn followed(current: Fixed, target: Fixed, tolerance: i64) -> Fixed {
    if current.spec_minus(target).spec_magnitude().raw > tolerance {
        target
    } else {
        current
    }
}

/// `visual` brought up to `shape`: brightness and size follow the shape
/// where they differ from it by more than their tolerance.
pub open spec fn synced(visual: FieldVisual, shape: FieldShape) -> FieldVisual {
    FieldVisual {
        intensity: followed(visual.intensity, target_intensity(shape), INTENSITY_TOLERANCE_RAW),
        scale: followed(visual.scale, shape.max_radius, SCALE_TOLERANCE_RAW),
    }
}

/// The disc with which a new particle of the type `def` is drawn: none
/// where the type emits no field.
pub open spec fn spec_initial_visual(def: ParticleTypeDefinition) -> Option<FieldVisual> {
    if def.emits_field.is_some() {
        Some(
            FieldVisual {
                intensity: target_intensity(def.emission_shape),
                scale: def.emission_shape.max_radius,
            },
        )
    } else {
        None
    }
}

/// The brightness of a pixel for a sample.
pub fn brightness_of(value: Fixed) -> (level: u8)
    ensures
        level == brightness(value),
{
    let scaled = value.magnitude().times(Fixed::from_int(255));
    let level: i64 = scaled.raw / SCALE;
    if level > 255 {
        255
    } else {
        level as u8
    }
}

/// The brightness of pixel `i` in a row of `width` pixels for `shape`.
pub fn pixel_of(shape: &FieldShape, i: u32, width: u32) -> (level: u8)
    requires
        shape.lut@.len() == LUT_SIZE,
    ensures
        level == pixel(*shape, i, width),
{
    let index: usize = if width <= 1 {
        0
    } else {
        index_of(i as i64, (width - 1) as i64)
    };
    brightness_of(shape.lut[index])
}

/// Paints the table of `shape` into the texture `data`, a row of `width`
/// pixels of four bytes each. Bytes behind the row, and pixels that do
/// not lie within `data` with all their bytes, stay as they are.
pub fn update_texture_from_shape(data: &mut Vec<u8>, width: u32, shape: &FieldShape)
    requires
        shape.lut@.len() == LUT_SIZE,
    ensures
        final(data)@.len() == old(data)@.len(),
        forall|b: int|
            0 <= b < old(data)@.len() ==> #[trigger] final(data)@[b] == painted(
                old(data)@,
                width as int,
                width,
                *shape,
                b,
            ),
{
    let len: usize = data.len();
    let mut i: u32 = 0;
    while i < width
        invariant
            i <= width,
            len == data.len(),
            len == old(data)@.len(),
            shape.lut@.len() == LUT_SIZE,
            forall|b: int|
                0 <= b < len ==> #[trigger] data@[b] == painted(
                    old(data)@,
                    i as int,
                    width,
                    *shape,
                    b,
                ),
        decreases width - i,
    {
        let first: u64 = i as u64 * 4;
        if first + 3 < len as u64 {
            let level = pixel_of(shape, i, width);
            let at: usize = first as usize;
            let ghost before = data@;
            data.set(at, level);
            data.set(at + 1, level);
            data.set(at + 2, level);
            data.set(at + 3, 255);
            proof {
                assert forall|b: int| 0 <= b < len implies #[trigger] data@[b] == painted(
                    old(data)@,
                    i + 1,
                    width,
                    *shape,
                    b,
                ) by {
                    assert(before[b] == painted(old(data)@, i as int, width, *shape, b));
                }
            }
        }
        i += 1;
    }
}

/// A texture of one row of `TEXTURE_WIDTH` pixels that shows the table
/// of `shape`: each pixel three times its brightness, then 255.
pub fn new_texture(shape: &FieldShape) -> (data: Vec<u8>)
    requires
        shape.lut@.len() == LUT_SIZE,
    ensures
        data@.len() == 4 * TEXTURE_WIDTH,
        forall|b: int|
            0 <= b < 4 * TEXTURE_WIDTH ==> #[trigger] data@[b] == if b % 4 == 3 {
                255u8
            } else {
                pixel(*shape, (b / 4) as u32, TEXTURE_WIDTH)
            },
{
    let mut data: Vec<u8> = Vec::new();
    let mut b: u32 = 0;
    while b < 4 * TEXTURE_WIDTH
        invariant
            b <= 4 * TEXTURE_WIDTH,
            data@.len() == b,
        decreases 4 * TEXTURE_WIDTH - b,
    {
        data.push(255);
        b += 1;
    }
    update_texture_from_shape(&mut data, TEXTURE_WIDTH, shape);
    data
}

/// The brightness of the disc of a field of shape `shape`.
pub fn intensity_of(shape: &FieldShape) -> (intensity: Fixed)
    ensures
        intensity == target_intensity(*shape),
{
    let wanted = shape.strength_scale.over(Fixed::from_int(1000));
    if wanted.raw < MIN_INTENSITY_RAW {
        Fixed { raw: MIN_INTENSITY_RAW }
    } else if wanted.raw > MAX_INTENSITY_RAW {
        Fixed { raw: MAX_INTENSITY_RAW }
    } else {
        wanted
    }
}

fn follow(current: Fixed, target: Fixed, tolerance: i64) -> (r: Fixed)
    ensures
        r == followed(current, target, tolerance),
{
    if current.minus(target).magnitude().raw > tolerance {
        target
    } else {
        current
    }
}

/// Brings the disc of a field up to its shape: the brightness where it
/// is off by more than 0.01, the size where it is off by more than 0.1.
pub fn sync_field_visualization(visual: &mut FieldVisual, shape: &FieldShape)
    ensures
        *final(visual) == synced(*old(visual), *shape),
{
    let intensity = follow(visual.intensity, intensity_of(shape), INTENSITY_TOLERANCE_RAW);
    let scale = follow(visual.scale, shape.max_radius, SCALE_TOLERANCE_RAW);
    visual.intensity = intensity;
    visual.scale = scale;
}

/// The disc with which a new particle of the type `def` is drawn.
pub fn initial_visual(def: &ParticleTypeDefinition) -> (visual: Option<FieldVisual>)
    ensures
        visual == spec_initial_visual(*def),
{
    if def.emits_field.is_some() {
        Some(
            FieldVisual {
                intensity: intensity_of(&def.emission_shape),
                scale: def.emission_shape.max_radius,
            },
        )
    } else {
        None
    }
}

} // verus!
