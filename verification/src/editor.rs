//! What the editing of a universe may do to its rules. Every edit keeps
//! the values within the bounds of the editor, and an edit of a shape
//! leaves the shape baked.

use crate::curve::baked;
use crate::curve::sorted_by_x;
use crate::curve::CurvePoint;
use crate::curve::LUT_SIZE;
use crate::fixed::Fixed;
use crate::resources::FieldShape;
use crate::resources::GlobalConstants;
use vstd::prelude::*;

verus! {

/// The least speed of light that can be set, in raw units: 100.
pub const MIN_LIGHT_SPEED_RAW: i64 = 100_000_000;

/// The greatest speed of light that can be set, in raw units: 5000.
pub const MAX_LIGHT_SPEED_RAW: i64 = 5_000_000_000;

/// The greatest time scale that can be set, in raw units: 5.
pub const MAX_TIME_SCALE_RAW: i64 = 5_000_000;

/// The least radius of a shape that can be set, in raw units: 50.
pub const MIN_RADIUS_RAW: i64 = 50_000_000;

/// The greatest radius of a shape that can be set, in raw units: 1000.
pub const MAX_RADIUS_RAW: i64 = 1_000_000_000;

/// The greatest strength of a shape that can be set, in raw units: 5000.
pub const MAX_STRENGTH_RAW: i64 = 5_000_000_000;

/// The greatest distance of a point that can be set, in raw units: 1.
pub const MAX_POINT_X_RAW: i64 = 1_000_000;

/// The least value of a point that can be set, in raw units: -1.
pub const MIN_POINT_Y_RAW: i64 = -1_000_000;

/// The greatest value of a point that can be set, in raw units: 1.
pub const MAX_POINT_Y_RAW: i64 = 1_000_000;

/// Either coordinate of a point that is added, in raw units: 0.5.
pub const NEW_POINT_RAW: i64 = 500_000;

/// An edit of a field shape.
#[derive(Clone, Copy, Debug, PartialEq, Eq, Structural)]
pub enum ShapeEdit {
    /// Sets the radius, kept between 50 and 1000.
    MaxRadius(Fixed),
    /// Sets the strength, kept between 0 and 5000.
    StrengthScale(Fixed),
    /// Sets the distance of the point with the given index, kept between
    /// 0 and 1.
    PointX(usize, Fixed),
    /// Sets the value of the point with the given index, kept between -1
    /// and 1.
    PointY(usize, Fixed),
    /// Removes the point with the given index.
    RemovePoint(usize),
    /// Adds a point at (0.5, 0.5) behind the others.
    AddPoint,
}

/// `value` kept between the raw bounds `low` and `high`.
pub open spec fn kept_within(value: Fixed, low: i64, high: i64) -> Fixed {
    value.spec_clamped(Fixed { raw: low }, Fixed { raw: high })
}

/// Whether `edit` can be made of `points`: an edit of a point needs the
/// point to be there.
pub open spec fn can_edit(points: Seq<CurvePoint>, edit: ShapeEdit) -> bool {
    match edit {
        ShapeEdit::PointX(i, _) => i < points.len(),
        ShapeEdit::PointY(i, _) => i < points.len(),
        ShapeEdit::RemovePoint(i) => i < points.len(),
        _ => true,
    }
}

/// The radius of a shape of radius `radius` after `edit`.
pub open spec fn edited_radius(radius: Fixed, edit: ShapeEdit) -> Fixed {
    match edit {
        ShapeEdit::MaxRadius(r) => kept_within(r, MIN_RADIUS_RAW, MAX_RADIUS_RAW),
        _ => radius,
    }
}

/// The strength of a shape of strength `strength` after `edit`.
pub open spec fn edited_strength(strength: Fixed, edit: ShapeEdit) -> Fixed {
    match edit {
        ShapeEdit::StrengthScale(s) => kept_within(s, 0, MAX_STRENGTH_RAW),
        _ => strength,
    }
}

/// The points `points` after `edit`, before they are sorted again.
pub open spec fn edited_points(points: Seq<CurvePoint>, edit: ShapeEdit) -> Seq<CurvePoint> {
    match edit {
        ShapeEdit::PointX(i, x) => points.update(
            i as int,
            CurvePoint { x: kept_within(x, 0, MAX_POINT_X_RAW), y: points[i as int].y },
        ),
        ShapeEdit::PointY(i, y) => points.update(
            i as int,
            CurvePoint { x: points[i as int].x, y: kept_within(y, MIN_POINT_Y_RAW, MAX_POINT_Y_RAW) },
        ),
        ShapeEdit::RemovePoint(i) => points.remove(i as int),
        ShapeEdit::AddPoint => points.push(
            CurvePoint { x: Fixed { raw: NEW_POINT_RAW }, y: Fixed { raw: NEW_POINT_RAW } },
        ),
        _ => points,
    }
}

/// Sets the speed of light, kept between 100 and 5000.
pub fn set_light_speed(constants: &mut GlobalConstants, value: Fixed)
    ensures
        final(constants).light_speed == kept_within(
            value,
            MIN_LIGHT_SPEED_RAW,
            MAX_LIGHT_SPEED_RAW,
        ),
        final(constants).time_scale == old(constants).time_scale,
        final(constants).bloom_enabled == old(constants).bloom_enabled,
        final(constants).bloom_intensity == old(constants).bloom_intensity,
        old(constants).well_formed() ==> final(constants).well_formed(),
{
    constants.light_speed = value.clamped(
        Fixed { raw: MIN_LIGHT_SPEED_RAW },
        Fixed { raw: MAX_LIGHT_SPEED_RAW },
    );
}

/// Sets the time scale, kept between 0 and 5.
pub fn set_time_scale(constants: &mut GlobalConstants, value: Fixed)
    ensures
        final(constants).time_scale == kept_within(value, 0, MAX_TIME_SCALE_RAW),
        final(constants).light_speed == old(constants).light_speed,
        final(constants).bloom_enabled == old(constants).bloom_enabled,
        final(constants).bloom_intensity == old(constants).bloom_intensity,
        old(constants).well_formed() ==> final(constants).well_formed(),
{
    constants.time_scale = value.clamped(Fixed { raw: 0 }, Fixed { raw: MAX_TIME_SCALE_RAW });
}

/// Makes `edit` of `shape` and bakes the shape anew, where the edit can
/// be made; else leaves the shape as it is. The result says whether the
/// edit was made.
pub fn edit_shape(shape: &mut FieldShape, edit: ShapeEdit) -> (made: bool)
    ensures
        made == can_edit(old(shape).points@, edit),
        !made ==> *final(shape) == *old(shape),
        made ==> {
            &&& final(shape).max_radius == edited_radius(old(shape).max_radius, edit)
            &&& final(shape).strength_scale == edited_strength(old(shape).strength_scale, edit)
            &&& final(shape).points@ == sorted_by_x(edited_points(old(shape).points@, edit))
            &&& final(shape).lut@ == baked(edited_points(old(shape).points@, edit))
            &&& final(shape).lut@.len() == LUT_SIZE
            &&& final(shape).is_baked()
        },
        made && old(shape).max_radius.raw > 0 ==> final(shape).well_formed(),
{
    match edit {
        ShapeEdit::MaxRadius(r) => {
            shape.max_radius = r.clamped(
                Fixed { raw: MIN_RADIUS_RAW },
                Fixed { raw: MAX_RADIUS_RAW },
            );
        },
        ShapeEdit::StrengthScale(s) => {
            shape.strength_scale = s.clamped(Fixed { raw: 0 }, Fixed { raw: MAX_STRENGTH_RAW });
        },
        ShapeEdit::PointX(i, x) => {
            if i >= shape.points.len() {
                return false;
            }
            let y = shape.points[i].y;
            let x = x.clamped(Fixed { raw: 0 }, Fixed { raw: MAX_POINT_X_RAW });
            shape.points.set(i, CurvePoint { x, y });
        },
        ShapeEdit::PointY(i, y) => {
            if i >= shape.points.len() {
                return false;
            }
            let x = shape.points[i].x;
            let y = y.clamped(Fixed { raw: MIN_POINT_Y_RAW }, Fixed { raw: MAX_POINT_Y_RAW });
            shape.points.set(i, CurvePoint { x, y });
        },
        ShapeEdit::RemovePoint(i) => {
            if i >= shape.points.len() {
                return false;
            }
            shape.points.remove(i);
        },
        ShapeEdit::AddPoint => {
            shape.points.push(
                CurvePoint { x: Fixed { raw: NEW_POINT_RAW }, y: Fixed { raw: NEW_POINT_RAW } },
            );
        },
    }
    shape.bake_lut();
    true
}

} // verus!
