//! Vectors in the plane, over fixed-point numbers.

use crate::fixed::Fixed;
use vstd::prelude::*;

verus! {

/// A point or a direction in the plane.
#[derive(Clone, Copy, Debug, PartialEq, Eq, Structural)]
pub struct Vec2 {
    pub x: Fixed,
    pub y: Fixed,
}

impl Vec2 {
    pub open spec fn spec_zero() -> Vec2 {
        Vec2 { x: Fixed::spec_zero(), y: Fixed::spec_zero() }
    }

    pub open spec fn spec_plus(self, rhs: Vec2) -> Vec2 {
        Vec2 { x: self.x.spec_plus(rhs.x), y: self.y.spec_plus(rhs.y) }
    }

    pub open spec fn spec_minus(self, rhs: Vec2) -> Vec2 {
        Vec2 { x: self.x.spec_minus(rhs.x), y: self.y.spec_minus(rhs.y) }
    }

    /// Both components multiplied by `factor`.
    pub open spec fn spec_scaled(self, factor: Fixed) -> Vec2 {
        Vec2 { x: self.x.spec_times(factor), y: self.y.spec_times(factor) }
    }

    /// Both components divided by `divisor`.
    pub open spec fn spec_shrunk(self, divisor: Fixed) -> Vec2 {
        Vec2 { x: self.x.spec_over(divisor), y: self.y.spec_over(divisor) }
    }

    pub open spec fn spec_length(self) -> Fixed {
        Fixed::spec_hypot(self.x, self.y)
    }

    /// The vector divided by its own length.
    pub open spec fn spec_normalized(self) -> Vec2 {
        self.spec_shrunk(self.spec_length())
    }

    pub fn new(x: Fixed, y: Fixed) -> (r: Vec2)
        ensures
            r == (Vec2 { x, y }),
    {
        Vec2 { x, y }
    }

    pub fn zero() -> (r: Vec2)
        ensures
            r == Self::spec_zero(),
    {
        Vec2 { x: Fixed::zero(), y: Fixed::zero() }
    }

    pub fn plus(self, rhs: Vec2) -> (r: Vec2)
        ensures
            r == self.spec_plus(rhs),
    {
        Vec2 { x: self.x.plus(rhs.x), y: self.y.plus(rhs.y) }
    }

    pub fn minus(self, rhs: Vec2) -> (r: Vec2)
        ensures
            r == self.spec_minus(rhs),
    {
        Vec2 { x: self.x.minus(rhs.x), y: self.y.minus(rhs.y) }
    }

    pub fn scaled(self, factor: Fixed) -> (r: Vec2)
        ensures
            r == self.spec_scaled(factor),
    {
        Vec2 { x: self.x.times(factor), y: self.y.times(factor) }
    }

    /// Division of both components; the divisor must not be zero.
    pub fn shrunk(self, divisor: Fixed) -> (r: Vec2)
        requires
            divisor.raw != 0,
        ensures
            r == self.spec_shrunk(divisor),
    {
        Vec2 { x: self.x.over(divisor), y: self.y.over(divisor) }
    }

    pub fn length(self) -> (r: Fixed)
        ensures
            r == self.spec_length(),
    {
        Fixed::hypot(self.x, self.y)
    }

    /// The direction of the vector; its length must not be zero.
    pub fn normalized(self) -> (r: Vec2)
        requires
            self.spec_length().raw != 0,
        ensures
            r == self.spec_normalized(),
    {
        let len = self.length();
        self.shrunk(len)
    }
}

} // verus!
