//! Vectors of three numbers, and the arithmetic the kernel does on them.

use crate::scalar::Scalar;
use vstd::prelude::*;

verus! {

/// A point or a direction in space.
#[derive(Clone, Copy, Debug, PartialEq, Eq, Structural)]
pub struct Vector {
    pub x: Scalar,
    pub y: Scalar,
    pub z: Scalar,
}

impl Vector {
    /// `self + other`, part by part.
    pub open spec fn sum(self, other: Vector) -> Vector {
        Vector { x: self.x.sum(other.x), y: self.y.sum(other.y), z: self.z.sum(other.z) }
    }

    /// `self - other`, part by part.
    pub open spec fn difference(self, other: Vector) -> Vector {
        Vector {
            x: self.x.difference(other.x),
            y: self.y.difference(other.y),
            z: self.z.difference(other.z),
        }
    }

    /// Each part times `factor`.
    pub open spec fn scaled(self, factor: Scalar) -> Vector {
        Vector {
            x: self.x.product(factor),
            y: self.y.product(factor),
            z: self.z.product(factor),
        }
    }

    /// Each part divided by `divisor`.
    pub open spec fn shrunk(self, divisor: Scalar) -> Vector {
        Vector {
            x: self.x.quotient(divisor),
            y: self.y.quotient(divisor),
            z: self.z.quotient(divisor),
        }
    }

    /// The vector that points the other way.
    pub open spec fn negation(self) -> Vector {
        Vector { x: self.x.negation(), y: self.y.negation(), z: self.z.negation() }
    }

    /// The scalar product, summed from the left and rounded at every step.
    pub open spec fn dot(self, other: Vector) -> Scalar {
        self.x.product(other.x).sum(self.y.product(other.y)).sum(self.z.product(other.z))
    }

    /// The length: the square root of the scalar product with itself.
    pub open spec fn length(self) -> Scalar {
        self.dot(self).root()
    }

    /// The vector of length one that points the same way.
    pub open spec fn direction(self) -> Vector {
        self.shrunk(self.length())
    }

    /// The vector of the given parts.
    pub fn new(x: Scalar, y: Scalar, z: Scalar) -> (v: Self)
        ensures
            v == (Vector { x, y, z }),
    {
        Self { x, y, z }
    }

    /// `self + other`.
    pub fn plus(self, other: Vector) -> (v: Vector)
        ensures
            v == self.sum(other),
    {
        Vector { x: self.x.plus(other.x), y: self.y.plus(other.y), z: self.z.plus(other.z) }
    }

    /// `self - other`.
    pub fn minus(self, other: Vector) -> (v: Vector)
        ensures
            v == self.difference(other),
    {
        Vector { x: self.x.minus(other.x), y: self.y.minus(other.y), z: self.z.minus(other.z) }
    }

    /// `self * factor`.
    pub fn times(self, factor: Scalar) -> (v: Vector)
        ensures
            v == self.scaled(factor),
    {
        Vector { x: self.x.times(factor), y: self.y.times(factor), z: self.z.times(factor) }
    }

    /// `self / divisor`.
    pub fn over(self, divisor: Scalar) -> (v: Vector)
        ensures
            v == self.shrunk(divisor),
    {
        Vector { x: self.x.over(divisor), y: self.y.over(divisor), z: self.z.over(divisor) }
    }

    /// `-self`.
    pub fn negated(self) -> (v: Vector)
        ensures
            v == self.negation(),
    {
        Vector { x: self.x.negated(), y: self.y.negated(), z: self.z.negated() }
    }

    /// The scalar product of `self` and `other`.
    pub fn dot_product(self, other: Vector) -> (r: Scalar)
        ensures
            r == self.dot(other),
    {
        self.x.times(other.x).plus(self.y.times(other.y)).plus(self.z.times(other.z))
    }

    /// The vector brought to length one.
    pub fn normalized(self) -> (v: Vector)
        ensures
            v == self.direction(),
    {
        let size = self.dot_product(self).square_root();
        self.over(size)
    }
}

} // verus!
