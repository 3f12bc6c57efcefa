//! Placement in space: a position and a rotation.

use crate::scalar::{Scalar, ONE_BITS, ZERO_BITS};
use crate::vector::Vector;
use vstd::prelude::*;

verus! {

/// How many scalars a transform puts on the wire.
pub const CFRAME_LEN: usize = 12;

/// An angle, given by its sine and its cosine.
#[derive(Clone, Copy, Debug, PartialEq, Eq, Structural)]
pub struct Angle {
    pub sin: Scalar,
    pub cos: Scalar,
}

/// `a0 * b0 + a1 * b1 + a2 * b2`, summed from the left and rounded at every
/// step.
pub open spec fn dot(a0: Scalar, b0: Scalar, a1: Scalar, b1: Scalar, a2: Scalar, b2: Scalar)
    -> Scalar {
    a0.product(b0).sum(a1.product(b1)).sum(a2.product(b2))
}

/// `a0 * b0 + a1 * b1 + a2 * b2`.
pub fn dot_product(a0: Scalar, b0: Scalar, a1: Scalar, b1: Scalar, a2: Scalar, b2: Scalar) -> (r:
    Scalar)
    ensures
        r == dot(a0, b0, a1, b1, a2, b2),
{
    a0.times(b0).plus(a1.times(b1)).plus(a2.times(b2))
}

/// A position and a row-major 3x3 rotation.
#[derive(Clone, Copy, Debug, PartialEq, Eq, Structural)]
pub struct CFrame {
    pub x: Scalar,
    pub y: Scalar,
    pub z: Scalar,
    pub r00: Scalar,
    pub r01: Scalar,
    pub r02: Scalar,
    pub r10: Scalar,
    pub r11: Scalar,
    pub r12: Scalar,
    pub r20: Scalar,
    pub r21: Scalar,
    pub r22: Scalar,
}

impl CFrame {
    /// The transform as the kernel reads it: position first, then the
    /// rotation row by row.
    pub open spec fn wire(self) -> Seq<Scalar> {
        seq![
            self.x,
            self.y,
            self.z,
            self.r00,
            self.r01,
            self.r02,
            self.r10,
            self.r11,
            self.r12,
            self.r20,
            self.r21,
            self.r22,
        ]
    }

    /// Where the transform stands.
    pub open spec fn position(self) -> Vector {
        Vector { x: self.x, y: self.y, z: self.z }
    }

    /// The third column of the rotation. A ray travels against it.
    pub open spec fn backward(self) -> Vector {
        Vector { x: self.r02, y: self.r12, z: self.r22 }
    }

    /// The transform that a stretch of twelve scalars on the wire stands
    /// for.
    pub open spec fn from_wire(wire: Seq<Scalar>) -> CFrame {
        CFrame {
            x: wire[0],
            y: wire[1],
            z: wire[2],
            r00: wire[3],
            r01: wire[4],
            r02: wire[5],
            r10: wire[6],
            r11: wire[7],
            r12: wire[8],
            r20: wire[9],
            r21: wire[10],
            r22: wire[11],
        }
    }

    /// The transform at the given position that turns nothing.
    pub open spec fn at(x: Scalar, y: Scalar, z: Scalar) -> CFrame {
        CFrame {
            x,
            y,
            z,
            r00: Scalar { bits: ONE_BITS },
            r01: Scalar { bits: ZERO_BITS },
            r02: Scalar { bits: ZERO_BITS },
            r10: Scalar { bits: ZERO_BITS },
            r11: Scalar { bits: ONE_BITS },
            r12: Scalar { bits: ZERO_BITS },
            r20: Scalar { bits: ZERO_BITS },
            r21: Scalar { bits: ZERO_BITS },
            r22: Scalar { bits: ONE_BITS },
        }
    }

    /// The transform that turns by three angles and moves nothing: by
    /// `alpha` about the first axis, then `beta` about the second, then
    /// `gamma` about the third.
    pub open spec fn turn(alpha: Angle, beta: Angle, gamma: Angle) -> CFrame {
        let zero = Scalar { bits: ZERO_BITS };
        let (sa, ca) = (alpha.sin, alpha.cos);
        let (sb, cb) = (beta.sin, beta.cos);
        let (sg, cg) = (gamma.sin, gamma.cos);
        CFrame {
            x: zero,
            y: zero,
            z: zero,
            r00: cb.product(cg),
            r01: sa.product(sb).product(cg).difference(ca.product(sg)),
            r02: ca.product(sb).product(cg).sum(sa.product(sg)),
            r10: cb.product(sg),
            r11: sa.product(sb).product(sg).sum(ca.product(cg)),
            r12: ca.product(sb).product(sg).difference(sa.product(cg)),
            r20: sb.negation(),
            r21: sa.product(cb),
            r22: ca.product(cb),
        }
    }

    /// This transform with its rotation followed by another: the matrix
    /// product of the two rotations, this one on the left. The position
    /// stays.
    pub open spec fn turned_by(self, other: CFrame) -> CFrame {
        CFrame {
            r00: dot(self.r00, other.r00, self.r01, other.r10, self.r02, other.r20),
            r01: dot(self.r00, other.r01, self.r01, other.r11, self.r02, other.r21),
            r02: dot(self.r00, other.r02, self.r01, other.r12, self.r02, other.r22),
            r10: dot(self.r10, other.r00, self.r11, other.r10, self.r12, other.r20),
            r11: dot(self.r10, other.r01, self.r11, other.r11, self.r12, other.r21),
            r12: dot(self.r10, other.r02, self.r11, other.r12, self.r12, other.r22),
            r20: dot(self.r20, other.r00, self.r21, other.r10, self.r22, other.r20),
            r21: dot(self.r20, other.r01, self.r21, other.r11, self.r22, other.r21),
            r22: dot(self.r20, other.r02, self.r21, other.r12, self.r22, other.r22),
            ..self
        }
    }

    /// This transform moved by a step given along its own axes, which are
    /// the columns of its rotation: the position grows by the rotation
    /// times the step. The rotation stays.
    pub open spec fn moved_along(self, x: Scalar, y: Scalar, z: Scalar) -> CFrame {
        CFrame {
            x: dot(self.r00, x, self.r01, y, self.r02, z).sum(self.x),
            y: dot(self.r10, x, self.r11, y, self.r12, z).sum(self.y),
            z: dot(self.r20, x, self.r21, y, self.r22, z).sum(self.z),
            ..self
        }
    }

    /// This transform moved to the given position, with its rotation kept.
    pub open spec fn moved_to(self, x: Scalar, y: Scalar, z: Scalar) -> CFrame {
        CFrame { x, y, z, ..self }
    }

    /// The transform with the given position and rotation.
    pub fn new(
        x: Scalar,
        y: Scalar,
        z: Scalar,
        r00: Scalar,
        r01: Scalar,
        r02: Scalar,
        r10: Scalar,
        r11: Scalar,
        r12: Scalar,
        r20: Scalar,
        r21: Scalar,
        r22: Scalar,
    ) -> (cframe: Self)
        ensures
            cframe == (CFrame { x, y, z, r00, r01, r02, r10, r11, r12, r20, r21, r22 }),
    {
        Self { x, y, z, r00, r01, r02, r10, r11, r12, r20, r21, r22 }
    }

    /// The transform at the given position that turns nothing.
    pub fn new_from_pos(x: Scalar, y: Scalar, z: Scalar) -> (cframe: Self)
        ensures
            cframe == CFrame::at(x, y, z),
    {
        let one = Scalar { bits: ONE_BITS };
        let zero = Scalar { bits: ZERO_BITS };
        Self {
            x,
            y,
            z,
            r00: one,
            r01: zero,
            r02: zero,
            r10: zero,
            r11: one,
            r12: zero,
            r20: zero,
            r21: zero,
            r22: one,
        }
    }

    /// Where the transform stands.
    pub fn get_position(&self) -> (position: Vector)
        ensures
            position == self.position(),
    {
        Vector { x: self.x, y: self.y, z: self.z }
    }

    /// The third column of the rotation.
    pub fn get_backward(&self) -> (backward: Vector)
        ensures
            backward == self.backward(),
    {
        Vector { x: self.r02, y: self.r12, z: self.r22 }
    }

    /// The rotation that three angles stand for.
    pub fn from_angles(alpha: Angle, beta: Angle, gamma: Angle) -> (cframe: Self)
        ensures
            cframe == CFrame::turn(alpha, beta, gamma),
    {
        let zero = Scalar { bits: ZERO_BITS };
        let (sa, ca) = (alpha.sin, alpha.cos);
        let (sb, cb) = (beta.sin, beta.cos);
        let (sg, cg) = (gamma.sin, gamma.cos);
        Self {
            x: zero,
            y: zero,
            z: zero,
            r00: cb.times(cg),
            r01: sa.times(sb).times(cg).minus(ca.times(sg)),
            r02: ca.times(sb).times(cg).plus(sa.times(sg)),
            r10: cb.times(sg),
            r11: sa.times(sb).times(sg).plus(ca.times(cg)),
            r12: ca.times(sb).times(sg).minus(sa.times(cg)),
            r20: sb.negated(),
            r21: sa.times(cb),
            r22: ca.times(cb),
        }
    }

    /// Moves the transform along its own axes.
    pub fn multiply_vector(&mut self, x: Scalar, y: Scalar, z: Scalar)
        ensures
            *final(self) == old(self).moved_along(x, y, z),
    {
        let moved_x = dot_product(self.r00, x, self.r01, y, self.r02, z).plus(self.x);
        let moved_y = dot_product(self.r10, x, self.r11, y, self.r12, z).plus(self.y);
        let moved_z = dot_product(self.r20, x, self.r21, y, self.r22, z).plus(self.z);
        self.x = moved_x;
        self.y = moved_y;
        self.z = moved_z;
    }

    /// Turns the transform in its own frame by three angles.
    pub fn multiply_angles(&mut self, alpha: Angle, beta: Angle, gamma: Angle)
        ensures
            *final(self) == old(self).turned_by(CFrame::turn(alpha, beta, gamma)),
    {
        let m = CFrame::from_angles(alpha, beta, gamma);
        let tr00 = dot_product(self.r00, m.r00, self.r01, m.r10, self.r02, m.r20);
        let tr01 = dot_product(self.r00, m.r01, self.r01, m.r11, self.r02, m.r21);
        let tr02 = dot_product(self.r00, m.r02, self.r01, m.r12, self.r02, m.r22);
        let tr10 = dot_product(self.r10, m.r00, self.r11, m.r10, self.r12, m.r20);
        let tr11 = dot_product(self.r10, m.r01, self.r11, m.r11, self.r12, m.r21);
        let tr12 = dot_product(self.r10, m.r02, self.r11, m.r12, self.r12, m.r22);
        let tr20 = dot_product(self.r20, m.r00, self.r21, m.r10, self.r22, m.r20);
        let tr21 = dot_product(self.r20, m.r01, self.r21, m.r11, self.r22, m.r21);
        let tr22 = dot_product(self.r20, m.r02, self.r21, m.r12, self.r22, m.r22);
        self.r00 = tr00;
        self.r01 = tr01;
        self.r02 = tr02;
        self.r10 = tr10;
        self.r11 = tr11;
        self.r12 = tr12;
        self.r20 = tr20;
        self.r21 = tr21;
        self.r22 = tr22;
    }

    /// The transform as the kernel reads it.
    pub fn to_vec(&mut self) -> (wire: Vec<Scalar>)
        ensures
            wire@ == old(self).wire(),
            *final(self) == *old(self),
    {
        let mut wire: Vec<Scalar> = Vec::new();
        wire.push(self.x);
        wire.push(self.y);
        wire.push(self.z);
        wire.push(self.r00);
        wire.push(self.r01);
        wire.push(self.r02);
        wire.push(self.r10);
        wire.push(self.r11);
        wire.push(self.r12);
        wire.push(self.r20);
        wire.push(self.r21);
        wire.push(self.r22);
        wire
    }
}

impl Default for CFrame {
    /// The transform at the origin that turns nothing.
    fn default() -> (cframe: CFrame)
        ensures
            cframe == CFrame::at(
                Scalar { bits: ZERO_BITS },
                Scalar { bits: ZERO_BITS },
                Scalar { bits: ZERO_BITS },
            ),
    {
        let zero = Scalar { bits: ZERO_BITS };
        CFrame::new_from_pos(zero, zero, zero)
    }
}

/// Something that has a place in the scene.
pub trait Positionable {
    /// Where the thing stands and how it is turned.
    spec fn placement(&self) -> CFrame;

    /// Puts the thing where the transform says.
    fn set_cframe(&mut self, cframe: CFrame)
        ensures
            final(self).placement() == cframe,
    ;

    /// Moves the thing to a position and leaves it turned as it was.
    fn set_position(&mut self, x: Scalar, y: Scalar, z: Scalar)
        ensures
            final(self).placement() == old(self).placement().moved_to(x, y, z),
    ;
}

} // verus!
