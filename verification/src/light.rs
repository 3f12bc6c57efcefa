//! The one light of a scene: parallel rays of one color.

use crate::scalar::Scalar;
use vstd::prelude::*;

verus! {

/// The pattern of 0.577350269, one over the square root of three.
pub const DIAGONAL_BITS: u32 = 0x3f13_cd3a;

/// The pattern of -0.577350269.
pub const NEGATIVE_DIAGONAL_BITS: u32 = 0xbf13_cd3a;

/// A light that shines along one direction everywhere.
#[derive(Debug, PartialEq, Eq)]
pub struct DirectionLight {
    direction: Vec<Scalar>,
    color: Vec<u8>,
}

/// The mathematical content of a [`DirectionLight`].
pub struct DirectionLightView {
    pub direction: Seq<Scalar>,
    pub color: Seq<u8>,
}

impl View for DirectionLight {
    type V = DirectionLightView;

    closed spec fn view(&self) -> DirectionLightView {
        DirectionLightView { direction: self.direction@, color: self.color@ }
    }
}

impl DirectionLight {
    /// The light a scene starts with: white, shining down the diagonal
    /// towards negative `y` and `z`.
    pub open spec fn standard() -> DirectionLightView {
        DirectionLightView {
            direction: seq![
                Scalar { bits: DIAGONAL_BITS },
                Scalar { bits: NEGATIVE_DIAGONAL_BITS },
                Scalar { bits: NEGATIVE_DIAGONAL_BITS },
            ],
            color: seq![0xffu8, 0xffu8, 0xffu8],
        }
    }

    /// A light that shines along `direction` with the given color.
    pub fn new(direction: Vec<Scalar>, color: Vec<u8>) -> (light: Self)
        ensures
            light@ == (DirectionLightView { direction: direction@, color: color@ }),
    {
        Self { direction, color }
    }

    /// The direction along which the light shines.
    pub fn get_direction(&mut self) -> (direction: Vec<Scalar>)
        ensures
            direction@ == old(self)@.direction,
            *final(self) == *old(self),
    {
        self.direction.clone()
    }

    /// The color of the light.
    pub fn get_color(&mut self) -> (color: Vec<u8>)
        ensures
            color@ == old(self)@.color,
            *final(self) == *old(self),
    {
        self.color.clone()
    }
}

impl Default for DirectionLight {
    /// The light a scene starts with.
    fn default() -> (light: DirectionLight)
        ensures
            light@ == DirectionLight::standard(),
    {
        DirectionLight {
            direction: vec![
                Scalar { bits: DIAGONAL_BITS },
                Scalar { bits: NEGATIVE_DIAGONAL_BITS },
                Scalar { bits: NEGATIVE_DIAGONAL_BITS },
            ],
            color: vec![0xffu8, 0xffu8, 0xffu8],
        }
    }
}

} // verus!
