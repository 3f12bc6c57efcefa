//! The eye of the scene.

use crate::cframe::CFrame;
use crate::scalar::{Scalar, ZERO_BITS};
use vstd::prelude::*;

verus! {

/// How many scalars a camera puts on the wire.
pub const CAMERA_LEN: usize = 13;

/// A horizontal field of view in degrees, a focal length and a placement.
#[derive(Clone, Copy, Debug, PartialEq, Eq)]
pub struct Camera {
    fov: Scalar,
    focal_length: Scalar,
    pub cframe: CFrame,
}

impl Camera {
    /// The field of view, in degrees.
    pub closed spec fn fov(self) -> Scalar {
        self.fov
    }

    /// The distance from the eye to the projection plane.
    pub closed spec fn focal_length(self) -> Scalar {
        self.focal_length
    }

    /// Where the camera stands and how it is turned.
    pub closed spec fn placement(self) -> CFrame {
        self.cframe
    }

    /// The camera as the kernel reads it: its transform, then the field of
    /// view.
    pub open spec fn wire(self) -> Seq<Scalar> {
        self.placement().wire().push(self.fov())
    }

    /// A camera at the origin, turned nowhere.
    pub fn new(fov: Scalar, focal_length: Scalar) -> (camera: Self)
        ensures
            camera.fov() == fov,
            camera.focal_length() == focal_length,
            camera.placement() == CFrame::at(
                Scalar { bits: ZERO_BITS },
                Scalar { bits: ZERO_BITS },
                Scalar { bits: ZERO_BITS },
            ),
    {
        Self { fov, focal_length, cframe: CFrame::default() }
    }

    /// Where the camera stands and how it is turned.
    pub fn get_cframe(&self) -> (cframe: CFrame)
        ensures
            cframe == self.placement(),
    {
        self.cframe
    }

    /// Puts the camera where the transform says. Its field of view and
    /// its focal length stay.
    pub fn set_cframe(&mut self, cframe: CFrame)
        ensures
            final(self).placement() == cframe,
            final(self).fov() == old(self).fov(),
            final(self).focal_length() == old(self).focal_length(),
    {
        self.cframe = cframe;
    }

    /// The camera as the kernel reads it.
    pub fn to_vec(&mut self) -> (wire: Vec<Scalar>)
        ensures
            wire@ == old(self).wire(),
            *final(self) == *old(self),
    {
        let mut wire = self.cframe.to_vec();
        wire.push(self.fov);
        wire
    }

    /// The field of view, in degrees.
    pub fn get_fov(&mut self) -> (fov: Scalar)
        ensures
            fov == old(self).fov(),
            *final(self) == *old(self),
    {
        self.fov
    }

    /// The distance from the eye to the projection plane.
    pub fn get_focal_length(&mut self) -> (focal_length: Scalar)
        ensures
            focal_length == old(self).focal_length(),
            *final(self) == *old(self),
    {
        self.focal_length
    }
}

impl Default for Camera {
    /// A camera at the origin without a field of view or a focal length.
    fn default() -> (camera: Camera)
        ensures
            camera.fov() == (Scalar { bits: ZERO_BITS }),
            camera.focal_length() == (Scalar { bits: ZERO_BITS }),
            camera.placement() == CFrame::at(
                Scalar { bits: ZERO_BITS },
                Scalar { bits: ZERO_BITS },
                Scalar { bits: ZERO_BITS },
            ),
    {
        let zero = Scalar { bits: ZERO_BITS };
        Camera::new(zero, zero)
    }
}

} // verus!
