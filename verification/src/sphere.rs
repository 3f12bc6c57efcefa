//! The one primitive there is.

use crate::cframe::{CFrame, Positionable};
use crate::render::{RenderObject, RenderObjectView, RenderType, Renderable};
use crate::scalar::{Scalar, ZERO_BITS};
use vstd::prelude::*;

verus! {

/// A sphere: a placement, a radius and a color of three bytes. A new sphere
/// is black until a color is set.
#[derive(Debug, PartialEq, Eq)]
pub struct Sphere {
    cframe: CFrame,
    radius: Scalar,
    color: Vec<u8>,
}

impl Sphere {
    /// A black sphere of the given radius at the origin, turned nowhere.
    pub open spec fn fresh(radius: Scalar) -> RenderObjectView {
        RenderObjectView {
            cframe: CFrame::at(
                Scalar { bits: ZERO_BITS },
                Scalar { bits: ZERO_BITS },
                Scalar { bits: ZERO_BITS },
            ),
            render_type: RenderType::SPHERE,
            object_props: seq![radius],
            color: seq![0u8, 0u8, 0u8],
        }
    }

    /// A black sphere of the given radius at the origin.
    pub fn new(radius: Scalar) -> (sphere: Self)
        ensures
            sphere.render_object() == Sphere::fresh(radius),
    {
        let mut color: Vec<u8> = Vec::new();
        color.push(0);
        color.push(0);
        color.push(0);
        assert(color@ =~= seq![0u8, 0u8, 0u8]);
        Self { cframe: CFrame::default(), radius, color }
    }
}

impl Default for Sphere {
    /// A black sphere without a radius at the origin.
    fn default() -> (sphere: Sphere)
        ensures
            sphere.render_object() == Sphere::fresh(Scalar { bits: ZERO_BITS }),
    {
        Sphere::new(Scalar { bits: ZERO_BITS })
    }
}

impl Renderable for Sphere {
    closed spec fn render_object(&self) -> RenderObjectView {
        RenderObjectView {
            cframe: self.cframe,
            render_type: RenderType::SPHERE,
            object_props: seq![self.radius],
            color: self.color@,
        }
    }

    fn get_render_object(&mut self) -> (object: RenderObject) {
        let mut props: Vec<Scalar> = Vec::new();
        props.push(self.radius);
        RenderObject::new(self.cframe, RenderType::SPHERE, props, self.color.clone())
    }

    fn set_color(&mut self, red: u8, green: u8, blue: u8) {
        let mut color: Vec<u8> = Vec::new();
        color.push(red);
        color.push(green);
        color.push(blue);
        assert(color@ =~= seq![red, green, blue]);
        self.color = color;
    }
}

impl Positionable for Sphere {
    open spec fn placement(&self) -> CFrame {
        self.render_object().cframe
    }

    fn set_cframe(&mut self, cframe: CFrame)
        ensures
            final(self).render_object() == (RenderObjectView {
                cframe,
                ..old(self).render_object()
            }),
    {
        self.cframe = cframe;
    }

    fn set_position(&mut self, x: Scalar, y: Scalar, z: Scalar)
        ensures
            final(self).render_object() == (RenderObjectView {
                cframe: old(self).placement().moved_to(x, y, z),
                ..old(self).render_object()
            }),
    {
        self.cframe = CFrame::new(
            x,
            y,
            z,
            self.cframe.r00,
            self.cframe.r01,
            self.cframe.r02,
            self.cframe.r10,
            self.cframe.r11,
            self.cframe.r12,
            self.cframe.r20,
            self.cframe.r21,
            self.cframe.r22,
        );
    }
}

/// A primitive of the scene: one of the kinds the kernel knows.
#[derive(Debug, PartialEq, Eq)]
pub enum Primitive {
    Sphere(Sphere),
}

impl Renderable for Primitive {
    open spec fn render_object(&self) -> RenderObjectView {
        match self {
            Primitive::Sphere(sphere) => sphere.render_object(),
        }
    }

    fn get_render_object(&mut self) -> (object: RenderObject) {
        match self {
            Primitive::Sphere(sphere) => sphere.get_render_object(),
        }
    }

    fn set_color(&mut self, red: u8, green: u8, blue: u8) {
        match self {
            Primitive::Sphere(sphere) => sphere.set_color(red, green, blue),
        }
    }
}

impl Positionable for Primitive {
    open spec fn placement(&self) -> CFrame {
        self.render_object().cframe
    }

    fn set_cframe(&mut self, cframe: CFrame)
        ensures
            final(self).render_object() == (RenderObjectView {
                cframe,
                ..old(self).render_object()
            }),
    {
        match self {
            Primitive::Sphere(sphere) => sphere.set_cframe(cframe),
        }
    }

    fn set_position(&mut self, x: Scalar, y: Scalar, z: Scalar)
        ensures
            final(self).render_object() == (RenderObjectView {
                cframe: old(self).placement().moved_to(x, y, z),
                ..old(self).render_object()
            }),
    {
        match self {
            Primitive::Sphere(sphere) => sphere.set_position(x, y, z),
        }
    }
}

} // verus!
