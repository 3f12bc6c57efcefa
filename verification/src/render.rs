//! What a primitive hands to the renderer.

use crate::cframe::CFrame;
use crate::scalar::Scalar;
use vstd::prelude::*;

verus! {

/// The kinds of primitive a scene can hold.
#[derive(Clone, Copy, Debug, PartialEq, Eq, Structural)]
pub enum RenderType {
    SPHERE,
}

impl RenderType {
    /// The byte by which the kernel tells the kinds apart.
    pub open spec fn tag(self) -> u8 {
        match self {
            RenderType::SPHERE => 0,
        }
    }
}

/// A primitive, flattened for the renderer: where it is, what kind it is,
/// the parameters of its shape and its color.
#[derive(Debug, PartialEq, Eq)]
pub struct RenderObject {
    cframe: CFrame,
    render_type: RenderType,
    object_props: Vec<Scalar>,
    color: Vec<u8>,
}

/// The mathematical content of a [`RenderObject`].
pub struct RenderObjectView {
    pub cframe: CFrame,
    pub render_type: RenderType,
    pub object_props: Seq<Scalar>,
    pub color: Seq<u8>,
}

impl View for RenderObject {
    type V = RenderObjectView;

    closed spec fn view(&self) -> RenderObjectView {
        RenderObjectView {
            cframe: self.cframe,
            render_type: self.render_type,
            object_props: self.object_props@,
            color: self.color@,
        }
    }
}

/// Something that can be drawn.
pub trait Renderable {
    /// What the primitive hands to the renderer as it stands.
    spec fn render_object(&self) -> RenderObjectView;

    /// Flattens the primitive for the renderer.
    fn get_render_object(&mut self) -> (object: RenderObject)
        ensures
            object@ == old(self).render_object(),
            final(self).render_object() == old(self).render_object(),
    ;

    /// Gives the primitive a color.
    fn set_color(&mut self, red: u8, green: u8, blue: u8)
        ensures
            final(self).render_object() == (RenderObjectView {
                color: seq![red, green, blue],
                ..old(self).render_object()
            }),
    ;
}

impl RenderObject {
    /// A render object of the given parts.
    pub fn new(
        cframe: CFrame,
        render_type: RenderType,
        object_props: Vec<Scalar>,
        color: Vec<u8>,
    ) -> (object: Self)
        ensures
            object@ == (RenderObjectView {
                cframe,
                render_type,
                object_props: object_props@,
                color: color@,
            }),
    {
        Self { cframe, render_type, object_props, color }
    }

    /// The object's transform as the kernel reads it.
    pub fn convert_to_cframe_buffer(&mut self) -> (wire: Vec<Scalar>)
        ensures
            wire@ == old(self)@.cframe.wire(),
            *final(self) == *old(self),
    {
        self.cframe.to_vec()
    }

    /// The byte by which the kernel tells the kind of the object.
    pub fn get_render_type(&mut self) -> (tag: u8)
        ensures
            tag == old(self)@.render_type.tag(),
            *final(self) == *old(self),
    {
        match self.render_type {
            RenderType::SPHERE => 0,
        }
    }

    /// The parameters of the object's shape.
    pub fn get_object_props_vec(&mut self) -> (props: Vec<Scalar>)
        ensures
            props@ == old(self)@.object_props,
            *final(self) == *old(self),
    {
        self.object_props.clone()
    }

    /// The object's color.
    pub fn get_color_vec(&mut self) -> (color: Vec<u8>)
        ensures
            color@ == old(self)@.color,
            *final(self) == *old(self),
    {
        self.color.clone()
    }
}

} // verus!
