//! The scene: primitives in their order, and one light.

use crate::light::{DirectionLight, DirectionLightView};
use crate::render::{RenderObject, RenderObjectView, Renderable};
use crate::sphere::Primitive;
use crate::scalar::Scalar;
use vstd::prelude::*;

verus! {

/// The scene. The order of the primitives is the order in which the kernel
/// walks them.
#[derive(Debug, PartialEq, Eq)]
pub struct World {
    objects: Vec<Primitive>,
    directionlight: DirectionLight,
}

impl World {
    /// What each primitive hands to the renderer, in the scene's order.
    pub closed spec fn render_objects(&self) -> Seq<RenderObjectView> {
        Seq::new(self.objects@.len(), |i: int| self.objects@[i].render_object())
    }

    /// The scene's light.
    pub closed spec fn light(&self) -> DirectionLightView {
        self.directionlight@
    }

    /// A scene without primitives, under the standard light.
    pub fn new() -> (world: Self)
        ensures
            world.render_objects() == Seq::<RenderObjectView>::empty(),
            world.light() == DirectionLight::standard(),
    {
        Self { objects: Vec::new(), directionlight: DirectionLight::default() }
    }

    /// What each primitive hands to the renderer, in the scene's order.
    pub fn get_render_objects(&mut self) -> (render_objects: Vec<RenderObject>)
        ensures
            render_objects@.len() == old(self).render_objects().len(),
            forall|i: int|
                0 <= i < render_objects@.len() ==> (#[trigger] render_objects@[i])@ == old(
                    self,
                ).render_objects()[i],
            final(self).render_objects() == old(self).render_objects(),
            final(self).light() == old(self).light(),
    {
        let mut render_objects: Vec<RenderObject> = Vec::new();
        let mut i: usize = 0;
        while i < self.objects.len()
            invariant
                i <= self.objects@.len(),
                self.objects@.len() == old(self).objects@.len(),
                self.directionlight == old(self).directionlight,
                forall|k: int|
                    0 <= k < self.objects@.len() ==> (#[trigger] self.objects@[k]).render_object()
                        == old(self).objects@[k].render_object(),
                render_objects@.len() == i,
                forall|k: int|
                    0 <= k < i ==> (#[trigger] render_objects@[k])@ == old(
                        self,
                    ).objects@[k].render_object(),
            decreases self.objects@.len() - i,
        {
            let object = self.objects[i].get_render_object();
            render_objects.push(object);
            i = i + 1;
        }
        render_objects
    }

    /// Puts a primitive behind those that are in the scene.
    pub fn push_renderable(&mut self, render_object: Primitive)
        ensures
            final(self).render_objects() == old(self).render_objects().push(
                render_object.render_object(),
            ),
            final(self).light() == old(self).light(),
    {
        let ghost added = render_object.render_object();
        self.objects.push(render_object);
        assert(self.render_objects() =~= old(self).render_objects().push(added));
    }

    /// The direction along which the scene's light shines.
    pub fn get_direction_light_direction_vec(&mut self) -> (direction: Vec<Scalar>)
        ensures
            direction@ == old(self).light().direction,
            final(self).render_objects() == old(self).render_objects(),
            final(self).light() == old(self).light(),
    {
        self.directionlight.get_direction()
    }

    /// The color of the scene's light.
    pub fn get_direction_light_color_vec(&mut self) -> (color: Vec<u8>)
        ensures
            color@ == old(self).light().color,
            final(self).render_objects() == old(self).render_objects(),
            final(self).light() == old(self).light(),
    {
        self.directionlight.get_color()
    }
}

impl Default for World {
    /// A scene without primitives, under the standard light.
    fn default() -> (world: World)
        ensures
            world.render_objects() == Seq::<RenderObjectView>::empty(),
            world.light() == DirectionLight::standard(),
    {
        World::new()
    }
}

} // verus!
