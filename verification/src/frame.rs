//! What the kernel is handed for one frame, and how it is laid out.

use crate::cframe::CFrame;
use crate::render::{RenderObject, RenderObjectView};
use crate::scalar::Scalar;
use crate::vector::Vector;
use vstd::prelude::*;

verus! {

/// Everything the kernel is handed for one frame, but for the size of the
/// projection plane, which [`crate::project::projection_plane`] derives from
/// the field of view and the focal length.
#[derive(Debug, PartialEq, Eq)]
pub struct FrameJob {
    pub width: u16,
    pub height: u16,
    pub camera: Vec<Scalar>,
    pub fov: Scalar,
    pub focal_length: Scalar,
    pub object_cframes: Vec<Scalar>,
    pub object_count: u32,
    pub object_props: Vec<Scalar>,
    pub prop_size: u8,
    pub object_colors: Vec<u8>,
    pub light_direction: Vec<Scalar>,
    pub light_color: Vec<u8>,
}

/// The mathematical content of a [`FrameJob`].
pub struct FrameJobView {
    pub width: u16,
    pub height: u16,
    pub camera: Seq<Scalar>,
    pub fov: Scalar,
    pub focal_length: Scalar,
    pub object_cframes: Seq<Scalar>,
    pub object_count: u32,
    pub object_props: Seq<Scalar>,
    pub prop_size: u8,
    pub object_colors: Seq<u8>,
    pub light_direction: Seq<Scalar>,
    pub light_color: Seq<u8>,
}

impl View for FrameJob {
    type V = FrameJobView;

    open spec fn view(&self) -> FrameJobView {
        FrameJobView {
            width: self.width,
            height: self.height,
            camera: self.camera@,
            fov: self.fov,
            focal_length: self.focal_length,
            object_cframes: self.object_cframes@,
            object_count: self.object_count,
            object_props: self.object_props@,
            prop_size: self.prop_size,
            object_colors: self.object_colors@,
            light_direction: self.light_direction@,
            light_color: self.light_color@,
        }
    }
}

impl FrameJobView {
    /// Whether the buffers have the lengths that the kernel goes by:
    /// thirteen scalars for the camera, three parts for the light's
    /// direction and for its color, and for every object twelve scalars
    /// of transform, three bytes of color and as many shape parameters as
    /// the kernel is told, which is at least one.
    pub open spec fn fits(self) -> bool {
        &&& self.camera.len() == 13
        &&& self.light_direction.len() == 3
        &&& self.light_color.len() == 3
        &&& self.object_cframes.len() == 12 * self.object_count
        &&& self.object_colors.len() == 3 * self.object_count
        &&& self.object_props.len() == self.prop_size * self.object_count
        &&& self.object_count > 0 ==> self.prop_size > 0
    }

    /// Where object `i` stands.
    pub open spec fn center(self, i: int) -> Vector {
        Vector {
            x: self.object_cframes[12 * i],
            y: self.object_cframes[12 * i + 1],
            z: self.object_cframes[12 * i + 2],
        }
    }

    /// The radius of object `i`: the first of its shape parameters.
    pub open spec fn radius(self, i: int) -> Scalar {
        self.object_props[self.prop_size * i]
    }

    /// The direction in which the light shines.
    pub open spec fn light(self) -> Vector {
        Vector {
            x: self.light_direction[0],
            y: self.light_direction[1],
            z: self.light_direction[2],
        }
    }

    /// The camera's transform.
    pub open spec fn eye(self) -> CFrame {
        CFrame::from_wire(self.camera)
    }
}

impl FrameJob {
    /// Whether the buffers have the lengths that the kernel goes by.
    pub fn is_complete(&self) -> (complete: bool)
        ensures
            complete == self@.fits(),
    {
        let count: u64 = self.object_count as u64;
        let size: u64 = self.prop_size as u64;
        assert(self.prop_size * self.object_count <= 0xff * 0xffff_ffff) by (nonlinear_arith)
            requires
                self.prop_size <= 0xff,
                self.object_count <= 0xffff_ffff,
        ;
        self.camera.len() == 13 && self.light_direction.len() == 3 && self.light_color.len() == 3
            && self.object_cframes.len() as u64 == 12 * count && self.object_colors.len() as u64
            == 3 * count && self.object_props.len() as u64 == size * count && (count == 0 || size
            > 0)
    }

    /// Where object `i` stands.
    pub fn center(&self, i: usize) -> (center: Vector)
        requires
            self@.fits(),
            i < self.object_count,
        ensures
            center == self@.center(i as int),
    {
        let len: usize = self.object_cframes.len();
        assert(12 * i + 2 < len);
        Vector {
            x: self.object_cframes[12 * i],
            y: self.object_cframes[12 * i + 1],
            z: self.object_cframes[12 * i + 2],
        }
    }

    /// The radius of object `i`.
    pub fn radius(&self, i: usize) -> (radius: Scalar)
        requires
            self@.fits(),
            i < self.object_count,
        ensures
            radius == self@.radius(i as int),
    {
        let len: usize = self.object_props.len();
        assert(self.prop_size * i < self.prop_size * self.object_count) by (nonlinear_arith)
            requires
                i < self.object_count,
                self.prop_size > 0,
        ;
        self.object_props[self.prop_size as usize * i]
    }

    /// The direction in which the light shines.
    pub fn light(&self) -> (light: Vector)
        requires
            self@.fits(),
        ensures
            light == self@.light(),
    {
        Vector {
            x: self.light_direction[0],
            y: self.light_direction[1],
            z: self.light_direction[2],
        }
    }

    /// The camera's transform.
    pub fn eye(&self) -> (eye: CFrame)
        requires
            self@.fits(),
        ensures
            eye == self@.eye(),
    {
        CFrame::new(
            self.camera[0],
            self.camera[1],
            self.camera[2],
            self.camera[3],
            self.camera[4],
            self.camera[5],
            self.camera[6],
            self.camera[7],
            self.camera[8],
            self.camera[9],
            self.camera[10],
            self.camera[11],
        )
    }
}

/// The transforms of the objects, one after another.
pub open spec fn cframe_buffer(objects: Seq<RenderObjectView>) -> Seq<Scalar> {
    Seq::new(objects.len(), |i: int| objects[i].cframe.wire()).flatten()
}

/// The shape parameters of the objects, one object after another.
pub open spec fn props_buffer(objects: Seq<RenderObjectView>) -> Seq<Scalar> {
    Seq::new(objects.len(), |i: int| objects[i].object_props).flatten()
}

/// The colors of the objects, one after another.
pub open spec fn color_buffer(objects: Seq<RenderObjectView>) -> Seq<u8> {
    Seq::new(objects.len(), |i: int| objects[i].color).flatten()
}

/// The number of shape parameters that the kernel is told each object has:
/// that of the first object, as far as a byte holds it.
pub open spec fn prop_size(objects: Seq<RenderObjectView>) -> u8 {
    if objects.len() == 0 {
        0
    } else {
        (objects[0].object_props.len() % 0x100) as u8
    }
}

/// The number of objects that the kernel is told, as far as 32 bits hold it.
pub open spec fn object_count(objects: Seq<RenderObjectView>) -> u32 {
    (objects.len() % 0x1_0000_0000) as u32
}

/// Taking one more object lays its transform, its shape parameters and its
/// color behind what was there.
pub(crate) proof fn lemma_buffers_step(objects: Seq<RenderObjectView>, i: int)
    requires
        0 <= i < objects.len(),
    ensures
        cframe_buffer(objects.take(i + 1)) == cframe_buffer(objects.take(i))
            + objects[i].cframe.wire(),
        props_buffer(objects.take(i + 1)) == props_buffer(objects.take(i))
            + objects[i].object_props,
        color_buffer(objects.take(i + 1)) == color_buffer(objects.take(i)) + objects[i].color,
{
    broadcast use Seq::lemma_flatten_push;

    let before = objects.take(i);
    let after = objects.take(i + 1);
    assert(Seq::new(after.len(), |k: int| after[k].cframe.wire()) =~= Seq::new(
        before.len(),
        |k: int| before[k].cframe.wire(),
    ).push(objects[i].cframe.wire()));
    assert(Seq::new(after.len(), |k: int| after[k].object_props) =~= Seq::new(
        before.len(),
        |k: int| before[k].object_props,
    ).push(objects[i].object_props));
    assert(Seq::new(after.len(), |k: int| after[k].color) =~= Seq::new(
        before.len(),
        |k: int| before[k].color,
    ).push(objects[i].color));
}

/// Parts of one length, laid end to end, stand at multiples of that length.
proof fn lemma_flatten_uniform<T>(parts: Seq<Seq<T>>, width: nat)
    requires
        forall|j: int| 0 <= j < parts.len() ==> (#[trigger] parts[j]).len() == width,
    ensures
        parts.flatten().len() == width * parts.len(),
        forall|i: int, k: int|
            0 <= i < parts.len() && 0 <= k < width ==> parts.flatten()[width * i + k]
                == #[trigger] parts[i][k],
    decreases parts.len(),
{
    if parts.len() > 0 {
        let init = parts.drop_last();
        let last = parts.last();
        let n = init.len() as int;
        lemma_flatten_uniform(init, width);
        assert(parts =~= init.push(last));
        init.lemma_flatten_push(last);
        assert(width * (n + 1) == width * n + width) by (nonlinear_arith);
        assert forall|i: int, k: int|
            0 <= i < parts.len() && 0 <= k < width implies parts.flatten()[width * i + k]
            == #[trigger] parts[i][k] by {
            if i < n {
                assert(width * i + k < width * n) by (nonlinear_arith)
                    requires
                        0 <= i < n,
                        0 <= k < width,
                ;
                assert(width * i + k >= 0) by (nonlinear_arith)
                    requires
                        0 <= i,
                        0 <= k,
                ;
                assert(parts[i] == init[i]);
            }
        }
    }
}

/// Whether every object has the given number of shape parameters and a
/// color of three bytes.
pub open spec fn uniform(objects: Seq<RenderObjectView>, props: nat) -> bool {
    forall|i: int|
        0 <= i < objects.len() ==> (#[trigger] objects[i]).object_props.len() == props
            && objects[i].color.len() == 3
}

/// Where the kernel finds what it looks for. The transform of object `i`
/// starts at `12 * i`. If every object has `props` shape parameters and a
/// color of three bytes, the parameters of object `i` start at `props * i`
/// and its color at `3 * i`, and the kernel is told `props` as long as a
/// byte holds it.
pub proof fn lemma_buffer_layout(objects: Seq<RenderObjectView>, props: nat, i: int)
    requires
        0 <= i < objects.len(),
    ensures
        cframe_buffer(objects).len() == 12 * objects.len(),
        forall|k: int|
            0 <= k < 12 ==> #[trigger] cframe_buffer(objects)[12 * i + k]
                == objects[i].cframe.wire()[k],
        uniform(objects, props) ==> {
            &&& props_buffer(objects).len() == props * objects.len()
            &&& color_buffer(objects).len() == 3 * objects.len()
            &&& forall|k: int|
                0 <= k < props ==> #[trigger] props_buffer(objects)[props * i + k]
                    == objects[i].object_props[k]
            &&& forall|k: int|
                0 <= k < 3 ==> #[trigger] color_buffer(objects)[3 * i + k] == objects[i].color[k]
            &&& props < 0x100 ==> prop_size(objects) == props
        },
{
    let cframes = Seq::new(objects.len(), |j: int| objects[j].cframe.wire());
    lemma_flatten_uniform(cframes, 12);
    assert forall|k: int| 0 <= k < 12 implies #[trigger] cframe_buffer(objects)[12 * i + k]
        == objects[i].cframe.wire()[k] by {
        assert(cframes[i][k] == objects[i].cframe.wire()[k]);
    }
    if uniform(objects, props) {
        let shapes = Seq::new(objects.len(), |j: int| objects[j].object_props);
        let colors = Seq::new(objects.len(), |j: int| objects[j].color);
        lemma_flatten_uniform(shapes, props);
        lemma_flatten_uniform(colors, 3);
        assert forall|k: int| 0 <= k < props implies #[trigger] props_buffer(objects)[props * i
            + k] == objects[i].object_props[k] by {
            assert(shapes[i][k] == objects[i].object_props[k]);
        }
        assert forall|k: int| 0 <= k < 3 implies #[trigger] color_buffer(objects)[3 * i + k]
            == objects[i].color[k] by {
            assert(colors[i][k] == objects[i].color[k]);
        }
    }
}

/// What a list of render objects holds.
pub open spec fn views(render_objects: Seq<RenderObject>) -> Seq<RenderObjectView> {
    Seq::new(render_objects.len(), |i: int| render_objects[i]@)
}

} // verus!
