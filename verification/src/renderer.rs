//! The host's side of rendering: what the device is asked to do, and what
//! is made of its answer.
//!
//! The renderer never talks to a device itself. Setting one up and running a
//! frame on it are left to the caller, in two steps each: the renderer says
//! what is to be done, the caller does it and reports how it went, and the
//! renderer settles what that means.

use crate::camera::Camera;
use crate::error::RendererError;
use crate::frame::{
    cframe_buffer, color_buffer, lemma_buffers_step, object_count, prop_size, props_buffer, views,
    FrameJob, FrameJobView,
};
use crate::render::{RenderObject, RenderObjectView};
use crate::scalar::Scalar;
use vstd::prelude::*;

verus! {

/// The largest width or height that the kernel can be told.
pub const MAX_DIMENSION: u32 = 0xffff;

/// What the device needs for its one-time setup.
#[derive(Clone, Copy, Debug, PartialEq, Eq, Structural)]
pub struct SetupPlan {
    /// The number of kernel instances per frame: one for each pixel.
    pub work_items: u64,
    /// The length in bytes of the kernel's scratch buffer.
    pub scratch_len: u64,
    /// The length in bytes of the output image.
    pub output_len: u64,
}

/// How the one-time setup of the device went.
#[derive(Debug, PartialEq, Eq)]
pub enum SetupOutcome {
    /// The kernel is built and both buffers are there.
    Ready,
    /// The kernel did not build.
    BuildFailed(String),
    /// The kernel is built, but a buffer could not be had.
    BufferFailed(String),
}

/// How running one frame on the device went.
#[derive(Debug, PartialEq, Eq)]
pub enum DispatchOutcome {
    /// The kernel ran and this image was read back.
    Completed(Vec<u8>),
    /// One of the frame's buffers could not be had.
    BufferFailed(String),
    /// The kernel did not take its arguments.
    ArgumentsFailed(String),
    /// The kernel did not run.
    ExecuteFailed(String),
    /// The image could not be read back.
    ReadFailed(String),
}

/// The host's side of rendering. It knows the size of the image and
/// whether the device has been set up.
#[derive(Debug, PartialEq, Eq)]
pub struct Renderer {
    width: u32,
    height: u32,
    ready: bool,
}

impl Renderer {
    /// The width of the image in pixels.
    pub closed spec fn width(self) -> u32 {
        self.width
    }

    /// The height of the image in pixels.
    pub closed spec fn height(self) -> u32 {
        self.height
    }

    /// Whether the device has been set up.
    pub closed spec fn ready(self) -> bool {
        self.ready
    }

    /// What [`Renderer::setup_plan`] answers.
    pub open spec fn planned_setup(self) -> Option<SetupPlan> {
        let pixels = self.width() * self.height();
        if pixels * 4 <= u64::MAX {
            Some(
                SetupPlan {
                    work_items: pixels as u64,
                    scratch_len: pixels as u64,
                    output_len: (pixels * 4) as u64,
                },
            )
        } else {
            None
        }
    }

    /// What [`Renderer::render_frame`] answers.
    pub open spec fn planned_frame(
        self,
        camera: Camera,
        objects: Seq<RenderObjectView>,
        light_direction: Seq<Scalar>,
        light_color: Seq<u8>,
    ) -> Result<FrameJobView, RendererError> {
        if self.width() > MAX_DIMENSION || self.height() > MAX_DIMENSION {
            Err(RendererError::DimensionsTooBigError)
        } else if !self.ready() {
            Err(RendererError::RendererNotInitializedError)
        } else {
            Ok(
                FrameJobView {
                    width: self.width() as u16,
                    height: self.height() as u16,
                    camera: camera.wire(),
                    fov: camera.fov(),
                    focal_length: camera.focal_length(),
                    object_cframes: cframe_buffer(objects),
                    object_count: object_count(objects),
                    object_props: props_buffer(objects),
                    prop_size: prop_size(objects),
                    object_colors: color_buffer(objects),
                    light_direction,
                    light_color,
                },
            )
        }
    }

    /// What [`Renderer::finish_frame`] answers.
    pub open spec fn finished_frame(self, outcome: DispatchOutcome) -> Result<
        Vec<u8>,
        RendererError,
    > {
        if self.width() > MAX_DIMENSION || self.height() > MAX_DIMENSION {
            Err(RendererError::DimensionsTooBigError)
        } else if !self.ready() {
            Err(RendererError::RendererNotInitializedError)
        } else {
            match outcome {
                DispatchOutcome::Completed(image) => if image@.len() == self.width()
                    * self.height() * 4 {
                    Ok(image)
                } else {
                    Err(RendererError::Unknown)
                },
                DispatchOutcome::BufferFailed(words) => Err(
                    RendererError::CreateBufferError(words),
                ),
                DispatchOutcome::ArgumentsFailed(words) => Err(
                    RendererError::AddArgumentsError(words),
                ),
                DispatchOutcome::ExecuteFailed(words) => Err(
                    RendererError::ExecuteKernelError(words),
                ),
                DispatchOutcome::ReadFailed(words) => Err(RendererError::ReadBufferError(words)),
            }
        }
    }

    /// A frame that is planned for a scene of fewer than 2^32 objects,
    /// each with the same number of shape parameters, at least one and
    /// at most 255, and a color of three bytes, under a light whose
    /// direction and color have three parts each, has buffers of the
    /// lengths that the kernel goes by.
    pub proof fn lemma_planned_frame_fits(
        self,
        camera: Camera,
        objects: Seq<RenderObjectView>,
        light_direction: Seq<Scalar>,
        light_color: Seq<u8>,
        props: nat,
    )
        requires
            self.planned_frame(camera, objects, light_direction, light_color) is Ok,
            crate::frame::uniform(objects, props),
            0 < props < 0x100,
            objects.len() < 0x1_0000_0000,
            light_direction.len() == 3,
            light_color.len() == 3,
        ensures
            self.planned_frame(camera, objects, light_direction, light_color)->Ok_0.fits(),
    {
        let job = self.planned_frame(camera, objects, light_direction, light_color)->Ok_0;
        let count = objects.len();
        assert(job.camera.len() == 13);
        assert(job.object_count == count);
        if count > 0 {
            crate::frame::lemma_buffer_layout(objects, props, 0);
            assert(job.prop_size == props);
            assert(job.prop_size * job.object_count == props * count);
        } else {
            assert(cframe_buffer(objects) =~= Seq::<Scalar>::empty());
            assert(props_buffer(objects) =~= Seq::<Scalar>::empty());
            assert(color_buffer(objects) =~= Seq::<u8>::empty());
            assert(job.prop_size * job.object_count == 0) by (nonlinear_arith)
                requires
                    job.object_count == 0,
            ;
        }
    }

    /// A renderer for images of the given size, with the device not yet
    /// set up.
    pub fn new(width: u32, height: u32) -> (renderer: Self)
        ensures
            renderer.width() == width,
            renderer.height() == height,
            !renderer.ready(),
    {
        Self { width, height, ready: false }
    }

    /// What the device is to be set up with: one kernel instance and four
    /// bytes of image for every pixel. Every image whose width and height
    /// the kernel can be told has a plan; there is none only where the
    /// length of the image in bytes does not fit 64 bits.
    pub fn setup_plan(&self) -> (plan: Option<SetupPlan>)
        ensures
            plan == self.planned_setup(),
            self.width() <= MAX_DIMENSION && self.height() <= MAX_DIMENSION ==> plan is Some,
    {
        assert(self.width * self.height <= 0xffff_ffff * 0xffff_ffff) by (nonlinear_arith)
            requires
                self.width <= 0xffff_ffff,
                self.height <= 0xffff_ffff,
        ;
        assert(self.width() <= MAX_DIMENSION && self.height() <= MAX_DIMENSION ==> self.width
            * self.height <= 0xffff * 0xffff) by (nonlinear_arith)
            requires
                self.width == self.width(),
                self.height == self.height(),
        ;
        let pixels: u64 = (self.width as u64) * (self.height as u64);
        match pixels.checked_mul(4) {
            Some(output_len) => Some(
                SetupPlan { work_items: pixels, scratch_len: pixels, output_len },
            ),
            None => None,
        }
    }

    /// Checks that a frame can be rendered and gathers what the kernel is
    /// handed for it: the camera, the light, and the objects flattened into
    /// one buffer of transforms, one of shape parameters and one of colors,
    /// each in the objects' order.
    pub fn render_frame(
        &mut self,
        camera: Camera,
        render_objects: Vec<RenderObject>,
        directionlight_direction: Vec<Scalar>,
        directionlight_color: Vec<u8>,
    ) -> (result: Result<FrameJob, RendererError>)
        ensures
            *final(self) == *old(self),
            match result {
                Ok(job) => Ok::<FrameJobView, RendererError>(job@),
                Err(error) => Err(error),
            } == old(self).planned_frame(
                camera,
                views(render_objects@),
                directionlight_direction@,
                directionlight_color@,
            ),
    {
        if self.width > MAX_DIMENSION || self.height > MAX_DIMENSION {
            return Err(RendererError::DimensionsTooBigError);
        }
        if !self.ready {
            return Err(RendererError::RendererNotInitializedError);
        }
        let mut camera = camera;
        let mut render_objects = render_objects;
        let ghost objects = views(render_objects@);
        let count: usize = render_objects.len();

        let prop_size: u8 = if count == 0 {
            0
        } else {
            let first: usize = render_objects[0].get_object_props_vec().len();
            (first % 0x100) as u8
        };
        assert(views(render_objects@) =~= objects);

        let mut cframe_vec: Vec<Scalar> = Vec::new();
        let mut object_props_vec: Vec<Scalar> = Vec::new();
        let mut color_vec: Vec<u8> = Vec::new();
        assert(objects.take(0) =~= Seq::<RenderObjectView>::empty());
        let mut i: usize = 0;
        while i < count
            invariant
                i <= count,
                count == render_objects@.len(),
                views(render_objects@) == objects,
                cframe_vec@ == cframe_buffer(objects.take(i as int)),
                object_props_vec@ == props_buffer(objects.take(i as int)),
                color_vec@ == color_buffer(objects.take(i as int)),
            decreases count - i,
        {
            assert(render_objects@[i as int]@ == objects[i as int]);
            let mut cframe_part = render_objects[i].convert_to_cframe_buffer();
            let mut props_part = render_objects[i].get_object_props_vec();
            let mut color_part = render_objects[i].get_color_vec();
            cframe_vec.append(&mut cframe_part);
            object_props_vec.append(&mut props_part);
            color_vec.append(&mut color_part);
            proof {
                assert(views(render_objects@) =~= objects);
                lemma_buffers_step(objects, i as int);
            }
            i = i + 1;
        }
        assert(objects.take(count as int) =~= objects);

        let object_count: u32 = ((count as u64) % 0x1_0000_0000) as u32;
        Ok(
            FrameJob {
                width: self.width as u16,
                height: self.height as u16,
                camera: camera.to_vec(),
                fov: camera.get_fov(),
                focal_length: camera.get_focal_length(),
                object_cframes: cframe_vec,
                object_count,
                object_props: object_props_vec,
                prop_size,
                object_colors: color_vec,
                light_direction: directionlight_direction,
                light_color: directionlight_color,
            },
        )
    }

    /// Settles what a frame comes to, given how running it on the device
    /// went: the image, if it is there and has four bytes for every pixel;
    /// else the error that belongs to the step that failed. An image of
    /// another length is a failure of no named kind.
    pub fn finish_frame(&self, outcome: DispatchOutcome) -> (result: Result<
        Vec<u8>,
        RendererError,
    >)
        ensures
            result == self.finished_frame(outcome),
    {
        if self.width > MAX_DIMENSION || self.height > MAX_DIMENSION {
            return Err(RendererError::DimensionsTooBigError);
        }
        if !self.ready {
            return Err(RendererError::RendererNotInitializedError);
        }
        match outcome {
            DispatchOutcome::Completed(image) => {
                assert(self.width * self.height <= MAX_DIMENSION * MAX_DIMENSION)
                    by (nonlinear_arith)
                    requires
                        self.width <= MAX_DIMENSION,
                        self.height <= MAX_DIMENSION,
                ;
                let expected: u64 = (self.width as u64) * (self.height as u64) * 4;
                if image.len() as u64 == expected {
                    Ok(image)
                } else {
                    Err(RendererError::Unknown)
                }
            },
            DispatchOutcome::BufferFailed(words) => Err(RendererError::CreateBufferError(words)),
            DispatchOutcome::ArgumentsFailed(words) => Err(
                RendererError::AddArgumentsError(words),
            ),
            DispatchOutcome::ExecuteFailed(words) => Err(
                RendererError::ExecuteKernelError(words),
            ),
            DispatchOutcome::ReadFailed(words) => Err(RendererError::ReadBufferError(words)),
        }
    }

    /// Takes note of how the setup of the device went. Once the device is
    /// ready it stays so; a failed setup changes nothing.
    pub fn init(&mut self, outcome: SetupOutcome) -> (result: Result<(), RendererError>)
        ensures
            final(self).width() == old(self).width(),
            final(self).height() == old(self).height(),
            final(self).ready() == (old(self).ready() || outcome is Ready),
            result == match outcome {
                SetupOutcome::Ready => Ok::<(), RendererError>(()),
                SetupOutcome::BuildFailed(words) => Err(RendererError::KernelBuildError(words)),
                SetupOutcome::BufferFailed(words) => Err(RendererError::CreateBufferError(words)),
            },
    {
        match outcome {
            SetupOutcome::Ready => {
                self.ready = true;
                Ok(())
            },
            SetupOutcome::BuildFailed(words) => Err(RendererError::KernelBuildError(words)),
            SetupOutcome::BufferFailed(words) => Err(RendererError::CreateBufferError(words)),
        }
    }
}

} // verus!
