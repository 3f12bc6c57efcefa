//! What can go wrong when rendering.

use vstd::prelude::*;

verus! {

/// Why a frame was not rendered. Each failure of the device carries the
/// device's own words.
#[derive(Debug, PartialEq, Eq)]
pub enum RendererError {
    /// The image is wider or higher than the kernel can be told.
    DimensionsTooBigError,
    /// A frame was asked for before the device had been set up.
    RendererNotInitializedError,
    /// The kernel did not build.
    KernelBuildError(String),
    /// A buffer could not be had.
    CreateBufferError(String),
    /// The kernel did not take its arguments.
    AddArgumentsError(String),
    /// The kernel did not run.
    ExecuteKernelError(String),
    /// The image could not be read back.
    ReadBufferError(String),
    /// Anything else.
    Unknown,
}

} // verus!
