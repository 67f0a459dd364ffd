//! Error kinds of the render-pipeline core.

use vstd::prelude::*;

verus! {

use crate::sample::SampleType;

/// Everything that can go wrong while building or running a pipeline.
#[derive(Clone, Debug)]
pub enum Error {
    /// A buffer allocation failed or would exceed the address space.
    OutOfMemory,
    /// A requested sub-rectangle escapes its parent rectangle.
    OutOfBounds,
    /// A stage's declared input type disagrees with the channel's incoming
    /// sample type: stage name, channel, expected type, actual type.
    PipelineChannelTypeMismatch(String, usize, SampleType, SampleType),
    /// A stage with nonzero shift was added after a canvas-extending stage.
    PipelineShiftAfterExpand(String),
    /// The channel is used by no stage, so its type cannot be resolved.
    PipelineChannelUnused(usize),
    /// Accumulated per-channel downsampling left the representable range.
    ArithmeticOverflow,
    /// A group offset is not aligned to a used channel's downsampling.
    MisalignedGroup(usize),
    /// A channel carries a sample type that no provided fill function covers.
    UnhandledChannelType(usize),
}

} // verus!
