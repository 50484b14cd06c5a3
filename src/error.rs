use vstd::prelude::*;

verus! {

/// Why one work cycle was abandoned.
#[derive(Clone, Copy, Debug, PartialEq, Eq, Structural)]
pub enum CycleError {
    /// A camera's frame source ended before it delivered a frame.
    FrameUnavailable,
    /// The detector failed on the batch of frames.
    Inference,
    /// A batch of per-camera results does not line up with the cameras it is for.
    BatchMismatch,
    /// An overlap matrix does not have one row per candidate and one column per
    /// layout position.
    MalformedOverlaps,
    /// A result names a camera that is not registered.
    UnknownCamera,
}

} // verus!
