//! How the frames of the history are combined.
use vstd::prelude::*;

verus! {

/// Per-pixel combination mode.
#[derive(Debug, PartialEq, Eq, PartialOrd, Ord, Hash, Clone, Copy, Structural)]
#[non_exhaustive]
pub enum FrameStackMode {
    /// Per-channel max over the last N frames (light trails / "light HDR").
    Lighten,
    /// Per-channel mean over the last N frames (long-exposure look).
    Average,
    /// Weighted sum, newest frame full weight, oldest weight 1, normalized.
    LinearDecay,
}

impl Default for FrameStackMode {
    fn default() -> (mode: Self)
        ensures
            mode == FrameStackMode::Lighten,
    {
        FrameStackMode::Lighten
    }
}

} // verus!
