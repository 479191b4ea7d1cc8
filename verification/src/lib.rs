//! Temporal accumulation of video frames: the last frames of a stream are combined, byte by
//! byte, into each frame that goes out.
pub mod blend;
pub mod combine;
pub mod declare;
pub mod element;
pub mod laws;
pub mod meaning;
pub mod mode;
pub mod plane;
pub mod settings;
pub mod state;
pub mod video;

pub use element::FrameStack;
pub use mode::FrameStackMode;
