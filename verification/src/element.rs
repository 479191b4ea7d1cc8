//! The element: negotiation, transformation of frames, and what it declares of itself.
use vstd::prelude::*;

use crate::blend::{lemma_weight_sum_monotone, sums_fit};
use crate::combine::{alpha_restored, combined};
use crate::mode::FrameStackMode;
use crate::plane::{compacted, readable, writable};
use crate::settings::{
    property_kind, PropertyValue, Settings, DEFAULT_MODE, DEFAULT_NUM_FRAMES,
    DEFAULT_PASSTHROUGH_ALPHA, MAX_NUM_FRAMES,
};
use crate::state::{most_recent, State};
use crate::video::{AlphaPos, VideoFormat, VideoFrame, VideoInfo};

verus! {

/// Accumulates the frames of a stream.
pub struct FrameStack {
    pub settings: Settings,
    /// `None` until video is negotiated.
    pub state: Option<State>,
}

/// Why a frame was not transformed.
#[derive(Debug, PartialEq, Eq, Clone, Copy, Structural)]
pub enum TransformError {
    /// No video has been negotiated.
    NoState,
    /// The frame is not of the negotiated format and size.
    FrameMismatch,
    /// The data of the frame is not accessible.
    NoPlane,
}

/// What a failed transformation is answered with.
#[derive(Debug, PartialEq, Eq, Clone, Copy, Structural)]
pub enum FlowError {
    NotNegotiated,
    Error,
}

impl TransformError {
    /// What the failure is answered with.
    pub fn flow_error(self) -> (flow: FlowError)
        ensures
            flow == FlowError::Error <==> self == TransformError::NoPlane,
            flow == FlowError::NotNegotiated <==> self != TransformError::NoPlane,
    {
        match self {
            TransformError::NoState | TransformError::FrameMismatch => FlowError::NotNegotiated,
            TransformError::NoPlane => FlowError::Error,
        }
    }

    /// What is posted as a negotiation error, if anything.
    pub fn message(self) -> (text: Option<&'static str>)
        ensures
            match self {
                TransformError::NoState => text matches Some(t) && t@ == "Have no state yet"@,
                TransformError::FrameMismatch => text matches Some(t) && t@
                    == "Frame format does not match negotiated caps"@,
                TransformError::NoPlane => text is None,
            },
    {
        match self {
            TransformError::NoState => Some("Have no state yet"),
            TransformError::FrameMismatch => Some("Frame format does not match negotiated caps"),
            TransformError::NoPlane => None,
        }
    }
}

/// Whether a frame is of the negotiated format and size.
pub open spec fn negotiated(info: VideoInfo, frame: &VideoFrame<'_>) -> bool {
    &&& info.format == frame.format
    &&& info.width == frame.width
    &&& info.height == frame.height
}

/// Whether a plane of `len` bytes holds whole rows of the negotiated video.
pub open spec fn plane_fits(len: int, stride: int, info: VideoInfo) -> bool {
    &&& readable(len, stride, info.height as int, info.width * info.pixel_stride)
    &&& writable(len, stride, info.height as int, info.width * info.pixel_stride)
}

/// Whether a plane of `len` bytes holds whole rows of the negotiated video.
fn plane_is_usable(len: usize, stride: usize, info: VideoInfo) -> (usable: bool)
    requires
        info.wf(),
    ensures
        usable == plane_fits(len as int, stride as int, info),
{
    let height = info.height as u128;
    let line = (info.width as usize * info.pixel_stride) as u128;
    let step = stride as u128;
    proof {
        assert(0 <= height * line <= u32::MAX * u64::MAX && 0 <= height * step <= u32::MAX
            * u64::MAX) by (nonlinear_arith)
            requires
                0 <= height <= u32::MAX,
                0 <= line <= u64::MAX,
                0 <= step <= u64::MAX,
        ;
        if 0 < height {
            assert(0 <= (height - 1) * step <= height * step) by (nonlinear_arith)
                requires
                    0 < height,
                    0 <= step,
            ;
        }
    }
    let whole_rows = if height * line == 0 {
        0 < stride || line == 0
    } else {
        line <= step && height * step <= len as u128
    };
    let room = height == 0 || (line <= step && (height - 1) * step + line <= len as u128);
    whole_rows && room
}

/// The history of `state` once a plane with rows `stride` bytes apart was pushed.
pub open spec fn history_with(
    state: &State,
    plane: Seq<u8>,
    stride: int,
    num_frames: nat,
) -> Seq<Seq<u8>> {
    most_recent(
        state.frames().push(
            compacted(plane, stride, state.info.height as int, state.line_bytes as int),
        ),
        num_frames,
    )
}

/// What a plane is transformed into where the history, with the plane itself as its newest
/// frame, is `frames`.
pub open spec fn output(
    plane: Seq<u8>,
    stride: int,
    info: VideoInfo,
    settings: Settings,
    frames: Seq<Seq<u8>>,
) -> Seq<u8> {
    let height = info.height as int;
    let line = info.width * info.pixel_stride;
    let blended = combined(plane, stride, height, line, frames, settings.mode);
    if settings.passthrough_alpha {
        alpha_restored(
            blended,
            stride,
            height,
            line,
            info.pixel_stride as int,
            info.format.spec_alpha_pos(),
            frames.last(),
        )
    } else {
        blended
    }
}

impl Default for FrameStack {
    fn default() -> (stack: Self)
        ensures
            stack.wf(),
            stack.state is None,
            stack.settings == (Settings {
                num_frames: DEFAULT_NUM_FRAMES,
                mode: DEFAULT_MODE,
                passthrough_alpha: DEFAULT_PASSTHROUGH_ALPHA,
            }),
            stack.settings.num_frames == 8,
            stack.settings.mode == FrameStackMode::Lighten,
            stack.settings.passthrough_alpha,
    {
        FrameStack { settings: Settings::default(), state: None }
    }
}

impl FrameStack {
    /// Settings and state are each what they should be.
    pub open spec fn wf(&self) -> bool {
        &&& self.settings.wf()
        &&& self.state matches Some(state) ==> state.wf()
    }

    /// Whether a frame, unless it is refused, comes in a plane that holds whole rows.
    pub open spec fn takes(&self, frame: &VideoFrame<'_>) -> bool {
        self.state is Some && negotiated(self.state->0.info, frame) && frame.plane is Some
            ==> plane_fits(
            frame.plane->0@.len() as int,
            frame.stride as int,
            self.state->0.info,
        )
    }

    /// Whether a frame, unless it is refused, comes in a plane that holds whole rows.
    pub fn can_take(&self, frame: &VideoFrame<'_>) -> (usable: bool)
        requires
            self.wf(),
        ensures
            usable == self.takes(frame),
    {
        match (&self.state, &frame.plane) {
            (Some(state), Some(plane)) => {
                state.info.format != frame.format || state.info.width != frame.width
                    || state.info.height != frame.height || plane_is_usable(
                    plane.len(),
                    frame.stride,
                    state.info,
                )
            },
            _ => true,
        }
    }

    /// Start on newly negotiated video, of which no frame has been seen.
    pub fn set_info(&mut self, in_info: VideoInfo)
        requires
            in_info.wf(),
        ensures
            final(self).settings == old(self).settings,
            final(self).state matches Some(state) && state.wf() && state.info == in_info
                && state.src_stride == in_info.stride && state.frames() == Seq::<
                Seq<u8>,
            >::empty(),
            final(self).state matches Some(state) && state.history@.len() == 0
                && state.pixel_stride == in_info.pixel_stride && state.line_bytes == in_info.width
                * in_info.pixel_stride,
            final(self).state matches Some(state) && (state.alpha_pos == AlphaPos::Last <==>
                in_info.format == VideoFormat::Rgba || in_info.format == VideoFormat::Bgra),
            final(self).state matches Some(state) && (state.alpha_pos == AlphaPos::First <==>
                in_info.format == VideoFormat::Argb || in_info.format == VideoFormat::Abgr),
    {
        self.state = Some(State::new(in_info));
    }

    /// Drop the accumulated history, so that a subsequent start sees a clean slate.
    pub fn stop(&mut self)
        ensures
            final(self).settings == old(self).settings,
            final(self).state is None,
    {
        self.state = None;
    }

    /// Change a property.
    pub fn set_property(&mut self, name: &str, value: PropertyValue)
        requires
            property_kind(name@) matches Some(kind) && kind.has_type(value),
        ensures
            final(self).settings == old(self).settings.with(name@, value),
            name@ == "num-frames"@ ==> final(self).settings.num_frames == value->UInt_0 && final(self).settings.mode
                == old(self).settings.mode && final(self).settings.passthrough_alpha == old(self).settings.passthrough_alpha,
            name@ == "mode"@ ==> final(self).settings.mode == value->Mode_0 && final(self).settings.num_frames
                == old(self).settings.num_frames && final(self).settings.passthrough_alpha == old(self).settings.passthrough_alpha,
            name@ == "passthrough-alpha"@ ==> final(self).settings.passthrough_alpha == value->Boolean_0
                && final(self).settings.num_frames == old(self).settings.num_frames && final(self).settings.mode == old(self).settings.mode,
            final(self).state == old(self).state,
            old(self).wf() && property_kind(name@)->0.accepts(value) ==> final(self).wf(),
    {
        self.settings.set_property(name, value);
    }

    /// The value of a property.
    pub fn property(&self, name: &str) -> (value: PropertyValue)
        requires
            property_kind(name@) is Some,
        ensures
            value == self.settings.value(name@),
            name@ == "num-frames"@ ==> value == PropertyValue::UInt(self.settings.num_frames),
            name@ == "mode"@ ==> value == PropertyValue::Mode(self.settings.mode),
            name@ == "passthrough-alpha"@ ==> value == PropertyValue::Boolean(
                self.settings.passthrough_alpha,
            ),
    {
        self.settings.property(name)
    }

    /// Push a frame into the history, then replace it with what the history is combined into,
    /// optionally with its own alpha restored. A frame that is refused is left alone.
    pub fn transform_frame_ip(&mut self, frame: VideoFrame<'_>) -> (result: Result<
        (),
        TransformError,
    >)
        requires
            old(self).wf(),
            old(self).takes(&frame),
        ensures
            final(self).wf(),
            final(self).settings == old(self).settings,
            match result {
                Err(TransformError::NoState) => old(self).state is None,
                Err(TransformError::FrameMismatch) => old(self).state matches Some(state)
                    && !negotiated(state.info, &frame),
                Err(TransformError::NoPlane) => old(self).state matches Some(state) && negotiated(
                    state.info,
                    &frame,
                ) && frame.plane is None,
                Ok(()) => old(self).state matches Some(state) && negotiated(state.info, &frame)
                    && frame.plane is Some,
            },
            result is Ok || result == Err::<(), TransformError>(TransformError::NoPlane) ==> {
                let info = old(self).state->0.info;
                &&& info.format == frame.format
                &&& info.width == frame.width
                &&& info.height == frame.height
            },
            result == Err::<(), TransformError>(TransformError::FrameMismatch) ==> {
                let info = old(self).state->0.info;
                info.format != frame.format || info.width != frame.width || info.height
                    != frame.height
            },
            result is Err ==> final(self).state == old(self).state && (frame.plane matches Some(
                plane,
            ) ==> final(plane)@ == plane@),
            result is Ok ==> {
                let before = old(self).state->0;
                let after = final(self).state->0;
                let plane = frame.plane->0;
                &&& final(self).state is Some
                &&& after.info == before.info
                &&& after.pixel_stride == before.pixel_stride
                &&& after.line_bytes == before.line_bytes
                &&& after.alpha_pos == before.alpha_pos
                &&& after.src_stride == frame.stride
                &&& after.history@.len() == (if before.history@.len() < old(self).settings.num_frames {
                    before.history@.len() + 1
                } else {
                    old(self).settings.num_frames as nat
                })
                &&& forall|k: int|
                    0 <= k < after.history@.len() - 1 ==> (#[trigger] after.history@[k])@
                        == before.history@[before.history@.len() + 1 - after.history@.len() + k]@
                &&& final(plane)@.len() == plane@.len()
                &&& after.frames() == history_with(
                    &before,
                    plane@,
                    frame.stride as int,
                    old(self).settings.num_frames as nat,
                )
                &&& final(plane)@ == output(
                    plane@,
                    frame.stride as int,
                    before.info,
                    old(self).settings,
                    after.frames(),
                )
            },
    {
        let settings = self.settings;
        match &mut self.state {
            None => Err(TransformError::NoState),
            Some(state) => {
                if state.info.format != frame.format || state.info.width != frame.width
                    || state.info.height != frame.height {
                    return Err(TransformError::FrameMismatch);
                }
                match frame.plane {
                    None => Err(TransformError::NoPlane),
                    Some(plane) => {
                        // The rows of this very buffer are `frame.stride` bytes apart.
                        state.src_stride = frame.stride;
                        FrameStack::push_frame(state, plane, settings.num_frames as usize);
                        assert(sums_fit(settings.mode, state.frames().len())) by {
                            lemma_weight_sum_monotone(
                                state.frames().len(),
                                MAX_NUM_FRAMES as nat,
                            );
                        }
                        FrameStack::combine(state, plane, frame.stride, settings.mode);
                        if settings.passthrough_alpha {
                            FrameStack::restore_alpha(state, plane, frame.stride);
                        }
                        Ok(())
                    },
                }
            },
        }
    }
}

} // verus!
