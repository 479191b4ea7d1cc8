//! What a stream keeps from frame to frame.
use std::collections::VecDeque;
use vstd::prelude::*;

use crate::plane::{compacted, lemma_compacted_row, lemma_compacted_unpadded, readable};
use crate::settings::MAX_NUM_FRAMES;
use crate::video::{AlphaPos, VideoFormat, VideoInfo};
use crate::FrameStack;

verus! {

/// The last `n` items of `items`, or all of them where there are fewer.
pub open spec fn most_recent<T>(items: Seq<T>, n: nat) -> Seq<T> {
    if items.len() <= n {
        items
    } else {
        items.skip(items.len() - n)
    }
}

/// What the frames of a history hold.
pub open spec fn contents(history: Seq<Vec<u8>>) -> Seq<Seq<u8>> {
    Seq::new(history.len(), |k: int| history[k]@)
}

/// The negotiated video and the frames of it that were seen last.
pub struct State {
    pub info: VideoInfo,
    /// Bytes per pixel (1..=4 for the accepted formats).
    pub pixel_stride: usize,
    /// Visible width in bytes (= width * pixel_stride).
    pub line_bytes: usize,
    /// Source plane stride (with padding) in bytes: at first that of the negotiated video,
    /// from then on that of the latest frame.
    pub src_stride: usize,
    /// Position of alpha (if any) within a pixel for passthrough handling.
    pub alpha_pos: AlphaPos,
    /// Ring buffer of compacted (no padding) frame copies, oldest at front,
    /// newest at back. Each entry has length `line_bytes * height`.
    pub history: VecDeque<Vec<u8>>,
}

impl State {
    /// The contents of the history, oldest frame first.
    pub open spec fn frames(&self) -> Seq<Seq<u8>> {
        contents(self.history@)
    }

    /// Everything but the history agrees with `other`.
    pub open spec fn same_video(&self, other: &State) -> bool {
        &&& self.info == other.info
        &&& self.pixel_stride == other.pixel_stride
        &&& self.line_bytes == other.line_bytes
        &&& self.src_stride == other.src_stride
        &&& self.alpha_pos == other.alpha_pos
    }

    /// The derived fields are those of the negotiated video, and each frame is a whole one.
    pub open spec fn wf(&self) -> bool {
        &&& self.info.wf()
        &&& self.pixel_stride == self.info.pixel_stride
        &&& self.line_bytes == self.info.width * self.info.pixel_stride
        &&& self.alpha_pos == self.info.format.spec_alpha_pos()
        &&& forall|k: int|
            0 <= k < self.history@.len() ==> (#[trigger] self.history@[k])@.len()
                == self.info.height * self.line_bytes
    }

    /// The state of a stream of which no frame has been seen.
    pub fn new(info: VideoInfo) -> (state: State)
        requires
            info.wf(),
        ensures
            state.wf(),
            state.info == info,
            state.src_stride == info.stride,
            state.frames() == Seq::<Seq<u8>>::empty(),
            state.history@.len() == 0,
            state.pixel_stride == info.pixel_stride,
            state.line_bytes == info.width * info.pixel_stride,
            state.alpha_pos == AlphaPos::Last <==> info.format == VideoFormat::Rgba || info.format
                == VideoFormat::Bgra,
            state.alpha_pos == AlphaPos::First <==> info.format == VideoFormat::Argb || info.format
                == VideoFormat::Abgr,
    {
        let pixel_stride = info.pixel_stride;
        State {
            info,
            pixel_stride,
            line_bytes: info.width as usize * pixel_stride,
            src_stride: info.stride,
            alpha_pos: info.format.alpha_pos(),
            history: VecDeque::with_capacity(MAX_NUM_FRAMES as usize),
        }
    }
}

impl FrameStack {
    /// Push the current input frame into the history (compact, no row
    /// padding), evicting old entries until `history.len() <= num_frames`.
    pub fn push_frame(state: &mut State, src: &[u8], num_frames: usize)
        requires
            old(state).wf(),
            readable(
                src@.len() as int,
                old(state).src_stride as int,
                old(state).info.height as int,
                old(state).line_bytes as int,
            ),
        ensures
            final(state).wf(),
            final(state).same_video(old(state)),
            final(state).frames() == most_recent(
                old(state).frames().push(
                    compacted(
                        src@,
                        old(state).src_stride as int,
                        old(state).info.height as int,
                        old(state).line_bytes as int,
                    ),
                ),
                num_frames as nat,
            ),
            final(state).info == old(state).info,
            final(state).history@.len() == (if old(state).history@.len() < num_frames {
                old(state).history@.len() + 1
            } else {
                num_frames as nat
            }),
            forall|k: int|
                0 <= k < final(state).history@.len() - 1 ==> (#[trigger] final(state).history@[k])@ == old(state).history@[old(state).history@.len() + 1 - final(state).history@.len() + k]@,
    {
        let height = state.info.height as usize;
        let line_bytes = state.line_bytes;
        let stride = state.src_stride;
        proof {
            assert(src.len() <= usize::MAX);
            if height * line_bytes != 0 {
                assert(height * line_bytes <= height * stride) by (nonlinear_arith)
                    requires
                        line_bytes <= stride,
                        0 <= height,
                ;
            }
        }
        let size: usize = height * line_bytes;
        let mut compact: Vec<u8> = Vec::with_capacity(size);

        if stride == line_bytes {
            // No padding: copy in one go.
            compact.extend_from_slice(&src[0..size]);
            proof {
                lemma_compacted_unpadded(src@, height as int, line_bytes as int);
            }
            assert(compact@ =~= src@.take(size as int));
        } else if size > 0 {
            assert(line_bytes > 0) by (nonlinear_arith)
                requires
                    height * line_bytes > 0,
            ;
            assert(compact@ =~= compacted(src@, stride as int, 0, line_bytes as int));
            for y in 0..height
                invariant
                    0 < line_bytes <= stride,
                    height * stride <= src.len(),
                    compact@ == compacted(src@, stride as int, y as int, line_bytes as int),
            {
                proof {
                    assert(y * stride + stride <= height * stride) by (nonlinear_arith)
                        requires
                            0 <= y < height,
                            0 <= stride,
                    ;
                    lemma_compacted_row(src@, stride as int, y as int, line_bytes as int);
                }
                let start: usize = y * stride;
                let ghost before = compact@;
                compact.extend_from_slice(&src[start..start + line_bytes]);
                assert(compact@ =~= before + src@.subrange(
                    start as int,
                    start + line_bytes as int,
                ));
            }
        }
        assert(compact@ =~= compacted(src@, stride as int, height as int, line_bytes as int));

        let ghost frame = compact@;
        let ghost pushed = old(state).frames().push(frame);
        state.history.push_back(compact);
        while state.history.len() > num_frames
            invariant
                state.wf(),
                state.same_video(old(state)),
                state.history@.len() <= pushed.len(),
                state.history@.len() >= num_frames || state.history@.len() == pushed.len(),
                state.frames() == pushed.skip(pushed.len() - state.history@.len()),
            decreases state.history@.len(),
        {
            let ghost before = state.frames();
            state.history.pop_front();
            assert(state.frames() =~= before.skip(1));
        }
        assert(state.frames() =~= most_recent(pushed, num_frames as nat));
        assert forall|k: int| 0 <= k < state.history@.len() - 1 implies (#[trigger] state.history@[k])@
            == old(state).history@[old(state).history@.len() + 1 - state.history@.len() + k]@ by {
            assert(state.frames()[k] == pushed[pushed.len() - state.history@.len() + k]);
        }
    }
}

} // verus!
