//! Writing the combined frames, and the alpha of the newest one, into an output plane.
use std::collections::VecDeque;
use vstd::arithmetic::div_mod::*;
use vstd::prelude::*;

use crate::blend::{
    blend, brightest, column, lemma_means_are_bytes, lemma_totals_bounded,
    lemma_weight_sum_fits, lemma_weight_sum_monotone, lemma_weight_sum_step, sums_fit, total,
    weight_sum, weighted_total,
};
use crate::mode::FrameStackMode;
use crate::plane::{compact_offset, lemma_visible_row, visible, writable};
use crate::state::{contents, State};
use crate::video::AlphaPos;
use crate::FrameStack;

verus! {

/// A plane whose visible bytes are each the combination of what `frames` hold there.
pub open spec fn combined(
    dst: Seq<u8>,
    stride: int,
    height: int,
    line: int,
    frames: Seq<Seq<u8>>,
    mode: FrameStackMode,
) -> Seq<u8> {
    Seq::new(
        dst.len(),
        |p: int|
            if visible(p, stride, height, line) {
                blend(mode, column(frames, compact_offset(p, stride, line)))
            } else {
                dst[p]
            },
    )
}

/// Whether byte `p` of a plane is a visible alpha byte.
pub open spec fn is_alpha(
    p: int,
    stride: int,
    height: int,
    line: int,
    pixel_stride: int,
    alpha_pos: AlphaPos,
) -> bool {
    &&& visible(p, stride, height, line)
    &&& alpha_pos.offset(pixel_stride) == Some((p % stride) % pixel_stride)
}

/// A plane whose visible alpha bytes are those of the compact frame `newest`.
pub open spec fn alpha_restored(
    dst: Seq<u8>,
    stride: int,
    height: int,
    line: int,
    pixel_stride: int,
    alpha_pos: AlphaPos,
    newest: Seq<u8>,
) -> Seq<u8> {
    Seq::new(
        dst.len(),
        |p: int|
            if is_alpha(p, stride, height, line, pixel_stride, alpha_pos) {
                newest[compact_offset(p, stride, line)]
            } else {
                dst[p]
            },
    )
}

/// A plane in which the `line` bytes from `start` on are combined from `frames` at the offsets
/// from `off` on.
pub open spec fn row_combined(
    dst: Seq<u8>,
    start: int,
    off: int,
    line: int,
    frames: Seq<Seq<u8>>,
    mode: FrameStackMode,
) -> Seq<u8> {
    Seq::new(
        dst.len(),
        |p: int|
            if start <= p < start + line {
                blend(mode, column(frames, off + (p - start)))
            } else {
                dst[p]
            },
    )
}

/// The first `k + 1` bytes of a column are its first `k` bytes and one byte more.
proof fn lemma_column_step(frames: Seq<Seq<u8>>, i: int, k: int)
    requires
        0 <= k < frames.len(),
    ensures
        column(frames, i).take(k + 1).drop_last() == column(frames, i).take(k),
        column(frames, i).take(k + 1).last() == frames[k][i],
        column(frames, i).take(k + 1).len() == k + 1,
{
    assert(column(frames, i).take(k + 1).drop_last() =~= column(frames, i).take(k));
}

fn lighten_row(history: &VecDeque<Vec<u8>>, dst: &mut [u8], start: usize, off: usize, line: usize)
    requires
        history@.len() >= 1,
        start + line <= old(dst)@.len(),
        forall|k: int|
            0 <= k < history@.len() ==> off + line <= (#[trigger] history@[k])@.len(),
    ensures
        final(dst)@ == row_combined(
            old(dst)@,
            start as int,
            off as int,
            line as int,
            contents(history@),
            FrameStackMode::Lighten,
        ),
{
    let n = history.len();
    let ghost frames = contents(history@);
    assert(off + line <= history@[n - 1]@.len());
    let newest = &history[n - 1];
    for x in 0..line
        invariant
            n == history@.len() >= 1,
            frames == contents(history@),
            *newest == history@[n - 1],
            off + line <= newest.len(),
            start + line <= dst.len(),
            dst@.len() == old(dst)@.len(),
            forall|p: int|
                0 <= p < dst@.len() ==> #[trigger] dst@[p] == if start <= p < start + x {
                    frames[n - 1][off + (p - start)]
                } else {
                    old(dst)@[p]
                },
    {
        dst[start + x] = newest[off + x];
    }
    for k in 0..n - 1
        invariant
            n == history@.len() >= 1,
            frames == contents(history@),
            off + line <= usize::MAX,
            start + line <= dst.len(),
            dst@.len() == old(dst)@.len(),
            forall|j: int|
                0 <= j < history@.len() ==> off + line <= (#[trigger] history@[j])@.len(),
            forall|p: int|
                0 <= p < dst@.len() ==> #[trigger] dst@[p] == if start <= p < start + line {
                    let i = off + (p - start);
                    let seen = brightest(column(frames, i).take(k as int));
                    if seen < frames[n - 1][i] {
                        frames[n - 1][i]
                    } else {
                        seen
                    }
                } else {
                    old(dst)@[p]
                },
    {
        assert(off + line <= history@[k as int]@.len());
        let src = &history[k];
        let ghost before = dst@;
        for x in 0..line
            invariant
                k < n - 1,
                n == history@.len(),
                frames == contents(history@),
                *src == history@[k as int],
                off + line <= src.len(),
                start + line <= dst.len(),
                dst@.len() == before.len(),
                forall|p: int|
                    0 <= p < dst@.len() ==> #[trigger] dst@[p] == if start <= p < start + x
                        && before[p] < frames[k as int][off + (p - start)] {
                        frames[k as int][off + (p - start)]
                    } else {
                        before[p]
                    },
        {
            let s = src[off + x];
            if s > dst[start + x] {
                dst[start + x] = s;
            }
        }
        assert forall|p: int| 0 <= p < dst@.len() implies #[trigger] dst@[p] == if start <= p
            < start + line {
            let i = off + (p - start);
            let seen = brightest(column(frames, i).take(k + 1));
            if seen < frames[n - 1][i] {
                frames[n - 1][i]
            } else {
                seen
            }
        } else {
            old(dst)@[p]
        } by {
            assert(before[p] == before[p]);
            if start <= p < start + line {
                lemma_column_step(frames, off + (p - start), k as int);
            }
        }
    }
    assert forall|p: int| start <= p < start + line implies #[trigger] dst@[p] == brightest(
        column(frames, off + (p - start)),
    ) by {
        let i = off + (p - start);
        lemma_column_step(frames, i, n - 1);
        assert(column(frames, i).take(n as int) =~= column(frames, i));
    }
    assert(dst@ =~= row_combined(
        old(dst)@,
        start as int,
        off as int,
        line as int,
        frames,
        FrameStackMode::Lighten,
    ));
}

fn average_row(history: &VecDeque<Vec<u8>>, dst: &mut [u8], start: usize, off: usize, line: usize)
    requires
        history@.len() >= 1,
        sums_fit(FrameStackMode::Average, history@.len()),
        start + line <= old(dst)@.len(),
        forall|k: int|
            0 <= k < history@.len() ==> off + line <= (#[trigger] history@[k])@.len(),
    ensures
        final(dst)@ == row_combined(
            old(dst)@,
            start as int,
            off as int,
            line as int,
            contents(history@),
            FrameStackMode::Average,
        ),
{
    let n = history.len();
    let ghost frames = contents(history@);
    assert(off + line <= history@[n - 1]@.len() && history@[n - 1].len() <= usize::MAX);
    for x in 0..line
        invariant
            n == history@.len() >= 1,
            255 * n <= u32::MAX,
            frames == contents(history@),
            off + line <= usize::MAX,
            start + line <= dst.len(),
            dst@.len() == old(dst)@.len(),
            forall|j: int|
                0 <= j < history@.len() ==> off + line <= (#[trigger] history@[j])@.len(),
            forall|p: int|
                0 <= p < dst@.len() ==> #[trigger] dst@[p] == if start <= p < start + x {
                    blend(FrameStackMode::Average, column(frames, off + (p - start)))
                } else {
                    old(dst)@[p]
                },
    {
        let ghost samples = column(frames, off + x);
        let mut sum: u32 = 0;
        assert(samples.take(0) =~= Seq::<u8>::empty());
        for k in 0..n
            invariant
                n == history@.len(),
                255 * n <= u32::MAX,
                frames == contents(history@),
                samples == column(frames, off + x),
                x < line,
                off + line <= usize::MAX,
                forall|j: int|
                    0 <= j < history@.len() ==> off + line <= (#[trigger] history@[j])@.len(),
                sum == total(samples.take(k as int)),
                sum <= 255 * k,
        {
            assert(off + line <= history@[k as int]@.len());
            proof {
                lemma_column_step(frames, off + x, k as int);
            }
            sum += history[k][off + x] as u32;
        }
        assert(samples.take(n as int) =~= samples);
        proof {
            lemma_means_are_bytes(samples);
        }
        dst[start + x] = (sum / n as u32) as u8;
    }
    assert(dst@ =~= row_combined(
        old(dst)@,
        start as int,
        off as int,
        line as int,
        frames,
        FrameStackMode::Average,
    ));
}

fn decay_row(history: &VecDeque<Vec<u8>>, dst: &mut [u8], start: usize, off: usize, line: usize)
    requires
        history@.len() >= 1,
        sums_fit(FrameStackMode::LinearDecay, history@.len()),
        start + line <= old(dst)@.len(),
        forall|k: int|
            0 <= k < history@.len() ==> off + line <= (#[trigger] history@[k])@.len(),
    ensures
        final(dst)@ == row_combined(
            old(dst)@,
            start as int,
            off as int,
            line as int,
            contents(history@),
            FrameStackMode::LinearDecay,
        ),
{
    let n = history.len();
    let ghost frames = contents(history@);
    assert(off + line <= history@[n - 1]@.len() && history@[n - 1].len() <= usize::MAX);
    proof {
        lemma_weight_sum_step(n as nat);
        lemma_weight_sum_fits(n as nat);
    }
    // Newest frame (back, k = n - 1) gets weight n; oldest (k = 0) gets weight 1.
    let total_w: u32 = (n as u32) * (n as u32 + 1) / 2;
    for x in 0..line
        invariant
            n == history@.len() >= 1,
            total_w == weight_sum(n as nat) >= 1,
            255 * weight_sum(n as nat) <= u32::MAX,
            n < u32::MAX,
            frames == contents(history@),
            off + line <= usize::MAX,
            start + line <= dst.len(),
            dst@.len() == old(dst)@.len(),
            forall|j: int|
                0 <= j < history@.len() ==> off + line <= (#[trigger] history@[j])@.len(),
            forall|p: int|
                0 <= p < dst@.len() ==> #[trigger] dst@[p] == if start <= p < start + x {
                    blend(FrameStackMode::LinearDecay, column(frames, off + (p - start)))
                } else {
                    old(dst)@[p]
                },
    {
        let ghost samples = column(frames, off + x);
        let mut acc: u32 = 0;
        assert(samples.take(0) =~= Seq::<u8>::empty());
        for k in 0..n
            invariant
                n == history@.len(),
                n < u32::MAX,
                255 * weight_sum(n as nat) <= u32::MAX,
                frames == contents(history@),
                samples == column(frames, off + x),
                x < line,
                off + line <= usize::MAX,
                forall|j: int|
                    0 <= j < history@.len() ==> off + line <= (#[trigger] history@[j])@.len(),
                acc == weighted_total(samples.take(k as int)),
        {
            assert(off + line <= history@[k as int]@.len());
            proof {
                lemma_column_step(frames, off + x, k as int);
                lemma_totals_bounded(samples.take(k + 1));
                lemma_weight_sum_monotone((k + 1) as nat, n as nat);
            }
            let w: u32 = (k as u32) + 1;
            let px: u32 = history[k][off + x] as u32;
            assert(w * px == (k + 1) as nat * frames[k as int][off + x] as nat);
            assert(0 <= w * px) by (nonlinear_arith);
            acc += w * px;
        }
        assert(samples.take(n as int) =~= samples);
        proof {
            lemma_means_are_bytes(samples);
        }
        dst[start + x] = (acc / total_w) as u8;
    }
    assert(dst@ =~= row_combined(
        old(dst)@,
        start as int,
        off as int,
        line as int,
        frames,
        FrameStackMode::LinearDecay,
    ));
}

impl FrameStack {
    /// Combine the ring buffer into the in-place output frame according to
    /// `mode`. `dst` is the output plane data (with `dst_stride` padding).
    pub fn combine(state: &State, dst: &mut [u8], dst_stride: usize, mode: FrameStackMode)
        requires
            state.wf(),
            state.frames().len() >= 1,
            sums_fit(mode, state.frames().len()),
            writable(
                old(dst)@.len() as int,
                dst_stride as int,
                state.info.height as int,
                state.line_bytes as int,
            ),
        ensures
            final(dst)@ == combined(
                old(dst)@,
                dst_stride as int,
                state.info.height as int,
                state.line_bytes as int,
                state.frames(),
                mode,
            ),
    {
        let height = state.info.height as usize;
        let line_bytes = state.line_bytes;
        let ghost frames = state.frames();
        let ghost stride = dst_stride as int;
        let ghost line = line_bytes as int;
        assert(dst@ =~= combined(old(dst)@, stride, 0, line, frames, mode)) by {
            assert forall|p: int| 0 <= p implies !visible(p, stride, 0, line) by {
                if 0 < stride {
                    lemma_div_pos_is_pos(p, stride);
                }
            }
        }
        for y in 0..height
            invariant
                state.wf(),
                height == state.info.height,
                line_bytes == state.line_bytes,
                frames == state.frames(),
                frames.len() >= 1,
                sums_fit(mode, frames.len()),
                stride == dst_stride,
                line == line_bytes,
                writable(dst.len() as int, stride, height as int, line),
                dst@ == combined(old(dst)@, stride, y as int, line, frames, mode),
        {
            proof {
                assert(y * stride <= (height - 1) * stride && 0 <= y * line <= y * stride && y
                    * line + line <= height * line) by (nonlinear_arith)
                    requires
                        0 <= y <= height - 1,
                        0 <= line <= stride,
                ;
            }
            let start: usize = y * dst_stride;
            let off: usize = y * line_bytes;
            let ghost before = dst@;
            match mode {
                FrameStackMode::Lighten => {
                    lighten_row(&state.history, dst, start, off, line_bytes);
                },
                FrameStackMode::Average => {
                    average_row(&state.history, dst, start, off, line_bytes);
                },
                FrameStackMode::LinearDecay => {
                    decay_row(&state.history, dst, start, off, line_bytes);
                },
            }
            assert(dst@ =~= combined(old(dst)@, stride, y + 1, line, frames, mode)) by {
                assert forall|p: int| 0 <= p < dst@.len() implies #[trigger] dst@[p] == combined(
                    old(dst)@,
                    stride,
                    y + 1,
                    line,
                    frames,
                    mode,
                )[p] by {
                    lemma_visible_row(p, stride, y as int, line);
                    assert(before[p] == combined(old(dst)@, stride, y as int, line, frames, mode)[p]);
                }
            }
        }
    }

    /// Restore the alpha channel byte of every pixel from the latest frame
    /// in `history` (which is the unmodified copy of the current input).
    pub fn restore_alpha(state: &State, dst: &mut [u8], dst_stride: usize)
        requires
            state.wf(),
            state.alpha_pos != AlphaPos::Absent ==> state.frames().len() >= 1 && writable(
                old(dst)@.len() as int,
                dst_stride as int,
                state.info.height as int,
                state.line_bytes as int,
            ),
        ensures
            final(dst)@ == alpha_restored(
                old(dst)@,
                dst_stride as int,
                state.info.height as int,
                state.line_bytes as int,
                state.pixel_stride as int,
                state.alpha_pos,
                state.frames().last(),
            ),
    {
        let alpha_offset: usize = match state.alpha_pos {
            AlphaPos::Absent => {
                assert(dst@ =~= alpha_restored(
                    old(dst)@,
                    dst_stride as int,
                    state.info.height as int,
                    state.line_bytes as int,
                    state.pixel_stride as int,
                    state.alpha_pos,
                    state.frames().last(),
                ));
                return;
            },
            AlphaPos::Last => state.pixel_stride - 1,
            AlphaPos::First => 0,
        };
        let height = state.info.height as usize;
        let width = state.info.width as usize;
        let line_bytes = state.line_bytes;
        let pixel_stride = state.pixel_stride;
        let n = state.history.len();
        let newest = &state.history[n - 1];
        let ghost stride = dst_stride as int;
        let ghost line = line_bytes as int;
        let ghost ps = pixel_stride as int;
        let ghost pos = state.alpha_pos;
        assert(dst@ =~= alpha_restored(old(dst)@, stride, 0, line, ps, pos, newest@)) by {
            assert forall|p: int| 0 <= p implies !visible(p, stride, 0, line) by {
                if 0 < stride {
                    lemma_div_pos_is_pos(p, stride);
                }
            }
        }
        for y in 0..height
            invariant
                newest@.len() == height * line,
                line == line_bytes == width * pixel_stride,
                ps == pixel_stride >= 1,
                stride == dst_stride,
                pos.offset(ps) == Some(alpha_offset as int),
                alpha_offset < pixel_stride,
                writable(dst.len() as int, stride, height as int, line),
                dst@ == alpha_restored(old(dst)@, stride, y as int, line, ps, pos, newest@),
        {
            proof {
                assert(y * stride <= (height - 1) * stride && 0 <= y * line <= y * stride && y
                    * line + line <= height * line) by (nonlinear_arith)
                    requires
                        0 <= y <= height - 1,
                        0 <= line <= stride,
                ;
            }
            assert(newest.len() == height * line);
            let start: usize = y * dst_stride;
            let off: usize = y * line_bytes;
            let ghost before = dst@;
            assert(0 * ps == 0);
            for px in 0..width
                invariant
                    off + line <= newest.len(),
                    line == line_bytes == width * pixel_stride,
                    ps == pixel_stride >= 1,
                    alpha_offset < pixel_stride,
                    start + line <= dst.len(),
                    dst@.len() == before.len(),
                    forall|p: int|
                        0 <= p < dst@.len() ==> #[trigger] dst@[p] == if start <= p < start + px
                            * ps && (p - start) % ps == alpha_offset {
                            newest@[off + (p - start)]
                        } else {
                            before[p]
                        },
            {
                proof {
                    assert(0 <= px * ps && px * ps + ps <= width * ps && (px + 1) * ps == px * ps
                        + ps) by (nonlinear_arith)
                        requires
                            0 <= px < width,
                            1 <= ps,
                    ;
                }
                let x: usize = px * pixel_stride + alpha_offset;
                let ghost inner = dst@;
                dst[start + x] = newest[off + x];
                assert forall|p: int| 0 <= p < dst@.len() implies #[trigger] dst@[p] == if start
                    <= p < start + (px + 1) * ps && (p - start) % ps == alpha_offset {
                    newest@[off + (p - start)]
                } else {
                    before[p]
                } by {
                    assert(inner[p] == inner[p]);
                    if start + px * ps <= p < start + (px + 1) * ps {
                        lemma_fundamental_div_mod_converse(
                            p - start,
                            ps,
                            px as int,
                            p - start - px * ps,
                        );
                    }
                }
            }
            assert(dst@ =~= alpha_restored(old(dst)@, stride, y + 1, line, ps, pos, newest@)) by {
                assert forall|p: int| 0 <= p < dst@.len() implies #[trigger] dst@[p]
                    == alpha_restored(old(dst)@, stride, y + 1, line, ps, pos, newest@)[p] by {
                    lemma_visible_row(p, stride, y as int, line);
                    assert(before[p] == alpha_restored(
                        old(dst)@,
                        stride,
                        y as int,
                        line,
                        ps,
                        pos,
                        newest@,
                    )[p]);
                }
            }
        }
    }
}

} // verus!
