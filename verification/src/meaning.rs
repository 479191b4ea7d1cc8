//! What the element does, said of rows, pixels and frames themselves.
//!
//! Rows are counted from the top, pixels of a row from the left, frames of a history from the
//! oldest. The byte at offset `c` of pixel `px` in row `y` stands at `y * stride + (px *
//! pixel_stride + c)` in a plane and at `y * line + (px * pixel_stride + c)` in a frame of the
//! history, where a line has `width * pixel_stride` bytes.
use vstd::arithmetic::div_mod::*;
use vstd::prelude::*;

use crate::blend::{
    blend, brightest, column, lemma_means_are_bytes, lemma_weight_sum_step, sums_fit, total,
    weight_sum, weighted_total,
};
use crate::combine::{alpha_restored, combined, is_alpha};
use crate::declare::accepted_formats;
use crate::element::{history_with, negotiated, output, plane_fits};
use crate::laws::{exchanged, history_after, law_blend_within_samples, law_lighten_is_maximum};
use crate::mode::FrameStackMode;
use crate::plane::{compact_offset, compacted, readable, visible, writable};
use crate::settings::{
    lemma_property_names_distinct, property_kind, PropertyKind, PropertySpec, PropertyValue,
    Settings, DEFAULT_MODE, DEFAULT_NUM_FRAMES, DEFAULT_PASSTHROUGH_ALPHA, MAX_NUM_FRAMES,
    MIN_NUM_FRAMES,
};
use crate::state::{contents, most_recent, State};
use crate::video::{AlphaPos, VideoFormat, VideoFrame, VideoInfo};
use crate::FrameStack;

verus! {

// ---- Samples ----

/// The samples that are combined at an offset are exactly one per frame: what that frame holds
/// there.
pub proof fn law_one_sample_per_frame(frames: Seq<Seq<u8>>, i: int)
    ensures
        column(frames, i).len() == frames.len(),
        forall|k: int|
            0 <= k < frames.len() ==> #[trigger] column(frames, i)[k] == frames[k][i],
{
}

/// The greatest of the samples is one of them, and none is greater.
pub proof fn law_brightest_is_greatest(samples: Seq<u8>)
    requires
        samples.len() > 0,
    ensures
        exists|k: int| 0 <= k < samples.len() && #[trigger] samples[k] == brightest(samples),
        forall|k: int| 0 <= k < samples.len() ==> #[trigger] samples[k] <= brightest(samples),
{
    law_lighten_is_maximum(samples);
}

/// No samples add up to nothing, and one sample more adds itself: once to the sum, and as often
/// as there are samples then to the weighted sum.
pub proof fn law_one_more_sample(samples: Seq<u8>, newest: u8)
    ensures
        total(Seq::<u8>::empty()) == 0,
        weighted_total(Seq::<u8>::empty()) == 0,
        total(samples.push(newest)) == total(samples) + newest,
        weighted_total(samples.push(newest)) == weighted_total(samples) + (samples.len() + 1)
            * newest,
{
    assert(samples.push(newest).drop_last() =~= samples);
}

/// The weights 1 to n add up to half of n (n + 1).
pub proof fn law_sum_of_weights(n: nat)
    ensures
        2 * weight_sum(n) == n * (n + 1),
        weight_sum(n + 1) == weight_sum(n) + (n + 1),
        weight_sum(0) == 0,
    decreases n,
{
    lemma_weight_sum_step(n);
    if n > 0 {
        law_sum_of_weights((n - 1) as nat);
        assert(n * (n + 1) == (n - 1) * n + 2 * n) by (nonlinear_arith);
    }
}

/// For how many frames the sums of a mode fit in 32 bits even where all samples are white: for as
/// many as the longest history has in every mode, and for any number in `Lighten` mode.
pub proof fn law_sums_of_longest_history_fit(mode: FrameStackMode, n: nat)
    ensures
        n <= 256 ==> sums_fit(mode, n),
        sums_fit(FrameStackMode::Lighten, n),
        sums_fit(FrameStackMode::Average, n) <==> 255 * n <= 0xffff_ffff,
        sums_fit(FrameStackMode::LinearDecay, n) <==> 255 * (n * (n + 1)) <= 2 * 0xffff_ffff,
{
    law_sum_of_weights(n);
    if n <= 256 {
        assert(n * (n + 1) <= 256 * 257) by (nonlinear_arith)
            requires
                0 <= n <= 256,
        ;
    }
}

proof fn lemma_quotient_bounds(sum: int, weight: int, quotient: int)
    requires
        0 < weight,
        quotient == sum / weight,
    ensures
        quotient * weight <= sum < (quotient + 1) * weight,
{
    lemma_fundamental_div_mod(sum, weight);
    lemma_mod_bound(sum, weight);
    assert(weight * quotient == quotient * weight && (quotient + 1) * weight == quotient * weight
        + weight) by (nonlinear_arith);
}

proof fn lemma_total_of_column(
    frames: Seq<Seq<u8>>,
    i: int,
    add_sample: spec_fn(int, Seq<u8>) -> int,
)
    requires
        forall|sum: int, frame: Seq<u8>| #[trigger] add_sample(sum, frame) == sum + frame[i],
    ensures
        frames.fold_left(0int, add_sample) == total(column(frames, i)),
    decreases frames.len(),
{
    if frames.len() > 0 {
        lemma_total_of_column(frames.drop_last(), i, add_sample);
        assert(column(frames, i).drop_last() =~= column(frames.drop_last(), i));
    }
}

proof fn lemma_weighted_total_of_column(
    frames: Seq<Seq<u8>>,
    i: int,
    terms: Seq<int>,
    add_term: spec_fn(int, int) -> int,
)
    requires
        terms.len() == frames.len(),
        forall|k: int| 0 <= k < frames.len() ==> #[trigger] terms[k] == (k + 1) * frames[k][i],
        forall|sum: int, term: int| #[trigger] add_term(sum, term) == sum + term,
    ensures
        terms.fold_left(0int, add_term) == weighted_total(column(frames, i)),
    decreases frames.len(),
{
    if frames.len() > 0 {
        let n = frames.len() as int;
        assert forall|k: int| 0 <= k < n - 1 implies #[trigger] terms.drop_last()[k] == (k + 1)
            * frames.drop_last()[k][i] by {
            assert(terms[k] == (k + 1) * frames[k][i]);
        }
        lemma_weighted_total_of_column(frames.drop_last(), i, terms.drop_last(), add_term);
        assert(column(frames, i).drop_last() =~= column(frames.drop_last(), i));
        assert(terms[n - 1] == n * frames[n - 1][i]);
    }
}

/// `Lighten`: the result is what one of the frames holds, and no frame holds more.
pub proof fn law_lighten_of_frames(frames: Seq<Seq<u8>>, i: int)
    requires
        frames.len() > 0,
    ensures
        exists|k: int|
            0 <= k < frames.len() && #[trigger] frames[k][i] == blend(
                FrameStackMode::Lighten,
                column(frames, i),
            ),
        forall|k: int|
            0 <= k < frames.len() ==> #[trigger] frames[k][i] <= blend(
                FrameStackMode::Lighten,
                column(frames, i),
            ),
{
    let samples = column(frames, i);
    law_lighten_is_maximum(samples);
    let k = choose|k: int| 0 <= k < samples.len() && samples[k] == brightest(samples);
    assert(frames[k][i] == samples[k]);
    assert forall|j: int| 0 <= j < frames.len() implies #[trigger] frames[j][i] <= brightest(
        samples,
    ) by {
        assert(samples[j] == frames[j][i]);
    }
}

/// `Average`: the result times the number of frames is the sum of what the frames hold, up to a
/// remainder below that number.
pub proof fn law_average_of_frames(frames: Seq<Seq<u8>>, i: int)
    requires
        frames.len() > 0,
    ensures
        ({
            let n = frames.len() as int;
            let sum = frames.fold_left(0int, |sum: int, frame: Seq<u8>| sum + frame[i]);
            let mean = blend(FrameStackMode::Average, column(frames, i)) as int;
            mean * n <= sum < (mean + 1) * n
        }),
{
    let n = frames.len() as int;
    let add_sample = |sum: int, frame: Seq<u8>| sum + frame[i];
    lemma_total_of_column(frames, i, add_sample);
    lemma_means_are_bytes(column(frames, i));
    lemma_quotient_bounds(
        total(column(frames, i)) as int,
        n,
        blend(FrameStackMode::Average, column(frames, i)) as int,
    );
}

/// `LinearDecay`: with weight 1 for the oldest frame and one more for each newer one, the result
/// times the sum n (n + 1) / 2 of the weights is the weighted sum of what the frames hold, up to
/// a remainder below that sum of the weights.
pub proof fn law_linear_decay_of_frames(frames: Seq<Seq<u8>>, i: int)
    requires
        frames.len() > 0,
    ensures
        ({
            let n = frames.len() as int;
            let sum = Seq::new(frames.len(), |k: int| (k + 1) * frames[k][i]).fold_left(
                0int,
                |sum: int, term: int| sum + term,
            );
            let mean = blend(FrameStackMode::LinearDecay, column(frames, i)) as int;
            mean * (n * (n + 1)) <= 2 * sum < (mean + 1) * (n * (n + 1))
        }),
{
    let n = frames.len() as int;
    let terms = Seq::new(frames.len(), |k: int| (k + 1) * frames[k][i]);
    let add_term = |sum: int, term: int| sum + term;
    lemma_weighted_total_of_column(frames, i, terms, add_term);
    lemma_means_are_bytes(column(frames, i));
    let mean = blend(FrameStackMode::LinearDecay, column(frames, i)) as int;
    let w = weight_sum(frames.len()) as int;
    let sum = weighted_total(column(frames, i)) as int;
    lemma_quotient_bounds(sum, w, mean);
    law_sum_of_weights(frames.len());
    assert(2 * (mean * w) == mean * (2 * w) && 2 * ((mean + 1) * w) == (mean + 1) * (2 * w))
        by (nonlinear_arith);
}

// ---- Planes and frames of the history ----

proof fn lemma_place(y: int, x: int, stride: int)
    requires
        0 <= y,
        0 <= x < stride,
    ensures
        0 <= y * stride,
        (y * stride + x) / stride == y,
        (y * stride + x) % stride == x,
{
    lemma_fundamental_div_mod_converse(y * stride + x, stride, y, x);
    assert(0 <= y * stride) by (nonlinear_arith)
        requires
            0 <= y,
            0 < stride,
    ;
}

/// A byte is visible where its row is one of the video and its place in the row lies within the
/// line; it has the same row and place in a compact copy.
pub proof fn law_visible_bytes(y: int, x: int, stride: int, height: int, line: int)
    requires
        0 <= y,
        0 <= x < stride,
    ensures
        visible(y * stride + x, stride, height, line) <==> y < height && x < line,
        compact_offset(y * stride + x, stride, line) == y * line + x,
{
    lemma_place(y, x, stride);
}

/// A compact copy is made of the lines of a plane, one after the other.
pub proof fn law_compact_copy(src: Seq<u8>, stride: int, height: int, line: int, y: int, x: int)
    requires
        0 <= height,
        0 <= line,
    ensures
        compacted(src, stride, height, line).len() == height * line,
        0 <= y < height && 0 <= x < line ==> compacted(src, stride, height, line)[y * line + x]
            == src[y * stride + x],
{
    assert(0 <= height * line) by (nonlinear_arith)
        requires
            0 <= height,
            0 <= line,
    ;
    if 0 <= y < height && 0 <= x < line {
        lemma_place(y, x, line);
        assert(y * line + line <= height * line) by (nonlinear_arith)
            requires
                y < height,
                0 <= line,
        ;
    }
}

/// Which planes can be compacted, and which have room for the output.
pub proof fn law_plane_has_rows(len: int, stride: int, height: int, line: int)
    requires
        0 <= height,
        0 <= line,
    ensures
        0 < height && 0 < line ==> (readable(len, stride, height, line) <==> line <= stride
            && height * stride <= len),
        height == 0 || line == 0 ==> (readable(len, stride, height, line) <==> 0 < stride || line
            == 0),
        0 < height ==> (writable(len, stride, height, line) <==> line <= stride && height * stride
            <= len + (stride - line)),
        height == 0 ==> writable(len, stride, height, line),
{
    assert(height * line == 0 <==> height == 0 || line == 0) by (nonlinear_arith)
        requires
            0 <= height,
            0 <= line,
    ;
    assert((height - 1) * stride + stride == height * stride) by (nonlinear_arith);
}

/// The last n items: as many as there are, at most n, with the latest as the last one and the
/// order kept.
pub proof fn law_most_recent_items<T>(items: Seq<T>, n: nat)
    ensures
        most_recent(items, n).len() == (if items.len() <= n {
            items.len()
        } else {
            n
        }),
        forall|k: int|
            0 <= k < most_recent(items, n).len() ==> #[trigger] most_recent(items, n)[k]
                == items[items.len() - most_recent(items, n).len() + k],
{
}

/// The frames of a state are those of its history, in order.
pub proof fn law_frames_of_history(state: &State)
    ensures
        state.frames().len() == state.history@.len(),
        contents(state.history@) == state.frames(),
        forall|k: int|
            0 <= k < state.history@.len() ==> #[trigger] state.frames()[k] == state.history@[k]@,
{
}

/// What holds of a good state, and of the video that it is for.
pub proof fn law_good_state(state: &State, other: &State)
    ensures
        state.info.wf() <==> 1 <= state.info.pixel_stride && state.info.width
            * state.info.pixel_stride <= usize::MAX,
        state.wf() <==> {
            &&& 1 <= state.info.pixel_stride
            &&& state.info.width * state.info.pixel_stride <= usize::MAX
            &&& state.pixel_stride == state.info.pixel_stride
            &&& state.line_bytes == state.info.width * state.info.pixel_stride
            &&& state.alpha_pos == AlphaPos::Last <==> (state.info.format == VideoFormat::Rgba
                || state.info.format == VideoFormat::Bgra)
            &&& state.alpha_pos == AlphaPos::First <==> (state.info.format == VideoFormat::Argb
                || state.info.format == VideoFormat::Abgr)
            &&& forall|k: int|
                0 <= k < state.history@.len() ==> (#[trigger] state.history@[k])@.len()
                    == state.info.height * (state.info.width * state.info.pixel_stride)
        },
        state.same_video(other) <==> {
            &&& state.info == other.info
            &&& state.pixel_stride == other.pixel_stride
            &&& state.line_bytes == other.line_bytes
            &&& state.src_stride == other.src_stride
            &&& state.alpha_pos == other.alpha_pos
        },
{
}

// ---- Formats ----

/// Alpha is the last byte of a pixel in RGBA and BGRA, the first in ARGB and ABGR, and absent
/// from every other format.
pub proof fn law_alpha_of_formats(format: VideoFormat)
    ensures
        format.spec_alpha_pos() == AlphaPos::Last <==> format == VideoFormat::Rgba || format
            == VideoFormat::Bgra,
        format.spec_alpha_pos() == AlphaPos::First <==> format == VideoFormat::Argb || format
            == VideoFormat::Abgr,
        format.spec_alpha_pos() == AlphaPos::Absent <==> format == VideoFormat::Rgbx || format
            == VideoFormat::Xrgb || format == VideoFormat::Bgrx || format == VideoFormat::Xbgr
            || format == VideoFormat::Rgb || format == VideoFormat::Bgr || format is Other,
{
}

/// The byte of a pixel that is alpha, where there is one.
pub proof fn law_alpha_offset(pixel_stride: int)
    ensures
        AlphaPos::Last.offset(pixel_stride) == Some(pixel_stride - 1),
        AlphaPos::First.offset(pixel_stride) == Some(0int),
        AlphaPos::Absent.offset(pixel_stride) is None,
{
}

/// The negotiated formats are the RGB formats of three and of four bytes, each of them once, and
/// no other format.
pub proof fn law_negotiated_formats(format: VideoFormat)
    ensures
        accepted_formats().contains(format) <==> !(format is Other),
        accepted_formats().len() == 10,
        accepted_formats().no_duplicates(),
        accepted_formats()[0] == VideoFormat::Rgbx,
        accepted_formats()[1] == VideoFormat::Xrgb,
        accepted_formats()[2] == VideoFormat::Bgrx,
        accepted_formats()[3] == VideoFormat::Xbgr,
        accepted_formats()[4] == VideoFormat::Rgba,
        accepted_formats()[5] == VideoFormat::Argb,
        accepted_formats()[6] == VideoFormat::Bgra,
        accepted_formats()[7] == VideoFormat::Abgr,
        accepted_formats()[8] == VideoFormat::Rgb,
        accepted_formats()[9] == VideoFormat::Bgr,
{
    let formats = accepted_formats();
    match format {
        VideoFormat::Rgbx => assert(formats[0] == format),
        VideoFormat::Xrgb => assert(formats[1] == format),
        VideoFormat::Bgrx => assert(formats[2] == format),
        VideoFormat::Xbgr => assert(formats[3] == format),
        VideoFormat::Rgba => assert(formats[4] == format),
        VideoFormat::Argb => assert(formats[5] == format),
        VideoFormat::Bgra => assert(formats[6] == format),
        VideoFormat::Abgr => assert(formats[7] == format),
        VideoFormat::Rgb => assert(formats[8] == format),
        VideoFormat::Bgr => assert(formats[9] == format),
        VideoFormat::Other(_) => {},
    }
}

// ---- Output ----

proof fn lemma_pixel_byte(
    y: int,
    px: int,
    c: int,
    stride: int,
    height: int,
    width: int,
    pixel_stride: int,
)
    requires
        0 <= y < height,
        0 <= px < width,
        0 <= c < pixel_stride,
        width * pixel_stride <= stride,
    ensures
        0 <= px * pixel_stride + c < width * pixel_stride,
        (px * pixel_stride + c) % pixel_stride == c,
        visible(y * stride + (px * pixel_stride + c), stride, height, width * pixel_stride),
        compact_offset(y * stride + (px * pixel_stride + c), stride, width * pixel_stride) == y * (
        width * pixel_stride) + (px * pixel_stride + c),
        (y * stride + (px * pixel_stride + c)) % stride == px * pixel_stride + c,
        0 <= y * stride,
{
    assert(0 <= px * pixel_stride && px * pixel_stride + pixel_stride <= width * pixel_stride)
        by (nonlinear_arith)
        requires
            0 <= px < width,
            0 < pixel_stride,
    ;
    lemma_fundamental_div_mod_converse(px * pixel_stride + c, pixel_stride, px, c);
    lemma_place(y, px * pixel_stride + c, stride);
}

/// Which byte of a pixel is an alpha byte.
pub proof fn law_alpha_bytes(
    y: int,
    px: int,
    c: int,
    stride: int,
    height: int,
    width: int,
    pixel_stride: int,
    alpha_pos: AlphaPos,
)
    requires
        0 <= y < height,
        0 <= px < width,
        0 <= c < pixel_stride,
        width * pixel_stride <= stride,
    ensures
        is_alpha(
            y * stride + (px * pixel_stride + c),
            stride,
            height,
            width * pixel_stride,
            pixel_stride,
            alpha_pos,
        ) <==> (alpha_pos == AlphaPos::Last && c == pixel_stride - 1) || (alpha_pos
            == AlphaPos::First && c == 0),
{
    lemma_pixel_byte(y, px, c, stride, height, width, pixel_stride);
}

/// Combining replaces each visible byte with the combination of what the frames hold in the same
/// row and place, and leaves the padding of each row and what follows the rows alone.
pub proof fn law_combined_plane(
    dst: Seq<u8>,
    stride: int,
    height: int,
    line: int,
    frames: Seq<Seq<u8>>,
    mode: FrameStackMode,
    y: int,
    x: int,
)
    requires
        0 <= y,
        0 <= x < stride,
        y * stride + x < dst.len(),
    ensures
        combined(dst, stride, height, line, frames, mode).len() == dst.len(),
        y < height && x < line ==> combined(dst, stride, height, line, frames, mode)[y * stride
            + x] == blend(mode, column(frames, y * line + x)),
        y >= height || x >= line ==> combined(dst, stride, height, line, frames, mode)[y * stride
            + x] == dst[y * stride + x],
{
    lemma_place(y, x, stride);
}

/// Restoring alpha replaces the last byte of each pixel, or the first, with what the newest frame
/// holds in the same row and place, and leaves the other bytes of the pixel alone.
pub proof fn law_alpha_restored_pixels(
    dst: Seq<u8>,
    stride: int,
    height: int,
    width: int,
    pixel_stride: int,
    alpha_pos: AlphaPos,
    newest: Seq<u8>,
    y: int,
    px: int,
    c: int,
)
    requires
        0 <= y < height,
        0 <= px < width,
        0 <= c < pixel_stride,
        width * pixel_stride <= stride,
        y * stride + (px * pixel_stride + c) < dst.len(),
    ensures
        ({
            let line = width * pixel_stride;
            let x = px * pixel_stride + c;
            let restored = alpha_restored(
                dst,
                stride,
                height,
                line,
                pixel_stride,
                alpha_pos,
                newest,
            );
            &&& restored.len() == dst.len()
            &&& alpha_pos == AlphaPos::Last && c == pixel_stride - 1 ==> restored[y * stride + x]
                == newest[y * line + x]
            &&& alpha_pos == AlphaPos::First && c == 0 ==> restored[y * stride + x] == newest[y
                * line + x]
            &&& alpha_pos == AlphaPos::Last && c != pixel_stride - 1 ==> restored[y * stride + x]
                == dst[y * stride + x]
            &&& alpha_pos == AlphaPos::First && c != 0 ==> restored[y * stride + x] == dst[y
                * stride + x]
            &&& alpha_pos == AlphaPos::Absent ==> restored[y * stride + x] == dst[y * stride + x]
        }),
{
    lemma_pixel_byte(y, px, c, stride, height, width, pixel_stride);
}

/// Restoring alpha leaves the padding of each row and what follows the rows alone.
pub proof fn law_alpha_restored_padding(
    dst: Seq<u8>,
    stride: int,
    height: int,
    line: int,
    pixel_stride: int,
    alpha_pos: AlphaPos,
    newest: Seq<u8>,
    y: int,
    x: int,
)
    requires
        0 <= y,
        0 <= x < stride,
        y * stride + x < dst.len(),
        y >= height || x >= line,
    ensures
        alpha_restored(dst, stride, height, line, pixel_stride, alpha_pos, newest).len()
            == dst.len(),
        alpha_restored(dst, stride, height, line, pixel_stride, alpha_pos, newest)[y * stride + x]
            == dst[y * stride + x],
{
    lemma_place(y, x, stride);
}

/// A byte of a pixel that comes out is the byte of the newest frame in the same place where it is
/// alpha that is passed through. Any other byte is, by mode, the greatest of what the frames hold
/// in that place, the mean of it, or the mean with weights 1 for the oldest frame to n for the
/// newest, both rounded down.
pub proof fn law_output_pixels(
    plane: Seq<u8>,
    stride: int,
    info: VideoInfo,
    settings: Settings,
    frames: Seq<Seq<u8>>,
    y: int,
    px: int,
    c: int,
)
    requires
        frames.len() > 0,
        0 <= y < info.height,
        0 <= px < info.width,
        0 <= c < info.pixel_stride,
        info.width * info.pixel_stride <= stride,
        y * stride + (px * info.pixel_stride + c) < plane.len(),
    ensures
        ({
            let x = px * info.pixel_stride + c;
            let i = y * (info.width * info.pixel_stride) + x;
            let n = frames.len() as int;
            let out = output(plane, stride, info, settings, frames)[y * stride + x] as int;
            let last = info.format == VideoFormat::Rgba || info.format == VideoFormat::Bgra;
            let first = info.format == VideoFormat::Argb || info.format == VideoFormat::Abgr;
            let passed = settings.passthrough_alpha && ((last && c == info.pixel_stride - 1) || (
            first && c == 0));
            let sum = frames.fold_left(0int, |sum: int, frame: Seq<u8>| sum + frame[i]);
            let weighted = Seq::new(frames.len(), |k: int| (k + 1) * frames[k][i]).fold_left(
                0int,
                |sum: int, term: int| sum + term,
            );
            &&& passed ==> out == frames[n - 1][i]
            &&& !passed && settings.mode == FrameStackMode::Lighten ==> {
                &&& exists|k: int| 0 <= k < n && #[trigger] frames[k][i] == out
                &&& forall|k: int| 0 <= k < n ==> #[trigger] frames[k][i] <= out
            }
            &&& !passed && settings.mode == FrameStackMode::Average ==> out * n <= sum < (out + 1)
                * n
            &&& !passed && settings.mode == FrameStackMode::LinearDecay ==> out * (n * (n + 1))
                <= 2 * weighted < (out + 1) * (n * (n + 1))
        }),
{
    let width = info.width as int;
    let height = info.height as int;
    let ps = info.pixel_stride as int;
    let i = y * (width * ps) + (px * ps + c);
    lemma_pixel_byte(y, px, c, stride, height, width, ps);
    law_lighten_of_frames(frames, i);
    law_average_of_frames(frames, i);
    law_linear_decay_of_frames(frames, i);
}

/// The padding of each row and what follows the rows come out as they went in, and the plane
/// keeps its length.
pub proof fn law_output_padding(
    plane: Seq<u8>,
    stride: int,
    info: VideoInfo,
    settings: Settings,
    frames: Seq<Seq<u8>>,
    y: int,
    x: int,
)
    requires
        0 <= y,
        0 <= x < stride,
        y * stride + x < plane.len(),
        y >= info.height || x >= info.width * info.pixel_stride,
    ensures
        output(plane, stride, info, settings, frames).len() == plane.len(),
        output(plane, stride, info, settings, frames)[y * stride + x] == plane[y * stride + x],
{
    lemma_place(y, x, stride);
}

/// In every mode a byte that comes out, alpha or not, lies between the least and the greatest of
/// what the frames hold in its place.
pub proof fn law_output_within_frames(
    plane: Seq<u8>,
    stride: int,
    info: VideoInfo,
    settings: Settings,
    frames: Seq<Seq<u8>>,
    y: int,
    px: int,
    c: int,
    low: u8,
    high: u8,
)
    requires
        frames.len() > 0,
        0 <= y < info.height,
        0 <= px < info.width,
        0 <= c < info.pixel_stride,
        info.width * info.pixel_stride <= stride,
        y * stride + (px * info.pixel_stride + c) < plane.len(),
        forall|k: int|
            0 <= k < frames.len() ==> low <= #[trigger] frames[k][y * (info.width
                * info.pixel_stride) + (px * info.pixel_stride + c)] <= high,
    ensures
        low <= output(plane, stride, info, settings, frames)[y * stride + (px * info.pixel_stride
            + c)] <= high,
{
    let width = info.width as int;
    let height = info.height as int;
    let ps = info.pixel_stride as int;
    let i = y * (width * ps) + (px * ps + c);
    lemma_pixel_byte(y, px, c, stride, height, width, ps);
    let samples = column(frames, i);
    assert forall|k: int| 0 <= k < samples.len() implies low <= #[trigger] samples[k] <= high by {
        assert(low <= frames[k][i] <= high);
    }
    law_blend_within_samples(settings.mode, samples, low, high);
    assert(low <= frames[frames.len() - 1][i] <= high);
}

// ---- The element ----

/// A transformed frame is appended to the history, of which the last `num_frames` frames are
/// kept: the history grows by one frame up to `num_frames`, its newest frame holds the lines of
/// the plane, and the frames before it are the latest ones of the earlier history.
pub proof fn law_history_slides(
    state: &State,
    plane: Seq<u8>,
    stride: int,
    num_frames: nat,
    y: int,
    x: int,
)
    requires
        num_frames >= 1,
    ensures
        ({
            let before = state.history@;
            let after = history_with(state, plane, stride, num_frames);
            let line = state.line_bytes as int;
            let dropped = before.len() + 1 - after.len();
            &&& after.len() == (if before.len() + 1 <= num_frames {
                before.len() + 1
            } else {
                num_frames
            })
            &&& forall|k: int|
                0 <= k < after.len() - 1 ==> #[trigger] after[k] == before[dropped + k]@
            &&& after[after.len() - 1].len() == state.info.height * line
            &&& 0 <= y < state.info.height && 0 <= x < line ==> after[after.len() - 1][y * line
                + x] == plane[y * stride + x]
        }),
{
    law_compact_copy(
        plane,
        stride,
        state.info.height as int,
        state.line_bytes as int,
        y,
        x,
    );
}

/// A stream's history is what its frames leave behind one after the other.
pub proof fn law_history_of_a_stream(
    history: Seq<Seq<u8>>,
    inputs: Seq<Seq<u8>>,
    depths: Seq<nat>,
    input: Seq<u8>,
    depth: nat,
)
    requires
        inputs.len() == depths.len(),
    ensures
        history_after(history, Seq::empty(), Seq::empty()) == history,
        ({
            let before = history_after(history, inputs, depths);
            let after = history_after(history, inputs.push(input), depths.push(depth));
            &&& after.len() == (if before.len() + 1 <= depth {
                before.len() + 1
            } else {
                depth
            })
            &&& forall|k: int|
                0 <= k < after.len() ==> #[trigger] after[k] == before.push(input)[before.len() + 1
                    - after.len() + k]
        }),
{
    assert(inputs.push(input).drop_last() =~= inputs);
    assert(depths.push(depth).drop_last() =~= depths);
}

/// The history that a transformed frame leaves is the one that a stream has after it.
pub proof fn law_transform_continues_the_stream(
    state: &State,
    history: Seq<Seq<u8>>,
    inputs: Seq<Seq<u8>>,
    depths: Seq<nat>,
    plane: Seq<u8>,
    stride: int,
    num_frames: nat,
)
    requires
        inputs.len() == depths.len(),
        state.frames() == history_after(history, inputs, depths),
    ensures
        history_with(state, plane, stride, num_frames) == history_after(
            history,
            inputs.push(
                compacted(plane, stride, state.info.height as int, state.line_bytes as int),
            ),
            depths.push(num_frames),
        ),
{
    let input = compacted(plane, stride, state.info.height as int, state.line_bytes as int);
    assert(inputs.push(input).drop_last() =~= inputs);
    assert(depths.push(num_frames).drop_last() =~= depths);
}

/// When a frame is of the negotiated video, when its plane can be used, and what is good of an
/// element.
pub proof fn law_frames_taken(stack: &FrameStack, frame: &VideoFrame<'_>, info: VideoInfo)
    ensures
        negotiated(info, frame) <==> frame.format == info.format && frame.width == info.width
            && frame.height == info.height,
        stack.wf() <==> 1 <= stack.settings.num_frames <= 256 && (stack.state is Some
            ==> stack.state->0.wf()),
        stack.state is None ==> stack.takes(frame),
        frame.plane is None ==> stack.takes(frame),
        stack.state is Some && !negotiated(stack.state->0.info, frame) ==> stack.takes(frame),
        stack.state is Some && negotiated(stack.state->0.info, frame) && frame.plane is Some ==> (
        stack.takes(frame) <==> plane_fits(
            frame.plane->0@.len() as int,
            frame.stride as int,
            stack.state->0.info,
        )),
{
}

/// A plane can be used where it holds a row of at least a line for each row of the video. Video
/// without a visible byte needs no more than that its rows start within the plane.
pub proof fn law_usable_planes(len: int, stride: int, info: VideoInfo)
    requires
        0 <= len,
        0 <= stride,
    ensures
        ({
            let height = info.height as int;
            let line = info.width * info.pixel_stride;
            &&& 0 < height && 0 < line ==> (plane_fits(len, stride, info) <==> line <= stride
                && height * stride <= len)
            &&& 0 < height && line == 0 ==> (plane_fits(len, stride, info) <==> (height - 1)
                * stride <= len)
            &&& height == 0 ==> (plane_fits(len, stride, info) <==> 0 < stride || line == 0)
        }),
{
    let height = info.height as int;
    let line = info.width * info.pixel_stride;
    assert(0 <= line) by (nonlinear_arith)
        requires
            line == info.width * info.pixel_stride,
    ;
    law_plane_has_rows(len, stride, height, line);
    assert((height - 1) * stride + stride == height * stride) by (nonlinear_arith);
}

// ---- Properties ----

/// The bounds and defaults of the properties.
pub proof fn law_declared_values()
    ensures
        MIN_NUM_FRAMES == 1,
        MAX_NUM_FRAMES == 256,
        DEFAULT_NUM_FRAMES == 8,
        DEFAULT_MODE == FrameStackMode::Lighten,
        DEFAULT_PASSTHROUGH_ALPHA == true,
{
}

/// There are three properties: a number from 1 to 256 that is 8 at first, a mode that is
/// `Lighten` at first, and a flag that is set at first.
pub proof fn law_three_properties(name: Seq<char>)
    ensures
        property_kind(name) is Some <==> name == "num-frames"@ || name == "mode"@ || name
            == "passthrough-alpha"@,
        property_kind("num-frames"@) == Some(
            (PropertyKind::UInt { minimum: 1, maximum: 256, default: 8 }),
        ),
        property_kind("mode"@) == Some(PropertyKind::Mode(FrameStackMode::Lighten)),
        property_kind("passthrough-alpha"@) == Some(PropertyKind::Boolean(true)),
{
    lemma_property_names_distinct();
}

/// Setting a property changes its own field to the value, and no other field.
pub proof fn law_property_is_its_field(
    settings: Settings,
    num_frames: u32,
    mode: FrameStackMode,
    passthrough_alpha: bool,
)
    ensures
        ({
            let set = settings.with("num-frames"@, PropertyValue::UInt(num_frames));
            &&& set.num_frames == num_frames
            &&& set.mode == settings.mode
            &&& set.passthrough_alpha == settings.passthrough_alpha
        }),
        ({
            let set = settings.with("mode"@, PropertyValue::Mode(mode));
            &&& set.num_frames == settings.num_frames
            &&& set.mode == mode
            &&& set.passthrough_alpha == settings.passthrough_alpha
        }),
        ({
            let set = settings.with(
                "passthrough-alpha"@,
                PropertyValue::Boolean(passthrough_alpha),
            );
            &&& set.num_frames == settings.num_frames
            &&& set.mode == settings.mode
            &&& set.passthrough_alpha == passthrough_alpha
        }),
{
    lemma_property_names_distinct();
}

/// A property reads as its field.
pub proof fn law_property_reads_its_field(settings: Settings)
    ensures
        settings.value("num-frames"@) == PropertyValue::UInt(settings.num_frames),
        settings.value("mode"@) == PropertyValue::Mode(settings.mode),
        settings.value("passthrough-alpha"@) == PropertyValue::Boolean(
            settings.passthrough_alpha,
        ),
        settings.wf() <==> 1 <= settings.num_frames <= 256,
{
    lemma_property_names_distinct();
}

/// Which values a property takes: those of its type, and of numbers those within its bounds.
pub proof fn law_values_taken(kind: PropertyKind, value: PropertyValue)
    ensures
        kind.has_type(value) <==> (kind is UInt && value is UInt) || (kind is Mode
            && value is Mode) || (kind is Boolean && value is Boolean),
        !(kind is UInt) ==> (kind.accepts(value) <==> kind.has_type(value)),
        kind is UInt ==> (kind.accepts(value) <==> value is UInt && kind->minimum <= value->UInt_0
            <= kind->maximum),
        kind is UInt ==> kind.default_value() == PropertyValue::UInt(kind->default),
        kind is Mode ==> kind.default_value() == PropertyValue::Mode(kind->Mode_0),
        kind is Boolean ==> kind.default_value() == PropertyValue::Boolean(kind->Boolean_0),
{
}

/// What a description of a property says.
pub proof fn law_description(
    spec: PropertySpec,
    name: Seq<char>,
    nick: Seq<char>,
    blurb: Seq<char>,
    kind: PropertyKind,
)
    ensures
        spec.describes(name, nick, blurb, kind) <==> spec.name@ == name && spec.nick@ == nick
            && spec.blurb@ == blurb && spec.kind == kind,
{
}

/// Exchanging two samples moves each to the other's place, and no other sample.
pub proof fn law_exchange(samples: Seq<u8>, i: int, j: int)
    requires
        0 <= i < samples.len(),
        0 <= j < samples.len(),
    ensures
        exchanged(samples, i, j).len() == samples.len(),
        exchanged(samples, i, j)[i] == samples[j],
        exchanged(samples, i, j)[j] == samples[i],
        forall|k: int|
            0 <= k < samples.len() && k != i && k != j ==> #[trigger] exchanged(samples, i, j)[k]
                == samples[k],
{
}

} // verus!
