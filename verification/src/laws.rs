//! What holds of the element as a whole.
use vstd::arithmetic::div_mod::*;
use vstd::prelude::*;

use crate::blend::{
    blend, brightest, column, lemma_means_are_bytes, lemma_weight_sum_step, total, weight_sum,
    weighted_total,
};
use crate::combine::is_alpha;
use crate::element::{output, plane_fits};
use crate::mode::FrameStackMode;
use crate::plane::{compact_offset, compacted, lemma_compacted_at, visible};
use crate::settings::{
    lemma_property_names_distinct, property_kind, PropertyValue, Settings, DEFAULT_MODE,
    DEFAULT_NUM_FRAMES, DEFAULT_PASSTHROUGH_ALPHA,
};
use crate::state::most_recent;
use crate::video::{AlphaPos, VideoInfo};

verus! {

// ---- Combining one column of samples ----

/// In `Lighten` mode the result is the per-channel maximum: no sample is greater, and it is one
/// of the samples.
pub proof fn law_lighten_is_maximum(samples: Seq<u8>)
    requires
        samples.len() > 0,
    ensures
        forall|k: int|
            0 <= k < samples.len() ==> #[trigger] samples[k] <= blend(
                FrameStackMode::Lighten,
                samples,
            ),
        samples.contains(blend(FrameStackMode::Lighten, samples)),
    decreases samples.len(),
{
    let rest = samples.drop_last();
    if rest.len() > 0 {
        law_lighten_is_maximum(rest);
        let k = choose|k: int| 0 <= k < rest.len() && rest[k] == brightest(rest);
        assert(samples[k] == brightest(rest));
        assert forall|j: int| 0 <= j < samples.len() implies #[trigger] samples[j] <= brightest(
            samples,
        ) by {
            if j < rest.len() {
                assert(rest[j] == samples[j]);
            }
        }
    } else {
        assert(brightest(rest) == 0);
    }
    assert(samples[samples.len() - 1] == samples.last());
}

proof fn lemma_totals_within(samples: Seq<u8>, low: u8, high: u8)
    requires
        forall|k: int| 0 <= k < samples.len() ==> low <= #[trigger] samples[k] <= high,
    ensures
        low * samples.len() <= total(samples) <= high * samples.len(),
        low * weight_sum(samples.len()) <= weighted_total(samples) <= high * weight_sum(
            samples.len(),
        ),
    decreases samples.len(),
{
    lemma_weight_sum_step(0);
    if samples.len() > 0 {
        let rest = samples.drop_last();
        let n = samples.len() as int;
        let last = samples.last() as int;
        assert forall|k: int| 0 <= k < rest.len() implies low <= #[trigger] rest[k] <= high by {
            assert(rest[k] == samples[k]);
        }
        assert(samples[n - 1] == last);
        lemma_totals_within(rest, low, high);
        lemma_weight_sum_step((n - 1) as nat);
        let w = weight_sum((n - 1) as nat) as int;
        assert(low * (n - 1) + last >= low * n && high * (n - 1) + last <= high * n)
            by (nonlinear_arith)
            requires
                low <= last <= high,
        ;
        assert(low * w + n * last >= low * (w + n) && high * w + n * last <= high * (w + n))
            by (nonlinear_arith)
            requires
                low <= last <= high,
                0 < n,
        ;
    }
}

proof fn lemma_quotient_within(sum: int, weight: int, low: int, high: int)
    requires
        weight > 0,
        low * weight <= sum <= high * weight,
    ensures
        low <= sum / weight <= high,
{
    lemma_div_is_ordered(low * weight, sum, weight);
    lemma_div_is_ordered(sum, high * weight, weight);
    lemma_div_multiples_vanish(low, weight);
    lemma_div_multiples_vanish(high, weight);
    assert(weight * low == low * weight && weight * high == high * weight) by (nonlinear_arith);
}

/// In every mode the result lies within any bounds that all samples lie within.
pub proof fn law_blend_within_samples(mode: FrameStackMode, samples: Seq<u8>, low: u8, high: u8)
    requires
        samples.len() > 0,
        forall|k: int| 0 <= k < samples.len() ==> low <= #[trigger] samples[k] <= high,
    ensures
        low <= blend(mode, samples) <= high,
{
    lemma_means_are_bytes(samples);
    lemma_totals_within(samples, low, high);
    law_lighten_is_maximum(samples);
    lemma_quotient_within(total(samples) as int, samples.len() as int, low as int, high as int);
    lemma_quotient_within(
        weighted_total(samples) as int,
        weight_sum(samples.len()) as int,
        low as int,
        high as int,
    );
}

/// In every mode equal samples are combined into that same sample; one sample alone is.
pub proof fn law_blend_of_equal_samples(mode: FrameStackMode, samples: Seq<u8>, value: u8)
    requires
        samples.len() > 0,
        forall|k: int| 0 <= k < samples.len() ==> #[trigger] samples[k] == value,
    ensures
        blend(mode, samples) == value,
{
    law_blend_within_samples(mode, samples, value, value);
}

proof fn lemma_totals_monotone(darker: Seq<u8>, lighter: Seq<u8>)
    requires
        darker.len() == lighter.len(),
        forall|k: int| 0 <= k < darker.len() ==> #[trigger] darker[k] <= lighter[k],
    ensures
        total(darker) <= total(lighter),
        weighted_total(darker) <= weighted_total(lighter),
        brightest(darker) <= brightest(lighter),
    decreases darker.len(),
{
    if darker.len() > 0 {
        let n = darker.len() as int;
        assert forall|k: int| 0 <= k < n - 1 implies #[trigger] darker.drop_last()[k]
            <= lighter.drop_last()[k] by {
            assert(darker[k] <= lighter[k]);
        }
        lemma_totals_monotone(darker.drop_last(), lighter.drop_last());
        assert(darker[n - 1] <= lighter[n - 1]);
        assert(n * darker.last() <= n * lighter.last()) by (nonlinear_arith)
            requires
                0 <= n,
                darker.last() <= lighter.last(),
        ;
    }
}

/// In every mode a lighter sample never gives a darker result.
pub proof fn law_blend_is_monotone(mode: FrameStackMode, darker: Seq<u8>, lighter: Seq<u8>)
    requires
        0 < darker.len() == lighter.len(),
        forall|k: int| 0 <= k < darker.len() ==> #[trigger] darker[k] <= lighter[k],
    ensures
        blend(mode, darker) <= blend(mode, lighter),
{
    lemma_totals_monotone(darker, lighter);
    lemma_means_are_bytes(darker);
    lemma_means_are_bytes(lighter);
    lemma_div_is_ordered(total(darker) as int, total(lighter) as int, darker.len() as int);
    lemma_div_is_ordered(
        weighted_total(darker) as int,
        weighted_total(lighter) as int,
        weight_sum(darker.len()) as int,
    );
}

/// The means are exact quotients: `Average` is the sum of the samples divided by their number,
/// and `LinearDecay` the weighted sum divided by the sum of the weights, both rounded down.
pub proof fn law_means_are_quotients(samples: Seq<u8>)
    requires
        samples.len() > 0,
    ensures
        blend(FrameStackMode::Average, samples) as int == total(samples) as int
            / samples.len() as int,
        blend(FrameStackMode::LinearDecay, samples) as int == weighted_total(samples) as int
            / weight_sum(samples.len()) as int,
{
    lemma_means_are_bytes(samples);
}

/// Replacing the sample at `k` changes the sum by the difference, and the weighted sum by `k + 1`
/// times the difference: the oldest sample (at 0) has weight 1, the newest of n samples weight n.
pub proof fn law_weight_of_a_sample(samples: Seq<u8>, k: int, value: u8)
    requires
        0 <= k < samples.len(),
    ensures
        total(samples.update(k, value)) == total(samples) + (value - samples[k]),
        weighted_total(samples.update(k, value)) == weighted_total(samples) + (k + 1) * (value
            - samples[k]),
    decreases samples.len(),
{
    let n = samples.len() as int;
    let changed = samples.update(k, value);
    if k == n - 1 {
        assert(changed.drop_last() =~= samples.drop_last());
        assert(n * value == n * samples[k] + n * (value - samples[k])) by (nonlinear_arith);
    } else {
        assert(changed.drop_last() =~= samples.drop_last().update(k, value));
        law_weight_of_a_sample(samples.drop_last(), k, value);
    }
}

/// The divisor of `LinearDecay` is the sum of its weights, as the weighted sum of ones shows.
pub proof fn law_weights_are_normalized(samples: Seq<u8>)
    requires
        forall|k: int| 0 <= k < samples.len() ==> #[trigger] samples[k] == 1,
    ensures
        weighted_total(samples) == weight_sum(samples.len()),
{
    lemma_totals_within(samples, 1, 1);
}

/// Samples with those at `i` and `j` exchanged.
pub open spec fn exchanged(samples: Seq<u8>, i: int, j: int) -> Seq<u8> {
    samples.update(i, samples[j]).update(j, samples[i])
}

/// `LinearDecay` weights newer frames more: with the greater of two samples in the newer frame
/// the result is no smaller than with the two exchanged.
pub proof fn law_linear_decay_favours_newer(samples: Seq<u8>, older: int, newer: int)
    requires
        0 <= older < newer < samples.len(),
        samples[older] <= samples[newer],
    ensures
        blend(FrameStackMode::LinearDecay, exchanged(samples, older, newer)) <= blend(
            FrameStackMode::LinearDecay,
            samples,
        ),
{
    let a = samples[older] as int;
    let b = samples[newer] as int;
    let half = samples.update(older, samples[newer]);
    law_weight_of_a_sample(samples, older, samples[newer]);
    law_weight_of_a_sample(half, newer, samples[older]);
    assert((older + 1) * (b - a) + (newer + 1) * (a - b) <= 0) by (nonlinear_arith)
        requires
            older < newer,
            a <= b,
    ;
    lemma_means_are_bytes(samples);
    lemma_means_are_bytes(exchanged(samples, older, newer));
    lemma_div_is_ordered(
        weighted_total(exchanged(samples, older, newer)) as int,
        weighted_total(samples) as int,
        weight_sum(samples.len()) as int,
    );
}

/// `Lighten` and `Average` do not depend on the order of the frames: exchanging any two leaves
/// the result as it is.
pub proof fn law_order_does_not_matter(mode: FrameStackMode, samples: Seq<u8>, i: int, j: int)
    requires
        mode != FrameStackMode::LinearDecay,
        0 <= i < samples.len(),
        0 <= j < samples.len(),
    ensures
        blend(mode, exchanged(samples, i, j)) == blend(mode, samples),
{
    let swapped = exchanged(samples, i, j);
    law_weight_of_a_sample(samples, i, samples[j]);
    law_weight_of_a_sample(samples.update(i, samples[j]), j, samples[i]);
    law_lighten_is_maximum(samples);
    law_lighten_is_maximum(swapped);
    let m = choose|m: int| 0 <= m < samples.len() && samples[m] == brightest(samples);
    let k = choose|k: int| 0 <= k < swapped.len() && swapped[k] == brightest(swapped);
    assert(swapped[if m == i { j } else if m == j { i } else { m }] == samples[m]);
    assert(samples[if k == i { j } else if k == j { i } else { k }] == swapped[k]);
}

// ---- The history ----

/// The history after each of `inputs` was pushed in turn, the i-th while the number of frames
/// was `depths[i]`.
pub open spec fn history_after(
    history: Seq<Seq<u8>>,
    inputs: Seq<Seq<u8>>,
    depths: Seq<nat>,
) -> Seq<Seq<u8>>
    decreases inputs.len(),
{
    if inputs.len() == 0 {
        history
    } else {
        most_recent(
            history_after(history, inputs.drop_last(), depths.drop_last()).push(inputs.last()),
            depths.last(),
        )
    }
}

/// Whatever the number of frames is changed to on the way, the history is made of the latest
/// inputs, in their order, and is no longer than the number of frames of the latest push.
pub proof fn law_history_is_latest_inputs(
    history: Seq<Seq<u8>>,
    inputs: Seq<Seq<u8>>,
    depths: Seq<nat>,
)
    requires
        inputs.len() == depths.len(),
    ensures
        history_after(history, inputs, depths) == most_recent(
            history + inputs,
            history_after(history, inputs, depths).len(),
        ),
        inputs.len() > 0 ==> history_after(history, inputs, depths).len() <= depths.last(),
    decreases inputs.len(),
{
    if inputs.len() == 0 {
        assert(history + inputs =~= history);
    } else {
        law_history_is_latest_inputs(history, inputs.drop_last(), depths.drop_last());
        let before = history_after(history, inputs.drop_last(), depths.drop_last());
        assert(history + inputs =~= (history + inputs.drop_last()).push(inputs.last()));
        assert(before.len() <= (history + inputs.drop_last()).len());
        assert(history_after(history, inputs, depths) =~= most_recent(
            history + inputs,
            history_after(history, inputs, depths).len(),
        ));
    }
}

/// While the number of frames is kept, the history is exactly that many of the latest inputs
/// (all of them as long as there are fewer).
pub proof fn law_history_of_constant_depth(
    history: Seq<Seq<u8>>,
    inputs: Seq<Seq<u8>>,
    depths: Seq<nat>,
    num_frames: nat,
)
    requires
        inputs.len() == depths.len(),
        inputs.len() > 0,
        forall|i: int| 0 <= i < depths.len() ==> #[trigger] depths[i] == num_frames,
    ensures
        history_after(history, inputs, depths) == most_recent(history + inputs, num_frames),
    decreases inputs.len(),
{
    let earlier = inputs.drop_last();
    let before = history_after(history, earlier, depths.drop_last());
    assert(history + inputs =~= (history + earlier).push(inputs.last()));
    assert(depths[depths.len() - 1] == num_frames);
    if earlier.len() == 0 {
        assert(history + earlier =~= history);
    } else {
        assert forall|i: int| 0 <= i < depths.drop_last().len() implies #[trigger] depths.drop_last()[i]
            == num_frames by {
            assert(depths[i] == num_frames);
        }
        law_history_of_constant_depth(history, earlier, depths.drop_last(), num_frames);
    }
    assert(history_after(history, inputs, depths) =~= most_recent(history + inputs, num_frames));
}

/// Once the number of frames has been pushed since it was last changed, nothing that came before
/// them matters: only the last `num_frames` inputs are in the history.
pub proof fn law_only_last_inputs_matter(
    history: Seq<Seq<u8>>,
    inputs: Seq<Seq<u8>>,
    depths: Seq<nat>,
    num_frames: nat,
)
    requires
        inputs.len() == depths.len(),
        0 < num_frames <= inputs.len(),
        forall|i: int| 0 <= i < depths.len() ==> #[trigger] depths[i] == num_frames,
    ensures
        history_after(history, inputs, depths) == inputs.skip(inputs.len() - num_frames),
{
    law_history_of_constant_depth(history, inputs, depths, num_frames);
    assert(most_recent(history + inputs, num_frames) =~= inputs.skip(inputs.len() - num_frames));
}

/// The newest frame of the history is always the one that was pushed last, and the history never
/// gets shorter than one frame.
pub proof fn law_newest_is_last_pushed(
    history: Seq<Seq<u8>>,
    frame: Seq<u8>,
    num_frames: nat,
)
    requires
        num_frames >= 1,
    ensures
        1 <= most_recent(history.push(frame), num_frames).len() <= num_frames,
        most_recent(history.push(frame), num_frames).last() == frame,
{
}

// ---- Whole frames ----

/// The padding of a plane, and whatever follows its rows, comes out as it went in.
pub proof fn law_padding_is_untouched(
    plane: Seq<u8>,
    stride: int,
    info: VideoInfo,
    settings: Settings,
    frames: Seq<Seq<u8>>,
    p: int,
)
    requires
        0 <= p < plane.len(),
        !visible(p, stride, info.height as int, info.width * info.pixel_stride),
    ensures
        output(plane, stride, info, settings, frames).len() == plane.len(),
        output(plane, stride, info, settings, frames)[p] == plane[p],
{
}

/// With alpha passed through, each visible alpha byte comes out as it went in, whatever the
/// earlier frames held and whatever the mode is.
pub proof fn law_alpha_is_passed_through(
    plane: Seq<u8>,
    stride: int,
    info: VideoInfo,
    settings: Settings,
    history: Seq<Seq<u8>>,
    p: int,
)
    requires
        plane_fits(plane.len() as int, stride, info),
        settings.wf(),
        settings.passthrough_alpha,
        0 <= p < plane.len(),
        is_alpha(
            p,
            stride,
            info.height as int,
            info.width * info.pixel_stride,
            info.pixel_stride as int,
            info.format.spec_alpha_pos(),
        ),
    ensures
        output(
            plane,
            stride,
            info,
            settings,
            most_recent(
                history.push(
                    compacted(plane, stride, info.height as int, info.width * info.pixel_stride),
                ),
                settings.num_frames as nat,
            ),
        )[p] == plane[p],
{
    let height = info.height as int;
    let line = info.width * info.pixel_stride;
    lemma_visible_needs_a_row(plane, stride, info, p);
    lemma_compacted_at(plane, p, stride, height, line);
    law_newest_is_last_pushed(
        history,
        compacted(plane, stride, height, line),
        settings.num_frames as nat,
    );
}

/// A plane with a visible byte has rows, so that they fit its stride.
proof fn lemma_visible_needs_a_row(plane: Seq<u8>, stride: int, info: VideoInfo, p: int)
    requires
        plane_fits(plane.len() as int, stride, info),
        0 <= p < plane.len(),
        visible(p, stride, info.height as int, info.width * info.pixel_stride),
    ensures
        0 < info.height,
        0 < info.width * info.pixel_stride <= stride,
{
    lemma_div_pos_is_pos(p, stride);
    lemma_mod_bound(p, stride);
}

/// Every visible byte that is no passed-through alpha byte is combined from what the frames of
/// the history hold at its place.
pub proof fn law_visible_bytes_are_combined(
    plane: Seq<u8>,
    stride: int,
    info: VideoInfo,
    settings: Settings,
    frames: Seq<Seq<u8>>,
    p: int,
)
    requires
        0 <= p < plane.len(),
        visible(p, stride, info.height as int, info.width * info.pixel_stride),
        !settings.passthrough_alpha || !is_alpha(
            p,
            stride,
            info.height as int,
            info.width * info.pixel_stride,
            info.pixel_stride as int,
            info.format.spec_alpha_pos(),
        ),
    ensures
        output(plane, stride, info, settings, frames)[p] == blend(
            settings.mode,
            column(frames, compact_offset(p, stride, info.width * info.pixel_stride)),
        ),
{
}

/// The element combines the last frames of a stream: of the inputs since negotiation, of which
/// the current frame is the latest, the last `num_frames` are combined into each visible byte
/// that is no passed-through alpha byte.
pub proof fn law_output_combines_last_inputs(
    plane: Seq<u8>,
    stride: int,
    info: VideoInfo,
    settings: Settings,
    inputs: Seq<Seq<u8>>,
    depths: Seq<nat>,
    p: int,
)
    requires
        0 < inputs.len() == depths.len(),
        forall|i: int|
            0 <= i < depths.len() ==> #[trigger] depths[i] == settings.num_frames as nat,
        inputs.last() == compacted(
            plane,
            stride,
            info.height as int,
            info.width * info.pixel_stride,
        ),
        0 <= p < plane.len(),
        visible(p, stride, info.height as int, info.width * info.pixel_stride),
        !settings.passthrough_alpha || !is_alpha(
            p,
            stride,
            info.height as int,
            info.width * info.pixel_stride,
            info.pixel_stride as int,
            info.format.spec_alpha_pos(),
        ),
    ensures
        output(
            plane,
            stride,
            info,
            settings,
            history_after(Seq::<Seq<u8>>::empty(), inputs, depths),
        )[p] == blend(
            settings.mode,
            column(
                most_recent(inputs, settings.num_frames as nat),
                compact_offset(p, stride, info.width * info.pixel_stride),
            ),
        ),
{
    let none = Seq::<Seq<u8>>::empty();
    law_history_of_constant_depth(none, inputs, depths, settings.num_frames as nat);
    assert(none + inputs =~= inputs);
    law_visible_bytes_are_combined(
        plane,
        stride,
        info,
        settings,
        history_after(none, inputs, depths),
        p,
    );
}

/// Passing alpha through makes no difference to a format without alpha.
pub proof fn law_no_alpha_nothing_passed_through(
    plane: Seq<u8>,
    stride: int,
    info: VideoInfo,
    settings: Settings,
    frames: Seq<Seq<u8>>,
)
    requires
        info.format.spec_alpha_pos() == AlphaPos::Absent,
    ensures
        output(plane, stride, info, Settings { passthrough_alpha: true, ..settings }, frames)
            == output(
            plane,
            stride,
            info,
            Settings { passthrough_alpha: false, ..settings },
            frames,
        ),
{
    assert(output(plane, stride, info, Settings { passthrough_alpha: true, ..settings }, frames)
        =~= output(plane, stride, info, Settings { passthrough_alpha: false, ..settings }, frames));
}

/// A still scene comes out as it went in: where every frame of the history equals the input,
/// so does the output, in every mode.
pub proof fn law_still_scene_is_unchanged(
    plane: Seq<u8>,
    stride: int,
    info: VideoInfo,
    settings: Settings,
    frames: Seq<Seq<u8>>,
)
    requires
        plane_fits(plane.len() as int, stride, info),
        frames.len() >= 1,
        forall|k: int|
            0 <= k < frames.len() ==> #[trigger] frames[k] == compacted(
                plane,
                stride,
                info.height as int,
                info.width * info.pixel_stride,
            ),
    ensures
        output(plane, stride, info, settings, frames) == plane,
{
    let height = info.height as int;
    let line = info.width * info.pixel_stride;
    let out = output(plane, stride, info, settings, frames);
    assert forall|p: int| 0 <= p < plane.len() implies #[trigger] out[p] == plane[p] by {
        if visible(p, stride, height, line) {
            lemma_visible_needs_a_row(plane, stride, info, p);
            lemma_compacted_at(plane, p, stride, height, line);
            let samples = column(frames, compact_offset(p, stride, line));
            law_blend_of_equal_samples(settings.mode, samples, plane[p]);
            assert(frames[frames.len() - 1] == compacted(plane, stride, height, line));
        }
    }
    assert(out =~= plane);
}

/// The first frame after negotiation comes out as it went in: the history was reset, and nothing
/// of earlier video taints it.
pub proof fn law_first_frame_is_unchanged(
    plane: Seq<u8>,
    stride: int,
    info: VideoInfo,
    settings: Settings,
)
    requires
        plane_fits(plane.len() as int, stride, info),
        settings.wf(),
    ensures
        output(
            plane,
            stride,
            info,
            settings,
            most_recent(
                Seq::<Seq<u8>>::empty().push(
                    compacted(plane, stride, info.height as int, info.width * info.pixel_stride),
                ),
                settings.num_frames as nat,
            ),
        ) == plane,
{
    law_still_scene_is_unchanged(
        plane,
        stride,
        info,
        settings,
        most_recent(
            Seq::<Seq<u8>>::empty().push(
                compacted(plane, stride, info.height as int, info.width * info.pixel_stride),
            ),
            settings.num_frames as nat,
        ),
    );
}

/// With one frame to combine, every frame comes out as it went in, whatever came before.
pub proof fn law_one_frame_is_unchanged(
    plane: Seq<u8>,
    stride: int,
    info: VideoInfo,
    settings: Settings,
    history: Seq<Seq<u8>>,
)
    requires
        plane_fits(plane.len() as int, stride, info),
        settings.num_frames == 1,
    ensures
        output(
            plane,
            stride,
            info,
            settings,
            most_recent(
                history.push(
                    compacted(plane, stride, info.height as int, info.width * info.pixel_stride),
                ),
                1,
            ),
        ) == plane,
{
    law_still_scene_is_unchanged(
        plane,
        stride,
        info,
        settings,
        most_recent(
            history.push(
                compacted(plane, stride, info.height as int, info.width * info.pixel_stride),
            ),
            1,
        ),
    );
}

/// `Lighten` never darkens: no byte of the output is below the same byte of the input.
pub proof fn law_lighten_never_darkens(
    plane: Seq<u8>,
    stride: int,
    info: VideoInfo,
    settings: Settings,
    history: Seq<Seq<u8>>,
    p: int,
)
    requires
        plane_fits(plane.len() as int, stride, info),
        settings.wf(),
        settings.mode == FrameStackMode::Lighten,
        0 <= p < plane.len(),
    ensures
        plane[p] <= output(
            plane,
            stride,
            info,
            settings,
            most_recent(
                history.push(
                    compacted(plane, stride, info.height as int, info.width * info.pixel_stride),
                ),
                settings.num_frames as nat,
            ),
        )[p],
{
    let height = info.height as int;
    let line = info.width * info.pixel_stride;
    let newest = compacted(plane, stride, height, line);
    let frames = most_recent(history.push(newest), settings.num_frames as nat);
    if visible(p, stride, height, line) {
        lemma_visible_needs_a_row(plane, stride, info, p);
        lemma_compacted_at(plane, p, stride, height, line);
        law_newest_is_last_pushed(history, newest, settings.num_frames as nat);
        let samples = column(frames, compact_offset(p, stride, line));
        law_lighten_is_maximum(samples);
        assert(samples[samples.len() - 1] == plane[p]);
    }
}

/// A plane of exactly as many rows as the video, each at least as long as its visible part, is
/// one that a frame can come in.
pub proof fn law_whole_plane_fits(stride: int, info: VideoInfo)
    requires
        info.width * info.pixel_stride <= stride,
    ensures
        plane_fits(info.height * stride, stride, info),
{
    let height = info.height as int;
    let line = info.width * info.pixel_stride;
    assert(0 <= line) by (nonlinear_arith)
        requires
            line == info.width * info.pixel_stride,
    ;
    assert(height * line == 0 ==> height == 0 || line == 0) by (nonlinear_arith);
    assert((height - 1) * stride + stride == height * stride) by (nonlinear_arith);
}

// ---- Properties ----

/// A property that is set reads back as the value it was set to, and the others as before.
pub proof fn law_set_property_reads_back(
    settings: Settings,
    name: Seq<char>,
    value: PropertyValue,
    other: Seq<char>,
)
    requires
        property_kind(name) matches Some(kind) && kind.has_type(value),
        property_kind(other) is Some,
    ensures
        settings.with(name, value).value(name) == value,
        other != name ==> settings.with(name, value).value(other) == settings.value(other),
{
    lemma_property_names_distinct();
}

/// Each property starts out with its declared default, which it accepts.
pub proof fn law_settings_start_as_declared(name: Seq<char>)
    requires
        property_kind(name) is Some,
    ensures
        ({
            let kind = property_kind(name)->0;
            let initial = Settings {
                num_frames: DEFAULT_NUM_FRAMES,
                mode: DEFAULT_MODE,
                passthrough_alpha: DEFAULT_PASSTHROUGH_ALPHA,
            };
            &&& initial.value(name) == kind.default_value()
            &&& kind.accepts(kind.default_value())
        }),
{
    lemma_property_names_distinct();
}

} // verus!
