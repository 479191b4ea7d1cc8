//! Combining the bytes that the frames of the history hold at one offset.
use vstd::arithmetic::div_mod::*;
use vstd::prelude::*;

use crate::mode::FrameStackMode;

verus! {

/// The bytes of all frames at offset `i`, oldest frame first.
pub open spec fn column(frames: Seq<Seq<u8>>, i: int) -> Seq<u8> {
    Seq::new(frames.len(), |k: int| frames[k][i])
}

/// The greatest of the samples, 0 where there is none.
pub open spec fn brightest(samples: Seq<u8>) -> u8
    decreases samples.len(),
{
    if samples.len() == 0 {
        0
    } else {
        let rest = brightest(samples.drop_last());
        if rest < samples.last() {
            samples.last()
        } else {
            rest
        }
    }
}

/// The sum of the samples.
pub open spec fn total(samples: Seq<u8>) -> nat
    decreases samples.len(),
{
    if samples.len() == 0 {
        0
    } else {
        total(samples.drop_last()) + samples.last() as nat
    }
}

/// The sum of the samples, where the oldest has weight 1 and each newer one a weight that is
/// greater by 1.
pub open spec fn weighted_total(samples: Seq<u8>) -> nat
    decreases samples.len(),
{
    if samples.len() == 0 {
        0
    } else {
        weighted_total(samples.drop_last()) + samples.len() * samples.last() as nat
    }
}

/// The sum of the weights 1 to `n`.
pub open spec fn weight_sum(n: nat) -> nat {
    (n * (n + 1) / 2) as nat
}

/// What one column of samples is combined into. Both means round down.
pub open spec fn blend(mode: FrameStackMode, samples: Seq<u8>) -> u8 {
    match mode {
        FrameStackMode::Lighten => brightest(samples),
        FrameStackMode::Average => (total(samples) / samples.len()) as u8,
        FrameStackMode::LinearDecay => (weighted_total(samples) / weight_sum(
            samples.len(),
        )) as u8,
    }
}

/// Whether the sums that `mode` takes over `n` samples fit in 32 bits, whatever the samples are.
pub open spec fn sums_fit(mode: FrameStackMode, n: nat) -> bool {
    match mode {
        FrameStackMode::Lighten => true,
        FrameStackMode::Average => 255 * n <= u32::MAX,
        FrameStackMode::LinearDecay => 255 * weight_sum(n) <= u32::MAX,
    }
}

/// A weight sum grows by the weight that is added, and is 0 for no weights alone.
pub proof fn lemma_weight_sum_step(n: nat)
    ensures
        weight_sum(0) == 0,
        weight_sum(n + 1) == weight_sum(n) + n + 1,
        n >= 1 ==> weight_sum(n) >= n,
{
    assert((n + 1) * (n + 2) == n * (n + 1) + 2 * (n + 1)) by (nonlinear_arith);
    if n >= 1 {
        assert(n * (n + 1) >= 2 * n) by (nonlinear_arith)
            requires
                n >= 1,
        ;
    }
}

/// Where the weighted sums of `n` samples fit in 32 bits, so does what the weight sum is half of.
pub proof fn lemma_weight_sum_fits(n: nat)
    requires
        255 * weight_sum(n) <= u32::MAX,
    ensures
        n * (n + 1) <= u32::MAX,
        n < u32::MAX,
{
    assert(n * (n + 1) >= n) by (nonlinear_arith);
}

/// A weight sum is monotone in the number of weights.
pub proof fn lemma_weight_sum_monotone(m: nat, n: nat)
    requires
        m <= n,
    ensures
        weight_sum(m) <= weight_sum(n),
    decreases n,
{
    if m < n {
        lemma_weight_sum_monotone(m, (n - 1) as nat);
        lemma_weight_sum_step((n - 1) as nat);
    }
}

/// No sample is above 255, so neither sum is above 255 times its weights.
pub proof fn lemma_totals_bounded(samples: Seq<u8>)
    ensures
        total(samples) <= 255 * samples.len(),
        weighted_total(samples) <= 255 * weight_sum(samples.len()),
    decreases samples.len(),
{
    lemma_weight_sum_step(0);
    if samples.len() > 0 {
        lemma_totals_bounded(samples.drop_last());
        lemma_weight_sum_step((samples.len() - 1) as nat);
        assert(samples.len() * samples.last() as nat <= 255 * samples.len()) by (nonlinear_arith)
            requires
                samples.last() <= 255,
        ;
    }
}

/// The mean of samples and their weighted mean are bytes: storing them as such loses nothing.
pub proof fn lemma_means_are_bytes(samples: Seq<u8>)
    requires
        samples.len() > 0,
    ensures
        weight_sum(samples.len()) > 0,
        0 <= total(samples) / samples.len() <= 255,
        0 <= weighted_total(samples) / weight_sum(samples.len()) <= 255,
{
    lemma_totals_bounded(samples);
    lemma_weight_sum_step(samples.len());
    let n = samples.len() as int;
    let w = weight_sum(samples.len()) as int;
    lemma_div_is_ordered(total(samples) as int, 255 * n, n);
    lemma_div_multiples_vanish(255, n);
    lemma_div_pos_is_pos(total(samples) as int, n);
    lemma_div_is_ordered(weighted_total(samples) as int, 255 * w, w);
    lemma_div_multiples_vanish(255, w);
    lemma_div_pos_is_pos(weighted_total(samples) as int, w);
    assert(n * 255 == 255 * n && w * 255 == 255 * w) by (nonlinear_arith);
}

} // verus!
