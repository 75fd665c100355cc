//! Batched sampling of uniform pairs with exact min/max accumulation.
//!
//! A sample is the top 53 bits of a generator word: the numerator `f` of
//! the fixed-point fraction `f / 2^53` in [0,1). Pairs are drawn either
//! four at a time (the batched path, which interleaves eight words into
//! four pairs and keeps one accumulator per lane) or one at a time (the
//! scalar path). Both accumulate the per-pair minimum and maximum as
//! exact integers, so no rounding enters before the caller divides.

use vstd::prelude::*;
use vstd::arithmetic::div_mod::lemma_fundamental_div_mod;

use crate::rng::pcg_draw;
use crate::rng::SampleRng;

verus! {

/// Largest fixed-point numerator a sample can take: 2^53 - 1.
pub const FRACTION_MAX: u64 = 0x1f_ffff_ffff_ffff;

/// The fixed-point sample at position `index` of the word stream from
/// `seed`: the word's top 53 bits.
pub open spec fn sample_at(seed: u64, index: nat) -> u64 {
    pcg_draw(seed, index) >> 11
}

pub open spec fn min_u64(a: u64, b: u64) -> u64 {
    if a <= b {
        a
    } else {
        b
    }
}

pub open spec fn max_u64(a: u64, b: u64) -> u64 {
    if a <= b {
        b
    } else {
        a
    }
}

/// Every sample fits in 53 bits.
pub proof fn lemma_sample_bound(seed: u64, index: nat)
    ensures
        sample_at(seed, index) <= FRACTION_MAX,
{
    let w = pcg_draw(seed, index);
    assert((w >> 11) <= 0x1f_ffff_ffff_ffffu64) by (bit_vector);
}

/// Sum of per-pair minimums over `pairs` pairs drawn one after another,
/// the first pair at word positions `start` and `start + 1`.
pub open spec fn scalar_min_sum(seed: u64, start: nat, pairs: nat) -> int
    decreases pairs,
{
    if pairs == 0 {
        0
    } else {
        let prev = (pairs - 1) as nat;
        scalar_min_sum(seed, start, prev) + min_u64(
            sample_at(seed, start + 2 * prev),
            sample_at(seed, start + 2 * prev + 1),
        )
    }
}

/// Sum of per-pair maximums over the same pairs as `scalar_min_sum`.
pub open spec fn scalar_max_sum(seed: u64, start: nat, pairs: nat) -> int
    decreases pairs,
{
    if pairs == 0 {
        0
    } else {
        let prev = (pairs - 1) as nat;
        scalar_max_sum(seed, start, prev) + max_u64(
            sample_at(seed, start + 2 * prev),
            sample_at(seed, start + 2 * prev + 1),
        )
    }
}

/// The scalar sums are non-negative, ordered, and at most one maximal
/// sample per pair.
pub proof fn lemma_scalar_sums_bounds(seed: u64, start: nat, pairs: nat)
    ensures
        0 <= scalar_min_sum(seed, start, pairs),
        scalar_min_sum(seed, start, pairs) <= scalar_max_sum(seed, start, pairs),
        scalar_max_sum(seed, start, pairs) <= pairs * FRACTION_MAX,
    decreases pairs,
{
    if pairs > 0 {
        let prev = (pairs - 1) as nat;
        lemma_scalar_sums_bounds(seed, start, prev);
        lemma_sample_bound(seed, start + 2 * prev);
        lemma_sample_bound(seed, start + 2 * prev + 1);
        assert(pairs * FRACTION_MAX == (pairs - 1) * FRACTION_MAX + FRACTION_MAX)
            by (nonlinear_arith);
    }
}

/// Sum of per-pair minimums seen by one lane of the batched path. Batch
/// `b` draws eight words; lane `k` pairs word `8b + k` with word
/// `8b + 4 + k`.
pub open spec fn lane_min_sum(seed: u64, lane: nat, batches: nat) -> int
    decreases batches,
{
    if batches == 0 {
        0
    } else {
        let prev = (batches - 1) as nat;
        lane_min_sum(seed, lane, prev) + min_u64(
            sample_at(seed, 8 * prev + lane),
            sample_at(seed, 8 * prev + 4 + lane),
        )
    }
}

/// Sum of per-pair maximums seen by one lane of the batched path.
pub open spec fn lane_max_sum(seed: u64, lane: nat, batches: nat) -> int
    decreases batches,
{
    if batches == 0 {
        0
    } else {
        let prev = (batches - 1) as nat;
        lane_max_sum(seed, lane, prev) + max_u64(
            sample_at(seed, 8 * prev + lane),
            sample_at(seed, 8 * prev + 4 + lane),
        )
    }
}

pub proof fn lemma_lane_sums_bounds(seed: u64, lane: nat, batches: nat)
    ensures
        0 <= lane_min_sum(seed, lane, batches),
        lane_min_sum(seed, lane, batches) <= lane_max_sum(seed, lane, batches),
        lane_max_sum(seed, lane, batches) <= batches * FRACTION_MAX,
    decreases batches,
{
    if batches > 0 {
        let prev = (batches - 1) as nat;
        lemma_lane_sums_bounds(seed, lane, prev);
        lemma_sample_bound(seed, 8 * prev + lane);
        lemma_sample_bound(seed, 8 * prev + 4 + lane);
        assert(batches * FRACTION_MAX == (batches - 1) * FRACTION_MAX + FRACTION_MAX)
            by (nonlinear_arith);
    }
}

/// The horizontal sum of the four per-lane minimum accumulators.
pub open spec fn batch_min_sum(seed: u64, batches: nat) -> int {
    lane_min_sum(seed, 0, batches) + lane_min_sum(seed, 1, batches) + lane_min_sum(
        seed,
        2,
        batches,
    ) + lane_min_sum(seed, 3, batches)
}

/// The horizontal sum of the four per-lane maximum accumulators.
pub open spec fn batch_max_sum(seed: u64, batches: nat) -> int {
    lane_max_sum(seed, 0, batches) + lane_max_sum(seed, 1, batches) + lane_max_sum(
        seed,
        2,
        batches,
    ) + lane_max_sum(seed, 3, batches)
}

pub proof fn lemma_batch_sums_bounds(seed: u64, batches: nat)
    ensures
        0 <= batch_min_sum(seed, batches),
        batch_min_sum(seed, batches) <= batch_max_sum(seed, batches),
        batch_max_sum(seed, batches) <= 4 * batches * FRACTION_MAX,
{
    lemma_lane_sums_bounds(seed, 0, batches);
    lemma_lane_sums_bounds(seed, 1, batches);
    lemma_lane_sums_bounds(seed, 2, batches);
    lemma_lane_sums_bounds(seed, 3, batches);
}

/// What the batched path produces for `samples` pairs: all full batches,
/// then the leftover `samples % 4` pairs drawn one at a time.
pub open spec fn batched_min_total(seed: u64, samples: nat) -> int {
    batch_min_sum(seed, samples / 4) + scalar_min_sum(seed, 8 * (samples / 4), samples % 4)
}

/// The maximum-side counterpart of `batched_min_total`.
pub open spec fn batched_max_total(seed: u64, samples: nat) -> int {
    batch_max_sum(seed, samples / 4) + scalar_max_sum(seed, 8 * (samples / 4), samples % 4)
}

/// The fallback policy loses nothing: below the batch width the batched
/// path degenerates to the scalar loop over the same word stream, and
/// the two paths return identical sums.
pub proof fn lemma_paths_agree_below_batch_width(seed: u64, samples: nat)
    requires
        samples < 4,
    ensures
        batched_min_total(seed, samples) == scalar_min_sum(seed, 0, samples),
        batched_max_total(seed, samples) == scalar_max_sum(seed, 0, samples),
{
    assert(samples / 4 == 0);
    assert(samples % 4 == samples);
}

/// One batched run's sums are non-negative, ordered, and at most one
/// maximal sample per pair: in fixed point, `samples * (2^53 - 1)`.
pub proof fn lemma_batched_totals_bounds(seed: u64, samples: nat)
    ensures
        0 <= batched_min_total(seed, samples),
        batched_min_total(seed, samples) <= batched_max_total(seed, samples),
        batched_max_total(seed, samples) <= samples * FRACTION_MAX,
{
    let full = (samples / 4) as int;
    let rest = (samples % 4) as int;
    lemma_batch_sums_bounds(seed, samples / 4);
    lemma_scalar_sums_bounds(seed, 8 * (samples / 4), samples % 4);
    lemma_fundamental_div_mod(samples as int, 4);
    assert(4 * full * FRACTION_MAX + rest * FRACTION_MAX == samples * FRACTION_MAX)
        by (nonlinear_arith)
        requires
            samples as int == 4 * full + rest,
    ;
}

/// A result of one sampling run: exact fixed-point sums of the per-pair
/// minimums and maximums.
#[derive(Clone, Copy, PartialEq, Eq, Structural, Debug)]
pub struct PartialResult {
    pub min_sum: u128,
    pub max_sum: u128,
}

/// Draw one pair of samples from `rng` and add its minimum and maximum
/// into the two accumulators.
fn accumulate_pair(rng: &mut SampleRng, min_acc: &mut u128, max_acc: &mut u128)
    requires
        *old(min_acc) <= *old(max_acc),
        *old(max_acc) + FRACTION_MAX <= u128::MAX,
    ensures
        final(rng).seed() == old(rng).seed(),
        final(rng).drawn() == old(rng).drawn() + 2,
        *final(min_acc) == *old(min_acc) + min_u64(
            sample_at(old(rng).seed(), old(rng).drawn()),
            sample_at(old(rng).seed(), old(rng).drawn() + 1),
        ),
        *final(max_acc) == *old(max_acc) + max_u64(
            sample_at(old(rng).seed(), old(rng).drawn()),
            sample_at(old(rng).seed(), old(rng).drawn() + 1),
        ),
{
    proof {
        lemma_sample_bound(rng.seed(), rng.drawn());
        lemma_sample_bound(rng.seed(), rng.drawn() + 1);
    }
    let first = rng.next_word() >> 11;
    let second = rng.next_word() >> 11;
    if first <= second {
        *min_acc = *min_acc + first as u128;
        *max_acc = *max_acc + second as u128;
    } else {
        *min_acc = *min_acc + second as u128;
        *max_acc = *max_acc + first as u128;
    }
}

/// Pure scalar sampling: `num_samples` pairs drawn one at a time from a
/// generator seeded with `seed`. The fallback path for hardware without
/// wide lanes; its sums are pinned to the same word stream the batched
/// path reads.
pub fn run_batch_scalar(num_samples: u64, seed: u64) -> (r: PartialResult)
    ensures
        r.min_sum == scalar_min_sum(seed, 0, num_samples as nat),
        r.max_sum == scalar_max_sum(seed, 0, num_samples as nat),
        r.min_sum <= r.max_sum,
        r.max_sum <= num_samples as int * FRACTION_MAX as int,
        num_samples == 0 ==> r.min_sum == 0 && r.max_sum == 0,
{
    let mut rng = SampleRng::new(seed);
    let mut min_sum: u128 = 0;
    let mut max_sum: u128 = 0;
    let mut done: u64 = 0;
    while done < num_samples
        invariant
            done <= num_samples,
            rng.seed() == seed,
            rng.drawn() == 2 * done,
            min_sum == scalar_min_sum(seed, 0, done as nat),
            max_sum == scalar_max_sum(seed, 0, done as nat),
        decreases num_samples - done,
    {
        proof {
            lemma_scalar_sums_bounds(seed, 0, done as nat);
        }
        accumulate_pair(&mut rng, &mut min_sum, &mut max_sum);
        done = done + 1;
    }
    proof {
        lemma_scalar_sums_bounds(seed, 0, num_samples as nat);
    }
    PartialResult { min_sum, max_sum }
}

/// Batched sampling: `num_samples` pairs from a generator seeded with
/// `seed`, four pairs per batch with one accumulator per lane, and a
/// scalar pass over the `num_samples % 4` leftover pairs. This mirrors a
/// wide-vector kernel lane for lane; with exact integer accumulation the
/// horizontal sum loses nothing.
pub fn run_batch(num_samples: u64, seed: u64) -> (r: PartialResult)
    ensures
        r.min_sum == batched_min_total(seed, num_samples as nat),
        r.max_sum == batched_max_total(seed, num_samples as nat),
        r.min_sum <= r.max_sum,
        r.max_sum <= num_samples as int * FRACTION_MAX as int,
        num_samples == 0 ==> r.min_sum == 0 && r.max_sum == 0,
{
    let mut rng = SampleRng::new(seed);
    let iterations = num_samples / 4;
    let remainder = num_samples % 4;

    let mut min0: u128 = 0;
    let mut min1: u128 = 0;
    let mut min2: u128 = 0;
    let mut min3: u128 = 0;
    let mut max0: u128 = 0;
    let mut max1: u128 = 0;
    let mut max2: u128 = 0;
    let mut max3: u128 = 0;

    let mut batch: u64 = 0;
    while batch < iterations
        invariant
            batch <= iterations,
            rng.seed() == seed,
            rng.drawn() == 8 * batch,
            min0 == lane_min_sum(seed, 0, batch as nat),
            min1 == lane_min_sum(seed, 1, batch as nat),
            min2 == lane_min_sum(seed, 2, batch as nat),
            min3 == lane_min_sum(seed, 3, batch as nat),
            max0 == lane_max_sum(seed, 0, batch as nat),
            max1 == lane_max_sum(seed, 1, batch as nat),
            max2 == lane_max_sum(seed, 2, batch as nat),
            max3 == lane_max_sum(seed, 3, batch as nat),
        decreases iterations - batch,
    {
        proof {
            lemma_lane_sums_bounds(seed, 0, batch as nat);
            lemma_lane_sums_bounds(seed, 1, batch as nat);
            lemma_lane_sums_bounds(seed, 2, batch as nat);
            lemma_lane_sums_bounds(seed, 3, batch as nat);
            lemma_sample_bound(seed, 8 * batch as nat);
            lemma_sample_bound(seed, 8 * batch as nat + 1);
            lemma_sample_bound(seed, 8 * batch as nat + 2);
            lemma_sample_bound(seed, 8 * batch as nat + 3);
            lemma_sample_bound(seed, 8 * batch as nat + 4);
            lemma_sample_bound(seed, 8 * batch as nat + 5);
            lemma_sample_bound(seed, 8 * batch as nat + 6);
            lemma_sample_bound(seed, 8 * batch as nat + 7);
        }
        let s0 = rng.next_word() >> 11;
        let s1 = rng.next_word() >> 11;
        let s2 = rng.next_word() >> 11;
        let s3 = rng.next_word() >> 11;
        let s4 = rng.next_word() >> 11;
        let s5 = rng.next_word() >> 11;
        let s6 = rng.next_word() >> 11;
        let s7 = rng.next_word() >> 11;

        min0 = min0 + (if s0 <= s4 { s0 } else { s4 }) as u128;
        min1 = min1 + (if s1 <= s5 { s1 } else { s5 }) as u128;
        min2 = min2 + (if s2 <= s6 { s2 } else { s6 }) as u128;
        min3 = min3 + (if s3 <= s7 { s3 } else { s7 }) as u128;
        max0 = max0 + (if s0 <= s4 { s4 } else { s0 }) as u128;
        max1 = max1 + (if s1 <= s5 { s5 } else { s1 }) as u128;
        max2 = max2 + (if s2 <= s6 { s6 } else { s2 }) as u128;
        max3 = max3 + (if s3 <= s7 { s7 } else { s3 }) as u128;

        batch = batch + 1;
    }

    proof {
        lemma_lane_sums_bounds(seed, 0, iterations as nat);
        lemma_lane_sums_bounds(seed, 1, iterations as nat);
        lemma_lane_sums_bounds(seed, 2, iterations as nat);
        lemma_lane_sums_bounds(seed, 3, iterations as nat);
    }
    let mut min_sum: u128 = min0 + min1 + min2 + min3;
    let mut max_sum: u128 = max0 + max1 + max2 + max3;

    let mut extra: u64 = 0;
    while extra < remainder
        invariant
            extra <= remainder,
            remainder < 4,
            iterations == num_samples as int / 4,
            remainder == num_samples as int % 4,
            rng.seed() == seed,
            rng.drawn() == 8 * iterations + 2 * extra,
            min_sum == batch_min_sum(seed, iterations as nat) + scalar_min_sum(
                seed,
                (8 * iterations) as nat,
                extra as nat,
            ),
            max_sum == batch_max_sum(seed, iterations as nat) + scalar_max_sum(
                seed,
                (8 * iterations) as nat,
                extra as nat,
            ),
        decreases remainder - extra,
    {
        proof {
            lemma_batch_sums_bounds(seed, iterations as nat);
            lemma_scalar_sums_bounds(seed, (8 * iterations) as nat, extra as nat);
        }
        accumulate_pair(&mut rng, &mut min_sum, &mut max_sum);
        extra = extra + 1;
    }

    proof {
        lemma_fundamental_div_mod(num_samples as int, 4);
        lemma_batch_sums_bounds(seed, iterations as nat);
        lemma_scalar_sums_bounds(seed, (8 * iterations) as nat, remainder as nat);
    }
    PartialResult { min_sum, max_sum }
}

} // verus!
