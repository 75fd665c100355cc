//! Reduction of per-worker partial results into the whole run's sums,
//! and the sequential driver that seeds, runs and reduces one worker per
//! share. Sums are exact integers, so the reduction is associative and
//! commutative with no rounding caveat.

use vstd::prelude::*;

use crate::partition::assign_counts;
use crate::partition::sum_u64;
use crate::partition::worker_counts;
use crate::sampler::batched_max_total;
use crate::sampler::batched_min_total;
use crate::sampler::lemma_batched_totals_bounds;
use crate::sampler::run_batch;
use crate::sampler::PartialResult;
use crate::sampler::FRACTION_MAX;

verus! {

/// A run that cannot be configured as asked.
#[derive(Clone, Copy, PartialEq, Eq, Structural, Debug)]
pub enum ConfigError {
    /// No worker threads were requested, so no share can be assigned.
    ZeroThreads,
}

/// Sum of the minimum accumulators over a collection of partial results.
pub open spec fn total_min_sum(s: Seq<PartialResult>) -> int
    decreases s.len(),
{
    if s.len() == 0 {
        0
    } else {
        total_min_sum(s.drop_last()) + s.last().min_sum
    }
}

/// Sum of the maximum accumulators over a collection of partial results.
pub open spec fn total_max_sum(s: Seq<PartialResult>) -> int
    decreases s.len(),
{
    if s.len() == 0 {
        0
    } else {
        total_max_sum(s.drop_last()) + s.last().max_sum
    }
}

/// Taking one element out of the collection takes exactly its
/// contribution out of the sums.
proof fn lemma_total_sums_remove(s: Seq<PartialResult>, j: int)
    requires
        0 <= j < s.len(),
    ensures
        total_min_sum(s.remove(j)) == total_min_sum(s) - s[j].min_sum,
        total_max_sum(s.remove(j)) == total_max_sum(s) - s[j].max_sum,
    decreases s.len(),
{
    if j == s.len() - 1 {
        assert(s.remove(j) =~= s.drop_last());
    } else {
        let t = s.drop_last();
        lemma_total_sums_remove(t, j);
        assert(s.remove(j).drop_last() =~= t.remove(j));
        assert(s.remove(j).last() == s.last());
    }
}

/// Reduction order-independence: two collections of partial results that
/// hold the same results, in whatever order, reduce to the same totals.
/// With exact integer sums the totals agree exactly, not merely within a
/// rounding tolerance.
pub proof fn lemma_reduction_order_independent(a: Seq<PartialResult>, b: Seq<PartialResult>)
    requires
        a.to_multiset() == b.to_multiset(),
    ensures
        total_min_sum(a) == total_min_sum(b),
        total_max_sum(a) == total_max_sum(b),
    decreases a.len(),
{
    a.to_multiset_ensures();
    b.to_multiset_ensures();
    if a.len() == 0 {
        assert(b.len() == 0);
    } else {
        let x = a.last();
        assert(a.contains(x));
        assert(b.to_multiset().count(x) > 0);
        assert(b.contains(x));
        let j = choose|j: int| 0 <= j < b.len() && b[j] == x;
        assert(a.drop_last() =~= a.remove(a.len() - 1));
        assert(a.drop_last().to_multiset() =~= a.to_multiset().remove(x));
        assert(b.remove(j).to_multiset() =~= b.to_multiset().remove(x));
        lemma_reduction_order_independent(a.drop_last(), b.remove(j));
        lemma_total_sums_remove(b, j);
    }
}

/// Extending a prefix by one element adds exactly that element's sums.
proof fn lemma_total_sums_take_step(s: Seq<PartialResult>, i: int)
    requires
        0 <= i < s.len(),
    ensures
        total_min_sum(s.take(i + 1)) == total_min_sum(s.take(i)) + s[i].min_sum,
        total_max_sum(s.take(i + 1)) == total_max_sum(s.take(i)) + s[i].max_sum,
{
    assert(s.take(i + 1).drop_last() =~= s.take(i));
    assert(s.take(i + 1).last() == s[i]);
}

/// A prefix never sums to more than the whole collection.
proof fn lemma_total_sums_take_bound(s: Seq<PartialResult>, i: int)
    requires
        0 <= i <= s.len(),
    ensures
        total_min_sum(s.take(i)) <= total_min_sum(s),
        total_max_sum(s.take(i)) <= total_max_sum(s),
    decreases s.len() - i,
{
    if i == s.len() {
        assert(s.take(i) =~= s);
    } else {
        lemma_total_sums_take_step(s, i);
        lemma_total_sums_take_bound(s, i + 1);
    }
}

/// Sum all partial results into one: the reduction the aggregator runs
/// after every worker has joined. Order does not matter; see
/// `lemma_reduction_order_independent`.
pub fn reduce(partials: &Vec<PartialResult>) -> (total: PartialResult)
    requires
        total_min_sum(partials@) <= u128::MAX,
        total_max_sum(partials@) <= u128::MAX,
    ensures
        total.min_sum == total_min_sum(partials@),
        total.max_sum == total_max_sum(partials@),
{
    let mut min_acc: u128 = 0;
    let mut max_acc: u128 = 0;
    let mut i: usize = 0;
    while i < partials.len()
        invariant
            0 <= i <= partials@.len(),
            total_min_sum(partials@) <= u128::MAX,
            total_max_sum(partials@) <= u128::MAX,
            min_acc == total_min_sum(partials@.take(i as int)),
            max_acc == total_max_sum(partials@.take(i as int)),
        decreases partials@.len() - i,
    {
        proof {
            lemma_total_sums_take_step(partials@, i as int);
            lemma_total_sums_take_bound(partials@, i as int + 1);
        }
        min_acc = min_acc + partials[i].min_sum;
        max_acc = max_acc + partials[i].max_sum;
        i = i + 1;
    }
    proof {
        assert(partials@.take(partials@.len() as int) =~= partials@);
    }
    PartialResult { min_sum: min_acc, max_sum: max_acc }
}

/// What a run of one worker per share produces on the minimum side,
/// worker `i` sampling `counts[i]` pairs from `seeds[i]`.
pub open spec fn workers_min_total(counts: Seq<u64>, seeds: Seq<u64>) -> int
    recommends
        counts.len() == seeds.len(),
    decreases counts.len(),
{
    if counts.len() == 0 {
        0
    } else {
        workers_min_total(counts.drop_last(), seeds.drop_last()) + batched_min_total(
            seeds.last(),
            counts.last() as nat,
        )
    }
}

/// The maximum-side counterpart of `workers_min_total`.
pub open spec fn workers_max_total(counts: Seq<u64>, seeds: Seq<u64>) -> int
    recommends
        counts.len() == seeds.len(),
    decreases counts.len(),
{
    if counts.len() == 0 {
        0
    } else {
        workers_max_total(counts.drop_last(), seeds.drop_last()) + batched_max_total(
            seeds.last(),
            counts.last() as nat,
        )
    }
}

/// The workers' totals are non-negative, ordered, and bounded by the
/// number of assigned samples times the largest sample.
pub proof fn lemma_workers_totals_bounds(counts: Seq<u64>, seeds: Seq<u64>)
    requires
        counts.len() == seeds.len(),
    ensures
        0 <= workers_min_total(counts, seeds),
        workers_min_total(counts, seeds) <= workers_max_total(counts, seeds),
        workers_max_total(counts, seeds) <= sum_u64(counts) * FRACTION_MAX,
    decreases counts.len(),
{
    if counts.len() > 0 {
        lemma_workers_totals_bounds(counts.drop_last(), seeds.drop_last());
        lemma_batched_totals_bounds(seeds.last(), counts.last() as nat);
        assert(sum_u64(counts) * FRACTION_MAX == sum_u64(counts.drop_last()) * FRACTION_MAX
            + counts.last() * FRACTION_MAX) by (nonlinear_arith)
            requires
                sum_u64(counts) == sum_u64(counts.drop_last()) + counts.last(),
        ;
    }
}

/// Pointwise-pinned partial results sum to the workers' totals.
proof fn lemma_partials_match_workers(
    partials: Seq<PartialResult>,
    counts: Seq<u64>,
    seeds: Seq<u64>,
)
    requires
        partials.len() == counts.len(),
        counts.len() == seeds.len(),
        forall|i: int|
            0 <= i < partials.len() ==> #[trigger] partials[i].min_sum == batched_min_total(
                seeds[i],
                counts[i] as nat,
            ) && partials[i].max_sum == batched_max_total(seeds[i], counts[i] as nat),
    ensures
        total_min_sum(partials) == workers_min_total(counts, seeds),
        total_max_sum(partials) == workers_max_total(counts, seeds),
    decreases partials.len(),
{
    if partials.len() > 0 {
        lemma_partials_match_workers(partials.drop_last(), counts.drop_last(), seeds.drop_last());
    }
}

/// Run one worker per share, worker `i` sampling `counts[i]` pairs from
/// a generator seeded with `seeds[i]`. Workers share nothing: each result
/// is a function of its own share and seed alone, so the workers may run
/// in any order, or concurrently, without changing what is returned.
pub fn run_workers(counts: &Vec<u64>, seeds: &Vec<u64>) -> (partials: Vec<PartialResult>)
    requires
        counts@.len() == seeds@.len(),
    ensures
        partials@.len() == counts@.len(),
        forall|i: int|
            0 <= i < partials@.len() ==> #[trigger] partials@[i].min_sum == batched_min_total(
                seeds@[i],
                counts@[i] as nat,
            ) && partials@[i].max_sum == batched_max_total(seeds@[i], counts@[i] as nat),
{
    let mut partials: Vec<PartialResult> = Vec::new();
    let mut i: usize = 0;
    while i < counts.len()
        invariant
            counts@.len() == seeds@.len(),
            0 <= i <= counts@.len(),
            partials@.len() == i,
            forall|j: int|
                0 <= j < i ==> #[trigger] partials@[j].min_sum == batched_min_total(
                    seeds@[j],
                    counts@[j] as nat,
                ) && partials@[j].max_sum == batched_max_total(seeds@[j], counts@[j] as nat),
        decreases counts@.len() - i,
    {
        let partial = run_batch(counts[i], seeds[i]);
        partials.push(partial);
        i = i + 1;
    }
    partials
}

/// Relies on `rand::thread_rng` and `rand::RngCore::next_u64`: one word
/// from the process-level entropy source, drawn on the calling thread.
/// Nothing is promised of its value; every seed is handled as arbitrary
/// downstream.
#[verifier::external_body]
fn fresh_seed() -> u64 {
    rand::RngCore::next_u64(&mut rand::thread_rng())
}

/// The whole run up to the final division: partition the total into one
/// share per worker, seed each worker from the process entropy source,
/// sample every share, and reduce the partial results into the exact
/// fixed-point sums. Fails exactly when no worker is requested.
pub fn estimate_sums(total_simulations: u64, num_threads: u64) -> (r: Result<
    PartialResult,
    ConfigError,
>)
    ensures
        r is Err <==> num_threads == 0,
        r is Err ==> r == Result::<PartialResult, ConfigError>::Err(ConfigError::ZeroThreads),
        r is Ok ==> r->Ok_0.min_sum <= r->Ok_0.max_sum,
        r is Ok ==> r->Ok_0.max_sum <= total_simulations as int * FRACTION_MAX as int,
        r is Ok ==> exists|seeds: Seq<u64>|
            seeds.len() == num_threads && r->Ok_0.min_sum == workers_min_total(
                worker_counts(total_simulations, num_threads),
                seeds,
            ) && r->Ok_0.max_sum == workers_max_total(
                worker_counts(total_simulations, num_threads),
                seeds,
            ),
{
    if num_threads == 0 {
        return Err(ConfigError::ZeroThreads);
    }
    let counts = assign_counts(total_simulations, num_threads);
    let mut seeds: Vec<u64> = Vec::new();
    let mut drawn: u64 = 0;
    while drawn < num_threads
        invariant
            drawn <= num_threads,
            seeds@.len() == drawn,
        decreases num_threads - drawn,
    {
        seeds.push(fresh_seed());
        drawn = drawn + 1;
    }
    let partials = run_workers(&counts, &seeds);
    proof {
        lemma_partials_match_workers(partials@, counts@, seeds@);
        lemma_workers_totals_bounds(counts@, seeds@);
    }
    let total = reduce(&partials);
    proof {
        assert(seeds@.len() == num_threads && total.min_sum == workers_min_total(
            worker_counts(total_simulations, num_threads),
            seeds@,
        ) && total.max_sum == workers_max_total(
            worker_counts(total_simulations, num_threads),
            seeds@,
        ));
    }
    Ok(total)
}

} // verus!
