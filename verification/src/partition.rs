//! Static work partitioning: an even chunk per worker, the last worker
//! absorbing the leftover, so that the per-worker counts add up to the
//! requested total exactly.

use vstd::prelude::*;
use vstd::arithmetic::div_mod::lemma_fundamental_div_mod;
use vstd::arithmetic::div_mod::lemma_mod_bound;

verus! {

/// Samples every worker but the last receives.
pub open spec fn spec_chunk(total: u64, threads: u64) -> int
    recommends
        threads >= 1,
{
    total as int / threads as int
}

/// Samples left over after even chunking; the last worker absorbs them.
pub open spec fn spec_leftover(total: u64, threads: u64) -> int
    recommends
        threads >= 1,
{
    total as int % threads as int
}

/// The per-worker shares, in worker order.
pub open spec fn worker_counts(total: u64, threads: u64) -> Seq<u64>
    recommends
        threads >= 1,
{
    Seq::new(
        threads as nat,
        |i: int|
            if i == threads as int - 1 {
                (spec_chunk(total, threads) + spec_leftover(total, threads)) as u64
            } else {
                spec_chunk(total, threads) as u64
            },
    )
}

pub open spec fn sum_u64(s: Seq<u64>) -> int
    decreases s.len(),
{
    if s.len() == 0 {
        0
    } else {
        sum_u64(s.drop_last()) + s.last()
    }
}

/// The chunk and the leftover are non-negative and their sum fits below
/// the total, so the last worker's share fits in a `u64`.
pub proof fn lemma_share_fits(total: u64, threads: u64)
    requires
        threads >= 1,
    ensures
        0 <= spec_chunk(total, threads),
        0 <= spec_leftover(total, threads) < threads,
        spec_chunk(total, threads) + spec_leftover(total, threads) <= total,
{
    let c = spec_chunk(total, threads);
    let l = spec_leftover(total, threads);
    lemma_fundamental_div_mod(total as int, threads as int);
    lemma_mod_bound(total as int, threads as int);
    assert(0 <= c && c + l <= total) by (nonlinear_arith)
        requires
            total as int == threads as int * c + l,
            0 <= l < threads as int,
            threads >= 1,
    ;
}

/// Summing a sequence of equal shares multiplies the share out.
proof fn lemma_sum_repeated(share: u64, len: nat)
    ensures
        sum_u64(Seq::new(len, |i: int| share)) == len * share,
    decreases len,
{
    let s = Seq::new(len, |i: int| share);
    if len == 0 {
        assert(s.len() == 0);
    } else {
        let prev = (len - 1) as nat;
        lemma_sum_repeated(share, prev);
        assert(s.drop_last() =~= Seq::new(prev, |i: int| share));
        assert(len * share == prev * share + share) by (nonlinear_arith)
            requires
                prev == len - 1,
        ;
    }
}

/// The shares of `worker_counts` add up to the total exactly: no sample
/// is lost and none is handed out twice.
pub proof fn lemma_counts_cover_total(total: u64, threads: u64)
    requires
        threads >= 1,
    ensures
        sum_u64(worker_counts(total, threads)) == total,
{
    let c = spec_chunk(total, threads);
    let l = spec_leftover(total, threads);
    let counts = worker_counts(total, threads);
    lemma_share_fits(total, threads);
    lemma_sum_repeated(c as u64, (threads - 1) as nat);
    assert(counts.drop_last() =~= Seq::new((threads - 1) as nat, |i: int| c as u64));
    lemma_fundamental_div_mod(total as int, threads as int);
    assert((threads - 1) as nat * (c as u64) + ((c + l) as u64) == total) by (nonlinear_arith)
        requires
            total as int == threads as int * c + l,
            threads >= 1,
            0 <= c,
            0 <= l,
            c + l <= total,
            c <= u64::MAX,
    ;
}

/// Split `total_simulations` into one share per worker: an even chunk
/// for each, with the division's remainder added to the last worker's
/// share. The shares cover the total exactly.
pub fn assign_counts(total_simulations: u64, num_threads: u64) -> (counts: Vec<u64>)
    requires
        num_threads >= 1,
    ensures
        counts@ == worker_counts(total_simulations, num_threads),
        counts@.len() == num_threads,
        forall|i: int|
            0 <= i < num_threads as int - 1 ==> counts@[i] == spec_chunk(
                total_simulations,
                num_threads,
            ),
        counts@[num_threads as int - 1] == spec_chunk(total_simulations, num_threads)
            + spec_leftover(total_simulations, num_threads),
        sum_u64(counts@) == total_simulations,
{
    proof {
        lemma_share_fits(total_simulations, num_threads);
        lemma_counts_cover_total(total_simulations, num_threads);
    }
    let chunk = total_simulations / num_threads;
    let leftover = total_simulations % num_threads;

    let mut counts: Vec<u64> = Vec::new();
    let mut worker: u64 = 0;
    while worker < num_threads - 1
        invariant
            num_threads >= 1,
            worker <= num_threads - 1,
            chunk == spec_chunk(total_simulations, num_threads),
            counts@ =~= Seq::new(worker as nat, |i: int| chunk),
        decreases num_threads - 1 - worker,
    {
        counts.push(chunk);
        worker = worker + 1;
    }
    counts.push(chunk + leftover);
    proof {
        assert(counts@ =~= worker_counts(total_simulations, num_threads));
    }
    counts
}

} // verus!
