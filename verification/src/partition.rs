//! Cutting the index space of one length into one range per worker.
//!
//! The ranges are contiguous, of equal size but for the last ones, which are
//! clipped to the space and may be empty.

use vstd::arithmetic::div_mod::{
    lemma_div_is_ordered, lemma_fundamental_div_mod, lemma_mod_bound,
};
use vstd::prelude::*;

verus! {

/// The indices `start <= i < end`, the share of one worker.
#[derive(Clone, Copy, Debug, PartialEq, Eq, Structural)]
pub struct WorkRange {
    pub start: u64,
    pub end: u64,
}

impl WorkRange {
    /// The index lies in the range.
    pub open spec fn contains(self, index: int) -> bool {
        self.start <= index < self.end
    }
}

/// The size of a full share: `total / workers`, rounded up.
pub open spec fn chunk_size(total: nat, workers: nat) -> nat {
    ((total + workers - 1) / (workers as int)) as nat
}

/// The smaller of two numbers.
pub open spec fn at_most(a: nat, limit: nat) -> nat {
    if a <= limit {
        a
    } else {
        limit
    }
}

/// Where the share of worker `k` begins.
pub open spec fn share_start(total: nat, workers: nat, k: nat) -> nat {
    at_most(k * chunk_size(total, workers), total)
}

/// Where the share of worker `k` ends.
pub open spec fn share_end(total: nat, workers: nat, k: nat) -> nat {
    at_most((k + 1) * chunk_size(total, workers), total)
}

/// Index `i` falls to worker `k`: it lies in `[k * chunk, (k + 1) * chunk)`
/// and below `total`.
pub open spec fn in_share(total: nat, workers: nat, k: nat, index: nat) -> bool {
    k * chunk_size(total, workers) <= index < (k + 1) * chunk_size(total, workers) && index
        < total
}

/// The share of one worker out of `num_workers`, for a space of `total`
/// indices.
pub fn work_range(total: u64, num_workers: usize, worker: usize) -> (range: WorkRange)
    requires
        num_workers >= 1,
    ensures
        range.start == share_start(total as nat, num_workers as nat, worker as nat),
        range.end == share_end(total as nat, num_workers as nat, worker as nat),
        range.start <= range.end <= total,
{
    let wide_total: u128 = total as u128;
    let workers: u128 = num_workers as u128;
    let chunk: u128 = (wide_total + workers - 1) / workers;
    let k: u128 = worker as u128;
    proof {
        lemma_chunk_bounds(total as nat, num_workers as nat);
        assert(k * chunk <= (k + 1) * chunk <= 0x1_0000_0000_0000_0000 * 0xffff_ffff_ffff_ffff)
            by (nonlinear_arith)
            requires
                0 <= k < 0x1_0000_0000_0000_0000,
                0 <= chunk <= 0xffff_ffff_ffff_ffff,
        ;
    }
    let low: u128 = k * chunk;
    let high: u128 = (k + 1) * chunk;
    let start: u64 = if low <= wide_total {
        low as u64
    } else {
        total
    };
    let end: u64 = if high <= wide_total {
        high as u64
    } else {
        total
    };
    WorkRange { start, end }
}

/// One share per worker, in the workers' order.
pub fn partition(total: u64, num_workers: usize) -> (ranges: Vec<WorkRange>)
    requires
        num_workers >= 1,
    ensures
        ranges@.len() == num_workers,
        forall|k: int|
            0 <= k < num_workers ==> (#[trigger] ranges@[k]).start == share_start(
                total as nat,
                num_workers as nat,
                k as nat,
            ) && ranges@[k].end == share_end(total as nat, num_workers as nat, k as nat),
{
    let mut ranges: Vec<WorkRange> = Vec::new();
    let mut worker: usize = 0;
    while worker < num_workers
        invariant
            num_workers >= 1,
            worker <= num_workers,
            ranges@.len() == worker,
            forall|k: int|
                0 <= k < worker ==> (#[trigger] ranges@[k]).start == share_start(
                    total as nat,
                    num_workers as nat,
                    k as nat,
                ) && ranges@[k].end == share_end(total as nat, num_workers as nat, k as nat),
        decreases num_workers - worker,
    {
        ranges.push(work_range(total, num_workers, worker));
        worker = worker + 1;
    }
    ranges
}

/// A full share is no larger than the space, and the workers' full shares
/// together reach its end.
pub proof fn lemma_chunk_bounds(total: nat, workers: nat)
    requires
        workers >= 1,
    ensures
        chunk_size(total, workers) <= total,
        workers * chunk_size(total, workers) >= total,
        total > 0 ==> chunk_size(total, workers) > 0,
{
    let padded = (total + workers - 1) as int;
    let w = workers as int;
    let chunk = padded / w;
    lemma_fundamental_div_mod(padded, w);
    lemma_mod_bound(padded, w);
    assert(w * chunk >= total);
    if total > 0 {
        lemma_div_is_ordered(w, padded, w);
        assert(w / w == 1) by {
            vstd::arithmetic::div_mod::lemma_div_basics(w);
        }
    }
    assert(chunk <= total) by (nonlinear_arith)
        requires
            w >= 1,
            chunk >= 0,
            w * chunk + (padded % w) == total + w - 1,
            0 <= padded % w < w,
    ;
}

/// The range handed to worker `k` holds exactly the indices that fall to it.
pub proof fn range_holds_its_share(total: nat, workers: nat, k: nat, index: nat)
    requires
        workers >= 1,
    ensures
        (share_start(total, workers, k) <= index < share_end(total, workers, k)) <==> in_share(
            total,
            workers,
            k,
            index,
        ),
        share_start(total, workers, k) <= share_end(total, workers, k) <= total,
{
    let chunk = chunk_size(total, workers);
    assert(k * chunk <= (k + 1) * chunk) by (nonlinear_arith)
        requires
            chunk >= 0,
            k >= 0,
    ;
}

/// The shares cover the space without gap or overlap: every index below
/// `total` falls to exactly one worker, the one numbered `index / chunk`,
/// and that number is below the number of workers.
pub proof fn shares_partition_the_space(total: nat, workers: nat, index: nat)
    requires
        workers >= 1,
        index < total,
    ensures
        chunk_size(total, workers) > 0,
        index / chunk_size(total, workers) < workers,
        forall|k: nat| #[trigger]
            in_share(total, workers, k, index) <==> k == index / chunk_size(total, workers),
{
    let chunk = chunk_size(total, workers) as int;
    lemma_chunk_bounds(total, workers);
    let owner = index as int / chunk;
    lemma_fundamental_div_mod(index as int, chunk);
    lemma_mod_bound(index as int, chunk);
    let rest = index as int % chunk;
    assert(owner < workers) by (nonlinear_arith)
        requires
            index == chunk * owner + rest,
            0 <= rest,
            workers * chunk >= total,
            index < total,
            chunk > 0,
    ;
    assert forall|k: nat| #[trigger] in_share(total, workers, k, index) <==> k == owner by {
        assert((k * chunk <= index < (k + 1) * chunk) <==> k == owner) by (nonlinear_arith)
            requires
                index == chunk * owner + rest,
                0 <= rest < chunk,
                k >= 0,
        ;
    }
}

/// No share reaches beyond the space, and only the shares of the workers
/// that exist hold anything.
pub proof fn shares_stay_in_the_space(total: nat, workers: nat, k: nat, index: nat)
    requires
        workers >= 1,
        in_share(total, workers, k, index),
    ensures
        index < total,
        k < workers,
{
    shares_partition_the_space(total, workers, index);
}

/// The shares follow one another: the first begins at zero, each ends where
/// the next begins, and the last ends at `total`.
pub proof fn shares_are_contiguous(total: nat, workers: nat, k: nat)
    requires
        workers >= 1,
    ensures
        share_start(total, workers, 0) == 0,
        share_end(total, workers, k) == share_start(total, workers, k + 1),
        share_end(total, workers, (workers - 1) as nat) == total,
{
    lemma_chunk_bounds(total, workers);
    assert(0 * chunk_size(total, workers) == 0);
}

} // verus!
