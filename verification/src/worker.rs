//! One worker's search of its range of indices.
//!
//! A worker visits its indices in increasing order. Before each candidate it
//! looks at the cancellation flag and stops if the flag is raised. On a match
//! it tries to raise the flag itself: only the worker that raises it reports
//! the match, so that a search never reports two.

use crate::codec::{candidate_bytes, candidate_text, index_to_candidate};
use crate::digest::{compare_hash, digest_matches};
use crate::flag::{is_raised, raise};
use crate::hash_type::HashType;
use crate::partition::WorkRange;
use std::sync::atomic::AtomicBool;
use vstd::prelude::*;

verus! {

/// A worker reports its progress at most once in this many indices.
pub const PROGRESS_INTERVAL: u64 = 100_000;

/// What a worker does next, after looking at one index.
#[derive(Debug, PartialEq, Eq)]
pub enum Turn {
    /// The flag was seen raised: stop, leaving the index untried.
    Halt,
    /// The candidate of this index matches: try to claim the match.
    Claim(String),
    /// The candidate does not match: go on to the next index.
    Advance,
}

/// How a worker's search of its range ended.
#[derive(Debug, PartialEq, Eq)]
pub enum RangeOutcome {
    /// The worker found a match and was the one to raise the flag.
    Found { index: u64, candidate: String },
    /// Every index of the range was tried, and none matched.
    Exhausted,
    /// The worker stopped before `stopped_at`: the flag was raised by
    /// another. The indices before `stopped_at` were tried and did not match.
    Cancelled { stopped_at: u64 },
}

/// The candidate with this index is a preimage of the target.
pub open spec fn index_matches(
    index: nat,
    charset: Seq<u8>,
    length: nat,
    target: Seq<char>,
    hash_type: HashType,
) -> bool {
    digest_matches(candidate_text(index, charset, length), target, hash_type)
}

/// No index from `from` up to, not including, `to` matches.
pub open spec fn none_matches(
    from: int,
    to: int,
    charset: Seq<u8>,
    length: nat,
    target: Seq<char>,
    hash_type: HashType,
) -> bool {
    forall|j: nat|
        from <= j < to ==> !#[trigger] index_matches(j, charset, length, target, hash_type)
}

/// One turn of a worker, given what it saw of the flag.
///
/// With the flag raised the worker halts and touches nothing. Otherwise it
/// decodes the index into `buf` and compares digests.
pub fn take_turn(
    cancelled: bool,
    index: u64,
    charset: &[u8],
    length: usize,
    target: &str,
    hash_type: HashType,
    buf: &mut Vec<u8>,
) -> (turn: Turn)
    requires
        charset@.len() > 0,
    ensures
        cancelled ==> final(buf)@ == old(buf)@,
        !cancelled ==> final(buf)@ == candidate_bytes(index as nat, charset@, length as nat),
        match turn {
            Turn::Halt => cancelled,
            Turn::Claim(candidate) => {
                &&& !cancelled
                &&& index_matches(index as nat, charset@, length as nat, target@, hash_type)
                &&& candidate@ == candidate_text(index as nat, charset@, length as nat)
            },
            Turn::Advance => {
                &&& !cancelled
                &&& !index_matches(index as nat, charset@, length as nat, target@, hash_type)
            },
        },
{
    if cancelled {
        return Turn::Halt;
    }
    let candidate = index_to_candidate(index, charset, length, buf);
    if compare_hash(candidate.as_str(), target, hash_type) {
        Turn::Claim(candidate)
    } else {
        Turn::Advance
    }
}

/// The outcome for a worker that holds a match at `index`, given whether it
/// was the one to raise the flag.
pub fn settle(won: bool, index: u64, candidate: String) -> (outcome: RangeOutcome)
    ensures
        won ==> outcome == (RangeOutcome::Found { index, candidate }),
        !won ==> outcome == (RangeOutcome::Cancelled { stopped_at: index }),
{
    if won {
        RangeOutcome::Found { index, candidate }
    } else {
        RangeOutcome::Cancelled { stopped_at: index }
    }
}

/// Whether a report of progress is due at `index`, the last one having been
/// made at `last_report`.
pub fn progress_due(index: u64, last_report: u64) -> (due: bool)
    requires
        last_report <= index,
    ensures
        due == (index - last_report >= PROGRESS_INTERVAL),
{
    index - last_report >= PROGRESS_INTERVAL
}

/// Searches the indices of `range`, in increasing order, for a candidate of
/// `length` symbols over `charset` that hashes to `target`.
///
/// The worker stops at the first match, and as soon as it sees `found`
/// raised. `report` is called with the current index, at most once in
/// `PROGRESS_INTERVAL` indices.
pub fn search_range<F: Fn(u64)>(
    target: &str,
    charset: &[u8],
    length: usize,
    range: WorkRange,
    hash_type: HashType,
    found: &AtomicBool,
    report: F,
) -> (outcome: RangeOutcome)
    requires
        charset@.len() > 0,
        forall|index: u64| call_requires(report, (index,)),
    ensures
        match outcome {
            RangeOutcome::Found { index, candidate } => {
                &&& range.contains(index as int)
                &&& candidate@ == candidate_text(index as nat, charset@, length as nat)
                &&& index_matches(index as nat, charset@, length as nat, target@, hash_type)
                &&& none_matches(
                    range.start as int,
                    index as int,
                    charset@,
                    length as nat,
                    target@,
                    hash_type,
                )
            },
            RangeOutcome::Exhausted => none_matches(
                range.start as int,
                range.end as int,
                charset@,
                length as nat,
                target@,
                hash_type,
            ),
            RangeOutcome::Cancelled { stopped_at } => {
                &&& range.contains(stopped_at as int)
                &&& none_matches(
                    range.start as int,
                    stopped_at as int,
                    charset@,
                    length as nat,
                    target@,
                    hash_type,
                )
            },
        },
{
    let mut buf: Vec<u8> = Vec::with_capacity(length);
    let mut index: u64 = range.start;
    let mut last_report: u64 = range.start;
    while index < range.end
        invariant
            charset@.len() > 0,
            forall|at: u64| call_requires(report, (at,)),
            range.start <= last_report <= index,
            none_matches(
                range.start as int,
                index as int,
                charset@,
                length as nat,
                target@,
                hash_type,
            ),
        decreases range.end - index,
    {
        let cancelled = is_raised(found);
        match take_turn(cancelled, index, charset, length, target, hash_type, &mut buf) {
            Turn::Halt => {
                return RangeOutcome::Cancelled { stopped_at: index };
            },
            Turn::Claim(candidate) => {
                let won = raise(found);
                return settle(won, index, candidate);
            },
            Turn::Advance => {},
        }
        if progress_due(index, last_report) {
            report(index);
            last_report = index;
        }
        index = index + 1;
    }
    RangeOutcome::Exhausted
}

} // verus!
