//! The search over a range of lengths, as a sequence of steps.
//!
//! A word list, where there is one, is scanned first, and a match in it ends
//! the search at once. Lengths are then tried from the shortest to the longest. For each length the
//! caller runs one worker per range, all at once, waits for all of them, and
//! hands their outcomes back. The search ends with the first match, or when
//! the longest length is exhausted.

use crate::codec::{
    candidate_count, candidate_text, every_string_is_a_candidate, text_of,
};
use crate::digest::digest_matches;
use crate::hash_type::HashType;
use crate::partition::{
    chunk_size, in_share, partition, range_holds_its_share, share_end, share_start,
    shares_partition_the_space, WorkRange,
};
use crate::wordlist::{crack_hash_with_wordlist, is_first_match, no_word_matches};
use crate::worker::{index_matches, none_matches, RangeOutcome};
use vstd::arithmetic::power::{lemma_pow_increases, lemma_pow_positive, pow};
use vstd::prelude::*;

verus! {

/// The number of candidates of `length` symbols over `charset_len` symbols.
pub open spec fn space_size(charset_len: nat, length: nat) -> nat {
    pow(charset_len as int, length) as nat
}

/// `ranges` holds the shares of `workers` workers in a space of `total`
/// indices, in the workers' order.
pub open spec fn is_plan(ranges: Seq<WorkRange>, total: nat, workers: nat) -> bool {
    &&& ranges.len() == workers
    &&& forall|k: int|
        0 <= k < workers ==> (#[trigger] ranges[k]).start == share_start(total, workers, k as nat)
            && ranges[k].end == share_end(total, workers, k as nat)
}

/// The outcome reports a match.
pub open spec fn is_found(outcome: RangeOutcome) -> bool {
    outcome is Found
}

/// No outcome reports a match.
pub open spec fn none_found(outcomes: Seq<RangeOutcome>) -> bool {
    forall|k: int| 0 <= k < outcomes.len() ==> !is_found(#[trigger] outcomes[k])
}

/// Outcome `k` is the first to report a match, and the match is `candidate`.
pub open spec fn first_found_at(outcomes: Seq<RangeOutcome>, k: int, candidate: String) -> bool {
    &&& 0 <= k < outcomes.len()
    &&& outcomes[k] matches RangeOutcome::Found { candidate: c, .. } && c == candidate
    &&& forall|j: int| 0 <= j < k ==> !is_found(#[trigger] outcomes[j])
}

/// `word` has `length` symbols, each taken from the alphabet.
pub open spec fn is_word_over(word: Seq<u8>, charset: Seq<u8>, length: nat) -> bool {
    &&& word.len() == length
    &&& forall|p: int| 0 <= p < word.len() ==> charset.contains(#[trigger] word[p])
}

/// What the caller does next.
#[derive(Debug, PartialEq, Eq)]
pub enum Step {
    /// Search the candidates of `length`: one worker per range, all started
    /// together and all awaited.
    Run { length: usize, ranges: Vec<WorkRange> },
    /// The search is over: with the match, or with nothing found.
    Done(Option<String>),
}

/// The fixed parameters of a search: the size of the alphabet, the lengths
/// to try, and the number of workers.
#[derive(Clone, Copy, Debug)]
pub struct SearchPlan {
    charset_len: usize,
    min_len: usize,
    max_len: usize,
    num_workers: usize,
}

/// The parameters make a search: an alphabet that is not empty, lengths in
/// order, at least one worker, and a largest space that 64 bits can number.
pub open spec fn plan_is_valid(charset_len: nat, min_len: nat, max_len: nat, num_workers: nat) -> bool {
    &&& charset_len >= 1
    &&& min_len <= max_len
    &&& num_workers >= 1
    &&& space_size(charset_len, max_len) <= u64::MAX
}

impl SearchPlan {
    #[verifier::type_invariant]
    spec fn valid(self) -> bool {
        plan_is_valid(
            self.charset_len as nat,
            self.min_len as nat,
            self.max_len as nat,
            self.num_workers as nat,
        )
    }

    /// The size of the alphabet.
    pub closed spec fn charset_len(self) -> nat {
        self.charset_len as nat
    }

    /// The shortest length to try.
    pub closed spec fn min_len(self) -> nat {
        self.min_len as nat
    }

    /// The longest length to try.
    pub closed spec fn max_len(self) -> nat {
        self.max_len as nat
    }

    /// The number of workers.
    pub closed spec fn num_workers(self) -> nat {
        self.num_workers as nat
    }

    /// Makes a plan from the parameters, or `None` where they make no
    /// search.
    pub fn new(charset_len: usize, min_len: usize, max_len: usize, num_workers: usize) -> (plan:
        Option<SearchPlan>)
        ensures
            plan is Some <==> plan_is_valid(
                charset_len as nat,
                min_len as nat,
                max_len as nat,
                num_workers as nat,
            ),
            plan matches Some(p) ==> {
                &&& p.charset_len() == charset_len
                &&& p.min_len() == min_len
                &&& p.max_len() == max_len
                &&& p.num_workers() == num_workers
            },
    {
        if charset_len == 0 || min_len > max_len || num_workers == 0 {
            return None;
        }
        match candidate_count(charset_len, max_len) {
            Some(_) => Some(SearchPlan { charset_len, min_len, max_len, num_workers }),
            None => None,
        }
    }

    /// The ranges of the workers for one length of the plan.
    pub fn ranges_for(&self, length: usize) -> (ranges: Vec<WorkRange>)
        requires
            length <= self.max_len(),
        ensures
            is_plan(ranges@, space_size(self.charset_len(), length as nat), self.num_workers()),
    {
        proof {
            use_type_invariant(self);
            lemma_pow_increases(self.charset_len as nat, length as nat, self.max_len as nat);
            lemma_pow_positive(self.charset_len as int, length as nat);
        }
        match candidate_count(self.charset_len, length) {
            Some(total) => partition(total, self.num_workers),
            None => {
                assert(false);
                Vec::new()
            },
        }
    }

    /// The first step: the shortest length.
    pub fn begin(&self) -> (step: Step)
        ensures
            step matches Step::Run { length, ranges } && length == self.min_len() && is_plan(
                ranges@,
                space_size(self.charset_len(), self.min_len()),
                self.num_workers(),
            ),
    {
        proof {
            use_type_invariant(self);
        }
        Step::Run { length: self.min_len, ranges: self.ranges_for(self.min_len) }
    }

    /// The first step of a search with a word list: the words are scanned in
    /// order, and the first that matches ends the search. Where none does,
    /// and where the list is empty, enumeration begins at the shortest
    /// length.
    pub fn start(&self, target: &str, wordlist: &[String], hash_type: HashType) -> (step: Step)
        ensures
            match step {
                Step::Done(Some(word)) => exists|i: int| #[trigger]
                    is_first_match(wordlist@, i, target@, hash_type) && word@ == wordlist@[i]@,
                Step::Done(None) => false,
                Step::Run { length, ranges } => {
                    &&& no_word_matches(wordlist@, target@, hash_type)
                    &&& length == self.min_len()
                    &&& is_plan(
                        ranges@,
                        space_size(self.charset_len(), self.min_len()),
                        self.num_workers(),
                    )
                },
            },
    {
        match crack_hash_with_wordlist(target, wordlist, hash_type) {
            Some(word) => Step::Done(Some(word)),
            None => self.begin(),
        }
    }

    /// The step that follows the search of `length`, given the outcomes of
    /// its workers.
    ///
    /// The first reported match ends the search. Without one the next length
    /// is searched, or the search ends with nothing where `length` was the
    /// longest.
    pub fn advance(&self, length: usize, outcomes: &[RangeOutcome]) -> (step: Step)
        requires
            self.min_len() <= length <= self.max_len(),
        ensures
            match step {
                Step::Done(Some(candidate)) => exists|k: int| #[trigger]
                    first_found_at(outcomes@, k, candidate),
                Step::Done(None) => none_found(outcomes@) && length == self.max_len(),
                Step::Run { length: next, ranges } => {
                    &&& none_found(outcomes@)
                    &&& length < self.max_len()
                    &&& next == length + 1
                    &&& is_plan(
                        ranges@,
                        space_size(self.charset_len(), next as nat),
                        self.num_workers(),
                    )
                },
            },
    {
        match select_result(outcomes) {
            Some(candidate) => Step::Done(Some(candidate)),
            None => {
                if length < self.max_len {
                    Step::Run { length: length + 1, ranges: self.ranges_for(length + 1) }
                } else {
                    Step::Done(None)
                }
            },
        }
    }
}

/// The match that the workers of one length report: that of the first
/// outcome that holds one, or `None` where no outcome does.
pub fn select_result(outcomes: &[RangeOutcome]) -> (result: Option<String>)
    ensures
        match result {
            Some(candidate) => exists|k: int| #[trigger] first_found_at(outcomes@, k, candidate),
            None => none_found(outcomes@),
        },
{
    let mut k: usize = 0;
    while k < outcomes.len()
        invariant
            k <= outcomes@.len(),
            forall|j: int| 0 <= j < k ==> !is_found(#[trigger] outcomes@[j]),
        decreases outcomes@.len() - k,
    {
        match &outcomes[k] {
            RangeOutcome::Found { candidate, .. } => {
                let result = Some(candidate.clone());
                assert(first_found_at(outcomes@, k as int, result->0));
                return result;
            },
            _ => {},
        }
        k = k + 1;
    }
    None
}

/// Where the workers of one length have tried every index of their ranges
/// and none matched, no string of that length over the alphabet is a
/// preimage of the target.
pub proof fn exhausted_ranges_rule_out_length(
    ranges: Seq<WorkRange>,
    charset: Seq<u8>,
    length: nat,
    target: Seq<char>,
    hash_type: HashType,
    word: Seq<u8>,
)
    requires
        ranges.len() >= 1,
        is_plan(ranges, space_size(charset.len(), length), ranges.len()),
        forall|k: int|
            0 <= k < ranges.len() ==> none_matches(
                (#[trigger] ranges[k]).start as int,
                ranges[k].end as int,
                charset,
                length,
                target,
                hash_type,
            ),
        is_word_over(word, charset, length),
    ensures
        !digest_matches(text_of(word), target, hash_type),
{
    let workers = ranges.len();
    let total = space_size(charset.len(), length);
    let index = every_string_is_a_candidate(word, charset);
    shares_partition_the_space(total, workers, index);
    let owner = index / chunk_size(total, workers);
    assert(in_share(total, workers, owner, index));
    range_holds_its_share(total, workers, owner, index);
    let range = ranges[owner as int];
    assert(none_matches(range.start as int, range.end as int, charset, length, target, hash_type));
    assert(!index_matches(index, charset, length, target, hash_type));
    assert(candidate_text(index, charset, length) == text_of(word));
}

} // verus!
