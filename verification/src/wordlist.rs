//! The word list scanner: tries given words, in order, before any
//! enumeration.

use crate::digest::{compare_hash, digest_matches};
use crate::hash_type::HashType;
use vstd::prelude::*;

verus! {

/// Word `i` matches the target and no earlier word does.
pub open spec fn is_first_match(
    words: Seq<String>,
    i: int,
    target: Seq<char>,
    hash_type: HashType,
) -> bool {
    &&& 0 <= i < words.len()
    &&& digest_matches(words[i]@, target, hash_type)
    &&& forall|j: int| 0 <= j < i ==> !digest_matches(#[trigger] words[j]@, target, hash_type)
}

/// No word matches the target.
pub open spec fn no_word_matches(words: Seq<String>, target: Seq<char>, hash_type: HashType) -> bool {
    forall|j: int| 0 <= j < words.len() ==> !digest_matches(#[trigger] words[j]@, target, hash_type)
}

/// Returns the first word of the list that hashes to `target`, or `None`
/// where none does. The list is left as it is.
pub fn crack_hash_with_wordlist(target: &str, wordlist: &[String], hash_type: HashType) -> (found:
    Option<String>)
    ensures
        match found {
            Some(word) => exists|i: int| #[trigger]
                is_first_match(wordlist@, i, target@, hash_type) && word@ == wordlist@[i]@,
            None => no_word_matches(wordlist@, target@, hash_type),
        },
{
    let mut i: usize = 0;
    while i < wordlist.len()
        invariant
            i <= wordlist@.len(),
            forall|j: int|
                0 <= j < i ==> !digest_matches(#[trigger] wordlist@[j]@, target@, hash_type),
        decreases wordlist@.len() - i,
    {
        if compare_hash(wordlist[i].as_str(), target, hash_type) {
            assert(is_first_match(wordlist@, i as int, target@, hash_type));
            return Some(wordlist[i].clone());
        }
        i = i + 1;
    }
    None
}

} // verus!
