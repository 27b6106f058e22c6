//! The digest comparator: does a candidate hash to the target?
//!
//! The digests themselves come from the `md5`, `sha1`, `sha2` and `bcrypt`
//! crates and are rendered by `hex`. What this module proves is the
//! comparison built on them.

use crate::ascii::{eq_lowered, hex_digit, lower_hex, lowered};
use crate::hash_type::HashType;
use sha2::Digest;
use vstd::prelude::*;
use vstd::utf8::{encode_utf8, is_ascii_chars, is_ascii_chars_encode_utf8};

verus! {

/// The MD5 digest of a byte string, as `md5::compute` gives it.
pub uninterp spec fn md5_of(data: Seq<u8>) -> Seq<u8>;

/// The SHA-1 digest of a byte string, as `sha1::Sha1` gives it.
pub uninterp spec fn sha1_of(data: Seq<u8>) -> Seq<u8>;

/// The SHA-256 digest of a byte string, as `sha2::Sha256` gives it.
pub uninterp spec fn sha256_of(data: Seq<u8>) -> Seq<u8>;

/// What `bcrypt::verify` says of a password and a stored hash: `Some` with
/// its verdict, or `None` where it reports an error.
pub uninterp spec fn bcrypt_verdict(password: Seq<char>, hash: Seq<char>) -> Option<bool>;

/// The error type of the `bcrypt` crate.
#[verifier::external_type_specification]
#[verifier::external_body]
pub struct ExBcryptError(bcrypt::BcryptError);

/// The digest of `data` under a fast algorithm. The salted scheme has no
/// digest of its own: for it the result is empty.
pub open spec fn digest_of(hash_type: HashType, data: Seq<u8>) -> Seq<u8> {
    match hash_type {
        HashType::Md5 => md5_of(data),
        HashType::Sha1 => sha1_of(data),
        HashType::Sha256 => sha256_of(data),
        HashType::Bcrypt => Seq::empty(),
    }
}

/// A digest matches a target when the target, with its capitals made small,
/// is the digest in lowercase hexadecimal.
pub open spec fn hex_matches_target(digest: Seq<u8>, target: Seq<char>) -> bool {
    lowered(encode_utf8(target)) == lower_hex(digest)
}

/// Whether `candidate` is a preimage of `target` under `hash_type`.
///
/// For a fast algorithm the candidate's UTF-8 bytes are hashed and the digest
/// compared in hexadecimal. For the salted scheme the scheme's own verdict
/// counts, and an error in verifying counts as no match.
pub open spec fn digest_matches(candidate: Seq<char>, target: Seq<char>, hash_type: HashType) -> bool {
    match hash_type {
        HashType::Bcrypt => bcrypt_verdict(candidate, target) == Some(true),
        _ => hex_matches_target(digest_of(hash_type, encode_utf8(candidate)), target),
    }
}

/// The digest in lowercase hexadecimal, as text.
pub open spec fn hex_text(digest: Seq<u8>) -> Seq<char> {
    Seq::new(lower_hex(digest).len(), |k: int| lower_hex(digest)[k] as char)
}

/// Calls `md5::compute` and copies the sixteen bytes of its digest.
///
/// Trusted: the result is the MD5 digest of `data`.
#[verifier::external_body]
fn md5_digest(data: &[u8]) -> (digest: Vec<u8>)
    ensures
        digest@ == md5_of(data@),
{
    md5::compute(data).0.to_vec()
}

/// Calls `Digest::digest` of `sha1::Sha1` and copies its output.
///
/// Trusted: the result is the SHA-1 digest of `data`.
#[verifier::external_body]
fn sha1_digest(data: &[u8]) -> (digest: Vec<u8>)
    ensures
        digest@ == sha1_of(data@),
{
    sha1::Sha1::digest(data).to_vec()
}

/// Calls `Digest::digest` of `sha2::Sha256` and copies its output.
///
/// Trusted: the result is the SHA-256 digest of `data`.
#[verifier::external_body]
fn sha256_digest(data: &[u8]) -> (digest: Vec<u8>)
    ensures
        digest@ == sha256_of(data@),
{
    sha2::Sha256::digest(data).to_vec()
}

/// Calls `hex::encode` and takes the bytes of the string it returns.
///
/// Trusted: the result holds two lowercase hexadecimal digits for each byte
/// of `data`, in order, the high half of a byte first.
#[verifier::external_body]
fn hex_encode(data: &[u8]) -> (text: Vec<u8>)
    ensures
        text@ == lower_hex(data@),
{
    hex::encode(data).into_bytes()
}

/// Calls `bcrypt::verify`.
///
/// Trusted: the outcome depends on the password and the stored hash alone.
/// Nothing is claimed of which passwords a hash accepts.
#[verifier::external_body]
fn bcrypt_verify(candidate: &str, target: &str) -> (outcome: Result<bool, bcrypt::BcryptError>)
    ensures
        bcrypt_verdict(candidate@, target@) == match outcome {
            Ok(verdict) => Some(verdict),
            Err(_) => None,
        },
{
    bcrypt::verify(candidate, target)
}

/// Whether a verification outcome is a match: only a verdict of `true` is.
pub fn accepted(outcome: Result<bool, bcrypt::BcryptError>) -> (matched: bool)
    ensures
        matched == (outcome matches Ok(verdict) && verdict),
{
    match outcome {
        Ok(verdict) => verdict,
        Err(_) => false,
    }
}

/// Whether `digest`, written in hexadecimal, is what `target` says.
pub fn hex_matches(digest: &[u8], target: &str) -> (matched: bool)
    ensures
        matched == hex_matches_target(digest@, target@),
{
    let hex = hex_encode(digest);
    eq_lowered(target.as_bytes(), hex.as_slice())
}

/// Whether `candidate` hashes to `target` under `hash_type`.
pub fn compare_hash(candidate: &str, target: &str, hash_type: HashType) -> (matched: bool)
    ensures
        matched == digest_matches(candidate@, target@, hash_type),
{
    match hash_type {
        HashType::Md5 => {
            let digest = md5_digest(candidate.as_bytes());
            hex_matches(digest.as_slice(), target)
        },
        HashType::Sha1 => {
            let digest = sha1_digest(candidate.as_bytes());
            hex_matches(digest.as_slice(), target)
        },
        HashType::Sha256 => {
            let digest = sha256_digest(candidate.as_bytes());
            hex_matches(digest.as_slice(), target)
        },
        HashType::Bcrypt => accepted(bcrypt_verify(candidate, target)),
    }
}

/// Lowercase hexadecimal holds no capital letter, so case folding leaves it
/// as it is.
proof fn lemma_lower_hex_is_lowered(digest: Seq<u8>)
    ensures
        lowered(lower_hex(digest)) == lower_hex(digest),
{
    assert(lowered(lower_hex(digest)) =~= lower_hex(digest));
}

/// Two byte strings with the same hexadecimal rendering are the same.
proof fn lemma_lower_hex_is_injective(a: Seq<u8>, b: Seq<u8>)
    requires
        lower_hex(a) == lower_hex(b),
    ensures
        a == b,
{
    assert(lower_hex(a).len() == 2 * a.len());
    assert(lower_hex(b).len() == 2 * b.len());
    assert forall|i: int| 0 <= i < a.len() implies a[i] == b[i] by {
        assert(lower_hex(a)[2 * i] == hex_digit(a[i] / 16));
        assert(lower_hex(b)[2 * i] == hex_digit(b[i] / 16));
        assert(lower_hex(a)[2 * i + 1] == hex_digit(a[i] % 16));
        assert(lower_hex(b)[2 * i + 1] == hex_digit(b[i] % 16));
    }
    assert(a =~= b);
}

/// The hexadecimal text of a digest is ASCII: its UTF-8 bytes are the
/// hexadecimal digits themselves.
proof fn lemma_hex_text_bytes(digest: Seq<u8>)
    ensures
        encode_utf8(hex_text(digest)) == lower_hex(digest),
{
    let text = hex_text(digest);
    assert(is_ascii_chars(text));
    is_ascii_chars_encode_utf8(text);
    assert(encode_utf8(text) =~= lower_hex(digest));
}

/// Under a fast algorithm, a candidate matches the hexadecimal text of a
/// digest exactly when that digest is the candidate's own. So the text of
/// its own digest always matches, and a digest that differs in a single bit
/// never does.
pub proof fn matches_only_own_digest(candidate: Seq<char>, digest: Seq<u8>, hash_type: HashType)
    requires
        hash_type != HashType::Bcrypt,
    ensures
        digest_matches(candidate, hex_text(digest), hash_type) <==> digest == digest_of(
            hash_type,
            encode_utf8(candidate),
        ),
{
    let own = digest_of(hash_type, encode_utf8(candidate));
    lemma_hex_text_bytes(digest);
    lemma_lower_hex_is_lowered(digest);
    if lower_hex(digest) == lower_hex(own) {
        lemma_lower_hex_is_injective(digest, own);
    }
}

/// Capital letters in the target make no difference to a match.
pub proof fn target_case_is_ignored(
    candidate: Seq<char>,
    target: Seq<char>,
    other: Seq<char>,
    hash_type: HashType,
)
    requires
        hash_type != HashType::Bcrypt,
        lowered(encode_utf8(target)) == lowered(encode_utf8(other)),
    ensures
        digest_matches(candidate, target, hash_type) == digest_matches(candidate, other, hash_type),
{
}

} // verus!
