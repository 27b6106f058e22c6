//! The supported digest algorithms, by name and by the shape of a digest.

use crate::ascii::{
    all_hex_digits, eq_lowered, has_prefix, lowered, only_hex_digits, starts_with,
};
use vstd::prelude::*;
use vstd::utf8::encode_utf8;

verus! {

/// A digest algorithm: three fast digests of fixed width, and one salted
/// scheme of adjustable cost that verifies a password against a stored hash.
#[derive(Clone, Copy, Debug, PartialEq, Eq, Structural)]
pub enum HashType {
    Md5,
    Sha1,
    Sha256,
    Bcrypt,
}

/// The algorithm that a name stands for. Capitals in the name do not matter.
pub open spec fn named_hash_type(name: Seq<char>) -> Option<HashType> {
    let low = lowered(encode_utf8(name));
    if low == encode_utf8("md5"@) {
        Some(HashType::Md5)
    } else if low == encode_utf8("sha1"@) {
        Some(HashType::Sha1)
    } else if low == encode_utf8("sha256"@) {
        Some(HashType::Sha256)
    } else if low == encode_utf8("bcrypt"@) {
        Some(HashType::Bcrypt)
    } else {
        None
    }
}

/// The algorithm that a digest's shape points to: the salted scheme by its
/// prefix, a fast digest by the number of its hexadecimal digits.
pub open spec fn detected_hash_type(hash: Seq<char>) -> Option<HashType> {
    let bytes = encode_utf8(hash);
    if has_prefix(bytes, encode_utf8("$2a$"@)) || has_prefix(bytes, encode_utf8("$2y$"@)) {
        Some(HashType::Bcrypt)
    } else if !all_hex_digits(bytes) {
        None
    } else if bytes.len() == 32 {
        Some(HashType::Md5)
    } else if bytes.len() == 40 {
        Some(HashType::Sha1)
    } else if bytes.len() == 64 {
        Some(HashType::Sha256)
    } else {
        None
    }
}

impl HashType {
    /// Reads an algorithm's name: `md5`, `sha1`, `sha256` or `bcrypt`, in
    /// small or capital letters.
    pub fn from_str(s: &str) -> (parsed: Option<HashType>)
        ensures
            parsed == named_hash_type(s@),
    {
        let name = s.as_bytes();
        if eq_lowered(name, "md5".as_bytes()) {
            Some(HashType::Md5)
        } else if eq_lowered(name, "sha1".as_bytes()) {
            Some(HashType::Sha1)
        } else if eq_lowered(name, "sha256".as_bytes()) {
            Some(HashType::Sha256)
        } else if eq_lowered(name, "bcrypt".as_bytes()) {
            Some(HashType::Bcrypt)
        } else {
            None
        }
    }

    /// Guesses the algorithm from the digest itself.
    ///
    /// A digest of 32 hexadecimal digits is taken for MD5, though other
    /// algorithms have that width too.
    pub fn detect(hash: &str) -> (guess: Option<HashType>)
        ensures
            guess == detected_hash_type(hash@),
    {
        let bytes = hash.as_bytes();
        if starts_with(bytes, "$2a$".as_bytes()) || starts_with(bytes, "$2y$".as_bytes()) {
            return Some(HashType::Bcrypt);
        }
        if !only_hex_digits(bytes) {
            return None;
        }
        if bytes.len() == 32 {
            Some(HashType::Md5)
        } else if bytes.len() == 40 {
            Some(HashType::Sha1)
        } else if bytes.len() == 64 {
            Some(HashType::Sha256)
        } else {
            None
        }
    }
}

} // verus!
