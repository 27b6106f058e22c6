use hashcrack::digest::{accepted, compare_hash, hex_matches};
use hashcrack::hash_type::HashType;

#[test]
fn md5_of_a_candidate_matches() {
    assert!(compare_hash("abc", "900150983cd24fb0d6963f7d28e17f72", HashType::Md5));
    assert!(compare_hash("", "d41d8cd98f00b204e9800998ecf8427e", HashType::Md5));
    assert!(compare_hash("ba", "07159c47ee1b19ae4fb9c40d480856c4", HashType::Md5));
}

#[test]
fn sha1_of_a_candidate_matches() {
    assert!(compare_hash("abc", "a9993e364706816aba3e25717850c26c9cd0d89d", HashType::Sha1));
    assert!(compare_hash("", "da39a3ee5e6b4b0d3255bfef95601890afd80709", HashType::Sha1));
}

#[test]
fn sha256_of_a_candidate_matches() {
    assert!(compare_hash(
        "abc",
        "ba7816bf8f01cfea414140de5dae2223b00361a396177a9cb410ff61f20015ad",
        HashType::Sha256
    ));
    assert!(compare_hash(
        "",
        "e3b0c44298fc1c149afbf4c8996fb92427ae41e4649b934ca495991b7852b855",
        HashType::Sha256
    ));
}

#[test]
fn the_candidate_is_hashed_as_utf8() {
    assert!(compare_hash("\u{e9}", "66ddcd97cfdeabb2f6fb8a999b4bc76f", HashType::Md5));
    assert!(compare_hash("\u{fffd}", "9b759040321a408a5c7768b4511287a6", HashType::Md5));
}

#[test]
fn capitals_in_the_target_are_ignored() {
    assert!(compare_hash("abc", "900150983CD24FB0D6963F7D28E17F72", HashType::Md5));
    assert!(compare_hash("abc", "900150983cd24FB0d6963f7d28e17F72", HashType::Md5));
    assert!(compare_hash("abc", "A9993E364706816ABA3E25717850C26C9CD0D89D", HashType::Sha1));
}

#[test]
fn another_candidate_does_not_match() {
    assert!(!compare_hash("abd", "900150983cd24fb0d6963f7d28e17f72", HashType::Md5));
    assert!(!compare_hash("abc", "0cc175b9c0f1b6a831c399e269772661", HashType::Md5));
    assert!(!compare_hash("abc", "a9993e364706816aba3e25717850c26c9cd0d89d", HashType::Md5));
    assert!(!compare_hash("abc", "900150983cd24fb0d6963f7d28e17f72", HashType::Sha1));
}

#[test]
fn a_digest_with_one_bit_flipped_does_not_match() {
    // the last digit 2 (0010) becomes 3 (0011), then the first 9 (1001) becomes 1 (0001)
    assert!(!compare_hash("abc", "900150983cd24fb0d6963f7d28e17f73", HashType::Md5));
    assert!(!compare_hash("abc", "100150983cd24fb0d6963f7d28e17f72", HashType::Md5));
    assert!(!compare_hash("abc", "a9993e364706816aba3e25717850c26c9cd0d89c", HashType::Sha1));
    assert!(!compare_hash(
        "abc",
        "ba7816bf8f01cfea414140de5dae2223b00361a396177a9cb410ff61f20015af",
        HashType::Sha256
    ));
}

#[test]
fn a_target_of_another_shape_does_not_match() {
    assert!(!compare_hash("abc", "", HashType::Md5));
    assert!(!compare_hash("abc", "900150983cd24fb0d6963f7d28e17f7", HashType::Md5));
    assert!(!compare_hash("abc", "900150983cd24fb0d6963f7d28e17f722", HashType::Md5));
    assert!(!compare_hash("abc", " 900150983cd24fb0d6963f7d28e17f72", HashType::Md5));
    assert!(!compare_hash("abc", "not a digest", HashType::Sha256));
}

#[test]
fn hex_comparison_is_exact_but_for_case() {
    assert!(hex_matches(&[0xab, 0x01], "ab01"));
    assert!(hex_matches(&[0xab, 0x01], "AB01"));
    assert!(hex_matches(&[0xab, 0x01], "aB01"));
    assert!(!hex_matches(&[0xab, 0x01], "ab02"));
    assert!(!hex_matches(&[0xab, 0x01], "ab0"));
    assert!(!hex_matches(&[0xab, 0x01], "ab011"));
    assert!(!hex_matches(&[0xab, 0x01], "01ab"));
    assert!(hex_matches(&[], ""));
    assert!(hex_matches(&[0x00, 0x0f, 0xf0, 0xff], "000ff0ff"));
    assert!(hex_matches(&[0x09, 0x0a, 0x9a, 0xa9], "090A9AA9"));
}

#[test]
fn hex_digits_are_not_confused_with_neighbouring_characters() {
    // '`' is 0x60 and '@' is 0x40: next to 'a' and 'A'
    assert!(!hex_matches(&[0xaa], "`a"));
    assert!(!hex_matches(&[0xaa], "@a"));
    // '[' is 0x5b: just past 'Z'
    assert!(!hex_matches(&[0xaa], "[a"));
}

#[test]
fn bcrypt_accepts_the_password_it_was_made_from() {
    let stored = bcrypt::hash("ba", 4).unwrap();
    assert!(compare_hash("ba", &stored, HashType::Bcrypt));
    assert!(!compare_hash("ab", &stored, HashType::Bcrypt));
    assert!(!compare_hash("", &stored, HashType::Bcrypt));
}

#[test]
fn a_malformed_stored_hash_matches_nothing() {
    assert!(!compare_hash("ba", "", HashType::Bcrypt));
    assert!(!compare_hash("ba", "not a hash", HashType::Bcrypt));
    assert!(!compare_hash("ba", "$2a$04$tooshort", HashType::Bcrypt));
    assert!(!compare_hash("ba", "900150983cd24fb0d6963f7d28e17f72", HashType::Bcrypt));
}

#[test]
fn a_stored_hash_with_a_cost_out_of_range_matches_nothing() {
    let stored = bcrypt::hash("ba", 4).unwrap();
    let costly = stored.replacen("$04$", "$99$", 1);
    assert_ne!(stored, costly);
    assert!(!compare_hash("ba", &costly, HashType::Bcrypt));
}

#[test]
fn only_a_verdict_of_true_is_a_match() {
    assert!(accepted(Ok(true)));
    assert!(!accepted(Ok(false)));
    assert!(!accepted(Err(bcrypt::BcryptError::InvalidSaltLen(3))));
    assert!(!accepted(Err(bcrypt::BcryptError::CostNotAllowed(99))));
}
