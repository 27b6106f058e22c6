use hashcrack::hash_type::HashType;

#[test]
fn reads_the_four_names() {
    assert_eq!(HashType::from_str("md5"), Some(HashType::Md5));
    assert_eq!(HashType::from_str("sha1"), Some(HashType::Sha1));
    assert_eq!(HashType::from_str("sha256"), Some(HashType::Sha256));
    assert_eq!(HashType::from_str("bcrypt"), Some(HashType::Bcrypt));
}

#[test]
fn reads_names_in_any_case() {
    assert_eq!(HashType::from_str("MD5"), Some(HashType::Md5));
    assert_eq!(HashType::from_str("Sha1"), Some(HashType::Sha1));
    assert_eq!(HashType::from_str("SHA256"), Some(HashType::Sha256));
    assert_eq!(HashType::from_str("BCrypt"), Some(HashType::Bcrypt));
}

#[test]
fn refuses_other_names() {
    assert_eq!(HashType::from_str(""), None);
    assert_eq!(HashType::from_str("md"), None);
    assert_eq!(HashType::from_str("md55"), None);
    assert_eq!(HashType::from_str(" md5"), None);
    assert_eq!(HashType::from_str("sha512"), None);
    assert_eq!(HashType::from_str("auto"), None);
    assert_eq!(HashType::from_str("m\u{e9}5"), None);
}

#[test]
fn detects_the_salted_scheme_by_its_prefix() {
    assert_eq!(HashType::detect("$2a$04$abcdefghijklmnopqrstuu"), Some(HashType::Bcrypt));
    assert_eq!(HashType::detect("$2y$12$whatever"), Some(HashType::Bcrypt));
    assert_eq!(HashType::detect("$2a$"), Some(HashType::Bcrypt));
}

#[test]
fn other_prefixes_are_not_detected() {
    assert_eq!(HashType::detect("$2b$12$whatever"), None);
    assert_eq!(HashType::detect("$2a"), None);
    assert_eq!(HashType::detect("x$2a$"), None);
}

#[test]
fn detects_fast_digests_by_width() {
    assert_eq!(HashType::detect("900150983cd24fb0d6963f7d28e17f72"), Some(HashType::Md5));
    assert_eq!(
        HashType::detect("a9993e364706816aba3e25717850c26c9cd0d89d"),
        Some(HashType::Sha1)
    );
    assert_eq!(
        HashType::detect("ba7816bf8f01cfea414140de5dae2223b00361a396177a9cb410ff61f20015ad"),
        Some(HashType::Sha256)
    );
    assert_eq!(HashType::detect("900150983CD24FB0D6963F7D28E17F72"), Some(HashType::Md5));
}

#[test]
fn detects_nothing_in_other_shapes() {
    assert_eq!(HashType::detect(""), None);
    assert_eq!(HashType::detect("900150983cd24fb0d6963f7d28e17f7"), None);
    assert_eq!(HashType::detect("900150983cd24fb0d6963f7d28e17f723"), None);
    assert_eq!(HashType::detect("900150983cd24fb0d6963f7d28e17f7g"), None);
    assert_eq!(HashType::detect("900150983cd24fb0d6963f7d28e17f7 "), None);
    assert_eq!(HashType::detect("\u{e9}00150983cd24fb0d6963f7d28e17f7"), None);
}
