use hashcrack::hash_type::HashType;
use hashcrack::wordlist::crack_hash_with_wordlist;

fn words(list: &[&str]) -> Vec<String> {
    list.iter().map(|w| w.to_string()).collect()
}

#[test]
fn finds_the_word_in_the_list() {
    let list = words(&["apple", "banana", "cherry"]);
    let found =
        crack_hash_with_wordlist("72b302bf297a228a75730123efef7c41", &list, HashType::Md5);
    assert_eq!(found, Some("banana".to_string()));
    assert_eq!(list, words(&["apple", "banana", "cherry"]));
}

#[test]
fn finds_the_word_under_each_fast_algorithm() {
    let list = words(&["apple", "banana", "cherry"]);
    assert_eq!(
        crack_hash_with_wordlist(
            "250e77f12a5ab6972a0895d290c4792f0a326ea8",
            &list,
            HashType::Sha1
        ),
        Some("banana".to_string())
    );
    assert_eq!(
        crack_hash_with_wordlist(
            "3a7bd3e2360a3d29eea436fcfb7e44c735d117c42d1c1835420b6b9942dd4f1b",
            &list,
            HashType::Sha256
        ),
        Some("apple".to_string())
    );
}

#[test]
fn an_empty_list_finds_nothing() {
    let list: Vec<String> = Vec::new();
    assert_eq!(
        crack_hash_with_wordlist("72b302bf297a228a75730123efef7c41", &list, HashType::Md5),
        None
    );
}

#[test]
fn a_list_without_the_word_finds_nothing() {
    let list = words(&["apple", "cherry"]);
    assert_eq!(
        crack_hash_with_wordlist("72b302bf297a228a75730123efef7c41", &list, HashType::Md5),
        None
    );
}

#[test]
fn words_are_taken_verbatim() {
    let list = words(&["Banana", "banana ", " banana"]);
    assert_eq!(
        crack_hash_with_wordlist("72b302bf297a228a75730123efef7c41", &list, HashType::Md5),
        None
    );
}

#[test]
fn the_salted_scheme_is_scanned_too() {
    let stored = bcrypt::hash("cherry", 4).unwrap();
    let list = words(&["apple", "banana", "cherry"]);
    assert_eq!(
        crack_hash_with_wordlist(&stored, &list, HashType::Bcrypt),
        Some("cherry".to_string())
    );
}
