use archiver::search::{contains_ignoring_case, fold_char};

#[test]
fn finds_a_text_inside_another() {
    assert!(contains_ignoring_case("2024-06-01", "06"));
    assert!(contains_ignoring_case("2024-06-01", "2024"));
    assert!(contains_ignoring_case("2024-06-01", "-01"));
    assert!(contains_ignoring_case("2024-06-01", "2024-06-01"));
    assert!(!contains_ignoring_case("2024-06-01", "07"));
    assert!(!contains_ignoring_case("2024-06-01", "2024-06-011"));
    assert!(!contains_ignoring_case("2024-06-01", "60"));
}

#[test]
fn the_empty_text_is_in_every_text() {
    assert!(contains_ignoring_case("2024-06-01", ""));
    assert!(contains_ignoring_case("", ""));
    assert!(!contains_ignoring_case("", "a"));
}

#[test]
fn letter_case_does_not_count() {
    assert!(contains_ignoring_case("Hello World", "WORLD"));
    assert!(contains_ignoring_case("HELLO", "ell"));
    assert!(contains_ignoring_case("abc", "ABC"));
    assert!(!contains_ignoring_case("abc", "abd"));
    assert!(!contains_ignoring_case("a[c", "a{c"));
    assert!(!contains_ignoring_case("a@c", "a`c"));
}

#[test]
fn other_characters_count_as_they_are() {
    assert!(contains_ignoring_case("M\u{e4}rz", "\u{e4}r"));
    assert!(!contains_ignoring_case("M\u{e4}rz", "\u{c4}r"));
}

#[test]
fn folding_takes_capitals_to_small_letters() {
    assert_eq!(fold_char('A'), 'a' as u32);
    assert_eq!(fold_char('Z'), 'z' as u32);
    assert_eq!(fold_char('a'), 'a' as u32);
    assert_eq!(fold_char('0'), '0' as u32);
    assert_eq!(fold_char('-'), '-' as u32);
    assert_eq!(fold_char('['), '[' as u32);
    assert_eq!(fold_char('@'), '@' as u32);
}
