use california_dashboard::resolver::levenshtein;

#[test]
fn levenshtein_handles_empty_and_unicode_input() {
    assert_eq!(levenshtein("", "abc"), 3);
    assert_eq!(levenshtein("kitten", "sitting"), 3);
    assert_eq!(levenshtein("cafe", "café"), 1);
}

#[test]
fn levenshtein_is_symmetric_and_zero_on_equal_text() {
    assert_eq!(levenshtein("abc", ""), 3);
    assert_eq!(levenshtein("sitting", "kitten"), 3);
    assert_eq!(levenshtein("Pomona", "Pomona"), 0);
    assert_eq!(levenshtein("", ""), 0);
}

#[test]
fn levenshtein_is_zero_only_on_equal_text_and_at_least_the_length_gap() {
    assert_ne!(levenshtein("abc", "abd"), 0);
    assert_ne!(levenshtein("", "a"), 0);
    assert_eq!(levenshtein("kitten", "sitting"), 3);
    assert!(levenshtein("abc", "abcdef") >= 3);
    assert_eq!(levenshtein("abc", "abcdef"), 3);
    assert_eq!(levenshtein("", "héllo"), 5);
}
