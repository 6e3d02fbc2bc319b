use kv_fetch::matching::contains_substring;

#[test]
fn empty_pattern_matches_everything() {
    assert!(contains_substring("", ""));
    assert!(contains_substring("anything", ""));
    assert!(contains_substring("alpha-1", ""));
}

#[test]
fn literal_substring_is_found() {
    assert!(contains_substring("alpha-1", "alpha"));
    assert!(contains_substring("alpha-1", "pha-1"));
    assert!(contains_substring("alpha-1", "alpha-1"));
    assert!(contains_substring("xxalphaxx", "alpha"));
}

#[test]
fn absent_substring_is_not_found() {
    assert!(!contains_substring("beta-2", "alpha"));
    assert!(!contains_substring("alph", "alpha"));
    assert!(!contains_substring("", "a"));
}

#[test]
fn matching_is_case_sensitive() {
    assert!(!contains_substring("Alpha-1", "alpha"));
    assert!(contains_substring("Alpha-1", "Alpha"));
}

#[test]
fn pattern_longer_than_text_never_matches() {
    assert!(!contains_substring("ab", "abc"));
}

#[test]
fn repeated_and_overlapping_occurrences_are_found() {
    assert!(contains_substring("aaa", "aa"));
    assert!(contains_substring("abab", "bab"));
}
