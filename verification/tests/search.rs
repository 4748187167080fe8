use sherlock::search::{fuzzy_match_bytes, sequential_check, SherlockSearch};

#[test]
fn empty_pattern_matches_everything() {
    assert!("helloworld".fuzzy_match(""));
    assert!("".fuzzy_match(""));
}

#[test]
fn empty_haystack_matches_no_pattern() {
    assert!(!"".fuzzy_match("a"));
    assert!(!"".fuzzy_match("hlo"));
}

#[test]
fn bounded_window_subsequence_matches() {
    assert!("helloworld".fuzzy_match("hlo"));
    assert!(String::from("helloworld").fuzzy_match("hlo"));
}

#[test]
fn gap_beyond_window_fails() {
    // the window after 'h' holds five bytes: 'w' as the sixth is out of reach
    assert!(!"h______wo".fuzzy_match("hwo"));
    assert!(!"h_____wo".fuzzy_match("hwo"));
    assert!(!"hello_world".fuzzy_match("hwo"));
}

#[test]
fn gap_within_window_matches() {
    // 'w' is the fifth byte after 'h'
    assert!("h____wo".fuzzy_match("hwo"));
    assert!("helloworld".fuzzy_match("hwo"));
    assert!("h____w____o".fuzzy_match("hwo"));
    assert!(!"h____w_____o".fuzzy_match("hwo"));
}

#[test]
fn matching_folds_no_case() {
    assert!(!"Firefox".fuzzy_match("firefox"));
    assert!("firefox".fuzzy_match("firefox"));
    assert!(!"firefo".fuzzy_match("firefox"));
}

#[test]
fn matching_is_on_bytes() {
    // 'é' takes two bytes, 'ü' too: the window counts them
    assert!("aééb".fuzzy_match("ab"));
    assert!(!"aééüb".fuzzy_match("ab"));
    assert!("é".fuzzy_match("é"));
}

#[test]
fn later_anchor_is_tried() {
    assert!("h______h_wo".fuzzy_match("hwo"));
    assert!(fuzzy_match_bytes(b"xxabxxab_c", b"abc"));
}

#[test]
fn first_occurrence_in_window_is_taken() {
    // after a@0 the first b is at 1; from there c is out of reach,
    // though the b at 4 would have reached it
    assert!(!fuzzy_match_bytes(b"abxxbxxxc", b"abc"));
}

#[test]
fn sequential_check_skips_the_anchor() {
    assert!(sequential_check(b"ab", b"a___b", 5));
    assert!(sequential_check(b"ab", b"a____b", 5));
    assert!(!sequential_check(b"ab", b"a_____b", 5));
    assert!(sequential_check(b"a", b"a", 5));
    assert!(!sequential_check(b"aa", b"a", 5));
}
