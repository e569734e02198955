use regex_engine::compile_and_match;

#[test]
fn anchor_restricts_to_start() {
    assert!(compile_and_match("^abc", "abcd"));
    assert!(!compile_and_match("^abc", "xabc"));
}

#[test]
fn one_or_more_needs_at_least_one() {
    assert!(!compile_and_match("a+", ""));
    assert!(compile_and_match("a+", "aaa"));
    assert!(compile_and_match("ca+t", "caaat"));
}

#[test]
fn negative_character_group() {
    assert!(compile_and_match("[^abc]", "d"));
    assert!(!compile_and_match("[^abc]", "a"));
}

#[test]
fn backreference_repeats_captured_text() {
    assert!(compile_and_match(r"(\w+) \1", "cat cat"));
    assert!(!compile_and_match(r"(\w+) \1", "cat dog"));
}

#[test]
fn alternation_capture_reused_later() {
    assert!(compile_and_match(r"(cat|dog) and \1", "cat and cat"));
    assert!(!compile_and_match(r"(cat|dog) and \1", "cat and dog"));
}

#[test]
fn unanchored_search_finds_inner_match() {
    assert!(compile_and_match("bc", "abcd"));
    assert!(!compile_and_match("bc", "acbd"));
}

#[test]
fn digit_class_is_numeric_classification() {
    assert!(compile_and_match(r"\d", "5"));
    assert!(!compile_and_match(r"\d", "x"));
    // an Arabic-Indic digit is numeric but not an ASCII digit
    assert!(compile_and_match(r"\d", "\u{0663}"));
}

#[test]
fn alphanumeric_class() {
    assert!(compile_and_match(r"\w", "a"));
    assert!(compile_and_match(r"\w", "7"));
    assert!(!compile_and_match(r"\w", "!"));
}

#[test]
fn positive_character_group() {
    assert!(compile_and_match("[abc]", "b"));
    assert!(!compile_and_match("[abc]", "d"));
}

#[test]
fn wildcard_consumes_any_one_character() {
    assert!(compile_and_match(".", "x"));
    assert!(!compile_and_match(".", ""));
}

#[test]
fn end_anchor() {
    assert!(compile_and_match("c$", "abc"));
    assert!(!compile_and_match("c$", "cab"));
}

#[test]
fn escaped_metacharacter_is_literal() {
    assert!(compile_and_match(r"\+", "a+b"));
    assert!(!compile_and_match(r"\+", "ab"));
}

#[test]
fn zero_or_one() {
    assert!(compile_and_match("colou?r", "color"));
    assert!(compile_and_match("colou?r", "colour"));
    assert!(!compile_and_match("colou?r", "colouur"));
}

#[test]
fn unterminated_character_group_is_tolerated() {
    assert!(compile_and_match("[abc", "b"));
    assert!(!compile_and_match("[abc", "d"));
}

#[test]
fn alternation_matches_either_branch() {
    assert!(compile_and_match("(ab|cd)", "xcdy"));
    assert!(!compile_and_match("(ab|cd)", "xacy"));
}

#[test]
fn alternation_is_ordered_choice_not_longest_match() {
    // the first alternative wins, so the longer `ab` is never tried
    assert!(!compile_and_match("(a|ab)c", "abc"));
}

#[test]
fn repetition_backoff_is_single_step() {
    // the repetition stops only one step short, so an anchored `a+ab`
    // cannot give back two characters
    assert!(!compile_and_match("^a+ab", "aaab"));
    assert!(compile_and_match("a+ab", "aaab"));
}

#[test]
fn nested_group_capture_is_visible_to_backreference() {
    assert!(compile_and_match(r"(b(c)d) \2", "bcd c"));
    assert!(!compile_and_match(r"(b(c)d) \2", "bcd x"));
}

#[test]
fn start_assertion_away_from_offset_zero_fails() {
    assert!(!compile_and_match("a^b", "ab"));
}

#[test]
fn reference_to_group_zero_never_matches() {
    assert!(!compile_and_match(r"(a)\0", "aa"));
}

#[test]
fn failed_compilation_matches_nothing() {
    assert!(!compile_and_match("", "anything"));
    assert!(!compile_and_match("(a|)", "a"));
}

#[test]
fn empty_input_matches_nothing() {
    assert!(!compile_and_match("a?", ""));
    assert!(!compile_and_match("^", ""));
}

#[test]
fn repetition_inside_group_stops_before_following_node() {
    assert!(compile_and_match("(a+)b", "aab"));
    assert!(!compile_and_match("(a+)b", "aa"));
}

#[test]
fn repetition_hint_reaches_through_nested_groups() {
    assert!(compile_and_match("((a+))c", "aac"));
    assert!(!compile_and_match("((a+))c", "aab"));
}

#[test]
fn backreferences_are_single_digit() {
    // `\12` is the first group's capture followed by a literal `2`
    assert!(compile_and_match(r"(a)\12", "aa2"));
    assert!(!compile_and_match(r"(a)\12", "aa"));
}
