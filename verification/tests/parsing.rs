use regex_engine::parser::{ParseError, Parser};

#[test]
fn empty_pattern_is_rejected() {
    assert_eq!(Parser::new("", 1).parse().unwrap_err(), ParseError::EmptyPattern);
}

#[test]
fn trailing_backslash_is_rejected() {
    assert_eq!(
        Parser::new("ab\\", 1).parse().unwrap_err(),
        ParseError::UnexpectedEndOfPattern
    );
}

#[test]
fn bracket_at_end_of_pattern_is_rejected() {
    assert_eq!(Parser::new("ab[", 1).parse().unwrap_err(), ParseError::UnexpectedEndOfPattern);
}

#[test]
fn unknown_escape_is_rejected() {
    assert_eq!(Parser::new(r"\x", 1).parse().unwrap_err(), ParseError::InvalidEscape);
}

#[test]
fn forward_backreference_is_rejected() {
    assert_eq!(Parser::new(r"\9", 1).parse().unwrap_err(), ParseError::InvalidBackreference);
    assert_eq!(Parser::new(r"(a)\2", 1).parse().unwrap_err(), ParseError::InvalidBackreference);
}

#[test]
fn backreference_to_opened_group_is_accepted() {
    assert!(Parser::new(r"(a)\1", 1).parse().is_ok());
}

#[test]
fn empty_alternation_is_rejected() {
    assert_eq!(Parser::new("(a|)", 1).parse().unwrap_err(), ParseError::EmptyAlternation);
    assert_eq!(Parser::new("(|a)", 1).parse().unwrap_err(), ParseError::EmptyAlternation);
    assert_eq!(Parser::new("()", 1).parse().unwrap_err(), ParseError::EmptyAlternation);
}

#[test]
fn unmatched_parenthesis_is_rejected() {
    assert_eq!(Parser::new("(abc", 1).parse().unwrap_err(), ParseError::UnmatchedParenthesis);
}

#[test]
fn dangling_quantifier_is_rejected() {
    assert_eq!(Parser::new("+a", 1).parse().unwrap_err(), ParseError::DanglingQuantifier);
    assert_eq!(Parser::new("?", 1).parse().unwrap_err(), ParseError::DanglingQuantifier);
}

#[test]
fn doubled_quantifier_wraps_the_repetition() {
    let compiled = Parser::new("a++", 1).parse().unwrap();
    assert!(compiled.match_pattern("aa"));
    assert!(!compiled.match_pattern("b"));
}

#[test]
fn compilation_is_deterministic() {
    let first = Parser::new(r"(a+|b)\1c", 1).parse().unwrap();
    let second = Parser::new(r"(a+|b)\1c", 1).parse().unwrap();
    for input in ["aaaaac", "aa aac", "bbc", "xbbcy", "", "abc"] {
        assert_eq!(first.match_pattern(input), second.match_pattern(input));
    }
}

#[test]
fn parsed_pattern_matches_directly() {
    let compiled = Parser::new("^h.llo", 1).parse().unwrap();
    assert!(compiled.match_pattern("hallo there"));
    assert!(!compiled.match_pattern("say hello"));
}
