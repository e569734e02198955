//! A small regular-expression engine.
//!
//! A pattern string is compiled by [`parser::Parser`] into a [`pattern::Pattern`]
//! syntax tree, and the tree is evaluated against an input line by
//! [`pattern::Pattern::match_pattern`], a backtracking walk that supports
//! literals, character classes and groups, anchors, quantifiers, the wildcard,
//! capturing alternation groups and numbered backreferences.
//!
//! Every executable function is specified against the mathematical model in
//! [`model`]: the parser against [`model::spec_parse`] and the matcher against
//! [`model::spec_matches`].

pub mod captures;
pub mod laws;
pub mod model;
pub mod parser;
pub mod pattern;

use vstd::prelude::*;

use crate::model::spec_matches;
use crate::parser::{spec_parse, Parser};

verus! {

/// What compiling `pattern` and searching `input` yields: the unanchored
/// search of the compiled tree, where a pattern that fails to compile
/// matches nothing.
pub open spec fn spec_compile_and_match(pattern: Seq<char>, input: Seq<char>) -> bool {
    match spec_parse(pattern, 1) {
        Ok((compiled, _)) => spec_matches(compiled, input),
        Err(_) => false,
    }
}

/// Compiles `pattern`, with group indices allocated from one, and reports
/// whether it matches `input_line` anywhere; a pattern that fails to
/// compile matches nothing.
pub fn compile_and_match(pattern: &str, input_line: &str) -> (r: bool)
    ensures
        r == spec_compile_and_match(pattern@, input_line@),
{
    let mut parser = Parser::new(pattern, 1);
    match parser.parse() {
        Ok(compiled) => compiled.match_pattern(input_line),
        Err(_) => false,
    }
}

} // verus!
