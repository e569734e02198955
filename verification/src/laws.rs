//! Properties of the engine, proved from its model.

use vstd::prelude::*;

use crate::model::{
    empty_match, spec_match_here, spec_match_sequence, spec_matches, spec_matches_from,
    SpecPattern,
};
use crate::parser::{spec_parse, ParseError};

verus! {

/// The unanchored search property: a pattern matches a line exactly when it
/// matches starting at some character offset of the line, each attempt
/// beginning with an empty capture table.
pub proof fn lemma_unanchored_search(p: SpecPattern, input: Seq<char>)
    ensures
        spec_matches(p, input) <==> exists|k: int|
            0 <= k < input.len() && spec_match_here(p, input, k, Map::empty()) is Some,
{
    lemma_matches_from_characterization(p, input, 0);
}

/// The search from `from` on succeeds exactly when some offset at or after
/// `from` matches.
proof fn lemma_matches_from_characterization(p: SpecPattern, input: Seq<char>, from: int)
    requires
        0 <= from,
    ensures
        spec_matches_from(p, input, from) <==> exists|k: int|
            from <= k < input.len() && spec_match_here(p, input, k, Map::empty()) is Some,
    decreases input.len() - from,
{
    if from < input.len() {
        lemma_matches_from_characterization(p, input, from + 1);
        if spec_match_here(p, input, from, Map::empty()) is Some {
            assert(from <= from < input.len() && spec_match_here(
                p,
                input,
                from,
                Map::empty(),
            ) is Some);
        }
    }
}

/// The anchor property: a sequence whose first member is the start-of-input
/// assertion can match at offset zero only.
pub proof fn lemma_start_anchor(
    members: Seq<SpecPattern>,
    input: Seq<char>,
    index: int,
    caps: Map<nat, Seq<char>>,
)
    requires
        members.len() > 0,
        members[0] == SpecPattern::Start,
        index != 0,
    ensures
        spec_match_here(SpecPattern::Sequence(members), input, index, caps) is None,
{
    assert(spec_match_here(members[0], input, index, caps) is None);
    assert(spec_match_sequence(members, 0, input, index, caps, empty_match()) is None);
}

/// Deterministic compilation: a pattern text and a starting group index
/// determine the compiled tree and the advanced index, so two compilations
/// of the same text behave identically on every input.
pub proof fn lemma_compile_deterministic(
    pattern: Seq<char>,
    next_index: int,
    p1: SpecPattern,
    p2: SpecPattern,
    n1: int,
    n2: int,
    input: Seq<char>,
)
    requires
        spec_parse(pattern, next_index) == Ok::<_, ParseError>((p1, n1)),
        spec_parse(pattern, next_index) == Ok::<_, ParseError>((p2, n2)),
    ensures
        p1 == p2,
        n1 == n2,
        spec_matches(p1, input) == spec_matches(p2, input),
{
}

} // verus!
