//! The mathematical model of the engine.
//!
//! [`SpecPattern`] is the abstract syntax tree with mathematical contents
//! (`Seq` in place of `Vec`), and [`spec_match_here`] gives each node its
//! meaning: matching a node against an input at an offset, under a table of
//! previously captured texts, either fails or yields the consumed text
//! together with the captures it produced. [`spec_matches`] is the unanchored
//! search over all start offsets. The executable matcher is proved equal to
//! these functions.

use vstd::prelude::*;

verus! {

/// The abstract syntax tree of a compiled pattern.
#[verifier::ext_equal]
pub enum SpecPattern {
    /// Exactly the one character.
    Literal(char),
    /// One character of the numeric class (`\d`).
    Digit,
    /// One character of the alphanumeric class (`\w`).
    Alphanumeric,
    /// One character that is a member of the set (`[...]`).
    PositiveCharacterGroup(Seq<char>),
    /// One character that is not a member of the set (`[^...]`).
    NegativeCharacterGroup(Seq<char>),
    /// Greedy one-or-more repetition (`+`); `next_pattern` is the parser's
    /// record of the node that follows the repetition, used to stop consuming.
    OneOrMore { pattern: Box<SpecPattern>, next_pattern: Option<Box<SpecPattern>> },
    /// Zero-or-one repetition (`?`).
    ZeroOrOne(Box<SpecPattern>),
    /// Any one character (`.`).
    Wildcard,
    /// Zero-width start-of-input assertion (`^`).
    Start,
    /// Zero-width end-of-input assertion (`$`).
    End,
    /// Ordered concatenation.
    Sequence(Seq<SpecPattern>),
    /// Capturing alternation (`(a|b)`) with its capture slot.
    Group(Seq<SpecPattern>, nat),
    /// Backreference to the text captured by a group (`\1`).
    GroupReference(nat),
}

/// The outcome of matching one node: the consumed text and the captures
/// (group index to captured text) produced while consuming it.
#[verifier::ext_equal]
pub struct SpecMatch {
    pub text: Seq<char>,
    pub subs: Map<nat, Seq<char>>,
}

/// A successful match that consumed nothing and captured nothing.
pub open spec fn empty_match() -> SpecMatch {
    SpecMatch { text: Seq::empty(), subs: Map::empty() }
}

/// Joining two adjacent match results: texts concatenate and the later
/// captures win on a shared group index.
pub open spec fn merge_match(a: SpecMatch, b: SpecMatch) -> SpecMatch {
    SpecMatch { text: a.text + b.text, subs: a.subs.union_prefer_right(b.subs) }
}

/// Whether `char::is_numeric` classifies `c` as numeric; the meaning of `\d`.
pub uninterp spec fn is_numeric_char(c: char) -> bool;

/// Whether `char::is_alphanumeric` classifies `c` as alphanumeric; the
/// meaning of `\w`.
pub uninterp spec fn is_alphanumeric_char(c: char) -> bool;

/// A match result for one character consumed at `index`.
pub open spec fn one_char_match(c: char) -> Option<SpecMatch> {
    Some(SpecMatch { text: seq![c], subs: Map::empty() })
}

/// Matches `p` against `input` starting exactly at offset `index`, reading
/// previously captured texts from `caps`. Returns the consumed text and the
/// captures produced, or `None` when `p` does not match there.
pub open spec fn spec_match_here(
    p: SpecPattern,
    input: Seq<char>,
    index: int,
    caps: Map<nat, Seq<char>>,
) -> Option<SpecMatch>
    decreases p, input.len() - index, 1int,
{
    match p {
        SpecPattern::Literal(c) => {
            if 0 <= index < input.len() && input[index] == c {
                one_char_match(c)
            } else {
                None
            }
        },
        SpecPattern::Digit => {
            if 0 <= index < input.len() && is_numeric_char(input[index]) {
                one_char_match(input[index])
            } else {
                None
            }
        },
        SpecPattern::Alphanumeric => {
            if 0 <= index < input.len() && is_alphanumeric_char(input[index]) {
                one_char_match(input[index])
            } else {
                None
            }
        },
        SpecPattern::PositiveCharacterGroup(chars) => {
            if 0 <= index < input.len() && chars.contains(input[index]) {
                one_char_match(input[index])
            } else {
                None
            }
        },
        SpecPattern::NegativeCharacterGroup(chars) => {
            if 0 <= index < input.len() && !chars.contains(input[index]) {
                one_char_match(input[index])
            } else {
                None
            }
        },
        SpecPattern::Wildcard => {
            if 0 <= index < input.len() {
                one_char_match(input[index])
            } else {
                None
            }
        },
        SpecPattern::Start => if index == 0 { Some(empty_match()) } else { None },
        SpecPattern::End => if index == input.len() { Some(empty_match()) } else { None },
        SpecPattern::OneOrMore { .. } => spec_one_or_more(p, input, index, caps, empty_match()),
        SpecPattern::ZeroOrOne(inner) => {
            match spec_match_here(*inner, input, index, caps) {
                Some(m) => Some(m),
                None => Some(empty_match()),
            }
        },
        SpecPattern::Sequence(members) => spec_match_sequence(members, 0, input, index, caps, empty_match()),
        SpecPattern::Group(alternatives, group_index) => {
            match spec_match_alternatives(alternatives, 0, input, index, caps) {
                Some(m) => Some(SpecMatch { text: m.text, subs: m.subs.insert(group_index, m.text) }),
                None => None,
            }
        },
        SpecPattern::GroupReference(group_index) => {
            if caps.dom().contains(group_index) {
                let text = caps[group_index];
                if 0 <= index && index + text.len() <= input.len()
                    && input.subrange(index, index + text.len() as int) == text {
                    Some(SpecMatch { text, subs: Map::empty() })
                } else {
                    None
                }
            } else {
                None
            }
        },
    }
}

/// The greedy repetition of a `OneOrMore` node `p`, continuing at `index`
/// with the accumulation `acc` of the repetitions already taken and with the
/// capture table `caps` as updated by them.
///
/// Each round matches the inner node once. On failure the accumulation is the
/// result, unless nothing was consumed yet. On success, if something was
/// already accumulated and the recorded following node matches inside the
/// text just consumed, the repetition stops before it (the one-step backoff
/// heuristic); otherwise the round is merged in and the repetition continues.
/// A round that consumed no characters ends the repetition at once, since
/// another round at the same offset could make no progress; the guard against
/// running past the input can never fire, because a match never consumes more
/// than the input holds.
pub open spec fn spec_one_or_more(
    p: SpecPattern,
    input: Seq<char>,
    index: int,
    caps: Map<nat, Seq<char>>,
    acc: SpecMatch,
) -> Option<SpecMatch>
    decreases p, input.len() - index, 0int,
{
    match p {
        SpecPattern::OneOrMore { pattern, next_pattern } => {
            match spec_match_here(*pattern, input, index, caps) {
                None => if acc.text.len() == 0 { None } else { Some(acc) },
                Some(m) => {
                    let next_matches = match next_pattern {
                        Some(np) => spec_matches(*np, m.text),
                        None => false,
                    };
                    if acc.text.len() > 0 && next_matches {
                        Some(acc)
                    } else {
                        let acc2 = merge_match(acc, m);
                        let caps2 = caps.union_prefer_right(m.subs);
                        if m.text.len() == 0 || index + m.text.len() > input.len() {
                            Some(acc2)
                        } else {
                            spec_one_or_more(p, input, index + m.text.len(), caps2, acc2)
                        }
                    }
                },
            }
        },
        _ => None,
    }
}

/// Matching the members of a sequence from position `k` on, starting at
/// `index`, with `acc` the accumulation of the members already matched and
/// `caps` the capture table as extended by them. Fails as soon as one member
/// fails.
pub open spec fn spec_match_sequence(
    members: Seq<SpecPattern>,
    k: int,
    input: Seq<char>,
    index: int,
    caps: Map<nat, Seq<char>>,
    acc: SpecMatch,
) -> Option<SpecMatch>
    decreases members, members.len() - k, 0int,
{
    if k < 0 || k >= members.len() {
        Some(acc)
    } else {
        match spec_match_here(members[k], input, index, caps) {
            None => None,
            Some(m) => spec_match_sequence(
                members,
                k + 1,
                input,
                index + m.text.len(),
                caps.union_prefer_right(m.subs),
                merge_match(acc, m),
            ),
        }
    }
}

/// Ordered choice among a group's alternatives from position `k` on: the
/// first alternative that matches at `index` decides the result.
pub open spec fn spec_match_alternatives(
    alternatives: Seq<SpecPattern>,
    k: int,
    input: Seq<char>,
    index: int,
    caps: Map<nat, Seq<char>>,
) -> Option<SpecMatch>
    decreases alternatives, alternatives.len() - k, 0int,
{
    if k < 0 || k >= alternatives.len() {
        None
    } else {
        match spec_match_here(alternatives[k], input, index, caps) {
            Some(m) => Some(m),
            None => spec_match_alternatives(alternatives, k + 1, input, index, caps),
        }
    }
}

/// The unanchored search from offset `from` on: whether `p` matches at some
/// offset `from <= k < input.len()`, each attempt starting from an empty
/// capture table.
pub open spec fn spec_matches_from(p: SpecPattern, input: Seq<char>, from: int) -> bool
    decreases p, input.len() - from, 2int,
{
    if from < 0 || from >= input.len() {
        false
    } else {
        spec_match_here(p, input, from, Map::empty()) is Some
            || spec_matches_from(p, input, from + 1)
    }
}

/// Whether `p` matches `input` somewhere: the unanchored search over every
/// character offset of the input. An empty input has no offsets, so nothing
/// matches it.
pub open spec fn spec_matches(p: SpecPattern, input: Seq<char>) -> bool
    decreases p, input.len() + 1, 0int,
{
    spec_matches_from(p, input, 0)
}

} // verus!
