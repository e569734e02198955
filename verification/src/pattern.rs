//! The compiled pattern tree and the backtracking matcher.
//!
//! [`Pattern`] is the executable syntax tree; its view is the mathematical
//! tree [`SpecPattern`]. [`Pattern::match_pattern`] runs the unanchored
//! search of an input line and is proved equal to [`spec_matches`];
//! the node-by-node walk `match_here` is proved equal to
//! [`spec_match_here`].

use vstd::prelude::*;
use vstd::string::StrSliceExecFns;

use crate::captures::{copy_chars, CaptureMap};
use crate::model::{
    empty_match, is_alphanumeric_char, is_numeric_char, merge_match, one_char_match,
    spec_match_alternatives, spec_match_here, spec_match_sequence, spec_matches,
    spec_matches_from, spec_one_or_more, SpecMatch, SpecPattern,
};

verus! {

/// A node of the compiled pattern tree. See [`SpecPattern`] for the meaning
/// of each variant.
#[derive(Debug)]
pub enum Pattern {
    Literal(char),
    Digit,
    Alphanumeric,
    PositiveCharacterGroup(Vec<char>),
    NegativeCharacterGroup(Vec<char>),
    OneOrMore { pattern: Box<Pattern>, next_pattern: Option<Box<Pattern>> },
    ZeroOrOne(Box<Pattern>),
    Wildcard,
    Start,
    End,
    Sequence(Vec<Pattern>),
    Group(Vec<Pattern>, usize),
    GroupReference(usize),
}

/// The mathematical tree a pattern node stands for.
pub open spec fn pat_view(p: Pattern) -> SpecPattern
    decreases p, 0int,
{
    match p {
        Pattern::Literal(c) => SpecPattern::Literal(c),
        Pattern::Digit => SpecPattern::Digit,
        Pattern::Alphanumeric => SpecPattern::Alphanumeric,
        Pattern::PositiveCharacterGroup(chars) => SpecPattern::PositiveCharacterGroup(chars@),
        Pattern::NegativeCharacterGroup(chars) => SpecPattern::NegativeCharacterGroup(chars@),
        Pattern::OneOrMore { pattern, next_pattern } => SpecPattern::OneOrMore {
            pattern: Box::new(pat_view(*pattern)),
            next_pattern: match next_pattern {
                Some(np) => Some(Box::new(pat_view(*np))),
                None => None,
            },
        },
        Pattern::ZeroOrOne(inner) => SpecPattern::ZeroOrOne(Box::new(pat_view(*inner))),
        Pattern::Wildcard => SpecPattern::Wildcard,
        Pattern::Start => SpecPattern::Start,
        Pattern::End => SpecPattern::End,
        Pattern::Sequence(members) => SpecPattern::Sequence(pats_view(members@, 0)),
        Pattern::Group(alternatives, group_index) => SpecPattern::Group(
            pats_view(alternatives@, 0),
            group_index as nat,
        ),
        Pattern::GroupReference(group_index) => SpecPattern::GroupReference(group_index as nat),
    }
}

/// The views of the nodes of `s` from position `k` on, in order.
pub open spec fn pats_view(s: Seq<Pattern>, k: int) -> Seq<SpecPattern>
    decreases s, s.len() - k,
{
    if k < 0 || k >= s.len() {
        Seq::empty()
    } else {
        seq![pat_view(s[k])] + pats_view(s, k + 1)
    }
}

/// `pats_view` taken from the start is the element-wise view.
pub proof fn lemma_pats_view(s: Seq<Pattern>, k: int)
    requires
        0 <= k <= s.len(),
    ensures
        pats_view(s, k).len() == s.len() - k,
        forall|j: int| 0 <= j < s.len() - k ==> pats_view(s, k)[j] == pat_view(s[k + j]),
    decreases s.len() - k,
{
    if k < s.len() {
        lemma_pats_view(s, k + 1);
    }
}

impl View for Pattern {
    type V = SpecPattern;

    open spec fn view(&self) -> SpecPattern {
        pat_view(*self)
    }
}

/// The view of a literal node.
pub proof fn lemma_pat_view_literal(c: char)
    ensures
        pat_view(Pattern::Literal(c)) == SpecPattern::Literal(c),
{
}

/// Appending one node appends its view.
pub proof fn lemma_pats_view_push(s: Seq<Pattern>, x: Pattern)
    ensures
        pats_view(s.push(x), 0) == pats_view(s, 0).push(pat_view(x)),
{
    lemma_pats_view(s, 0);
    lemma_pats_view(s.push(x), 0);
    assert(pats_view(s.push(x), 0) =~= pats_view(s, 0).push(pat_view(x)));
}

/// A copy of a pattern node with the same view.
pub fn clone_pattern(p: &Pattern) -> (r: Pattern)
    ensures
        r@ == p@,
    decreases p, 0int,
{
    match p {
        Pattern::Literal(c) => Pattern::Literal(*c),
        Pattern::Digit => Pattern::Digit,
        Pattern::Alphanumeric => Pattern::Alphanumeric,
        Pattern::PositiveCharacterGroup(chars) => Pattern::PositiveCharacterGroup(
            copy_chars(chars),
        ),
        Pattern::NegativeCharacterGroup(chars) => Pattern::NegativeCharacterGroup(
            copy_chars(chars),
        ),
        Pattern::OneOrMore { pattern, next_pattern } => Pattern::OneOrMore {
            pattern: Box::new(clone_pattern(&**pattern)),
            next_pattern: match next_pattern {
                Some(np) => Some(Box::new(clone_pattern(&**np))),
                None => None,
            },
        },
        Pattern::ZeroOrOne(inner) => Pattern::ZeroOrOne(Box::new(clone_pattern(&**inner))),
        Pattern::Wildcard => Pattern::Wildcard,
        Pattern::Start => Pattern::Start,
        Pattern::End => Pattern::End,
        Pattern::Sequence(members) => Pattern::Sequence(clone_patterns(members)),
        Pattern::Group(alternatives, group_index) => Pattern::Group(
            clone_patterns(alternatives),
            *group_index,
        ),
        Pattern::GroupReference(group_index) => Pattern::GroupReference(*group_index),
    }
}

/// A copy of a run of pattern nodes with the same views.
pub fn clone_patterns(v: &Vec<Pattern>) -> (r: Vec<Pattern>)
    ensures
        pats_view(r@, 0) == pats_view(v@, 0),
    decreases v@, 1int,
{
    let mut r: Vec<Pattern> = Vec::new();
    let mut k: usize = 0;
    while k < v.len()
        invariant
            k <= v.len(),
            r@.len() == k,
            forall|j: int| 0 <= j < k ==> pat_view(r@[j]) == pat_view(v@[j]),
        decreases v.len() - k,
    {
        r.push(clone_pattern(&v[k]));
        k = k + 1;
    }
    proof {
        lemma_pats_view(r@, 0);
        lemma_pats_view(v@, 0);
        assert(pats_view(r@, 0) =~= pats_view(v@, 0));
    }
    r
}

/// Relies on `char::is_numeric`: the Unicode classification behind `\d`. The
/// result depends on the character alone.
#[verifier::external_body]
fn char_is_numeric(c: char) -> (r: bool)
    ensures
        r == is_numeric_char(c),
{
    c.is_numeric()
}

/// Relies on `char::is_alphanumeric`: the Unicode classification behind
/// `\w`. The result depends on the character alone.
#[verifier::external_body]
fn char_is_alphanumeric(c: char) -> (r: bool)
    ensures
        r == is_alphanumeric_char(c),
{
    c.is_alphanumeric()
}

/// Whether `c` is a member of `v`.
fn contains_char(v: &Vec<char>, c: char) -> (r: bool)
    ensures
        r == v@.contains(c),
{
    let mut k: usize = 0;
    while k < v.len()
        invariant
            k <= v.len(),
            forall|j: int| 0 <= j < k ==> v@[j] != c,
        decreases v.len() - k,
    {
        if v[k] == c {
            return true;
        }
        k = k + 1;
    }
    false
}

/// The characters of `s` as a vector.
pub fn chars_of(s: &str) -> (r: Vec<char>)
    ensures
        r@ == s@,
{
    let n = s.unicode_len();
    let mut r: Vec<char> = Vec::new();
    let mut k: usize = 0;
    while k < n
        invariant
            k <= n,
            n == s@.len(),
            r@ == s@.subrange(0, k as int),
        decreases n - k,
    {
        r.push(s.get_char(k));
        proof {
            assert(s@.subrange(0, k as int + 1) =~= s@.subrange(0, k as int).push(s@[k as int]));
        }
        k = k + 1;
    }
    proof {
        assert(s@.subrange(0, s@.len() as int) =~= s@);
    }
    r
}

/// The text a piece of the input matched, together with the captures
/// produced while matching it.
pub struct PatternMatch {
    /// The contiguous run of characters consumed.
    pub matched_text: Vec<char>,
    /// The captures produced, by group index.
    pub sub_matches: CaptureMap,
}

impl View for PatternMatch {
    type V = SpecMatch;

    open spec fn view(&self) -> SpecMatch {
        SpecMatch { text: self.matched_text@, subs: self.sub_matches@ }
    }
}

/// The view of an optional match result.
pub open spec fn opt_match_view(r: Option<PatternMatch>) -> Option<SpecMatch> {
    match r {
        Some(m) => Some(m@),
        None => None,
    }
}

impl PatternMatch {
    /// A match that consumed `matched_text` and captured nothing.
    fn new(matched_text: Vec<char>) -> (r: PatternMatch)
        ensures
            r@ == (SpecMatch { text: matched_text@, subs: Map::<nat, Seq<char>>::empty() }),
    {
        PatternMatch { matched_text, sub_matches: CaptureMap::new() }
    }

    /// Appends `other`, a match of the text that followed, to `self`: the
    /// texts concatenate and the later captures win.
    fn accumulate(&mut self, other: &PatternMatch)
        ensures
            final(self)@ == merge_match(old(self)@, other@),
    {
        let ghost t0 = self.matched_text@;
        let mut k: usize = 0;
        while k < other.matched_text.len()
            invariant
                k <= other.matched_text.len(),
                self.matched_text@ == t0 + other.matched_text@.subrange(0, k as int),
                self.sub_matches == old(self).sub_matches,
            decreases other.matched_text.len() - k,
        {
            self.matched_text.push(other.matched_text[k]);
            proof {
                assert(t0 + other.matched_text@.subrange(0, k as int + 1) =~= (t0
                    + other.matched_text@.subrange(0, k as int)).push(
                    other.matched_text@[k as int],
                ));
            }
            k = k + 1;
        }
        proof {
            assert(t0 + other.matched_text@.subrange(0, other.matched_text@.len() as int) =~= t0
                + other.matched_text@);
        }
        self.sub_matches.merge(&other.sub_matches);
    }

    /// A match that consumed the one character `c` and captured nothing.
    fn one_char(c: char) -> (r: PatternMatch)
        ensures
            opt_match_view(Some(r)) == one_char_match(c),
    {
        let mut text: Vec<char> = Vec::new();
        text.push(c);
        let r = PatternMatch::new(text);
        proof {
            assert(r@.text =~= seq![c]);
        }
        r
    }

    /// A match that consumed nothing and captured nothing.
    fn empty() -> (r: PatternMatch)
        ensures
            r@ == empty_match(),
    {
        let r = PatternMatch::new(Vec::new());
        proof {
            assert(r@.text =~= empty_match().text);
        }
        r
    }

}

impl Pattern {
    /// Whether the pattern matches the input line somewhere: the unanchored
    /// search over every character offset of the line.
    pub fn match_pattern(&self, input: &str) -> (r: bool)
        ensures
            r == spec_matches(self@, input@),
    {
        let chars = chars_of(input);
        self.match_chars(&chars)
    }

    /// The unanchored search over a line already split into characters.
    fn match_chars(&self, input: &Vec<char>) -> (r: bool)
        ensures
            r == spec_matches(self@, input@),
        decreases self, input@.len() + 1, 0int,
    {
        let n = input.len();
        let mut index: usize = 0;
        while index < n
            invariant
                index <= n,
                n == input@.len(),
                spec_matches_from(self@, input@, 0) == spec_matches_from(
                    self@,
                    input@,
                    index as int,
                ),
            decreases n - index,
        {
            let empty = CaptureMap::new();
            match self.match_here(input, index, &empty) {
                Some(_) => {
                    return true;
                },
                None => {},
            }
            index = index + 1;
        }
        false
    }

    /// Merges the captures of `m` into the running capture table, later
    /// captures winning.
    fn update_matches(captures: &mut CaptureMap, m: &PatternMatch)
        ensures
            final(captures)@ == old(captures)@.union_prefer_right(m@.subs),
    {
        captures.merge(&m.sub_matches);
    }

    /// Matches this node against `input` starting exactly at `index`, reading
    /// previously captured texts from `captures`.
    fn match_here(&self, input: &Vec<char>, index: usize, captures: &CaptureMap) -> (r: Option<
        PatternMatch,
    >)
        requires
            index <= input.len(),
        ensures
            opt_match_view(r) == spec_match_here(self@, input@, index as int, captures@),
            (match r {
                Some(m) => index + m@.text.len() <= input@.len(),
                None => true,
            }),
        decreases self, input@.len() - index, 1int,
    {
        match self {
            Pattern::Literal(c) => {
                if index < input.len() && input[index] == *c {
                    Some(PatternMatch::one_char(*c))
                } else {
                    None
                }
            },
            Pattern::Digit => {
                if index < input.len() && char_is_numeric(input[index]) {
                    Some(PatternMatch::one_char(input[index]))
                } else {
                    None
                }
            },
            Pattern::Alphanumeric => {
                if index < input.len() && char_is_alphanumeric(input[index]) {
                    Some(PatternMatch::one_char(input[index]))
                } else {
                    None
                }
            },
            Pattern::PositiveCharacterGroup(chars) => {
                if index < input.len() && contains_char(chars, input[index]) {
                    Some(PatternMatch::one_char(input[index]))
                } else {
                    None
                }
            },
            Pattern::NegativeCharacterGroup(chars) => {
                if index < input.len() && !contains_char(chars, input[index]) {
                    Some(PatternMatch::one_char(input[index]))
                } else {
                    None
                }
            },
            Pattern::Wildcard => {
                if index < input.len() {
                    Some(PatternMatch::one_char(input[index]))
                } else {
                    None
                }
            },
            Pattern::Start => {
                if index == 0 {
                    Some(PatternMatch::empty())
                } else {
                    None
                }
            },
            Pattern::End => {
                if index == input.len() {
                    Some(PatternMatch::empty())
                } else {
                    None
                }
            },
            Pattern::OneOrMore { .. } => self.match_one_or_more(
                input,
                index,
                captures,
                PatternMatch::empty(),
            ),
            Pattern::ZeroOrOne(inner) => {
                match inner.match_here(input, index, captures) {
                    Some(m) => Some(m),
                    None => Some(PatternMatch::empty()),
                }
            },
            Pattern::Sequence(members) => {
                proof {
                    lemma_pats_view(members@, 0);
                }
                match_sequence(members, 0, input, index, captures, PatternMatch::empty())
            },
            Pattern::Group(alternatives, group_index) => {
                proof {
                    lemma_pats_view(alternatives@, 0);
                }
                match match_alternatives(alternatives, 0, input, index, captures) {
                    Some(m) => {
                        let text = copy_chars(&m.matched_text);
                        let mut with_capture = m;
                        with_capture.sub_matches.insert(*group_index, text);
                        Some(with_capture)
                    },
                    None => None,
                }
            },
            Pattern::GroupReference(group_index) => {
                match captures.get(*group_index) {
                    None => None,
                    Some(text) => {
                        if text.len() <= input.len() && index <= input.len() - text.len() {
                            let mut j: usize = 0;
                            let mut all_equal = true;
                            while j < text.len()
                                invariant
                                    j <= text@.len(),
                                    index + text@.len() <= input.len(),
                                    all_equal == (input@.subrange(
                                        index as int,
                                        index + j as int,
                                    ) =~= text@.subrange(0, j as int)),
                                decreases text@.len() - j,
                            {
                                let same = input[index + j] == text[j];
                                proof {
                                    assert(input@.subrange(index as int, index + j as int + 1)
                                        =~= input@.subrange(index as int, index + j as int).push(
                                        input@[index + j as int],
                                    ));
                                    assert(text@.subrange(0, j as int + 1) =~= text@.subrange(
                                        0,
                                        j as int,
                                    ).push(text@[j as int]));
                                }
                                all_equal = all_equal && same;
                                proof {
                                    if !same {
                                        assert(input@.subrange(index as int, index + j as int + 1)[j as int]
                                            != text@.subrange(0, j as int + 1)[j as int]);
                                    }
                                }
                                j = j + 1;
                            }
                            proof {
                                assert(text@.subrange(0, text@.len() as int) =~= text@);
                            }
                            if all_equal {
                                Some(PatternMatch::new(copy_chars(text)))
                            } else {
                                None
                            }
                        } else {
                            None
                        }
                    },
                }
            },
        }
    }

    /// The greedy repetition of a `OneOrMore` node, continuing at `index`
    /// with the accumulation `acc` of the repetitions already taken.
    fn match_one_or_more(
        &self,
        input: &Vec<char>,
        index: usize,
        captures: &CaptureMap,
        acc: PatternMatch,
    ) -> (r: Option<PatternMatch>)
        requires
            index <= input.len(),
        ensures
            opt_match_view(r) == spec_one_or_more(
                self@,
                input@,
                index as int,
                captures@,
                acc@,
            ),
            (match r {
                Some(m) => m@.text.len() >= acc@.text.len() && index + (m@.text.len()
                    - acc@.text.len()) <= input@.len(),
                None => true,
            }),
        decreases self, input@.len() - index, 0int,
    {
        match self {
            Pattern::OneOrMore { pattern, next_pattern } => {
                match pattern.match_here(input, index, captures) {
                    None => {
                        if acc.matched_text.len() == 0 {
                            None
                        } else {
                            Some(acc)
                        }
                    },
                    Some(m) => {
                        let stop_here = if acc.matched_text.len() > 0 {
                            match next_pattern {
                                Some(np) => np.match_chars(&m.matched_text),
                                None => false,
                            }
                        } else {
                            false
                        };
                        if stop_here {
                            Some(acc)
                        } else {
                            let consumed = m.matched_text.len();
                            let mut acc2 = acc;
                            acc2.accumulate(&m);
                            let mut caps2 = captures.duplicate();
                            Pattern::update_matches(&mut caps2, &m);
                            if consumed == 0 {
                                Some(acc2)
                            } else {
                                self.match_one_or_more(input, index + consumed, &caps2, acc2)
                            }
                        }
                    },
                }
            },
            _ => None,
        }
    }
}

/// Matches the members of a sequence from position `k` on, threading the
/// offset, the accumulated match and the capture table across them.
fn match_sequence(
    members: &Vec<Pattern>,
    k: usize,
    input: &Vec<char>,
    index: usize,
    captures: &CaptureMap,
    acc: PatternMatch,
) -> (r: Option<PatternMatch>)
    requires
        k <= members@.len(),
        index <= input.len(),
    ensures
        opt_match_view(r) == spec_match_sequence(
            pats_view(members@, 0),
            k as int,
            input@,
            index as int,
            captures@,
            acc@,
        ),
        (match r {
            Some(m) => m@.text.len() >= acc@.text.len() && index + (m@.text.len()
                - acc@.text.len()) <= input@.len(),
            None => true,
        }),
    decreases members@, members@.len() - k, 0int,
{
    proof {
        lemma_pats_view(members@, 0);
    }
    if k == members.len() {
        Some(acc)
    } else {
        match members[k].match_here(input, index, captures) {
            None => None,
            Some(m) => {
                let consumed = m.matched_text.len();
                let mut acc2 = acc;
                acc2.accumulate(&m);
                let mut caps2 = captures.duplicate();
                Pattern::update_matches(&mut caps2, &m);
                match_sequence(members, k + 1, input, index + consumed, &caps2, acc2)
            },
        }
    }
}

/// Ordered choice among a group's alternatives from position `k` on: the
/// first alternative that matches at `index` decides the result.
fn match_alternatives(
    alternatives: &Vec<Pattern>,
    k: usize,
    input: &Vec<char>,
    index: usize,
    captures: &CaptureMap,
) -> (r: Option<PatternMatch>)
    requires
        k <= alternatives@.len(),
        index <= input.len(),
    ensures
        opt_match_view(r) == spec_match_alternatives(
            pats_view(alternatives@, 0),
            k as int,
            input@,
            index as int,
            captures@,
        ),
        (match r {
            Some(m) => index + m@.text.len() <= input@.len(),
            None => true,
        }),
    decreases alternatives@, alternatives@.len() - k, 0int,
{
    proof {
        lemma_pats_view(alternatives@, 0);
    }
    if k == alternatives.len() {
        None
    } else {
        match alternatives[k].match_here(input, index, captures) {
            Some(m) => Some(m),
            None => match_alternatives(alternatives, k + 1, input, index, captures),
        }
    }
}

} // verus!
