//! The pattern parser.
//!
//! [`Parser`] consumes a pattern string left to right once and builds the
//! [`Pattern`] tree, allocating capture-group indices in opening order from a
//! caller-supplied base. The executable parser is proved equal to
//! [`spec_parse`], the mathematical description of the same pass: token
//! handling, alternation splitting, group-index threading through nested
//! alternatives, and the back-propagation of each new node into a preceding
//! repetition's `next_pattern` hint.

use vstd::prelude::*;

use crate::captures::copy_chars;
use crate::model::SpecPattern;
use crate::pattern::{
    chars_of, clone_pattern, lemma_pat_view_literal, lemma_pats_view, lemma_pats_view_push,
    pat_view, pats_view, Pattern,
};

verus! {

/// Why a pattern failed to compile.
#[derive(Clone, Copy, Debug, PartialEq, Eq, Structural)]
pub enum ParseError {
    /// A trailing `\`, or a `[` opening at the very end of the pattern.
    UnexpectedEndOfPattern,
    /// `\` followed by a character that names no class, escape or group.
    InvalidEscape,
    /// `\N` naming a group that has not been opened yet.
    InvalidBackreference,
    /// An empty branch between `(`, `|` and `)`.
    EmptyAlternation,
    /// `(` with no matching `)`.
    UnmatchedParenthesis,
    /// `+` or `?` with no preceding element.
    DanglingQuantifier,
    /// A pattern that compiles to no element at all.
    EmptyPattern,
}

/// The total length of a run of chunks.
pub open spec fn sum_lens(s: Seq<Seq<char>>) -> int
    decreases s.len(),
{
    if s.len() == 0 {
        0
    } else {
        sum_lens(s.drop_last()) + s.last().len()
    }
}

proof fn lemma_sum_lens_push(s: Seq<Seq<char>>, x: Seq<char>)
    ensures
        sum_lens(s.push(x)) == sum_lens(s) + x.len(),
{
    assert(s.push(x).drop_last() =~= s);
}

proof fn lemma_sum_lens_nonneg(s: Seq<Seq<char>>)
    ensures
        sum_lens(s) >= 0,
    decreases s.len(),
{
    if s.len() > 0 {
        lemma_sum_lens_nonneg(s.drop_last());
    }
}

proof fn lemma_sum_lens_elem(s: Seq<Seq<char>>, k: int)
    requires
        0 <= k < s.len(),
    ensures
        s[k].len() <= sum_lens(s),
    decreases s.len(),
{
    lemma_sum_lens_nonneg(s.drop_last());
    if k == s.len() - 1 {
    } else {
        lemma_sum_lens_elem(s.drop_last(), k);
        assert(s.drop_last()[k] == s[k]);
    }
}

/// Splitting a run of chunks after its first element.
proof fn lemma_sum_lens_front(s: Seq<Seq<char>>)
    requires
        s.len() > 0,
    ensures
        sum_lens(s) == s[0].len() + sum_lens(s.drop_first()),
    decreases s.len(),
{
    if s.len() == 1 {
        assert(s.drop_first() =~= Seq::<Seq<char>>::empty());
        assert(s.drop_last() =~= Seq::<Seq<char>>::empty());
    } else {
        lemma_sum_lens_front(s.drop_last());
        assert(s.drop_last()[0] == s[0]);
        assert(s.drop_last().drop_first() =~= s.drop_first().drop_last());
        assert(s.drop_first().last() == s.last());
    }
}

/// The scan that splits a group body `(...)` into its `|`-separated
/// alternatives, mirrored from the executable loop: `j` is the position in
/// `rest`, `level` the parenthesis nesting depth, `chunk` the alternative
/// being collected and `chunks` those already collected. Text at depth one is
/// split at `|`; the scan ends at the `)` that closes the group, and an empty
/// alternative or a missing `)` is an error.
pub open spec fn spec_split(
    rest: Seq<char>,
    j: int,
    level: int,
    chunk: Seq<char>,
    chunks: Seq<Seq<char>>,
) -> Result<(Seq<Seq<char>>, int), ParseError>
    decreases rest.len() - j,
{
    if j < 0 || j >= rest.len() {
        if chunk.len() != 0 || level != 0 {
            Err(ParseError::UnmatchedParenthesis)
        } else {
            Ok((chunks, 0))
        }
    } else {
        let c = rest[j];
        if c == '(' {
            if level + 1 == 1 {
                spec_split(rest, j + 1, level + 1, chunk, chunks)
            } else {
                spec_split(rest, j + 1, level + 1, chunk.push(c), chunks)
            }
        } else if c == ')' {
            if level - 1 == 0 {
                if chunk.len() == 0 {
                    Err(ParseError::EmptyAlternation)
                } else {
                    Ok((chunks.push(chunk), j + 1))
                }
            } else {
                spec_split(rest, j + 1, level - 1, chunk.push(c), chunks)
            }
        } else if c == '|' {
            if level == 1 {
                if chunk.len() == 0 {
                    Err(ParseError::EmptyAlternation)
                } else {
                    spec_split(rest, j + 1, level, Seq::empty(), chunks.push(chunk))
                }
            } else {
                spec_split(rest, j + 1, level, chunk.push(c), chunks)
            }
        } else {
            spec_split(rest, j + 1, level, chunk.push(c), chunks)
        }
    }
}

/// The alternation split of `rest`, which begins at the group's `(`.
pub open spec fn spec_split_alternation(rest: Seq<char>) -> Result<(Seq<Seq<char>>, int), ParseError> {
    spec_split(rest, 0, 0, Seq::empty(), Seq::empty())
}

/// What a successful split guarantees, proved along the recursion: the scan
/// either ended a group of at least two characters whose parentheses are not
/// part of any chunk, or never entered one and produced nothing.
proof fn lemma_split_invariant(
    rest: Seq<char>,
    j: int,
    level: int,
    chunk: Seq<char>,
    chunks: Seq<Seq<char>>,
)
    requires
        0 <= j <= rest.len(),
        level >= 1 ==> sum_lens(chunks) + chunk.len() <= j - 1,
        level <= 0 ==> sum_lens(chunks) + chunk.len() <= j && chunks.len() == 0,
    ensures
        (match spec_split(rest, j, level, chunk, chunks) {
            Ok((cs, consumed)) => (consumed == 0 && cs.len() == 0) || (cs.len() >= 1 && 2
                <= consumed <= rest.len() && sum_lens(cs) <= consumed - 2),
            Err(_) => true,
        }),
        level >= 1 ==> (match spec_split(rest, j, level, chunk, chunks) {
            Ok((cs, consumed)) => consumed >= 2,
            Err(_) => true,
        }),
    decreases rest.len() - j,
{
    lemma_sum_lens_nonneg(chunks);
    if j >= rest.len() {
    } else {
        let c = rest[j];
        if c == '(' {
            if level + 1 == 1 {
                lemma_split_invariant(rest, j + 1, level + 1, chunk, chunks);
            } else {
                lemma_split_invariant(rest, j + 1, level + 1, chunk.push(c), chunks);
            }
        } else if c == ')' {
            if level - 1 == 0 {
                if chunk.len() != 0 {
                    lemma_sum_lens_push(chunks, chunk);
                }
            } else {
                lemma_split_invariant(rest, j + 1, level - 1, chunk.push(c), chunks);
            }
        } else if c == '|' {
            if level == 1 {
                if chunk.len() != 0 {
                    lemma_sum_lens_push(chunks, chunk);
                    lemma_split_invariant(rest, j + 1, level, Seq::empty(), chunks.push(chunk));
                }
            } else {
                lemma_split_invariant(rest, j + 1, level, chunk.push(c), chunks);
            }
        } else {
            lemma_split_invariant(rest, j + 1, level, chunk.push(c), chunks);
        }
    }
}

/// The split of a group body that does start with `(`: it consumes the two
/// enclosing parentheses and at least one alternative, and the alternatives
/// together are shorter than what was consumed by the parentheses' two
/// characters.
proof fn lemma_split_alternation_facts(rest: Seq<char>)
    requires
        rest.len() > 0,
        rest[0] == '(',
    ensures
        (match spec_split_alternation(rest) {
            Ok((cs, consumed)) => cs.len() >= 1 && 2 <= consumed <= rest.len() && sum_lens(cs)
                <= consumed - 2,
            Err(_) => true,
        }),
{
    lemma_split_invariant(rest, 1, 1, Seq::empty(), Seq::empty());
}

/// Scanning the body of a character class from position `j` until the
/// closing `]` or, tolerated, the end of the pattern; returns the collected
/// characters and the position after the scan.
pub open spec fn spec_scan_group(pattern: Seq<char>, j: int, chars: Seq<char>) -> (Seq<char>, int)
    decreases pattern.len() - j,
{
    if j < 0 || j >= pattern.len() {
        (chars, j)
    } else if pattern[j] == ']' {
        (chars, j + 1)
    } else {
        spec_scan_group(pattern, j + 1, chars.push(pattern[j]))
    }
}

proof fn lemma_scan_group_bounds(pattern: Seq<char>, j: int, chars: Seq<char>)
    requires
        0 <= j <= pattern.len(),
    ensures
        j <= spec_scan_group(pattern, j, chars).1 <= pattern.len(),
    decreases pattern.len() - j,
{
    if j < pattern.len() && pattern[j] != ']' {
        lemma_scan_group_bounds(pattern, j + 1, chars.push(pattern[j]));
    }
}

/// Parsing a character class at the `[` at position `i`: a `^` right after
/// the bracket makes the class negative, the first other character is always
/// a member, and the body runs to `]` or to the end of the pattern. A `[`
/// that ends the pattern is an error.
pub open spec fn spec_char_group(pattern: Seq<char>, i: int) -> Result<(SpecPattern, int), ParseError> {
    if i + 1 >= pattern.len() {
        Err(ParseError::UnexpectedEndOfPattern)
    } else {
        let first = pattern[i + 1];
        if first == '^' {
            let scanned = spec_scan_group(pattern, i + 2, Seq::empty());
            Ok((SpecPattern::NegativeCharacterGroup(scanned.0), scanned.1))
        } else {
            let scanned = spec_scan_group(pattern, i + 2, seq![first]);
            Ok((SpecPattern::PositiveCharacterGroup(scanned.0), scanned.1))
        }
    }
}

/// Parsing an escape at the `\` at position `i`: `\d` and `\w` are the
/// classes, a repeated metacharacter is a literal, a decimal digit is a
/// backreference and must name a group below `next_index`, and anything else
/// is an error; so is a `\` that ends the pattern.
pub open spec fn spec_escape_step(pattern: Seq<char>, i: int, next_index: int) -> Result<
    (SpecPattern, int),
    ParseError,
> {
    if i + 1 >= pattern.len() {
        Err(ParseError::UnexpectedEndOfPattern)
    } else {
        let e = pattern[i + 1];
        if e == 'd' {
            Ok((SpecPattern::Digit, i + 2))
        } else if e == 'w' {
            Ok((SpecPattern::Alphanumeric, i + 2))
        } else if e == '\\' || e == '+' || e == '?' || e == '.' || e == '[' || e == '(' {
            Ok((SpecPattern::Literal(e), i + 2))
        } else if 48 <= e as u32 && e as u32 <= 57 {
            // the decimal digits: scalar values 48 through 57
            let group_index = e as u32 - 48;
            if group_index >= next_index {
                Err(ParseError::InvalidBackreference)
            } else {
                Ok((SpecPattern::GroupReference(group_index as nat), i + 2))
            }
        } else {
            Err(ParseError::InvalidEscape)
        }
    }
}

/// Setting the `next_pattern` hint of a repetition to the node that follows
/// it: a `OneOrMore` takes the hint directly; a group passes it into each of
/// its alternatives; anything else is left alone (`None`).
pub open spec fn spec_propagate(prev: SpecPattern, next: SpecPattern) -> Option<SpecPattern>
    decreases prev, 0int,
{
    match prev {
        SpecPattern::OneOrMore { pattern, next_pattern } => Some(
            SpecPattern::OneOrMore { pattern, next_pattern: Some(Box::new(next)) },
        ),
        SpecPattern::Group(alternatives, group_index) => {
            let propagated = spec_propagate_alts(alternatives, 0, next);
            if propagated.1 {
                Some(SpecPattern::Group(propagated.0, group_index))
            } else {
                None
            }
        },
        _ => None,
    }
}

/// The hint pushed into each alternative from position `k` on; the flag says
/// whether any alternative took it.
pub open spec fn spec_propagate_alts(
    alternatives: Seq<SpecPattern>,
    k: int,
    next: SpecPattern,
) -> (Seq<SpecPattern>, bool)
    decreases alternatives, alternatives.len() - k,
{
    if k < 0 || k >= alternatives.len() {
        (Seq::empty(), false)
    } else {
        let rest = spec_propagate_alts(alternatives, k + 1, next);
        match spec_propagate(alternatives[k], next) {
            Some(updated) => (seq![updated] + rest.0, true),
            None => (seq![alternatives[k]] + rest.0, rest.1),
        }
    }
}

/// Appending a freshly parsed node to the run of nodes: if the node before
/// it is a repetition, or a group holding one, that repetition first learns
/// the new node as its `next_pattern` hint.
pub open spec fn spec_append_node(nodes: Seq<SpecPattern>, node: SpecPattern) -> Seq<SpecPattern> {
    if nodes.len() == 0 {
        nodes.push(node)
    } else {
        match spec_propagate(nodes.last(), node) {
            Some(updated) => nodes.drop_last().push(updated).push(node),
            None => nodes.push(node),
        }
    }
}

/// The longest chunk from position `k` on.
pub open spec fn max_chunk_len(chunks: Seq<Seq<char>>, k: int) -> int
    decreases chunks.len() - k,
{
    if k < 0 || k >= chunks.len() {
        0
    } else {
        let rest = max_chunk_len(chunks, k + 1);
        if chunks[k].len() > rest {
            chunks[k].len() as int
        } else {
            rest
        }
    }
}

proof fn lemma_max_chunk_len_bound(chunks: Seq<Seq<char>>, k: int)
    requires
        0 <= k <= chunks.len(),
    ensures
        max_chunk_len(chunks, k) >= 0,
        sum_lens(chunks) >= 0 ==> max_chunk_len(chunks, k) <= sum_lens(chunks),
    decreases chunks.len() - k,
{
    lemma_sum_lens_nonneg(chunks);
    if k < chunks.len() {
        lemma_max_chunk_len_bound(chunks, k + 1);
        lemma_sum_lens_elem(chunks, k);
    }
}

/// One pass of the parser from position `i` with `next_index` the next free
/// group index and `nodes` the nodes already built: each token becomes a
/// node, `+` and `?` wrap the node before them, and every new node is pushed
/// through [`spec_append_node`]. At the end the nodes and the advanced group
/// index are returned.
pub open spec fn spec_parse_loop(
    pattern: Seq<char>,
    i: int,
    next_index: int,
    nodes: Seq<SpecPattern>,
) -> Result<(Seq<SpecPattern>, int), ParseError>
    decreases pattern.len(), 0int, pattern.len() - i,
    via spec_parse_loop_decreases
{
    if i < 0 || i >= pattern.len() {
        Ok((nodes, next_index))
    } else {
        let c = pattern[i];
        if c == '\\' {
            match spec_escape_step(pattern, i, next_index) {
                Err(e) => Err(e),
                Ok((node, i2)) => spec_parse_loop(
                    pattern,
                    i2,
                    next_index,
                    spec_append_node(nodes, node),
                ),
            }
        } else if c == '[' {
            match spec_char_group(pattern, i) {
                Err(e) => Err(e),
                Ok((node, i2)) => spec_parse_loop(
                    pattern,
                    i2,
                    next_index,
                    spec_append_node(nodes, node),
                ),
            }
        } else if c == '(' {
            let rest = pattern.subrange(i, pattern.len() as int);
            match spec_split_alternation(rest) {
                Err(e) => Err(e),
                Ok((chunks, consumed)) => {
                    match spec_parse_alts(chunks, 0, next_index + 1) {
                        Err(e) => Err(e),
                        Ok((alternatives, n2)) => spec_parse_loop(
                            pattern,
                            i + consumed,
                            n2,
                            spec_append_node(
                                nodes,
                                SpecPattern::Group(alternatives, next_index as nat),
                            ),
                        ),
                    }
                },
            }
        } else if c == '+' {
            if nodes.len() == 0 {
                Err(ParseError::DanglingQuantifier)
            } else {
                let node = SpecPattern::OneOrMore {
                    pattern: Box::new(nodes.last()),
                    next_pattern: None,
                };
                spec_parse_loop(
                    pattern,
                    i + 1,
                    next_index,
                    spec_append_node(nodes.drop_last(), node),
                )
            }
        } else if c == '?' {
            if nodes.len() == 0 {
                Err(ParseError::DanglingQuantifier)
            } else {
                let node = SpecPattern::ZeroOrOne(Box::new(nodes.last()));
                spec_parse_loop(
                    pattern,
                    i + 1,
                    next_index,
                    spec_append_node(nodes.drop_last(), node),
                )
            }
        } else {
            let node = if c == '^' {
                SpecPattern::Start
            } else if c == '$' {
                SpecPattern::End
            } else if c == '.' {
                SpecPattern::Wildcard
            } else {
                SpecPattern::Literal(c)
            };
            spec_parse_loop(pattern, i + 1, next_index, spec_append_node(nodes, node))
        }
    }
}

#[via_fn]
proof fn spec_parse_loop_decreases(pattern: Seq<char>, i: int, next_index: int, nodes: Seq<SpecPattern>) {
    if 0 <= i < pattern.len() {
        let c = pattern[i];
        if c == '[' {
            if i + 1 < pattern.len() {
                if pattern[i + 1] == '^' {
                    lemma_scan_group_bounds(pattern, i + 2, Seq::empty());
                } else {
                    lemma_scan_group_bounds(pattern, i + 2, seq![pattern[i + 1]]);
                }
            }
        } else if c == '(' {
            let rest = pattern.subrange(i, pattern.len() as int);
            lemma_split_alternation_facts(rest);
            match spec_split_alternation(rest) {
                Err(_) => {},
                Ok((chunks, consumed)) => {
                    lemma_sum_lens_nonneg(chunks);
                    lemma_max_chunk_len_bound(chunks, 0);
                },
            }
        }
    }
}

/// Parsing each alternative of a group from position `k` on, threading the
/// next free group index from one alternative to the next.
pub open spec fn spec_parse_alts(chunks: Seq<Seq<char>>, k: int, next_index: int) -> Result<
    (Seq<SpecPattern>, int),
    ParseError,
>
    decreases max_chunk_len(chunks, k), 2int, chunks.len() - k,
{
    if k < 0 || k >= chunks.len() {
        Ok((Seq::empty(), next_index))
    } else {
        match spec_parse(chunks[k], next_index) {
            Err(e) => Err(e),
            Ok((node, n2)) => {
                match spec_parse_alts(chunks, k + 1, n2) {
                    Err(e) => Err(e),
                    Ok((rest, n3)) => Ok((seq![node] + rest, n3)),
                }
            },
        }
    }
}

/// Compiling a whole pattern with `next_index` the first free group index:
/// the parse of its tokens, where no node at all is an error, one node is
/// the pattern itself, and several are a sequence. Returns the pattern
/// together with the group index after the last group allocated.
pub open spec fn spec_parse(pattern: Seq<char>, next_index: int) -> Result<
    (SpecPattern, int),
    ParseError,
>
    decreases pattern.len(), 1int, 0int,
{
    match spec_parse_loop(pattern, 0, next_index, Seq::empty()) {
        Err(e) => Err(e),
        Ok((nodes, n2)) => {
            if nodes.len() == 0 {
                Err(ParseError::EmptyPattern)
            } else if nodes.len() == 1 {
                Ok((nodes[0], n2))
            } else {
                Ok((SpecPattern::Sequence(nodes), n2))
            }
        },
    }
}

/// The views of a run of chunk vectors.
pub open spec fn chunks_view(s: Seq<Vec<char>>) -> Seq<Seq<char>> {
    s.map_values(|v: Vec<char>| v@)
}

/// Parsing the group whose `(` stands at position `i`: the body is split
/// into alternatives, the group takes `next_index` as its own capture index,
/// and each alternative is parsed as a pattern of its own with the group
/// index threaded through, so that sibling and nested groups never collide.
pub open spec fn spec_group_step(pattern: Seq<char>, i: int, next_index: int) -> Result<
    (SpecPattern, int, int),
    ParseError,
> {
    let rest = pattern.subrange(i, pattern.len() as int);
    match spec_split_alternation(rest) {
        Err(e) => Err(e),
        Ok((chunks, consumed)) => {
            match spec_parse_alts(chunks, 0, next_index + 1) {
                Err(e) => Err(e),
                Ok((alternatives, n2)) => Ok(
                    (SpecPattern::Group(alternatives, next_index as nat), i + consumed, n2),
                ),
            }
        },
    }
}

/// The parser: one left-to-right pass over the pattern's characters with a
/// cursor and the next free capture-group index.
pub struct Parser {
    pattern: Vec<char>,
    current_index: usize,
    next_index: usize,
}

impl Parser {
    /// The pattern characters this parser reads.
    pub closed spec fn spec_pattern(self) -> Seq<char> {
        self.pattern@
    }

    /// The cursor: how many pattern characters were consumed so far.
    pub closed spec fn spec_current_index(self) -> int {
        self.current_index as int
    }

    /// The next free capture-group index.
    pub closed spec fn spec_next_index(self) -> int {
        self.next_index as int
    }

    /// The cursor stays inside the pattern, and the group indices that the
    /// rest of the pattern could still allocate fit in `usize`: each group
    /// costs at least two characters.
    pub closed spec fn inv(self) -> bool {
        &&& self.current_index <= self.pattern@.len()
        &&& 2 * (self.next_index as int) + (self.pattern@.len() - self.current_index as int) <= 2
            * (usize::MAX as int)
    }

    /// A parser over `pattern` that will give the first opened group the
    /// index `next_index`. The bound on `next_index` keeps every group index
    /// a `usize`, however many groups the pattern opens.
    pub fn new(pattern: &str, next_index: usize) -> (r: Parser)
        requires
            next_index <= usize::MAX / 2,
        ensures
            r.spec_pattern() == pattern@,
            r.spec_current_index() == 0,
            r.spec_next_index() == next_index,
            r.inv(),
    {
        let chars = chars_of(pattern);
        proof {
            assert(chars@.len() == chars.len());
        }
        Parser { pattern: chars, current_index: 0, next_index }
    }

    /// A parser over an already split pattern, used for the alternatives of
    /// a group.
    fn from_chars(pattern: Vec<char>, next_index: usize) -> (r: Parser)
        requires
            2 * (next_index as int) + pattern@.len() <= 2 * (usize::MAX as int),
        ensures
            r.pattern@ == pattern@,
            r.current_index == 0,
            r.next_index == next_index,
            r.inv(),
    {
        Parser { pattern, current_index: 0, next_index }
    }

    /// Splits the group body at the cursor's `(` into its top-level
    /// alternatives, returning them with the number of characters consumed
    /// up to and including the closing `)`.
    #[verifier::loop_isolation(false)]
    fn split_alternation(&self) -> (r: Result<(Vec<Vec<char>>, usize), ParseError>)
        requires
            self.current_index <= self.pattern@.len(),
        ensures
            (match r {
                Ok((chunks, consumed)) => spec_split_alternation(
                    self.pattern@.subrange(self.current_index as int, self.pattern@.len() as int),
                ) == Ok::<_, ParseError>((chunks_view(chunks@), consumed as int)),
                Err(e) => spec_split_alternation(
                    self.pattern@.subrange(self.current_index as int, self.pattern@.len() as int),
                ) == Err::<(Seq<Seq<char>>, int), ParseError>(e),
            }),
    {
        let i0 = self.current_index;
        let n = self.pattern.len();
        let ghost rest = self.pattern@.subrange(i0 as int, n as int);
        let mut chunks: Vec<Vec<char>> = Vec::new();
        let mut chunk: Vec<char> = Vec::new();
        let mut level: i128 = 0;
        let mut jr: usize = 0;
        proof {
            assert(chunks_view(chunks@) =~= Seq::<Seq<char>>::empty());
            assert(chunk@ =~= Seq::<char>::empty());
        }
        while jr < n - i0
            invariant
                i0 <= n,
                n == self.pattern@.len(),
                jr <= n - i0,
                rest == self.pattern@.subrange(i0 as int, n as int),
                -(jr as int) <= level as int <= jr as int,
                spec_split_alternation(rest) == spec_split(
                    rest,
                    jr as int,
                    level as int,
                    chunk@,
                    chunks_view(chunks@),
                ),
            decreases n - i0 - jr,
        {
            let ghost level0 = level as int;
            let ghost chunk0 = chunk@;
            let ghost chunks0 = chunks_view(chunks@);
            let c = self.pattern[i0 + jr];
            proof {
                assert(rest[jr as int] == c);
            }
            if c == '(' {
                level = level + 1;
                if level == 1 {
                } else {
                    chunk.push(c);
                }
            } else if c == ')' {
                level = level - 1;
                if level == 0 {
                    if chunk.len() == 0 {
                        return Err(ParseError::EmptyAlternation);
                    }
                    let consumed = jr + 1;
                    chunks.push(chunk);
                    proof {
                        assert(chunks_view(chunks@) =~= chunks0.push(chunk0));
                    }
                    return Ok((chunks, consumed));
                } else {
                    chunk.push(c);
                }
            } else if c == '|' {
                if level == 1 {
                    if chunk.len() == 0 {
                        return Err(ParseError::EmptyAlternation);
                    }
                    chunks.push(chunk);
                    chunk = Vec::new();
                    proof {
                        assert(chunks_view(chunks@) =~= chunks0.push(chunk0));
                        assert(chunk@ =~= Seq::<char>::empty());
                    }
                } else {
                    chunk.push(c);
                }
            } else {
                chunk.push(c);
            }
            jr = jr + 1;
        }
        if chunk.len() > 0 || level != 0 {
            Err(ParseError::UnmatchedParenthesis)
        } else {
            Ok((chunks, 0))
        }
    }

    /// Parses the character class whose `[` stands at the cursor, advancing
    /// the cursor past the closing `]` or to the end of the pattern.
    #[verifier::loop_isolation(false)]
    fn parse_character_group(&mut self) -> (r: Result<Pattern, ParseError>)
        requires
            old(self).current_index < old(self).pattern@.len(),
        ensures
            final(self).pattern@ == old(self).pattern@,
            final(self).next_index == old(self).next_index,
            (match r {
                Ok(node) => {
                    &&& spec_char_group(old(self).pattern@, old(self).current_index as int)
                        == Ok::<_, ParseError>((node@, final(self).current_index as int))
                    &&& old(self).current_index < final(self).current_index
                        <= old(self).pattern@.len()
                },
                Err(e) => spec_char_group(old(self).pattern@, old(self).current_index as int)
                    == Err::<(SpecPattern, int), ParseError>(e),
            }),
    {
        let ghost pat = self.pattern@;
        let i = self.current_index;
        let n = self.pattern.len();
        if i + 1 >= n {
            return Err(ParseError::UnexpectedEndOfPattern);
        }
        let first = self.pattern[i + 1];
        let mut chars: Vec<char> = Vec::new();
        let is_positive = first != '^';
        if is_positive {
            chars.push(first);
        }
        let ghost chars0 = chars@;
        proof {
            if is_positive {
                assert(chars@ =~= seq![first]);
            } else {
                assert(chars@ =~= Seq::<char>::empty());
            }
        }
        let mut j: usize = i + 2;
        while j < n
            invariant
                i + 2 <= j <= n,
                n == pat.len(),
                self.pattern@ == pat,
                self.next_index == old(self).next_index,
                spec_scan_group(pat, i + 2 as int, chars0) == spec_scan_group(pat, j as int, chars@),
            decreases n - j,
        {
            let ghost chars_b = chars@;
            let ghost j_b = j as int;
            let c = self.pattern[j];
            j = j + 1;
            if c == ']' {
                self.current_index = j;
                let node = if is_positive {
                    Pattern::PositiveCharacterGroup(chars)
                } else {
                    Pattern::NegativeCharacterGroup(chars)
                };
                proof {
                    assert(spec_scan_group(pat, j_b, chars_b) == (chars_b, j_b + 1));
                }
                return Ok(node);
            }
            chars.push(c);
            proof {
                assert(spec_scan_group(pat, j_b, chars_b) == spec_scan_group(
                    pat,
                    j_b + 1,
                    chars_b.push(c),
                ));
            }
        }
        self.current_index = j;
        let node = if is_positive {
            Pattern::PositiveCharacterGroup(chars)
        } else {
            Pattern::NegativeCharacterGroup(chars)
        };
        Ok(node)
    }

    /// Pushes `next_pattern`, the node parsed right after a group, into
    /// every repetition at the top of one of the group's alternatives, and
    /// through nested groups; returns the rewritten group when anything
    /// took the hint.
    #[verifier::loop_isolation(false)]
    fn parse_group_with_one_or_more(
        &self,
        patterns: &Vec<Pattern>,
        pattern_index: usize,
        next_pattern: &Pattern,
    ) -> (r: Option<Pattern>)
        ensures
            (match r {
                Some(updated) => Some(updated@) == spec_propagate(
                    SpecPattern::Group(pats_view(patterns@, 0), pattern_index as nat),
                    next_pattern@,
                ),
                None => spec_propagate(
                    SpecPattern::Group(pats_view(patterns@, 0), pattern_index as nat),
                    next_pattern@,
                ) is None,
            }),
        decreases patterns@, 0int,
    {
        let ghost alts = pats_view(patterns@, 0);
        proof {
            lemma_pats_view(patterns@, 0);
            assert(pats_view(Seq::<Pattern>::empty(), 0) =~= Seq::<SpecPattern>::empty());
        }
        let mut new_patterns: Vec<Pattern> = Vec::new();
        let mut updated = false;
        let mut k: usize = 0;
        while k < patterns.len()
            invariant
                k <= patterns@.len(),
                alts == pats_view(patterns@, 0),
                alts.len() == patterns@.len(),
                forall|j: int| 0 <= j < patterns@.len() ==> alts[j] == pat_view(patterns@[j]),
                spec_propagate_alts(alts, 0, next_pattern@).0 == pats_view(new_patterns@, 0)
                    + spec_propagate_alts(alts, k as int, next_pattern@).0,
                spec_propagate_alts(alts, 0, next_pattern@).1 == (updated || spec_propagate_alts(
                    alts,
                    k as int,
                    next_pattern@,
                ).1),
            decreases patterns@.len() - k,
        {
            let ghost built = pats_view(new_patterns@, 0);
            let replacement = match &patterns[k] {
                Pattern::OneOrMore { pattern: inner, next_pattern: _ } => Some(
                    Pattern::OneOrMore {
                        pattern: Box::new(clone_pattern(&**inner)),
                        next_pattern: Some(Box::new(clone_pattern(next_pattern))),
                    },
                ),
                Pattern::Group(inner, inner_index) => self.parse_group_with_one_or_more(
                    inner,
                    *inner_index,
                    next_pattern,
                ),
                _ => None,
            };
            proof {
                assert((match replacement {
                    Some(u) => Some(u@) == spec_propagate(alts[k as int], next_pattern@),
                    None => spec_propagate(alts[k as int], next_pattern@) is None,
                }));
            }
            let took: bool;
            let element: Pattern;
            match replacement {
                Some(u) => {
                    took = true;
                    element = u;
                },
                None => {
                    took = false;
                    element = clone_pattern(&patterns[k]);
                },
            }
            let ghost element_ghost = element;
            let ghost before_push = new_patterns@;
            new_patterns.push(element);
            updated = updated || took;
            proof {
                lemma_pats_view_push(before_push, element_ghost);
                assert(built.push(element_ghost@) + spec_propagate_alts(
                    alts,
                    k as int + 1,
                    next_pattern@,
                ).0 =~= built + (seq![element_ghost@] + spec_propagate_alts(
                    alts,
                    k as int + 1,
                    next_pattern@,
                ).0));
            }
            k = k + 1;
        }
        proof {
            assert(spec_propagate_alts(alts, patterns@.len() as int, next_pattern@).0
                =~= Seq::<SpecPattern>::empty());
            assert(spec_propagate_alts(alts, 0, next_pattern@).0 =~= pats_view(new_patterns@, 0));
        }
        if updated {
            Some(Pattern::Group(new_patterns, pattern_index))
        } else {
            None
        }
    }

    /// Appends a freshly parsed node to the nodes built so far: if the node
    /// before it is a repetition, or a group holding one, that repetition
    /// first learns the new node as its `next_pattern` hint.
    fn append_node(&self, patterns: &mut Vec<Pattern>, node: Pattern)
        ensures
            pats_view(final(patterns)@, 0) == spec_append_node(
                pats_view(old(patterns)@, 0),
                node@,
            ),
    {
        let ghost base_view = pats_view(patterns@, 0);
        proof {
            lemma_pats_view(patterns@, 0);
        }
        if patterns.len() > 0 {
            let last_index = patterns.len() - 1;
            let replacement = match &patterns[last_index] {
                Pattern::OneOrMore { pattern: inner, next_pattern: _ } => Some(
                    Pattern::OneOrMore {
                        pattern: Box::new(clone_pattern(&**inner)),
                        next_pattern: Some(Box::new(clone_pattern(&node))),
                    },
                ),
                Pattern::Group(alternatives, group_index) => self.parse_group_with_one_or_more(
                    alternatives,
                    *group_index,
                    &node,
                ),
                _ => None,
            };
            proof {
                assert(base_view.last() == pat_view(patterns@[patterns@.len() - 1]));
                assert((match replacement {
                    Some(u) => Some(u@) == spec_propagate(base_view.last(), node@),
                    None => spec_propagate(base_view.last(), node@) is None,
                }));
            }
            match replacement {
                Some(u) => {
                    let ghost before = patterns@;
                    let ghost u_ghost = u;
                    let _removed = patterns.remove(last_index);
                    patterns.push(u);
                    proof {
                        lemma_pats_view(before, 0);
                        lemma_pats_view(patterns@, 0);
                        assert(pats_view(patterns@, 0) =~= base_view.drop_last().push(u_ghost@));
                    }
                },
                None => {},
            }
        }
        let ghost pre_push = patterns@;
        let ghost node_ghost = node;
        patterns.push(node);
        proof {
            lemma_pats_view_push(pre_push, node_ghost);
            assert(pats_view(patterns@, 0) == spec_append_node(base_view, node_ghost@));
        }
    }

    /// Parses the group whose `(` stands at the cursor: splits the body into
    /// alternatives, takes the next free index as the group's own, and
    /// parses each alternative with the index threaded on, advancing the
    /// cursor past the closing `)`.
    #[verifier::loop_isolation(false)]
    fn parse_group(&mut self) -> (r: Result<Pattern, ParseError>)
        requires
            old(self).inv(),
            old(self).current_index < old(self).pattern@.len(),
            old(self).pattern@[old(self).current_index as int] == '(',
        ensures
            final(self).pattern@ == old(self).pattern@,
            (match r {
                Ok(node) => {
                    &&& spec_group_step(
                        old(self).pattern@,
                        old(self).current_index as int,
                        old(self).next_index as int,
                    ) == Ok::<_, ParseError>(
                        (node@, final(self).current_index as int, final(self).next_index as int),
                    )
                    &&& old(self).current_index < final(self).current_index
                        <= old(self).pattern@.len()
                    &&& old(self).next_index <= final(self).next_index
                    &&& 2 * (final(self).next_index - old(self).next_index)
                        <= final(self).current_index - old(self).current_index
                    &&& final(self).inv()
                },
                Err(e) => spec_group_step(
                    old(self).pattern@,
                    old(self).current_index as int,
                    old(self).next_index as int,
                ) == Err::<(SpecPattern, int, int), ParseError>(e),
            }),
        decreases old(self).pattern@.len(), 0int, 0int,
    {
        let ghost pat = self.pattern@;
        let ghost i0 = self.current_index as int;
        let ghost n0 = self.next_index as int;
        let ghost rest = pat.subrange(i0, pat.len() as int);
        let split_result = self.split_alternation();
        let (chunks, consumed) = match split_result {
            Ok(pair) => pair,
            Err(e) => {
                return Err(e);
            },
        };
        let ghost cv = chunks_view(chunks@);
        proof {
            lemma_split_alternation_facts(rest);
            lemma_sum_lens_nonneg(cv);
            assert(cv.subrange(0, cv.len() as int) =~= cv);
        }
        let group_index = self.next_index;
        self.next_index = self.next_index + 1;
        let mut alt_patterns: Vec<Pattern> = Vec::new();
        let mut k: usize = 0;
        proof {
            assert(pats_view(alt_patterns@, 0) =~= Seq::<SpecPattern>::empty());
        }
        while k < chunks.len()
            invariant
                k <= chunks@.len(),
                cv == chunks_view(chunks@),
                cv.len() == chunks@.len(),
                self.pattern@ == pat,
                self.current_index as int == i0,
                n0 + 1 <= self.next_index as int,
                2 * (self.next_index as int) + sum_lens(cv.subrange(k as int, cv.len() as int))
                    <= 2 * n0 + consumed as int,
                (match spec_parse_alts(cv, k as int, self.next_index as int) {
                    Ok((rest_nodes, nf)) => spec_parse_alts(cv, 0, n0 + 1) == Ok::<
                        _,
                        ParseError,
                    >((pats_view(alt_patterns@, 0) + rest_nodes, nf)),
                    Err(e) => spec_parse_alts(cv, 0, n0 + 1) == Err::<
                        (Seq<SpecPattern>, int),
                        ParseError,
                    >(e),
                }),
            decreases chunks@.len() - k,
        {
            proof {
                lemma_sum_lens_front(cv.subrange(k as int, cv.len() as int));
                assert(cv.subrange(k as int, cv.len() as int)[0] == cv[k as int]);
                assert(cv.subrange(k as int, cv.len() as int).drop_first() =~= cv.subrange(
                    k as int + 1,
                    cv.len() as int,
                ));
                lemma_sum_lens_nonneg(cv.subrange(k as int + 1, cv.len() as int));
                assert(cv[k as int] == chunks@[k as int]@);
            }
            let chunk_copy = copy_chars(&chunks[k]);
            let mut sub_parser = Parser::from_chars(chunk_copy, self.next_index);
            let ghost nk = self.next_index as int;
            let sub_result = sub_parser.parse();
            match sub_result {
                Err(e) => {
                    return Err(e);
                },
                Ok(node) => {
                    let ghost alt_before = alt_patterns@;
                    let ghost node_ghost = node;
                    alt_patterns.push(node);
                    self.next_index = sub_parser.next_index;
                    proof {
                        lemma_pats_view_push(alt_before, node_ghost);
                        match spec_parse_alts(cv, k as int + 1, self.next_index as int) {
                            Ok((rest_nodes, nf)) => {
                                assert(pats_view(alt_before, 0).push(node_ghost@) + rest_nodes
                                    =~= pats_view(alt_before, 0) + (seq![node_ghost@]
                                    + rest_nodes));
                            },
                            Err(_) => {},
                        }
                    }
                },
            }
            k = k + 1;
        }
        proof {
            assert(cv.subrange(cv.len() as int, cv.len() as int)
                =~= Seq::<Seq<char>>::empty());
            assert(pats_view(alt_patterns@, 0) + Seq::<SpecPattern>::empty() =~= pats_view(
                alt_patterns@,
                0,
            ));
        }
        proof {
            assert(self.current_index + consumed <= self.pattern.len());
        }
        self.current_index = self.current_index + consumed;
        Ok(Pattern::Group(alt_patterns, group_index))
    }

    /// Compiles the whole pattern: one pass over its characters, each token
    /// appended through the back-propagation step; no node at all is an
    /// error, one node is returned alone, and several become a sequence.
    #[verifier::loop_isolation(false)]
    #[verifier::rlimit(100)]
    pub fn parse(&mut self) -> (r: Result<Pattern, ParseError>)
        requires
            old(self).inv(),
            old(self).spec_current_index() == 0,
        ensures
            (match r {
                Ok(node) => {
                    &&& spec_parse(old(self).spec_pattern(), old(self).spec_next_index())
                        == Ok::<_, ParseError>((node@, final(self).spec_next_index()))
                    &&& old(self).spec_next_index() <= final(self).spec_next_index()
                    &&& 2 * (final(self).spec_next_index() - old(self).spec_next_index())
                        <= old(self).spec_pattern().len()
                },
                Err(e) => spec_parse(old(self).spec_pattern(), old(self).spec_next_index())
                    == Err::<(SpecPattern, int), ParseError>(e),
            }),
        decreases old(self).spec_pattern().len(), 1int, 0int,
    {
        let ghost pat = self.pattern@;
        let ghost n0 = self.next_index as int;
        let mut patterns: Vec<Pattern> = Vec::new();
        proof {
            assert(pats_view(patterns@, 0) =~= Seq::<SpecPattern>::empty());
        }
        while self.current_index < self.pattern.len()
            invariant
                self.pattern@ == pat,
                self.current_index <= self.pattern.len(),
                2 * (self.next_index as int) + (pat.len() - self.current_index as int) <= 2 * (
                usize::MAX as int),
                n0 <= self.next_index as int,
                2 * (self.next_index as int - n0) <= self.current_index as int,
                spec_parse_loop(pat, 0, n0, Seq::empty()) == spec_parse_loop(
                    pat,
                    self.current_index as int,
                    self.next_index as int,
                    pats_view(patterns@, 0),
                ),
            decreases pat.len() - self.current_index as int,
        {
            let ghost i_b = self.current_index as int;
            let ghost n_b = self.next_index as int;
            let ghost nv_b = pats_view(patterns@, 0);
            let c = self.pattern[self.current_index];
            let node: Pattern = if c == '\\' {
                let i = self.current_index;
                if i + 1 >= self.pattern.len() {
                    return Err(ParseError::UnexpectedEndOfPattern);
                }
                let e = self.pattern[i + 1];
                self.current_index = i + 2;
                let nd: Pattern = if e == 'd' {
                    Pattern::Digit
                } else if e == 'w' {
                    Pattern::Alphanumeric
                } else if e == '\\' || e == '+' || e == '?' || e == '.' || e == '[' || e == '(' {
                    Pattern::Literal(e)
                } else {
                    let v = e as u32;
                    if v >= 48 && v <= 57 {
                        let reference = (v - 48) as usize;
                        if reference >= self.next_index {
                            return Err(ParseError::InvalidBackreference);
                        }
                        Pattern::GroupReference(reference)
                    } else {
                        return Err(ParseError::InvalidEscape);
                    }
                };
                proof {
                    if e == '\\' || e == '+' || e == '?' || e == '.' || e == '[' || e == '(' {
                        lemma_pat_view_literal(e);
                    }
                    assert(spec_escape_step(pat, i_b, n_b) == Ok::<_, ParseError>((nd@, i_b + 2)));
                }
                nd
            } else if c == '[' {
                match self.parse_character_group() {
                    Err(e) => {
                        return Err(e);
                    },
                    Ok(group_node) => group_node,
                }
            } else if c == '(' {
                match self.parse_group() {
                    Err(e) => {
                        proof {
                            let rest2 = pat.subrange(i_b, pat.len() as int);
                            match spec_split_alternation(rest2) {
                                Err(e2) => {
                                    assert(spec_parse_loop(pat, i_b, n_b, nv_b) == Err::<
                                        (Seq<SpecPattern>, int),
                                        ParseError,
                                    >(e));
                                },
                                Ok((chunks2, consumed2)) => {
                                    match spec_parse_alts(chunks2, 0, n_b + 1) {
                                        Err(e2) => {
                                            assert(spec_parse_loop(pat, i_b, n_b, nv_b) == Err::<
                                                (Seq<SpecPattern>, int),
                                                ParseError,
                                            >(e));
                                        },
                                        Ok(_) => {
                                            assert(false);
                                        },
                                    }
                                },
                            }
                        }
                        return Err(e);
                    },
                    Ok(group_node) => {
                        proof {
                            let rest2 = pat.subrange(i_b, pat.len() as int);
                            match spec_split_alternation(rest2) {
                                Err(_) => {
                                    assert(false);
                                },
                                Ok((chunks2, consumed2)) => {
                                    match spec_parse_alts(chunks2, 0, n_b + 1) {
                                        Err(_) => {
                                            assert(false);
                                        },
                                        Ok((alts2, nf2)) => {
                                            assert(group_node@ == SpecPattern::Group(
                                                alts2,
                                                n_b as nat,
                                            ));
                                            assert(self.current_index as int == i_b + consumed2);
                                            assert(self.next_index as int == nf2);
                                        },
                                    }
                                },
                            }
                        }
                        group_node
                    },
                }
            } else if c == '+' {
                if patterns.len() == 0 {
                    return Err(ParseError::DanglingQuantifier);
                }
                let ghost before = patterns@;
                let last = patterns.remove(patterns.len() - 1);
                proof {
                    lemma_pats_view(before, 0);
                    lemma_pats_view(patterns@, 0);
                    assert(patterns@ =~= before.drop_last());
                    assert(pats_view(patterns@, 0) =~= nv_b.drop_last());
                    assert(pat_view(last) == nv_b.last());
                }
                self.current_index = self.current_index + 1;
                Pattern::OneOrMore { pattern: Box::new(last), next_pattern: None }
            } else if c == '?' {
                if patterns.len() == 0 {
                    return Err(ParseError::DanglingQuantifier);
                }
                let ghost before = patterns@;
                let last = patterns.remove(patterns.len() - 1);
                proof {
                    lemma_pats_view(before, 0);
                    lemma_pats_view(patterns@, 0);
                    assert(patterns@ =~= before.drop_last());
                    assert(pats_view(patterns@, 0) =~= nv_b.drop_last());
                    assert(pat_view(last) == nv_b.last());
                }
                self.current_index = self.current_index + 1;
                Pattern::ZeroOrOne(Box::new(last))
            } else {
                self.current_index = self.current_index + 1;
                let nd: Pattern = if c == '^' {
                    Pattern::Start
                } else if c == '$' {
                    Pattern::End
                } else if c == '.' {
                    Pattern::Wildcard
                } else {
                    Pattern::Literal(c)
                };
                proof {
                    if c != '^' && c != '$' && c != '.' {
                        lemma_pat_view_literal(c);
                    }
                }
                nd
            };
            let ghost base_view = pats_view(patterns@, 0);
            proof {
                if c == '+' {
                    assert(base_view == nv_b.drop_last());
                } else if c == '?' {
                    assert(base_view == nv_b.drop_last());
                    assert(node@ == SpecPattern::ZeroOrOne(Box::new(nv_b.last())));
                }
                assert(spec_parse_loop(pat, i_b, n_b, nv_b) == spec_parse_loop(
                    pat,
                    self.current_index as int,
                    self.next_index as int,
                    spec_append_node(base_view, node@),
                ));
            }
            self.append_node(&mut patterns, node);
        }
        let ghost nv_final = pats_view(patterns@, 0);
        proof {
            lemma_pats_view(patterns@, 0);
            assert(spec_parse_loop(pat, 0, n0, Seq::empty()) == Ok::<_, ParseError>(
                (nv_final, self.next_index as int),
            ));
        }
        if patterns.len() == 0 {
            Err(ParseError::EmptyPattern)
        } else if patterns.len() == 1 {
            let node = patterns.remove(0);
            proof {
                assert(pat_view(node) == nv_final[0]);
            }
            Ok(node)
        } else {
            Ok(Pattern::Sequence(patterns))
        }
    }
}

} // verus!
