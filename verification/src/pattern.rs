//! Compiled patterns: one segment for each `/`-delimited component of a glob.

use crate::text::{chars_of, find_first, find_last, split_chars, split_on, texts};
use vstd::prelude::*;
use vstd::slice::slice_to_vec;

verus! {

/// One component of a compiled pattern.
#[derive(Debug, PartialEq, Eq)]
pub enum Segment {
    /// A component without wildcards: matches a path component equal to it.
    Literal(Vec<char>),
    /// A component with `*` in it: matches one path component by prefix and
    /// suffix, never across a `/`.
    Star(Vec<char>),
    /// The component `**`: matches any number of whole path components,
    /// none included.
    DoubleStar,
    /// A component `**` followed by a suffix: matches up to and including a
    /// later path component that ends with the suffix.
    DoubleStarWithSuffix(Vec<char>),
    /// A component whose character before `?` may be absent: the component
    /// without that character and without the `?`, the character, and the
    /// index at which it stood.
    Optional(Vec<char>, char, usize),
}

/// A compiled glob: its segments, in the order of its components.
#[derive(Debug, PartialEq, Eq)]
pub struct Pattern {
    pub segments: Vec<Segment>,
}

/// A compiled pattern with its sign: a glob that began with `!` excludes the
/// paths that it matches.
#[derive(Debug, PartialEq, Eq)]
pub struct CompiledRule {
    pub pattern: Pattern,
    pub is_negation: bool,
}

/// The mathematical value of a [`Segment`].
pub enum SegmentSpec {
    Literal(Seq<char>),
    Star(Seq<char>),
    DoubleStar,
    DoubleStarWithSuffix(Seq<char>),
    Optional(Seq<char>, char, int),
}

/// The mathematical value of a [`CompiledRule`].
pub struct RuleSpec {
    pub pattern: Seq<SegmentSpec>,
    pub is_negation: bool,
}

impl SegmentSpec {
    /// The optional character of an `Optional` segment has a place in its
    /// base text.
    pub open spec fn well_formed(self) -> bool {
        match self {
            SegmentSpec::Optional(base, _, at) => 0 <= at <= base.len(),
            _ => true,
        }
    }
}

impl View for Segment {
    type V = SegmentSpec;

    open spec fn view(&self) -> SegmentSpec {
        match *self {
            Segment::Literal(text) => SegmentSpec::Literal(text@),
            Segment::Star(text) => SegmentSpec::Star(text@),
            Segment::DoubleStar => SegmentSpec::DoubleStar,
            Segment::DoubleStarWithSuffix(suffix) => SegmentSpec::DoubleStarWithSuffix(suffix@),
            Segment::Optional(base, ch, at) => SegmentSpec::Optional(base@, ch, at as int),
        }
    }
}

/// The values of a sequence of segments.
pub open spec fn segment_views(segments: Seq<Segment>) -> Seq<SegmentSpec> {
    segments.map_values(|segment: Segment| segment@)
}

/// Every segment of the sequence is well formed.
pub open spec fn all_well_formed(segments: Seq<SegmentSpec>) -> bool {
    forall|i: int| 0 <= i < segments.len() ==> (#[trigger] segments[i]).well_formed()
}

impl View for Pattern {
    type V = Seq<SegmentSpec>;

    open spec fn view(&self) -> Seq<SegmentSpec> {
        segment_views(self.segments@)
    }
}

impl View for CompiledRule {
    type V = RuleSpec;

    open spec fn view(&self) -> RuleSpec {
        RuleSpec { pattern: self.pattern@, is_negation: self.is_negation }
    }
}

impl Clone for Segment {
    fn clone(&self) -> (copy: Self)
        ensures
            copy@ == self@,
    {
        match self {
            Segment::Literal(text) => Segment::Literal(slice_to_vec(text.as_slice())),
            Segment::Star(text) => Segment::Star(slice_to_vec(text.as_slice())),
            Segment::DoubleStar => Segment::DoubleStar,
            Segment::DoubleStarWithSuffix(suffix) => Segment::DoubleStarWithSuffix(
                slice_to_vec(suffix.as_slice()),
            ),
            Segment::Optional(base, ch, at) => Segment::Optional(
                slice_to_vec(base.as_slice()),
                *ch,
                *at,
            ),
        }
    }
}

impl Clone for Pattern {
    fn clone(&self) -> (copy: Self)
        ensures
            copy@ == self@,
    {
        let mut segments: Vec<Segment> = Vec::new();
        let mut i: usize = 0;
        while i < self.segments.len()
            invariant
                i <= self.segments.len(),
                segments@.len() == i,
                forall|j: int| 0 <= j < i ==> (#[trigger] segments@[j])@ == self.segments@[j]@,
            decreases self.segments.len() - i,
        {
            segments.push(self.segments[i].clone());
            i += 1;
        }
        let copy = Pattern { segments };
        assert(copy@ =~= self@);
        copy
    }
}

impl Clone for CompiledRule {
    fn clone(&self) -> (copy: Self)
        ensures
            copy@ == self@,
    {
        CompiledRule { pattern: self.pattern.clone(), is_negation: self.is_negation }
    }
}

/// The component `**`.
pub open spec fn double_star() -> Seq<char> {
    seq!['*', '*']
}

/// The segment that one component of a glob compiles to.
///
/// `**` alone is a double star, and `**` with text behind it a double star
/// with that suffix. Otherwise a component with a `*` whose last `?` is not
/// its first character makes the character before that `?` optional; any
/// other component with a `*` is a star, and one without is a literal.
pub open spec fn segment_of(part: Seq<char>) -> SegmentSpec {
    if part == double_star() {
        SegmentSpec::DoubleStar
    } else if double_star().is_prefix_of(part) {
        SegmentSpec::DoubleStarWithSuffix(part.skip(2))
    } else if part.contains('*') {
        match part.index_of_last('?') {
            Some(mark) => if mark > 0 {
                SegmentSpec::Optional(part.remove(mark).remove(mark - 1), part[mark - 1], mark - 1)
            } else {
                SegmentSpec::Star(part)
            },
            None => SegmentSpec::Star(part),
        }
    } else {
        SegmentSpec::Literal(part)
    }
}

/// The segments of a glob without its sign: one for each piece between `/`.
pub open spec fn pattern_of(text: Seq<char>) -> Seq<SegmentSpec> {
    split_on(text, '/').map_values(|part: Seq<char>| segment_of(part))
}

/// The rule that a glob compiles to: a leading `!` makes it a negation and
/// is not part of its pattern.
pub open spec fn compile_spec(raw: Seq<char>) -> RuleSpec {
    if raw.len() > 0 && raw[0] == '!' {
        RuleSpec { pattern: pattern_of(raw.skip(1)), is_negation: true }
    } else {
        RuleSpec { pattern: pattern_of(raw), is_negation: false }
    }
}

/// Every component compiles to a well-formed segment.
pub proof fn lemma_segment_of_well_formed(part: Seq<char>)
    ensures
        segment_of(part).well_formed(),
{
    part.index_of_last_ensures('?');
}

/// Every glob compiles to well-formed segments.
pub proof fn lemma_pattern_of_well_formed(text: Seq<char>)
    ensures
        all_well_formed(pattern_of(text)),
{
    assert forall|i: int| 0 <= i < pattern_of(text).len() implies (#[trigger] pattern_of(
        text,
    )[i]).well_formed() by {
        lemma_segment_of_well_formed(split_on(text, '/')[i]);
    }
}

/// With its character present an optional segment stands for the component
/// without its last `?`, and with the character absent for the component
/// without that `?` and without the character before it.
pub proof fn lemma_optional_segment_texts(part: Seq<char>)
    requires
        segment_of(part) is Optional,
    ensures
        part.index_of_last('?') matches Some(mark) && mark > 0 && segment_of(part)
            == SegmentSpec::Optional(part.remove(mark).remove(mark - 1), part[mark - 1], mark - 1)
            && part.remove(mark).remove(mark - 1).insert(mark - 1, part[mark - 1]) == part.remove(
            mark,
        ),
{
    part.index_of_last_ensures('?');
    let mark = part.index_of_last('?').unwrap();
    assert(part.remove(mark).remove(mark - 1).insert(mark - 1, part[mark - 1]) =~= part.remove(
        mark,
    ));
}

/// Compiles one component of a glob.
pub fn parse_segment(part: &[char]) -> (segment: Segment)
    ensures
        segment@ == segment_of(part@),
{
    let len: usize = part.len();
    if len >= 2 && part[0] == '*' && part[1] == '*' {
        if len == 2 {
            assert(part@ =~= double_star());
            return Segment::DoubleStar;
        }
        assert(double_star() =~= part@.subrange(0, 2));
        let suffix = slice_to_vec(&part[2..len]);
        return Segment::DoubleStarWithSuffix(suffix);
    }
    assert(!double_star().is_prefix_of(part@)) by {
        if double_star().is_prefix_of(part@) {
            assert(part@.subrange(0, 2)[0] == '*');
            assert(part@.subrange(0, 2)[1] == '*');
        }
    }
    proof {
        part@.index_of_first_ensures('*');
        part@.index_of_last_ensures('?');
    }
    if find_first(part, '*').is_none() {
        return Segment::Literal(slice_to_vec(part));
    }
    match find_last(part, '?') {
        Some(mark) => {
            if mark > 0 {
                let ch = part[mark - 1];
                let mut base = slice_to_vec(part);
                base.remove(mark);
                base.remove(mark - 1);
                Segment::Optional(base, ch, mark - 1)
            } else {
                Segment::Star(slice_to_vec(part))
            }
        },
        None => Segment::Star(slice_to_vec(part)),
    }
}

/// Compiles a glob without its sign, given as characters.
pub fn parse_chars(text: &[char]) -> (parsed: Pattern)
    ensures
        parsed@ == pattern_of(text@),
        all_well_formed(parsed@),
{
    let parts = split_chars(text, '/');
    let mut segments: Vec<Segment> = Vec::new();
    let mut i: usize = 0;
    while i < parts.len()
        invariant
            i <= parts.len(),
            texts(parts@) == split_on(text@, '/'),
            segments@.len() == i,
            forall|j: int| 0 <= j < i ==> (#[trigger] segments@[j])@ == segment_of(parts@[j]@),
        decreases parts.len() - i,
    {
        let segment = parse_segment(parts[i].as_slice());
        segments.push(segment);
        i += 1;
    }
    let parsed = Pattern { segments };
    proof {
        assert forall|j: int| 0 <= j < parsed@.len() implies (#[trigger] parsed@[j]) == pattern_of(
            text@,
        )[j] by {
            assert(texts(parts@)[j] == parts@[j]@);
        }
        assert(parsed@ =~= pattern_of(text@));
        lemma_pattern_of_well_formed(text@);
    }
    parsed
}

/// Compiles a glob without its sign.
pub fn parse_pattern(pattern: &str) -> (parsed: Pattern)
    ensures
        parsed@ == pattern_of(pattern@),
        all_well_formed(parsed@),
{
    let text = chars_of(pattern);
    parse_chars(text.as_slice())
}

/// Compiles a glob: reads its sign, then its pattern.
pub fn compile(raw: &str) -> (rule: CompiledRule)
    ensures
        rule@ == compile_spec(raw@),
        all_well_formed(rule@.pattern),
{
    let text = chars_of(raw);
    if text.len() > 0 && text[0] == '!' {
        let pattern = parse_chars(&text.as_slice()[1..text.len()]);
        assert(text@.subrange(1, text.len() as int) == raw@.skip(1));
        CompiledRule { pattern, is_negation: true }
    } else {
        CompiledRule { pattern: parse_chars(text.as_slice()), is_negation: false }
    }
}

} // verus!
