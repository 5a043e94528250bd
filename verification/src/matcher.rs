//! Matching a compiled pattern against the components of a path.

use crate::pattern::{all_well_formed, segment_views, Segment, SegmentSpec};
use crate::text::{ends_with, find_first, find_last, same_text, starts_with, texts};
use vstd::prelude::*;
use vstd::slice::slice_to_vec;

verus! {

/// Whether `text` matches the single-component glob `pattern`.
///
/// Without a `*` the two are equal. With one `*`, `text` begins with what
/// stands before the star and ends with what stands after it, the two ends
/// not overlapping. A pattern with more than one `*` matches every text.
pub open spec fn star_matches(pattern: Seq<char>, text: Seq<char>) -> bool {
    match pattern.index_of_first('*') {
        None => text == pattern,
        Some(at) => if pattern.index_of_last('*') == Some(at) {
            let prefix = pattern.subrange(0, at);
            let suffix = pattern.subrange(at + 1, pattern.len() as int);
            &&& prefix.is_prefix_of(text)
            &&& suffix.is_suffix_of(text)
            &&& text.len() >= prefix.len() + suffix.len()
        } else {
            true
        },
    }
}

/// Whether the segments match the path components, using all of both.
///
/// A literal, a star or an optional segment takes the first component. A
/// `**` takes any number of leading components, none included. A `**` with a
/// suffix takes the components up to and including one that ends with the
/// suffix. What is left of the path must match what is left of the pattern.
pub open spec fn pattern_matches(segments: Seq<SegmentSpec>, parts: Seq<Seq<char>>) -> bool
    decreases segments.len(),
{
    if segments.len() == 0 {
        parts.len() == 0
    } else {
        let rest = segments.drop_first();
        match segments[0] {
            SegmentSpec::Literal(text) => {
                &&& parts.len() > 0
                &&& parts[0] == text
                &&& pattern_matches(rest, parts.drop_first())
            },
            SegmentSpec::Star(pattern) => {
                &&& parts.len() > 0
                &&& star_matches(pattern, parts[0])
                &&& pattern_matches(rest, parts.drop_first())
            },
            SegmentSpec::DoubleStar => exists|taken: int|
                0 <= taken <= parts.len() && pattern_matches(rest, #[trigger] parts.skip(taken)),
            SegmentSpec::DoubleStarWithSuffix(suffix) => exists|at: int|
                0 <= at < parts.len() && suffix.is_suffix_of(#[trigger] parts[at])
                    && pattern_matches(rest, parts.skip(at + 1)),
            SegmentSpec::Optional(base, ch, at) => {
                &&& parts.len() > 0
                &&& (star_matches(base.insert(at, ch), parts[0])
                    || star_matches(base, parts[0]))
                &&& pattern_matches(rest, parts.drop_first())
            },
        }
    }
}

/// Matches one path component against a single-component glob.
pub fn matches_star_pattern(pattern: &[char], component: &[char]) -> (matched: bool)
    ensures
        matched == star_matches(pattern@, component@),
{
    match find_first(pattern, '*') {
        None => same_text(component, pattern),
        Some(at) => {
            let last = find_last(pattern, '*');
            proof {
                pattern@.index_of_first_ensures('*');
                pattern@.index_of_last_ensures('*');
            }
            match last {
                Some(last_at) => {
                    if last_at == at {
                        assert(at < pattern.len());
                        let prefix = &pattern[0..at];
                        let suffix = &pattern[at + 1..pattern.len()];
                        starts_with(component, prefix) && ends_with(component, suffix)
                            && component.len() >= prefix.len() + suffix.len()
                    } else {
                        true
                    }
                },
                None => true,
            }
        },
    }
}

/// Whether a table of failures is as large as the pattern and the path ask,
/// and marks only pairs of cursors from which the match fails.
pub open spec fn failures_sound(
    failed: Seq<Vec<bool>>,
    segments: Seq<SegmentSpec>,
    parts: Seq<Seq<char>>,
) -> bool {
    &&& failed.len() == segments.len()
    &&& forall|s: int| 0 <= s < failed.len() ==> (#[trigger] failed[s])@.len() == parts.len()
    &&& forall|s: int, p: int|
        0 <= s < segments.len() && 0 <= p < parts.len() && #[trigger] failed[s]@[p]
            ==> !pattern_matches(segments.skip(s), parts.skip(p))
}

/// Whether every pair of cursors marked in one table of failures is marked
/// in the other.
pub open spec fn marks_kept(before: Seq<Vec<bool>>, after: Seq<Vec<bool>>) -> bool {
    forall|s: int, p: int|
        0 <= s < before.len() && 0 <= p < before[s]@.len() && #[trigger] before[s]@[p] ==> s
            < after.len() && p < after[s]@.len() && after[s]@[p]
}

/// A table of failures with nothing marked: one row for each segment, one
/// entry in each row for each path component.
pub fn no_failures(rows: usize, width: usize) -> (failed: Vec<Vec<bool>>)
    ensures
        failed@.len() == rows,
        forall|s: int| 0 <= s < rows ==> (#[trigger] failed@[s])@.len() == width,
        forall|s: int, p: int| 0 <= s < rows && 0 <= p < width ==> !#[trigger] failed@[s]@[p],
{
    let mut failed: Vec<Vec<bool>> = Vec::new();
    let mut s: usize = 0;
    while s < rows
        invariant
            s <= rows,
            failed@.len() == s,
            forall|k: int| 0 <= k < s ==> (#[trigger] failed@[k])@.len() == width,
            forall|k: int, p: int| 0 <= k < s && 0 <= p < width ==> !#[trigger] failed@[k]@[p],
        decreases rows - s,
    {
        failed.push(vec![false; width]);
        s += 1;
    }
    failed
}

/// Matches the segments from `seg_idx` on against the path components from
/// `path_idx` on, trying the possible extents of each `**` from the shortest.
///
/// A pair of cursors from which the match has failed is marked in `failed`
/// and not tried again, so that no pair is explored twice. Marks are added,
/// never removed.
pub fn match_remaining(
    segments: &[Segment],
    path_parts: &[Vec<char>],
    seg_idx: usize,
    path_idx: usize,
    failed: &mut Vec<Vec<bool>>,
) -> (matched: bool)
    requires
        seg_idx <= segments.len(),
        path_idx <= path_parts.len(),
        all_well_formed(segment_views(segments@)),
        failures_sound(old(failed)@, segment_views(segments@), texts(path_parts@)),
    ensures
        failures_sound(final(failed)@, segment_views(segments@), texts(path_parts@)),
        marks_kept(old(failed)@, final(failed)@),
        !matched && seg_idx < segments.len() && path_idx < path_parts.len()
            ==> final(failed)@[seg_idx as int]@[path_idx as int],
        matched == pattern_matches(
            segment_views(segments@).skip(seg_idx as int),
            texts(path_parts@).skip(path_idx as int),
        ),
    decreases segments.len() - seg_idx,
{
    let ghost all_segs = segment_views(segments@);
    let ghost all_parts = texts(path_parts@);
    let ghost segs = all_segs.skip(seg_idx as int);
    let ghost parts = all_parts.skip(path_idx as int);
    if seg_idx >= segments.len() {
        return path_idx >= path_parts.len();
    }
    if path_idx < path_parts.len() && failed[seg_idx][path_idx] {
        return false;
    }
    let ghost rest = all_segs.skip(seg_idx + 1);
    assert(segs[0] == segments@[seg_idx as int]@);
    assert(segs[0].well_formed());
    assert(segs.drop_first() == rest);
    if path_idx < path_parts.len() {
        assert(parts[0] == path_parts@[path_idx as int]@);
        assert(parts.drop_first() == all_parts.skip(path_idx + 1));
    }
    let matched = match &segments[seg_idx] {
        Segment::Literal(literal) => {
            if path_idx < path_parts.len() && same_text(
                path_parts[path_idx].as_slice(),
                literal.as_slice(),
            ) {
                match_remaining(segments, path_parts, seg_idx + 1, path_idx + 1, failed)
            } else {
                false
            }
        },
        Segment::Star(pattern) => {
            if path_idx < path_parts.len() && matches_star_pattern(
                pattern.as_slice(),
                path_parts[path_idx].as_slice(),
            ) {
                match_remaining(segments, path_parts, seg_idx + 1, path_idx + 1, failed)
            } else {
                false
            }
        },
        Segment::DoubleStar => {
            let mut found = false;
            let mut next: usize = path_idx;
            loop
                invariant_except_break
                    !found,
                    forall|taken: int|
                        0 <= taken < next - path_idx ==> !pattern_matches(
                            rest,
                            #[trigger] parts.skip(taken),
                        ),
                invariant
                    seg_idx < segments.len(),
                    path_idx <= next <= path_parts.len(),
                    all_well_formed(segment_views(segments@)),
                    all_segs == segment_views(segments@),
                    all_parts == texts(path_parts@),
                    failures_sound(failed@, all_segs, all_parts),
                    marks_kept(old(failed)@, failed@),
                    segs == all_segs.skip(seg_idx as int),
                    rest == segs.drop_first(),
                    rest == all_segs.skip(seg_idx + 1),
                    parts == all_parts.skip(path_idx as int),
                    segs[0] == SegmentSpec::DoubleStar,
                ensures
                    found == pattern_matches(segs, parts),
                decreases path_parts.len() - next,
            {
                assert(parts.skip(next - path_idx) == all_parts.skip(next as int));
                if match_remaining(segments, path_parts, seg_idx + 1, next, failed) {
                    found = true;
                    break;
                }
                if next == path_parts.len() {
                    break;
                }
                next += 1;
            }
            found
        },
        Segment::DoubleStarWithSuffix(suffix) => {
            let mut found = false;
            let mut at: usize = path_idx;
            while at < path_parts.len()
                invariant_except_break
                    !found,
                    forall|k: int|
                        0 <= k < at - path_idx ==> !(suffix@.is_suffix_of(#[trigger] parts[k])
                            && pattern_matches(rest, parts.skip(k + 1))),
                invariant
                    seg_idx < segments.len(),
                    path_idx <= at <= path_parts.len(),
                    all_well_formed(segment_views(segments@)),
                    all_segs == segment_views(segments@),
                    all_parts == texts(path_parts@),
                    failures_sound(failed@, all_segs, all_parts),
                    marks_kept(old(failed)@, failed@),
                    segs == all_segs.skip(seg_idx as int),
                    rest == segs.drop_first(),
                    rest == all_segs.skip(seg_idx + 1),
                    parts == all_parts.skip(path_idx as int),
                    segs[0] == SegmentSpec::DoubleStarWithSuffix(suffix@),
                ensures
                    found == pattern_matches(segs, parts),
                decreases path_parts.len() - at,
            {
                assert(parts[at - path_idx] == path_parts@[at as int]@);
                assert(parts.skip(at - path_idx + 1) == all_parts.skip(at + 1));
                if ends_with(path_parts[at].as_slice(), suffix.as_slice()) {
                    if match_remaining(segments, path_parts, seg_idx + 1, at + 1, failed) {
                        found = true;
                        break;
                    }
                }
                at += 1;
            }
            found
        },
        Segment::Optional(base, ch, at) => {
            if path_idx < path_parts.len() {
                let part = path_parts[path_idx].as_slice();
                let mut with_optional = slice_to_vec(base.as_slice());
                with_optional.insert(*at, *ch);
                if matches_star_pattern(with_optional.as_slice(), part) || matches_star_pattern(
                    base.as_slice(),
                    part,
                ) {
                    match_remaining(segments, path_parts, seg_idx + 1, path_idx + 1, failed)
                } else {
                    false
                }
            } else {
                false
            }
        },
    };
    if !matched && path_idx < path_parts.len() {
        failed[seg_idx][path_idx] = true;
    }
    matched
}

/// Matches the segments from `seg_idx` on against the path components from
/// `path_idx` on.
pub fn match_segments(
    segments: &[Segment],
    path_parts: &[Vec<char>],
    seg_idx: usize,
    path_idx: usize,
) -> (matched: bool)
    requires
        seg_idx <= segments.len(),
        path_idx <= path_parts.len(),
        all_well_formed(segment_views(segments@)),
    ensures
        matched == pattern_matches(
            segment_views(segments@).skip(seg_idx as int),
            texts(path_parts@).skip(path_idx as int),
        ),
{
    let mut failed = no_failures(segments.len(), path_parts.len());
    match_remaining(segments, path_parts, seg_idx, path_idx, &mut failed)
}

} // verus!
