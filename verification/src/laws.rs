//! Laws of selection, proved from the definitions of compilation, matching
//! and selection.

use crate::matcher::{pattern_matches, star_matches};
use crate::pattern::{
    compile_spec, double_star, pattern_of, segment_of, CompiledRule, RuleSpec, SegmentSpec,
};
use crate::select::{components_of, rules_of, selects, selects_path, some_rule_matches};
use crate::text::{
    lemma_first_index_is, lemma_last_index_is, lemma_split_on_last, lemma_split_on_properties,
    lemma_split_without_separator, lemma_suffix_of_last_piece,
};
use vstd::prelude::*;
use vstd::seq_lib::to_multiset_contains;

verus! {

/// A glob without `/` compiles to the one segment of its only component.
pub proof fn lemma_pattern_of_single_component(text: Seq<char>)
    requires
        !text.contains('/'),
    ensures
        pattern_of(text) == seq![segment_of(text)],
{
    lemma_split_without_separator(text, '/');
    assert(pattern_of(text) =~= seq![segment_of(text)]);
}

/// One positive glob selects one path exactly when its pattern matches the
/// components of the path.
pub proof fn lemma_one_positive_glob(raw: Seq<char>, path: Seq<char>)
    requires
        raw.len() == 0 || raw[0] != '!',
    ensures
        selects(seq![raw], seq![path]) == pattern_matches(pattern_of(raw), components_of(path)),
{
    let rules = rules_of(seq![raw]);
    let parts = components_of(path);
    assert(rules =~= seq![compile_spec(raw)]);
    assert(rules[0] == RuleSpec { pattern: pattern_of(raw), is_negation: false });
    if pattern_matches(pattern_of(raw), parts) {
        assert(some_rule_matches(rules, false, parts));
        assert(selects_path(seq![raw], seq![path][0]));
    }
    if selects(seq![raw], seq![path]) {
        let j = choose|j: int| 0 <= j < 1 && selects_path(seq![raw], #[trigger] seq![path][j]);
        assert(seq![path][j] == path);
    }
}

/// A glob with a single star matches the texts made of what stands before
/// the star, anything at all, and what stands after the star.
pub proof fn lemma_one_star_matches_any_filling(
    prefix: Seq<char>,
    suffix: Seq<char>,
    text: Seq<char>,
)
    requires
        !prefix.contains('*'),
        !suffix.contains('*'),
    ensures
        star_matches(prefix + seq!['*'] + suffix, text) <==> exists|filling: Seq<char>|
            text == prefix + filling + suffix,
{
    let pattern = prefix + seq!['*'] + suffix;
    let at = prefix.len() as int;
    assert(pattern[at] == '*');
    assert forall|j: int| 0 <= j < pattern.len() && j != at implies pattern[j] != '*' by {
        if j < at {
            assert(prefix[j] == pattern[j]);
        } else {
            assert(suffix[j - at - 1] == pattern[j]);
        }
    }
    lemma_first_index_is(pattern, '*', at);
    lemma_last_index_is(pattern, '*', at);
    assert(pattern.subrange(0, at) =~= prefix);
    assert(pattern.subrange(at + 1, pattern.len() as int) =~= suffix);
    if star_matches(pattern, text) {
        let filling = text.subrange(at, text.len() - suffix.len());
        assert(text =~= prefix + filling + suffix);
    }
    if exists|filling: Seq<char>| text == prefix + filling + suffix {
        let filling = choose|filling: Seq<char>| text == prefix + filling + suffix;
        assert(prefix =~= text.subrange(0, at));
        assert(suffix =~= text.subrange(text.len() - suffix.len(), text.len() as int));
    }
}

/// Without globs nothing is selected, and without paths nothing is.
pub proof fn lemma_empty_inputs_select_nothing(patterns: Seq<Seq<char>>, paths: Seq<Seq<char>>)
    ensures
        !selects(Seq::empty(), paths),
        !selects(patterns, Seq::empty()),
{
    assert(rules_of(Seq::empty()).len() == 0);
}

/// The glob `*` selects a path exactly when the path is a single component:
/// not empty and without `/`. A single star never reaches across a
/// separator.
pub proof fn lemma_single_star_selects_single_components(path: Seq<char>)
    ensures
        selects(seq![seq!['*']], seq![path]) <==> path.len() > 0 && !path.contains('/'),
{
    let star = seq!['*'];
    let parts = components_of(path);
    assert(!star.contains('/'));
    lemma_pattern_of_single_component(star);
    lemma_one_positive_glob(star, path);
    assert(!double_star().is_prefix_of(star));
    assert(star[0] == '*');
    star.index_of_last_ensures('?');
    assert(segment_of(star) == SegmentSpec::Star(star));
    let pattern = seq![SegmentSpec::Star(star)];
    assert(pattern.drop_first().len() == 0);
    lemma_split_on_properties(path, '/');
    if parts.len() > 0 {
        lemma_first_index_is(star, '*', 0);
        lemma_last_index_is(star, '*', 0);
        assert(star.subrange(0, 0).is_prefix_of(parts[0]));
        assert(star.subrange(1, 1).is_suffix_of(parts[0]));
        assert(star_matches(star, parts[0]));
        assert(pattern_matches(pattern.drop_first(), parts.drop_first()) <==> parts.drop_first().len()
            == 0);
    }
}

/// Every component without `/`, taken as a path, is selected by the glob
/// `*`, unless it is empty: the empty path has no component for the star to
/// match.
pub proof fn lemma_single_star_selects_component(component: Seq<char>)
    requires
        component.len() > 0,
        !component.contains('/'),
    ensures
        selects(seq![seq!['*']], seq![component]),
{
    lemma_single_star_selects_single_components(component);
}

/// The glob `**` selects every path, the empty one included.
pub proof fn lemma_double_star_selects_every_path(path: Seq<char>)
    ensures
        selects(seq![double_star()], seq![path]),
{
    let parts = components_of(path);
    assert(!double_star().contains('/'));
    lemma_pattern_of_single_component(double_star());
    lemma_one_positive_glob(double_star(), path);
    let pattern = seq![SegmentSpec::DoubleStar];
    assert(pattern.drop_first().len() == 0);
    assert(parts.skip(parts.len() as int).len() == 0);
    assert(pattern_matches(pattern.drop_first(), parts.skip(parts.len() as int)));
}

/// A glob made of `**` and a suffix selects a path exactly when the last
/// component of the path ends with the suffix.
pub proof fn lemma_suffix_glob_selects_by_last_component(suffix: Seq<char>, path: Seq<char>)
    requires
        suffix.len() > 0,
        !suffix.contains('/'),
    ensures
        selects(seq![double_star() + suffix], seq![path]) <==> components_of(path).len() > 0
            && suffix.is_suffix_of(components_of(path).last()),
{
    let raw = double_star() + suffix;
    let parts = components_of(path);
    assert(!raw.contains('/')) by {
        if raw.contains('/') {
            let i = choose|i: int| 0 <= i < raw.len() && raw[i] == '/';
            assert(suffix[i - 2] == '/');
        }
    }
    lemma_pattern_of_single_component(raw);
    assert(raw[0] == '*');
    lemma_one_positive_glob(raw, path);
    assert(double_star().is_prefix_of(raw));
    assert(raw.skip(2) == suffix);
    assert(segment_of(raw) == SegmentSpec::DoubleStarWithSuffix(suffix));
    let pattern = seq![SegmentSpec::DoubleStarWithSuffix(suffix)];
    let rest = pattern.drop_first();
    assert(rest.len() == 0);
    if pattern_matches(pattern, parts) {
        let at = choose|at: int|
            0 <= at < parts.len() && suffix.is_suffix_of(#[trigger] parts[at]) && pattern_matches(
                rest,
                parts.skip(at + 1),
            );
        assert(parts.skip(at + 1).len() == 0);
        assert(at == parts.len() - 1);
    }
    if parts.len() > 0 && suffix.is_suffix_of(parts.last()) {
        let at = parts.len() - 1;
        assert(suffix.is_suffix_of(parts[at]));
        assert(parts.skip(at + 1).len() == 0);
        assert(pattern_matches(rest, parts.skip(at + 1)));
    }
}

/// A glob made of `**` and a suffix selects exactly the paths that end with
/// the suffix: `**.js` selects the paths that end with `.js`.
pub proof fn lemma_suffix_glob_selects_by_ending(suffix: Seq<char>, path: Seq<char>)
    requires
        suffix.len() > 0,
        !suffix.contains('/'),
    ensures
        selects(seq![double_star() + suffix], seq![path]) <==> suffix.is_suffix_of(path),
{
    lemma_suffix_glob_selects_by_last_component(suffix, path);
    if path.len() > 0 {
        lemma_split_on_last(path, '/');
        lemma_suffix_of_last_piece(path, '/', suffix);
    }
}

/// A glob made of `**` and a suffix selects a path exactly when some
/// component of the path ends with the suffix, on every path whose last
/// component ends with the suffix whenever one of its components does. On
/// other paths the glob selects nothing: it is anchored at the last
/// component.
pub proof fn lemma_suffix_glob_selects_by_some_component(suffix: Seq<char>, path: Seq<char>)
    requires
        suffix.len() > 0,
        !suffix.contains('/'),
        (exists|i: int|
            0 <= i < components_of(path).len() && suffix.is_suffix_of(
                #[trigger] components_of(path)[i],
            )) ==> suffix.is_suffix_of(components_of(path).last()),
    ensures
        selects(seq![double_star() + suffix], seq![path]) <==> exists|i: int|
            0 <= i < components_of(path).len() && suffix.is_suffix_of(
                #[trigger] components_of(path)[i],
            ),
{
    lemma_suffix_glob_selects_by_last_component(suffix, path);
    let parts = components_of(path);
    if parts.len() > 0 && suffix.is_suffix_of(parts.last()) {
        assert(suffix.is_suffix_of(parts[parts.len() - 1]));
    }
}

/// Selection depends on which globs are in the list, not on where they
/// stand: two lists with the same members select the same paths.
pub proof fn lemma_selection_depends_on_members(
    first: Seq<Seq<char>>,
    second: Seq<Seq<char>>,
    paths: Seq<Seq<char>>,
)
    requires
        forall|raw: Seq<char>| first.contains(raw) <==> second.contains(raw),
    ensures
        selects(first, paths) == selects(second, paths),
{
    assert forall|j: int| 0 <= j < paths.len() implies selects_path(first, #[trigger] paths[j])
        == selects_path(second, paths[j]) by {
        let parts = components_of(paths[j]);
        lemma_same_members_same_matches(first, second, false, parts);
        lemma_same_members_same_matches(first, second, true, parts);
        lemma_same_members_same_matches(second, first, false, parts);
        lemma_same_members_same_matches(second, first, true, parts);
    }
    if selects(first, paths) {
        let j = choose|j: int| 0 <= j < paths.len() && selects_path(first, #[trigger] paths[j]);
        assert(selects_path(second, paths[j]));
    }
    if selects(second, paths) {
        let j = choose|j: int| 0 <= j < paths.len() && selects_path(second, #[trigger] paths[j]);
        assert(selects_path(first, paths[j]));
    }
}

/// A rule of one list that matches is matched in every list that holds its
/// glob.
proof fn lemma_same_members_same_matches(
    first: Seq<Seq<char>>,
    second: Seq<Seq<char>>,
    negated: bool,
    parts: Seq<Seq<char>>,
)
    requires
        forall|raw: Seq<char>| first.contains(raw) ==> second.contains(raw),
    ensures
        some_rule_matches(rules_of(first), negated, parts) ==> some_rule_matches(
            rules_of(second),
            negated,
            parts,
        ),
{
    let rules = rules_of(first);
    if some_rule_matches(rules, negated, parts) {
        let i = choose|i: int|
            0 <= i < rules.len() && (#[trigger] rules[i]).is_negation == negated && pattern_matches(
                rules[i].pattern,
                parts,
            );
        assert(first.contains(first[i]));
        let k = choose|k: int| 0 <= k < second.len() && second[k] == first[i];
        assert(rules_of(second)[k] == rules[i]);
    }
}

/// Selection does not depend on the order of the globs: a list and any
/// rearrangement of it select the same paths.
pub proof fn lemma_selection_ignores_order(
    first: Seq<Seq<char>>,
    second: Seq<Seq<char>>,
    paths: Seq<Seq<char>>,
)
    requires
        first.to_multiset() == second.to_multiset(),
    ensures
        selects(first, paths) == selects(second, paths),
{
    assert forall|raw: Seq<char>| first.contains(raw) <==> second.contains(raw) by {
        to_multiset_contains(first, raw);
        to_multiset_contains(second, raw);
    }
    lemma_selection_depends_on_members(first, second, paths);
}

/// Two globs select the same paths in either order, whichever of them is
/// negated.
pub proof fn lemma_selection_ignores_order_of_two(
    one: Seq<char>,
    other: Seq<char>,
    paths: Seq<Seq<char>>,
)
    ensures
        selects(seq![one, other], paths) == selects(seq![other, one], paths),
{
    let first = seq![one, other];
    let second = seq![other, one];
    assert forall|raw: Seq<char>| first.contains(raw) <==> second.contains(raw) by {
        if first.contains(raw) {
            let i = choose|i: int| 0 <= i < first.len() && first[i] == raw;
            assert(second[1 - i] == raw);
        }
        if second.contains(raw) {
            let i = choose|i: int| 0 <= i < second.len() && second[i] == raw;
            assert(first[1 - i] == raw);
        }
    }
    lemma_selection_depends_on_members(first, second, paths);
}

/// Compiling a glob twice gives the same rule both times, segment for
/// segment, and the two rules match the same paths.
pub proof fn lemma_compilation_is_repeatable(
    raw: Seq<char>,
    once: CompiledRule,
    again: CompiledRule,
    parts: Seq<Seq<char>>,
)
    requires
        once@ == compile_spec(raw),
        again@ == compile_spec(raw),
    ensures
        once@ == again@,
        once@.pattern.len() == again@.pattern.len(),
        forall|i: int| 0 <= i < once@.pattern.len() ==> once@.pattern[i] == again@.pattern[i],
        pattern_matches(once@.pattern, parts) == pattern_matches(again@.pattern, parts),
{
}

} // verus!
