//! Selecting paths by a list of globs, some of them negated.

use crate::matcher::{match_segments, pattern_matches};
use crate::pattern::{all_well_formed, compile, compile_spec, CompiledRule, Pattern, RuleSpec};
use crate::text::{chars_of, split_chars, split_on, str_texts, texts};
use vstd::prelude::*;

verus! {

/// The components of a path: its pieces between `/`. The empty path has no
/// component.
pub open spec fn components_of(path: Seq<char>) -> Seq<Seq<char>> {
    if path.len() == 0 {
        Seq::empty()
    } else {
        split_on(path, '/')
    }
}

/// The rules that a list of globs compiles to.
pub open spec fn rules_of(patterns: Seq<Seq<char>>) -> Seq<RuleSpec> {
    patterns.map_values(|raw: Seq<char>| compile_spec(raw))
}

/// Whether some rule of the given sign matches the path.
pub open spec fn some_rule_matches(rules: Seq<RuleSpec>, negated: bool, parts: Seq<Seq<char>>) -> bool {
    exists|i: int|
        0 <= i < rules.len() && (#[trigger] rules[i]).is_negation == negated && pattern_matches(
            rules[i].pattern,
            parts,
        )
}

/// Whether the rules select the path: some positive rule matches it and no
/// negated rule does, wherever the rules stand in the list.
pub open spec fn rules_select(rules: Seq<RuleSpec>, parts: Seq<Seq<char>>) -> bool {
    some_rule_matches(rules, false, parts) && !some_rule_matches(rules, true, parts)
}

/// Whether the globs select the path.
pub open spec fn selects_path(patterns: Seq<Seq<char>>, path: Seq<char>) -> bool {
    rules_select(rules_of(patterns), components_of(path))
}

/// Whether the globs select at least one of the paths.
pub open spec fn selects(patterns: Seq<Seq<char>>, paths: Seq<Seq<char>>) -> bool {
    exists|j: int| 0 <= j < paths.len() && selects_path(patterns, #[trigger] paths[j])
}

/// The values of a sequence of compiled rules.
pub open spec fn rule_views(rules: Seq<CompiledRule>) -> Seq<RuleSpec> {
    rules.map_values(|rule: CompiledRule| rule@)
}

/// Every rule of the sequence has well-formed segments.
pub open spec fn all_rules_well_formed(rules: Seq<RuleSpec>) -> bool {
    forall|i: int| 0 <= i < rules.len() ==> all_well_formed((#[trigger] rules[i]).pattern)
}

impl Pattern {
    /// Matches the whole pattern against the whole path.
    pub fn matches(&self, path_parts: &[Vec<char>]) -> (matched: bool)
        requires
            all_well_formed(self@),
        ensures
            matched == pattern_matches(self@, texts(path_parts@)),
    {
        assert(self@.skip(0) == self@);
        assert(texts(path_parts@).skip(0) == texts(path_parts@));
        match_segments(self.segments.as_slice(), path_parts, 0, 0)
    }
}

/// Cuts a path into its components.
pub fn split_path(path: &str) -> (parts: Vec<Vec<char>>)
    ensures
        texts(parts@) == components_of(path@),
{
    let text = chars_of(path);
    if text.len() == 0 {
        let parts: Vec<Vec<char>> = Vec::new();
        assert(texts(parts@) == Seq::<Seq<char>>::empty());
        parts
    } else {
        split_chars(text.as_slice(), '/')
    }
}

/// Compiles every glob of the list, in order.
pub fn compile_all(patterns: &[&str]) -> (rules: Vec<CompiledRule>)
    ensures
        rule_views(rules@) == rules_of(str_texts(patterns@)),
        all_rules_well_formed(rule_views(rules@)),
{
    let mut rules: Vec<CompiledRule> = Vec::new();
    let mut i: usize = 0;
    while i < patterns.len()
        invariant
            i <= patterns.len(),
            rules@.len() == i,
            forall|j: int| 0 <= j < i ==> (#[trigger] rules@[j])@ == compile_spec(patterns@[j]@),
            forall|j: int| 0 <= j < i ==> all_well_formed((#[trigger] rules@[j])@.pattern),
        decreases patterns.len() - i,
    {
        let rule = compile(patterns[i]);
        rules.push(rule);
        i += 1;
    }
    assert(rule_views(rules@) == rules_of(str_texts(patterns@)));
    rules
}

/// Whether some rule of the given sign matches the path.
pub fn any_match(rules: &[CompiledRule], negated: bool, path_parts: &[Vec<char>]) -> (matched: bool)
    requires
        all_rules_well_formed(rule_views(rules@)),
    ensures
        matched == some_rule_matches(rule_views(rules@), negated, texts(path_parts@)),
{
    let mut i: usize = 0;
    while i < rules.len()
        invariant
            i <= rules.len(),
            all_rules_well_formed(rule_views(rules@)),
            forall|j: int|
                0 <= j < i ==> !((#[trigger] rule_views(rules@)[j]).is_negation == negated
                    && pattern_matches(rule_views(rules@)[j].pattern, texts(path_parts@))),
        decreases rules.len() - i,
    {
        assert(rule_views(rules@)[i as int] == rules@[i as int]@);
        if rules[i].is_negation == negated && rules[i].pattern.matches(path_parts) {
            return true;
        }
        i += 1;
    }
    false
}

/// Whether the rules select the path: some positive rule matches it and no
/// negated one.
pub fn is_selected(rules: &[CompiledRule], path_parts: &[Vec<char>]) -> (selected: bool)
    requires
        all_rules_well_formed(rule_views(rules@)),
    ensures
        selected == rules_select(rule_views(rules@), texts(path_parts@)),
{
    any_match(rules, false, path_parts) && !any_match(rules, true, path_parts)
}

/// Whether the globs select at least one of the paths.
///
/// A path is selected when some glob without a leading `!` matches it and no
/// glob with one does. Without globs, or without paths, nothing is selected.
pub fn match_pattern(patterns: &[&str], paths: &[&str]) -> (selected: bool)
    ensures
        selected == selects(str_texts(patterns@), str_texts(paths@)),
        patterns@.len() == 0 || paths@.len() == 0 ==> !selected,
{
    if patterns.is_empty() || paths.is_empty() {
        return false;
    }
    let rules = compile_all(patterns);
    let mut j: usize = 0;
    while j < paths.len()
        invariant
            j <= paths.len(),
            rule_views(rules@) == rules_of(str_texts(patterns@)),
            all_rules_well_formed(rule_views(rules@)),
            forall|k: int|
                0 <= k < j ==> !selects_path(
                    str_texts(patterns@),
                    #[trigger] str_texts(paths@)[k],
                ),
        decreases paths.len() - j,
    {
        let parts = split_path(paths[j]);
        assert(str_texts(paths@)[j as int] == paths@[j as int]@);
        if is_selected(rules.as_slice(), parts.as_slice()) {
            return true;
        }
        j += 1;
    }
    false
}

/// Whether the glob matches the path: the selection by that one glob of that
/// one path.
pub fn is_match(pattern: &str, path: &str) -> (matched: bool)
    ensures
        matched == selects(seq![pattern@], seq![path@]),
{
    let patterns = [pattern];
    let paths = [path];
    assert(str_texts(patterns@) == seq![pattern@]);
    assert(str_texts(paths@) == seq![path@]);
    match_pattern(&patterns, &paths)
}

} // verus!
