use glob_workflow_paths::select::{any_match, compile_all, is_selected, split_path};
use glob_workflow_paths::{is_match, match_pattern};

fn components(path: &str) -> Vec<String> {
    split_path(path).iter().map(|part| part.iter().collect()).collect()
}

#[test]
fn empty_path_has_no_component() {
    assert_eq!(components(""), Vec::<String>::new());
}

#[test]
fn path_components_are_its_pieces_between_separators() {
    assert_eq!(components("README.md"), vec!["README.md"]);
    assert_eq!(components("docs/a/b.md"), vec!["docs", "a", "b.md"]);
    assert_eq!(components("docs/"), vec!["docs", ""]);
    assert_eq!(components("/"), vec!["", ""]);
}

#[test]
fn no_patterns_select_nothing() {
    assert!(!match_pattern(&[], &["README.md"]));
    assert!(!match_pattern(&[], &[""]));
    assert!(!match_pattern(&[], &[]));
}

#[test]
fn no_paths_are_never_selected() {
    assert!(!match_pattern(&["**"], &[]));
    assert!(!match_pattern(&["*", "!a"], &[]));
}

#[test]
fn single_star_selects_one_component() {
    for component in ["a", "README.md", "*", "?", "!x", ".", "é"] {
        assert!(match_pattern(&["*"], &[component]));
    }
    assert!(!match_pattern(&["*"], &["a/b"]));
    assert!(!match_pattern(&["*"], &["a/"]));
    assert!(!match_pattern(&["*"], &["/"]));
}

#[test]
fn single_star_does_not_select_the_empty_path() {
    assert!(!match_pattern(&["*"], &[""]));
}

#[test]
fn double_star_selects_every_path() {
    for path in ["", "a", "a/b", "a/b/c.txt", "/", "a//b", "!", "**"] {
        assert!(match_pattern(&["**"], &[path]));
    }
}

#[test]
fn suffix_glob_selects_paths_that_end_with_the_suffix() {
    assert!(match_pattern(&["**.js"], &["index.js"]));
    assert!(match_pattern(&["**.js"], &["src/js/app.js"]));
    assert!(match_pattern(&["**.js"], &["a.js/b.js"]));
    assert!(!match_pattern(&["**.js"], &["x.js.bak"]));
    assert!(!match_pattern(&["**.js"], &["a.js/b"]));
    assert!(!match_pattern(&["**.js"], &["a.js/"]));
    assert!(!match_pattern(&["**.js"], &[""]));
}

#[test]
fn single_star_behind_a_directory_selects_its_files_only() {
    assert!(match_pattern(&["docs/*"], &["docs/a"]));
    assert!(!match_pattern(&["docs/*"], &["docs/a/b"]));
}

#[test]
fn optional_character_may_be_there_once_or_not() {
    assert!(match_pattern(&["*.jsx?"], &["c.js"]));
    assert!(match_pattern(&["*.jsx?"], &["c.jsx"]));
    assert!(!match_pattern(&["*.jsx?"], &["c.jsxx"]));
}

#[test]
fn negated_glob_excludes_in_either_order() {
    assert!(!match_pattern(&["*.md", "!README.md"], &["README.md"]));
    assert!(match_pattern(&["*.md", "!README.md"], &["guide.md"]));
    assert!(!match_pattern(&["!README.md", "*.md"], &["README.md"]));
    assert!(match_pattern(&["!README.md", "*.md"], &["guide.md"]));
}

#[test]
fn later_positive_glob_does_not_bring_an_excluded_path_back() {
    assert!(!match_pattern(&["*.md", "!README.md", "README.md"], &["README.md"]));
    assert!(!match_pattern(&["README.md", "*.md", "!README.md"], &["README.md"]));
    assert!(!match_pattern(&["!README.md", "README.md", "*.md"], &["README.md"]));
}

#[test]
fn rearranged_globs_select_the_same_paths() {
    let paths = ["README.md", "guide.md", "docs/guide.md", "docs/x.txt", "src/a.js", ""];
    let globs = ["*.md", "!README.md", "docs/**", "!**.txt"];
    let rearranged = ["!**.txt", "docs/**", "!README.md", "*.md"];
    for path in paths {
        assert_eq!(match_pattern(&globs, &[path]), match_pattern(&rearranged, &[path]));
    }
    assert!(match_pattern(&globs, &["guide.md"]));
    assert!(match_pattern(&globs, &["docs/guide.md"]));
    assert!(!match_pattern(&globs, &["docs/x.txt"]));
    assert!(!match_pattern(&globs, &["README.md"]));
    assert!(!match_pattern(&globs, &["src/a.js"]));
}

#[test]
fn negated_globs_alone_select_nothing() {
    assert!(!match_pattern(&["!README.md"], &["README.md"]));
    assert!(!match_pattern(&["!README.md"], &["guide.md"]));
    assert!(!match_pattern(&["!a", "!b"], &["c"]));
}

#[test]
fn one_selected_path_is_enough() {
    assert!(match_pattern(&["*.md", "!README.md"], &["README.md", "guide.md"]));
    assert!(match_pattern(&["*.md", "!README.md"], &["src/a.js", "guide.md", "README.md"]));
    assert!(!match_pattern(&["*.md", "!README.md"], &["README.md", "src/a.js"]));
}

#[test]
fn one_matching_positive_glob_is_enough() {
    assert!(match_pattern(&["*.js", "*.md"], &["guide.md"]));
    assert!(match_pattern(&["*.js", "*.md"], &["a.js"]));
    assert!(!match_pattern(&["*.js", "*.md"], &["a.txt"]));
}

#[test]
fn negated_glob_is_matched_without_its_sign() {
    assert!(!match_pattern(&["**", "!docs/**"], &["docs/a.md"]));
    assert!(!match_pattern(&["**", "!docs/**"], &["docs"]));
    assert!(match_pattern(&["**", "!docs/**"], &["src/a.md"]));
    assert!(match_pattern(&["**", "!**.md"], &["a.txt"]));
    assert!(!match_pattern(&["**", "!**.md"], &["a/b.md"]));
}

#[test]
fn end_to_end_scenarios() {
    assert!(match_pattern(&["docs/**/*.md"], &["docs/a/b.md"]));
    assert!(!match_pattern(&["docs/**/*.md"], &["docs/a/b.txt"]));
    assert!(match_pattern(&["**/docs/**"], &["project/nested/docs/README.md"]));
    assert!(!match_pattern(&["**/migrate-*.sql"], &["db/migrate-v1.sql.backup"]));
}

#[test]
fn empty_glob_selects_nothing() {
    assert!(!match_pattern(&[""], &[""]));
    assert!(!match_pattern(&[""], &["a"]));
}

#[test]
fn is_match_is_selection_of_one_path_by_one_glob() {
    let cases = [
        ("*", "README.md"),
        ("*", "a/b"),
        ("**", ""),
        ("**.js", "x.js.bak"),
        ("docs/*", "docs/a"),
        ("*.jsx?", "c.jsxx"),
        ("!README.md", "README.md"),
        ("", ""),
    ];
    for (glob, path) in cases {
        assert_eq!(is_match(glob, path), match_pattern(&[glob], &[path]));
    }
    assert!(is_match("docs/**/*.md", "docs/a/b.md"));
    assert!(!is_match("docs/*", "docs/a/b"));
    assert!(!is_match("!README.md", "README.md"));
}

#[test]
fn compile_all_keeps_the_order_of_the_globs() {
    let rules = compile_all(&["*.md", "!README.md", "docs/**"]);
    assert_eq!(rules.len(), 3);
    assert_eq!(rules[0], glob_workflow_paths::compile("*.md"));
    assert_eq!(rules[1], glob_workflow_paths::compile("!README.md"));
    assert_eq!(rules[2], glob_workflow_paths::compile("docs/**"));
    assert_eq!(compile_all(&[]).len(), 0);
}

#[test]
fn any_match_looks_at_rules_of_one_sign() {
    let rules = compile_all(&["*.md", "!README.md"]);
    let readme = split_path("README.md");
    let guide = split_path("guide.md");
    assert!(any_match(&rules, false, &readme));
    assert!(any_match(&rules, true, &readme));
    assert!(any_match(&rules, false, &guide));
    assert!(!any_match(&rules, true, &guide));
    assert!(!any_match(&[], false, &guide));
}

#[test]
fn is_selected_needs_a_positive_match_and_no_negated_one() {
    let rules = compile_all(&["!README.md", "*.md"]);
    assert!(is_selected(&rules, &split_path("guide.md")));
    assert!(!is_selected(&rules, &split_path("README.md")));
    assert!(!is_selected(&rules, &split_path("a.txt")));
    assert!(!is_selected(&[], &split_path("a.txt")));
}
