use dep_tracker::path_resolver::{PathResolver, ResolveError};
use dep_tracker::scheduler::ParserCandidateScheduler;

fn resolver(files: &[&str]) -> PathResolver {
    PathResolver::new(files.iter().map(|s| s.to_string()).collect())
}

#[test]
fn relative_specifier_with_extension() {
    let r = resolver(&["a.ts", "b.ts"]);
    assert_eq!(r.resolve_path("b.ts", "./a"), Ok("a.ts".to_string()));
}

#[test]
fn literal_path_beats_extension() {
    let r = resolver(&["a", "a.ts"]);
    assert_eq!(r.resolve_path("b.ts", "./a"), Ok("a".to_string()));
}

#[test]
fn extension_order_prefers_ts() {
    let r = resolver(&["a.js", "a.ts"]);
    assert_eq!(r.resolve_path("b.ts", "./a"), Ok("a.ts".to_string()));
}

#[test]
fn declaration_file_resolves() {
    let r = resolver(&["a.d.ts", "b.ts"]);
    assert_eq!(r.resolve_path("b.ts", "./a"), Ok("a.d.ts".to_string()));
}

#[test]
fn plain_source_beats_declaration_file() {
    let r = resolver(&["a.d.ts", "a.ts"]);
    assert_eq!(r.resolve_path("b.ts", "./a"), Ok("a.ts".to_string()));
}

#[test]
fn directory_import_resolves_to_index() {
    let r = resolver(&["c/index.jsx"]);
    assert_eq!(r.resolve_path("b.ts", "./c"), Ok("c/index.jsx".to_string()));
}

#[test]
fn parent_directory_navigation() {
    let r = resolver(&["lib/util.ts", "app/main.ts"]);
    assert_eq!(r.resolve_path("app/main.ts", "../lib/util"), Ok("lib/util.ts".to_string()));
}

#[test]
fn dot_segments_collapse() {
    let r = resolver(&["lib/util.ts"]);
    assert_eq!(r.resolve_path("lib/a.ts", "././util"), Ok("lib/util.ts".to_string()));
}

#[test]
fn escaping_the_project_root_is_an_error() {
    let r = resolver(&["a.ts"]);
    assert_eq!(r.resolve_path("a.ts", "../../x"), Err(ResolveError::OutsideRoot));
}

#[test]
fn bare_specifier_does_not_resolve() {
    let r = resolver(&["a.ts"]);
    assert_eq!(r.resolve_path("a.ts", "react"), Err(ResolveError::NotFound));
}

#[test]
fn root_relative_specifier() {
    let r = resolver(&["lib/util.ts", "app/main.ts"]);
    assert_eq!(r.resolve_path("app/main.ts", "lib/util"), Ok("lib/util.ts".to_string()));
}

#[test]
fn same_target_from_two_callers() {
    // the canonical path is a function of the target alone
    let r = resolver(&["lib/util.ts", "app/main.ts", "lib/other.ts"]);
    let from_app = r.resolve_path("app/main.ts", "../lib/util").unwrap();
    let from_lib = r.resolve_path("lib/other.ts", "./util").unwrap();
    assert_eq!(from_app, from_lib);
}

#[test]
fn scheduler_releases_hard_predecessor_first() {
    // b namespace-imports a: a must come out first although listed later
    let candidates = vec![
        ("b.ts".to_string(), vec!["./a".to_string()]),
        ("a.ts".to_string(), vec![]),
    ];
    let files = vec!["a.ts".to_string(), "b.ts".to_string()];
    let resolver = PathResolver::new(files);
    let mut s = ParserCandidateScheduler::new(&candidates, &resolver);
    assert_eq!(s.get_total_remaining_candidate_count(), 2);
    let first = s.get_one_candidate().unwrap();
    assert_eq!(first, "a.ts".to_string());
    s.mark_candidate_as_parsed(&first);
    assert_eq!(s.get_total_remaining_candidate_count(), 1);
    let second = s.get_one_candidate().unwrap();
    assert_eq!(second, "b.ts".to_string());
    s.mark_candidate_as_parsed(&second);
    assert_eq!(s.get_total_remaining_candidate_count(), 0);
    assert!(s.get_one_candidate().is_none());
}

#[test]
fn scheduler_breaks_cycles_lexicographically() {
    // a and b star-re-export each other; the smaller path is released
    let candidates = vec![
        ("b.ts".to_string(), vec!["./a".to_string()]),
        ("a.ts".to_string(), vec!["./b".to_string()]),
    ];
    let files = vec!["a.ts".to_string(), "b.ts".to_string()];
    let resolver = PathResolver::new(files);
    let mut s = ParserCandidateScheduler::new(&candidates, &resolver);
    let first = s.get_one_candidate().unwrap();
    assert_eq!(first, "a.ts".to_string());
    s.mark_candidate_as_parsed(&first);
    let second = s.get_one_candidate().unwrap();
    assert_eq!(second, "b.ts".to_string());
}

#[test]
fn unresolvable_hard_import_does_not_block() {
    let candidates = vec![("a.ts".to_string(), vec!["./missing".to_string()])];
    let files = vec!["a.ts".to_string()];
    let resolver = PathResolver::new(files);
    let s = ParserCandidateScheduler::new(&candidates, &resolver);
    assert_eq!(s.get_one_candidate(), Some("a.ts".to_string()));
}
