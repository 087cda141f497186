use deps_lsp::document::{
    begin_change_fetch, begin_open_fetch, DependencyDiff, DocumentState, LoadingState,
};
use deps_lsp::strmap::StringMap;
use deps_lsp::ecosystem::Ecosystem;

fn names(v: &[&str]) -> Vec<String> {
    v.iter().map(|s| s.to_string()).collect()
}

#[test]
fn document_test_ecosystem_from_filename() {
    assert_eq!(Ecosystem::from_filename("Cargo.toml"), Some(Ecosystem::Cargo));
    assert_eq!(Ecosystem::from_filename("package.json"), Some(Ecosystem::Npm));
    assert_eq!(Ecosystem::from_filename("pyproject.toml"), Some(Ecosystem::Pypi));
    assert_eq!(Ecosystem::from_filename("unknown.txt"), None);
}

#[test]
fn state_test_ecosystem_from_filename() {
    assert_eq!(Ecosystem::from_filename("Cargo.toml"), Some(Ecosystem::Cargo));
    assert_eq!(Ecosystem::from_filename("package.json"), Some(Ecosystem::Npm));
    assert_eq!(Ecosystem::from_filename("pyproject.toml"), Some(Ecosystem::Pypi));
    assert_eq!(Ecosystem::from_filename("go.mod"), Some(Ecosystem::Go));
    assert_eq!(Ecosystem::from_filename("unknown.txt"), None);
}

#[test]
fn document_test_ecosystem_from_filename_edge_cases() {
    assert_eq!(Ecosystem::from_filename(""), None);
    assert_eq!(Ecosystem::from_filename("cargo.toml"), None);
    assert_eq!(Ecosystem::from_filename("CARGO.TOML"), None);
    assert_eq!(Ecosystem::from_filename("requirements.txt"), None);
}

#[test]
fn state_test_ecosystem_from_filename_edge_cases() {
    assert_eq!(Ecosystem::from_filename(""), None);
    assert_eq!(Ecosystem::from_filename("cargo.toml"), None);
    assert_eq!(Ecosystem::from_filename("CARGO.TOML"), None);
    assert_eq!(Ecosystem::from_filename("requirements.txt"), None);
}

#[test]
fn ecosystem_from_uri_path() {
    assert_eq!(Ecosystem::from_uri("/path/to/Cargo.toml"), Some(Ecosystem::Cargo));
    assert_eq!(Ecosystem::from_uri("/path/to/package.json"), Some(Ecosystem::Npm));
    assert_eq!(Ecosystem::from_uri("/path/to/pyproject.toml"), Some(Ecosystem::Pypi));
    assert_eq!(Ecosystem::from_uri("/path/to/go.mod"), Some(Ecosystem::Go));
    assert_eq!(Ecosystem::from_uri("/path/to/README.md"), None);
    assert_eq!(Ecosystem::from_uri("Cargo.toml"), Some(Ecosystem::Cargo));
    assert_eq!(Ecosystem::from_uri("/path/Cargo.toml/"), None);
}

#[test]
fn ecosystem_ids_round_trip() {
    for e in [Ecosystem::Cargo, Ecosystem::Npm, Ecosystem::Pypi, Ecosystem::Go] {
        assert_eq!(Ecosystem::from_id(e.id()), e);
    }
    assert_eq!(Ecosystem::from_id("other"), Ecosystem::Cargo);
}

#[test]
fn test_dependency_diff_detects_additions() {
    let old = names(&["serde", "tokio"]);
    let new = names(&["serde", "tokio", "anyhow"]);

    let diff = DependencyDiff::compute(&old, &new);

    assert_eq!(diff.added.len(), 1);
    assert!(diff.added.contains(&"anyhow".to_string()));
    assert!(diff.removed.is_empty());
    assert!(diff.needs_fetch());
}

#[test]
fn test_dependency_diff_detects_removals() {
    let old = names(&["serde", "tokio", "anyhow"]);
    let new = names(&["serde", "tokio"]);

    let diff = DependencyDiff::compute(&old, &new);

    assert!(diff.added.is_empty());
    assert_eq!(diff.removed.len(), 1);
    assert!(diff.removed.contains(&"anyhow".to_string()));
    assert!(!diff.needs_fetch());
}

#[test]
fn test_dependency_diff_no_changes() {
    let old = names(&["serde", "tokio"]);
    let new = names(&["serde", "tokio"]);

    let diff = DependencyDiff::compute(&old, &new);

    assert!(diff.added.is_empty());
    assert!(diff.removed.is_empty());
    assert!(!diff.needs_fetch());
}

#[test]
fn test_dependency_diff_empty_to_new() {
    let old: Vec<String> = Vec::new();
    let new = names(&["serde", "tokio"]);

    let diff = DependencyDiff::compute(&old, &new);

    assert_eq!(diff.added.len(), 2);
    assert!(diff.removed.is_empty());
    assert!(diff.needs_fetch());
}

#[test]
fn loading_state_transitions() {
    let mut doc = DocumentState::new_without_parse_result("cargo", "[dependencies]".into(), 5);
    assert_eq!(doc.loading_state, LoadingState::Idle);
    assert_eq!(doc.loading_duration(10), None);
    doc.set_loading(10);
    assert_eq!(doc.loading_state, LoadingState::Loading);
    assert_eq!(doc.loading_duration(25), Some(15));
    assert_eq!(doc.loading_duration(3), Some(0));
    doc.set_loading(20);
    assert_eq!(doc.loading_started_at, Some(20));
    doc.set_failed();
    assert_eq!(doc.loading_state, LoadingState::Failed);
    assert!(doc.loading_started_at.is_none());
    doc.set_loading(30);
    doc.set_loaded();
    doc.set_loaded();
    assert_eq!(doc.loading_state, LoadingState::Loaded);
    assert!(doc.loading_duration(40).is_none());
    assert_eq!(LoadingState::default(), LoadingState::Idle);
}

fn dep_named(name: &str) -> deps_lsp::types::Dependency {
    let r = deps_lsp::types::TextRange::new(
        deps_lsp::types::Position::new(0, 0),
        deps_lsp::types::Position::new(0, 1),
    );
    deps_lsp::types::Dependency {
        name: name.to_string(),
        name_range: r,
        version_req: None,
        version_range: None,
        is_registry: true,
    }
}

#[test]
fn test_preserve_cache_on_parse_failure() {
    let content1 = "[dependencies]\nserde = \"1.0\"\n".to_string();
    let mut doc1 = DocumentState::new_from_parse_result("cargo", content1, vec![dep_named("serde")], 0);
    let mut cached = deps_lsp::strmap::StringMap::new();
    cached.insert("serde".to_string(), "1.0.210".to_string());
    doc1.update_cached_versions(cached);
    let content2 = "[dependencies\nserde = \"1.0\"\n".to_string();
    let (doc2, added) =
        deps_lsp::document::prepare_document_change(Some(&doc1), "cargo", content2.clone(), None, 1);
    assert_eq!(doc2.content, content2);
    assert!(doc2.parse_result().is_none());
    assert!(added.is_empty());
    assert_eq!(doc2.cached_versions.len(), 1);
    assert_eq!(doc2.cached_versions.get("serde"), Some("1.0.210".to_string()));
}

#[test]
fn test_cache_pruned_on_dependency_removal() {
    let mut doc1 = DocumentState::new_from_parse_result(
        "cargo",
        "a".into(),
        vec![dep_named("serde"), dep_named("tokio")],
        0,
    );
    let mut cached = deps_lsp::strmap::StringMap::new();
    cached.insert("serde".to_string(), "1.0.210".to_string());
    cached.insert("tokio".to_string(), "1.40.0".to_string());
    doc1.update_cached_versions(cached);
    let (doc2, added) = deps_lsp::document::prepare_document_change(
        Some(&doc1),
        "cargo",
        "b".into(),
        Some(vec![dep_named("serde"), dep_named("anyhow"), dep_named("anyhow")]),
        1,
    );
    assert_eq!(added, vec!["anyhow".to_string()]);
    assert_eq!(doc2.cached_versions.len(), 1);
    assert!(doc2.cached_versions.get("tokio").is_none());
}

#[test]
fn fetched_versions_keep_the_last_version_of_each_name() {
    let results = vec![
        ("package-fast".to_string(), Some("1.0.0".to_string())),
        ("package-slow".to_string(), None),
        ("package-error".to_string(), None),
        ("twice".to_string(), Some("1".to_string())),
        ("twice".to_string(), Some("2".to_string())),
        ("twice".to_string(), None),
    ];
    let m = deps_lsp::document::collect_fetched(results);
    assert_eq!(m.len(), 2);
    assert_eq!(m.get("package-fast"), Some("1.0.0".to_string()));
    assert_eq!(m.get("twice"), Some("2".to_string()));
    assert!(m.get("package-slow").is_none());
}

#[test]
fn dependency_diff_lists_each_name_once() {
    let old = names(&["serde"]);
    let new = names(&["serde", "tokio", "tokio"]);
    let diff = DependencyDiff::compute(&old, &new);
    assert_eq!(diff.added, names(&["tokio"]));
    let diff = DependencyDiff::compute(&new, &old);
    assert_eq!(diff.removed, names(&["tokio"]));
}

#[test]
fn opening_starts_the_fetch_only_for_parsed_content() {
    let mut unparsed = DocumentState::new_without_parse_result("npm", "{".into(), 0);
    assert!(begin_open_fetch(&mut unparsed, StringMap::new(), 7).is_none());
    assert_eq!(unparsed.loading_state, LoadingState::Idle);

    let mut doc = DocumentState::new_from_parse_result(
        "npm",
        "x".into(),
        vec![dep_named("react"), dep_named("lodash")],
        0,
    );
    let mut resolved = StringMap::new();
    resolved.insert("react".to_string(), "18.2.0".to_string());
    let fetch = begin_open_fetch(&mut doc, resolved, 7);
    assert_eq!(fetch, Some(names(&["react", "lodash"])));
    assert_eq!(doc.loading_state, LoadingState::Loading);
    assert_eq!(doc.loading_started_at, Some(7));
    assert_eq!(doc.cached_versions.get("react"), Some("18.2.0".to_string()));
    assert_eq!(doc.resolved_versions.get("react"), Some("18.2.0".to_string()));
}

#[test]
fn a_change_without_new_dependencies_needs_no_fetch() {
    let mut doc = DocumentState::new_from_parse_result("npm", "x".into(), vec![dep_named("react")], 0);
    let mut cached = StringMap::new();
    cached.insert("react".to_string(), "18.3.1".to_string());
    cached.insert("vue".to_string(), "3.4.0".to_string());
    doc.update_cached_versions(cached);
    let mut resolved = StringMap::new();
    resolved.insert("react".to_string(), "18.2.0".to_string());
    assert!(!begin_change_fetch(&mut doc, resolved, &Vec::new(), 3));
    assert_eq!(doc.loading_state, LoadingState::Loaded);
    assert_eq!(doc.cached_versions.get("react"), Some("18.2.0".to_string()));
    assert_eq!(doc.cached_versions.get("vue"), Some("3.4.0".to_string()));

    assert!(begin_change_fetch(&mut doc, StringMap::new(), &names(&["lodash"]), 4));
    assert_eq!(doc.loading_state, LoadingState::Loading);
    assert_eq!(doc.loading_started_at, Some(4));
}
