use deps_lsp::document::UnifiedDependency;
use deps_lsp::handlers::NpmHandlerImpl;
use deps_lsp::npm::{NpmDependency, NpmDependencySection, NpmVersion};
use deps_lsp::pypi::{PypiDependency, PypiDependencySection, PypiDependencySource};
use deps_lsp::config::{InlayHintsConfig, LoadingIndicatorConfig};
use deps_lsp::handlers::{
    affected_documents, cold_start_action, hint_config, hover_target, inlay_hints_enabled,
    package_detail, package_insert_text, size_verdict, too_large_message, ColdStartAction,
    ColdStartLimiter, SizeVerdict,
};
use deps_lsp::strmap::StringMap;
use deps_lsp::types::{position_in_range, Dependency, Position, TextRange};

fn dep(name: &str, line: u32, a: u32, b: u32, v: Option<(u32, u32)>, registry: bool) -> Dependency {
    Dependency {
        name: name.to_string(),
        name_range: TextRange::new(Position::new(line, a), Position::new(line, b)),
        version_req: v.map(|_| "1".to_string()),
        version_range: v.map(|(x, y)| TextRange::new(Position::new(line, x), Position::new(line, y))),
        is_registry: registry,
    }
}

#[test]
fn test_position_in_range() {
    let range = TextRange::new(Position::new(1, 5), Position::new(1, 10));
    assert!(position_in_range(Position::new(1, 5), range));
    assert!(position_in_range(Position::new(1, 7), range));
    assert!(position_in_range(Position::new(1, 10), range));
    assert!(!position_in_range(Position::new(1, 4), range));
    assert!(!position_in_range(Position::new(1, 11), range));
    assert!(!position_in_range(Position::new(0, 5), range));
    assert!(!position_in_range(Position::new(2, 5), range));
}

#[test]
fn test_position_in_multiline_range() {
    let range = TextRange::new(Position::new(1, 5), Position::new(3, 10));
    assert!(position_in_range(Position::new(1, 5), range));
    assert!(position_in_range(Position::new(2, 0), range));
    assert!(position_in_range(Position::new(3, 10), range));
    assert!(!position_in_range(Position::new(1, 4), range));
    assert!(!position_in_range(Position::new(3, 11), range));
}

#[test]
fn hover_finds_name_or_version_with_resolved_version() {
    let deps = vec![
        dep("serde", 1, 0, 5, Some((9, 14)), true),
        dep("local", 2, 0, 5, None, false),
    ];
    let mut resolved = StringMap::new();
    resolved.insert("serde".to_string(), "1.0.200".to_string());
    assert_eq!(
        hover_target(&deps, Position::new(1, 3), &resolved),
        Some((0, Some("1.0.200".to_string())))
    );
    assert_eq!(
        hover_target(&deps, Position::new(1, 10), &resolved),
        Some((0, Some("1.0.200".to_string())))
    );
    assert_eq!(hover_target(&deps, Position::new(1, 7), &resolved), None);
    assert_eq!(hover_target(&deps, Position::new(2, 1), &resolved), None);
    let empty = StringMap::new();
    assert_eq!(hover_target(&deps, Position::new(1, 3), &empty), Some((0, None)));
}

#[test]
fn hint_configuration() {
    let hints = InlayHintsConfig {
        enabled: false,
        up_to_date_text: "ok".to_string(),
        needs_update_text: "-> {}".to_string(),
    };
    assert!(!inlay_hints_enabled(&hints));
    let loading = LoadingIndicatorConfig {
        enabled: true,
        fallback_to_hints: false,
        loading_text: "...".to_string(),
    };
    let c = hint_config(&hints, &loading);
    assert!(c.show_up_to_date_hints);
    assert_eq!(c.up_to_date_text, "ok");
    assert_eq!(c.needs_update_text, "-> {}");
    assert_eq!(c.loading_text, "...");
    assert!(!c.show_loading_hints);
}

#[test]
fn file_size_limits() {
    assert_eq!(size_verdict(0), SizeVerdict::Accept);
    assert_eq!(size_verdict(1_000_000), SizeVerdict::Accept);
    assert_eq!(size_verdict(1_000_001), SizeVerdict::AcceptLarge);
    assert_eq!(size_verdict(10_000_000), SizeVerdict::AcceptLarge);
    assert_eq!(size_verdict(10_000_001), SizeVerdict::TooLarge);
    assert_eq!(
        too_large_message(12_000_000),
        "file too large: 12000000 bytes (max: 10000000 bytes)"
    );
}

#[test]
fn cold_start_rate_limit() {
    let mut limiter = ColdStartLimiter::new(100);
    assert!(limiter.allow_cold_start("file:///a", 1000));
    assert!(!limiter.allow_cold_start("file:///a", 1050));
    assert!(limiter.allow_cold_start("file:///b", 1050));
    assert!(limiter.allow_cold_start("file:///a", 1100));
    assert!(!limiter.allow_cold_start("file:///a", 1000));
    assert_eq!(limiter.tracked_count(), 2);
    limiter.cleanup_old_entries(1200, 120);
    assert_eq!(limiter.tracked_count(), 1);
    limiter.cleanup_old_entries(5000, 120);
    assert_eq!(limiter.tracked_count(), 0);
}

#[test]
fn cold_start_decisions() {
    let mut limiter = ColdStartLimiter::new(100);
    assert_eq!(
        cold_start_action(&mut limiter, "u", 0, true, false, false),
        ColdStartAction::AlreadyLoaded
    );
    assert_eq!(cold_start_action(&mut limiter, "u", 0, false, false, true), ColdStartAction::Refuse);
    assert_eq!(limiter.tracked_count(), 0);
    assert_eq!(cold_start_action(&mut limiter, "u", 0, false, true, true), ColdStartAction::Load);
    assert_eq!(cold_start_action(&mut limiter, "u", 10, false, true, true), ColdStartAction::Refuse);
    assert_eq!(cold_start_action(&mut limiter, "v", 10, false, true, false), ColdStartAction::Refuse);
    assert_eq!(limiter.tracked_count(), 2);
}

#[test]
fn lockfile_change_affects_matching_documents() {
    let docs = vec![
        ("file:///a/package.json".to_string(), "npm".to_string(), Some("/a/package-lock.json".to_string())),
        ("file:///a/Cargo.toml".to_string(), "cargo".to_string(), Some("/a/package-lock.json".to_string())),
        ("file:///b/package.json".to_string(), "npm".to_string(), Some("/b/package-lock.json".to_string())),
        ("file:///c/package.json".to_string(), "npm".to_string(), None),
        ("file:///a/sub/package.json".to_string(), "npm".to_string(), Some("/a/package-lock.json".to_string())),
    ];
    assert_eq!(
        affected_documents(&docs, "npm", "/a/package-lock.json"),
        vec!["file:///a/package.json".to_string(), "file:///a/sub/package.json".to_string()]
    );
    assert!(affected_documents(&docs, "pypi", "/a/package-lock.json").is_empty());
}

#[test]
fn package_completion_text() {
    assert_eq!(package_insert_text("cargo", "serde", "1.0.0"), "serde = \"1.0.0\"");
    assert_eq!(package_insert_text("pypi", "flask", "3.0.0"), "flask = \"3.0.0\"");
    assert_eq!(package_insert_text("npm", "react", "18.2.0"), "\"react\": \"^18.2.0\"");
    assert_eq!(package_insert_text("go", "x", "1"), "x = \"1\"");
    assert_eq!(package_detail("1.2.3"), "Latest: 1.2.3");
}

#[test]
fn npm_handler_glue() {
    let range = TextRange::new(Position::new(0, 0), Position::new(0, 7));
    let npm = NpmDependency {
        name: "express".into(),
        name_range: range,
        version_req: Some("^4.0.0".into()),
        version_range: None,
        section: NpmDependencySection::Dependencies,
    };
    let unified = UnifiedDependency::Npm(npm.clone());
    assert_eq!(NpmHandlerImpl::extract_dependency(&unified).unwrap().name, "express");
    let py = UnifiedDependency::Pypi(PypiDependency {
        name: "requests".into(),
        name_range: range,
        version_req: None,
        version_range: None,
        extras: vec![],
        extras_range: None,
        markers: None,
        markers_range: None,
        section: PypiDependencySection::Dependencies,
        source: PypiDependencySource::PyPI,
    });
    assert!(NpmHandlerImpl::extract_dependency(&py).is_none());
    assert_eq!(NpmHandlerImpl::format_version_for_edit(&npm, "4.18.2"), "\"4.18.2\"");
    assert_eq!(NpmHandlerImpl::ecosystem_display_name(), "npmjs.com");
    assert_eq!(NpmHandlerImpl::package_url("@types/node"), "https://www.npmjs.com/package/%40types%2Fnode");
    assert!(NpmHandlerImpl::is_deprecated(&NpmVersion { version: "1.0.0".into(), deprecated: true }));
    assert!(NpmHandlerImpl::is_valid_version_syntax("whatever"));
}

#[test]
fn update_version_edit_text_is_quoted() {
    assert_eq!(deps_lsp::handlers::quoted_version("1.2.3"), "\"1.2.3\"");
    assert_eq!(deps_lsp::handlers::quoted_version(""), "\"\"");
}

#[test]
fn hover_text_lists_known_versions() {
    let t = deps_lsp::handlers::hover_text(
        "express",
        Some("^4.0.0"),
        None,
        Some("4.21.0"),
        "https://www.npmjs.com/package/express",
    );
    assert_eq!(
        t,
        "**express**\n\nRequired: `^4.0.0`\n\nLatest: `4.21.0`\n\nhttps://www.npmjs.com/package/express"
    );
    let t = deps_lsp::handlers::hover_text("a", None, Some("1.0.0"), None, "u");
    assert_eq!(t, "**a**\n\nResolved: `1.0.0`\n\nu");
}

#[test]
fn dependency_hint_labels() {
    let config = InlayHintsConfig {
        enabled: true,
        up_to_date_text: "✅".to_string(),
        needs_update_text: "❌ {}".to_string(),
    };
    let settings = hint_config(&config, &LoadingIndicatorConfig::default());
    let d = dep("serde", 0, 0, 5, Some((8, 13)), true);
    let mut cached = StringMap::new();
    let mut resolved = StringMap::new();
    assert_eq!(
        deps_lsp::handlers::dependency_hint(&d, &cached, &resolved, false, &settings, &config),
        None
    );
    assert_eq!(
        deps_lsp::handlers::dependency_hint(&d, &cached, &resolved, true, &settings, &config),
        Some("⏳".to_string())
    );
    cached.insert("serde".to_string(), "1.0.210".to_string());
    resolved.insert("serde".to_string(), "1.0.210".to_string());
    assert_eq!(
        deps_lsp::handlers::dependency_hint(&d, &cached, &resolved, false, &settings, &config),
        Some("✅".to_string())
    );
    resolved.insert("serde".to_string(), "1.0.100".to_string());
    assert_eq!(
        deps_lsp::handlers::dependency_hint(&d, &cached, &resolved, false, &settings, &config),
        Some("❌ 1.0.210".to_string())
    );
    let no_version = dep("serde", 0, 0, 5, None, true);
    assert_eq!(
        deps_lsp::handlers::dependency_hint(&no_version, &cached, &resolved, true, &settings, &config),
        None
    );
}

#[test]
fn cold_starts_of_one_document_stay_an_interval_apart() {
    let mut limiter = ColdStartLimiter::new(100);
    assert!(limiter.allow_cold_start("file:///a/package.json", 0));
    assert!(limiter.allow_cold_start("file:///b/package.json", 10));
    assert!(!limiter.allow_cold_start("file:///a/package.json", 50));
    assert!(limiter.allow_cold_start("file:///a/package.json", 100));
    assert!(!limiter.allow_cold_start("file:///a/package.json", 150));
    assert!(!limiter.allow_cold_start("file:///b/package.json", 109));
    assert!(limiter.allow_cold_start("file:///b/package.json", 110));
    assert!(limiter.allow_cold_start("file:///a/package.json", 200));
}
