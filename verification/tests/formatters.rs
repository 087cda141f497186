use deps_lsp::npm::{self as npm, NpmFormatter, NpmVersion};
use deps_lsp::pypi::{
    self as pypi, PypiDependencySection, PypiDependencySource, PypiFormatter, PypiPackage,
    PypiVersion,
};
use deps_lsp::types::{Dependency, Position, TextRange};

#[test]
fn formatter_test_format_version() {
    let formatter = NpmFormatter;
    assert_eq!(formatter.format_version_for_code_action("1.0.214"), "1.0.214");
    assert_eq!(formatter.format_version_for_code_action("18.3.1"), "18.3.1");

    let formatter = PypiFormatter;
    assert_eq!(formatter.format_version_for_code_action("1.2.3"), ">=1.2.3,<2");
    assert_eq!(formatter.format_version_for_code_action("2.28.0"), ">=2.28.0,<3");
    assert_eq!(formatter.format_version_for_code_action("0.1.0"), ">=0.1.0,<1");
}

#[test]
fn formatter_test_package_url() {
    let formatter = NpmFormatter;
    assert_eq!(formatter.package_url("react"), "https://www.npmjs.com/package/react");
    assert_eq!(
        formatter.package_url("@types/node"),
        "https://www.npmjs.com/package/@types/node"
    );

    let formatter = PypiFormatter;
    assert_eq!(formatter.package_url("requests"), "https://pypi.org/project/requests");
    assert_eq!(formatter.package_url("django"), "https://pypi.org/project/django");
}

#[test]
fn test_default_normalize_is_identity() {
    let formatter = NpmFormatter;
    assert_eq!(formatter.normalize_package_name("react"), "react");
    assert_eq!(formatter.normalize_package_name("@types/node"), "@types/node");
}

#[test]
fn test_deprecated_messages() {
    let formatter = NpmFormatter;
    assert_eq!(formatter.yanked_message(), "This version is deprecated");
    assert_eq!(formatter.yanked_label(), "*(deprecated)*");
}

#[test]
fn test_version_satisfies_requirement() {
    let formatter = NpmFormatter;
    assert!(formatter.version_satisfies_requirement("1.2.3", "1.2.3"));
    assert!(formatter.version_satisfies_requirement("1.2.3", "^1.2"));
    assert!(formatter.version_satisfies_requirement("1.2.3", "~1.2"));
    assert!(formatter.version_satisfies_requirement("1.2.3", "1"));
    assert!(formatter.version_satisfies_requirement("1.2.3", "1.2"));
    assert!(!formatter.version_satisfies_requirement("1.2.3", "2.0.0"));
    assert!(!formatter.version_satisfies_requirement("1.2.3", "1.3"));
}

#[test]
fn npm_same_major_minor() {
    assert!(npm::is_same_major_minor("1.2", "1.2.9"));
    assert!(npm::is_same_major_minor("1", "1.7.0"));
    assert!(!npm::is_same_major_minor("1.3", "1.2.0"));
    assert!(!npm::is_same_major_minor("2", "1.2.0"));
    assert!(!npm::is_same_major_minor("10.1", "1.1"));
}

#[test]
fn npm_registry_package_url_is_percent_encoded() {
    assert_eq!(npm::package_url("react"), "https://www.npmjs.com/package/react");
    assert_eq!(
        npm::package_url("@types/node"),
        "https://www.npmjs.com/package/%40types%2Fnode"
    );
    assert_eq!(npm::package_url("a b~c"), "https://www.npmjs.com/package/a%20b~c");
}

fn npm_versions(v: &[(&str, bool)]) -> Vec<NpmVersion> {
    v.iter()
        .map(|(s, d)| NpmVersion { version: s.to_string(), deprecated: *d })
        .collect()
}

#[test]
fn npm_latest_matching_skips_deprecated_and_out_of_range() {
    let versions = npm_versions(&[
        ("5.0.0", false),
        ("4.18.3", true),
        ("4.18.2", false),
        ("4.17.0", false),
    ]);
    let r = npm::latest_matching(&versions, "^4.0.0").unwrap().unwrap();
    assert_eq!(r.version, "4.18.2");
    assert!(npm::latest_matching(&versions, "^6.0.0").unwrap().is_none());
    assert!(npm::latest_matching(&versions, "@@@").is_err());
}

#[test]
fn npm_first_in_range_takes_first_undeprecated() {
    let versions = npm_versions(&[("3.0.0", false), ("2.0.0", true), ("1.0.0", false)]);
    let r = npm::first_in_range(&versions, &vec![false, true, true]).unwrap();
    assert_eq!(r.version, "1.0.0");
    assert!(npm::first_in_range(&versions, &vec![false, true, false]).is_none());
}

#[test]
fn test_normalize_package_name() {
    let formatter = PypiFormatter;
    assert_eq!(formatter.normalize_package_name("requests"), "requests");
    assert_eq!(
        formatter.normalize_package_name("Django-REST-Framework"),
        "django_rest_framework"
    );
    assert_eq!(formatter.normalize_package_name("My-Package"), "my_package");
}

#[test]
fn test_format_version_overflow_protection() {
    let formatter = PypiFormatter;
    assert_eq!(
        formatter.format_version_for_code_action("4294967295.0.0"),
        ">=4294967295.0.0,<1"
    );
}

#[test]
fn pypi_format_version_edge_cases() {
    let formatter = PypiFormatter;
    assert_eq!(formatter.format_version_for_code_action("7"), ">=7,<8");
    assert_eq!(formatter.format_version_for_code_action("abc.1"), ">=abc.1,<1");
    assert_eq!(formatter.format_version_for_code_action("4294967294.1"), ">=4294967294.1,<4294967295");
    assert_eq!(formatter.format_version_for_code_action("+3.0"), ">=+3.0,<4");
    assert_eq!(formatter.format_version_for_code_action(""), ">=,<1");
}

#[test]
fn test_default_yanked_message() {
    let formatter = PypiFormatter;
    assert_eq!(formatter.yanked_message(), "This version has been yanked");
    assert_eq!(formatter.yanked_label(), "*(yanked)*");
}

#[test]
fn test_normalize_fast_path() {
    let formatter = PypiFormatter;
    assert_eq!(formatter.normalize_package_name("requests"), "requests");
    assert_eq!(formatter.normalize_package_name("flask"), "flask");
    assert_eq!(formatter.normalize_package_name("numpy"), "numpy");
}

#[test]
fn pypi_underscore_hyphens() {
    assert_eq!(pypi::underscore_hyphens("a-b--c"), "a_b__c");
    assert_eq!(pypi::underscore_hyphens("plain"), "plain");
}

#[test]
fn test_version_satisfies_pep440() {
    let formatter = PypiFormatter;
    assert!(formatter.version_satisfies_requirement("1.2.3", ">=1.0,<2"));
    assert!(formatter.version_satisfies_requirement("2.28.0", ">=2.0"));
    assert!(formatter.version_satisfies_requirement("1.0.0", "==1.0.0"));
    assert!(formatter.version_satisfies_requirement("1.2.0", "~=1.2.0"));
    assert!(!formatter.version_satisfies_requirement("2.0.0", ">=1.0,<2"));
    assert!(!formatter.version_satisfies_requirement("0.9.0", ">=1.0"));
}

#[test]
fn test_version_satisfies_invalid_version() {
    let formatter = PypiFormatter;
    assert!(!formatter.version_satisfies_requirement("not-a-version", ">=1.0"));
}

#[test]
fn test_version_satisfies_invalid_specifier() {
    let formatter = PypiFormatter;
    assert!(!formatter.version_satisfies_requirement("1.0.0", "not-a-specifier"));
}

fn dep(name_range: TextRange, version_range: Option<TextRange>) -> Dependency {
    Dependency {
        name: "test-package".to_string(),
        name_range,
        version_req: Some(">=1.0".to_string()),
        version_range,
        is_registry: true,
    }
}

fn range(l: u32, a: u32, b: u32) -> TextRange {
    TextRange::new(Position::new(l, a), Position::new(l, b))
}

#[test]
fn test_position_on_name() {
    let d = dep(range(5, 10, 20), Some(range(5, 25, 35)));
    assert!(PypiFormatter.is_position_on_dependency(&d, Position::new(5, 15)));
}

#[test]
fn test_position_in_padding_before() {
    let d = dep(range(5, 10, 20), Some(range(5, 25, 35)));
    assert!(PypiFormatter.is_position_on_dependency(&d, Position::new(5, 8)));
}

#[test]
fn test_position_after_version_padding() {
    let d = dep(range(5, 10, 20), Some(range(5, 25, 35)));
    assert!(PypiFormatter.is_position_on_dependency(&d, Position::new(5, 37)));
}

#[test]
fn test_position_too_far_before() {
    let d = dep(range(5, 10, 20), Some(range(5, 25, 35)));
    assert!(!PypiFormatter.is_position_on_dependency(&d, Position::new(5, 5)));
}

#[test]
fn test_position_too_far_after() {
    let d = dep(range(5, 10, 20), Some(range(5, 25, 35)));
    assert!(!PypiFormatter.is_position_on_dependency(&d, Position::new(5, 40)));
}

#[test]
fn test_position_different_line() {
    let d = dep(range(5, 10, 20), Some(range(5, 25, 35)));
    assert!(!PypiFormatter.is_position_on_dependency(&d, Position::new(4, 15)));
    assert!(!PypiFormatter.is_position_on_dependency(&d, Position::new(6, 15)));
}

#[test]
fn test_position_without_version_range() {
    let d = dep(range(5, 10, 20), None);
    assert!(PypiFormatter.is_position_on_dependency(&d, Position::new(5, 22)));
    assert!(!PypiFormatter.is_position_on_dependency(&d, Position::new(5, 25)));
}

#[test]
fn test_saturating_sub_at_column_zero() {
    let d = dep(range(5, 0, 10), None);
    assert!(PypiFormatter.is_position_on_dependency(&d, Position::new(5, 0)));
    let far = dep(range(1, 3, u32::MAX - 1), None);
    assert!(PypiFormatter.is_position_on_dependency(&far, Position::new(1, u32::MAX)));
}

#[test]
fn registry_test_package_url() {
    assert_eq!(pypi::package_url("requests"), "https://pypi.org/project/requests");
    assert_eq!(pypi::package_url("flask"), "https://pypi.org/project/flask");
}

#[test]
fn pypi_registry_normalize_package_name() {
    assert_eq!(pypi::normalize_package_name("Flask"), "flask");
    assert_eq!(pypi::normalize_package_name("django_rest_framework"), "django-rest-framework");
    assert_eq!(pypi::normalize_package_name("Pillow.Image"), "pillow-image");
    assert_eq!(pypi::normalize_package_name("my__package"), "my-package");
    assert_eq!(pypi::normalize_package_name("-_lead.and.trail_-"), "-lead-and-trail-");
    assert_eq!(pypi::normalize_package_name("---"), "-");
    assert_eq!(pypi::normalize_package_name("_private"), "-private");
    let once = pypi::normalize_package_name("My__Package..x");
    assert_eq!(once, "my-package-x");
    assert_eq!(pypi::normalize_package_name(&once), once);
}

#[test]
fn pypi_join_name_segments() {
    assert_eq!(pypi::join_name_segments("a._-b"), "a-b");
    assert_eq!(pypi::join_name_segments("Already"), "Already");
}

#[test]
fn pypi_registry_package_url_normalizes_and_encodes() {
    assert_eq!(pypi::package_url("My_Package"), "https://pypi.org/project/my-package");
    assert_eq!(pypi::package_url("a/b"), "https://pypi.org/project/a%2Fb");
}

#[test]
fn test_dependency_section_variants() {
    let deps = PypiDependencySection::Dependencies;
    let opt_deps = PypiDependencySection::OptionalDependencies { group: "dev".into() };
    let dep_group = PypiDependencySection::DependencyGroup { group: "dev".into() };
    let poetry_deps = PypiDependencySection::PoetryDependencies;
    let poetry_group = PypiDependencySection::PoetryGroup { group: "test".into() };
    assert!(matches!(deps, PypiDependencySection::Dependencies));
    assert!(matches!(opt_deps, PypiDependencySection::OptionalDependencies { .. }));
    assert!(matches!(dep_group, PypiDependencySection::DependencyGroup { .. }));
    assert!(matches!(poetry_deps, PypiDependencySection::PoetryDependencies));
    assert!(matches!(poetry_group, PypiDependencySection::PoetryGroup { .. }));
}

#[test]
fn test_dependency_source_variants() {
    let pypi_src = PypiDependencySource::PyPI;
    let git = PypiDependencySource::Git {
        url: "https://github.com/user/repo.git".into(),
        rev: Some("main".into()),
    };
    let path = PypiDependencySource::Path { path: "../local".into() };
    let url = PypiDependencySource::Url { url: "https://example.com/package.whl".into() };
    assert!(matches!(pypi_src, PypiDependencySource::PyPI));
    assert!(matches!(git, PypiDependencySource::Git { .. }));
    assert!(matches!(path, PypiDependencySource::Path { .. }));
    assert!(matches!(url, PypiDependencySource::Url { .. }));
}

#[test]
fn test_pypi_version_creation() {
    let version = PypiVersion { version: "1.0.0".into(), yanked: false };
    assert_eq!(version.version, "1.0.0");
    assert!(!version.yanked);
    assert!(!version.is_prerelease());
}

#[test]
fn test_pypi_version_prerelease_detection() {
    let mk = |s: &str| PypiVersion { version: s.into(), yanked: false };
    assert!(!mk("1.0.0").is_prerelease());
    assert!(mk("1.0.0a1").is_prerelease());
    assert!(mk("1.0.0b2").is_prerelease());
    assert!(mk("1.0.0rc1").is_prerelease());
    assert!(!mk("not a version").is_prerelease());
}

#[test]
fn test_pypi_version_info_trait() {
    let version = PypiVersion { version: "2.28.2".into(), yanked: true };
    assert_eq!(version.version_string(), "2.28.2");
    assert!(version.is_yanked());
}

#[test]
fn test_pypi_package_creation() {
    let pkg = PypiPackage {
        name: "requests".into(),
        summary: Some("Python HTTP for Humans.".into()),
        project_urls: vec![
            ("Homepage".into(), "https://requests.readthedocs.io".into()),
            ("Repository".into(), "https://github.com/psf/requests".into()),
        ],
        latest_version: "2.28.2".into(),
    };
    assert_eq!(pkg.name, "requests");
    assert_eq!(pkg.latest_version, "2.28.2");
}

#[test]
fn test_pypi_package_metadata_trait() {
    let pkg = PypiPackage {
        name: "flask".into(),
        summary: Some("A micro web framework".into()),
        project_urls: vec![
            ("Documentation".into(), "https://flask.palletsprojects.com/".into()),
            ("Repository".into(), "https://github.com/pallets/flask".into()),
        ],
        latest_version: "3.0.0".into(),
    };
    assert_eq!(pkg.name(), "flask");
    assert_eq!(pkg.description(), Some("A micro web framework"));
    assert_eq!(pkg.repository(), Some("https://github.com/pallets/flask"));
    assert_eq!(pkg.documentation(), Some("https://flask.palletsprojects.com/"));
    assert_eq!(pkg.latest_version(), "3.0.0");
}

#[test]
fn test_package_url_fallbacks() {
    let pkg = PypiPackage {
        name: "test".into(),
        summary: None,
        project_urls: vec![
            ("Homepage".into(), "https://example.com".into()),
            ("Source".into(), "https://github.com/test/test".into()),
        ],
        latest_version: "1.0.0".into(),
    };
    assert_eq!(pkg.repository(), Some("https://github.com/test/test"));
    assert_eq!(pkg.documentation(), Some("https://example.com"));
    assert_eq!(pkg.description(), None);
}

#[test]
fn pypi_package_urls_ignore_ascii_case_and_order() {
    let pkg = PypiPackage {
        name: "x".into(),
        summary: None,
        project_urls: vec![
            ("CODE".into(), "https://a".into()),
            ("repository".into(), "https://b".into()),
            ("Changelog".into(), "https://c".into()),
        ],
        latest_version: "1".into(),
    };
    assert_eq!(pkg.repository(), Some("https://a"));
    assert_eq!(pkg.documentation(), None);
}

fn pypi_versions(v: &[(&str, bool)]) -> Vec<PypiVersion> {
    v.iter().map(|(s, y)| PypiVersion { version: s.to_string(), yanked: *y }).collect()
}

#[test]
fn pypi_latest_matching_skips_yanked_and_prereleases() {
    let versions = pypi_versions(&[
        ("4.0.0", false),
        ("3.1.0rc1", false),
        ("3.0.1", true),
        ("3.0.0", false),
        ("2.9.0", false),
    ]);
    let r = pypi::latest_matching(&versions, ">=3.0,<4").unwrap().unwrap();
    assert_eq!(r.version, "3.0.0");
    assert!(pypi::latest_matching(&versions, ">=5").unwrap().is_none());
    assert!(matches!(
        pypi::latest_matching(&versions, "not-a-specifier"),
        Err(pypi::PypiError::InvalidVersionSpecifier { .. })
    ));
}

#[test]
fn pypi_first_eligible_uses_given_flags() {
    let versions = pypi_versions(&[("a", false), ("b", true), ("c", false), ("d", false)]);
    let r = pypi::first_eligible(&versions, &vec![true, true, true, true], &vec![true, false, false, false]);
    assert_eq!(r.unwrap().version, "c");
    assert!(pypi::first_eligible(&versions, &vec![false; 4], &vec![false; 4]).is_none());
}

#[test]
fn pypi_version_completions_filter_by_prefix() {
    let versions = pypi_versions(&[
        ("2.1.0", false),
        ("2.0.1", true),
        ("2.0.0", false),
        ("1.9.0", false),
    ]);
    let r = pypi::select_version_completions(&versions, ">= 2.0");
    let names: Vec<&str> = r.iter().map(|v| v.version.as_str()).collect();
    assert_eq!(names, vec!["2.0.0"]);
    let r = pypi::select_version_completions(&versions, "~=9");
    let names: Vec<&str> = r.iter().map(|v| v.version.as_str()).collect();
    assert_eq!(names, vec!["2.1.0", "2.0.0", "1.9.0"]);
}

#[test]
fn pypi_version_completions_at_most_twenty() {
    let many: Vec<PypiVersion> = (0..30)
        .map(|i| PypiVersion { version: format!("1.{}", i), yanked: false })
        .collect();
    let r = pypi::select_version_completions(&many, "1.");
    assert_eq!(r.len(), 20);
    assert_eq!(r[0].version, "1.0");
    assert_eq!(r[19].version, "1.19");
}

#[test]
fn pypi_search_prefix_bounds() {
    assert!(!pypi::search_prefix_accepted("a"));
    assert!(pypi::search_prefix_accepted("ab"));
    assert!(pypi::search_prefix_accepted(&"x".repeat(100)));
    assert!(!pypi::search_prefix_accepted(&"x".repeat(101)));
    assert!(!pypi::search_prefix_accepted("é"[..].repeat(51).as_str()));
}

#[test]
fn npm_version_accessors() {
    let v = NpmVersion { version: "1.0.0".into(), deprecated: true };
    assert_eq!(v.version_string(), "1.0.0");
    assert!(v.is_yanked());
}
