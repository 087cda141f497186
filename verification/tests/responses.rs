use deps_lsp::npm::NpmError;
use deps_lsp::npm::search_url;
use deps_lsp::pypi::{without_yanked, PypiError};
use deps_lsp::responses::{
    parse_npm_package_metadata, parse_package_info, parse_package_metadata, parse_search_response,
};

#[test]
fn test_parse_package_metadata() {
    let root: &[u8] = br#"{
            "info": {
                "name": "requests",
                "summary": "Python HTTP for Humans.",
                "version": "2.28.2",
                "project_urls": {
                    "Homepage": "https://requests.readthedocs.io"
                }
            },
            "releases": {
                "2.28.2": [{"yanked": false}],
                "2.28.1": [{"yanked": false}],
                "2.28.0": [{"yanked": true}],
                "2.27.0": [{"yanked": false}]
            }
        }"#;
    let versions = parse_package_metadata("requests", root).unwrap();
    assert_eq!(versions.len(), 4);
    assert_eq!(versions[0].version, "2.28.2");
    assert!(!versions[0].yanked);
    assert!(versions[2].yanked);
    let order: Vec<&str> = versions.iter().map(|v| v.version.as_str()).collect();
    assert_eq!(order, vec!["2.28.2", "2.28.1", "2.28.0", "2.27.0"]);
}

#[test]
fn test_parse_package_info() {
    let root: &[u8] = br#"{
            "info": {
                "name": "flask",
                "summary": "A micro web framework",
                "version": "3.0.0",
                "project_urls": {
                    "Documentation": "https://flask.palletsprojects.com/",
                    "Repository": "https://github.com/pallets/flask"
                }
            },
            "releases": {}
        }"#;
    let pkg = parse_package_info("flask", root).unwrap();
    assert_eq!(pkg.name, "flask");
    assert_eq!(pkg.summary, Some("A micro web framework".to_string()));
    assert_eq!(pkg.latest_version, "3.0.0");
    assert_eq!(pkg.project_urls.len(), 2);
}

#[test]
fn test_prerelease_detection() {
    let root: &[u8] = br#"{
            "info": {"name": "test", "version": "1.0.0", "project_urls": null},
            "releases": {
                "1.0.0": [{"yanked": false}],
                "1.0.0a1": [{"yanked": false}],
                "1.0.0b2": [{"yanked": false}],
                "1.0.0rc1": [{"yanked": false}],
                "not a version": []
            }
        }"#;
    let versions = parse_package_metadata("requests", root).unwrap();
    assert_eq!(versions.len(), 4);
    let stable: Vec<_> = versions.iter().filter(|v| !v.is_prerelease()).collect();
    let prerelease: Vec<_> = versions.iter().filter(|v| v.is_prerelease()).collect();
    assert_eq!(stable.len(), 1);
    assert_eq!(prerelease.len(), 3);
    assert_eq!(versions[0].version, "1.0.0");
    assert_eq!(versions[3].version, "1.0.0a1");
}

#[test]
fn pypi_responses_that_do_not_decode() {
    let missing_releases: &[u8] = br#"{"info": {"name": "x", "version": "1"}}"#;
    assert!(matches!(
        parse_package_metadata("x", missing_releases),
        Err(PypiError::ApiResponseError { source: None, .. })
    ));
    let bad_info: &[u8] = br#"{"info": {"name": 1, "version": "1"}, "releases": {}}"#;
    assert!(matches!(
        parse_package_info("x", bad_info),
        Err(PypiError::ApiResponseError { source: None, .. })
    ));
    let bad_yanked: &[u8] = br#"{"info": {"name": "x", "version": "1"}, "releases": {"1": [{"yanked": "no"}]}}"#;
    assert!(parse_package_metadata("x", bad_yanked).is_err());
    let as_array: &[u8] = br#"[["x", null, null, "1"], {"1": [[true]]}]"#;
    let versions = parse_package_metadata("x", as_array).unwrap();
    assert_eq!(versions.len(), 1);
    assert!(versions[0].yanked);
}

#[test]
fn registry_test_parse_package_metadata() {
    let root: &[u8] = br#"{
  "versions": {
    "1.0.0": {},
    "1.0.1": {"deprecated": "Use 1.0.2 instead"},
    "1.0.2": {}
  },
  "dist-tags": {
    "latest": "1.0.2"
  }
}"#;
    let versions = parse_npm_package_metadata(root).unwrap();
    assert_eq!(versions.len(), 3);
    assert_eq!(versions[0].version, "1.0.2");
    assert!(!versions[0].deprecated);
    assert_eq!(versions[1].version, "1.0.1");
    assert!(versions[1].deprecated);
    assert_eq!(versions[2].version, "1.0.0");
    assert!(!versions[2].deprecated);
}

#[test]
fn npm_metadata_errors() {
    assert!(matches!(parse_npm_package_metadata(b"{}"), Err(NpmError::JsonParseError { source: None })));
    assert!(parse_npm_package_metadata(br#"{"versions": {"1.0.0": {"deprecated": 3}}}"#).is_err());
    let v = parse_npm_package_metadata(br#"{"versions": {"1.0.0": {"deprecated": null}}}"#).unwrap();
    assert!(!v[0].deprecated);
}

#[test]
fn test_parse_search_response() {
    let root: &[u8] = br#"{
  "objects": [
    {
      "package": {
        "name": "express",
        "description": "Fast, unopinionated web framework",
        "version": "4.18.2",
        "links": {
          "homepage": "http://expressjs.com/",
          "repository": "https://github.com/expressjs/express"
        }
      }
    }
  ]
}"#;
    let packages = parse_search_response(root).unwrap();
    assert_eq!(packages.len(), 1);
    let pkg = &packages[0];
    assert_eq!(pkg.name, "express");
    assert_eq!(pkg.description, Some("Fast, unopinionated web framework".into()));
    assert_eq!(pkg.latest_version, "4.18.2");
    assert_eq!(pkg.homepage, Some("http://expressjs.com/".into()));
    assert_eq!(pkg.repository, Some("https://github.com/expressjs/express".into()));
}

#[test]
fn test_parse_search_response_minimal() {
    let root: &[u8] = br#"{"objects": [{"package": {"name": "minimal-pkg", "version": "1.0.0"}}]}"#;
    let packages = parse_search_response(root).unwrap();
    assert_eq!(packages.len(), 1);
    assert_eq!(packages[0].name, "minimal-pkg");
    assert_eq!(packages[0].description, None);
    assert!(parse_search_response(br#"{"objects": [{"package": {"name": "x"}}]}"#).is_err());
}

#[test]
fn responses_that_are_not_json() {
    match parse_package_metadata("requests", b"not json") {
        Err(PypiError::ApiResponseError { package, .. }) => assert_eq!(package, "requests"),
        other => panic!("unexpected {other:?}"),
    }
    assert!(matches!(
        parse_package_info("flask", b"{"),
        Err(PypiError::ApiResponseError { .. })
    ));
    assert!(matches!(parse_npm_package_metadata(b"["), Err(NpmError::JsonParseError { .. })));
    assert!(matches!(parse_search_response(b"nope"), Err(NpmError::JsonParseError { .. })));
}

#[test]
fn registry_versions_leave_out_yanked_releases() {
    let root: &[u8] = br#"{
        "info": {"name": "requests", "version": "2.28.2"},
        "releases": {
            "2.28.2": [{"yanked": false}],
            "2.28.1": [{"yanked": false}],
            "2.28.0": [{"yanked": true}],
            "2.27.0": []
        }
    }"#;
    let versions = without_yanked(parse_package_metadata("requests", root).unwrap());
    let names: Vec<&str> = versions.iter().map(|v| v.version.as_str()).collect();
    assert_eq!(names, vec!["2.28.2", "2.28.1", "2.27.0"]);
    assert!(versions.iter().all(|v| !v.yanked));
    assert!(without_yanked(Vec::new()).is_empty());
}

#[test]
fn registry_failures_name_the_package() {
    match PypiError::registry_failure("requestz", "https://pypi.org/pypi/requestz/json: HTTP 404 Not Found") {
        PypiError::PackageNotFound { package } => assert_eq!(package, "requestz"),
        other => panic!("unexpected {other:?}"),
    }
    match PypiError::registry_failure("requests", "connection refused") {
        PypiError::RegistryError { package, message } => {
            assert_eq!(package, "requests");
            assert_eq!(message, "connection refused");
        }
        other => panic!("unexpected {other:?}"),
    }
}

#[test]
fn npm_search_address() {
    assert_eq!(search_url("react", 20), "https://registry.npmjs.org/-/v1/search?text=react&size=20");
    assert_eq!(
        search_url("@types/node x", 5),
        "https://registry.npmjs.org/-/v1/search?text=%40types%2Fnode%20x&size=5"
    );
}
