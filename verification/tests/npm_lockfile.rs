use deps_lsp::json::JsonValue;
use deps_lsp::npm_lockfile::{
    candidate_lockfile_paths, extract_package_name, parse_git_source, parse_npm_source, LockfileError, NpmLockParser, PackageEntry,
    ResolvedSource,
};

fn s(x: &str) -> JsonValue {
    JsonValue::Str(x.to_string())
}

fn obj(members: Vec<(&str, JsonValue)>) -> JsonValue {
    JsonValue::Object(members.into_iter().map(|(k, v)| (k.to_string(), v)).collect())
}

fn entry(
    version: Option<&str>,
    resolved: Option<&str>,
    integrity: Option<&str>,
    link: Option<bool>,
) -> PackageEntry {
    PackageEntry {
        version: version.map(String::from),
        resolved: resolved.map(String::from),
        integrity: integrity.map(String::from),
        link,
        dependencies: vec![],
    }
}

#[test]
fn test_extract_package_name_simple() {
    assert_eq!(extract_package_name("node_modules/express"), "express");
}

#[test]
fn test_extract_package_name_scoped() {
    assert_eq!(extract_package_name("node_modules/@babel/core"), "@babel/core");
}

#[test]
fn test_extract_package_name_nested() {
    assert_eq!(extract_package_name("node_modules/express/node_modules/debug"), "debug");
}

#[test]
fn extract_package_name_without_prefix() {
    assert_eq!(extract_package_name("packages/local"), "packages/local");
    assert_eq!(extract_package_name("node_modules/"), "");
}

#[test]
fn test_parse_npm_source_registry() {
    let e = entry(
        Some("4.18.2"),
        Some("https://registry.npmjs.org/express/-/express-4.18.2.tgz"),
        Some("sha512-abc123"),
        None,
    );
    match parse_npm_source(&e) {
        ResolvedSource::Registry { url, checksum } => {
            assert_eq!(url, "https://registry.npmjs.org/express/-/express-4.18.2.tgz");
            assert_eq!(checksum, "sha512-abc123");
        }
        _ => panic!("Expected Registry source"),
    }
}

#[test]
fn test_parse_npm_source_link() {
    let e = entry(Some("1.0.0"), None, None, Some(true));
    assert!(matches!(parse_npm_source(&e), ResolvedSource::Path { .. }));
}

#[test]
fn parse_npm_source_without_integrity_or_url() {
    let e = entry(Some("1.0.0"), Some("https://example.com/x.tgz"), None, Some(false));
    match parse_npm_source(&e) {
        ResolvedSource::Registry { url, checksum } => {
            assert_eq!(url, "https://example.com/x.tgz");
            assert_eq!(checksum, "");
        }
        _ => panic!("Expected Registry source"),
    }
    let e = entry(Some("1.0.0"), None, None, None);
    assert!(matches!(parse_npm_source(&e), ResolvedSource::Path { .. }));
}

#[test]
fn test_parse_git_source_with_hash() {
    match parse_git_source("git+https://github.com/user/repo.git#abc123") {
        ResolvedSource::Git { url, rev } => {
            assert_eq!(url, "https://github.com/user/repo.git");
            assert_eq!(rev, "abc123");
        }
        _ => panic!("Expected Git source"),
    }
}

#[test]
fn test_parse_git_source_tarball() {
    match parse_git_source("https://github.com/user/repo/tarball/abc123") {
        ResolvedSource::Git { url, rev } => {
            assert_eq!(url, "https://github.com/user/repo");
            assert_eq!(rev, "abc123");
        }
        _ => panic!("Expected Git source"),
    }
}

#[test]
fn test_parse_git_source_no_hash() {
    match parse_git_source("git+https://github.com/user/repo.git") {
        ResolvedSource::Git { url, rev } => {
            assert_eq!(url, "https://github.com/user/repo.git");
            assert!(rev.is_empty());
        }
        _ => panic!("Expected Git source"),
    }
}

#[test]
fn parse_git_source_via_entry() {
    let e = entry(Some("0.1.0"), Some("git://github.com/user/repo.git#v1.0.0"), None, None);
    match parse_npm_source(&e) {
        ResolvedSource::Git { url, rev } => {
            assert_eq!(url, "git://github.com/user/repo.git");
            assert_eq!(rev, "v1.0.0");
        }
        _ => panic!("Expected Git source"),
    }
}

fn simple_lock() -> JsonValue {
    obj(vec![
        ("lockfileVersion", JsonValue::Number("3".into())),
        ("name", s("my-project")),
        (
            "packages",
            obj(vec![
                (
                    "",
                    obj(vec![
                        ("dependencies", obj(vec![("express", s("^4.18.0"))])),
                        ("name", s("my-project")),
                    ]),
                ),
                (
                    "node_modules/body-parser",
                    obj(vec![
                        ("integrity", s("sha512-def456")),
                        (
                            "resolved",
                            s("https://registry.npmjs.org/body-parser/-/body-parser-1.20.1.tgz"),
                        ),
                        ("version", s("1.20.1")),
                    ]),
                ),
                (
                    "node_modules/express",
                    obj(vec![
                        ("dependencies", obj(vec![("body-parser", s("1.20.1"))])),
                        ("integrity", s("sha512-abc123")),
                        (
                            "resolved",
                            s("https://registry.npmjs.org/express/-/express-4.18.2.tgz"),
                        ),
                        ("version", s("4.18.2")),
                    ]),
                ),
            ]),
        ),
    ])
}

#[test]
fn parse_simple_package_lock_value() {
    let resolved = NpmLockParser.parse_lockfile_json(&simple_lock()).unwrap();
    assert_eq!(resolved.len(), 2);
    assert_eq!(resolved.get_version("express"), Some("4.18.2"));
    assert_eq!(resolved.get_version("body-parser"), Some("1.20.1"));
    let express = resolved.get("express").unwrap();
    assert_eq!(express.dependencies.len(), 1);
    assert_eq!(express.dependencies[0], "body-parser");
    let versions = resolved.versions();
    assert_eq!(versions.len(), 2);
    assert_eq!(versions.get("express"), Some("4.18.2".to_string()));
}

#[test]
fn parse_package_lock_with_local_and_missing_version() {
    let root = obj(vec![(
        "packages",
        obj(vec![
            ("node_modules/my-local", obj(vec![("link", JsonValue::Bool(true)), ("version", s("1.0.0"))])),
            ("node_modules/no-version", obj(vec![("resolved", s("https://x"))])),
        ]),
    )]);
    let resolved = NpmLockParser.parse_lockfile_json(&root).unwrap();
    assert_eq!(resolved.len(), 1);
    assert!(matches!(resolved.get("my-local").unwrap().source, ResolvedSource::Path { .. }));
    assert!(resolved.get("no-version").is_none());
}

#[test]
fn parse_package_lock_nested_duplicate_takes_later() {
    let root = obj(vec![(
        "packages",
        obj(vec![
            ("node_modules/debug", obj(vec![("version", s("2.6.9"))])),
            ("node_modules/express/node_modules/debug", obj(vec![("version", s("4.3.4"))])),
        ]),
    )]);
    let resolved = NpmLockParser.parse_lockfile_json(&root).unwrap();
    assert_eq!(resolved.len(), 1);
    assert_eq!(resolved.get_version("debug"), Some("4.3.4"));
}

#[test]
fn parse_empty_and_malformed_package_locks() {
    let empty = obj(vec![("packages", obj(vec![("", obj(vec![("name", s("empty-project"))]))]))]);
    let r = NpmLockParser.parse_lockfile_json(&empty).unwrap();
    assert_eq!(r.len(), 0);
    assert!(r.is_empty());
    let no_packages = obj(vec![("lockfileVersion", JsonValue::Number("3".into()))]);
    assert!(NpmLockParser.parse_lockfile_json(&no_packages).unwrap().is_empty());
    assert!(NpmLockParser.parse_lockfile_json(&s("not an object")).is_err());
    let null_packages = obj(vec![("packages", JsonValue::Null)]);
    assert!(NpmLockParser.parse_lockfile_json(&null_packages).is_err());
    let bad_version = obj(vec![(
        "packages",
        obj(vec![("node_modules/a", obj(vec![("version", JsonValue::Number("1".into()))]))]),
    )]);
    assert!(NpmLockParser.parse_lockfile_json(&bad_version).is_err());
    let bad_deps = obj(vec![(
        "packages",
        obj(vec![(
            "node_modules/a",
            obj(vec![("dependencies", obj(vec![("b", JsonValue::Bool(true))])), ("version", s("1.0.0"))]),
        )]),
    )]);
    assert!(NpmLockParser.parse_lockfile_json(&bad_deps).is_err());
}

#[test]
fn parse_package_lock_entry_as_array() {
    let root = obj(vec![(
        "packages",
        obj(vec![
            (
                "node_modules/a",
                JsonValue::Array(vec![s("1.0.0"), JsonValue::Null, JsonValue::Null, JsonValue::Null]),
            ),
        ]),
    )]);
    let r = NpmLockParser.parse_lockfile_json(&root).unwrap();
    assert_eq!(r.get_version("a"), Some("1.0.0"));
    let short = obj(vec![("packages", obj(vec![("node_modules/a", JsonValue::Array(vec![s("1.0.0")]))]))]);
    assert!(NpmLockParser.parse_lockfile_json(&short).is_err());
}

#[test]
fn test_is_lockfile_stale_deleted() {
    let parser = NpmLockParser;
    let now = std::time::SystemTime::now()
        .duration_since(std::time::UNIX_EPOCH)
        .unwrap()
        .as_secs();
    assert!(
        parser.is_lockfile_stale(None, now),
        "Non-existent lock file should be considered stale"
    );
}

#[test]
fn is_lockfile_stale_by_modification_time() {
    let parser = NpmLockParser;
    assert!(!parser.is_lockfile_stale(Some(100), 100));
    assert!(parser.is_lockfile_stale(Some(100), 0));
    assert!(!parser.is_lockfile_stale(Some(100), 100 + 86400));
}

#[test]
fn test_parse_simple_package_lock() {
    let lockfile_content = r#"{
  "name": "my-project",
  "lockfileVersion": 3,
  "packages": {
    "": {
      "name": "my-project",
      "dependencies": {
        "express": "^4.18.0"
      }
    },
    "node_modules/express": {
      "version": "4.18.2",
      "resolved": "https://registry.npmjs.org/express/-/express-4.18.2.tgz",
      "integrity": "sha512-abc123",
      "dependencies": {
        "body-parser": "1.20.1"
      }
    },
    "node_modules/body-parser": {
      "version": "1.20.1",
      "resolved": "https://registry.npmjs.org/body-parser/-/body-parser-1.20.1.tgz",
      "integrity": "sha512-def456"
    }
  }
}"#;
    let resolved = NpmLockParser.parse_lockfile_content(lockfile_content).unwrap();
    assert_eq!(resolved.len(), 2);
    assert_eq!(resolved.get_version("express"), Some("4.18.2"));
    assert_eq!(resolved.get_version("body-parser"), Some("1.20.1"));
    let express_pkg = resolved.get("express").unwrap();
    assert_eq!(express_pkg.dependencies.len(), 1);
    assert_eq!(express_pkg.dependencies[0], "body-parser");
}

#[test]
fn test_parse_package_lock_with_git() {
    let lockfile_content = r#"{
  "lockfileVersion": 3,
  "packages": {
    "": {
      "dependencies": {
        "my-git-dep": "github:user/repo#abc123"
      }
    },
    "node_modules/my-git-dep": {
      "version": "0.1.0",
      "resolved": "git+https://github.com/user/repo.git#abc123"
    }
  }
}"#;
    let resolved = NpmLockParser.parse_lockfile_content(lockfile_content).unwrap();
    assert_eq!(resolved.len(), 1);
    let pkg = resolved.get("my-git-dep").unwrap();
    assert_eq!(pkg.version, "0.1.0");
    match &pkg.source {
        ResolvedSource::Git { url, rev } => {
            assert_eq!(url, "https://github.com/user/repo.git");
            assert_eq!(rev, "abc123");
        }
        _ => panic!("Expected Git source"),
    }
}

#[test]
fn test_parse_package_lock_with_local() {
    let lockfile_content = r#"{
  "lockfileVersion": 3,
  "packages": {
    "": {
      "dependencies": {
        "my-local": "file:../my-local"
      }
    },
    "node_modules/my-local": {
      "version": "1.0.0",
      "link": true
    }
  }
}"#;
    let resolved = NpmLockParser.parse_lockfile_content(lockfile_content).unwrap();
    assert_eq!(resolved.len(), 1);
    let pkg = resolved.get("my-local").unwrap();
    assert!(matches!(pkg.source, ResolvedSource::Path { .. }));
}

#[test]
fn test_parse_empty_package_lock() {
    let lockfile_content = r#"{
  "lockfileVersion": 3,
  "packages": {
    "": {
      "name": "empty-project"
    }
  }
}"#;
    let resolved = NpmLockParser.parse_lockfile_content(lockfile_content).unwrap();
    assert_eq!(resolved.len(), 0);
    assert!(resolved.is_empty());
}

#[test]
fn test_parse_malformed_package_lock() {
    let lockfile_content = "not valid json {{{";
    let result = NpmLockParser.parse_lockfile_content(lockfile_content);
    assert!(result.is_err());
    match result {
        Err(LockfileError::ParseError { file_type, source }) => {
            assert_eq!(file_type, "package-lock.json");
            assert!(source.is_some());
        }
        _ => panic!("expected a parse error"),
    }
    match NpmLockParser.parse_lockfile_content(r#"{"packages": null}"#) {
        Err(LockfileError::ParseError { file_type, source }) => {
            assert_eq!(file_type, "package-lock.json");
            assert!(source.is_none());
        }
        _ => panic!("expected a parse error for the wrong shape"),
    }
}

#[test]
fn lock_file_is_looked_for_beside_the_manifest_then_five_directories_up() {
    let found = candidate_lockfile_paths("/a/b/c/d/e/f/g/package.json", "package-lock.json");
    assert_eq!(
        found,
        vec![
            "/a/b/c/d/e/f/g/package-lock.json",
            "/a/b/c/d/e/f/package-lock.json",
            "/a/b/c/d/e/package-lock.json",
            "/a/b/c/d/package-lock.json",
            "/a/b/c/package-lock.json",
            "/a/b/package-lock.json",
        ]
    );
    assert_eq!(
        candidate_lockfile_paths("/work/app/package.json", "package-lock.json"),
        vec!["/work/app/package-lock.json", "/work/package-lock.json", "/package-lock.json"]
    );
    assert_eq!(candidate_lockfile_paths("/package.json", "package-lock.json"), vec!["/package-lock.json"]);
    assert!(candidate_lockfile_paths("package.json", "package-lock.json").is_empty());
}
