use deps_lsp::completion::{
    is_in_dependencies_section, is_in_json_dependencies, is_in_toml_dependencies,
};

#[test]
fn test_is_in_toml_dependencies_basic() {
    let content = r#"
[package]
name = "test"

[dependencies]
serde
"#;
    assert!(is_in_toml_dependencies(content, 5));
    assert!(!is_in_toml_dependencies(content, 1));
}

#[test]
fn test_is_in_toml_dependencies_dev_deps() {
    let content = r#"
[dev-dependencies]
tokio
"#;
    assert!(is_in_toml_dependencies(content, 2));
}

#[test]
fn test_is_in_toml_dependencies_build_deps() {
    let content = r#"
[build-dependencies]
cc
"#;
    assert!(is_in_toml_dependencies(content, 2));
}

#[test]
fn test_is_in_toml_dependencies_project_deps() {
    let content = r#"
[project.dependencies]
requests
"#;
    assert!(is_in_toml_dependencies(content, 2));
}

#[test]
fn test_is_in_toml_dependencies_workspace_deps() {
    let content = r#"
[workspace.dependencies]
serde = "1.0"
"#;
    assert!(is_in_toml_dependencies(content, 2));
}

#[test]
fn test_is_in_toml_dependencies_target_specific() {
    let content = r#"
[target.'cfg(windows)'.dependencies]
winapi
"#;
    assert!(is_in_toml_dependencies(content, 2));
}

#[test]
fn test_is_in_toml_dependencies_wrong_section() {
    let content = r#"
[package]
name = "test"

[profile.release]
opt-level = 3
"#;
    assert!(!is_in_toml_dependencies(content, 2));
    assert!(!is_in_toml_dependencies(content, 5));
}

#[test]
fn test_is_in_toml_dependencies_multiple_sections() {
    let content = r#"
[dependencies]
serde = "1.0"

[dev-dependencies]
tokio
"#;
    assert!(is_in_toml_dependencies(content, 2));
    assert!(is_in_toml_dependencies(content, 5));
}

#[test]
fn test_is_in_json_dependencies_basic() {
    let content = r#"{
  "name": "test",
  "dependencies": {
    "express"
  }
}"#;
    assert!(is_in_json_dependencies(content, 3));
    assert!(!is_in_json_dependencies(content, 1));
}

#[test]
fn test_is_in_json_dependencies_dev_deps() {
    let content = r#"{
  "devDependencies": {
    "jest": "^29.0.0"
  }
}"#;
    assert!(is_in_json_dependencies(content, 2));
}

#[test]
fn test_is_in_json_dependencies_peer_deps() {
    let content = r#"{
  "peerDependencies": {
    "react"
  }
}"#;
    assert!(is_in_json_dependencies(content, 2));
}

#[test]
fn test_is_in_json_dependencies_optional_deps() {
    let content = r#"{
  "optionalDependencies": {
    "fsevents": "^2.0.0"
  }
}"#;
    assert!(is_in_json_dependencies(content, 2));
}

#[test]
fn test_is_in_json_dependencies_outside_section() {
    let content = r#"{
  "name": "test",
  "dependencies": {
    "express": "^4.0.0"
  },
  "scripts": {
    "start": "node index.js"
  }
}"#;
    assert!(is_in_json_dependencies(content, 3));
    assert!(!is_in_json_dependencies(content, 6));
}

#[test]
fn test_is_in_json_dependencies_nested_braces() {
    let content = r#"{
  "dependencies": {
    "package": "1.0.0"
  }
}"#;
    assert!(is_in_json_dependencies(content, 2));
}

#[test]
fn test_is_in_dependencies_section_cargo() {
    let content = r#"
[dependencies]
serde
"#;
    assert!(is_in_dependencies_section(content, 2, "cargo"));
    assert!(!is_in_dependencies_section(content, 0, "cargo"));
}

#[test]
fn test_is_in_dependencies_section_pypi() {
    let content = r#"
[project.dependencies]
requests
"#;
    assert!(is_in_dependencies_section(content, 2, "pypi"));
}

#[test]
fn test_is_in_dependencies_section_npm() {
    let content = r#"{
  "dependencies": {
    "express"
  }
}"#;
    assert!(is_in_dependencies_section(content, 2, "npm"));
}

#[test]
fn test_is_in_dependencies_section_unknown_ecosystem() {
    let content = r#"
[dependencies]
something
"#;
    assert!(!is_in_dependencies_section(content, 2, "unknown"));
}

#[test]
fn toml_section_line_past_end_uses_last_header() {
    let content = "[dependencies]\nserde";
    assert!(is_in_toml_dependencies(content, 100));
    assert!(!is_in_toml_dependencies("", 0));
}

#[test]
fn toml_header_with_surrounding_whitespace_and_crlf() {
    let content = "  [dev-dependencies]  \r\nserde\r\n";
    assert!(is_in_toml_dependencies(content, 1));
}

#[test]
fn json_line_past_end_is_outside() {
    let content = "{\n  \"dependencies\": {\n    \"a\": \"1\"\n  }\n}";
    assert!(!is_in_json_dependencies(content, 10));
}

#[test]
fn test_fallback_rejects_single_char_prefix() {
    let content = "\n[dependencies]\ns\n";
    assert_eq!(deps_lsp::completion::fallback_prefix(content, 2, 1, "cargo"), None);
}

#[test]
fn test_fallback_rejects_prefix_with_equals() {
    let content = "\n[dependencies]\nserde = \"1.0\"\n";
    assert_eq!(deps_lsp::completion::fallback_prefix(content, 2, 12, "cargo"), None);
}

#[test]
fn test_prefix_extraction_cursor_beyond_line() {
    let content = "\n[dependencies]\nserde\n";
    assert_eq!(
        deps_lsp::completion::fallback_prefix(content, 2, 100, "cargo"),
        Some("serde".to_string())
    );
}

#[test]
fn fallback_prefix_cuts_at_cursor_and_trims() {
    let content = "[dependencies]\n  tokio-ut\n";
    assert_eq!(
        deps_lsp::completion::fallback_prefix(content, 1, 7, "cargo"),
        Some("tokio".to_string())
    );
    assert_eq!(deps_lsp::completion::fallback_prefix(content, 5, 7, "cargo"), None);
    assert_eq!(deps_lsp::completion::fallback_prefix("[package]\nserde\n", 1, 5, "cargo"), None);
    assert_eq!(deps_lsp::completion::fallback_prefix(content, 1, 7, "go"), None);
}

#[test]
fn fallback_prefix_counts_bytes() {
    let content = "[dependencies]\né\n";
    assert_eq!(
        deps_lsp::completion::fallback_prefix(content, 1, 2, "cargo"),
        Some("é".to_string())
    );
}

#[test]
fn fallback_prefix_cursor_inside_a_character_gives_nothing() {
    // byte 2 of the second line falls inside the two-byte 'é'
    let content = "[dependencies]\n=é";
    assert_eq!(deps_lsp::completion::fallback_prefix(content, 1, 2, "cargo"), None);
    let content = "[dependencies]\nséerde";
    assert_eq!(deps_lsp::completion::fallback_prefix(content, 1, 2, "cargo"), None);
    assert_eq!(
        deps_lsp::completion::fallback_prefix(content, 1, 3, "cargo"),
        Some("sé".to_string())
    );
}
