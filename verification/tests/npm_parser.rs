use deps_lsp::npm::{NpmDependencySection, NpmError};
use deps_lsp::npm_parser::{
    dependency_positions, parse_package_json, position_of, try_parse_package_json, NpmParseResult,
};

fn parse(json: &str) -> NpmParseResult {
    parse_package_json(json, "file:///test/package.json").unwrap()
}

#[test]
fn test_parse_simple_dependencies() {
    let json = "{\n  \"dependencies\": {\n    \"express\": \"^4.18.2\",\n    \"lodash\": \"^4.17.21\"\n  }\n}";
    let result = parse(json);
    assert_eq!(result.dependencies.len(), 2);
    let express = &result.dependencies[0];
    assert_eq!(express.name, "express");
    assert_eq!(express.version_req, Some("^4.18.2".into()));
    assert!(matches!(express.section, NpmDependencySection::Dependencies));
    let lodash = &result.dependencies[1];
    assert_eq!(lodash.name, "lodash");
    assert_eq!(lodash.version_req, Some("^4.17.21".into()));
    assert_eq!(result.uri, "file:///test/package.json");
}

#[test]
fn test_parse_sections_in_order() {
    let json = "{\n  \"optionalDependencies\": {\"fsevents\": \"^2.3.2\"},\n  \"peerDependencies\": {\"react\": \"^18.0.0\"},\n  \"devDependencies\": {\"jest\": \"^29.0.0\"},\n  \"dependencies\": {\"express\": \"^4.18.2\"}\n}";
    let result = parse(json);
    let sections: Vec<NpmDependencySection> = result.dependencies.iter().map(|d| d.section).collect();
    assert_eq!(
        sections,
        vec![
            NpmDependencySection::Dependencies,
            NpmDependencySection::DevDependencies,
            NpmDependencySection::PeerDependencies,
            NpmDependencySection::OptionalDependencies,
        ]
    );
}

#[test]
fn test_parse_empty_and_absent_dependencies() {
    assert_eq!(parse("{\n  \"dependencies\": {}\n}").dependencies.len(), 0);
    assert_eq!(parse("{\n  \"name\": \"my-package\",\n  \"version\": \"1.0.0\"\n}").dependencies.len(), 0);
    assert_eq!(parse("{\"dependencies\": [1, 2]}").dependencies.len(), 0);
    assert!(matches!(
        parse_package_json("[1, 2]", "file:///test/package.json"),
        Err(NpmError::InvalidStructure { .. })
    ));
    assert!(matches!(try_parse_package_json("3", "u"), Some(Err(NpmError::InvalidStructure { .. }))));
}

#[test]
fn test_position_calculation() {
    let json = "{\n  \"dependencies\": {\n    \"express\": \"^4.18.2\"\n  }\n}";
    let result = parse(json);
    let express = &result.dependencies[0];
    assert_eq!(express.name_range.start.line, 2);
    assert_eq!(express.name_range.start.character, 5);
    assert_eq!(express.name_range.end.character, 12);
    let v = express.version_range.unwrap();
    assert_eq!(v.start.line, 2);
    assert_eq!(v.start.character, 16);
    assert_eq!(v.end.character, 23);
}

#[test]
fn test_non_string_version_has_no_range() {
    let json = "{\"dependencies\": {\"a\": 1}}";
    let result = parse(json);
    assert_eq!(result.dependencies[0].version_req, None);
    assert_eq!(result.dependencies[0].version_range, None);
}

#[test]
fn test_line_offset_table() {
    let c: Vec<char> = "line0\nline1\nline2".chars().collect();
    let p0 = position_of(&c, 0);
    assert_eq!((p0.line, p0.character), (0, 0));
    let p6 = position_of(&c, 6);
    assert_eq!((p6.line, p6.character), (1, 0));
    let p12 = position_of(&c, 12);
    assert_eq!((p12.line, p12.character), (2, 0));
}

#[test]
fn test_line_offset_table_utf16() {
    let content = "hello 世界\nworld";
    let c: Vec<char> = content.chars().collect();
    let world = c.iter().position(|&x| x == 'w').unwrap();
    let p = position_of(&c, world);
    assert_eq!((p.line, p.character), (1, 0));
    let shi = c.iter().position(|&x| x == '世').unwrap();
    let p = position_of(&c, shi);
    assert_eq!((p.line, p.character), (0, 6));
}

#[test]
fn test_line_offset_table_emoji() {
    let content = "test 🚀 rocket\nline2";
    let c: Vec<char> = content.chars().collect();
    let r = c.iter().position(|&x| x == 'r').unwrap();
    let p = position_of(&c, r);
    assert_eq!((p.line, p.character), (0, 8));
}

#[test]
fn test_scoped_package() {
    let json = "{\n  \"devDependencies\": {\n    \"@vitest/coverage-v8\": \"^3.1.4\"\n  }\n}";
    let result = parse(json);
    assert_eq!(result.dependencies[0].name, "@vitest/coverage-v8");
    assert_eq!(result.dependencies[0].version_req, Some("^3.1.4".into()));
    assert!(result.dependencies[0].version_range.is_some());
}

#[test]
fn test_package_name_in_scripts_not_confused() {
    let json = "{\n  \"scripts\": {\n    \"test\": \"vitest\",\n    \"coverage\": \"vitest run --coverage\"\n  },\n  \"devDependencies\": {\n    \"vitest\": \"^3.1.4\"\n  }\n}";
    let result = parse(json);
    assert_eq!(result.dependencies.len(), 1);
    let vitest = &result.dependencies[0];
    assert_eq!(vitest.name, "vitest");
    assert_eq!(vitest.name_range.start.line, 6);
    assert!(vitest.version_range.is_some());
}

#[test]
fn dependency_positions_not_found_and_far_version() {
    let c: Vec<char> = "{\"a\" : \"1\"}".chars().collect();
    let (n, v) = dependency_positions(&c, "b", None).unwrap();
    assert_eq!((n.start.line, n.start.character, n.end.character), (0, 0, 0));
    assert!(v.is_none());
    let (n, v) = dependency_positions(&c, "a", Some("1")).unwrap();
    assert_eq!((n.start.character, n.end.character), (2, 3));
    let v = v.unwrap();
    assert_eq!((v.start.character, v.end.character), (8, 9));
    let far = format!("{{\"a\": {}\"1\"}}", " ".repeat(150));
    let c: Vec<char> = far.chars().collect();
    let (_, v) = dependency_positions(&c, "a", Some("1")).unwrap();
    assert!(v.is_none());
}

#[test]
fn dependency_positions_window_splitting_a_character() {
    // the window holds 101 bytes from the colon on: it ends inside the
    // two-byte 'é' that follows the colon and 99 spaces
    let text = format!("{{\"a\":{}é\"x\"}}", " ".repeat(99));
    let c: Vec<char> = text.chars().collect();
    assert!(dependency_positions(&c, "a", Some("x")).is_none());
    let ok = format!("{{\"a\":{}é\"x\"}}", " ".repeat(100));
    let c: Vec<char> = ok.chars().collect();
    assert!(dependency_positions(&c, "a", Some("x")).is_some());
}

#[test]
fn test_parse_dev_dependencies() {
    let json = "{\n  \"devDependencies\": {\n    \"typescript\": \"^5.0.0\",\n    \"jest\": \"^29.0.0\"\n  }\n}";
    let result = parse(json);
    assert_eq!(result.dependencies.len(), 2);
    assert!(result
        .dependencies
        .iter()
        .all(|d| matches!(d.section, NpmDependencySection::DevDependencies)));
}

#[test]
fn test_parse_peer_dependencies() {
    let json = "{\n  \"peerDependencies\": {\n    \"react\": \"^18.0.0\"\n  }\n}";
    let result = parse(json);
    assert_eq!(result.dependencies.len(), 1);
    assert!(matches!(result.dependencies[0].section, NpmDependencySection::PeerDependencies));
}

#[test]
fn test_parse_optional_dependencies() {
    let json = "{\n  \"optionalDependencies\": {\n    \"fsevents\": \"^2.3.2\"\n  }\n}";
    let result = parse(json);
    assert_eq!(result.dependencies.len(), 1);
    assert!(matches!(result.dependencies[0].section, NpmDependencySection::OptionalDependencies));
}

#[test]
fn test_parse_multiple_sections() {
    let json = "{\n  \"dependencies\": {\n    \"express\": \"^4.18.2\"\n  },\n  \"devDependencies\": {\n    \"jest\": \"^29.0.0\"\n  }\n}";
    let result = parse(json);
    assert_eq!(result.dependencies.len(), 2);
    let deps_count = result
        .dependencies
        .iter()
        .filter(|d| matches!(d.section, NpmDependencySection::Dependencies))
        .count();
    let dev_deps_count = result
        .dependencies
        .iter()
        .filter(|d| matches!(d.section, NpmDependencySection::DevDependencies))
        .count();
    assert_eq!(deps_count, 1);
    assert_eq!(dev_deps_count, 1);
}

#[test]
fn test_parse_empty_dependencies() {
    let json = "{\n  \"dependencies\": {}\n}";
    let result = parse(json);
    assert_eq!(result.dependencies.len(), 0);
}

#[test]
fn test_parse_no_dependencies() {
    let json = "{\n  \"name\": \"my-package\",\n  \"version\": \"1.0.0\"\n}";
    let result = parse(json);
    assert_eq!(result.dependencies.len(), 0);
}

#[test]
fn test_parse_invalid_json() {
    let json = "{ invalid json }";
    let result = parse_package_json(json, "file:///test/package.json");
    assert!(result.is_err());
    assert!(matches!(result, Err(NpmError::JsonParseError { .. })));
}

#[test]
fn try_parse_declines_a_window_inside_a_character() {
    // the version window of "a" holds 101 bytes from its colon; the
    // two-byte characters after it put byte 101 inside one of them
    let split = format!("{{\"dependencies\": {{\"a\": \"x\"}}, \"k\": \"{}\"}}", "é".repeat(50));
    assert!(try_parse_package_json(&split, "u").is_none());
    let ok = format!("{{\"dependencies\": {{\"a\": \"x\"}}, \"kk\": \"{}\"}}", "é".repeat(50));
    let r = try_parse_package_json(&ok, "u").unwrap().unwrap();
    assert_eq!(r.dependencies.len(), 1);
    assert!(r.dependencies[0].version_range.is_some());
    assert!(matches!(try_parse_package_json("{", "u"), Some(Err(NpmError::JsonParseError { .. }))));
}

#[test]
fn test_dependency_with_git_url() {
    let json = "{\n  \"dependencies\": {\n    \"my-lib\": \"git+https://github.com/user/repo.git\"\n  }\n}";
    let result = parse(json);
    assert_eq!(result.dependencies.len(), 1);
    assert_eq!(result.dependencies[0].name, "my-lib");
    assert_eq!(
        result.dependencies[0].version_req,
        Some("git+https://github.com/user/repo.git".into())
    );
}

#[test]
fn test_dependency_with_file_path() {
    let json = "{\n  \"dependencies\": {\n    \"local-pkg\": \"file:../local-package\"\n  }\n}";
    let result = parse(json);
    assert_eq!(result.dependencies.len(), 1);
    assert_eq!(result.dependencies[0].name, "local-pkg");
    assert_eq!(result.dependencies[0].version_req, Some("file:../local-package".into()));
}

#[test]
fn test_multiple_packages_same_version() {
    let json = "{\n  \"devDependencies\": {\n    \"@vitest/coverage-v8\": \"^3.1.4\",\n    \"vitest\": \"^3.1.4\"\n  }\n}";
    let result = parse(json);
    assert_eq!(result.dependencies.len(), 2);
    let coverage = result
        .dependencies
        .iter()
        .find(|d| d.name == "@vitest/coverage-v8")
        .expect("@vitest/coverage-v8 should be parsed");
    let vitest = result
        .dependencies
        .iter()
        .find(|d| d.name == "vitest")
        .expect("vitest should be parsed");
    assert!(coverage.version_range.is_some());
    assert!(vitest.version_range.is_some());
    let coverage_pos = coverage.version_range.unwrap();
    let vitest_pos = vitest.version_range.unwrap();
    assert_ne!(coverage_pos.start.line, vitest_pos.start.line);
}
