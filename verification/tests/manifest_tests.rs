use baller::error::BallError;
use baller::manifest::{normalize_manifest, parse_github_url, Json, ManifestFormat, ManifestParser, Member};
use baller::package::{Package, PackageSource};

fn to_json(v: &serde_json::Value) -> Json {
    match v {
        serde_json::Value::Null => Json::Null,
        serde_json::Value::Bool(b) => Json::Bool(*b),
        serde_json::Value::Number(n) => Json::Number(n.to_string()),
        serde_json::Value::String(s) => Json::Str(s.clone()),
        serde_json::Value::Array(a) => Json::Array(a.iter().map(to_json).collect()),
        serde_json::Value::Object(m) => Json::Object(
            m.iter()
                .map(|(k, v)| Member { key: k.clone(), value: to_json(v) })
                .collect(),
        ),
    }
}

fn from_toml(text: &str) -> Json {
    let raw: toml::Value = toml::from_str(text).unwrap();
    to_json(&serde_json::to_value(raw).unwrap())
}

fn from_json(text: &str) -> Json {
    to_json(&serde_json::from_str::<serde_json::Value>(text).unwrap())
}

fn get<'a>(j: &'a Json, key: &str) -> Option<&'a Json> {
    match j {
        Json::Object(m) => m.iter().find(|e| e.key == key).map(|e| &e.value),
        _ => None,
    }
}

fn text(j: Option<&Json>) -> Option<String> {
    match j {
        Some(Json::Str(s)) => Some(s.clone()),
        _ => None,
    }
}

fn texts(j: Option<&Json>) -> Vec<String> {
    match j {
        Some(Json::Array(a)) => a.iter().filter_map(|x| text(Some(x))).collect(),
        _ => panic!("expected a list"),
    }
}

fn source_field(j: &Json, tag: &str, field: &str) -> Option<String> {
    text(get(get(get(j, "source").unwrap(), tag)?, field))
}

fn invalid_message(e: BallError) -> String {
    match e {
        BallError::InvalidConfig(msg) => msg,
        other => panic!("expected InvalidConfig, got {:?}", other),
    }
}

#[test]
fn test_parse_github_url_variants() {
    assert_eq!(
        parse_github_url("https://github.com/owner/repo"),
        Some(("owner".to_string(), "repo".to_string()))
    );
    assert_eq!(
        parse_github_url("git@github.com:owner/repo.git"),
        Some(("owner".to_string(), "repo".to_string()))
    );
    assert_eq!(
        parse_github_url("https://github.com/owner/repo/releases"),
        Some(("owner".to_string(), "repo".to_string()))
    );
    assert_eq!(parse_github_url("https://gitlab.com/owner/repo"), None);
    assert_eq!(parse_github_url("https://github.com/owner"), None);
}

#[test]
fn test_parse_github_url_strips_every_git_suffix() {
    assert_eq!(
        parse_github_url("github.com//owner//repo.git.git"),
        Some(("owner".to_string(), "repo".to_string()))
    );
    assert_eq!(parse_github_url("github.com/owner/.git"), None);
}

#[test]
fn test_parse_nested_toml_full() {
    let toml = r#"
name = "ripgrep"
version = "14.1.0"
description = "Blazingly fast search tool"
author = "Andrew Gallant"
repository = "https://github.com/BurntSushi/ripgrep"

[source]
type = "github"
owner = "BurntSushi"
repo = "ripgrep"

[dependencies]
"fd" = "*"
"libc" = ">=0.2.0"
"?suggested-dep" = "^1.0"

[architectures]
supported = ["x86_64", "aarch64"]

[checksum]
sha256 = "e5f0b2a4c1d3f"
"#;
    let pkg = normalize_manifest(from_toml(toml)).unwrap();
    assert_eq!(text(get(&pkg, "name")).unwrap(), "ripgrep");
    assert_eq!(text(get(&pkg, "version")).unwrap(), "14.1.0");
    assert_eq!(text(get(&pkg, "sha256")).unwrap(), "e5f0b2a4c1d3f");
    assert!(get(&pkg, "checksum").is_none());
    assert_eq!(texts(get(&pkg, "architectures")), vec!["x86_64".to_string(), "aarch64".to_string()]);
    let deps = texts(get(&pkg, "dependencies"));
    assert_eq!(deps.len(), 3);
    assert!(deps.contains(&"fd".to_string()));
    assert!(deps.contains(&"libc >=0.2.0".to_string()));
    assert!(deps.contains(&"?suggested-dep ^1.0".to_string()));
    assert_eq!(source_field(&pkg, "GitHub", "owner").unwrap(), "BurntSushi");
    assert_eq!(source_field(&pkg, "GitHub", "repo").unwrap(), "ripgrep");
}

#[test]
fn test_parse_nested_json_full() {
    let json = r#"{
    "name": "ripgrep",
    "version": "14.1.0",
    "source": { "type": "github", "owner": "BurntSushi", "repo": "ripgrep" },
    "dependencies": ["fd", "libc >=0.2.0", "?suggested-dep ^1.0"],
    "checksum": { "sha256": "e5f0b2a4c1d3f" },
    "architectures": { "supported": ["x86_64"] }
}"#;
    let pkg = normalize_manifest(from_json(json)).unwrap();
    assert_eq!(text(get(&pkg, "name")).unwrap(), "ripgrep");
    assert_eq!(text(get(&pkg, "sha256")).unwrap(), "e5f0b2a4c1d3f");
    assert_eq!(texts(get(&pkg, "architectures")), vec!["x86_64".to_string()]);
    assert_eq!(texts(get(&pkg, "dependencies")).len(), 3);
    assert_eq!(source_field(&pkg, "GitHub", "owner").unwrap(), "BurntSushi");
    assert_eq!(source_field(&pkg, "GitHub", "repo").unwrap(), "ripgrep");
}

#[test]
fn test_parse_nested_json_dependency_table() {
    let json = r#"{
    "name": "pkg",
    "version": "1.0.0",
    "dependencies": { "libc": ">=0.2.0", "?extra": "*" }
}"#;
    let pkg = normalize_manifest(from_json(json)).unwrap();
    let deps = texts(get(&pkg, "dependencies"));
    assert_eq!(deps.len(), 2);
    assert!(deps.contains(&"libc >=0.2.0".to_string()));
    assert!(deps.contains(&"?extra".to_string()));
}

#[test]
fn test_parse_nested_source_chocolatey_defaults_feed() {
    let toml = r#"
name = "7zip"
version = "23.1.0"

[source]
type = "chocolatey"
"#;
    let pkg = normalize_manifest(from_toml(toml)).unwrap();
    assert_eq!(
        source_field(&pkg, "Chocolatey", "feed_url").unwrap(),
        "https://community.chocolatey.org/api/v2"
    );
}

#[test]
fn test_parse_nested_source_chocolatey_custom_feed() {
    let toml = r#"
name = "7zip"
version = "23.1.0"

[source]
type = "choco"
feed_url = "https://internal.example.com/api/v2"
"#;
    let pkg = normalize_manifest(from_toml(toml)).unwrap();
    assert_eq!(source_field(&pkg, "Chocolatey", "feed_url").unwrap(), "https://internal.example.com/api/v2");
}

#[test]
fn test_parse_nested_source_system() {
    let toml = r#"
name = "ripgrep"
version = "13.0.0"

[source]
type = "system"
manager = "apt"
"#;
    let pkg = normalize_manifest(from_toml(toml)).unwrap();
    assert_eq!(source_field(&pkg, "System", "manager").unwrap(), "apt");
}

#[test]
fn test_parse_nested_source_system_missing_manager() {
    let toml = r#"
name = "ripgrep"
version = "13.0.0"

[source]
type = "system"
"#;
    let result = normalize_manifest(from_toml(toml));
    assert!(result.is_err());
}

#[test]
fn test_parse_nested_source_cargo() {
    let toml = r#"
name = "ripgrep"
version = "14.1.1"

[source]
type = "cargo"
crate_name = "ripgrep"
"#;
    let pkg = normalize_manifest(from_toml(toml)).unwrap();
    assert_eq!(source_field(&pkg, "Cargo", "crate_name").unwrap(), "ripgrep");
}

#[test]
fn test_parse_nested_source_cargo_defaults_to_package_name() {
    let toml = r#"
name = "ripgrep"
version = "14.1.1"

[source]
type = "crate"
"#;
    let pkg = normalize_manifest(from_toml(toml)).unwrap();
    assert_eq!(source_field(&pkg, "Cargo", "crate_name").unwrap(), "ripgrep");
}

#[test]
fn test_parse_nested_source_unknown_type_lists_cargo() {
    let toml = r#"
name = "pkg"
version = "1.0.0"

[source]
type = "npm"
"#;
    let message = invalid_message(normalize_manifest(from_toml(toml)).unwrap_err());
    assert!(message.contains("unknown source type 'npm'"));
    assert!(message.contains("cargo"));
}

#[test]
fn test_parse_nested_source_baller() {
    let toml = r#"
name = "pkg"
version = "1.0.0"

[source]
type = "baller"
url = "https://registry.baller.dev/api"
"#;
    let pkg = normalize_manifest(from_toml(toml)).unwrap();
    assert_eq!(source_field(&pkg, "BallerRegistry", "url").unwrap(), "https://registry.baller.dev/api");
}

#[test]
fn test_parse_nested_source_baller_missing_url() {
    let toml = r#"
name = "pkg"
version = "1.0.0"

[source]
type = "baller"
"#;
    let result = normalize_manifest(from_toml(toml));
    assert!(result.is_err());
}

#[test]
fn test_parse_nested_source_unknown_type() {
    let toml = r#"
name = "pkg"
version = "1.0.0"

[source]
type = "npm"
"#;
    let result = normalize_manifest(from_toml(toml));
    assert!(result.is_err());
    assert!(invalid_message(result.unwrap_err()).contains("npm"));
}

#[test]
fn test_parse_nested_github_source_from_repository_url() {
    let toml = r#"
name = "ripgrep"
version = "14.1.0"
repository = "https://github.com/BurntSushi/ripgrep"

[source]
type = "github"
"#;
    let pkg = normalize_manifest(from_toml(toml)).unwrap();
    assert_eq!(source_field(&pkg, "GitHub", "owner").unwrap(), "BurntSushi");
    assert_eq!(source_field(&pkg, "GitHub", "repo").unwrap(), "ripgrep");
}

#[test]
fn test_parse_nested_github_source_missing_owner() {
    let toml = r#"
name = "ripgrep"
version = "14.1.0"

[source]
type = "github"
"#;
    let result = normalize_manifest(from_toml(toml));
    assert!(result.is_err());
}

#[test]
fn test_parse_nested_architectures_without_supported() {
    let toml = r#"
name = "pkg"
version = "1.0.0"

[architectures]
notes = "unspecified"
"#;
    let pkg = normalize_manifest(from_toml(toml)).unwrap();
    assert!(get(&pkg, "architectures").is_none());
}

#[test]
fn test_flat_sha256_wins_over_checksum_table() {
    let toml = r#"
name = "pkg"
version = "1.0.0"
sha256 = "flat-hash"

[checksum]
sha256 = "nested-hash"
"#;
    let pkg = normalize_manifest(from_toml(toml)).unwrap();
    assert_eq!(text(get(&pkg, "sha256")).unwrap(), "flat-hash");
}

#[test]
fn test_checksum_algorithm_maps_to_hash_algorithm() {
    let toml = r#"
name = "pkg"
version = "1.0.0"

[checksum]
sha256 = "hash"
algorithm = "SHA512"
"#;
    let pkg = normalize_manifest(from_toml(toml)).unwrap();
    assert_eq!(text(get(&pkg, "hash_algorithm")).unwrap(), "SHA512");
}

#[test]
fn test_dependency_table_rejects_non_string_constraint() {
    let json = r#"{
    "name": "pkg",
    "version": "1.0.0",
    "dependencies": { "libc": 42 }
}"#;
    let message = invalid_message(normalize_manifest(from_json(json)).unwrap_err());
    assert_eq!(message, "dependency 'libc' must map to a version constraint string");
}

#[test]
fn test_dependency_table_rejects_blank_name() {
    let json = r#"{ "name": "pkg", "version": "1.0.0", "dependencies": { "  ": "1" } }"#;
    let message = invalid_message(normalize_manifest(from_json(json)).unwrap_err());
    assert_eq!(message, "dependency name cannot be empty");
}

#[test]
fn test_manifest_that_is_not_a_table_is_refused() {
    let message = invalid_message(normalize_manifest(from_json("[1, 2]")).unwrap_err());
    assert_eq!(message, "manifest must be a table of key/value pairs");
}

#[test]
fn test_source_type_must_be_a_string_and_source_a_table() {
    let bad_type = r#"{ "name": "p", "version": "1", "source": { "type": 3 } }"#;
    assert_eq!(
        invalid_message(normalize_manifest(from_json(bad_type)).unwrap_err()),
        "source 'type' must be a string"
    );
    let bad_source = r#"{ "name": "p", "version": "1", "source": "github" }"#;
    assert_eq!(
        invalid_message(normalize_manifest(from_json(bad_source)).unwrap_err()),
        "manifest 'source' must be a table"
    );
}

#[test]
fn test_flat_manifest_passes_through_and_normalizing_twice_changes_nothing() {
    let flat = r#"{ "name": "p", "version": "1", "dependencies": ["a"], "source": { "GitHub": { "owner": "o", "repo": "r" } } }"#;
    let once = normalize_manifest(from_json(flat)).unwrap();
    assert_eq!(format!("{:?}", once), format!("{:?}", from_json(flat)));
    let nested = r#"{ "name": "p", "version": "1", "source": { "type": " GitHub ", "owner": "o", "repo": "r" }, "checksum": { "hash_algorithm": "SHA256" } }"#;
    let first = normalize_manifest(from_json(nested)).unwrap();
    let shown = format!("{:?}", first);
    let second = normalize_manifest(first).unwrap();
    assert_eq!(format!("{:?}", second), shown);
    assert_eq!(text(get(&second, "hash_algorithm")).unwrap(), "SHA256");
}

#[test]
fn test_manifest_format_choices_and_validation() {
    assert_eq!(ManifestParser::format_for_path("dir/baller.json"), ManifestFormat::Json);
    assert_eq!(ManifestParser::format_for_path("dir/baller.toml"), ManifestFormat::Toml);
    assert_eq!(ManifestParser::format_for_path("dir/manifest"), ManifestFormat::Toml);
    assert_eq!(ManifestParser::serialize_format("JSON").unwrap(), ManifestFormat::Json);
    assert_eq!(
        invalid_message(ManifestParser::serialize_format("yaml").unwrap_err()),
        "Unsupported format: yaml"
    );
    let missing = ManifestParser::read_error(BallError::FileIoErr("gone".to_string()), "/x/baller.toml");
    assert_eq!(invalid_message(missing), "Manifest file not found: /x/baller.toml");
    let mut pkg = Package {
        name: String::new(),
        version: String::new(),
        description: None,
        author: None,
        repository: None,
        architectures: None,
        dependencies: None,
        sha256: None,
        hash_algorithm: None,
        download_url: None,
        source: PackageSource::Cargo { crate_name: "c".to_string() },
        advisory: None,
        vulnerabilities: Vec::new(),
    };
    assert_eq!(invalid_message(ManifestParser::validate(&pkg).unwrap_err()), "Package name is required");
    pkg.name = "p".to_string();
    assert_eq!(invalid_message(ManifestParser::validate(&pkg).unwrap_err()), "Package version is required");
    pkg.version = "1".to_string();
    assert!(ManifestParser::validate(&pkg).is_ok());
}

#[test]
fn test_parse_toml_valid() {
    let toml = r#"
name = "test-pkg"
version = "1.0.0"
description = "A test package"
author = "Test Author"
"#;
    let pkg = normalize_manifest(from_toml(toml)).unwrap();
    assert_eq!(text(get(&pkg, "name")).unwrap(), "test-pkg");
    assert_eq!(text(get(&pkg, "version")).unwrap(), "1.0.0");
    assert_eq!(text(get(&pkg, "description")).unwrap(), "A test package");
    assert_eq!(text(get(&pkg, "author")).unwrap(), "Test Author");
}

#[test]
fn test_parse_toml_with_all_fields() {
    let toml = r#"
name = "full-pkg"
version = "2.0.0"
description = "Full package"
author = "Author"
repository = "https://github.com/user/repo"
dependencies = ["dep1", "dep2 >=1.0"]
sha256 = "abc123"
download_url = "https://example.com/pkg.tar.gz"

[source]
GitHub = { owner = "owner", repo = "repo" }
"#;
    let pkg = normalize_manifest(from_toml(toml)).unwrap();
    assert_eq!(text(get(&pkg, "name")).unwrap(), "full-pkg");
    assert_eq!(text(get(&pkg, "version")).unwrap(), "2.0.0");
    assert_eq!(texts(get(&pkg, "dependencies")).len(), 2);
    assert_eq!(source_field(&pkg, "GitHub", "owner").unwrap(), "owner");
}

#[test]
fn test_parse_json_valid() {
    let json = r#"{
    "name": "json-pkg",
    "version": "3.0.0",
    "description": "A JSON package",
    "author": "JSON Author"
}"#;
    let pkg = normalize_manifest(from_json(json)).unwrap();
    assert_eq!(text(get(&pkg, "name")).unwrap(), "json-pkg");
    assert_eq!(text(get(&pkg, "version")).unwrap(), "3.0.0");
    assert_eq!(text(get(&pkg, "description")).unwrap(), "A JSON package");
}

#[test]
fn test_parse_toml_invalid() {
    let toml = "not valid toml {{{";
    let result = ManifestParser::parse_toml(toml);
    assert!(result.is_err());
    assert!(invalid_message(result.unwrap_err()).starts_with("Failed to parse TOML manifest: "));
}

#[test]
fn test_parse_json_invalid() {
    let json = "{ invalid json }";
    let result = ManifestParser::parse_json(json);
    assert!(result.is_err());
}

#[test]
fn test_parse_json_empty() {
    let result = ManifestParser::parse_json("");
    assert!(result.is_err());
    assert!(invalid_message(result.unwrap_err()).starts_with("Failed to parse JSON manifest: "));
}

#[test]
fn test_parse_toml_decodes_and_normalizes() {
    let toml = r#"
name = "ripgrep"
version = "14.1.0"

[source]
type = "github"
owner = "BurntSushi"
repo = "ripgrep"

[checksum]
sha256 = "hash"
"#;
    let pkg = ManifestParser::parse_toml(toml).unwrap();
    assert_eq!(text(get(&pkg, "name")).unwrap(), "ripgrep");
    assert_eq!(text(get(&pkg, "sha256")).unwrap(), "hash");
    assert_eq!(source_field(&pkg, "GitHub", "owner").unwrap(), "BurntSushi");
    let json = ManifestParser::parse_json(r#"{"name": "json-pkg", "version": "3.0.0"}"#).unwrap();
    assert_eq!(text(get(&json, "version")).unwrap(), "3.0.0");
}

#[test]
fn test_parse_toml_missing_required() {
    let toml = r#"
description = "missing name and version"
"#;
    let result = ManifestParser::parse_toml(toml);
    assert!(result.is_err());
}

#[test]
fn test_parse_json_missing_version_is_named() {
    let result = ManifestParser::parse_json(r#"{"name": "only-a-name"}"#);
    assert_eq!(
        invalid_message(result.unwrap_err()),
        "Failed to parse JSON manifest: missing field `version`"
    );
}
