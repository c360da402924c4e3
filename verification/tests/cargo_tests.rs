use baller::cargo::{
    info_field, package_from_search, parse_cargo_info, parse_cargo_search_output, parse_info_version, CargoRegistry,
};
use baller::error::BallError;
use baller::package::PackageSource;

const SEARCH_OUTPUT: &str = r#"serde = "1.0.229"         # A generic serialization/deserialization framework
ripgrep = "14.1.1"        # Line oriented search tool
bat = "0.24.0"
... and 20977 crates more (use --limit N to see more)
note: to learn more about a package, run `cargo info <name>`
"#;

const INFO_OUTPUT: &str = r#"serde #serde #serialization #no_std
A generic serialization/deserialization framework
version: 1.0.228 (latest 1.0.229)
license: MIT OR Apache-2.0
rust-version: 1.56
documentation: https://docs.rs/serde
homepage: https://serde.rs
repository: https://github.com/serde-rs/serde
crates.io: https://crates.io/crates/serde/1.0.228
features:
 +default      = [std]
  std          = [serde_core/std]
note: to see how you depend on serde, run `cargo tree --invert serde@1.0.228`
"#;

#[test]
fn test_parse_cargo_search_output() {
    let results = parse_cargo_search_output(SEARCH_OUTPUT);
    assert_eq!(results.len(), 3);
    assert_eq!(results[0].name, "serde");
    assert_eq!(results[0].version, "1.0.229");
    assert_eq!(results[0].description.as_deref(), Some("A generic serialization/deserialization framework"));
    assert_eq!(results[1].name, "ripgrep");
    assert_eq!(results[1].version, "14.1.1");
    assert_eq!(results[2].name, "bat");
    assert_eq!(results[2].description, None);
}

#[test]
fn test_parse_cargo_search_output_stamps_cargo_source() {
    let results = parse_cargo_search_output(SEARCH_OUTPUT);
    match &results[0].source {
        PackageSource::Cargo { crate_name } => assert_eq!(crate_name, "serde"),
        other => panic!("expected Cargo source, got {:?}", other),
    }
    assert!(results.iter().all(|pkg| pkg.download_url.is_none()));
    assert!(results.iter().all(|pkg| pkg.sha256.is_none()));
}

#[test]
fn test_parse_cargo_search_output_skips_notes_and_totals() {
    let results = parse_cargo_search_output(SEARCH_OUTPUT);
    assert!(!results.iter().any(|pkg| pkg.name.starts_with("...")));
    assert!(!results.iter().any(|pkg| pkg.name.starts_with("note")));
}

#[test]
fn test_parse_cargo_info() {
    let pkg = parse_cargo_info("serde", INFO_OUTPUT).unwrap();
    assert_eq!(pkg.name, "serde");
    assert_eq!(pkg.version, "1.0.229");
    assert_eq!(pkg.description.as_deref(), Some("A generic serialization/deserialization framework"));
    assert_eq!(pkg.repository.as_deref(), Some("https://github.com/serde-rs/serde"));
    assert_eq!(pkg.download_url, None);
    assert_eq!(pkg.sha256, None);
    match &pkg.source {
        PackageSource::Cargo { crate_name } => assert_eq!(crate_name, "serde"),
        other => panic!("expected Cargo source, got {:?}", other),
    }
}

#[test]
fn test_parse_info_version_without_latest() {
    assert_eq!(parse_info_version("1.0.229"), "1.0.229");
    assert_eq!(parse_info_version("1.0.228 (latest 1.0.229)"), "1.0.229");
}

#[test]
fn test_parse_cargo_info_keeps_description_containing_colon() {
    let output = "ripgrep\nrecursively searches: fast and friendly\nversion: 14.1.1\n";
    let pkg = parse_cargo_info("ripgrep", output).unwrap();
    assert_eq!(pkg.description.as_deref(), Some("recursively searches: fast and friendly"));
    assert_eq!(pkg.version, "14.1.1");
    assert_eq!(pkg.repository, None);
}

#[test]
fn test_parse_cargo_info_empty_output_is_not_found() {
    let err = parse_cargo_info("nope", "   \n").unwrap_err();
    assert!(matches!(err, BallError::PackageNotFound(_)));
}

#[test]
fn test_parse_cargo_info_without_version_is_not_found() {
    let err = parse_cargo_info("nope", "nope\nsome description\n").unwrap_err();
    assert!(matches!(err, BallError::PackageNotFound(_)));
}

#[test]
fn test_info_field_only_knows_cargo_keys() {
    assert_eq!(info_field("version: 1.0 "), Some(("version".to_string(), "1.0".to_string())));
    assert_eq!(info_field("crates.io: https://crates.io"), None);
    assert_eq!(info_field("no separator"), None);
}

#[test]
fn test_package_from_search_finds_the_exact_name() {
    let pkg = package_from_search("ripgrep", SEARCH_OUTPUT).unwrap();
    assert_eq!(pkg.version, "14.1.1");
    assert!(matches!(package_from_search("rip", SEARCH_OUTPUT), Err(BallError::PackageNotFound(_))));
}

#[test]
fn test_available_registry_reports_manager() {
    let registry = CargoRegistry::detect(true);
    assert_eq!(registry.manager_name(), Some("cargo"));
    assert!(registry.ensure_available().is_ok());
}

#[test]
fn test_unavailable_registry_has_no_manager() {
    let registry = CargoRegistry::detect(false);
    assert_eq!(registry.manager_name(), None);
}

#[test]
fn test_unavailable_registry_errors_on_fetch_and_search() {
    let registry = CargoRegistry::detect(false);
    assert!(matches!(registry.ensure_available().unwrap_err(), BallError::PackageManagerError(_)));
}
