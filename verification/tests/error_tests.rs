use baller::error::BallError;

#[test]
fn test_unsupported_os_display() {
    let err = BallError::UnsupportedOs("windows".to_string());
    let msg = err.message();
    assert!(msg.contains("windows"));
    assert!(msg.contains("unsupported"));
}

#[test]
fn test_unsupported_command_display() {
    let err = BallError::UnsupportedCommand("foobar".to_string());
    let msg = err.message();
    assert!(msg.contains("foobar"));
    assert!(msg.contains("command does not exist"));
}

#[test]
fn test_unknown_parameter_display() {
    let err = BallError::UnknownParameter("--xyz".to_string());
    let msg = err.message();
    assert!(msg.contains("--xyz"));
}

#[test]
fn test_file_io_err_display() {
    let err = BallError::FileIoErr("file not found".to_string());
    let msg = err.message();
    assert!(msg.contains("file not found"));
}

#[test]
fn test_invalid_config_display() {
    let err = BallError::InvalidConfig("bad config".to_string());
    assert_eq!(err.message(), "bad config");
}

#[test]
fn test_unknown_config_entry_display() {
    let err = BallError::UnknownConfigEntry((5, "foo".to_string()));
    let msg = err.message();
    assert!(msg.contains("line[5]"));
    assert!(msg.contains("foo"));
}

#[test]
fn test_network_error_display() {
    let err = BallError::NetworkError("timeout".to_string());
    let msg = err.message();
    assert!(msg.contains("network error"));
    assert!(msg.contains("timeout"));
}

#[test]
fn test_package_not_found_display() {
    let err = BallError::PackageNotFound("myapp".to_string());
    let msg = err.message();
    assert!(msg.contains("package not found"));
    assert!(msg.contains("myapp"));
}

#[test]
fn test_hash_mismatch_display() {
    let err = BallError::HashMismatch("expected abc got def".to_string());
    let msg = err.message();
    assert!(msg.contains("hash verification failed"));
    assert!(msg.contains("expected abc got def"));
}

#[test]
fn test_extraction_failed_display() {
    let err = BallError::ExtractionFailed("corrupt archive".to_string());
    let msg = err.message();
    assert!(msg.contains("failed to extract package"));
    assert!(msg.contains("corrupt archive"));
}

#[test]
fn test_dependency_cycle_display() {
    let err = BallError::DependencyCycle("a -> b -> a".to_string());
    let msg = err.message();
    assert!(msg.contains("dependency cycle detected"));
    assert!(msg.contains("a -> b -> a"));
}

#[test]
fn test_version_conflict_display() {
    let err = BallError::VersionConflict("a v1 vs b v2".to_string());
    let msg = err.message();
    assert!(msg.contains("version conflict"));
    assert!(msg.contains("a v1 vs b v2"));
}

#[test]
fn test_package_frozen_display() {
    let err = BallError::PackageFrozen("myapp".to_string());
    let msg = err.message();
    assert!(msg.contains("myapp"));
    assert!(msg.contains("frozen"));
}

#[test]
fn test_debug_format() {
    let err = BallError::PackageNotFound("test".to_string());
    let debug = format!("{:?}", err);
    assert!(debug.contains("PackageNotFound"));
}

#[test]
fn test_package_manager_error_display() {
    let err = BallError::PackageManagerError("no package manager detected".to_string());
    let msg = err.message();
    assert!(msg.contains("package manager error"));
    assert!(msg.contains("no package manager detected"));

    let debug = format!("{:?}", err);
    assert!(debug.contains("PackageManagerError"));
}

#[test]
fn test_no_matching_asset_lists_assets_or_none() {
    let err = BallError::NoMatchingAsset {
        package: "tool".to_string(),
        platform: "linux-x86_64".to_string(),
        assets: vec!["a.zip".to_string(), "b.tar.gz".to_string()],
    };
    assert_eq!(err.message(), "no linux-x86_64 asset for 'tool' (available: a.zip, b.tar.gz)");
    let none = BallError::NoMatchingAsset {
        package: "tool".to_string(),
        platform: "linux-x86_64".to_string(),
        assets: vec![],
    };
    assert_eq!(none.message(), "no linux-x86_64 asset for 'tool' (available: none)");
}
