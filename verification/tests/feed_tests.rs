use baller::download::{archive_kind, ArchiveKind};
use baller::download::{download_url, hash_check, HashCheck};
use baller::package::Package;
use baller::records::{dependency_row, serialize_source};
use baller::http::{backoff_secs, exhausted, status_step, transport_error, RequestKind, StatusStep};
use baller::injected::{dependencies_check, launch_failure, missing_binary, passthrough_exit, root_check};
use baller::chocolatey::{
    derive_download_url, fetch_url, normalize_nuget_version, package_from_reply, parse_nuget_dependencies,
    pinned_fetch_url, search_hit, search_url, FeedEntry,
};
use baller::commands::{missing_binary_error, not_a_file_error, validate_command_name};
use baller::error::BallError;
use baller::package::PackageSource;
use baller::registry::{debug_name, pin_refusal, pinned_name, search_is_full, tried_line, RegistrySource};

fn entry() -> FeedEntry {
    FeedEntry {
        id: "7zip".to_string(),
        version: "23.1.0.0".to_string(),
        description: Some("archiver".to_string()),
        authors: Some("Igor".to_string()),
        package_hash: Some("abc".to_string()),
        package_hash_algorithm: Some("sha512".to_string()),
        dependencies: Some("7zip.install:[23.1.0]|chocolatey-core.extension:1.3.3|bare".to_string()),
        project_url: Some("https://7-zip.org".to_string()),
        media_src: None,
    }
}

#[test]
fn test_nuget_version_drops_a_fourth_zero() {
    assert_eq!(normalize_nuget_version("23.1.0.0"), "23.1.0");
    assert_eq!(normalize_nuget_version("23.1.0.5"), "23.1.0.5");
    assert_eq!(normalize_nuget_version("1.2"), "1.2");
}

#[test]
fn test_nuget_dependencies_take_each_groups_second_part() {
    let deps = parse_nuget_dependencies(&entry().dependencies).unwrap();
    assert_eq!(deps, vec!["[23.1.0]".to_string(), "1.3.3".to_string()]);
    assert_eq!(parse_nuget_dependencies(&Some(String::new())), None);
    assert_eq!(parse_nuget_dependencies(&Some("bare".to_string())), None);
    assert_eq!(parse_nuget_dependencies(&None), None);
}

#[test]
fn test_download_url_prefers_media_link() {
    assert_eq!(
        derive_download_url(&entry()).unwrap(),
        "https://community.chocolatey.org/api/package/7zip/23.1.0.0"
    );
    let mut e = entry();
    e.media_src = Some("https://cdn/7zip.nupkg".to_string());
    assert_eq!(derive_download_url(&e).unwrap(), "https://cdn/7zip.nupkg");
    e.media_src = Some(String::new());
    assert_eq!(
        derive_download_url(&e).unwrap(),
        "https://community.chocolatey.org/api/package/7zip/23.1.0.0"
    );
}

#[test]
fn test_feed_queries() {
    assert_eq!(
        fetch_url("https://feed/api/v2//", "git"),
        "https://feed/api/v2/Packages()?$filter=Id eq 'git'&$orderby=Version desc&$top=1&$select=Id,Version,Description,Authors,PackageHash,PackageHashAlgorithm,ProjectUrl"
    );
    assert_eq!(
        search_url("https://feed/api/v2", "zip"),
        "https://feed/api/v2/Packages()?$filter=substringof('zip',Id)&$orderby=DownloadCount desc&$top=20&$select=Id,Version,Description"
    );
}

#[test]
fn test_feed_entry_becomes_package() {
    let pkg = package_from_reply(&vec![entry()], "7zip", "https://feed").unwrap();
    assert_eq!(pkg.version, "23.1.0");
    assert_eq!(pkg.hash_algorithm.as_deref(), Some("SHA512"));
    assert_eq!(pkg.repository.as_deref(), Some("https://7-zip.org"));
    assert!(matches!(pkg.source, PackageSource::Chocolatey { ref feed_url } if feed_url == "https://feed"));
    assert!(matches!(package_from_reply(&vec![], "nope", "f"), Err(BallError::PackageNotFound(n)) if n == "nope"));
    let hit = search_hit(&entry(), "f");
    assert_eq!(hit.author, None);
    assert_eq!(hit.description.as_deref(), Some("archiver"));
}

#[test]
fn test_valid_injected_names_pass() {
    assert!(validate_command_name("my-tool").is_ok());
    assert!(validate_command_name("_x9").is_ok());
}

#[test]
fn test_injected_name_checks_in_order() {
    match validate_command_name("Draft").unwrap_err() {
        BallError::InjectedCommandError(m) => assert!(m.contains("built-in")),
        other => panic!("unexpected {:?}", other),
    }
    match validate_command_name("my tool").unwrap_err() {
        BallError::InjectedCommandError(m) => assert!(m.contains("whitespace")),
        other => panic!("unexpected {:?}", other),
    }
    match validate_command_name("-tool").unwrap_err() {
        BallError::InjectedCommandError(m) => assert!(m.contains("must start with")),
        other => panic!("unexpected {:?}", other),
    }
    match missing_binary_error("/x", "t") {
        BallError::InjectedCommandError(m) => assert_eq!(m, "no binary found at '/x' for command 't'"),
        other => panic!("unexpected {:?}", other),
    }
    match not_a_file_error("/x", "t") {
        BallError::InjectedCommandError(m) => assert_eq!(m, "'/x' is not a file: expected an executable for command 't'"),
        other => panic!("unexpected {:?}", other),
    }
}

#[test]
fn test_source_chain_helpers() {
    assert_eq!(debug_name(RegistrySource::BallerRegistry), "BallerRegistry");
    assert_eq!(
        tried_line(RegistrySource::GitHub, &BallError::NetworkError("timeout".to_string())),
        "GitHub: network error: timeout"
    );
    assert!(pin_refusal(RegistrySource::GitHub, "x").is_none());
    assert!(matches!(pin_refusal(RegistrySource::BallerRegistry, "x"), Some(BallError::UnsupportedCommand(_))));
    assert!(matches!(pin_refusal(RegistrySource::System, "x"), Some(BallError::PackageManagerError(m)) if m.contains("'x'")));
    assert_eq!(pinned_name("rg", "14"), "rg@14");
    assert!(search_is_full(20));
    assert!(!search_is_full(19));
}

#[test]
fn test_archive_kinds_by_name() {
    assert_eq!(archive_kind("rg-14.tar.gz"), ArchiveKind::TarGz);
    assert_eq!(archive_kind("x.tgz"), ArchiveKind::TarGz);
    assert_eq!(archive_kind("x.tar.bz2"), ArchiveKind::TarBz2);
    assert_eq!(archive_kind("x.txz"), ArchiveKind::TarXz);
    assert_eq!(archive_kind("x.tar"), ArchiveKind::Tar);
    assert_eq!(archive_kind("x.nupkg"), ArchiveKind::Zip);
    assert_eq!(archive_kind("x.gz"), ArchiveKind::Gz);
    assert_eq!(archive_kind("download"), ArchiveKind::Unknown);
}

#[test]
fn test_download_url_and_hash_check() {
    let mut pkg = Package::new("tool", "1.0.0");
    pkg.source = PackageSource::System { manager: "apt".to_string() };
    assert!(matches!(download_url(&pkg), Err(BallError::PackageManagerError(m)) if m.contains("system package")));
    pkg.source = PackageSource::Cargo { crate_name: "tool".to_string() };
    assert!(matches!(download_url(&pkg), Err(BallError::PackageManagerError(m)) if m.contains("cargo install")));
    pkg.source = PackageSource::BallerRegistry { url: "u".to_string() };
    assert!(matches!(download_url(&pkg), Err(BallError::NetworkError(_))));
    pkg.download_url = Some("https://x/tool.zip".to_string());
    assert_eq!(download_url(&pkg).unwrap(), "https://x/tool.zip");

    assert_eq!(hash_check(&pkg).unwrap(), None);
    pkg.sha256 = Some("AAEC/w==".to_string());
    pkg.hash_algorithm = Some("sha-512".to_string());
    assert_eq!(hash_check(&pkg).unwrap(), Some(HashCheck::Sha512("000102ff".to_string())));
    pkg.hash_algorithm = None;
    assert_eq!(hash_check(&pkg).unwrap(), Some(HashCheck::Sha256("AAEC/w==".to_string())));
    pkg.sha256 = Some("***".to_string());
    pkg.hash_algorithm = Some("SHA512".to_string());
    assert!(matches!(hash_check(&pkg), Err(BallError::HashMismatch(m)) if m.starts_with("invalid base64 hash: ")));
}

#[test]
fn test_database_rows() {
    assert_eq!(
        serialize_source(&PackageSource::GitHub { owner: "o".to_string(), repo: "r".to_string() }),
        ("github".to_string(), Some("o/r".to_string()))
    );
    assert_eq!(
        serialize_source(&PackageSource::BallerRegistry { url: "u".to_string() }),
        ("baller_registry".to_string(), Some("u".to_string()))
    );
    assert_eq!(dependency_row("libc >=0.2"), ("libc".to_string(), "0.2".to_string()));
    assert_eq!(dependency_row("fd"), ("fd".to_string(), "latest".to_string()));
    assert_eq!(dependency_row("a>==1 "), ("a".to_string(), "1".to_string()));
}

#[test]
fn test_http_retry_policy() {
    assert!(matches!(status_step(200, "200 OK", "u", RequestKind::Json), StatusStep::Accept));
    assert!(matches!(status_step(404, "404 Not Found", "u", RequestKind::Text), StatusStep::Fail(BallError::PackageNotFound(m)) if m == "u"));
    assert!(matches!(status_step(403, "403 Forbidden", "u", RequestKind::Json), StatusStep::Fail(BallError::NetworkError(m)) if m == "rate limited or forbidden when accessing u: 403 Forbidden"));
    assert!(matches!(status_step(403, "403 Forbidden", "u", RequestKind::Download), StatusStep::Retry(BallError::NetworkError(m)) if m == "HTTP 403 Forbidden when downloading u"));
    assert!(matches!(status_step(500, "500 Internal Server Error", "u", RequestKind::Text), StatusStep::Retry(_)));
    assert!(matches!(transport_error("u", 1, "reset", RequestKind::Json), BallError::NetworkError(m) if m == "request to u failed (attempt 2): reset"));
    assert_eq!(backoff_secs(0), Some(1));
    assert_eq!(backoff_secs(1), Some(2));
    assert_eq!(backoff_secs(2), None);
    assert!(matches!(exhausted("u", None), BallError::NetworkError(m) if m == "all retries exhausted for u"));
}

#[test]
fn test_injected_command_run_checks() {
    assert_eq!(root_check(Some(true), "t").unwrap(), false);
    assert_eq!(root_check(None, "t").unwrap(), true);
    assert!(matches!(root_check(Some(false), "t"), Err(BallError::InjectedCommandError(m)) if m.contains("requires root")));
    let deps = vec!["python3".to_string(), "ffmpeg".to_string()];
    assert!(dependencies_check("t", &deps, &vec![true, true]).is_ok());
    assert!(matches!(
        dependencies_check("t", &deps, &vec![true, false]),
        Err(BallError::InjectedCommandError(m)) if m == "'t' requires 'ffmpeg', which was not found on PATH"
    ));
    assert!(matches!(missing_binary("t", "/b"), BallError::InjectedCommandError(m) if m == "binary for 't' is missing from '/b': re-inject it or fix the path"));
    assert!(matches!(launch_failure("t", "/b", "denied"), BallError::InjectedCommandError(m) if m == "failed to run 't' (/b): denied"));
    assert_eq!(passthrough_exit(Some(0)), None);
    assert_eq!(passthrough_exit(Some(3)), Some(3));
    assert_eq!(passthrough_exit(None), None);
}

#[test]
fn test_pinned_fetch_url_names_the_version() {
    assert_eq!(
        pinned_fetch_url("https://feed.example/api/v2/", "git", "2.43.0"),
        "https://feed.example/api/v2/Packages()?$filter=Id eq 'git' and Version eq '2.43.0'&$top=1&$select=Id,Version,Description,Authors,PackageHash,PackageHashAlgorithm,ProjectUrl"
    );
}
