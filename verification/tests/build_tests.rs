use baller::builds::{
    cargo_binary_missing, cargo_binary_names, cargo_build_failed, cargo_meta, check_cargo_project_options,
    check_not_on_roster, check_system_build, download_lookup, is_executable_artifact, manifest_lookup_error,
    merge_resolved, override_source, stem_matches, DownloadLookup, DEFAULT_CARGO_VERSION,
};
use baller::dep_graph::{detect_cycles, topological_sort};
use baller::dep_solver::{parse_dependency_line, Dependency};
use baller::draft::plan_action;
use baller::error::BallError;
use baller::injected::{dependencies_check, root_check};
use baller::package::{Package, PackageSource};
use baller::registry::{RegistryIndex, RegistrySource};
use baller::resolver::ResolveResult;
use baller::download::verify_digest;
use baller::utils::truncate_str;

fn take_ref(_: &dyn RegistryIndex) {}

fn message(e: BallError) -> String {
    e.message()
}

fn graph(entries: &[(&str, &[&str])]) -> Vec<(String, Vec<String>)> {
    entries
        .iter()
        .map(|(k, vs)| (k.to_string(), vs.iter().map(|v| v.to_string()).collect()))
        .collect()
}

#[test]
fn test_cargo_binary_names_dedupe_and_platform_suffix() {
    for windows in [false, true] {
        let hyphenated = cargo_binary_names("my-tool", windows);
        assert_eq!(hyphenated.len(), 2);

        let plain = cargo_binary_names("tool", windows);
        assert_eq!(plain.len(), 1);

        if windows {
            assert_eq!(hyphenated, vec!["my-tool.exe", "my_tool.exe"]);
            assert_eq!(plain, vec!["tool.exe"]);
        } else {
            assert_eq!(hyphenated, vec!["my-tool", "my_tool"]);
            assert_eq!(plain, vec!["tool"]);
        }
    }
}

#[test]
fn test_cargo_binary_names_on_each_platform() {
    assert_eq!(cargo_binary_names("a-b-c", true), vec!["a-b-c.exe", "a_b_c.exe"]);
    assert_eq!(cargo_binary_names("a-b-c", false), vec!["a-b-c", "a_b_c"]);
    assert_eq!(cargo_binary_names("a_b", false), vec!["a_b"]);
}

#[test]
fn test_executable_artifact_by_extension() {
    assert!(is_executable_artifact(None, false));
    assert!(!is_executable_artifact(Some("d"), false));
    assert!(is_executable_artifact(Some("exe"), true));
    assert!(!is_executable_artifact(Some("pdb"), true));
    assert!(!is_executable_artifact(None, true));
}

#[test]
fn test_stem_matches_ignores_case_and_dashes() {
    assert!(stem_matches("My-Tool", "my_tool"));
    assert!(stem_matches("my_tool", "my-tool"));
    assert!(!stem_matches("my-tool-2", "my-tool"));
}

#[test]
fn test_no_deps_clears_manifest_dependencies() {
    let mut pkg = Package::new("pkg", "1.0.0");
    pkg.dependencies = Some(vec!["dep".to_string()]);

    let no_deps = true;
    if no_deps {
        pkg.dependencies = None;
    }

    assert!(pkg.dependencies.is_none());
}

#[test]
fn test_cargo_meta_defaults() {
    let meta = cargo_meta("/p/Cargo.toml", Some("tool"), None, None).unwrap();
    assert_eq!(meta.name, "tool");
    assert_eq!(meta.version, DEFAULT_CARGO_VERSION);
    assert_eq!(meta.bin, "tool");

    let meta = cargo_meta("/p/Cargo.toml", Some("tool"), Some("1.2.0"), Some("tool-cli")).unwrap();
    assert_eq!(meta.version, "1.2.0");
    assert_eq!(meta.bin, "tool-cli");

    let err = cargo_meta("/p/Cargo.toml", None, Some("1.0.0"), None).unwrap_err();
    assert_eq!(
        message(err),
        "/p/Cargo.toml has no [package] name — workspace roots are not supported"
    );
}

#[test]
fn test_override_source_github_reads_repository() {
    let mut pkg = Package::new("rg", "14.0.0");
    pkg.repository = Some("https://github.com/BurntSushi/ripgrep".to_string());
    pkg.download_url = Some("https://example.test/rg.tar.gz".to_string());
    override_source(&mut pkg, RegistrySource::GitHub, "feed", "reg", None, None).unwrap();
    assert_eq!(
        pkg.source,
        PackageSource::GitHub { owner: "BurntSushi".to_string(), repo: "ripgrep".to_string() }
    );
    assert!(pkg.download_url.is_none());
}

#[test]
fn test_override_source_errors_leave_the_package_alone() {
    let mut pkg = Package::new("rg", "14.0.0");
    pkg.download_url = Some("https://example.test/rg.tar.gz".to_string());
    let err = override_source(&mut pkg, RegistrySource::GitHub, "feed", "reg", None, None).unwrap_err();
    assert_eq!(
        message(err),
        "--source github needs a github.com 'repository' URL in the manifest"
    );
    assert_eq!(pkg.download_url.as_deref(), Some("https://example.test/rg.tar.gz"));

    pkg.repository = Some("https://gitlab.com/x/y".to_string());
    let err = override_source(&mut pkg, RegistrySource::GitHub, "feed", "reg", None, None).unwrap_err();
    assert_eq!(
        message(err),
        "--source github could not read owner/repo from 'https://gitlab.com/x/y'"
    );

    let err = override_source(&mut pkg, RegistrySource::System, "feed", "reg", None, None).unwrap_err();
    assert!(matches!(err, BallError::UnsupportedOs(_)));

    let err = override_source(&mut pkg, RegistrySource::Cargo, "feed", "reg", None, None).unwrap_err();
    assert!(matches!(err, BallError::PackageManagerError(_)));
}

#[test]
fn test_override_source_each_registry() {
    let mut pkg = Package::new("tool", "1.0.0");
    override_source(&mut pkg, RegistrySource::Chocolatey, "https://feed", "https://reg", None, None).unwrap();
    assert_eq!(pkg.source, PackageSource::Chocolatey { feed_url: "https://feed".to_string() });
    override_source(&mut pkg, RegistrySource::BallerRegistry, "https://feed", "https://reg", None, None).unwrap();
    assert_eq!(pkg.source, PackageSource::BallerRegistry { url: "https://reg".to_string() });
    override_source(&mut pkg, RegistrySource::System, "f", "r", Some("apt"), None).unwrap();
    assert_eq!(pkg.source, PackageSource::System { manager: "apt".to_string() });
    override_source(&mut pkg, RegistrySource::Cargo, "f", "r", None, Some("cargo")).unwrap();
    assert_eq!(pkg.source, PackageSource::Cargo { crate_name: "tool".to_string() });
}

#[test]
fn test_download_lookup_by_source() {
    let mut pkg = Package::new("tool", "1.0.0");
    pkg.source = PackageSource::GitHub { owner: "o".to_string(), repo: "r".to_string() };
    match download_lookup(&pkg).unwrap() {
        Some(DownloadLookup::GitHub { slug }) => assert_eq!(slug, "o/r"),
        other => panic!("unexpected {:?}", other),
    }

    let pkg = Package::new("tool", "1.0.0");
    let err = download_lookup(&pkg).unwrap_err();
    assert_eq!(message(err), "'tool' has no download_url and an incomplete github source");

    let mut pkg = Package::new("tool", "1.0.0");
    pkg.source = PackageSource::Cargo { crate_name: "tool".to_string() };
    assert!(download_lookup(&pkg).unwrap().is_none());
}

#[test]
fn test_merge_resolved_fills_what_the_manifest_lacks() {
    let mut pkg = Package::new("tool", "1.0.0");
    let mut resolved = Package::new("tool", "1.1.0");
    resolved.download_url = Some("https://dl.test/tool.tgz".to_string());
    resolved.sha256 = Some("abc".to_string());
    resolved.hash_algorithm = Some("SHA256".to_string());
    merge_resolved(&mut pkg, &resolved).unwrap();
    assert_eq!(pkg.version, "1.1.0");
    assert_eq!(pkg.download_url.as_deref(), Some("https://dl.test/tool.tgz"));
    assert_eq!(pkg.sha256.as_deref(), Some("abc"));
    assert_eq!(pkg.hash_algorithm.as_deref(), Some("SHA256"));

    let mut keep = Package::new("tool", "1.0.0");
    keep.sha256 = Some("mine".to_string());
    let mut empty_version = Package::new("tool", "");
    empty_version.download_url = Some("u".to_string());
    empty_version.sha256 = Some("theirs".to_string());
    merge_resolved(&mut keep, &empty_version).unwrap();
    assert_eq!(keep.version, "1.0.0");
    assert_eq!(keep.sha256.as_deref(), Some("mine"));

    let mut pkg = Package::new("tool", "1.0.0");
    let err = merge_resolved(&mut pkg, &Package::new("tool", "2.0.0")).unwrap_err();
    assert_eq!(
        message(err),
        "network error: no download URL found for 'tool' — add 'download_url' to the manifest"
    );
    assert_eq!(pkg.version, "1.0.0");
}

#[test]
fn test_build_guards() {
    assert!(check_not_on_roster(false, false, "x").is_ok());
    assert!(check_not_on_roster(true, true, "x").is_ok());
    assert_eq!(
        message(check_not_on_roster(true, false, "x").unwrap_err()),
        "'x' is already on the roster — pass --force to build over it"
    );
    assert!(check_system_build(true, "x", "apt").is_ok());
    assert!(matches!(check_system_build(false, "x", "apt"), Err(BallError::UnsupportedOs(_))));
    assert!(check_cargo_project_options(false, false).is_ok());
    assert!(check_cargo_project_options(true, false).is_err());
    assert!(check_cargo_project_options(false, true).is_err());
    assert_eq!(
        message(manifest_lookup_error("/nonexistent/baller.toml", false)),
        "manifest not found: /nonexistent/baller.toml"
    );
    assert_eq!(
        message(manifest_lookup_error("/tmp/proj", true)),
        "no baller.toml or baller.json found in '/tmp/proj'"
    );
    assert_eq!(
        message(cargo_binary_missing("tool", "/p/target/release")),
        "package manager error: cargo build --release left no 'tool' binary in /p/target/release"
    );
    let failed = message(cargo_build_failed("/p", "error: one\n\nerror: two\n"));
    assert_eq!(
        failed,
        "package manager error: cargo build --release failed in '/p':\nerror: one\nerror: two"
    );
}

#[test]
fn test_plan_action_install() {
    let installed: Vec<(String, String)> = Vec::new();
    assert_eq!(plan_action(&"fresh".to_string(), &installed, false), "install");
}

#[test]
fn test_plan_action_skip_when_installed() {
    let installed = vec![("present".to_string(), "1.0.0".to_string())];
    assert_eq!(
        plan_action(&"present".to_string(), &installed, false),
        "skip — already installed"
    );
}

#[test]
fn test_plan_action_reinstall_with_force() {
    let installed = vec![("present".to_string(), "1.0.0".to_string())];
    assert_eq!(plan_action(&"present".to_string(), &installed, true), "reinstall");
}

#[test]
fn test_check_dependencies_passes_when_all_present() {
    let depends = vec!["sh".to_string()];
    assert!(dependencies_check("my-tool", &depends, &vec![true]).is_ok());
}

#[test]
fn test_check_dependencies_reports_missing_dependency() {
    let depends = vec!["definitely-not-a-real-binary-xyz123".to_string()];
    let err = dependencies_check("my-tool", &depends, &vec![false]).unwrap_err();
    let msg = err.message();
    assert!(msg.contains("my-tool"));
    assert!(msg.contains("definitely-not-a-real-binary-xyz123"));
    assert!(msg.contains("not found on PATH"));
}

#[test]
fn test_check_dependencies_noop_without_dependencies() {
    assert!(dependencies_check("my-tool", &Vec::new(), &Vec::new()).is_ok());
}

#[test]
fn test_check_root_errors_when_unprivileged() {
    let err = root_check(Some(false), "my-tool").unwrap_err();
    assert!(err.message().contains("requires root privileges"));
    assert_eq!(root_check(Some(true), "my-tool").unwrap(), false);
    assert_eq!(root_check(None, "my-tool").unwrap(), true);
}

#[test]
fn test_package_new() {
    let pkg = Package::new("test-pkg", "1.0.0");
    assert_eq!(pkg.name, "test-pkg");
    assert_eq!(pkg.version, "1.0.0");
    assert_eq!(pkg.description, None);
    assert_eq!(pkg.author, None);
    assert_eq!(pkg.sha256, None);
    assert_eq!(pkg.download_url, None);
    assert_eq!(pkg.dependencies, None);
    match &pkg.source {
        PackageSource::GitHub { owner, repo } => {
            assert_eq!(owner, "");
            assert_eq!(repo, "test-pkg");
        }
        _ => panic!("expected GitHub source"),
    }
}

#[test]
fn test_package_clone() {
    let pkg = Package::new("clone-test", "1.0.0");
    let cloned = pkg.clone();
    assert_eq!(pkg.name, cloned.name);
    assert_eq!(pkg.version, cloned.version);
}

#[test]
fn test_registry_index_trait_object() {
    let _ = take_ref;
}

#[test]
fn test_resolve_result_debug() {
    let result = ResolveResult { packages: vec![], unresolved: vec![] };
    let debug = format!("{:?}", result);
    assert!(debug.contains("packages"));
}

#[test]
fn test_dependency_debug() {
    let dep: Dependency = parse_dependency_line("test").unwrap();
    let debug = format!("{:?}", dep);
    assert!(debug.contains("test"));
}

#[test]
fn test_dep_solver_graph_operations() {
    let g = graph(&[("root", &["a", "b"]), ("a", &["c"]), ("b", &["c"]), ("c", &[])]);
    assert!(detect_cycles(&g).is_ok());
    let order = topological_sort(&g).unwrap();
    assert_eq!(order.len(), 4);
    assert!(order.iter().position(|n| n == "c") < order.iter().position(|n| n == "a"));
    assert!(order.iter().position(|n| n == "c") < order.iter().position(|n| n == "b"));
}

#[test]
fn test_dep_solver_cycle_detection() {
    let g = graph(&[("x", &["y"]), ("y", &["z"]), ("z", &["x"])]);
    assert!(detect_cycles(&g).is_err());
}

#[test]
fn test_dependency_parsing_edge_cases() {
    let dep = parse_dependency_line("?").unwrap();
    assert_eq!(dep.name, "");
    assert!(dep.optional);

    let dep = parse_dependency_line("").unwrap();
    assert_eq!(dep.name, "");

    let dep = parse_dependency_line("pkg >=1.0.0-alpha.1").unwrap();
    assert_eq!(dep.name, "pkg");
    assert!(!dep.optional);
}

#[test]
fn test_error_cross_module_consistency() {
    let ball_err = BallError::FileIoErr("test".to_string());
    assert!(ball_err.message().contains("test"));

    let network_err = BallError::NetworkError("connection refused".to_string());
    assert!(network_err.message().contains("connection refused"));

    let pkg_err = BallError::PackageNotFound("missing".to_string());
    assert!(pkg_err.message().contains("missing"));
}

#[test]
fn test_dependency_struct_usage() {
    let dep: Dependency = parse_dependency_line("test-dep >=1.0").unwrap();
    assert_eq!(dep.name, "test-dep");
    assert!(!dep.optional);
}

#[test]
fn test_verify_digest_ignores_hex_case() {
    assert!(verify_digest("ABCDEF01", "abcdef01").is_ok());
    let err = verify_digest("abcd", "abce").unwrap_err();
    assert_eq!(message(err), "hash verification failed: expected abcd, got abce");
}

#[test]
fn test_truncate_str_keeps_short_text() {
    assert_eq!(truncate_str("short", 10), "short");
    assert_eq!(truncate_str("exactly ten", 11), "exactly ten");
    assert_eq!(truncate_str("a much longer description", 10), "a much ...");
}
