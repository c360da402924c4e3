use baller::cli::{external_invocation, is_display_request, BallerCommand, CliErrorKind, CommandTypes, ParsedCommand};
use baller::commands::{remote_query, roster_filter, InstalledPackage, RosterOptions};
use baller::draft::{check_source_supported, install_route, plan_action, plan_role, post_install_env, DraftSession, InstallRoute};
use baller::error::BallError;
use baller::package::{Package, PackageSource};
use baller::registry::RegistrySource;
use baller::removal::{check_not_frozen, check_substitution, is_orphan, removal_outcome, RemovalOutcome};
use baller::sweep::{mention_kept, sweep_mode, sweep_plan, SweepPlan};
use baller::update::{
    decide, extract_dir_name, missing_dependencies, should_check, update_hook_env, StaleEntry, UpdateDecision,
    UpdateOutcome, UpdateTally,
};
use baller::utils::{format_size, parse_size, sanitize_filename};

fn package(name: &str, source: PackageSource) -> Package {
    Package {
        name: name.to_string(),
        version: "1.0.0".to_string(),
        description: None,
        author: None,
        repository: None,
        architectures: None,
        dependencies: None,
        sha256: None,
        hash_algorithm: None,
        download_url: None,
        source,
        advisory: None,
        vulnerabilities: Vec::new(),
    }
}

fn installed(name: &str, source: &str, frozen: bool) -> InstalledPackage {
    InstalledPackage {
        name: name.to_string(),
        version: "1.0.0".to_string(),
        source: source.to_string(),
        source_detail: None,
        description: None,
        author: None,
        repository: None,
        download_url: None,
        sha256: None,
        frozen,
        user_installed: true,
        install_path: String::new(),
        bin_path: None,
        manifest_path: None,
        installed_at: String::new(),
    }
}

#[test]
fn test_format_size_zero() {
    assert_eq!(format_size(0), "0 bytes");
}

#[test]
fn test_format_size_bytes() {
    assert_eq!(format_size(500), "500 bytes");
}

#[test]
fn test_format_size_kb() {
    let result = format_size(1536);
    assert!(result.contains("KB"));
    assert!(result.contains("1.5"));
}

#[test]
fn test_format_size_mb() {
    let result = format_size(10_485_760);
    assert!(result.contains("MB"));
    assert!(result.contains("10"));
}

#[test]
fn test_format_size_gb() {
    let result = format_size(2_147_483_648);
    assert!(result.contains("GB"));
    assert!(result.contains("2"));
}

#[test]
fn test_format_size_exact_texts() {
    assert_eq!(format_size(1023), "1023 bytes");
    assert_eq!(format_size(1024), "1.0 KB");
    assert_eq!(format_size(1536), "1.5 KB");
    assert_eq!(format_size(10_485_760), "10.0 MB");
    assert_eq!(format_size(2_147_483_648), "2.0 GB");
}

#[test]
fn test_parse_size_units() {
    assert_eq!(parse_size("50MB").unwrap(), 50 * 1024 * 1024);
    assert_eq!(parse_size(" 2 gb ").unwrap(), 2 * 1024 * 1024 * 1024);
    assert_eq!(parse_size("10k").unwrap(), 10 * 1024);
    assert_eq!(parse_size("700").unwrap(), 700);
    assert!(matches!(parse_size("MB"), Err(BallError::InvalidConfig(_))));
    assert!(matches!(parse_size("5TB"), Err(BallError::InvalidConfig(_))));
    assert!(matches!(parse_size("99999999999999999999"), Err(BallError::InvalidConfig(_))));
}

#[test]
fn test_fs_sanitize_url_as_filename() {
    let url = "https://github.com/owner/repo/releases/download/v1.0.0/package.tar.gz";
    let sanitized = sanitize_filename(url);
    assert!(!sanitized.contains('/'));
    assert!(!sanitized.contains(':'));
    assert!(sanitized.contains("github.com"));
    assert!(sanitized.ends_with(".tar.gz") || sanitized.ends_with(".gz"));
}

#[test]
fn test_sanitize_replaces_every_other_character() {
    assert_eq!(sanitize_filename("hello:world?test=1&2"), "hello_world_test_1_2");
}

#[test]
fn test_update_skips_frozen_unless_included() {
    assert!(!should_check(true, false));
    assert!(should_check(true, true));
    assert!(should_check(false, false));
}

#[test]
fn test_update_decision_by_version_order() {
    assert_eq!(decide("1.0.0", "1.2.0", false), UpdateDecision::Apply);
    assert_eq!(decide("1.0.0", "1.2.0", true), UpdateDecision::Stale);
    assert_eq!(decide("2.0.0", "1.9.0", false), UpdateDecision::UpToDate);
    assert_eq!(decide("1.0.0-1", "1.0.0", false), UpdateDecision::UpToDate);
    assert_eq!(decide("nightly", "nightly-2", false), UpdateDecision::Apply);
}

#[test]
fn test_update_tally_counts_each_package_once() {
    let mut t = UpdateTally::new();
    t.record_frozen("a".to_string());
    t.record_current("b".to_string());
    t.record_stale(StaleEntry {
        name: "c".to_string(),
        installed: "1".to_string(),
        available: "2".to_string(),
        frozen: false,
    });
    assert_eq!(t.outcome(true), UpdateOutcome::CanUpdate(1));
    t.record_updated("d".to_string());
    t.record_failed("e".to_string(), "boom".to_string());
    assert_eq!(t.outcome(false), UpdateOutcome::Complete { updated: 1, failed: 1 });
    let empty = UpdateTally::new();
    assert_eq!(empty.outcome(false), UpdateOutcome::AllCurrent);
    assert_eq!(empty.outcome(true), UpdateOutcome::AllCurrent);
}

#[test]
fn test_missing_dependencies_skip_the_package_and_installed_ones() {
    let github = || PackageSource::GitHub { owner: "o".to_string(), repo: "r".to_string() };
    let resolved = vec![package("libx", github()), package("tool", github()), package("liby", github())];
    let installed = vec![("liby".to_string(), "0.1".to_string())];
    assert_eq!(missing_dependencies(&resolved, "tool", &installed), vec![0]);
}

#[test]
fn test_update_helpers_texts() {
    assert_eq!(extract_dir_name("rg", "14.1.0"), "rg-14.1.0");
    let env = update_hook_env("2.0", "1.0");
    assert_eq!(env[0], ("BALLER_NEW_VERSION".to_string(), "2.0".to_string()));
    assert_eq!(env[1], ("BALLER_OLD_VERSION".to_string(), "1.0".to_string()));
}

#[test]
fn test_draft_session_sees_what_it_installed() {
    let mut s = DraftSession::new(vec![("old".to_string(), "1".to_string())]);
    assert!(!s.wants(&"old".to_string(), false));
    assert!(s.wants(&"old".to_string(), true));
    assert!(s.wants(&"new".to_string(), false));
    s.record_install("new".to_string(), "2".to_string());
    assert!(!s.wants(&"new".to_string(), false));
    s.record_install("old".to_string(), "3".to_string());
    assert_eq!(s.installed.len(), 2);
    assert_eq!(s.session, vec!["new".to_string(), "old".to_string()]);
    s.record_skip("x".to_string());
    assert_eq!(s.skipped, vec!["x".to_string()]);
}

#[test]
fn test_draft_plan_texts_and_routes() {
    let installed = vec![("a".to_string(), "1".to_string())];
    assert_eq!(plan_action(&"b".to_string(), &installed, false), "install");
    assert_eq!(plan_action(&"a".to_string(), &installed, true), "reinstall");
    assert_eq!(plan_action(&"a".to_string(), &installed, false), "skip — already installed");
    assert_eq!(plan_role(&"a".to_string(), &"a".to_string()), "root");
    assert_eq!(plan_role(&"b".to_string(), &"a".to_string()), "dependency");
    assert_eq!(
        install_route(&PackageSource::System { manager: "apt".to_string() }),
        InstallRoute::System { manager: "apt".to_string() }
    );
    assert_eq!(
        install_route(&PackageSource::Cargo { crate_name: "rg".to_string() }),
        InstallRoute::Cargo { crate_name: "rg".to_string() }
    );
    assert_eq!(install_route(&PackageSource::Chocolatey { feed_url: "f".to_string() }), InstallRoute::Archive);
    let env = post_install_env("/x", None);
    assert_eq!(env[1], ("BALLER_BIN_PATH".to_string(), String::new()));
    assert!(matches!(
        check_source_supported(Some(RegistrySource::System), false),
        Err(BallError::UnsupportedOs(_))
    ));
    assert!(check_source_supported(Some(RegistrySource::System), true).is_ok());
    assert!(check_source_supported(None, false).is_ok());
}

#[test]
fn test_sweep_plans() {
    assert_eq!(sweep_mode(true), "all");
    assert_eq!(
        sweep_plan(false, false, Some(100), 50, 10, 1, 1),
        SweepPlan::BelowThreshold { cache_bytes: 50, threshold: 100 }
    );
    assert_eq!(sweep_plan(false, false, None, 50, 0, 0, 3), SweepPlan::Empty);
    assert_eq!(sweep_plan(true, true, None, 50, 0, 0, 3), SweepPlan::WouldSweep { archives: 0, extracted: 3, bytes: 50 });
    assert_eq!(sweep_plan(false, false, Some(10), 50, 20, 2, 3), SweepPlan::Sweep { extracted: 0, bytes: 20 });
    assert!(mention_kept(false, 2));
    assert!(!mention_kept(true, 2));
}

#[test]
fn test_removal_rules() {
    assert!(matches!(check_not_frozen(true, false, "p"), Err(BallError::PackageFrozen(n)) if n == "p"));
    assert!(check_not_frozen(true, true, "p").is_ok());
    assert!(check_substitution(true, true, "p").is_ok());
    assert!(check_substitution(false, true, "p").is_err());
    assert!(is_orphan(false, &"dep".to_string(), &"tool".to_string(), false));
    assert!(!is_orphan(true, &"dep".to_string(), &"tool".to_string(), false));
    assert!(!is_orphan(false, &"tool".to_string(), &"tool".to_string(), false));
    assert!(!is_orphan(false, &"dep".to_string(), &"tool".to_string(), true));
    assert_eq!(removal_outcome(&Ok(()), true), RemovalOutcome::Removed);
    assert_eq!(
        removal_outcome(&Err(BallError::PackageNotFound("x".to_string())), true),
        RemovalOutcome::NotInRoster
    );
    assert_eq!(
        removal_outcome(&Err(BallError::NetworkError("x".to_string())), true),
        RemovalOutcome::Failed { roll_back: true }
    );
}

#[test]
fn test_cli_outcomes() {
    let parsed = BallerCommand::parse_command(Ok(BallerCommand { command: CommandTypes::Update }));
    assert!(matches!(parsed, ParsedCommand::Run(_)));
    assert!(matches!(
        BallerCommand::parse_command(Err((CliErrorKind::DisplayVersion, String::new()))),
        ParsedCommand::Display
    ));
    match BallerCommand::parse_command(Err((CliErrorKind::Other, "bad flag".to_string()))) {
        ParsedCommand::Failed(BallError::InvalidConfig(msg)) => assert_eq!(msg, "CLI Error: bad flag"),
        other => panic!("unexpected {:?}", other),
    }
    assert!(is_display_request(CliErrorKind::DisplayHelp));
    assert!(!is_display_request(CliErrorKind::Other));
    let (name, rest) = external_invocation(&vec!["tool".to_string(), "-x".to_string()]).unwrap();
    assert_eq!(name, "tool");
    assert_eq!(rest, vec!["-x".to_string()]);
    assert!(matches!(external_invocation(&vec![]), Err(BallError::UnsupportedCommand(m)) if m == "<empty>"));
    assert_eq!(CommandTypes::Update.name(), Some("update"));
    assert_eq!(CommandTypes::External(vec![]).name(), None);
}

#[test]
fn test_roster_filters() {
    let pkgs = vec![
        installed("a", "github", true),
        installed("b", "system", false),
        installed("c", "github", false),
    ];
    let opts = RosterOptions { frozen: false, source: Some(RegistrySource::GitHub), outdated: false, remote: false };
    assert_eq!(roster_filter(&pkgs, &opts), vec![0, 2]);
    let frozen = RosterOptions { frozen: true, source: None, outdated: false, remote: false };
    assert_eq!(roster_filter(&pkgs, &frozen), vec![0]);
    assert_eq!(remote_query(&Some("q".to_string())).unwrap(), "q");
    assert!(remote_query(&None).is_err());
}
