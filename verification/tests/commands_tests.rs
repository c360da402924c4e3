use baller::commands::{
    cargo_error_snippet, describe_targets, freeze_plan, get_installed_map, is_reserved, key_state, needs_update,
    parse_list_parameters, reserved_commands, select_packages, source_label, EjectOptions, FreezeMode, FreezeOptions,
    FreezePlan, InstalledPackage, RosterOptions, SubstituteOptions, UpdateOptions, CARGO_ERROR_LINES,
};
use baller::error::BallError;
use baller::package::PackageSource;

#[test]
fn test_freeze_mode_from_flags() {
    assert_eq!(FreezeMode::from_flags(false, false), FreezeMode::Toggle);
    assert_eq!(FreezeMode::from_flags(true, false), FreezeMode::Freeze);
    assert_eq!(FreezeMode::from_flags(false, true), FreezeMode::Thaw);
}

#[test]
fn test_toggle_target_flips() {
    assert!(FreezeMode::Toggle.target(false));
    assert!(!FreezeMode::Toggle.target(true));
}

#[test]
fn test_directional_targets_are_absolute() {
    assert!(FreezeMode::Freeze.target(false));
    assert!(FreezeMode::Freeze.target(true));
    assert!(!FreezeMode::Thaw.target(false));
    assert!(!FreezeMode::Thaw.target(true));
}

#[test]
fn test_freeze_all_needs_a_direction() {
    let opts = FreezeOptions { mode: FreezeMode::Toggle, all: true, list: false };
    match freeze_plan(&opts, &None) {
        Err(BallError::InvalidConfig(msg)) => assert!(msg.contains("--all needs an explicit direction")),
        _ => panic!("expected InvalidConfig"),
    }
    let opts = FreezeOptions { mode: FreezeMode::Thaw, all: true, list: false };
    assert!(matches!(freeze_plan(&opts, &None), Ok(FreezePlan::All(false))));
    let opts = FreezeOptions { mode: FreezeMode::Toggle, all: false, list: false };
    assert!(matches!(freeze_plan(&opts, &Some("rg".to_string())), Ok(FreezePlan::One(n)) if n == "rg"));
    assert!(matches!(freeze_plan(&opts, &None), Err(BallError::InvalidConfig(_))));
}

#[test]
fn test_all_builtins_are_reserved() {
    for name in reserved_commands() {
        assert!(is_reserved(name), "{} should be reserved", name);
    }
}

#[test]
fn test_reserved_check_is_case_insensitive() {
    assert!(is_reserved("Draft"));
    assert!(is_reserved("SWEEP"));
}

#[test]
fn test_non_builtin_is_not_reserved() {
    assert!(!is_reserved("my-tool"));
    assert!(!is_reserved("drafts"));
}

#[test]
fn test_describe_targets() {
    assert_eq!(describe_targets(3, 0), "3 archive(s)");
    assert_eq!(describe_targets(3, 2), "3 archive(s) and 2 extracted package(s)");
}

#[test]
fn test_source_label_variants() {
    assert_eq!(
        source_label(&PackageSource::GitHub { owner: "owner".to_string(), repo: "repo".to_string() }),
        "github:owner/repo"
    );
    assert_eq!(source_label(&PackageSource::Chocolatey { feed_url: "feed".to_string() }), "chocolatey");
    assert_eq!(source_label(&PackageSource::System { manager: "apt".to_string() }), "system:apt");
    assert_eq!(source_label(&PackageSource::BallerRegistry { url: "u".to_string() }), "baller");
    assert_eq!(source_label(&PackageSource::Cargo { crate_name: "bat".to_string() }), "cargo:bat");
}

#[test]
fn test_key_state_never_echoes_the_key() {
    assert_eq!(key_state(Some("secret-key-123")), "set");
    assert_eq!(key_state(Some("   ")), "unset");
    assert_eq!(key_state(None), "unset");
}

#[test]
fn test_cargo_error_snippet_keeps_the_tail() {
    let stderr = (1..=20).map(|n| format!("line {}", n)).collect::<Vec<_>>().join("\n\n");
    let snippet = cargo_error_snippet(&stderr);
    let lines: Vec<&str> = snippet.lines().collect();
    assert_eq!(lines.len(), CARGO_ERROR_LINES);
    assert_eq!(lines[CARGO_ERROR_LINES - 1], "line 20");
    assert_eq!(cargo_error_snippet("   \n\n"), "no output");
}

#[test]
fn test_eject_options_defaults_are_conservative() {
    let opts = EjectOptions { force: false, purge: false, no_orphans: false, keep_bin: false };
    assert!(!opts.force);
    assert!(!opts.purge);
    assert!(!opts.no_orphans);
    assert!(!opts.keep_bin);
}

#[test]
fn test_roster_options_default_to_plain_list() {
    let opts = RosterOptions { frozen: false, source: None, outdated: false, remote: false };
    assert!(!opts.frozen);
    assert!(opts.source.is_none());
    assert!(!opts.outdated);
    assert!(!opts.remote);
}

#[test]
fn test_substitute_options_default_to_prompted_swap() {
    let opts = SubstituteOptions { keep_old: false, dry_run: false, no_deps: false };
    assert!(!opts.keep_old);
    assert!(!opts.dry_run);
    assert!(!opts.no_deps);
}

#[test]
fn test_update_options_default_to_full_run() {
    let opts = UpdateOptions { packages: Vec::new(), check: false, include_frozen: false };
    assert!(opts.packages.is_empty());
    assert!(!opts.check);
    assert!(!opts.include_frozen);
}

#[test]
fn test_list_parameters() {
    let args = |xs: &[&str]| xs.iter().map(|s| s.to_string()).collect::<Vec<String>>();
    assert!(!parse_list_parameters(&args(&["baller", "list"])).unwrap().list_dependencies);
    assert!(parse_list_parameters(&args(&["baller", "list", "-d"])).unwrap().list_dependencies);
    assert!(matches!(
        parse_list_parameters(&args(&["baller", "list", "-x"])),
        Err(BallError::UnknownParameter(p)) if p == "-x"
    ));
}

fn installed(name: &str, version: &str) -> InstalledPackage {
    InstalledPackage {
        name: name.to_string(),
        version: version.to_string(),
        source: "github".to_string(),
        source_detail: None,
        description: None,
        author: None,
        repository: None,
        download_url: None,
        sha256: None,
        frozen: false,
        user_installed: true,
        install_path: "/tmp".to_string(),
        bin_path: None,
        manifest_path: None,
        installed_at: "now".to_string(),
    }
}

#[test]
fn test_installed_map_keeps_each_name_once() {
    let map = get_installed_map(&Ok(vec![installed("a", "1.0"), installed("b", "2.0"), installed("a", "1.1")]));
    assert_eq!(map, vec![("a".to_string(), "1.1".to_string()), ("b".to_string(), "2.0".to_string())]);
    assert!(get_installed_map(&Err(BallError::FileIoErr("locked".to_string()))).is_empty());
}

#[test]
fn test_needs_update_compares_versions() {
    assert!(needs_update("1.2.0", "1.10.0"));
    assert!(!needs_update("1.10.0", "1.2.0"));
    assert!(!needs_update("2:1.21-76", "1.21"));
    assert!(needs_update("latest", "nightly"));
    assert!(!needs_update("nightly", "nightly"));
}

#[test]
fn test_select_packages_by_name() {
    let list = vec![installed("a", "1.0"), installed("b", "2.0")];
    assert_eq!(select_packages(&list, &vec![]).unwrap(), vec![0, 1]);
    assert_eq!(select_packages(&list, &vec!["b".to_string()]).unwrap(), vec![1]);
    assert!(matches!(
        select_packages(&list, &vec!["zz".to_string()]),
        Err(BallError::PackageNotFound(n)) if n == "zz"
    ));
}
