use baller::config::{parse_bool, parse_config_content, BallerConfig, HooksConfig, RegistryConfig};
use baller::context::effective_source_order;
use baller::error::BallError;
use baller::platform::HostOs;
use baller::registry::RegistrySource;

fn linux_defaults() -> BallerConfig {
    BallerConfig::defaults(HostOs::Linux, "/home/user/.local/bin", "/home/user/.baller")
}

fn windows_defaults() -> BallerConfig {
    BallerConfig::defaults(HostOs::Windows, "C:/Users/user/AppData/Local/baller/bin", "C:/Users/user/AppData/Local/baller")
}

#[test]
fn test_parse_bool_true_variants() {
    assert_eq!(parse_bool("true", 0).unwrap(), true);
    assert_eq!(parse_bool("yes", 0).unwrap(), true);
    assert_eq!(parse_bool("1", 0).unwrap(), true);
    assert_eq!(parse_bool("on", 0).unwrap(), true);
    assert_eq!(parse_bool("TRUE", 0).unwrap(), true);
    assert_eq!(parse_bool("YES", 0).unwrap(), true);
    assert_eq!(parse_bool("ON", 0).unwrap(), true);
}

#[test]
fn test_parse_bool_false_variants() {
    assert_eq!(parse_bool("false", 0).unwrap(), false);
    assert_eq!(parse_bool("no", 0).unwrap(), false);
    assert_eq!(parse_bool("0", 0).unwrap(), false);
    assert_eq!(parse_bool("off", 0).unwrap(), false);
    assert_eq!(parse_bool("FALSE", 0).unwrap(), false);
    assert_eq!(parse_bool("OFF", 0).unwrap(), false);
}

#[test]
fn test_parse_bool_invalid() {
    let result = parse_bool("maybe", 2);
    assert!(result.is_err());
    match result.unwrap_err() {
        BallError::InvalidConfig(msg) => {
            assert!(msg.contains("maybe"));
            assert!(msg.contains("line[3]"));
        }
        _ => panic!("expected InvalidConfig"),
    }
}

#[test]
fn test_config_struct_debug() {
    let cfg = linux_defaults();
    let debug = format!("{:?}", cfg);
    assert!(debug.contains("BallerConfig"));
}

#[test]
fn test_registry_config_debug() {
    let cfg = RegistryConfig {
        source_order: vec!["github".to_string()],
        baller_registry_url: "url".to_string(),
        chocolatey_feed_url: "feed".to_string(),
        github_default_owner: None,
        github_enabled: true,
        baller_enabled: false,
        chocolatey_enabled: false,
        system_enabled: true,
        cargo_enabled: true,
    };
    let debug = format!("{:?}", cfg);
    assert!(debug.contains("RegistryConfig"));
}

#[test]
fn test_hooks_config_default() {
    let h = HooksConfig {
        pre_install: true,
        post_install: true,
        pre_eject: true,
        post_eject: true,
        pre_update: true,
        post_update: true,
    };
    assert!(h.pre_install);
    assert!(h.post_update);
}

#[test]
fn test_config_default_creates_paths() {
    let cfg = linux_defaults();
    assert!(!cfg.install_dir.is_empty());
    assert!(!cfg.db_path.is_empty());
    assert!(!cfg.cache_dir.is_empty());
    assert!(!cfg.hooks_dir.is_empty());
}

#[test]
fn test_system_enabled_default_true() {
    let cfg = linux_defaults();
    assert!(cfg.registry.system_enabled);
}

#[test]
fn test_parse_config_quoted_values() {
    let content = r#"install_dir = "/opt/baller with spaces""#;
    let config = parse_config_content(linux_defaults(), content).unwrap();
    assert_eq!(config.install_dir, "/opt/baller with spaces");
}

#[test]
fn test_parse_config_system_enabled_false() {
    let content = "[registry]\nsystem_enabled = false\n";
    let config = parse_config_content(linux_defaults(), content).unwrap();
    assert!(!config.registry.system_enabled);
}

#[test]
fn test_parse_config_system_enabled_true() {
    let content = "[registry]\nsystem_enabled = true\n";
    let config = parse_config_content(linux_defaults(), content).unwrap();
    assert!(config.registry.system_enabled);
}

fn registry_config(source_order: &[&str]) -> RegistryConfig {
    RegistryConfig {
        source_order: source_order.iter().map(|s| s.to_string()).collect(),
        baller_registry_url: "https://registry.baller.dev/api".to_string(),
        chocolatey_feed_url: "https://community.chocolatey.org/api/v2".to_string(),
        github_default_owner: None,
        github_enabled: true,
        baller_enabled: true,
        chocolatey_enabled: true,
        system_enabled: true,
        cargo_enabled: true,
    }
}

#[test]
fn test_effective_order_excludes_disabled_system() {
    let mut config = registry_config(&["github", "system"]);
    config.system_enabled = false;
    let effective_order = effective_source_order(&config);
    assert_eq!(effective_order.len(), 1);
    assert!(effective_order.contains(&RegistrySource::GitHub));
    assert!(!effective_order.contains(&RegistrySource::System));
}

#[test]
fn test_effective_order_includes_enabled_system() {
    let config = registry_config(&["github", "system"]);
    let effective_order = effective_source_order(&config);
    assert_eq!(effective_order.len(), 2);
    assert!(effective_order.contains(&RegistrySource::GitHub));
    assert!(effective_order.contains(&RegistrySource::System));
}

#[test]
fn test_effective_order_excludes_disabled_cargo() {
    let mut config = registry_config(&["cargo", "github"]);
    config.cargo_enabled = false;
    let effective_order = effective_source_order(&config);
    assert_eq!(effective_order, vec![RegistrySource::GitHub]);
    assert!(!effective_order.contains(&RegistrySource::Cargo));
}

#[test]
fn test_effective_order_includes_enabled_cargo() {
    let config = registry_config(&["baller", "system", "cargo", "github"]);
    let effective_order = effective_source_order(&config);
    assert_eq!(
        effective_order,
        vec![
            RegistrySource::BallerRegistry,
            RegistrySource::System,
            RegistrySource::Cargo,
            RegistrySource::GitHub
        ]
    );
}

#[test]
fn test_effective_order_preserves_configured_order() {
    let config = registry_config(&["baller", "chocolatey", "github"]);
    let effective_order = effective_source_order(&config);
    assert_eq!(
        effective_order,
        vec![
            RegistrySource::BallerRegistry,
            RegistrySource::Chocolatey,
            RegistrySource::GitHub
        ]
    );
}

#[test]
fn test_effective_order_drops_unknown_sources() {
    let config = registry_config(&["npm", "baller", "github"]);
    let effective_order = effective_source_order(&config);
    assert_eq!(effective_order, vec![RegistrySource::BallerRegistry, RegistrySource::GitHub]);
}

#[test]
fn test_effective_order_from_platform_defaults() {
    let config = linux_defaults();
    let effective_order = effective_source_order(&config.registry);
    assert_eq!(effective_order.first(), Some(&RegistrySource::BallerRegistry));
    assert_eq!(effective_order.last(), Some(&RegistrySource::GitHub));
    assert_eq!(
        effective_order,
        vec![
            RegistrySource::BallerRegistry,
            RegistrySource::System,
            RegistrySource::Cargo,
            RegistrySource::GitHub
        ]
    );
    let win = windows_defaults();
    assert_eq!(
        effective_source_order(&win.registry),
        vec![RegistrySource::BallerRegistry, RegistrySource::Chocolatey, RegistrySource::GitHub]
    );
}

#[test]
fn test_windows_defaults_skip_system_source() {
    let config = windows_defaults();
    assert!(!config.registry.system_enabled);
    let effective_order = effective_source_order(&config.registry);
    assert!(!effective_order.contains(&RegistrySource::System));
}

#[test]
fn test_linux_defaults_skip_chocolatey_source() {
    let config = linux_defaults();
    assert!(!config.registry.chocolatey_enabled);
    let effective_order = effective_source_order(&config.registry);
    assert!(!effective_order.contains(&RegistrySource::Chocolatey));
}

#[test]
fn test_github_stays_available_as_fallback() {
    let config = linux_defaults();
    let effective_order = effective_source_order(&config.registry);
    assert!(config.registry.github_enabled);
    assert!(effective_order.contains(&RegistrySource::GitHub));
    assert_eq!(effective_order.last(), Some(&RegistrySource::GitHub));
}

#[test]
fn test_parse_config_empty() {
    let config = parse_config_content(linux_defaults(), "").unwrap();
    assert!(config.install_dir.contains("local") || config.install_dir.contains("bin"));
    assert!(config.hooks.pre_install);
    assert!(config.registry.github_enabled);
}

#[test]
fn test_parse_config_comment_lines() {
    let content = "# this is a comment\n; also a comment\n[baller]\ninstall_dir = /custom/path\n";
    let config = parse_config_content(linux_defaults(), content).unwrap();
    assert_eq!(config.install_dir, "/custom/path");
}

#[test]
fn test_parse_config_with_all_sections() {
    let content = r#"
[baller]
install_dir = /opt/baller
db_path = /opt/baller/db/baller.db
cache_dir = /opt/baller/cache

[registry]
source_order = github, baller
baller_registry_url = https://custom.registry.com/api
chocolatey_feed_url = https://custom.chocolatey.org/feed
github_enabled = true
baller_enabled = false
chocolatey_enabled = false

[hooks]
pre_install = yes
post_install = no
pre_eject = 1
post_eject = 0
pre_update = on
post_update = off
"#;
    let config = parse_config_content(linux_defaults(), content).unwrap();

    assert_eq!(config.install_dir, "/opt/baller");
    assert_eq!(config.db_path, "/opt/baller/db/baller.db");
    assert_eq!(config.cache_dir, "/opt/baller/cache");
    assert_eq!(config.registry.source_order, vec!["github".to_string(), "baller".to_string()]);
    assert_eq!(config.registry.baller_registry_url, "https://custom.registry.com/api");
    assert_eq!(config.registry.github_enabled, true);
    assert_eq!(config.registry.baller_enabled, false);
    assert_eq!(config.registry.chocolatey_enabled, false);
    assert!(config.hooks.pre_install);
    assert!(!config.hooks.post_install);
    assert!(config.hooks.pre_eject);
    assert!(!config.hooks.post_eject);
    assert!(config.hooks.pre_update);
    assert!(!config.hooks.post_update);
}

#[test]
fn test_parse_config_unknown_key() {
    let result = parse_config_content(linux_defaults(), "unknown_key = value\n");
    assert!(result.is_err());
    match result.unwrap_err() {
        BallError::UnknownConfigEntry((line, key)) => {
            assert_eq!(line, 1);
            assert_eq!(key, "unknown_key");
        }
        _ => panic!("expected UnknownConfigEntry"),
    }
}

#[test]
fn test_parse_config_unknown_section() {
    let result = parse_config_content(linux_defaults(), "[unknown_section]\nkey = val\n");
    assert!(result.is_err());
    match result.unwrap_err() {
        BallError::UnknownConfigEntry((_line, section)) => {
            assert_eq!(section, "unknown_section");
        }
        _ => panic!("expected UnknownConfigEntry"),
    }
}

#[test]
fn test_parse_config_invalid_bool() {
    let result = parse_config_content(linux_defaults(), "[hooks]\npre_install = maybe\n");
    assert!(result.is_err());
}

#[test]
fn test_parse_config_invalid_line_no_eq() {
    let result = parse_config_content(linux_defaults(), "just a line without equals\n");
    assert!(result.is_err());
}

#[test]
fn test_parse_config_empty_key() {
    let result = parse_config_content(linux_defaults(), " = value\n");
    assert!(result.is_err());
}

#[test]
fn test_parse_config_source_order_with_system() {
    let content = "[registry]\nsource_order = github,baller,chocolatey,system\n";
    let config = parse_config_content(linux_defaults(), content).unwrap();
    assert!(config.registry.source_order.contains(&"system".to_string()));
    assert_eq!(config.registry.source_order.len(), 4);
}

#[test]
fn test_parse_config_system_enabled_aliases() {
    for (val, expected) in &[("yes", true), ("0", false), ("1", true), ("off", false), ("ON", true)] {
        let content = format!("[registry]\nsystem_enabled = {}\n", val);
        let config = parse_config_content(linux_defaults(), &content).unwrap();
        assert_eq!(config.registry.system_enabled, *expected, "system_enabled={}", val);
    }
}

#[test]
fn test_parse_config_refuses_keys_the_file_does_not_set() {
    for key in &["github_default_owner", "cargo_enabled"] {
        let content = format!("{} = x\n", key);
        match parse_config_content(linux_defaults(), &content).unwrap_err() {
            BallError::UnknownConfigEntry((line, k)) => {
                assert_eq!(line, 1);
                assert_eq!(k, *key);
            }
            other => panic!("expected UnknownConfigEntry, got {:?}", other),
        }
    }
}
