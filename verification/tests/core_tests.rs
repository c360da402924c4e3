use baller::ball_parser::BallManifest;
use baller::config::HooksConfig;
use baller::context::GlobalFlags;
use baller::hooks::{script_filename, HookType};
use baller::injected::{find_command, injected_path, upsert_injected, InjectedCommand, INJECTED_FILE};
use baller::package::{Package, PackageSource};
use baller::platform::HostOs;
use baller::registry::{default_source_order, RegistrySource};

fn test_hooks_config() -> HooksConfig {
    HooksConfig {
        pre_install: true,
        post_install: true,
        pre_eject: true,
        post_eject: true,
        pre_update: true,
        post_update: true,
    }
}

#[test]
fn test_hook_type_type_str() {
    assert_eq!(HookType::PreInstall.type_str(), "pre_install");
    assert_eq!(HookType::PostInstall.type_str(), "post_install");
    assert_eq!(HookType::PreEject.type_str(), "pre_eject");
    assert_eq!(HookType::PostEject.type_str(), "post_eject");
    assert_eq!(HookType::PreUpdate.type_str(), "pre_update");
    assert_eq!(HookType::PostUpdate.type_str(), "post_update");
}

#[test]
fn test_hook_type_is_enabled_all_true() {
    let config = test_hooks_config();
    assert!(HookType::PreInstall.is_enabled(&config));
    assert!(HookType::PostInstall.is_enabled(&config));
    assert!(HookType::PreEject.is_enabled(&config));
    assert!(HookType::PostEject.is_enabled(&config));
    assert!(HookType::PreUpdate.is_enabled(&config));
    assert!(HookType::PostUpdate.is_enabled(&config));
}

#[test]
fn test_hook_type_is_enabled_all_false() {
    let config = HooksConfig {
        pre_install: false,
        post_install: false,
        pre_eject: false,
        post_eject: false,
        pre_update: false,
        post_update: false,
    };
    assert!(!HookType::PreInstall.is_enabled(&config));
    assert!(!HookType::PostInstall.is_enabled(&config));
}

#[test]
fn test_hook_type_is_enabled_selective() {
    let config = HooksConfig {
        pre_install: true,
        post_install: false,
        pre_eject: true,
        post_eject: false,
        pre_update: true,
        post_update: false,
    };
    assert!(HookType::PreInstall.is_enabled(&config));
    assert!(!HookType::PostInstall.is_enabled(&config));
    assert!(HookType::PreEject.is_enabled(&config));
    assert!(!HookType::PostEject.is_enabled(&config));
    assert!(HookType::PreUpdate.is_enabled(&config));
    assert!(!HookType::PostUpdate.is_enabled(&config));
}

#[test]
fn test_hook_type_eq() {
    assert_eq!(HookType::PreInstall, HookType::PreInstall);
    assert_ne!(HookType::PreInstall, HookType::PostInstall);
}

#[test]
fn test_hook_type_copy() {
    let a = HookType::PreEject;
    let b = a;
    assert_eq!(a, b);
}

#[test]
fn test_script_filename_linux_format() {
    let name = script_filename(HostOs::Linux, &HookType::PreInstall, "mypkg");
    assert!(name.contains("mypkg"));
    assert!(name.contains("pre_install"));
    assert!(name.ends_with(".sh"));
    let win = script_filename(HostOs::Windows, &HookType::PreInstall, "mypkg");
    assert!(win.ends_with(".ps1"));
}

#[test]
fn test_hook_type_matching() {
    let pre = HookType::PreInstall;
    let post = HookType::PostInstall;
    assert_ne!(pre, post);
    assert_eq!(pre.type_str(), "pre_install");
    assert_eq!(post.type_str(), "post_install");
}

#[test]
fn test_registry_source_debug() {
    let s = RegistrySource::GitHub;
    let d = format!("{:?}", s);
    assert_eq!(d, "GitHub");
}

#[test]
fn test_registry_source_clone() {
    let a = RegistrySource::BallerRegistry;
    let b = a.clone();
    assert_eq!(a, b);
}

#[test]
fn test_registry_source_equality() {
    assert_eq!(RegistrySource::GitHub, RegistrySource::GitHub);
    assert_ne!(RegistrySource::GitHub, RegistrySource::Chocolatey);
}

#[test]
fn test_default_source_order_prefers_platform_native() {
    let order = default_source_order(HostOs::Linux);
    assert_eq!(order.first(), Some(&RegistrySource::BallerRegistry));
    assert_eq!(order.last(), Some(&RegistrySource::GitHub));
    assert_eq!(
        order,
        vec![RegistrySource::BallerRegistry, RegistrySource::System, RegistrySource::GitHub]
    );
    assert!(!order.contains(&RegistrySource::Chocolatey));

    let order = default_source_order(HostOs::Windows);
    assert_eq!(
        order,
        vec![RegistrySource::BallerRegistry, RegistrySource::Chocolatey, RegistrySource::GitHub]
    );
    assert!(!order.contains(&RegistrySource::System));
}

#[test]
fn test_config_name_round_trip() {
    for source in [
        RegistrySource::GitHub,
        RegistrySource::BallerRegistry,
        RegistrySource::Chocolatey,
        RegistrySource::System,
    ] {
        let name = source.config_name();
        assert_eq!(RegistrySource::from_config_name(name), Some(source));
    }
}

#[test]
fn test_from_config_name_is_case_insensitive() {
    assert_eq!(RegistrySource::from_config_name(" GitHub "), Some(RegistrySource::GitHub));
}

#[test]
fn test_from_config_name_unknown() {
    assert_eq!(RegistrySource::from_config_name("npm"), None);
}

#[test]
fn test_registry_source_matching() {
    let sources = vec![
        RegistrySource::GitHub,
        RegistrySource::BallerRegistry,
        RegistrySource::Chocolatey,
        RegistrySource::System,
        RegistrySource::Cargo,
    ];
    assert_eq!(sources.len(), 5);
    assert!(sources.contains(&RegistrySource::GitHub));
    assert!(sources.contains(&RegistrySource::Chocolatey));
    assert!(sources.contains(&RegistrySource::System));
    assert!(sources.contains(&RegistrySource::Cargo));
    for s in &sources {
        match s {
            RegistrySource::GitHub
            | RegistrySource::BallerRegistry
            | RegistrySource::Chocolatey
            | RegistrySource::System
            | RegistrySource::Cargo => {}
        }
    }
}

#[test]
fn test_source_filter_uses_db_names() {
    assert_eq!(RegistrySource::GitHub.db_name(), "github");
    assert_eq!(RegistrySource::BallerRegistry.db_name(), "baller_registry");
    assert_eq!(RegistrySource::Chocolatey.db_name(), "chocolatey");
    assert_eq!(RegistrySource::System.db_name(), "system");
}

#[test]
fn test_package_source_default() {
    let source = PackageSource::default();
    match source {
        PackageSource::GitHub { owner, repo } => {
            assert_eq!(owner, "");
            assert_eq!(repo, "");
        }
        _ => panic!("expected GitHub source"),
    }
}

#[test]
fn test_package_source_equality() {
    let a = PackageSource::GitHub { owner: "a".to_string(), repo: "b".to_string() };
    let b = PackageSource::GitHub { owner: "a".to_string(), repo: "b".to_string() };
    assert_eq!(a, b);
    let c = PackageSource::BallerRegistry { url: "url".to_string() };
    assert_ne!(a, c);
}

#[test]
fn test_package_new_defaults() {
    let pkg = Package::new("tool", "1.0.0");
    assert_eq!(pkg.name, "tool");
    assert_eq!(pkg.version, "1.0.0");
    assert!(pkg.dependencies.is_none());
}

#[test]
fn test_injected_path_is_under_baller_dir() {
    let path = injected_path("/home/user/.baller");
    assert_eq!(path, format!("/home/user/.baller/{}", INJECTED_FILE));
}

#[test]
fn test_manifest_converts_to_injected_command() {
    let manifest = BallManifest {
        command_name: "my-tool".to_string(),
        description: "desc".to_string(),
        version: "1.2.3".to_string(),
        flags: vec!["--yes".to_string()],
        author: "HMythical".to_string(),
        require_root: true,
        depends: vec!["ffmpeg".to_string()],
        path: "/usr/local/bin/my-tool".to_string(),
    };
    let injected: InjectedCommand = manifest.into();
    assert_eq!(injected.command_name, "my-tool");
    assert_eq!(injected.version, "1.2.3");
    assert!(injected.require_root);
    assert_eq!(injected.depends, vec!["ffmpeg"]);
}

fn sample(name: &str, version: &str) -> InjectedCommand {
    InjectedCommand {
        command_name: name.to_string(),
        description: "A helpful tool that does X".to_string(),
        version: version.to_string(),
        flags: vec!["-y".to_string()],
        author: "HMythical".to_string(),
        require_root: false,
        depends: vec![],
        path: "/usr/local/bin/my-tool".to_string(),
    }
}

#[test]
fn test_upsert_replaces_existing_command() {
    let list = vec![sample("a", "1.0.0"), sample("b", "1.0.0")];
    let list = upsert_injected(list, sample("a", "2.0.0"));
    assert_eq!(list.len(), 2);
    assert_eq!(find_command(&list, "a").unwrap().version, "2.0.0");
    assert_eq!(find_command(&list, "b").unwrap().version, "1.0.0");
    assert!(find_command(&list, "c").is_none());
}

#[test]
fn test_quiet_flag_and_json_imply_quiet() {
    let mut flags = GlobalFlags::default();
    assert!(!flags.is_quiet());
    flags.json = true;
    assert!(flags.is_quiet());
}
