use baller::error::BallError;
use baller::package::PackageSource;
use baller::system::{
    detect_system_manager, parse_apt_show, parse_dnf_info, parse_pacman_info, parse_search_output, SystemManager,
    SystemRegistry,
};

#[test]
fn test_detect_id_mapping_debian() {
    let ids = vec!["ubuntu", "debian", "linuxmint", "pop", "elementary", "zorin", "kali", "raspbian"];
    for id in ids {
        let line = format!("ID={}", id);
        if let Some(val) = line.strip_prefix("ID=") {
            let v = val.trim_matches('"');
            assert!(matches!(
                v,
                "ubuntu" | "debian" | "linuxmint" | "pop" | "elementary" | "zorin" | "kali" | "raspbian"
            ));
            assert_eq!(detect_system_manager(&line), Some(SystemManager::Apt));
        }
    }
}

#[test]
fn test_detect_id_mapping_fedora() {
    let ids = vec!["fedora", "rhel", "centos", "rocky", "almalinux", "ol", "nobara"];
    for id in ids {
        let line = format!("ID={}", id);
        if let Some(val) = line.strip_prefix("ID=") {
            let v = val.trim_matches('"');
            assert!(matches!(v, "fedora" | "rhel" | "centos" | "rocky" | "almalinux" | "ol" | "nobara"));
            assert_eq!(detect_system_manager(&line), Some(SystemManager::Dnf));
        }
    }
}

#[test]
fn test_detect_id_mapping_arch() {
    let ids = vec!["arch", "manjaro", "endeavouros", "garuda", "arco"];
    for id in ids {
        let line = format!("ID={}", id);
        if let Some(val) = line.strip_prefix("ID=") {
            let v = val.trim_matches('"');
            assert!(matches!(v, "arch" | "manjaro" | "endeavouros" | "garuda" | "arco"));
            assert_eq!(detect_system_manager(&line), Some(SystemManager::Pacman));
        }
    }
}

#[test]
fn test_detect_unknown_id() {
    let line = "ID=unknown_distro_xyz".to_string();
    if let Some(val) = line.strip_prefix("ID=") {
        let v = val.trim_matches('"');
        assert!(!matches!(
            v,
            "ubuntu"
                | "debian"
                | "linuxmint"
                | "pop"
                | "elementary"
                | "zorin"
                | "kali"
                | "raspbian"
                | "fedora"
                | "rhel"
                | "centos"
                | "rocky"
                | "almalinux"
                | "ol"
                | "nobara"
                | "arch"
                | "manjaro"
                | "endeavouros"
                | "garuda"
                | "arco"
        ));
    }
    assert_eq!(detect_system_manager(&line), None);
}

#[test]
fn test_parse_apt_cache_show_output() {
    let test_output = r#"Package: vim
Version: 2:8.1.0875-5ubuntu2
Description-en: Vi IMproved - enhanced vi editor
 Vim is an almost compatible version of the UNIX editor Vi.
 .
 Many new features have been added.
Maintainer: Ubuntu Developers <ubuntu-devel-discuss@lists.ubuntu.com>
Depends: vim-common (= 2:8.1.0875-5ubuntu2), vim-runtime (= 2:8.1.0875-5ubuntu2)
"#;
    let pkg = parse_apt_show("vim", test_output).unwrap();
    assert_eq!(pkg.version, "2:8.1.0875-5ubuntu2");
    assert_eq!(
        pkg.description.as_deref(),
        Some("Vi IMproved - enhanced vi editor Vim is an almost compatible version of the UNIX editor Vi. Many new features have been added.")
    );
    assert_eq!(pkg.author.as_deref(), Some("Ubuntu Developers"));
    let deps = pkg.dependencies.unwrap();
    assert!(deps.contains(&"vim-common".to_string()));
    assert!(deps.contains(&"vim-runtime".to_string()));
    match pkg.source {
        PackageSource::System { ref manager } => assert_eq!(manager, "apt"),
        _ => panic!("expected System source"),
    }
}

#[test]
fn test_parse_dnf_info_output() {
    let test_output = r#"Loaded plugins: fastestmirror
Loading mirror speeds from cached hostfile
Name            : vim-enhanced
Version         : 8.2.2637-20.fc36
Release         : 20.fc36
Architecture    : x86_64
Size            : 1.2 M
Summary         : A version of the VIM editor
Packager        : Fedora Project
URL             : https://www.vim.org/

Name            : vim-common
Version         : 8.2.2637-20.fc36
Summary         : The common files needed by any version of the VIM editor
"#;
    let pkg = parse_dnf_info("vim-enhanced", test_output).unwrap();
    assert!(!pkg.version.is_empty());
    assert_eq!(pkg.author.as_deref(), Some("Fedora Project"));
    assert!(!pkg.description.unwrap().is_empty());
}

#[test]
fn test_parse_pacman_si_output() {
    let test_output = r#"Repository      : core
Name            : vim
Version         : 9.0.1300-1
Description     : Vi Improved, a highly configurable, improved vi editor
Architecture    : x86_64
URL             : https://www.vim.org/
Licenses        : custom
Depends         : glibc  harfbuzz  ncurses  acl  gpm  libsodium
Optional Deps   : python: for vimdoc viewer and pyhelp plugin
Conflicts       : vim-runtime
"#;
    let pkg = parse_pacman_info("vim", test_output).unwrap();
    assert_eq!(pkg.name, "vim");
    assert_eq!(pkg.version, "9.0.1300-1");
}

#[test]
fn test_parse_apt_cache_search_output() {
    let test_output = r#"vim - Vi IMproved - enhanced vi editor
vim-common - Vi IMproved - common files
vim-runtime - Vi Improved - Runtime files
"#;
    let results = parse_search_output(SystemManager::Apt, test_output);
    assert_eq!(results.len(), 3);
    assert_eq!(results[0].name, "vim");
    assert_eq!(results[1].name, "vim-common");
    assert_eq!(results[0].description.as_deref(), Some("Vi IMproved - enhanced vi editor"));
}

#[test]
fn test_parse_pacman_ss_output() {
    let test_output = r#"core/vim 9.0.1300-1
    Vi Improved, a highly configurable, improved vi editor
extra/git 2.40.1-1
    The fast distributed version control system
"#;
    let results = parse_search_output(SystemManager::Pacman, test_output);
    assert_eq!(results.len(), 2);
    assert_eq!(results[0].name, "vim");
    assert_eq!(results[1].name, "git");
}

#[test]
fn test_detect_missing_file_returns_none() {
    let registry = SystemRegistry::detect(None);
    assert_eq!(registry.manager, None);
}

#[test]
fn test_parse_apt_deps_dedup() {
    let output = "Version: 1.0\nDepends: vim-common (= 1.0), vim-common (>= 2.0), vim-runtime (= 1.0)\n";
    let dependencies = parse_apt_show("vim", output).unwrap().dependencies.unwrap();
    assert_eq!(dependencies.len(), 2);
    assert!(dependencies.contains(&"vim-common".to_string()));
    assert!(dependencies.contains(&"vim-runtime".to_string()));
}

#[test]
fn test_search_returns_lightweight_packages() {
    let results = parse_search_output(SystemManager::Apt, "pkg-one - Description one\npkg-two - Description two\n");
    for pkg in &results {
        assert_eq!(pkg.version, "unknown");
        assert!(!pkg.name.is_empty());
        assert!(pkg.description.is_some());
        match pkg.source {
            PackageSource::System { ref manager } => assert_eq!(manager, "apt"),
            _ => panic!("expected System source"),
        }
    }
    assert_eq!(results.len(), 2);
}

#[test]
fn test_dnf_depends_parsing_with_releases() {
    let test_output = r#"Loaded plugins: fastestmirror
Name            : vim-enhanced
Version         : 8.2.2637-20.fc36
Release         : 20.fc36
Architecture    : x86_64
Size            : 1.2 M
Summary         : A version of the VIM editor
Packager        : Fedora Project
"#;
    let pkg = parse_dnf_info("vim-enhanced", test_output).unwrap();
    assert_eq!(pkg.version, "8.2.2637-20.fc36");
}

#[test]
fn test_system_registry_no_pm_fetch_error() {
    let registry = SystemRegistry { manager: None };
    let result = registry.require_manager();
    assert!(result.is_err());
    match result.unwrap_err() {
        BallError::PackageManagerError(msg) => assert!(!msg.is_empty()),
        other => panic!("expected PackageManagerError, got {:?}", other),
    }
}

#[test]
fn test_system_registry_no_pm_search_error() {
    let registry = SystemRegistry { manager: None };
    let result = registry.require_manager();
    assert!(result.is_err());
    match result.unwrap_err() {
        BallError::PackageManagerError(msg) => assert!(!msg.is_empty()),
        other => panic!("expected PackageManagerError, got {:?}", other),
    }
}

#[test]
fn test_apt_search_reads_only_the_first_twenty_lines() {
    let mut output = String::new();
    for i in 0..25 {
        output.push_str(&format!("pkg{} - d\n", i));
    }
    let results = parse_search_output(SystemManager::Apt, &output);
    assert_eq!(results.len(), 20);
    assert_eq!(results[19].name, "pkg19");
}

#[test]
fn test_dnf_search_skips_headers_and_keeps_summary() {
    let output = "===== Name Matched: vim =====\nName and summary\n\nvim-enhanced.x86_64 : A version of the VIM editor\nbare : \n";
    let results = parse_search_output(SystemManager::Dnf, output);
    assert_eq!(results.len(), 2);
    assert_eq!(results[0].name, "vim-enhanced.x86_64");
    assert_eq!(results[0].version, "");
    assert_eq!(results[0].description.as_deref(), Some("A version of the VIM editor"));
    assert_eq!(results[1].description, None);
}

#[test]
fn test_pacman_search_third_field_is_version_and_description() {
    let output = "extra/git 2.40.1-1 [installed]\n:: not/a pkg\n#c/x y\nbad/x/y z\n";
    let results = parse_search_output(SystemManager::Pacman, output);
    assert_eq!(results.len(), 1);
    assert_eq!(results[0].name, "git");
    assert_eq!(results[0].version, "[installed]");
    assert_eq!(results[0].description.as_deref(), Some("[installed]"));
    match results[0].source {
        PackageSource::System { ref manager } => assert_eq!(manager, "dnf"),
        _ => panic!("expected System source"),
    }
}

#[test]
fn test_system_registry_detect_returns_some_on_linux() {
    let registry = SystemRegistry::detect(Some("NAME=\"Ubuntu\"\nID=ubuntu\n"));
    match registry.manager {
        Some(SystemManager::Apt) | Some(SystemManager::Dnf) | Some(SystemManager::Pacman) => {},
        None => {},
    }
    assert_eq!(registry.manager, Some(SystemManager::Apt));
}
