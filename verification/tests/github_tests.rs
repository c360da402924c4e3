use baller::error::BallError;
use baller::github::{
    candidate_tags, package_from_release, parse_github_name, release_tag, select_asset, GitHubAsset, GitHubRelease,
    PlatformSpec,
};
use baller::package::PackageSource;
use baller::platform::{HostArch, HostOs};

const LINUX_X64: PlatformSpec = PlatformSpec { os: HostOs::Linux, arch: HostArch::X86_64 };
const LINUX_ARM64: PlatformSpec = PlatformSpec { os: HostOs::Linux, arch: HostArch::Arm64 };
const WINDOWS_X64: PlatformSpec = PlatformSpec { os: HostOs::Windows, arch: HostArch::X86_64 };

fn assets(names: &[&str]) -> Vec<GitHubAsset> {
    names
        .iter()
        .map(|name| GitHubAsset {
            name: (*name).to_string(),
            browser_download_url: format!("https://example.test/{}", name),
            content_type: None,
            size: None,
        })
        .collect()
}

fn pick<'a>(list: &'a [GitHubAsset], spec: &PlatformSpec) -> &'a str {
    &select_asset(list, spec, "pkg").expect("an asset should match").name
}

#[test]
fn test_ripgrep_prefers_the_linux_gnu_triple() {
    let list = assets(&[
        "ripgrep-14.1.1-aarch64-apple-darwin.tar.gz",
        "ripgrep-14.1.1-aarch64-unknown-linux-gnu.tar.gz",
        "ripgrep-14.1.1-x86_64-apple-darwin.tar.gz",
        "ripgrep-14.1.1-x86_64-pc-windows-msvc.zip",
        "ripgrep-14.1.1-x86_64-unknown-linux-musl.tar.gz",
        "ripgrep_14.1.1-1_amd64.deb",
        "ripgrep-14.1.1.tar.gz",
    ]);
    assert_eq!(pick(&list, &LINUX_X64), "ripgrep-14.1.1-x86_64-unknown-linux-musl.tar.gz");
    assert_eq!(pick(&list, &LINUX_ARM64), "ripgrep-14.1.1-aarch64-unknown-linux-gnu.tar.gz");
    assert_eq!(pick(&list, &WINDOWS_X64), "ripgrep-14.1.1-x86_64-pc-windows-msvc.zip");
}

#[test]
fn test_gnu_wins_over_musl_when_both_ship() {
    let list = assets(&["tool-x86_64-unknown-linux-musl.tar.gz", "tool-x86_64-unknown-linux-gnu.tar.gz"]);
    assert_eq!(pick(&list, &LINUX_X64), "tool-x86_64-unknown-linux-gnu.tar.gz");
}

#[test]
fn test_fzf_go_style_names() {
    let list = assets(&[
        "fzf-0.55.0-android_arm64.tar.gz",
        "fzf-0.55.0-darwin_amd64.tar.gz",
        "fzf-0.55.0-linux_amd64.tar.gz",
        "fzf-0.55.0-linux_arm64.tar.gz",
        "fzf-0.55.0-windows_amd64.zip",
    ]);
    assert_eq!(pick(&list, &LINUX_X64), "fzf-0.55.0-linux_amd64.tar.gz");
    assert_eq!(pick(&list, &LINUX_ARM64), "fzf-0.55.0-linux_arm64.tar.gz");
    assert_eq!(pick(&list, &WINDOWS_X64), "fzf-0.55.0-windows_amd64.zip");
}

#[test]
fn test_archive_beats_a_bare_binary_of_the_same_build() {
    let list = assets(&["yq_linux_amd64", "yq_linux_amd64.tar.gz", "yq_linux_arm64.tar.gz"]);
    assert_eq!(pick(&list, &LINUX_X64), "yq_linux_amd64.tar.gz");
}

#[test]
fn test_bare_binary_is_still_chosen_when_it_is_the_only_build() {
    let list = assets(&["tool_linux_amd64", "tool_darwin_amd64"]);
    assert_eq!(pick(&list, &LINUX_X64), "tool_linux_amd64");
}

#[test]
fn test_checksums_and_distro_packages_never_win() {
    let list = assets(&[
        "checksums.txt",
        "tool_1.0.0_amd64.deb",
        "tool-1.0.0-1.x86_64.rpm",
        "tool-linux-amd64.tar.gz.sha256",
        "tool-linux-amd64.tar.gz.sig",
        "tool-linux-amd64.tar.gz",
    ]);
    assert_eq!(pick(&list, &LINUX_X64), "tool-linux-amd64.tar.gz");
}

#[test]
fn test_source_tarball_is_not_mistaken_for_a_build() {
    let list = assets(&["tool-1.0.0-src.tar.gz", "tool-1.0.0.tar.gz"]);
    let err = select_asset(&list, &LINUX_X64, "tool").expect_err("no host build");
    let msg = err.message();
    assert!(msg.contains("no linux-x86_64 asset for 'tool'"));
    assert!(msg.contains("tool-1.0.0.tar.gz"));
}

#[test]
fn test_macos_only_release_errors_with_the_available_names() {
    let list = assets(&["tool-x86_64-apple-darwin.tar.gz", "tool-aarch64-apple-darwin.tar.gz"]);
    let err = select_asset(&list, &LINUX_X64, "tool").expect_err("nothing for linux");
    assert!(matches!(err, BallError::NoMatchingAsset { .. }));
    let msg = err.message();
    assert!(msg.contains("tool-x86_64-apple-darwin.tar.gz"));
    assert!(msg.contains("tool-aarch64-apple-darwin.tar.gz"));
}

#[test]
fn test_empty_release_errors_rather_than_guessing() {
    let err = select_asset(&[], &LINUX_X64, "tool").expect_err("no assets at all");
    assert!(err.message().contains("available: none"));
}

#[test]
fn test_arm64_host_rejects_amd64_only_release() {
    let list = assets(&["tool-linux-amd64.tar.gz", "tool-linux-x86_64.tar.gz"]);
    assert!(select_asset(&list, &LINUX_ARM64, "tool").is_err());
}

#[test]
fn test_amd64_host_rejects_32_bit_and_foreign_arches() {
    let list = assets(&[
        "tool-linux-i686.tar.gz",
        "tool-linux-armv7.tar.gz",
        "tool-linux-riscv64.tar.gz",
        "tool-linux-s390x.tar.gz",
    ]);
    assert!(select_asset(&list, &LINUX_X64, "tool").is_err());
}

#[test]
fn test_matching_is_case_insensitive() {
    let list = assets(&["Tool-Linux-X86_64.ZIP"]);
    assert_eq!(pick(&list, &LINUX_X64), "Tool-Linux-X86_64.ZIP");
}

#[test]
fn test_windows_host_skips_linux_builds() {
    let list = assets(&["tool-linux-amd64.tar.gz", "tool-win64.zip"]);
    assert_eq!(pick(&list, &WINDOWS_X64), "tool-win64.zip");
    assert_eq!(pick(&list, &LINUX_X64), "tool-linux-amd64.tar.gz");
}

#[test]
fn test_every_platform_has_candidate_tags() {
    for spec in [LINUX_X64, LINUX_ARM64, WINDOWS_X64, PlatformSpec { os: HostOs::Windows, arch: HostArch::Arm64 }] {
        assert!(!candidate_tags(&spec).is_empty());
    }
}

#[test]
fn test_parse_github_name_forms() {
    assert_eq!(parse_github_name("owner/repo", &None).unwrap(), ("owner".to_string(), "repo".to_string()));
    assert_eq!(
        parse_github_name("repo", &Some("me".to_string())).unwrap(),
        ("me".to_string(), "repo".to_string())
    );
    let err = parse_github_name("repo", &None).unwrap_err();
    assert!(err.message().contains("expected 'owner/repo'"));
    assert!(parse_github_name("a/b/c", &Some("me".to_string())).is_err());
}

#[test]
fn test_release_tag_adds_a_single_v() {
    assert_eq!(release_tag("1.2.0"), "v1.2.0");
    assert_eq!(release_tag("v1.2.0"), "v1.2.0");
}

#[test]
fn test_package_from_release_uses_the_selected_asset() {
    let release = GitHubRelease {
        tag_name: "v14.1.1".to_string(),
        name: None,
        body: Some("notes".to_string()),
        assets: assets(&["rg-x86_64-unknown-linux-gnu.tar.gz", "rg-x86_64-apple-darwin.tar.gz"]),
    };
    let pkg = package_from_release("BurntSushi", "ripgrep", &release, &LINUX_X64).unwrap();
    assert_eq!(pkg.name, "ripgrep");
    assert_eq!(pkg.version, "14.1.1");
    assert_eq!(pkg.description.as_deref(), Some("notes"));
    assert_eq!(pkg.repository.as_deref(), Some("https://github.com/BurntSushi/ripgrep"));
    assert_eq!(
        pkg.download_url.as_deref(),
        Some("https://example.test/rg-x86_64-unknown-linux-gnu.tar.gz")
    );
    assert_eq!(
        pkg.source,
        PackageSource::GitHub { owner: "BurntSushi".to_string(), repo: "ripgrep".to_string() }
    );
}

#[test]
fn test_host_platform_is_one_of_the_supported_pairs() {
    for windows in [false, true] {
        for aarch64 in [false, true] {
            let spec = baller::github::host_platform(windows, aarch64);
            assert!(matches!(baller::github::os_name(spec.os), "linux" | "windows"));
            assert!(matches!(baller::github::arch_name(spec.arch), "x86_64" | "arm64"));
            assert!(!baller::github::candidate_tags(&spec).is_empty());
        }
    }
}
