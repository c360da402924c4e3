//! GitHub releases: which release asset to install on this host, and the
//! package a release describes.

use vstd::prelude::*;
use vstd::string::*;

use crate::error::{BallError, ErrorView};
use crate::package::{copy_opt_string, Package, PackageSource, PackageView, SourceView};
use crate::platform::{HostArch, HostOs};
use crate::text::{
    chars_of, contains, contains_str, ends_with, ends_with_str, spec_to_lowercase, split_chars, split_on,
    string_of, to_lowercase,
};

verus! {

/// The operating system and architecture an asset must be built for.
#[derive(Debug, Clone, Copy, PartialEq, Eq, Structural)]
pub struct PlatformSpec {
    pub os: HostOs,
    pub arch: HostArch,
}

pub open spec fn spec_os_name(os: HostOs) -> Seq<char> {
    match os {
        HostOs::Linux => "linux"@,
        HostOs::Windows => "windows"@,
    }
}

pub open spec fn spec_arch_name(arch: HostArch) -> Seq<char> {
    match arch {
        HostArch::X86_64 => "x86_64"@,
        HostArch::Arm64 => "arm64"@,
    }
}

/// `os-arch`, as error messages name a platform.
pub open spec fn spec_platform_label(p: PlatformSpec) -> Seq<char> {
    spec_os_name(p.os) + "-"@ + spec_arch_name(p.arch)
}

/// The platform baller runs on: Windows or Linux, arm64 or x86_64 (what
/// the build targets, as the caller reads it off the compilation target).
pub fn host_platform(windows: bool, aarch64: bool) -> (r: PlatformSpec)
    ensures
        r.os == (if windows {
            HostOs::Windows
        } else {
            HostOs::Linux
        }),
        r.arch == (if aarch64 {
            HostArch::Arm64
        } else {
            HostArch::X86_64
        }),
{
    PlatformSpec {
        os: if windows {
            HostOs::Windows
        } else {
            HostOs::Linux
        },
        arch: if aarch64 {
            HostArch::Arm64
        } else {
            HostArch::X86_64
        },
    }
}

pub fn os_name(os: HostOs) -> (r: &'static str)
    ensures
        r@ == spec_os_name(os),
{
    match os {
        HostOs::Linux => "linux",
        HostOs::Windows => "windows",
    }
}

pub fn arch_name(arch: HostArch) -> (r: &'static str)
    ensures
        r@ == spec_arch_name(arch),
{
    match arch {
        HostArch::X86_64 => "x86_64",
        HostArch::Arm64 => "arm64",
    }
}

pub fn platform_label(p: &PlatformSpec) -> (r: String)
    ensures
        r@ == spec_platform_label(*p),
{
    let mut r = String::from_str(os_name(p.os));
    r.append("-");
    r.append(arch_name(p.arch));
    r
}

/// Asset-name fragments that identify a build for the platform, most
/// specific first: Rust target triples (gnu before musl), Go's `os_arch`,
/// then bare architecture tokens.
pub open spec fn spec_candidate_tags(p: PlatformSpec) -> Seq<Seq<char>> {
    match (p.os, p.arch) {
        (HostOs::Linux, HostArch::X86_64) => seq![
            "x86_64-unknown-linux-gnu"@,
            "x86_64-unknown-linux-musl"@,
            "x86_64-linux-gnu"@,
            "x86_64-linux-musl"@,
            "amd64-unknown-linux-gnu"@,
            "linux_amd64"@,
            "linux-amd64"@,
            "linux.amd64"@,
            "linux_x86_64"@,
            "linux-x86_64"@,
            "linux.x86_64"@,
            "linux64"@,
            "x86_64-linux"@,
            "amd64-linux"@,
            "x86_64"@,
            "x86-64"@,
            "amd64"@,
        ],
        (HostOs::Linux, HostArch::Arm64) => seq![
            "aarch64-unknown-linux-gnu"@,
            "aarch64-unknown-linux-musl"@,
            "aarch64-linux-gnu"@,
            "aarch64-linux-musl"@,
            "linux_arm64"@,
            "linux-arm64"@,
            "linux.arm64"@,
            "linux_aarch64"@,
            "linux-aarch64"@,
            "linux.aarch64"@,
            "aarch64-linux"@,
            "arm64-linux"@,
            "aarch64"@,
            "arm64"@,
        ],
        (HostOs::Windows, HostArch::X86_64) => seq![
            "x86_64-pc-windows-msvc"@,
            "x86_64-pc-windows-gnu"@,
            "x86_64-windows-msvc"@,
            "x86_64-windows-gnu"@,
            "windows_amd64"@,
            "windows-amd64"@,
            "windows.amd64"@,
            "windows_x86_64"@,
            "windows-x86_64"@,
            "windows.x86_64"@,
            "win64"@,
            "windows64"@,
            "x86_64-windows"@,
            "amd64-windows"@,
            "x86_64"@,
            "x86-64"@,
            "amd64"@,
        ],
        (HostOs::Windows, HostArch::Arm64) => seq![
            "aarch64-pc-windows-msvc"@,
            "aarch64-pc-windows-gnu"@,
            "windows_arm64"@,
            "windows-arm64"@,
            "windows.arm64"@,
            "windows_aarch64"@,
            "windows-aarch64"@,
            "arm64-windows"@,
            "aarch64-windows"@,
            "aarch64"@,
            "arm64"@,
        ],
    }
}

pub fn candidate_tags(p: &PlatformSpec) -> (r: Vec<&'static str>)
    ensures
        r.deep_view() == spec_candidate_tags(*p),
{
    let r = match (p.os, p.arch) {
        (HostOs::Linux, HostArch::X86_64) => vec![
            "x86_64-unknown-linux-gnu",
            "x86_64-unknown-linux-musl",
            "x86_64-linux-gnu",
            "x86_64-linux-musl",
            "amd64-unknown-linux-gnu",
            "linux_amd64",
            "linux-amd64",
            "linux.amd64",
            "linux_x86_64",
            "linux-x86_64",
            "linux.x86_64",
            "linux64",
            "x86_64-linux",
            "amd64-linux",
            "x86_64",
            "x86-64",
            "amd64",
        ],
        (HostOs::Linux, HostArch::Arm64) => vec![
            "aarch64-unknown-linux-gnu",
            "aarch64-unknown-linux-musl",
            "aarch64-linux-gnu",
            "aarch64-linux-musl",
            "linux_arm64",
            "linux-arm64",
            "linux.arm64",
            "linux_aarch64",
            "linux-aarch64",
            "linux.aarch64",
            "aarch64-linux",
            "arm64-linux",
            "aarch64",
            "arm64",
        ],
        (HostOs::Windows, HostArch::X86_64) => vec![
            "x86_64-pc-windows-msvc",
            "x86_64-pc-windows-gnu",
            "x86_64-windows-msvc",
            "x86_64-windows-gnu",
            "windows_amd64",
            "windows-amd64",
            "windows.amd64",
            "windows_x86_64",
            "windows-x86_64",
            "windows.x86_64",
            "win64",
            "windows64",
            "x86_64-windows",
            "amd64-windows",
            "x86_64",
            "x86-64",
            "amd64",
        ],
        (HostOs::Windows, HostArch::Arm64) => vec![
            "aarch64-pc-windows-msvc",
            "aarch64-pc-windows-gnu",
            "windows_arm64",
            "windows-arm64",
            "windows.arm64",
            "windows_aarch64",
            "windows-aarch64",
            "arm64-windows",
            "aarch64-windows",
            "aarch64",
            "arm64",
        ],
    };
    proof {
        assert(r.deep_view() =~= spec_candidate_tags(*p));
    }
    r
}

/// Suffixes that are never an installable program: packages for another
/// package manager, signatures, checksums and release notes.
pub open spec fn spec_forbidden_extensions() -> Seq<Seq<char>> {
    seq![
        ".deb"@,
        ".rpm"@,
        ".apk"@,
        ".pkg"@,
        ".msi"@,
        ".sig"@,
        ".asc"@,
        ".pem"@,
        ".sha1"@,
        ".sha256"@,
        ".sha512"@,
        ".sum"@,
        ".sbom"@,
        ".txt"@,
        ".json"@,
        ".yml"@,
        ".yaml"@,
        ".dsc"@,
        ".buildinfo"@,
        ".changes"@,
    ]
}

fn forbidden_extensions() -> (r: Vec<&'static str>)
    ensures
        r.deep_view() == spec_forbidden_extensions(),
{
    let r = vec![
        ".deb",
        ".rpm",
        ".apk",
        ".pkg",
        ".msi",
        ".sig",
        ".asc",
        ".pem",
        ".sha1",
        ".sha256",
        ".sha512",
        ".sum",
        ".sbom",
        ".txt",
        ".json",
        ".yml",
        ".yaml",
        ".dsc",
        ".buildinfo",
        ".changes",
    ];
    proof {
        assert(r.deep_view() =~= spec_forbidden_extensions());
    }
    r
}

/// Operating-system tokens that rule an asset out on any supported host.
pub open spec fn spec_foreign_os_tokens() -> Seq<Seq<char>> {
    seq![
        "darwin"@,
        "macos"@,
        "mac-os"@,
        "apple"@,
        "osx"@,
        "android"@,
        "freebsd"@,
        "openbsd"@,
        "netbsd"@,
        "dragonfly"@,
        "solaris"@,
        "illumos"@,
        "ios"@,
        "wasm"@,
        "wasi"@,
    ]
}

fn foreign_os_tokens() -> (r: Vec<&'static str>)
    ensures
        r.deep_view() == spec_foreign_os_tokens(),
{
    let r = vec![
        "darwin",
        "macos",
        "mac-os",
        "apple",
        "osx",
        "android",
        "freebsd",
        "openbsd",
        "netbsd",
        "dragonfly",
        "solaris",
        "illumos",
        "ios",
        "wasm",
        "wasi",
    ];
    proof {
        assert(r.deep_view() =~= spec_foreign_os_tokens());
    }
    r
}

pub open spec fn spec_amd64_tokens() -> Seq<Seq<char>> {
    seq!["x86_64"@, "x86-64"@, "amd64"@]
}

pub open spec fn spec_arm64_tokens() -> Seq<Seq<char>> {
    seq!["aarch64"@, "arm64"@, "armv7"@, "armv8"@, "armhf"@, "armv6"@]
}

pub open spec fn spec_other_arch_tokens() -> Seq<Seq<char>> {
    seq![
        "riscv"@,
        "ppc64"@,
        "powerpc"@,
        "s390x"@,
        "mips"@,
        "i386"@,
        "i686"@,
        "386"@,
        "x86_32"@,
        "win32"@,
    ]
}

fn amd64_tokens() -> (r: Vec<&'static str>)
    ensures
        r.deep_view() == spec_amd64_tokens(),
{
    let r = vec!["x86_64", "x86-64", "amd64"];
    proof {
        assert(r.deep_view() =~= spec_amd64_tokens());
    }
    r
}

fn arm64_tokens() -> (r: Vec<&'static str>)
    ensures
        r.deep_view() == spec_arm64_tokens(),
{
    let r = vec!["aarch64", "arm64", "armv7", "armv8", "armhf", "armv6"];
    proof {
        assert(r.deep_view() =~= spec_arm64_tokens());
    }
    r
}

fn other_arch_tokens() -> (r: Vec<&'static str>)
    ensures
        r.deep_view() == spec_other_arch_tokens(),
{
    let r = vec!["riscv", "ppc64", "powerpc", "s390x", "mips", "i386", "i686", "386", "x86_32", "win32"];
    proof {
        assert(r.deep_view() =~= spec_other_arch_tokens());
    }
    r
}

/// Extensions the downloader can unpack.
pub open spec fn spec_archive_extensions() -> Seq<Seq<char>> {
    seq![
        ".tar.gz"@,
        ".tgz"@,
        ".tar.bz2"@,
        ".tbz2"@,
        ".tar.xz"@,
        ".txz"@,
        ".tar"@,
        ".zip"@,
        ".nupkg"@,
        ".gz"@,
    ]
}

fn archive_extensions() -> (r: Vec<&'static str>)
    ensures
        r.deep_view() == spec_archive_extensions(),
{
    let r = vec![".tar.gz", ".tgz", ".tar.bz2", ".tbz2", ".tar.xz", ".txz", ".tar", ".zip", ".nupkg", ".gz"];
    proof {
        assert(r.deep_view() =~= spec_archive_extensions());
    }
    r
}

pub open spec fn contains_any(h: Seq<char>, needles: Seq<Seq<char>>) -> bool {
    exists|i: int| 0 <= i < needles.len() && contains(h, #[trigger] needles[i])
}

pub open spec fn ends_with_any(h: Seq<char>, suffixes: Seq<Seq<char>>) -> bool {
    exists|i: int| 0 <= i < suffixes.len() && ends_with(h, #[trigger] suffixes[i])
}

fn any_contained(h: &[char], needles: &Vec<&'static str>) -> (r: bool)
    ensures
        r == contains_any(h@, needles.deep_view()),
{
    let mut i: usize = 0;
    while i < needles.len()
        invariant
            i <= needles@.len(),
            forall|j: int| 0 <= j < i ==> !contains(h@, #[trigger] needles.deep_view()[j]),
        decreases needles@.len() - i,
    {
        if contains_str(h, needles[i]) {
            proof {
                assert(needles.deep_view()[i as int] == needles@[i as int]@);
            }
            return true;
        }
        proof {
            assert(needles.deep_view()[i as int] == needles@[i as int]@);
        }
        i = i + 1;
    }
    false
}

fn any_suffix(h: &[char], suffixes: &Vec<&'static str>) -> (r: bool)
    ensures
        r == ends_with_any(h@, suffixes.deep_view()),
{
    let mut i: usize = 0;
    while i < suffixes.len()
        invariant
            i <= suffixes@.len(),
            forall|j: int| 0 <= j < i ==> !ends_with(h@, #[trigger] suffixes.deep_view()[j]),
        decreases suffixes@.len() - i,
    {
        if ends_with_str(h, suffixes[i]) {
            proof {
                assert(suffixes.deep_view()[i as int] == suffixes@[i as int]@);
            }
            return true;
        }
        proof {
            assert(suffixes.deep_view()[i as int] == suffixes@[i as int]@);
        }
        i = i + 1;
    }
    false
}

pub open spec fn host_arch_tokens(p: PlatformSpec) -> Seq<Seq<char>> {
    match p.arch {
        HostArch::X86_64 => spec_amd64_tokens(),
        HostArch::Arm64 => spec_arm64_tokens(),
    }
}

pub open spec fn foreign_arch_tokens(p: PlatformSpec) -> Seq<Seq<char>> {
    match p.arch {
        HostArch::X86_64 => spec_arm64_tokens(),
        HostArch::Arm64 => spec_amd64_tokens(),
    }
}

/// The other supported operating system.
pub open spec fn foreign_os_name(p: PlatformSpec) -> Seq<char> {
    match p.os {
        HostOs::Linux => "windows"@,
        HostOs::Windows => "linux"@,
    }
}

/// A (lowercased) asset name that can never be the build for the platform:
/// a distribution package, checksum or signature; another operating system;
/// another architecture (unless the host's own is named too).
pub open spec fn spec_is_excluded(name: Seq<char>, p: PlatformSpec) -> bool {
    ||| ends_with_any(name, spec_forbidden_extensions())
    ||| contains_any(name, spec_foreign_os_tokens())
    ||| contains(name, foreign_os_name(p))
    ||| (p.os == HostOs::Linux && contains(name, "win64"@))
    ||| (contains_any(name, foreign_arch_tokens(p)) && !contains_any(name, host_arch_tokens(p)))
    ||| (contains_any(name, spec_other_arch_tokens()) && !contains_any(name, host_arch_tokens(p)))
}

pub fn is_excluded(name: &[char], p: &PlatformSpec) -> (r: bool)
    ensures
        r == spec_is_excluded(name@, *p),
{
    if any_suffix(name, &forbidden_extensions()) {
        return true;
    }
    if any_contained(name, &foreign_os_tokens()) {
        return true;
    }
    let foreign_os = match p.os {
        HostOs::Linux => "windows",
        HostOs::Windows => "linux",
    };
    let linux = match p.os {
        HostOs::Linux => true,
        HostOs::Windows => false,
    };
    if contains_str(name, foreign_os) || (linux && contains_str(name, "win64")) {
        return true;
    }
    let (host, foreign) = match p.arch {
        HostArch::X86_64 => (amd64_tokens(), arm64_tokens()),
        HostArch::Arm64 => (arm64_tokens(), amd64_tokens()),
    };
    let has_host = any_contained(name, &host);
    if any_contained(name, &foreign) && !has_host {
        return true;
    }
    if any_contained(name, &other_arch_tokens()) && !has_host {
        return true;
    }
    false
}

pub open spec fn is_archive(name: Seq<char>) -> bool {
    ends_with_any(name, spec_archive_extensions())
}

pub fn is_known_archive(name: &[char]) -> (r: bool)
    ensures
        r == is_archive(name@),
{
    any_suffix(name, &archive_extensions())
}


/// One file attached to a release.
#[derive(Debug, Clone)]
pub struct GitHubAsset {
    pub name: String,
    pub browser_download_url: String,
    pub content_type: Option<String>,
    pub size: Option<u64>,
}

/// The asset at `i` survives exclusion and its name holds `tag`.
pub open spec fn hit(names: Seq<Seq<char>>, p: PlatformSpec, tag: Seq<char>, i: int) -> bool {
    !spec_is_excluded(names[i], p) && contains(names[i], tag)
}

/// The first hit at or after `k`.
pub open spec fn first_hit_from(names: Seq<Seq<char>>, p: PlatformSpec, tag: Seq<char>, k: int) -> Option<int>
    decreases names.len() - k,
{
    if k < 0 || k >= names.len() {
        None
    } else if hit(names, p, tag, k) {
        Some(k)
    } else {
        first_hit_from(names, p, tag, k + 1)
    }
}

/// The first hit at or after `k` that is a known archive.
pub open spec fn first_archive_from(names: Seq<Seq<char>>, p: PlatformSpec, tag: Seq<char>, k: int) -> Option<
    int,
>
    decreases names.len() - k,
{
    if k < 0 || k >= names.len() {
        None
    } else if hit(names, p, tag, k) && is_archive(names[k]) {
        Some(k)
    } else {
        first_archive_from(names, p, tag, k + 1)
    }
}

/// For one tag: the first hit, or, when that is not an archive, a later
/// archive hit of the same tag if there is one.
pub open spec fn pick_for_tag(names: Seq<Seq<char>>, p: PlatformSpec, tag: Seq<char>) -> Option<int> {
    match first_hit_from(names, p, tag, 0) {
        None => None,
        Some(f) => if is_archive(names[f]) {
            Some(f)
        } else {
            match first_archive_from(names, p, tag, f + 1) {
                Some(g) => Some(g),
                None => Some(f),
            }
        },
    }
}

/// The pick of the first tag, from `k` on, that picks anything.
pub open spec fn pick_by_tags(names: Seq<Seq<char>>, p: PlatformSpec, tags: Seq<Seq<char>>, k: int) -> Option<int>
    decreases tags.len() - k,
{
    if k < 0 || k >= tags.len() {
        None
    } else {
        match pick_for_tag(names, p, tags[k]) {
            Some(i) => Some(i),
            None => pick_by_tags(names, p, tags, k + 1),
        }
    }
}

/// The asset to install, by position, given the lowercased asset names.
pub open spec fn spec_select(names: Seq<Seq<char>>, p: PlatformSpec) -> Option<int> {
    pick_by_tags(names, p, spec_candidate_tags(p), 0)
}

proof fn lemma_first_hit_is_hit(names: Seq<Seq<char>>, p: PlatformSpec, tag: Seq<char>, k: int)
    ensures
        first_hit_from(names, p, tag, k) matches Some(i) ==> 0 <= i < names.len() && hit(names, p, tag, i),
    decreases names.len() - k,
{
    if 0 <= k < names.len() && !hit(names, p, tag, k) {
        lemma_first_hit_is_hit(names, p, tag, k + 1);
    }
}

proof fn lemma_first_archive_is_hit(names: Seq<Seq<char>>, p: PlatformSpec, tag: Seq<char>, k: int)
    ensures
        first_archive_from(names, p, tag, k) matches Some(i) ==> 0 <= i < names.len() && hit(names, p, tag, i),
    decreases names.len() - k,
{
    if 0 <= k < names.len() && !(hit(names, p, tag, k) && is_archive(names[k])) {
        lemma_first_archive_is_hit(names, p, tag, k + 1);
    }
}

proof fn lemma_pick_is_allowed(names: Seq<Seq<char>>, p: PlatformSpec, tags: Seq<Seq<char>>, k: int)
    ensures
        pick_by_tags(names, p, tags, k) matches Some(i) ==> 0 <= i < names.len() && !spec_is_excluded(names[i], p),
    decreases tags.len() - k,
{
    if 0 <= k < tags.len() {
        lemma_first_hit_is_hit(names, p, tags[k], 0);
        if first_hit_from(names, p, tags[k], 0) is Some {
            let f = first_hit_from(names, p, tags[k], 0)->Some_0;
            lemma_first_archive_is_hit(names, p, tags[k], f + 1);
        }
        lemma_pick_is_allowed(names, p, tags, k + 1);
    }
}

/// Checksums, signatures, distribution packages and builds for another
/// operating system or architecture never win: whatever tags its name
/// holds, an asset `spec_is_excluded` rules out is never the one selected.
pub proof fn law_excluded_assets_never_win(names: Seq<Seq<char>>, p: PlatformSpec)
    ensures
        spec_select(names, p) matches Some(i) ==> 0 <= i < names.len() && !spec_is_excluded(names[i], p),
{
    lemma_pick_is_allowed(names, p, spec_candidate_tags(p), 0);
}

/// The full target triple of the host's preferred build: glibc on Linux,
/// MSVC on Windows.
pub open spec fn preferred_triple(p: PlatformSpec) -> Seq<char> {
    match (p.os, p.arch) {
        (HostOs::Linux, HostArch::X86_64) => "x86_64-unknown-linux-gnu"@,
        (HostOs::Linux, HostArch::Arm64) => "aarch64-unknown-linux-gnu"@,
        (HostOs::Windows, HostArch::X86_64) => "x86_64-pc-windows-msvc"@,
        (HostOs::Windows, HostArch::Arm64) => "aarch64-pc-windows-msvc"@,
    }
}

/// The full target triple of the host's second choice: musl on Linux, the
/// GNU toolchain on Windows.
pub open spec fn fallback_triple(p: PlatformSpec) -> Seq<char> {
    match (p.os, p.arch) {
        (HostOs::Linux, HostArch::X86_64) => "x86_64-unknown-linux-musl"@,
        (HostOs::Linux, HostArch::Arm64) => "aarch64-unknown-linux-musl"@,
        (HostOs::Windows, HostArch::X86_64) => "x86_64-pc-windows-gnu"@,
        (HostOs::Windows, HostArch::Arm64) => "aarch64-pc-windows-gnu"@,
    }
}

proof fn lemma_first_hit_found(names: Seq<Seq<char>>, p: PlatformSpec, tag: Seq<char>, k: int, i: int)
    requires
        0 <= k <= i < names.len(),
        hit(names, p, tag, i),
    ensures
        first_hit_from(names, p, tag, k) matches Some(f) && k <= f <= i,
    decreases i - k,
{
    if !hit(names, p, tag, k) {
        lemma_first_hit_found(names, p, tag, k + 1, i);
    }
}

proof fn lemma_first_hit_none(names: Seq<Seq<char>>, p: PlatformSpec, tag: Seq<char>, k: int)
    requires
        forall|i: int| 0 <= i < names.len() ==> !#[trigger] hit(names, p, tag, i),
    ensures
        first_hit_from(names, p, tag, k) is None,
    decreases names.len() - k,
{
    if 0 <= k < names.len() {
        lemma_first_hit_none(names, p, tag, k + 1);
    }
}

proof fn lemma_first_archive_found(names: Seq<Seq<char>>, p: PlatformSpec, tag: Seq<char>, k: int, i: int)
    requires
        0 <= k <= i < names.len(),
        hit(names, p, tag, i),
        is_archive(names[i]),
    ensures
        first_archive_from(names, p, tag, k) matches Some(g) && k <= g < names.len() && is_archive(names[g]),
    decreases i - k,
{
    if !(hit(names, p, tag, k) && is_archive(names[k])) {
        lemma_first_archive_found(names, p, tag, k + 1, i);
    }
}

/// When an asset that is not excluded carries `tag`, the pick for `tag`
/// carries it too, and is a known archive when such an asset is one.
proof fn lemma_pick_for_tag_found(names: Seq<Seq<char>>, p: PlatformSpec, tag: Seq<char>, i: int)
    requires
        0 <= i < names.len(),
        hit(names, p, tag, i),
    ensures
        pick_for_tag(names, p, tag) matches Some(j) && 0 <= j < names.len() && hit(names, p, tag, j),
        is_archive(names[i]) ==> (pick_for_tag(names, p, tag) matches Some(j) && is_archive(names[j])),
{
    lemma_first_hit_found(names, p, tag, 0, i);
    lemma_first_hit_is_hit(names, p, tag, 0);
    let f = first_hit_from(names, p, tag, 0)->Some_0;
    lemma_first_archive_is_hit(names, p, tag, f + 1);
    if is_archive(names[i]) && !is_archive(names[f]) {
        lemma_first_archive_found(names, p, tag, f + 1, i);
    }
}

/// The host's preferred full target triple wins over every other name: when
/// some asset that is not excluded carries it (`<arch>-unknown-linux-gnu`,
/// `<arch>-pc-windows-msvc`), the selected asset carries it too, so a musl
/// or GNU-toolchain build shipped beside it, or a bare architecture token,
/// never wins; and the selected asset is a known archive when such an asset
/// is one.
pub proof fn law_preferred_triple_wins(names: Seq<Seq<char>>, p: PlatformSpec, i: int)
    requires
        0 <= i < names.len(),
        !spec_is_excluded(names[i], p),
        contains(names[i], preferred_triple(p)),
    ensures
        spec_select(names, p) matches Some(j) && 0 <= j < names.len() && !spec_is_excluded(names[j], p)
            && contains(names[j], preferred_triple(p)),
        is_archive(names[i]) ==> (spec_select(names, p) matches Some(j) && is_archive(names[j])),
{
    let tags = spec_candidate_tags(p);
    let g = preferred_triple(p);
    assert(tags[0] == g);
    assert(hit(names, p, g, i));
    lemma_pick_for_tag_found(names, p, g, i);
    assert(pick_by_tags(names, p, tags, 0) == pick_for_tag(names, p, g));
}

/// Next comes the second full triple (`<arch>-unknown-linux-musl`,
/// `<arch>-pc-windows-gnu`): with no usable asset carrying the preferred
/// triple, an asset that is not excluded and carries this one makes the
/// selected asset carry it too.
pub proof fn law_fallback_triple_next(names: Seq<Seq<char>>, p: PlatformSpec, i: int)
    requires
        0 <= i < names.len(),
        !spec_is_excluded(names[i], p),
        contains(names[i], fallback_triple(p)),
        forall|k: int| 0 <= k < names.len() && !spec_is_excluded(names[k], p) ==> !contains(#[trigger] names[k], preferred_triple(p)),
    ensures
        spec_select(names, p) matches Some(j) && 0 <= j < names.len() && !spec_is_excluded(names[j], p)
            && contains(names[j], fallback_triple(p)),
        is_archive(names[i]) ==> (spec_select(names, p) matches Some(j) && is_archive(names[j])),
{
    let tags = spec_candidate_tags(p);
    let g0 = preferred_triple(p);
    let g = fallback_triple(p);
    assert(tags[0] == g0);
    assert(tags[1] == g);
    assert forall|k: int| 0 <= k < names.len() implies !#[trigger] hit(names, p, g0, k) by {
        assert(names[k] == names[k]);
    }
    lemma_first_hit_none(names, p, g0, 0);
    assert(pick_for_tag(names, p, g0) is None);
    assert(hit(names, p, g, i));
    lemma_pick_for_tag_found(names, p, g, i);
    assert(pick_by_tags(names, p, tags, 0) == pick_by_tags(names, p, tags, 1));
    assert(pick_by_tags(names, p, tags, 1) == pick_for_tag(names, p, g));
}

pub open spec fn asset_names(assets: Seq<GitHubAsset>) -> Seq<Seq<char>> {
    Seq::new(assets.len(), |i: int| assets[i].name@)
}

pub open spec fn lowered_names(assets: Seq<GitHubAsset>) -> Seq<Seq<char>> {
    Seq::new(assets.len(), |i: int| spec_to_lowercase(assets[i].name@))
}

pub open spec fn no_match_error(package: Seq<char>, p: PlatformSpec, assets: Seq<GitHubAsset>) -> ErrorView {
    ErrorView::NoMatchingAsset { package, platform: spec_platform_label(p), assets: asset_names(assets) }
}

/// The first hit (of an archive, with `archive_only`) at or after `from`.
fn scan_hits(
    names: &Vec<Vec<char>>,
    excluded: &Vec<bool>,
    p: &PlatformSpec,
    tag: &str,
    from: usize,
    archive_only: bool,
) -> (r: Option<usize>)
    requires
        excluded@.len() == names@.len(),
        forall|i: int| 0 <= i < names@.len() ==> #[trigger] excluded@[i] == spec_is_excluded(names.deep_view()[i], *p),
    ensures
        r matches Some(i) ==> i < names@.len(),
        match r {
            Some(i) => if archive_only {
                first_archive_from(names.deep_view(), *p, tag@, from as int) == Some(i as int)
            } else {
                first_hit_from(names.deep_view(), *p, tag@, from as int) == Some(i as int)
            },
            None => if archive_only {
                first_archive_from(names.deep_view(), *p, tag@, from as int) is None
            } else {
                first_hit_from(names.deep_view(), *p, tag@, from as int) is None
            },
        },
{
    let ghost nv = names.deep_view();
    let mut i = from;
    while i < names.len()
        invariant
            nv == names.deep_view(),
            from <= i,
            excluded@.len() == names@.len(),
            forall|j: int| 0 <= j < names@.len() ==> #[trigger] excluded@[j] == spec_is_excluded(nv[j], *p),
            archive_only ==> first_archive_from(nv, *p, tag@, from as int) == first_archive_from(
                nv,
                *p,
                tag@,
                i as int,
            ),
            !archive_only ==> first_hit_from(nv, *p, tag@, from as int) == first_hit_from(nv, *p, tag@, i as int),
        decreases names@.len() - i,
    {
        proof {
            crate::text::lemma_chars_deep_view(&names@[i as int]);
        }
        let is_hit = !excluded[i] && contains_str(names[i].as_slice(), tag);
        if is_hit && (!archive_only || is_known_archive(names[i].as_slice())) {
            return Some(i);
        }
        i = i + 1;
    }
    None
}

/// Picks the release asset built for `p`, given the lowercased names of the
/// assets (in the same order).
///
/// Excluded assets never win; the candidate tags are tried in order and the
/// first tag with a hit decides; a known archive beats a bare binary of the
/// same tag. Without a hit the error lists every asset name.
pub fn select_asset_lowered<'a>(
    assets: &'a [GitHubAsset],
    lowered: &Vec<String>,
    p: &PlatformSpec,
    package: &str,
) -> (r: Result<&'a GitHubAsset, BallError>)
    requires
        lowered@.len() == assets@.len(),
    ensures
        match spec_select(lowered.deep_view(), *p) {
            Some(i) => r matches Ok(a) && 0 <= i < assets@.len() && *a == assets@[i],
            None => r matches Err(e) && e@ == no_match_error(package@, *p, assets@),
        },
{
    let ghost lv = lowered.deep_view();
    let mut names: Vec<Vec<char>> = Vec::new();
    let mut excluded: Vec<bool> = Vec::new();
    let mut i: usize = 0;
    while i < lowered.len()
        invariant
            lv == lowered.deep_view(),
            i <= lowered@.len(),
            names@.len() == i,
            excluded@.len() == i,
            forall|j: int| 0 <= j < i ==> #[trigger] names.deep_view()[j] == lv[j],
            forall|j: int| 0 <= j < i ==> #[trigger] excluded@[j] == spec_is_excluded(lv[j], *p),
        decreases lowered@.len() - i,
    {
        let c = chars_of(lowered[i].as_str());
        let ex = is_excluded(c.as_slice(), p);
        let ghost nv0 = names.deep_view();
        proof {
            crate::text::lemma_chars_deep_view(&c);
        }
        names.push(c);
        excluded.push(ex);
        proof {
            assert(names.deep_view() =~= nv0.push(lv[i as int]));
        }
        i = i + 1;
    }
    proof {
        assert(names.deep_view() =~= lv);
    }
    let tags = candidate_tags(p);
    let ghost tv = tags.deep_view();
    let mut k: usize = 0;
    while k < tags.len()
        invariant
            lv == lowered.deep_view(),
            names.deep_view() == lv,
            tv == tags.deep_view(),
            tv == spec_candidate_tags(*p),
            lowered@.len() == assets@.len(),
            names@.len() == assets@.len(),
            excluded@.len() == names@.len(),
            forall|j: int| 0 <= j < names@.len() ==> #[trigger] excluded@[j] == spec_is_excluded(lv[j], *p),
            k <= tv.len(),
            spec_select(lv, *p) == pick_by_tags(lv, *p, tv, k as int),
        decreases tv.len() - k,
    {
        let tag = tags[k];
        proof {
            assert(tv[k as int] == tag@);
        }
        match scan_hits(&names, &excluded, p, tag, 0, false) {
            None => {},
            Some(f) => {
                proof {
                    lemma_first_hit_in_range(lv, *p, tag@, 0);
                    crate::text::lemma_chars_deep_view(&names@[f as int]);
                }
                if is_known_archive(names[f].as_slice()) {
                    return Ok(&assets[f]);
                }
                match scan_hits(&names, &excluded, p, tag, f + 1, true) {
                    Some(g) => {
                        proof {
                            lemma_first_archive_in_range(lv, *p, tag@, f + 1);
                        }
                        return Ok(&assets[g]);
                    },
                    None => {
                        return Ok(&assets[f]);
                    },
                }
            },
        }
        k = k + 1;
    }
    let mut listed: Vec<String> = Vec::new();
    let mut j: usize = 0;
    while j < assets.len()
        invariant
            j <= assets@.len(),
            listed.deep_view() == asset_names(assets@).subrange(0, j as int),
        decreases assets@.len() - j,
    {
        let ghost l0 = listed.deep_view();
        listed.push(assets[j].name.clone());
        j = j + 1;
        proof {
            assert(listed.deep_view() =~= l0.push(assets@[j - 1].name@));
            assert(listed.deep_view() =~= asset_names(assets@).subrange(0, j as int));
        }
    }
    proof {
        assert(asset_names(assets@).subrange(0, assets@.len() as int) =~= asset_names(assets@));
    }
    Err(BallError::NoMatchingAsset { package: String::from_str(package), platform: platform_label(p), assets: listed })
}

proof fn lemma_first_hit_in_range(names: Seq<Seq<char>>, p: PlatformSpec, tag: Seq<char>, k: int)
    ensures
        first_hit_from(names, p, tag, k) matches Some(i) ==> k <= i < names.len() && hit(names, p, tag, i),
    decreases names.len() - k,
{
    if 0 <= k < names.len() && !hit(names, p, tag, k) {
        lemma_first_hit_in_range(names, p, tag, k + 1);
    }
}

proof fn lemma_first_archive_in_range(names: Seq<Seq<char>>, p: PlatformSpec, tag: Seq<char>, k: int)
    ensures
        first_archive_from(names, p, tag, k) matches Some(i) ==> k <= i < names.len(),
    decreases names.len() - k,
{
    if 0 <= k < names.len() && !(hit(names, p, tag, k) && is_archive(names[k])) {
        lemma_first_archive_in_range(names, p, tag, k + 1);
    }
}

/// Picks the release asset built for `p`; names are compared lowercased.
pub fn select_asset<'a>(assets: &'a [GitHubAsset], p: &PlatformSpec, package: &str) -> (r: Result<
    &'a GitHubAsset,
    BallError,
>)
    ensures
        match spec_select(lowered_names(assets@), *p) {
            Some(i) => r matches Ok(a) && 0 <= i < assets@.len() && *a == assets@[i],
            None => r matches Err(e) && e@ == no_match_error(package@, *p, assets@),
        },
{
    let mut lowered: Vec<String> = Vec::new();
    let mut i: usize = 0;
    while i < assets.len()
        invariant
            i <= assets@.len(),
            lowered.deep_view() == lowered_names(assets@).subrange(0, i as int),
        decreases assets@.len() - i,
    {
        let ghost l0 = lowered.deep_view();
        lowered.push(to_lowercase(assets[i].name.as_str()));
        i = i + 1;
        proof {
            assert(lowered.deep_view() =~= l0.push(spec_to_lowercase(assets@[i - 1].name@)));
            assert(lowered.deep_view() =~= lowered_names(assets@).subrange(0, i as int));
        }
    }
    proof {
        assert(lowered_names(assets@).subrange(0, assets@.len() as int) =~= lowered_names(assets@));
    }
    select_asset_lowered(assets, &lowered, p, package)
}


pub open spec fn invalid_name_error(name: Seq<char>) -> ErrorView {
    ErrorView::PackageNotFound("invalid GitHub package name '"@ + name + "' — expected 'owner/repo'"@)
}

/// `owner/repo`, or a bare `repo` under the default owner.
pub open spec fn spec_parse_github_name(name: Seq<char>, default_owner: Option<Seq<char>>) -> Result<
    (Seq<char>, Seq<char>),
    ErrorView,
> {
    let parts = split_on(name, '/');
    if parts.len() == 2 {
        Ok((parts[0], parts[1]))
    } else if parts.len() == 1 {
        match default_owner {
            Some(o) => Ok((o, name)),
            None => Err(invalid_name_error(name)),
        }
    } else {
        Err(invalid_name_error(name))
    }
}

pub fn parse_github_name(name: &str, default_owner: &Option<String>) -> (r: Result<(String, String), BallError>)
    ensures
        match r {
            Ok((o, n)) => spec_parse_github_name(name@, default_owner.deep_view()) == Ok::<
                (Seq<char>, Seq<char>),
                ErrorView,
            >((o@, n@)),
            Err(e) => spec_parse_github_name(name@, default_owner.deep_view()) == Err::<
                (Seq<char>, Seq<char>),
                ErrorView,
            >(e@),
        },
{
    let v = chars_of(name);
    let parts = split_chars(v.as_slice(), '/');
    proof {
        crate::text::lemma_split_on_nonempty(v@, '/');
    }
    if parts.len() == 2 {
        proof {
            crate::text::lemma_chars_deep_view(&parts@[0]);
            crate::text::lemma_chars_deep_view(&parts@[1]);
        }
        Ok((string_of(parts[0].as_slice()), string_of(parts[1].as_slice())))
    } else if parts.len() == 1 {
        match default_owner {
            Some(o) => Ok((o.clone(), String::from_str(name))),
            None => {
                let mut m = String::from_str("invalid GitHub package name '");
                m.append(name);
                m.append("' — expected 'owner/repo'");
                Err(BallError::PackageNotFound(m))
            },
        }
    } else {
        let mut m = String::from_str("invalid GitHub package name '");
        m.append(name);
        m.append("' — expected 'owner/repo'");
        Err(BallError::PackageNotFound(m))
    }
}

/// A release as the GitHub API reports it.
#[derive(Debug, Clone)]
pub struct GitHubRelease {
    pub tag_name: String,
    pub name: Option<String>,
    pub body: Option<String>,
    pub assets: Vec<GitHubAsset>,
}

/// Number of leading `v` characters.
pub open spec fn v_prefix_len(s: Seq<char>) -> nat
    decreases s.len(),
{
    if s.len() > 0 && s[0] == 'v' {
        1 + v_prefix_len(s.subrange(1, s.len() as int))
    } else {
        0
    }
}

/// A release tag without its `v` prefix (`v1.2.0` -> `1.2.0`).
pub open spec fn tag_version(tag: Seq<char>) -> Seq<char> {
    tag.subrange(v_prefix_len(tag) as int, tag.len() as int)
}

proof fn lemma_v_prefix_step(s: Seq<char>, i: int)
    requires
        0 <= i < s.len(),
        s[i] == 'v',
        v_prefix_len(s) == i + v_prefix_len(s.subrange(i, s.len() as int)),
    ensures
        v_prefix_len(s) == (i + 1) + v_prefix_len(s.subrange(i + 1, s.len() as int)),
{
    let t = s.subrange(i, s.len() as int);
    assert(t.subrange(1, t.len() as int) =~= s.subrange(i + 1, s.len() as int));
}

pub fn version_of_tag(tag: &str) -> (r: String)
    ensures
        r@ == tag_version(tag@),
{
    let v = chars_of(tag);
    let n = v.len();
    let mut i: usize = 0;
    proof {
        assert(v@.subrange(0, n as int) =~= v@);
    }
    while i < n && v[i] == 'v'
        invariant
            i <= n,
            n == v@.len(),
            v_prefix_len(v@) == i + v_prefix_len(v@.subrange(i as int, n as int)),
        decreases n - i,
    {
        proof {
            lemma_v_prefix_step(v@, i as int);
        }
        i = i + 1;
    }
    proof {
        if i < n {
            assert(v@.subrange(i as int, n as int)[0] == v@[i as int]);
        }
        assert(v_prefix_len(v@.subrange(i as int, n as int)) == 0);
    }
    string_of(crate::text::sub_vec(v.as_slice(), i, n).as_slice())
}

/// The tag a version is released under: `v` in front unless it has one.
pub open spec fn spec_release_tag(version: Seq<char>) -> Seq<char> {
    if version.len() > 0 && version[0] == 'v' {
        version
    } else {
        "v"@ + version
    }
}

pub fn release_tag(version: &str) -> (r: String)
    ensures
        r@ == spec_release_tag(version@),
{
    let v = chars_of(version);
    if v.len() > 0 && v[0] == 'v' {
        String::from_str(version)
    } else {
        let mut r = String::from_str("v");
        r.append(version);
        r
    }
}

/// The package a release of `owner/repo` describes, installing the asset
/// built for `p`.
pub open spec fn spec_package_from_release(
    owner: Seq<char>,
    repo: Seq<char>,
    tag: Seq<char>,
    body: Option<Seq<char>>,
    download_url: Seq<char>,
) -> PackageView {
    PackageView {
        name: repo,
        version: tag_version(tag),
        description: body,
        author: None,
        repository: Some("https://github.com/"@ + owner + "/"@ + repo),
        architectures: None,
        dependencies: None,
        sha256: None,
        hash_algorithm: None,
        download_url: Some(download_url),
        source: SourceView::GitHub { owner, repo },
        advisory: None,
        vulnerabilities: Seq::empty(),
    }
}

pub fn package_from_release(owner: &str, repo: &str, release: &GitHubRelease, p: &PlatformSpec) -> (r: Result<
    Package,
    BallError,
>)
    ensures
        match spec_select(lowered_names(release.assets@), *p) {
            Some(i) => r matches Ok(pkg) && pkg@ == spec_package_from_release(
                owner@,
                repo@,
                release.tag_name@,
                release.body.deep_view(),
                release.assets@[i].browser_download_url@,
            ),
            None => r matches Err(e) && e@ == no_match_error(repo@, *p, release.assets@),
        },
{
    let asset = match select_asset(release.assets.as_slice(), p, repo) {
        Ok(a) => a,
        Err(e) => {
            return Err(e);
        },
    };
    let mut repository = String::from_str("https://github.com/");
    repository.append(owner);
    repository.append("/");
    repository.append(repo);
    let pkg = Package {
        name: String::from_str(repo),
        version: version_of_tag(release.tag_name.as_str()),
        description: copy_opt_string(&release.body),
        author: None,
        repository: Some(repository),
        architectures: None,
        dependencies: None,
        sha256: None,
        hash_algorithm: None,
        download_url: Some(asset.browser_download_url.clone()),
        source: PackageSource::GitHub { owner: String::from_str(owner), repo: String::from_str(repo) },
        advisory: None,
        vulnerabilities: Vec::new(),
    };
    proof {
        assert(pkg.vulnerabilities.deep_view() =~= Seq::<Seq<char>>::empty());
    }
    Ok(pkg)
}

/// A repository from a GitHub search.
#[derive(Debug, Clone)]
pub struct GitHubRepo {
    pub name: String,
    pub description: Option<String>,
    pub html_url: String,
    pub owner_login: String,
}

/// The package a search hit stands for (version `latest`).
pub fn package_from_repo(item: &GitHubRepo) -> (r: Package)
    ensures
        r@.name == item.name@,
        r@.version == "latest"@,
        r@.description == item.description.deep_view(),
        r@.repository == Some(item.html_url@),
        r@.source == (SourceView::GitHub { owner: item.owner_login@, repo: item.name@ }),
        r@.download_url is None,
        r@.dependencies is None,
{
    Package {
        name: item.name.clone(),
        version: String::from_str("latest"),
        description: copy_opt_string(&item.description),
        author: None,
        repository: Some(item.html_url.clone()),
        architectures: None,
        dependencies: None,
        sha256: None,
        hash_algorithm: None,
        download_url: None,
        source: PackageSource::GitHub { owner: item.owner_login.clone(), repo: item.name.clone() },
        advisory: None,
        vulnerabilities: Vec::new(),
    }
}

} // verus!
