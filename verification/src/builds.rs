//! `baller build`: the choices made around building a package from a local
//! manifest or from a Cargo project. Reading files, fetching metadata,
//! compiling and linking are done by the caller, which hands each result in.

use vstd::prelude::*;
use vstd::string::*;

use crate::commands::{cargo_error_snippet, spec_cargo_error_snippet};
use crate::error::{BallError, ErrorView};
use crate::manifest::{parse_github_url, spec_parse_github_url};
use crate::package::{copy_opt_string, Package, PackageSource, PackageView, SourceView};
use crate::registry::RegistrySource;
use crate::text::{chars_of, concat, concat3, eq_chars, spec_to_lowercase, string_of, to_lowercase};

verus! {

/// The version a Cargo project without one is recorded under.
pub const DEFAULT_CARGO_VERSION: &'static str = "0.0.0";

/// An optional borrowed string as a mathematical value.
pub open spec fn str_opt(o: Option<&str>) -> Option<Seq<char>> {
    match o {
        Some(s) => Some(s@),
        None => None,
    }
}

// ---------------------------------------------------------------------------
// Finding the manifest
// ---------------------------------------------------------------------------

/// The error when no manifest is found at `path`: a directory holding
/// neither `baller.toml` nor `baller.json`, or nothing at all.
pub fn manifest_lookup_error(path: &str, is_dir: bool) -> (r: BallError)
    ensures
        is_dir ==> r@ == ErrorView::InvalidConfig("no baller.toml or baller.json found in '"@ + path@ + "'"@),
        !is_dir ==> r@ == ErrorView::InvalidConfig("manifest not found: "@ + path@),
{
    if is_dir {
        BallError::InvalidConfig(concat3("no baller.toml or baller.json found in '", path, "'"))
    } else {
        BallError::InvalidConfig(concat("manifest not found: ", path))
    }
}

// ---------------------------------------------------------------------------
// --source
// ---------------------------------------------------------------------------

/// The source `--source` puts on a manifest's package, or why it cannot.
/// `system` and `cargo` name the host's package manager and cargo
/// toolchain, when it has them.
pub open spec fn spec_override(
    p: PackageView,
    source: RegistrySource,
    feed: Seq<char>,
    registry_url: Seq<char>,
    system: Option<Seq<char>>,
    cargo: Option<Seq<char>>,
) -> Result<SourceView, ErrorView> {
    match source {
        RegistrySource::GitHub => match p.repository {
            None => Err(
                ErrorView::InvalidConfig(
                    "--source github needs a github.com 'repository' URL in the manifest"@,
                ),
            ),
            Some(url) => match spec_parse_github_url(url) {
                None => Err(
                    ErrorView::InvalidConfig(
                        "--source github could not read owner/repo from '"@ + url + "'"@,
                    ),
                ),
                Some((o, r)) => Ok(SourceView::GitHub { owner: o, repo: r }),
            },
        },
        RegistrySource::Chocolatey => Ok(SourceView::Chocolatey { feed_url: feed }),
        RegistrySource::BallerRegistry => Ok(SourceView::BallerRegistry { url: registry_url }),
        RegistrySource::System => match system {
            None => Err(
                ErrorView::UnsupportedOs(
                    "--source system needs a native package manager, which only Linux hosts have"@,
                ),
            ),
            Some(m) => Ok(SourceView::System { manager: m }),
        },
        RegistrySource::Cargo => match cargo {
            None => Err(ErrorView::PackageManagerError("--source cargo needs a cargo toolchain on PATH"@)),
            Some(_) => Ok(SourceView::Cargo { crate_name: p.name }),
        },
    }
}

/// Replaces the manifest's source with the one `--source` names; the
/// download URL is then looked up again from the new source. On failure
/// the package is left as it was.
pub fn override_source(
    pkg: &mut Package,
    source: RegistrySource,
    chocolatey_feed_url: &str,
    baller_registry_url: &str,
    system_manager: Option<&str>,
    cargo_manager: Option<&str>,
) -> (r: Result<(), BallError>)
    ensures
        match spec_override(
            old(pkg)@,
            source,
            chocolatey_feed_url@,
            baller_registry_url@,
            str_opt(system_manager),
            str_opt(cargo_manager),
        ) {
            Ok(s) => r is Ok && final(pkg)@ == (PackageView { source: s, download_url: None, ..old(pkg)@ }),
            Err(e) => (r matches Err(x) && x@ == e) && final(pkg)@ == old(pkg)@,
        },
{
    let replacement = match source {
        RegistrySource::GitHub => match &pkg.repository {
            None => {
                return Err(
                    BallError::InvalidConfig(
                        String::from_str(
                            "--source github needs a github.com 'repository' URL in the manifest",
                        ),
                    ),
                );
            },
            Some(url) => match parse_github_url(url.as_str()) {
                None => {
                    return Err(
                        BallError::InvalidConfig(
                            concat3("--source github could not read owner/repo from '", url.as_str(), "'"),
                        ),
                    );
                },
                Some((owner, repo)) => PackageSource::GitHub { owner, repo },
            },
        },
        RegistrySource::Chocolatey => PackageSource::Chocolatey {
            feed_url: String::from_str(chocolatey_feed_url),
        },
        RegistrySource::BallerRegistry => PackageSource::BallerRegistry {
            url: String::from_str(baller_registry_url),
        },
        RegistrySource::System => match system_manager {
            None => {
                return Err(
                    BallError::UnsupportedOs(
                        String::from_str(
                            "--source system needs a native package manager, which only Linux hosts have",
                        ),
                    ),
                );
            },
            Some(m) => PackageSource::System { manager: String::from_str(m) },
        },
        RegistrySource::Cargo => match cargo_manager {
            None => {
                return Err(
                    BallError::PackageManagerError(
                        String::from_str("--source cargo needs a cargo toolchain on PATH"),
                    ),
                );
            },
            Some(_) => PackageSource::Cargo { crate_name: pkg.name.clone() },
        },
    };
    pkg.source = replacement;
    pkg.download_url = None;
    Ok(())
}

// ---------------------------------------------------------------------------
// Looking up a download URL the manifest leaves out
// ---------------------------------------------------------------------------

/// Where the download URL of a manifest without one is looked up.
#[derive(Debug)]
pub enum DownloadLookup {
    /// The latest release of `owner/repo` on GitHub.
    GitHub { slug: String },
    /// The package of the same name on a Chocolatey feed.
    Chocolatey { feed_url: String },
    /// The package of the same name in a Baller registry.
    Baller { url: String },
}

/// Where to look, by the manifest's source: nowhere for system and cargo
/// packages, which are installed by their own tools; a GitHub source must
/// name both owner and repository.
pub fn download_lookup(pkg: &Package) -> (r: Result<Option<DownloadLookup>, BallError>)
    ensures
        match pkg@.source {
            SourceView::GitHub { owner, repo } => if owner.len() == 0 || repo.len() == 0 {
                r matches Err(e) && e@ == ErrorView::InvalidConfig(
                    "'"@ + pkg@.name + "' has no download_url and an incomplete github source"@,
                )
            } else {
                r matches Ok(Some(DownloadLookup::GitHub { slug })) && slug@ == owner + "/"@ + repo
            },
            SourceView::Chocolatey { feed_url } => r matches Ok(Some(DownloadLookup::Chocolatey { feed_url: f }))
                && f@ == feed_url,
            SourceView::BallerRegistry { url } => r matches Ok(Some(DownloadLookup::Baller { url: u })) && u@
                == url,
            SourceView::System { .. } => r matches Ok(None),
            SourceView::Cargo { .. } => r matches Ok(None),
        },
{
    match &pkg.source {
        PackageSource::GitHub { owner, repo } => {
            if owner.unicode_len() == 0 || repo.unicode_len() == 0 {
                Err(
                    BallError::InvalidConfig(
                        concat3("'", pkg.name.as_str(), "' has no download_url and an incomplete github source"),
                    ),
                )
            } else {
                let mut slug = concat(owner.as_str(), "/");
                slug.append(repo.as_str());
                Ok(Some(DownloadLookup::GitHub { slug }))
            }
        },
        PackageSource::Chocolatey { feed_url } => Ok(Some(DownloadLookup::Chocolatey { feed_url: feed_url.clone() })),
        PackageSource::BallerRegistry { url } => Ok(Some(DownloadLookup::Baller { url: url.clone() })),
        PackageSource::System { .. } => Ok(None),
        PackageSource::Cargo { .. } => Ok(None),
    }
}

/// The manifest's package completed from what its source serves: the
/// download URL (which must be there), a newer non-empty version, and the
/// checksum (with its algorithm) when the manifest gives none.
pub open spec fn spec_merge_resolved(p: PackageView, resolved: PackageView) -> Result<PackageView, ErrorView> {
    match resolved.download_url {
        None => Err(
            ErrorView::NetworkError(
                "no download URL found for '"@ + p.name + "' — add 'download_url' to the manifest"@,
            ),
        ),
        Some(u) => Ok(
            PackageView {
                version: if resolved.version.len() > 0 && resolved.version != p.version {
                    resolved.version
                } else {
                    p.version
                },
                download_url: Some(u),
                sha256: if p.sha256 is None {
                    resolved.sha256
                } else {
                    p.sha256
                },
                hash_algorithm: if p.sha256 is None && p.hash_algorithm is None {
                    resolved.hash_algorithm
                } else {
                    p.hash_algorithm
                },
                ..p
            },
        ),
    }
}

pub fn merge_resolved(pkg: &mut Package, resolved: &Package) -> (r: Result<(), BallError>)
    ensures
        match spec_merge_resolved(old(pkg)@, resolved@) {
            Ok(p) => r is Ok && final(pkg)@ == p,
            Err(e) => (r matches Err(x) && x@ == e) && final(pkg)@ == old(pkg)@,
        },
{
    let url = match &resolved.download_url {
        None => {
            return Err(
                BallError::NetworkError(
                    concat3(
                        "no download URL found for '",
                        pkg.name.as_str(),
                        "' — add 'download_url' to the manifest",
                    ),
                ),
            );
        },
        Some(u) => u.clone(),
    };
    let rv = chars_of(resolved.version.as_str());
    let pv = chars_of(pkg.version.as_str());
    if rv.len() > 0 && !eq_chars(rv.as_slice(), pv.as_slice()) {
        pkg.version = resolved.version.clone();
    }
    pkg.download_url = Some(url);
    if pkg.sha256.is_none() {
        pkg.sha256 = copy_opt_string(&resolved.sha256);
        if pkg.hash_algorithm.is_none() {
            pkg.hash_algorithm = copy_opt_string(&resolved.hash_algorithm);
        }
    }
    Ok(())
}

// ---------------------------------------------------------------------------
// Guards
// ---------------------------------------------------------------------------

/// A package already on the roster is only built over with `--force`.
pub fn check_not_on_roster(exists: bool, force: bool, name: &str) -> (r: Result<(), BallError>)
    ensures
        exists && !force ==> (r matches Err(e) && e@ == ErrorView::InvalidConfig(
            "'"@ + name@ + "' is already on the roster — pass --force to build over it"@,
        )),
        !(exists && !force) ==> r is Ok,
{
    if exists && !force {
        Err(
            BallError::InvalidConfig(
                concat3("'", name, "' is already on the roster — pass --force to build over it"),
            ),
        )
    } else {
        Ok(())
    }
}

/// A manifest with a system source is only built on Linux.
pub fn check_system_build(on_linux: bool, name: &str, manager: &str) -> (r: Result<(), BallError>)
    ensures
        on_linux ==> r is Ok,
        !on_linux ==> (r matches Err(e) && e@ == ErrorView::UnsupportedOs(
            "'"@ + name@ + "' needs the "@ + manager@ + " system package manager, which is Linux only"@,
        )),
{
    if on_linux {
        Ok(())
    } else {
        let mut m = concat3("'", name, "' needs the ");
        m.append(manager);
        m.append(" system package manager, which is Linux only");
        Err(BallError::UnsupportedOs(m))
    }
}

/// `--source` and `--no-deps` do not apply to a Cargo project.
pub fn check_cargo_project_options(source_given: bool, no_deps: bool) -> (r: Result<(), BallError>)
    ensures
        source_given ==> (r matches Err(e) && e@ == ErrorView::InvalidConfig(
            "--source does not apply to a Cargo project — its sources are compiled from disk"@,
        )),
        !source_given && no_deps ==> (r matches Err(e) && e@ == ErrorView::InvalidConfig(
            "--no-deps does not apply to a Cargo project — cargo resolves its own dependencies"@,
        )),
        !source_given && !no_deps ==> r is Ok,
{
    if source_given {
        return Err(
            BallError::InvalidConfig(
                String::from_str("--source does not apply to a Cargo project — its sources are compiled from disk"),
            ),
        );
    }
    if no_deps {
        return Err(
            BallError::InvalidConfig(
                String::from_str("--no-deps does not apply to a Cargo project — cargo resolves its own dependencies"),
            ),
        );
    }
    Ok(())
}

// ---------------------------------------------------------------------------
// Cargo projects
// ---------------------------------------------------------------------------

/// What is read of a Cargo project's `Cargo.toml`.
#[derive(Debug)]
pub struct CargoMeta {
    pub name: String,
    pub version: String,
    pub bin: String,
}

/// The project's metadata from the `[package]` name and version and the
/// first `[[bin]]` name found in its `Cargo.toml`: the name is required (a
/// workspace root has none), the version defaults to `0.0.0` and the binary
/// to the package name.
pub fn cargo_meta(
    manifest_path: &str,
    name: Option<&str>,
    version: Option<&str>,
    first_bin: Option<&str>,
) -> (r: Result<CargoMeta, BallError>)
    ensures
        match name {
            None => r matches Err(e) && e@ == ErrorView::InvalidConfig(
                manifest_path@ + " has no [package] name — workspace roots are not supported"@,
            ),
            Some(n) => r matches Ok(m) && m.name@ == n@ && m.version@ == (match version {
                Some(v) => v@,
                None => DEFAULT_CARGO_VERSION@,
            }) && m.bin@ == (match first_bin {
                Some(b) => b@,
                None => n@,
            }),
        },
{
    match name {
        None => Err(
            BallError::InvalidConfig(
                concat(manifest_path, " has no [package] name — workspace roots are not supported"),
            ),
        ),
        Some(n) => {
            let version = match version {
                Some(v) => String::from_str(v),
                None => String::from_str(DEFAULT_CARGO_VERSION),
            };
            let bin = match first_bin {
                Some(b) => String::from_str(b),
                None => String::from_str(n),
            };
            Ok(CargoMeta { name: String::from_str(n), version, bin })
        },
    }
}

/// A name with every `-` turned into `_`.
pub open spec fn underscored(s: Seq<char>) -> Seq<char> {
    s.map_values(|c: char| if c == '-' { '_' } else { c })
}

fn underscored_chars(v: &[char]) -> (r: Vec<char>)
    ensures
        r@ == underscored(v@),
{
    let mut r: Vec<char> = Vec::new();
    let mut i: usize = 0;
    while i < v.len()
        invariant
            i <= v@.len(),
            r@ == underscored(v@.subrange(0, i as int)),
        decreases v@.len() - i,
    {
        let c = v[i];
        r.push(if c == '-' { '_' } else { c });
        proof {
            assert(v@.subrange(0, i + 1) =~= v@.subrange(0, i as int).push(c));
            assert(underscored(v@.subrange(0, i + 1)) =~= underscored(v@.subrange(0, i as int)).push(
                if c == '-' { '_' } else { c },
            ));
        }
        i = i + 1;
    }
    proof {
        assert(v@.subrange(0, v@.len() as int) =~= v@);
    }
    r
}

/// The file names cargo may have given a binary: as named and with `-`
/// turned into `_`, with `.exe` on Windows, each once.
pub open spec fn spec_cargo_binary_names(bin: Seq<char>, windows: bool) -> Seq<Seq<char>> {
    let ext = if windows { ".exe"@ } else { Seq::empty() };
    let a = bin + ext;
    let b = underscored(bin) + ext;
    if a == b {
        seq![a]
    } else {
        seq![a, b]
    }
}

pub fn cargo_binary_names(bin_name: &str, windows: bool) -> (r: Vec<String>)
    ensures
        r.deep_view() == spec_cargo_binary_names(bin_name@, windows),
{
    let v = chars_of(bin_name);
    let u = underscored_chars(v.as_slice());
    let mut a = string_of(v.as_slice());
    let mut b = string_of(u.as_slice());
    if windows {
        a.append(".exe");
        b.append(".exe");
    }
    let av = chars_of(a.as_str());
    let bv = chars_of(b.as_str());
    let mut r: Vec<String> = Vec::new();
    if eq_chars(av.as_slice(), bv.as_slice()) {
        r.push(a);
    } else {
        r.push(a);
        r.push(b);
    }
    proof {
        assert(r.deep_view() =~= spec_cargo_binary_names(bin_name@, windows));
    }
    r
}

/// Whether a file in cargo's release directory can be the binary, by its
/// extension: `.exe` on Windows, none elsewhere.
pub fn is_executable_artifact(extension: Option<&str>, windows: bool) -> (r: bool)
    ensures
        r == (if windows {
            str_opt(extension) == Some("exe"@)
        } else {
            extension is None
        }),
{
    match extension {
        None => !windows,
        Some(e) => if windows {
            let ev = chars_of(e);
            let x = chars_of("exe");
            eq_chars(ev.as_slice(), x.as_slice())
        } else {
            false
        },
    }
}

/// Whether a file stem names the wanted binary once `-` is read as `_` and
/// case is ignored.
pub fn stem_matches(stem: &str, bin_name: &str) -> (r: bool)
    ensures
        r == (spec_to_lowercase(underscored(stem@)) == spec_to_lowercase(underscored(bin_name@))),
{
    let s = underscored_chars(chars_of(stem).as_slice());
    let b = underscored_chars(chars_of(bin_name).as_slice());
    let ls = to_lowercase(string_of(s.as_slice()).as_str());
    let lb = to_lowercase(string_of(b.as_slice()).as_str());
    let lsv = chars_of(ls.as_str());
    let lbv = chars_of(lb.as_str());
    eq_chars(lsv.as_slice(), lbv.as_slice())
}

/// The error when `cargo build --release` fails in `dir`: the last lines of
/// what it printed.
pub fn cargo_build_failed(dir: &str, stderr: &str) -> (r: BallError)
    ensures
        r@ == ErrorView::PackageManagerError(
            "cargo build --release failed in '"@ + dir@ + "':\n"@ + spec_cargo_error_snippet(stderr@),
        ),
{
    let mut m = concat3("cargo build --release failed in '", dir, "':\n");
    let snippet = cargo_error_snippet(stderr);
    m.append(snippet.as_str());
    BallError::PackageManagerError(m)
}

/// The error when the build left no binary of the wanted name.
pub fn cargo_binary_missing(bin: &str, release_dir: &str) -> (r: BallError)
    ensures
        r@ == ErrorView::PackageManagerError(
            "cargo build --release left no '"@ + bin@ + "' binary in "@ + release_dir@,
        ),
{
    let mut m = concat3("cargo build --release left no '", bin, "' binary in ");
    m.append(release_dir);
    BallError::PackageManagerError(m)
}

} // verus!
