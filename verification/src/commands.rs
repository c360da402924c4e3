//! The decisions of baller's commands, apart from the input and output that
//! carry them out: options, the freeze direction, reserved names, labels and
//! the text of short reports.

use vstd::prelude::*;
use vstd::string::*;

use crate::dep_solver::{parse_version_flexible, spec_parse_version_flexible};
use crate::error::{BallError, ErrorView};
use crate::package::{PackageSource, SourceView};
use crate::registry::{spec_db_name, RegistrySource};
use crate::text::{
    chars_of, concat3, decimal, decimal_string, is_ws, join, join_strings, lines, lines_of, spec_to_lowercase, string_of,
    sub_vec, to_lowercase, trim, trimmed,
};
use crate::versions::{spec_version_gt, version_gt};

verus! {

// ---------------------------------------------------------------------------
// freeze
// ---------------------------------------------------------------------------

#[derive(Debug, Clone, Copy, PartialEq, Eq, Structural)]
pub enum FreezeMode {
    Toggle,
    Freeze,
    Thaw,
}

impl FreezeMode {
    /// `--freeze` wins over `--thaw`; neither means toggle.
    pub fn from_flags(freeze: bool, thaw: bool) -> (r: FreezeMode)
        ensures
            r == (if freeze {
                FreezeMode::Freeze
            } else if thaw {
                FreezeMode::Thaw
            } else {
                FreezeMode::Toggle
            }),
    {
        if freeze {
            FreezeMode::Freeze
        } else if thaw {
            FreezeMode::Thaw
        } else {
            FreezeMode::Toggle
        }
    }

    /// The state to write, given the package's current one.
    pub fn target(&self, currently_frozen: bool) -> (r: bool)
        ensures
            r == match *self {
                FreezeMode::Toggle => !currently_frozen,
                FreezeMode::Freeze => true,
                FreezeMode::Thaw => false,
            },
    {
        match self {
            FreezeMode::Toggle => !currently_frozen,
            FreezeMode::Freeze => true,
            FreezeMode::Thaw => false,
        }
    }
}

#[derive(Debug)]
pub struct FreezeOptions {
    pub mode: FreezeMode,
    pub all: bool,
    pub list: bool,
}

/// What `baller freeze` is asked to do.
#[derive(Debug)]
pub enum FreezePlan {
    List,
    All(bool),
    One(String),
}

pub open spec fn freeze_all_message() -> Seq<char> {
    "--all needs an explicit direction: pass --freeze or --thaw"@
}

pub open spec fn freeze_name_message() -> Seq<char> {
    "specify a package name, or use --all or --list"@
}

/// `--list` first; `--all` needs a direction and drives every package to
/// frozen (`--freeze`) or thawed (`--thaw`); otherwise a package is named.
pub fn freeze_plan(opts: &FreezeOptions, package_name: &Option<String>) -> (r: Result<FreezePlan, BallError>)
    ensures
        opts.list ==> r matches Ok(FreezePlan::List),
        !opts.list && opts.all && opts.mode == FreezeMode::Toggle ==> (r matches Err(e) && e@
            == ErrorView::InvalidConfig(freeze_all_message())),
        !opts.list && opts.all && opts.mode != FreezeMode::Toggle ==> (r matches Ok(FreezePlan::All(t)) && t == (
        opts.mode == FreezeMode::Freeze)),
        !opts.list && !opts.all ==> match package_name {
            Some(n) => r matches Ok(FreezePlan::One(m)) && m@ == n@,
            None => r matches Err(e) && e@ == ErrorView::InvalidConfig(freeze_name_message()),
        },
{
    if opts.list {
        return Ok(FreezePlan::List);
    }
    if opts.all {
        if opts.mode == FreezeMode::Toggle {
            return Err(
                BallError::InvalidConfig(
                    String::from_str("--all needs an explicit direction: pass --freeze or --thaw"),
                ),
            );
        }
        return Ok(FreezePlan::All(opts.mode == FreezeMode::Freeze));
    }
    match package_name {
        Some(n) => Ok(FreezePlan::One(n.clone())),
        None => Err(BallError::InvalidConfig(String::from_str("specify a package name, or use --all or --list"))),
    }
}

// ---------------------------------------------------------------------------
// inject
// ---------------------------------------------------------------------------

/// Names an injected command can never take.
pub open spec fn spec_reserved_commands() -> Seq<Seq<char>> {
    seq![
        "draft"@,
        "eject"@,
        "freeze"@,
        "roster"@,
        "substitute"@,
        "sweep"@,
        "update"@,
        "build"@,
        "inject"@,
        "help"@,
        "version"@,
    ]
}

pub fn reserved_commands() -> (r: Vec<&'static str>)
    ensures
        r.deep_view() == spec_reserved_commands(),
{
    let r = vec!["draft", "eject", "freeze", "roster", "substitute", "sweep", "update", "build", "inject", "help", "version"];
    proof {
        assert(r.deep_view() =~= spec_reserved_commands());
    }
    r
}

/// Whether an already lowercased name is reserved.
pub fn is_reserved_lowered(lowered: &str) -> (r: bool)
    ensures
        r == spec_reserved_commands().contains(lowered@),
{
    let names = reserved_commands();
    let v = chars_of(lowered);
    let mut i: usize = 0;
    while i < names.len()
        invariant
            names.deep_view() == spec_reserved_commands(),
            v@ == lowered@,
            i <= names@.len(),
            forall|j: int| 0 <= j < i ==> names.deep_view()[j] != lowered@,
        decreases names@.len() - i,
    {
        if crate::text::eq_str(v.as_slice(), names[i]) {
            proof {
                assert(names.deep_view()[i as int] == lowered@);
            }
            return true;
        }
        i = i + 1;
    }
    false
}

/// A built-in command's name, in any letter case.
pub fn is_reserved(name: &str) -> (r: bool)
    ensures
        r == spec_reserved_commands().contains(spec_to_lowercase(name@)),
{
    let l = to_lowercase(name);
    is_reserved_lowered(l.as_str())
}

/// What the command-name pattern `^[A-Za-z0-9_][A-Za-z0-9_-]*$` admits: a
/// letter, digit or underscore, then letters, digits, underscores or
/// hyphens.
pub open spec fn name_start_char(c: char) -> bool {
    ('A' <= c && c <= 'Z') || ('a' <= c && c <= 'z') || ('0' <= c && c <= '9') || c == '_'
}

pub open spec fn spec_valid_command_name(s: Seq<char>) -> bool {
    s.len() > 0 && name_start_char(s[0]) && forall|i: int| 1 <= i < s.len() ==> (name_start_char(#[trigger] s[i]) || s[i] == '-')
}

/// `regex`'s `Regex::new(pattern)` followed by `is_match(text)`. The
/// contract covers the one pattern the library hands it,
/// `^[A-Za-z0-9_][A-Za-z0-9_-]*$`, which compiles and, without the
/// multi-line flag, anchors `^` and `$` at the ends of the text; it states
/// the language that pattern denotes.
#[verifier::external_body]
fn regex_is_match(pattern: &str, text: &str) -> (r: bool)
    requires
        pattern@ == "^[A-Za-z0-9_][A-Za-z0-9_-]*$"@,
    ensures
        r == spec_valid_command_name(text@),
{
    regex::Regex::new(pattern).unwrap().is_match(text)
}

/// `str::split_whitespace` yields exactly one word.
pub open spec fn one_word(s: Seq<char>) -> bool {
    trim(s).len() > 0 && forall|i: int| 0 <= i < trim(s).len() ==> !is_ws(#[trigger] trim(s)[i])
}

fn one_word_exec(name: &str) -> (r: bool)
    ensures
        r == one_word(name@),
{
    let t = trimmed(chars_of(name).as_slice());
    if t.len() == 0 {
        return false;
    }
    let mut i: usize = 0;
    while i < t.len()
        invariant
            i <= t@.len(),
            t@ == trim(name@),
            forall|j: int| 0 <= j < i ==> !is_ws(#[trigger] t@[j]),
        decreases t@.len() - i,
    {
        if crate::text::is_whitespace(t[i]) {
            return false;
        }
        i = i + 1;
    }
    true
}

/// The checks an injected command's name must pass, in order: not a
/// built-in, a single word, and of the allowed characters.
pub fn validate_command_name(name: &str) -> (r: Result<(), BallError>)
    ensures
        spec_reserved_commands().contains(spec_to_lowercase(name@)) ==> (r matches Err(e) && e@
            == ErrorView::InjectedCommandError(
            "'"@ + name@ + "' is a built-in baller command and cannot be injected"@,
        )),
        !spec_reserved_commands().contains(spec_to_lowercase(name@)) && !one_word(name@) ==> (r matches Err(e) && e@
            == ErrorView::InjectedCommandError(
            "'"@ + name@ + "' is not a valid command name: names cannot contain whitespace"@,
        )),
        !spec_reserved_commands().contains(spec_to_lowercase(name@)) && one_word(name@) && !spec_valid_command_name(
            name@,
        ) ==> (r matches Err(e) && e@ == ErrorView::InjectedCommandError(
            "'"@ + name@
                + "' is not a valid command name: must start with a letter, digit, or underscore and contain only letters, digits, underscores, or hyphens"@,
        )),
        r is Ok <==> (!spec_reserved_commands().contains(spec_to_lowercase(name@)) && one_word(name@)
            && spec_valid_command_name(name@)),
{
    if is_reserved(name) {
        return Err(
            BallError::InjectedCommandError(concat3("'", name, "' is a built-in baller command and cannot be injected")),
        );
    }
    if !one_word_exec(name) {
        return Err(
            BallError::InjectedCommandError(
                concat3("'", name, "' is not a valid command name: names cannot contain whitespace"),
            ),
        );
    }
    if !regex_is_match("^[A-Za-z0-9_][A-Za-z0-9_-]*$", name) {
        return Err(
            BallError::InjectedCommandError(
                concat3(
                    "'",
                    name,
                    "' is not a valid command name: must start with a letter, digit, or underscore and contain only letters, digits, underscores, or hyphens",
                ),
            ),
        );
    }
    Ok(())
}

/// An injected command whose binary is not there.
pub fn missing_binary_error(path: &str, name: &str) -> (r: BallError)
    ensures
        r@ == ErrorView::InjectedCommandError(
            "no binary found at '"@ + path@ + "' for command '"@ + name@ + "'"@,
        ),
{
    let mut m = concat3("no binary found at '", path, "' for command '");
    m.append(name);
    m.append("'");
    BallError::InjectedCommandError(m)
}

/// An injected command whose path is not a file.
pub fn not_a_file_error(path: &str, name: &str) -> (r: BallError)
    ensures
        r@ == ErrorView::InjectedCommandError(
            "'"@ + path@ + "' is not a file: expected an executable for command '"@ + name@ + "'"@,
        ),
{
    let mut m = concat3("'", path, "' is not a file: expected an executable for command '");
    m.append(name);
    m.append("'");
    BallError::InjectedCommandError(m)
}

// ---------------------------------------------------------------------------
// sweep, draft, referee, build
// ---------------------------------------------------------------------------

#[derive(Debug)]
pub struct SweepOptions {
    pub all: bool,
    pub dry_run: bool,
    pub threshold: Option<String>,
}

pub open spec fn spec_describe_targets(archives: nat, extracted: nat) -> Seq<char> {
    if extracted > 0 {
        decimal(archives) + " archive(s) and "@ + decimal(extracted) + " extracted package(s)"@
    } else {
        decimal(archives) + " archive(s)"@
    }
}

pub fn describe_targets(archives: u64, extracted: u64) -> (r: String)
    ensures
        r@ == spec_describe_targets(archives as nat, extracted as nat),
{
    let mut r = decimal_string(archives);
    if extracted > 0 {
        r.append(" archive(s) and ");
        r.append(decimal_string(extracted).as_str());
        r.append(" extracted package(s)");
    } else {
        r.append(" archive(s)");
    }
    r
}

#[derive(Debug)]
pub struct DraftOptions {
    pub version: Option<String>,
    pub source: Option<RegistrySource>,
    pub no_deps: bool,
    pub dry_run: bool,
    pub force: bool,
}

/// How a package's source is named in reports.
pub open spec fn spec_source_label(s: SourceView) -> Seq<char> {
    match s {
        SourceView::GitHub { owner, repo } => "github:"@ + owner + "/"@ + repo,
        SourceView::BallerRegistry { .. } => "baller"@,
        SourceView::Chocolatey { .. } => "chocolatey"@,
        SourceView::System { manager } => "system:"@ + manager,
        SourceView::Cargo { crate_name } => "cargo:"@ + crate_name,
    }
}

pub fn source_label(source: &PackageSource) -> (r: String)
    ensures
        r@ == spec_source_label(source@),
{
    match source {
        PackageSource::GitHub { owner, repo } => {
            let mut r = String::from_str("github:");
            r.append(owner.as_str());
            r.append("/");
            r.append(repo.as_str());
            r
        },
        PackageSource::BallerRegistry { .. } => String::from_str("baller"),
        PackageSource::Chocolatey { .. } => String::from_str("chocolatey"),
        PackageSource::System { manager } => {
            let mut r = String::from_str("system:");
            r.append(manager.as_str());
            r
        },
        PackageSource::Cargo { crate_name } => {
            let mut r = String::from_str("cargo:");
            r.append(crate_name.as_str());
            r
        },
    }
}

#[derive(Debug)]
pub struct EjectOptions {
    pub force: bool,
    pub purge: bool,
    pub no_orphans: bool,
    pub keep_bin: bool,
}

#[derive(Debug)]
pub struct RosterOptions {
    pub frozen: bool,
    pub source: Option<RegistrySource>,
    pub outdated: bool,
    pub remote: bool,
}

/// A listed package passes the roster's filters: frozen ones only when
/// asked, and only those from the asked source.
pub open spec fn roster_keeps(p: InstalledPackage, frozen_only: bool, source: Option<RegistrySource>) -> bool {
    (!frozen_only || p.frozen) && match source {
        Some(s) => p.source@ == spec_db_name(s),
        None => true,
    }
}

/// The positions, in order, of the packages among the first `n` that pass.
pub open spec fn roster_upto(ps: Seq<InstalledPackage>, frozen_only: bool, source: Option<RegistrySource>, n: nat) -> Seq<
    usize,
>
    decreases n,
{
    if n == 0 {
        Seq::empty()
    } else if roster_keeps(ps[n - 1], frozen_only, source) {
        roster_upto(ps, frozen_only, source, (n - 1) as nat).push((n - 1) as usize)
    } else {
        roster_upto(ps, frozen_only, source, (n - 1) as nat)
    }
}

/// Which installed packages `baller roster` lists, by position.
pub fn roster_filter(pkgs: &Vec<InstalledPackage>, opts: &RosterOptions) -> (r: Vec<usize>)
    ensures
        r@ == roster_upto(pkgs@, opts.frozen, opts.source, pkgs@.len()),
{
    let wanted: Option<&'static str> = match &opts.source {
        Some(s) => Some(s.db_name()),
        None => None,
    };
    let mut out: Vec<usize> = Vec::new();
    let mut i: usize = 0;
    while i < pkgs.len()
        invariant
            i <= pkgs@.len(),
            match opts.source {
                Some(s) => wanted matches Some(w) && w@ == spec_db_name(s),
                None => wanted is None,
            },
            out@ == roster_upto(pkgs@, opts.frozen, opts.source, i as nat),
        decreases pkgs@.len() - i,
    {
        let source_ok = match wanted {
            Some(w) => crate::text::eq_str(chars_of(pkgs[i].source.as_str()).as_slice(), w),
            None => true,
        };
        if (!opts.frozen || pkgs[i].frozen) && source_ok {
            out.push(i);
        }
        i = i + 1;
    }
    out
}

/// The search term `--remote` needs.
pub fn remote_query(package_name: &Option<String>) -> (r: Result<String, BallError>)
    ensures
        match package_name {
            Some(n) => r matches Ok(q) && q@ == n@,
            None => r matches Err(e) && e@ == ErrorView::InvalidConfig("--remote needs a search term"@),
        },
{
    match package_name {
        Some(n) => Ok(n.clone()),
        None => Err(BallError::InvalidConfig(String::from_str("--remote needs a search term"))),
    }
}

#[derive(Debug)]
pub struct SubstituteOptions {
    pub keep_old: bool,
    pub dry_run: bool,
    pub no_deps: bool,
}

#[derive(Debug)]
pub struct UpdateOptions {
    pub packages: Vec<String>,
    pub check: bool,
    pub include_frozen: bool,
}

/// Whether an API key is configured, never the key itself.
pub fn key_state(key: Option<&str>) -> (r: &'static str)
    ensures
        r@ == (match key {
            Some(k) => if trim(k@).len() > 0 {
                "set"@
            } else {
                "unset"@
            },
            None => "unset"@,
        }),
{
    match key {
        Some(k) => {
            let v = chars_of(k);
            let t = trimmed(v.as_slice());
            if t.len() > 0 {
                "set"
            } else {
                "unset"
            }
        },
        None => "unset",
    }
}

/// The band `--fail-on` turns into a failing exit.
#[derive(Debug, Clone, Copy, PartialEq, Eq, Structural)]
pub enum FailOn {
    Block,
    Warn,
}

impl FailOn {
    pub fn label(self) -> (r: &'static str)
        ensures
            r@ == (match self {
                FailOn::Block => "block"@,
                FailOn::Warn => "warn"@,
            }),
    {
        match self {
            FailOn::Block => "block",
            FailOn::Warn => "warn",
        }
    }
}

#[derive(Debug, Clone, Copy, PartialEq, Eq, Structural)]
pub enum AuditFormat {
    Json,
    Markdown,
    Sarif,
}

#[derive(Debug, Clone, Copy, PartialEq, Eq, Structural)]
pub enum SbomFormat {
    CyclonedxJson,
}

#[derive(Debug, Clone, Copy, PartialEq, Eq, Structural)]
pub enum CacheAction {
    Status,
    Clear,
    Prune(u32),
}

#[derive(Debug)]
pub struct AuditOptions {
    pub package_names: Vec<String>,
    pub refresh: bool,
    pub no_scan: bool,
    pub fail_on: Option<FailOn>,
    pub format: Option<AuditFormat>,
    pub out: Option<String>,
}

#[derive(Debug)]
pub struct RefereeOptions {
    pub refresh: bool,
    pub no_scan: bool,
}

/// A parsed `baller referee` invocation.
#[derive(Debug)]
pub enum RefereeCommand {
    Audit(AuditOptions),
    Check { package_names: Vec<String>, refresh: bool, fail_on: Option<FailOn> },
    Scan { package_names: Vec<String> },
    Cache(CacheAction),
    Config,
    Sbom { out: Option<String>, format: SbomFormat },
}

/// How many lines of cargo's error output a failed build reports.
pub const CARGO_ERROR_LINES: usize = 12;

/// Lines that are not blank, each without trailing whitespace.
pub open spec fn nonblank_lines(ls: Seq<Seq<char>>) -> Seq<Seq<char>>
    decreases ls.len(),
{
    if ls.len() == 0 {
        Seq::empty()
    } else if trim(ls.last()).len() == 0 {
        nonblank_lines(ls.drop_last())
    } else {
        nonblank_lines(ls.drop_last()).push(crate::text::trim_end(ls.last()))
    }
}

/// The tail of cargo's error output that explains a failed build.
pub open spec fn spec_cargo_error_snippet(stderr: Seq<char>) -> Seq<char> {
    let kept = nonblank_lines(lines(stderr));
    if kept.len() == 0 {
        "no output"@
    } else {
        let from = if kept.len() > CARGO_ERROR_LINES {
            kept.len() - CARGO_ERROR_LINES
        } else {
            0
        };
        join(kept.subrange(from, kept.len() as int), "\n"@)
    }
}

pub fn cargo_error_snippet(stderr: &str) -> (r: String)
    ensures
        r@ == spec_cargo_error_snippet(stderr@),
{
    let v = chars_of(stderr);
    let ls = lines_of(v.as_slice());
    let ghost lv = ls.deep_view();
    let mut kept: Vec<String> = Vec::new();
    let mut i: usize = 0;
    proof {
        assert(lv.subrange(0, 0) =~= Seq::<Seq<char>>::empty());
        assert(kept.deep_view() =~= Seq::<Seq<char>>::empty());
    }
    while i < ls.len()
        invariant
            lv == ls.deep_view(),
            i <= lv.len(),
            kept.deep_view() == nonblank_lines(lv.subrange(0, i as int)),
        decreases lv.len() - i,
    {
        let ghost prev = lv.subrange(0, i as int);
        let ghost next = lv.subrange(0, i + 1);
        let ghost kv = kept.deep_view();
        proof {
            assert(next.drop_last() =~= prev);
            crate::text::lemma_chars_deep_view(&ls@[i as int]);
            assert(next.last() == ls@[i as int]@);
        }
        let t = trimmed(ls[i].as_slice());
        if t.len() > 0 {
            let e = trim_end_string(ls[i].as_slice());
            kept.push(e);
            proof {
                assert(kept.deep_view() =~= kv.push(crate::text::trim_end(lv[i as int])));
            }
        }
        i = i + 1;
    }
    proof {
        assert(lv.subrange(0, lv.len() as int) =~= lv);
    }
    if kept.len() == 0 {
        return String::from_str("no output");
    }
    let from = if kept.len() > CARGO_ERROR_LINES {
        kept.len() - CARGO_ERROR_LINES
    } else {
        0
    };
    let mut tail: Vec<String> = Vec::new();
    let mut j = from;
    while j < kept.len()
        invariant
            from <= j <= kept@.len(),
            tail.deep_view() == kept.deep_view().subrange(from as int, j as int),
        decreases kept@.len() - j,
    {
        let ghost tv = tail.deep_view();
        tail.push(kept[j].clone());
        j = j + 1;
        proof {
            assert(tail.deep_view() =~= tv.push(kept@[j - 1]@));
            assert(tail.deep_view() =~= kept.deep_view().subrange(from as int, j as int));
        }
    }
    join_strings(&tail, "\n")
}

/// `str::trim_end`.
pub(crate) fn trim_end_string(v: &[char]) -> (r: String)
    ensures
        r@ == crate::text::trim_end(v@),
{
    let n = v.len();
    let mut j: usize = n;
    proof {
        assert(v@.subrange(0, n as int) =~= v@);
    }
    while j > 0 && crate::text::is_whitespace(v[j - 1])
        invariant
            j <= n,
            n == v@.len(),
            crate::text::ws_suffix_len(v@) == (n - j) + crate::text::ws_suffix_len(v@.subrange(0, j as int)),
        decreases j,
    {
        proof {
            crate::text::lemma_ws_suffix_step(v@, j as int);
        }
        j = j - 1;
    }
    proof {
        if j > 0 {
            assert(v@.subrange(0, j as int).last() == v@[j - 1]);
        }
        assert(crate::text::ws_suffix_len(v@.subrange(0, j as int)) == 0);
    }
    string_of(sub_vec(v, 0, j).as_slice())
}

// ---------------------------------------------------------------------------
// install, uninstall, list
// ---------------------------------------------------------------------------

#[derive(Debug)]
pub struct InstallParameters {}

pub fn parse_install_parameters(args: &Vec<String>) -> (r: Result<InstallParameters, BallError>)
    ensures
        r is Ok,
{
    Ok(InstallParameters {  })
}

pub fn execute_command_install(parameters: &InstallParameters) -> (r: Result<(), BallError>)
    ensures
        r is Ok,
{
    Ok(())
}

#[derive(Debug)]
pub struct UninstallParameters {}

pub fn parse_uninstall_parameters(args: &Vec<String>) -> (r: Result<UninstallParameters, BallError>)
    ensures
        r is Ok,
{
    Ok(UninstallParameters {  })
}

pub fn execute_command_uninstall(parameters: &UninstallParameters) -> (r: Result<(), BallError>)
    ensures
        r is Ok,
{
    Ok(())
}

#[derive(Debug)]
pub struct ListParameters {
    pub list_dependencies: bool,
}

/// `-d` as the third argument lists dependencies; anything else there is an
/// unknown parameter.
pub fn parse_list_parameters(args: &Vec<String>) -> (r: Result<ListParameters, BallError>)
    ensures
        args@.len() <= 2 ==> (r matches Ok(p) && !p.list_dependencies),
        args@.len() > 2 && args@[2]@ == "-d"@ ==> (r matches Ok(p) && p.list_dependencies),
        args@.len() > 2 && args@[2]@ != "-d"@ ==> (r matches Err(e) && e@ == ErrorView::UnknownParameter(args@[2]@)),
{
    let mut list_dependencies = false;
    if args.len() > 2 {
        let v = chars_of(args[2].as_str());
        if crate::text::eq_str(v.as_slice(), "-d") {
            list_dependencies = true;
        } else {
            return Err(BallError::UnknownParameter(args[2].clone()));
        }
    }
    Ok(ListParameters { list_dependencies })
}

// ---------------------------------------------------------------------------
// update
// ---------------------------------------------------------------------------

/// A package as the local database records it.
#[derive(Debug, Clone)]
pub struct InstalledPackage {
    pub name: String,
    pub version: String,
    pub source: String,
    pub source_detail: Option<String>,
    pub description: Option<String>,
    pub author: Option<String>,
    pub repository: Option<String>,
    pub download_url: Option<String>,
    pub sha256: Option<String>,
    pub frozen: bool,
    pub user_installed: bool,
    pub install_path: String,
    pub bin_path: Option<String>,
    pub manifest_path: Option<String>,
    pub installed_at: String,
}

/// Name and version of each record.
pub open spec fn record_pairs(ps: Seq<InstalledPackage>) -> Seq<(Seq<char>, Seq<char>)> {
    Seq::new(ps.len(), |i: int| (ps[i].name@, ps[i].version@))
}

/// The version of the last record of `name`.
pub open spec fn last_version(s: Seq<(Seq<char>, Seq<char>)>, name: Seq<char>) -> Option<Seq<char>>
    decreases s.len(),
{
    if s.len() == 0 {
        None
    } else if s.last().0 == name {
        Some(s.last().1)
    } else {
        last_version(s.drop_last(), name)
    }
}

/// The version a map of distinct names holds for `name`.
pub open spec fn map_lookup(m: Seq<(String, String)>, name: Seq<char>) -> Option<Seq<char>> {
    if exists|i: int| 0 <= i < m.len() && #[trigger] m[i].0@ == name {
        Some(m[choose|i: int| 0 <= i < m.len() && #[trigger] m[i].0@ == name].1@)
    } else {
        None
    }
}

pub open spec fn map_names_distinct(m: Seq<(String, String)>) -> bool {
    forall|a: int, b: int| 0 <= a < m.len() && 0 <= b < m.len() && a != b ==> #[trigger] m[a].0@ != #[trigger] m[b].0@
}

proof fn lemma_lookup_at(m: Seq<(String, String)>, i: int)
    requires
        map_names_distinct(m),
        0 <= i < m.len(),
    ensures
        map_lookup(m, m[i].0@) == Some(m[i].1@),
{
    let j = choose|j: int| 0 <= j < m.len() && #[trigger] m[j].0@ == m[i].0@;
    assert(j == i);
}

/// Name and version of every installed package; a database that could not
/// be read gives none. A later record of a name replaces an earlier one.
pub fn get_installed_map(listed: &Result<Vec<InstalledPackage>, BallError>) -> (r: Vec<(String, String)>)
    ensures
        map_names_distinct(r@),
        listed is Err ==> r@.len() == 0,
        listed matches Ok(ps) ==> forall|n: Seq<char>| #[trigger] map_lookup(r@, n) == last_version(record_pairs(ps@), n),
{
    let mut map: Vec<(String, String)> = Vec::new();
    match listed {
        Ok(ps) => {
            let ghost pairs = record_pairs(ps@);
            let mut j: usize = 0;
            proof {
                assert forall|n: Seq<char>| #[trigger] map_lookup(map@, n) == last_version(pairs.subrange(0, 0), n) by {
                    assert(pairs.subrange(0, 0).len() == 0);
                }
            }
            while j < ps.len()
                invariant
                    pairs == record_pairs(ps@),
                    j <= ps@.len(),
                    map_names_distinct(map@),
                    forall|n: Seq<char>| #[trigger] map_lookup(map@, n) == last_version(pairs.subrange(0, j as int), n),
                decreases ps@.len() - j,
            {
                let name = ps[j].name.clone();
                let version = ps[j].version.clone();
                let ghost nm = name@;
                let ghost vv = version@;
                let mut at: Option<usize> = None;
                let mut i: usize = 0;
                while i < map.len()
                    invariant
                        i <= map@.len(),
                        nm == name@,
                        map_names_distinct(map@),
                        at matches Some(a) ==> a < map@.len() && map@[a as int].0@ == name@,
                        at is None ==> forall|i2: int| 0 <= i2 < i ==> map@[i2].0@ != name@,
                    decreases map@.len() - i,
                {
                    if map[i].0 == name {
                        at = Some(i);
                    }
                    i = i + 1;
                }
                let ghost m0 = map@;
                let ghost p0 = pairs.subrange(0, j as int);
                let ghost p1 = pairs.subrange(0, j + 1);
                proof {
                    assert(p1.drop_last() =~= p0);
                    assert(p1.last() == (nm, vv));
                }
                match at {
                    Some(a) => {
                        map.set(a, (name, version));
                        proof {
                            assert forall|x: int, y: int|
                                0 <= x < map@.len() && 0 <= y < map@.len() && x != y implies #[trigger] map@[x].0@
                                != #[trigger] map@[y].0@ by {
                                if x != a && y != a {
                                    assert(m0[x].0@ != m0[y].0@);
                                } else if x == a {
                                    assert(m0[y].0@ != m0[a as int].0@);
                                } else {
                                    assert(m0[x].0@ != m0[a as int].0@);
                                }
                            }
                            assert forall|n: Seq<char>| #[trigger] map_lookup(map@, n) == last_version(p1, n) by {
                                if n == nm {
                                    lemma_lookup_at(map@, a as int);
                                    assert(map@[a as int].0@ == nm);
                                    assert(map@[a as int].1@ == vv);
                                } else {
                                    assert(last_version(p1, n) == last_version(p0, n));
                                    assert(map_lookup(m0, n) == last_version(p0, n));
                                    if exists|i2: int| 0 <= i2 < m0.len() && #[trigger] m0[i2].0@ == n {
                                        let i2 = choose|i2: int| 0 <= i2 < m0.len() && #[trigger] m0[i2].0@ == n;
                                        lemma_lookup_at(m0, i2);
                                        assert(i2 != a);
                                        assert(map@[i2] == m0[i2]);
                                        lemma_lookup_at(map@, i2);
                                    } else {
                                        assert forall|i2: int| 0 <= i2 < map@.len() implies #[trigger] map@[i2].0@ != n by {
                                            if i2 != a {
                                                assert(map@[i2] == m0[i2]);
                                            }
                                        }
                                    }
                                }
                            }
                        }
                    },
                    None => {
                        map.push((name, version));
                        proof {
                            assert forall|x: int, y: int|
                                0 <= x < map@.len() && 0 <= y < map@.len() && x != y implies #[trigger] map@[x].0@
                                != #[trigger] map@[y].0@ by {
                                if x < m0.len() && y < m0.len() {
                                    assert(m0[x].0@ != m0[y].0@);
                                } else if x < m0.len() {
                                    assert(map@[x] == m0[x]);
                                } else {
                                    assert(map@[y] == m0[y]);
                                }
                            }
                            assert forall|n: Seq<char>| #[trigger] map_lookup(map@, n) == last_version(p1, n) by {
                                if n == nm {
                                    lemma_lookup_at(map@, m0.len() as int);
                                    assert(map@[m0.len() as int].0@ == nm);
                                    assert(map@[m0.len() as int].1@ == vv);
                                } else {
                                    assert(last_version(p1, n) == last_version(p0, n));
                                    assert(map_lookup(m0, n) == last_version(p0, n));
                                    if exists|i2: int| 0 <= i2 < m0.len() && #[trigger] m0[i2].0@ == n {
                                        let i2 = choose|i2: int| 0 <= i2 < m0.len() && #[trigger] m0[i2].0@ == n;
                                        lemma_lookup_at(m0, i2);
                                        assert(map@[i2] == m0[i2]);
                                        lemma_lookup_at(map@, i2);
                                    } else {
                                        assert forall|i2: int| 0 <= i2 < map@.len() implies #[trigger] map@[i2].0@ != n by {
                                            if i2 < m0.len() {
                                                assert(map@[i2] == m0[i2]);
                                            }
                                        }
                                    }
                                }
                            }
                        }
                    },
                }
                j = j + 1;
            }
            proof {
                assert(pairs.subrange(0, ps@.len() as int) =~= pairs);
            }
        },
        Err(_) => {},
    }
    map
}

/// Whether the registry's version is newer than the installed one: by
/// version order when both read as versions, else whenever they differ.
pub open spec fn spec_needs_update(installed: Seq<char>, remote: Seq<char>) -> bool {
    match (spec_parse_version_flexible(installed), spec_parse_version_flexible(remote)) {
        (Some(cur), Some(rem)) => spec_version_gt(rem, cur),
        _ => remote != installed,
    }
}

pub fn needs_update(installed: &str, remote: &str) -> (r: bool)
    ensures
        r == spec_needs_update(installed@, remote@),
{
    let cur = parse_version_flexible(installed);
    let rem = parse_version_flexible(remote);
    match (cur, rem) {
        (Some(c), Some(n)) => version_gt(&n, &c),
        _ => {
            let a = chars_of(installed);
            let b = chars_of(remote);
            !crate::text::eq_chars(a.as_slice(), b.as_slice())
        },
    }
}

/// `ix[k]` is the first installed record named `requested[k]`.
pub open spec fn picked(installed: Seq<InstalledPackage>, requested: Seq<String>, ix: Seq<usize>, k: int) -> bool {
    &&& ix[k] < installed.len()
    &&& installed[ix[k] as int].name@ == requested[k]@
    &&& forall|j: int| 0 <= j < ix[k] ==> installed[j].name@ != requested[k]@
}

pub open spec fn not_installed(installed: Seq<InstalledPackage>, name: Seq<char>) -> bool {
    forall|j: int| 0 <= j < installed.len() ==> installed[j].name@ != name
}

/// The packages `baller update` works on, by position among the installed
/// records: everything installed, or each named one (its first record),
/// failing on the first name that is not installed.
pub fn select_packages(installed: &Vec<InstalledPackage>, requested: &Vec<String>) -> (r: Result<
    Vec<usize>,
    BallError,
>)
    ensures
        requested@.len() == 0 ==> (r matches Ok(ix) && ix@.len() == installed@.len() && forall|k: int|
            0 <= k < ix@.len() ==> ix@[k] == k),
        requested@.len() > 0 ==> match r {
            Ok(ix) => ix@.len() == requested@.len() && forall|k: int|
                0 <= k < ix@.len() ==> #[trigger] picked(installed@, requested@, ix@, k),
            Err(e) => exists|k: int|
                0 <= k < requested@.len() && (forall|k2: int| 0 <= k2 < k ==> !not_installed(installed@, #[trigger] requested@[k2]@))
                    && not_installed(installed@, requested@[k]@) && e@ == ErrorView::PackageNotFound(requested@[k]@),
        },
{
    let mut ix: Vec<usize> = Vec::new();
    if requested.len() == 0 {
        let mut i: usize = 0;
        while i < installed.len()
            invariant
                i <= installed@.len(),
                ix@.len() == i,
                forall|k: int| 0 <= k < i ==> ix@[k] == k,
            decreases installed@.len() - i,
        {
            ix.push(i);
            i = i + 1;
        }
        return Ok(ix);
    }
    let mut k: usize = 0;
    while k < requested.len()
        invariant
            k <= requested@.len(),
            ix@.len() == k,
            forall|k2: int| 0 <= k2 < k ==> #[trigger] picked(installed@, requested@, ix@, k2),
        decreases requested@.len() - k,
    {
        let mut found: Option<usize> = None;
        let mut j: usize = 0;
        while j < installed.len() && found.is_none()
            invariant
                k < requested@.len(),
                j <= installed@.len(),
                found matches Some(f) ==> f < installed@.len() && installed@[f as int].name@ == requested@[k as int]@
                    && forall|j2: int| 0 <= j2 < f ==> installed@[j2].name@ != requested@[k as int]@,
                found is None ==> forall|j2: int| 0 <= j2 < j ==> installed@[j2].name@ != requested@[k as int]@,
            decreases installed@.len() - j,
        {
            if installed[j].name == requested[k] {
                found = Some(j);
            }
            j = j + 1;
        }
        match found {
            Some(f) => {
                let ghost ix0 = ix@;
                ix.push(f);
                proof {
                    assert forall|k2: int| 0 <= k2 < k + 1 implies #[trigger] picked(installed@, requested@, ix@, k2) by {
                        if k2 < k {
                            assert(ix@[k2] == ix0[k2]);
                            assert(picked(installed@, requested@, ix0, k2));
                        }
                    }
                }
            },
            None => {
                proof {
                    assert(not_installed(installed@, requested@[k as int]@));
                    assert forall|k2: int| 0 <= k2 < k implies !not_installed(installed@, #[trigger] requested@[k2]@) by {
                        assert(picked(installed@, requested@, ix@, k2));
                        assert(installed@[ix@[k2] as int].name@ == requested@[k2]@);
                    }
                }
                return Err(BallError::PackageNotFound(requested[k].clone()));
            },
        }
        k = k + 1;
    }
    Ok(ix)
}

} // verus!
