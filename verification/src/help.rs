//! `baller help`: the command overview and the page for one command,
//! built-in or injected.

use vstd::prelude::*;
use vstd::string::*;

use colored::Colorize;

use crate::ball_parser::BallManifestView;
use crate::error::{BallError, ErrorView};
use crate::injected::InjectedCommand;
use crate::commands::trim_end_string;
use crate::text::{chars_of, contains, join, join_strings, starts_with, string_of, trim_end};

verus! {

/// The escape sequence that ends a styled run.
pub open spec fn reset_seq() -> Seq<char> {
    "\x1B[0m"@
}

/// `r` is `s` as the terminal styling library writes it: unchanged when
/// colour is off, or wrapped in an escape sequence and a reset when it is
/// on. (When `s` itself holds a reset sequence the library also rewrites
/// the inside; nothing is said of that case.)
pub open spec fn styled(r: Seq<char>, s: Seq<char>) -> bool {
    contains(s, reset_seq()) || r == s || exists|p: Seq<char>|
        #![trigger p + s]
        starts_with(p, "\x1B["@) && r == p + s + reset_seq()
}

/// `colored`'s `bold`, written out as a string. Whether escapes are added
/// depends on the environment (colour enabled, output a terminal), so only
/// what holds either way is stated.
#[verifier::external_body]
fn bold(s: &str) -> (r: String)
    ensures
        styled(r@, s@),
{
    s.bold().to_string()
}

/// `colored`'s `cyan`, written out as a string; as for [`bold`], only what
/// holds with colour on or off is stated.
#[verifier::external_body]
fn cyan(s: &str) -> (r: String)
    ensures
        styled(r@, s@),
{
    s.cyan().to_string()
}

/// `colored`'s `cyan` then `bold`, written out as a string; as for
/// [`bold`], only what holds with colour on or off is stated.
#[verifier::external_body]
fn cyan_bold(s: &str) -> (r: String)
    ensures
        styled(r@, s@),
{
    s.cyan().bold().to_string()
}

/// `colored`'s `dimmed`, written out as a string; as for [`bold`], only
/// what holds with colour on or off is stated.
#[verifier::external_body]
fn dimmed(s: &str) -> (r: String)
    ensures
        styled(r@, s@),
{
    s.dimmed().to_string()
}

pub const TAGLINE: &'static str = "B.A.L.L.E.R - The Binary Allocation & Library Launch Environment in Rust";

/// One entry of baller's help table.
pub struct BuiltinCommand {
    pub name: &'static str,
    pub summary: &'static str,
    pub usage: &'static str,
    /// Argument and flag lines, already formatted as `name  explanation`.
    pub details: Vec<&'static str>,
    /// Free-form paragraphs shown under the arguments.
    pub notes: Vec<&'static str>,
}

pub struct BuiltinView {
    pub name: Seq<char>,
    pub summary: Seq<char>,
    pub usage: Seq<char>,
    pub details: Seq<Seq<char>>,
    pub notes: Seq<Seq<char>>,
}

impl View for BuiltinCommand {
    type V = BuiltinView;

    open spec fn view(&self) -> BuiltinView {
        BuiltinView {
            name: self.name@,
            summary: self.summary@,
            usage: self.usage@,
            details: self.details@.map_values(|l: &str| l@),
            notes: self.notes@.map_values(|l: &str| l@),
        }
    }
}

pub open spec fn builtin(
    name: &str,
    summary: &str,
    usage: &str,
    details: Seq<&str>,
    notes: Seq<&str>,
) -> BuiltinView {
    BuiltinView {
        name: name@,
        summary: summary@,
        usage: usage@,
        details: details.map_values(|l: &str| l@),
        notes: notes.map_values(|l: &str| l@),
    }
}

/// Every built-in command, in the order the overview lists them.
pub open spec fn spec_builtin_commands() -> Seq<BuiltinView> {
    seq![
        builtin(
            "draft",
            "Drafts (Installs) a new player onto your team",
            "baller draft <PACKAGE_NAME>",
            seq![
                "<PACKAGE_NAME>  Package to install",
                "--version <V>   Pin an exact version (GitHub and Chocolatey sources only)",
                "--source <SRC>  Resolve from one registry instead of the configured chain",
                "--no-deps       Install the package alone, ignoring its dependencies",
                "--dry-run       Show what would be installed without touching anything",
                "-f, --force     Reinstall even when the package is already on the roster",
            ],
            seq![],
        ),
        builtin(
            "eject",
            "Ejects (Uninstalls) a player from your team",
            "baller eject <PACKAGE_NAME>",
            seq![
                "<PACKAGE_NAME>  Package to uninstall",
                "-f, --force     Eject even when the package is frozen",
                "--purge         Also delete the cached download archive",
                "--no-orphans    Leave orphaned dependencies installed",
                "--keep-bin      Drop the roster entry but leave the linked binary in place",
            ],
            seq!["Frozen packages must be unfrozen before they can be ejected."],
        ),
        builtin(
            "freeze",
            "Freezes (Pins) a player so they cannot be substituted or updated",
            "baller freeze <PACKAGE_NAME>",
            seq![
                "<PACKAGE_NAME>  Package to pin at its current version",
                "--freeze        Freeze explicitly instead of toggling",
                "--thaw          Thaw explicitly instead of toggling",
                "--all           Apply to every installed package",
                "--list          List the frozen packages",
            ],
            seq![],
        ),
        builtin(
            "roster",
            "Rosters (Lists) active players on your team or searches for one",
            "baller roster [PACKAGE_NAME]",
            seq![
                "[PACKAGE_NAME]  Package to look up; omit to list everything installed",
                "--frozen        Only show frozen packages",
                "--source <SRC>  Only show packages installed from this source",
                "--outdated      Check registries for newer versions without updating",
                "--remote        Search registries instead of the local roster",
            ],
            seq![],
        ),
        builtin(
            "substitute",
            "Substitutes (Swaps) a current player for a new one cleanly",
            "baller substitute <OLD_PACKAGE> <NEW_PACKAGE>",
            seq![
                "<OLD_PACKAGE>  Package to remove",
                "<NEW_PACKAGE>  Package to install in its place",
                "--keep-old     Install the new package but leave the old one installed",
                "--dry-run      Show what would change without touching anything",
                "--no-deps      Install the new package alone, ignoring its dependencies",
            ],
            seq![],
        ),
        builtin(
            "sweep",
            "Sweeps (Cleans) the arena of leftover caching debris",
            "baller sweep",
            seq![
                "--all                 Also delete extracted packages, not just downloaded archives",
                "--dry-run             Report what would be swept without deleting",
                "--threshold <SIZE>    Only sweep when the cache is larger than this (e.g. 50MB)",
            ],
            seq!["Removes downloaded archives only; pass --all to also drop extracted packages."],
        ),
        builtin(
            "update",
            "Updates all active packages on the team",
            "baller update [PACKAGES...]",
            seq![
                "[PACKAGES...]  Update only these packages (default: everything)",
                "--check        Report stale packages without updating them",
                "--include-frozen  Update frozen packages too",
            ],
            seq!["Frozen packages are skipped by default."],
        ),
        builtin(
            "build",
            "Builds a package natively from a local manifest",
            "baller build <PATH>",
            seq![
                "<PATH>           Manifest (.toml or .json) to build from, or a directory",
                "                 containing a Cargo project (Rust sources are compiled",
                "                 with 'cargo build --release' and installed)",
                "--dry-run        Parse and validate the manifest without installing",
                "--no-deps        Ignore the manifest's declared dependencies",
                "--install-dir    Link the binary into this directory instead of the default",
                "-f, --force      Build over an existing installation of the same package",
                "--source <SRC>   Override the manifest's source before resolving",
            ],
            seq![
                "A Cargo project's dependencies are resolved by cargo itself, so",
                "--source and --no-deps do not apply to one.",
            ],
        ),
        builtin(
            "inject",
            "Injects a custom command described by a .ball file",
            "baller inject <PATH>",
            seq!["<PATH>  .ball file describing the command to add"],
            seq![
                "Injecting takes three confirmations: the named binary then runs as",
                "'baller <command-name>' with your privileges.",
                "Injected commands are stored in injected_commands.json under baller's",
                "config directory, and are listed at the bottom of 'baller help'.",
            ],
        ),
        builtin(
            "help",
            "Prints this message, or details for one command",
            "baller help [COMMAND]",
            seq!["[COMMAND]  Built-in or injected command to describe"],
            seq![],
        ),
        builtin("version", "Prints the current baller version", "baller version", seq![], seq![]),
    ]
}

fn entry(
    name: &'static str,
    summary: &'static str,
    usage: &'static str,
    details: Vec<&'static str>,
    notes: Vec<&'static str>,
) -> (r: BuiltinCommand)
    ensures
        r@ == builtin(name, summary, usage, details@, notes@),
{
    BuiltinCommand { name, summary, usage, details, notes }
}

/// Every built-in command, in the order the overview lists them.
pub fn builtin_commands() -> (r: Vec<BuiltinCommand>)
    ensures
        r@.map_values(|c: BuiltinCommand| c@) == spec_builtin_commands(),
{
    let mut v: Vec<BuiltinCommand> = Vec::new();
    v.push(
        entry(
            "draft",
            "Drafts (Installs) a new player onto your team",
            "baller draft <PACKAGE_NAME>",
            vec![
                "<PACKAGE_NAME>  Package to install",
                "--version <V>   Pin an exact version (GitHub and Chocolatey sources only)",
                "--source <SRC>  Resolve from one registry instead of the configured chain",
                "--no-deps       Install the package alone, ignoring its dependencies",
                "--dry-run       Show what would be installed without touching anything",
                "-f, --force     Reinstall even when the package is already on the roster",
            ],
            vec![],
        ),
    );
    v.push(
        entry(
            "eject",
            "Ejects (Uninstalls) a player from your team",
            "baller eject <PACKAGE_NAME>",
            vec![
                "<PACKAGE_NAME>  Package to uninstall",
                "-f, --force     Eject even when the package is frozen",
                "--purge         Also delete the cached download archive",
                "--no-orphans    Leave orphaned dependencies installed",
                "--keep-bin      Drop the roster entry but leave the linked binary in place",
            ],
            vec!["Frozen packages must be unfrozen before they can be ejected."],
        ),
    );
    v.push(
        entry(
            "freeze",
            "Freezes (Pins) a player so they cannot be substituted or updated",
            "baller freeze <PACKAGE_NAME>",
            vec![
                "<PACKAGE_NAME>  Package to pin at its current version",
                "--freeze        Freeze explicitly instead of toggling",
                "--thaw          Thaw explicitly instead of toggling",
                "--all           Apply to every installed package",
                "--list          List the frozen packages",
            ],
            vec![],
        ),
    );
    v.push(
        entry(
            "roster",
            "Rosters (Lists) active players on your team or searches for one",
            "baller roster [PACKAGE_NAME]",
            vec![
                "[PACKAGE_NAME]  Package to look up; omit to list everything installed",
                "--frozen        Only show frozen packages",
                "--source <SRC>  Only show packages installed from this source",
                "--outdated      Check registries for newer versions without updating",
                "--remote        Search registries instead of the local roster",
            ],
            vec![],
        ),
    );
    v.push(
        entry(
            "substitute",
            "Substitutes (Swaps) a current player for a new one cleanly",
            "baller substitute <OLD_PACKAGE> <NEW_PACKAGE>",
            vec![
                "<OLD_PACKAGE>  Package to remove",
                "<NEW_PACKAGE>  Package to install in its place",
                "--keep-old     Install the new package but leave the old one installed",
                "--dry-run      Show what would change without touching anything",
                "--no-deps      Install the new package alone, ignoring its dependencies",
            ],
            vec![],
        ),
    );
    v.push(
        entry(
            "sweep",
            "Sweeps (Cleans) the arena of leftover caching debris",
            "baller sweep",
            vec![
                "--all                 Also delete extracted packages, not just downloaded archives",
                "--dry-run             Report what would be swept without deleting",
                "--threshold <SIZE>    Only sweep when the cache is larger than this (e.g. 50MB)",
            ],
            vec!["Removes downloaded archives only; pass --all to also drop extracted packages."],
        ),
    );
    v.push(
        entry(
            "update",
            "Updates all active packages on the team",
            "baller update [PACKAGES...]",
            vec![
                "[PACKAGES...]  Update only these packages (default: everything)",
                "--check        Report stale packages without updating them",
                "--include-frozen  Update frozen packages too",
            ],
            vec!["Frozen packages are skipped by default."],
        ),
    );
    v.push(
        entry(
            "build",
            "Builds a package natively from a local manifest",
            "baller build <PATH>",
            vec![
                "<PATH>           Manifest (.toml or .json) to build from, or a directory",
                "                 containing a Cargo project (Rust sources are compiled",
                "                 with 'cargo build --release' and installed)",
                "--dry-run        Parse and validate the manifest without installing",
                "--no-deps        Ignore the manifest's declared dependencies",
                "--install-dir    Link the binary into this directory instead of the default",
                "-f, --force      Build over an existing installation of the same package",
                "--source <SRC>   Override the manifest's source before resolving",
            ],
            vec![
                "A Cargo project's dependencies are resolved by cargo itself, so",
                "--source and --no-deps do not apply to one.",
            ],
        ),
    );
    v.push(
        entry(
            "inject",
            "Injects a custom command described by a .ball file",
            "baller inject <PATH>",
            vec!["<PATH>  .ball file describing the command to add"],
            vec![
                "Injecting takes three confirmations: the named binary then runs as",
                "'baller <command-name>' with your privileges.",
                "Injected commands are stored in injected_commands.json under baller's",
                "config directory, and are listed at the bottom of 'baller help'.",
            ],
        ),
    );
    v.push(
        entry(
            "help",
            "Prints this message, or details for one command",
            "baller help [COMMAND]",
            vec!["[COMMAND]  Built-in or injected command to describe"],
            vec![],
        ),
    );
    v.push(entry("version", "Prints the current baller version", "baller version", vec![], vec![]));
    proof {
        let s = spec_builtin_commands();
        assert(v@.len() == s.len());
        assert(v@[0]@.notes =~= s[0].notes);
        assert(v@[0]@.details =~= s[0].details);
        assert(v@[0]@ == s[0]);
        assert(v@[1]@.notes =~= s[1].notes);
        assert(v@[1]@.details =~= s[1].details);
        assert(v@[1]@ == s[1]);
        assert(v@[2]@.notes =~= s[2].notes);
        assert(v@[2]@.details =~= s[2].details);
        assert(v@[2]@ == s[2]);
        assert(v@[3]@.notes =~= s[3].notes);
        assert(v@[3]@.details =~= s[3].details);
        assert(v@[3]@ == s[3]);
        assert(v@[4]@.notes =~= s[4].notes);
        assert(v@[4]@.details =~= s[4].details);
        assert(v@[4]@ == s[4]);
        assert(v@[5]@.notes =~= s[5].notes);
        assert(v@[5]@.details =~= s[5].details);
        assert(v@[5]@ == s[5]);
        assert(v@[6]@.notes =~= s[6].notes);
        assert(v@[6]@.details =~= s[6].details);
        assert(v@[6]@ == s[6]);
        assert(v@[7]@.notes =~= s[7].notes);
        assert(v@[7]@.details =~= s[7].details);
        assert(v@[7]@ == s[7]);
        assert(v@[8]@.notes =~= s[8].notes);
        assert(v@[8]@.details =~= s[8].details);
        assert(v@[8]@ == s[8]);
        assert(v@[9]@.notes =~= s[9].notes);
        assert(v@[9]@.details =~= s[9].details);
        assert(v@[9]@ == s[9]);
        assert(v@[10]@.notes =~= s[10].notes);
        assert(v@[10]@.details =~= s[10].details);
        assert(v@[10]@ == s[10]);
        assert(v@.map_values(|c: BuiltinCommand| c@) =~= s);
    }
    v
}


pub open spec fn spec_global_options() -> Seq<Seq<char>> {
    seq![
        "-y, --yes          Skip confirmation prompts"@,
        "-q, --quiet        Suppress progress bars and step-by-step output"@,
        "-v, --verbose      Increase output detail"@,
        "--json             Emit machine-readable JSON instead of formatted text"@,
        "--no-hooks         Skip every pre/post install, eject and update hook"@,
        "--no-color         Disable colored output"@,
        "--config <DIR>     Use an alternate baller directory"@,
        "-h, --help         Print a short usage summary"@,
        "-V, --version      Print baller's version"@,
    ]
}

/// The options every command takes.
pub fn global_options() -> (r: Vec<&'static str>)
    ensures
        r@.map_values(|o: &str| o@) == spec_global_options(),
{
    let v = vec![
        "-y, --yes          Skip confirmation prompts",
        "-q, --quiet        Suppress progress bars and step-by-step output",
        "-v, --verbose      Increase output detail",
        "--json             Emit machine-readable JSON instead of formatted text",
        "--no-hooks         Skip every pre/post install, eject and update hook",
        "--no-color         Disable colored output",
        "--config <DIR>     Use an alternate baller directory",
        "-h, --help         Print a short usage summary",
        "-V, --version      Print baller's version",
    ];
    proof {
        assert(v@.map_values(|o: &str| o@) =~= spec_global_options());
    }
    v
}

// ---------------------------------------------------------------------------
// Lines of the table
// ---------------------------------------------------------------------------

pub open spec fn spaces(n: nat) -> Seq<char> {
    Seq::new(n, |_i: int| ' ')
}

/// `width - n`, or nothing when the name is already that wide.
pub open spec fn pad_len(width: nat, n: nat) -> nat {
    if width >= n {
        (width - n) as nat
    } else {
        0
    }
}

/// A table line: the (styled) name padded on its plain width, so escape
/// sequences never skew the columns, then the summary.
pub open spec fn entry_text(painted: Seq<char>, name: Seq<char>, summary: Seq<char>, width: nat) -> Seq<char> {
    "  "@ + painted + spaces(pad_len(width, name.len())) + "  "@ + summary + "\n"@
}

fn spaces_string(n: usize) -> (r: String)
    ensures
        r@ == spaces(n as nat),
{
    let mut v: Vec<char> = Vec::new();
    let mut i: usize = 0;
    while i < n
        invariant
            i <= n,
            v@ == spaces(i as nat),
        decreases n - i,
    {
        v.push(' ');
        proof {
            assert(v@ =~= spaces((i + 1) as nat));
        }
        i = i + 1;
    }
    string_of(v.as_slice())
}

/// A table line for a name already styled as `painted`.
pub fn format_entry(painted: &str, name: &str, summary: &str, width: usize) -> (r: String)
    ensures
        r@ == entry_text(painted@, name@, summary@, width as nat),
{
    let n = name.unicode_len();
    let pad: usize = if width >= n {
        width - n
    } else {
        0
    };
    let mut out = String::from_str("  ");
    out.append(painted);
    let sp = spaces_string(pad);
    out.append(sp.as_str());
    out.append("  ");
    out.append(summary);
    out.append("\n");
    out
}

/// The lines for the first `n` commands.
pub open spec fn entries_upto(
    painted: Seq<Seq<char>>,
    names: Seq<Seq<char>>,
    sums: Seq<Seq<char>>,
    width: nat,
    n: nat,
) -> Seq<char>
    decreases n,
{
    if n == 0 {
        Seq::empty()
    } else {
        entries_upto(painted, names, sums, width, (n - 1) as nat) + entry_text(
            painted[n - 1],
            names[n - 1],
            sums[n - 1],
            width,
        )
    }
}

/// The widest of the names.
pub open spec fn max_len(s: Seq<Seq<char>>) -> nat
    decreases s.len(),
{
    if s.len() == 0 {
        0
    } else if s.last().len() > max_len(s.drop_last()) {
        s.last().len()
    } else {
        max_len(s.drop_last())
    }
}

/// No name is longer than the longest.
proof fn lemma_max_len_bounds(s: Seq<Seq<char>>, i: int)
    requires
        0 <= i < s.len(),
    ensures
        s[i].len() <= max_len(s),
    decreases s.len(),
{
    if i < s.len() - 1 {
        assert(s.drop_last()[i] == s[i]);
        lemma_max_len_bounds(s.drop_last(), i);
    }
}

/// The overview's table is aligned: both its tables, built-in and
/// injected, pad names to one column (`spec_overview` lays out every row
/// with `entry_text` at `spec_column_width`), as wide as the longest name of
/// either kind. So when every name is written the same way (all plain, or
/// all between the same escape sequences `pre` and `suf`), every row's
/// summary starts at the same offset, `w + 4 + |pre| + |suf|`.
pub proof fn law_overview_columns_align(
    b: Seq<BuiltinView>,
    c: Seq<BallManifestView>,
    i: int,
    pre: Seq<char>,
    suf: Seq<char>,
    summary: Seq<char>,
)
    requires
        0 <= i < (builtin_names(b) + injected_names(c)).len(),
    ensures
        ({
            let name = (builtin_names(b) + injected_names(c))[i];
            let w = spec_column_width(b, c);
            let line = entry_text(pre + name + suf, name, summary, w);
            let at = w + 4 + pre.len() + suf.len();
            &&& name.len() <= w
            &&& line.len() == at + summary.len() + 1
            &&& line.subrange(at as int, line.len() as int) == summary + "\n"@
        }),
{
    let name = (builtin_names(b) + injected_names(c))[i];
    let w = spec_column_width(b, c);
    lemma_max_len_bounds(builtin_names(b) + injected_names(c), i);
    let line = entry_text(pre + name + suf, name, summary, w);
    let head = "  "@ + (pre + name + suf) + spaces(pad_len(w, name.len())) + "  "@;
    reveal_strlit("  ");
    reveal_strlit("\n");
    assert(head.len() == w + 4 + pre.len() + suf.len());
    assert(line == head + (summary + "\n"@));
    assert(line.subrange(head.len() as int, line.len() as int) =~= summary + "\n"@);
}

pub open spec fn builtin_names(b: Seq<BuiltinView>) -> Seq<Seq<char>> {
    b.map_values(|c: BuiltinView| c.name)
}

pub open spec fn builtin_summaries(b: Seq<BuiltinView>) -> Seq<Seq<char>> {
    b.map_values(|c: BuiltinView| c.summary)
}

pub open spec fn injected_names(c: Seq<BallManifestView>) -> Seq<Seq<char>> {
    c.map_values(|m: BallManifestView| m.command_name)
}

/// What the help shows for an injected command's purpose.
pub open spec fn spec_describe(c: BallManifestView) -> Seq<char> {
    if c.description.len() == 0 {
        "no description provided"@
    } else {
        c.description
    }
}

pub open spec fn injected_descriptions(c: Seq<BallManifestView>) -> Seq<Seq<char>> {
    c.map_values(|m: BallManifestView| spec_describe(m))
}

/// The width of the name column: the widest built-in or injected name.
pub open spec fn spec_column_width(b: Seq<BuiltinView>, c: Seq<BallManifestView>) -> nat {
    max_len(builtin_names(b) + injected_names(c))
}

pub open spec fn injected_views(c: Seq<InjectedCommand>) -> Seq<BallManifestView> {
    c.map_values(|m: InjectedCommand| m@)
}

fn describe(command: &InjectedCommand) -> (r: String)
    ensures
        r@ == spec_describe(command@),
{
    if command.description.unicode_len() == 0 {
        String::from_str("no description provided")
    } else {
        command.description.clone()
    }
}

fn column_width(builtins: &Vec<BuiltinCommand>, injected: &Vec<InjectedCommand>) -> (r: usize)
    ensures
        r == spec_column_width(builtins@.map_values(|c: BuiltinCommand| c@), injected_views(injected@)),
{
    let ghost bn = builtin_names(builtins@.map_values(|c: BuiltinCommand| c@));
    let ghost inn = injected_names(injected_views(injected@));
    let mut w: usize = 0;
    let mut i: usize = 0;
    proof {
        assert(bn.subrange(0, 0) =~= Seq::<Seq<char>>::empty());
    }
    while i < builtins.len()
        invariant
            bn == builtin_names(builtins@.map_values(|c: BuiltinCommand| c@)),
            i <= builtins.len(),
            w == max_len(bn.subrange(0, i as int)),
            w <= usize::MAX,
        decreases builtins.len() - i,
    {
        let n = builtins[i].name.unicode_len();
        proof {
            assert(bn.subrange(0, i + 1).drop_last() =~= bn.subrange(0, i as int));
            assert(bn.subrange(0, i + 1).last() == builtins@[i as int].name@);
        }
        if n > w {
            w = n;
        }
        i = i + 1;
    }
    proof {
        assert(bn.subrange(0, bn.len() as int) =~= bn);
        assert((bn + inn.subrange(0, 0)) =~= bn);
    }
    let mut j: usize = 0;
    while j < injected.len()
        invariant
            bn == builtin_names(builtins@.map_values(|c: BuiltinCommand| c@)),
            inn == injected_names(injected_views(injected@)),
            j <= injected.len(),
            w == max_len(bn + inn.subrange(0, j as int)),
        decreases injected.len() - j,
    {
        let n = injected[j].command_name.unicode_len();
        proof {
            assert((bn + inn.subrange(0, j + 1)).drop_last() =~= bn + inn.subrange(0, j as int));
            assert((bn + inn.subrange(0, j + 1)).last() == injected@[j as int].command_name@);
        }
        if n > w {
            w = n;
        }
        j = j + 1;
    }
    proof {
        assert(inn.subrange(0, inn.len() as int) =~= inn);
    }
    w
}

// ---------------------------------------------------------------------------
// The overview
// ---------------------------------------------------------------------------

/// The styled pieces of the overview, produced by the terminal styling
/// library.
pub struct OverviewPaint {
    pub usage: String,
    pub commands: String,
    pub injected: String,
    pub global: String,
    pub inject_hint: String,
    pub help_hint: String,
    pub builtin_names: Vec<String>,
    pub injected_names: Vec<String>,
}

/// `p` holds the overview's labels and names, each styled.
pub open spec fn paint_fits(p: OverviewPaint, b: Seq<BuiltinView>, c: Seq<BallManifestView>) -> bool {
    &&& styled(p.usage@, "Usage:"@)
    &&& styled(p.commands@, "Commands:"@)
    &&& styled(p.injected@, "Injected commands:"@)
    &&& styled(p.global@, "Global options:"@)
    &&& styled(p.inject_hint@, "baller inject <PATH>"@)
    &&& styled(p.help_hint@, "baller help <COMMAND>"@)
    &&& p.builtin_names.len() == b.len()
    &&& p.injected_names.len() == c.len()
    &&& forall|i: int| 0 <= i < b.len() ==> styled(#[trigger] p.builtin_names@[i]@, b[i].name)
    &&& forall|i: int| 0 <= i < c.len() ==> styled(#[trigger] p.injected_names@[i]@, c[i].command_name)
}

/// The overview: every built-in command, then the injected ones (or a hint
/// to add one), then the global options.
pub open spec fn spec_overview(p: OverviewPaint, b: Seq<BuiltinView>, c: Seq<BallManifestView>) -> Seq<char> {
    let w = spec_column_width(b, c);
    let head = TAGLINE@ + "\n\n"@ + p.usage@ + " baller <COMMAND> [ARGS]...\n\n"@ + p.commands@ + "\n"@
        + entries_upto(p.builtin_names@.map_values(|s: String| s@), builtin_names(b), builtin_summaries(b), w, b.len());
    let middle = if c.len() == 0 {
        "\nNo injected commands yet. Add one with '"@ + p.inject_hint@ + "'.\n"@
    } else {
        "\n"@ + p.injected@ + "\n"@ + entries_upto(
            p.injected_names@.map_values(|s: String| s@),
            injected_names(c),
            injected_descriptions(c),
            w,
            c.len(),
        )
    };
    head + middle + "\n"@ + p.global@ + "\n"@ + option_lines(spec_global_options(), 9) + "\nRun '"@ + p.help_hint@
        + "' for details on a specific command."@
}

/// `  option\n` for each of the first `n` options.
pub open spec fn option_lines(opts: Seq<Seq<char>>, n: nat) -> Seq<char>
    decreases n,
{
    if n == 0 {
        Seq::empty()
    } else {
        option_lines(opts, (n - 1) as nat) + "  "@ + opts[n - 1] + "\n"@
    }
}

fn append_entries(
    out: &mut String,
    painted: &Vec<String>,
    Ghost(names): Ghost<Seq<Seq<char>>>,
    Ghost(sums): Ghost<Seq<Seq<char>>>,
    width: usize,
    name_at: &Vec<String>,
    sum_at: &Vec<String>,
)
    requires
        painted.len() == names.len(),
        name_at.len() == names.len(),
        sum_at.len() == names.len(),
        forall|i: int| 0 <= i < names.len() ==> #[trigger] name_at@[i]@ == names[i],
        forall|i: int| 0 <= i < names.len() ==> #[trigger] sum_at@[i]@ == sums[i],
    ensures
        final(out)@ == old(out)@ + entries_upto(
            painted@.map_values(|s: String| s@),
            names,
            sums,
            width as nat,
            names.len(),
        ),
{
    let ghost base = out@;
    let ghost pv = painted@.map_values(|s: String| s@);
    let mut i: usize = 0;
    proof {
        assert(base + entries_upto(pv, names, sums, width as nat, 0) =~= base);
    }
    while i < painted.len()
        invariant
            pv == painted@.map_values(|s: String| s@),
            painted.len() == names.len(),
            name_at.len() == names.len(),
            sum_at.len() == names.len(),
            forall|k: int| 0 <= k < names.len() ==> #[trigger] name_at@[k]@ == names[k],
            forall|k: int| 0 <= k < names.len() ==> #[trigger] sum_at@[k]@ == sums[k],
            i <= painted.len(),
            out@ == base + entries_upto(pv, names, sums, width as nat, i as nat),
        decreases painted.len() - i,
    {
        let line = format_entry(painted[i].as_str(), name_at[i].as_str(), sum_at[i].as_str(), width);
        proof {
            assert(name_at@[i as int]@ == names[i as int]);
            assert(sum_at@[i as int]@ == sums[i as int]);
            assert(pv[i as int] == painted@[i as int]@);
        }
        out.append(line.as_str());
        proof {
            assert(out@ =~= base + entries_upto(pv, names, sums, width as nat, (i + 1) as nat));
        }
        i = i + 1;
    }
}

/// The overview, with its styled pieces given.
pub fn render_overview_with(paint: &OverviewPaint, injected: &Vec<InjectedCommand>) -> (r: String)
    requires
        paint.builtin_names.len() == spec_builtin_commands().len(),
        paint.injected_names.len() == injected.len(),
    ensures
        r@ == spec_overview(*paint, spec_builtin_commands(), injected_views(injected@)),
{
    let builtins = builtin_commands();
    let ghost b = spec_builtin_commands();
    let ghost c = injected_views(injected@);
    let width = column_width(&builtins, injected);
    let mut out = String::from_str(TAGLINE);
    out.append("\n\n");
    out.append(paint.usage.as_str());
    out.append(" baller <COMMAND> [ARGS]...\n\n");
    out.append(paint.commands.as_str());
    out.append("\n");
    let mut bnames: Vec<String> = Vec::new();
    let mut bsums: Vec<String> = Vec::new();
    let mut i: usize = 0;
    while i < builtins.len()
        invariant
            builtins@.map_values(|x: BuiltinCommand| x@) == b,
            i <= builtins.len(),
            bnames.len() == i,
            bsums.len() == i,
            forall|k: int| 0 <= k < i ==> #[trigger] bnames@[k]@ == builtin_names(b)[k],
            forall|k: int| 0 <= k < i ==> #[trigger] bsums@[k]@ == builtin_summaries(b)[k],
        decreases builtins.len() - i,
    {
        proof {
            assert(b[i as int] == builtins@[i as int]@);
        }
        bnames.push(String::from_str(builtins[i].name));
        bsums.push(String::from_str(builtins[i].summary));
        i = i + 1;
    }
    let ghost head0 = out@;
    append_entries(
        &mut out,
        &paint.builtin_names,
        Ghost(builtin_names(b)),
        Ghost(builtin_summaries(b)),
        width,
        &bnames,
        &bsums,
    );
    let ghost head = out@;
    proof {
        assert(width as nat == spec_column_width(b, c));
        assert(head == TAGLINE@ + "\n\n"@ + paint.usage@ + " baller <COMMAND> [ARGS]...\n\n"@ + paint.commands@ + "\n"@
            + entries_upto(
            paint.builtin_names@.map_values(|s: String| s@),
            builtin_names(b),
            builtin_summaries(b),
            spec_column_width(b, c),
            b.len(),
        ));
    }
    if injected.len() == 0 {
        out.append("\nNo injected commands yet. Add one with '");
        out.append(paint.inject_hint.as_str());
        out.append("'.\n");
        proof {
            assert(out@ =~= head + ("\nNo injected commands yet. Add one with '"@ + paint.inject_hint@ + "'.\n"@));
        }
    } else {
        out.append("\n");
        out.append(paint.injected.as_str());
        out.append("\n");
        let ghost mid0 = out@;
        let mut inames: Vec<String> = Vec::new();
        let mut idescs: Vec<String> = Vec::new();
        let mut j: usize = 0;
        while j < injected.len()
            invariant
                c == injected_views(injected@),
                j <= injected.len(),
                inames.len() == j,
                idescs.len() == j,
                forall|k: int| 0 <= k < j ==> #[trigger] inames@[k]@ == injected_names(c)[k],
                forall|k: int| 0 <= k < j ==> #[trigger] idescs@[k]@ == injected_descriptions(c)[k],
            decreases injected.len() - j,
        {
            inames.push(injected[j].command_name.clone());
            idescs.push(describe(&injected[j]));
            j = j + 1;
        }
        append_entries(
            &mut out,
            &paint.injected_names,
            Ghost(injected_names(c)),
            Ghost(injected_descriptions(c)),
            width,
            &inames,
            &idescs,
        );
        proof {
            assert(out@ =~= head + ("\n"@ + paint.injected@ + "\n"@ + entries_upto(
                paint.injected_names@.map_values(|s: String| s@),
                injected_names(c),
                injected_descriptions(c),
                width as nat,
                c.len(),
            )));
        }
    }
    let ghost mid = out@;
    proof {
        assert(mid == head + (if c.len() == 0 {
            "\nNo injected commands yet. Add one with '"@ + paint.inject_hint@ + "'.\n"@
        } else {
            "\n"@ + paint.injected@ + "\n"@ + entries_upto(
                paint.injected_names@.map_values(|s: String| s@),
                injected_names(c),
                injected_descriptions(c),
                spec_column_width(b, c),
                c.len(),
            )
        }));
    }
    out.append("\n");
    out.append(paint.global.as_str());
    out.append("\n");
    let options = global_options();
    let ghost opts = spec_global_options();
    let ghost before = out@;
    let mut k: usize = 0;
    proof {
        assert(before + option_lines(opts, 0) =~= before);
    }
    while k < options.len()
        invariant
            options@.map_values(|o: &str| o@) == opts,
            k <= options.len(),
            out@ == before + option_lines(opts, k as nat),
        decreases options.len() - k,
    {
        proof {
            assert(opts[k as int] == options@[k as int]@);
        }
        out.append("  ");
        out.append(options[k]);
        out.append("\n");
        proof {
            assert(out@ =~= before + option_lines(opts, (k + 1) as nat));
        }
        k = k + 1;
    }
    proof {
        assert(opts.len() == 9);
        assert(options@.map_values(|o: &str| o@).len() == options@.len());
        assert(options.len() == 9);
        assert(out@ == before + option_lines(opts, 9));
    }
    out.append("\nRun '");
    out.append(paint.help_hint.as_str());
    out.append("' for details on a specific command.");
    proof {
        assert(out@ =~= spec_overview(*paint, b, c));
    }
    out
}

/// The overview, styled by the terminal styling library.
pub fn render_overview(injected: &Vec<InjectedCommand>) -> (r: String)
    ensures
        exists|p: OverviewPaint|
            paint_fits(p, spec_builtin_commands(), injected_views(injected@)) && r@ == spec_overview(
                p,
                spec_builtin_commands(),
                injected_views(injected@),
            ),
{
    let builtins = builtin_commands();
    let ghost b = spec_builtin_commands();
    let ghost c = injected_views(injected@);
    let mut bnames: Vec<String> = Vec::new();
    let mut i: usize = 0;
    while i < builtins.len()
        invariant
            builtins@.map_values(|x: BuiltinCommand| x@) == b,
            i <= builtins.len(),
            bnames.len() == i,
            forall|k: int| 0 <= k < i ==> styled(#[trigger] bnames@[k]@, b[k].name),
        decreases builtins.len() - i,
    {
        proof {
            assert(b[i as int] == builtins@[i as int]@);
        }
        bnames.push(cyan(builtins[i].name));
        i = i + 1;
    }
    let mut inames: Vec<String> = Vec::new();
    let mut j: usize = 0;
    while j < injected.len()
        invariant
            c == injected_views(injected@),
            j <= injected.len(),
            inames.len() == j,
            forall|k: int| 0 <= k < j ==> styled(#[trigger] inames@[k]@, c[k].command_name),
        decreases injected.len() - j,
    {
        inames.push(cyan(injected[j].command_name.as_str()));
        j = j + 1;
    }
    let paint = OverviewPaint {
        usage: bold("Usage:"),
        commands: bold("Commands:"),
        injected: bold("Injected commands:"),
        global: bold("Global options:"),
        inject_hint: cyan("baller inject <PATH>"),
        help_hint: cyan("baller help <COMMAND>"),
        builtin_names: bnames,
        injected_names: inames,
    };
    let r = render_overview_with(&paint, injected);
    proof {
        assert(paint_fits(paint, b, c));
    }
    r
}

// ---------------------------------------------------------------------------
// One command
// ---------------------------------------------------------------------------

/// `  line\n` for each of the first `n` lines.
pub open spec fn indented_lines(ls: Seq<Seq<char>>, n: nat) -> Seq<char>
    decreases n,
{
    if n == 0 {
        Seq::empty()
    } else {
        indented_lines(ls, (n - 1) as nat) + "  "@ + ls[n - 1] + "\n"@
    }
}

/// `line\n` for each of the first `n` lines.
pub open spec fn plain_lines(ls: Seq<Seq<char>>, n: nat) -> Seq<char>
    decreases n,
{
    if n == 0 {
        Seq::empty()
    } else {
        plain_lines(ls, (n - 1) as nat) + ls[n - 1] + "\n"@
    }
}

/// The page of a built-in command whose styled name is `name` and whose
/// styled `Usage:` label is `usage`: summary, usage, arguments, notes, with
/// trailing blank space dropped.
pub open spec fn spec_builtin_detail(name: Seq<char>, usage: Seq<char>, c: BuiltinView) -> Seq<char> {
    trim_end(
        name + " - "@ + c.summary + "\n\n"@ + usage + " "@ + c.usage + "\n"@ + (if c.details.len() == 0 {
            Seq::empty()
        } else {
            "\n"@ + indented_lines(c.details, c.details.len())
        }) + (if c.notes.len() == 0 {
            Seq::empty()
        } else {
            "\n"@ + plain_lines(c.notes, c.notes.len())
        }),
    )
}

fn append_lines(out: &mut String, lines: &Vec<&'static str>, indent: bool)
    ensures
        final(out)@ == old(out)@ + (if indent {
            indented_lines(lines@.map_values(|l: &str| l@), lines.len() as nat)
        } else {
            plain_lines(lines@.map_values(|l: &str| l@), lines.len() as nat)
        }),
{
    let ghost base = out@;
    let ghost lv = lines@.map_values(|l: &str| l@);
    let mut i: usize = 0;
    proof {
        assert(base + indented_lines(lv, 0) =~= base);
        assert(base + plain_lines(lv, 0) =~= base);
    }
    while i < lines.len()
        invariant
            lv == lines@.map_values(|l: &str| l@),
            i <= lines.len(),
            out@ == base + (if indent {
                indented_lines(lv, i as nat)
            } else {
                plain_lines(lv, i as nat)
            }),
        decreases lines.len() - i,
    {
        proof {
            assert(lv[i as int] == lines@[i as int]@);
        }
        if indent {
            out.append("  ");
        }
        out.append(lines[i]);
        out.append("\n");
        proof {
            if indent {
                assert(out@ =~= base + indented_lines(lv, (i + 1) as nat));
            } else {
                assert(out@ =~= base + plain_lines(lv, (i + 1) as nat));
            }
        }
        i = i + 1;
    }
}

/// The page of a built-in command, with its styled name and label given.
pub fn render_builtin_detail_with(name: &str, usage: &str, command: &BuiltinCommand) -> (r: String)
    ensures
        r@ == spec_builtin_detail(name@, usage@, command@),
{
    let mut out = String::from_str(name);
    out.append(" - ");
    out.append(command.summary);
    out.append("\n\n");
    out.append(usage);
    out.append(" ");
    out.append(command.usage);
    out.append("\n");
    let ghost head = out@;
    if command.details.len() > 0 {
        out.append("\n");
        let ghost h1 = out@;
        append_lines(&mut out, &command.details, true);
        proof {
            assert(out@ =~= head + ("\n"@ + indented_lines(command@.details, command@.details.len())));
        }
    } else {
        proof {
            assert(out@ =~= head + Seq::<char>::empty());
        }
    }
    let ghost mid = out@;
    if command.notes.len() > 0 {
        out.append("\n");
        append_lines(&mut out, &command.notes, false);
        proof {
            assert(out@ =~= mid + ("\n"@ + plain_lines(command@.notes, command@.notes.len())));
        }
    } else {
        proof {
            assert(out@ =~= mid + Seq::<char>::empty());
        }
    }
    let v = chars_of(out.as_str());
    trim_end_string(v.as_slice())
}

/// The page of a built-in command, styled by the terminal styling library.
pub fn render_builtin_detail(command: &BuiltinCommand) -> (r: String)
    ensures
        exists|n: Seq<char>, u: Seq<char>|
            styled(n, command.name@) && styled(u, "Usage:"@) && r@ == spec_builtin_detail(n, u, command@),
{
    let n = cyan_bold(command.name);
    let u = bold("Usage:");
    let r = render_builtin_detail_with(n.as_str(), u.as_str(), command);
    proof {
        assert(styled(n@, command.name@) && styled(u@, "Usage:"@) && r@ == spec_builtin_detail(n@, u@, command@));
    }
    r
}

/// The page of an injected command whose styled name is `name`, with the
/// styled `Usage:` label and `(injected)` marker given: what its manifest
/// says, fields left empty left out.
pub open spec fn spec_injected_detail(name: Seq<char>, usage: Seq<char>, marker: Seq<char>, c: BallManifestView) -> Seq<
    char,
> {
    name + " - "@ + spec_describe(c) + " "@ + marker + "\n\n"@ + usage + " baller "@ + c.command_name
        + " [ARGS]...\n\n"@ + "  Version:       "@ + c.version + "\n"@ + (if c.author.len() == 0 {
        Seq::empty()
    } else {
        "  Author:        "@ + c.author + "\n"@
    }) + (if c.flags.len() == 0 {
        Seq::empty()
    } else {
        "  Flags:         "@ + join(c.flags, ", "@) + "\n"@
    }) + (if c.depends.len() == 0 {
        Seq::empty()
    } else {
        "  Requires:      "@ + join(c.depends, ", "@) + "\n"@
    }) + "  Requires root: "@ + (if c.require_root {
        "yes"@
    } else {
        "no"@
    }) + "\n"@ + "  Binary:        "@ + c.path + "\n"@ + "\nArguments and flags are passed straight through to the binary."@
}

/// The page of an injected command, with its styled pieces given.
pub fn render_injected_detail_with(name: &str, usage: &str, marker: &str, command: &InjectedCommand) -> (r: String)
    ensures
        r@ == spec_injected_detail(name@, usage@, marker@, command@),
{
    let mut out = String::from_str(name);
    out.append(" - ");
    let d = describe(command);
    out.append(d.as_str());
    out.append(" ");
    out.append(marker);
    out.append("\n\n");
    out.append(usage);
    out.append(" baller ");
    out.append(command.command_name.as_str());
    out.append(" [ARGS]...\n\n");
    out.append("  Version:       ");
    out.append(command.version.as_str());
    out.append("\n");
    let ghost s0 = out@;
    if command.author.unicode_len() > 0 {
        out.append("  Author:        ");
        out.append(command.author.as_str());
        out.append("\n");
        proof {
            assert(out@ =~= s0 + ("  Author:        "@ + command@.author + "\n"@));
        }
    } else {
        proof {
            assert(out@ =~= s0 + Seq::<char>::empty());
        }
    }
    let ghost s1 = out@;
    if command.flags.len() > 0 {
        out.append("  Flags:         ");
        let f = join_strings(&command.flags, ", ");
        out.append(f.as_str());
        out.append("\n");
        proof {
            assert(out@ =~= s1 + ("  Flags:         "@ + join(command@.flags, ", "@) + "\n"@));
        }
    } else {
        proof {
            assert(out@ =~= s1 + Seq::<char>::empty());
        }
    }
    let ghost s2 = out@;
    if command.depends.len() > 0 {
        out.append("  Requires:      ");
        let dp = join_strings(&command.depends, ", ");
        out.append(dp.as_str());
        out.append("\n");
        proof {
            assert(out@ =~= s2 + ("  Requires:      "@ + join(command@.depends, ", "@) + "\n"@));
        }
    } else {
        proof {
            assert(out@ =~= s2 + Seq::<char>::empty());
        }
    }
    out.append("  Requires root: ");
    if command.require_root {
        out.append("yes");
    } else {
        out.append("no");
    }
    out.append("\n");
    out.append("  Binary:        ");
    out.append(command.path.as_str());
    out.append("\n");
    out.append("\nArguments and flags are passed straight through to the binary.");
    out
}

/// The page of an injected command, styled by the terminal styling library.
pub fn render_injected_detail(command: &InjectedCommand) -> (r: String)
    ensures
        exists|n: Seq<char>, u: Seq<char>, m: Seq<char>|
            styled(n, command.command_name@) && styled(u, "Usage:"@) && styled(m, "(injected)"@) && r@
                == spec_injected_detail(n, u, m, command@),
{
    let n = cyan_bold(command.command_name.as_str());
    let u = bold("Usage:");
    let m = dimmed("(injected)");
    let r = render_injected_detail_with(n.as_str(), u.as_str(), m.as_str(), command);
    proof {
        assert(styled(n@, command.command_name@) && styled(u@, "Usage:"@) && styled(m@, "(injected)"@) && r@
            == spec_injected_detail(n@, u@, m@, command@));
    }
    r
}

// ---------------------------------------------------------------------------
// Which page
// ---------------------------------------------------------------------------

/// The built-in command named `name`.
pub fn find_builtin(name: &str) -> (r: Option<BuiltinCommand>)
    ensures
        match r {
            Some(c) => exists|i: int|
                0 <= i < spec_builtin_commands().len() && spec_builtin_commands()[i] == c@ && c@.name == name@,
            None => forall|i: int|
                0 <= i < spec_builtin_commands().len() ==> #[trigger] spec_builtin_commands()[i].name != name@,
        },
{
    let mut builtins = builtin_commands();
    let ghost b = spec_builtin_commands();
    let key = chars_of(name);
    let mut i: usize = 0;
    while i < builtins.len()
        invariant
            builtins@.map_values(|x: BuiltinCommand| x@) == b,
            b == spec_builtin_commands(),
            i <= builtins.len(),
            key@ == name@,
            forall|k: int| 0 <= k < i ==> #[trigger] b[k].name != name@,
        decreases builtins.len() - i,
    {
        proof {
            assert(b[i as int] == builtins@[i as int]@);
        }
        if crate::text::eq_str(key.as_slice(), builtins[i].name) {
            let ghost before = builtins@;
            let c = builtins.remove(i);
            proof {
                assert(c == before[i as int]);
                assert(b[i as int] == c@);
                assert(c@.name == name@);
                assert(0 <= i < spec_builtin_commands().len() && spec_builtin_commands()[i as int] == c@);
            }
            return Some(c);
        }
        i = i + 1;
    }
    None
}

/// What `baller help <name>` shows.
pub enum HelpPage {
    Builtin(BuiltinCommand),
    Injected(InjectedCommand),
}

/// The page for `name`: a built-in first, so none can be shadowed, then an
/// injected command of that name; an unknown name is an error.
pub fn help_page(name: &str, injected: &Vec<InjectedCommand>) -> (r: Result<HelpPage, BallError>)
    ensures
        (exists|i: int| 0 <= i < spec_builtin_commands().len() && #[trigger] spec_builtin_commands()[i].name == name@)
            ==> (r matches Ok(HelpPage::Builtin(c)) && c@.name == name@),
        match r {
            Ok(HelpPage::Builtin(c)) => c@.name == name@,
            Ok(HelpPage::Injected(c)) => c@.command_name == name@ && (forall|i: int|
                0 <= i < spec_builtin_commands().len() ==> #[trigger] spec_builtin_commands()[i].name != name@)
                && exists|j: int|
                0 <= j < injected.len() && injected@[j]@ == c@ && forall|k: int|
                    0 <= k < j ==> #[trigger] injected@[k]@.command_name != name@,
            Err(e) => e@ == ErrorView::UnsupportedCommand(name@) && (forall|i: int|
                0 <= i < spec_builtin_commands().len() ==> #[trigger] spec_builtin_commands()[i].name != name@)
                && forall|k: int| 0 <= k < injected.len() ==> #[trigger] injected@[k]@.command_name != name@,
        },
{
    match find_builtin(name) {
        Some(c) => {
            return Ok(HelpPage::Builtin(c));
        },
        None => {},
    }
    let key = String::from_str(name);
    let mut k: usize = 0;
    while k < injected.len()
        invariant
            k <= injected.len(),
            key@ == name@,
            forall|i: int|
                0 <= i < spec_builtin_commands().len() ==> #[trigger] spec_builtin_commands()[i].name != name@,
            forall|j: int| 0 <= j < k ==> #[trigger] injected@[j]@.command_name != name@,
        decreases injected.len() - k,
    {
        if injected[k].command_name == key {
            return Ok(HelpPage::Injected(injected[k].copy()));
        }
        k = k + 1;
    }
    Err(BallError::UnsupportedCommand(key))
}

} // verus!
