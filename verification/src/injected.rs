//! Commands injected from `.ball` files, kept in `injected_commands.json`.

use vstd::prelude::*;
use vstd::string::*;

use crate::ball_parser::{BallManifest, BallManifestView};
use crate::config::BallerConfig;
use crate::error::{BallError, ErrorView};
use crate::package::copy_strings;
use crate::platform::{join_path, path_join};
use crate::text::{chars_of, concat3, eq_chars, string_of, sub_vec};

verus! {

/// An injected command as persisted in `injected_commands.json`.
#[derive(Debug, Clone, PartialEq)]
pub struct InjectedCommand {
    pub command_name: String,
    pub description: String,
    pub version: String,
    pub flags: Vec<String>,
    pub author: String,
    pub require_root: bool,
    pub depends: Vec<String>,
    pub path: String,
}

impl View for InjectedCommand {
    type V = BallManifestView;

    open spec fn view(&self) -> BallManifestView {
        BallManifestView {
            command_name: self.command_name@,
            description: self.description@,
            version: self.version@,
            flags: self.flags.deep_view(),
            author: self.author@,
            require_root: self.require_root,
            depends: self.depends.deep_view(),
            path: self.path@,
        }
    }
}

impl From<BallManifest> for InjectedCommand {
    fn from(manifest: BallManifest) -> (r: InjectedCommand)
        ensures
            r@ == manifest@,
    {
        InjectedCommand {
            command_name: manifest.command_name,
            description: manifest.description,
            version: manifest.version,
            flags: manifest.flags,
            author: manifest.author,
            require_root: manifest.require_root,
            depends: manifest.depends,
            path: manifest.path,
        }
    }
}

impl vstd::std_specs::convert::FromSpecImpl<BallManifest> for InjectedCommand {
    open spec fn obeys_from_spec() -> bool {
        true
    }

    open spec fn from_spec(m: BallManifest) -> InjectedCommand {
        InjectedCommand {
            command_name: m.command_name,
            description: m.description,
            version: m.version,
            flags: m.flags,
            author: m.author,
            require_root: m.require_root,
            depends: m.depends,
            path: m.path,
        }
    }
}

impl InjectedCommand {
    pub fn copy(&self) -> (r: InjectedCommand)
        ensures
            r@ == self@,
    {
        InjectedCommand {
            command_name: self.command_name.clone(),
            description: self.description.clone(),
            version: self.version.clone(),
            flags: copy_strings(&self.flags),
            author: self.author.clone(),
            require_root: self.require_root,
            depends: copy_strings(&self.depends),
            path: self.path.clone(),
        }
    }
}

/// File under baller's config directory holding every injected command.
pub const INJECTED_FILE: &'static str = "injected_commands.json";

/// Path of the injected commands store inside `baller_dir`.
pub fn injected_path(baller_dir: &str) -> (r: String)
    ensures
        r@ == path_join(baller_dir@, "injected_commands.json"@),
{
    join_path(baller_dir, "injected_commands.json")
}

/// Number of trailing `/` of `s`.
pub open spec fn slash_suffix_len(s: Seq<char>) -> nat
    decreases s.len(),
{
    if s.len() > 0 && s.last() == '/' {
        1 + slash_suffix_len(s.drop_last())
    } else {
        0
    }
}

pub open spec fn strip_slashes(s: Seq<char>) -> Seq<char> {
    s.subrange(0, s.len() - slash_suffix_len(s))
}

/// Index just past the last `/` of `s`, or 0 when there is none.
pub open spec fn after_last_slash(s: Seq<char>) -> nat
    decreases s.len(),
{
    if s.len() == 0 {
        0
    } else if s.last() == '/' {
        s.len()
    } else {
        after_last_slash(s.drop_last())
    }
}

/// `Path::parent` for `/`-separated paths: the path without its last
/// component and the separators before it; the root and the empty path have
/// no parent, and a single relative component has the empty parent.
pub open spec fn spec_parent(p: Seq<char>) -> Option<Seq<char>> {
    let t = strip_slashes(p);
    if t.len() == 0 {
        None
    } else if after_last_slash(t) == 0 {
        Some(Seq::empty())
    } else {
        let head = strip_slashes(t.subrange(0, after_last_slash(t) as int));
        if head.len() == 0 {
            Some(seq!['/'])
        } else {
            Some(head)
        }
    }
}

proof fn lemma_slash_suffix_bound(s: Seq<char>)
    ensures
        slash_suffix_len(s) <= s.len(),
    decreases s.len(),
{
    if s.len() > 0 && s.last() == '/' {
        lemma_slash_suffix_bound(s.drop_last());
    }
}

proof fn lemma_after_last_slash_bound(s: Seq<char>)
    ensures
        after_last_slash(s) <= s.len(),
        after_last_slash(s) > 0 ==> s[after_last_slash(s) - 1] == '/',
    decreases s.len(),
{
    if s.len() > 0 && s.last() != '/' {
        lemma_after_last_slash_bound(s.drop_last());
        let t = s.drop_last();
        if after_last_slash(t) > 0 {
            assert(s[after_last_slash(s) - 1] == t[after_last_slash(t) - 1]);
        }
    }
}

pub(crate) fn strip_slashes_len(v: &[char], end: usize) -> (r: usize)
    requires
        end <= v@.len(),
    ensures
        r <= end,
        r == end - slash_suffix_len(v@.subrange(0, end as int)),
{
    let mut j = end;
    proof {
        lemma_slash_suffix_bound(v@.subrange(0, end as int));
    }
    while j > 0 && v[j - 1] == '/'
        invariant
            j <= end <= v@.len(),
            slash_suffix_len(v@.subrange(0, end as int)) == (end - j) + slash_suffix_len(
                v@.subrange(0, j as int),
            ),
        decreases j,
    {
        proof {
            let t = v@.subrange(0, j as int);
            assert(t.drop_last() =~= v@.subrange(0, j - 1));
        }
        j = j - 1;
    }
    proof {
        let t = v@.subrange(0, j as int);
        if j > 0 {
            assert(t.last() == v@[j - 1]);
        }
    }
    j
}

fn after_last_slash_of(v: &[char], end: usize) -> (r: usize)
    requires
        end <= v@.len(),
    ensures
        r <= end,
        r == after_last_slash(v@.subrange(0, end as int)),
{
    let mut j = end;
    while j > 0 && v[j - 1] != '/'
        invariant
            j <= end <= v@.len(),
            after_last_slash(v@.subrange(0, end as int)) == after_last_slash(
                v@.subrange(0, j as int),
            ),
        decreases j,
    {
        proof {
            let t = v@.subrange(0, j as int);
            assert(t.drop_last() =~= v@.subrange(0, j - 1));
        }
        j = j - 1;
    }
    proof {
        let t = v@.subrange(0, j as int);
        if j > 0 {
            assert(t.last() == v@[j - 1]);
            assert(after_last_slash(t) == t.len());
        }
    }
    j
}

pub fn parent_of(p: &str) -> (r: Option<String>)
    ensures
        r.deep_view() == spec_parent(p@),
{
    let v = chars_of(p);
    let tl = strip_slashes_len(v.as_slice(), v.len());
    let ghost t = strip_slashes(p@);
    proof {
        assert(v@.subrange(0, v@.len() as int) =~= p@);
        assert(t =~= v@.subrange(0, tl as int));
    }
    if tl == 0 {
        return None;
    }
    let k = after_last_slash_of(v.as_slice(), tl);
    if k == 0 {
        return Some(String::new());
    }
    let hl = strip_slashes_len(v.as_slice(), k);
    proof {
        lemma_after_last_slash_bound(t);
        assert(t.subrange(0, k as int) =~= v@.subrange(0, k as int));
        assert(strip_slashes(t.subrange(0, k as int)) =~= v@.subrange(0, hl as int));
    }
    if hl == 0 {
        let mut s = String::new();
        s.append("/");
        proof {
            reveal_strlit("/");
            assert(s@ =~= seq!['/']);
        }
        return Some(s);
    }
    Some(string_of(sub_vec(v.as_slice(), 0, hl).as_slice()))
}

/// Baller's config directory, derived from an already loaded config: the
/// parent of `hooks_dir`, or `hooks_dir` itself when it has none.
pub fn resolve_baller_dir(config: &BallerConfig) -> (r: String)
    ensures
        r@ == match spec_parent(config.hooks_dir@) {
            Some(d) => d,
            None => config.hooks_dir@,
        },
{
    match parent_of(config.hooks_dir.as_str()) {
        Some(d) => d,
        None => config.hooks_dir.clone(),
    }
}

/// The first command named `name`, if any.
pub open spec fn lookup(cs: Seq<BallManifestView>, name: Seq<char>) -> Option<BallManifestView>
    decreases cs.len(),
{
    if cs.len() == 0 {
        None
    } else {
        match lookup(cs.drop_last(), name) {
            Some(c) => Some(c),
            None => if cs.last().command_name == name {
                Some(cs.last())
            } else {
                None
            },
        }
    }
}

proof fn lemma_lookup_none(cs: Seq<BallManifestView>, name: Seq<char>)
    requires
        forall|k: int| 0 <= k < cs.len() ==> #[trigger] cs[k].command_name != name,
    ensures
        lookup(cs, name) is None,
    decreases cs.len(),
{
    if cs.len() > 0 {
        let pre = cs.drop_last();
        assert forall|k: int| 0 <= k < pre.len() implies #[trigger] pre[k].command_name != name by {
            assert(pre[k] == cs[k]);
        }
        lemma_lookup_none(pre, name);
    }
}

proof fn lemma_lookup_first(cs: Seq<BallManifestView>, name: Seq<char>, i: int)
    requires
        0 <= i < cs.len(),
        cs[i].command_name == name,
        forall|k: int| 0 <= k < i ==> #[trigger] cs[k].command_name != name,
    ensures
        lookup(cs, name) == Some(cs[i]),
    decreases cs.len(),
{
    let pre = cs.drop_last();
    if i == cs.len() - 1 {
        assert forall|k: int| 0 <= k < pre.len() implies #[trigger] pre[k].command_name != name by {
            assert(pre[k] == cs[k]);
        }
        lemma_lookup_none(pre, name);
    } else {
        assert forall|k: int| 0 <= k < i implies #[trigger] pre[k].command_name != name by {
            assert(pre[k] == cs[k]);
        }
        assert(pre[i] == cs[i]);
        lemma_lookup_first(pre, name, i);
    }
}

/// Finds an injected command by the name users type after `baller`.
pub fn find_command(commands: &Vec<InjectedCommand>, name: &str) -> (r: Option<InjectedCommand>)
    ensures
        match r {
            Some(c) => lookup(commands@.map_values(|c: InjectedCommand| c@), name@) == Some(c@),
            None => lookup(commands@.map_values(|c: InjectedCommand| c@), name@) is None,
        },
        match r {
            Some(c) => exists|i: int|
                0 <= i < commands@.len() && commands@[i].command_name@ == name@ && c@
                    == commands@[i]@ && forall|k: int|
                    0 <= k < i ==> commands@[k].command_name@ != name@,
            None => forall|k: int| 0 <= k < commands@.len() ==> commands@[k].command_name@ != name@,
        },
{
    let nv = chars_of(name);
    let mut i: usize = 0;
    while i < commands.len()
        invariant
            nv@ == name@,
            i <= commands@.len(),
            forall|k: int| 0 <= k < i ==> commands@[k].command_name@ != name@,
        decreases commands@.len() - i,
    {
        let cv = chars_of(commands[i].command_name.as_str());
        if eq_chars(cv.as_slice(), nv.as_slice()) {
            proof {
                let vs = commands@.map_values(|c: InjectedCommand| c@);
                assert forall|k: int| 0 <= k < i implies #[trigger] vs[k].command_name != name@ by {
                    assert(vs[k] == commands@[k]@);
                }
                lemma_lookup_first(vs, name@, i as int);
            }
            return Some(commands[i].copy());
        }
        i = i + 1;
    }
    proof {
        let vs = commands@.map_values(|c: InjectedCommand| c@);
        assert forall|k: int| 0 <= k < vs.len() implies #[trigger] vs[k].command_name != name@ by {
            assert(vs[k] == commands@[k]@);
        }
        lemma_lookup_none(vs, name@);
    }
    None
}

/// The commands without any whose name is `name`, order kept.
pub open spec fn without_name(cs: Seq<BallManifestView>, name: Seq<char>) -> Seq<BallManifestView>
    decreases cs.len(),
{
    if cs.len() == 0 {
        Seq::empty()
    } else {
        let pre = without_name(cs.drop_last(), name);
        if cs.last().command_name == name {
            pre
        } else {
            pre.push(cs.last())
        }
    }
}

/// The store after adding `command`: any entry with the same name replaced by
/// it, placed last.
pub fn upsert_injected(commands: Vec<InjectedCommand>, command: InjectedCommand) -> (r: Vec<
    InjectedCommand,
>)
    ensures
        r@.map_values(|c: InjectedCommand| c@) == without_name(
            commands@.map_values(|c: InjectedCommand| c@),
            command.command_name@,
        ).push(command@),
{
    let ghost cs = commands@.map_values(|c: InjectedCommand| c@);
    let nv = chars_of(command.command_name.as_str());
    let mut out: Vec<InjectedCommand> = Vec::new();
    let mut i: usize = 0;
    while i < commands.len()
        invariant
            nv@ == command.command_name@,
            cs == commands@.map_values(|c: InjectedCommand| c@),
            i <= commands@.len(),
            out@.map_values(|c: InjectedCommand| c@) == without_name(
                cs.subrange(0, i as int),
                command.command_name@,
            ),
        decreases commands@.len() - i,
    {
        let ghost prev = out@.map_values(|c: InjectedCommand| c@);
        proof {
            let cur = cs.subrange(0, i + 1);
            assert(cur.drop_last() =~= cs.subrange(0, i as int));
            assert(cur.last() == commands@[i as int]@);
        }
        let cv = chars_of(commands[i].command_name.as_str());
        if !eq_chars(cv.as_slice(), nv.as_slice()) {
            out.push(commands[i].copy());
            proof {
                assert(out@.map_values(|c: InjectedCommand| c@) =~= prev.push(commands@[i as int]@));
            }
        }
        i = i + 1;
    }
    proof {
        assert(cs.subrange(0, cs.len() as int) =~= cs);
    }
    let ghost before = out@.map_values(|c: InjectedCommand| c@);
    let ghost cmd = command@;
    out.push(command);
    proof {
        assert(out@.map_values(|c: InjectedCommand| c@) =~= before.push(cmd));
    }
    out
}

proof fn lemma_without_name_lookup(cs: Seq<BallManifestView>, n: Seq<char>, m: Seq<char>)
    ensures
        lookup(without_name(cs, n), n) is None,
        m != n ==> lookup(without_name(cs, n), m) == lookup(cs, m),
    decreases cs.len(),
{
    if cs.len() > 0 {
        lemma_without_name_lookup(cs.drop_last(), n, m);
        let pre = without_name(cs.drop_last(), n);
        assert(pre.push(cs.last()).drop_last() =~= pre);
    }
}

/// Injecting a command and then looking its name up gives that command
/// back; every other name finds what it found before.
pub proof fn law_upsert_then_lookup(cs: Seq<BallManifestView>, c: BallManifestView, m: Seq<char>)
    ensures
        lookup(without_name(cs, c.command_name).push(c), c.command_name) == Some(c),
        m != c.command_name ==> lookup(without_name(cs, c.command_name).push(c), m) == lookup(cs, m),
{
    lemma_without_name_lookup(cs, c.command_name, m);
    let w = without_name(cs, c.command_name);
    assert(w.push(c).drop_last() =~= w);
}

/// Whether a root-only injected command may run, given what the privilege
/// probe found: yes when elevated, no when not, and (with a warning, the
/// `true` here) when the probe could not tell.
pub fn root_check(elevated: Option<bool>, command_name: &str) -> (r: Result<bool, BallError>)
    ensures
        elevated == Some(true) ==> r == Ok::<bool, BallError>(false),
        elevated == Some(false) ==> (r matches Err(e) && e@ == ErrorView::InjectedCommandError(
            "'"@ + command_name@ + "' requires root privileges: re-run baller with elevated permissions"@,
        )),
        elevated is None ==> r == Ok::<bool, BallError>(true),
{
    match elevated {
        Some(true) => Ok(false),
        Some(false) => Err(
            BallError::InjectedCommandError(
                concat3("'", command_name, "' requires root privileges: re-run baller with elevated permissions"),
            ),
        ),
        None => Ok(true),
    }
}

/// The first declared dependency that was not found, as the error it
/// raises; `available[k]` says whether `depends[k]` was found.
pub fn dependencies_check(command_name: &str, depends: &Vec<String>, available: &Vec<bool>) -> (r: Result<
    (),
    BallError,
>)
    requires
        available.len() == depends.len(),
    ensures
        match r {
            Ok(()) => forall|k: int| 0 <= k < available.len() ==> #[trigger] available@[k],
            Err(e) => exists|k: int|
                0 <= k < available.len() && !available@[k] && (forall|j: int| 0 <= j < k ==> #[trigger] available@[j])
                    && e@ == ErrorView::InjectedCommandError(
                    "'"@ + command_name@ + "' requires '"@ + depends@[k]@ + "', which was not found on PATH"@,
                ),
        },
{
    let mut k: usize = 0;
    while k < depends.len()
        invariant
            available.len() == depends.len(),
            k <= depends.len(),
            forall|j: int| 0 <= j < k ==> #[trigger] available@[j],
        decreases depends.len() - k,
    {
        if !available[k] {
            let mut m = concat3("'", command_name, "' requires '");
            m.append(depends[k].as_str());
            m.append("', which was not found on PATH");
            return Err(BallError::InjectedCommandError(m));
        }
        k = k + 1;
    }
    Ok(())
}

/// An injected command whose binary has gone.
pub fn missing_binary(command_name: &str, path: &str) -> (r: BallError)
    ensures
        r@ == ErrorView::InjectedCommandError(
            "binary for '"@ + command_name@ + "' is missing from '"@ + path@ + "': re-inject it or fix the path"@,
        ),
{
    let mut m = concat3("binary for '", command_name, "' is missing from '");
    m.append(path);
    m.append("': re-inject it or fix the path");
    BallError::InjectedCommandError(m)
}

/// An injected command that could not be started.
pub fn launch_failure(command_name: &str, path: &str, reason: &str) -> (r: BallError)
    ensures
        r@ == ErrorView::InjectedCommandError(
            "failed to run '"@ + command_name@ + "' ("@ + path@ + "): "@ + reason@,
        ),
{
    let mut m = concat3("failed to run '", command_name, "' (");
    m.append(path);
    m.append("): ");
    m.append(reason);
    BallError::InjectedCommandError(m)
}

/// The status baller itself exits with after an injected command: the
/// command's own, unless it succeeded or was ended by a signal.
pub fn passthrough_exit(code: Option<i32>) -> (r: Option<i32>)
    ensures
        match code {
            Some(c) => if c == 0 {
                r is None
            } else {
                r == Some(c)
            },
            None => r is None,
        },
{
    match code {
        Some(0) => None,
        Some(c) => Some(c),
        None => None,
    }
}

} // verus!
