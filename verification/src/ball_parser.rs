//! `.ball` files: `[SECTION]` headers with `KEY = VALUE` entries describing a
//! command to inject into baller.

use vstd::prelude::*;
use vstd::string::*;

use crate::config::{bool_setting, bool_word, spec_bool_setting};
use crate::error::{BallError, ErrorView};
use crate::text::{
    chars_of, decimal, decimal_string, eq_str, find_char, first_index_of, lines, lines_of,
    one_of, spec_to_lowercase, spec_to_uppercase, split_chars, split_on, string_of, strip_both, strip_both_vec,
    sub_vec, trim, trim_bounds, trimmed, trimmed_string, uppercase_chars,
};

verus! {

/// A parsed `.ball` file: everything baller needs to run an injected command.
#[derive(Debug, Clone, PartialEq)]
pub struct BallManifest {
    pub command_name: String,
    pub description: String,
    pub version: String,
    pub flags: Vec<String>,
    pub author: String,
    pub require_root: bool,
    pub depends: Vec<String>,
    pub path: String,
}

pub struct BallManifestView {
    pub command_name: Seq<char>,
    pub description: Seq<char>,
    pub version: Seq<char>,
    pub flags: Seq<Seq<char>>,
    pub author: Seq<char>,
    pub require_root: bool,
    pub depends: Seq<Seq<char>>,
    pub path: Seq<char>,
}

impl View for BallManifest {
    type V = BallManifestView;

    open spec fn view(&self) -> BallManifestView {
        BallManifestView {
            command_name: self.command_name@,
            description: self.description@,
            version: self.version@,
            flags: self.flags.deep_view(),
            author: self.author@,
            require_root: self.require_root,
            depends: self.depends.deep_view(),
            path: self.path@,
        }
    }
}

/// What the entries read so far have set.
pub struct BallState {
    pub command_name: Option<Seq<char>>,
    pub description: Seq<char>,
    pub version: Option<Seq<char>>,
    pub flags: Seq<Seq<char>>,
    pub author: Seq<char>,
    pub require_root: bool,
    pub depends: Seq<Seq<char>>,
    pub path: Option<Seq<char>>,
}

pub open spec fn empty_state() -> BallState {
    BallState {
        command_name: None,
        description: Seq::empty(),
        version: None,
        flags: Seq::empty(),
        author: Seq::empty(),
        require_root: false,
        depends: Seq::empty(),
        path: None,
    }
}

pub open spec fn known_section(s: Seq<char>) -> bool {
    ||| s == "COMMAND-NAME"@
    ||| s == "DESCRIPTION"@
    ||| s == "VERSION"@
    ||| s == "FLAGS"@
    ||| s == "AUTHOR"@
    ||| s == "REQUIRE-ROOT"@
    ||| s == "DEPENDS"@
    ||| s == "PATH"@
}

/// Whitespace and one layer of matching quotes removed from a value.
pub open spec fn spec_unquote(v: Seq<char>) -> Seq<char> {
    let t = trim(v);
    if t.len() >= 2 && ((t[0] == '"' && t.last() == '"') || (t[0] == '\'' && t.last() == '\'')) {
        t.subrange(1, t.len() - 1)
    } else {
        t
    }
}

/// One list entry: trimmed, surrounding quotes dropped, trimmed again.
pub open spec fn list_entry(p: Seq<char>) -> Seq<char> {
    trim(strip_both(trim(p), '"', '\''))
}

pub open spec fn clean_entries(ps: Seq<Seq<char>>) -> Seq<Seq<char>>
    decreases ps.len(),
{
    if ps.len() == 0 {
        Seq::empty()
    } else {
        let pre = clean_entries(ps.drop_last());
        if list_entry(ps.last()).len() > 0 {
            pre.push(list_entry(ps.last()))
        } else {
            pre
        }
    }
}

/// A comma separated value, accepting one quoted list or individually quoted
/// entries, empty entries dropped.
pub open spec fn spec_split_list(v: Seq<char>) -> Seq<Seq<char>> {
    clean_entries(split_on(v, ','))
}

pub open spec fn entry_err(n: nat, what: Seq<char>) -> ErrorView {
    ErrorView::InvalidConfig("invalid .ball entry at line["@ + decimal(n) + "]: "@ + what)
}

pub open spec fn require_value(n: nat, key: Seq<char>, value: Seq<char>) -> Option<ErrorView> {
    if value.len() == 0 {
        Some(entry_err(n, "'"@ + key + "' cannot be empty"@))
    } else {
        None
    }
}

/// One `KEY = VALUE` entry (key already uppercased) applied to `st`.
pub open spec fn ball_entry(st: BallState, n: nat, key: Seq<char>, value: Seq<char>) -> Result<
    BallState,
    ErrorView,
> {
    if key == "COMMAND-NAME"@ {
        match require_value(n, key, value) {
            Some(e) => Err(e),
            None => Ok(BallState { command_name: Some(value), ..st }),
        }
    } else if key == "DESCRIPTION"@ {
        Ok(BallState { description: value, ..st })
    } else if key == "VERSION"@ {
        match require_value(n, key, value) {
            Some(e) => Err(e),
            None => Ok(BallState { version: Some(value), ..st }),
        }
    } else if key == "FLAGS-LIST"@ {
        Ok(BallState { flags: spec_split_list(value), ..st })
    } else if key == "AUTHOR"@ {
        Ok(BallState { author: value, ..st })
    } else if key == "ROOTPERMS"@ {
        match spec_bool_setting(value, n) {
            Ok(b) => Ok(BallState { require_root: b, ..st }),
            Err(e) => Err(e),
        }
    } else if key == "DEPENDS"@ {
        Ok(BallState { depends: spec_split_list(value), ..st })
    } else if key == "PATH"@ {
        match require_value(n, key, value) {
            Some(e) => Err(e),
            None => Ok(BallState { path: Some(value), ..st }),
        }
    } else {
        Err(
            ErrorView::InvalidConfig(
                "unknown .ball key at line["@ + decimal(n) + "]: '"@ + key + "'"@,
            ),
        )
    }
}

/// One line of a `.ball` file applied to `st`; `n` is the 1-based line.
pub open spec fn ball_line(st: BallState, n: nat, raw: Seq<char>) -> Result<BallState, ErrorView> {
    let t = trim(raw);
    if t.len() == 0 || t[0] == '#' || t[0] == ';' {
        Ok(st)
    } else if t[0] == '[' && t.last() == ']' {
        let section = spec_to_uppercase(trim(t.subrange(1, t.len() - 1)));
        if known_section(section) {
            Ok(st)
        } else {
            Err(
                ErrorView::InvalidConfig(
                    "unknown .ball section at line["@ + decimal(n) + "]: '["@ + section + "]'"@,
                ),
            )
        }
    } else {
        match first_index_of(t, '=') {
            None => Err(entry_err(n, "expected 'KEY = VALUE'"@)),
            Some(k) => {
                let key = spec_to_uppercase(trim(t.subrange(0, k)));
                let value = spec_unquote(t.subrange(k + 1, t.len() as int));
                if key.len() == 0 {
                    Err(entry_err(n, "empty key"@))
                } else {
                    ball_entry(st, n, key, value)
                }
            },
        }
    }
}

pub open spec fn ball_lines(ls: Seq<Seq<char>>) -> Result<BallState, ErrorView>
    decreases ls.len(),
{
    if ls.len() == 0 {
        Ok(empty_state())
    } else {
        match ball_lines(ls.drop_last()) {
            Ok(st) => ball_line(st, ls.len(), ls.last()),
            Err(e) => Err(e),
        }
    }
}

pub open spec fn missing_section(name: Seq<char>) -> ErrorView {
    ErrorView::InvalidConfig(
        "invalid .ball file: missing required section '["@ + name + "]'"@,
    )
}

/// What `parse_ball` returns for `content`.
pub open spec fn spec_parse_ball(content: Seq<char>) -> Result<BallManifestView, ErrorView> {
    match ball_lines(lines(content)) {
        Err(e) => Err(e),
        Ok(st) => match st.command_name {
            None => Err(missing_section("COMMAND-NAME"@)),
            Some(command_name) => match st.path {
                None => Err(missing_section("PATH"@)),
                Some(path) => Ok(
                    BallManifestView {
                        command_name,
                        description: st.description,
                        version: match st.version {
                            Some(v) => v,
                            None => "0.1.0"@,
                        },
                        flags: st.flags,
                        author: st.author,
                        require_root: st.require_root,
                        depends: st.depends,
                        path,
                    },
                ),
            },
        },
    }
}

fn unquote_chars(value: &[char]) -> (r: Vec<char>)
    ensures
        r@ == spec_unquote(value@),
{
    let t = trimmed(value);
    let n = t.len();
    if n >= 2 && ((t[0] == '"' && t[n - 1] == '"') || (t[0] == '\'' && t[n - 1] == '\'')) {
        sub_vec(t.as_slice(), 1, n - 1)
    } else {
        t
    }
}

/// A value with surrounding whitespace and one pair of matching quotes
/// (double or single) removed.
pub fn unquote(value: &str) -> (r: String)
    ensures
        r@ == spec_unquote(value@),
{
    let v = crate::text::chars_of(value);
    let u = unquote_chars(v.as_slice());
    crate::text::string_of(u.as_slice())
}

/// The version an injected command gets when its `.ball` file names none.
pub const DEFAULT_VERSION: &'static str = "0.1.0";

pub fn split_list(value: &[char]) -> (r: Vec<String>)
    ensures
        r.deep_view() == spec_split_list(value@),
{
    let pieces = split_chars(value, ',');
    let ghost ps = pieces.deep_view();
    let mut out: Vec<String> = Vec::new();
    let mut i: usize = 0;
    while i < pieces.len()
        invariant
            pieces.deep_view() == ps,
            i <= ps.len(),
            out.deep_view() == clean_entries(ps.subrange(0, i as int)),
        decreases ps.len() - i,
    {
        let ghost prev = out.deep_view();
        let a = trimmed(pieces[i].as_slice());
        let b = strip_both_vec(a.as_slice(), '"', '\'');
        let c = trimmed_string(b.as_slice());
        proof {
            assert(pieces[i as int]@ == ps[i as int]);
            let cur = ps.subrange(0, i + 1);
            assert(cur.drop_last() =~= ps.subrange(0, i as int));
            assert(cur.last() == ps[i as int]);
        }
        if c.unicode_len() > 0 {
            out.push(c);
            proof {
                assert(out.deep_view() =~= prev.push(list_entry(ps[i as int])));
            }
        }
        i = i + 1;
    }
    proof {
        assert(ps.subrange(0, ps.len() as int) =~= ps);
    }
    out
}

fn entry_error(n: usize, what: &str) -> (r: BallError)
    ensures
        r@ == entry_err(n as nat, what@),
{
    let mut m = String::from_str("invalid .ball entry at line[");
    let d = decimal_string(n as u64);
    m.append(d.as_str());
    m.append("]: ");
    m.append(what);
    BallError::InvalidConfig(m)
}

fn empty_value_error(n: usize, key: &str) -> (r: BallError)
    ensures
        r@ == entry_err(n as nat, "'"@ + key@ + "' cannot be empty"@),
{
    let mut m = String::from_str("invalid .ball entry at line[");
    let d = decimal_string(n as u64);
    m.append(d.as_str());
    m.append("]: ");
    m.append("'");
    m.append(key);
    m.append("' cannot be empty");
    proof {
        assert(m@ =~= "invalid .ball entry at line["@ + decimal(n as nat) + "]: "@ + ("'"@ + key@
            + "' cannot be empty"@));
    }
    BallError::InvalidConfig(m)
}

/// The entries read so far, in executable form.
pub struct Draft {
    pub command_name: Option<String>,
    pub description: String,
    pub version: Option<String>,
    pub flags: Vec<String>,
    pub author: String,
    pub require_root: bool,
    pub depends: Vec<String>,
    pub path: Option<String>,
}

impl View for Draft {
    type V = BallState;

    open spec fn view(&self) -> BallState {
        BallState {
            command_name: self.command_name.deep_view(),
            description: self.description@,
            version: self.version.deep_view(),
            flags: self.flags.deep_view(),
            author: self.author@,
            require_root: self.require_root,
            depends: self.depends.deep_view(),
            path: self.path.deep_view(),
        }
    }
}

fn apply_entry(d: &mut Draft, n: usize, key: &[char], value: &[char]) -> (r: Result<(), BallError>)
    ensures
        match r {
            Ok(_) => ball_entry(old(d)@, n as nat, key@, value@) == Ok::<BallState, ErrorView>(
                final(d)@,
            ),
            Err(e) => ball_entry(old(d)@, n as nat, key@, value@) == Err::<BallState, ErrorView>(
                e@,
            ),
        },
{
    if eq_str(key, "COMMAND-NAME") {
        if value.len() == 0 {
            return Err(empty_value_error(n, "COMMAND-NAME"));
        }
        d.command_name = Some(string_of(value));
        Ok(())
    } else if eq_str(key, "DESCRIPTION") {
        d.description = string_of(value);
        Ok(())
    } else if eq_str(key, "VERSION") {
        if value.len() == 0 {
            return Err(empty_value_error(n, "VERSION"));
        }
        d.version = Some(string_of(value));
        Ok(())
    } else if eq_str(key, "FLAGS-LIST") {
        d.flags = split_list(value);
        Ok(())
    } else if eq_str(key, "AUTHOR") {
        d.author = string_of(value);
        Ok(())
    } else if eq_str(key, "ROOTPERMS") {
        let b = bool_setting(value, n as u64)?;
        d.require_root = b;
        Ok(())
    } else if eq_str(key, "DEPENDS") {
        d.depends = split_list(value);
        Ok(())
    } else if eq_str(key, "PATH") {
        if value.len() == 0 {
            return Err(empty_value_error(n, "PATH"));
        }
        d.path = Some(string_of(value));
        Ok(())
    } else {
        let mut m = String::from_str("unknown .ball key at line[");
        let dn = decimal_string(n as u64);
        m.append(dn.as_str());
        m.append("]: '");
        let ks = string_of(key);
        m.append(ks.as_str());
        m.append("'");
        Err(BallError::InvalidConfig(m))
    }
}

fn is_known_section(s: &[char]) -> (r: bool)
    ensures
        r == known_section(s@),
{
    eq_str(s, "COMMAND-NAME") || eq_str(s, "DESCRIPTION") || eq_str(s, "VERSION") || eq_str(
        s,
        "FLAGS",
    ) || eq_str(s, "AUTHOR") || eq_str(s, "REQUIRE-ROOT") || eq_str(s, "DEPENDS") || eq_str(
        s,
        "PATH",
    )
}

fn apply_line(d: &mut Draft, n: usize, raw: &[char]) -> (r: Result<(), BallError>)
    ensures
        match r {
            Ok(_) => ball_line(old(d)@, n as nat, raw@) == Ok::<BallState, ErrorView>(final(d)@),
            Err(e) => ball_line(old(d)@, n as nat, raw@) == Err::<BallState, ErrorView>(e@),
        },
{
    let t = trimmed(raw);
    let tl = t.len();
    if tl == 0 || t[0] == '#' || t[0] == ';' {
        return Ok(());
    }
    if t[0] == '[' && t[tl - 1] == ']' {
        let inner = sub_vec(t.as_slice(), 1, tl - 1);
        let it = trimmed(inner.as_slice());
        let section = uppercase_chars(it.as_slice());
        if is_known_section(section.as_slice()) {
            return Ok(());
        }
        let mut m = String::from_str("unknown .ball section at line[");
        let dn = decimal_string(n as u64);
        m.append(dn.as_str());
        m.append("]: '[");
        let ss = string_of(section.as_slice());
        m.append(ss.as_str());
        m.append("]'");
        return Err(BallError::InvalidConfig(m));
    }
    match find_char(t.as_slice(), '=') {
        None => Err(entry_error(n, "expected 'KEY = VALUE'")),
        Some(k) => {
            let before = sub_vec(t.as_slice(), 0, k);
            let kt = trimmed(before.as_slice());
            let key = uppercase_chars(kt.as_slice());
            let after = sub_vec(t.as_slice(), k + 1, tl);
            let value = unquote_chars(after.as_slice());
            if key.len() == 0 {
                Err(entry_error(n, "empty key"))
            } else {
                apply_entry(d, n, key.as_slice(), value.as_slice())
            }
        },
    }
}

fn missing_section_error(name: &str) -> (r: BallError)
    ensures
        r@ == missing_section(name@),
{
    BallError::InvalidConfig(
        crate::text::concat3("invalid .ball file: missing required section '[", name, "]'"),
    )
}

pub proof fn lemma_ball_lines_err(ls: Seq<Seq<char>>, k: int)
    requires
        0 <= k <= ls.len(),
        ball_lines(ls.subrange(0, k)) is Err,
    ensures
        ball_lines(ls) == ball_lines(ls.subrange(0, k)),
    decreases ls.len() - k,
{
    if k < ls.len() {
        let next = ls.subrange(0, k + 1);
        assert(next.drop_last() =~= ls.subrange(0, k));
        lemma_ball_lines_err(ls, k + 1);
    } else {
        assert(ls.subrange(0, k) =~= ls);
    }
}

/// The key of an entry line: the text before its first `=`, trimmed and
/// uppercased; none for blank, comment, section and malformed lines.
pub open spec fn entry_key(raw: Seq<char>) -> Option<Seq<char>> {
    let t = trim(raw);
    if t.len() == 0 || t[0] == '#' || t[0] == ';' {
        None
    } else if t[0] == '[' && t.last() == ']' {
        None
    } else {
        match first_index_of(t, '=') {
            None => None,
            Some(k) => Some(spec_to_uppercase(trim(t.subrange(0, k)))),
        }
    }
}

/// The name of a section header line, trimmed and uppercased; none for
/// every other line.
pub open spec fn header_name(raw: Seq<char>) -> Option<Seq<char>> {
    let t = trim(raw);
    if t.len() == 0 || t[0] == '#' || t[0] == ';' {
        None
    } else if t[0] == '[' && t.last() == ']' {
        Some(spec_to_uppercase(trim(t.subrange(1, t.len() - 1))))
    } else {
        None
    }
}

/// Some line is an entry for `key`.
pub open spec fn has_entry(ls: Seq<Seq<char>>, key: Seq<char>) -> bool {
    exists|i: int| 0 <= i < ls.len() && #[trigger] entry_key(ls[i]) == Some(key)
}

pub open spec fn is_known_key(k: Seq<char>) -> bool {
    ||| k == "COMMAND-NAME"@
    ||| k == "DESCRIPTION"@
    ||| k == "VERSION"@
    ||| k == "FLAGS-LIST"@
    ||| k == "AUTHOR"@
    ||| k == "ROOTPERMS"@
    ||| k == "DEPENDS"@
    ||| k == "PATH"@
}

/// Without an entry for it, neither the command name nor the path is set.
proof fn lemma_unset_without_entry(ls: Seq<Seq<char>>)
    requires
        ball_lines(ls) is Ok,
    ensures
        !has_entry(ls, "COMMAND-NAME"@) ==> ball_lines(ls)->Ok_0.command_name is None,
        !has_entry(ls, "PATH"@) ==> ball_lines(ls)->Ok_0.path is None,
    decreases ls.len(),
{
    if ls.len() > 0 {
        let pre = ls.drop_last();
        lemma_unset_without_entry(pre);
        assert forall|key: Seq<char>| has_entry(pre, key) implies has_entry(ls, key) by {
            let i = choose|i: int| 0 <= i < pre.len() && #[trigger] entry_key(pre[i]) == Some(key);
            assert(ls[i] == pre[i]);
        }
        if entry_key(ls.last()) is Some {
            assert(entry_key(ls[ls.len() - 1]) == entry_key(ls.last()));
        }
    }
}

/// A line read without error keeps a command name or path already set.
proof fn lemma_line_keeps_set(st: BallState, n: nat, raw: Seq<char>)
    requires
        ball_line(st, n, raw) is Ok,
    ensures
        st.command_name is Some ==> ball_line(st, n, raw)->Ok_0.command_name is Some,
        st.path is Some ==> ball_line(st, n, raw)->Ok_0.path is Some,
{
}

/// A line that is an entry for the command name (or the path), read
/// without error, sets it.
proof fn lemma_line_sets(st: BallState, n: nat, raw: Seq<char>, key: Seq<char>)
    requires
        ball_line(st, n, raw) is Ok,
        entry_key(raw) == Some(key),
        key == "COMMAND-NAME"@ || key == "PATH"@,
    ensures
        key == "COMMAND-NAME"@ ==> ball_line(st, n, raw)->Ok_0.command_name is Some,
        key == "PATH"@ ==> ball_line(st, n, raw)->Ok_0.path is Some,
{
    reveal_strlit("PATH");
    reveal_strlit("COMMAND-NAME");
    reveal_strlit("DESCRIPTION");
    reveal_strlit("VERSION");
    reveal_strlit("FLAGS-LIST");
    reveal_strlit("AUTHOR");
    reveal_strlit("ROOTPERMS");
    reveal_strlit("DEPENDS");
    assert("PATH"@.len() == 4);
}

/// Once an entry for the command name (or the path) has been read, the
/// value stays set.
proof fn lemma_set_with_entry(ls: Seq<Seq<char>>, key: Seq<char>)
    requires
        ball_lines(ls) is Ok,
        key == "COMMAND-NAME"@ || key == "PATH"@,
        has_entry(ls, key),
    ensures
        key == "COMMAND-NAME"@ ==> ball_lines(ls)->Ok_0.command_name is Some,
        key == "PATH"@ ==> ball_lines(ls)->Ok_0.path is Some,
    decreases ls.len(),
{
    let pre = ls.drop_last();
    let i = choose|i: int| 0 <= i < ls.len() && #[trigger] entry_key(ls[i]) == Some(key);
    let st = ball_lines(pre)->Ok_0;
    assert(ball_lines(pre) is Ok);
    assert(ball_lines(ls) == ball_line(st, ls.len(), ls.last()));
    if i < ls.len() - 1 {
        assert(pre[i] == ls[i]);
        assert(has_entry(pre, key));
        lemma_set_with_entry(pre, key);
        lemma_line_keeps_set(st, ls.len(), ls.last());
    } else {
        assert(ls[i] == ls.last());
        lemma_line_sets(st, ls.len(), ls.last(), key);
    }
}

/// Both `[COMMAND-NAME]` and `[PATH]` are required, every other section is
/// optional: content whose every line reads fine but that has no
/// `COMMAND-NAME` entry is refused for the missing `[COMMAND-NAME]`, and
/// content with one but without a `PATH` entry for the missing `[PATH]`.
pub proof fn law_required_sections(content: Seq<char>)
    requires
        ball_lines(lines(content)) is Ok,
    ensures
        !has_entry(lines(content), "COMMAND-NAME"@) ==> spec_parse_ball(content) == Err::<BallManifestView, ErrorView>(
            missing_section("COMMAND-NAME"@),
        ),
        has_entry(lines(content), "COMMAND-NAME"@) && !has_entry(lines(content), "PATH"@) ==> spec_parse_ball(content)
            == Err::<BallManifestView, ErrorView>(missing_section("PATH"@)),
{
    lemma_unset_without_entry(lines(content));
    if has_entry(lines(content), "COMMAND-NAME"@) {
        lemma_set_with_entry(lines(content), "COMMAND-NAME"@);
    }
}

/// The first line that does not read is what the content is refused for: a
/// section header naming no known section, with the unknown-section error
/// of that line.
pub proof fn law_unknown_section(content: Seq<char>, k: int)
    requires
        0 <= k < lines(content).len(),
        ball_lines(lines(content).subrange(0, k)) is Ok,
        header_name(lines(content)[k]) matches Some(name) && !known_section(name),
    ensures
        spec_parse_ball(content) == Err::<BallManifestView, ErrorView>(
            ErrorView::InvalidConfig(
                "unknown .ball section at line["@ + decimal((k + 1) as nat) + "]: '["@
                    + header_name(lines(content)[k])->Some_0 + "]'"@,
            ),
        ),
{
    let ls = lines(content);
    let next = ls.subrange(0, k + 1);
    assert(next.drop_last() =~= ls.subrange(0, k));
    assert(next.last() == ls[k]);
    lemma_ball_lines_err(ls, k + 1);
}

/// Likewise for an entry whose key is none of the eight known keys.
pub proof fn law_unknown_key(content: Seq<char>, k: int)
    requires
        0 <= k < lines(content).len(),
        ball_lines(lines(content).subrange(0, k)) is Ok,
        entry_key(lines(content)[k]) matches Some(key) && key.len() > 0 && !is_known_key(key),
    ensures
        spec_parse_ball(content) == Err::<BallManifestView, ErrorView>(
            ErrorView::InvalidConfig(
                "unknown .ball key at line["@ + decimal((k + 1) as nat) + "]: '"@ + entry_key(lines(content)[k])->Some_0
                    + "'"@,
            ),
        ),
{
    let ls = lines(content);
    let next = ls.subrange(0, k + 1);
    assert(next.drop_last() =~= ls.subrange(0, k));
    assert(next.last() == ls[k]);
    lemma_ball_lines_err(ls, k + 1);
}

/// A blank line, or a comment (`#` or `;` first after whitespace).
pub open spec fn skipped_line(raw: Seq<char>) -> bool {
    trim(raw).len() == 0 || trim(raw)[0] == '#' || trim(raw)[0] == ';'
}

/// A line that reads without error changes the state the same way
/// whatever its number.
proof fn lemma_line_number_free(st: BallState, n: nat, m: nat, raw: Seq<char>)
    requires
        ball_line(st, n, raw) is Ok,
    ensures
        ball_line(st, m, raw) == ball_line(st, n, raw),
{
}

/// Blank and comment lines are ignored: inserting one anywhere into lines
/// that read without error changes nothing.
pub proof fn law_skipped_line_changes_nothing(ls: Seq<Seq<char>>, k: int, x: Seq<char>)
    requires
        0 <= k <= ls.len(),
        skipped_line(x),
        ball_lines(ls) is Ok,
    ensures
        ball_lines(ls.insert(k, x)) == ball_lines(ls),
    decreases ls.len(),
{
    let ls2 = ls.insert(k, x);
    if k == ls.len() {
        assert(ls2.drop_last() =~= ls);
        assert(ls2.last() == x);
    } else {
        let pre = ls.drop_last();
        assert(ball_lines(pre) is Ok);
        law_skipped_line_changes_nothing(pre, k, x);
        assert(ls2.drop_last() =~= pre.insert(k, x));
        assert(ls2.last() == ls.last());
        let st = ball_lines(pre)->Ok_0;
        lemma_line_number_free(st, ls.len(), ls2.len(), ls.last());
    }
}

/// The same over whole files: content whose lines are those of `content`
/// with one blank or comment line inserted parses the same, when `content`
/// parses.
pub proof fn law_skipped_line_in_content(content: Seq<char>, content2: Seq<char>, k: int, x: Seq<char>)
    requires
        0 <= k <= lines(content).len(),
        skipped_line(x),
        lines(content2) == lines(content).insert(k, x),
        spec_parse_ball(content) is Ok,
    ensures
        spec_parse_ball(content2) == spec_parse_ball(content),
{
    law_skipped_line_changes_nothing(lines(content), k, x);
}

/// The value of an entry line: the text after its first `=`, with
/// whitespace and one layer of matching quotes removed.
pub open spec fn entry_value(raw: Seq<char>) -> Seq<char> {
    let t = trim(raw);
    match first_index_of(t, '=') {
        None => Seq::empty(),
        Some(k) => spec_unquote(t.subrange(k + 1, t.len() as int)),
    }
}

/// `ROOTPERMS` takes the words true/yes/1/on and false/no/0/off, in any
/// case; any other value is refused as an invalid boolean, reported at its
/// line.
pub proof fn law_rootperms_words(st: BallState, n: nat, raw: Seq<char>)
    requires
        entry_key(raw) == Some("ROOTPERMS"@),
    ensures
        bool_word(spec_to_lowercase(entry_value(raw))) == Some(true) ==> ball_line(st, n, raw) == Ok::<
            BallState,
            ErrorView,
        >(BallState { require_root: true, ..st }),
        bool_word(spec_to_lowercase(entry_value(raw))) == Some(false) ==> ball_line(st, n, raw) == Ok::<
            BallState,
            ErrorView,
        >(BallState { require_root: false, ..st }),
        bool_word(spec_to_lowercase(entry_value(raw))) is None ==> ball_line(st, n, raw) == Err::<BallState, ErrorView>(
            ErrorView::InvalidConfig(
                "invalid boolean '"@ + entry_value(raw) + "' at line["@ + decimal(n)
                    + "]: expected true/false, yes/no, 1/0, or on/off"@,
            ),
        ),
{
    reveal_strlit("ROOTPERMS");
    reveal_strlit("COMMAND-NAME");
    reveal_strlit("DESCRIPTION");
    reveal_strlit("VERSION");
    reveal_strlit("FLAGS-LIST");
    reveal_strlit("AUTHOR");
}

/// A line that is not a `ROOTPERMS` entry, read without error, leaves the
/// root flag as it was.
proof fn lemma_line_keeps_root(st: BallState, n: nat, raw: Seq<char>)
    requires
        ball_line(st, n, raw) is Ok,
        entry_key(raw) != Some("ROOTPERMS"@),
    ensures
        ball_line(st, n, raw)->Ok_0.require_root == st.require_root,
{
}

/// Over lines read without error, the last `ROOTPERMS` entry sets the root
/// flag, which is off where there is none.
#[verifier::spinoff_prover]
#[verifier::rlimit(60)]
proof fn lemma_root_flag(ls: Seq<Seq<char>>, k: int)
    requires
        ball_lines(ls) is Ok,
    ensures
        !has_entry(ls, "ROOTPERMS"@) ==> !ball_lines(ls)->Ok_0.require_root,
        0 <= k < ls.len() && entry_key(ls[k]) == Some("ROOTPERMS"@) && (forall|j: int|
            k < j < ls.len() ==> #[trigger] entry_key(ls[j]) != Some("ROOTPERMS"@)) ==> ball_lines(ls)->Ok_0.require_root
            == (bool_word(spec_to_lowercase(entry_value(ls[k]))) == Some(true)),
    decreases ls.len(),
{
    if ls.len() > 0 {
        let pre = ls.drop_last();
        let st = ball_lines(pre)->Ok_0;
        assert(ball_lines(pre) is Ok);
        assert(ball_lines(ls) == ball_line(st, ls.len(), ls.last()));
        lemma_root_flag(pre, k);
        if !has_entry(ls, "ROOTPERMS"@) {
            assert forall|i: int| 0 <= i < pre.len() implies #[trigger] entry_key(pre[i]) != Some("ROOTPERMS"@) by {
                assert(pre[i] == ls[i]);
            }
            assert(entry_key(ls[ls.len() - 1]) != Some("ROOTPERMS"@));
            lemma_line_keeps_root(st, ls.len(), ls.last());
        }
        if 0 <= k < ls.len() && entry_key(ls[k]) == Some("ROOTPERMS"@) && (forall|j: int|
            k < j < ls.len() ==> #[trigger] entry_key(ls[j]) != Some("ROOTPERMS"@)) {
            if k < ls.len() - 1 {
                assert(entry_key(ls[ls.len() - 1]) != Some("ROOTPERMS"@));
                assert(pre[k] == ls[k]);
                assert forall|j: int| k < j < pre.len() implies #[trigger] entry_key(pre[j]) != Some("ROOTPERMS"@) by {
                    assert(pre[j] == ls[j]);
                }
                lemma_line_keeps_root(st, ls.len(), ls.last());
            } else {
                law_rootperms_words(st, ls.len(), ls.last());
            }
        }
    }
}

/// The last `ROOTPERMS` entry decides whether the tool needs root: in
/// content that parses, the flag is on exactly when that entry's value is
/// one of true/yes/1/on (in any case), and off when there is no such entry.
pub proof fn law_rootperms_last_entry_decides(content: Seq<char>, k: int)
    requires
        spec_parse_ball(content) is Ok,
    ensures
        !has_entry(lines(content), "ROOTPERMS"@) ==> !spec_parse_ball(content)->Ok_0.require_root,
        0 <= k < lines(content).len() && entry_key(lines(content)[k]) == Some("ROOTPERMS"@) && (forall|j: int|
            k < j < lines(content).len() ==> #[trigger] entry_key(lines(content)[j]) != Some("ROOTPERMS"@))
            ==> spec_parse_ball(content)->Ok_0.require_root == (bool_word(
            spec_to_lowercase(entry_value(lines(content)[k])),
        ) == Some(true)),
{
    lemma_root_flag(lines(content), k);
}

/// A `ROOTPERMS` entry whose value is no boolean word, met before any other
/// error, is what the content is refused for: an invalid boolean at its line.
pub proof fn law_rootperms_invalid_refused(content: Seq<char>, k: int)
    requires
        0 <= k < lines(content).len(),
        ball_lines(lines(content).subrange(0, k)) is Ok,
        entry_key(lines(content)[k]) == Some("ROOTPERMS"@),
        bool_word(spec_to_lowercase(entry_value(lines(content)[k]))) is None,
    ensures
        spec_parse_ball(content) == Err::<BallManifestView, ErrorView>(
            ErrorView::InvalidConfig(
                "invalid boolean '"@ + entry_value(lines(content)[k]) + "' at line["@ + decimal((k + 1) as nat)
                    + "]: expected true/false, yes/no, 1/0, or on/off"@,
            ),
        ),
{
    let ls = lines(content);
    let next = ls.subrange(0, k + 1);
    assert(next.drop_last() =~= ls.subrange(0, k));
    assert(next.last() == ls[k]);
    law_rootperms_words(ball_lines(ls.subrange(0, k))->Ok_0, (k + 1) as nat, ls[k]);
    lemma_ball_lines_err(ls, k + 1);
}

/// Parses `.ball` content: `[SECTION]` headers with `KEY = VALUE` entries.
///
/// `COMMAND-NAME` and `PATH` are required; every other section is optional.
pub fn parse_ball(content: &str) -> (r: Result<BallManifest, BallError>)
    ensures
        match r {
            Ok(m) => spec_parse_ball(content@) == Ok::<BallManifestView, ErrorView>(m@),
            Err(e) => spec_parse_ball(content@) == Err::<BallManifestView, ErrorView>(e@),
        },
{
    let v = chars_of(content);
    let ls = lines_of(v.as_slice());
    let ghost lv = ls.deep_view();
    let mut d = Draft {
        command_name: None,
        description: String::new(),
        version: None,
        flags: Vec::new(),
        author: String::new(),
        require_root: false,
        depends: Vec::new(),
        path: None,
    };
    proof {
        assert(lv.subrange(0, 0) =~= Seq::<Seq<char>>::empty());
        assert(d.flags.deep_view() =~= Seq::<Seq<char>>::empty());
        assert(d.depends.deep_view() =~= Seq::<Seq<char>>::empty());
        assert(d@ =~= empty_state());
    }
    let mut i: usize = 0;
    while i < ls.len()
        invariant
            ls.deep_view() == lv,
            lv == lines(content@),
            i <= lv.len(),
            ball_lines(lv.subrange(0, i as int)) == Ok::<BallState, ErrorView>(d@),
        decreases lv.len() - i,
    {
        proof {
            let cur = lv.subrange(0, i + 1);
            assert(cur.drop_last() =~= lv.subrange(0, i as int));
            assert(cur.last() == ls[i as int]@);
        }
        match apply_line(&mut d, i + 1, ls[i].as_slice()) {
            Ok(_) => {},
            Err(e) => {
                proof {
                    lemma_ball_lines_err(lv, (i + 1) as int);
                }
                return Err(e);
            },
        }
        i = i + 1;
    }
    proof {
        assert(lv.subrange(0, lv.len() as int) =~= lv);
    }
    let command_name = match d.command_name {
        Some(c) => c,
        None => {
            return Err(missing_section_error("COMMAND-NAME"));
        },
    };
    let path = match d.path {
        Some(p) => p,
        None => {
            return Err(missing_section_error("PATH"));
        },
    };
    let version = match d.version {
        Some(v) => v,
        None => String::from_str("0.1.0"),
    };
    Ok(
        BallManifest {
            command_name,
            description: d.description,
            version,
            flags: d.flags,
            author: d.author,
            require_root: d.require_root,
            depends: d.depends,
            path,
        },
    )
}

} // verus!
