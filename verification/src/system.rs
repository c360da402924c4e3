//! The host's native package manager (apt, dnf or pacman): which one the
//! distribution uses, and what its query commands print, read into packages.

use vstd::prelude::*;
use vstd::string::*;

use crate::cargo::packages_view;
use crate::error::{BallError, ErrorView};
use crate::package::{Package, PackageSource, PackageView, SourceView};
use crate::text::{
    chars_of, contains, contains_str, is_alphanumeric, spec_is_alphanumeric, eq_chars, eq_str, lines, lines_of, split_chars, split_on, split_once,
    split_once_str, starts_with, starts_with_str, strip_both, strip_both_vec, string_of, sub_vec, trim, trimmed,
};

verus! {

/// The native package managers baller can drive.
#[derive(Debug, Clone, Copy, PartialEq, Eq, Structural)]
pub enum SystemManager {
    Apt,
    Dnf,
    Pacman,
}

pub open spec fn spec_manager_name(m: SystemManager) -> Seq<char> {
    match m {
        SystemManager::Apt => "apt"@,
        SystemManager::Dnf => "dnf"@,
        SystemManager::Pacman => "pacman"@,
    }
}

pub fn manager_name(m: SystemManager) -> (r: &'static str)
    ensures
        r@ == spec_manager_name(m),
{
    match m {
        SystemManager::Apt => "apt",
        SystemManager::Dnf => "dnf",
        SystemManager::Pacman => "pacman",
    }
}

/// The manager of a distribution, by its `/etc/os-release` `ID`.
pub open spec fn spec_manager_for_id(id: Seq<char>) -> Option<SystemManager> {
    if id == "ubuntu"@ || id == "debian"@ || id == "linuxmint"@ || id == "pop"@ || id == "elementary"@ || id
        == "zorin"@ || id == "kali"@ || id == "raspbian"@ {
        Some(SystemManager::Apt)
    } else if id == "fedora"@ || id == "rhel"@ || id == "centos"@ || id == "rocky"@ || id == "almalinux"@ || id
        == "ol"@ || id == "nobara"@ {
        Some(SystemManager::Dnf)
    } else if id == "arch"@ || id == "manjaro"@ || id == "endeavouros"@ || id == "garuda"@ || id == "arco"@ {
        Some(SystemManager::Pacman)
    } else {
        None
    }
}

fn one_of_names(id: &[char], names: &Vec<&'static str>) -> (r: bool)
    ensures
        r == names.deep_view().contains(id@),
{
    let mut i: usize = 0;
    while i < names.len()
        invariant
            i <= names@.len(),
            forall|j: int| 0 <= j < i ==> names.deep_view()[j] != id@,
        decreases names@.len() - i,
    {
        if eq_str(id, names[i]) {
            proof {
                assert(names.deep_view()[i as int] == id@);
            }
            return true;
        }
        i = i + 1;
    }
    false
}

pub fn manager_for_id(id: &[char]) -> (r: Option<SystemManager>)
    ensures
        r == spec_manager_for_id(id@),
{
    let apt = vec!["ubuntu", "debian", "linuxmint", "pop", "elementary", "zorin", "kali", "raspbian"];
    let dnf = vec!["fedora", "rhel", "centos", "rocky", "almalinux", "ol", "nobara"];
    let pacman = vec!["arch", "manjaro", "endeavouros", "garuda", "arco"];
    let a = one_of_names(id, &apt);
    let d = one_of_names(id, &dnf);
    let p = one_of_names(id, &pacman);
    proof {
        assert(apt.deep_view() =~= seq![
            "ubuntu"@,
            "debian"@,
            "linuxmint"@,
            "pop"@,
            "elementary"@,
            "zorin"@,
            "kali"@,
            "raspbian"@,
        ]);
        assert(dnf.deep_view() =~= seq!["fedora"@, "rhel"@, "centos"@, "rocky"@, "almalinux"@, "ol"@, "nobara"@]);
        assert(pacman.deep_view() =~= seq!["arch"@, "manjaro"@, "endeavouros"@, "garuda"@, "arco"@]);
        if a {
            let j = choose|j: int| 0 <= j < apt.deep_view().len() && apt.deep_view()[j] == id@;
            assert(0 <= j < 8);
        }
        if d {
            let j = choose|j: int| 0 <= j < dnf.deep_view().len() && dnf.deep_view()[j] == id@;
            assert(0 <= j < 7);
        }
        if p {
            let j = choose|j: int| 0 <= j < pacman.deep_view().len() && pacman.deep_view()[j] == id@;
            assert(0 <= j < 5);
        }
        if spec_manager_for_id(id@) == Some(SystemManager::Apt) {
            assert(a);
        }
        if spec_manager_for_id(id@) == Some(SystemManager::Dnf) {
            assert(d);
        }
        if spec_manager_for_id(id@) == Some(SystemManager::Pacman) {
            assert(p);
        }
    }
    if a {
        Some(SystemManager::Apt)
    } else if d {
        Some(SystemManager::Dnf)
    } else if p {
        Some(SystemManager::Pacman)
    } else {
        None
    }
}

/// `str::strip_prefix`.
pub open spec fn strip_prefix(s: Seq<char>, p: Seq<char>) -> Option<Seq<char>> {
    if starts_with(s, p) {
        Some(s.subrange(p.len() as int, s.len() as int))
    } else {
        None
    }
}

fn strip_prefix_chars(s: &[char], p: &str) -> (r: Option<Vec<char>>)
    ensures
        match r {
            Some(v) => strip_prefix(s@, p@) == Some(v@),
            None => strip_prefix(s@, p@) is None,
        },
{
    if starts_with_str(s, p) {
        let k = p.unicode_len();
        Some(sub_vec(s, k, s.len()))
    } else {
        None
    }
}

/// The manager named by the first `ID=` line of an `os-release` file (the
/// value's quotes dropped), if the distribution is known.
pub open spec fn id_lines_manager(ls: Seq<Seq<char>>) -> Option<SystemManager>
    decreases ls.len(),
{
    if ls.len() == 0 {
        None
    } else {
        match strip_prefix(ls[0], "ID="@) {
            Some(v) => spec_manager_for_id(strip_both(v, '"', '"')),
            None => id_lines_manager(ls.subrange(1, ls.len() as int)),
        }
    }
}

pub fn detect_system_manager(os_release: &str) -> (r: Option<SystemManager>)
    ensures
        r == id_lines_manager(lines(os_release@)),
{
    let v = chars_of(os_release);
    let ls = lines_of(v.as_slice());
    let ghost lv = ls.deep_view();
    let mut i: usize = 0;
    proof {
        assert(lv.subrange(0, lv.len() as int) =~= lv);
    }
    while i < ls.len()
        invariant
            lv == ls.deep_view(),
            lv == lines(os_release@),
            i <= lv.len(),
            id_lines_manager(lv) == id_lines_manager(lv.subrange(i as int, lv.len() as int)),
        decreases lv.len() - i,
    {
        let ghost rest = lv.subrange(i as int, lv.len() as int);
        proof {
            crate::text::lemma_chars_deep_view(&ls@[i as int]);
            assert(rest[0] == ls@[i as int]@);
            assert(rest.subrange(1, rest.len() as int) =~= lv.subrange(i + 1, lv.len() as int));
        }
        match strip_prefix_chars(ls[i].as_slice(), "ID=") {
            Some(val) => {
                let id = strip_both_vec(val.as_slice(), '"', '"');
                return manager_for_id(id.as_slice());
            },
            None => {},
        }
        i = i + 1;
    }
    None
}

/// Which native package manager this host has, if any.
pub struct SystemRegistry {
    pub manager: Option<SystemManager>,
}

impl SystemRegistry {
    /// The registry for a host whose `os-release` text is given (none when it
    /// could not be read).
    pub fn detect(os_release: Option<&str>) -> (r: SystemRegistry)
        ensures
            r.manager == match os_release {
                Some(t) => id_lines_manager(lines(t@)),
                None => None,
            },
    {
        match os_release {
            Some(t) => SystemRegistry { manager: detect_system_manager(t) },
            None => SystemRegistry { manager: None },
        }
    }

    /// The manager, or the error every lookup gives without one.
    pub fn require_manager(&self) -> (r: Result<SystemManager, BallError>)
        ensures
            match self.manager {
                Some(m) => r == Ok::<SystemManager, BallError>(m),
                None => r matches Err(e) && e@ == ErrorView::PackageManagerError(
                    "no system package manager detected"@,
                ),
            },
    {
        match self.manager {
            Some(m) => Ok(m),
            None => Err(BallError::PackageManagerError(String::from_str("no system package manager detected"))),
        }
    }
}


// ---------------------------------------------------------------------------
// apt-cache show
// ---------------------------------------------------------------------------

pub open spec fn opt_text(s: Seq<char>) -> Option<Seq<char>> {
    if s.len() == 0 {
        None
    } else {
        Some(s)
    }
}

pub open spec fn opt_list(s: Seq<Seq<char>>) -> Option<Seq<Seq<char>>> {
    if s.len() == 0 {
        None
    } else {
        Some(s)
    }
}

/// `d` with `t` appended, a space between when `d` is not empty.
pub open spec fn append_text(d: Seq<char>, t: Seq<char>) -> Seq<char> {
    if d.len() == 0 {
        t
    } else {
        d + " "@ + t
    }
}

/// The name part of a `Name <email>` maintainer field.
pub open spec fn maintainer_name(m: Seq<char>) -> Seq<char> {
    if contains(m, "<"@) {
        trim(split_on(m, '<')[0])
    } else {
        m
    }
}

/// The package name of one `Depends:` entry, without its version clause.
pub open spec fn dep_name(part: Seq<char>) -> Seq<char> {
    trim(split_on(trim(part), '(')[0])
}

/// `deps` with the entries' names added, skipping empty and repeated ones.
pub open spec fn add_deps(deps: Seq<Seq<char>>, parts: Seq<Seq<char>>) -> Seq<Seq<char>>
    decreases parts.len(),
{
    if parts.len() == 0 {
        deps
    } else {
        let d0 = add_deps(deps, parts.drop_last());
        let d = dep_name(parts.last());
        if d.len() > 0 && !d0.contains(d) {
            d0.push(d)
        } else {
            d0
        }
    }
}

/// What the reading of `apt-cache show` has gathered so far.
pub struct AptState {
    pub version: Seq<char>,
    pub description: Seq<char>,
    pub in_description: bool,
    pub author: Seq<char>,
    pub deps: Seq<Seq<char>>,
}

pub open spec fn apt_start() -> AptState {
    AptState {
        version: Seq::empty(),
        description: Seq::empty(),
        in_description: false,
        author: Seq::empty(),
        deps: Seq::empty(),
    }
}

pub open spec fn description_value(line: Seq<char>) -> Option<Seq<char>> {
    match strip_prefix(line, "Description-en:"@) {
        Some(v) => Some(v),
        None => strip_prefix(line, "Description:"@),
    }
}

/// One line of `apt-cache show`: `Version:` and `Description:` fields, the
/// description's indented continuation lines, then (outside the
/// description) `Maintainer:` and `Depends:`.
pub open spec fn apt_step(st: AptState, line: Seq<char>) -> AptState {
    let st1 = match strip_prefix(line, "Version:"@) {
        Some(v) => AptState { in_description: false, version: trim(v), ..st },
        None => match description_value(line) {
            Some(v) => AptState { in_description: true, description: trim(v), ..st },
            None => if st.in_description {
                if starts_with(line, " "@) || line == "."@ {
                    let c = trim(line);
                    if c.len() > 0 && c != "."@ {
                        AptState { description: append_text(st.description, c), ..st }
                    } else {
                        st
                    }
                } else {
                    AptState { in_description: false, ..st }
                }
            } else {
                st
            },
        },
    };
    if st1.in_description {
        st1
    } else {
        match strip_prefix(line, "Maintainer:"@) {
            Some(v) => AptState { author: maintainer_name(trim(v)), ..st1 },
            None => match strip_prefix(line, "Depends:"@) {
                Some(v) => AptState { deps: add_deps(st1.deps, split_on(trim(v), ',')), ..st1 },
                None => st1,
            },
        }
    }
}

pub open spec fn apt_fold(ls: Seq<Seq<char>>) -> AptState
    decreases ls.len(),
{
    if ls.len() == 0 {
        apt_start()
    } else {
        apt_step(apt_fold(ls.drop_last()), ls.last())
    }
}

/// A package as a native manager describes it.
pub open spec fn system_package(
    name: Seq<char>,
    version: Seq<char>,
    description: Option<Seq<char>>,
    author: Option<Seq<char>>,
    deps: Option<Seq<Seq<char>>>,
    manager: Seq<char>,
) -> PackageView {
    PackageView {
        name,
        version,
        description,
        author,
        repository: None,
        architectures: None,
        dependencies: deps,
        sha256: None,
        hash_algorithm: None,
        download_url: None,
        source: SourceView::System { manager },
        advisory: None,
        vulnerabilities: Seq::empty(),
    }
}

/// The package `apt-cache show <name>` describes.
pub open spec fn spec_parse_apt_show(name: Seq<char>, output: Seq<char>) -> Result<PackageView, ErrorView> {
    let st = apt_fold(lines(output));
    if trim(output).len() == 0 || st.version.len() == 0 {
        Err(ErrorView::PackageNotFound(name))
    } else {
        Ok(
            system_package(
                name,
                st.version,
                opt_text(st.description),
                opt_text(st.author),
                opt_list(st.deps),
                "apt"@,
            ),
        )
    }
}

struct AptExec {
    version: Vec<char>,
    description: Vec<char>,
    in_description: bool,
    author: Vec<char>,
    deps: Vec<String>,
}

impl AptExec {
    spec fn state(&self) -> AptState {
        AptState {
            version: self.version@,
            description: self.description@,
            in_description: self.in_description,
            author: self.author@,
            deps: self.deps.deep_view(),
        }
    }
}

/// Appends `t` to `d`, a space between when `d` is not empty.
fn append_text_exec(d: &mut Vec<char>, t: &[char])
    ensures
        final(d)@ == append_text(old(d)@, t@),
{
    if d.len() > 0 {
        d.push(' ');
    }
    let ghost d0 = d@;
    let mut k: usize = 0;
    while k < t.len()
        invariant
            k <= t@.len(),
            d@ == d0 + t@.subrange(0, k as int),
        decreases t@.len() - k,
    {
        d.push(t[k]);
        k = k + 1;
        proof {
            assert(d@ =~= d0 + t@.subrange(0, k as int));
        }
    }
    proof {
        assert(t@.subrange(0, t@.len() as int) =~= t@);
        reveal_strlit(" ");
    }
}

/// Whether `deps` already holds `name`.
fn has_name(deps: &Vec<String>, name: &[char]) -> (r: bool)
    ensures
        r == deps.deep_view().contains(name@),
{
    let mut i: usize = 0;
    while i < deps.len()
        invariant
            i <= deps@.len(),
            forall|j: int| 0 <= j < i ==> deps.deep_view()[j] != name@,
        decreases deps@.len() - i,
    {
        let dv = chars_of(deps[i].as_str());
        if eq_chars(dv.as_slice(), name) {
            proof {
                assert(deps.deep_view()[i as int] == name@);
            }
            return true;
        }
        i = i + 1;
    }
    false
}

fn dep_name_exec(part: &[char]) -> (r: Vec<char>)
    ensures
        r@ == dep_name(part@),
{
    let t = trimmed(part);
    let pieces = split_chars(t.as_slice(), '(');
    proof {
        crate::text::lemma_split_on_nonempty(t@, '(');
        crate::text::lemma_chars_deep_view(&pieces@[0]);
    }
    trimmed(pieces[0].as_slice())
}

fn add_deps_exec(deps: &mut Vec<String>, parts: &Vec<Vec<char>>)
    ensures
        final(deps).deep_view() == add_deps(old(deps).deep_view(), parts.deep_view()),
{
    let ghost d0 = deps.deep_view();
    let ghost pv = parts.deep_view();
    let mut i: usize = 0;
    proof {
        assert(pv.subrange(0, 0) =~= Seq::<Seq<char>>::empty());
    }
    while i < parts.len()
        invariant
            pv == parts.deep_view(),
            i <= pv.len(),
            deps.deep_view() == add_deps(d0, pv.subrange(0, i as int)),
        decreases pv.len() - i,
    {
        let ghost prev = pv.subrange(0, i as int);
        let ghost next = pv.subrange(0, i + 1);
        proof {
            assert(next.drop_last() =~= prev);
            crate::text::lemma_chars_deep_view(&parts@[i as int]);
            assert(next.last() == parts@[i as int]@);
        }
        let d = dep_name_exec(parts[i].as_slice());
        if d.len() > 0 && !has_name(deps, d.as_slice()) {
            let ghost dv = deps.deep_view();
            deps.push(string_of(d.as_slice()));
            proof {
                assert(deps.deep_view() =~= dv.push(d@));
            }
        }
        i = i + 1;
    }
    proof {
        assert(pv.subrange(0, pv.len() as int) =~= pv);
    }
}

fn apt_step_exec(st: AptExec, line: &[char]) -> (r: AptExec)
    ensures
        r.state() == apt_step(st.state(), line@),
{
    let mut st = st;
    match strip_prefix_chars(line, "Version:") {
        Some(v) => {
            st.in_description = false;
            st.version = trimmed(v.as_slice());
        },
        None => {
            let desc = match strip_prefix_chars(line, "Description-en:") {
                Some(v) => Some(v),
                None => strip_prefix_chars(line, "Description:"),
            };
            match desc {
                Some(v) => {
                    st.in_description = true;
                    st.description = trimmed(v.as_slice());
                },
                None => {
                    if st.in_description {
                        if starts_with_str(line, " ") || eq_str(line, ".") {
                            let c = trimmed(line);
                            if c.len() > 0 && !eq_str(c.as_slice(), ".") {
                                append_text_exec(&mut st.description, c.as_slice());
                            }
                        } else {
                            st.in_description = false;
                        }
                    }
                },
            }
        },
    }
    if !st.in_description {
        match strip_prefix_chars(line, "Maintainer:") {
            Some(v) => {
                let m = trimmed(v.as_slice());
                if contains_str(m.as_slice(), "<") {
                    let pieces = split_chars(m.as_slice(), '<');
                    proof {
                        crate::text::lemma_split_on_nonempty(m@, '<');
                        crate::text::lemma_chars_deep_view(&pieces@[0]);
                    }
                    st.author = trimmed(pieces[0].as_slice());
                } else {
                    st.author = m;
                }
            },
            None => match strip_prefix_chars(line, "Depends:") {
                Some(v) => {
                    let t = trimmed(v.as_slice());
                    let parts = split_chars(t.as_slice(), ',');
                    add_deps_exec(&mut st.deps, &parts);
                },
                None => {},
            },
        }
    }
    st
}

fn opt_chars(v: &Vec<char>) -> (r: Option<String>)
    ensures
        r.deep_view() == opt_text(v@),
{
    if v.len() == 0 {
        None
    } else {
        Some(string_of(v.as_slice()))
    }
}

fn opt_names(v: Vec<String>) -> (r: Option<Vec<String>>)
    ensures
        r.deep_view() == opt_list(v.deep_view()),
{
    if v.len() == 0 {
        None
    } else {
        Some(v)
    }
}

/// Reads `apt-cache show <name>` output.
pub fn parse_apt_show(name: &str, output: &str) -> (r: Result<Package, BallError>)
    ensures
        match r {
            Ok(p) => spec_parse_apt_show(name@, output@) == Ok::<PackageView, ErrorView>(p@),
            Err(e) => spec_parse_apt_show(name@, output@) == Err::<PackageView, ErrorView>(e@),
        },
{
    let v = chars_of(output);
    let t = trimmed(v.as_slice());
    if t.len() == 0 {
        return Err(BallError::PackageNotFound(String::from_str(name)));
    }
    let ls = lines_of(v.as_slice());
    let ghost lv = ls.deep_view();
    let mut st = AptExec {
        version: Vec::new(),
        description: Vec::new(),
        in_description: false,
        author: Vec::new(),
        deps: Vec::new(),
    };
    proof {
        assert(lv.subrange(0, 0) =~= Seq::<Seq<char>>::empty());
        assert(st.deps.deep_view() =~= Seq::<Seq<char>>::empty());
        assert(st.version@ =~= Seq::<char>::empty());
        assert(st.description@ =~= Seq::<char>::empty());
        assert(st.author@ =~= Seq::<char>::empty());
        assert(st.state() == apt_start());
    }
    let mut i: usize = 0;
    while i < ls.len()
        invariant
            lv == ls.deep_view(),
            i <= lv.len(),
            st.state() == apt_fold(lv.subrange(0, i as int)),
        decreases lv.len() - i,
    {
        let ghost prev = lv.subrange(0, i as int);
        let ghost next = lv.subrange(0, i + 1);
        proof {
            assert(next.drop_last() =~= prev);
            crate::text::lemma_chars_deep_view(&ls@[i as int]);
            assert(next.last() == ls@[i as int]@);
        }
        st = apt_step_exec(st, ls[i].as_slice());
        i = i + 1;
    }
    proof {
        assert(lv.subrange(0, lv.len() as int) =~= lv);
    }
    if st.version.len() == 0 {
        return Err(BallError::PackageNotFound(String::from_str(name)));
    }
    let pkg = Package {
        name: String::from_str(name),
        version: string_of(st.version.as_slice()),
        description: opt_chars(&st.description),
        author: opt_chars(&st.author),
        repository: None,
        architectures: None,
        dependencies: opt_names(st.deps),
        sha256: None,
        hash_algorithm: None,
        download_url: None,
        source: PackageSource::System { manager: String::from_str("apt") },
        advisory: None,
        vulnerabilities: Vec::new(),
    };
    proof {
        assert(pkg.vulnerabilities.deep_view() =~= Seq::<Seq<char>>::empty());
    }
    Ok(pkg)
}


// ---------------------------------------------------------------------------
// pacman -Si, dnf info
// ---------------------------------------------------------------------------

/// The text after the first `:` of a line, if it has one.
pub open spec fn field_value(line: Seq<char>) -> Option<Seq<char>> {
    match split_once(line, ":"@) {
        Some((_, v)) => Some(v),
        None => None,
    }
}

fn field_value_exec(line: &[char]) -> (r: Option<Vec<char>>)
    ensures
        match r {
            Some(v) => field_value(line@) == Some(v@),
            None => field_value(line@) is None,
        },
{
    match split_once_str(line, ":") {
        Some((_, v)) => Some(v),
        None => None,
    }
}

/// `deps` with the space-separated words added, skipping empty and repeated
/// ones, and (with `skip_versioned`) any word holding `(`.
pub open spec fn add_words(deps: Seq<Seq<char>>, words: Seq<Seq<char>>, skip_versioned: bool) -> Seq<Seq<char>>
    decreases words.len(),
{
    if words.len() == 0 {
        deps
    } else {
        let d0 = add_words(deps, words.drop_last(), skip_versioned);
        let d = trim(words.last());
        if d.len() > 0 && !(skip_versioned && contains(d, "("@)) && !d0.contains(d) {
            d0.push(d)
        } else {
            d0
        }
    }
}

fn add_words_exec(deps: &mut Vec<String>, words: &Vec<Vec<char>>, skip_versioned: bool)
    ensures
        final(deps).deep_view() == add_words(old(deps).deep_view(), words.deep_view(), skip_versioned),
{
    let ghost d0 = deps.deep_view();
    let ghost wv = words.deep_view();
    let mut i: usize = 0;
    proof {
        assert(wv.subrange(0, 0) =~= Seq::<Seq<char>>::empty());
    }
    while i < words.len()
        invariant
            wv == words.deep_view(),
            i <= wv.len(),
            deps.deep_view() == add_words(d0, wv.subrange(0, i as int), skip_versioned),
        decreases wv.len() - i,
    {
        let ghost prev = wv.subrange(0, i as int);
        let ghost next = wv.subrange(0, i + 1);
        proof {
            assert(next.drop_last() =~= prev);
            crate::text::lemma_chars_deep_view(&words@[i as int]);
            assert(next.last() == words@[i as int]@);
        }
        let d = trimmed(words[i].as_slice());
        if d.len() > 0 && !(skip_versioned && contains_str(d.as_slice(), "(")) && !has_name(deps, d.as_slice()) {
            let ghost dv = deps.deep_view();
            deps.push(string_of(d.as_slice()));
            proof {
                assert(deps.deep_view() =~= dv.push(d@));
            }
        }
        i = i + 1;
    }
    proof {
        assert(wv.subrange(0, wv.len() as int) =~= wv);
    }
}

/// What the reading of `pacman -Si` or `dnf info` has gathered so far.
pub struct InfoFields {
    pub version: Seq<char>,
    pub description: Seq<char>,
    pub author: Seq<char>,
    pub deps: Seq<Seq<char>>,
}

pub open spec fn info_fields_start() -> InfoFields {
    InfoFields { version: Seq::empty(), description: Seq::empty(), author: Seq::empty(), deps: Seq::empty() }
}

/// One line of `pacman -Si`.
pub open spec fn pacman_step(st: InfoFields, line: Seq<char>) -> InfoFields {
    if starts_with(line, "Version"@) {
        match field_value(line) {
            Some(v) => InfoFields { version: trim(v), ..st },
            None => st,
        }
    } else if starts_with(line, "Description"@) {
        match field_value(line) {
            Some(v) => InfoFields { description: trim(v), ..st },
            None => st,
        }
    } else if starts_with(line, "Depends"@) {
        match field_value(line) {
            Some(v) => InfoFields { deps: add_words(st.deps, split_on(v, ' '), false), ..st },
            None => st,
        }
    } else {
        st
    }
}

pub open spec fn pacman_fold(ls: Seq<Seq<char>>) -> InfoFields
    decreases ls.len(),
{
    if ls.len() == 0 {
        info_fields_start()
    } else {
        pacman_step(pacman_fold(ls.drop_last()), ls.last())
    }
}

/// The space-separated pieces of the value of a `Depends` line; nothing for
/// any other line.
pub open spec fn depends_pieces(line: Seq<char>) -> Seq<Seq<char>> {
    if starts_with(line, "Depends"@) {
        match field_value(line) {
            Some(v) => split_on(v, ' '),
            None => Seq::empty(),
        }
    } else {
        Seq::empty()
    }
}

/// `w` is a non-empty word of the value of some `Depends` line of `ls`.
pub open spec fn depends_word(ls: Seq<Seq<char>>, w: Seq<char>) -> bool {
    &&& w.len() > 0
    &&& exists|k: int, j: int|
        0 <= k < ls.len() && 0 <= j < depends_pieces(ls[k]).len() && #[trigger] trim(depends_pieces(ls[k])[j]) == w
}

/// Adding words (none skipped for holding a version) keeps the list free of
/// repeats and adds exactly the non-empty trimmed words.
proof fn lemma_add_words(d: Seq<Seq<char>>, words: Seq<Seq<char>>)
    requires
        d.no_duplicates(),
    ensures
        add_words(d, words, false).no_duplicates(),
        forall|x: Seq<char>|
            #[trigger] add_words(d, words, false).contains(x) <==> d.contains(x) || (x.len() > 0 && exists|j: int|
                0 <= j < words.len() && #[trigger] trim(words[j]) == x),
    decreases words.len(),
{
    if words.len() > 0 {
        let pre = words.drop_last();
        lemma_add_words(d, pre);
        let d0 = add_words(d, pre, false);
        let t = trim(words.last());
        assert(trim(words[words.len() - 1]) == t);
        assert forall|x: Seq<char>|
            #[trigger] add_words(d, words, false).contains(x) <==> d.contains(x) || (x.len() > 0 && exists|j: int|
                0 <= j < words.len() && #[trigger] trim(words[j]) == x) by {
            if add_words(d, words, false).contains(x) {
                if d0.contains(x) {
                    if !d.contains(x) {
                        let j = choose|j: int| 0 <= j < pre.len() && #[trigger] trim(pre[j]) == x;
                        assert(trim(words[j]) == x);
                    }
                } else {
                    let k = choose|k: int| 0 <= k < add_words(d, words, false).len() && add_words(d, words, false)[k] == x;
                    assert(k == d0.len());
                }
            }
            if d.contains(x) || (x.len() > 0 && exists|j: int| 0 <= j < words.len() && #[trigger] trim(words[j]) == x) {
                if !d.contains(x) {
                    let j = choose|j: int| 0 <= j < words.len() && #[trigger] trim(words[j]) == x;
                    if j < pre.len() {
                        assert(trim(pre[j]) == x);
                        assert(d0.contains(x));
                    } else {
                        assert(x == t);
                    }
                }
                if d0.contains(x) {
                    let k = choose|k: int| 0 <= k < d0.len() && d0[k] == x;
                    assert(add_words(d, words, false)[k] == x);
                } else {
                    assert(add_words(d, words, false) == d0.push(t));
                    assert(add_words(d, words, false)[d0.len() as int] == x);
                }
            }
        }
    }
}

/// Over `pacman -Si` lines, the gathered dependencies hold no repeats and
/// are exactly the words of the `Depends` lines.
proof fn lemma_pacman_deps(ls: Seq<Seq<char>>)
    ensures
        pacman_fold(ls).deps.no_duplicates(),
        forall|w: Seq<char>| #[trigger] pacman_fold(ls).deps.contains(w) <==> depends_word(ls, w),
    decreases ls.len(),
{
    reveal_strlit("Depends");
    reveal_strlit("Version");
    reveal_strlit("Description");
    if ls.len() == 0 {
        assert(pacman_fold(ls).deps =~= Seq::<Seq<char>>::empty());
    } else {
        let pre = ls.drop_last();
        let line = ls.last();
        lemma_pacman_deps(pre);
        let st = pacman_fold(pre);
        let ws = depends_pieces(line);
        if starts_with(line, "Depends"@) {
            assert(line.subrange(0, 7)[0] == line[0]);
            assert(line.subrange(0, 7)[2] == line[2]);
            assert(line[0] == 'D');
            assert(line[2] == 'p');
            assert(!starts_with(line, "Version"@)) by {
                if starts_with(line, "Version"@) {
                    assert(line.subrange(0, 7)[0] == "Version"@[0]);
                }
            }
            assert(!starts_with(line, "Description"@)) by {
                if starts_with(line, "Description"@) {
                    assert(line.subrange(0, 11)[2] == line[2]);
                    assert(line.subrange(0, 11)[2] == "Description"@[2]);
                }
            }
        }
        assert(pacman_fold(ls).deps == add_words(st.deps, ws, false));
        lemma_add_words(st.deps, ws);
        assert forall|w: Seq<char>| #[trigger] pacman_fold(ls).deps.contains(w) <==> depends_word(ls, w) by {
            if depends_word(pre, w) {
                let (k, j) = choose|k: int, j: int|
                    0 <= k < pre.len() && 0 <= j < depends_pieces(pre[k]).len() && #[trigger] trim(
                        depends_pieces(pre[k])[j],
                    ) == w;
                assert(ls[k] == pre[k]);
            }
            if w.len() > 0 && exists|j: int| 0 <= j < ws.len() && #[trigger] trim(ws[j]) == w {
                let j = choose|j: int| 0 <= j < ws.len() && #[trigger] trim(ws[j]) == w;
                assert(ls[ls.len() - 1] == line);
                assert(trim(depends_pieces(ls[ls.len() - 1])[j]) == w);
            }
            if depends_word(ls, w) {
                let (k, j) = choose|k: int, j: int|
                    0 <= k < ls.len() && 0 <= j < depends_pieces(ls[k]).len() && #[trigger] trim(
                        depends_pieces(ls[k])[j],
                    ) == w;
                if k < pre.len() {
                    assert(pre[k] == ls[k]);
                    assert(depends_word(pre, w));
                } else {
                    assert(ls[k] == line);
                    assert(trim(ws[j]) == w);
                }
            }
        }
    }
}

/// The `j`-th piece of the `Depends` value on line `k` of `ls` is the word `w`.
pub open spec fn depends_word_at(ls: Seq<Seq<char>>, k: int, j: int, w: Seq<char>) -> bool {
    &&& w.len() > 0
    &&& 0 <= k < ls.len()
    &&& 0 <= j < depends_pieces(ls[k]).len()
    &&& trim(depends_pieces(ls[k])[j]) == w
}

/// `ds` lists its words in the order they first appear: wherever the later
/// of two appears, the earlier has appeared before it.
pub open spec fn in_first_seen_order(ls: Seq<Seq<char>>, ds: Seq<Seq<char>>) -> bool {
    forall|a: int, b: int, k2: int, j2: int|
        #![trigger depends_word_at(ls, k2, j2, ds[b]), ds[a]]
        0 <= a < b < ds.len() && depends_word_at(ls, k2, j2, ds[b]) ==> seen_before(ls, k2, j2, ds[a])
}

/// The word `w` appears before the `j`-th piece of line `k`.
pub open spec fn seen_before(ls: Seq<Seq<char>>, k: int, j: int, w: Seq<char>) -> bool {
    exists|k1: int, j1: int| #[trigger] depends_word_at(ls, k1, j1, w) && (k1 < k || (k1 == k && j1 < j))
}

/// The `j`-th of `words`, trimmed, is `x`.
pub open spec fn word_at(words: Seq<Seq<char>>, j: int, x: Seq<char>) -> bool {
    0 <= j < words.len() && trim(words[j]) == x
}

/// Adding words keeps the list as a prefix, and a word added after another
/// first appears after it.
proof fn lemma_add_words_order(d: Seq<Seq<char>>, words: Seq<Seq<char>>)
    requires
        d.no_duplicates(),
    ensures
        d.len() <= add_words(d, words, false).len(),
        forall|i: int| 0 <= i < d.len() ==> #[trigger] add_words(d, words, false)[i] == d[i],
        added_after(d, words),
    decreases words.len(),
{
    if words.len() > 0 {
        let pre = words.drop_last();
        let n = words.len() - 1;
        lemma_add_words_order(d, pre);
        lemma_add_words(d, pre);
        lemma_add_words(d, words);
        let d0 = add_words(d, pre, false);
        let r = add_words(d, words, false);
        let t = trim(words.last());
        assert(trim(words[n]) == t);
        assert(r == d0 || (r == d0.push(t) && !d0.contains(t) && t.len() > 0));
        assert forall|a: int, b: int, j2: int|
            #![trigger r[a], word_at(words, j2, r[b])]
            d.len() <= a < b < r.len() && word_at(words, j2, r[b]) implies earlier_word(words, j2, r[a]) by {
            lemma_added_step(d, words, a, b, j2);
        }
    }
}

/// One case of `lemma_add_words_order`, with the positions named.
proof fn lemma_added_step(d: Seq<Seq<char>>, words: Seq<Seq<char>>, a: int, b: int, j2: int)
    requires
        d.no_duplicates(),
        words.len() > 0,
        added_after(d, words.drop_last()),
        d.len() <= a < b < add_words(d, words, false).len(),
        word_at(words, j2, add_words(d, words, false)[b]),
    ensures
        earlier_word(words, j2, add_words(d, words, false)[a]),
{
    let pre = words.drop_last();
    let n = words.len() - 1;
    lemma_add_words(d, pre);
    lemma_add_words_prefix(d, pre);
    let d0 = add_words(d, pre, false);
    let r = add_words(d, words, false);
    let t = trim(words.last());
    assert(trim(words[n]) == t);
    assert(r == d0 || (r == d0.push(t) && !d0.contains(t) && t.len() > 0));
    assert(r[a] == d0[a]);
    assert(d0.contains(d0[a]));
    assert(!d.contains(d0[a])) by {
        if d.contains(d0[a]) {
            let i = choose|i: int| 0 <= i < d.len() && d[i] == d0[a];
            assert(d0[i] == d[i]);
        }
    }
    let j0 = choose|j: int| 0 <= j < pre.len() && #[trigger] trim(pre[j]) == d0[a];
    assert(trim(words[j0]) == d0[a]);
    assert(word_at(words, j0, r[a]));
    if j2 == n {
        assert(earlier_word(words, j2, r[a]));
    }
    if j2 < n {
        assert(trim(pre[j2]) == r[b]);
        if b < d0.len() {
            assert(r[b] == d0[b]);
            assert(word_at(pre, j2, d0[b]));
            let j1 = choose|j1: int| j1 < j2 && #[trigger] word_at(pre, j1, d0[a]);
            assert(trim(words[j1]) == d0[a]);
            assert(word_at(words, j1, r[a]));
            assert(earlier_word(words, j2, r[a]));
        } else {
            assert(r[b] == t);
            assert(d0.contains(t)) by {
                assert(t.len() > 0);
                assert(trim(pre[j2]) == t);
            }
        }
    }
}

/// Adding words keeps what was there as a prefix.
proof fn lemma_add_words_prefix(d: Seq<Seq<char>>, words: Seq<Seq<char>>)
    ensures
        d.len() <= add_words(d, words, false).len(),
        forall|i: int| 0 <= i < d.len() ==> #[trigger] add_words(d, words, false)[i] == d[i],
    decreases words.len(),
{
    if words.len() > 0 {
        lemma_add_words_prefix(d, words.drop_last());
    }
}

/// A word added after another first appears after it.
pub open spec fn added_after(d: Seq<Seq<char>>, words: Seq<Seq<char>>) -> bool {
    forall|a: int, b: int, j2: int|
        #![trigger add_words(d, words, false)[a], word_at(words, j2, add_words(d, words, false)[b])]
        d.len() <= a < b < add_words(d, words, false).len() && word_at(words, j2, add_words(d, words, false)[b])
            ==> earlier_word(words, j2, add_words(d, words, false)[a])
}

/// `x` is one of the words before the `j`-th.
pub open spec fn earlier_word(words: Seq<Seq<char>>, j: int, x: Seq<char>) -> bool {
    exists|j1: int| j1 < j && #[trigger] word_at(words, j1, x)
}

/// Over `pacman -Si` lines, the gathered dependencies come in the order
/// their words first appear.
proof fn lemma_pacman_order(ls: Seq<Seq<char>>)
    ensures
        in_first_seen_order(ls, pacman_fold(ls).deps),
    decreases ls.len(),
{
    reveal_strlit("Depends");
    reveal_strlit("Version");
    reveal_strlit("Description");
    if ls.len() > 0 {
        let pre = ls.drop_last();
        let line = ls.last();
        let last = ls.len() - 1;
        lemma_pacman_order(pre);
        lemma_pacman_deps(pre);
        lemma_pacman_deps(ls);
        let d0 = pacman_fold(pre).deps;
        let ws = depends_pieces(line);
        if starts_with(line, "Depends"@) {
            assert(line.subrange(0, 7)[0] == line[0]);
            assert(line.subrange(0, 7)[2] == line[2]);
            assert(line[0] == 'D');
            assert(line[2] == 'p');
            assert(!starts_with(line, "Version"@)) by {
                if starts_with(line, "Version"@) {
                    assert(line.subrange(0, 7)[0] == "Version"@[0]);
                }
            }
            assert(!starts_with(line, "Description"@)) by {
                if starts_with(line, "Description"@) {
                    assert(line.subrange(0, 11)[2] == line[2]);
                    assert(line.subrange(0, 11)[2] == "Description"@[2]);
                }
            }
        }
        let ds = pacman_fold(ls).deps;
        assert(ds == add_words(d0, ws, false));
        lemma_add_words_order(d0, ws);
        assert forall|a: int, b: int, k2: int, j2: int|
            #![trigger depends_word_at(ls, k2, j2, ds[b]), ds[a]]
            0 <= a < b < ds.len() && depends_word_at(ls, k2, j2, ds[b]) implies seen_before(ls, k2, j2, ds[a]) by {
            // an entry already gathered before the last line appears in an earlier line
            if a < d0.len() {
                assert(ds[a] == d0[a]);
                assert(d0.contains(d0[a]));
                assert(depends_word(pre, d0[a]));
                let (k1, j1) = choose|k1: int, j1: int|
                    0 <= k1 < pre.len() && 0 <= j1 < depends_pieces(pre[k1]).len() && #[trigger] trim(
                        depends_pieces(pre[k1])[j1],
                    ) == d0[a];
                assert(pre[k1] == ls[k1]);
                assert(depends_word_at(ls, k1, j1, ds[a]));
                if k2 < last {
                    if b < d0.len() {
                        assert(ds[b] == d0[b]);
                        assert(pre[k2] == ls[k2]);
                        assert(depends_word_at(pre, k2, j2, d0[b]));
                        let (k3, j3) = choose|k3: int, j3: int|
                            #[trigger] depends_word_at(pre, k3, j3, d0[a]) && (k3 < k2 || (k3 == k2 && j3 < j2));
                        assert(pre[k3] == ls[k3]);
                        assert(depends_word_at(ls, k3, j3, ds[a]));
                    } else {
                        assert(pre[k2] == ls[k2]);
                        assert(depends_word(pre, ds[b])) by {
                            assert(trim(depends_pieces(pre[k2])[j2]) == ds[b]);
                        }
                        assert(d0.contains(ds[b]));
                        assert(ds.contains(ds[b]));
                        let i = choose|i: int| 0 <= i < d0.len() && d0[i] == ds[b];
                        assert(ds[i] == d0[i]);
                    }
                }
            } else {
                // both were added from the last line
                assert(b >= d0.len());
                assert(!d0.contains(ds[b])) by {
                    if d0.contains(ds[b]) {
                        let i = choose|i: int| 0 <= i < d0.len() && d0[i] == ds[b];
                        assert(ds[i] == d0[i]);
                    }
                }
                if k2 < last {
                    assert(pre[k2] == ls[k2]);
                    assert(depends_word(pre, ds[b])) by {
                        assert(trim(depends_pieces(pre[k2])[j2]) == ds[b]);
                    }
                } else {
                    assert(ds.contains(ds[a]));
                    assert(ls[k2] == line);
                    assert(trim(ws[j2]) == ds[b]);
                    assert(word_at(ws, j2, ds[b]));
                    let j1 = choose|j1: int| j1 < j2 && #[trigger] word_at(ws, j1, ds[a]);
                    assert(depends_word_at(ls, k2, j1, ds[a]));
                }
            }
        }
    } else {
        assert(pacman_fold(ls).deps.len() == 0);
    }
}

/// `line` is a `key: value` line of `pacman -Si` for `key`.
pub open spec fn field_line(line: Seq<char>, key: Seq<char>) -> bool {
    starts_with(line, key) && field_value(line) is Some
}

/// The trimmed value of the last `key` line of `ls`, empty where there is none.
proof fn lemma_pacman_last_fields(ls: Seq<Seq<char>>, k: int)
    ensures
        (forall|j: int| 0 <= j < ls.len() ==> !field_line(#[trigger] ls[j], "Version"@)) ==> pacman_fold(ls).version
            == Seq::<char>::empty(),
        0 <= k < ls.len() && field_line(ls[k], "Version"@) && (forall|j: int|
            k < j < ls.len() ==> !field_line(#[trigger] ls[j], "Version"@)) ==> pacman_fold(ls).version == trim(
            field_value(ls[k])->Some_0,
        ),
        (forall|j: int| 0 <= j < ls.len() ==> !field_line(#[trigger] ls[j], "Description"@))
            ==> pacman_fold(ls).description == Seq::<char>::empty(),
        0 <= k < ls.len() && field_line(ls[k], "Description"@) && (forall|j: int|
            k < j < ls.len() ==> !field_line(#[trigger] ls[j], "Description"@)) ==> pacman_fold(ls).description
            == trim(field_value(ls[k])->Some_0),
    decreases ls.len(),
{
    reveal_strlit("Version");
    reveal_strlit("Description");
    if ls.len() > 0 {
        let pre = ls.drop_last();
        let line = ls.last();
        let last = ls.len() - 1;
        lemma_pacman_last_fields(pre, k);
        assert(ls[last] == line);
        if starts_with(line, "Description"@) {
            assert(line.subrange(0, 11)[0] == line[0]);
            assert(line[0] == 'D');
            assert(!starts_with(line, "Version"@)) by {
                if starts_with(line, "Version"@) {
                    assert(line.subrange(0, 7)[0] == line[0]);
                }
            }
        }
        assert forall|j: int| 0 <= j < pre.len() implies #[trigger] pre[j] == ls[j] by {}
    }
}

/// What `pacman -Si` output says of a package's version and description:
/// the trimmed value of the last `Version` line (`unknown` when there is
/// none, or it is empty) and of the last `Description` line (none when
/// there is none, or it is empty).
pub proof fn law_pacman_version_description(name: Seq<char>, output: Seq<char>, k: int)
    ensures
        spec_parse_pacman_info(name, output) matches Ok(p) ==> {
            let ls = lines(output);
            &&& (forall|j: int| 0 <= j < ls.len() ==> !field_line(#[trigger] ls[j], "Version"@)) ==> p.version
                == "unknown"@
            &&& 0 <= k < ls.len() && field_line(ls[k], "Version"@) && (forall|j: int|
                k < j < ls.len() ==> !field_line(#[trigger] ls[j], "Version"@)) && trim(field_value(ls[k])->Some_0).len()
                > 0 ==> p.version == trim(field_value(ls[k])->Some_0)
            &&& (forall|j: int| 0 <= j < ls.len() ==> !field_line(#[trigger] ls[j], "Description"@))
                ==> p.description is None
            &&& 0 <= k < ls.len() && field_line(ls[k], "Description"@) && (forall|j: int|
                k < j < ls.len() ==> !field_line(#[trigger] ls[j], "Description"@)) && trim(
                field_value(ls[k])->Some_0,
            ).len() > 0 ==> p.description == Some(trim(field_value(ls[k])->Some_0))
        },
{
    lemma_pacman_last_fields(lines(output), k);
}

/// What `pacman -Si` output says a package depends on: every non-empty
/// space-separated word of the value of its `Depends` lines, each once, and
/// nothing else, in the order they first appear; no dependency list at all
/// only when there is no such word.
pub proof fn law_pacman_dependencies(name: Seq<char>, output: Seq<char>)
    ensures
        spec_parse_pacman_info(name, output) matches Ok(p) ==> ((p.dependencies is None <==> !exists|w: Seq<char>|
            #[trigger] depends_word(lines(output), w)) && (p.dependencies matches Some(ds) ==> ds.no_duplicates()
            && forall|w: Seq<char>| #[trigger] ds.contains(w) <==> depends_word(lines(output), w))),
        spec_parse_pacman_info(name, output) matches Ok(p) ==> (p.dependencies matches Some(ds) ==> in_first_seen_order(
            lines(output),
            ds,
        )),
{
    lemma_pacman_order(lines(output));
    lemma_pacman_deps(lines(output));
    let ds = pacman_fold(lines(output)).deps;
    if ds.len() > 0 {
        assert(ds.contains(ds[0]));
    } else {
        assert forall|w: Seq<char>| !depends_word(lines(output), w) by {
            if depends_word(lines(output), w) {
                assert(ds.contains(w));
            }
        }
    }
}

/// `unknown` when empty.
pub open spec fn or_unknown(v: Seq<char>) -> Seq<char> {
    if v.len() == 0 {
        "unknown"@
    } else {
        v
    }
}

/// The package `pacman -Si <name>` describes.
pub open spec fn spec_parse_pacman_info(name: Seq<char>, output: Seq<char>) -> Result<PackageView, ErrorView> {
    let st = pacman_fold(lines(output));
    if trim(output).len() == 0 || contains(output, "not found"@) {
        Err(ErrorView::PackageNotFound(name))
    } else {
        Ok(
            system_package(
                name,
                or_unknown(st.version),
                opt_text(st.description),
                None,
                opt_list(st.deps),
                "pacman"@,
            ),
        )
    }
}

struct FieldsExec {
    version: Vec<char>,
    description: Vec<char>,
    author: Vec<char>,
    deps: Vec<String>,
}

impl FieldsExec {
    spec fn state(&self) -> InfoFields {
        InfoFields {
            version: self.version@,
            description: self.description@,
            author: self.author@,
            deps: self.deps.deep_view(),
        }
    }

    fn new() -> (r: FieldsExec)
        ensures
            r.state() == info_fields_start(),
    {
        let r = FieldsExec { version: Vec::new(), description: Vec::new(), author: Vec::new(), deps: Vec::new() };
        proof {
            assert(r.deps.deep_view() =~= Seq::<Seq<char>>::empty());
            assert(r.version@ =~= Seq::<char>::empty());
            assert(r.description@ =~= Seq::<char>::empty());
            assert(r.author@ =~= Seq::<char>::empty());
        }
        r
    }
}

fn pacman_step_exec(st: FieldsExec, line: &[char]) -> (r: FieldsExec)
    ensures
        r.state() == pacman_step(st.state(), line@),
{
    let mut st = st;
    if starts_with_str(line, "Version") {
        if let Some(v) = field_value_exec(line) {
            st.version = trimmed(v.as_slice());
        }
    } else if starts_with_str(line, "Description") {
        if let Some(v) = field_value_exec(line) {
            st.description = trimmed(v.as_slice());
        }
    } else if starts_with_str(line, "Depends") {
        if let Some(v) = field_value_exec(line) {
            let words = split_chars(v.as_slice(), ' ');
            add_words_exec(&mut st.deps, &words, false);
        }
    }
    st
}

fn or_unknown_exec(v: &Vec<char>) -> (r: String)
    ensures
        r@ == or_unknown(v@),
{
    if v.len() == 0 {
        String::from_str("unknown")
    } else {
        string_of(v.as_slice())
    }
}

/// Reads `pacman -Si <name>` output.
pub fn parse_pacman_info(name: &str, output: &str) -> (r: Result<Package, BallError>)
    ensures
        match r {
            Ok(p) => spec_parse_pacman_info(name@, output@) == Ok::<PackageView, ErrorView>(p@),
            Err(e) => spec_parse_pacman_info(name@, output@) == Err::<PackageView, ErrorView>(e@),
        },
{
    let v = chars_of(output);
    let t = trimmed(v.as_slice());
    if t.len() == 0 || contains_str(v.as_slice(), "not found") {
        return Err(BallError::PackageNotFound(String::from_str(name)));
    }
    let ls = lines_of(v.as_slice());
    let ghost lv = ls.deep_view();
    let mut st = FieldsExec::new();
    let mut i: usize = 0;
    proof {
        assert(lv.subrange(0, 0) =~= Seq::<Seq<char>>::empty());
    }
    while i < ls.len()
        invariant
            lv == ls.deep_view(),
            i <= lv.len(),
            st.state() == pacman_fold(lv.subrange(0, i as int)),
        decreases lv.len() - i,
    {
        let ghost prev = lv.subrange(0, i as int);
        let ghost next = lv.subrange(0, i + 1);
        proof {
            assert(next.drop_last() =~= prev);
            crate::text::lemma_chars_deep_view(&ls@[i as int]);
            assert(next.last() == ls@[i as int]@);
        }
        st = pacman_step_exec(st, ls[i].as_slice());
        i = i + 1;
    }
    proof {
        assert(lv.subrange(0, lv.len() as int) =~= lv);
    }
    let pkg = Package {
        name: String::from_str(name),
        version: or_unknown_exec(&st.version),
        description: opt_chars(&st.description),
        author: None,
        repository: None,
        architectures: None,
        dependencies: opt_names(st.deps),
        sha256: None,
        hash_algorithm: None,
        download_url: None,
        source: PackageSource::System { manager: String::from_str("pacman") },
        advisory: None,
        vulnerabilities: Vec::new(),
    };
    proof {
        assert(pkg.vulnerabilities.deep_view() =~= Seq::<Seq<char>>::empty());
    }
    Ok(pkg)
}


/// The characters dnf's version field keeps: alphanumerics, `.` and `-`.
pub open spec fn version_chars(s: Seq<char>) -> Seq<char>
    decreases s.len(),
{
    if s.len() == 0 {
        Seq::empty()
    } else {
        let c = s.last();
        if spec_is_alphanumeric(c) || c == '.' || c == '-' {
            version_chars(s.drop_last()).push(c)
        } else {
            version_chars(s.drop_last())
        }
    }
}

fn version_chars_exec(s: &[char]) -> (r: Vec<char>)
    ensures
        r@ == version_chars(s@),
{
    let mut r: Vec<char> = Vec::new();
    let mut i: usize = 0;
    proof {
        assert(s@.subrange(0, 0) =~= Seq::<char>::empty());
    }
    while i < s.len()
        invariant
            i <= s@.len(),
            r@ == version_chars(s@.subrange(0, i as int)),
        decreases s@.len() - i,
    {
        let ghost prev = s@.subrange(0, i as int);
        let ghost next = s@.subrange(0, i + 1);
        proof {
            assert(next.drop_last() =~= prev);
        }
        let c = s[i];
        if is_alphanumeric(c) || c == '.' || c == '-' {
            r.push(c);
        }
        i = i + 1;
    }
    proof {
        assert(s@.subrange(0, s@.len() as int) =~= s@);
    }
    r
}

/// A `Dependencies` line whose field can be cut after the 13th byte: the
/// line goes on past its 12 ASCII letters with a one-byte character.
pub open spec fn dnf_line_ok(line: Seq<char>) -> bool {
    starts_with(line, "Dependencies"@) ==> line.len() > 12 && (line[12] as int) < 128
}

/// One line of `dnf info`.
pub open spec fn dnf_step(st: InfoFields, line: Seq<char>) -> InfoFields {
    if starts_with(line, "Version"@) {
        match field_value(line) {
            Some(v) => InfoFields { version: version_chars(trim(v)), ..st },
            None => st,
        }
    } else if starts_with(line, "Packag"@) {
        match field_value(line) {
            Some(v) => InfoFields { author: trim(v), ..st },
            None => st,
        }
    } else if starts_with(line, "Summary"@) {
        match field_value(line) {
            Some(v) => InfoFields { description: trim(v), ..st },
            None => st,
        }
    } else if starts_with(line, "Dependencies"@) {
        InfoFields { deps: add_words(st.deps, split_on(trim(line.subrange(13, line.len() as int)), ' '), true), ..st }
    } else {
        st
    }
}

pub open spec fn dnf_fold(ls: Seq<Seq<char>>) -> InfoFields
    decreases ls.len(),
{
    if ls.len() == 0 {
        info_fields_start()
    } else {
        dnf_step(dnf_fold(ls.drop_last()), ls.last())
    }
}

/// The package `dnf info <name>` describes.
pub open spec fn spec_parse_dnf_info(name: Seq<char>, output: Seq<char>) -> Result<PackageView, ErrorView> {
    let st = dnf_fold(lines(output));
    if trim(output).len() == 0 || contains(output, "No matches found"@) {
        Err(ErrorView::PackageNotFound(name))
    } else {
        Ok(
            system_package(
                name,
                or_unknown(st.version),
                opt_text(st.description),
                opt_text(st.author),
                opt_list(st.deps),
                "dnf"@,
            ),
        )
    }
}

fn dnf_step_exec(st: FieldsExec, line: &[char]) -> (r: FieldsExec)
    requires
        dnf_line_ok(line@),
    ensures
        r.state() == dnf_step(st.state(), line@),
{
    let mut st = st;
    if starts_with_str(line, "Version") {
        if let Some(v) = field_value_exec(line) {
            let t = trimmed(v.as_slice());
            st.version = version_chars_exec(t.as_slice());
        }
    } else if starts_with_str(line, "Packag") {
        if let Some(v) = field_value_exec(line) {
            st.author = trimmed(v.as_slice());
        }
    } else if starts_with_str(line, "Summary") {
        if let Some(v) = field_value_exec(line) {
            st.description = trimmed(v.as_slice());
        }
    } else if starts_with_str(line, "Dependencies") {
        let rest = sub_vec(line, 13, line.len());
        let t = trimmed(rest.as_slice());
        let words = split_chars(t.as_slice(), ' ');
        add_words_exec(&mut st.deps, &words, true);
    }
    st
}

/// Reads `dnf info <name>` output.
pub fn parse_dnf_info(name: &str, output: &str) -> (r: Result<Package, BallError>)
    requires
        forall|i: int| 0 <= i < lines(output@).len() ==> dnf_line_ok(#[trigger] lines(output@)[i]),
    ensures
        match r {
            Ok(p) => spec_parse_dnf_info(name@, output@) == Ok::<PackageView, ErrorView>(p@),
            Err(e) => spec_parse_dnf_info(name@, output@) == Err::<PackageView, ErrorView>(e@),
        },
{
    let v = chars_of(output);
    let t = trimmed(v.as_slice());
    if t.len() == 0 || contains_str(v.as_slice(), "No matches found") {
        return Err(BallError::PackageNotFound(String::from_str(name)));
    }
    let ls = lines_of(v.as_slice());
    let ghost lv = ls.deep_view();
    let mut st = FieldsExec::new();
    let mut i: usize = 0;
    proof {
        assert(lv.subrange(0, 0) =~= Seq::<Seq<char>>::empty());
    }
    while i < ls.len()
        invariant
            lv == ls.deep_view(),
            lv == lines(output@),
            forall|k: int| 0 <= k < lv.len() ==> dnf_line_ok(#[trigger] lv[k]),
            i <= lv.len(),
            st.state() == dnf_fold(lv.subrange(0, i as int)),
        decreases lv.len() - i,
    {
        let ghost prev = lv.subrange(0, i as int);
        let ghost next = lv.subrange(0, i + 1);
        proof {
            assert(next.drop_last() =~= prev);
            crate::text::lemma_chars_deep_view(&ls@[i as int]);
            assert(next.last() == ls@[i as int]@);
            assert(dnf_line_ok(lv[i as int]));
        }
        st = dnf_step_exec(st, ls[i].as_slice());
        i = i + 1;
    }
    proof {
        assert(lv.subrange(0, lv.len() as int) =~= lv);
    }
    let pkg = Package {
        name: String::from_str(name),
        version: or_unknown_exec(&st.version),
        description: opt_chars(&st.description),
        author: opt_chars(&st.author),
        repository: None,
        architectures: None,
        dependencies: opt_names(st.deps),
        sha256: None,
        hash_algorithm: None,
        download_url: None,
        source: PackageSource::System { manager: String::from_str("dnf") },
        advisory: None,
        vulnerabilities: Vec::new(),
    };
    proof {
        assert(pkg.vulnerabilities.deep_view() =~= Seq::<Seq<char>>::empty());
    }
    Ok(pkg)
}

// ---------------------------------------------------------------------------
// search output
// ---------------------------------------------------------------------------

/// A search hit: only a name, a version and a description are known.
pub open spec fn search_package(
    name: Seq<char>,
    version: Seq<char>,
    description: Option<Seq<char>>,
    manager: Seq<char>,
) -> PackageView {
    system_package(name, version, description, None, None, manager)
}

/// A line of `apt-cache search`: `name - description`.
pub open spec fn apt_search_line(line: Seq<char>) -> Option<PackageView> {
    match split_once(line, " - "@) {
        None => None,
        Some((n, d)) => if trim(n).len() == 0 {
            None
        } else {
            Some(search_package(trim(n), "unknown"@, Some(trim(d)), "apt"@))
        },
    }
}

/// A line of `dnf search`: `name : summary`; headers, rules and blank lines
/// are skipped.
pub open spec fn dnf_search_line(line: Seq<char>) -> Option<PackageView> {
    if starts_with(line, "Name"@) || starts_with(line, "="@) || line.len() == 0 {
        None
    } else {
        match split_once(line, " : "@) {
            None => None,
            Some((n, s)) => if trim(n).len() == 0 {
                None
            } else {
                Some(search_package(trim(n), Seq::empty(), opt_text(trim(s)), "apt"@))
            },
        }
    }
}

/// A line of `pacman -Ss`: `repo/name version [rest]` (the description lines
/// under it are indented and skipped). What follows the second space, when
/// there is one, is kept as both version and description.
pub open spec fn pacman_search_line(line: Seq<char>) -> Option<PackageView> {
    if starts_with(line, " "@) || !contains(line, "/"@) {
        None
    } else {
        match split_once(line, " "@) {
            None => None,
            Some((head, rest)) => {
                let repo = trim(head);
                let entries = split_on(head, '/');
                if starts_with(repo, "#"@) || repo == "::"@ || entries.len() != 2 || trim(entries[1]).len() == 0 {
                    None
                } else {
                    let third = match split_once(rest, " "@) {
                        Some((_, t)) => Some(trim(t)),
                        None => None,
                    };
                    Some(
                        search_package(
                            trim(entries[1]),
                            match third {
                                Some(t) => t,
                                None => Seq::empty(),
                            },
                            third,
                            "dnf"@,
                        ),
                    )
                }
            },
        }
    }
}

pub open spec fn search_line_of(m: SystemManager, line: Seq<char>) -> Option<PackageView> {
    match m {
        SystemManager::Apt => apt_search_line(line),
        SystemManager::Dnf => dnf_search_line(line),
        SystemManager::Pacman => pacman_search_line(line),
    }
}

/// The hits among `ls`, in order.
pub open spec fn search_hits(m: SystemManager, ls: Seq<Seq<char>>) -> Seq<PackageView>
    decreases ls.len(),
{
    if ls.len() == 0 {
        Seq::empty()
    } else {
        match search_line_of(m, ls.last()) {
            Some(p) => search_hits(m, ls.drop_last()).push(p),
            None => search_hits(m, ls.drop_last()),
        }
    }
}

/// How many lines of search output are read: apt's first 20, all of the
/// others'.
pub open spec fn search_window(m: SystemManager, ls: Seq<Seq<char>>) -> Seq<Seq<char>> {
    if m == SystemManager::Apt && ls.len() > 20 {
        ls.take(20)
    } else {
        ls
    }
}

/// The packages a search by manager `m` printed in `output`.
pub open spec fn spec_parse_search(m: SystemManager, output: Seq<char>) -> Seq<PackageView> {
    search_hits(m, search_window(m, lines(output)))
}

fn search_package_exec(name: Vec<char>, version: Vec<char>, description: Option<Vec<char>>, manager: &str) -> (r:
    Package)
    ensures
        r@ == search_package(
            name@,
            version@,
            match description {
                Some(d) => Some(d@),
                None => None,
            },
            manager@,
        ),
{
    let pkg = Package {
        name: string_of(name.as_slice()),
        version: string_of(version.as_slice()),
        description: match description {
            Some(d) => Some(string_of(d.as_slice())),
            None => None,
        },
        author: None,
        repository: None,
        architectures: None,
        dependencies: None,
        sha256: None,
        hash_algorithm: None,
        download_url: None,
        source: PackageSource::System { manager: String::from_str(manager) },
        advisory: None,
        vulnerabilities: Vec::new(),
    };
    proof {
        assert(pkg.vulnerabilities.deep_view() =~= Seq::<Seq<char>>::empty());
    }
    pkg
}

fn apt_search_line_exec(line: &[char]) -> (r: Option<Package>)
    ensures
        match r {
            Some(p) => apt_search_line(line@) == Some(p@),
            None => apt_search_line(line@) is None,
        },
{
    match split_once_str(line, " - ") {
        None => None,
        Some((n, d)) => {
            let name = trimmed(n.as_slice());
            if name.len() == 0 {
                None
            } else {
                let desc = trimmed(d.as_slice());
                Some(search_package_exec(name, chars_of("unknown"), Some(desc), "apt"))
            }
        },
    }
}

fn dnf_search_line_exec(line: &[char]) -> (r: Option<Package>)
    ensures
        match r {
            Some(p) => dnf_search_line(line@) == Some(p@),
            None => dnf_search_line(line@) is None,
        },
{
    if starts_with_str(line, "Name") || starts_with_str(line, "=") || line.len() == 0 {
        return None;
    }
    match split_once_str(line, " : ") {
        None => None,
        Some((n, s)) => {
            let name = trimmed(n.as_slice());
            if name.len() == 0 {
                None
            } else {
                let summary = trimmed(s.as_slice());
                let description = if summary.len() == 0 {
                    None
                } else {
                    Some(summary)
                };
                Some(search_package_exec(name, Vec::new(), description, "apt"))
            }
        },
    }
}

fn pacman_search_line_exec(line: &[char]) -> (r: Option<Package>)
    ensures
        match r {
            Some(p) => pacman_search_line(line@) == Some(p@),
            None => pacman_search_line(line@) is None,
        },
{
    if starts_with_str(line, " ") || !contains_str(line, "/") {
        return None;
    }
    let (head, rest) = match split_once_str(line, " ") {
        Some(pair) => pair,
        None => {
            return None;
        },
    };
    let repo = trimmed(head.as_slice());
    let entries = split_chars(head.as_slice(), '/');
    if starts_with_str(repo.as_slice(), "#") || eq_str(repo.as_slice(), "::") || entries.len() != 2 {
        return None;
    }
    proof {
        crate::text::lemma_chars_deep_view(&entries@[1]);
    }
    let name = trimmed(entries[1].as_slice());
    if name.len() == 0 {
        return None;
    }
    let third: Option<Vec<char>> = match split_once_str(rest.as_slice(), " ") {
        Some((_, t)) => Some(trimmed(t.as_slice())),
        None => None,
    };
    let version = match &third {
        Some(t) => t.clone(),
        None => Vec::new(),
    };
    Some(search_package_exec(name, version, third, "dnf"))
}

fn search_line_exec(m: SystemManager, line: &[char]) -> (r: Option<Package>)
    ensures
        match r {
            Some(p) => search_line_of(m, line@) == Some(p@),
            None => search_line_of(m, line@) is None,
        },
{
    match m {
        SystemManager::Apt => apt_search_line_exec(line),
        SystemManager::Dnf => dnf_search_line_exec(line),
        SystemManager::Pacman => pacman_search_line_exec(line),
    }
}

/// Reads what a search by manager `m` printed.
pub fn parse_search_output(m: SystemManager, output: &str) -> (r: Vec<Package>)
    ensures
        packages_view(r@) == spec_parse_search(m, output@),
{
    let v = chars_of(output);
    let ls = lines_of(v.as_slice());
    let ghost lv = ls.deep_view();
    let ghost win = search_window(m, lv);
    let n: usize = if m == SystemManager::Apt && ls.len() > 20 {
        20
    } else {
        ls.len()
    };
    let mut results: Vec<Package> = Vec::new();
    let mut i: usize = 0;
    proof {
        assert(win.len() == n);
        assert(win.subrange(0, 0) =~= Seq::<Seq<char>>::empty());
        assert(packages_view(results@) =~= Seq::<PackageView>::empty());
    }
    while i < n
        invariant
            lv == ls.deep_view(),
            win == search_window(m, lv),
            win.len() == n,
            n <= lv.len(),
            forall|k: int| 0 <= k < n ==> #[trigger] win[k] == lv[k],
            i <= n,
            packages_view(results@) == search_hits(m, win.subrange(0, i as int)),
        decreases n - i,
    {
        let ghost prev = win.subrange(0, i as int);
        let ghost next = win.subrange(0, i + 1);
        let ghost rv = packages_view(results@);
        proof {
            assert(next.drop_last() =~= prev);
            crate::text::lemma_chars_deep_view(&ls@[i as int]);
            assert(win[i as int] == lv[i as int]);
            assert(next.last() == ls@[i as int]@);
        }
        match search_line_exec(m, ls[i].as_slice()) {
            Some(p) => {
                results.push(p);
                proof {
                    assert(packages_view(results@) =~= rv.push(results@.last()@));
                }
            },
            None => {},
        }
        i = i + 1;
    }
    proof {
        assert(win.subrange(0, n as int) =~= win);
    }
    results
}

} // verus!
