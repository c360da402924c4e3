//! crates.io through the `cargo` command: what `cargo info` and
//! `cargo search` print, read into packages.

use vstd::prelude::*;
use vstd::string::*;

use crate::error::{BallError, ErrorView};
use crate::package::{Package, PackageSource, PackageView, SourceView};
use crate::text::{
    chars_of, find_seq, find_str, first_word, first_word_of, lines, lines_of, split_once, split_once_str,
    starts_with, starts_with_str, string_of, sub_vec, trim, trimmed, trimmed_string,
};

verus! {

/// Whether `cargo` is installed, as probed once.
pub struct CargoRegistry {
    available: bool,
}

impl View for CargoRegistry {
    type V = bool;

    closed spec fn view(&self) -> bool {
        self.available
    }
}

impl CargoRegistry {
    /// A registry from a known probe result.
    pub fn detect(available: bool) -> (r: CargoRegistry)
        ensures
            r@ == available,
    {
        CargoRegistry { available }
    }

    /// The command behind this source, when cargo is installed.
    pub fn manager_name(&self) -> (r: Option<&'static str>)
        ensures
            match r {
                Some(m) => self@ && m@ == "cargo"@,
                None => !self@,
            },
    {
        if self.available {
            Some("cargo")
        } else {
            None
        }
    }

    /// Fails unless cargo is installed.
    pub fn ensure_available(&self) -> (r: Result<(), BallError>)
        ensures
            r is Ok <==> self@,
            r matches Err(e) ==> e@ == ErrorView::PackageManagerError("cargo is not installed on this host"@),
    {
        if self.available {
            Ok(())
        } else {
            Err(BallError::PackageManagerError(String::from_str("cargo is not installed on this host")))
        }
    }
}

/// The keys `cargo info` prints as `key: value` after the description.
pub open spec fn is_info_key(k: Seq<char>) -> bool {
    k == "version"@ || k == "license"@ || k == "rust-version"@ || k == "documentation"@ || k == "homepage"@
        || k == "repository"@
}

/// A `key: value` line with a known key; the value trimmed.
pub open spec fn spec_info_field(line: Seq<char>) -> Option<(Seq<char>, Seq<char>)> {
    match split_once(line, ": "@) {
        Some((k, v)) => if is_info_key(k) {
            Some((k, trim(v)))
        } else {
            None
        },
        None => None,
    }
}

fn eq_lit(v: &[char], lit: &str) -> (r: bool)
    ensures
        r == (v@ == lit@),
{
    crate::text::eq_str(v, lit)
}

pub fn info_field(line: &str) -> (r: Option<(String, String)>)
    ensures
        match r {
            Some((k, v)) => spec_info_field(line@) == Some((k@, v@)),
            None => spec_info_field(line@) is None,
        },
{
    let v = chars_of(line);
    match split_once_str(v.as_slice(), ": ") {
        Some((k, val)) => {
            let known = eq_lit(k.as_slice(), "version") || eq_lit(k.as_slice(), "license") || eq_lit(
                k.as_slice(),
                "rust-version",
            ) || eq_lit(k.as_slice(), "documentation") || eq_lit(k.as_slice(), "homepage") || eq_lit(
                k.as_slice(),
                "repository",
            );
            if known {
                Some((string_of(k.as_slice()), trimmed_string(val.as_slice())))
            } else {
                None
            }
        },
        None => None,
    }
}

/// Number of trailing `)` characters.
pub open spec fn paren_suffix_len(s: Seq<char>) -> nat
    decreases s.len(),
{
    if s.len() > 0 && s.last() == ')' {
        1 + paren_suffix_len(s.drop_last())
    } else {
        0
    }
}

/// The version `cargo install` would land on: the `latest` one when `cargo
/// info` names both (`1.0.228 (latest 1.0.229)`), else the first word.
pub open spec fn spec_parse_info_version(value: Seq<char>) -> Seq<char> {
    match split_once(value, "(latest "@) {
        Some((_, rest)) => trim(rest.subrange(0, rest.len() - paren_suffix_len(rest))),
        None => first_word(value),
    }
}

proof fn lemma_paren_suffix_step(s: Seq<char>, j: int)
    requires
        0 < j <= s.len(),
        s[j - 1] == ')',
        paren_suffix_len(s) == (s.len() - j) + paren_suffix_len(s.subrange(0, j)),
    ensures
        paren_suffix_len(s) == (s.len() - (j - 1)) + paren_suffix_len(s.subrange(0, j - 1)),
{
    let t = s.subrange(0, j);
    assert(t.drop_last() =~= s.subrange(0, j - 1));
}

pub fn parse_info_version(value: &str) -> (r: String)
    ensures
        r@ == spec_parse_info_version(value@),
{
    let v = chars_of(value);
    match split_once_str(v.as_slice(), "(latest ") {
        Some((_, rest)) => {
            let mut j = rest.len();
            proof {
                assert(rest@.subrange(0, j as int) =~= rest@);
            }
            while j > 0 && rest[j - 1] == ')'
                invariant
                    j <= rest@.len(),
                    paren_suffix_len(rest@) == (rest@.len() - j) + paren_suffix_len(rest@.subrange(0, j as int)),
                decreases j,
            {
                proof {
                    lemma_paren_suffix_step(rest@, j as int);
                }
                j = j - 1;
            }
            proof {
                if j > 0 {
                    assert(rest@.subrange(0, j as int).last() == rest@[j - 1]);
                }
                assert(paren_suffix_len(rest@.subrange(0, j as int)) == 0);
            }
            let cut = sub_vec(rest.as_slice(), 0, j);
            trimmed_string(cut.as_slice())
        },
        None => {
            let w = first_word_of(v.as_slice());
            string_of(w.as_slice())
        },
    }
}

/// What the reading of `cargo info` has gathered so far.
pub struct InfoState {
    pub crate_name: Seq<char>,
    pub version: Seq<char>,
    pub description: Seq<char>,
    pub repository: Seq<char>,
    pub in_header: bool,
    pub stopped: bool,
}

pub open spec fn info_start() -> InfoState {
    InfoState {
        crate_name: Seq::empty(),
        version: Seq::empty(),
        description: Seq::empty(),
        repository: Seq::empty(),
        in_header: true,
        stopped: false,
    }
}

/// One line of `cargo info`: the `features:`/`note:` sections end the
/// reading; a known `key: value` line ends the header; in the header the
/// first line names the crate and the rest are the description.
pub open spec fn info_step(st: InfoState, line: Seq<char>) -> InfoState {
    if st.stopped {
        st
    } else if starts_with(line, "features:"@) || starts_with(line, "note:"@) {
        InfoState { stopped: true, ..st }
    } else {
        match spec_info_field(line) {
            Some((k, v)) => InfoState {
                in_header: false,
                version: if k == "version"@ {
                    spec_parse_info_version(v)
                } else {
                    st.version
                },
                repository: if k == "repository"@ {
                    v
                } else {
                    st.repository
                },
                ..st
            },
            None => if !st.in_header || trim(line).len() == 0 {
                st
            } else if st.crate_name.len() == 0 {
                InfoState { crate_name: first_word(line), ..st }
            } else {
                InfoState {
                    description: if st.description.len() == 0 {
                        trim(line)
                    } else {
                        st.description + " "@ + trim(line)
                    },
                    ..st
                }
            },
        }
    }
}

pub open spec fn info_fold(ls: Seq<Seq<char>>) -> InfoState
    decreases ls.len(),
{
    if ls.len() == 0 {
        info_start()
    } else {
        info_step(info_fold(ls.drop_last()), ls.last())
    }
}

pub open spec fn opt_text(s: Seq<char>) -> Option<Seq<char>> {
    if s.len() == 0 {
        None
    } else {
        Some(s)
    }
}

/// The package `cargo info <name>` describes.
pub open spec fn spec_parse_cargo_info(name: Seq<char>, output: Seq<char>) -> Result<PackageView, ErrorView> {
    let st = info_fold(lines(output));
    if trim(output).len() == 0 || st.version.len() == 0 {
        Err(ErrorView::PackageNotFound(name))
    } else {
        let crate_name = if st.crate_name.len() == 0 {
            name
        } else {
            st.crate_name
        };
        Ok(
            PackageView {
                name: crate_name,
                version: st.version,
                description: opt_text(st.description),
                author: None,
                repository: opt_text(st.repository),
                architectures: None,
                dependencies: None,
                sha256: None,
                hash_algorithm: None,
                download_url: None,
                source: SourceView::Cargo { crate_name },
                advisory: None,
                vulnerabilities: Seq::empty(),
            },
        )
    }
}

fn opt_string(s: String) -> (r: Option<String>)
    ensures
        r.deep_view() == opt_text(s@),
{
    if s.unicode_len() == 0 {
        None
    } else {
        Some(s)
    }
}

pub fn parse_cargo_info(name: &str, output: &str) -> (r: Result<Package, BallError>)
    ensures
        match r {
            Ok(p) => spec_parse_cargo_info(name@, output@) == Ok::<PackageView, ErrorView>(p@),
            Err(e) => spec_parse_cargo_info(name@, output@) == Err::<PackageView, ErrorView>(e@),
        },
{
    let v = chars_of(output);
    let t = trimmed(v.as_slice());
    if t.len() == 0 {
        return Err(BallError::PackageNotFound(String::from_str(name)));
    }
    let ls = lines_of(v.as_slice());
    let ghost lv = ls.deep_view();
    let mut crate_name: Vec<char> = Vec::new();
    let mut version: Vec<char> = Vec::new();
    let mut description: Vec<char> = Vec::new();
    let mut repository: Vec<char> = Vec::new();
    let mut in_header = true;
    let mut stopped = false;
    let mut i: usize = 0;
    proof {
        assert(lv.subrange(0, 0) =~= Seq::<Seq<char>>::empty());
        assert(info_fold(lv.subrange(0, 0)) == info_start());
        assert(crate_name@ =~= Seq::<char>::empty());
    }
    while i < ls.len()
        invariant
            lv == ls.deep_view(),
            lv == lines(output@),
            i <= lv.len(),
            ({
                let st = info_fold(lv.subrange(0, i as int));
                &&& st.crate_name == crate_name@
                &&& st.version == version@
                &&& st.description == description@
                &&& st.repository == repository@
                &&& st.in_header == in_header
                &&& st.stopped == stopped
            }),
        decreases lv.len() - i,
    {
        let ghost prev = lv.subrange(0, i as int);
        let ghost next = lv.subrange(0, i + 1);
        proof {
            assert(next.drop_last() =~= prev);
            crate::text::lemma_chars_deep_view(&ls@[i as int]);
            assert(next.last() == ls@[i as int]@);
        }
        let line = &ls[i];
        if stopped {
        } else if starts_with_str(line.as_slice(), "features:") || starts_with_str(line.as_slice(), "note:") {
            stopped = true;
        } else {
            let line_s = string_of(line.as_slice());
            match info_field(line_s.as_str()) {
                Some((k, val)) => {
                    in_header = false;
                    let kv = chars_of(k.as_str());
                    if eq_lit(kv.as_slice(), "version") {
                        version = chars_of(parse_info_version(val.as_str()).as_str());
                    }
                    if eq_lit(kv.as_slice(), "repository") {
                        repository = chars_of(val.as_str());
                    }
                },
                None => {
                    let tl = trimmed(line.as_slice());
                    if !in_header || tl.len() == 0 {
                    } else if crate_name.len() == 0 {
                        crate_name = first_word_of(line.as_slice());
                    } else {
                        if description.len() > 0 {
                            description.push(' ');
                        }
                        let mut k: usize = 0;
                        let ghost d0 = description@;
                        while k < tl.len()
                            invariant
                                k <= tl@.len(),
                                description@ == d0 + tl@.subrange(0, k as int),
                            decreases tl@.len() - k,
                        {
                            description.push(tl[k]);
                            k = k + 1;
                            proof {
                                assert(description@ =~= d0 + tl@.subrange(0, k as int));
                            }
                        }
                        proof {
                            assert(tl@.subrange(0, tl@.len() as int) =~= tl@);
                            reveal_strlit(" ");
                        }
                    }
                },
            }
        }
        i = i + 1;
    }
    proof {
        assert(lv.subrange(0, lv.len() as int) =~= lv);
    }
    if version.len() == 0 {
        return Err(BallError::PackageNotFound(String::from_str(name)));
    }
    let crate_s = if crate_name.len() == 0 {
        String::from_str(name)
    } else {
        string_of(crate_name.as_slice())
    };
    let pkg = Package {
        name: crate_s.clone(),
        version: string_of(version.as_slice()),
        description: opt_string(string_of(description.as_slice())),
        author: None,
        repository: opt_string(string_of(repository.as_slice())),
        architectures: None,
        dependencies: None,
        sha256: None,
        hash_algorithm: None,
        download_url: None,
        source: PackageSource::Cargo { crate_name: crate_s },
        advisory: None,
        vulnerabilities: Vec::new(),
    };
    proof {
        assert(pkg.vulnerabilities.deep_view() =~= Seq::<Seq<char>>::empty());
    }
    Ok(pkg)
}


/// A `cargo search` line `name = "version"    # description`.
pub open spec fn search_line(line: Seq<char>) -> Option<PackageView> {
    match split_once(line, " = "@) {
        None => None,
        Some((n, rest)) => {
            let name = trim(n);
            let r = trim(rest);
            if name.len() == 0 || !(r.len() > 0 && r[0] == '"') {
                None
            } else {
                match split_once(r.subrange(1, r.len() as int), "\""@) {
                    None => None,
                    Some((version, _)) => Some(
                        PackageView {
                            name,
                            version,
                            description: match split_once(rest, "#"@) {
                                Some((_, d)) => opt_text(trim(d)),
                                None => None,
                            },
                            author: None,
                            repository: None,
                            architectures: None,
                            dependencies: None,
                            sha256: None,
                            hash_algorithm: None,
                            download_url: None,
                            source: SourceView::Cargo { crate_name: name },
                            advisory: None,
                            vulnerabilities: Seq::empty(),
                        },
                    ),
                }
            }
        },
    }
}

/// The packages of every line that reads as a search result, in order.
pub open spec fn search_results(ls: Seq<Seq<char>>) -> Seq<PackageView>
    decreases ls.len(),
{
    if ls.len() == 0 {
        Seq::empty()
    } else {
        match search_line(ls.last()) {
            Some(p) => search_results(ls.drop_last()).push(p),
            None => search_results(ls.drop_last()),
        }
    }
}

pub open spec fn packages_view(ps: Seq<Package>) -> Seq<PackageView> {
    Seq::new(ps.len(), |i: int| ps[i]@)
}

fn search_line_exec(line: &[char]) -> (r: Option<Package>)
    ensures
        match r {
            Some(p) => search_line(line@) == Some(p@),
            None => search_line(line@) is None,
        },
{
    let (n, rest) = match split_once_str(line, " = ") {
        Some(pair) => pair,
        None => {
            return None;
        },
    };
    let name = trimmed(n.as_slice());
    let r = trimmed(rest.as_slice());
    if name.len() == 0 || !(r.len() > 0 && r[0] == '"') {
        return None;
    }
    let after = sub_vec(r.as_slice(), 1, r.len());
    let version = match split_once_str(after.as_slice(), "\"") {
        Some((v, _)) => v,
        None => {
            return None;
        },
    };
    let description = match split_once_str(rest.as_slice(), "#") {
        Some((_, d)) => {
            let td = trimmed(d.as_slice());
            opt_string(string_of(td.as_slice()))
        },
        None => None,
    };
    let name_s = string_of(name.as_slice());
    let pkg = Package {
        name: name_s.clone(),
        version: string_of(version.as_slice()),
        description,
        author: None,
        repository: None,
        architectures: None,
        dependencies: None,
        sha256: None,
        hash_algorithm: None,
        download_url: None,
        source: PackageSource::Cargo { crate_name: name_s },
        advisory: None,
        vulnerabilities: Vec::new(),
    };
    proof {
        assert(pkg.vulnerabilities.deep_view() =~= Seq::<Seq<char>>::empty());
    }
    Some(pkg)
}

/// Reads `cargo search` output; lines that are not results (totals, notes)
/// are skipped.
pub fn parse_cargo_search_output(output: &str) -> (r: Vec<Package>)
    ensures
        packages_view(r@) == search_results(lines(output@)),
{
    let v = chars_of(output);
    let ls = lines_of(v.as_slice());
    let ghost lv = ls.deep_view();
    let mut results: Vec<Package> = Vec::new();
    let mut i: usize = 0;
    proof {
        assert(lv.subrange(0, 0) =~= Seq::<Seq<char>>::empty());
        assert(packages_view(results@) =~= Seq::<PackageView>::empty());
    }
    while i < ls.len()
        invariant
            lv == ls.deep_view(),
            i <= lv.len(),
            packages_view(results@) == search_results(lv.subrange(0, i as int)),
        decreases lv.len() - i,
    {
        let ghost prev = lv.subrange(0, i as int);
        let ghost next = lv.subrange(0, i + 1);
        let ghost rv = packages_view(results@);
        proof {
            assert(next.drop_last() =~= prev);
            crate::text::lemma_chars_deep_view(&ls@[i as int]);
            assert(next.last() == ls@[i as int]@);
        }
        match search_line_exec(ls[i].as_slice()) {
            Some(p) => {
                results.push(p);
                proof {
                    assert(packages_view(results@) =~= rv.push(results@.last()@));
                }
            },
            None => {},
        }
        i = i + 1;
    }
    proof {
        assert(lv.subrange(0, lv.len() as int) =~= lv);
    }
    results
}

/// The search result named exactly `name`, when `cargo info` was not
/// available.
pub fn package_from_search(name: &str, output: &str) -> (r: Result<Package, BallError>)
    ensures
        match r {
            Ok(p) => exists|i: int|
                0 <= i < search_results(lines(output@)).len() && search_results(lines(output@))[i] == p@ && p@.name
                    == name@ && forall|j: int| 0 <= j < i ==> #[trigger] search_results(lines(output@))[j].name != name@,
            Err(e) => e@ == ErrorView::PackageNotFound(name@) && forall|j: int|
                0 <= j < search_results(lines(output@)).len() ==> #[trigger] search_results(lines(output@))[j].name
                    != name@,
        },
{
    let results = parse_cargo_search_output(output);
    let ghost rv = packages_view(results@);
    let target = String::from_str(name);
    let mut i: usize = 0;
    while i < results.len()
        invariant
            rv == packages_view(results@),
            rv == search_results(lines(output@)),
            target@ == name@,
            i <= results@.len(),
            forall|j: int| 0 <= j < i ==> #[trigger] rv[j].name != name@,
        decreases results@.len() - i,
    {
        if results[i].name == target {
            let p = results[i].copy();
            proof {
                assert(rv[i as int] == p@);
            }
            return Ok(p);
        }
        i = i + 1;
    }
    Err(BallError::PackageNotFound(target))
}

} // verus!
