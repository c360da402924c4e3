//! Dependency declarations, distribution version strings, and the resolver
//! that walks a package's dependencies through a registry.

use vstd::prelude::*;

use crate::error::{BallError, ErrorView};
use crate::package::{Package, PackageView, SourceView};
use crate::text::{
    chars_of, find_char, first_index_of, is_ws, lemma_split_on_join, lemma_split_on_none, lemma_trim_of_trimmed,
    split_chars, split_on, string_of, sub_vec, trim, trimmed, trimmed_string,
};
use crate::versions::{
    canonical_numeral, is_digit, opt_view, parse_requirement, parse_semver, plain_triple, requirement_display,
    requirement_matches, spec_req_display, spec_req_matches, spec_req_parse, spec_semver_parse, triple_result,
    version_text, Requirement, SemVer, SemVerView,
};

verus! {

/// One dependency of a package: the name, the version requirement, and
/// whether it is optional (`?` in front).
#[derive(Debug)]
pub struct Dependency {
    pub name: String,
    pub constraint: Requirement,
    pub optional: bool,
}

pub struct DependencyView {
    pub name: Seq<char>,
    pub constraint: Seq<char>,
    pub optional: bool,
}

impl View for Dependency {
    type V = DependencyView;

    open spec fn view(&self) -> DependencyView {
        DependencyView { name: self.name@, constraint: self.constraint@, optional: self.optional }
    }
}

/// The name, requirement text and optional flag a dependency line declares:
/// the line is trimmed, a leading `?` marks it optional, and the rest splits
/// at its first space into the name and the requirement (`*` when absent).
pub open spec fn dependency_fields(line: Seq<char>) -> (Seq<char>, Seq<char>, bool) {
    let t = trim(line);
    let optional = t.len() > 0 && t[0] == '?';
    let cleaned = if optional {
        trim(t.subrange(1, t.len() as int))
    } else {
        t
    };
    match first_index_of(cleaned, ' ') {
        Some(i) => (trim(cleaned.subrange(0, i)), trim(cleaned.subrange(i + 1, cleaned.len() as int)), optional),
        None => (trim(cleaned), "*"@, optional),
    }
}

pub open spec fn malformed_message(constraint: Seq<char>, name: Seq<char>, reason: Seq<char>) -> Seq<char> {
    "malformed version constraint '"@ + constraint + "' for '"@ + name + "': "@ + reason
}

/// The dependency a line declares, or the error its requirement text gives.
pub open spec fn spec_parse_dependency_line(line: Seq<char>) -> Result<DependencyView, ErrorView> {
    let (name, c, optional) = dependency_fields(line);
    match spec_req_parse(c) {
        Ok(_) => Ok(DependencyView { name, constraint: c, optional }),
        Err(reason) => Err(ErrorView::VersionConflict(malformed_message(c, name, reason))),
    }
}

/// A line `NAME REQ` declares the required dependency `NAME` under the whole
/// requirement text `REQ`: everything after the first space, further spaces
/// and commas included (`foo >=1.0, <2.0` keeps its upper bound). The line is
/// refused exactly when `REQ` is not a valid requirement.
pub proof fn law_requirement_is_whole_rest(n: Seq<char>, req: Seq<char>)
    requires
        n.len() > 0,
        n[0] != '?',
        forall|j: int| 0 <= j < n.len() ==> !is_ws(#[trigger] n[j]),
        req.len() > 0,
        !is_ws(req[0]),
        !is_ws(req.last()),
    ensures
        spec_parse_dependency_line(n + seq![' '] + req) is Ok <==> spec_req_parse(req) is Ok,
        spec_parse_dependency_line(n + seq![' '] + req) matches Ok(d) ==> d.name == n && d.constraint == req
            && !d.optional,
{
    let line = n + seq![' '] + req;
    let k = n.len() as int;
    assert(line[0] == n[0]);
    assert(line.last() == req.last());
    lemma_trim_of_trimmed(line);
    assert(trim(line) == line);
    assert(line[k] == ' ');
    assert(is_ws(' '));
    assert(forall|j: int| 0 <= j < k ==> line[j] == n[j]);
    assert(first_index_of(line, ' ') == Some(k));
    assert(line.subrange(0, k) =~= n);
    assert(line.subrange(k + 1, line.len() as int) =~= req);
    lemma_trim_of_trimmed(n);
    lemma_trim_of_trimmed(req);
}

/// A `?` in front marks the dependency optional and changes nothing else:
/// `?NAME REQ` declares `NAME` under the whole requirement text `REQ`.
pub proof fn law_optional_marker(n: Seq<char>, req: Seq<char>)
    requires
        n.len() > 0,
        n[0] != '?',
        forall|j: int| 0 <= j < n.len() ==> !is_ws(#[trigger] n[j]),
        req.len() > 0,
        !is_ws(req[0]),
        !is_ws(req.last()),
    ensures
        spec_parse_dependency_line(seq!['?'] + n + seq![' '] + req) is Ok <==> spec_req_parse(req) is Ok,
        spec_parse_dependency_line(seq!['?'] + n + seq![' '] + req) matches Ok(d) ==> d.name == n && d.constraint
            == req && d.optional,
{
    let line = seq!['?'] + n + seq![' '] + req;
    let inner = n + seq![' '] + req;
    assert(line[0] == '?');
    assert(!is_ws('?'));
    assert(line.last() == req.last());
    lemma_trim_of_trimmed(line);
    assert(line.subrange(1, line.len() as int) =~= inner);
    assert(inner[0] == n[0]);
    assert(inner.last() == req.last());
    lemma_trim_of_trimmed(inner);
    law_requirement_is_whole_rest(n, req);
}

/// A line that is a bare name declares it required under the requirement
/// `*`, which accepts any release.
pub proof fn law_bare_name_is_any_version(n: Seq<char>)
    requires
        n.len() > 0,
        n[0] != '?',
        forall|j: int| 0 <= j < n.len() ==> !is_ws(#[trigger] n[j]),
    ensures
        spec_parse_dependency_line(n) is Ok <==> spec_req_parse("*"@) is Ok,
        spec_parse_dependency_line(n) matches Ok(d) ==> d.name == n && d.constraint == "*"@ && !d.optional,
{
    lemma_trim_of_trimmed(n);
    assert(is_ws(' '));
    assert(forall|j: int| 0 <= j < n.len() ==> n[j] != ' ');
    assert(first_index_of(n, ' ') is None);
}

/// Builds a dependency from its fields and the outcome of reading its
/// requirement text.
pub fn build_dependency(name: String, constraint_text: &str, optional: bool, parsed: Result<
    Requirement,
    String,
>) -> (r: Result<Dependency, BallError>)
    requires
        parsed matches Ok(q) ==> q@ == constraint_text@,
    ensures
        match parsed {
            Ok(q) => r matches Ok(d) && d@ == (DependencyView {
                name: name@,
                constraint: constraint_text@,
                optional,
            }),
            Err(reason) => r matches Err(e) && e@ == ErrorView::VersionConflict(
                malformed_message(constraint_text@, name@, reason@),
            ),
        },
{
    match parsed {
        Ok(constraint) => Ok(Dependency { name, constraint, optional }),
        Err(reason) => {
            let mut msg = String::from_str("malformed version constraint '");
            msg.append(constraint_text);
            msg.append("' for '");
            msg.append(name.as_str());
            msg.append("': ");
            msg.append(reason.as_str());
            Err(BallError::VersionConflict(msg))
        },
    }
}

/// Reads one dependency line such as `foo`, `foo >=1.0` or `? bar ^2`.
pub fn parse_dependency_line(dep_str: &str) -> (r: Result<Dependency, BallError>)
    ensures
        match r {
            Ok(d) => spec_parse_dependency_line(dep_str@) == Ok::<DependencyView, ErrorView>(d@),
            Err(e) => spec_parse_dependency_line(dep_str@) == Err::<DependencyView, ErrorView>(e@),
        },
{
    let chars = chars_of(dep_str);
    let t = trimmed(chars.as_slice());
    let optional = t.len() > 0 && t[0] == '?';
    let cleaned = if optional {
        let rest = sub_vec(t.as_slice(), 1, t.len());
        trimmed(rest.as_slice())
    } else {
        t
    };
    let (name, constraint_text) = match find_char(cleaned.as_slice(), ' ') {
        Some(i) => {
            let head = sub_vec(cleaned.as_slice(), 0, i);
            let tail = sub_vec(cleaned.as_slice(), i + 1, cleaned.len());
            (trimmed_string(head.as_slice()), trimmed_string(tail.as_slice()))
        },
        None => (trimmed_string(cleaned.as_slice()), String::from_str("*")),
    };
    proof {
        reveal_strlit("*");
    }
    let parsed = parse_requirement(constraint_text.as_str());
    build_dependency(name, constraint_text.as_str(), optional, parsed)
}

/// The dependencies a list of lines declares, or the first line's error.
pub open spec fn spec_parse_dependencies(lines: Seq<Seq<char>>) -> Result<Seq<DependencyView>, ErrorView>
    decreases lines.len(),
{
    if lines.len() == 0 {
        Ok(Seq::empty())
    } else {
        match spec_parse_dependencies(lines.drop_last()) {
            Ok(ds) => match spec_parse_dependency_line(lines.last()) {
                Ok(d) => Ok(ds.push(d)),
                Err(e) => Err(e),
            },
            Err(e) => Err(e),
        }
    }
}

pub open spec fn declared_lines(p: PackageView) -> Seq<Seq<char>> {
    match p.dependencies {
        Some(ds) => ds,
        None => Seq::empty(),
    }
}

pub open spec fn deps_view(ds: Seq<Dependency>) -> Seq<DependencyView> {
    Seq::new(ds.len(), |i: int| ds[i]@)
}

/// Once a prefix of the lines fails, every longer prefix fails the same way.
proof fn lemma_parse_deps_err_extends(ls: Seq<Seq<char>>, k: int)
    requires
        0 <= k <= ls.len(),
        spec_parse_dependencies(ls.subrange(0, k)) is Err,
    ensures
        spec_parse_dependencies(ls) == spec_parse_dependencies(ls.subrange(0, k)),
    decreases ls.len() - k,
{
    if k < ls.len() {
        let next = ls.subrange(0, k + 1);
        assert(next.drop_last() =~= ls.subrange(0, k));
        lemma_parse_deps_err_extends(ls, k + 1);
    } else {
        assert(ls.subrange(0, k) =~= ls);
    }
}

/// The dependencies a package declares.
pub fn parse_dependencies(pkg: &Package) -> (r: Result<Vec<Dependency>, BallError>)
    ensures
        match r {
            Ok(ds) => spec_parse_dependencies(declared_lines(pkg@)) == Ok::<Seq<DependencyView>, ErrorView>(
                deps_view(ds@),
            ),
            Err(e) => spec_parse_dependencies(declared_lines(pkg@)) == Err::<Seq<DependencyView>, ErrorView>(
                e@,
            ),
        },
{
    let mut result: Vec<Dependency> = Vec::new();
    match &pkg.dependencies {
        Some(lines) => {
            let ghost ls = lines.deep_view();
            let mut i: usize = 0;
            proof {
                assert(ls.subrange(0, 0) =~= Seq::<Seq<char>>::empty());
                assert(deps_view(result@) =~= Seq::<DependencyView>::empty());
            }
            while i < lines.len()
                invariant
                    ls == lines.deep_view(),
                    ls == declared_lines(pkg@),
                    i <= ls.len(),
                    spec_parse_dependencies(ls.subrange(0, i as int)) == Ok::<Seq<DependencyView>, ErrorView>(
                        deps_view(result@),
                    ),
                decreases ls.len() - i,
            {
                let ghost before = ls.subrange(0, i as int);
                let ghost rv = deps_view(result@);
                let d = parse_dependency_line(lines[i].as_str());
                proof {
                    let after = ls.subrange(0, i + 1);
                    assert(after.drop_last() =~= before);
                    assert(after.last() == lines@[i as int]@);
                }
                match d {
                    Ok(dep) => {
                        result.push(dep);
                        proof {
                            assert(deps_view(result@) =~= rv.push(result@.last()@));
                        }
                    },
                    Err(e) => {
                        proof {
                            lemma_parse_deps_err_extends(ls, i as int + 1);
                        }
                        return Err(e);
                    },
                }
                i = i + 1;
            }
            proof {
                assert(ls.subrange(0, ls.len() as int) =~= ls);
            }
        },
        None => {
            proof {
                assert(deps_view(result@) =~= Seq::<DependencyView>::empty());
            }
        },
    }
    Ok(result)
}


// ---------------------------------------------------------------------------
// Distribution version strings
// ---------------------------------------------------------------------------

/// Number of leading `'0'` characters.
pub open spec fn zero_prefix_len(s: Seq<char>) -> nat
    decreases s.len(),
{
    if s.len() > 0 && s[0] == '0' {
        1 + zero_prefix_len(s.subrange(1, s.len() as int))
    } else {
        0
    }
}

/// `0875` -> `875`, `000` -> `0`.
pub open spec fn spec_strip_leading_zeros(s: Seq<char>) -> Seq<char> {
    let t = s.subrange(zero_prefix_len(s) as int, s.len() as int);
    if t.len() == 0 {
        "0"@
    } else {
        t
    }
}

proof fn lemma_zero_prefix_bound(s: Seq<char>)
    ensures
        zero_prefix_len(s) <= s.len(),
        forall|i: int| 0 <= i < zero_prefix_len(s) ==> s[i] == '0',
        zero_prefix_len(s) < s.len() ==> s[zero_prefix_len(s) as int] != '0',
    decreases s.len(),
{
    if s.len() > 0 && s[0] == '0' {
        let t = s.subrange(1, s.len() as int);
        lemma_zero_prefix_bound(t);
        assert forall|i: int| 0 <= i < zero_prefix_len(s) implies s[i] == '0' by {
            if i > 0 {
                assert(s[i] == t[i - 1]);
            }
        }
    }
}

proof fn lemma_zero_prefix_step(s: Seq<char>, i: int)
    requires
        0 <= i < s.len(),
        s[i] == '0',
        zero_prefix_len(s) == i + zero_prefix_len(s.subrange(i, s.len() as int)),
    ensures
        zero_prefix_len(s) == (i + 1) + zero_prefix_len(s.subrange(i + 1, s.len() as int)),
{
    let t = s.subrange(i, s.len() as int);
    assert(t.subrange(1, t.len() as int) =~= s.subrange(i + 1, s.len() as int));
}

/// Drops the zero padding that semver does not accept on a number.
pub fn strip_leading_zeros(segment: &str) -> (r: String)
    ensures
        r@ == spec_strip_leading_zeros(segment@),
{
    let v = chars_of(segment);
    let n = v.len();
    let mut i: usize = 0;
    proof {
        assert(v@.subrange(0, n as int) =~= v@);
    }
    while i < n && v[i] == '0'
        invariant
            i <= n,
            n == v@.len(),
            zero_prefix_len(v@) == i + zero_prefix_len(v@.subrange(i as int, n as int)),
        decreases n - i,
    {
        proof {
            lemma_zero_prefix_step(v@, i as int);
        }
        i = i + 1;
    }
    proof {
        if i < n {
            assert(v@.subrange(i as int, n as int)[0] == v@[i as int]);
        }
        assert(zero_prefix_len(v@.subrange(i as int, n as int)) == 0);
        reveal_strlit("0");
    }
    if i == n {
        String::from_str("0")
    } else {
        string_of(sub_vec(v.as_slice(), i, n).as_slice())
    }
}

pub open spec fn is_digit_or_dot(c: char) -> bool {
    is_digit(c) || c == '.'
}

/// Length of the leading run of digits and dots.
pub open spec fn digits_dots_len(s: Seq<char>) -> nat
    decreases s.len(),
{
    if s.len() > 0 && is_digit_or_dot(s[0]) {
        1 + digits_dots_len(s.subrange(1, s.len() as int))
    } else {
        0
    }
}

/// Number of trailing dots.
pub open spec fn dots_suffix_len(s: Seq<char>) -> nat
    decreases s.len(),
{
    if s.len() > 0 && s.last() == '.' {
        1 + dots_suffix_len(s.drop_last())
    } else {
        0
    }
}

proof fn lemma_digits_dots_bound(s: Seq<char>)
    ensures
        digits_dots_len(s) <= s.len(),
        forall|i: int| 0 <= i < digits_dots_len(s) ==> #[trigger] is_digit_or_dot(s[i]),
    decreases s.len(),
{
    if s.len() > 0 && is_digit_or_dot(s[0]) {
        let t = s.subrange(1, s.len() as int);
        lemma_digits_dots_bound(t);
        assert forall|i: int| 0 <= i < digits_dots_len(s) implies #[trigger] is_digit_or_dot(s[i]) by {
            if i > 0 {
                assert(s[i] == t[i - 1]);
            }
        }
    }
}

proof fn lemma_digits_dots_step(s: Seq<char>, i: int)
    requires
        0 <= i < s.len(),
        is_digit_or_dot(s[i]),
        digits_dots_len(s) == i + digits_dots_len(s.subrange(i, s.len() as int)),
    ensures
        digits_dots_len(s) == (i + 1) + digits_dots_len(s.subrange(i + 1, s.len() as int)),
{
    let t = s.subrange(i, s.len() as int);
    assert(t.subrange(1, t.len() as int) =~= s.subrange(i + 1, s.len() as int));
}

proof fn lemma_dots_suffix_bound(s: Seq<char>)
    ensures
        dots_suffix_len(s) <= s.len(),
        dots_suffix_len(s) < s.len() ==> s[s.len() - dots_suffix_len(s) - 1] != '.',
    decreases s.len(),
{
    if s.len() > 0 && s.last() == '.' {
        lemma_dots_suffix_bound(s.drop_last());
    }
}

proof fn lemma_dots_suffix_step(s: Seq<char>, j: int)
    requires
        0 < j <= s.len(),
        s[j - 1] == '.',
        dots_suffix_len(s) == (s.len() - j) + dots_suffix_len(s.subrange(0, j)),
    ensures
        dots_suffix_len(s) == (s.len() - (j - 1)) + dots_suffix_len(s.subrange(0, j - 1)),
{
    let t = s.subrange(0, j);
    assert(t.drop_last() =~= s.subrange(0, j - 1));
}

/// What is left of a distribution version once the epoch (`2:`), the
/// revision (from the first `-`) and build metadata (from the first `+`) are
/// cut: the leading digits and dots, trailing dots dropped.
pub open spec fn version_core(raw: Seq<char>) -> Seq<char> {
    let a = match first_index_of(raw, ':') {
        Some(i) => raw.subrange(i + 1, raw.len() as int),
        None => raw,
    };
    let b = split_on(split_on(a, '-')[0], '+')[0];
    let c = b.subrange(0, digits_dots_len(b) as int);
    c.subrange(0, c.len() - dots_suffix_len(c))
}

/// The core's dot-separated numbers, zero padding dropped.
pub open spec fn core_segments(raw: Seq<char>) -> Seq<Seq<char>> {
    let parts = split_on(version_core(raw), '.');
    Seq::new(parts.len(), |i: int| spec_strip_leading_zeros(parts[i]))
}

/// `major.minor.patch` from the first three segments, missing ones `0`.
pub open spec fn normalized_text(segs: Seq<Seq<char>>) -> Seq<char> {
    segs[0] + "."@ + (if segs.len() > 1 {
        segs[1]
    } else {
        "0"@
    }) + "."@ + (if segs.len() > 2 {
        segs[2]
    } else {
        "0"@
    })
}

/// The version a distribution string stands for when strict semver does not
/// read it without a pre-release part.
pub open spec fn fallback_version(raw: Seq<char>) -> Option<SemVerView> {
    if version_core(raw).len() == 0 {
        None
    } else {
        triple_result(normalized_text(core_segments(raw)))
    }
}

/// A strict reading without a pre-release part is taken as it is; anything
/// else falls back to the distribution rules.
pub open spec fn version_from(raw: Seq<char>, strict: Option<SemVerView>) -> Option<SemVerView> {
    match strict {
        Some(v) => if v.pre.len() == 0 {
            Some(v)
        } else {
            fallback_version(raw)
        },
        None => fallback_version(raw),
    }
}

pub open spec fn spec_parse_version_flexible(raw: Seq<char>) -> Option<SemVerView> {
    version_from(raw, spec_semver_parse(raw))
}


/// Every part of a digits-and-dots text split at dots is made of digits.
proof fn lemma_split_digits(s: Seq<char>)
    requires
        forall|k: int| 0 <= k < s.len() ==> #[trigger] is_digit_or_dot(s[k]),
    ensures
        forall|i: int, j: int|
            0 <= i < split_on(s, '.').len() && 0 <= j < split_on(s, '.')[i].len() ==> is_digit(
                #[trigger] split_on(s, '.')[i][j],
            ),
    decreases s.len(),
{
    if s.len() > 0 {
        let sd = s.drop_last();
        assert forall|k: int| 0 <= k < sd.len() implies #[trigger] is_digit_or_dot(sd[k]) by {
            assert(sd[k] == s[k]);
        }
        lemma_split_digits(sd);
        crate::text::lemma_split_on_nonempty(sd, '.');
        assert(is_digit_or_dot(s[s.len() - 1]));
    }
}

/// Stripping the zero padding of a numeral leaves a canonical numeral.
proof fn lemma_strip_canonical(seg: Seq<char>)
    requires
        forall|j: int| 0 <= j < seg.len() ==> #[trigger] is_digit(seg[j]),
    ensures
        canonical_numeral(spec_strip_leading_zeros(seg)),
{
    lemma_zero_prefix_bound(seg);
    let z = zero_prefix_len(seg) as int;
    let t = seg.subrange(z, seg.len() as int);
    if t.len() == 0 {
        reveal_strlit("0");
        assert(canonical_numeral("0"@));
    } else {
        assert(t[0] == seg[z]);
        assert forall|i: int| 0 <= i < t.len() implies #[trigger] is_digit(t[i]) by {
            assert(t[i] == seg[z + i]);
        }
    }
}

/// Three canonical numerals joined by dots make a plain `A.B.C`.
proof fn lemma_plain_join(a: Seq<char>, b: Seq<char>, c: Seq<char>)
    requires
        canonical_numeral(a),
        canonical_numeral(b),
        canonical_numeral(c),
    ensures
        plain_triple(a + "."@ + b + "."@ + c),
        split_on(a + "."@ + b + "."@ + c, '.') == seq![a, b, c],
{
    reveal_strlit(".");
    assert forall|x: Seq<char>| canonical_numeral(x) implies forall|i: int| 0 <= i < x.len() ==> x[i] != '.' by {
        assert forall|i: int| 0 <= i < x.len() implies x[i] != '.' by {
            assert(is_digit(x[i]));
        }
    }
    lemma_split_on_none(a, '.');
    lemma_split_on_none(b, '.');
    lemma_split_on_none(c, '.');
    let bc = b + seq!['.'] + c;
    lemma_split_on_join(b, c, '.');
    lemma_split_on_join(a, bc, '.');
    assert(a + "."@ + b + "."@ + c =~= a + seq!['.'] + bc);
    assert(split_on(a + "."@ + b + "."@ + c, '.') =~= seq![a, b, c]);
}

/// `"0"` is the canonical numeral of zero.
proof fn lemma_zero_canonical()
    ensures
        canonical_numeral("0"@),
{
    reveal_strlit("0");
}

/// Applies the distribution rules to a version string, given what strict
/// semver made of it.
pub fn version_from_strict(raw: &str, strict: Option<SemVer>) -> (r: Option<SemVer>)
    ensures
        opt_view(r) == version_from(raw@, opt_view(strict)),
{
    if let Some(v) = strict {
        if !v.has_pre() {
            return Some(v);
        }
    }
    let v = chars_of(raw);
    let vlen = v.len();
    let a: Vec<char> = match find_char(v.as_slice(), ':') {
        Some(i) => sub_vec(v.as_slice(), i + 1, vlen),
        None => v,
    };
    let pa = split_chars(a.as_slice(), '-');
    proof {
        crate::text::lemma_split_on_nonempty(a@, '-');
        crate::text::lemma_chars_deep_view(&pa@[0]);
    }
    let pb = split_chars(pa[0].as_slice(), '+');
    proof {
        crate::text::lemma_split_on_nonempty(pa@[0]@, '+');
        crate::text::lemma_chars_deep_view(&pb@[0]);
    }
    let b = &pb[0];
    let ghost bs = b@;
    assert(bs == split_on(split_on(a@, '-')[0], '+')[0]);
    let n = b.len();
    let mut i: usize = 0;
    proof {
        assert(bs.subrange(0, n as int) =~= bs);
    }
    while i < n && (('0' <= b[i] && b[i] <= '9') || b[i] == '.')
        invariant
            i <= n,
            n == bs.len(),
            bs == b@,
            digits_dots_len(bs) == i + digits_dots_len(bs.subrange(i as int, n as int)),
        decreases n - i,
    {
        proof {
            lemma_digits_dots_step(bs, i as int);
        }
        i = i + 1;
    }
    proof {
        if i < n {
            assert(bs.subrange(i as int, n as int)[0] == bs[i as int]);
        }
        assert(digits_dots_len(bs.subrange(i as int, n as int)) == 0);
    }
    let c = sub_vec(b.as_slice(), 0, i);
    let mut j: usize = c.len();
    proof {
        assert(c@.subrange(0, j as int) =~= c@);
    }
    while j > 0 && c[j - 1] == '.'
        invariant
            j <= c@.len(),
            dots_suffix_len(c@) == (c@.len() - j) + dots_suffix_len(c@.subrange(0, j as int)),
        decreases j,
    {
        proof {
            lemma_dots_suffix_step(c@, j as int);
        }
        j = j - 1;
    }
    proof {
        if j > 0 {
            assert(c@.subrange(0, j as int).last() == c@[j - 1]);
        }
        assert(dots_suffix_len(c@.subrange(0, j as int)) == 0);
    }
    let d = sub_vec(c.as_slice(), 0, j);
    proof {
        assert(d@ == version_core(raw@));
    }
    if d.len() == 0 {
        return None;
    }
    let parts = split_chars(d.as_slice(), '.');
    proof {
        lemma_digits_dots_bound(bs);
        assert forall|k: int| 0 <= k < d@.len() implies #[trigger] is_digit_or_dot(d@[k]) by {
            assert(d@[k] == bs[k]);
        }
        lemma_split_digits(d@);
        crate::text::lemma_split_on_nonempty(d@, '.');
        lemma_zero_canonical();
    }
    let ghost segs = core_segments(raw@);
    proof {
        crate::text::lemma_chars_deep_view(&parts@[0]);
        assert(parts@[0]@ == split_on(d@, '.')[0]);
        lemma_strip_canonical(split_on(d@, '.')[0]);
    }
    let s0 = strip_leading_zeros(string_of(parts[0].as_slice()).as_str());
    let s1 = if parts.len() > 1 {
        proof {
            crate::text::lemma_chars_deep_view(&parts@[1]);
            lemma_strip_canonical(split_on(d@, '.')[1]);
        }
        strip_leading_zeros(string_of(parts[1].as_slice()).as_str())
    } else {
        String::from_str("0")
    };
    let s2 = if parts.len() > 2 {
        proof {
            crate::text::lemma_chars_deep_view(&parts@[2]);
            lemma_strip_canonical(split_on(d@, '.')[2]);
        }
        strip_leading_zeros(string_of(parts[2].as_slice()).as_str())
    } else {
        String::from_str("0")
    };
    let mut normalized = s0.clone();
    normalized.append(".");
    normalized.append(s1.as_str());
    normalized.append(".");
    normalized.append(s2.as_str());
    proof {
        reveal_strlit("0");
        assert(s0@ == segs[0]);
        assert(canonical_numeral(s0@));
        assert(canonical_numeral(s1@));
        assert(canonical_numeral(s2@));
        lemma_plain_join(s0@, s1@, s2@);
        assert(normalized@ == normalized_text(segs));
    }
    parse_semver(normalized.as_str())
}

/// Reads a version string that may not be strict semver: Debian epochs
/// (`2:1.21-76`), revisions (`1.21-76`), release tags (`8.2.2637-20.fc36`),
/// zero-padded numbers (`8.1.0875`) and one- or two-number versions.
pub fn parse_version_flexible(raw: &str) -> (r: Option<SemVer>)
    ensures
        opt_view(r) == spec_parse_version_flexible(raw@),
{
    let strict = parse_semver(raw);
    version_from_strict(raw, strict)
}


// ---------------------------------------------------------------------------
// Constraints
// ---------------------------------------------------------------------------

/// A requirement that the package `from` places on the package `target`.
#[derive(Debug)]
pub struct Constraint {
    pub target: String,
    pub from: String,
    pub req: Requirement,
    pub optional: bool,
}

pub struct ConstraintView {
    pub target: Seq<char>,
    pub from: Seq<char>,
    pub req: Seq<char>,
    pub optional: bool,
}

impl View for Constraint {
    type V = ConstraintView;

    open spec fn view(&self) -> ConstraintView {
        ConstraintView { target: self.target@, from: self.from@, req: self.req@, optional: self.optional }
    }
}

/// The constraint is on `name` and does not accept `v`.
pub open spec fn violates(k: ConstraintView, name: Seq<char>, v: SemVerView) -> bool {
    k.target == name && !spec_req_matches(k.req, v)
}

pub open spec fn conflict_message(version: Seq<char>, name: Seq<char>, req: Seq<char>, from: Seq<char>) -> Seq<
    char,
> {
    "version "@ + version + " of '"@ + name + "' does not satisfy constraint '"@ + req + "' required by '"@
        + from + "'"@
}

/// What checking `v` for `name` against the constraints from the `i`-th on
/// gives: the conflict of the first one that does not accept it, if any.
pub open spec fn spec_enforce_from(cs: Seq<ConstraintView>, name: Seq<char>, v: SemVerView, i: int) -> Result<
    (),
    ErrorView,
>
    decreases cs.len() - i,
{
    if i < 0 || i >= cs.len() {
        Ok(())
    } else if violates(cs[i], name, v) {
        Err(
            ErrorView::VersionConflict(
                conflict_message(version_text(v), name, spec_req_display(cs[i].req), cs[i].from),
            ),
        )
    } else {
        spec_enforce_from(cs, name, v, i + 1)
    }
}

/// Rejects `version` for `name` when a constraint on `name` does not accept
/// it; the first such constraint is reported.
pub fn enforce_constraints(name: &str, version: &SemVer, constraints: &Vec<Constraint>) -> (r: Result<
    (),
    BallError,
>)
    ensures
        r is Ok <==> forall|i: int| 0 <= i < constraints@.len() ==> !violates(#[trigger] constraints@[i]@, name@, version@),
        match r {
            Ok(_) => true,
            Err(e) => exists|i: int|
                0 <= i < constraints@.len() && violates(#[trigger] constraints@[i]@, name@, version@) && (forall|j: int|
                    0 <= j < i ==> !violates(#[trigger] constraints@[j]@, name@, version@)) && e@
                    == ErrorView::VersionConflict(
                    conflict_message(
                        version_text(version@),
                        name@,
                        spec_req_display(constraints@[i]@.req),
                        constraints@[i]@.from,
                    ),
                ),
        },
        match r {
            Ok(_) => spec_enforce_from(Seq::new(constraints@.len(), |k: int| constraints@[k]@), name@, version@, 0) is Ok,
            Err(e) => spec_enforce_from(Seq::new(constraints@.len(), |k: int| constraints@[k]@), name@, version@, 0)
                == Err::<(), ErrorView>(e@),
        },
{
    let ghost cv = Seq::new(constraints@.len(), |k: int| constraints@[k]@);
    let name_s = String::from_str(name);
    let mut i: usize = 0;
    while i < constraints.len()
        invariant
            name_s@ == name@,
            i <= constraints@.len(),
            cv == Seq::new(constraints@.len(), |k: int| constraints@[k]@),
            spec_enforce_from(cv, name@, version@, 0) == spec_enforce_from(cv, name@, version@, i as int),
            forall|j: int| 0 <= j < i ==> !violates(#[trigger] constraints@[j]@, name@, version@),
        decreases constraints@.len() - i,
    {
        let c = &constraints[i];
        if c.target == name_s {
            if !requirement_matches(&c.req, version) {
                let mut msg = String::from_str("version ");
                msg.append(version.to_text().as_str());
                msg.append(" of '");
                msg.append(name);
                msg.append("' does not satisfy constraint '");
                msg.append(requirement_display(&c.req).as_str());
                msg.append("' required by '");
                msg.append(c.from.as_str());
                msg.append("'");
                proof {
                    assert(violates(constraints@[i as int]@, name@, version@));
                    assert(cv[i as int] == constraints@[i as int]@);
                }
                return Err(BallError::VersionConflict(msg));
            }
        }
        proof {
            assert(cv[i as int] == constraints@[i as int]@);
        }
        i = i + 1;
    }
    Ok(())
}

} // verus!
