//! Semantic versions and version requirements, read and compared by the
//! `semver` crate.

use vstd::prelude::*;

use crate::text::{concat, decimal, decimal_string, split_on};

verus! {

#[verifier::external_type_specification]
#[verifier::external_body]
pub struct ExVersion(semver::Version);

#[verifier::external_type_specification]
#[verifier::external_body]
pub struct ExVersionReq(semver::VersionReq);

/// A version as numbers and the texts of its pre-release and build parts.
pub struct SemVerView {
    pub major: u64,
    pub minor: u64,
    pub patch: u64,
    pub pre: Seq<char>,
    pub build: Seq<char>,
}

/// A parsed version: its parts, kept beside the `semver` value they were
/// read from.
#[derive(Debug)]
pub struct SemVer {
    major: u64,
    minor: u64,
    patch: u64,
    pre: String,
    build: String,
    version: semver::Version,
}

impl View for SemVer {
    type V = SemVerView;

    closed spec fn view(&self) -> SemVerView {
        SemVerView {
            major: self.major,
            minor: self.minor,
            patch: self.patch,
            pre: self.pre@,
            build: self.build@,
        }
    }
}

pub open spec fn opt_view(o: Option<SemVer>) -> Option<SemVerView> {
    match o {
        Some(v) => Some(v@),
        None => None,
    }
}

pub open spec fn is_digit(c: char) -> bool {
    '0' <= c <= '9'
}

/// The value of a string of decimal digits.
pub open spec fn numeral_value(s: Seq<char>) -> nat
    decreases s.len(),
{
    if s.len() == 0 {
        0
    } else {
        numeral_value(s.drop_last()) * 10 + ((s.last() as nat) - ('0' as nat)) as nat
    }
}

/// Digits only, at least one, and no leading zero unless the numeral is `0`.
pub open spec fn canonical_numeral(s: Seq<char>) -> bool {
    &&& s.len() > 0
    &&& forall|i: int| 0 <= i < s.len() ==> #[trigger] is_digit(s[i])
    &&& (s[0] == '0' ==> s.len() == 1)
}

/// `A.B.C` with three canonical numerals.
pub open spec fn plain_triple(t: Seq<char>) -> bool {
    let p = split_on(t, '.');
    p.len() == 3 && canonical_numeral(p[0]) && canonical_numeral(p[1]) && canonical_numeral(p[2])
}

/// What `Version::parse` gives for a plain triple: its three numbers, when
/// each fits in a `u64`.
pub open spec fn triple_result(t: Seq<char>) -> Option<SemVerView> {
    let p = split_on(t, '.');
    let (a, b, c) = (numeral_value(p[0]), numeral_value(p[1]), numeral_value(p[2]));
    if a <= u64::MAX && b <= u64::MAX && c <= u64::MAX {
        Some(SemVerView { major: a as u64, minor: b as u64, patch: c as u64, pre: Seq::empty(), build: Seq::empty() })
    } else {
        None
    }
}

/// What `semver::Version::parse` returns for a text, as plain parts.
pub uninterp spec fn spec_semver_parse(text: Seq<char>) -> Option<SemVerView>;

/// `semver::Version::parse`. The result is named by `spec_semver_parse`; of
/// the grammar, only the plain `A.B.C` case is stated: three canonical
/// numerals parse to their values unless one overflows a `u64`.
#[verifier::external_body]
pub(crate) fn parse_semver(text: &str) -> (r: Option<SemVer>)
    ensures
        opt_view(r) == spec_semver_parse(text@),
        plain_triple(text@) ==> opt_view(r) == triple_result(text@),
{
    match semver::Version::parse(text) {
        Ok(v) => Some(SemVer {
            major: v.major,
            minor: v.minor,
            patch: v.patch,
            pre: v.pre.as_str().to_string(),
            build: v.build.as_str().to_string(),
            version: v,
        }),
        Err(_) => None,
    }
}

/// Lexicographic order of the numeric parts.
pub open spec fn triple_gt(a: SemVerView, b: SemVerView) -> bool {
    a.major > b.major || (a.major == b.major && (a.minor > b.minor || (a.minor == b.minor && a.patch
        > b.patch)))
}

/// Whether `semver` orders the first version after the second.
pub uninterp spec fn spec_version_gt(a: SemVerView, b: SemVerView) -> bool;

/// `>` on `semver::Version` (derived field order: numbers, then pre-release,
/// then build). Stated: without pre-release and build parts it is the order
/// of the numbers; otherwise only named.
#[verifier::external_body]
pub(crate) fn version_gt(a: &SemVer, b: &SemVer) -> (r: bool)
    ensures
        r == spec_version_gt(a@, b@),
        a@.pre.len() == 0 && a@.build.len() == 0 && b@.pre.len() == 0 && b@.build.len() == 0 ==> (r
            <==> triple_gt(a@, b@)),
{
    a.version > b.version
}

/// How `Display` prints a version.
pub open spec fn version_text(v: SemVerView) -> Seq<char> {
    decimal(v.major as nat) + "."@ + decimal(v.minor as nat) + "."@ + decimal(v.patch as nat) + (if v.pre.len()
        > 0 {
        "-"@ + v.pre
    } else {
        Seq::empty()
    }) + (if v.build.len() > 0 {
        "+"@ + v.build
    } else {
        Seq::empty()
    })
}

impl SemVer {
    pub fn major(&self) -> (r: u64)
        ensures
            r == self@.major,
    {
        self.major
    }

    pub fn minor(&self) -> (r: u64)
        ensures
            r == self@.minor,
    {
        self.minor
    }

    pub fn patch(&self) -> (r: u64)
        ensures
            r == self@.patch,
    {
        self.patch
    }

    pub fn has_pre(&self) -> (r: bool)
        ensures
            r == (self@.pre.len() > 0),
    {
        self.pre.unicode_len() > 0
    }

    /// The version as `Display` prints it.
    pub fn to_text(&self) -> (r: String)
        ensures
            r@ == version_text(self@),
    {
        let mut r = decimal_string(self.major);
        r.append(".");
        r.append(decimal_string(self.minor).as_str());
        r.append(".");
        r.append(decimal_string(self.patch).as_str());
        if self.pre.unicode_len() > 0 {
            r.append("-");
            r.append(self.pre.as_str());
        }
        if self.build.unicode_len() > 0 {
            r.append("+");
            r.append(self.build.as_str());
        }
        r
    }
}

/// A version requirement together with the text it was read from.
#[derive(Debug)]
pub struct Requirement {
    text: String,
    req: semver::VersionReq,
}

impl View for Requirement {
    type V = Seq<char>;

    closed spec fn view(&self) -> Seq<char> {
        self.text@
    }
}

/// What `semver::VersionReq::parse` returns for a text: `Ok` or the text of
/// its error.
pub uninterp spec fn spec_req_parse(text: Seq<char>) -> Result<(), Seq<char>>;

/// `semver::VersionReq::parse`, with the error turned into its message. The
/// result is named; of the grammar only the wildcard is stated: `*` parses
/// (to `VersionReq::STAR`, which has no comparators).
#[verifier::external_body]
pub(crate) fn parse_requirement(text: &str) -> (r: Result<Requirement, String>)
    ensures
        match r {
            Ok(q) => q@ == text@ && spec_req_parse(text@) == Ok::<(), Seq<char>>(()),
            Err(m) => spec_req_parse(text@) == Err::<(), Seq<char>>(m@),
        },
        text@ == "*"@ ==> r is Ok,
{
    match semver::VersionReq::parse(text) {
        Ok(req) => Ok(Requirement { text: text.to_string(), req }),
        Err(e) => Err(e.to_string()),
    }
}

/// Whether the requirement read from a text accepts a version.
pub uninterp spec fn spec_req_matches(req: Seq<char>, v: SemVerView) -> bool;

/// `semver::VersionReq::matches`. The result is named; of it only the
/// wildcard is stated: `*` has no comparators, so it accepts every version
/// without a pre-release part.
#[verifier::external_body]
pub(crate) fn requirement_matches(req: &Requirement, v: &SemVer) -> (r: bool)
    ensures
        r == spec_req_matches(req@, v@),
        req@ == "*"@ && v@.pre.len() == 0 ==> r,
{
    req.req.matches(&v.version)
}

/// How `Display` prints the requirement read from a text.
pub uninterp spec fn spec_req_display(req: Seq<char>) -> Seq<char>;

/// `Display` of `semver::VersionReq` (its normalised form). Only named.
#[verifier::external_body]
pub(crate) fn requirement_display(req: &Requirement) -> (r: String)
    ensures
        r@ == spec_req_display(req@),
{
    req.req.to_string()
}

impl Requirement {
    /// The text the requirement was read from.
    pub fn text(&self) -> (r: String)
        ensures
            r@ == self@,
    {
        self.text.clone()
    }
}

} // verus!
