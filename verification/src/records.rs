//! How packages are recorded in the local database: the source columns and
//! the dependency rows. The database itself is driven by the caller.

use vstd::prelude::*;
use vstd::string::*;

use crate::package::{PackageSource, SourceView};
use crate::text::{chars_of, concat3, split_chars, split_on, string_of, sub_vec, trim, trimmed_string};

verus! {

/// The `source` and `source_detail` columns for a package's source.
pub open spec fn spec_source_columns(s: SourceView) -> (Seq<char>, Option<Seq<char>>) {
    match s {
        SourceView::GitHub { owner, repo } => ("github"@, Some(owner + "/"@ + repo)),
        SourceView::BallerRegistry { url } => ("baller_registry"@, Some(url)),
        SourceView::Chocolatey { feed_url } => ("chocolatey"@, Some(feed_url)),
        SourceView::System { manager } => ("system"@, Some(manager)),
        SourceView::Cargo { crate_name } => ("cargo"@, Some(crate_name)),
    }
}

pub fn serialize_source(source: &PackageSource) -> (r: (String, Option<String>))
    ensures
        (r.0@, r.1.deep_view()) == spec_source_columns(source@),
{
    match source {
        PackageSource::GitHub { owner, repo } => (
            String::from_str("github"),
            Some(concat3(owner.as_str(), "/", repo.as_str())),
        ),
        PackageSource::BallerRegistry { url } => (String::from_str("baller_registry"), Some(url.clone())),
        PackageSource::Chocolatey { feed_url } => (String::from_str("chocolatey"), Some(feed_url.clone())),
        PackageSource::System { manager } => (String::from_str("system"), Some(manager.clone())),
        PackageSource::Cargo { crate_name } => (String::from_str("cargo"), Some(crate_name.clone())),
    }
}

/// How many leading `=` a text has.
pub open spec fn eq_prefix_len(s: Seq<char>) -> nat
    decreases s.len(),
{
    if s.len() > 0 && s[0] == '=' {
        1 + eq_prefix_len(s.subrange(1, s.len() as int))
    } else {
        0
    }
}

/// A dependency line (`name>=version`, or a bare name) as the database's
/// dependency row: the name before the first `>`, and the version after it
/// without leading `=` (or `latest` when no version is given).
pub open spec fn spec_dependency_row(dep: Seq<char>) -> (Seq<char>, Seq<char>) {
    let parts = split_on(dep, '>');
    let name = trim(parts[0]);
    let version = if parts.len() >= 2 {
        trim(parts[1].subrange(eq_prefix_len(parts[1]) as int, parts[1].len() as int))
    } else {
        "latest"@
    };
    (name, version)
}

proof fn lemma_eq_prefix_len_bound(s: Seq<char>)
    ensures
        eq_prefix_len(s) <= s.len(),
    decreases s.len(),
{
    if s.len() > 0 && s[0] == '=' {
        lemma_eq_prefix_len_bound(s.subrange(1, s.len() as int));
    }
}

pub fn dependency_row(dep: &str) -> (r: (String, String))
    ensures
        (r.0@, r.1@) == spec_dependency_row(dep@),
{
    let v = chars_of(dep);
    let parts = split_chars(v.as_slice(), '>');
    proof {
        crate::text::lemma_split_on_nonempty(dep@, '>');
        crate::text::lemma_chars_deep_view(&parts@[0]);
    }
    let name = trimmed_string(parts[0].as_slice());
    if parts.len() < 2 {
        return (name, String::from_str("latest"));
    }
    proof {
        crate::text::lemma_chars_deep_view(&parts@[1]);
    }
    let p = &parts[1];
    let n = p.len();
    let mut i: usize = 0;
    proof {
        lemma_eq_prefix_len_bound(p@);
        assert(p@.subrange(0, n as int) =~= p@);
    }
    while i < n && p[i] == '='
        invariant
            i <= n,
            n == p@.len(),
            eq_prefix_len(p@) == i + eq_prefix_len(p@.subrange(i as int, n as int)),
        decreases n - i,
    {
        proof {
            let t = p@.subrange(i as int, n as int);
            assert(t.subrange(1, t.len() as int) =~= p@.subrange(i + 1, n as int));
        }
        i = i + 1;
    }
    proof {
        let t = p@.subrange(i as int, n as int);
        if i < n {
            assert(t[0] == p@[i as int]);
        }
        assert(eq_prefix_len(t) == 0);
        assert(p@.subrange(0, n as int) =~= p@);
    }
    let rest = sub_vec(p.as_slice(), i, n);
    (name, trimmed_string(rest.as_slice()))
}

} // verus!
