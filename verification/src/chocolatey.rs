//! Chocolatey's OData feed: the queries baller sends, and a feed entry read
//! into a package. The HTTP exchange and the JSON decoding of the reply into
//! [`FeedEntry`] values are done by the caller.

use vstd::prelude::*;
use vstd::string::*;

use crate::injected::{slash_suffix_len, strip_slashes, strip_slashes_len};
use crate::package::{Package, PackageSource, PackageView, SourceView};
use crate::text::{
    chars_of, concat, concat3, eq_str, spec_to_uppercase, split_chars, split_on, string_of, sub_vec, to_uppercase,
};

verus! {

/// The feed baller uses unless configured otherwise.
pub const CHOCOLATEY_FEED: &'static str = "https://community.chocolatey.org/api/v2";

/// One package entry of a feed reply.
#[derive(Debug, Clone)]
pub struct FeedEntry {
    pub id: String,
    pub version: String,
    pub description: Option<String>,
    pub authors: Option<String>,
    pub package_hash: Option<String>,
    pub package_hash_algorithm: Option<String>,
    pub dependencies: Option<String>,
    pub project_url: Option<String>,
    /// The entry's `__metadata.media_src`, when the feed gives one.
    pub media_src: Option<String>,
}

/// NuGet's four-part versions lose a trailing `.0`.
pub open spec fn spec_normalize_nuget_version(raw: Seq<char>) -> Seq<char> {
    let parts = split_on(raw, '.');
    if parts.len() == 4 && parts[3] == "0"@ {
        parts[0] + "."@ + parts[1] + "."@ + parts[2]
    } else {
        raw
    }
}

pub fn normalize_nuget_version(raw: &str) -> (r: String)
    ensures
        r@ == spec_normalize_nuget_version(raw@),
{
    let v = chars_of(raw);
    let parts = split_chars(v.as_slice(), '.');
    proof {
        if parts.len() == 4 {
            crate::text::lemma_chars_deep_view(&parts@[0]);
            crate::text::lemma_chars_deep_view(&parts@[1]);
            crate::text::lemma_chars_deep_view(&parts@[2]);
            crate::text::lemma_chars_deep_view(&parts@[3]);
        }
    }
    if parts.len() == 4 && eq_str(parts[3].as_slice(), "0") {
        let mut r = string_of(parts[0].as_slice());
        r.append(".");
        r.append(string_of(parts[1].as_slice()).as_str());
        r.append(".");
        r.append(string_of(parts[2].as_slice()).as_str());
        r
    } else {
        String::from_str(raw)
    }
}

/// The dependency names in a feed's `Dependencies` field: groups are
/// separated by `|`, and each group's name is its second `:`-separated part
/// (groups without one are dropped).
pub open spec fn nuget_entries(groups: Seq<Seq<char>>) -> Seq<Seq<char>>
    decreases groups.len(),
{
    if groups.len() == 0 {
        Seq::empty()
    } else {
        let parts = split_on(groups.last(), ':');
        let rest = nuget_entries(groups.drop_last());
        if parts.len() >= 2 {
            rest.push(parts[1])
        } else {
            rest
        }
    }
}

pub open spec fn spec_parse_nuget_dependencies(raw: Option<Seq<char>>) -> Option<Seq<Seq<char>>> {
    match raw {
        None => None,
        Some(d) => if d.len() == 0 {
            None
        } else {
            let entries = nuget_entries(split_on(d, '|'));
            if entries.len() == 0 {
                None
            } else {
                Some(entries)
            }
        },
    }
}

pub fn parse_nuget_dependencies(raw: &Option<String>) -> (r: Option<Vec<String>>)
    ensures
        r.deep_view() == spec_parse_nuget_dependencies(raw.deep_view()),
{
    let d = match raw {
        None => {
            return None;
        },
        Some(d) => d,
    };
    if d.unicode_len() == 0 {
        return None;
    }
    let v = chars_of(d.as_str());
    let groups = split_chars(v.as_slice(), '|');
    let ghost gv = groups.deep_view();
    let mut out: Vec<String> = Vec::new();
    let mut i: usize = 0;
    proof {
        assert(gv.subrange(0, 0) =~= Seq::<Seq<char>>::empty());
        assert(out.deep_view() =~= Seq::<Seq<char>>::empty());
    }
    while i < groups.len()
        invariant
            gv == groups.deep_view(),
            i <= groups.len(),
            out.deep_view() == nuget_entries(gv.subrange(0, i as int)),
        decreases groups.len() - i,
    {
        let ghost prev = gv.subrange(0, i as int);
        let ghost next = gv.subrange(0, i + 1);
        let ghost ov = out.deep_view();
        proof {
            assert(next.drop_last() =~= prev);
            crate::text::lemma_chars_deep_view(&groups@[i as int]);
        }
        let parts = split_chars(groups[i].as_slice(), ':');
        if parts.len() >= 2 {
            proof {
                crate::text::lemma_chars_deep_view(&parts@[1]);
            }
            out.push(string_of(parts[1].as_slice()));
            proof {
                assert(out.deep_view() =~= ov.push(parts.deep_view()[1]));
            }
        }
        i = i + 1;
    }
    proof {
        assert(gv.subrange(0, gv.len() as int) =~= gv);
    }
    if out.len() == 0 {
        None
    } else {
        Some(out)
    }
}

/// Where an entry's package is downloaded from: the feed's own media link
/// when it gives a non-empty one, else the community download endpoint.
pub open spec fn spec_download_url(e: FeedEntry) -> Seq<char> {
    match e.media_src {
        Some(m) => if m@.len() > 0 {
            m@
        } else {
            "https://community.chocolatey.org/api/package/"@ + e.id@ + "/"@ + e.version@
        },
        None => "https://community.chocolatey.org/api/package/"@ + e.id@ + "/"@ + e.version@,
    }
}

pub fn derive_download_url(entry: &FeedEntry) -> (r: Option<String>)
    ensures
        r matches Some(u) && u@ == spec_download_url(*entry),
{
    match &entry.media_src {
        Some(m) => {
            if m.unicode_len() > 0 {
                return Some(m.clone());
            }
        },
        None => {},
    }
    let mut u = concat3("https://community.chocolatey.org/api/package/", entry.id.as_str(), "/");
    u.append(entry.version.as_str());
    Some(u)
}

/// The feed URL without its trailing slashes.
pub fn feed_base(feed_url: &str) -> (r: String)
    ensures
        r@ == strip_slashes(feed_url@),
{
    let v = chars_of(feed_url);
    let n = strip_slashes_len(v.as_slice(), v.len());
    proof {
        assert(v@.subrange(0, v@.len() as int) =~= v@);
    }
    string_of(sub_vec(v.as_slice(), 0, n).as_slice())
}

/// The query for a package's newest version.
pub open spec fn spec_fetch_url(feed_url: Seq<char>, name: Seq<char>) -> Seq<char> {
    strip_slashes(feed_url) + "/Packages()?$filter=Id eq '"@ + name
        + "'&$orderby=Version desc&$top=1&$select=Id,Version,Description,Authors,PackageHash,PackageHashAlgorithm,ProjectUrl"@
}

pub fn fetch_url(feed_url: &str, name: &str) -> (r: String)
    ensures
        r@ == spec_fetch_url(feed_url@, name@),
{
    let base = feed_base(feed_url);
    let mut u = concat3(base.as_str(), "/Packages()?$filter=Id eq '", name);
    u.append(
        "'&$orderby=Version desc&$top=1&$select=Id,Version,Description,Authors,PackageHash,PackageHashAlgorithm,ProjectUrl",
    );
    u
}

/// The query for one given version of a package.
pub open spec fn spec_pinned_fetch_url(feed_url: Seq<char>, name: Seq<char>, version: Seq<char>) -> Seq<char> {
    strip_slashes(feed_url) + "/Packages()?$filter=Id eq '"@ + name + "' and Version eq '"@ + version
        + "'&$top=1&$select=Id,Version,Description,Authors,PackageHash,PackageHashAlgorithm,ProjectUrl"@
}

pub fn pinned_fetch_url(feed_url: &str, name: &str, version: &str) -> (r: String)
    ensures
        r@ == spec_pinned_fetch_url(feed_url@, name@, version@),
{
    let base = feed_base(feed_url);
    let mut u = concat3(base.as_str(), "/Packages()?$filter=Id eq '", name);
    u.append("' and Version eq '");
    u.append(version);
    u.append("'&$top=1&$select=Id,Version,Description,Authors,PackageHash,PackageHashAlgorithm,ProjectUrl");
    u
}

/// The query for up to 20 packages whose id contains `query`, most
/// downloaded first.
pub open spec fn spec_search_url(feed_url: Seq<char>, query: Seq<char>) -> Seq<char> {
    strip_slashes(feed_url) + "/Packages()?$filter=substringof('"@ + query
        + "',Id)&$orderby=DownloadCount desc&$top=20&$select=Id,Version,Description"@
}

pub fn search_url(feed_url: &str, query: &str) -> (r: String)
    ensures
        r@ == spec_search_url(feed_url@, query@),
{
    let base = feed_base(feed_url);
    let mut u = concat3(base.as_str(), "/Packages()?$filter=substringof('", query);
    u.append("',Id)&$orderby=DownloadCount desc&$top=20&$select=Id,Version,Description");
    u
}

/// The package a feed entry describes.
pub open spec fn spec_package_from_entry(e: FeedEntry, feed_url: Seq<char>) -> PackageView {
    PackageView {
        name: e.id@,
        version: spec_normalize_nuget_version(e.version@),
        description: e.description.deep_view(),
        author: e.authors.deep_view(),
        repository: e.project_url.deep_view(),
        architectures: None,
        dependencies: spec_parse_nuget_dependencies(e.dependencies.deep_view()),
        sha256: e.package_hash.deep_view(),
        hash_algorithm: match e.package_hash_algorithm {
            Some(a) => Some(spec_to_uppercase(a@)),
            None => None,
        },
        download_url: Some(spec_download_url(e)),
        source: SourceView::Chocolatey { feed_url },
        advisory: None,
        vulnerabilities: Seq::empty(),
    }
}

pub fn package_from_entry(entry: &FeedEntry, feed_url: &str) -> (r: Package)
    ensures
        r@ == spec_package_from_entry(*entry, feed_url@),
{
    let pkg = Package {
        name: entry.id.clone(),
        version: normalize_nuget_version(entry.version.as_str()),
        description: crate::package::copy_opt_string(&entry.description),
        author: crate::package::copy_opt_string(&entry.authors),
        repository: crate::package::copy_opt_string(&entry.project_url),
        architectures: None,
        dependencies: parse_nuget_dependencies(&entry.dependencies),
        sha256: crate::package::copy_opt_string(&entry.package_hash),
        hash_algorithm: match &entry.package_hash_algorithm {
            Some(a) => Some(to_uppercase(a.as_str())),
            None => None,
        },
        download_url: derive_download_url(entry),
        source: PackageSource::Chocolatey { feed_url: String::from_str(feed_url) },
        advisory: None,
        vulnerabilities: Vec::new(),
    };
    proof {
        assert(pkg.vulnerabilities.deep_view() =~= Seq::<Seq<char>>::empty());
    }
    pkg
}

/// A search hit: only the name, version and description are kept.
pub open spec fn spec_search_hit(e: FeedEntry, feed_url: Seq<char>) -> PackageView {
    PackageView {
        name: e.id@,
        version: spec_normalize_nuget_version(e.version@),
        description: e.description.deep_view(),
        author: None,
        repository: None,
        architectures: None,
        dependencies: None,
        sha256: None,
        hash_algorithm: None,
        download_url: None,
        source: SourceView::Chocolatey { feed_url },
        advisory: None,
        vulnerabilities: Seq::empty(),
    }
}

pub fn search_hit(entry: &FeedEntry, feed_url: &str) -> (r: Package)
    ensures
        r@ == spec_search_hit(*entry, feed_url@),
{
    let pkg = Package {
        name: entry.id.clone(),
        version: normalize_nuget_version(entry.version.as_str()),
        description: crate::package::copy_opt_string(&entry.description),
        author: None,
        repository: None,
        architectures: None,
        dependencies: None,
        sha256: None,
        hash_algorithm: None,
        download_url: None,
        source: PackageSource::Chocolatey { feed_url: String::from_str(feed_url) },
        advisory: None,
        vulnerabilities: Vec::new(),
    };
    proof {
        assert(pkg.vulnerabilities.deep_view() =~= Seq::<Seq<char>>::empty());
    }
    pkg
}

/// The package for the first entry of a reply; an empty reply means the
/// feed does not have it.
pub fn package_from_reply(
    entries: &Vec<FeedEntry>,
    name: &str,
    feed_url: &str,
) -> (r: Result<Package, crate::error::BallError>)
    ensures
        entries@.len() == 0 ==> (r matches Err(e) && e@ == crate::error::ErrorView::PackageNotFound(name@)),
        entries@.len() > 0 ==> (r matches Ok(p) && p@ == spec_package_from_entry(entries@[0], feed_url@)),
{
    if entries.len() == 0 {
        return Err(crate::error::BallError::PackageNotFound(String::from_str(name)));
    }
    Ok(package_from_entry(&entries[0], feed_url))
}

} // verus!
