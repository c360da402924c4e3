//! Package metadata as every registry reports it.

use vstd::prelude::*;
use vstd::string::*;

use crate::text::{chars_of, trim, trimmed_string};

verus! {

#[derive(Debug, Clone, PartialEq)]
pub enum PackageSource {
    GitHub { owner: String, repo: String },
    BallerRegistry { url: String },
    Chocolatey { feed_url: String },
    System { manager: String },
    Cargo { crate_name: String },
}

pub enum SourceView {
    GitHub { owner: Seq<char>, repo: Seq<char> },
    BallerRegistry { url: Seq<char> },
    Chocolatey { feed_url: Seq<char> },
    System { manager: Seq<char> },
    Cargo { crate_name: Seq<char> },
}

impl View for PackageSource {
    type V = SourceView;

    open spec fn view(&self) -> SourceView {
        match self {
            PackageSource::GitHub { owner, repo } => SourceView::GitHub {
                owner: owner@,
                repo: repo@,
            },
            PackageSource::BallerRegistry { url } => SourceView::BallerRegistry { url: url@ },
            PackageSource::Chocolatey { feed_url } => SourceView::Chocolatey {
                feed_url: feed_url@,
            },
            PackageSource::System { manager } => SourceView::System { manager: manager@ },
            PackageSource::Cargo { crate_name } => SourceView::Cargo { crate_name: crate_name@ },
        }
    }
}

impl Default for PackageSource {
    /// GitHub with an empty owner and repository.
    fn default() -> (r: PackageSource)
        ensures
            r@ == (SourceView::GitHub { owner: Seq::empty(), repo: Seq::empty() }),
    {
        PackageSource::GitHub { owner: String::new(), repo: String::new() }
    }
}

impl PackageSource {

    pub fn copy(&self) -> (r: PackageSource)
        ensures
            r@ == self@,
    {
        match self {
            PackageSource::GitHub { owner, repo } => PackageSource::GitHub {
                owner: owner.clone(),
                repo: repo.clone(),
            },
            PackageSource::BallerRegistry { url } => PackageSource::BallerRegistry {
                url: url.clone(),
            },
            PackageSource::Chocolatey { feed_url } => PackageSource::Chocolatey {
                feed_url: feed_url.clone(),
            },
            PackageSource::System { manager } => PackageSource::System { manager: manager.clone() },
            PackageSource::Cargo { crate_name } => PackageSource::Cargo {
                crate_name: crate_name.clone(),
            },
        }
    }

    /// Whether the package comes from the native system package manager.
    pub fn is_system(&self) -> (r: bool)
        ensures
            r == (self@ is System),
    {
        match self {
            PackageSource::System { .. } => true,
            _ => false,
        }
    }
}

/// A package stating where its own known-issue surface lives.
#[derive(Debug, Clone, PartialEq)]
pub struct AdvisoryDeclaration {
    /// OSV ecosystem, e.g. `crates.io`, `npm`, `GitHub`
    pub ecosystem: Option<String>,
    /// The name inside that ecosystem; defaults to the package name
    pub name: Option<String>,
    /// Advisory ids this package is also known by (CVE, GHSA, …)
    pub aliases: Vec<String>,
}

pub struct AdvisoryView {
    pub ecosystem: Option<Seq<char>>,
    pub name: Option<Seq<char>>,
    pub aliases: Seq<Seq<char>>,
}

impl View for AdvisoryDeclaration {
    type V = AdvisoryView;

    open spec fn view(&self) -> AdvisoryView {
        AdvisoryView {
            ecosystem: self.ecosystem.deep_view(),
            name: self.name.deep_view(),
            aliases: self.aliases.deep_view(),
        }
    }
}

#[derive(Debug, Clone)]
pub struct Package {
    pub name: String,
    pub version: String,
    pub description: Option<String>,
    pub author: Option<String>,
    pub repository: Option<String>,
    pub architectures: Option<Vec<String>>,
    pub dependencies: Option<Vec<String>>,
    pub sha256: Option<String>,
    pub hash_algorithm: Option<String>,
    pub download_url: Option<String>,
    pub source: PackageSource,
    /// The package's self-declared advisory identity, when it ships one.
    pub advisory: Option<AdvisoryDeclaration>,
    /// Advisories the serving registry published for this exact version, each
    /// kept as the raw JSON text of one OSV-shaped record.
    pub vulnerabilities: Vec<String>,
}

pub struct PackageView {
    pub name: Seq<char>,
    pub version: Seq<char>,
    pub description: Option<Seq<char>>,
    pub author: Option<Seq<char>>,
    pub repository: Option<Seq<char>>,
    pub architectures: Option<Seq<Seq<char>>>,
    pub dependencies: Option<Seq<Seq<char>>>,
    pub sha256: Option<Seq<char>>,
    pub hash_algorithm: Option<Seq<char>>,
    pub download_url: Option<Seq<char>>,
    pub source: SourceView,
    pub advisory: Option<AdvisoryView>,
    pub vulnerabilities: Seq<Seq<char>>,
}

impl View for Package {
    type V = PackageView;

    open spec fn view(&self) -> PackageView {
        PackageView {
            name: self.name@,
            version: self.version@,
            description: self.description.deep_view(),
            author: self.author.deep_view(),
            repository: self.repository.deep_view(),
            architectures: self.architectures.deep_view(),
            dependencies: self.dependencies.deep_view(),
            sha256: self.sha256.deep_view(),
            hash_algorithm: self.hash_algorithm.deep_view(),
            download_url: self.download_url.deep_view(),
            source: self.source@,
            advisory: match self.advisory {
                Some(a) => Some(a@),
                None => None,
            },
            vulnerabilities: self.vulnerabilities.deep_view(),
        }
    }
}

pub fn copy_opt_string(o: &Option<String>) -> (r: Option<String>)
    ensures
        r.deep_view() == o.deep_view(),
{
    match o {
        Some(s) => Some(s.clone()),
        None => None,
    }
}

pub fn copy_strings(v: &Vec<String>) -> (r: Vec<String>)
    ensures
        r.deep_view() == v.deep_view(),
{
    let mut r: Vec<String> = Vec::new();
    let mut i: usize = 0;
    while i < v.len()
        invariant
            i <= v@.len(),
            r.deep_view() == v.deep_view().subrange(0, i as int),
        decreases v@.len() - i,
    {
        let ghost before = r.deep_view();
        r.push(v[i].clone());
        i = i + 1;
        proof {
            assert(r.deep_view() =~= before.push(v[i - 1]@));
            assert(r.deep_view() =~= v.deep_view().subrange(0, i as int));
        }
    }
    proof {
        assert(v.deep_view().subrange(0, v@.len() as int) =~= v.deep_view());
    }
    r
}

pub fn copy_opt_strings(o: &Option<Vec<String>>) -> (r: Option<Vec<String>>)
    ensures
        r.deep_view() == o.deep_view(),
{
    match o {
        Some(v) => Some(copy_strings(v)),
        None => None,
    }
}

impl AdvisoryDeclaration {
    pub fn copy(&self) -> (r: AdvisoryDeclaration)
        ensures
            r@ == self@,
    {
        AdvisoryDeclaration {
            ecosystem: copy_opt_string(&self.ecosystem),
            name: copy_opt_string(&self.name),
            aliases: copy_strings(&self.aliases),
        }
    }
}

/// The advisory identity a package declares: `(ecosystem, name)` with both
/// trimmed, the name defaulting to the package name, and nothing when either
/// would be empty.
pub open spec fn spec_advisory_identities(p: PackageView) -> Seq<(Seq<char>, Seq<char>)> {
    match p.advisory {
        None => Seq::empty(),
        Some(d) => match d.ecosystem {
            None => Seq::empty(),
            Some(e) => if trim(e).len() == 0 {
                Seq::empty()
            } else {
                let declared = match d.name {
                    Some(n) => trim(n),
                    None => Seq::empty(),
                };
                let name = if declared.len() > 0 {
                    declared
                } else {
                    trim(p.name)
                };
                if name.len() == 0 {
                    Seq::empty()
                } else {
                    seq![(trim(e), name)]
                }
            },
        },
    }
}

impl Package {
    /// A bare package: only a name, a version and a GitHub source whose
    /// repository is the package name.
    pub fn new(name: &str, version: &str) -> (r: Package)
        ensures
            r@ == (PackageView {
                name: name@,
                version: version@,
                description: None,
                author: None,
                repository: None,
                architectures: None,
                dependencies: None,
                sha256: None,
                hash_algorithm: None,
                download_url: None,
                source: SourceView::GitHub { owner: Seq::empty(), repo: name@ },
                advisory: None,
                vulnerabilities: Seq::empty(),
            }),
    {
        let r = Package {
            name: String::from_str(name),
            version: String::from_str(version),
            description: None,
            author: None,
            repository: None,
            architectures: None,
            dependencies: None,
            sha256: None,
            hash_algorithm: None,
            download_url: None,
            source: PackageSource::GitHub { owner: String::new(), repo: String::from_str(name) },
            advisory: None,
            vulnerabilities: Vec::new(),
        };
        proof {
            assert(r.vulnerabilities.deep_view() =~= Seq::<Seq<char>>::empty());
        }
        r
    }

    pub fn copy(&self) -> (r: Package)
        ensures
            r@ == self@,
    {
        Package {
            name: self.name.clone(),
            version: self.version.clone(),
            description: copy_opt_string(&self.description),
            author: copy_opt_string(&self.author),
            repository: copy_opt_string(&self.repository),
            architectures: copy_opt_strings(&self.architectures),
            dependencies: copy_opt_strings(&self.dependencies),
            sha256: copy_opt_string(&self.sha256),
            hash_algorithm: copy_opt_string(&self.hash_algorithm),
            download_url: copy_opt_string(&self.download_url),
            source: self.source.copy(),
            advisory: match &self.advisory {
                Some(a) => Some(a.copy()),
                None => None,
            },
            vulnerabilities: copy_strings(&self.vulnerabilities),
        }
    }

    /// The `(ecosystem, name)` pairs this package declares about itself.
    pub fn advisory_identities(&self) -> (r: Vec<(String, String)>)
        ensures
            r@.len() == spec_advisory_identities(self@).len(),
            forall|i: int|
                0 <= i < r@.len() ==> (#[trigger] r@[i]).0@ == spec_advisory_identities(
                    self@,
                )[i].0 && r@[i].1@ == spec_advisory_identities(self@)[i].1,
    {
        let mut out: Vec<(String, String)> = Vec::new();
        let declaration = match &self.advisory {
            Some(d) => d,
            None => return out,
        };
        let ecosystem = match &declaration.ecosystem {
            Some(e) => {
                let ev = chars_of(e.as_str());
                trimmed_string(ev.as_slice())
            },
            None => return out,
        };
        if ecosystem.unicode_len() == 0 {
            return out;
        }
        let declared = match &declaration.name {
            Some(n) => {
                let nv = chars_of(n.as_str());
                trimmed_string(nv.as_slice())
            },
            None => String::new(),
        };
        let name = if declared.unicode_len() > 0 {
            declared
        } else {
            let pv = chars_of(self.name.as_str());
            trimmed_string(pv.as_slice())
        };
        if name.unicode_len() == 0 {
            return out;
        }
        out.push((ecosystem, name));
        out
    }

    /// Advisory ids the package declares itself to be tracked under.
    pub fn declared_aliases(&self) -> (r: Vec<String>)
        ensures
            r.deep_view() == match self.advisory {
                Some(d) => d.aliases.deep_view(),
                None => Seq::empty(),
            },
    {
        match &self.advisory {
            Some(d) => copy_strings(&d.aliases),
            None => {
                let r: Vec<String> = Vec::new();
                proof {
                    assert(r.deep_view() =~= Seq::<Seq<char>>::empty());
                }
                r
            },
        }
    }
}

} // verus!
