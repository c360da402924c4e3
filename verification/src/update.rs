//! `baller update`: what happens to each selected package, and the tally the
//! run reports. Fetching, downloading and linking are done by the caller,
//! which hands each outcome back.

use vstd::prelude::*;
use vstd::string::*;

use crate::commands::{needs_update, spec_needs_update};
use crate::package::{Package, PackageView};
use crate::text::concat3;

verus! {

/// A frozen package is looked at only when frozen packages are included.
pub fn should_check(frozen: bool, include_frozen: bool) -> (r: bool)
    ensures
        r == (!frozen || include_frozen),
{
    !frozen || include_frozen
}

/// What to do with a package whose registry version is known.
#[derive(Debug, Clone, Copy, PartialEq, Eq, Structural)]
pub enum UpdateDecision {
    /// The installed version is current.
    UpToDate,
    /// A newer version exists; only reported (`--check`).
    Stale,
    /// A newer version exists and is installed.
    Apply,
}

/// Compares the installed and registry versions (by version order when both
/// read as versions, else by text).
pub fn decide(installed_version: &str, remote_version: &str, check: bool) -> (r: UpdateDecision)
    ensures
        !spec_needs_update(installed_version@, remote_version@) ==> r == UpdateDecision::UpToDate,
        spec_needs_update(installed_version@, remote_version@) && check ==> r == UpdateDecision::Stale,
        spec_needs_update(installed_version@, remote_version@) && !check ==> r == UpdateDecision::Apply,
{
    if !needs_update(installed_version, remote_version) {
        UpdateDecision::UpToDate
    } else if check {
        UpdateDecision::Stale
    } else {
        UpdateDecision::Apply
    }
}

/// A package a newer version of which exists.
#[derive(Debug, Clone)]
pub struct StaleEntry {
    pub name: String,
    pub installed: String,
    pub available: String,
    pub frozen: bool,
}

/// Where each package of an update run ended up.
#[derive(Debug)]
pub struct UpdateTally {
    pub skipped: Vec<String>,
    pub updated: Vec<String>,
    pub stale: Vec<StaleEntry>,
    pub current: Vec<String>,
    pub failures: Vec<(String, String)>,
}

/// How the run is summed up.
#[derive(Debug, Clone, Copy, PartialEq, Eq, Structural)]
pub enum UpdateOutcome {
    /// Nothing needed an update (or, without `--check`, nothing was updated
    /// and nothing failed).
    AllCurrent,
    /// `--check`: this many packages can be updated.
    CanUpdate(usize),
    /// This many packages were updated and this many failed.
    Complete { updated: usize, failed: usize },
}

impl UpdateTally {
    /// How many packages the run has dealt with.
    pub open spec fn count(&self) -> nat {
        self.skipped@.len() + self.updated@.len() + self.stale@.len() + self.current@.len() + self.failures@.len()
    }

    pub fn new() -> (r: UpdateTally)
        ensures
            r.count() == 0,
            r.skipped@.len() == 0 && r.updated@.len() == 0 && r.stale@.len() == 0 && r.current@.len() == 0
                && r.failures@.len() == 0,
    {
        UpdateTally {
            skipped: Vec::new(),
            updated: Vec::new(),
            stale: Vec::new(),
            current: Vec::new(),
            failures: Vec::new(),
        }
    }

    /// A frozen package left alone.
    pub fn record_frozen(&mut self, name: String)
        ensures
            final(self).skipped@ == old(self).skipped@.push(name),
            final(self).updated@ == old(self).updated@,
            final(self).stale@ == old(self).stale@,
            final(self).current@ == old(self).current@,
            final(self).failures@ == old(self).failures@,
            final(self).count() == old(self).count() + 1,
    {
        self.skipped.push(name);
    }

    /// A package found current.
    pub fn record_current(&mut self, name: String)
        ensures
            final(self).current@ == old(self).current@.push(name),
            final(self).skipped@ == old(self).skipped@,
            final(self).updated@ == old(self).updated@,
            final(self).stale@ == old(self).stale@,
            final(self).failures@ == old(self).failures@,
            final(self).count() == old(self).count() + 1,
    {
        self.current.push(name);
    }

    /// A package reported stale.
    pub fn record_stale(&mut self, entry: StaleEntry)
        ensures
            final(self).stale@ == old(self).stale@.push(entry),
            final(self).skipped@ == old(self).skipped@,
            final(self).updated@ == old(self).updated@,
            final(self).current@ == old(self).current@,
            final(self).failures@ == old(self).failures@,
            final(self).count() == old(self).count() + 1,
    {
        self.stale.push(entry);
    }

    /// A package updated.
    pub fn record_updated(&mut self, name: String)
        ensures
            final(self).updated@ == old(self).updated@.push(name),
            final(self).skipped@ == old(self).skipped@,
            final(self).stale@ == old(self).stale@,
            final(self).current@ == old(self).current@,
            final(self).failures@ == old(self).failures@,
            final(self).count() == old(self).count() + 1,
    {
        self.updated.push(name);
    }

    /// A package whose registry lookup failed, with the error's text.
    pub fn record_failed(&mut self, name: String, error: String)
        ensures
            final(self).failures@ == old(self).failures@.push((name, error)),
            final(self).skipped@ == old(self).skipped@,
            final(self).updated@ == old(self).updated@,
            final(self).stale@ == old(self).stale@,
            final(self).current@ == old(self).current@,
            final(self).count() == old(self).count() + 1,
    {
        self.failures.push((name, error));
    }

    /// The run's summary.
    pub fn outcome(&self, check: bool) -> (r: UpdateOutcome)
        ensures
            check && self.stale@.len() == 0 ==> r == UpdateOutcome::AllCurrent,
            check && self.stale@.len() > 0 ==> r == UpdateOutcome::CanUpdate(self.stale@.len() as usize),
            !check && (self.updated@.len() > 0 || self.failures@.len() > 0) ==> r == (UpdateOutcome::Complete {
                updated: self.updated@.len() as usize,
                failed: self.failures@.len() as usize,
            }),
            !check && self.updated@.len() == 0 && self.failures@.len() == 0 ==> r == UpdateOutcome::AllCurrent,
    {
        if check {
            if self.stale.len() == 0 {
                UpdateOutcome::AllCurrent
            } else {
                UpdateOutcome::CanUpdate(self.stale.len())
            }
        } else if self.updated.len() > 0 || self.failures.len() > 0 {
            UpdateOutcome::Complete { updated: self.updated.len(), failed: self.failures.len() }
        } else {
            UpdateOutcome::AllCurrent
        }
    }
}

/// `name` is a key of the installed map.
pub open spec fn in_map(m: Seq<(String, String)>, name: Seq<char>) -> bool {
    exists|i: int| 0 <= i < m.len() && #[trigger] m[i].0@ == name
}

/// The positions, in order, of the resolved packages that are neither the
/// package being updated nor installed already.
pub open spec fn missing_upto(
    resolved: Seq<PackageView>,
    pkg_name: Seq<char>,
    installed: Seq<(String, String)>,
    n: nat,
) -> Seq<usize>
    decreases n,
{
    if n == 0 {
        Seq::empty()
    } else {
        let rest = missing_upto(resolved, pkg_name, installed, (n - 1) as nat);
        let name = resolved[n - 1].name;
        if name != pkg_name && !in_map(installed, name) {
            rest.push((n - 1) as usize)
        } else {
            rest
        }
    }
}

pub open spec fn packages_view(ps: Seq<Package>) -> Seq<PackageView> {
    Seq::new(ps.len(), |i: int| ps[i]@)
}

fn map_has(m: &Vec<(String, String)>, name: &String) -> (r: bool)
    ensures
        r == in_map(m@, name@),
{
    let mut i: usize = 0;
    while i < m.len()
        invariant
            i <= m@.len(),
            forall|j: int| 0 <= j < i ==> #[trigger] m@[j].0@ != name@,
        decreases m@.len() - i,
    {
        if m[i].0 == *name {
            return true;
        }
        i = i + 1;
    }
    false
}

/// The dependencies an update brings in that are not installed yet, by
/// position among the resolved packages.
pub fn missing_dependencies(resolved: &Vec<Package>, pkg_name: &str, installed: &Vec<(String, String)>) -> (r: Vec<
    usize,
>)
    ensures
        r@ == missing_upto(packages_view(resolved@), pkg_name@, installed@, resolved@.len()),
{
    let ghost rv = packages_view(resolved@);
    let target = String::from_str(pkg_name);
    let mut out: Vec<usize> = Vec::new();
    let mut i: usize = 0;
    while i < resolved.len()
        invariant
            rv == packages_view(resolved@),
            target@ == pkg_name@,
            i <= resolved.len(),
            out@ == missing_upto(rv, pkg_name@, installed@, i as nat),
        decreases resolved.len() - i,
    {
        proof {
            assert(rv[i as int] == resolved@[i as int]@);
        }
        if resolved[i].name != target && !map_has(installed, &resolved[i].name) {
            out.push(i);
        }
        i = i + 1;
    }
    out
}

/// The directory a package version is extracted into under the cache.
pub open spec fn spec_extract_dir_name(name: Seq<char>, version: Seq<char>) -> Seq<char> {
    name + "-"@ + version
}

pub fn extract_dir_name(name: &str, version: &str) -> (r: String)
    ensures
        r@ == spec_extract_dir_name(name@, version@),
{
    concat3(name, "-", version)
}

/// What an update's hooks are told: the version being installed and the
/// one being replaced.
pub fn update_hook_env(new_version: &str, old_version: &str) -> (r: Vec<(String, String)>)
    ensures
        r@.len() == 2,
        r@[0].0@ == "BALLER_NEW_VERSION"@ && r@[0].1@ == new_version@,
        r@[1].0@ == "BALLER_OLD_VERSION"@ && r@[1].1@ == old_version@,
{
    let mut env: Vec<(String, String)> = Vec::new();
    env.push((String::from_str("BALLER_NEW_VERSION"), String::from_str(new_version)));
    env.push((String::from_str("BALLER_OLD_VERSION"), String::from_str(old_version)));
    env
}

} // verus!
