//! `baller draft`: which packages of a resolved plan get installed, how, and
//! what the run reports. Downloading, linking and recording are done by the
//! caller, which hands each outcome back.

use vstd::prelude::*;
use vstd::string::*;

use crate::error::{BallError, ErrorView};
use crate::package::{PackageSource, SourceView};
use crate::registry::RegistrySource;
use crate::update::in_map;

verus! {

/// The system source exists only on Linux.
pub fn check_source_supported(source: Option<RegistrySource>, on_linux: bool) -> (r: Result<(), BallError>)
    ensures
        source == Some(RegistrySource::System) && !on_linux ==> (r matches Err(e) && e@ == ErrorView::UnsupportedOs(
            "the system source is only available on Linux"@,
        )),
        !(source == Some(RegistrySource::System) && !on_linux) ==> r is Ok,
{
    match source {
        Some(RegistrySource::System) => if on_linux {
            Ok(())
        } else {
            Err(BallError::UnsupportedOs(String::from_str("the system source is only available on Linux")))
        },
        _ => Ok(()),
    }
}

/// How a package gets onto the machine.
#[derive(Debug, Clone, PartialEq, Eq)]
pub enum InstallRoute {
    /// Through the native package manager.
    System { manager: String },
    /// Compiled and installed by cargo.
    Cargo { crate_name: String },
    /// Downloaded, extracted and linked by baller.
    Archive,
}

/// The route for a package from `source`.
pub fn install_route(source: &PackageSource) -> (r: InstallRoute)
    ensures
        match source@ {
            SourceView::System { manager } => r matches InstallRoute::System { manager: m } && m@ == manager,
            SourceView::Cargo { crate_name } => r matches InstallRoute::Cargo { crate_name: c } && c@ == crate_name,
            _ => r == InstallRoute::Archive,
        },
{
    match source {
        PackageSource::System { manager } => InstallRoute::System { manager: manager.clone() },
        PackageSource::Cargo { crate_name } => InstallRoute::Cargo { crate_name: crate_name.clone() },
        _ => InstallRoute::Archive,
    }
}

/// What a dry run says it would do with a package.
pub fn plan_action(name: &String, installed: &Vec<(String, String)>, force: bool) -> (r: &'static str)
    ensures
        !in_map(installed@, name@) ==> r@ == "install"@,
        in_map(installed@, name@) && force ==> r@ == "reinstall"@,
        in_map(installed@, name@) && !force ==> r@ == "skip — already installed"@,
{
    if !map_has(installed, name) {
        "install"
    } else if force {
        "reinstall"
    } else {
        "skip — already installed"
    }
}

/// Whether a package of the plan is the one asked for or a dependency.
pub fn plan_role(name: &String, root: &String) -> (r: &'static str)
    ensures
        name@ == root@ ==> r@ == "root"@,
        name@ != root@ ==> r@ == "dependency"@,
{
    if *name == *root {
        "root"
    } else {
        "dependency"
    }
}

/// What the post-install hook is told: where the package went and its
/// linked binary (empty when it has none).
pub fn post_install_env(install_path: &str, bin_path: Option<&str>) -> (r: Vec<(String, String)>)
    ensures
        r@.len() == 2,
        r@[0].0@ == "BALLER_INSTALL_PATH"@ && r@[0].1@ == install_path@,
        r@[1].0@ == "BALLER_BIN_PATH"@ && r@[1].1@ == match bin_path {
            Some(b) => b@,
            None => Seq::<char>::empty(),
        },
{
    let mut env: Vec<(String, String)> = Vec::new();
    env.push((String::from_str("BALLER_INSTALL_PATH"), String::from_str(install_path)));
    let bin = match bin_path {
        Some(b) => String::from_str(b),
        None => String::new(),
    };
    env.push((String::from_str("BALLER_BIN_PATH"), bin));
    env
}

fn map_index(m: &Vec<(String, String)>, name: &String) -> (r: Option<usize>)
    ensures
        match r {
            Some(i) => i < m@.len() && m@[i as int].0@ == name@,
            None => !in_map(m@, name@),
        },
{
    let mut i: usize = 0;
    while i < m.len()
        invariant
            i <= m@.len(),
            forall|j: int| 0 <= j < i ==> #[trigger] m@[j].0@ != name@,
        decreases m@.len() - i,
    {
        if m[i].0 == *name {
            return Some(i);
        }
        i = i + 1;
    }
    None
}

fn map_has(m: &Vec<(String, String)>, name: &String) -> (r: bool)
    ensures
        r == in_map(m@, name@),
{
    let mut i: usize = 0;
    while i < m.len()
        invariant
            i <= m@.len(),
            forall|j: int| 0 <= j < i ==> #[trigger] m@[j].0@ != name@,
        decreases m@.len() - i,
    {
        if m[i].0 == *name {
            return true;
        }
        i = i + 1;
    }
    false
}

/// The installed packages as a draft run goes: what was there, plus what
/// the run installed, so a package installed earlier in the run is not
/// installed twice.
#[derive(Debug)]
pub struct DraftSession {
    pub installed: Vec<(String, String)>,
    pub session: Vec<String>,
    pub skipped: Vec<String>,
}

impl DraftSession {
    pub fn new(installed: Vec<(String, String)>) -> (r: DraftSession)
        ensures
            r.installed@ == installed@,
            r.session@.len() == 0,
            r.skipped@.len() == 0,
    {
        DraftSession { installed, session: Vec::new(), skipped: Vec::new() }
    }

    /// A package is installed when it is not there yet, or when forced.
    pub fn wants(&self, name: &String, force: bool) -> (r: bool)
        ensures
            r == spec_wants(self.installed@, name@, force),
    {
        force || !map_has(&self.installed, name)
    }

    /// A package left as it was.
    pub fn record_skip(&mut self, name: String)
        ensures
            final(self).skipped@ == old(self).skipped@.push(name),
            final(self).session@ == old(self).session@,
            final(self).installed@ == old(self).installed@,
    {
        self.skipped.push(name);
    }

    /// A package installed: it joins the session and the installed map.
    pub fn record_install(&mut self, name: String, version: String)
        ensures
            final(self).session@ == old(self).session@.push(name),
            final(self).skipped@ == old(self).skipped@,
            in_map(final(self).installed@, name@),
            forall|k: Seq<char>| k != name@ ==> (in_map(final(self).installed@, k) == in_map(old(self).installed@, k)),
    {
        let ghost before = self.installed@;
        let at = map_index(&self.installed, &name);
        let key = name.clone();
        if let Some(i) = at {
            self.installed.set(i, (key, version));
            proof {
                assert(self.installed@[i as int].0@ == name@);
                assert forall|k: Seq<char>| k != name@ implies (in_map(self.installed@, k) == in_map(before, k)) by {
                    if in_map(before, k) {
                        let w = choose|w: int| 0 <= w < before.len() && #[trigger] before[w].0@ == k;
                        assert(w != i);
                        assert(self.installed@[w].0@ == k);
                    }
                    if in_map(self.installed@, k) {
                        let w = choose|w: int| 0 <= w < self.installed@.len() && #[trigger] self.installed@[w].0@ == k;
                        assert(self.installed@[i as int].0@ != k);
                        assert(w != i);
                        assert(before[w].0@ == k);
                    }
                }
            }
        } else {
            self.installed.push((key, version));
            proof {
                let n = before.len() as int;
                assert(self.installed@[n].0@ == name@);
                assert forall|k: Seq<char>| k != name@ implies (in_map(self.installed@, k) == in_map(before, k)) by {
                    if in_map(before, k) {
                        let w = choose|w: int| 0 <= w < before.len() && #[trigger] before[w].0@ == k;
                        assert(self.installed@[w].0@ == k);
                    }
                    if in_map(self.installed@, k) {
                        let w = choose|w: int| 0 <= w < self.installed@.len() && #[trigger] self.installed@[w].0@ == k;
                        assert(w != n);
                        assert(before[w].0@ == k);
                    }
                }
            }
        }
        self.session.push(name);
    }
}

/// Whether a draft run installs `name`, given what is installed so far.
pub open spec fn spec_wants(installed: Seq<(String, String)>, name: Seq<char>, force: bool) -> bool {
    force || !in_map(installed, name)
}

/// A package installed earlier in a run (so recorded in the session's map)
/// is not installed again unless the run is forced; recording one package
/// changes the answer for no other.
pub proof fn law_installed_in_session_is_not_reinstalled(
    before: Seq<(String, String)>,
    after: Seq<(String, String)>,
    name: Seq<char>,
    other: Seq<char>,
    force: bool,
)
    requires
        in_map(after, name),
        forall|k: Seq<char>| k != name ==> (in_map(after, k) == in_map(before, k)),
    ensures
        !spec_wants(after, name, false),
        other != name ==> spec_wants(after, other, force) == spec_wants(before, other, force),
{
}

} // verus!
