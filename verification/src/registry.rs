//! The registries a package can come from, and how they are named.

use vstd::prelude::*;
use vstd::string::*;

use crate::error::{BallError, ErrorView};
use crate::package::{Package, PackageView};
use crate::platform::HostOs;
use crate::text::{ascii_lower, chars_of, concat, concat3, eq_chars, is_ascii_text, is_ws, join, join_strings,
    lemma_ascii_lower_stable, lemma_trim_ends, lemma_trim_of_trimmed, lowercase_chars, spec_to_lowercase, trim,
    trimmed};

verus! {

#[derive(Debug, Clone, Copy, PartialEq, Eq, Structural)]
pub enum RegistrySource {
    GitHub,
    BallerRegistry,
    Chocolatey,
    System,
    Cargo,
}

/// Source names are matched after trimming and lowercasing, so a name that
/// is already trimmed and lowercased names the same source: for ASCII
/// names (the only ones a source is named by), naming a source is the same
/// on `name` and on `name.trim().to_lowercase()`.
pub proof fn law_source_name_normalized(name: Seq<char>)
    requires
        is_ascii_text(name),
    ensures
        spec_from_config_name(spec_to_lowercase(trim(name))) == spec_from_config_name(name),
{
    let t = trim(name);
    lemma_trim_ends(name);
    assert(is_ascii_text(t)) by {
        assert forall|j: int| 0 <= j < t.len() implies (#[trigger] t[j] as u32) < 128 by {
            let i = choose|i: int| 0 <= i < name.len() && t[j] == name[i];
        }
    }
    let l = ascii_lower(t);
    lemma_ascii_lower_stable(t);
    assert(spec_to_lowercase(t) == l);
    if l.len() > 0 {
        assert(!is_ws(l[0]));
        assert(l.last() == l[l.len() - 1]);
        assert(!is_ws(l[l.len() - 1]));
    }
    lemma_trim_of_trimmed(l);
    assert(spec_to_lowercase(trim(l)) == l);
}

pub open spec fn spec_config_name(s: RegistrySource) -> Seq<char> {
    match s {
        RegistrySource::GitHub => "github"@,
        RegistrySource::BallerRegistry => "baller"@,
        RegistrySource::Chocolatey => "chocolatey"@,
        RegistrySource::System => "system"@,
        RegistrySource::Cargo => "cargo"@,
    }
}

pub open spec fn spec_db_name(s: RegistrySource) -> Seq<char> {
    match s {
        RegistrySource::GitHub => "github"@,
        RegistrySource::BallerRegistry => "baller_registry"@,
        RegistrySource::Chocolatey => "chocolatey"@,
        RegistrySource::System => "system"@,
        RegistrySource::Cargo => "cargo"@,
    }
}

/// The source a `source_order` entry names: matched after trimming and
/// lowercasing, unknown names naming none.
pub open spec fn spec_from_config_name(name: Seq<char>) -> Option<RegistrySource> {
    let k = spec_to_lowercase(trim(name));
    if k == "github"@ {
        Some(RegistrySource::GitHub)
    } else if k == "baller"@ {
        Some(RegistrySource::BallerRegistry)
    } else if k == "chocolatey"@ {
        Some(RegistrySource::Chocolatey)
    } else if k == "system"@ {
        Some(RegistrySource::System)
    } else if k == "cargo"@ {
        Some(RegistrySource::Cargo)
    } else {
        None
    }
}

impl RegistrySource {
    /// The name this source is written as in `baller.conf`'s `source_order`.
    pub fn config_name(&self) -> (r: &'static str)
        ensures
            r@ == spec_config_name(*self),
    {
        match self {
            RegistrySource::GitHub => "github",
            RegistrySource::BallerRegistry => "baller",
            RegistrySource::Chocolatey => "chocolatey",
            RegistrySource::System => "system",
            RegistrySource::Cargo => "cargo",
        }
    }

    /// The value stored in the database's `source` column for this source.
    pub fn db_name(&self) -> (r: &'static str)
        ensures
            r@ == spec_db_name(*self),
    {
        match self {
            RegistrySource::GitHub => "github",
            RegistrySource::BallerRegistry => "baller_registry",
            RegistrySource::Chocolatey => "chocolatey",
            RegistrySource::System => "system",
            RegistrySource::Cargo => "cargo",
        }
    }

    /// Parse a `source_order` entry; unknown names are ignored by the caller.
    pub fn from_config_name(name: &str) -> (r: Option<RegistrySource>)
        ensures
            r == spec_from_config_name(name@),
    {
        let v = chars_of(name);
        let t = trimmed(v.as_slice());
        let k = lowercase_chars(t.as_slice());
        let k = k.as_slice();
        if crate::text::eq_str(k, "github") {
            Some(RegistrySource::GitHub)
        } else if crate::text::eq_str(k, "baller") {
            Some(RegistrySource::BallerRegistry)
        } else if crate::text::eq_str(k, "chocolatey") {
            Some(RegistrySource::Chocolatey)
        } else if crate::text::eq_str(k, "system") {
            Some(RegistrySource::System)
        } else if crate::text::eq_str(k, "cargo") {
            Some(RegistrySource::Cargo)
        } else {
            None
        }
    }
}

/// The source chain each platform prefers: the Baller registry first, then the
/// native ecosystem, with GitHub as the last-resort fallback.
pub open spec fn spec_default_source_order(os: HostOs) -> Seq<RegistrySource> {
    match os {
        HostOs::Windows => seq![
            RegistrySource::BallerRegistry,
            RegistrySource::Chocolatey,
            RegistrySource::GitHub,
        ],
        HostOs::Linux => seq![
            RegistrySource::BallerRegistry,
            RegistrySource::System,
            RegistrySource::GitHub,
        ],
    }
}

pub fn default_source_order(os: HostOs) -> (r: Vec<RegistrySource>)
    ensures
        r@ == spec_default_source_order(os),
{
    let mut v = Vec::new();
    v.push(RegistrySource::BallerRegistry);
    match os {
        HostOs::Windows => v.push(RegistrySource::Chocolatey),
        HostOs::Linux => v.push(RegistrySource::System),
    }
    v.push(RegistrySource::GitHub);
    proof {
        assert(v@ =~= spec_default_source_order(os));
    }
    v
}

/// A registry answer, as a value.
pub open spec fn answer_view(a: Result<Package, BallError>) -> Result<PackageView, ErrorView> {
    match a {
        Ok(p) => Ok(p@),
        Err(e) => Err(e@),
    }
}

/// A registry that serves package metadata by name.
///
/// What a lookup returns depends on the registry (the network, the host's
/// package manager), so nothing is promised of the answer itself: `answers`
/// is the registry's own relation between a name and what it gives back for
/// it, which ties every answer the resolver works with to the name it asked
/// for.
pub trait RegistryIndex {
    /// `r` is an answer this registry gives when asked for `name`. Code
    /// generic over the registry knows nothing more of it than what
    /// `fetch_package` ensures. The default, which an implementation that
    /// states nothing of its answers keeps, relates every name to every
    /// answer.
    open spec fn answers(&self, name: Seq<char>, r: Result<PackageView, ErrorView>) -> bool {
        true
    }

    fn fetch_package(&self, name: &str) -> (r: Result<Package, BallError>)
        ensures
            self.answers(name@, answer_view(r)),
    ;
}

/// The error a lookup that every source declined ends in.
pub open spec fn spec_not_found(name: Seq<char>, errors: Seq<Seq<char>>) -> ErrorView {
    if errors.len() == 0 {
        ErrorView::PackageNotFound(name + " not found in any configured registry"@)
    } else {
        ErrorView::PackageNotFound(
            name + " not found. Sources tried:\n  "@ + join(errors, "\n  "@),
        )
    }
}

pub fn not_found(name: &str, errors: &Vec<String>) -> (r: BallError)
    ensures
        r@ == spec_not_found(name@, errors.deep_view()),
{
    if errors.len() == 0 {
        BallError::PackageNotFound(concat(name, " not found in any configured registry"))
    } else {
        let j = join_strings(errors, "\n  ");
        BallError::PackageNotFound(concat3(name, " not found. Sources tried:\n  ", j.as_str()))
    }
}

/// How a source is named in the list of sources tried (its variant name).
pub open spec fn spec_debug_name(s: RegistrySource) -> Seq<char> {
    match s {
        RegistrySource::GitHub => "GitHub"@,
        RegistrySource::BallerRegistry => "BallerRegistry"@,
        RegistrySource::Chocolatey => "Chocolatey"@,
        RegistrySource::System => "System"@,
        RegistrySource::Cargo => "Cargo"@,
    }
}

pub fn debug_name(s: RegistrySource) -> (r: &'static str)
    ensures
        r@ == spec_debug_name(s),
{
    match s {
        RegistrySource::GitHub => "GitHub",
        RegistrySource::BallerRegistry => "BallerRegistry",
        RegistrySource::Chocolatey => "Chocolatey",
        RegistrySource::System => "System",
        RegistrySource::Cargo => "Cargo",
    }
}

/// The line a declined source adds to the not-found error: the source and
/// why it declined.
pub fn tried_line(source: RegistrySource, error: &BallError) -> (r: String)
    ensures
        r@ == spec_debug_name(source) + ": "@ + crate::error::message_of(*error),
{
    concat3(debug_name(source), ": ", error.message().as_str())
}

/// Sources that cannot serve a pinned version say why; the others are
/// asked.
pub fn pin_refusal(source: RegistrySource, name: &str) -> (r: Option<BallError>)
    ensures
        source == RegistrySource::BallerRegistry ==> (r matches Some(e) && e@ == ErrorView::UnsupportedCommand(
            "version pinning against the Baller registry is not supported yet"@,
        )),
        source == RegistrySource::System ==> (r matches Some(e) && e@ == ErrorView::PackageManagerError(
            "system packages always install the latest available version — cannot pin '"@ + name@ + "'"@,
        )),
        source != RegistrySource::BallerRegistry && source != RegistrySource::System ==> r is None,
{
    match source {
        RegistrySource::BallerRegistry => Some(
            BallError::UnsupportedCommand(
                String::from_str("version pinning against the Baller registry is not supported yet"),
            ),
        ),
        RegistrySource::System => Some(
            BallError::PackageManagerError(
                concat3("system packages always install the latest available version — cannot pin '", name, "'"),
            ),
        ),
        _ => None,
    }
}

/// The name a pinned lookup reports as not found: `name@version`.
pub fn pinned_name(name: &str, version: &str) -> (r: String)
    ensures
        r@ == name@ + "@"@ + version@,
{
    concat3(name, "@", version)
}

/// A search across sources stops once it has 20 results.
pub fn search_is_full(found: usize) -> (r: bool)
    ensures
        r == (found >= 20),
{
    found >= 20
}

} // verus!
