//! What every command shares: the resolved source chain and the global flags.

use vstd::prelude::*;

use crate::config::{RegistryConfig, RegistryConfigView};
use crate::registry::{spec_from_config_name, RegistrySource};

verus! {

/// Whether `source` is switched on in `registry`.
pub open spec fn source_enabled(source: RegistrySource, registry: RegistryConfigView) -> bool {
    match source {
        RegistrySource::GitHub => registry.github_enabled,
        RegistrySource::BallerRegistry => registry.baller_enabled,
        RegistrySource::Chocolatey => registry.chocolatey_enabled,
        RegistrySource::System => registry.system_enabled,
        RegistrySource::Cargo => registry.cargo_enabled,
    }
}

/// The configured names, each mapped to the source it names, unknown names
/// and disabled sources dropped, order kept.
pub open spec fn spec_effective_order(names: Seq<Seq<char>>, registry: RegistryConfigView) -> Seq<
    RegistrySource,
>
    decreases names.len(),
{
    if names.len() == 0 {
        Seq::empty()
    } else {
        let pre = spec_effective_order(names.drop_last(), registry);
        match spec_from_config_name(names.last()) {
            Some(s) => if source_enabled(s, registry) {
                pre.push(s)
            } else {
                pre
            },
            None => pre,
        }
    }
}

fn is_enabled(source: RegistrySource, registry: &RegistryConfig) -> (r: bool)
    ensures
        r == source_enabled(source, registry@),
{
    match source {
        RegistrySource::GitHub => registry.github_enabled,
        RegistrySource::BallerRegistry => registry.baller_enabled,
        RegistrySource::Chocolatey => registry.chocolatey_enabled,
        RegistrySource::System => registry.system_enabled,
        RegistrySource::Cargo => registry.cargo_enabled,
    }
}

/// Resolve the configured `source_order` into the chain the registry client
/// actually queries: entries whose source is disabled — and names that match no
/// known source — are dropped, and the configured order is preserved.
pub fn effective_source_order(registry: &RegistryConfig) -> (r: Vec<RegistrySource>)
    ensures
        r@ == spec_effective_order(registry@.source_order, registry@),
{
    let ghost names = registry@.source_order;
    let mut out: Vec<RegistrySource> = Vec::new();
    let mut i: usize = 0;
    while i < registry.source_order.len()
        invariant
            names == registry.source_order.deep_view(),
            i <= names.len(),
            out@ == spec_effective_order(names.subrange(0, i as int), registry@),
        decreases names.len() - i,
    {
        proof {
            let cur = names.subrange(0, i + 1);
            assert(cur.drop_last() =~= names.subrange(0, i as int));
            assert(cur.last() == registry.source_order[i as int]@);
        }
        match RegistrySource::from_config_name(registry.source_order[i].as_str()) {
            Some(s) => {
                if is_enabled(s, registry) {
                    out.push(s);
                }
            },
            None => {},
        }
        i = i + 1;
    }
    proof {
        assert(names.subrange(0, names.len() as int) =~= names);
    }
    out
}

/// Flags accepted by every subcommand, resolved once from the CLI.
#[derive(Debug, Clone)]
pub struct GlobalFlags {
    pub yes: bool,
    pub quiet: bool,
    pub json: bool,
    pub verbose: u8,
}

impl Default for GlobalFlags {
    fn default() -> (r: GlobalFlags)
        ensures
            !r.yes && !r.quiet && !r.json && r.verbose == 0,
    {
        GlobalFlags { yes: false, quiet: false, json: false, verbose: 0 }
    }
}

impl GlobalFlags {
    /// Whether human-readable progress output should be withheld.
    ///
    /// `--json` implies quiet so stdout stays parseable.
    pub fn is_quiet(&self) -> (r: bool)
        ensures
            r == (self.quiet || self.json),
    {
        self.quiet || self.json
    }
}

} // verus!
