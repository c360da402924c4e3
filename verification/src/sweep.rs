//! `baller sweep`: what a sweep of the download cache does, given what the
//! cache holds. Measuring the cache, asking for confirmation and deleting are
//! done by the caller.

use vstd::prelude::*;

verus! {

/// What the sweep was asked to remove.
pub fn sweep_mode(all: bool) -> (r: &'static str)
    ensures
        all ==> r@ == "all"@,
        !all ==> r@ == "archives"@,
{
    if all {
        "all"
    } else {
        "archives"
    }
}

/// What a sweep does.
#[derive(Debug, Clone, Copy, PartialEq, Eq, Structural)]
pub enum SweepPlan {
    /// The cache is no larger than the threshold: nothing is swept.
    BelowThreshold { cache_bytes: u64, threshold: u64 },
    /// Nothing to remove.
    Empty,
    /// `--dry-run`: what would be removed.
    WouldSweep { archives: u64, extracted: u64, bytes: u64 },
    /// Remove this much (after confirmation).
    Sweep { extracted: u64, bytes: u64 },
}

/// The sweep for a cache of `cache_bytes` holding `archives` downloaded
/// archives (`archive_bytes` of them) and `extracted` extracted packages:
/// the threshold is checked first, then whether anything is there to
/// remove; `--all` targets the whole cache, otherwise only the archives.
pub open spec fn spec_sweep_plan(
    all: bool,
    dry_run: bool,
    threshold: Option<u64>,
    cache_bytes: u64,
    archive_bytes: u64,
    archives: u64,
    extracted: u64,
) -> SweepPlan {
    let targeted = if all {
        extracted
    } else {
        0
    };
    let bytes = if all {
        cache_bytes
    } else {
        archive_bytes
    };
    if threshold matches Some(t) && cache_bytes <= t {
        SweepPlan::BelowThreshold { cache_bytes, threshold: threshold->Some_0 }
    } else if archives == 0 && (!all || extracted == 0) {
        SweepPlan::Empty
    } else if dry_run {
        SweepPlan::WouldSweep { archives, extracted: targeted, bytes }
    } else {
        SweepPlan::Sweep { extracted: targeted, bytes }
    }
}

pub fn sweep_plan(
    all: bool,
    dry_run: bool,
    threshold: Option<u64>,
    cache_bytes: u64,
    archive_bytes: u64,
    archives: u64,
    extracted: u64,
) -> (r: SweepPlan)
    ensures
        r == spec_sweep_plan(all, dry_run, threshold, cache_bytes, archive_bytes, archives, extracted),
{
    match threshold {
        Some(t) => {
            if cache_bytes <= t {
                return SweepPlan::BelowThreshold { cache_bytes, threshold: t };
            }
        },
        None => {},
    }
    if archives == 0 && (!all || extracted == 0) {
        return SweepPlan::Empty;
    }
    let bytes = if all {
        cache_bytes
    } else {
        archive_bytes
    };
    let targeted = if all {
        extracted
    } else {
        0
    };
    if dry_run {
        SweepPlan::WouldSweep { archives, extracted: targeted, bytes }
    } else {
        SweepPlan::Sweep { extracted: targeted, bytes }
    }
}

/// After an archives-only sweep, whether to point out the extracted
/// packages that were kept.
pub fn mention_kept(all: bool, extracted: u64) -> (r: bool)
    ensures
        r == (!all && extracted > 0),
{
    !all && extracted > 0
}

/// A sweep never removes more than it was asked to: an archives-only sweep
/// targets no extracted package and no more bytes than the archives hold,
/// nothing is removed from a cache no larger than the threshold, and a dry
/// run removes nothing.
pub proof fn law_sweep_stays_in_bounds(
    all: bool,
    dry_run: bool,
    threshold: Option<u64>,
    cache_bytes: u64,
    archive_bytes: u64,
    archives: u64,
    extracted: u64,
)
    ensures
        !all ==> match spec_sweep_plan(all, dry_run, threshold, cache_bytes, archive_bytes, archives, extracted) {
            SweepPlan::WouldSweep { extracted: e, bytes: b, .. } => e == 0 && b == archive_bytes,
            SweepPlan::Sweep { extracted: e, bytes: b } => e == 0 && b == archive_bytes,
            _ => true,
        },
        (threshold matches Some(t) && cache_bytes <= t) ==> spec_sweep_plan(
            all,
            dry_run,
            threshold,
            cache_bytes,
            archive_bytes,
            archives,
            extracted,
        ) is BelowThreshold,
        dry_run ==> !(spec_sweep_plan(all, dry_run, threshold, cache_bytes, archive_bytes, archives, extracted) is Sweep),
{
}

} // verus!
