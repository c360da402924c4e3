//! `baller eject` and `baller substitute`: when a package may be removed,
//! which leftover dependencies go with it, and what a failed removal means.

use vstd::prelude::*;
use vstd::string::*;

use crate::error::{BallError, ErrorView};

verus! {

/// A frozen package is removed only when forced.
pub fn check_not_frozen(frozen: bool, force: bool, name: &str) -> (r: Result<(), BallError>)
    ensures
        frozen && !force ==> (r matches Err(e) && e@ == ErrorView::PackageFrozen(name@)),
        !(frozen && !force) ==> r is Ok,
{
    if frozen && !force {
        Err(BallError::PackageFrozen(String::from_str(name)))
    } else {
        Ok(())
    }
}

/// A substitution that removes the old package is refused when that package
/// is frozen; one that keeps it is not.
pub fn check_substitution(keep_old: bool, old_frozen: bool, old: &str) -> (r: Result<(), BallError>)
    ensures
        !keep_old && old_frozen ==> (r matches Err(e) && e@ == ErrorView::PackageFrozen(old@)),
        keep_old || !old_frozen ==> r is Ok,
{
    check_not_frozen(old_frozen && !keep_old, false, old)
}

/// After an eject, a package goes too when it was pulled in as a dependency
/// (not installed by the user), is not the ejected one, and nothing depends
/// on it any more.
pub fn is_orphan(user_installed: bool, name: &String, ejected: &String, depended_on: bool) -> (r: bool)
    ensures
        r == (!user_installed && name@ != ejected@ && !depended_on),
{
    !user_installed && *name != *ejected && !depended_on
}

/// What became of removing the old package of a substitution.
#[derive(Debug, Clone, Copy, PartialEq, Eq, Structural)]
pub enum RemovalOutcome {
    /// It was removed.
    Removed,
    /// It was not on the roster; that is only noted.
    NotInRoster,
    /// Removing it failed: the substitution fails, and the new package is
    /// rolled back when it was installed.
    Failed { roll_back: bool },
}

/// How a removal's result is taken, given whether the new package got
/// installed.
pub fn removal_outcome(result: &Result<(), BallError>, new_installed: bool) -> (r: RemovalOutcome)
    ensures
        result is Ok ==> r == RemovalOutcome::Removed,
        (result matches Err(e) && e is PackageNotFound) ==> r == RemovalOutcome::NotInRoster,
        (result matches Err(e) && !(e is PackageNotFound)) ==> r == (RemovalOutcome::Failed { roll_back: new_installed }),
{
    match result {
        Ok(()) => RemovalOutcome::Removed,
        Err(BallError::PackageNotFound(_)) => RemovalOutcome::NotInRoster,
        Err(_) => RemovalOutcome::Failed { roll_back: new_installed },
    }
}

} // verus!
