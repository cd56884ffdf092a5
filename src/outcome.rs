//! Decisions that a store backed by a relational database makes from what
//! its queries report: which outcome a failure surfaces as, whether a
//! create may go on to its insert, and the next version number.
use vstd::prelude::*;
use crate::models::StoreError;

verus! {

/// How a storage call failed, in the terms that the logic needs.
#[derive(Clone, Copy, Debug, PartialEq, Eq, Structural)]
pub enum DbFailure {
    /// The query matched no row.
    NotFound,
    /// The store's uniqueness constraint on slugs refused an insert.
    UniqueViolation,
    /// No connection could be had.
    Unavailable,
    /// Any other failure.
    Other,
}

/// The outcome that a storage failure surfaces as.
pub open spec fn surfaced(f: DbFailure) -> StoreError {
    match f {
        DbFailure::NotFound => StoreError::NotFound,
        DbFailure::UniqueViolation => StoreError::Conflict,
        DbFailure::Unavailable => StoreError::StorageUnavailable,
        DbFailure::Other => StoreError::StorageFailure,
    }
}

/// Maps a storage failure to the caller's outcome. A uniqueness violation on
/// insert means that a concurrent writer took the slug first: it is a
/// `Conflict`, exactly as the pre-check's.
pub fn surface_error(f: DbFailure) -> (r: StoreError)
    ensures
        r == surfaced(f),
{
    match f {
        DbFailure::NotFound => StoreError::NotFound,
        DbFailure::UniqueViolation => StoreError::Conflict,
        DbFailure::Unavailable => StoreError::StorageUnavailable,
        DbFailure::Other => StoreError::StorageFailure,
    }
}

/// The pre-check of a create, from a lookup of its slug (`Ok` when a note
/// was found): a found note is a `Conflict`; no note lets the insert go on;
/// any other failure is surfaced.
pub fn precheck_outcome(found: Result<(), DbFailure>) -> (r: Result<(), StoreError>)
    ensures
        found is Ok ==> r == Err::<(), StoreError>(StoreError::Conflict),
        found == Err::<(), DbFailure>(DbFailure::NotFound) ==> r is Ok,
        found is Err && found->Err_0 != DbFailure::NotFound ==> r == Err::<(), StoreError>(
            surfaced(found->Err_0),
        ),
{
    match found {
        Ok(()) => Err(StoreError::Conflict),
        Err(DbFailure::NotFound) => Ok(()),
        Err(f) => Err(surface_error(f)),
    }
}

/// Availability of a slug, from a lookup of it (`Ok` when a note was found):
/// available exactly when no note was found; other failures are surfaced.
pub fn availability(found: Result<(), DbFailure>) -> (r: Result<bool, StoreError>)
    ensures
        found is Ok ==> r == Ok::<bool, StoreError>(false),
        found == Err::<(), DbFailure>(DbFailure::NotFound) ==> r == Ok::<bool, StoreError>(true),
        found is Err && found->Err_0 != DbFailure::NotFound ==> r == Err::<bool, StoreError>(
            surfaced(found->Err_0),
        ),
{
    match found {
        Ok(()) => Ok(false),
        Err(DbFailure::NotFound) => Ok(true),
        Err(f) => Err(surface_error(f)),
    }
}

/// The next version number of a note whose highest version so far is
/// `max` (none yet: 0): one more, or `None` when that does not fit.
pub fn next_version_number(max: Option<i32>) -> (r: Option<i32>)
    ensures
        ({
            let last: int = match max {
                Some(v) => v as int,
                None => 0,
            };
            &&& last + 1 <= i32::MAX ==> r == Some((last + 1) as i32)
            &&& last + 1 > i32::MAX ==> r is None
        }),
{
    let last: i32 = match max {
        Some(v) => v,
        None => 0,
    };
    if last < i32::MAX {
        Some(last + 1)
    } else {
        None
    }
}

} // verus!
