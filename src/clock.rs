//! Timestamps, expiry and age rules, and the calls into chrono.
//!
//! A timestamp is a count of microseconds since the Unix epoch (UTC), the
//! precision of the store's timezone-aware columns.
use vstd::prelude::*;

verus! {

/// Age beyond which the legacy reaper deletes a note: one hour, in microseconds.
pub const STALE_AGE_MICROS: i64 = 3_600_000_000;

/// Seconds the expiry sweeper waits between two passes.
pub const SWEEP_INTERVAL_SECS: u64 = 10;

/// Seconds the expiry sweeper waits after failing to reach storage.
pub const SWEEP_BACKOFF_SECS: u64 = 60;

/// The instant denoted by an RFC 3339 string, in microseconds since the
/// epoch, or `None` when the string does not parse.
pub uninterp spec fn rfc3339_micros(s: Seq<char>) -> Option<i64>;

/// Relies on chrono's `DateTime::parse_from_rfc3339`, and on
/// `DateTime::timestamp_micros` to read the parsed instant; the outcome
/// depends on the text alone.
#[verifier::external_body]
fn parse_rfc3339_micros(s: &str) -> (r: Option<i64>)
    ensures
        r == rfc3339_micros(s@),
{
    match chrono::DateTime::parse_from_rfc3339(s) {
        Ok(dt) => Some(dt.timestamp_micros()),
        Err(_) => None,
    }
}

/// Relies on chrono's `Utc::now`, read as microseconds since the epoch; it
/// returns only when the system clock is past the epoch (it panics
/// otherwise), so the count is never negative.
#[verifier::external_body]
pub(crate) fn now_micros() -> (r: i64)
    ensures
        r >= 0,
{
    chrono::Utc::now().timestamp_micros()
}

/// The expiry that a create request's optional expiry text stands for.
/// Text that does not parse means "no expiry".
pub open spec fn expiry_of(text: Option<String>) -> Option<i64> {
    match text {
        Some(s) => rfc3339_micros(s@),
        None => None,
    }
}

/// Turns a create request's optional expiry text into an expiry instant;
/// unparsable text is silently taken as "no expiry".
pub fn parse_expiry(text: &Option<String>) -> (r: Option<i64>)
    ensures
        r == expiry_of(*text),
{
    match text {
        Some(s) => parse_rfc3339_micros(s.as_str()),
        None => None,
    }
}

/// A note with this expiry is removed by a sweep at `now`: the expiry is set
/// and strictly before `now`.
pub open spec fn expired_at(expires_at: Option<i64>, now: i64) -> bool {
    match expires_at {
        Some(t) => t < now,
        None => false,
    }
}

/// A note created at `created_at` is removed by the legacy reaper at `now`:
/// it was created more than one hour before `now`.
pub open spec fn stale_at(created_at: i64, now: i64) -> bool {
    created_at < now - STALE_AGE_MICROS
}

/// Whether the expiry sweeper removes a note with this expiry at `now`.
pub fn is_expired(expires_at: Option<i64>, now: i64) -> (r: bool)
    ensures
        r == expired_at(expires_at, now),
{
    match expires_at {
        Some(t) => t < now,
        None => false,
    }
}

/// The cut-off of the legacy reaper at `now`: one hour earlier, or the
/// smallest timestamp when that lies before it.
pub fn reaper_cutoff(now: i64) -> (r: i64)
    ensures
        forall|t: i64| (t < r) == stale_at(t, now),
        now >= i64::MIN + STALE_AGE_MICROS ==> r == now - STALE_AGE_MICROS,
{
    if now >= i64::MIN + STALE_AGE_MICROS {
        now - STALE_AGE_MICROS
    } else {
        i64::MIN
    }
}

/// Whether the legacy reaper removes a note created at `created_at` when it
/// runs at `now`.
pub fn is_stale(created_at: i64, now: i64) -> (r: bool)
    ensures
        r == stale_at(created_at, now),
{
    created_at < reaper_cutoff(now)
}

/// How long the expiry sweeper sleeps after a pass: the short interval when
/// storage was reached (whatever the pass deleted or whether it failed), the
/// longer back-off when no connection could be had.
pub fn sweep_delay_secs(connected: bool) -> (r: u64)
    ensures
        connected ==> r == SWEEP_INTERVAL_SECS,
        !connected ==> r == SWEEP_BACKOFF_SECS,
{
    if connected {
        SWEEP_INTERVAL_SECS
    } else {
        SWEEP_BACKOFF_SECS
    }
}

} // verus!
