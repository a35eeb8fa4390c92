//! Pure time-based liveness classification of agents.
//!
//! Elapsed time is measured in whole minutes, truncated toward zero; an agent
//! is Active up to five minutes after it was last seen, Stale up to thirty,
//! and Offline beyond that — both boundaries classify as the lower category.

use crate::agent::Liveness;
use vstd::prelude::*;

verus! {

pub const LIVENESS_ACTIVE_MINUTES: i64 = 5;

pub const LIVENESS_STALE_MINUTES: i64 = 30;

/// Elapsed whole minutes from `last_seen` to `now`, truncated toward zero.
pub open spec fn minutes_between(now: int, last_seen: int) -> int {
    if now >= last_seen {
        (now - last_seen) / 60
    } else {
        -((last_seen - now) / 60)
    }
}

/// The classification of an agent last seen at `last_seen`, as of `now`:
/// Active within five minutes, Stale within thirty, Offline beyond.
pub open spec fn classify_spec(now: int, last_seen: int) -> Liveness {
    if minutes_between(now, last_seen) <= LIVENESS_ACTIVE_MINUTES as int {
        Liveness::Active
    } else if minutes_between(now, last_seen) <= LIVENESS_STALE_MINUTES as int {
        Liveness::Stale
    } else {
        Liveness::Offline
    }
}

/// The boundary minutes classify as the lower-elapsed category: an agent
/// exactly five minutes old is still Active, and one exactly thirty minutes
/// old is still Stale.
pub proof fn lemma_classify_boundary_minutes(now: int, last_seen: int)
    ensures
        minutes_between(now, last_seen) == LIVENESS_ACTIVE_MINUTES as int ==> classify_spec(
            now,
            last_seen,
        ) == Liveness::Active,
        minutes_between(now, last_seen) == LIVENESS_STALE_MINUTES as int ==> classify_spec(
            now,
            last_seen,
        ) == Liveness::Stale,
{
}

/// Elapsed whole minutes from `last_seen` to `now`, truncated toward zero.
pub fn minutes_since(now: i64, last_seen: i64) -> (r: i64)
    ensures
        r == minutes_between(now as int, last_seen as int),
{
    if now >= last_seen {
        let e: i128 = (now as i128) - (last_seen as i128);
        let m: i128 = e / 60;
        m as i64
    } else {
        let e: i128 = (last_seen as i128) - (now as i128);
        let m: i128 = e / 60;
        (-m) as i64
    }
}

/// Classifies an agent's liveness from the given clock reading.
pub fn classify_liveness(now: i64, last_seen: i64) -> (r: Liveness)
    ensures
        r == classify_spec(now as int, last_seen as int),
{
    let m = minutes_since(now, last_seen);
    if m <= LIVENESS_ACTIVE_MINUTES {
        Liveness::Active
    } else if m <= LIVENESS_STALE_MINUTES {
        Liveness::Stale
    } else {
        Liveness::Offline
    }
}

/// Relies on chrono's `Utc::now`: the current wall-clock moment read from the
/// system clock, reduced to whole seconds since the Unix epoch. Nothing can
/// be promised of a clock reading.
#[verifier::external_body]
pub(crate) fn now_ts() -> i64 {
    chrono::Utc::now().timestamp()
}

/// Reads the clock once and classifies: the pair of the clock reading used
/// and the classification at exactly that reading.
pub fn liveness_now(last_seen: i64) -> (r: (i64, Liveness))
    ensures
        r.1 == classify_spec(r.0 as int, last_seen as int),
{
    let now = now_ts();
    (now, classify_liveness(now, last_seen))
}

} // verus!
