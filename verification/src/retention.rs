//! RetentionPolicy: decides whether a holding-area entry has outlived a
//! retention window and may be permanently deleted.

use vstd::prelude::*;

verus! {

/// Seconds in one day; retention windows are given in whole days.
pub const SECONDS_PER_DAY: i64 = 86400;

/// An entry deleted at `deleted_at` is expired at time `now` under a window of
/// `window_days` days when its age reaches the window. The boundary is
/// inclusive: an entry exactly `window_days * 86400` seconds old counts as
/// expired.
pub open spec fn is_expired_spec(deleted_at: int, now: int, window_days: int) -> bool {
    now - deleted_at >= window_days * (SECONDS_PER_DAY as int)
}

/// Decide expiry for one entry. Pure in all three arguments; callers supply
/// `now` so that one invocation classifies every entry against the same
/// instant.
pub fn is_expired(deleted_at: i64, now: i64, window_days: i64) -> (expired: bool)
    ensures
        expired == is_expired_spec(deleted_at as int, now as int, window_days as int),
{
    let age: i128 = now as i128 - deleted_at as i128;
    let w: i128 = window_days as i128;
    proof {
        assert(i128::MIN <= w * 86400 <= i128::MAX) by (nonlinear_arith)
            requires
                i64::MIN <= w <= i64::MAX,
        ;
    }
    let cutoff: i128 = w * (SECONDS_PER_DAY as i128);
    age >= cutoff
}

/// The retention boundary is inclusive, and one second to either side flips
/// the classification: an entry exactly at the cutoff is expired, one second
/// younger is not, one second older still is.
pub proof fn lemma_retention_boundary(now: int, window_days: int)
    ensures
        is_expired_spec(now - window_days * (SECONDS_PER_DAY as int), now, window_days),
        !is_expired_spec(now - window_days * (SECONDS_PER_DAY as int) + 1, now, window_days),
        is_expired_spec(now - window_days * (SECONDS_PER_DAY as int) - 1, now, window_days),
{
}

} // verus!
