//! Refresh policy: when a file-system change may trigger a status refresh,
//! and when a slow repository deserves a one-time notification.
//!
//! The watcher, the clock and the event plumbing live outside this crate;
//! durations and intervals are carried as milliseconds.

use vstd::prelude::*;

verus! {

/// Minimum interval between refreshes, in milliseconds.
pub const MIN_THROTTLE_INTERVAL_MS: u64 = 1000;

/// Threshold above which a repository counts as slow, in milliseconds.
pub const SLOW_REPO_THRESHOLD_MS: u64 = 1000;

/// The throttle interval adapts to the repository: at least the minimum,
/// and at least one and a half times the last refresh duration.
pub open spec fn throttle_interval_spec(last_duration_ms: u64) -> u64 {
    let adaptive = last_duration_ms + last_duration_ms / 2;
    if adaptive > u64::MAX {
        u64::MAX
    } else if adaptive < MIN_THROTTLE_INTERVAL_MS {
        MIN_THROTTLE_INTERVAL_MS
    } else {
        adaptive as u64
    }
}

/// Calculate the throttle interval from the last refresh duration.
pub fn calculate_throttle_interval(last_duration_ms: u64) -> (r: u64)
    ensures
        r == throttle_interval_spec(last_duration_ms),
{
    let half = last_duration_ms / 2;
    let adaptive = if last_duration_ms <= u64::MAX - half {
        last_duration_ms + half
    } else {
        u64::MAX
    };
    if adaptive < MIN_THROTTLE_INTERVAL_MS {
        MIN_THROTTLE_INTERVAL_MS
    } else {
        adaptive
    }
}

/// A change is dropped while the time since the last refresh is still below
/// the throttle interval.
pub fn should_throttle(elapsed_ms: u64, last_duration_ms: u64) -> (r: bool)
    ensures
        r == (elapsed_ms < throttle_interval_spec(last_duration_ms)),
{
    elapsed_ms < calculate_throttle_interval(last_duration_ms)
}

/// The slow-repository notice goes out once: when a refresh exceeded the
/// threshold and no notice was sent yet.
pub fn should_notify_slow(duration_ms: u64, notification_sent: bool) -> (r: bool)
    ensures
        r == (duration_ms > SLOW_REPO_THRESHOLD_MS && !notification_sent),
{
    duration_ms > SLOW_REPO_THRESHOLD_MS && !notification_sent
}

} // verus!
