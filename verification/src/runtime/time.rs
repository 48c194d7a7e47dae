//! Unix timestamps.
//!
//! Reach for [`now_unix_secs`], [`now_unix_millis`] and [`now_unix_nanos`]
//! instead of deriving Unix timestamps from the platform clock at each call
//! site.

use crate::time::{Duration, NANOS_PER_MILLI, NANOS_PER_SEC};
use vstd::prelude::*;

verus! {

/// Reads the platform wall clock with `SystemTime::now` of `web_time` and
/// measures it from `UNIX_EPOCH` with `duration_since`: the whole seconds and
/// the nanoseconds within the next one, or `None` for a clock set before the
/// epoch. The reading itself is up to the machine; trusted is only that the
/// nanoseconds stay below one second.
#[verifier::external_body]
fn platform_clock() -> (reading: Option<(u64, u32)>)
    ensures
        reading matches Some((_, nanos)) ==> nanos < NANOS_PER_SEC,
{
    match web_time::SystemTime::now().duration_since(web_time::UNIX_EPOCH) {
        Ok(since) => Some((since.as_secs(), since.subsec_nanos())),
        Err(_) => None,
    }
}

/// The span since the Unix epoch that a clock reading stands for: empty if
/// the clock is set before the epoch.
pub fn span_of_reading(reading: Option<(u64, u32)>) -> (since: Duration)
    ensures
        reading is None ==> since.nanos == 0,
        reading matches Some((secs, nanos)) ==> since.nanos == secs * NANOS_PER_SEC + nanos,
{
    match reading {
        Some((secs, nanos)) => Duration { nanos: secs as u128 * NANOS_PER_SEC + nanos as u128 },
        None => Duration::zero(),
    }
}

/// Whether `since` can be the span from the Unix epoch to some clock reading.
pub open spec fn clock_span(since: Duration) -> bool {
    since.nanos < (u64::MAX + 1) * NANOS_PER_SEC
}

pub(crate) fn since_epoch() -> (since: Duration)
    ensures
        clock_span(since),
{
    span_of_reading(platform_clock())
}

/// Whole seconds of a span since the epoch.
pub fn unix_secs(since: Duration) -> (secs: u64)
    requires
        clock_span(since),
    ensures
        secs == since.nanos / NANOS_PER_SEC,
{
    (since.nanos / NANOS_PER_SEC) as u64
}

/// Whole milliseconds of a span since the epoch, modulo `2^64`.
pub fn unix_millis(since: Duration) -> (millis: u64)
    ensures
        millis == (since.nanos / NANOS_PER_MILLI) as u64,
        since.nanos / NANOS_PER_MILLI <= u64::MAX ==> millis == since.nanos / NANOS_PER_MILLI,
{
    #[verifier::truncate]
    ((since.nanos / NANOS_PER_MILLI) as u64)
}

/// Nanoseconds of a span since the epoch, as the call sites that keep
/// accounts in nanoseconds consume them, modulo `2^64`.
pub fn unix_nanos(since: Duration) -> (nanos: i64)
    ensures
        nanos == since.nanos as i64,
        since.nanos <= i64::MAX ==> nanos == since.nanos,
{
    #[verifier::truncate]
    (since.nanos as i64)
}

/// The current Unix timestamp in whole seconds, zero if the platform clock is
/// set before the epoch.
pub fn now_unix_secs() -> (secs: u64)
    ensures
        exists|since: Duration| clock_span(since) && secs == since.nanos / NANOS_PER_SEC,
{
    unix_secs(since_epoch())
}

/// The current Unix timestamp in whole milliseconds, zero if the platform
/// clock is set before the epoch.
pub fn now_unix_millis() -> (millis: u64)
    ensures
        exists|since: Duration|
            clock_span(since) && millis == (since.nanos / NANOS_PER_MILLI) as u64,
{
    unix_millis(since_epoch())
}

/// The current Unix timestamp in nanoseconds, zero if the platform clock is
/// set before the epoch.
pub fn now_unix_nanos() -> (nanos: i64)
    ensures
        exists|since: Duration| clock_span(since) && nanos == since.nanos as i64,
{
    unix_nanos(since_epoch())
}

/// Two readings of one span agree on its whole seconds, whichever unit they
/// are taken in.
pub proof fn units_agree(since: Duration)
    ensures
        (since.nanos / NANOS_PER_MILLI) / 1000 == since.nanos / NANOS_PER_SEC,
{
}

} // verus!
