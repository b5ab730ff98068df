//! Dates, counted in seconds and added to by the calendar of chrono.

use vstd::prelude::*;

verus! {

/// How many seconds a day has
pub const SECONDS_PER_DAY: i64 = 86_400;

/// The moment that lies `days` whole days after the moment `now`, both in
/// seconds since 1970-01-01 00:00:00 UTC, or `None` where the calendar of
/// chrono holds no such moment.
pub uninterp spec fn date_after(now: i64, days: i64) -> Option<i64>;

/// The latest moment of every day: 2100-01-01 00:00:00 UTC
pub const EVERYDAY_NOW: i64 = 4_102_444_800;

/// The most days of every day: more than twenty-seven thousand years
pub const EVERYDAY_DAYS: i64 = 10_000_000;

/// Whether a moment and a number of days are of every day: the moment lies
/// between 1970 and 2100, the days between none and ten million. The
/// calendar of chrono, which ends in the year 262142, holds every date that
/// lies so many days after such a moment.
pub open spec fn spec_everyday(now: i64, days: int) -> bool {
    0 <= now <= EVERYDAY_NOW && 0 <= days <= EVERYDAY_DAYS
}

/// Adds whole days to a moment with chrono's `DateTime::checked_add_signed`.
///
/// Both moments are seconds since 1970-01-01 00:00:00 UTC, turned into a
/// `DateTime<Utc>` by `DateTime::from_timestamp` and back by
/// `DateTime::timestamp`; the days become a `TimeDelta` by
/// `TimeDelta::try_days`. The contract claims that the outcome depends on the
/// two numbers alone, that a moment that comes back lies exactly
/// `days * 86400` seconds after `now`, and that a moment comes back for a
/// moment and days of every day: there the start is a date before 2101, the
/// span is far below the `i64::MAX` milliseconds that a `TimeDelta` holds,
/// and the sum is a date before the year 30000. When else chrono gives
/// `None` (a moment or a span outside of its range) is left to chrono.
#[verifier::external_body]
pub(crate) fn add_days(now: i64, days: i64) -> (moment: Option<i64>)
    ensures
        moment == date_after(now, days),
        moment matches Some(then) ==> then == now + SECONDS_PER_DAY * days,
        spec_everyday(now, days as int) ==> moment is Some,
{
    let start = chrono::DateTime::from_timestamp(now, 0)?;
    let span = chrono::TimeDelta::try_days(days)?;
    start.checked_add_signed(span).map(|then| then.timestamp())
}

} // verus!
