//! Validation of a civil date-time and its conversion to a POSIX timestamp
//! in milliseconds, with the UTC resolution step made explicit.

use vstd::prelude::*;
use crate::calendar::day_number;
use crate::calendar::days_to_month;
use crate::calendar::days_to_year;
use crate::calendar::lemma_days_before_year_closed_nonneg;
use crate::calendar::month_length;
use crate::calendar::valid_date;

verus! {

/// `h` (0-23) and `mi` (0-59) name a real time of day.
pub open spec fn valid_time(h: int, mi: int) -> bool {
    0 <= h <= 23 && 0 <= mi <= 59
}

/// The five inputs name a real, unambiguous point in civil time.
pub open spec fn valid_civil(y: int, m: int, d: int, h: int, mi: int) -> bool {
    valid_date(y, m, d) && valid_time(h, mi)
}

/// The timestamp of a civil date-time taken as UTC: whole days relative to
/// 1970-01-01, then hours and minutes, in milliseconds.
pub open spec fn timestamp_millis_of(y: int, m: int, d: int, h: int, mi: int) -> int {
    (day_number(y, m, d) - day_number(1970, 1, 1)) * 86400000 + h * 3600000 + mi * 60000
}

/// The timestamp is representable as a signed 64-bit count of milliseconds.
pub open spec fn fits_millis(y: int, m: int, d: int, h: int, mi: int) -> bool {
    i64::MIN <= timestamp_millis_of(y, m, d, h, mi) <= i64::MAX
}

/// 1970-01-01 is day 719528 counted from 0000-01-01.
pub proof fn lemma_epoch_day_number()
    ensures
        day_number(1970, 1, 1) == 719528,
{
    lemma_days_before_year_closed_nonneg(1970);
}

/// The failure value: the inputs do not name exactly one UTC instant whose
/// millisecond timestamp a signed 64-bit integer can hold.
#[derive(Clone, Copy, Debug, PartialEq, Eq, Structural)]
pub struct ConversionError;

impl ConversionError {
    /// The human-readable description carried by every conversion failure.
    pub fn message(&self) -> (s: &'static str)
        ensures
            s@ == "Could not convert to posix timestamp."@,
    {
        "Could not convert to posix timestamp."
    }
}

/// The candidate instants a civil date-time resolves to under a timezone.
/// UTC has no transitions, so resolution here never yields `Ambiguous`;
/// the variant keeps the multiplicity check in place for zones that do.
#[derive(Clone, Copy, Debug, PartialEq, Eq, Structural)]
pub enum LocalInstants {
    NoneFound,
    Single(i64),
    Ambiguous(i64, i64),
}

/// Resolves a civil date-time to its candidate UTC instants: exactly one
/// when the inputs are valid and the millisecond count fits in an `i64`,
/// none otherwise.
pub fn resolve_utc(year: i32, month: u32, day: u32, hour: u32, minute: u32) -> (r: LocalInstants)
    ensures
        valid_civil(year as int, month as int, day as int, hour as int, minute as int)
            && fits_millis(year as int, month as int, day as int, hour as int, minute as int)
            ==> (r matches LocalInstants::Single(ms) && ms as int == timestamp_millis_of(
            year as int,
            month as int,
            day as int,
            hour as int,
            minute as int,
        )),
        !(valid_civil(year as int, month as int, day as int, hour as int, minute as int)
            && fits_millis(year as int, month as int, day as int, hour as int, minute as int))
            ==> r == LocalInstants::NoneFound,
{
    if month < 1 || month > 12 {
        return LocalInstants::NoneFound;
    }
    if day < 1 || day > month_length(year, month) {
        return LocalInstants::NoneFound;
    }
    if hour > 23 || minute > 59 {
        return LocalInstants::NoneFound;
    }
    let days: i64 = days_to_year(year) + days_to_month(year, month) as i64 + day as i64 - 1;
    let secs: i64 = (days - 719528) * 86400 + hour as i64 * 3600 + minute as i64 * 60;
    proof {
        lemma_epoch_day_number();
    }
    if -9_223_372_036_854_775 <= secs && secs <= 9_223_372_036_854_775 {
        LocalInstants::Single(secs * 1000)
    } else {
        LocalInstants::NoneFound
    }
}

/// Converts a civil date and time (proleptic Gregorian, taken as UTC) to
/// the POSIX timestamp in milliseconds since 1970-01-01T00:00:00 UTC.
/// Succeeds exactly when the inputs name a real date and time of day and
/// the result fits in an `i64`; the timestamp is then exact and may be
/// negative for instants before the epoch.
pub fn time_converter(year: i32, month: u32, day: u32, hour: u32, minute: u32) -> (r: Result<
    i64,
    ConversionError,
>)
    ensures
        valid_civil(year as int, month as int, day as int, hour as int, minute as int)
            && fits_millis(year as int, month as int, day as int, hour as int, minute as int)
            ==> (r matches Ok(ms) && ms as int == timestamp_millis_of(
            year as int,
            month as int,
            day as int,
            hour as int,
            minute as int,
        )),
        !(valid_civil(year as int, month as int, day as int, hour as int, minute as int)
            && fits_millis(year as int, month as int, day as int, hour as int, minute as int))
            ==> (r matches Err(e) && e == (ConversionError {})),
{
    match resolve_utc(year, month, day, hour, minute) {
        LocalInstants::Single(ms) => Ok(ms),
        LocalInstants::NoneFound => Err(ConversionError),
        LocalInstants::Ambiguous(_, _) => Err(ConversionError),
    }
}

} // verus!
