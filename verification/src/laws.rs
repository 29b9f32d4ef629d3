//! Order and uniqueness laws of the conversion: civil-time order is kept,
//! and a timestamp determines its civil date-time.

use vstd::prelude::*;
use crate::calendar::day_number;
use crate::calendar::lemma_date_within_year;
use crate::calendar::lemma_days_before_month_all;
use crate::calendar::lemma_days_before_year_mono;
use crate::calendar::valid_date;
use crate::convert::timestamp_millis_of;
use crate::convert::valid_civil;

verus! {

/// The first civil date-time lies before the second: lexicographic order
/// on (year, month, day, hour, minute), which on valid inputs is the
/// order of the UTC instants they name.
pub open spec fn civil_before(
    y1: int,
    m1: int,
    d1: int,
    h1: int,
    mi1: int,
    y2: int,
    m2: int,
    d2: int,
    h2: int,
    mi2: int,
) -> bool {
    ||| y1 < y2
    ||| (y1 == y2 && m1 < m2)
    ||| (y1 == y2 && m1 == m2 && d1 < d2)
    ||| (y1 == y2 && m1 == m2 && d1 == d2 && h1 < h2)
    ||| (y1 == y2 && m1 == m2 && d1 == d2 && h1 == h2 && mi1 < mi2)
}

/// Of two valid dates, the one that comes first in the calendar has the
/// smaller day number.
proof fn lemma_day_number_mono(y1: int, m1: int, d1: int, y2: int, m2: int, d2: int)
    requires
        valid_date(y1, m1, d1),
        valid_date(y2, m2, d2),
        y1 < y2 || (y1 == y2 && m1 < m2) || (y1 == y2 && m1 == m2 && d1 < d2),
    ensures
        day_number(y1, m1, d1) < day_number(y2, m2, d2),
{
    lemma_days_before_month_all(y1);
    lemma_days_before_month_all(y2);
    if y1 < y2 {
        lemma_date_within_year(y1, m1, d1);
        lemma_days_before_year_mono(y1, y2);
    }
}

/// Converting keeps the order of civil time: of two valid date-times, the
/// earlier one gets the strictly smaller timestamp.
pub proof fn lemma_timestamp_monotonic(
    y1: int,
    m1: int,
    d1: int,
    h1: int,
    mi1: int,
    y2: int,
    m2: int,
    d2: int,
    h2: int,
    mi2: int,
)
    requires
        valid_civil(y1, m1, d1, h1, mi1),
        valid_civil(y2, m2, d2, h2, mi2),
        civil_before(y1, m1, d1, h1, mi1, y2, m2, d2, h2, mi2),
    ensures
        timestamp_millis_of(y1, m1, d1, h1, mi1) < timestamp_millis_of(y2, m2, d2, h2, mi2),
{
    if y1 == y2 && m1 == m2 && d1 == d2 {
    } else {
        lemma_day_number_mono(y1, m1, d1, y2, m2, d2);
    }
}

/// Every timestamp the conversion can produce is a whole number of
/// minutes: seconds are fixed at zero, so reconstructing civil time from
/// a returned timestamp yields second 0 and no sub-second part.
pub proof fn lemma_whole_minutes(y: int, m: int, d: int, h: int, mi: int)
    ensures
        timestamp_millis_of(y, m, d, h, mi) % 60000 == 0,
{
    let k: int = day_number(y, m, d) - day_number(1970, 1, 1);
    assert((k * 86400000) % 60000 == 0) by (nonlinear_arith);
    assert((h * 3600000) % 60000 == 0) by (nonlinear_arith);
    assert((mi * 60000) % 60000 == 0) by (nonlinear_arith);
    assert((k * 86400000 + h * 3600000 + mi * 60000) % 60000 == 0) by (nonlinear_arith)
        requires
            (k * 86400000) % 60000 == 0,
            (h * 3600000) % 60000 == 0,
            (mi * 60000) % 60000 == 0;
}

/// A timestamp determines the civil date-time it came from: two valid
/// date-times that convert to the same millisecond count are the same
/// date-time, so reconstructing civil time from a returned timestamp
/// gives back exactly the input that produced it.
pub proof fn lemma_timestamp_unique(
    y1: int,
    m1: int,
    d1: int,
    h1: int,
    mi1: int,
    y2: int,
    m2: int,
    d2: int,
    h2: int,
    mi2: int,
)
    requires
        valid_civil(y1, m1, d1, h1, mi1),
        valid_civil(y2, m2, d2, h2, mi2),
        timestamp_millis_of(y1, m1, d1, h1, mi1) == timestamp_millis_of(y2, m2, d2, h2, mi2),
    ensures
        y1 == y2 && m1 == m2 && d1 == d2 && h1 == h2 && mi1 == mi2,
{
    if !(y1 == y2 && m1 == m2 && d1 == d2 && h1 == h2 && mi1 == mi2) {
        if civil_before(y1, m1, d1, h1, mi1, y2, m2, d2, h2, mi2) {
            lemma_timestamp_monotonic(y1, m1, d1, h1, mi1, y2, m2, d2, h2, mi2);
        } else {
            lemma_timestamp_monotonic(y2, m2, d2, h2, mi2, y1, m1, d1, h1, mi1);
        }
    }
}

} // verus!
