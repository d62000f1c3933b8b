//! The naive date/time value that zones adjust.
//!
//! A naive value carries no zone. It is denominated in the same numeric
//! space as a zone's transition timestamps: seconds since the Unix epoch,
//! plus a millisecond component. Clock and calendar fields are derived
//! from the second count by plain integer arithmetic.

use vstd::arithmetic::div_mod::{
    lemma_div_is_ordered, lemma_hoist_over_denominator, lemma_mod_multiples_vanish,
};
use vstd::prelude::*;

verus! {

/// Largest magnitude of epoch seconds a naive value may carry: about
/// twelve thousand years either side of the epoch. Machine limit only;
/// it keeps every offset adjustment free of overflow.
pub const SECONDS_LIMIT: i64 = 400_000_000_000;

/// Bound that an adjusted value is known to stay within: a naive value
/// within [`SECONDS_LIMIT`] shifted by any 32-bit offset.
pub const ADJUSTED_LIMIT: i64 = 403_000_000_000;

/// A naive date/time: seconds since the Unix epoch paired with a
/// millisecond-of-second component, with no zone attached.
#[derive(Clone, Copy, Debug, PartialEq, Eq, Structural)]
pub struct LocalDateTime {
    pub seconds: i64,
    pub millisecond: u16,
}

impl LocalDateTime {
    /// A well-formed naive value: seconds within the supported span and a
    /// millisecond component below one thousand.
    pub open spec fn wf(self) -> bool {
        &&& -SECONDS_LIMIT <= self.seconds <= SECONDS_LIMIT
        &&& self.millisecond < 1000
    }

    /// Builds a naive value from its epoch-second count and millisecond.
    pub fn of(seconds: i64, millisecond: u16) -> (r: LocalDateTime)
        requires
            -SECONDS_LIMIT <= seconds <= SECONDS_LIMIT,
            millisecond < 1000,
        ensures
            r.seconds == seconds,
            r.millisecond == millisecond,
            r.wf(),
    {
        LocalDateTime { seconds, millisecond }
    }
}

/// Day number (days since the epoch, Euclidean floor) of a second count.
pub open spec fn day_number_of(s: int) -> int {
    s / 86400
}

/// Second of day of a second count, always in `[0, 86400)`.
pub open spec fn second_of_day_of(s: int) -> int {
    s % 86400
}

/// Hour of day of a second count.
pub open spec fn hour_of(s: int) -> int {
    (s % 86400) / 3600
}

/// Minute of hour of a second count.
pub open spec fn minute_of(s: int) -> int {
    ((s % 86400) / 60) % 60
}

/// Second of minute of a second count.
pub open spec fn second_of(s: int) -> int {
    (s % 86400) % 60
}

/// Day of week of a second count: 0 is Sunday through 6 is Saturday
/// (the epoch day, 1970-01-01, was a Thursday, day 4).
pub open spec fn weekday_of(s: int) -> int {
    (s / 86400 + 4) % 7
}

/// Splits a second count into its day number and second of day.
pub(crate) fn split_days(seconds: i64) -> (r: (i64, u32))
    requires
        -ADJUSTED_LIMIT <= seconds <= ADJUSTED_LIMIT,
    ensures
        r.0 == day_number_of(seconds as int),
        r.1 == second_of_day_of(seconds as int),
        0 <= r.1 < 86400,
        -5_000_000 <= r.0 <= 5_000_000,
{
    // Shift by a whole number of days so the division operates on a
    // non-negative quantity; the shift then cancels out of the quotient.
    let shifted: i64 = seconds + 432_000_000_000;
    let u: u64 = shifted as u64;
    let q: u64 = u / 86400;
    let m: u64 = u % 86400;
    proof {
        lemma_hoist_over_denominator(seconds as int, 5_000_000, 86400nat);
        lemma_mod_multiples_vanish(5_000_000, seconds as int, 86400);
        assert(shifted as int == 86400 * 5_000_000 + seconds as int);
        lemma_div_is_ordered(u as int, 835_000_000_000, 86400);
        assert(q <= 835_000_000_000int / 86400);
    }
    ((q as i64) - 5_000_000, m as u32)
}

/// Day of week for a day number, as 0 (Sunday) through 6 (Saturday).
pub(crate) fn weekday_of_day(days: i64) -> (r: u8)
    requires
        -5_000_000 <= days <= 5_000_000,
    ensures
        r == (days + 4) % 7,
        r < 7,
{
    let shifted: i64 = days + 4 + 35_000_000;
    let u: u64 = shifted as u64;
    let r: u64 = u % 7;
    proof {
        lemma_mod_multiples_vanish(5_000_000, days + 4, 7);
        assert(shifted as int == 7 * 5_000_000 + (days + 4));
    }
    r as u8
}

/// Whether a year is a leap year in the proleptic Gregorian calendar.
pub open spec fn is_leap_year(y: int) -> bool {
    y % 4 == 0 && (y % 100 != 0 || y % 400 == 0)
}

/// Number of days in a year.
pub open spec fn spec_days_in_year(y: int) -> int {
    if is_leap_year(y) {
        366
    } else {
        365
    }
}

/// Number of days in a month (months count from 1).
pub open spec fn spec_days_in_month(y: int, m: int) -> int {
    if m == 2 {
        if is_leap_year(y) {
            29
        } else {
            28
        }
    } else if m == 4 || m == 6 || m == 9 || m == 11 {
        30
    } else {
        31
    }
}

/// Days from the epoch day to the first day of a year: zero for 1970,
/// positive after it, negative before it.
pub open spec fn spec_days_before_year(y: int) -> int
    decreases (if y >= 1970 { y - 1970 } else { 1970 - y }),
{
    if y == 1970 {
        0
    } else if y > 1970 {
        spec_days_before_year(y - 1) + spec_days_in_year(y - 1)
    } else {
        spec_days_before_year(y + 1) - spec_days_in_year(y)
    }
}

/// Days from the first day of a year to the first day of one of its
/// months.
pub open spec fn spec_days_before_month(y: int, m: int) -> int
    decreases m,
{
    if m <= 1 {
        0
    } else {
        spec_days_before_month(y, m - 1) + spec_days_in_month(y, m - 1)
    }
}

/// Day number of a calendar date.
pub open spec fn spec_days_from_civil(y: int, m: int, d: int) -> int {
    spec_days_before_year(y) + spec_days_before_month(y, m) + (d - 1)
}

/// Whether year, month and day name a real calendar date within the
/// four-digit-year span the text grammar covers.
pub open spec fn valid_civil_date(y: int, m: int, d: int) -> bool {
    &&& 0 <= y <= 9999
    &&& 1 <= m <= 12
    &&& 1 <= d <= spec_days_in_month(y, m)
}

/// Whether a year is a leap year, executable form. The year is shifted
/// by a multiple of the 400-year cycle so the divisions operate on a
/// non-negative quantity.
fn is_leap_exec(y: i64) -> (r: bool)
    requires
        -1_000_000 <= y <= 1_000_000,
    ensures
        r == is_leap_year(y as int),
{
    let yy: i64 = y + 1_200_000;
    let yu: u64 = yy as u64;
    proof {
        lemma_mod_multiples_vanish(300_000, y as int, 4);
        lemma_mod_multiples_vanish(12_000, y as int, 100);
        lemma_mod_multiples_vanish(3_000, y as int, 400);
        assert(yy as int == 4 * 300_000 + y as int);
        assert(yy as int == 100 * 12_000 + y as int);
        assert(yy as int == 400 * 3_000 + y as int);
    }
    yu % 4 == 0 && (yu % 100 != 0 || yu % 400 == 0)
}

/// Number of days in a year, executable form.
fn days_in_year(y: i64) -> (r: i64)
    requires
        -1_000_000 <= y <= 1_000_000,
    ensures
        r == spec_days_in_year(y as int),
        365 <= r <= 366,
{
    if is_leap_exec(y) {
        366
    } else {
        365
    }
}

/// Number of days in a month, executable form.
pub(crate) fn days_in_month(y: i64, m: u8) -> (r: i64)
    requires
        -1_000_000 <= y <= 1_000_000,
        1 <= m <= 12,
    ensures
        r == spec_days_in_month(y as int, m as int),
        28 <= r <= 31,
{
    if m == 2 {
        if is_leap_exec(y) {
            29
        } else {
            28
        }
    } else if m == 4 || m == 6 || m == 9 || m == 11 {
        30
    } else {
        31
    }
}

/// From 1970 on, each year contributes at least 365 days.
proof fn lemma_days_before_year_lower(y: int)
    requires
        y >= 1970,
    ensures
        spec_days_before_year(y) >= 365 * (y - 1970),
    decreases y - 1970,
{
    if y > 1970 {
        lemma_days_before_year_lower(y - 1);
    }
}

/// Before 1970, each year removes at least 365 days.
proof fn lemma_days_before_year_upper(y: int)
    requires
        y <= 1970,
    ensures
        spec_days_before_year(y) <= -365 * (1970 - y),
    decreases 1970 - y,
{
    if y < 1970 {
        lemma_days_before_year_upper(y + 1);
    }
}

/// A year's twelve months sum to the year's day count.
proof fn lemma_months_sum(y: int)
    ensures
        spec_days_before_month(y, 13) == spec_days_in_year(y),
{
    reveal_with_fuel(spec_days_before_month, 14);
}

/// Whether year, month and day name a real calendar date, with the year
/// unconstrained.
pub open spec fn civil_date_ok(y: int, m: int, d: int) -> bool {
    &&& 1 <= m <= 12
    &&& 1 <= d <= spec_days_in_month(y, m)
}

/// Stepping a year forward adds that year's days, wherever the year
/// stands relative to the epoch.
proof fn lemma_days_before_year_step(y: int)
    ensures
        spec_days_before_year(y + 1) == spec_days_before_year(y) + spec_days_in_year(y),
{
}

/// Later years never begin earlier.
proof fn lemma_days_before_year_mono(a: int, b: int)
    requires
        a <= b,
    ensures
        spec_days_before_year(a) <= spec_days_before_year(b),
    decreases b - a,
{
    if a < b {
        lemma_days_before_year_step(b - 1);
        lemma_days_before_year_mono(a, b - 1);
    }
}

/// A month's start never lies before the start of an earlier month.
proof fn lemma_days_before_month_mono(y: int, a: int, b: int)
    requires
        1 <= a <= b,
    ensures
        spec_days_before_month(y, a) <= spec_days_before_month(y, b),
    decreases b - a,
{
    if a < b {
        lemma_days_before_month_mono(y, a, b - 1);
    }
}

/// A valid date's day number falls within its year: at or after the
/// year's first day and strictly before the next year's.
pub proof fn lemma_civil_bracket(y: int, m: int, d: int)
    requires
        civil_date_ok(y, m, d),
    ensures
        spec_days_before_year(y) <= spec_days_from_civil(y, m, d) < spec_days_before_year(y + 1),
{
    lemma_days_before_month_mono(y, 1, m);
    lemma_days_before_month_mono(y, m + 1, 13);
    lemma_months_sum(y);
    lemma_days_before_year_step(y);
}

/// The calendar decomposition of a day number is unique: two valid
/// dates with the same day number are the same date.
pub proof fn lemma_civil_unique(y1: int, m1: int, d1: int, y2: int, m2: int, d2: int)
    requires
        civil_date_ok(y1, m1, d1),
        civil_date_ok(y2, m2, d2),
        spec_days_from_civil(y1, m1, d1) == spec_days_from_civil(y2, m2, d2),
    ensures
        y1 == y2,
        m1 == m2,
        d1 == d2,
{
    lemma_civil_bracket(y1, m1, d1);
    lemma_civil_bracket(y2, m2, d2);
    if y1 < y2 {
        lemma_days_before_year_mono(y1 + 1, y2);
        assert(false);
    }
    if y2 < y1 {
        lemma_days_before_year_mono(y2 + 1, y1);
        assert(false);
    }
    if m1 < m2 {
        lemma_days_before_month_mono(y1, m1 + 1, m2);
        assert(false);
    }
    if m2 < m1 {
        lemma_days_before_month_mono(y1, m2 + 1, m1);
        assert(false);
    }
}

/// The calendar date a day number decomposes into: the (unique, by
/// [`lemma_civil_unique`]) triple of year, month and day of month whose
/// day number it is.
pub open spec fn civil_of_day(days: int) -> (int, int, int) {
    choose|t: (int, int, int)|
        civil_date_ok(t.0, t.1, t.2) && spec_days_from_civil(t.0, t.1, t.2) == days
}

/// Calendar date and day of year of a day number: the unique year, month
/// (1 through 12), day of month and one-based day of year that the day
/// number decomposes into.
pub(crate) fn civil_from_days(days: i64) -> (r: (i64, u8, u8, u16))
    requires
        -5_000_000 <= days <= 5_000_000,
    ensures
        1 <= r.1 <= 12,
        1 <= r.2 <= spec_days_in_month(r.0 as int, r.1 as int),
        spec_days_from_civil(r.0 as int, r.1 as int, r.2 as int) == days,
        (r.0 as int, r.1 as int, r.2 as int) == civil_of_day(days as int),
        r.3 == days - spec_days_before_year(r.0 as int) + 1,
        1 <= r.3 <= spec_days_in_year(r.0 as int),
        -20_000 <= r.0 <= 20_000,
{
    let mut y: i64 = 1970;
    let mut rem: i64 = days;
    if rem >= 0 {
        while rem >= days_in_year(y)
            invariant
                -5_000_000 <= days <= 5_000_000,
                1970 <= y <= 16_000,
                rem == days - spec_days_before_year(y as int),
                0 <= rem <= 5_000_000,
            decreases rem,
        {
            rem = rem - days_in_year(y);
            y = y + 1;
            proof {
                assert(spec_days_before_year(y as int) == spec_days_before_year(y as int - 1)
                    + spec_days_in_year(y as int - 1));
                lemma_days_before_year_lower(y as int);
                assert(365 * (y - 1970) <= spec_days_before_year(y as int));
                assert(spec_days_before_year(y as int) == days - rem <= 5_000_000);
                assert(y <= 16_000);
            }
        }
    } else {
        while rem < 0
            invariant
                -5_000_000 <= days <= 5_000_000,
                -16_000 <= y <= 1970,
                rem == days - spec_days_before_year(y as int),
                rem < spec_days_in_year(y as int),
                rem >= -5_000_000,
            decreases 366 - rem,
        {
            y = y - 1;
            rem = rem + days_in_year(y);
            proof {
                assert(spec_days_before_year(y as int) == spec_days_before_year(y as int + 1)
                    - spec_days_in_year(y as int));
                lemma_days_before_year_upper(y as int);
                assert(rem < spec_days_in_year(y as int));
                assert(spec_days_before_year(y as int) == days - rem > days - 366 >= -5_000_366);
                assert(-365 * (1970 - y) >= spec_days_before_year(y as int));
                assert(y >= -16_000);
            }
        }
    }
    let doy: u16 = (rem as u16) + 1;
    let mut m: u8 = 1;
    let mut rem2: i64 = rem;
    while m < 12 && rem2 >= days_in_month(y, m)
        invariant
            -16_000 <= y <= 16_000,
            1 <= m <= 12,
            0 <= rem2,
            rem2 == rem - spec_days_before_month(y as int, m as int),
            0 <= rem < spec_days_in_year(y as int),
        decreases 12 - m,
    {
        rem2 = rem2 - days_in_month(y, m);
        m = m + 1;
    }
    proof {
        if m == 12 {
            lemma_months_sum(y as int);
        }
    }
    let d: u8 = (rem2 as u8) + 1;
    proof {
        let w = (y as int, m as int, d as int);
        assert(civil_date_ok(w.0, w.1, w.2) && spec_days_from_civil(w.0, w.1, w.2)
            == days as int);
        assert(exists|t: (int, int, int)|
            civil_date_ok(t.0, t.1, t.2) && spec_days_from_civil(t.0, t.1, t.2) == days as int);
        let t = civil_of_day(days as int);
        assert(civil_date_ok(t.0, t.1, t.2) && spec_days_from_civil(t.0, t.1, t.2)
            == days as int);
        lemma_civil_unique(t.0, t.1, t.2, w.0, w.1, w.2);
    }
    (y, m, d, doy)
}

/// Day number of a calendar date, executable form.
pub(crate) fn days_from_civil(year: i64, month: u8, day: u8) -> (r: i64)
    requires
        valid_civil_date(year as int, month as int, day as int),
    ensures
        r == spec_days_from_civil(year as int, month as int, day as int),
        -800_000 <= r <= 3_000_000,
{
    let mut y: i64 = 1970;
    let mut acc: i64 = 0;
    if year >= 1970 {
        while y < year
            invariant
                1970 <= y <= year <= 9999,
                acc == spec_days_before_year(y as int),
                0 <= acc <= 366 * (y - 1970),
            decreases year - y,
        {
            acc = acc + days_in_year(y);
            y = y + 1;
        }
    } else {
        while y > year
            invariant
                0 <= year <= y <= 1970,
                acc == spec_days_before_year(y as int),
                -366 * (1970 - y) <= acc <= 0,
            decreases y - year,
        {
            y = y - 1;
            acc = acc - days_in_year(y);
        }
    }
    let mut m: u8 = 1;
    let mut macc: i64 = 0;
    while m < month
        invariant
            1 <= m <= month <= 12,
            0 <= year <= 9999,
            macc == spec_days_before_month(year as int, m as int),
            0 <= macc <= 31 * (m - 1),
        decreases month - m,
    {
        macc = macc + days_in_month(year, m);
        m = m + 1;
    }
    acc + macc + ((day as i64) - 1)
}

} // verus!
