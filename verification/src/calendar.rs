//! Seconds of the Unix epoch and the civil (proleptic Gregorian) calendar in UTC.

use crate::text;
use vstd::arithmetic::div_mod::*;
use vstd::prelude::*;
use vstd::string::*;

verus! {

/// The first second that falls in the year `i32::MIN`.
pub const MIN_CIVIL_SECS: i64 = -67768100567971200;

/// The last second that falls in the year `i32::MAX`.
pub const MAX_CIVIL_SECS: i64 = 67767976233532799;

/// The last second that falls in the year `i32::MAX`, as a clock reading.
pub const MAX_CLOCK_SECS: u64 = 67767976233532799;

/// A date and a time of day, in UTC.
pub struct Civil {
    pub year: int,
    pub month: int,
    pub day: int,
    pub hour: int,
    pub minute: int,
    pub second: int,
}

/// Whether a year has a 29th of February.
pub open spec fn is_leap(y: int) -> bool {
    y % 4 == 0 && (y % 100 != 0 || y % 400 == 0)
}

/// The number of days in a year.
pub open spec fn days_in_year(y: int) -> int {
    if is_leap(y) {
        366
    } else {
        365
    }
}

/// The number of days in a month of a year.
pub open spec fn days_in_month(y: int, m: int) -> int {
    if m == 2 {
        if is_leap(y) {
            29
        } else {
            28
        }
    } else if m == 4 || m == 6 || m == 9 || m == 11 {
        30
    } else {
        31
    }
}

/// The number of days of a year that come before its month `m`.
pub open spec fn days_before_month(y: int, m: int) -> int
    decreases m,
{
    if m <= 1 {
        0
    } else {
        days_before_month(y, m - 1) + days_in_month(y, m - 1)
    }
}

/// The number of leap years from year 1 to year `y`, counted on below year 1 as a
/// negative number.
pub open spec fn leap_years_through(y: int) -> int {
    y / 4 - y / 100 + y / 400
}

/// The number of days from 1 January 1970 to 1 January of a year.
pub open spec fn days_before_year(y: int) -> int {
    365 * (y - 1970) + leap_years_through(y - 1) - leap_years_through(1969)
}

/// The number of days from 1 January 1970 to a date.
pub open spec fn days_from_civil(y: int, m: int, d: int) -> int {
    days_before_year(y) + days_before_month(y, m) + (d - 1)
}

/// Whether the date is one of the calendar and the time one of the clock.
pub open spec fn valid_civil(c: Civil) -> bool {
    &&& 1 <= c.month <= 12
    &&& 1 <= c.day <= days_in_month(c.year, c.month)
    &&& 0 <= c.hour < 24
    &&& 0 <= c.minute < 60
    &&& 0 <= c.second < 60
}

/// The number of seconds from the start of 1970 to a date and time.
pub open spec fn unix_from_civil(c: Civil) -> int {
    86400 * days_from_civil(c.year, c.month, c.day) + 3600 * c.hour + 60 * c.minute + c.second
}

/// The date and time of a second of the Unix epoch.
pub open spec fn civil_at(secs: int) -> Civil {
    choose|c: Civil| valid_civil(c) && #[trigger] unix_from_civil(c) == secs
}

/// The date and time that `civil_from_unix` returns, as a value of the model.
pub open spec fn civil_of(t: (i32, u32, u32, u32, u32, u32)) -> Civil {
    Civil {
        year: t.0 as int,
        month: t.1 as int,
        day: t.2 as int,
        hour: t.3 as int,
        minute: t.4 as int,
        second: t.5 as int,
    }
}

/// The years of the model follow each other without gap or overlap: 1970 starts at day
/// zero, and each year starts as many days after the one before as that one is long.
pub proof fn lemma_years_are_contiguous(y: int)
    ensures
        days_before_year(1970) == 0,
        days_before_year(y + 1) == days_before_year(y) + days_in_year(y),
        days_before_month(y, 13) == days_in_year(y),
{
    reveal_with_fuel(days_before_month, 14);
}

/// The number of days of a 400-year era, which starts on 1 March, that come before its
/// year `y`.
spec fn days_of_era(y: int) -> int {
    365 * y + y / 4 - y / 100
}

/// The year of the era that holds a day of the era, by a division that skips the leap
/// days.
spec fn year_of_era(doe: int) -> int {
    (doe - doe / 1460 + doe / 36524 - doe / 146096) / 365
}

/// The division finds the year whose days hold `doe`.
#[verifier::spinoff_prover]
proof fn lemma_year_of_era(doe: int)
    requires
        0 <= doe < 146097,
    ensures
        0 <= year_of_era(doe) < 400,
        days_of_era(year_of_era(doe)) <= doe,
        doe - days_of_era(year_of_era(doe)) <= 365,
        doe - days_of_era(year_of_era(doe)) == 365 ==> is_leap(year_of_era(doe) + 1),
{
    // The day is day `t` of year `100 * a + 4 * b + c` of the era.
    let a: int = if doe / 36524 < 4 {
        doe / 36524
    } else {
        3
    };
    let r = doe - 36524 * a;
    assert(0 <= a <= 3 && 0 <= r <= 36524 && (r == 36524 ==> a == 3));
    let b = r / 1461;
    assert(0 <= b <= 24);
    let s = r - 1461 * b;
    assert(0 <= s <= 1460);
    let c: int = if s / 365 < 4 {
        s / 365
    } else {
        3
    };
    let t = s - 365 * c;
    assert(0 <= c <= 3 && 0 <= t <= 365 && (t == 365 ==> c == 3));
    let y = 100 * a + 4 * b + c;
    assert(y / 4 == 25 * a + b);
    assert(y / 100 == a);
    assert(days_of_era(y) == 36524 * a + 1461 * b + 365 * c);
    assert(doe == days_of_era(y) + t);
    assert(t == 365 && b == 24 ==> a == 3);
    let k = 24 * a + b + 365 * c + t;
    assert(doe == 1460 * (25 * a + b) + k);
    assert(t == 365 ==> k >= 1460);
    if k >= 1460 {
        assert(doe / 1460 == 25 * a + b + 1);
    } else {
        assert(doe / 1460 == 25 * a + b);
    }
    if t == 365 && b == 24 {
        assert(doe == 146096);
        assert(year_of_era(doe) == y);
    } else {
        assert(doe / 36524 == a);
        assert(doe / 146096 == 0);
        assert(year_of_era(doe) == y);
    }
    if t == 365 {
        assert(y + 1 == 100 * a + 4 * (b + 1));
        assert(is_leap(y + 1));
    }
}

/// Years that lie whole eras apart have the same place in their centuries and eras.
#[verifier::spinoff_prover]
proof fn lemma_shift_by_eras(era: int, y: int)
    ensures
        (400 * era + y) / 4 == 100 * era + y / 4,
        (400 * era + y) / 100 == 4 * era + y / 100,
        (400 * era + y) / 400 == era + y / 400,
        is_leap(400 * era + y) == is_leap(y),
{
    let shifted = 400 * era + y;
    lemma_fundamental_div_mod_converse(shifted, 4, 100 * era + y / 4, y % 4);
    lemma_fundamental_div_mod_converse(shifted, 100, 4 * era + y / 100, y % 100);
    lemma_fundamental_div_mod_converse(shifted, 400, era + y / 400, y % 400);
}

/// Of the years up to `y` of an era one more is a leap year than up to the year before
/// exactly if `y` is one.
#[verifier::spinoff_prover]
proof fn lemma_leap_day_count(y: int)
    requires
        0 <= y < 400,
    ensures
        leap_years_through(y - 1) + (if is_leap(y) {
            1int
        } else {
            0int
        }) == y / 4 - y / 100,
{
}

/// The first of March of a year, counted in days from 1970, by its era.
#[verifier::spinoff_prover]
proof fn lemma_march_of_era(era: int, yoe: int)
    requires
        0 <= yoe < 400,
    ensures
        days_before_year(400 * era + yoe) + 59 + (if is_leap(400 * era + yoe) {
            1int
        } else {
            0int
        }) == 146097 * era + days_of_era(yoe) - 719468,
        is_leap(400 * era + yoe) == is_leap(yoe),
        is_leap(400 * era + yoe + 1) == is_leap(yoe + 1),
{
    lemma_shift_by_eras(era, yoe - 1);
    lemma_shift_by_eras(era, yoe);
    lemma_shift_by_eras(era, yoe + 1);
    lemma_leap_day_count(yoe);
    assert(400 * era + yoe - 1 == 400 * era + (yoe - 1));
    assert(400 * era + yoe + 1 == 400 * era + (yoe + 1));
}

/// Day `doy` of a year that starts on 1 March is day `d` of month `m`.
#[verifier::spinoff_prover]
proof fn lemma_month_of_march_year(y: int, doy: int, mp: int, d: int, m: int)
    requires
        0 <= doy <= 365,
        doy == 365 ==> is_leap(y + 1),
        mp == (5 * doy + 2) / 153,
        d == doy - (153 * mp + 2) / 5 + 1,
        m == (if mp < 10 {
            mp + 3
        } else {
            mp - 9
        }),
    ensures
        0 <= mp <= 11,
        1 <= m <= 12,
        m > 2 ==> 1 <= d <= days_in_month(y, m),
        m <= 2 ==> 1 <= d <= days_in_month(y + 1, m),
        m > 2 ==> days_before_year(y) + 59 + (if is_leap(y) {
            1int
        } else {
            0int
        }) + doy == days_from_civil(y, m, d),
        m <= 2 ==> days_before_year(y) + 59 + (if is_leap(y) {
            1int
        } else {
            0int
        }) + doy == days_from_civil(y + 1, m, d),
{
    reveal_with_fuel(days_before_month, 13);
    lemma_years_are_contiguous(y);
    assert(0 <= mp <= 11);
    if mp == 0 {
    } else if mp == 1 {
    } else if mp == 2 {
    } else if mp == 3 {
    } else if mp == 4 {
    } else if mp == 5 {
    } else if mp == 6 {
    } else if mp == 7 {
    } else if mp == 8 {
    } else if mp == 9 {
    } else if mp == 10 {
    } else {
    }
}

/// A day lies in its own year.
proof fn lemma_day_in_year(y: int, m: int, d: int)
    requires
        1 <= m <= 12,
        1 <= d <= days_in_month(y, m),
    ensures
        days_before_year(y) <= days_from_civil(y, m, d) < days_before_year(y + 1),
{
    reveal_with_fuel(days_before_month, 14);
    lemma_years_are_contiguous(y);
}

/// Later years start later.
proof fn lemma_years_ordered(y1: int, y2: int)
    requires
        y1 <= y2,
    ensures
        days_before_year(y1) <= days_before_year(y2),
    decreases y2 - y1,
{
    if y1 < y2 {
        lemma_years_ordered(y1, y2 - 1);
        lemma_years_are_contiguous(y2 - 1);
    }
}

/// The days of the supported seconds lie in years that an `i32` holds.
proof fn lemma_year_bounds(y: int, m: int, d: int)
    requires
        1 <= m <= 12,
        1 <= d <= days_in_month(y, m),
        86400 * days_from_civil(y, m, d) <= MAX_CIVIL_SECS,
        MIN_CIVIL_SECS < 86400 * (days_from_civil(y, m, d) + 1),
    ensures
        i32::MIN <= y <= i32::MAX,
{
    lemma_day_in_year(y, m, d);
    if y > i32::MAX {
        lemma_years_ordered(i32::MAX + 1, y);
    }
    if y < i32::MIN {
        lemma_years_ordered(y + 1, i32::MIN as int);
    }
}

/// Converts seconds of the Unix epoch to year, month, day, hour, minute and second in UTC.
pub fn civil_from_unix(secs: i64) -> (res: (i32, u32, u32, u32, u32, u32))
    requires
        MIN_CIVIL_SECS <= secs <= MAX_CIVIL_SECS,
    ensures
        valid_civil(civil_of(res)),
        unix_from_civil(civil_of(res)) == secs,
        forall|c: Civil|
            valid_civil(c) && #[trigger] unix_from_civil(c) == secs ==> c == civil_of(res),
        civil_of(res) == civil_at(secs as int),
{
    let days: i64 = match secs.checked_div_euclid(86_400) {
        Some(q) => q,
        None => 0,
    };
    let rem: i64 = match secs.checked_rem_euclid(86_400) {
        Some(r) => r,
        None => 0,
    };
    assert(secs == 86400 * days + rem && 0 <= rem < 86400);
    let secs_of_day: u32 = rem as u32;
    let hh: u32 = secs_of_day / 3600;
    let mm: u32 = (secs_of_day % 3600) / 60;
    let ss: u32 = secs_of_day % 60;
    assert(3600 * hh + 60 * mm + ss == rem);
    let z: i64 = days + 719_468;
    let era: i64 = match z.checked_div_euclid(146_097) {
        Some(q) => q,
        None => 0,
    };
    let doe: i64 = z - era * 146_097;
    assert(0 <= doe < 146097);
    let yoe: i64 = (doe - doe / 1460 + doe / 36524 - doe / 146_096) / 365;
    proof {
        lemma_year_of_era(doe as int);
        assert(yoe == year_of_era(doe as int));
    }
    let y: i64 = yoe + era * 400;
    let doy: i64 = doe - (365 * yoe + yoe / 4 - yoe / 100);
    let mp: i64 = (5 * doy + 2) / 153;
    let d: i64 = doy - (153 * mp + 2) / 5 + 1;
    let m: i64 = if mp < 10 {
        mp + 3
    } else {
        mp - 9
    };
    let year: i64 = if m <= 2 {
        y + 1
    } else {
        y
    };
    proof {
        lemma_march_of_era(era as int, yoe as int);
        lemma_month_of_march_year(y as int, doy as int, mp as int, d as int, m as int);
        assert(days == days_from_civil(year as int, m as int, d as int));
        lemma_year_bounds(year as int, m as int, d as int);
    }
    let res: (i32, u32, u32, u32, u32, u32) = (year as i32, m as u32, d as u32, hh, mm, ss);
    proof {
        let found = civil_of(res);
        assert(unix_from_civil(found) == secs);
        assert forall|c: Civil|
            valid_civil(c) && #[trigger] unix_from_civil(c) == secs implies c == found by {
            lemma_civil_is_unique(c, found);
        }
    }
    res
}

/// A month ends before a later month of the same year starts.
proof fn lemma_months_ordered(y: int, m1: int, m2: int)
    requires
        1 <= m1 < m2,
    ensures
        days_before_month(y, m1) + days_in_month(y, m1) <= days_before_month(y, m2),
    decreases m2 - m1,
{
    if m1 + 1 < m2 {
        lemma_months_ordered(y, m1, m2 - 1);
    }
}

/// Whether a date and time comes before another: by year, then month, then day, and so on.
pub open spec fn comes_before(a: Civil, b: Civil) -> bool {
    if a.year != b.year {
        a.year < b.year
    } else if a.month != b.month {
        a.month < b.month
    } else if a.day != b.day {
        a.day < b.day
    } else if a.hour != b.hour {
        a.hour < b.hour
    } else if a.minute != b.minute {
        a.minute < b.minute
    } else {
        a.second < b.second
    }
}

/// An earlier date and time names an earlier second.
proof fn lemma_earlier_second(a: Civil, b: Civil)
    requires
        valid_civil(a),
        valid_civil(b),
        comes_before(a, b),
    ensures
        unix_from_civil(a) < unix_from_civil(b),
{
    lemma_day_in_year(a.year, a.month, a.day);
    lemma_day_in_year(b.year, b.month, b.day);
    if a.year < b.year {
        lemma_years_ordered(a.year + 1, b.year);
    } else if a.month < b.month {
        lemma_months_ordered(a.year, a.month, b.month);
    }
}

/// Dates with a time of day are ordered as the seconds that they name.
pub proof fn lemma_dates_keep_order(a: Civil, b: Civil)
    requires
        valid_civil(a),
        valid_civil(b),
    ensures
        comes_before(a, b) <==> unix_from_civil(a) < unix_from_civil(b),
{
    if comes_before(a, b) {
        lemma_earlier_second(a, b);
    } else if comes_before(b, a) {
        lemma_earlier_second(b, a);
    } else {
        assert(a == b);
    }
}

/// No two dates with a time of day name the same second, so the one that
/// `civil_from_unix` returns for a second is the only one there is.
pub proof fn lemma_civil_is_unique(a: Civil, b: Civil)
    requires
        valid_civil(a),
        valid_civil(b),
        unix_from_civil(a) == unix_from_civil(b),
    ensures
        a == b,
{
    lemma_dates_keep_order(a, b);
    lemma_dates_keep_order(b, a);
}

/// A date and time with four-digit year, in the form `YYYY-MM-DDTHH:MM:SSZ`.
pub open spec fn iso_text(c: Civil) -> Seq<char> {
    text::decimal4(c.year as nat) + "-"@ + text::decimal2(c.month as nat) + "-"@ + text::decimal2(
        c.day as nat,
    ) + "T"@ + text::decimal2(c.hour as nat) + ":"@ + text::decimal2(c.minute as nat) + ":"@
        + text::decimal2(c.second as nat) + "Z"@
}

/// The clock's reading in seconds since 1970; a clock set before 1970 counts as its start.
pub open spec fn clock_secs(clock: Option<u64>) -> int {
    match clock {
        Some(secs) => secs as int,
        None => 0,
    }
}

/// The time stamp of the second that the clock shows, in the style of RFC 3339 and in
/// UTC. The clock gives the seconds since 1970, or `None` where it is set before 1970.
pub fn iso_now(clock: Option<u64>) -> (res: String)
    requires
        clock_secs(clock) <= MAX_CLOCK_SECS,
    ensures
        res@ == iso_text(civil_at(clock_secs(clock))),
{
    let secs: u64 = match clock {
        Some(secs) => secs,
        None => 0,
    };
    let t: (i32, u32, u32, u32, u32, u32) = civil_from_unix(secs as i64);
    proof {
        lemma_not_before_1970(civil_of(t));
    }
    let mut out = String::new();
    text::push_decimal4(&mut out, t.0 as u64);
    out.append("-");
    text::push_decimal2(&mut out, t.1 as u64);
    out.append("-");
    text::push_decimal2(&mut out, t.2 as u64);
    out.append("T");
    text::push_decimal2(&mut out, t.3 as u64);
    out.append(":");
    text::push_decimal2(&mut out, t.4 as u64);
    out.append(":");
    text::push_decimal2(&mut out, t.5 as u64);
    out.append("Z");
    assert(out@ =~= iso_text(civil_of(t)));
    out
}

/// A second that does not come before 1970 lies in 1970 or later.
pub proof fn lemma_not_before_1970(c: Civil)
    requires
        valid_civil(c),
        unix_from_civil(c) >= 0,
    ensures
        c.year >= 1970,
{
    lemma_day_in_year(c.year, c.month, c.day);
    lemma_years_are_contiguous(1970);
    if c.year < 1970 {
        lemma_years_ordered(c.year + 1, 1970);
    }
}

/// Every second of the Unix epoch has a date and a time of day, however far from 1970.
pub proof fn lemma_every_second_has_a_date(secs: int)
    ensures
        valid_civil(civil_at(secs)),
        unix_from_civil(civil_at(secs)) == secs,
{
    let days = secs / 86400;
    let rem = secs % 86400;
    let z = days + 719468;
    let era = z / 146097;
    let doe = z - era * 146097;
    lemma_year_of_era(doe);
    let yoe = year_of_era(doe);
    let y = yoe + era * 400;
    let doy = doe - days_of_era(yoe);
    let mp = (5 * doy + 2) / 153;
    let d = doy - (153 * mp + 2) / 5 + 1;
    let m: int = if mp < 10 {
        mp + 3
    } else {
        mp - 9
    };
    let year: int = if m <= 2 {
        y + 1
    } else {
        y
    };
    lemma_march_of_era(era, yoe);
    lemma_month_of_march_year(y, doy, mp, d, m);
    let c = Civil {
        year,
        month: m,
        day: d,
        hour: rem / 3600,
        minute: (rem % 3600) / 60,
        second: rem % 60,
    };
    assert(valid_civil(c) && unix_from_civil(c) == secs);
}

/// A time stamp of a year up to 9999 has the twenty characters of `YYYY-MM-DDTHH:MM:SSZ`.
pub proof fn lemma_stamp_length(c: Civil)
    requires
        valid_civil(c),
        0 <= c.year <= 9999,
    ensures
        iso_text(c).len() == 20,
        iso_text(c)[4] == '-',
        iso_text(c)[7] == '-',
        iso_text(c)[10] == 'T',
        iso_text(c)[13] == ':',
        iso_text(c)[16] == ':',
        iso_text(c)[19] == 'Z',
{
    text::lemma_decimal_widths(c.year as nat);
    text::lemma_decimal_widths(c.month as nat);
    text::lemma_decimal_widths(c.day as nat);
    text::lemma_decimal_widths(c.hour as nat);
    text::lemma_decimal_widths(c.minute as nat);
    text::lemma_decimal_widths(c.second as nat);
    reveal_strlit("-");
    reveal_strlit("T");
    reveal_strlit(":");
    reveal_strlit("Z");
}

/// The first second is midnight of 1 January 1970.
pub proof fn lemma_epoch()
    ensures
        civil_at(0) == (Civil { year: 1970, month: 1, day: 1, hour: 0, minute: 0, second: 0 }),
{
    let c = Civil { year: 1970, month: 1, day: 1, hour: 0, minute: 0, second: 0 };
    lemma_years_are_contiguous(1970);
    assert(valid_civil(c) && unix_from_civil(c) == 0);
    lemma_every_second_has_a_date(0);
    lemma_civil_is_unique(c, civil_at(0));
}

/// The clock ticks: a second later the second is one more, or it is zero and the minute is one
/// more, and so on through hours, days and months to the years. February has 29 days in the
/// years that four divides but a hundred does not, and in those that four hundred divides; else
/// 28. April, June, September and November have 30, the others 31.
pub proof fn lemma_clock_ticks(secs: int)
    ensures
        ({
            let a = civil_at(secs);
            let b = civil_at(secs + 1);
            let leap = a.year % 4 == 0 && a.year % 100 != 0 || a.year % 400 == 0;
            let last: int = if a.month == 2 {
                if leap {
                    29
                } else {
                    28
                }
            } else if a.month == 4 || a.month == 6 || a.month == 9 || a.month == 11 {
                30
            } else {
                31
            };
            if a.second < 59 {
                b == (Civil { second: a.second + 1, ..a })
            } else if a.minute < 59 {
                b == (Civil { second: 0, minute: a.minute + 1, ..a })
            } else if a.hour < 23 {
                b == (Civil { second: 0, minute: 0, hour: a.hour + 1, ..a })
            } else if a.day < last {
                b == (Civil { second: 0, minute: 0, hour: 0, day: a.day + 1, ..a })
            } else if a.month < 12 {
                b == (Civil { second: 0, minute: 0, hour: 0, day: 1, month: a.month + 1, ..a })
            } else {
                b == (Civil {
                    second: 0,
                    minute: 0,
                    hour: 0,
                    day: 1,
                    month: 1,
                    year: a.year + 1,
                })
            }
        }),
{
    let a = civil_at(secs);
    let b = civil_at(secs + 1);
    lemma_every_second_has_a_date(secs);
    lemma_every_second_has_a_date(secs + 1);
    lemma_years_are_contiguous(a.year);
    let last = days_in_month(a.year, a.month);
    let next = if a.second < 59 {
        Civil { second: a.second + 1, ..a }
    } else if a.minute < 59 {
        Civil { second: 0, minute: a.minute + 1, ..a }
    } else if a.hour < 23 {
        Civil { second: 0, minute: 0, hour: a.hour + 1, ..a }
    } else if a.day < last {
        Civil { second: 0, minute: 0, hour: 0, day: a.day + 1, ..a }
    } else if a.month < 12 {
        Civil { second: 0, minute: 0, hour: 0, day: 1, month: a.month + 1, ..a }
    } else {
        Civil { second: 0, minute: 0, hour: 0, day: 1, month: 1, year: a.year + 1 }
    };
    assert(days_before_month(a.year + 1, 1) == 0);
    assert(days_before_month(a.year, a.month + 1) == days_before_month(a.year, a.month) + last);
    assert(valid_civil(next) && unix_from_civil(next) == secs + 1);
    lemma_civil_is_unique(next, b);
}

/// The date and time of a second are those of the calendar and the clock: months from 1 to 12,
/// days from 1 to 31, hours to 23, minutes and seconds to 59.
pub proof fn lemma_date_in_range(secs: int)
    ensures
        1 <= civil_at(secs).month <= 12,
        1 <= civil_at(secs).day <= 31,
        0 <= civil_at(secs).hour <= 23,
        0 <= civil_at(secs).minute <= 59,
        0 <= civil_at(secs).second <= 59,
{
    lemma_every_second_has_a_date(secs);
}

/// A time stamp is the year with four digits or more, then month, day, hour, minute and second
/// with two digits each, and each number reads back.
pub proof fn lemma_stamp_reads_back(c: Civil)
    requires
        0 <= c.year,
        1 <= c.month <= 12,
        1 <= c.day <= 31,
        0 <= c.hour <= 23,
        0 <= c.minute <= 59,
        0 <= c.second <= 59,
    ensures
        ({
            let s = iso_text(c);
            let n = s.len() - 16;
            &&& n >= 4
            &&& n > 4 ==> s[0] != '0'
            &&& text::decimal_value(s.subrange(0, n)) == c.year
            &&& s[n] == '-'
            &&& text::decimal_value(s.subrange(n + 1, n + 3)) == c.month
            &&& s[n + 3] == '-'
            &&& text::decimal_value(s.subrange(n + 4, n + 6)) == c.day
            &&& s[n + 6] == 'T'
            &&& text::decimal_value(s.subrange(n + 7, n + 9)) == c.hour
            &&& s[n + 9] == ':'
            &&& text::decimal_value(s.subrange(n + 10, n + 12)) == c.minute
            &&& s[n + 12] == ':'
            &&& text::decimal_value(s.subrange(n + 13, n + 15)) == c.second
            &&& s[n + 15] == 'Z'
            &&& forall|k: int|
                0 <= k < n || n < k < n + 3 || n + 3 < k < n + 6 || n + 6 < k < n + 9 || n + 9 < k
                    < n + 12 || n + 12 < k < n + 15 ==> '0' <= #[trigger] s[k] <= '9'
        }),
{
    let s = iso_text(c);
    let year = text::decimal4(c.year as nat);
    let month = text::decimal2(c.month as nat);
    let day = text::decimal2(c.day as nat);
    let hour = text::decimal2(c.hour as nat);
    let minute = text::decimal2(c.minute as nat);
    let second = text::decimal2(c.second as nat);
    text::lemma_padded_reads_back(c.year as nat);
    text::lemma_padded_reads_back(c.month as nat);
    text::lemma_padded_reads_back(c.day as nat);
    text::lemma_padded_reads_back(c.hour as nat);
    text::lemma_padded_reads_back(c.minute as nat);
    text::lemma_padded_reads_back(c.second as nat);
    text::lemma_decimal_widths(c.month as nat);
    text::lemma_decimal_widths(c.day as nat);
    text::lemma_decimal_widths(c.hour as nat);
    text::lemma_decimal_widths(c.minute as nat);
    text::lemma_decimal_widths(c.second as nat);
    reveal_strlit("-");
    reveal_strlit("T");
    reveal_strlit(":");
    reveal_strlit("Z");
    let n = year.len() as int;
    assert(s.len() == n + 16);
    assert(s.subrange(0, n) =~= year);
    assert(s.subrange(n + 1, n + 3) =~= month);
    assert(s.subrange(n + 4, n + 6) =~= day);
    assert(s.subrange(n + 7, n + 9) =~= hour);
    assert(s.subrange(n + 10, n + 12) =~= minute);
    assert(s.subrange(n + 13, n + 15) =~= second);
    assert forall|k: int|
        0 <= k < n || n < k < n + 3 || n + 3 < k < n + 6 || n + 6 < k < n + 9 || n + 9 < k < n + 12
            || n + 12 < k < n + 15 implies '0' <= #[trigger] s[k] <= '9' by {
        if k < n {
            assert(s[k] == year[k]);
        } else if k < n + 3 {
            assert(s[k] == month[k - n - 1]);
        } else if k < n + 6 {
            assert(s[k] == day[k - n - 4]);
        } else if k < n + 9 {
            assert(s[k] == hour[k - n - 7]);
        } else if k < n + 12 {
            assert(s[k] == minute[k - n - 10]);
        } else {
            assert(s[k] == second[k - n - 13]);
        }
    }
}

/// The seconds that can be converted are those of the years that 32 bits hold with a sign, from
/// the first second of the first to the last second of the last.
pub proof fn lemma_range_of_the_clock()
    ensures
        civil_at(MAX_CLOCK_SECS as int) == (Civil {
            year: 2147483647,
            month: 12,
            day: 31,
            hour: 23,
            minute: 59,
            second: 59,
        }),
        civil_at(MAX_CIVIL_SECS as int) == civil_at(MAX_CLOCK_SECS as int),
        civil_at(MIN_CIVIL_SECS as int) == (Civil {
            year: -2147483648,
            month: 1,
            day: 1,
            hour: 0,
            minute: 0,
            second: 0,
        }),
{
    reveal_with_fuel(days_before_month, 13);
    let last = Civil { year: 2147483647, month: 12, day: 31, hour: 23, minute: 59, second: 59 };
    let first = Civil { year: -2147483648, month: 1, day: 1, hour: 0, minute: 0, second: 0 };
    assert(valid_civil(last) && unix_from_civil(last) == MAX_CLOCK_SECS);
    assert(valid_civil(first) && unix_from_civil(first) == MIN_CIVIL_SECS);
    lemma_every_second_has_a_date(MAX_CLOCK_SECS as int);
    lemma_every_second_has_a_date(MIN_CIVIL_SECS as int);
    lemma_civil_is_unique(last, civil_at(MAX_CLOCK_SECS as int));
    lemma_civil_is_unique(first, civil_at(MIN_CIVIL_SECS as int));
}

} // verus!
