//! Points in time by the calendar.

use time::OffsetDateTime;
use vstd::prelude::*;

verus! {

/// A point in time by the calendar, in UTC.
#[derive(Debug, Clone, Copy)]
pub struct CivilTime {
    pub year: i32,
    pub month: u8,
    pub day: u8,
    pub hour: u8,
    pub minute: u8,
    pub second: u8,
}

/// The year has a leap day.
pub open spec fn is_leap(year: int) -> bool {
    year % 4 == 0 && (year % 100 != 0 || year % 400 == 0)
}

/// How many days a month has.
pub open spec fn month_days(year: int, month: int) -> int {
    if month == 2 {
        if is_leap(year) {
            29
        } else {
            28
        }
    } else if month == 4 || month == 6 || month == 9 || month == 11 {
        30
    } else {
        31
    }
}

/// The days from the start of 1970 to the start of a year.
pub open spec fn year_start(year: int) -> int {
    let past = year - 1;
    365 * past + past / 4 - past / 100 + past / 400 - 719_162
}

/// The days from the start of a year to the start of a month.
pub open spec fn month_start(year: int, month: int) -> int
    decreases month,
{
    if month <= 1 {
        0
    } else {
        month_start(year, month - 1) + month_days(year, month - 1)
    }
}

/// The calendar has such a point in time.
pub open spec fn in_calendar(t: CivilTime) -> bool {
    &&& 1 <= t.month <= 12
    &&& 1 <= t.day <= month_days(t.year as int, t.month as int)
    &&& t.hour < 24
    &&& t.minute < 60
    &&& t.second < 60
}

/// The days from the start of 1970 to the day of a point in time.
pub open spec fn day_number(t: CivilTime) -> int {
    year_start(t.year as int) + month_start(t.year as int, t.month as int) + t.day - 1
}

/// The seconds from the start of 1970 to a point in time.
pub open spec fn seconds_of(t: CivilTime) -> int {
    ((day_number(t) * 24 + t.hour) * 60 + t.minute) * 60 + t.second
}

/// The point in time that lies this many seconds after the start of 1970.
pub open spec fn civil_time(seconds: int) -> CivilTime {
    choose|t: CivilTime| in_calendar(t) && #[trigger] seconds_of(t) == seconds
}

/// The years from -9999 to 9999.
pub open spec fn in_reach(seconds: int) -> bool {
    -377_705_116_800 <= seconds <= 253_402_300_799
}

/// `OffsetDateTime::from_unix_timestamp` and the parts of its result: the point in time, by the
/// Gregorian calendar carried on in both directions, that lies this many seconds after the start of
/// 1970, from the year -9999 to the year 9999.
#[verifier::external_body]
fn to_civil(seconds: i64) -> (r: Option<CivilTime>)
    ensures
        r is Some <==> in_reach(seconds as int),
        r is Some ==> in_calendar(r->0) && seconds_of(r->0) == seconds,
{
    let t = OffsetDateTime::from_unix_timestamp(seconds).ok()?;
    let (year, month, day) = t.to_calendar_date();
    let (hour, minute, second) = t.to_hms();
    Some(CivilTime { year, month: u8::from(month), day, hour, minute, second })
}

/// The point in time that lies this many seconds after the start of 1970, where it is in reach.
pub fn civil_at(seconds: i64) -> (r: Option<CivilTime>)
    ensures
        r == if in_reach(seconds as int) {
            Some(civil_time(seconds as int))
        } else {
            None
        },
        r is Some ==> in_calendar(r->0) && seconds_of(r->0) == seconds,
{
    let r = to_civil(seconds);
    proof {
        if let Some(t) = r {
            law_one_time_for_each_second(t, civil_time(seconds as int));
        }
    }
    r
}

// ── Laws ─────────────────────────────────────────────────────────────────────

/// A year is as long as its months.
proof fn lemma_year_length(year: int)
    ensures
        year_start(year + 1) == year_start(year) + month_start(year, 13),
        month_start(year, 13) >= 365,
{
    reveal_with_fuel(month_start, 14);
}

/// Years start one after the other.
proof fn lemma_years_ascend(a: int, b: int)
    requires
        a <= b,
    ensures
        year_start(a) <= year_start(b),
    decreases b - a,
{
    if a < b {
        lemma_years_ascend(a, b - 1);
        lemma_year_length(b - 1);
    }
}

/// Months start one after the other.
proof fn lemma_months_ascend(year: int, a: int, b: int)
    requires
        1 <= a < b,
    ensures
        month_start(year, a) + month_days(year, a) <= month_start(year, b),
    decreases b - a,
{
    if a < b - 1 {
        lemma_months_ascend(year, a, b - 1);
    }
}

/// A later year or month means a later day.
proof fn lemma_days_ascend(t: CivilTime, u: CivilTime)
    requires
        in_calendar(t),
        in_calendar(u),
        t.year < u.year || (t.year == u.year && t.month < u.month),
    ensures
        day_number(t) < day_number(u),
{
    lemma_months_ascend(t.year as int, t.month as int, 13);
    if u.month > 1 {
        lemma_months_ascend(u.year as int, 1, u.month as int);
    }
    if t.year < u.year {
        lemma_year_length(t.year as int);
        lemma_years_ascend(t.year + 1, u.year as int);
    } else {
        lemma_months_ascend(t.year as int, t.month as int, u.month as int);
    }
}

/// No two points in time lie the same number of seconds after the start of 1970.
pub proof fn law_one_time_for_each_second(t: CivilTime, u: CivilTime)
    requires
        in_calendar(t),
        in_calendar(u),
        seconds_of(t) == seconds_of(u),
    ensures
        t == u,
{
    assert(day_number(t) == day_number(u));
    if t.year < u.year || (t.year == u.year && t.month < u.month) {
        lemma_days_ascend(t, u);
    }
    if u.year < t.year || (t.year == u.year && u.month < t.month) {
        lemma_days_ascend(u, t);
    }
}

/// The point in time one second later, as a clock and a wall calendar show it.
pub open spec fn next_second(t: CivilTime) -> CivilTime {
    let last = match t.month {
        2 => if (t.year % 4 == 0 && t.year % 100 != 0) || t.year % 400 == 0 {
            29int
        } else {
            28
        },
        4 => 30,
        6 => 30,
        9 => 30,
        11 => 30,
        _ => 31,
    };
    if t.second < 59 {
        CivilTime { second: (t.second + 1) as u8, ..t }
    } else if t.minute < 59 {
        CivilTime { second: 0, minute: (t.minute + 1) as u8, ..t }
    } else if t.hour < 23 {
        CivilTime { second: 0, minute: 0, hour: (t.hour + 1) as u8, ..t }
    } else if t.day < last {
        CivilTime { second: 0, minute: 0, hour: 0, day: (t.day + 1) as u8, ..t }
    } else if t.month < 12 {
        CivilTime { second: 0, minute: 0, hour: 0, day: 1, month: (t.month + 1) as u8, ..t }
    } else {
        CivilTime {
            second: 0,
            minute: 0,
            hour: 0,
            day: 1,
            month: 1,
            year: (t.year + 1) as i32,
        }
    }
}

/// Up to the end of the year 9999 a year has no fifth digit.
proof fn lemma_four_digits(t: CivilTime)
    requires
        in_calendar(t),
        seconds_of(t) <= 253_402_300_799,
    ensures
        t.year < 10_000,
{
    if t.year >= 10_000 {
        lemma_years_ascend(10_000, t.year as int);
        if t.month > 1 {
            lemma_months_ascend(t.year as int, 1, t.month as int);
        }
        assert(day_number(t) >= year_start(10_000));
    }
}

/// The day moves on at midnight, and only then.
proof fn lemma_next_day(t: CivilTime)
    requires
        in_calendar(t),
        t.year < 10_000,
    ensures
        in_calendar(next_second(t)),
        day_number(next_second(t)) == day_number(t) + if t.hour == 23 && t.minute == 59 && t.second
            == 59 {
            1int
        } else {
            0
        },
{
    let u = next_second(t);
    let year = t.year as int;
    let month = t.month as int;
    if t.hour == 23 && t.minute == 59 && t.second == 59 && t.day == month_days(year, month) {
        assert(month_start(year, month + 1) == month_start(year, month) + month_days(year, month));
        if t.month == 12 {
            lemma_year_length(year);
            assert(month_start(year + 1, 1) == 0);
        }
    }
}

/// One second is counted.
proof fn lemma_next_second(t: CivilTime)
    requires
        in_calendar(t),
        day_number(next_second(t)) == day_number(t) + if t.hour == 23 && t.minute == 59 && t.second
            == 59 {
            1int
        } else {
            0
        },
    ensures
        seconds_of(next_second(t)) == seconds_of(t) + 1,
{
}

/// Seconds are counted from the start of 1970, and each moves the clock on by one.
pub proof fn law_the_clock_goes_second_by_second(
    seconds: i64,
    now: Option<CivilTime>,
    next: i64,
    then: Option<CivilTime>,
)
    requires
        call_ensures(civil_at, (seconds,), now),
        call_ensures(civil_at, (next,), then),
        next == seconds + 1,
        -377_705_116_800 <= seconds,
        next <= 253_402_300_799,
    ensures
        now is Some,
        then is Some,
        then->0 == next_second(now->0),
        seconds == 0 ==> now->0 == (CivilTime {
            year: 1970,
            month: 1,
            day: 1,
            hour: 0,
            minute: 0,
            second: 0,
        }),
{
    let t = now->0;
    let u = next_second(t);
    lemma_four_digits(t);
    lemma_next_day(t);
    lemma_next_second(t);
    law_one_time_for_each_second(u, then->0);
    if seconds == 0 {
        let start = CivilTime { year: 1970, month: 1, day: 1, hour: 0, minute: 0, second: 0 };
        law_one_time_for_each_second(start, t);
    }
}

} // verus!
