//! Civil (wall-clock) date-times and the calendar arithmetic the stepper
//! needs: month lengths under the Gregorian leap rule, day/second indexes
//! counted from 0001-01-01, single-unit successors, and weekday numbers.
use vstd::prelude::*;

use crate::MAX_YEAR;

verus! {

/// A wall-clock date and time, with no zone attached.
#[derive(Clone, Copy, PartialEq, Eq, Structural, Debug)]
pub struct Civil {
    pub year: i32,
    pub month: u8,
    pub day: u8,
    pub hour: u8,
    pub minute: u8,
    pub second: u8,
}

/// A wall-clock date-time together with the UTC offset (in seconds) it was
/// last resolved to. The offset is refreshed from the zone table only when a
/// component is set, never when a duration is added.
#[derive(Clone, Copy, PartialEq, Eq, Structural, Debug)]
pub struct Zoned {
    pub civil: Civil,
    pub offset: i32,
}

pub open spec fn is_leap(y: int) -> bool {
    (y % 4 == 0 && y % 100 != 0) || y % 400 == 0
}

pub open spec fn month_len(y: int, m: int) -> int {
    if m == 2 {
        if is_leap(y) {
            29
        } else {
            28
        }
    } else if m == 4 || m == 6 || m == 9 || m == 11 {
        30
    } else {
        31
    }
}

/// Days in year `y` that precede the first day of month `m`.
pub open spec fn days_before_month(y: int, m: int) -> int
    decreases m,
{
    if m <= 1 {
        0
    } else {
        days_before_month(y, m - 1) + month_len(y, m - 1)
    }
}

pub open spec fn days_in_year(y: int) -> int {
    days_before_month(y, 13)
}

/// Days that precede the first day of year `y`, counted from 0001-01-01.
pub open spec fn days_before_year(y: int) -> int
    decreases y,
{
    if y <= 1 {
        0
    } else {
        days_before_year(y - 1) + days_in_year(y - 1)
    }
}

pub open spec fn valid_civil(c: Civil) -> bool {
    &&& 1 <= c.year <= MAX_YEAR
    &&& 1 <= c.month <= 12
    &&& 1 <= c.day <= month_len(c.year as int, c.month as int)
    &&& c.hour <= 23
    &&& c.minute <= 59
    &&& c.second <= 59
}

/// Number of days from 0001-01-01 to the date of `c`.
pub open spec fn day_index(c: Civil) -> int {
    days_before_year(c.year as int) + days_before_month(c.year as int, c.month as int) + c.day - 1
}

pub open spec fn sec_of_day(c: Civil) -> int {
    c.hour * 3600 + c.minute * 60 + c.second
}

/// Number of seconds from 0001-01-01 00:00:00 to `c`, in civil time.
pub open spec fn time_index(c: Civil) -> int {
    day_index(c) * 86400 + sec_of_day(c)
}

/// Day-of-year of `c`, 1-based.
pub open spec fn ordinal_of(c: Civil) -> int {
    days_before_month(c.year as int, c.month as int) + c.day
}

/// Weekday of `c` numbered from Monday = 1 through Sunday = 7
/// (0001-01-01 of the proleptic Gregorian calendar is a Monday).
pub open spec fn weekday_num(c: Civil) -> int {
    day_index(c) % 7 + 1
}

/// The absolute instant `z` denotes, as seconds relative to the civil epoch.
pub open spec fn instant(z: Zoned) -> int {
    time_index(z.civil) - z.offset
}

pub open spec fn valid_zoned(z: Zoned) -> bool {
    valid_civil(z.civil) && -86400 < z.offset < 86400
}

proof fn lemma_days_in_year_value(y: int)
    ensures
        days_in_year(y) == if is_leap(y) {
            366int
        } else {
            365int
        },
{
    reveal_with_fuel(days_before_month, 14);
}

pub proof fn lemma_days_before_year_bound(y: int)
    requires
        1 <= y,
    ensures
        0 <= days_before_year(y) <= 366 * (y - 1),
    decreases y,
{
    if y > 1 {
        lemma_days_before_year_bound(y - 1);
        lemma_days_in_year_value(y - 1);
    }
}

pub proof fn lemma_days_before_month_bound(y: int, m: int)
    requires
        1 <= m <= 13,
    ensures
        0 <= days_before_month(y, m) <= 31 * (m - 1),
    decreases m,
{
    if m > 1 {
        lemma_days_before_month_bound(y, m - 1);
    }
}

/// Every valid civil value has a day index below this bound.
pub proof fn lemma_day_index_bound(c: Civil)
    requires
        valid_civil(c),
    ensures
        0 <= day_index(c) < 3_660_000,
        0 <= time_index(c) < 320_000_000_000,
{
    lemma_days_before_year_bound(c.year as int);
    lemma_days_before_month_bound(c.year as int, c.month as int);
}

pub proof fn lemma_dbm_step_le(y: int, m1: int, m2: int)
    requires
        1 <= m1 < m2 <= 13,
    ensures
        days_before_month(y, m1) + month_len(y, m1) <= days_before_month(y, m2),
    decreases m2 - m1,
{
    if m2 > m1 + 1 {
        lemma_dbm_step_le(y, m1, m2 - 1);
    }
}

pub proof fn lemma_dby_step_le(y1: int, y2: int)
    requires
        1 <= y1 < y2,
    ensures
        days_before_year(y1) + days_in_year(y1) <= days_before_year(y2),
    decreases y2 - y1,
{
    if y2 > y1 + 1 {
        lemma_dby_step_le(y1, y2 - 1);
        lemma_days_in_year_value(y2 - 1);
    }
}

/// Day indexes respect the calendar order of valid dates.
pub proof fn lemma_day_index_order(c1: Civil, c2: Civil)
    requires
        valid_civil(c1),
        valid_civil(c2),
        c1.year < c2.year || (c1.year == c2.year && c1.month < c2.month) || (c1.year == c2.year
            && c1.month == c2.month && c1.day < c2.day),
    ensures
        day_index(c1) < day_index(c2),
{
    if c1.year == c2.year {
        if c1.month == c2.month {
        } else {
            lemma_dbm_step_le(c1.year as int, c1.month as int, c2.month as int);
        }
    } else {
        lemma_dby_step_le(c1.year as int, c2.year as int);
        lemma_dbm_step_le(c1.year as int, c1.month as int, 13);
        lemma_days_before_month_bound(c2.year as int, c2.month as int);
        assert(days_before_month(c2.year as int, c2.month as int) >= 0) by {
            lemma_days_before_month_bound(c2.year as int, c2.month as int);
        }
    }
}

/// No two valid civil values share a time index.
pub proof fn lemma_time_index_inj(c1: Civil, c2: Civil)
    requires
        valid_civil(c1),
        valid_civil(c2),
        time_index(c1) == time_index(c2),
    ensures
        c1 == c2,
{
    if c1.year != c2.year || c1.month != c2.month || c1.day != c2.day {
        if c1.year < c2.year || (c1.year == c2.year && c1.month < c2.month) || (c1.year == c2.year
            && c1.month == c2.month && c1.day < c2.day) {
            lemma_day_index_order(c1, c2);
        } else {
            lemma_day_index_order(c2, c1);
        }
        assert(false);
    }
}

/// The valid civil value with the given time index, where one exists.
pub open spec fn civil_at(t: int) -> Civil {
    choose|c: Civil| valid_civil(c) && time_index(c) == t
}

/// A valid civil value is what `civil_at` gives for its own index.
pub proof fn lemma_civil_at_of(c: Civil)
    requires
        valid_civil(c),
    ensures
        civil_at(time_index(c)) == c,
        valid_civil(civil_at(time_index(c))),
{
    assert(valid_civil(c) && time_index(c) == time_index(c));
    let w = civil_at(time_index(c));
    assert(valid_civil(w) && time_index(w) == time_index(c));
    lemma_time_index_inj(w, c);
}

/// Whether `c` is the last representable civil date.
pub open spec fn at_max_day(c: Civil) -> bool {
    c.year == MAX_YEAR && c.month == 12 && c.day == 31
}

/// The calendar day after `c`'s date, keeping the time of day.
pub open spec fn succ_day_s(c: Civil) -> Civil {
    if c.day < month_len(c.year as int, c.month as int) {
        Civil { day: (c.day + 1) as u8, ..c }
    } else if c.month < 12 {
        Civil { month: (c.month + 1) as u8, day: 1, ..c }
    } else {
        Civil { year: (c.year + 1) as i32, month: 1, day: 1, ..c }
    }
}

/// One second later, or `None` past the end of year 9999.
pub open spec fn succ_sec_s(c: Civil) -> Option<Civil> {
    if c.second < 59 {
        Some(Civil { second: (c.second + 1) as u8, ..c })
    } else if c.minute < 59 {
        Some(Civil { minute: (c.minute + 1) as u8, second: 0, ..c })
    } else if c.hour < 23 {
        Some(Civil { hour: (c.hour + 1) as u8, minute: 0, second: 0, ..c })
    } else if !at_max_day(c) {
        Some(succ_day_s(Civil { hour: 0, minute: 0, second: 0, ..c }))
    } else {
        None
    }
}

/// One minute later, or `None` past the end of year 9999.
pub open spec fn succ_min_s(c: Civil) -> Option<Civil> {
    if c.minute < 59 {
        Some(Civil { minute: (c.minute + 1) as u8, ..c })
    } else if c.hour < 23 {
        Some(Civil { hour: (c.hour + 1) as u8, minute: 0, ..c })
    } else if !at_max_day(c) {
        Some(succ_day_s(Civil { hour: 0, minute: 0, ..c }))
    } else {
        None
    }
}

/// One hour later, or `None` past the end of year 9999.
pub open spec fn succ_hour_s(c: Civil) -> Option<Civil> {
    if c.hour < 23 {
        Some(Civil { hour: (c.hour + 1) as u8, ..c })
    } else if !at_max_day(c) {
        Some(succ_day_s(Civil { hour: 0, ..c }))
    } else {
        None
    }
}

/// `n` days later, or `None` past the end of year 9999.
pub open spec fn add_days_s(c: Civil, n: nat) -> Option<Civil>
    decreases n,
{
    if n == 0 {
        Some(c)
    } else if at_max_day(c) {
        None
    } else {
        add_days_s(succ_day_s(c), (n - 1) as nat)
    }
}

/// `n` hours later, or `None` past the end of year 9999.
pub open spec fn add_hours_s(c: Civil, n: nat) -> Option<Civil>
    decreases n,
{
    if n == 0 {
        Some(c)
    } else {
        match succ_hour_s(c) {
            Some(c2) => add_hours_s(c2, (n - 1) as nat),
            None => None,
        }
    }
}

/// `n` minutes later, or `None` past the end of year 9999.
pub open spec fn add_mins_s(c: Civil, n: nat) -> Option<Civil>
    decreases n,
{
    if n == 0 {
        Some(c)
    } else {
        match succ_min_s(c) {
            Some(c2) => add_mins_s(c2, (n - 1) as nat),
            None => None,
        }
    }
}

/// `n` seconds later, or `None` past the end of year 9999.
pub open spec fn add_secs_s(c: Civil, n: nat) -> Option<Civil>
    decreases n,
{
    if n == 0 {
        Some(c)
    } else {
        match succ_sec_s(c) {
            Some(c2) => add_secs_s(c2, (n - 1) as nat),
            None => None,
        }
    }
}

pub exec fn month_len_of(year: i32, month: u8) -> (r: u8)
    requires
        1 <= year,
        1 <= month <= 12,
    ensures
        r as int == month_len(year as int, month as int),
{
    if month == 2 {
        if (year % 4 == 0 && year % 100 != 0) || year % 400 == 0 {
            29
        } else {
            28
        }
    } else if month == 4 || month == 6 || month == 9 || month == 11 {
        30
    } else {
        31
    }
}

/// The calendar day after `c`'s date, keeping the time of day.
pub exec fn next_day(c: &Civil) -> (r: Civil)
    requires
        valid_civil(*c),
        !at_max_day(*c),
    ensures
        valid_civil(r),
        r == succ_day_s(*c),
        day_index(r) == day_index(*c) + 1,
        r.hour == c.hour && r.minute == c.minute && r.second == c.second,
{
    let len: u8 = month_len_of(c.year, c.month);
    if c.day < len {
        Civil { day: c.day + 1, ..*c }
    } else if c.month < 12 {
        proof {
            assert(days_before_month(c.year as int, c.month as int + 1) == days_before_month(
                c.year as int,
                c.month as int,
            ) + month_len(c.year as int, c.month as int));
        }
        Civil { month: c.month + 1, day: 1, ..*c }
    } else {
        proof {
            assert(days_before_year(c.year as int + 1) == days_before_year(c.year as int)
                + days_in_year(c.year as int));
            lemma_days_in_year_value(c.year as int);
            reveal_with_fuel(days_before_month, 14);
        }
        Civil { year: c.year + 1, month: 1, day: 1, ..*c }
    }
}

/// Adds `n` days; `None` when that would pass the end of year 9999.
pub exec fn add_days(c: &Civil, n: u64) -> (r: Option<Civil>)
    requires
        valid_civil(*c),
    ensures
        r == add_days_s(*c, n as nat),
        match r {
            Some(c2) => {
                &&& valid_civil(c2)
                &&& day_index(c2) == day_index(*c) + n
                &&& c2.hour == c.hour && c2.minute == c.minute && c2.second == c.second
            },
            None => true,
        },
{
    let mut cur: Civil = *c;
    let mut i: u64 = 0;
    while i < n
        invariant
            valid_civil(cur),
            0 <= i <= n,
            day_index(cur) == day_index(*c) + i,
            cur.hour == c.hour && cur.minute == c.minute && cur.second == c.second,
            add_days_s(*c, n as nat) == add_days_s(cur, (n - i) as nat),
        decreases n - i,
    {
        if cur.year == MAX_YEAR && cur.month == 12 && cur.day == 31 {
            return None;
        }
        cur = next_day(&cur);
        i = i + 1;
    }
    Some(cur)
}

/// Adds one second; `None` when that would pass the end of year 9999.
pub exec fn next_second(c: &Civil) -> (r: Option<Civil>)
    requires
        valid_civil(*c),
    ensures
        r == succ_sec_s(*c),
        match r {
            Some(c2) => valid_civil(c2) && time_index(c2) == time_index(*c) + 1,
            None => true,
        },
{
    if c.second < 59 {
        Some(Civil { second: c.second + 1, ..*c })
    } else if c.minute < 59 {
        Some(Civil { minute: c.minute + 1, second: 0, ..*c })
    } else if c.hour < 23 {
        Some(Civil { hour: c.hour + 1, minute: 0, second: 0, ..*c })
    } else if !(c.year == MAX_YEAR && c.month == 12 && c.day == 31) {
        let d: Civil = next_day(&Civil { hour: 0, minute: 0, second: 0, ..*c });
        Some(d)
    } else {
        None
    }
}

/// Adds one minute; `None` when that would pass the end of year 9999.
pub exec fn next_minute(c: &Civil) -> (r: Option<Civil>)
    requires
        valid_civil(*c),
    ensures
        r == succ_min_s(*c),
        match r {
            Some(c2) => {
                &&& valid_civil(c2)
                &&& time_index(c2) == time_index(*c) + 60
                &&& c2.second == c.second
            },
            None => true,
        },
{
    if c.minute < 59 {
        Some(Civil { minute: c.minute + 1, ..*c })
    } else if c.hour < 23 {
        Some(Civil { hour: c.hour + 1, minute: 0, ..*c })
    } else if !(c.year == MAX_YEAR && c.month == 12 && c.day == 31) {
        let d: Civil = next_day(&Civil { hour: 0, minute: 0, ..*c });
        Some(d)
    } else {
        None
    }
}

/// Adds one hour; `None` when that would pass the end of year 9999.
pub exec fn next_hour(c: &Civil) -> (r: Option<Civil>)
    requires
        valid_civil(*c),
    ensures
        r == succ_hour_s(*c),
        match r {
            Some(c2) => {
                &&& valid_civil(c2)
                &&& time_index(c2) == time_index(*c) + 3600
                &&& c2.minute == c.minute && c2.second == c.second
            },
            None => true,
        },
{
    if c.hour < 23 {
        Some(Civil { hour: c.hour + 1, ..*c })
    } else if !(c.year == MAX_YEAR && c.month == 12 && c.day == 31) {
        let d: Civil = next_day(&Civil { hour: 0, ..*c });
        Some(d)
    } else {
        None
    }
}

/// Adds `n` hours; `None` when that would pass the end of year 9999.
pub exec fn add_hours(c: &Civil, n: u64) -> (r: Option<Civil>)
    requires
        valid_civil(*c),
    ensures
        r == add_hours_s(*c, n as nat),
        match r {
            Some(c2) => {
                &&& valid_civil(c2)
                &&& time_index(c2) == time_index(*c) + n * 3600
                &&& c2.minute == c.minute && c2.second == c.second
            },
            None => true,
        },
{
    let mut cur: Civil = *c;
    let mut i: u64 = 0;
    while i < n
        invariant
            valid_civil(cur),
            0 <= i <= n,
            time_index(cur) == time_index(*c) + i * 3600,
            cur.minute == c.minute && cur.second == c.second,
            add_hours_s(*c, n as nat) == add_hours_s(cur, (n - i) as nat),
        decreases n - i,
    {
        match next_hour(&cur) {
            Some(c2) => {
                cur = c2;
            },
            None => {
                return None;
            },
        }
        i = i + 1;
    }
    Some(cur)
}

/// Adds `n` minutes; `None` when that would pass the end of year 9999.
pub exec fn add_mins(c: &Civil, n: u64) -> (r: Option<Civil>)
    requires
        valid_civil(*c),
    ensures
        r == add_mins_s(*c, n as nat),
        match r {
            Some(c2) => {
                &&& valid_civil(c2)
                &&& time_index(c2) == time_index(*c) + n * 60
                &&& c2.second == c.second
            },
            None => true,
        },
{
    let mut cur: Civil = *c;
    let mut i: u64 = 0;
    while i < n
        invariant
            valid_civil(cur),
            0 <= i <= n,
            time_index(cur) == time_index(*c) + i * 60,
            cur.second == c.second,
            add_mins_s(*c, n as nat) == add_mins_s(cur, (n - i) as nat),
        decreases n - i,
    {
        match next_minute(&cur) {
            Some(c2) => {
                cur = c2;
            },
            None => {
                return None;
            },
        }
        i = i + 1;
    }
    Some(cur)
}

/// Adds `n` seconds; `None` when that would pass the end of year 9999.
pub exec fn add_secs(c: &Civil, n: u64) -> (r: Option<Civil>)
    requires
        valid_civil(*c),
    ensures
        r == add_secs_s(*c, n as nat),
        match r {
            Some(c2) => valid_civil(c2) && time_index(c2) == time_index(*c) + n,
            None => true,
        },
{
    let mut cur: Civil = *c;
    let mut i: u64 = 0;
    while i < n
        invariant
            valid_civil(cur),
            0 <= i <= n,
            time_index(cur) == time_index(*c) + i,
            add_secs_s(*c, n as nat) == add_secs_s(cur, (n - i) as nat),
        decreases n - i,
    {
        match next_second(&cur) {
            Some(c2) => {
                cur = c2;
            },
            None => {
                return None;
            },
        }
        i = i + 1;
    }
    Some(cur)
}

/// Number of days from 0001-01-01 to `c`'s date, computed by summing
/// year and month lengths.
pub exec fn day_index_of(c: &Civil) -> (r: i64)
    requires
        valid_civil(*c),
    ensures
        r as int == day_index(*c),
{
    proof {
        lemma_day_index_bound(*c);
    }
    let mut acc: i64 = 0;
    let mut y: i32 = 1;
    while y < c.year
        invariant
            1 <= y <= c.year,
            valid_civil(*c),
            acc as int == days_before_year(y as int),
            0 <= acc <= 366 * (y as int - 1),
        decreases c.year - y,
    {
        let leap: bool = (y % 4 == 0 && y % 100 != 0) || y % 400 == 0;
        proof {
            lemma_days_in_year_value(y as int);
            lemma_days_before_year_bound(y as int + 1);
        }
        acc = acc + if leap {
            366
        } else {
            365
        };
        y = y + 1;
    }
    let mut m: u8 = 1;
    let ghost acc_y: int = acc as int;
    while m < c.month
        invariant
            1 <= m <= c.month,
            valid_civil(*c),
            y == c.year,
            acc as int == acc_y + days_before_month(c.year as int, m as int),
            acc_y == days_before_year(c.year as int),
            0 <= acc <= acc_y + 31 * (m as int - 1),
        decreases c.month - m,
    {
        proof {
            lemma_days_before_year_bound(c.year as int);
            lemma_days_before_month_bound(c.year as int, m as int + 1);
        }
        acc = acc + month_len_of(c.year, m) as i64;
        m = m + 1;
    }
    acc + (c.day - 1) as i64
}

/// Seconds from the civil epoch to `c`, as an `i64`.
pub exec fn time_index_of(c: &Civil) -> (r: i64)
    requires
        valid_civil(*c),
    ensures
        r as int == time_index(*c),
{
    proof {
        lemma_day_index_bound(*c);
    }
    let d: i64 = day_index_of(c);
    d * 86400 + (c.hour as i64) * 3600 + (c.minute as i64) * 60 + c.second as i64
}

/// Weekday of `c`, numbered from Monday = 1 through Sunday = 7.
pub exec fn weekday_of(c: &Civil) -> (r: u8)
    requires
        valid_civil(*c),
    ensures
        r as int == weekday_num(*c),
        1 <= r <= 7,
{
    proof {
        lemma_day_index_bound(*c);
    }
    let d: i64 = day_index_of(c);
    (d % 7) as u8 + 1
}

/// The absolute instant of `z` as an `i64`, for order comparisons.
pub exec fn instant_of(z: &Zoned) -> (r: i64)
    requires
        valid_zoned(*z),
    ensures
        r as int == instant(*z),
{
    proof {
        lemma_day_index_bound(z.civil);
    }
    time_index_of(&z.civil) - z.offset as i64
}

} // verus!
