//! The frequency stepper: given a rule and a current occurrence, computes
//! the next one. Durations add in civil time with the offset unchanged;
//! setting a component re-resolves the offset in the rule's zone. Filter
//! loops are bounded, and stepping fails rather than running forever or
//! leaving the supported year range.
use vstd::prelude::*;

use crate::civil::{
    Civil, Zoned, add_days, add_days_s, add_hours, add_hours_s, add_mins, add_mins_s, add_secs,
    add_secs_s, instant, instant_of, month_len, month_len_of, ordinal_of, time_index, valid_civil,
    valid_zoned, weekday_num, weekday_of,
};
use crate::parser::str_eq_lit;
use crate::rule::{RRule, RuleView};
use crate::textnum::{parse_u32, parse_u32_spec};
use crate::tz::{refresh_spec, refresh_zoned};
use crate::weekday::{
    calculate_weekday_distance, civil_weekday_code, code_of_num, weekday_distance,
};
use crate::MAX_YEAR;

verus! {

/// Bound on every filter-matching loop: a rule whose filters cannot be
/// satisfied within this many strides fails instead of running forever.
pub const FILTER_CAP: u32 = 10000;

/// Stepping could not produce a next occurrence.
#[derive(Debug, Clone, Copy, PartialEq, Eq, Structural)]
pub enum GenerationError {
    /// No stride satisfied the `BY*` filters within the bounded search.
    NoMatch,
    /// The next occurrence would leave the supported year range.
    OutOfRange,
    /// A rule field did not parse, or a civil moment did not resolve to
    /// exactly one instant in the rule's zone.
    Unresolvable,
}

/// The zone stepping happens in: the rule's `TZID`, defaulting to UTC.
pub open spec fn zone_of(r: RuleView) -> Seq<char> {
    if r.tzid.len() == 0 {
        "UTC"@
    } else {
        r.tzid
    }
}

/// The stride, `1` when `INTERVAL` is absent or unreadable.
pub open spec fn interval_spec(r: RuleView) -> u32 {
    match parse_u32_spec(r.interval) {
        Some(v) => v,
        None => 1u32,
    }
}

/// The first element, or the empty string when the list is empty.
pub open spec fn first_of(v: Seq<Seq<char>>) -> Seq<char> {
    if v.len() == 0 {
        Seq::empty()
    } else {
        v[0]
    }
}

pub fn zone_str(r: &RRule) -> (s: &str)
    ensures
        s@ == zone_of(r@),
{
    if r.tzid.as_str().is_empty() {
        "UTC"
    } else {
        r.tzid.as_str()
    }
}

pub fn interval_of(r: &RRule) -> (v: u32)
    ensures
        v == interval_spec(r@),
{
    match parse_u32(r.interval.as_str()) {
        Some(v) => v,
        None => 1,
    }
}

fn first_str(v: &Vec<String>) -> (r: &str)
    ensures
        r@ == first_of(v.deep_view()),
{
    if v.len() == 0 {
        let e: &str = "";
        proof {
            reveal_strlit("");
            assert(e@ =~= Seq::<char>::empty());
        }
        e
    } else {
        proof {
            assert(v.deep_view()[0] == v@[0]@);
        }
        v[0].as_str()
    }
}

/// Setting the seconds component, then re-resolving in the zone.
pub open spec fn set_second_spec(zone: Seq<char>, z: Zoned, s: u32) -> Option<Zoned> {
    if s <= 59 {
        refresh_spec(zone, Civil { second: s as u8, ..z.civil })
    } else {
        None
    }
}

/// Setting the minutes component, then re-resolving in the zone.
pub open spec fn set_minute_spec(zone: Seq<char>, z: Zoned, m: u32) -> Option<Zoned> {
    if m <= 59 {
        refresh_spec(zone, Civil { minute: m as u8, ..z.civil })
    } else {
        None
    }
}

/// Setting the hours component, then re-resolving in the zone.
pub open spec fn set_hour_spec(zone: Seq<char>, z: Zoned, h: u32) -> Option<Zoned> {
    if h <= 23 {
        refresh_spec(zone, Civil { hour: h as u8, ..z.civil })
    } else {
        None
    }
}

/// Setting the day-of-month, then re-resolving in the zone.
pub open spec fn set_day_spec(zone: Seq<char>, z: Zoned, d: u32) -> Option<Zoned> {
    if 1 <= d && d <= month_len(z.civil.year as int, z.civil.month as int) {
        refresh_spec(zone, Civil { day: d as u8, ..z.civil })
    } else {
        None
    }
}

/// Setting the month, then re-resolving in the zone.
pub open spec fn set_month_spec(zone: Seq<char>, z: Zoned, m: u32) -> Option<Zoned> {
    if 1 <= m <= 12 && z.civil.day <= month_len(z.civil.year as int, m as int) {
        refresh_spec(zone, Civil { month: m as u8, ..z.civil })
    } else {
        None
    }
}

/// Setting the year, then re-resolving in the zone.
pub open spec fn set_year_spec(zone: Seq<char>, z: Zoned, y: int) -> Option<Zoned> {
    if 1 <= y <= MAX_YEAR && z.civil.day <= month_len(y, z.civil.month as int) {
        refresh_spec(zone, Civil { year: y as i32, ..z.civil })
    } else {
        None
    }
}

fn set_second(zone: &str, z: &Zoned, s: u32) -> (r: Option<Zoned>)
    requires
        valid_zoned(*z),
    ensures
        r == set_second_spec(zone@, *z, s),
        r matches Some(z2) ==> valid_zoned(z2),
{
    if s <= 59 {
        refresh_zoned(zone, &Civil { second: s as u8, ..z.civil })
    } else {
        None
    }
}

fn set_minute(zone: &str, z: &Zoned, m: u32) -> (r: Option<Zoned>)
    requires
        valid_zoned(*z),
    ensures
        r == set_minute_spec(zone@, *z, m),
        r matches Some(z2) ==> valid_zoned(z2),
{
    if m <= 59 {
        refresh_zoned(zone, &Civil { minute: m as u8, ..z.civil })
    } else {
        None
    }
}

fn set_hour(zone: &str, z: &Zoned, h: u32) -> (r: Option<Zoned>)
    requires
        valid_zoned(*z),
    ensures
        r == set_hour_spec(zone@, *z, h),
        r matches Some(z2) ==> valid_zoned(z2),
{
    if h <= 23 {
        refresh_zoned(zone, &Civil { hour: h as u8, ..z.civil })
    } else {
        None
    }
}

fn set_day(zone: &str, z: &Zoned, d: u32) -> (r: Option<Zoned>)
    requires
        valid_zoned(*z),
    ensures
        r == set_day_spec(zone@, *z, d),
        r matches Some(z2) ==> valid_zoned(z2),
{
    if 1 <= d && d <= month_len_of(z.civil.year, z.civil.month) as u32 {
        refresh_zoned(zone, &Civil { day: d as u8, ..z.civil })
    } else {
        None
    }
}

fn set_month(zone: &str, z: &Zoned, m: u32) -> (r: Option<Zoned>)
    requires
        valid_zoned(*z),
    ensures
        r == set_month_spec(zone@, *z, m),
        r matches Some(z2) ==> valid_zoned(z2),
{
    if 1 <= m && m <= 12 && z.civil.day <= month_len_of(z.civil.year, m as u8) {
        refresh_zoned(zone, &Civil { month: m as u8, ..z.civil })
    } else {
        None
    }
}

fn set_year(zone: &str, z: &Zoned, y: i64) -> (r: Option<Zoned>)
    requires
        valid_zoned(*z),
    ensures
        r == set_year_spec(zone@, *z, y as int),
        r matches Some(z2) ==> valid_zoned(z2),
{
    if 1 <= y && y <= MAX_YEAR as i64 && z.civil.day <= month_len_of(y as i32, z.civil.month) {
        refresh_zoned(zone, &Civil { year: y as i32, ..z.civil })
    } else {
        None
    }
}

/// Adding whole days in civil time; the offset is not re-resolved.
pub open spec fn zadd_days(z: Zoned, n: nat) -> Option<Zoned> {
    match add_days_s(z.civil, n) {
        Some(c) => Some(Zoned { civil: c, offset: z.offset }),
        None => None,
    }
}

/// Adding whole hours in civil time; the offset is not re-resolved.
pub open spec fn zadd_hours(z: Zoned, n: nat) -> Option<Zoned> {
    match add_hours_s(z.civil, n) {
        Some(c) => Some(Zoned { civil: c, offset: z.offset }),
        None => None,
    }
}

/// Adding whole minutes in civil time; the offset is not re-resolved.
pub open spec fn zadd_mins(z: Zoned, n: nat) -> Option<Zoned> {
    match add_mins_s(z.civil, n) {
        Some(c) => Some(Zoned { civil: c, offset: z.offset }),
        None => None,
    }
}

/// Adding whole seconds in civil time; the offset is not re-resolved.
pub open spec fn zadd_secs(z: Zoned, n: nat) -> Option<Zoned> {
    match add_secs_s(z.civil, n) {
        Some(c) => Some(Zoned { civil: c, offset: z.offset }),
        None => None,
    }
}

fn zoned_add_days(z: &Zoned, n: u64) -> (r: Option<Zoned>)
    requires
        valid_zoned(*z),
    ensures
        r == zadd_days(*z, n as nat),
        r matches Some(z2) ==> valid_zoned(z2) && z2.offset == z.offset,
{
    match add_days(&z.civil, n) {
        Some(c) => Some(Zoned { civil: c, offset: z.offset }),
        None => None,
    }
}

fn zoned_add_hours(z: &Zoned, n: u64) -> (r: Option<Zoned>)
    requires
        valid_zoned(*z),
    ensures
        r == zadd_hours(*z, n as nat),
        r matches Some(z2) ==> valid_zoned(z2) && z2.offset == z.offset,
{
    match add_hours(&z.civil, n) {
        Some(c) => Some(Zoned { civil: c, offset: z.offset }),
        None => None,
    }
}

fn zoned_add_mins(z: &Zoned, n: u64) -> (r: Option<Zoned>)
    requires
        valid_zoned(*z),
    ensures
        r == zadd_mins(*z, n as nat),
        r matches Some(z2) ==> valid_zoned(z2) && z2.offset == z.offset,
{
    match add_mins(&z.civil, n) {
        Some(c) => Some(Zoned { civil: c, offset: z.offset }),
        None => None,
    }
}

fn zoned_add_secs(z: &Zoned, n: u64) -> (r: Option<Zoned>)
    requires
        valid_zoned(*z),
    ensures
        r == zadd_secs(*z, n as nat),
        r matches Some(z2) ==> valid_zoned(z2) && z2.offset == z.offset,
{
    match add_secs(&z.civil, n) {
        Some(c) => Some(Zoned { civil: c, offset: z.offset }),
        None => None,
    }
}

/// Time normalization before stepping: seconds, minutes and hours are
/// replaced by the first `BYSECOND`/`BYMINUTE`/`BYHOUR` values, except for
/// the components at or finer than the frequency; each replacement
/// re-resolves the offset.
pub open spec fn normalize_spec(r: RuleView, zone: Seq<char>, z: Zoned) -> Option<Zoned> {
    let s1 = if r.frequency != "SECONDLY"@ {
        let sv = if r.by_second.len() > 0 {
            parse_u32_spec(r.by_second[0])
        } else {
            Some(z.civil.second as u32)
        };
        match sv {
            Some(s) => set_second_spec(zone, z, s),
            None => None,
        }
    } else {
        Some(z)
    };
    match s1 {
        None => None,
        Some(z1) => {
            let s2 = if r.frequency != "SECONDLY"@ && r.frequency != "MINUTELY"@ {
                let mv = if r.by_minute.len() > 0 {
                    parse_u32_spec(r.by_minute[0])
                } else {
                    Some(z.civil.minute as u32)
                };
                match mv {
                    Some(m) => set_minute_spec(zone, z1, m),
                    None => None,
                }
            } else {
                Some(z1)
            };
            match s2 {
                None => None,
                Some(z2) => {
                    if r.frequency != "SECONDLY"@ && r.frequency != "MINUTELY"@ && r.frequency
                        != "HOURLY"@ {
                        let hv = if r.by_hour.len() > 0 {
                            parse_u32_spec(r.by_hour[0])
                        } else {
                            Some(z.civil.hour as u32)
                        };
                        match hv {
                            Some(h) => set_hour_spec(zone, z2, h),
                            None => None,
                        }
                    } else {
                        Some(z2)
                    }
                },
            }
        },
    }
}

/// Applies the initial time normalization.
pub fn with_initial_time_intervals(r: &RRule, zone: &str, z: &Zoned) -> (res: Option<Zoned>)
    requires
        valid_zoned(*z),
    ensures
        res == normalize_spec(r@, zone@, *z),
        res matches Some(z2) ==> valid_zoned(z2),
{
    let is_sec: bool = str_eq_lit(r.frequency.as_str(), "SECONDLY");
    let is_min: bool = str_eq_lit(r.frequency.as_str(), "MINUTELY");
    let is_hour: bool = str_eq_lit(r.frequency.as_str(), "HOURLY");
    let mut cur: Zoned = *z;
    if !is_sec {
        let sv: Option<u32> = if r.by_second.len() > 0 {
            proof {
                assert(r@.by_second[0] == r.by_second@[0]@);
            }
            parse_u32(r.by_second[0].as_str())
        } else {
            Some(z.civil.second as u32)
        };
        match sv {
            Some(s) => {
                match set_second(zone, &cur, s) {
                    Some(z1) => {
                        cur = z1;
                    },
                    None => {
                        return None;
                    },
                }
            },
            None => {
                return None;
            },
        }
    }
    if !is_sec && !is_min {
        let mv: Option<u32> = if r.by_minute.len() > 0 {
            proof {
                assert(r@.by_minute[0] == r.by_minute@[0]@);
            }
            parse_u32(r.by_minute[0].as_str())
        } else {
            Some(z.civil.minute as u32)
        };
        match mv {
            Some(m) => {
                match set_minute(zone, &cur, m) {
                    Some(z2) => {
                        cur = z2;
                    },
                    None => {
                        return None;
                    },
                }
            },
            None => {
                return None;
            },
        }
    }
    if !is_sec && !is_min && !is_hour {
        let hv: Option<u32> = if r.by_hour.len() > 0 {
            proof {
                assert(r@.by_hour[0] == r.by_hour@[0]@);
            }
            parse_u32(r.by_hour[0].as_str())
        } else {
            Some(z.civil.hour as u32)
        };
        match hv {
            Some(h) => {
                match set_hour(zone, &cur, h) {
                    Some(z3) => {
                        cur = z3;
                    },
                    None => {
                        return None;
                    },
                }
            },
            None => {
                return None;
            },
        }
    }
    Some(cur)
}

/// One yearly pass: while under the cap year, the year is set to
/// `next_year`; `next_year` advances either way.
pub open spec fn yearly_iter(zone: Seq<char>, z: Zoned, next_year: int, k: nat) -> Option<Zoned>
    decreases k,
{
    if k == 0 {
        Some(z)
    } else {
        let step = if z.civil.year < 2099 {
            set_year_spec(zone, z, next_year)
        } else {
            Some(z)
        };
        match step {
            Some(z2) => yearly_iter(zone, z2, next_year + 1, (k - 1) as nat),
            None => None,
        }
    }
}

/// Yearly stepping: `INTERVAL` single-year advances, frozen at year 2099.
pub open spec fn handle_yearly_spec(r: RuleView, zone: Seq<char>, z: Zoned) -> Option<Zoned> {
    yearly_iter(zone, z, z.civil.year as int + 1, interval_spec(r) as nat)
}

proof fn lemma_yearly_stall(zone: Seq<char>, z: Zoned, next_year: int, k: nat)
    requires
        z.civil.year >= 2099,
    ensures
        yearly_iter(zone, z, next_year, k) == Some(z),
    decreases k,
{
    if k > 0 {
        lemma_yearly_stall(zone, z, next_year + 1, (k - 1) as nat);
    }
}

fn handle_yearly(r: &RRule, zone: &str, z: &Zoned) -> (res: Option<Zoned>)
    requires
        valid_zoned(*z),
    ensures
        res == handle_yearly_spec(r@, zone@, *z),
        res matches Some(z2) ==> valid_zoned(z2),
{
    let interval: u32 = interval_of(r);
    let mut cur: Zoned = *z;
    let mut next_year: i64 = z.civil.year as i64 + 1;
    let mut i: u32 = 0;
    while i < interval
        invariant
            0 <= i <= interval,
            valid_zoned(cur),
            handle_yearly_spec(r@, zone@, *z) == yearly_iter(
                zone@,
                cur,
                next_year as int,
                (interval - i) as nat,
            ),
            next_year == z.civil.year + 1 + i,
        decreases interval - i,
    {
        if cur.civil.year >= 2099 {
            proof {
                lemma_yearly_stall(zone@, cur, next_year as int, (interval - i) as nat);
            }
            return Some(cur);
        }
        match set_year(zone, &cur, next_year) {
            Some(z2) => {
                cur = z2;
            },
            None => {
                return None;
            },
        }
        next_year = next_year + 1;
        i = i + 1;
    }
    Some(cur)
}

/// Adding the length of the current month, in days.
pub open spec fn add_month_spec(z: Zoned) -> Option<Zoned> {
    zadd_days(z, month_len(z.civil.year as int, z.civil.month as int) as nat)
}

/// `k` month advances in a row.
pub open spec fn months_iter(z: Zoned, k: nat) -> Option<Zoned>
    decreases k,
{
    if k == 0 {
        Some(z)
    } else {
        match add_month_spec(z) {
            Some(z2) => months_iter(z2, (k - 1) as nat),
            None => None,
        }
    }
}

/// Monthly stepping: normalize, pin `BYMONTHDAY`/`BYMONTH`, bump the year
/// when the pinned date is not after the start, then advance by months;
/// one advance is saved when the pinned date already moved forward.
pub open spec fn handle_monthly_spec(r: RuleView, zone: Seq<char>, z: Zoned) -> Option<Zoned> {
    match normalize_spec(r, zone, z) {
        None => None,
        Some(n0) => {
            let bmd = first_of(r.by_month_day);
            let bm = first_of(r.by_month);
            let s1 = if bmd.len() != 0 {
                match parse_u32_spec(bmd) {
                    Some(d) => set_day_spec(zone, n0, d),
                    None => None,
                }
            } else {
                Some(n0)
            };
            match s1 {
                None => None,
                Some(z1) => {
                    let s2 = if bm.len() != 0 {
                        match parse_u32_spec(bm) {
                            None => None,
                            Some(m) => match set_month_spec(zone, z1, m) {
                                None => None,
                                Some(z2a) => if instant(z2a) <= instant(z) {
                                    set_year_spec(zone, z2a, z2a.civil.year as int + 1)
                                } else {
                                    Some(z2a)
                                },
                            },
                        }
                    } else {
                        Some(z1)
                    };
                    match s2 {
                        None => None,
                        Some(z2) => {
                            let iv = interval_spec(r);
                            let k: nat = if instant(z2) > instant(z) {
                                if iv >= 1 {
                                    (iv - 1) as nat
                                } else {
                                    0
                                }
                            } else {
                                iv as nat
                            };
                            months_iter(z2, k)
                        },
                    }
                },
            }
        },
    }
}

fn add_month_to_date(z: &Zoned) -> (res: Option<Zoned>)
    requires
        valid_zoned(*z),
    ensures
        res == add_month_spec(*z),
        res matches Some(z2) ==> valid_zoned(z2) && z2.offset == z.offset,
{
    let len: u8 = month_len_of(z.civil.year, z.civil.month);
    zoned_add_days(z, len as u64)
}

fn handle_monthly(r: &RRule, zone: &str, z: &Zoned) -> (res: Option<Zoned>)
    requires
        valid_zoned(*z),
    ensures
        res == handle_monthly_spec(r@, zone@, *z),
        res matches Some(z2) ==> valid_zoned(z2),
{
    let n0: Zoned = match with_initial_time_intervals(r, zone, z) {
        Some(v) => v,
        None => {
            return None;
        },
    };
    let bmd: &str = first_str(&r.by_month_day);
    let bm: &str = first_str(&r.by_month);
    let mut next: Zoned = n0;
    if !bmd.is_empty() {
        let d: u32 = match parse_u32(bmd) {
            Some(v) => v,
            None => {
                return None;
            },
        };
        match set_day(zone, &next, d) {
            Some(v) => {
                next = v;
            },
            None => {
                return None;
            },
        }
    }
    if !bm.is_empty() {
        let m: u32 = match parse_u32(bm) {
            Some(v) => v,
            None => {
                return None;
            },
        };
        match set_month(zone, &next, m) {
            Some(v) => {
                next = v;
            },
            None => {
                return None;
            },
        }
        if instant_of(&next) <= instant_of(z) {
            match set_year(zone, &next, next.civil.year as i64 + 1) {
                Some(v) => {
                    next = v;
                },
                None => {
                    return None;
                },
            }
        }
    }
    let iv: u32 = interval_of(r);
    let k: u32 = if instant_of(&next) > instant_of(z) {
        if iv >= 1 {
            iv - 1
        } else {
            0
        }
    } else {
        iv
    };
    proof {
        assert(handle_monthly_spec(r@, zone@, *z) == months_iter(next, k as nat));
    }
    let mut j: u32 = 0;
    while j < k
        invariant
            0 <= j <= k,
            valid_zoned(next),
            handle_monthly_spec(r@, zone@, *z) == months_iter(next, (k - j) as nat),
        decreases k - j,
    {
        match add_month_to_date(&next) {
            Some(v) => {
                next = v;
            },
            None => {
                return None;
            },
        }
        j = j + 1;
    }
    Some(next)
}

/// Weekly stepping: normalize, align to the target weekday (the first
/// `BYDAY` value, else the start's weekday), add the interval in weeks
/// unless normalization already moved past the start, then re-align.
pub open spec fn handle_weekly_spec(r: RuleView, zone: Seq<char>, z: Zoned) -> Option<Zoned> {
    match normalize_spec(r, zone, z) {
        None => None,
        Some(swi0) => {
            let byday = if r.by_day.len() > 0 {
                r.by_day[0]
            } else {
                code_of_num(weekday_num(z.civil))
            };
            let iv = interval_spec(r);
            let in_future = instant(swi0) > instant(z) && ordinal_of(swi0.civil) > ordinal_of(
                z.civil,
            );
            let adj = weekday_distance(byday, weekday_num(z.civil), in_future);
            match zadd_days(swi0, adj as nat) {
                None => None,
                Some(swi) => {
                    let stepped = if instant(swi) > instant(z) {
                        Some(swi)
                    } else {
                        zadd_days(swi, (7 * iv) as nat)
                    };
                    match stepped {
                        None => None,
                        Some(n1) => {
                            let fadj = weekday_distance(byday, weekday_num(n1.civil), false);
                            zadd_days(n1, fadj as nat)
                        },
                    }
                },
            }
        },
    }
}

fn handle_weekly(r: &RRule, zone: &str, z: &Zoned) -> (res: Option<Zoned>)
    requires
        valid_zoned(*z),
    ensures
        res == handle_weekly_spec(r@, zone@, *z),
        res matches Some(z2) ==> valid_zoned(z2),
{
    let swi0: Zoned = match with_initial_time_intervals(r, zone, z) {
        Some(v) => v,
        None => {
            return None;
        },
    };
    let byday: &str = if r.by_day.len() > 0 {
        proof {
            assert(r@.by_day[0] == r.by_day@[0]@);
        }
        r.by_day[0].as_str()
    } else {
        civil_weekday_code(&z.civil)
    };
    let iv: u32 = interval_of(r);
    let ghost ord0: int = ordinal_of(swi0.civil);
    let in_future: bool = instant_of(&swi0) > instant_of(z) && ordinal_exec(&swi0.civil)
        > ordinal_exec(&z.civil);
    let adj: u8 = calculate_weekday_distance(byday, weekday_of(&z.civil), in_future);
    let swi: Zoned = match zoned_add_days(&swi0, adj as u64) {
        Some(v) => v,
        None => {
            return None;
        },
    };
    let n1: Zoned = if instant_of(&swi) > instant_of(z) {
        swi
    } else {
        match zoned_add_days(&swi, 7u64 * iv as u64) {
            Some(v) => v,
            None => {
                return None;
            },
        }
    };
    let fadj: u8 = calculate_weekday_distance(byday, weekday_of(&n1.civil), false);
    zoned_add_days(&n1, fadj as u64)
}

/// The day-of-year of a civil date.
fn ordinal_exec(c: &Civil) -> (r: u32)
    requires
        valid_civil(*c),
    ensures
        r as int == ordinal_of(*c),
{
    proof {
        crate::civil::lemma_days_before_month_bound(c.year as int, c.month as int);
    }
    let mut acc: u32 = 0;
    let mut m: u8 = 1;
    while m < c.month
        invariant
            1 <= m <= c.month,
            valid_civil(*c),
            acc as int == crate::civil::days_before_month(c.year as int, m as int),
            acc <= 31 * (m as int - 1),
        decreases c.month - m,
    {
        proof {
            crate::civil::lemma_days_before_month_bound(c.year as int, m as int + 1);
        }
        acc = acc + month_len_of(c.year, m) as u32;
        m = m + 1;
    }
    acc + c.day as u32
}

/// Whether a date matches the `BYDAY` code and, when present, the
/// `BYMONTH` value; `None` when the weekday matches but the month value
/// does not parse.
pub open spec fn day_month_match_spec(c: Civil, byday: Seq<char>, bymonth: Seq<char>) -> Option<
    bool,
> {
    if code_of_num(weekday_num(c)) != byday {
        Some(false)
    } else if bymonth.len() == 0 {
        Some(true)
    } else {
        match parse_u32_spec(bymonth) {
            Some(m) => Some(c.month as u32 == m),
            None => None,
        }
    }
}

fn day_month_match(c: &Civil, byday: &str, bymonth: &str) -> (r: Option<bool>)
    requires
        valid_civil(*c),
    ensures
        r == day_month_match_spec(*c, byday@, bymonth@),
{
    let w: &str = civil_weekday_code(c);
    if !str_eq_lit(w, byday) {
        Some(false)
    } else if bymonth.is_empty() {
        Some(true)
    } else {
        match parse_u32(bymonth) {
            Some(m) => Some(c.month as u32 == m),
            None => None,
        }
    }
}

/// Strides of `iv` units until the `BYDAY` (and `BYMONTH`) filters match,
/// within `fuel` strides. The unit is chosen by `unit_secs` below.
pub open spec fn filter_iter(
    z: Zoned,
    iv: u32,
    unit: int,
    byday: Seq<char>,
    bymonth: Seq<char>,
    fuel: nat,
) -> Option<Zoned>
    decreases fuel,
{
    if fuel == 0 {
        None
    } else {
        let stepped = if unit == 86400 {
            zadd_days(z, iv as nat)
        } else if unit == 3600 {
            zadd_hours(z, iv as nat)
        } else if unit == 60 {
            zadd_mins(z, iv as nat)
        } else {
            zadd_secs(z, iv as nat)
        };
        match stepped {
            None => None,
            Some(z2) => match day_month_match_spec(z2.civil, byday, bymonth) {
                None => None,
                Some(true) => Some(z2),
                Some(false) => filter_iter(z2, iv, unit, byday, bymonth, (fuel - 1) as nat),
            },
        }
    }
}

/// One filtered stride in units of `unit` seconds (86400, 3600, 60 or 1).
fn filter_iter_exec(z: &Zoned, iv: u32, unit: i32, byday: &str, bymonth: &str) -> (res: Option<
    Zoned,
>)
    requires
        valid_zoned(*z),
        unit == 86400 || unit == 3600 || unit == 60 || unit == 1,
    ensures
        res == filter_iter(*z, iv, unit as int, byday@, bymonth@, FILTER_CAP as nat),
        res matches Some(z2) ==> valid_zoned(z2),
{
    let mut cur: Zoned = *z;
    let mut fuel: u32 = FILTER_CAP;
    while fuel > 0
        invariant
            valid_zoned(cur),
            unit == 86400 || unit == 3600 || unit == 60 || unit == 1,
            filter_iter(*z, iv, unit as int, byday@, bymonth@, FILTER_CAP as nat) == filter_iter(
                cur,
                iv,
                unit as int,
                byday@,
                bymonth@,
                fuel as nat,
            ),
        decreases fuel,
    {
        let stepped: Option<Zoned> = if unit == 86400 {
            zoned_add_days(&cur, iv as u64)
        } else if unit == 3600 {
            zoned_add_hours(&cur, iv as u64)
        } else if unit == 60 {
            zoned_add_mins(&cur, iv as u64)
        } else {
            zoned_add_secs(&cur, iv as u64)
        };
        let z2: Zoned = match stepped {
            Some(v) => v,
            None => {
                return None;
            },
        };
        match day_month_match(&z2.civil, byday, bymonth) {
            Some(true) => {
                return Some(z2);
            },
            Some(false) => {
                cur = z2;
            },
            None => {
                return None;
            },
        }
        fuel = fuel - 1;
    }
    None
}

/// Daily stepping: without filters, one day is added when normalization
/// left the start unchanged, then the remaining interval; with `BYDAY`,
/// strides of `INTERVAL` days repeat until the filters match.
pub open spec fn handle_daily_spec(r: RuleView, zone: Seq<char>, z: Zoned) -> Option<Zoned> {
    match normalize_spec(r, zone, z) {
        None => None,
        Some(swi) => {
            let byday = first_of(r.by_day);
            let bymonth = first_of(r.by_month);
            let iv = interval_spec(r);
            if bymonth.len() == 0 && byday.len() == 0 {
                let first = if instant(z) == instant(swi) {
                    zadd_days(swi, 1)
                } else {
                    Some(swi)
                };
                match first {
                    None => None,
                    Some(n1) => zadd_days(
                        n1,
                        if iv >= 1 {
                            (iv - 1) as nat
                        } else {
                            0
                        },
                    ),
                }
            } else if byday.len() == 0 {
                zadd_days(swi, iv as nat)
            } else {
                filter_iter(swi, iv, 86400, byday, bymonth, FILTER_CAP as nat)
            }
        },
    }
}

fn handle_daily(r: &RRule, zone: &str, z: &Zoned) -> (res: Option<Zoned>)
    requires
        valid_zoned(*z),
    ensures
        res == handle_daily_spec(r@, zone@, *z),
        res matches Some(z2) ==> valid_zoned(z2),
{
    let swi: Zoned = match with_initial_time_intervals(r, zone, z) {
        Some(v) => v,
        None => {
            return None;
        },
    };
    let byday: &str = first_str(&r.by_day);
    let bymonth: &str = first_str(&r.by_month);
    let iv: u32 = interval_of(r);
    if bymonth.is_empty() && byday.is_empty() {
        let n1: Zoned = if instant_of(z) == instant_of(&swi) {
            match zoned_add_days(&swi, 1) {
                Some(v) => v,
                None => {
                    return None;
                },
            }
        } else {
            swi
        };
        zoned_add_days(
            &n1,
            if iv >= 1 {
                (iv - 1) as u64
            } else {
                0
            },
        )
    } else if byday.is_empty() {
        zoned_add_days(&swi, iv as u64)
    } else {
        filter_iter_exec(&swi, iv, 86400, byday, bymonth)
    }
}

/// One sub-daily stride: `INTERVAL` units, repeated under the `BYDAY` and
/// `BYMONTH` filters when `BYDAY` is present.
pub open spec fn chunk_spec(
    z: Zoned,
    iv: u32,
    unit: int,
    byday: Seq<char>,
    bymonth: Seq<char>,
) -> Option<Zoned> {
    if byday.len() == 0 {
        if unit == 3600 {
            zadd_hours(z, iv as nat)
        } else if unit == 60 {
            zadd_mins(z, iv as nat)
        } else {
            zadd_secs(z, iv as nat)
        }
    } else {
        filter_iter(z, iv, unit, byday, bymonth, FILTER_CAP as nat)
    }
}

fn chunk_exec(z: &Zoned, iv: u32, unit: i32, byday: &str, bymonth: &str) -> (res: Option<Zoned>)
    requires
        valid_zoned(*z),
        unit == 3600 || unit == 60 || unit == 1,
    ensures
        res == chunk_spec(*z, iv, unit as int, byday@, bymonth@),
        res matches Some(z2) ==> valid_zoned(z2),
{
    if byday.is_empty() {
        if unit == 3600 {
            zoned_add_hours(z, iv as u64)
        } else if unit == 60 {
            zoned_add_mins(z, iv as u64)
        } else {
            zoned_add_secs(z, iv as u64)
        }
    } else {
        filter_iter_exec(z, iv, unit, byday, bymonth)
    }
}

/// Sub-daily strides repeated until the hour equals the first `BYHOUR`
/// value, within `fuel` rounds.
pub open spec fn byhour_iter(
    z: Zoned,
    iv: u32,
    unit: int,
    byday: Seq<char>,
    bymonth: Seq<char>,
    byhour: Seq<char>,
    fuel: nat,
) -> Option<Zoned>
    decreases fuel,
{
    if fuel == 0 {
        None
    } else {
        match chunk_spec(z, iv, unit, byday, bymonth) {
            None => None,
            Some(z2) => match parse_u32_spec(byhour) {
                None => None,
                Some(h) => if z2.civil.hour as u32 == h {
                    Some(z2)
                } else {
                    byhour_iter(z2, iv, unit, byday, bymonth, byhour, (fuel - 1) as nat)
                },
            },
        }
    }
}

/// Hourly or minutely stepping: sub-daily strides, wrapped in the
/// `BYHOUR` loop when `BYHOUR` is present.
pub open spec fn handle_subdaily_spec(
    r: RuleView,
    zone: Seq<char>,
    z: Zoned,
    unit: int,
) -> Option<Zoned> {
    match normalize_spec(r, zone, z) {
        None => None,
        Some(n0) => {
            let byday = first_of(r.by_day);
            let bymonth = first_of(r.by_month);
            let byhour = first_of(r.by_hour);
            let iv = interval_spec(r);
            if byhour.len() == 0 {
                chunk_spec(n0, iv, unit, byday, bymonth)
            } else {
                byhour_iter(n0, iv, unit, byday, bymonth, byhour, FILTER_CAP as nat)
            }
        },
    }
}

fn handle_subdaily(r: &RRule, zone: &str, z: &Zoned, unit: i32) -> (res: Option<Zoned>)
    requires
        valid_zoned(*z),
        unit == 3600 || unit == 60,
    ensures
        res == handle_subdaily_spec(r@, zone@, *z, unit as int),
        res matches Some(z2) ==> valid_zoned(z2),
{
    let n0: Zoned = match with_initial_time_intervals(r, zone, z) {
        Some(v) => v,
        None => {
            return None;
        },
    };
    let byday: &str = first_str(&r.by_day);
    let bymonth: &str = first_str(&r.by_month);
    let byhour: &str = first_str(&r.by_hour);
    let iv: u32 = interval_of(r);
    if byhour.is_empty() {
        chunk_exec(&n0, iv, unit, byday, bymonth)
    } else {
        let mut cur: Zoned = n0;
        let mut fuel: u32 = FILTER_CAP;
        proof {
            assert(handle_subdaily_spec(r@, zone@, *z, unit as int) == byhour_iter(
                n0,
                iv,
                unit as int,
                byday@,
                bymonth@,
                byhour@,
                FILTER_CAP as nat,
            ));
        }
        while fuel > 0
            invariant
                valid_zoned(cur),
                unit == 3600 || unit == 60,
                handle_subdaily_spec(r@, zone@, *z, unit as int) == byhour_iter(
                    cur,
                    iv,
                    unit as int,
                    byday@,
                    bymonth@,
                    byhour@,
                    fuel as nat,
                ),
            decreases fuel,
        {
            let z2: Zoned = match chunk_exec(&cur, iv, unit, byday, bymonth) {
                Some(v) => v,
                None => {
                    return None;
                },
            };
            match parse_u32(byhour) {
                None => {
                    return None;
                },
                Some(h) => {
                    if z2.civil.hour as u32 == h {
                        return Some(z2);
                    }
                    cur = z2;
                },
            }
            fuel = fuel - 1;
        }
        None
    }
}

/// Secondly stepping: strides of `INTERVAL` seconds, under the `BYDAY`
/// and `BYMONTH` filters when `BYDAY` is present; no time normalization.
pub open spec fn handle_secondly_spec(r: RuleView, zone: Seq<char>, z: Zoned) -> Option<Zoned> {
    match normalize_spec(r, zone, z) {
        None => None,
        Some(n0) => chunk_spec(n0, interval_spec(r), 1, first_of(r.by_day), first_of(r.by_month)),
    }
}

fn handle_secondly(r: &RRule, zone: &str, z: &Zoned) -> (res: Option<Zoned>)
    requires
        valid_zoned(*z),
    ensures
        res == handle_secondly_spec(r@, zone@, *z),
        res matches Some(z2) ==> valid_zoned(z2),
{
    let n0: Zoned = match with_initial_time_intervals(r, zone, z) {
        Some(v) => v,
        None => {
            return None;
        },
    };
    let byday: &str = first_str(&r.by_day);
    let bymonth: &str = first_str(&r.by_month);
    chunk_exec(&n0, interval_of(r), 1, byday, bymonth)
}

/// The next occurrence after `z` under the rule: dispatch on the
/// frequency; an unrecognized frequency returns `z` unchanged.
#[verifier::opaque]
pub open spec fn step_spec(r: RuleView, z: Zoned) -> Option<Zoned> {
    let zone = zone_of(r);
    if r.frequency == "YEARLY"@ {
        handle_yearly_spec(r, zone, z)
    } else if r.frequency == "MONTHLY"@ {
        handle_monthly_spec(r, zone, z)
    } else if r.frequency == "WEEKLY"@ {
        handle_weekly_spec(r, zone, z)
    } else if r.frequency == "DAILY"@ {
        handle_daily_spec(r, zone, z)
    } else if r.frequency == "HOURLY"@ {
        handle_subdaily_spec(r, zone, z, 3600)
    } else if r.frequency == "MINUTELY"@ {
        handle_subdaily_spec(r, zone, z, 60)
    } else if r.frequency == "SECONDLY"@ {
        handle_secondly_spec(r, zone, z)
    } else {
        Some(z)
    }
}

impl RRule {
    /// The next occurrence after `start_date` under this rule, stepping
    /// in the rule's zone; an unrecognized frequency returns the start
    /// unchanged, and `Err` marks a rule this stepper cannot advance.
    pub fn get_next_date(&self, start_date: Zoned) -> (res: Result<Zoned, GenerationError>)
        requires
            valid_zoned(start_date),
        ensures
            match step_spec(self@, start_date) {
                Some(z2) => res matches Ok(v) && v == z2 && valid_zoned(v),
                None => res matches Err(_),
            },
    {
        proof {
            reveal(step_spec);
        }
        let zone: &str = zone_str(self);
        let freq: &str = self.frequency.as_str();
        let out: Option<Zoned> = if str_eq_lit(freq, "YEARLY") {
            handle_yearly(self, zone, &start_date)
        } else if str_eq_lit(freq, "MONTHLY") {
            handle_monthly(self, zone, &start_date)
        } else if str_eq_lit(freq, "WEEKLY") {
            handle_weekly(self, zone, &start_date)
        } else if str_eq_lit(freq, "DAILY") {
            handle_daily(self, zone, &start_date)
        } else if str_eq_lit(freq, "HOURLY") {
            handle_subdaily(self, zone, &start_date, 3600)
        } else if str_eq_lit(freq, "MINUTELY") {
            handle_subdaily(self, zone, &start_date, 60)
        } else if str_eq_lit(freq, "SECONDLY") {
            handle_secondly(self, zone, &start_date)
        } else {
            Some(start_date)
        };
        match out {
            Some(v) => Ok(v),
            None => Err(GenerationError::NoMatch),
        }
    }
}

} // verus!
