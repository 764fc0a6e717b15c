//! The library's general laws, proved once and for all: the count budget
//! bounds the output, no occurrence passes the `UNTIL` bound, emitted
//! occurrences honor the `BY*` filters, and under a fixed-offset zone the
//! occurrence sequence strictly increases.
use vstd::prelude::*;

use crate::civil::{
    add_days_s, add_hours_s, add_mins_s, add_secs_s, at_max_day, day_index, instant, month_len,
    succ_day_s, succ_hour_s, succ_min_s, succ_sec_s, time_index, valid_civil, valid_zoned,
    weekday_num, Civil, Zoned,
};
use crate::civil::{days_before_month, days_before_year, days_in_year};
use crate::driver::run_steps;
use crate::rule::RuleView;
use crate::stepper::{
    add_month_spec, byhour_iter, yearly_iter, chunk_spec, day_month_match_spec, filter_iter, interval_spec,
    months_iter, normalize_spec, set_day_spec, set_hour_spec, set_minute_spec, set_month_spec,
    set_second_spec, set_year_spec, step_spec,
    zadd_days, zadd_hours, zadd_mins, zadd_secs, FILTER_CAP,
};
use crate::weekday::code_num;
use crate::textnum::parse_u32_spec;
use crate::weekday::code_of_num;

verus! {

/// The output of a run never exceeds the count budget.
pub proof fn lemma_count_bound(r: RuleView, z: Zoned, cnt: nat, u: Option<Zoned>)
    requires
        run_steps(r, z, cnt, u) is Some,
    ensures
        run_steps(r, z, cnt, u).unwrap().len() <= cnt,
    decreases cnt,
{
    if cnt > 0 {
        match step_spec(r, z) {
            None => {},
            Some(z2) => {
                if u matches Some(ub) && instant(z2) > instant(ub) {
                } else {
                    lemma_count_bound(r, z2, (cnt - 1) as nat, u);
                }
            },
        }
    }
}

/// Every occurrence of a bounded run lies at or before the `UNTIL` bound.
pub proof fn lemma_until_bound(r: RuleView, z: Zoned, cnt: nat, ub: Zoned)
    requires
        run_steps(r, z, cnt, Some(ub)) is Some,
    ensures
        ({
            let zs = run_steps(r, z, cnt, Some(ub)).unwrap();
            forall|i: int| 0 <= i < zs.len() ==> instant(#[trigger] zs[i]) <= instant(ub)
        }),
    decreases cnt,
{
    let zs = run_steps(r, z, cnt, Some(ub)).unwrap();
    if cnt > 0 {
        match step_spec(r, z) {
            None => {},
            Some(z2) => {
                if instant(z2) > instant(ub) {
                } else {
                    lemma_until_bound(r, z2, (cnt - 1) as nat, ub);
                    let rest = run_steps(r, z2, (cnt - 1) as nat, Some(ub)).unwrap();
                    assert(forall|i: int| 1 <= i < zs.len() ==> #[trigger] zs[i] == rest[i - 1]);
                }
            },
        }
    }
}

/// The driver's output never exceeds the count budget in force.
pub proof fn lemma_driver_count_bound(r: RuleView, ca: Seq<char>, ua: Seq<char>)
    requires
        crate::driver::iter_dates_spec(r, ca, ua) is Some,
    ensures
        crate::driver::count_choice(r, ca) is Some,
        crate::driver::iter_dates_spec(r, ca, ua).unwrap().len()
            <= crate::driver::count_choice(r, ca).unwrap(),
{
    reveal(crate::driver::iter_dates_spec);
    let cnt = crate::driver::count_choice(r, ca).unwrap();
    let cu = crate::format::parse_spaced_spec(r.dtstart).unwrap();
    let a = crate::driver::anchor_of(crate::stepper::zone_of(r), cu);
    let u = crate::driver::until_choice(r, ua);
    if u.len() == 0 {
        lemma_count_bound(r, a, cnt as nat, None);
    } else {
        let cuu = crate::format::parse_spaced_spec(u).unwrap();
        lemma_count_bound(
            r,
            a,
            cnt as nat,
            Some(crate::driver::anchor_of(crate::stepper::zone_of(r), cuu)),
        );
    }
}

/// When an `UNTIL` bound is in force, no occurrence the driver emits lies
/// after it.
pub proof fn lemma_driver_until_bound(r: RuleView, ca: Seq<char>, ua: Seq<char>)
    requires
        crate::driver::iter_dates_spec(r, ca, ua) is Some,
        crate::driver::until_choice(r, ua).len() > 0,
    ensures
        ({
            let zs = crate::driver::iter_dates_spec(r, ca, ua).unwrap();
            let ub = crate::driver::anchor_of(
                crate::stepper::zone_of(r),
                crate::format::parse_spaced_spec(crate::driver::until_choice(r, ua)).unwrap(),
            );
            forall|i: int| 0 <= i < zs.len() ==> instant(#[trigger] zs[i]) <= instant(ub)
        }),
{
    reveal(crate::driver::iter_dates_spec);
    let cnt = crate::driver::count_choice(r, ca).unwrap();
    let cu = crate::format::parse_spaced_spec(r.dtstart).unwrap();
    let a = crate::driver::anchor_of(crate::stepper::zone_of(r), cu);
    let u = crate::driver::until_choice(r, ua);
    let cuu = crate::format::parse_spaced_spec(u).unwrap();
    lemma_until_bound(r, a, cnt as nat, crate::driver::anchor_of(crate::stepper::zone_of(r), cuu));
}

proof fn lemma_succ_day_props(c: Civil)
    requires
        valid_civil(c),
        !at_max_day(c),
    ensures
        ({
            let c1 = succ_day_s(c);
            &&& valid_civil(c1)
            &&& day_index(c1) == day_index(c) + 1
            &&& c1.hour == c.hour && c1.minute == c.minute && c1.second == c.second
        }),
{
    if c.day < month_len(c.year as int, c.month as int) {
    } else if c.month < 12 {
        assert(days_before_month(c.year as int, c.month as int + 1) == days_before_month(
            c.year as int,
            c.month as int,
        ) + month_len(c.year as int, c.month as int));
    } else {
        assert(days_before_year(c.year as int + 1) == days_before_year(c.year as int)
            + days_in_year(c.year as int));
        lemma_days_in_year_values(c.year as int);
    }
}

proof fn lemma_add_days_s_props(c: Civil, n: nat)
    requires
        valid_civil(c),
        add_days_s(c, n) is Some,
    ensures
        ({
            let c2 = add_days_s(c, n).unwrap();
            &&& valid_civil(c2)
            &&& day_index(c2) == day_index(c) + n
            &&& c2.hour == c.hour && c2.minute == c.minute && c2.second == c.second
        }),
    decreases n,
{
    if n > 0 {
        lemma_succ_day_props(c);
        lemma_add_days_s_props(succ_day_s(c), (n - 1) as nat);
    }
}

proof fn lemma_days_in_year_values(y: int)
    ensures
        days_in_year(y) == days_before_month(y, 12) + 31,
        days_in_year(y) >= 365,
{
    reveal_with_fuel(days_before_month, 14);
}

proof fn lemma_succ_sec_props(c: Civil)
    requires
        valid_civil(c),
        succ_sec_s(c) is Some,
    ensures
        valid_civil(succ_sec_s(c).unwrap()),
        time_index(succ_sec_s(c).unwrap()) == time_index(c) + 1,
{
    if c.second < 59 {
    } else if c.minute < 59 {
    } else if c.hour < 23 {
    } else {
        lemma_succ_day_props(Civil { hour: 0, minute: 0, second: 0, ..c });
    }
}

proof fn lemma_succ_min_props(c: Civil)
    requires
        valid_civil(c),
        succ_min_s(c) is Some,
    ensures
        valid_civil(succ_min_s(c).unwrap()),
        time_index(succ_min_s(c).unwrap()) == time_index(c) + 60,
        succ_min_s(c).unwrap().second == c.second,
{
    if c.minute < 59 {
    } else if c.hour < 23 {
    } else {
        lemma_succ_day_props(Civil { hour: 0, minute: 0, ..c });
    }
}

proof fn lemma_succ_hour_props(c: Civil)
    requires
        valid_civil(c),
        succ_hour_s(c) is Some,
    ensures
        valid_civil(succ_hour_s(c).unwrap()),
        time_index(succ_hour_s(c).unwrap()) == time_index(c) + 3600,
        succ_hour_s(c).unwrap().minute == c.minute,
        succ_hour_s(c).unwrap().second == c.second,
{
    if c.hour < 23 {
    } else {
        lemma_succ_day_props(Civil { hour: 0, ..c });
    }
}

proof fn lemma_add_hours_s_props(c: Civil, n: nat)
    requires
        valid_civil(c),
        add_hours_s(c, n) is Some,
    ensures
        ({
            let c2 = add_hours_s(c, n).unwrap();
            &&& valid_civil(c2)
            &&& time_index(c2) == time_index(c) + n * 3600
            &&& c2.minute == c.minute && c2.second == c.second
        }),
    decreases n,
{
    if n > 0 {
        lemma_succ_hour_props(c);
        lemma_add_hours_s_props(succ_hour_s(c).unwrap(), (n - 1) as nat);
        assert(n * 3600 == (n - 1) * 3600 + 3600) by (nonlinear_arith);
    }
}

proof fn lemma_add_mins_s_props(c: Civil, n: nat)
    requires
        valid_civil(c),
        add_mins_s(c, n) is Some,
    ensures
        ({
            let c2 = add_mins_s(c, n).unwrap();
            &&& valid_civil(c2)
            &&& time_index(c2) == time_index(c) + n * 60
            &&& c2.second == c.second
        }),
    decreases n,
{
    if n > 0 {
        lemma_succ_min_props(c);
        lemma_add_mins_s_props(succ_min_s(c).unwrap(), (n - 1) as nat);
        assert(n * 60 == (n - 1) * 60 + 60) by (nonlinear_arith);
    }
}

proof fn lemma_add_secs_s_props(c: Civil, n: nat)
    requires
        valid_civil(c),
        add_secs_s(c, n) is Some,
    ensures
        valid_civil(add_secs_s(c, n).unwrap()),
        time_index(add_secs_s(c, n).unwrap()) == time_index(c) + n,
    decreases n,
{
    if n > 0 {
        lemma_succ_sec_props(c);
        lemma_add_secs_s_props(succ_sec_s(c).unwrap(), (n - 1) as nat);
    }
}

/// The shape of a normalized value: untouched components carry over from
/// the input and replaced ones equal the first `BY*` values.
proof fn lemma_normalize_components(r: RuleView, zone: Seq<char>, z: Zoned)
    requires
        valid_zoned(z),
        normalize_spec(r, zone, z) is Some,
    ensures
        ({
            let n0 = normalize_spec(r, zone, z).unwrap();
            &&& valid_civil(n0.civil)
            &&& n0.civil.year == z.civil.year && n0.civil.month == z.civil.month && n0.civil.day
                == z.civil.day
            &&& r.frequency == "SECONDLY"@ ==> n0 == z
            &&& r.frequency != "SECONDLY"@ && r.by_second.len() > 0
                ==> parse_u32_spec(r.by_second[0]) == Some(n0.civil.second as u32)
            &&& r.frequency != "SECONDLY"@ && r.by_second.len() == 0 ==> n0.civil.second
                == z.civil.second
            &&& r.frequency != "SECONDLY"@ && r.frequency != "MINUTELY"@ && r.by_minute.len() > 0
                ==> parse_u32_spec(r.by_minute[0]) == Some(n0.civil.minute as u32)
            &&& r.frequency != "SECONDLY"@ && r.frequency != "MINUTELY"@ && r.by_minute.len() == 0
                ==> n0.civil.minute == z.civil.minute
            &&& r.frequency == "MINUTELY"@ ==> n0.civil.minute == z.civil.minute
            &&& r.frequency != "SECONDLY"@ && r.frequency != "MINUTELY"@ && r.frequency
                != "HOURLY"@ && r.by_hour.len() > 0 ==> parse_u32_spec(r.by_hour[0]) == Some(
                n0.civil.hour as u32,
            )
            &&& r.frequency != "SECONDLY"@ && r.frequency != "MINUTELY"@ && r.frequency
                != "HOURLY"@ && r.by_hour.len() == 0 ==> n0.civil.hour == z.civil.hour
            &&& (r.frequency == "MINUTELY"@ || r.frequency == "HOURLY"@) ==> n0.civil.hour
                == z.civil.hour
        }),
{
}

/// A finished filter search satisfies its filters.
proof fn lemma_filter_iter_exit(
    z: Zoned,
    iv: u32,
    unit: int,
    byday: Seq<char>,
    bymonth: Seq<char>,
    fuel: nat,
)
    requires
        filter_iter(z, iv, unit, byday, bymonth, fuel) is Some,
    ensures
        ({
            let z2 = filter_iter(z, iv, unit, byday, bymonth, fuel).unwrap();
            &&& code_of_num(weekday_num(z2.civil)) == byday
            &&& bymonth.len() > 0 ==> (parse_u32_spec(bymonth) matches Some(mo)
                && z2.civil.month as u32 == mo)
        }),
    decreases fuel,
{
    if fuel > 0 {
        let stepped = if unit == 86400 {
            zadd_days(z, iv as nat)
        } else if unit == 3600 {
            zadd_hours(z, iv as nat)
        } else if unit == 60 {
            zadd_mins(z, iv as nat)
        } else {
            zadd_secs(z, iv as nat)
        };
        match stepped {
            None => {},
            Some(zm) => {
                match day_month_match_spec(zm.civil, byday, bymonth) {
                    None => {},
                    Some(true) => {},
                    Some(false) => {
                        lemma_filter_iter_exit(zm, iv, unit, byday, bymonth, (fuel - 1) as nat);
                    },
                }
            },
        }
    }
}

/// A finished filter search preserves the components finer than its unit.
proof fn lemma_filter_iter_preserve(
    z: Zoned,
    iv: u32,
    unit: int,
    byday: Seq<char>,
    bymonth: Seq<char>,
    fuel: nat,
)
    requires
        valid_civil(z.civil),
        filter_iter(z, iv, unit, byday, bymonth, fuel) is Some,
        unit == 86400 || unit == 3600 || unit == 60 || unit == 1,
    ensures
        ({
            let z2 = filter_iter(z, iv, unit, byday, bymonth, fuel).unwrap();
            &&& valid_civil(z2.civil)
            &&& z2.offset == z.offset
            &&& unit == 86400 ==> z2.civil.hour == z.civil.hour && z2.civil.minute
                == z.civil.minute && z2.civil.second == z.civil.second
            &&& unit == 3600 ==> z2.civil.minute == z.civil.minute && z2.civil.second
                == z.civil.second
            &&& unit == 60 ==> z2.civil.second == z.civil.second
        }),
    decreases fuel,
{
    if fuel > 0 {
        let stepped = if unit == 86400 {
            zadd_days(z, iv as nat)
        } else if unit == 3600 {
            zadd_hours(z, iv as nat)
        } else if unit == 60 {
            zadd_mins(z, iv as nat)
        } else {
            zadd_secs(z, iv as nat)
        };
        match stepped {
            None => {},
            Some(zm) => {
                if unit == 86400 {
                    lemma_add_days_s_props(z.civil, iv as nat);
                } else if unit == 3600 {
                    lemma_add_hours_s_props(z.civil, iv as nat);
                } else if unit == 60 {
                    lemma_add_mins_s_props(z.civil, iv as nat);
                } else {
                    lemma_add_secs_s_props(z.civil, iv as nat);
                }
                match day_month_match_spec(zm.civil, byday, bymonth) {
                    None => {},
                    Some(true) => {},
                    Some(false) => {
                        lemma_filter_iter_preserve(zm, iv, unit, byday, bymonth, (fuel - 1) as nat);
                    },
                }
            },
        }
    }
}

/// Chunk results keep the components finer than the unit and satisfy the
/// filters when `BYDAY` is present.
proof fn lemma_chunk(z: Zoned, iv: u32, unit: int, byday: Seq<char>, bymonth: Seq<char>)
    requires
        valid_civil(z.civil),
        chunk_spec(z, iv, unit, byday, bymonth) is Some,
        unit == 3600 || unit == 60 || unit == 1,
    ensures
        ({
            let z2 = chunk_spec(z, iv, unit, byday, bymonth).unwrap();
            &&& valid_civil(z2.civil)
            &&& z2.offset == z.offset
            &&& unit == 3600 ==> z2.civil.minute == z.civil.minute && z2.civil.second
                == z.civil.second
            &&& unit == 60 ==> z2.civil.second == z.civil.second
            &&& byday.len() > 0 ==> code_of_num(weekday_num(z2.civil)) == byday && (bymonth.len()
                > 0 ==> (parse_u32_spec(bymonth) matches Some(mo) && z2.civil.month as u32 == mo))
        }),
{
    let z2 = chunk_spec(z, iv, unit, byday, bymonth).unwrap();
    if byday.len() == 0 {
        if unit == 3600 {
            lemma_add_hours_s_props(z.civil, iv as nat);
        } else if unit == 60 {
            lemma_add_mins_s_props(z.civil, iv as nat);
        } else {
            lemma_add_secs_s_props(z.civil, iv as nat);
        }
    } else {
        lemma_filter_iter_exit(z, iv, unit, byday, bymonth, FILTER_CAP as nat);
        lemma_filter_iter_preserve(z, iv, unit, byday, bymonth, FILTER_CAP as nat);
    }
}

/// A finished `BYHOUR` search lands on the demanded hour, keeping the
/// chunk guarantees.
proof fn lemma_byhour_iter_exit(
    z: Zoned,
    iv: u32,
    unit: int,
    byday: Seq<char>,
    bymonth: Seq<char>,
    byhour: Seq<char>,
    fuel: nat,
)
    requires
        valid_civil(z.civil),
        byhour_iter(z, iv, unit, byday, bymonth, byhour, fuel) is Some,
        unit == 3600 || unit == 60,
    ensures
        ({
            let z2 = byhour_iter(z, iv, unit, byday, bymonth, byhour, fuel).unwrap();
            &&& valid_civil(z2.civil)
            &&& z2.offset == z.offset
            &&& (parse_u32_spec(byhour) matches Some(h) && z2.civil.hour as u32 == h)
            &&& unit == 3600 ==> z2.civil.minute == z.civil.minute && z2.civil.second
                == z.civil.second
            &&& unit == 60 ==> z2.civil.second == z.civil.second
            &&& byday.len() > 0 ==> code_of_num(weekday_num(z2.civil)) == byday && (bymonth.len()
                > 0 ==> (parse_u32_spec(bymonth) matches Some(mo) && z2.civil.month as u32 == mo))
        }),
    decreases fuel,
{
    if fuel > 0 {
        match chunk_spec(z, iv, unit, byday, bymonth) {
            None => {},
            Some(zc) => {
                lemma_chunk(z, iv, unit, byday, bymonth);
                match parse_u32_spec(byhour) {
                    None => {},
                    Some(h) => {
                        if zc.civil.hour as u32 == h {
                        } else {
                            lemma_byhour_iter_exit(
                                zc,
                                iv,
                                unit,
                                byday,
                                bymonth,
                                byhour,
                                (fuel - 1) as nat,
                            );
                        }
                    },
                }
            },
        }
    }
}

proof fn lemma_weekday_after_add(c: Civil, n: nat)
    requires
        valid_civil(c),
        add_days_s(c, n) is Some,
    ensures
        weekday_num(add_days_s(c, n).unwrap()) == (weekday_num(c) - 1 + n) % 7 + 1,
{
    lemma_add_days_s_props(c, n);
    crate::civil::lemma_day_index_bound(c);
    let i1 = day_index(c);
    let c2 = add_days_s(c, n).unwrap();
    assert(day_index(c2) == i1 + n);
    vstd::arithmetic::div_mod::lemma_add_mod_noop(i1, n as int, 7);
    vstd::arithmetic::div_mod::lemma_add_mod_noop(i1 % 7, n as int, 7);
    assert((i1 + n) % 7 == (i1 % 7 + n) % 7);
    assert(weekday_num(c) - 1 == i1 % 7);
    assert((i1 % 7 + n) % 7 == ((weekday_num(c) - 1) + n) % 7);
}

proof fn lemma_add_month_keeps(z: Zoned)
    requires
        valid_civil(z.civil),
        add_month_spec(z) is Some,
    ensures
        ({
            let z2 = add_month_spec(z).unwrap();
            &&& valid_civil(z2.civil)
            &&& z2.offset == z.offset
            &&& z2.civil.hour == z.civil.hour && z2.civil.minute == z.civil.minute
                && z2.civil.second == z.civil.second
            &&& z.civil.day <= 28 ==> z2.civil.day == z.civil.day
        }),
{
    let c = z.civil;
    let len = month_len(c.year as int, c.month as int);
    lemma_add_days_s_props(c, len as nat);
    let c2 = add_days_s(c, len as nat).unwrap();
    if c.day <= 28 {
        let t = if c.month < 12 {
            Civil { month: (c.month + 1) as u8, ..c }
        } else {
            Civil { year: (c.year + 1) as i32, month: 1, ..c }
        };
        if c.month == 12 && c.year == crate::MAX_YEAR {
            assert(day_index(c2) == day_index(c) + 31);
            crate::civil::lemma_dbm_step_le(c.year as int, c.month as int, 13);
            crate::civil::lemma_dby_step_le(c2.year as int, c2.year as int + 1);
            crate::civil::lemma_dbm_step_le(c2.year as int, c2.month as int, 13);
            assert(day_index(c2) < days_before_year(c2.year as int + 1)) by {
                assert(days_before_year(c2.year as int + 1) == days_before_year(c2.year as int)
                    + days_in_year(c2.year as int));
            }
            assert(days_before_year(c2.year as int + 1) <= days_before_year(c.year as int + 1))
                by {
                if c2.year < c.year {
                    crate::civil::lemma_dby_step_le(c2.year as int + 1, c.year as int + 1);
                    lemma_days_in_year_values(c2.year as int + 1);
                }
            }
            assert(days_before_year(c.year as int + 1) == days_before_year(c.year as int)
                + days_in_year(c.year as int));
            lemma_days_in_year_values(c.year as int);
            assert(false);
        }
        assert(valid_civil(t) && day_index(t) == day_index(c) + len) by {
            if c.month < 12 {
                assert(days_before_month(c.year as int, c.month as int + 1) == days_before_month(
                    c.year as int,
                    c.month as int,
                ) + month_len(c.year as int, c.month as int));
            } else {
                assert(days_before_year(c.year as int + 1) == days_before_year(c.year as int)
                    + days_in_year(c.year as int));
                lemma_days_in_year_values(c.year as int);
            }
        }
        assert(valid_civil(t) && 1 <= t.year <= crate::MAX_YEAR) by {
            assert(valid_civil(c2));
        }
        crate::civil::lemma_time_index_inj(c2, t);
    }
}

proof fn lemma_months_iter_keeps(z: Zoned, k: nat)
    requires
        valid_civil(z.civil),
        months_iter(z, k) is Some,
    ensures
        ({
            let z2 = months_iter(z, k).unwrap();
            &&& valid_civil(z2.civil)
            &&& z2.offset == z.offset
            &&& z2.civil.hour == z.civil.hour && z2.civil.minute == z.civil.minute
                && z2.civil.second == z.civil.second
            &&& z.civil.day <= 28 ==> z2.civil.day == z.civil.day
        }),
    decreases k,
{
    if k > 0 {
        match add_month_spec(z) {
            None => {},
            Some(zm) => {
                lemma_add_month_keeps(z);
                lemma_months_iter_keeps(zm, (k - 1) as nat);
            },
        }
    }
}

/// The time components a rule pins through normalization, as one
/// predicate over an emitted occurrence.
pub open spec fn time_filters_ok(r: RuleView, c2: Civil) -> bool {
    let f = r.frequency;
    &&& (f == "MONTHLY"@ || f == "WEEKLY"@ || f == "DAILY"@ || f == "HOURLY"@ || f
        == "MINUTELY"@) && r.by_hour.len() > 0 && r.by_hour[0].len() > 0 ==> (parse_u32_spec(
        r.by_hour[0],
    ) matches Some(h) && c2.hour as u32 == h)
    &&& (f == "MONTHLY"@ || f == "WEEKLY"@ || f == "DAILY"@ || f == "HOURLY"@)
        && r.by_minute.len() > 0 ==> (parse_u32_spec(r.by_minute[0]) matches Some(mi)
        && c2.minute as u32 == mi)
    &&& (f == "MONTHLY"@ || f == "WEEKLY"@ || f == "DAILY"@ || f == "HOURLY"@ || f
        == "MINUTELY"@) && r.by_second.len() > 0 ==> (parse_u32_spec(r.by_second[0])
        matches Some(s) && c2.second as u32 == s)
}

/// The weekday, month and day-of-month facts a rule pins, as one
/// predicate over an emitted occurrence.
pub open spec fn date_filters_ok(r: RuleView, c2: Civil) -> bool {
    let f = r.frequency;
    let sub = f == "DAILY"@ || f == "HOURLY"@ || f == "MINUTELY"@ || f == "SECONDLY"@;
    &&& sub && r.by_day.len() > 0 && r.by_day[0].len() > 0 ==> code_of_num(weekday_num(c2))
        == r.by_day[0]
    &&& sub && r.by_day.len() > 0 && r.by_day[0].len() > 0 && r.by_month.len() > 0
        && r.by_month[0].len() > 0 ==> (parse_u32_spec(r.by_month[0]) matches Some(mo)
        && c2.month as u32 == mo)
    &&& f == "WEEKLY"@ && r.by_day.len() > 0 && code_num(r.by_day[0]) is Some ==> weekday_num(c2)
        == code_num(r.by_day[0]).unwrap()
    &&& f == "MONTHLY"@ && r.by_month_day.len() > 0 && parse_u32_spec(r.by_month_day[0]) is Some
        && parse_u32_spec(r.by_month_day[0]).unwrap() <= 28 ==> c2.day as u32 == parse_u32_spec(
        r.by_month_day[0],
    ).unwrap()
}

proof fn proof_freq_literals()
    ensures
        "YEARLY"@ != "MONTHLY"@ && "YEARLY"@ != "WEEKLY"@ && "YEARLY"@ != "DAILY"@ && "YEARLY"@
            != "HOURLY"@ && "YEARLY"@ != "MINUTELY"@ && "YEARLY"@ != "SECONDLY"@,
        "MONTHLY"@ != "WEEKLY"@ && "MONTHLY"@ != "DAILY"@ && "MONTHLY"@ != "HOURLY"@ && "MONTHLY"@
            != "MINUTELY"@ && "MONTHLY"@ != "SECONDLY"@,
        "WEEKLY"@ != "DAILY"@ && "WEEKLY"@ != "HOURLY"@ && "WEEKLY"@ != "MINUTELY"@ && "WEEKLY"@
            != "SECONDLY"@,
        "DAILY"@ != "HOURLY"@ && "DAILY"@ != "MINUTELY"@ && "DAILY"@ != "SECONDLY"@,
        "HOURLY"@ != "MINUTELY"@ && "HOURLY"@ != "SECONDLY"@,
        "MINUTELY"@ != "SECONDLY"@,
{
    reveal_strlit("YEARLY");
    reveal_strlit("MONTHLY");
    reveal_strlit("WEEKLY");
    reveal_strlit("DAILY");
    reveal_strlit("HOURLY");
    reveal_strlit("MINUTELY");
    reveal_strlit("SECONDLY");
    assert("YEARLY"@.len() == 6 && "MONTHLY"@.len() == 7 && "WEEKLY"@.len() == 6 && "DAILY"@.len()
        == 5 && "HOURLY"@.len() == 6 && "MINUTELY"@.len() == 8 && "SECONDLY"@.len() == 8);
    assert("YEARLY"@[0] == 'Y' && "WEEKLY"@[0] == 'W' && "HOURLY"@[0] == 'H');
    assert("MINUTELY"@[0] == 'M' && "SECONDLY"@[0] == 'S');
}

#[verifier::rlimit(100)]
proof fn lemma_fh_monthly(r: RuleView, z: Zoned)
    requires
        valid_zoned(z),
        step_spec(r, z) is Some,
        r.frequency == "MONTHLY"@,
    ensures
        time_filters_ok(r, step_spec(r, z).unwrap().civil),
        date_filters_ok(r, step_spec(r, z).unwrap().civil),
{
    reveal(step_spec);
    proof_freq_literals();
    let zone = crate::stepper::zone_of(r);
    lemma_normalize_components(r, zone, z);
    let n0 = normalize_spec(r, zone, z).unwrap();
    let bmd = crate::stepper::first_of(r.by_month_day);
    let bm = crate::stepper::first_of(r.by_month);
    let z1 = if bmd.len() != 0 {
        set_day_spec(zone, n0, parse_u32_spec(bmd).unwrap()).unwrap()
    } else {
        n0
    };
    assert(valid_civil(z1.civil));
    let s2 = if bm.len() != 0 {
        let z2a = set_month_spec(zone, z1, parse_u32_spec(bm).unwrap()).unwrap();
        if instant(z2a) <= instant(z) {
            set_year_spec(zone, z2a, z2a.civil.year as int + 1).unwrap()
        } else {
            z2a
        }
    } else {
        z1
    };
    assert(valid_civil(s2.civil));
    let iv = interval_spec(r);
    let k: nat = if instant(s2) > instant(z) {
        if iv >= 1 {
            (iv - 1) as nat
        } else {
            0
        }
    } else {
        iv as nat
    };
    lemma_months_iter_keeps(s2, k);
}

/// Adding the same-day distance to a weekday code lands on that weekday.
proof fn lemma_dist_lands_on_target(c: Civil, byday: Seq<char>)
    requires
        valid_civil(c),
        code_num(byday) is Some,
        add_days_s(c, crate::weekday::weekday_distance(byday, weekday_num(c), false) as nat)
            is Some,
    ensures
        weekday_num(
            add_days_s(
                c,
                crate::weekday::weekday_distance(byday, weekday_num(c), false) as nat,
            ).unwrap(),
        ) == code_num(byday).unwrap(),
{
    let t = code_num(byday).unwrap();
    crate::civil::lemma_day_index_bound(c);
    let wd = weekday_num(c);
    assert(1 <= wd <= 7);
    let fadj = crate::weekday::weekday_distance(byday, wd, false);
    lemma_weekday_after_add(c, fadj as nat);
    assert((t - wd + 7) % 7 == t - wd + 7 || (t - wd + 7) % 7 == t - wd) by {
        assert(0 <= t - wd + 7 <= 13);
    }
    assert((wd - 1 + fadj) % 7 + 1 == t);
}

#[verifier::rlimit(100)]
proof fn lemma_fh_weekly(r: RuleView, z: Zoned)
    requires
        valid_zoned(z),
        step_spec(r, z) is Some,
        r.frequency == "WEEKLY"@,
    ensures
        time_filters_ok(r, step_spec(r, z).unwrap().civil),
        date_filters_ok(r, step_spec(r, z).unwrap().civil),
        r.by_day.len() == 0 ==> weekday_num(step_spec(r, z).unwrap().civil) == weekday_num(
            z.civil,
        ),
{
    reveal(step_spec);
    proof_freq_literals();
    let z2 = step_spec(r, z).unwrap();
    let zone = crate::stepper::zone_of(r);
    lemma_normalize_components(r, zone, z);
    let swi0 = normalize_spec(r, zone, z).unwrap();
    let byday = if r.by_day.len() > 0 {
        r.by_day[0]
    } else {
        code_of_num(weekday_num(z.civil))
    };
    let iv = interval_spec(r);
    let in_future = instant(swi0) > instant(z) && crate::civil::ordinal_of(swi0.civil)
        > crate::civil::ordinal_of(z.civil);
    let adj = crate::weekday::weekday_distance(byday, weekday_num(z.civil), in_future);
    let swi = zadd_days(swi0, adj as nat).unwrap();
    let n1 = if instant(swi) > instant(z) {
        swi
    } else {
        zadd_days(swi, (7 * iv) as nat).unwrap()
    };
    lemma_add_days_s_props(swi0.civil, adj as nat);
    if !(instant(swi) > instant(z)) {
        lemma_add_days_s_props(swi.civil, (7 * iv) as nat);
    }
    assert(valid_civil(n1.civil));
    let fadj = crate::weekday::weekday_distance(byday, weekday_num(n1.civil), false);
    lemma_add_days_s_props(n1.civil, fadj as nat);
    if r.by_day.len() > 0 && code_num(byday) is Some {
        lemma_dist_lands_on_target(n1.civil, byday);
    }
    if r.by_day.len() == 0 {
        crate::civil::lemma_day_index_bound(z.civil);
        crate::weekday::lemma_code_roundtrip(weekday_num(z.civil));
        assert(weekday_num(n1.civil) == weekday_num(z.civil)) by {
            crate::civil::lemma_day_index_bound(z.civil);
            assert(weekday_num(swi0.civil) == weekday_num(z.civil));
            let wd = weekday_num(z.civil);
            assert(adj == 0) by {
                assert((wd - wd + 7) % 7 == 0);
            }
            assert(swi.civil == swi0.civil);
            if !(instant(swi) > instant(z)) {
                crate::civil::lemma_day_index_bound(n1.civil);
                assert(day_index(n1.civil) == day_index(swi.civil) + 7 * (iv as int));
                vstd::arithmetic::div_mod::lemma_mod_multiples_vanish(
                    iv as int,
                    day_index(swi.civil),
                    7,
                );
            }
        }
        lemma_dist_lands_on_target(n1.civil, byday);
    }
}

#[verifier::rlimit(100)]
proof fn lemma_fh_daily(r: RuleView, z: Zoned)
    requires
        valid_zoned(z),
        step_spec(r, z) is Some,
        r.frequency == "DAILY"@,
    ensures
        time_filters_ok(r, step_spec(r, z).unwrap().civil),
        date_filters_ok(r, step_spec(r, z).unwrap().civil),
{
    reveal(step_spec);
    proof_freq_literals();
    let zone = crate::stepper::zone_of(r);
    lemma_normalize_components(r, zone, z);
    let swi = normalize_spec(r, zone, z).unwrap();
    let byday = crate::stepper::first_of(r.by_day);
    let bymonth = crate::stepper::first_of(r.by_month);
    let iv = interval_spec(r);
    if bymonth.len() == 0 && byday.len() == 0 {
        let first = if instant(z) == instant(swi) {
            zadd_days(swi, 1).unwrap()
        } else {
            swi
        };
        if instant(z) == instant(swi) {
            lemma_add_days_s_props(swi.civil, 1);
        }
        let kk: nat = if iv >= 1 {
            (iv - 1) as nat
        } else {
            0
        };
        assert(zadd_days(first, kk) is Some);
        lemma_add_days_s_props(first.civil, kk);
    } else if byday.len() == 0 {
        lemma_add_days_s_props(swi.civil, iv as nat);
    } else {
        lemma_filter_iter_exit(swi, iv, 86400, byday, bymonth, FILTER_CAP as nat);
        lemma_filter_iter_preserve(swi, iv, 86400, byday, bymonth, FILTER_CAP as nat);
    }
}

#[verifier::rlimit(100)]
proof fn lemma_fh_subdaily(r: RuleView, z: Zoned)
    requires
        valid_zoned(z),
        step_spec(r, z) is Some,
        r.frequency == "HOURLY"@ || r.frequency == "MINUTELY"@,
    ensures
        time_filters_ok(r, step_spec(r, z).unwrap().civil),
        date_filters_ok(r, step_spec(r, z).unwrap().civil),
{
    reveal(step_spec);
    proof_freq_literals();
    let f = r.frequency;
    let unit: int = if f == "HOURLY"@ {
        3600
    } else {
        60
    };
    let zone = crate::stepper::zone_of(r);
    lemma_normalize_components(r, zone, z);
    let n0 = normalize_spec(r, zone, z).unwrap();
    let byday = crate::stepper::first_of(r.by_day);
    let bymonth = crate::stepper::first_of(r.by_month);
    let byhour = crate::stepper::first_of(r.by_hour);
    let iv = interval_spec(r);
    if byhour.len() == 0 {
        lemma_chunk(n0, iv, unit, byday, bymonth);
    } else {
        lemma_byhour_iter_exit(n0, iv, unit, byday, bymonth, byhour, FILTER_CAP as nat);
    }
}

#[verifier::rlimit(100)]
proof fn lemma_fh_secondly(r: RuleView, z: Zoned)
    requires
        valid_zoned(z),
        step_spec(r, z) is Some,
        r.frequency == "SECONDLY"@,
    ensures
        time_filters_ok(r, step_spec(r, z).unwrap().civil),
        date_filters_ok(r, step_spec(r, z).unwrap().civil),
{
    reveal(step_spec);
    proof_freq_literals();
    let zone = crate::stepper::zone_of(r);
    lemma_normalize_components(r, zone, z);
    let n0 = normalize_spec(r, zone, z).unwrap();
    lemma_chunk(
        n0,
        interval_spec(r),
        1,
        crate::stepper::first_of(r.by_day),
        crate::stepper::first_of(r.by_month),
    );
}

/// Emitted occurrences honor the `BY*` filters: the replaced time
/// components equal the first `BYHOUR`/`BYMINUTE`/`BYSECOND` values at
/// the frequencies that consume them; the weekday matches `BYDAY[0]` at
/// the frequencies that loop on it and at `WEEKLY`; the month matches
/// `BYMONTH[0]` where the filter loop checks it; and a `BYMONTHDAY` of at
/// most 28 pins the day of month under `MONTHLY`.
pub proof fn lemma_filters_honored(r: RuleView, z: Zoned)
    requires
        valid_zoned(z),
        step_spec(r, z) is Some,
    ensures
        r.frequency == "MONTHLY"@ || r.frequency == "WEEKLY"@ || r.frequency == "DAILY"@
            || r.frequency == "HOURLY"@ || r.frequency == "MINUTELY"@ || r.frequency
            == "SECONDLY"@ ==> time_filters_ok(r, step_spec(r, z).unwrap().civil)
            && date_filters_ok(r, step_spec(r, z).unwrap().civil),
        r.frequency == "WEEKLY"@ && r.by_day.len() == 0 ==> weekday_num(
            step_spec(r, z).unwrap().civil,
        ) == weekday_num(z.civil),
{
    proof_freq_literals();
    let f = r.frequency;
    if f == "MONTHLY"@ {
        lemma_fh_monthly(r, z);
    } else if f == "WEEKLY"@ {
        lemma_fh_weekly(r, z);
    } else if f == "DAILY"@ {
        lemma_fh_daily(r, z);
    } else if f == "HOURLY"@ || f == "MINUTELY"@ {
        lemma_fh_subdaily(r, z);
    } else if f == "SECONDLY"@ {
        lemma_fh_secondly(r, z);
    }
}

/// A zone whose table maps every local civil moment to the same single
/// offset: UTC and every other fixed-offset zone.
pub open spec fn fixed_offset_zone(zone: Seq<char>, off: i32) -> bool {
    forall|t: int| crate::tz::local_single_offset(zone, t) == Some(off)
}

/// Whether the stepper recognizes a frequency token.
pub open spec fn recognized_freq(f: Seq<char>) -> bool {
    f == "YEARLY"@ || f == "MONTHLY"@ || f == "WEEKLY"@ || f == "DAILY"@ || f == "HOURLY"@ || f
        == "MINUTELY"@ || f == "SECONDLY"@
}

/// An occurrence already in the stepper's own form: its replaced time
/// components agree with the `BY*` values, and under `WEEKLY` it sits on
/// the target weekday, so normalization leaves its wall-clock unchanged.
pub open spec fn aligned(r: RuleView, z: Zoned) -> bool {
    let f = r.frequency;
    &&& (f == "MONTHLY"@ || f == "WEEKLY"@ || f == "DAILY"@ || f == "HOURLY"@ || f
        == "MINUTELY"@) && r.by_second.len() > 0 ==> parse_u32_spec(r.by_second[0]) == Some(
        z.civil.second as u32,
    )
    &&& (f == "MONTHLY"@ || f == "WEEKLY"@ || f == "DAILY"@ || f == "HOURLY"@)
        && r.by_minute.len() > 0 ==> parse_u32_spec(r.by_minute[0]) == Some(z.civil.minute as u32)
    &&& (f == "MONTHLY"@ || f == "WEEKLY"@ || f == "DAILY"@) && r.by_hour.len() > 0
        ==> parse_u32_spec(r.by_hour[0]) == Some(z.civil.hour as u32)
    &&& f == "WEEKLY"@ && r.by_day.len() > 0 && code_num(r.by_day[0]) is Some ==> weekday_num(
        z.civil,
    ) == code_num(r.by_day[0]).unwrap()
}

/// Under a fixed-offset zone, normalizing an aligned occurrence keeps its
/// wall-clock and resolves its offset to the zone's.
proof fn lemma_normalize_identity(r: RuleView, z: Zoned, off: i32)
    requires
        valid_zoned(z),
        z.offset == off,
        aligned(r, z),
        fixed_offset_zone(crate::stepper::zone_of(r), off),
        recognized_freq(r.frequency),
        r.frequency != "YEARLY"@,
        normalize_spec(r, crate::stepper::zone_of(r), z) is Some,
    ensures
        normalize_spec(r, crate::stepper::zone_of(r), z) == Some(
            Zoned { civil: z.civil, offset: off },
        ),
{
    proof_freq_literals();
    let zone = crate::stepper::zone_of(r);
    let f = r.frequency;
    if f != "SECONDLY"@ {
        assert(Civil { second: z.civil.second, ..z.civil } == z.civil);
        assert(Civil { minute: z.civil.minute, ..z.civil } == z.civil);
        assert(Civil { hour: z.civil.hour, ..z.civil } == z.civil);
        let z1 = Zoned { civil: z.civil, offset: off };
        assert(set_second_spec(zone, z, z.civil.second as u32) == Some(z1));
        if f != "MINUTELY"@ {
            assert(set_minute_spec(zone, z1, z.civil.minute as u32) == Some(z1));
            if f != "HOURLY"@ {
                assert(set_hour_spec(zone, z1, z.civil.hour as u32) == Some(z1));
            }
        }
    }
}

/// The state a step's output is in, whatever the input: valid, carrying
/// the zone's offset, and aligned for the next step.
proof fn lemma_step_output_state(r: RuleView, z: Zoned, off: i32)
    requires
        valid_zoned(z),
        z.offset == off,
        step_spec(r, z) is Some,
        fixed_offset_zone(crate::stepper::zone_of(r), off),
        recognized_freq(r.frequency),
    ensures
        ({
            let z2 = step_spec(r, z).unwrap();
            valid_zoned(z2) && z2.offset == off && aligned(r, z2)
        }),
{
    reveal(step_spec);
    proof_freq_literals();
    lemma_filters_honored(r, z);
    let zone = crate::stepper::zone_of(r);
    let f = r.frequency;
    let z2 = step_spec(r, z).unwrap();
    if f == "YEARLY"@ {
        lemma_yearly_iter_state(zone, z, z.civil.year as int + 1, interval_spec(r) as nat, off);
    } else if f == "MONTHLY"@ {
        lemma_normalize_components(r, zone, z);
        let n0 = normalize_spec(r, zone, z).unwrap();
        let bmd = crate::stepper::first_of(r.by_month_day);
        let bm = crate::stepper::first_of(r.by_month);
        let z1 = if bmd.len() != 0 {
            set_day_spec(zone, n0, parse_u32_spec(bmd).unwrap()).unwrap()
        } else {
            n0
        };
        let s2 = if bm.len() != 0 {
            let z2a = set_month_spec(zone, z1, parse_u32_spec(bm).unwrap()).unwrap();
            if instant(z2a) <= instant(z) {
                set_year_spec(zone, z2a, z2a.civil.year as int + 1).unwrap()
            } else {
                z2a
            }
        } else {
            z1
        };
        assert(valid_civil(s2.civil) && s2.offset == off);
        let iv = interval_spec(r);
        let k: nat = if instant(s2) > instant(z) {
            if iv >= 1 {
                (iv - 1) as nat
            } else {
                0
            }
        } else {
            iv as nat
        };
        lemma_months_iter_keeps(s2, k);
    } else if f == "WEEKLY"@ {
        lemma_normalize_components(r, zone, z);
        let swi0 = normalize_spec(r, zone, z).unwrap();
        assert(swi0.offset == off);
        let byday = if r.by_day.len() > 0 {
            r.by_day[0]
        } else {
            code_of_num(weekday_num(z.civil))
        };
        let iv = interval_spec(r);
        let in_future = instant(swi0) > instant(z) && crate::civil::ordinal_of(swi0.civil)
            > crate::civil::ordinal_of(z.civil);
        let adj = crate::weekday::weekday_distance(byday, weekday_num(z.civil), in_future);
        let swi = zadd_days(swi0, adj as nat).unwrap();
        lemma_add_days_s_props(swi0.civil, adj as nat);
        let n1 = if instant(swi) > instant(z) {
            swi
        } else {
            zadd_days(swi, (7 * iv) as nat).unwrap()
        };
        if !(instant(swi) > instant(z)) {
            lemma_add_days_s_props(swi.civil, (7 * iv) as nat);
        }
        let fadj = crate::weekday::weekday_distance(byday, weekday_num(n1.civil), false);
        lemma_add_days_s_props(n1.civil, fadj as nat);
    } else if f == "DAILY"@ {
        lemma_normalize_components(r, zone, z);
        let swi = normalize_spec(r, zone, z).unwrap();
        assert(swi.offset == off);
        let byday = crate::stepper::first_of(r.by_day);
        let bymonth = crate::stepper::first_of(r.by_month);
        let iv = interval_spec(r);
        if bymonth.len() == 0 && byday.len() == 0 {
            let first = if instant(z) == instant(swi) {
                zadd_days(swi, 1).unwrap()
            } else {
                swi
            };
            if instant(z) == instant(swi) {
                lemma_add_days_s_props(swi.civil, 1);
            }
            let kk: nat = if iv >= 1 {
                (iv - 1) as nat
            } else {
                0
            };
            lemma_add_days_s_props(first.civil, kk);
        } else if byday.len() == 0 {
            lemma_add_days_s_props(swi.civil, iv as nat);
        } else {
            lemma_filter_iter_preserve(swi, iv, 86400, byday, bymonth, FILTER_CAP as nat);
        }
    } else if f == "HOURLY"@ || f == "MINUTELY"@ {
        let unit: int = if f == "HOURLY"@ {
            3600
        } else {
            60
        };
        lemma_normalize_components(r, zone, z);
        let n0 = normalize_spec(r, zone, z).unwrap();
        assert(n0.offset == off);
        let byday = crate::stepper::first_of(r.by_day);
        let bymonth = crate::stepper::first_of(r.by_month);
        let byhour = crate::stepper::first_of(r.by_hour);
        let iv = interval_spec(r);
        if byhour.len() == 0 {
            lemma_chunk(n0, iv, unit, byday, bymonth);
        } else {
            lemma_byhour_iter_exit(n0, iv, unit, byday, bymonth, byhour, FILTER_CAP as nat);
        }
    } else {
        lemma_normalize_components(r, zone, z);
        let n0 = normalize_spec(r, zone, z).unwrap();
        lemma_chunk(
            n0,
            interval_spec(r),
            1,
            crate::stepper::first_of(r.by_day),
            crate::stepper::first_of(r.by_month),
        );
    }
}

/// Yearly advances under a fixed-offset zone never move backward, carry
/// the zone's offset, and move strictly forward while under the cap year.
proof fn lemma_yearly_iter_state(zone: Seq<char>, x: Zoned, nyr: int, k: nat, off: i32)
    requires
        valid_zoned(x),
        x.offset == off,
        fixed_offset_zone(zone, off),
        yearly_iter(zone, x, nyr, k) is Some,
        nyr > x.civil.year,
    ensures
        ({
            let y = yearly_iter(zone, x, nyr, k).unwrap();
            &&& valid_zoned(y)
            &&& y.offset == off
            &&& instant(y) >= instant(x)
            &&& y.civil.year >= x.civil.year
            &&& k >= 1 && x.civil.year < 2099 ==> instant(y) > instant(x)
        }),
    decreases k,
{
    if k > 0 {
        if x.civil.year < 2099 {
            let x2 = set_year_spec(zone, x, nyr).unwrap();
            assert(valid_civil(x2.civil) && x2.offset == off);
            crate::civil::lemma_day_index_order(x.civil, x2.civil);
            assert(time_index(x2.civil) >= time_index(x.civil) + 1) by {
                crate::civil::lemma_day_index_bound(x.civil);
                crate::civil::lemma_day_index_bound(x2.civil);
            }
            lemma_yearly_iter_state(zone, x2, nyr + 1, (k - 1) as nat, off);
        } else {
            lemma_yearly_iter_state(zone, x, nyr + 1, (k - 1) as nat, off);
        }
    }
}

proof fn lemma_filter_iter_ge(
    z: Zoned,
    iv: u32,
    unit: int,
    byday: Seq<char>,
    bymonth: Seq<char>,
    fuel: nat,
)
    requires
        valid_civil(z.civil),
        filter_iter(z, iv, unit, byday, bymonth, fuel) is Some,
        unit == 86400 || unit == 3600 || unit == 60 || unit == 1,
    ensures
        instant(filter_iter(z, iv, unit, byday, bymonth, fuel).unwrap()) >= instant(z) + iv * unit,
    decreases fuel,
{
    if fuel > 0 {
        let stepped = if unit == 86400 {
            zadd_days(z, iv as nat)
        } else if unit == 3600 {
            zadd_hours(z, iv as nat)
        } else if unit == 60 {
            zadd_mins(z, iv as nat)
        } else {
            zadd_secs(z, iv as nat)
        };
        match stepped {
            None => {},
            Some(zm) => {
                if unit == 86400 {
                    lemma_add_days_s_props(z.civil, iv as nat);
                    assert(time_index(zm.civil) == time_index(z.civil) + (iv as int) * 86400) by (
                    nonlinear_arith)
                        requires
                            day_index(zm.civil) == day_index(z.civil) + iv,
                            crate::civil::sec_of_day(zm.civil) == crate::civil::sec_of_day(
                                z.civil,
                            ),
                            time_index(zm.civil) == day_index(zm.civil) * 86400
                                + crate::civil::sec_of_day(zm.civil),
                            time_index(z.civil) == day_index(z.civil) * 86400
                                + crate::civil::sec_of_day(z.civil),
                    ;
                } else if unit == 3600 {
                    lemma_add_hours_s_props(z.civil, iv as nat);
                } else if unit == 60 {
                    lemma_add_mins_s_props(z.civil, iv as nat);
                } else {
                    lemma_add_secs_s_props(z.civil, iv as nat);
                }
                match day_month_match_spec(zm.civil, byday, bymonth) {
                    None => {},
                    Some(true) => {},
                    Some(false) => {
                        lemma_filter_iter_ge(zm, iv, unit, byday, bymonth, (fuel - 1) as nat);
                        assert(iv * unit >= 0) by (nonlinear_arith)
                            requires
                                unit >= 1,
                        ;
                    },
                }
            },
        }
    }
}

proof fn lemma_chunk_ge(z: Zoned, iv: u32, unit: int, byday: Seq<char>, bymonth: Seq<char>)
    requires
        valid_civil(z.civil),
        chunk_spec(z, iv, unit, byday, bymonth) is Some,
        unit == 3600 || unit == 60 || unit == 1,
    ensures
        instant(chunk_spec(z, iv, unit, byday, bymonth).unwrap()) >= instant(z) + iv * unit,
{
    if byday.len() == 0 {
        if unit == 3600 {
            lemma_add_hours_s_props(z.civil, iv as nat);
        } else if unit == 60 {
            lemma_add_mins_s_props(z.civil, iv as nat);
        } else {
            lemma_add_secs_s_props(z.civil, iv as nat);
        }
    } else {
        lemma_filter_iter_ge(z, iv, unit, byday, bymonth, FILTER_CAP as nat);
    }
}

proof fn lemma_byhour_iter_ge(
    z: Zoned,
    iv: u32,
    unit: int,
    byday: Seq<char>,
    bymonth: Seq<char>,
    byhour: Seq<char>,
    fuel: nat,
)
    requires
        valid_civil(z.civil),
        byhour_iter(z, iv, unit, byday, bymonth, byhour, fuel) is Some,
        unit == 3600 || unit == 60,
    ensures
        instant(byhour_iter(z, iv, unit, byday, bymonth, byhour, fuel).unwrap()) >= instant(z) + iv
            * unit,
    decreases fuel,
{
    if fuel > 0 {
        match chunk_spec(z, iv, unit, byday, bymonth) {
            None => {},
            Some(zc) => {
                lemma_chunk(z, iv, unit, byday, bymonth);
                lemma_chunk_ge(z, iv, unit, byday, bymonth);
                match parse_u32_spec(byhour) {
                    None => {},
                    Some(h) => {
                        if zc.civil.hour as u32 == h {
                        } else {
                            lemma_byhour_iter_ge(
                                zc,
                                iv,
                                unit,
                                byday,
                                bymonth,
                                byhour,
                                (fuel - 1) as nat,
                            );
                            assert(iv * unit >= 0) by (nonlinear_arith)
                                requires
                                    unit >= 1,
                            ;
                        }
                    },
                }
            },
        }
    }
}

proof fn lemma_months_iter_ge(z: Zoned, k: nat)
    requires
        valid_civil(z.civil),
        months_iter(z, k) is Some,
    ensures
        instant(months_iter(z, k).unwrap()) >= instant(z),
        k >= 1 ==> instant(months_iter(z, k).unwrap()) >= instant(z) + 28 * 86400,
    decreases k,
{
    if k > 0 {
        match add_month_spec(z) {
            None => {},
            Some(zm) => {
                lemma_add_days_s_props(
                    z.civil,
                    month_len(z.civil.year as int, z.civil.month as int) as nat,
                );
                crate::civil::lemma_day_index_bound(z.civil);
                crate::civil::lemma_day_index_bound(zm.civil);
                lemma_months_iter_ge(zm, (k - 1) as nat);
            },
        }
    }
}

/// Under a fixed-offset zone, stepping an aligned occurrence moves
/// strictly forward in time.
#[verifier::rlimit(100)]
proof fn lemma_step_increases(r: RuleView, z: Zoned, off: i32)
    requires
        valid_zoned(z),
        z.offset == off,
        aligned(r, z),
        step_spec(r, z) is Some,
        fixed_offset_zone(crate::stepper::zone_of(r), off),
        recognized_freq(r.frequency),
        interval_spec(r) >= 1,
        r.frequency == "YEARLY"@ ==> z.civil.year < 2099,
    ensures
        instant(step_spec(r, z).unwrap()) > instant(z),
{
    reveal(step_spec);
    proof_freq_literals();
    let zone = crate::stepper::zone_of(r);
    let f = r.frequency;
    let z2 = step_spec(r, z).unwrap();
    let iv = interval_spec(r);
    crate::civil::lemma_day_index_bound(z.civil);
    if f == "YEARLY"@ {
        lemma_yearly_iter_state(zone, z, z.civil.year as int + 1, iv as nat, off);
    } else if f == "MONTHLY"@ {
        lemma_normalize_identity(r, z, off);
        let n0 = Zoned { civil: z.civil, offset: off };
        let bmd = crate::stepper::first_of(r.by_month_day);
        let bm = crate::stepper::first_of(r.by_month);
        let z1 = if bmd.len() != 0 {
            set_day_spec(zone, n0, parse_u32_spec(bmd).unwrap()).unwrap()
        } else {
            n0
        };
        assert(valid_civil(z1.civil) && z1.offset == off && z1.civil.year == z.civil.year
            && z1.civil.month == z.civil.month);
        crate::civil::lemma_day_index_bound(z1.civil);
        let s2 = if bm.len() != 0 {
            let z2a = set_month_spec(zone, z1, parse_u32_spec(bm).unwrap()).unwrap();
            if instant(z2a) <= instant(z) {
                set_year_spec(zone, z2a, z2a.civil.year as int + 1).unwrap()
            } else {
                z2a
            }
        } else {
            z1
        };
        if bm.len() != 0 {
            let z2a = set_month_spec(zone, z1, parse_u32_spec(bm).unwrap()).unwrap();
            if instant(z2a) <= instant(z) {
                assert(s2.civil.year == z.civil.year + 1);
                crate::civil::lemma_day_index_order(z.civil, s2.civil);
                crate::civil::lemma_day_index_bound(s2.civil);
                assert(instant(s2) > instant(z));
            }
        }
        let k: nat = if instant(s2) > instant(z) {
            (iv - 1) as nat
        } else {
            iv as nat
        };
        if instant(s2) > instant(z) {
            lemma_months_iter_ge(s2, k);
        } else {
            assert(bm.len() == 0);
            assert(s2.civil.year == z.civil.year && s2.civil.month == z.civil.month);
            assert(k == iv as nat && k >= 1);
            let len = month_len(s2.civil.year as int, s2.civil.month as int);
            let first = add_month_spec(s2).unwrap();
            lemma_add_days_s_props(s2.civil, len as nat);
            assert(day_index(s2.civil) - day_index(z.civil) == s2.civil.day - z.civil.day);
            assert(day_index(first.civil) >= day_index(z.civil) + 1);
            crate::civil::lemma_day_index_bound(first.civil);
            assert(time_index(first.civil) >= time_index(z.civil) + 1) by (nonlinear_arith)
                requires
                    day_index(first.civil) >= day_index(z.civil) + 1,
                    0 <= crate::civil::sec_of_day(first.civil),
                    crate::civil::sec_of_day(z.civil) <= 86399,
                    time_index(first.civil) == day_index(first.civil) * 86400
                        + crate::civil::sec_of_day(first.civil),
                    time_index(z.civil) == day_index(z.civil) * 86400 + crate::civil::sec_of_day(
                        z.civil,
                    ),
            ;
            lemma_months_iter_ge(first, (k - 1) as nat);
            assert(months_iter(s2, k) == months_iter(first, (k - 1) as nat));
        }
    } else if f == "WEEKLY"@ {
        lemma_normalize_identity(r, z, off);
        let swi0 = Zoned { civil: z.civil, offset: off };
        let byday = if r.by_day.len() > 0 {
            r.by_day[0]
        } else {
            code_of_num(weekday_num(z.civil))
        };
        let wd = weekday_num(z.civil);
        assert(1 <= wd <= 7);
        if r.by_day.len() == 0 {
            crate::weekday::lemma_code_roundtrip(wd);
        }
        let in_future = instant(swi0) > instant(z) && crate::civil::ordinal_of(swi0.civil)
            > crate::civil::ordinal_of(z.civil);
        assert(!in_future);
        let adj = crate::weekday::weekday_distance(byday, wd, in_future);
        assert(adj == 0) by {
            if code_num(byday) is Some {
                let t = code_num(byday).unwrap();
                assert(t == wd);
                assert((t - wd + 7) % 7 == 0);
            }
        }
        let swi = zadd_days(swi0, 0).unwrap();
        assert(swi == swi0);
        assert(!(instant(swi) > instant(z)));
        let n1 = zadd_days(swi, (7 * iv) as nat).unwrap();
        lemma_add_days_s_props(swi.civil, (7 * iv) as nat);
        assert(time_index(n1.civil) == time_index(swi.civil) + (7 * iv) * 86400) by (
        nonlinear_arith)
            requires
                day_index(n1.civil) == day_index(swi.civil) + 7 * iv,
                crate::civil::sec_of_day(n1.civil) == crate::civil::sec_of_day(swi.civil),
                time_index(n1.civil) == day_index(n1.civil) * 86400 + crate::civil::sec_of_day(
                    n1.civil,
                ),
                time_index(swi.civil) == day_index(swi.civil) * 86400 + crate::civil::sec_of_day(
                    swi.civil,
                ),
        ;
        assert((7 * iv) * 86400 >= 86400) by (nonlinear_arith)
            requires
                iv >= 1,
        ;
        let wd1 = weekday_num(n1.civil);
        assert(wd1 == wd) by {
            crate::civil::lemma_day_index_bound(n1.civil);
            assert(day_index(n1.civil) == day_index(z.civil) + 7 * (iv as int));
            vstd::arithmetic::div_mod::lemma_mod_multiples_vanish(
                iv as int,
                day_index(z.civil),
                7,
            );
        }
        let fadj = crate::weekday::weekday_distance(byday, wd1, false);
        assert(fadj == 0) by {
            if code_num(byday) is Some {
                let t = code_num(byday).unwrap();
                assert(t == wd1);
                assert((t - wd1 + 7) % 7 == 0);
            }
        }
        assert(z2 == zadd_days(n1, 0).unwrap());
    } else if f == "DAILY"@ {
        lemma_normalize_identity(r, z, off);
        let swi = Zoned { civil: z.civil, offset: off };
        let byday = crate::stepper::first_of(r.by_day);
        let bymonth = crate::stepper::first_of(r.by_month);
        if bymonth.len() == 0 && byday.len() == 0 {
            assert(instant(z) == instant(swi));
            let first = zadd_days(swi, 1).unwrap();
            lemma_add_days_s_props(swi.civil, 1);
            lemma_add_days_s_props(first.civil, (iv - 1) as nat);
            assert(day_index(z2.civil) == day_index(z.civil) + iv);
            crate::civil::lemma_day_index_bound(z2.civil);
            assert(time_index(z2.civil) >= time_index(z.civil) + 86400) by (nonlinear_arith)
                requires
                    day_index(z2.civil) >= day_index(z.civil) + 1,
                    crate::civil::sec_of_day(z2.civil) == crate::civil::sec_of_day(z.civil),
                    time_index(z2.civil) == day_index(z2.civil) * 86400
                        + crate::civil::sec_of_day(z2.civil),
                    time_index(z.civil) == day_index(z.civil) * 86400 + crate::civil::sec_of_day(
                        z.civil,
                    ),
            ;
        } else if byday.len() == 0 {
            lemma_add_days_s_props(swi.civil, iv as nat);
            assert(time_index(z2.civil) >= time_index(z.civil) + 86400) by (nonlinear_arith)
                requires
                    iv >= 1,
                    day_index(z2.civil) == day_index(z.civil) + iv,
                    crate::civil::sec_of_day(z2.civil) == crate::civil::sec_of_day(z.civil),
                    time_index(z2.civil) == day_index(z2.civil) * 86400
                        + crate::civil::sec_of_day(z2.civil),
                    time_index(z.civil) == day_index(z.civil) * 86400 + crate::civil::sec_of_day(
                        z.civil,
                    ),
            ;
        } else {
            lemma_filter_iter_ge(swi, iv, 86400, byday, bymonth, FILTER_CAP as nat);
            assert(iv * 86400 >= 86400) by (nonlinear_arith)
                requires
                    iv >= 1,
            ;
        }
    } else if f == "HOURLY"@ || f == "MINUTELY"@ {
        let unit: int = if f == "HOURLY"@ {
            3600
        } else {
            60
        };
        lemma_normalize_identity(r, z, off);
        let n0 = Zoned { civil: z.civil, offset: off };
        let byday = crate::stepper::first_of(r.by_day);
        let bymonth = crate::stepper::first_of(r.by_month);
        let byhour = crate::stepper::first_of(r.by_hour);
        if byhour.len() == 0 {
            lemma_chunk_ge(n0, iv, unit, byday, bymonth);
        } else {
            lemma_byhour_iter_ge(n0, iv, unit, byday, bymonth, byhour, FILTER_CAP as nat);
        }
        assert(iv * unit >= 60) by (nonlinear_arith)
            requires
                iv >= 1,
                unit == 3600 || unit == 60,
        ;
    } else {
        lemma_normalize_identity(r, z, off);
        let n0 = Zoned { civil: z.civil, offset: off };
        assert(n0 == z);
        lemma_chunk_ge(
            n0,
            iv,
            1,
            crate::stepper::first_of(r.by_day),
            crate::stepper::first_of(r.by_month),
        );
    }
}

/// Monotonicity of a run from an already-aligned occurrence.
proof fn lemma_run_increasing_from(r: RuleView, z: Zoned, cnt: nat, u: Option<Zoned>, off: i32)
    requires
        valid_zoned(z),
        z.offset == off,
        aligned(r, z),
        run_steps(r, z, cnt, u) is Some,
        fixed_offset_zone(crate::stepper::zone_of(r), off),
        recognized_freq(r.frequency),
        interval_spec(r) >= 1,
        r.frequency == "YEARLY"@ ==> ({
            let zs = run_steps(r, z, cnt, u).unwrap();
            (zs.len() > 0 ==> z.civil.year < 2099) && (forall|i: int|
                0 <= i < zs.len() - 1 ==> #[trigger] zs[i].civil.year < 2099)
        }),
    ensures
        ({
            let zs = run_steps(r, z, cnt, u).unwrap();
            &&& forall|i: int|
                0 <= i < zs.len() - 1 ==> instant(#[trigger] zs[i]) < instant(zs[i + 1])
            &&& zs.len() > 0 ==> instant(z) < instant(zs[0])
        }),
    decreases cnt,
{
    let zs = run_steps(r, z, cnt, u).unwrap();
    if cnt > 0 {
        match step_spec(r, z) {
            None => {},
            Some(z1) => {
                if u matches Some(ub) && instant(z1) > instant(ub) {
                } else {
                    lemma_step_increases(r, z, off);
                    lemma_step_output_state(r, z, off);
                    let rest = run_steps(r, z1, (cnt - 1) as nat, u).unwrap();
                    assert(zs == seq![z1] + rest);
                    assert(zs[0] == z1);
                    assert(forall|i: int| 1 <= i < zs.len() ==> #[trigger] zs[i] == rest[i - 1]);
                    if r.frequency == "YEARLY"@ {
                        if rest.len() > 0 {
                            assert(zs[0].civil.year < 2099);
                        }
                        assert forall|i: int| 0 <= i < rest.len() - 1 implies #[trigger] rest[i].civil.year
                            < 2099 by {
                            assert(rest[i] == zs[i + 1]);
                            assert(zs[i + 1].civil.year < 2099);
                        }
                    }
                    lemma_run_increasing_from(r, z1, (cnt - 1) as nat, u, off);
                }
            },
        }
    }
}

/// Monotonicity: under a fixed-offset zone (UTC among them), the
/// occurrences a run produces are strictly increasing instants, for every
/// recognized frequency with a positive interval; under `YEARLY` this
/// holds up to the year-2099 cap, where stepping freezes by design.
pub proof fn lemma_occurrences_strictly_increase(
    r: RuleView,
    z0: Zoned,
    cnt: nat,
    u: Option<Zoned>,
    off: i32,
)
    requires
        valid_zoned(z0),
        z0.offset == off,
        run_steps(r, z0, cnt, u) is Some,
        fixed_offset_zone(crate::stepper::zone_of(r), off),
        recognized_freq(r.frequency),
        interval_spec(r) >= 1,
        r.frequency == "YEARLY"@ ==> z0.civil.year < 2099 && (forall|i: int|
            0 <= i < run_steps(r, z0, cnt, u).unwrap().len() - 1
                ==> #[trigger] run_steps(r, z0, cnt, u).unwrap()[i].civil.year < 2099),
    ensures
        ({
            let zs = run_steps(r, z0, cnt, u).unwrap();
            forall|i: int| 0 <= i < zs.len() - 1 ==> instant(#[trigger] zs[i]) < instant(zs[i + 1])
        }),
{
    let zs = run_steps(r, z0, cnt, u).unwrap();
    if cnt > 0 {
        match step_spec(r, z0) {
            None => {},
            Some(z1) => {
                if u matches Some(ub) && instant(z1) > instant(ub) {
                } else {
                    lemma_step_output_state(r, z0, off);
                    let rest = run_steps(r, z1, (cnt - 1) as nat, u).unwrap();
                    assert(zs == seq![z1] + rest);
                    assert(zs[0] == z1);
                    assert(forall|i: int| 1 <= i < zs.len() ==> #[trigger] zs[i] == rest[i - 1]);
                    if r.frequency == "YEARLY"@ {
                        if rest.len() > 0 {
                            assert(zs[0].civil.year < 2099);
                        }
                        assert forall|i: int| 0 <= i < rest.len() - 1 implies #[trigger] rest[i].civil.year
                            < 2099 by {
                            assert(rest[i] == zs[i + 1]);
                            assert(zs[i + 1].civil.year < 2099);
                        }
                    }
                    lemma_run_increasing_from(r, z1, (cnt - 1) as nat, u, off);
                }
            },
        }
    }
}

} // verus!
