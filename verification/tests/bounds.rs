use sundial::convert_to_rrule;
use sundial::civil::{month_len_of, next_day, time_index_of, weekday_of, Civil, Zoned};
use sundial::stepper::GenerationError;
use sundial::textnum::parse_u32;

fn utc(year: i32, month: u8, day: u8, hour: u8, minute: u8, second: u8) -> Zoned {
    Zoned { civil: Civil { year, month, day, hour, minute, second }, offset: 0 }
}

#[test]
fn test_we_use_the_count_properly() {
    let rrule_result =
        convert_to_rrule("FREQ=MONTHLY;COUNT=27;INTERVAL=1;BYHOUR=9;BYMINUTE=1;BYMONTHDAY=28,27")
            .unwrap();

    assert_eq!(27, rrule_result.get_next_iter_dates("", "").unwrap().len())
}

#[test]
fn test_until_params_works() {
    let rrule_result = convert_to_rrule("FREQ=MONTHLY;COUNT=27;INTERVAL=1;BYHOUR=9;DTSTART=20190327T133500;UNTIL=20200612T030000").unwrap();

    assert_eq!(
        vec![
            "2019-04-27T09:35:00+00:00".to_owned(),
            "2019-05-27T09:35:00+00:00".to_owned(),
            "2019-06-27T09:35:00+00:00".to_owned(),
            "2019-07-27T09:35:00+00:00".to_owned(),
            "2019-08-27T09:35:00+00:00".to_owned(),
            "2019-09-27T09:35:00+00:00".to_owned(),
            "2019-10-27T09:35:00+00:00".to_owned(),
            "2019-11-27T09:35:00+00:00".to_owned(),
            "2019-12-27T09:35:00+00:00".to_owned(),
            "2020-01-27T09:35:00+00:00".to_owned(),
            "2020-02-27T09:35:00+00:00".to_owned(),
            "2020-03-27T09:35:00+00:00".to_owned(),
            "2020-04-27T09:35:00+00:00".to_owned(),
            "2020-05-27T09:35:00+00:00".to_owned()
        ],
        rrule_result.get_all_iter_dates_iso8601("", "").unwrap()
    )
}

#[test]
fn we_can_scope_returned_results_8601_from_today() {
    let rrule_result =
        convert_to_rrule("FREQ=WEEKLY;INTERVAL=1;COUNT=3;BYDAY=TU;BYHOUR=23;BYMINUTE=54;BYSECOND=0;TZID=Australia/Melbourne;DTSTART=20180110T034500")
            .unwrap();

    assert_eq!(
        3,
        rrule_result
            .get_all_iter_dates_from_today_iso8601("", "")
            .unwrap()
            .len()
    )
}

#[test]
fn occurrences_stay_strictly_increasing() {
    let rrule = convert_to_rrule(
        "FREQ=HOURLY;INTERVAL=3;COUNT=50;DTSTART=20190327T030000",
    )
    .unwrap();
    let dates = rrule.get_all_iter_dates("", "").unwrap();
    assert_eq!(50, dates.len());
    for w in dates.windows(2) {
        let a = time_index_of(&w[0].civil) - w[0].offset as i64;
        let b = time_index_of(&w[1].civil) - w[1].offset as i64;
        assert!(a < b);
    }
}

#[test]
fn count_argument_overrides_the_rule() {
    let rrule =
        convert_to_rrule("FREQ=DAILY;COUNT=10;INTERVAL=1;DTSTART=20190327T030000").unwrap();
    assert_eq!(4, rrule.get_all_iter_dates("4", "").unwrap().len());
}

#[test]
fn until_argument_overrides_the_rule() {
    let rrule =
        convert_to_rrule("FREQ=DAILY;COUNT=10;INTERVAL=1;DTSTART=20190327T030000").unwrap();
    let dates = rrule
        .get_all_iter_dates("", "2019-03-30 23:00:00")
        .unwrap();
    assert_eq!(3, dates.len());
}

#[test]
fn unsatisfiable_filters_fail_instead_of_hanging() {
    let rrule = convert_to_rrule(
        "FREQ=DAILY;COUNT=4;INTERVAL=7;BYDAY=MO;DTSTART=20190402T030000",
    )
    .unwrap();
    assert_eq!(
        Err(GenerationError::NoMatch),
        rrule.get_all_iter_dates("", "")
    );
}

#[test]
fn unreadable_count_is_unresolvable() {
    let rrule = convert_to_rrule("FREQ=DAILY;DTSTART=20190327T030000").unwrap();
    assert_eq!(
        Err(GenerationError::Unresolvable),
        rrule.get_all_iter_dates("often", "")
    );
}

#[test]
fn unknown_frequency_repeats_the_start() {
    let rrule = convert_to_rrule("FREQ=FORTNIGHTLY;DTSTART=20190327T030000").unwrap();
    let start = utc(2019, 3, 27, 3, 0, 0);
    assert_eq!(start, rrule.get_next_date(start).unwrap());
}

#[test]
fn free_functions_enumerate_and_reject() {
    let dates = sundial::get_all_iter_dates(
        "FREQ=MONTHLY;COUNT=2;INTERVAL=1;BYMONTHDAY=28;DTSTART=20190402T011213;TZID=Australia/Melbourne",
        "",
        "",
    )
    .unwrap();
    assert_eq!(
        vec![
            "2019-04-28T12:12:13+10:00".to_owned(),
            "2019-05-28T12:12:13+10:00".to_owned()
        ],
        dates
    );
    assert!(sundial::get_all_iter_dates("BYHOUR=99", "", "").is_err());
    assert!(sundial::get_all_iter_dates_from_today("TZID=Nowhere/Atall", "", "").is_err());
}

#[test]
fn calendar_arithmetic_knows_leap_years() {
    assert_eq!(29, month_len_of(2020, 2));
    assert_eq!(28, month_len_of(2019, 2));
    assert_eq!(28, month_len_of(1900, 2));
    assert_eq!(29, month_len_of(2000, 2));
    let end_of_feb = Civil { year: 2020, month: 2, day: 29, hour: 8, minute: 0, second: 0 };
    let next = next_day(&end_of_feb);
    assert_eq!((2020, 3, 1), (next.year, next.month, next.day));
}

#[test]
fn weekday_numbers_match_known_dates() {
    // 2019-04-11 was a Thursday; 2000-01-01 a Saturday; 0001-01-01 a Monday.
    assert_eq!(4, weekday_of(&Civil { year: 2019, month: 4, day: 11, hour: 0, minute: 0, second: 0 }));
    assert_eq!(6, weekday_of(&Civil { year: 2000, month: 1, day: 1, hour: 0, minute: 0, second: 0 }));
    assert_eq!(1, weekday_of(&Civil { year: 1, month: 1, day: 1, hour: 0, minute: 0, second: 0 }));
}

#[test]
fn digit_parsing_rejects_junk_and_overflow() {
    assert_eq!(Some(27), parse_u32("27"));
    assert_eq!(Some(0), parse_u32("0"));
    assert_eq!(None, parse_u32(""));
    assert_eq!(None, parse_u32("2a"));
    assert_eq!(None, parse_u32("-3"));
    assert_eq!(None, parse_u32("99999999999"));
}

#[test]
fn rfc3339_uses_the_zone_offset() {
    let z = Zoned { civil: Civil { year: 2019, month: 4, day: 3, hour: 9, minute: 1, second: 0 }, offset: 34200 };
    assert_eq!("2019-04-03T09:01:00+09:30", z.to_rfc3339());
    let w = Zoned { civil: Civil { year: 2019, month: 4, day: 3, hour: 9, minute: 1, second: 0 }, offset: -18000 };
    assert_eq!("2019-04-03T09:01:00-05:00", w.to_rfc3339());
}
