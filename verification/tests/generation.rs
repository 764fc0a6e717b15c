use sundial::convert_to_rrule;
use sundial::civil::{weekday_of, Civil, Zoned};

fn utc(year: i32, month: u8, day: u8, hour: u8, minute: u8, second: u8) -> Zoned {
    Zoned { civil: Civil { year, month, day, hour, minute, second }, offset: 0 }
}

fn naive_strings(rrule: &sundial::rule::RRule) -> Vec<String> {
    rrule
        .get_all_iter_dates("", "")
        .unwrap()
        .iter()
        .map(|date| date.naive_string())
        .collect::<Vec<String>>()
}

#[test]
fn test_daily_rules_work_1() {
    let rrule_result = convert_to_rrule(
        "FREQ=DAILY;COUNT=4;INTERVAL=1;BYDAY=WE;BYHOUR=9;BYMINUTE=1;DTSTART=20190327T030000",
    )
    .unwrap();

    assert_eq!(
        vec![
            "2019-04-03 09:01:00".to_owned(),
            "2019-04-10 09:01:00".to_owned(),
            "2019-04-17 09:01:00".to_owned(),
            "2019-04-24 09:01:00".to_owned()
        ],
        naive_strings(&rrule_result)
    );
}

#[test]
fn test_daily_rules_work_2() {
    let rrule_result = convert_to_rrule("FREQ=DAILY;COUNT=4;INTERVAL=1;BYDAY=WE;BYHOUR=9;BYMINUTE=1;DTSTART=20190327T030000;TZID=Australia/Darwin").unwrap();

    assert_eq!(
        vec![
            "2019-04-03T09:01:00+09:30".to_owned(),
            "2019-04-10T09:01:00+09:30".to_owned(),
            "2019-04-17T09:01:00+09:30".to_owned(),
            "2019-04-24T09:01:00+09:30".to_owned()
        ],
        rrule_result.get_all_iter_dates_iso8601("", "").unwrap()
    );
}

#[test]
fn test_daily_rules_work_3() {
    let rrule_result = convert_to_rrule("FREQ=DAILY;COUNT=4;INTERVAL=1;BYDAY=WE;BYHOUR=9;BYMINUTE=1;DTSTART=20190327T030000;TZID=Australia/Brisbane").unwrap();

    assert_eq!(
        vec![
            "2019-04-03T09:01:00+10:00".to_owned(),
            "2019-04-10T09:01:00+10:00".to_owned(),
            "2019-04-17T09:01:00+10:00".to_owned(),
            "2019-04-24T09:01:00+10:00".to_owned()
        ],
        rrule_result.get_all_iter_dates_iso8601("", "").unwrap()
    );
}

#[test]
fn test_daily_rules_work_4() {
    let rrule_result = convert_to_rrule("FREQ=DAILY;COUNT=6;INTERVAL=5;BYDAY=WE;BYHOUR=12;BYMINUTE=52;DTSTART=20190327T030000;TZID=Singapore").unwrap();

    assert_eq!(
        vec![
            "2019-05-01T12:52:00+08:00".to_owned(),
            "2019-06-05T12:52:00+08:00".to_owned(),
            "2019-07-10T12:52:00+08:00".to_owned(),
            "2019-08-14T12:52:00+08:00".to_owned(),
            "2019-09-18T12:52:00+08:00".to_owned(),
            "2019-10-23T12:52:00+08:00".to_owned(),
        ],
        rrule_result.get_all_iter_dates_iso8601("", "").unwrap()
    );
}

#[test]
fn test_daily_rules_work_5() {
    let rrule_result = convert_to_rrule("FREQ=DAILY;COUNT=20;INTERVAL=3;BYDAY=FR;BYMONTH=11;BYHOUR=10;BYMINUTE=1;BYSECOND=58;DTSTART=20190327T030000").unwrap();

    assert_eq!(
        vec![
            "2019-11-01 10:01:58".to_owned(),
            "2019-11-22 10:01:58".to_owned(),
            "2020-11-13 10:01:58".to_owned(),
            "2021-11-05 10:01:58".to_owned(),
            "2021-11-26 10:01:58".to_owned(),
            "2022-11-18 10:01:58".to_owned(),
            "2023-11-10 10:01:58".to_owned(),
            "2024-11-01 10:01:58".to_owned(),
            "2024-11-22 10:01:58".to_owned(),
            "2025-11-14 10:01:58".to_owned(),
            "2026-11-06 10:01:58".to_owned(),
            "2026-11-27 10:01:58".to_owned(),
            "2027-11-19 10:01:58".to_owned(),
            "2028-11-10 10:01:58".to_owned(),
            "2029-11-02 10:01:58".to_owned(),
            "2029-11-23 10:01:58".to_owned(),
            "2030-11-15 10:01:58".to_owned(),
            "2031-11-07 10:01:58".to_owned(),
            "2031-11-28 10:01:58".to_owned(),
            "2032-11-19 10:01:58".to_owned(),
        ],
        naive_strings(&rrule_result)
    );
}

#[test]
fn test_daily_rules_work_6() {
    let rrule_result = convert_to_rrule(
        "FREQ=DAILY;COUNT=4;INTERVAL=1;BYHOUR=9;BYMINUTE=1;DTSTART=20190327T030000",
    )
    .unwrap();

    assert_eq!(
        vec![
            "2019-03-27 09:01:00".to_owned(),
            "2019-03-28 09:01:00".to_owned(),
            "2019-03-29 09:01:00".to_owned(),
            "2019-03-30 09:01:00".to_owned()
        ],
        naive_strings(&rrule_result)
    );
}

#[test]
fn test_hourly_rules_work_1() {
    let rrule_result =
        convert_to_rrule("FREQ=HOURLY;INTERVAL=3;COUNT=20;DTSTART=20190327T030000").unwrap();

    assert_eq!(
        vec![
            "2019-03-27 06:00:00".to_owned(),
            "2019-03-27 09:00:00".to_owned(),
            "2019-03-27 12:00:00".to_owned(),
            "2019-03-27 15:00:00".to_owned(),
            "2019-03-27 18:00:00".to_owned(),
            "2019-03-27 21:00:00".to_owned(),
            "2019-03-28 00:00:00".to_owned(),
            "2019-03-28 03:00:00".to_owned(),
            "2019-03-28 06:00:00".to_owned(),
            "2019-03-28 09:00:00".to_owned(),
            "2019-03-28 12:00:00".to_owned(),
            "2019-03-28 15:00:00".to_owned(),
            "2019-03-28 18:00:00".to_owned(),
            "2019-03-28 21:00:00".to_owned(),
            "2019-03-29 00:00:00".to_owned(),
            "2019-03-29 03:00:00".to_owned(),
            "2019-03-29 06:00:00".to_owned(),
            "2019-03-29 09:00:00".to_owned(),
            "2019-03-29 12:00:00".to_owned(),
            "2019-03-29 15:00:00".to_owned(),
        ],
        naive_strings(&rrule_result)
    );
}

#[test]
fn test_hourly_rules_work_2() {
    let rrule_result = convert_to_rrule(
        "FREQ=HOURLY;INTERVAL=3;BYDAY=TU;COUNT=20;DTSTART=20190327T030000;BYHOUR=9;BYMINUTE=12",
    )
    .unwrap();

    assert_eq!(
        vec![
            "2019-04-02 09:12:00".to_owned(),
            "2019-04-09 09:12:00".to_owned(),
            "2019-04-16 09:12:00".to_owned(),
            "2019-04-23 09:12:00".to_owned(),
            "2019-04-30 09:12:00".to_owned(),
            "2019-05-07 09:12:00".to_owned(),
            "2019-05-14 09:12:00".to_owned(),
            "2019-05-21 09:12:00".to_owned(),
            "2019-05-28 09:12:00".to_owned(),
            "2019-06-04 09:12:00".to_owned(),
            "2019-06-11 09:12:00".to_owned(),
            "2019-06-18 09:12:00".to_owned(),
            "2019-06-25 09:12:00".to_owned(),
            "2019-07-02 09:12:00".to_owned(),
            "2019-07-09 09:12:00".to_owned(),
            "2019-07-16 09:12:00".to_owned(),
            "2019-07-23 09:12:00".to_owned(),
            "2019-07-30 09:12:00".to_owned(),
            "2019-08-06 09:12:00".to_owned(),
            "2019-08-13 09:12:00".to_owned(),
        ],
        naive_strings(&rrule_result)
    );
}

#[test]
fn test_hourly_rules_work_3() {
    let rrule_result = convert_to_rrule("FREQ=HOURLY;INTERVAL=3;COUNT=20;BYDAY=TH;DTSTART=20190327T030000;TZID=Australia/Sydney").unwrap();

    assert_eq!(
        vec![
            "2019-03-28T02:00:00+11:00".to_owned(),
            "2019-03-28T05:00:00+11:00".to_owned(),
            "2019-03-28T08:00:00+11:00".to_owned(),
            "2019-03-28T11:00:00+11:00".to_owned(),
            "2019-03-28T14:00:00+11:00".to_owned(),
            "2019-03-28T17:00:00+11:00".to_owned(),
            "2019-03-28T20:00:00+11:00".to_owned(),
            "2019-03-28T23:00:00+11:00".to_owned(),
            "2019-04-04T02:00:00+11:00".to_owned(),
            "2019-04-04T05:00:00+11:00".to_owned(),
            "2019-04-04T08:00:00+11:00".to_owned(),
            "2019-04-04T11:00:00+11:00".to_owned(),
            "2019-04-04T14:00:00+11:00".to_owned(),
            "2019-04-04T17:00:00+11:00".to_owned(),
            "2019-04-04T20:00:00+11:00".to_owned(),
            "2019-04-04T23:00:00+11:00".to_owned(),
            "2019-04-11T02:00:00+11:00".to_owned(),
            "2019-04-11T05:00:00+10:00".to_owned(),
            "2019-04-11T08:00:00+10:00".to_owned(),
            "2019-04-11T11:00:00+10:00".to_owned(),
        ],
        rrule_result.get_all_iter_dates_iso8601("", "").unwrap()
    );
}

#[test]
fn test_minutely_rules_work_1() {
    let rrule_result =
        convert_to_rrule("FREQ=MINUTELY;INTERVAL=3;COUNT=20;DTSTART=20190327T030000").unwrap();

    assert_eq!(
        vec![
            "2019-03-27 03:03:00".to_owned(),
            "2019-03-27 03:06:00".to_owned(),
            "2019-03-27 03:09:00".to_owned(),
            "2019-03-27 03:12:00".to_owned(),
            "2019-03-27 03:15:00".to_owned(),
            "2019-03-27 03:18:00".to_owned(),
            "2019-03-27 03:21:00".to_owned(),
            "2019-03-27 03:24:00".to_owned(),
            "2019-03-27 03:27:00".to_owned(),
            "2019-03-27 03:30:00".to_owned(),
            "2019-03-27 03:33:00".to_owned(),
            "2019-03-27 03:36:00".to_owned(),
            "2019-03-27 03:39:00".to_owned(),
            "2019-03-27 03:42:00".to_owned(),
            "2019-03-27 03:45:00".to_owned(),
            "2019-03-27 03:48:00".to_owned(),
            "2019-03-27 03:51:00".to_owned(),
            "2019-03-27 03:54:00".to_owned(),
            "2019-03-27 03:57:00".to_owned(),
            "2019-03-27 04:00:00".to_owned()
        ],
        naive_strings(&rrule_result)
    );
}

#[test]
fn test_weekly_rrules_1() {
    let rrule_result =
        convert_to_rrule("FREQ=WEEKLY;INTERVAL=1;COUNT=5;BYDAY=TH;BYHOUR=14;BYMINUTE=0;BYSECOND=0;TZID=Australia/Sydney;DTSTART=20190415T160000")
            .unwrap();
    assert_eq!(
        vec![
            "2019-04-18T14:00:00+10:00",
            "2019-04-25T14:00:00+10:00",
            "2019-05-02T14:00:00+10:00",
            "2019-05-09T14:00:00+10:00",
            "2019-05-16T14:00:00+10:00",
        ],
        rrule_result.get_all_iter_dates_iso8601("", "").unwrap()
    )
}

#[test]
fn test_weekly_rrules_2() {
    let rrule_result =
        convert_to_rrule("FREQ=WEEKLY;INTERVAL=1;COUNT=3;BYDAY=MO;BYHOUR=22;BYMINUTE=0;BYSECOND=30;DTSTART=20190415T031500")
            .unwrap();
    assert_eq!(
        vec![
            "2019-04-15T22:00:30+00:00",
            "2019-04-22T22:00:30+00:00",
            "2019-04-29T22:00:30+00:00",
        ],
        rrule_result.get_all_iter_dates_iso8601("", "").unwrap()
    )
}

#[test]
fn test_weekly_rrules_3() {
    let rrule_result =
        convert_to_rrule("FREQ=WEEKLY;INTERVAL=1;COUNT=4;BYDAY=WE;BYHOUR=14;BYMINUTE=55;BYSECOND=0;TZID=Australia/Sydney;DTSTART=20190411T000000")
            .unwrap();
    assert_eq!(
        vec![
            "2019-04-17T14:55:00+10:00",
            "2019-04-24T14:55:00+10:00",
            "2019-05-01T14:55:00+10:00",
            "2019-05-08T14:55:00+10:00",
        ],
        rrule_result.get_all_iter_dates_iso8601("", "").unwrap()
    )
}

#[test]
fn test_weekly_rrules_4() {
    let rrule_result =
        convert_to_rrule("FREQ=WEEKLY;INTERVAL=1;COUNT=3;BYDAY=TU;BYHOUR=23;BYMINUTE=54;BYSECOND=0;TZID=Australia/Melbourne;DTSTART=20190410T034500")
            .unwrap();
    assert_eq!(
        vec![
            "2019-04-16T23:54:00+10:00",
            "2019-04-23T23:54:00+10:00",
            "2019-04-30T23:54:00+10:00",
        ],
        rrule_result.get_all_iter_dates_iso8601("", "").unwrap()
    )
}

#[test]
fn test_fortnightly_rrules_1() {
    let rrule_result = convert_to_rrule("FREQ=WEEKLY;INTERVAL=2;BYHOUR=0;BYSECOND=48;TZID=Australia/West;DTSTART=20190101T031500").unwrap();
    let iter_dates = rrule_result.get_all_iter_dates("", "").unwrap();
    for date in iter_dates.iter() {
        assert_eq!(2, weekday_of(&date.civil));
        assert_eq!(00, date.civil.hour);
        assert_eq!(15, date.civil.minute);
        assert_eq!(48, date.civil.second);
    }
}

#[test]
fn test_fortnightly_rules_2() {
    let rrule_result = convert_to_rrule("FREQ=WEEKLY;INTERVAL=2;BYHOUR=17;BYMINUTE=0;TZID=Australia/Sydney;DTSTART=20181122T000003").unwrap();
    let iter_dates = rrule_result.get_all_iter_dates("", "").unwrap();
    for date in iter_dates.iter() {
        println!("Checking for date {:?}", date);
        assert_eq!(4, weekday_of(&date.civil));
        assert_eq!(17, date.civil.hour);
        assert_eq!(00, date.civil.minute);
        assert_eq!(03, date.civil.second);
    }
}

#[test]
fn test_fortnightly_rules_3() {
    let rrule_result = convert_to_rrule("FREQ=WEEKLY;INTERVAL=2;BYHOUR=17;BYMINUTE=0;TZID=Australia/Sydney;DTSTART=20181122T000003").unwrap();
    let iter_dates = rrule_result.get_all_iter_dates("", "").unwrap();
    for date in iter_dates.iter() {
        println!("Checking for date {:?}", date);
        assert_eq!(4, weekday_of(&date.civil));
        assert_eq!(17, date.civil.hour);
        assert_eq!(00, date.civil.minute);
        assert_eq!(03, date.civil.second);
    }
}

#[test]
fn test_fortnightly_rrules_3() {
    let rrule_result =
        convert_to_rrule("FREQ=WEEKLY;INTERVAL=2;COUNT=5;BYHOUR=10;BYMINUTE=30;BYSECOND=0;TZID=Australia/Sydney;DTSTART=20190411T000000")
            .unwrap();
    assert_eq!(
        vec![
            "2019-04-11T10:30:00+10:00",
            "2019-04-25T10:30:00+10:00",
            "2019-05-09T10:30:00+10:00",
            "2019-05-23T10:30:00+10:00",
            "2019-06-06T10:30:00+10:00",
        ],
        rrule_result.get_all_iter_dates_iso8601("", "").unwrap()
    )
}

#[test]
fn test_monthly_rrule_1() {
    let rrule_result = convert_to_rrule("FREQ=MONTHLY;INTERVAL=1;COUNT=1;BYHOUR=9;BYMINUTE=1;BYMONTHDAY=28;DTSTART=20190315T011213;TZID=UTC").unwrap();
    assert_eq!(
        vec!["2019-03-28T09:01:13+00:00".to_owned()],
        rrule_result.get_all_iter_dates_iso8601("", "").unwrap()
    )
}

#[test]
fn test_monthly_rrule_2() {
    let rrule_result = convert_to_rrule("FREQ=MONTHLY;INTERVAL=1;COUNT=2;BYMONTHDAY=28;DTSTART=20190402T011213;TZID=Australia/Melbourne").unwrap();
    assert_eq!(
        vec![
            "2019-04-28T12:12:13+10:00".to_owned(),
            "2019-05-28T12:12:13+10:00".to_owned()
        ],
        rrule_result.get_all_iter_dates_iso8601("", "").unwrap()
    )
}

#[test]
fn test_monthly_rrule_3() {
    let rrule_result = convert_to_rrule("FREQ=MONTHLY;INTERVAL=1;COUNT=12;BYMONTH=6;DTSTART=20190402T011213;TZID=Australia/Melbourne").unwrap();
    assert_eq!(
        vec![
            "2019-06-02T12:12:13+10:00".to_owned(),
            "2020-06-02T12:12:13+10:00".to_owned(),
            "2021-06-02T12:12:13+10:00".to_owned(),
            "2022-06-02T12:12:13+10:00".to_owned(),
            "2023-06-02T12:12:13+10:00".to_owned(),
            "2024-06-02T12:12:13+10:00".to_owned(),
            "2025-06-02T12:12:13+10:00".to_owned(),
            "2026-06-02T12:12:13+10:00".to_owned(),
            "2027-06-02T12:12:13+10:00".to_owned(),
            "2028-06-02T12:12:13+10:00".to_owned(),
            "2029-06-02T12:12:13+10:00".to_owned(),
            "2030-06-02T12:12:13+10:00".to_owned()
        ],
        rrule_result.get_all_iter_dates_iso8601("", "").unwrap()
    )
}

#[test]
fn test_monthly_rrule_4() {
    let rrule_result = convert_to_rrule("FREQ=MONTHLY;INTERVAL=1;COUNT=12;BYMONTH=11;BYMONTHDAY=12;DTSTART=20190402T011213;TZID=Australia/Sydney").unwrap();
    assert_eq!(
        vec![
            "2019-11-12T12:12:13+11:00".to_owned(),
            "2020-11-12T12:12:13+11:00".to_owned(),
            "2021-11-12T12:12:13+11:00".to_owned(),
            "2022-11-12T12:12:13+11:00".to_owned(),
            "2023-11-12T12:12:13+11:00".to_owned(),
            "2024-11-12T12:12:13+11:00".to_owned(),
            "2025-11-12T12:12:13+11:00".to_owned(),
            "2026-11-12T12:12:13+11:00".to_owned(),
            "2027-11-12T12:12:13+11:00".to_owned(),
            "2028-11-12T12:12:13+11:00".to_owned(),
            "2029-11-12T12:12:13+11:00".to_owned(),
            "2030-11-12T12:12:13+11:00".to_owned()
        ],
        rrule_result.get_all_iter_dates_iso8601("", "").unwrap()
    )
}

#[test]
fn test_monthly_rrule_5() {
    let rrule_result = convert_to_rrule("FREQ=MONTHLY;INTERVAL=1;COUNT=1;BYMONTHDAY=12").unwrap();
    let test_start_date = utc(2019, 4, 13, 1, 12, 13);
    let expected_next_date = utc(2019, 5, 12, 1, 12, 13);
    assert_eq!(
        expected_next_date,
        rrule_result.get_next_date(test_start_date).unwrap()
    )
}

#[test]
fn test_monthly_rrule_by_month_day_edge_cases() {
    let rrule_result =
        convert_to_rrule("FREQ=MONTHLY;INTERVAL=1;COUNT=1;BYMONTHDAY=12;BYHOUR=17").unwrap();
    let cases = vec![
        (utc(2019, 4, 12, 1, 12, 13), utc(2019, 4, 12, 17, 12, 13)),
        (utc(2019, 4, 12, 18, 12, 13), utc(2019, 5, 12, 17, 12, 13)),
        (utc(2019, 4, 12, 17, 12, 13), utc(2019, 5, 12, 17, 12, 13)),
    ];

    for case in cases {
        assert_eq!(case.1, rrule_result.get_next_date(case.0).unwrap())
    }
}

#[test]
fn test_monthly_rrule_by_month_edge_cases() {
    let rrule_result =
        convert_to_rrule("FREQ=MONTHLY;INTERVAL=1;COUNT=1;BYMONTH=4;BYMONTHDAY=13;BYHOUR=17")
            .unwrap();
    let cases = vec![
        (utc(2019, 4, 12, 17, 13, 13), utc(2019, 4, 13, 17, 13, 13)),
        (utc(2019, 4, 13, 17, 13, 13), utc(2020, 4, 13, 17, 13, 13)),
        (utc(2019, 4, 13, 18, 13, 13), utc(2020, 4, 13, 17, 13, 13)),
    ];

    for case in cases {
        assert_eq!(case.1, rrule_result.get_next_date(case.0).unwrap())
    }
}

#[test]
fn we_support_yearly_rules_properly() {
    let rrule_result = convert_to_rrule("FREQ=YEARLY;COUNT=2;INTERVAL=1").unwrap();
    let test_start_date = utc(2019, 3, 15, 1, 12, 13);
    assert_eq!(
        utc(2020, 3, 15, 1, 12, 13),
        rrule_result.get_next_date(test_start_date).unwrap()
    )
}
