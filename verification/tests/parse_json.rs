use sundial::convert_to_rrule;
use sundial::json::rrule_from_json;
use sundial::rule::{RRule, RuleParseError};
use sundial::validate_rrule;

fn s(x: &str) -> String {
    x.to_string()
}

fn v(xs: &[&str]) -> Vec<String> {
    xs.iter().map(|x| x.to_string()).collect()
}

fn generate_rrule_from_json(json: &str) -> Result<RRule, RuleParseError> {
    let rrule = rrule_from_json(json).unwrap();
    match validate_rrule(&rrule) {
        Ok(()) => Ok(rrule),
        Err(_) => Err(RuleParseError),
    }
}

struct RRuleTestCase<'a> {
    rrule_string: &'a str,
    expected_flat_json: &'a str,
}

#[test]
fn test_we_can_parse_to_proper_json() {
    let rrule_test_cases: Vec<RRuleTestCase> = vec![
        RRuleTestCase {
            rrule_string: "FREQ=DAILY",
            expected_flat_json: r#"{"frequency":"DAILY"}"#,
        },
        RRuleTestCase {
            rrule_string: "FREQ=MONTHLY;INTERVAL=1;BYHOUR=9;BYMINUTE=1;BYMONTHDAY=15,27",
            expected_flat_json: r#"{"frequency":"MONTHLY","interval":"1","byHour":["9"],"byMinute":["1"],"byMonthDay":["15","27"]}"#,
        },
        RRuleTestCase {
            rrule_string: "FREQ=DAILY;BYHOUR=1,3",
            expected_flat_json: r#"{"frequency":"DAILY","byHour":["1","3"]}"#,
        },
        RRuleTestCase {
            rrule_string: "FREQ=DAILY;BYHOUR=1,3",
            expected_flat_json: r#"{"frequency":"DAILY","byHour":["1","3"]}"#,
        },
        RRuleTestCase {
            rrule_string: "FREQ=WEEKLY;INTERVAL=1;BYHOUR=17;BYMINUTE=30;BYDAY=SU",
            expected_flat_json: r#"{"frequency":"WEEKLY","interval":"1","byHour":["17"],"byMinute":["30"],"byDay":["SU"]}"#,
        },
        RRuleTestCase {
            rrule_string: "FREQ=WEEKLY;INTERVAL=1;BYHOUR=17;BYMINUTE=30;BYDAY=SU",
            expected_flat_json: r#"{"frequency":"WEEKLY","interval":"1","byHour":["17"],"byMinute":["30"],"byDay":["SU"]}"#,
        },
        RRuleTestCase {
            rrule_string: "FREQ=WEEKLY;INTERVAL=1;BYHOUR=8,12;BYMINUTE=30,45;BYDAY=TU,SU",
            expected_flat_json: r#"{"frequency":"WEEKLY","interval":"1","byHour":["8","12"],"byMinute":["30","45"],"byDay":["TU","SU"]}"#,
        },
        RRuleTestCase {
            rrule_string: "INTERVAL=1;BYHOUR=8,12;BYMINUTE=30,45;BYDAY=TU,SU;FREQ=FORTNIGHTLY",
            expected_flat_json: r#"{"frequency":"FORTNIGHTLY","interval":"1","byHour":["8","12"],"byMinute":["30","45"],"byDay":["TU","SU"]}"#,
        },
        RRuleTestCase {
            rrule_string: "DTSTART;TZID=Australia/Sydney:19970714T133000;FREQ=WEEKLY;INTERVAL=1;BYHOUR=8,12;BYMINUTE=30,45;BYDAY=TU,SU",
            expected_flat_json: r#"{"dtstart":"1997-07-14 13:30:00 AEST","frequency":"WEEKLY","interval":"1","byHour":["8","12"],"byMinute":["30","45"],"byDay":["TU","SU"]}"#,
        },
        RRuleTestCase {
            rrule_string: "DTSTART;TZID=Europe/London:19970714T133000;FREQ=WEEKLY;INTERVAL=1;BYHOUR=8,12;BYMINUTE=30,45;BYDAY=TU,SU",
            expected_flat_json: r#"{"dtstart":"1997-07-14 13:30:00 BST","frequency":"WEEKLY","interval":"1","byHour":["8","12"],"byMinute":["30","45"],"byDay":["TU","SU"]}"#,
        },
        RRuleTestCase {
            rrule_string: "DTSTART=19970714T133000;FREQ=WEEKLY;INTERVAL=1;BYHOUR=8,12;BYMINUTE=30,45;BYDAY=TU,SU",
            expected_flat_json: r#"{"dtstart":"1997-07-14 13:30:00","frequency":"WEEKLY","interval":"1","byHour":["8","12"],"byMinute":["30","45"],"byDay":["TU","SU"]}"#,
        },
        RRuleTestCase {
            rrule_string: "DTSTART=19970714T133000Z;FREQ=WEEKLY;INTERVAL=1;BYHOUR=8,12;BYMINUTE=30,45;BYDAY=TU,SU",
            expected_flat_json: r#"{"dtstart":"1997-07-14 13:30:00","frequency":"WEEKLY","interval":"1","byHour":["8","12"],"byMinute":["30","45"],"byDay":["TU","SU"]}"#,
        },
        RRuleTestCase {
            rrule_string: "DTSTART=19970714T133000Z;FREQ=WEEKLY;INTERVAL=1;BYHOUR=8,12;BYMINUTE=30,45;BYDAY=TU,SU;TZID=Australia/Perth",
            expected_flat_json: r#"{"tzid":"Australia/Perth","dtstart":"1997-07-14 13:30:00","frequency":"WEEKLY","interval":"1","byHour":["8","12"],"byMinute":["30","45"],"byDay":["TU","SU"]}"#,
        },
        RRuleTestCase {
            rrule_string: "FREQ=WEEKLY;INTERVAL=1;BYHOUR=8,12;BYMINUTE=30,45;BYDAY=TU,SU;TZID=Australia/Perth;DTSTART=19970714T133000Z",
            expected_flat_json: r#"{"tzid":"Australia/Perth","dtstart":"1997-07-14 13:30:00","frequency":"WEEKLY","interval":"1","byHour":["8","12"],"byMinute":["30","45"],"byDay":["TU","SU"]}"#,
        },
        RRuleTestCase {
            rrule_string: "FREQ=WEEKLY;INTERVAL=1;BYHOUR=8,12;BYMINUTE=30,45;BYDAY=TU,SU;TZID=Australia/Perth;DTSTART=19970714T133000",
            expected_flat_json: r#"{"tzid":"Australia/Perth","dtstart":"1997-07-14 13:30:00","frequency":"WEEKLY","interval":"1","byHour":["8","12"],"byMinute":["30","45"],"byDay":["TU","SU"]}"#,
        },
        RRuleTestCase {
            rrule_string: "FREQ=WEEKLY;INTERVAL=1;BYHOUR=8,12;BYMINUTE=30,45;UNTIL=20190422T133500;BYDAY=TU,SU;TZID=Australia/Perth;DTSTART=19970714T133000",
            expected_flat_json: r#"{"tzid":"Australia/Perth","dtstart":"1997-07-14 13:30:00","until":"2019-04-22 13:35:00","frequency":"WEEKLY","interval":"1","byHour":["8","12"],"byMinute":["30","45"],"byDay":["TU","SU"]}"#,
        },
        RRuleTestCase {
            rrule_string: "FREQ=WEEKLY;INTERVAL=1;BYHOUR=8,12;BYMINUTE=30,45;BYDAY=TU,SU;TZID=Australia/Perth;DTSTART=19970714T133000;UNTIL=21330422T133500Z",
            expected_flat_json: r#"{"tzid":"Australia/Perth","dtstart":"1997-07-14 13:30:00","until":"2133-04-22 13:35:00","frequency":"WEEKLY","interval":"1","byHour":["8","12"],"byMinute":["30","45"],"byDay":["TU","SU"]}"#,
        },
    ];

    for i in &rrule_test_cases {
        let rrule_result = convert_to_rrule(i.rrule_string).unwrap();
        assert_eq!(i.expected_flat_json, rrule_result.to_json())
    }
}

#[test]
fn test_by_hour_validation_works() {
    let rrule = RRule::new_rrule(
        s("Australia/Perth"),
        s("1997-07-14 13:30:00"),
        s("2133-04-22 13:35:00"),
        s("WEEKLY"),
        s(""),
        s("1"),
        s(""),
        Vec::new(),
        v(&["8", "28"]),
        v(&["30", "45"]),
        Vec::new(),
        v(&["TU", "SU"]),
        Vec::new(),
        Vec::new(),
    );
    assert!(validate_rrule(&rrule).is_err());
}

#[test]
fn test_by_minute_validation_works() {
    let rrule = RRule::new_rrule(
        s("Australia/Perth"),
        s("1997-07-14 13:30:00"),
        s("2133-04-22 13:35:00"),
        s("WEEKLY"),
        s(""),
        s("1"),
        s(""),
        Vec::new(),
        v(&["8", "23"]),
        v(&["30", "90"]),
        Vec::new(),
        v(&["TU", "SU"]),
        Vec::new(),
        Vec::new(),
    );
    assert!(validate_rrule(&rrule).is_err());
}

#[test]
fn test_by_monthday_validation_works() {
    let rrule = RRule::new_rrule(
        s("Australia/Perth"),
        s("1997-07-14 13:30:00"),
        s("2133-04-22 13:35:00"),
        s("WEEKLY"),
        s(""),
        s("1"),
        s(""),
        Vec::new(),
        v(&["8", "23"]),
        v(&["30", "50"]),
        Vec::new(),
        v(&["TU", "SU"]),
        v(&["32"]),
        Vec::new(),
    );
    assert!(validate_rrule(&rrule).is_err());
}

#[test]
fn test_tzid_validation_works() {
    let rrule = RRule::new_rrule(
        s("Gondwana/BigContinent"),
        s("1997-07-14 13:30:00"),
        s("2133-04-22 13:35:00"),
        s("WEEKLY"),
        s(""),
        s("1"),
        s(""),
        Vec::new(),
        v(&["8", "12"]),
        v(&["30", "33"]),
        Vec::new(),
        v(&["TU", "SU"]),
        v(&["22"]),
        Vec::new(),
    );
    assert!(validate_rrule(&rrule).is_err());
}

#[test]
fn we_can_deserialize_rrule_json_succesfully_1() {
    let rrule_expected = convert_to_rrule("FREQ=YEARLY;COUNT=2;INTERVAL=1").unwrap();
    let rrule_1 = rrule_expected.to_json();
    let rrule_actual_1 = generate_rrule_from_json(rrule_1.as_ref()).unwrap();
    assert_eq!(rrule_actual_1, rrule_expected);
}

#[test]
fn we_can_deserialize_rrule_json_succesfully_2() {
    let rrule_expected =
        convert_to_rrule("FREQ=MONTHLY;COUNT=27;INTERVAL=1;BYHOUR=9;BYMINUTE=1;BYMONTHDAY=28,27")
            .unwrap();
    let rrule_1 = rrule_expected.to_json();
    let rrule_actual_1 = generate_rrule_from_json(rrule_1.as_ref()).unwrap();
    assert_eq!(rrule_actual_1, rrule_expected)
}

#[test]
fn json_round_trip_keeps_every_field() {
    let rrule = convert_to_rrule(
        "FREQ=WEEKLY;INTERVAL=2;COUNT=5;WKST=MO;BYHOUR=8,12;BYMINUTE=30;BYSECOND=0;BYDAY=TU,SU;BYMONTH=4;BYMONTHDAY=2;BYYEARDAY=40;TZID=Australia/Perth;DTSTART=19970714T133000;UNTIL=20190422T133500",
    )
    .unwrap();
    let text = rrule.to_json();
    let back = rrule_from_json(text.as_str()).unwrap();
    assert_eq!(back, rrule);
}

#[test]
fn pretty_json_lists_fields_on_indented_lines() {
    let rrule = convert_to_rrule("FREQ=DAILY;BYHOUR=1,3").unwrap();
    assert_eq!(
        "{\n  \"frequency\": \"DAILY\",\n  \"byHour\": [\n    \"1\",\n    \"3\"\n  ]\n}",
        rrule.to_json_pretty()
    );
}

#[test]
fn validation_message_lists_offending_values() {
    let rrule = RRule::new_rrule(
        s(""),
        s(""),
        s(""),
        s("WEEKLY"),
        s(""),
        s("1"),
        s(""),
        Vec::new(),
        v(&["8", "28"]),
        Vec::new(),
        Vec::new(),
        Vec::new(),
        Vec::new(),
        Vec::new(),
    );
    let err = validate_rrule(&rrule).unwrap_err();
    assert_eq!(
        "BYHOUR can only be in range 0-23 | Provided value [\"8\", \"28\"]",
        err.message().as_str()
    );
}

#[test]
fn malformed_rule_text_is_a_parse_error() {
    assert!(convert_to_rrule("FREQ=DAILY;DTSTART=2019T01").is_err());
    assert!(convert_to_rrule("UNTIL=notadate").is_err());
    assert!(convert_to_rrule("BYHOUR=99").is_err());
    assert!(convert_to_rrule("TZID=Nowhere/Atall").is_err());
}

#[test]
fn empty_json_object_reads_back_as_the_empty_rule() {
    let rule = rrule_from_json("{}").unwrap();
    assert_eq!(RRule::new(), rule);
    assert_eq!("{}", rule.to_json());
}

#[test]
fn malformed_json_is_rejected() {
    assert!(rrule_from_json("").is_err());
    assert!(rrule_from_json("{").is_err());
    assert!(rrule_from_json("{\"frequency\":\"DAILY\"").is_err());
    assert!(rrule_from_json("{\"colour\":\"blue\"}").is_err());
    assert!(rrule_from_json("{\"byHour\":[1,3]}").is_err());
    assert!(rrule_from_json("{ \"frequency\": \"DAILY\" }").is_err());
}
