use recurrence::date::Date;
use recurrence::recurrence_parser::{parse, RRuleParseError};
use recurrence::rule::{RecurrenceFreq, RecurrenceLimit, RecurrenceRule, Weekday};

#[test]
fn parse_freq() {
    let result = parse("FREQ=WEEKLY").unwrap();

    assert_eq!(
        result,
        RecurrenceRule {
            frequency: RecurrenceFreq::Weekly,
            limit: RecurrenceLimit::Indefinite,
            ..RecurrenceRule::default()
        }
    );
}

#[test]
fn parse_count() {
    let result = parse("FREQ=WEEKLY;COUNT=10").unwrap();

    assert_eq!(
        result,
        RecurrenceRule {
            frequency: RecurrenceFreq::Weekly,
            limit: RecurrenceLimit::Count(10),
            ..RecurrenceRule::default()
        }
    );
}

#[test]
fn parse_until() {
    let result = parse("FREQ=WEEKLY;UNTIL=20200101").unwrap();

    assert_eq!(
        result,
        RecurrenceRule {
            frequency: RecurrenceFreq::Weekly,
            limit: RecurrenceLimit::Date(Date::new(2020, 1, 1)),
            ..RecurrenceRule::default()
        }
    );
}

#[test]
fn parse_by_month() {
    let result = parse("FREQ=WEEKLY;BYMONTH=1,4,6").unwrap();

    assert_eq!(
        result,
        RecurrenceRule {
            frequency: RecurrenceFreq::Weekly,
            by_month: Some(vec![1, 4, 6]),
            ..RecurrenceRule::default()
        }
    );
}

#[test]
fn parse_by_month_day() {
    let result = parse("FREQ=MONTHLY;BYMONTHDAY=1,4,6,31,-1,9").unwrap();

    assert_eq!(
        result,
        RecurrenceRule {
            frequency: RecurrenceFreq::Monthly,
            by_month_day: Some(vec![1, 4, 6, 31, -1, 9]),
            ..RecurrenceRule::default()
        }
    );
}

#[test]
fn parse_by_day() {
    let result = parse("FREQ=MONTHLY;BYDAY=MO,TU,WE,SA").unwrap();

    assert_eq!(
        result,
        RecurrenceRule {
            frequency: RecurrenceFreq::Monthly,
            by_day: Some(vec![Weekday::Mon, Weekday::Tue, Weekday::Wed, Weekday::Sat]),
            ..RecurrenceRule::default()
        }
    );
}

#[test]
fn parse_by_week_no() {
    let result = parse("FREQ=YEARLY;BYWEEKNO=-30,15,2").unwrap();

    assert_eq!(
        result,
        RecurrenceRule {
            frequency: RecurrenceFreq::Yearly,
            by_week_no: Some(vec![-30, 15, 2]),
            ..RecurrenceRule::default()
        }
    );
}

#[test]
fn parse_by_year_day() {
    let result = parse("FREQ=YEARLY;BYYEARDAY=-54,344,25").unwrap();

    assert_eq!(
        result,
        RecurrenceRule {
            frequency: RecurrenceFreq::Yearly,
            by_year_day: Some(vec![-54, 344, 25]),
            ..RecurrenceRule::default()
        }
    );
}

#[test]
fn parse_by_set_pos() {
    let result = parse("FREQ=MONTHLY;BYDAY=SA;BYSETPOS=-1,3,4").unwrap();

    assert_eq!(
        result,
        RecurrenceRule {
            frequency: RecurrenceFreq::Monthly,
            by_day: Some(vec![Weekday::Sat]),
            by_set_pos: Some(vec![-1, 3, 4]),
            ..RecurrenceRule::default()
        }
    );
}

#[test]
fn rejects_by_year_day_coexisting_with_daily() {
    let err = parse("FREQ=DAILY;BYYEARDAY=5").unwrap_err();
    match err {
        RRuleParseError::CannotCoexist(a, _) => assert_eq!(a, "BYYEARDAY"),
        other => panic!("unexpected error {:?}", other),
    }
}

#[test]
fn rejects_by_month_day_coexisting_with_weekly() {
    let err = parse("FREQ=WEEKLY;BYMONTHDAY=1").unwrap_err();
    match err {
        RRuleParseError::CannotCoexist(a, _) => assert_eq!(a, "BYMONTHDAY"),
        other => panic!("unexpected error {:?}", other),
    }
}

#[test]
fn rejects_by_week_no_without_yearly() {
    let err = parse("FREQ=MONTHLY;BYWEEKNO=1").unwrap_err();
    match err {
        RRuleParseError::Requires(a, b) => {
            assert_eq!(a, "BYWEEKNO");
            assert_eq!(b, "FREQ=YEARLY");
        },
        other => panic!("unexpected error {:?}", other),
    }
}

#[test]
fn rejects_by_set_pos_alone() {
    let err = parse("FREQ=WEEKLY;BYSETPOS=1").unwrap_err();
    match err {
        RRuleParseError::Requires(a, _) => assert_eq!(a, "BYSETPOS"),
        other => panic!("unexpected error {:?}", other),
    }
}

#[test]
fn rejects_until_together_with_count() {
    let err = parse("FREQ=WEEKLY;UNTIL=20200101;COUNT=5").unwrap_err();
    match err {
        RRuleParseError::DuplicateProperty(a) => assert_eq!(a, "UNTIL and COUNT"),
        other => panic!("unexpected error {:?}", other),
    }
}

#[test]
fn rejects_missing_freq() {
    let err = parse("COUNT=5").unwrap_err();
    match err {
        RRuleParseError::MissingRequiredProperty(a) => assert_eq!(a, "FREQ"),
        other => panic!("unexpected error {:?}", other),
    }
}

#[test]
fn rejects_invalid_interval() {
    let err = parse("FREQ=DAILY;INTERVAL=0").unwrap_err();
    match err {
        RRuleParseError::InvalidValue(a) => assert_eq!(a, "INTERVAL"),
        other => panic!("unexpected error {:?}", other),
    }
}

#[test]
fn rejects_token_without_separator() {
    let err = parse("FREQ").unwrap_err();
    match err {
        RRuleParseError::InvalidProperty(a) => assert_eq!(a, "FREQ"),
        other => panic!("unexpected error {:?}", other),
    }
}

#[test]
fn rejects_invalid_until() {
    let err = parse("FREQ=DAILY;UNTIL=2020011").unwrap_err();
    match err {
        RRuleParseError::InvalidValue(a) => assert_eq!(a, "UNTIL"),
        other => panic!("unexpected error {:?}", other),
    }
}

#[test]
fn format_round_trips_through_parse() {
    let texts = [
        "FREQ=WEEKLY",
        "FREQ=WEEKLY;INTERVAL=2",
        "FREQ=YEARLY;BYYEARDAY=-54,344,25",
        "FREQ=MONTHLY;BYDAY=SA;BYSETPOS=-1,3,4",
        "FREQ=YEARLY;BYWEEKNO=-30,15,2;BYMONTH=1,4,6",
        "FREQ=WEEKLY;UNTIL=20200115",
        "FREQ=WEEKLY;COUNT=4",
    ];
    for text in texts.iter() {
        let rule = parse(text).unwrap();
        let printed = rule.to_string();
        let reparsed = parse(&printed).unwrap();
        assert_eq!(reparsed, rule);
    }
}

#[test]
fn format_is_canonical() {
    let rule = parse("FREQ=WEEKLY;COUNT=4;INTERVAL=2").unwrap();
    assert_eq!(rule.to_string(), "FREQ=WEEKLY;INTERVAL=2;COUNT=4");

    let rule = parse("FREQ=YEARLY;UNTIL=20200115;BYYEARDAY=-5,20").unwrap();
    assert_eq!(rule.to_string(), "FREQ=YEARLY;BYYEARDAY=-5,20;UNTIL=20200115");
}
