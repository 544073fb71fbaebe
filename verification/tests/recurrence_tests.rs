use recurrence::date::Date;
use recurrence::rule::{weekday_of, RecurrenceFreq, RecurrenceLimit, RecurrenceRule, Weekday};

#[test]
fn calc_recurrences_weekly_indefinite() {
    let start_date = Date::new(2020, 1, 1);

    let rule = RecurrenceRule {
        frequency: RecurrenceFreq::Weekly,
        limit: RecurrenceLimit::Indefinite,
        by_day: Some(vec![weekday_of(&start_date)]),
        ..RecurrenceRule::default()
    };

    let result = rule
        .calculate_instances(start_date, Date::new(2020, 2, 1), Date::new(2020, 1, 1))
        .unwrap();

    let expected = [
        Date::new(2020, 1, 1),
        Date::new(2020, 1, 8),
        Date::new(2020, 1, 15),
        Date::new(2020, 1, 22),
        Date::new(2020, 1, 29),
    ];

    assert_eq!(result, expected);
}

#[test]
fn calc_recurrences_weekly_w_date_limit() {
    let start_date = Date::new(2020, 1, 1);

    let rule = RecurrenceRule {
        frequency: RecurrenceFreq::Weekly,
        limit: RecurrenceLimit::Date(Date::new(2020, 1, 15)),
        by_day: Some(vec![weekday_of(&start_date)]),
        ..RecurrenceRule::default()
    };

    let result = rule
        .calculate_instances(start_date, Date::new(2020, 2, 1), Date::new(2020, 1, 1))
        .unwrap();

    let expected = [
        Date::new(2020, 1, 1),
        Date::new(2020, 1, 8),
        Date::new(2020, 1, 15),
    ];

    assert_eq!(result, expected);
}

#[test]
fn calc_recurrences_weekly_w_count_limit() {
    let start_date = Date::new(2020, 1, 1);

    let rule = RecurrenceRule {
        frequency: RecurrenceFreq::Weekly,
        limit: RecurrenceLimit::Count(4),
        by_day: Some(vec![weekday_of(&start_date)]),
        ..RecurrenceRule::default()
    };

    let result = rule
        .calculate_instances(start_date, Date::new(2020, 2, 1), Date::new(2020, 1, 1))
        .unwrap();

    let expected = [
        Date::new(2020, 1, 1),
        Date::new(2020, 1, 8),
        Date::new(2020, 1, 15),
        Date::new(2020, 1, 22),
    ];

    assert_eq!(result, expected);
}

#[test]
fn calc_recurrences_every_two_weeks() {
    let start_date = Date::new(2020, 1, 1);

    let rule = RecurrenceRule {
        frequency: RecurrenceFreq::Weekly,
        interval: 2,
        by_day: Some(vec![weekday_of(&start_date)]),
        ..RecurrenceRule::default()
    };

    let result = rule
        .calculate_instances(start_date, Date::new(2020, 2, 1), Date::new(2020, 1, 1))
        .unwrap();

    let expected = [
        Date::new(2020, 1, 1),
        Date::new(2020, 1, 15),
        Date::new(2020, 1, 29),
    ];

    assert_eq!(result, expected);
}

#[test]
fn infer_by_day() {
    let start_date = Date::new(2020, 9, 26);
    let rule = RecurrenceRule::new("FREQ=WEEKLY").unwrap().infer_stuff(start_date);

    assert_eq!(rule.by_day, Some(vec![Weekday::Sat]));
}

#[test]
fn infer_by_month_day() {
    let start_date = Date::new(2020, 9, 26);
    let rule = RecurrenceRule::new("FREQ=MONTHLY").unwrap().infer_stuff(start_date);

    assert_eq!(rule.by_month_day, Some(vec![26]));
}

#[test]
fn yearly_infer_by_month_day() {
    let start_date = Date::new(2020, 9, 26);
    let rule = RecurrenceRule::new("FREQ=YEARLY;BYMONTH=2").unwrap().infer_stuff(start_date);

    assert_eq!(rule.by_month_day, Some(vec![26]));
}

#[test]
fn yearly_infer_by_day() {
    let start_date = Date::new(2020, 9, 26);
    let rule = RecurrenceRule::new("FREQ=YEARLY;BYWEEKNO=2,4,6").unwrap().infer_stuff(start_date);

    assert_eq!(rule.by_day, Some(vec![Weekday::Sat]));
}

#[test]
fn yearly_infer_by_year_day() {
    let start_date = Date::new(2020, 9, 26);
    let rule = RecurrenceRule::new("FREQ=YEARLY").unwrap().infer_stuff(start_date);

    assert_eq!(rule.by_year_day, Some(vec![recurrence::date::year_day(&start_date) as i32]));
}

#[test]
fn mod_calc_recurrences_weekly_indefinite() {
    let start_date = Date::new(2020, 1, 1);

    let rule = RecurrenceRule {
        frequency: RecurrenceFreq::Weekly,
        limit: RecurrenceLimit::Indefinite,
        by_day: Some(vec![weekday_of(&start_date)]),
        ..RecurrenceRule::default()
    };

    let result = rule
        .calculate_instances(start_date, Date::new(2020, 2, 1), Date::new(2020, 1, 1))
        .unwrap();

    let expected = [
        Date::new(2020, 1, 1),
        Date::new(2020, 1, 8),
        Date::new(2020, 1, 15),
        Date::new(2020, 1, 22),
        Date::new(2020, 1, 29),
    ];

    assert_eq!(result, expected);
}

#[test]
fn mod_calc_recurrences_weekly_w_date_limit() {
    let start_date = Date::new(2020, 1, 1);

    let rule = RecurrenceRule {
        frequency: RecurrenceFreq::Weekly,
        limit: RecurrenceLimit::Date(Date::new(2020, 1, 15)),
        by_day: Some(vec![weekday_of(&start_date)]),
        ..RecurrenceRule::default()
    };

    let result = rule
        .calculate_instances(start_date, Date::new(2020, 2, 1), Date::new(2020, 1, 1))
        .unwrap();

    let expected = [
        Date::new(2020, 1, 1),
        Date::new(2020, 1, 8),
        Date::new(2020, 1, 15),
    ];

    assert_eq!(result, expected);
}

#[test]
fn mod_calc_recurrences_weekly_w_count_limit() {
    let start_date = Date::new(2020, 1, 1);

    let rule = RecurrenceRule {
        frequency: RecurrenceFreq::Weekly,
        limit: RecurrenceLimit::Count(4),
        by_day: Some(vec![weekday_of(&start_date)]),
        ..RecurrenceRule::default()
    };

    let result = rule
        .calculate_instances(start_date, Date::new(2020, 2, 1), Date::new(2020, 1, 1))
        .unwrap();

    let expected = [
        Date::new(2020, 1, 1),
        Date::new(2020, 1, 8),
        Date::new(2020, 1, 15),
        Date::new(2020, 1, 22),
    ];

    assert_eq!(result, expected);
}

#[test]
fn mod_calc_recurrences_every_two_weeks() {
    let start_date = Date::new(2020, 1, 1);

    let rule = RecurrenceRule {
        frequency: RecurrenceFreq::Weekly,
        interval: 2,
        by_day: Some(vec![weekday_of(&start_date)]),
        ..RecurrenceRule::default()
    };

    let result = rule
        .calculate_instances(start_date, Date::new(2020, 2, 1), Date::new(2020, 1, 1))
        .unwrap();

    let expected = [
        Date::new(2020, 1, 1),
        Date::new(2020, 1, 15),
        Date::new(2020, 1, 29),
    ];

    assert_eq!(result, expected);
}

#[test]
fn mod_infer_by_day() {
    let start_date = Date::new(2020, 9, 26);
    let rule = RecurrenceRule::new("FREQ=WEEKLY").unwrap().infer_stuff(start_date);

    assert_eq!(rule.by_day, Some(vec![Weekday::Sat]));
}

#[test]
fn mod_infer_by_month_day() {
    let start_date = Date::new(2020, 9, 26);
    let rule = RecurrenceRule::new("FREQ=MONTHLY").unwrap().infer_stuff(start_date);

    assert_eq!(rule.by_month_day, Some(vec![26]));
}

#[test]
fn mod_yearly_infer_by_month_day() {
    let start_date = Date::new(2020, 9, 26);
    let rule = RecurrenceRule::new("FREQ=YEARLY;BYMONTH=2").unwrap().infer_stuff(start_date);

    assert_eq!(rule.by_month_day, Some(vec![26]));
}

#[test]
fn mod_yearly_infer_by_day() {
    let start_date = Date::new(2020, 9, 26);
    let rule = RecurrenceRule::new("FREQ=YEARLY;BYWEEKNO=2,4,6").unwrap().infer_stuff(start_date);

    assert_eq!(rule.by_day, Some(vec![Weekday::Sat]));
}

#[test]
fn mod_yearly_infer_by_year_day() {
    let start_date = Date::new(2020, 9, 26);
    let rule = RecurrenceRule::new("FREQ=YEARLY").unwrap().infer_stuff(start_date);

    assert_eq!(rule.by_year_day, Some(vec![recurrence::date::year_day(&start_date) as i32]));
}

#[test]
fn year_day() {
    assert_eq!(recurrence::date::year_day(&Date::new(2020, 2, 15)), 46);
    assert_eq!(recurrence::date::year_day(&Date::new(2020, 4, 4)), 95);
    assert_eq!(recurrence::date::year_day(&Date::new(2020, 12, 31)), 366);
    assert_eq!(recurrence::date::year_day(&Date::new(2019, 12, 31)), 365);
    assert_eq!(recurrence::date::year_day(&Date::new(2021, 7, 30)), 211);
}
