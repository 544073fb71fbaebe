use recurrence::date::Date;
use recurrence::event::{EventDateSpan, EventRecurrence, EventRecurring, EventSpan};
use recurrence::instances::{EvalError, UnsupportedProp};
use recurrence::recurrence_parser::parse;

fn day_event(id: u128, start: Date, rrule: &str, exdates: Vec<Date>, rdates: Vec<Date>) -> EventRecurring {
    EventRecurring::new(
        id,
        EventSpan::Date(EventDateSpan { start, end: start }),
        EventRecurrence { rule: parse(rrule).unwrap(), exdates, rdates },
    )
}

fn instance_starts(event: &EventRecurring, from: Date, to: Date) -> Vec<Date> {
    event
        .generate_instances(Some(from), Some(to), 0, 1000)
        .unwrap()
        .iter()
        .map(|inst| inst.get_span().get_start_date())
        .collect()
}

#[test]
fn weekly_rule_scans_the_window() {
    let rule = parse("FREQ=WEEKLY").unwrap();
    let result = rule
        .calculate_instances(Date::new(2020, 1, 1), Date::new(2020, 2, 1), Date::new(2020, 1, 1))
        .unwrap();
    let expected = [
        Date::new(2020, 1, 1),
        Date::new(2020, 1, 8),
        Date::new(2020, 1, 15),
        Date::new(2020, 1, 22),
        Date::new(2020, 1, 29),
    ];
    assert_eq!(result, expected);
}

#[test]
fn weekly_rule_stops_at_until() {
    let rule = parse("FREQ=WEEKLY;UNTIL=20200115").unwrap();
    let result = rule
        .calculate_instances(Date::new(2020, 1, 1), Date::new(2020, 2, 1), Date::new(2020, 1, 1))
        .unwrap();
    let expected = [Date::new(2020, 1, 1), Date::new(2020, 1, 8), Date::new(2020, 1, 15)];
    assert_eq!(result, expected);
}

#[test]
fn weekly_rule_stops_at_count() {
    let rule = parse("FREQ=WEEKLY;COUNT=4").unwrap();
    let result = rule
        .calculate_instances(Date::new(2020, 1, 1), Date::new(2020, 2, 1), Date::new(2020, 1, 1))
        .unwrap();
    let expected = [
        Date::new(2020, 1, 1),
        Date::new(2020, 1, 8),
        Date::new(2020, 1, 15),
        Date::new(2020, 1, 22),
    ];
    assert_eq!(result, expected);
}

#[test]
fn weekly_rule_honours_interval() {
    let rule = parse("FREQ=WEEKLY;INTERVAL=2").unwrap();
    let result = rule
        .calculate_instances(Date::new(2020, 1, 1), Date::new(2020, 2, 1), Date::new(2020, 1, 1))
        .unwrap();
    let expected = [Date::new(2020, 1, 1), Date::new(2020, 1, 15), Date::new(2020, 1, 29)];
    assert_eq!(result, expected);
}

#[test]
fn yearly_rule_infers_the_ordinal_day() {
    let rule = parse("FREQ=YEARLY").unwrap().infer_stuff(Date::new(2020, 9, 26));
    assert_eq!(rule.by_year_day, Some(vec![270]));
}

#[test]
fn monthly_rule_infers_the_month_day() {
    let rule = parse("FREQ=MONTHLY").unwrap().infer_stuff(Date::new(2020, 9, 26));
    assert_eq!(rule.by_month_day, Some(vec![26]));
}

#[test]
fn count_zero_yields_nothing() {
    let rule = parse("FREQ=DAILY;COUNT=0").unwrap();
    let result = rule
        .calculate_instances(Date::new(2020, 1, 1), Date::new(2020, 2, 1), Date::new(2020, 1, 1))
        .unwrap();
    assert_eq!(result, Vec::<Date>::new());
}

#[test]
fn empty_window_yields_nothing() {
    let rule = parse("FREQ=DAILY").unwrap();
    let result = rule
        .calculate_instances(Date::new(2020, 2, 1), Date::new(2020, 1, 1), Date::new(2020, 1, 1))
        .unwrap();
    assert_eq!(result, Vec::<Date>::new());
}

#[test]
fn by_week_no_rule_is_refused() {
    let rule = parse("FREQ=YEARLY;BYWEEKNO=2").unwrap();
    let err = rule
        .calculate_instances(Date::new(2020, 1, 1), Date::new(2020, 2, 1), Date::new(2020, 1, 1))
        .unwrap_err();
    assert_eq!(err, EvalError::Unsupported(UnsupportedProp::ByWeekNo));
}

#[test]
fn by_set_pos_rule_is_refused() {
    let rule = parse("FREQ=MONTHLY;BYDAY=SA;BYSETPOS=1").unwrap();
    let err = rule
        .calculate_instances(Date::new(2020, 1, 1), Date::new(2020, 2, 1), Date::new(2020, 1, 1))
        .unwrap_err();
    assert_eq!(err, EvalError::Unsupported(UnsupportedProp::BySetPos));
}

#[test]
fn excluded_dates_are_dropped() {
    let event = day_event(
        7,
        Date::new(2020, 1, 1),
        "FREQ=WEEKLY",
        vec![Date::new(2020, 1, 15)],
        vec![],
    );
    let starts = instance_starts(&event, Date::new(2020, 1, 1), Date::new(2020, 2, 1));
    let expected = [
        Date::new(2020, 1, 1),
        Date::new(2020, 1, 8),
        Date::new(2020, 1, 22),
        Date::new(2020, 1, 29),
    ];
    assert_eq!(starts, expected);
}

#[test]
fn extra_date_survives_its_own_exclusion() {
    let event = day_event(
        7,
        Date::new(2020, 1, 1),
        "FREQ=WEEKLY",
        vec![Date::new(2020, 1, 15)],
        vec![Date::new(2020, 1, 15)],
    );
    let starts = instance_starts(&event, Date::new(2020, 1, 1), Date::new(2020, 2, 1));
    let expected = [
        Date::new(2020, 1, 1),
        Date::new(2020, 1, 8),
        Date::new(2020, 1, 15),
        Date::new(2020, 1, 22),
        Date::new(2020, 1, 29),
    ];
    assert_eq!(starts, expected);
}

#[test]
fn unsorted_extra_dates_are_merged_in_order() {
    let event = day_event(
        7,
        Date::new(2020, 1, 1),
        "FREQ=WEEKLY",
        vec![],
        vec![Date::new(2020, 1, 20), Date::new(2020, 1, 3), Date::new(2020, 1, 10)],
    );
    let starts = instance_starts(&event, Date::new(2020, 1, 1), Date::new(2020, 2, 1));
    let expected = [
        Date::new(2020, 1, 1),
        Date::new(2020, 1, 3),
        Date::new(2020, 1, 8),
        Date::new(2020, 1, 10),
        Date::new(2020, 1, 15),
        Date::new(2020, 1, 20),
        Date::new(2020, 1, 22),
        Date::new(2020, 1, 29),
    ];
    assert_eq!(starts, expected);
}

#[test]
fn extra_dates_outside_the_window_are_clipped() {
    let event = day_event(
        7,
        Date::new(2020, 1, 1),
        "FREQ=WEEKLY;COUNT=1",
        vec![],
        vec![Date::new(2019, 12, 1), Date::new(2020, 1, 10), Date::new(2020, 3, 1)],
    );
    let starts = instance_starts(&event, Date::new(2020, 1, 1), Date::new(2020, 2, 1));
    let expected = [Date::new(2020, 1, 1), Date::new(2020, 1, 10)];
    assert_eq!(starts, expected);
}

#[test]
fn pagination_skips_and_takes() {
    let event = day_event(9, Date::new(2020, 1, 1), "FREQ=WEEKLY", vec![], vec![]);
    let page = event
        .generate_instances(Some(Date::new(2020, 1, 1)), Some(Date::new(2020, 2, 1)), 1, 2)
        .unwrap();
    assert_eq!(page.len(), 2);
    assert_eq!(page[0].get_parent_id(), 9);
    assert_eq!(page[0].get_span().get_start_date(), Date::new(2020, 1, 8));
    assert_eq!(page[1].get_span().get_start_date(), Date::new(2020, 1, 15));
}

#[test]
fn instances_carry_the_event_duration() {
    let event = EventRecurring::new(
        3,
        EventSpan::Date(EventDateSpan { start: Date::new(2020, 1, 1), end: Date::new(2020, 1, 3) }),
        EventRecurrence { rule: parse("FREQ=WEEKLY").unwrap(), exdates: vec![], rdates: vec![] },
    );
    let page = event
        .generate_instances(Some(Date::new(2020, 1, 1)), Some(Date::new(2020, 1, 10)), 0, 10)
        .unwrap();
    assert_eq!(page.len(), 2);
    assert_eq!(page[0].get_span().get_start_date(), Date::new(2020, 1, 1));
    assert_eq!(page[0].get_span().get_end_date(), Date::new(2020, 1, 3));
    assert_eq!(page[1].get_span().get_start_date(), Date::new(2020, 1, 8));
    assert_eq!(page[1].get_span().get_end_date(), Date::new(2020, 1, 10));
}

#[test]
fn monthly_rule_recurs_on_the_start_day() {
    let rule = parse("FREQ=MONTHLY").unwrap();
    let result = rule
        .calculate_instances(Date::new(2020, 1, 31), Date::new(2020, 6, 1), Date::new(2020, 1, 31))
        .unwrap();
    let expected = [Date::new(2020, 1, 31), Date::new(2020, 3, 31), Date::new(2020, 5, 31)];
    assert_eq!(result, expected);
}

#[test]
fn daily_rule_steps_single_days() {
    let rule = parse("FREQ=DAILY").unwrap();
    let result = rule
        .calculate_instances(Date::new(2020, 2, 27), Date::new(2020, 3, 1), Date::new(2020, 2, 27))
        .unwrap();
    let expected = [
        Date::new(2020, 2, 27),
        Date::new(2020, 2, 28),
        Date::new(2020, 2, 29),
        Date::new(2020, 3, 1),
    ];
    assert_eq!(result, expected);
}
