//! Events and their spans: a recurring event carries a span (dates, or
//! date-times), a recurrence rule, excluded dates and extra dates, and
//! generates its concrete instances, each spanning the same duration as the
//! original event.

use vstd::prelude::*;

use crate::date::{
    date_of_index, date_to_days, date_wf, day_index, days_to_date, lemma_date_of_index,
    lemma_day_index_order, lemma_day_index_total, Date, MAX_YEAR, MIN_YEAR, TOTAL_DAYS,
};
use crate::instances::{
    lemma_filter_elems, lemma_instances_window, spec_eval_refusal, spec_instances, EvalError,
};
use crate::iter_helpers::{
    lemma_date_key_order, lemma_merge_membership, lemma_merge_sorted, merge_ordered, sorted,
    spec_merge, OrderedKey,
};
use crate::rule::{rule_wf, RecurrenceRule};

use itertools::Itertools;

verus! {

/// A naive time of day, interpreted as UTC.
#[derive(Clone, Copy, Debug, PartialEq, Eq, Structural)]
pub struct Time {
    pub hour: u8,
    pub minute: u8,
    pub second: u8,
}

/// A well-formed time of day.
pub open spec fn time_wf(t: Time) -> bool {
    t.hour < 24 && t.minute < 60 && t.second < 60
}

/// Seconds since midnight.
pub open spec fn spec_time_seconds(t: Time) -> int {
    t.hour * 3600 + t.minute * 60 + t.second
}

/// A naive date and time of day.
#[derive(Clone, Copy, Debug, PartialEq, Eq, Structural)]
pub struct DateTime {
    pub date: Date,
    pub time: Time,
}

pub open spec fn date_time_wf(dt: DateTime) -> bool {
    date_wf(dt.date) && time_wf(dt.time)
}

/// Position of a date-time on the second line: seconds since midnight at the
/// start of year `MIN_YEAR`.
pub open spec fn spec_total_seconds(dt: DateTime) -> int {
    day_index(dt.date) * 86400 + spec_time_seconds(dt.time)
}

/// The date-time standing at a position on the second line.
pub open spec fn spec_date_time_of_seconds(n: int) -> DateTime {
    DateTime {
        date: date_of_index(n / 86400),
        time: Time {
            hour: ((n % 86400) / 3600) as u8,
            minute: (((n % 86400) % 3600) / 60) as u8,
            second: ((n % 86400) % 60) as u8,
        },
    }
}

/// Converts a position on the second line to the date-time there.
pub fn date_time_of_seconds(n: u64) -> (dt: DateTime)
    requires
        n < TOTAL_DAYS as u64 * 86400,
    ensures
        dt == spec_date_time_of_seconds(n as int),
        date_time_wf(dt),
        spec_total_seconds(dt) == n,
{
    let days = n / 86400;
    let rem: u64 = n % 86400;
    assert(days < TOTAL_DAYS) by (nonlinear_arith)
        requires
            n < TOTAL_DAYS as u64 * 86400,
            days == n / 86400,
    ;
    let date = days_to_date(days as u32);
    let hour = (rem / 3600) as u8;
    let minute = ((rem % 3600) / 60) as u8;
    let second = ((rem % 3600) % 60) as u8;
    proof {
        lemma_date_of_index(days as int);
        lemma_day_index_order(date, date_of_index(days as int));
        assert(n as int % 86400 == rem && n as int / 86400 == days as int);
        assert((rem as int % 3600) % 60 == rem as int % 60) by (nonlinear_arith);
        assert(hour * 3600 + minute * 60 + second == rem) by (nonlinear_arith)
            requires
                rem < 86400,
                hour == rem as int / 3600,
                minute == (rem as int % 3600) / 60,
                second == (rem as int % 3600) % 60,
        ;
        assert(day_index(date) * 86400 + spec_time_seconds(
            Time { hour, minute, second },
        ) == n) by (nonlinear_arith)
            requires
                day_index(date) == n as int / 86400,
                rem == n as int % 86400,
                hour * 3600 + minute * 60 + second == rem,
    ;
    }
    DateTime { date, time: Time { hour, minute, second } }
}

/// The span of an event that is day-granular.
#[derive(Clone, Copy, Debug, PartialEq, Eq, Structural)]
pub struct EventDateSpan {
    pub start: Date,
    pub end: Date,
}

/// The span of an event that carries times of day.
#[derive(Clone, Copy, Debug, PartialEq, Eq, Structural)]
pub struct EventDateTimeSpan {
    pub start: DateTime,
    pub end: DateTime,
}

impl EventDateTimeSpan {
    /// The dates the span covers, dropping the times of day.
    pub fn as_date_span(&self) -> (r: EventDateSpan)
        ensures
            r == (EventDateSpan { start: self.start.date, end: self.end.date }),
    {
        EventDateSpan { start: self.start.date, end: self.end.date }
    }
}

/// When an event starts and ends: on dates, or at date-times.
#[derive(Clone, Copy, Debug, PartialEq, Eq, Structural)]
pub enum EventSpan {
    Date(EventDateSpan),
    DateTime(EventDateTimeSpan),
}

/// A well-formed span: valid dates and times, ending no earlier than it
/// starts.
pub open spec fn span_wf(s: EventSpan) -> bool {
    match s {
        EventSpan::Date(ds) => date_wf(ds.start) && date_wf(ds.end) && day_index(ds.start)
            <= day_index(ds.end),
        EventSpan::DateTime(ts) => date_time_wf(ts.start) && date_time_wf(ts.end)
            && spec_total_seconds(ts.start) <= spec_total_seconds(ts.end),
    }
}

/// How long the span lasts, in seconds; a day-granular span lasts a whole
/// number of days.
pub open spec fn spec_span_duration_seconds(s: EventSpan) -> int {
    match s {
        EventSpan::Date(ds) => (day_index(ds.end) - day_index(ds.start)) * 86400,
        EventSpan::DateTime(ts) => spec_total_seconds(ts.end) - spec_total_seconds(ts.start),
    }
}

/// Seconds from midnight to the span's start time; zero for a day-granular
/// span.
pub open spec fn spec_span_start_tod(s: EventSpan) -> int {
    match s {
        EventSpan::Date(_) => 0,
        EventSpan::DateTime(ts) => spec_time_seconds(ts.start.time),
    }
}

impl EventSpan {
    /// The start and end dates of the span, dropping any times of day.
    pub fn get_date_span(&self) -> (r: EventDateSpan)
        ensures
            r == spec_date_span(*self),
    {
        match self {
            EventSpan::Date(date_span) => *date_span,
            EventSpan::DateTime(datetime_span) => datetime_span.as_date_span(),
        }
    }

    /// The date-times of the span, where it carries any.
    pub fn get_date_time_span(&self) -> (r: Option<EventDateTimeSpan>)
        ensures
            r == match *self {
                EventSpan::Date(_) => Option::<EventDateTimeSpan>::None,
                EventSpan::DateTime(ts) => Option::Some(ts),
            },
    {
        match self {
            EventSpan::Date(_) => Option::None,
            EventSpan::DateTime(datetime_span) => Option::Some(*datetime_span),
        }
    }

    pub fn get_start_date(&self) -> (r: Date)
        ensures
            r == spec_date_span(*self).start,
    {
        self.get_date_span().start
    }

    pub fn get_end_date(&self) -> (r: Date)
        ensures
            r == spec_date_span(*self).end,
    {
        self.get_date_span().end
    }

    pub fn get_start_time(&self) -> (r: Option<Time>)
        ensures
            r == match *self {
                EventSpan::Date(_) => Option::<Time>::None,
                EventSpan::DateTime(ts) => Option::Some(ts.start.time),
            },
    {
        match self {
            EventSpan::Date(_) => Option::None,
            EventSpan::DateTime(ts) => Option::Some(ts.start.time),
        }
    }

    pub fn get_end_time(&self) -> (r: Option<Time>)
        ensures
            r == match *self {
                EventSpan::Date(_) => Option::<Time>::None,
                EventSpan::DateTime(ts) => Option::Some(ts.end.time),
            },
    {
        match self {
            EventSpan::Date(_) => Option::None,
            EventSpan::DateTime(ts) => Option::Some(ts.end.time),
        }
    }

    /// How long the span lasts, in whole seconds.
    pub fn get_duration(&self) -> (r: i64)
        requires
            span_wf(*self),
        ensures
            r == spec_span_duration_seconds(*self),
            r >= 0,
    {
        match self {
            EventSpan::Date(ds) => {
                proof {
                    lemma_day_index_total(ds.start);
                    lemma_day_index_total(ds.end);
                }
                let s = crate::date::date_to_days(&ds.start) as i64;
                let e = crate::date::date_to_days(&ds.end) as i64;
                (e - s) * 86400
            },
            EventSpan::DateTime(ts) => {
                proof {
                    lemma_day_index_total(ts.start.date);
                    lemma_day_index_total(ts.end.date);
                }
                let s = crate::date::date_to_days(&ts.start.date) as i64 * 86400 + total_tod(
                    &ts.start.time,
                ) as i64;
                let e = crate::date::date_to_days(&ts.end.date) as i64 * 86400 + total_tod(
                    &ts.end.time,
                ) as i64;
                e - s
            },
        }
    }

    /// The day-granular span covering `duration` whole days from `start`.
    pub fn from_date_and_duration(start: Date, duration: i64) -> (r: EventSpan)
        requires
            date_wf(start),
            duration >= 0,
            duration % 86400 == 0,
            day_index(start) * 86400 + duration < TOTAL_DAYS as int * 86400,
        ensures
            r is Date,
            r->Date_0.start == start,
            date_wf(r->Date_0.end),
            day_index(r->Date_0.end) == day_index(start) + duration / 86400,
    {
        proof {
            lemma_day_index_total(start);
        }
        let start_n = crate::date::date_to_days(&start) as u64;
        let days = (duration / 86400) as u64;
        proof {
            assert(day_index(start) + duration / 86400 < TOTAL_DAYS) by (nonlinear_arith)
                requires
                    day_index(start) * 86400 + duration < TOTAL_DAYS as int * 86400,
                    duration >= 0,
                    day_index(start) >= 0,
            ;
        }
        let end = days_to_date((start_n + days) as u32);
        EventSpan::Date(EventDateSpan { start, end })
    }

    /// The time-granular span covering `duration` seconds from `start`.
    pub fn from_date_time_and_duration(start: DateTime, duration: i64) -> (r: EventSpan)
        requires
            date_time_wf(start),
            duration >= 0,
            spec_total_seconds(start) + duration < TOTAL_DAYS as int * 86400,
        ensures
            r is DateTime,
            r->DateTime_0.start == start,
            date_time_wf(r->DateTime_0.end),
            spec_total_seconds(r->DateTime_0.end) == spec_total_seconds(start) + duration,
    {
        proof {
            lemma_day_index_total(start.date);
        }
        let start_total: u64 = crate::date::date_to_days(&start.date) as u64 * 86400 + total_tod(
            &start.time,
        ) as u64;
        let end = date_time_of_seconds(start_total + duration as u64);
        EventSpan::DateTime(EventDateTimeSpan { start, end })
    }
}

/// The start and end dates of a span.
pub open spec fn spec_date_span(s: EventSpan) -> EventDateSpan {
    match s {
        EventSpan::Date(ds) => ds,
        EventSpan::DateTime(ts) => EventDateSpan { start: ts.start.date, end: ts.end.date },
    }
}

/// The span of the instance of an event with span `s` that takes place on
/// date `d`: it starts on `d`, at the event's start time when it has one,
/// and lasts as long as the event.
pub open spec fn spec_span_at_date(s: EventSpan, d: Date) -> EventSpan {
    match s {
        EventSpan::Date(_) => EventSpan::Date(
            EventDateSpan {
                start: d,
                end: date_of_index(
                    day_index(d) + spec_span_duration_seconds(s) / 86400,
                ),
            },
        ),
        EventSpan::DateTime(ts) => EventSpan::DateTime(
            EventDateTimeSpan {
                start: DateTime { date: d, time: ts.start.time },
                end: spec_date_time_of_seconds(
                    day_index(d) * 86400 + spec_time_seconds(ts.start.time)
                        + spec_span_duration_seconds(s),
                ),
            },
        ),
    }
}

/// Seconds since midnight, executable form.
fn total_tod(t: &Time) -> (r: u32)
    requires
        time_wf(*t),
    ensures
        r == spec_time_seconds(*t),
        r < 86400,
{
    t.hour as u32 * 3600 + t.minute as u32 * 60 + t.second as u32
}


/// Holds of the dates not present in `ex`.
pub open spec fn excluded_pred(ex: Seq<Date>) -> spec_fn(Date) -> bool {
    |d: Date| !ex.contains(d)
}

/// Holds of the dates between day-line positions `lo` and `hi`, inclusive.
pub open spec fn window_pred(lo: int, hi: int) -> spec_fn(Date) -> bool {
    |d: Date| lo <= day_index(d) <= hi
}

/// The whole-day order on dates as a relation, for sorting.
pub open spec fn date_leq() -> spec_fn(Date, Date) -> bool {
    |a: Date, b: Date| a.key() <= b.key()
}

/// The lexicographic key determines the date: no two dates share one.
pub proof fn lemma_key_injective(a: Date, b: Date)
    ensures
        a.key() == b.key() ==> a == b,
{
    if a.key() == b.key() {
        assert(a.year == b.year && a.month == b.month && a.day == b.day);
    }
}

/// The date order is a total ordering.
pub proof fn lemma_date_leq_total()
    ensures
        vstd::relations::total_ordering(date_leq()),
{
    let leq = date_leq();
    assert forall|a: Date, b: Date| #[trigger] leq(a, b) && leq(b, a) implies a == b by {
        lemma_key_injective(a, b);
    }
    assert(vstd::relations::reflexive(leq)) by {
        assert(forall|a: Date| #[trigger] leq(a, a));
    }
    assert(vstd::relations::transitive(leq)) by {
        assert(forall|a: Date, b: Date, c: Date| #[trigger] leq(a, b) && #[trigger] leq(b, c) ==> leq(a, c));
    }
    assert(vstd::relations::strongly_connected(leq)) by {
        assert(forall|a: Date, b: Date| #[trigger] leq(a, b) || #[trigger] leq(b, a));
    }
}

/// Two sorted sequences holding the same dates the same number of times are
/// the same sequence.
pub proof fn lemma_sorted_unique(s1: Seq<Date>, s2: Seq<Date>)
    requires
        sorted(s1),
        sorted(s2),
        s1.to_multiset() == s2.to_multiset(),
    ensures
        s1 == s2,
    decreases s1.len(),
{
    broadcast use vstd::seq_lib::group_to_multiset_ensures;

    assert(s1.to_multiset().len() == s1.len());
    assert(s2.to_multiset().len() == s2.len());
    if s1.len() == 0 {
        assert(s1 =~= s2);
    } else {
        assert(s2.len() == s1.len());
        assert(s1.contains(s1[0]));
        assert(s1.to_multiset().count(s1[0]) > 0);
        assert(s2.contains(s1[0]));
        let j = choose|j: int| 0 <= j < s2.len() && s2[j] == s1[0];
        assert(s2[0].key() <= s2[j].key());
        assert(s2.contains(s2[0]));
        assert(s2.to_multiset().count(s2[0]) > 0);
        assert(s1.to_multiset().count(s2[0]) > 0);
        assert(s1.contains(s2[0]));
        let i = choose|i: int| 0 <= i < s1.len() && s1[i] == s2[0];
        assert(s1[0].key() <= s1[i].key());
        lemma_key_injective(s1[0], s2[0]);
        let t1 = s1.drop_first();
        let t2 = s2.drop_first();
        assert(s1.remove(0) =~= t1);
        assert(s2.remove(0) =~= t2);
        assert(s1.remove(0).to_multiset() =~= s1.to_multiset().remove(s1[0]));
        assert(s2.remove(0).to_multiset() =~= s2.to_multiset().remove(s2[0]));
        assert(t1.to_multiset() =~= s1.to_multiset().remove(s1[0]));
        assert(t2.to_multiset() =~= s2.to_multiset().remove(s2[0]));
        assert(sorted(t1)) by {
            assert(forall|i: int, j: int|
                0 <= i <= j < t1.len() ==> #[trigger] t1[i].key() == s1[i + 1].key()
                    && #[trigger] t1[j].key() == s1[j + 1].key());
        }
        assert(sorted(t2)) by {
            assert(forall|i: int, j: int|
                0 <= i <= j < t2.len() ==> #[trigger] t2[i].key() == s2[i + 1].key()
                    && #[trigger] t2[j].key() == s2[j + 1].key());
        }
        lemma_sorted_unique(t1, t2);
        assert forall|k: int| 0 <= k < s1.len() implies s1[k] == s2[k] by {
            if k > 0 {
                assert(t1[k - 1] == s1[k]);
                assert(t2[k - 1] == s2[k]);
            }
        }
        assert(s1 =~= s2);
    }
}

/// The dates of a sequence, in order: the one sorted sequence holding the
/// same dates the same number of times.
pub open spec fn spec_sorted_dates(s: Seq<Date>) -> Seq<Date> {
    choose|t: Seq<Date>| sorted(t) && t.to_multiset() == s.to_multiset()
}

/// A sorted arrangement of any sequence of dates exists, so
/// `spec_sorted_dates` delivers what its name says.
pub proof fn lemma_sorted_dates_ensures(s: Seq<Date>)
    ensures
        sorted(spec_sorted_dates(s)),
        spec_sorted_dates(s).to_multiset() == s.to_multiset(),
{
    lemma_date_leq_total();
    s.lemma_sort_by_ensures(date_leq());
    let w = s.sort_by(date_leq());
    assert(sorted(w)) by {
        assert(forall|i: int, j: int|
            0 <= i < j < w.len() ==> #[trigger] date_leq()(w[i], w[j]));
        assert forall|i: int, j: int| 0 <= i <= j < w.len() implies #[trigger] w[i].key()
            <= #[trigger] w[j].key() by {
            if i < j {
                assert(date_leq()(w[i], w[j]));
            }
        }
    }
    assert(sorted(w) && w.to_multiset() == s.to_multiset());
    assert(exists|t: Seq<Date>| sorted(t) && t.to_multiset() == s.to_multiset());
}

/// Sorts a vector of dates.
///
/// Relies on itertools' `sorted`, which collects the iterator into a vector
/// and stable-sorts it by `Ord`; `Ord` on tuples of integers is the
/// lexicographic order, which on dates is exactly the key order, so the
/// result holds the same dates, in key order.
#[verifier::external_body]
fn sorted_dates(v: &Vec<Date>) -> (r: Vec<Date>)
    ensures
        r@.to_multiset() == v@.to_multiset(),
        sorted(r@),
{
    v.iter()
        .map(|d| (d.year, d.month, d.day))
        .sorted()
        .map(|(year, month, day)| Date { year, month, day })
        .collect()
}

fn contains_date(v: &Vec<Date>, x: Date) -> (r: bool)
    ensures
        r == v@.contains(x),
{
    let mut i: usize = 0;
    while i < v.len()
        invariant
            0 <= i <= v@.len(),
            forall|j: int| 0 <= j < i ==> v@[j] != x,
        decreases v@.len() - i,
    {
        if v[i] == x {
            return true;
        }
        i = i + 1;
    }
    false
}

/// Keeps the dates not present in `excluded`, in order.
fn filter_excluded(v: &Vec<Date>, excluded: &Vec<Date>) -> (r: Vec<Date>)
    ensures
        r@ == v@.filter(excluded_pred(excluded@)),
{
    let ghost p = excluded_pred(excluded@);
    let mut out: Vec<Date> = Vec::new();
    let mut i: usize = 0;
    proof {
        reveal(Seq::filter);
        assert(v@.take(0).filter(p) =~= Seq::<Date>::empty());
    }
    while i < v.len()
        invariant
            0 <= i <= v@.len(),
            p == excluded_pred(excluded@),
            out@ == v@.take(i as int).filter(p),
        decreases v@.len() - i,
    {
        let d = v[i];
        let keep = !contains_date(excluded, d);
        proof {
            reveal(Seq::filter);
            assert(p(v@[i as int]) == !excluded@.contains(v@[i as int]));
            assert(v@.take(i + 1).drop_last() =~= v@.take(i as int));
            assert(v@.take(i + 1).last() == v@[i as int]);
            assert(v@.take(i + 1).filter(p) == if p(v@[i as int]) {
                v@.take(i as int).filter(p).push(v@[i as int])
            } else {
                v@.take(i as int).filter(p)
            });
        }
        if keep {
            out.push(d);
        }
        i = i + 1;
    }
    proof {
        assert(v@.take(v@.len() as int) =~= v@);
    }
    out
}

/// Keeps the dates inside the day-line window `[from_n, to_n]`, in order.
fn filter_window(v: &Vec<Date>, from_n: u32, to_n: u32) -> (r: Vec<Date>)
    requires
        forall|k: int| 0 <= k < v@.len() ==> date_wf(#[trigger] v@[k]),
    ensures
        r@ == v@.filter(window_pred(from_n as int, to_n as int)),
{
    let ghost p = window_pred(from_n as int, to_n as int);
    let mut out: Vec<Date> = Vec::new();
    let mut i: usize = 0;
    proof {
        reveal(Seq::filter);
        assert(v@.take(0).filter(p) =~= Seq::<Date>::empty());
    }
    while i < v.len()
        invariant
            0 <= i <= v@.len(),
            p == window_pred(from_n as int, to_n as int),
            forall|k: int| 0 <= k < v@.len() ==> date_wf(#[trigger] v@[k]),
            out@ == v@.take(i as int).filter(p),
        decreases v@.len() - i,
    {
        let d = v[i];
        let n = date_to_days(&d);
        let keep = from_n <= n && n <= to_n;
        proof {
            reveal(Seq::filter);
            assert(p(v@[i as int]) == (from_n <= day_index(v@[i as int]) <= to_n));
            assert(v@.take(i + 1).drop_last() =~= v@.take(i as int));
            assert(v@.take(i + 1).last() == v@[i as int]);
            assert(v@.take(i + 1).filter(p) == if p(v@[i as int]) {
                v@.take(i as int).filter(p).push(v@[i as int])
            } else {
                v@.take(i as int).filter(p)
            });
        }
        if keep {
            out.push(d);
        }
        i = i + 1;
    }
    proof {
        assert(v@.take(v@.len() as int) =~= v@);
    }
    out
}

/// The page of a sequence: at most `take` elements starting after the first
/// `skip`.
pub open spec fn spec_page(s: Seq<Date>, skip: int, take: int) -> Seq<Date> {
    let lo = if skip <= s.len() {
        skip
    } else {
        s.len() as int
    };
    let hi = if take <= s.len() - lo {
        lo + take
    } else {
        s.len() as int
    };
    s.subrange(lo, hi)
}

/// Takes the page of a vector of dates.
fn slice_page(v: &Vec<Date>, skip: usize, take: usize) -> (r: Vec<Date>)
    ensures
        r@ == spec_page(v@, skip as int, take as int),
{
    let lo = if skip <= v.len() {
        skip
    } else {
        v.len()
    };
    let hi = if take <= v.len() - lo {
        lo + take
    } else {
        v.len()
    };
    let mut out: Vec<Date> = Vec::new();
    let mut i: usize = lo;
    while i < hi
        invariant
            lo <= i <= hi <= v@.len(),
            out@ == v@.subrange(lo as int, i as int),
        decreases hi - i,
    {
        out.push(v[i]);
        proof {
            assert(out@ =~= v@.subrange(lo as int, i + 1));
        }
        i = i + 1;
    }
    proof {
        assert(out@ =~= spec_page(v@, skip as int, take as int));
    }
    out
}

/// The recurrence of an event: its rule, its excluded dates and its extra
/// dates.
#[derive(Debug)]
pub struct EventRecurrence {
    pub rule: RecurrenceRule,
    pub exdates: Vec<Date>,
    pub rdates: Vec<Date>,
}

/// A recurring event as the engine consumes it: its identity, its span, and
/// its recurrence.
#[derive(Debug)]
pub struct EventRecurring {
    pub id: u128,
    pub span: EventSpan,
    pub recurrence: EventRecurrence,
}

/// A concrete occurrence of a recurring event.
#[derive(Clone, Copy, Debug, PartialEq, Eq, Structural)]
pub struct EventInstance {
    pub parent_id: u128,
    pub span: EventSpan,
}

impl EventInstance {
    pub fn get_span(&self) -> (r: EventSpan)
        ensures
            r == self.span,
    {
        self.span
    }

    pub fn get_parent_id(&self) -> (r: u128)
        ensures
            r == self.parent_id,
    {
        self.parent_id
    }
}

/// The construction invariant of a recurring event: a well-formed rule and
/// span, and well-formed overlay dates.
pub open spec fn event_wf(e: EventRecurring) -> bool {
    &&& rule_wf(e.recurrence.rule@)
    &&& span_wf(e.span)
    &&& forall|k: int|
        0 <= k < e.recurrence.exdates@.len() ==> date_wf(#[trigger] e.recurrence.exdates@[k])
    &&& forall|k: int|
        0 <= k < e.recurrence.rdates@.len() ==> date_wf(#[trigger] e.recurrence.rdates@[k])
}

/// The lower window bound, taken as the earliest date when absent.
pub open spec fn spec_from_default(from_date: Option<Date>) -> Date {
    match from_date {
        Option::Some(d) => d,
        Option::None => Date { year: MIN_YEAR, month: 1, day: 1 },
    }
}

/// The upper window bound, taken as the latest date when absent.
pub open spec fn spec_to_default(to_date: Option<Date>) -> Date {
    match to_date {
        Option::Some(d) => d,
        Option::None => Date { year: MAX_YEAR, month: 12, day: 31 },
    }
}

/// The dates a recurring event occurs on inside the window: the algorithmic
/// instances with the excluded dates removed, merged in order with the extra
/// dates clipped to the window. A date both excluded and extra therefore
/// stays: the exclusion runs before the merge.
pub open spec fn spec_generated_dates(
    e: EventRecurring,
    from_date: Option<Date>,
    to_date: Option<Date>,
) -> Seq<Date> {
    let from_d = spec_from_default(from_date);
    let to_d = spec_to_default(to_date);
    let alg = spec_instances(
        e.recurrence.rule@,
        from_d,
        to_d,
        spec_date_span(e.span).start,
    ).filter(excluded_pred(e.recurrence.exdates@));
    let extra = spec_sorted_dates(
        e.recurrence.rdates@.filter(window_pred(day_index(from_d), day_index(to_d))),
    );
    spec_merge(alg, extra)
}

/// The instances `generate_instances` returns: a page of the generated
/// dates, each carried by a span of the event's own duration.
pub open spec fn spec_generated(
    e: EventRecurring,
    from_date: Option<Date>,
    to_date: Option<Date>,
    skip: int,
    take: int,
) -> Seq<EventInstance> {
    spec_page(spec_generated_dates(e, from_date, to_date), skip, take).map_values(
        |d: Date| EventInstance { parent_id: e.id, span: spec_span_at_date(e.span, d) },
    )
}

/// Every span the event's instances can need stays on the day line: the
/// instance on the latest date the query can emit still ends at a
/// representable date-time.
pub open spec fn spec_query_fits(
    e: EventRecurring,
    to_date: Option<Date>,
) -> bool {
    let bound = match to_date {
        Option::Some(d) => day_index(d),
        Option::None => match e.recurrence.rule@.limit {
            crate::rule::RecurrenceLimit::Date(u) => day_index(u),
            _ => 0,
        },
    };
    &&& bound * 86400 + spec_span_start_tod(e.span) + spec_span_duration_seconds(e.span)
        < TOTAL_DAYS as int * 86400
    &&& to_date is None ==> forall|k: int|
        0 <= k < e.recurrence.rdates@.len() ==> day_index(#[trigger] e.recurrence.rdates@[k])
            * 86400 + spec_span_start_tod(e.span) + spec_span_duration_seconds(e.span)
            < TOTAL_DAYS as int * 86400
}

/// The span of the event's instance on date `d`, executable form.
fn instance_span(span: &EventSpan, d: Date) -> (r: EventSpan)
    requires
        span_wf(*span),
        date_wf(d),
        day_index(d) * 86400 + spec_span_start_tod(*span) + spec_span_duration_seconds(*span)
            < TOTAL_DAYS as int * 86400,
    ensures
        r == spec_span_at_date(*span, d),
{
    proof {
        lemma_day_index_total(d);
    }
    let d_n = date_to_days(&d) as u64;
    match span {
        EventSpan::Date(ds) => {
            proof {
                lemma_day_index_total(ds.start);
                lemma_day_index_total(ds.end);
            }
            let s_n = date_to_days(&ds.start) as u64;
            let e_n = date_to_days(&ds.end) as u64;
            let dur_days = e_n - s_n;
            proof {
                assert((day_index(ds.end) - day_index(ds.start)) * 86400 / 86400 == day_index(
                    ds.end,
                ) - day_index(ds.start)) by (nonlinear_arith);
                assert(day_index(d) + dur_days < TOTAL_DAYS) by (nonlinear_arith)
                    requires
                        day_index(d) * 86400 + (dur_days as int) * 86400 < TOTAL_DAYS as int
                            * 86400,
                        day_index(d) >= 0,
                        dur_days >= 0,
                ;
            }
            let end = days_to_date((d_n + dur_days) as u32);
            proof {
                lemma_date_of_index(day_index(d) + dur_days as int);
                lemma_day_index_order(end, date_of_index(day_index(d) + dur_days as int));
            }
            EventSpan::Date(EventDateSpan { start: d, end })
        },
        EventSpan::DateTime(ts) => {
            proof {
                lemma_day_index_total(ts.start.date);
                lemma_day_index_total(ts.end.date);
            }
            let s_total: u64 = date_to_days(&ts.start.date) as u64 * 86400 + total_tod(
                &ts.start.time,
            ) as u64;
            let e_total: u64 = date_to_days(&ts.end.date) as u64 * 86400 + total_tod(
                &ts.end.time,
            ) as u64;
            let dur = e_total - s_total;
            let start_dt = DateTime { date: d, time: ts.start.time };
            let end_dt = date_time_of_seconds(d_n * 86400 + total_tod(&ts.start.time) as u64 + dur);
            EventSpan::DateTime(EventDateTimeSpan { start: start_dt, end: end_dt })
        },
    }
}

impl EventRecurring {
    /// Builds a recurring event from its identity, span and recurrence.
    pub fn new(id: u128, span: EventSpan, recurrence: EventRecurrence) -> (r: EventRecurring)
        ensures
            r.id == id,
            r.span == span,
            r.recurrence.rule@ == recurrence.rule@,
            r.recurrence.exdates@ == recurrence.exdates@,
            r.recurrence.rdates@ == recurrence.rdates@,
    {
        EventRecurring { id, span, recurrence }
    }

    pub fn get_id(&self) -> (r: u128)
        ensures
            r == self.id,
    {
        self.id
    }

    pub fn get_span(&self) -> (r: EventSpan)
        ensures
            r == self.span,
    {
        self.span
    }

    /// Generates event instances between dates `from_date` and `to_date`
    /// (both inclusive) based on this event's rule, exdates and rdates,
    /// skipping the first `skip` and returning at most `max_results`.
    pub fn generate_instances(
        &self,
        from_date: Option<Date>,
        to_date: Option<Date>,
        skip: usize,
        max_results: usize,
    ) -> (r: Result<Vec<EventInstance>, EvalError>)
        requires
            event_wf(*self),
            match from_date {
                Option::Some(d) => date_wf(d),
                Option::None => true,
            },
            match to_date {
                Option::Some(d) => date_wf(d),
                Option::None => true,
            },
            to_date is Some || self.recurrence.rule@.limit is Date,
            spec_query_fits(*self, to_date),
        ensures
            r is Err <==> spec_eval_refusal(
                self.recurrence.rule@,
                spec_date_span(self.span).start,
            ) is Some,
            r is Err ==> Option::Some(r->Err_0) == spec_eval_refusal(
                self.recurrence.rule@,
                spec_date_span(self.span).start,
            ),
            r is Ok ==> r->Ok_0@ == spec_generated(
                *self,
                from_date,
                to_date,
                skip as int,
                max_results as int,
            ),
    {
        let from_d = match from_date {
            Option::Some(d) => d,
            Option::None => Date { year: MIN_YEAR, month: 1, day: 1 },
        };
        let to_d = match to_date {
            Option::Some(d) => d,
            Option::None => Date { year: MAX_YEAR, month: 12, day: 31 },
        };
        let starting_at = self.span.get_start_date();
        let alg_all = match self.recurrence.rule.calculate_instances(from_d, to_d, starting_at) {
            Result::Ok(v) => v,
            Result::Err(e) => {
                return Result::Err(e);
            },
        };
        let alg = filter_excluded(&alg_all, &self.recurrence.exdates);
        let from_n = date_to_days(&from_d);
        let to_n = date_to_days(&to_d);
        let clipped = filter_window(&self.recurrence.rdates, from_n, to_n);
        let extra = sorted_dates(&clipped);
        proof {
            lemma_sorted_dates_ensures(clipped@);
            lemma_sorted_unique(extra@, spec_sorted_dates(clipped@));
        }
        let merged = merge_ordered(&alg, &extra);
        let page = slice_page(&merged, skip, max_results);
        proof {
            broadcast use vstd::seq_lib::group_to_multiset_ensures;

            let insts = spec_instances(self.recurrence.rule@, from_d, to_d, starting_at);
            lemma_instances_window(self.recurrence.rule@, from_d, to_d, starting_at);
            lemma_filter_elems(insts, excluded_pred(self.recurrence.exdates@));
            lemma_filter_elems(
                self.recurrence.rdates@,
                window_pred(from_n as int, to_n as int),
            );
            let ghost bound: int = match to_date {
                Option::Some(d) => day_index(d),
                Option::None => day_index(self.recurrence.rule@.limit->Date_0),
            };
            assert(crate::instances::spec_scan_end(
                crate::rule::spec_infer(self.recurrence.rule@, starting_at),
                to_d,
            ) <= bound);
            assert forall|k: int|
                0 <= k < page@.len() implies date_wf(#[trigger] page@[k]) && day_index(page@[k])
                    * 86400 + spec_span_start_tod(self.span) + spec_span_duration_seconds(
                    self.span,
                ) < TOTAL_DAYS as int * 86400 by {
                let d = page@[k];
                assert(merged@.contains(d));
                lemma_merge_membership(alg@, extra@, d);
                if alg@.contains(d) {
                    let j = choose|j: int| 0 <= j < alg@.len() && alg@[j] == d;
                    assert(insts.contains(alg@[j]));
                    let j2 = choose|j2: int| 0 <= j2 < insts.len() && insts[j2] == d;
                    assert(date_wf(d) && day_index(d) <= bound);
                } else {
                    assert(extra@.to_multiset().count(d) > 0);
                    assert(clipped@.contains(d));
                    let j = choose|j: int| 0 <= j < clipped@.len() && clipped@[j] == d;
                    assert(window_pred(from_n as int, to_n as int)(clipped@[j]));
                    assert(self.recurrence.rdates@.contains(d));
                    let j3 = choose|j3: int|
                        0 <= j3 < self.recurrence.rdates@.len() && self.recurrence.rdates@[j3]
                            == d;
                    assert(date_wf(d));
                    if to_date is Some {
                        assert(day_index(d) <= bound);
                    } else {
                        assert(day_index(self.recurrence.rdates@[j3]) * 86400
                            + spec_span_start_tod(self.span) + spec_span_duration_seconds(
                            self.span,
                        ) < TOTAL_DAYS as int * 86400);
                    }
                }
                if day_index(d) <= bound {
                    assert(day_index(d) * 86400 + spec_span_start_tod(self.span)
                        + spec_span_duration_seconds(self.span) < TOTAL_DAYS as int
                        * 86400) by (nonlinear_arith)
                        requires
                            day_index(d) <= bound,
                            bound * 86400 + spec_span_start_tod(self.span)
                                + spec_span_duration_seconds(self.span) < TOTAL_DAYS as int
                                * 86400,
                    ;
                }
            }
        }
        let mut out: Vec<EventInstance> = Vec::new();
        let mut i: usize = 0;
        proof {
            assert(out@ =~= page@.take(0).map_values(
                |d: Date| EventInstance { parent_id: self.id, span: spec_span_at_date(self.span, d) },
            ));
        }
        while i < page.len()
            invariant
                0 <= i <= page@.len(),
                event_wf(*self),
                spec_query_fits(*self, to_date),
                match to_date {
                    Option::Some(d) => date_wf(d),
                    Option::None => true,
                },
                to_date is Some || self.recurrence.rule@.limit is Date,
                page@ == spec_page(
                    spec_generated_dates(*self, from_date, to_date),
                    skip as int,
                    max_results as int,
                ),
                forall|k: int|
                    0 <= k < page@.len() ==> date_wf(#[trigger] page@[k]) && day_index(page@[k])
                        * 86400 + spec_span_start_tod(self.span) + spec_span_duration_seconds(
                        self.span,
                    ) < TOTAL_DAYS as int * 86400,
                out@ == page@.take(i as int).map_values(
                    |d: Date| EventInstance {
                        parent_id: self.id,
                        span: spec_span_at_date(self.span, d),
                    },
                ),
            decreases page@.len() - i,
        {
            let d = page[i];
            let inst = EventInstance { parent_id: self.get_id(), span: instance_span(&self.span, d) };
            out.push(inst);
            proof {
                assert(out@ =~= page@.take(i + 1).map_values(
                    |d: Date| EventInstance {
                        parent_id: self.id,
                        span: spec_span_at_date(self.span, d),
                    },
                ));
            }
            i = i + 1;
        }
        proof {
            assert(page@.take(page@.len() as int) =~= page@);
        }
        Result::Ok(out)
    }
}


/// The instance on date `d` starts on `d`.
pub proof fn lemma_span_at_start(s: EventSpan, d: Date)
    ensures
        spec_date_span(spec_span_at_date(s, d)).start == d,
{
}

/// The date an instance takes place on.
pub open spec fn instance_date(inst: EventInstance) -> Date {
    spec_date_span(inst.span).start
}

/// The laws of the generated dates, before paging: the sequence is
/// non-decreasing by date; every date is well-formed and lies inside the
/// window; and no date is an excluded one unless it is also an extra one
/// (the exclusion runs before the merge, so an extra date always survives).
#[verifier::rlimit(60)]
pub proof fn lemma_generated_dates_laws(
    e: EventRecurring,
    from_date: Option<Date>,
    to_date: Option<Date>,
)
    requires
        event_wf(e),
        match from_date {
            Option::Some(d) => date_wf(d),
            Option::None => true,
        },
        match to_date {
            Option::Some(d) => date_wf(d),
            Option::None => true,
        },
    ensures
        forall|i: int, j: int|
            0 <= i <= j < spec_generated_dates(e, from_date, to_date).len() ==> day_index(
                #[trigger] spec_generated_dates(e, from_date, to_date)[i],
            ) <= day_index(#[trigger] spec_generated_dates(e, from_date, to_date)[j]),
        forall|k: int|
            0 <= k < spec_generated_dates(e, from_date, to_date).len() ==> date_wf(
                #[trigger] spec_generated_dates(e, from_date, to_date)[k],
            ) && day_index(spec_from_default(from_date)) <= day_index(
                spec_generated_dates(e, from_date, to_date)[k],
            ) <= day_index(spec_to_default(to_date)),
        forall|k: int|
            0 <= k < spec_generated_dates(e, from_date, to_date).len()
                && e.recurrence.exdates@.contains(
                #[trigger] spec_generated_dates(e, from_date, to_date)[k],
            ) ==> e.recurrence.rdates@.contains(spec_generated_dates(e, from_date, to_date)[k]),
{
    broadcast use vstd::seq_lib::group_to_multiset_ensures;

    let from_d = spec_from_default(from_date);
    let to_d = spec_to_default(to_date);
    let start = spec_date_span(e.span).start;
    let insts = spec_instances(e.recurrence.rule@, from_d, to_d, start);
    let alg = insts.filter(excluded_pred(e.recurrence.exdates@));
    let clip = e.recurrence.rdates@.filter(window_pred(day_index(from_d), day_index(to_d)));
    let extra = spec_sorted_dates(clip);
    let gen = spec_generated_dates(e, from_date, to_date);
    lemma_instances_window(e.recurrence.rule@, from_d, to_d, start);
    lemma_filter_elems(insts, excluded_pred(e.recurrence.exdates@));
    lemma_filter_elems(e.recurrence.rdates@, window_pred(day_index(from_d), day_index(to_d)));
    lemma_sorted_dates_ensures(clip);
    assert forall|k: int|
        0 <= k < alg.len() implies date_wf(#[trigger] alg[k]) && day_index(from_d) <= day_index(
        alg[k],
    ) && day_index(alg[k]) <= day_index(to_d) && !e.recurrence.exdates@.contains(alg[k]) by {
        assert(insts.contains(alg[k]));
        let j = choose|j: int| 0 <= j < insts.len() && insts[j] == alg[k];
        assert(excluded_pred(e.recurrence.exdates@)(alg[k]));
    }
    assert forall|k: int|
        0 <= k < extra.len() implies date_wf(#[trigger] extra[k]) && day_index(from_d)
            <= day_index(extra[k]) && day_index(extra[k]) <= day_index(to_d)
            && e.recurrence.rdates@.contains(extra[k]) by {
        assert(extra.to_multiset().count(extra[k]) > 0);
        assert(clip.contains(extra[k]));
        let j = choose|j: int| 0 <= j < clip.len() && clip[j] == extra[k];
        assert(window_pred(day_index(from_d), day_index(to_d))(clip[j]));
        assert(e.recurrence.rdates@.contains(clip[j]));
        let j2 = choose|j2: int|
            0 <= j2 < e.recurrence.rdates@.len() && e.recurrence.rdates@[j2] == extra[k];
        assert(date_wf(e.recurrence.rdates@[j2]));
    }
    assert(sorted(alg)) by {
        assert forall|i: int, j: int| 0 <= i <= j < alg.len() implies #[trigger] alg[i].key()
            <= #[trigger] alg[j].key() by {
            if i < j {
                assert(day_index(alg[i]) < day_index(alg[j]));
                lemma_date_key_order(alg[i], alg[j]);
            }
        }
    }
    lemma_merge_sorted(alg, extra);
    assert forall|k: int|
        0 <= k < gen.len() implies date_wf(#[trigger] gen[k]) && day_index(from_d) <= day_index(
        gen[k],
    ) && day_index(gen[k]) <= day_index(to_d) && (e.recurrence.exdates@.contains(gen[k])
        ==> e.recurrence.rdates@.contains(gen[k])) by {
        assert(gen.contains(gen[k]));
        lemma_merge_membership(alg, extra, gen[k]);
        if alg.contains(gen[k]) {
            let j = choose|j: int| 0 <= j < alg.len() && alg[j] == gen[k];
        } else {
            let j = choose|j: int| 0 <= j < extra.len() && extra[j] == gen[k];
        }
    }
    assert forall|i: int, j: int|
        0 <= i <= j < gen.len() implies day_index(#[trigger] gen[i]) <= day_index(
        #[trigger] gen[j],
    ) by {
        assert(gen[i].key() <= gen[j].key());
        lemma_date_key_order(gen[i], gen[j]);
    }
}

/// The laws of the instances an event generates: the sequence is
/// non-decreasing by date; every instance belongs to the event, starts on a
/// well-formed date, and lies inside the window when bounds are given; and
/// no instance falls on an excluded date unless that date is also an extra
/// date.
#[verifier::rlimit(60)]
pub proof fn lemma_generate_laws(
    e: EventRecurring,
    from_date: Option<Date>,
    to_date: Option<Date>,
    skip: int,
    take: int,
)
    requires
        skip >= 0,
        take >= 0,
        event_wf(e),
        match from_date {
            Option::Some(d) => date_wf(d),
            Option::None => true,
        },
        match to_date {
            Option::Some(d) => date_wf(d),
            Option::None => true,
        },
    ensures
        forall|i: int, j: int|
            0 <= i <= j < spec_generated(e, from_date, to_date, skip, take).len() ==> day_index(
                instance_date(#[trigger] spec_generated(e, from_date, to_date, skip, take)[i]),
            ) <= day_index(
                instance_date(#[trigger] spec_generated(e, from_date, to_date, skip, take)[j]),
            ),
        forall|k: int|
            0 <= k < spec_generated(e, from_date, to_date, skip, take).len() ==> (
            #[trigger] spec_generated(e, from_date, to_date, skip, take)[k]).parent_id == e.id
                && date_wf(instance_date(spec_generated(e, from_date, to_date, skip, take)[k]))
                && (from_date is Some ==> day_index(from_date->0) <= day_index(
                instance_date(spec_generated(e, from_date, to_date, skip, take)[k]),
            )) && (to_date is Some ==> day_index(
                instance_date(spec_generated(e, from_date, to_date, skip, take)[k]),
            ) <= day_index(to_date->0)),
        forall|k: int|
            0 <= k < spec_generated(e, from_date, to_date, skip, take).len()
                && e.recurrence.exdates@.contains(
                instance_date(#[trigger] spec_generated(e, from_date, to_date, skip, take)[k]),
            ) ==> e.recurrence.rdates@.contains(
                instance_date(spec_generated(e, from_date, to_date, skip, take)[k]),
            ),
{
    lemma_generated_dates_laws(e, from_date, to_date);
    let gen = spec_generated_dates(e, from_date, to_date);
    let page = spec_page(gen, skip, take);
    let out = spec_generated(e, from_date, to_date, skip, take);
    let lo = if skip <= gen.len() {
        skip
    } else {
        gen.len() as int
    };
    let hi = if take <= gen.len() - lo {
        lo + take
    } else {
        gen.len() as int
    };
    assert(page == gen.subrange(lo, hi));
    assert forall|k: int| 0 <= k < page.len() implies #[trigger] page[k] == gen[lo + k] by {
        assert(gen.subrange(lo, hi)[k] == gen[lo + k]);
    }
    assert forall|k: int|
        0 <= k < out.len() implies instance_date(#[trigger] out[k]) == page[k] && out[k].parent_id
        == e.id by {
        lemma_span_at_start(e.span, page[k]);
    }
}

} // verus!
