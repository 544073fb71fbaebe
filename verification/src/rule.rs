//! The recurrence-rule data model: frequency, limit, the optional BY*
//! component lists, the per-date matching predicates, and the inference that
//! fills implied BY* fields from an event's start date.

use vstd::prelude::*;

use crate::date::{
    date_wf, date_to_days, day_index, lemma_days_before_month_mono, lemma_months_fill_year,
    spec_day_of_year, spec_weekday_index, weekday_index_of, year_day, Date,
};

verus! {

/// How often a rule recurs.
#[derive(Clone, Copy, Debug, PartialEq, Eq, Structural)]
pub enum RecurrenceFreq {
    Daily,
    Weekly,
    Monthly,
    Yearly,
}

/// A day of the week.
#[derive(Clone, Copy, Debug, PartialEq, Eq, Structural)]
pub enum Weekday {
    Mon,
    Tue,
    Wed,
    Thu,
    Fri,
    Sat,
    Sun,
}

impl View for Weekday {
    type V = Weekday;

    open spec fn view(&self) -> Weekday {
        *self
    }
}

impl DeepView for Weekday {
    type V = Weekday;

    open spec fn deep_view(&self) -> Weekday {
        *self
    }
}

/// Position of a weekday in the Monday-based week: 0 for Monday .. 6 for
/// Sunday.
pub open spec fn weekday_num(w: Weekday) -> int {
    match w {
        Weekday::Mon => 0,
        Weekday::Tue => 1,
        Weekday::Wed => 2,
        Weekday::Thu => 3,
        Weekday::Fri => 4,
        Weekday::Sat => 5,
        Weekday::Sun => 6,
    }
}

/// The weekday standing at a Monday-based position.
pub open spec fn spec_weekday_from_num(n: int) -> Weekday {
    if n == 0 {
        Weekday::Mon
    } else if n == 1 {
        Weekday::Tue
    } else if n == 2 {
        Weekday::Wed
    } else if n == 3 {
        Weekday::Thu
    } else if n == 4 {
        Weekday::Fri
    } else if n == 5 {
        Weekday::Sat
    } else {
        Weekday::Sun
    }
}

/// Weekday of a well-formed date.
pub open spec fn spec_weekday_of(d: Date) -> Weekday {
    spec_weekday_from_num(spec_weekday_index(day_index(d)))
}

/// Weekday of a date, executable form.
pub fn weekday_of(d: &Date) -> (w: Weekday)
    requires
        date_wf(*d),
    ensures
        w == spec_weekday_of(*d),
{
    let n = date_to_days(d);
    let i = weekday_index_of(n);
    if i == 0 {
        Weekday::Mon
    } else if i == 1 {
        Weekday::Tue
    } else if i == 2 {
        Weekday::Wed
    } else if i == 3 {
        Weekday::Thu
    } else if i == 4 {
        Weekday::Fri
    } else if i == 5 {
        Weekday::Sat
    } else {
        Weekday::Sun
    }
}

/// When a rule stops producing instances: never, at a date (UNTIL), or after
/// a number of instances (COUNT).
#[derive(Clone, Copy, Debug, PartialEq, Eq, Structural)]
pub enum RecurrenceLimit {
    Indefinite,
    Date(Date),
    Count(u32),
}

/// An event's recurrence rule: a data structure representing an RRULE as
/// defined in RFC 5545, restricted to daily and coarser frequencies.
#[derive(Debug)]
pub struct RecurrenceRule {
    pub frequency: RecurrenceFreq,
    pub interval: u32,
    pub limit: RecurrenceLimit,
    pub by_month: Option<Vec<u8>>,
    pub by_week_no: Option<Vec<i32>>,
    pub by_year_day: Option<Vec<i32>>,
    pub by_month_day: Option<Vec<i32>>,
    pub by_day: Option<Vec<Weekday>>,
    pub by_set_pos: Option<Vec<i32>>,
}

/// The mathematical shape of a rule: the same fields with the lists read as
/// sequences.
#[verifier::ext_equal]
pub ghost struct RuleView {
    pub frequency: RecurrenceFreq,
    pub interval: u32,
    pub limit: RecurrenceLimit,
    pub by_month: Option<Seq<u8>>,
    pub by_week_no: Option<Seq<i32>>,
    pub by_year_day: Option<Seq<i32>>,
    pub by_month_day: Option<Seq<i32>>,
    pub by_day: Option<Seq<Weekday>>,
    pub by_set_pos: Option<Seq<i32>>,
}

impl View for RecurrenceRule {
    type V = RuleView;

    open spec fn view(&self) -> RuleView {
        RuleView {
            frequency: self.frequency,
            interval: self.interval,
            limit: self.limit,
            by_month: self.by_month.deep_view(),
            by_week_no: self.by_week_no.deep_view(),
            by_year_day: self.by_year_day.deep_view(),
            by_month_day: self.by_month_day.deep_view(),
            by_day: self.by_day.deep_view(),
            by_set_pos: self.by_set_pos.deep_view(),
        }
    }
}

/// All entries of an optional list lie in `min..=max`, zero excluded, and
/// the list, when present, is non-empty.
pub open spec fn signed_list_wf(o: Option<Seq<i32>>, min: int, max: int) -> bool {
    match o {
        Option::None => true,
        Option::Some(s) => s.len() >= 1 && forall|i: int|
            0 <= i < s.len() ==> min <= #[trigger] s[i] <= max && s[i] != 0,
    }
}

/// The construction invariant of a rule: field ranges and the coexistence
/// constraints the parser enforces.
pub open spec fn rule_wf(r: RuleView) -> bool {
    &&& r.interval >= 1
    &&& match r.limit {
        RecurrenceLimit::Date(d) => date_wf(d),
        _ => true,
    }
    &&& match r.by_month {
        Option::None => true,
        Option::Some(s) => s.len() >= 1 && forall|i: int|
            0 <= i < s.len() ==> 1 <= #[trigger] s[i] <= 12,
    }
    &&& signed_list_wf(r.by_week_no, -53, 53)
    &&& signed_list_wf(r.by_year_day, -366, 366)
    &&& signed_list_wf(r.by_month_day, -31, 31)
    &&& signed_list_wf(r.by_set_pos, -366, 366)
    &&& match r.by_day {
        Option::None => true,
        Option::Some(s) => s.len() >= 1,
    }
    &&& !(r.by_year_day is Some && (r.frequency == RecurrenceFreq::Daily || r.frequency
        == RecurrenceFreq::Weekly || r.frequency == RecurrenceFreq::Monthly))
    &&& !(r.by_month_day is Some && r.frequency == RecurrenceFreq::Weekly)
    &&& !(r.by_week_no is Some && r.frequency != RecurrenceFreq::Yearly)
    &&& !(r.by_set_pos is Some && r.by_day is None && r.by_month is None && r.by_year_day is None
        && r.by_month_day is None && r.by_week_no is None)
}

/// The date's month appears in the BYMONTH list, or the list is absent.
pub open spec fn month_matches(by_month: Option<Seq<u8>>, d: Date) -> bool {
    match by_month {
        Option::None => true,
        Option::Some(s) => s.contains(d.month),
    }
}

/// The date's ordinal day of the year appears in the BYYEARDAY list, or the
/// list is absent. Negative entries never match: only positive day numbers
/// are compared.
pub open spec fn year_day_matches(by_year_day: Option<Seq<i32>>, d: Date) -> bool {
    match by_year_day {
        Option::None => true,
        Option::Some(s) => exists|i: int| 0 <= i < s.len() && s[i] == spec_day_of_year(d),
    }
}

/// The date's day of the month appears in the BYMONTHDAY list, or the list
/// is absent. Negative entries never match.
pub open spec fn month_day_matches(by_month_day: Option<Seq<i32>>, d: Date) -> bool {
    match by_month_day {
        Option::None => true,
        Option::Some(s) => s.contains(d.day as i32),
    }
}

/// The date's weekday appears in the BYDAY list, or the list is absent.
pub open spec fn day_matches(by_day: Option<Seq<Weekday>>, d: Date) -> bool {
    match by_day {
        Option::None => true,
        Option::Some(s) => s.contains(spec_weekday_of(d)),
    }
}

/// A date is compatible with every BY* component of the rule. BYWEEKNO and
/// BYSETPOS have no matching predicate in this version; evaluation refuses
/// rules that carry them before this predicate is ever consulted.
pub open spec fn date_fits(r: RuleView, d: Date) -> bool {
    &&& month_matches(r.by_month, d)
    &&& year_day_matches(r.by_year_day, d)
    &&& month_day_matches(r.by_month_day, d)
    &&& day_matches(r.by_day, d)
}

/// For element types whose deep view is the element itself, a vector's deep
/// view is its plain view.
proof fn lemma_deep_view_u8(v: &Vec<u8>)
    ensures
        v.deep_view() == v@,
{
    assert(v.deep_view() =~= v@);
}

proof fn lemma_deep_view_i32(v: &Vec<i32>)
    ensures
        v.deep_view() == v@,
{
    assert(v.deep_view() =~= v@);
}

proof fn lemma_deep_view_weekday(v: &Vec<Weekday>)
    ensures
        v.deep_view() == v@,
{
    assert(v.deep_view() =~= v@);
}

fn contains_u8(v: &Vec<u8>, x: u8) -> (r: bool)
    ensures
        r == v.deep_view().contains(x),
{
    proof {
        lemma_deep_view_u8(v);
    }
    let mut i: usize = 0;
    while i < v.len()
        invariant
            0 <= i <= v.len(),
            v.deep_view() == v@,
            forall|j: int| 0 <= j < i ==> v@[j] != x,
        decreases v.len() - i,
    {
        if v[i] == x {
            return true;
        }
        i = i + 1;
    }
    false
}

fn contains_i32(v: &Vec<i32>, x: i32) -> (r: bool)
    ensures
        r == v.deep_view().contains(x),
{
    proof {
        lemma_deep_view_i32(v);
    }
    let mut i: usize = 0;
    while i < v.len()
        invariant
            0 <= i <= v.len(),
            v.deep_view() == v@,
            forall|j: int| 0 <= j < i ==> v@[j] != x,
        decreases v.len() - i,
    {
        if v[i] == x {
            return true;
        }
        i = i + 1;
    }
    false
}

fn contains_weekday(v: &Vec<Weekday>, x: Weekday) -> (r: bool)
    ensures
        r == v.deep_view().contains(x),
{
    proof {
        lemma_deep_view_weekday(v);
    }
    let mut i: usize = 0;
    while i < v.len()
        invariant
            0 <= i <= v.len(),
            v.deep_view() == v@,
            forall|j: int| 0 <= j < i ==> v@[j] != x,
        decreases v.len() - i,
    {
        if v[i] == x {
            return true;
        }
        i = i + 1;
    }
    false
}

impl RecurrenceRule {
    /// Check if `date` fits into the BYMONTH property of this rule.
    fn check_by_month(&self, date: &Date) -> (r: bool)
        ensures
            r == month_matches(self@.by_month, *date),
    {
        match &self.by_month {
            Option::Some(by_month) => contains_u8(by_month, date.month),
            Option::None => true,
        }
    }

    /// Check if `date` fits into the BYYEARDAY property of this rule.
    fn check_by_year_day(&self, date: &Date) -> (r: bool)
        requires
            date_wf(*date),
        ensures
            r == year_day_matches(self@.by_year_day, *date),
    {
        match &self.by_year_day {
            Option::Some(by_year_day) => {
                let yd = year_day(date) as i32;
                let r = contains_i32(by_year_day, yd);
                proof {
                    let s = self@.by_year_day->Some_0;
                    assert(s.contains(yd) == (exists|i: int|
                        0 <= i < s.len() && s[i] == spec_day_of_year(*date)));
                }
                r
            },
            Option::None => true,
        }
    }

    /// Check if `date` fits into the BYMONTHDAY property of this rule.
    fn check_by_month_day(&self, date: &Date) -> (r: bool)
        ensures
            r == month_day_matches(self@.by_month_day, *date),
    {
        match &self.by_month_day {
            Option::Some(by_month_day) => contains_i32(by_month_day, date.day as i32),
            Option::None => true,
        }
    }

    /// Check if `date` fits into the BYDAY property of this rule.
    fn check_by_day(&self, date: &Date) -> (r: bool)
        requires
            date_wf(*date),
        ensures
            r == day_matches(self@.by_day, *date),
    {
        match &self.by_day {
            Option::Some(by_day) => contains_weekday(by_day, weekday_of(date)),
            Option::None => true,
        }
    }

    /// Check if `date` is compatible with every BY* component, consulting
    /// the predicates in RFC 5545 order: month, year-day, month-day, day.
    pub(crate) fn fits_date(&self, date: &Date) -> (r: bool)
        requires
            date_wf(*date),
            self@.by_week_no is None,
            self@.by_set_pos is None,
        ensures
            r == date_fits(self@, *date),
    {
        self.check_by_month(date) && self.check_by_year_day(date) && self.check_by_month_day(date)
            && self.check_by_day(date)
    }
}

/// What inference adds to an under-specified rule, given the start date:
/// a weekly rule without BYDAY recurs on the start date's weekday; a monthly
/// rule without BYMONTHDAY and BYDAY recurs on the start date's day of the
/// month; a yearly rule is pinned to the start date's day within its most
/// specific present component, or to its ordinal day of the year.
pub open spec fn spec_infer(r: RuleView, start: Date) -> RuleView {
    let r1 = if r.frequency == RecurrenceFreq::Weekly && r.by_day is None {
        RuleView { by_day: Option::Some(seq![spec_weekday_of(start)]), ..r }
    } else {
        r
    };
    let r2 = if r1.frequency == RecurrenceFreq::Monthly && r1.by_month_day is None
        && r1.by_day is None {
        RuleView { by_month_day: Option::Some(seq![start.day as i32]), ..r1 }
    } else {
        r1
    };
    if r2.frequency == RecurrenceFreq::Yearly {
        if r2.by_month is Some {
            if r2.by_month_day is None {
                RuleView { by_month_day: Option::Some(seq![start.day as i32]), ..r2 }
            } else {
                r2
            }
        } else if r2.by_week_no is Some {
            if r2.by_day is None {
                RuleView { by_day: Option::Some(seq![spec_weekday_of(start)]), ..r2 }
            } else {
                r2
            }
        } else if r2.by_year_day is None {
            RuleView { by_year_day: Option::Some(seq![spec_day_of_year(start) as i32]), ..r2 }
        } else {
            r2
        }
    } else {
        r2
    }
}

/// Inference never removes information and never changes what is already
/// present, so running it a second time with the same start date changes
/// nothing.
pub proof fn lemma_infer_idempotent(r: RuleView, start: Date)
    ensures
        spec_infer(spec_infer(r, start), start) == spec_infer(r, start),
{
}

/// Inference keeps a well-formed rule well-formed.
pub proof fn lemma_infer_wf(r: RuleView, start: Date)
    requires
        rule_wf(r),
        date_wf(start),
    ensures
        rule_wf(spec_infer(r, start)),
{
    lemma_days_before_month_mono(start.year as int, 1, start.month as int);
    lemma_days_before_month_mono(start.year as int, start.month as int + 1, 13);
    lemma_months_fill_year(start.year as int);
}

fn singleton_i32(x: i32) -> (r: Vec<i32>)
    ensures
        r.deep_view() == seq![x],
{
    let mut v: Vec<i32> = Vec::new();
    v.push(x);
    proof {
        lemma_deep_view_i32(&v);
        assert(v@ =~= seq![x]);
    }
    v
}

fn singleton_weekday(w: Weekday) -> (r: Vec<Weekday>)
    ensures
        r.deep_view() == seq![w],
{
    let mut v: Vec<Weekday> = Vec::new();
    v.push(w);
    proof {
        lemma_deep_view_weekday(&v);
        assert(v@ =~= seq![w]);
    }
    v
}

impl RecurrenceRule {
    /// Returns a copy of this recurrence rule with inferred values if
    /// they're not already set.
    ///
    /// E.g.: if not already specified, BYDAY is inferred to be the same
    /// weekday as `start_date` when FREQ=WEEKLY.
    pub fn infer_stuff(&self, start_date: Date) -> (r: RecurrenceRule)
        requires
            date_wf(start_date),
        ensures
            r@ == spec_infer(self@, start_date),
    {
        let mut new_rule = RecurrenceRule {
            frequency: self.frequency,
            interval: self.interval,
            limit: self.limit,
            by_month: copy_list_u8(&self.by_month),
            by_week_no: copy_list_i32(&self.by_week_no),
            by_year_day: copy_list_i32(&self.by_year_day),
            by_month_day: copy_list_i32(&self.by_month_day),
            by_day: copy_list_weekday(&self.by_day),
            by_set_pos: copy_list_i32(&self.by_set_pos),
        };
        if new_rule.frequency == RecurrenceFreq::Weekly && new_rule.by_day.is_none() {
            new_rule.by_day = Option::Some(singleton_weekday(weekday_of(&start_date)));
        }
        if new_rule.frequency == RecurrenceFreq::Monthly && new_rule.by_month_day.is_none()
            && new_rule.by_day.is_none() {
            new_rule.by_month_day = Option::Some(singleton_i32(start_date.day as i32));
        }
        if new_rule.frequency == RecurrenceFreq::Yearly {
            if new_rule.by_month.is_some() {
                if new_rule.by_month_day.is_none() {
                    new_rule.by_month_day = Option::Some(singleton_i32(start_date.day as i32));
                }
            } else if new_rule.by_week_no.is_some() {
                if new_rule.by_day.is_none() {
                    new_rule.by_day = Option::Some(singleton_weekday(weekday_of(&start_date)));
                }
            } else if new_rule.by_year_day.is_none() {
                new_rule.by_year_day = Option::Some(singleton_i32(year_day(&start_date) as i32));
            }
        }
        proof {
            assert(new_rule@ =~= spec_infer(self@, start_date));
        }
        new_rule
    }
}

fn copy_list_u8(o: &Option<Vec<u8>>) -> (r: Option<Vec<u8>>)
    ensures
        r.deep_view() == o.deep_view(),
{
    match o {
        Option::None => Option::None,
        Option::Some(v) => {
            let mut out: Vec<u8> = Vec::new();
            let mut i: usize = 0;
            while i < v.len()
                invariant
                    0 <= i <= v.len(),
                    out@ == v@.take(i as int),
                decreases v.len() - i,
            {
                out.push(v[i]);
                proof {
                    assert(out@ =~= v@.take(i + 1int));
                }
                i = i + 1;
            }
            proof {
                assert(out@ =~= v@);
                lemma_deep_view_u8(v);
                lemma_deep_view_u8(&out);
            }
            Option::Some(out)
        },
    }
}

fn copy_list_i32(o: &Option<Vec<i32>>) -> (r: Option<Vec<i32>>)
    ensures
        r.deep_view() == o.deep_view(),
{
    match o {
        Option::None => Option::None,
        Option::Some(v) => {
            let mut out: Vec<i32> = Vec::new();
            let mut i: usize = 0;
            while i < v.len()
                invariant
                    0 <= i <= v.len(),
                    out@ == v@.take(i as int),
                decreases v.len() - i,
            {
                out.push(v[i]);
                proof {
                    assert(out@ =~= v@.take(i + 1int));
                }
                i = i + 1;
            }
            proof {
                assert(out@ =~= v@);
                lemma_deep_view_i32(v);
                lemma_deep_view_i32(&out);
            }
            Option::Some(out)
        },
    }
}

fn copy_list_weekday(o: &Option<Vec<Weekday>>) -> (r: Option<Vec<Weekday>>)
    ensures
        r.deep_view() == o.deep_view(),
{
    match o {
        Option::None => Option::None,
        Option::Some(v) => {
            let mut out: Vec<Weekday> = Vec::new();
            let mut i: usize = 0;
            while i < v.len()
                invariant
                    0 <= i <= v.len(),
                    out@ == v@.take(i as int),
                decreases v.len() - i,
            {
                out.push(v[i]);
                proof {
                    assert(out@ =~= v@.take(i + 1int));
                }
                i = i + 1;
            }
            proof {
                assert(out@ =~= v@);
                lemma_deep_view_weekday(v);
                lemma_deep_view_weekday(&out);
            }
            Option::Some(out)
        },
    }
}

impl Default for RecurrenceRule {
    /// A daily rule with interval 1, no limit and no BY* components.
    fn default() -> (r: Self)
        ensures
            r@.frequency == RecurrenceFreq::Daily,
            r@.interval == 1,
            r@.limit == RecurrenceLimit::Indefinite,
            r@.by_month is None,
            r@.by_week_no is None,
            r@.by_year_day is None,
            r@.by_month_day is None,
            r@.by_day is None,
            r@.by_set_pos is None,
    {
        RecurrenceRule {
            frequency: RecurrenceFreq::Daily,
            interval: 1,
            limit: RecurrenceLimit::Indefinite,
            by_month: Option::None,
            by_week_no: Option::None,
            by_year_day: Option::None,
            by_month_day: Option::None,
            by_day: Option::None,
            by_set_pos: Option::None,
        }
    }
}

fn eq_list_u8(a: &Option<Vec<u8>>, b: &Option<Vec<u8>>) -> (r: bool)
    ensures
        r == (a.deep_view() == b.deep_view()),
{
    match (a, b) {
        (Option::None, Option::None) => true,
        (Option::Some(x), Option::Some(y)) => {
            proof {
                lemma_deep_view_u8(x);
                lemma_deep_view_u8(y);
            }
            if x.len() != y.len() {
                return false;
            }
            let mut i: usize = 0;
            while i < x.len()
                invariant
                    0 <= i <= x.len(),
                    x.len() == y.len(),
                    x.deep_view() == x@,
                    y.deep_view() == y@,
                    a.deep_view() == Option::Some(x.deep_view()),
                    b.deep_view() == Option::Some(y.deep_view()),
                    forall|j: int| 0 <= j < i ==> x@[j] == y@[j],
                decreases x.len() - i,
            {
                if x[i] != y[i] {
                    proof {
                        assert(x.deep_view()[i as int] != y.deep_view()[i as int]);
                    }
                    return false;
                }
                i = i + 1;
            }
            proof {
                assert(x@ =~= y@);
            }
            true
        },
        _ => false,
    }
}

fn eq_list_i32(a: &Option<Vec<i32>>, b: &Option<Vec<i32>>) -> (r: bool)
    ensures
        r == (a.deep_view() == b.deep_view()),
{
    match (a, b) {
        (Option::None, Option::None) => true,
        (Option::Some(x), Option::Some(y)) => {
            proof {
                lemma_deep_view_i32(x);
                lemma_deep_view_i32(y);
            }
            if x.len() != y.len() {
                return false;
            }
            let mut i: usize = 0;
            while i < x.len()
                invariant
                    0 <= i <= x.len(),
                    x.len() == y.len(),
                    x.deep_view() == x@,
                    y.deep_view() == y@,
                    a.deep_view() == Option::Some(x.deep_view()),
                    b.deep_view() == Option::Some(y.deep_view()),
                    forall|j: int| 0 <= j < i ==> x@[j] == y@[j],
                decreases x.len() - i,
            {
                if x[i] != y[i] {
                    proof {
                        assert(x.deep_view()[i as int] != y.deep_view()[i as int]);
                    }
                    return false;
                }
                i = i + 1;
            }
            proof {
                assert(x@ =~= y@);
            }
            true
        },
        _ => false,
    }
}

fn eq_list_weekday(a: &Option<Vec<Weekday>>, b: &Option<Vec<Weekday>>) -> (r: bool)
    ensures
        r == (a.deep_view() == b.deep_view()),
{
    match (a, b) {
        (Option::None, Option::None) => true,
        (Option::Some(x), Option::Some(y)) => {
            proof {
                lemma_deep_view_weekday(x);
                lemma_deep_view_weekday(y);
            }
            if x.len() != y.len() {
                return false;
            }
            let mut i: usize = 0;
            while i < x.len()
                invariant
                    0 <= i <= x.len(),
                    x.len() == y.len(),
                    x.deep_view() == x@,
                    y.deep_view() == y@,
                    a.deep_view() == Option::Some(x.deep_view()),
                    b.deep_view() == Option::Some(y.deep_view()),
                    forall|j: int| 0 <= j < i ==> x@[j] == y@[j],
                decreases x.len() - i,
            {
                if x[i] != y[i] {
                    proof {
                        assert(x.deep_view()[i as int] != y.deep_view()[i as int]);
                    }
                    return false;
                }
                i = i + 1;
            }
            proof {
                assert(x@ =~= y@);
            }
            true
        },
        _ => false,
    }
}

impl PartialEq for RecurrenceRule {
    /// Two rules are equal when every field is, with the lists compared
    /// element by element.
    fn eq(&self, other: &RecurrenceRule) -> (r: bool) {
        self.frequency == other.frequency && self.interval == other.interval && self.limit
            == other.limit && eq_list_u8(&self.by_month, &other.by_month) && eq_list_i32(
            &self.by_week_no,
            &other.by_week_no,
        ) && eq_list_i32(&self.by_year_day, &other.by_year_day) && eq_list_i32(
            &self.by_month_day,
            &other.by_month_day,
        ) && eq_list_weekday(&self.by_day, &other.by_day) && eq_list_i32(
            &self.by_set_pos,
            &other.by_set_pos,
        )
    }
}

impl vstd::std_specs::cmp::PartialEqSpecImpl for RecurrenceRule {
    open spec fn obeys_eq_spec() -> bool {
        true
    }

    open spec fn eq_spec(&self, other: &RecurrenceRule) -> bool {
        self@ == other@
    }
}

} // verus!
