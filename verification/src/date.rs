//! A calendar date in the proleptic Gregorian calendar, kept as plain
//! year/month/day fields, together with the arithmetic the recurrence engine
//! needs: day-of-year, a linear day index, weekdays, and the distinct-week
//! distance between two dates.

use vstd::prelude::*;

verus! {

/// Smallest year a `Date` may carry.
pub const MIN_YEAR: i32 = 0;

/// Largest year a `Date` may carry.
pub const MAX_YEAR: i32 = 9999;

/// Number of days in years `MIN_YEAR..=MAX_YEAR`; one more than the largest
/// valid day index.
pub const TOTAL_DAYS: u32 = 3652425;

/// A naive calendar date: no time zone, interpreted as UTC.
#[derive(Clone, Copy, Debug, PartialEq, Eq, Structural)]
pub struct Date {
    pub year: i32,
    pub month: u8,
    pub day: u8,
}

impl View for Date {
    type V = Date;

    open spec fn view(&self) -> Date {
        *self
    }
}

impl DeepView for Date {
    type V = Date;

    open spec fn deep_view(&self) -> Date {
        *self
    }
}

/// True for years with 366 days in the proleptic Gregorian calendar.
pub open spec fn spec_is_leap_year(year: int) -> bool {
    year % 4 == 0 && (year % 100 != 0 || year % 400 == 0)
}

/// Gregorian leap-year test.
pub fn is_leap_year(year: i32) -> (r: bool)
    ensures
        r == spec_is_leap_year(year as int),
{
    year % 4 == 0 && (year % 100 != 0 || year % 400 == 0)
}

/// Number of days in the given month (1 = January .. 12 = December).
pub open spec fn spec_days_in_month(year: int, month: int) -> int {
    if month == 2 {
        if spec_is_leap_year(year) {
            29
        } else {
            28
        }
    } else if month == 4 || month == 6 || month == 9 || month == 11 {
        30
    } else {
        31
    }
}

/// Number of days in the given year.
pub open spec fn spec_days_in_year(year: int) -> int {
    if spec_is_leap_year(year) {
        366
    } else {
        365
    }
}

/// A well-formed date: month and day in range for the year, year in the
/// range the engine supports.
pub open spec fn date_wf(d: Date) -> bool {
    &&& MIN_YEAR <= d.year <= MAX_YEAR
    &&& 1 <= d.month <= 12
    &&& 1 <= d.day <= spec_days_in_month(d.year as int, d.month as int)
}

impl Date {
    /// Builds a date from its fields.
    pub fn new(year: i32, month: u8, day: u8) -> (d: Date)
        ensures
            d == (Date { year, month, day }),
    {
        Date { year, month, day }
    }

    /// True when the fields form a real calendar date the engine supports.
    pub fn is_valid(&self) -> (r: bool)
        ensures
            r == date_wf(*self),
    {
        MIN_YEAR <= self.year && self.year <= MAX_YEAR && 1 <= self.month && self.month <= 12
            && 1 <= self.day && self.day <= days_in_month(self.year, self.month)
    }
}

/// Days in the months strictly before `month` of `year`
/// (so `spec_days_before_month(y, 1) == 0`).
pub open spec fn spec_days_before_month(year: int, month: int) -> int
    decreases month,
{
    if month <= 1 {
        0
    } else {
        spec_days_before_month(year, month - 1) + spec_days_in_month(year, month - 1)
    }
}

/// Ordinal day of the year of a date: 1 for January 1st.
pub open spec fn spec_day_of_year(d: Date) -> int {
    spec_days_before_month(d.year as int, d.month as int) + d.day
}

/// Days in the years `MIN_YEAR..year`.
pub open spec fn spec_days_before_year(year: int) -> int
    decreases year,
{
    if year <= 0 {
        0
    } else {
        spec_days_before_year(year - 1) + spec_days_in_year(year - 1)
    }
}

/// Position of a date on the linear day line: 0 for January 1st of year
/// `MIN_YEAR`, increasing by one per day.
pub open spec fn day_index(d: Date) -> int {
    spec_days_before_year(d.year as int) + spec_day_of_year(d) - 1
}

/// Days in a month, executable form.
pub fn days_in_month(year: i32, month: u8) -> (r: u8)
    ensures
        r == spec_days_in_month(year as int, month as int),
{
    if month == 2 {
        if is_leap_year(year) {
            29
        } else {
            28
        }
    } else if month == 4 || month == 6 || month == 9 || month == 11 {
        30
    } else {
        31
    }
}

/// The month sums are monotone in the month.
pub proof fn lemma_days_before_month_mono(year: int, m1: int, m2: int)
    requires
        m1 <= m2,
    ensures
        spec_days_before_month(year, m1) <= spec_days_before_month(year, m2),
    decreases m2 - m1,
{
    if m1 < m2 {
        lemma_days_before_month_mono(year, m1, m2 - 1);
    }
}

/// The twelve month lengths of a year add up to the length of the year.
pub proof fn lemma_months_fill_year(year: int)
    ensures
        spec_days_before_month(year, 13) == spec_days_in_year(year),
{
    reveal_with_fuel(spec_days_before_month, 13);
}

/// The year sums are monotone in the year.
pub proof fn lemma_days_before_year_mono(y1: int, y2: int)
    requires
        y1 <= y2,
    ensures
        spec_days_before_year(y1) <= spec_days_before_year(y2),
    decreases y2 - y1,
{
    if y1 < y2 {
        lemma_days_before_year_mono(y1, y2 - 1);
    }
}

/// A well-formed date's index lies within the days of its own year.
pub proof fn lemma_day_index_in_year(d: Date)
    requires
        date_wf(d),
    ensures
        spec_days_before_year(d.year as int) <= day_index(d),
        day_index(d) < spec_days_before_year(d.year as int + 1),
{
    lemma_days_before_month_mono(d.year as int, 1, d.month as int);
    lemma_days_before_month_mono(d.year as int, d.month as int + 1, 13);
    lemma_months_fill_year(d.year as int);
}

/// The day index orders dates exactly as the year/month/day fields do,
/// lexicographically; in particular it is injective on well-formed dates.
pub proof fn lemma_day_index_order(a: Date, b: Date)
    requires
        date_wf(a),
        date_wf(b),
    ensures
        (day_index(a) < day_index(b)) <==> (a.year < b.year || (a.year == b.year && a.month
            < b.month) || (a.year == b.year && a.month == b.month && a.day < b.day)),
        (day_index(a) == day_index(b)) <==> a == b,
{
    lemma_day_index_in_year(a);
    lemma_day_index_in_year(b);
    if a.year == b.year {
        if a.month < b.month {
            lemma_days_before_month_mono(a.year as int, a.month as int + 1, b.month as int);
        } else if b.month < a.month {
            lemma_days_before_month_mono(a.year as int, b.month as int + 1, a.month as int);
        }
    } else if a.year < b.year {
        lemma_days_before_year_mono(a.year as int + 1, b.year as int);
    } else {
        lemma_days_before_year_mono(b.year as int + 1, a.year as int);
    }
}

/// Every day index of a well-formed date lies below `TOTAL_DAYS`.
pub proof fn lemma_day_index_total(d: Date)
    requires
        date_wf(d),
    ensures
        0 <= day_index(d) < TOTAL_DAYS,
        TOTAL_DAYS == spec_days_before_year(MAX_YEAR as int + 1),
{
    lemma_day_index_in_year(d);
    lemma_days_before_year_mono(0, d.year as int);
    lemma_days_before_month_mono(d.year as int, 1, d.month as int);
    lemma_days_before_year_mono(d.year as int + 1, MAX_YEAR as int + 1);
    lemma_days_before_year_value(MAX_YEAR as int + 1);
}

/// Closed form of the year sums, used only to pin the constant `TOTAL_DAYS`.
proof fn lemma_days_before_year_value(year: int)
    requires
        0 <= year <= MAX_YEAR + 1,
    ensures
        spec_days_before_year(year) == 365 * year + (if year == 0 {
            0
        } else {
            1 + (year - 1) / 4 - (year - 1) / 100 + (year - 1) / 400
        }),
    decreases year,
{
    if year > 0 {
        lemma_days_before_year_value(year - 1);
        assert(spec_days_before_year(year) == 365 * year + (if year == 0 {
            0
        } else {
            1 + (year - 1) / 4 - (year - 1) / 100 + (year - 1) / 400
        })) by (nonlinear_arith)
            requires
                year > 0,
                spec_days_before_year(year) == spec_days_before_year(year - 1)
                    + spec_days_in_year(year - 1),
                spec_days_in_year(year - 1) == if spec_is_leap_year(year - 1) {
                    366int
                } else {
                    365int
                },
                spec_is_leap_year(year - 1) == ((year - 1) % 4 == 0 && ((year - 1) % 100 != 0 || (
                year - 1) % 400 == 0)),
                spec_days_before_year(year - 1) == 365 * (year - 1) + (if year - 1 == 0 {
                    0
                } else {
                    1 + (year - 2) / 4 - (year - 2) / 100 + (year - 2) / 400
                }),
        ;
    }
}

/// Ordinal day of the year: 1 for January 1st, 46 for February 15th, 366 for
/// December 31st of a leap year.
pub fn year_day(d: &Date) -> (r: u16)
    requires
        date_wf(*d),
    ensures
        r == spec_day_of_year(*d),
{
    let mut day_count: u16 = d.day as u16;
    let mut month: u8 = 1;
    while month < d.month
        invariant
            1 <= month <= d.month,
            date_wf(*d),
            day_count == d.day + spec_days_before_month(d.year as int, month as int),
            day_count <= 31 + 31 * month,
        decreases d.month - month,
    {
        day_count = day_count + days_in_month(d.year, month) as u16;
        month = month + 1;
    }
    day_count
}

/// Days in the years before `year`, executable form.
pub fn days_before_year(year: i32) -> (r: u32)
    requires
        0 <= year <= MAX_YEAR + 1,
    ensures
        r == spec_days_before_year(year as int),
        r <= 366 * year,
{
    let mut acc: u32 = 0;
    let mut y: i32 = 0;
    while y < year
        invariant
            0 <= y <= year <= MAX_YEAR + 1,
            acc == spec_days_before_year(y as int),
            acc <= 366 * y,
        decreases year - y,
    {
        if is_leap_year(y) {
            acc = acc + 366;
        } else {
            acc = acc + 365;
        }
        y = y + 1;
    }
    acc
}

/// Converts a date to its position on the day line.
pub fn date_to_days(d: &Date) -> (n: u32)
    requires
        date_wf(*d),
    ensures
        n == day_index(*d),
        n < TOTAL_DAYS,
{
    proof {
        lemma_day_index_total(*d);
    }
    let before_year = days_before_year(d.year);
    let mut acc: u32 = before_year;
    let mut month: u8 = 1;
    while month < d.month
        invariant
            1 <= month <= d.month,
            date_wf(*d),
            acc == spec_days_before_year(d.year as int) + spec_days_before_month(
                d.year as int,
                month as int,
            ),
            acc <= spec_days_before_year(d.year as int) + 31 * (month - 1),
            spec_days_before_year(d.year as int) <= 366 * MAX_YEAR as int,
        decreases d.month - month,
    {
        acc = acc + days_in_month(d.year, month) as u32;
        month = month + 1;
    }
    acc + (d.day - 1) as u32
}

/// Converts a position on the day line back to the date there.
pub fn days_to_date(n: u32) -> (d: Date)
    requires
        n < TOTAL_DAYS,
    ensures
        date_wf(d),
        day_index(d) == n,
{
    proof {
        lemma_days_before_year_value(MAX_YEAR as int + 1);
    }
    let mut y: i32 = 0;
    let mut rem: u32 = n;
    loop
        invariant
            0 <= y <= MAX_YEAR,
            spec_days_before_year(y as int) + rem == n,
            n < TOTAL_DAYS,
            TOTAL_DAYS == spec_days_before_year(MAX_YEAR as int + 1),
        ensures
            0 <= y <= MAX_YEAR,
            spec_days_before_year(y as int) + rem == n,
            rem < spec_days_in_year(y as int),
        decreases rem,
    {
        let len: u32 = if is_leap_year(y) {
            366
        } else {
            365
        };
        if rem < len {
            break ;
        }
        proof {
            if y == MAX_YEAR {
                lemma_days_before_year_mono(MAX_YEAR as int + 1, MAX_YEAR as int + 1);
                assert(spec_days_before_year(MAX_YEAR as int + 1) == spec_days_before_year(
                    MAX_YEAR as int,
                ) + spec_days_in_year(MAX_YEAR as int));
                assert(false);
            }
        }
        rem = rem - len;
        y = y + 1;
    }
    let mut month: u8 = 1;
    loop
        invariant
            1 <= month <= 12,
            0 <= y <= MAX_YEAR,
            spec_days_before_year(y as int) + spec_days_before_month(y as int, month as int) + rem
                == n,
            spec_days_before_month(y as int, month as int) + rem < spec_days_in_year(y as int),
        ensures
            1 <= month <= 12,
            0 <= y <= MAX_YEAR,
            spec_days_before_year(y as int) + spec_days_before_month(y as int, month as int) + rem
                == n,
            rem < spec_days_in_month(y as int, month as int),
        decreases 12 - month,
    {
        let len = days_in_month(y, month) as u32;
        if rem < len {
            break ;
        }
        proof {
            if month == 12 {
                lemma_months_fill_year(y as int);
                assert(spec_days_before_month(y as int, 13) == spec_days_before_month(y as int, 12)
                    + spec_days_in_month(y as int, 12));
                assert(false);
            }
        }
        rem = rem - len;
        month = month + 1;
    }
    Date { year: y, month, day: (rem + 1) as u8 }
}

/// Every day-line position below `TOTAL_DAYS` is the index of a
/// well-formed date.
pub proof fn lemma_index_surjective(n: int)
    requires
        0 <= n < TOTAL_DAYS,
    ensures
        exists|d: Date| date_wf(d) && day_index(d) == n,
    decreases n,
{
    lemma_days_before_year_value(MAX_YEAR as int + 1);
    if n == 0 {
        let d0 = Date { year: 0, month: 1, day: 1 };
        assert(date_wf(d0) && day_index(d0) == 0);
    } else {
        lemma_index_surjective(n - 1);
        let d = choose|d: Date| date_wf(d) && day_index(d) == n - 1;
        let y = d.year as int;
        let m = d.month as int;
        if (d.day as int) < spec_days_in_month(y, m) {
            let d2 = Date { year: d.year, month: d.month, day: (d.day + 1) as u8 };
            assert(date_wf(d2) && day_index(d2) == n);
        } else if m < 12 {
            let d2 = Date { year: d.year, month: (d.month + 1) as u8, day: 1 };
            assert(spec_days_before_month(y, m + 1) == spec_days_before_month(y, m)
                + spec_days_in_month(y, m));
            assert(date_wf(d2) && day_index(d2) == n);
        } else {
            lemma_months_fill_year(y);
            assert(spec_days_before_month(y, 13) == spec_days_before_month(y, 12)
                + spec_days_in_month(y, 12));
            assert(day_index(d) == spec_days_before_year(y + 1) - 1);
            if y == MAX_YEAR {
                assert(n == spec_days_before_year(MAX_YEAR as int + 1));
                assert(false);
            }
            let d2 = Date { year: (d.year + 1) as i32, month: 1, day: 1 };
            assert(date_wf(d2) && day_index(d2) == n);
        }
    }
}

/// The date standing at a day-line position; `lemma_date_of_index` shows it
/// is the one well-formed date with that index.
pub open spec fn date_of_index(n: int) -> Date {
    choose|d: Date| date_wf(d) && day_index(d) == n
}

pub proof fn lemma_date_of_index(n: int)
    requires
        0 <= n < TOTAL_DAYS,
    ensures
        date_wf(date_of_index(n)),
        day_index(date_of_index(n)) == n,
{
    lemma_index_surjective(n);
}

/// Weekday of a day-line position: 0 is Monday .. 6 is Sunday.
pub open spec fn spec_weekday_index(n: int) -> int {
    (n + 5) % 7
}

/// Weekday of a day-line position, executable form.
pub fn weekday_index_of(n: u32) -> (w: u8)
    requires
        n < TOTAL_DAYS,
    ensures
        w == spec_weekday_index(n as int),
        w < 7,
{
    ((n + 5) % 7) as u8
}

/// Number of distinct calendar weeks (Monday-based) separating day-line
/// positions `a` and `b`, for `a >= b`: how many weeks lie between the
/// Mondays that begin their weeks. Two dates in different calendar weeks are
/// always at distance at least 1, even when fewer than 7 days apart, and a
/// date is at distance 0 only from dates in its own week.
pub open spec fn spec_uniq_weeks_between(a: int, b: int) -> int {
    let monday_a = a - spec_weekday_index(a);
    let monday_b = b - spec_weekday_index(b);
    (monday_a - monday_b) / 7
}

/// The start of the week moves with the date: it never decreases, and it
/// advances by whole weeks.
pub proof fn lemma_week_start_mono(a: int, b: int)
    requires
        b <= a,
    ensures
        b - spec_weekday_index(b) <= a - spec_weekday_index(a),
        ((a - spec_weekday_index(a)) - (b - spec_weekday_index(b))) % 7 == 0,
{
    let k = a - b;
    let w = (b + 5) % 7;
    assert((a + 5) % 7 == (w + k) % 7) by (nonlinear_arith)
        requires
            k == a - b,
            w == (b + 5) % 7,
    ;
    assert((w + k) % 7 <= w + k % 7 + 7 && (w + k) % 7 >= 0 && ((w + k) - (w + k) % 7) % 7 == 0)
        by (nonlinear_arith)
        requires
            k >= 0,
            0 <= w < 7,
    ;
    assert(k - ((w + k) % 7 - w) >= 0 && (k - ((w + k) % 7 - w)) % 7 == 0) by (nonlinear_arith)
        requires
            k >= 0,
            0 <= w < 7,
            w == (b + 5) % 7,
            (w + k) % 7 == (w + k) - 7 * ((w + k) / 7),
    ;
}

/// Distinct-week distance between two day-line positions, executable form.
pub fn uniq_weeks_between(a: u32, b: u32) -> (r: u32)
    requires
        b <= a,
        a < TOTAL_DAYS,
    ensures
        r == spec_uniq_weeks_between(a as int, b as int),
{
    proof {
        lemma_week_start_mono(a as int, b as int);
    }
    let wa = weekday_index_of(a);
    let wb = weekday_index_of(b);
    let monday_a: i64 = a as i64 - wa as i64;
    let monday_b: i64 = b as i64 - wb as i64;
    ((monday_a - monday_b) / 7) as u32
}

} // verus!
