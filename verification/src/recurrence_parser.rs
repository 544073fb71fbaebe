//! The RRULE parser: semicolon-separated `KEY=VALUE` properties, in any
//! order, to a validated `RecurrenceRule` or a tagged failure.

use vstd::prelude::*;
use vstd::string::StrSliceExecFns;
use vstd::string::StringExecFns;

use crate::date::{date_wf, Date};
use crate::rule::{
    rule_wf, RecurrenceFreq, RecurrenceLimit, RecurrenceRule, RuleView, Weekday,
};
use crate::text::{
    all_digits, digit_val, digits_val, is_digit, parse_bounded_nat, parse_date, parse_int,
    split_on,
};

verus! {

/// Why an RRULE string is rejected.
#[derive(Debug)]
pub enum RRuleParseError {
    /// A property appears more often than it may.
    DuplicateProperty(String),
    /// A property's value does not parse or is out of range.
    InvalidValue(String),
    /// A property that every rule needs is missing.
    MissingRequiredProperty(String),
    /// A token is not a `KEY=VALUE` property.
    InvalidProperty(String),
    /// Two properties that cannot stand together both appear.
    CannotCoexist(String, String),
    /// A property appears without another that it needs.
    Requires(String, String),
}

/// The mathematical shape of a parse failure.
pub ghost enum ParseErrView {
    DuplicateProperty(Seq<char>),
    InvalidValue(Seq<char>),
    MissingRequiredProperty(Seq<char>),
    InvalidProperty(Seq<char>),
    CannotCoexist(Seq<char>, Seq<char>),
    Requires(Seq<char>, Seq<char>),
}

impl View for RRuleParseError {
    type V = ParseErrView;

    open spec fn view(&self) -> ParseErrView {
        match self {
            RRuleParseError::DuplicateProperty(a) => ParseErrView::DuplicateProperty(a@),
            RRuleParseError::InvalidValue(a) => ParseErrView::InvalidValue(a@),
            RRuleParseError::MissingRequiredProperty(a) => ParseErrView::MissingRequiredProperty(
                a@,
            ),
            RRuleParseError::InvalidProperty(a) => ParseErrView::InvalidProperty(a@),
            RRuleParseError::CannotCoexist(a, b) => ParseErrView::CannotCoexist(a@, b@),
            RRuleParseError::Requires(a, b) => ParseErrView::Requires(a@, b@),
        }
    }
}

/// One `KEY=VALUE` property.
pub ghost struct PropView {
    pub key: Seq<char>,
    pub value: Seq<char>,
}

pub struct Prop {
    pub key: Vec<char>,
    pub value: Vec<char>,
}

impl View for Prop {
    type V = PropView;

    open spec fn view(&self) -> PropView {
        PropView { key: self.key@, value: self.value@ }
    }
}

impl DeepView for Prop {
    type V = PropView;

    open spec fn deep_view(&self) -> PropView {
        PropView { key: self.key@, value: self.value@ }
    }
}

/// Reads each token as a `KEY=VALUE` property: the key is what stands before
/// the first `=`, the value what stands between the first and any second
/// one. A token without `=` is an invalid property.
pub open spec fn spec_tokenize(parts: Seq<Seq<char>>) -> Result<Seq<PropView>, ParseErrView>
    decreases parts.len(),
{
    if parts.len() == 0 {
        Result::Ok(Seq::empty())
    } else {
        let kv = split_on(parts[0], '=');
        if kv.len() < 2 {
            Result::Err(ParseErrView::InvalidProperty(parts[0]))
        } else {
            match spec_tokenize(parts.drop_first()) {
                Result::Ok(rest) => Result::Ok(
                    seq![PropView { key: kv[0], value: kv[1] }] + rest,
                ),
                Result::Err(e) => Result::Err(e),
            }
        }
    }
}

/// The value of the property named `key`; when a key appears twice, the
/// later occurrence wins.
pub open spec fn spec_lookup(props: Seq<PropView>, key: Seq<char>) -> Option<Seq<char>>
    decreases props.len(),
{
    if props.len() == 0 {
        Option::None
    } else if props.last().key == key {
        Option::Some(props.last().value)
    } else {
        spec_lookup(props.drop_last(), key)
    }
}

/// The frequency a `FREQ` value names; the values are case-sensitive.
pub open spec fn spec_parse_freq(v: Seq<char>) -> Option<RecurrenceFreq> {
    if v == "DAILY"@ {
        Option::Some(RecurrenceFreq::Daily)
    } else if v == "WEEKLY"@ {
        Option::Some(RecurrenceFreq::Weekly)
    } else if v == "MONTHLY"@ {
        Option::Some(RecurrenceFreq::Monthly)
    } else if v == "YEARLY"@ {
        Option::Some(RecurrenceFreq::Yearly)
    } else {
        Option::None
    }
}

/// The weekday a two-letter `BYDAY` code names.
pub open spec fn spec_parse_weekday(v: Seq<char>) -> Option<Weekday> {
    if v == "MO"@ {
        Option::Some(Weekday::Mon)
    } else if v == "TU"@ {
        Option::Some(Weekday::Tue)
    } else if v == "WE"@ {
        Option::Some(Weekday::Wed)
    } else if v == "TH"@ {
        Option::Some(Weekday::Thu)
    } else if v == "FR"@ {
        Option::Some(Weekday::Fri)
    } else if v == "SA"@ {
        Option::Some(Weekday::Sat)
    } else if v == "SU"@ {
        Option::Some(Weekday::Sun)
    } else {
        Option::None
    }
}

/// A comma-separated list of weekday codes.
pub open spec fn spec_parse_weekday_items(parts: Seq<Seq<char>>) -> Option<Seq<Weekday>>
    decreases parts.len(),
{
    if parts.len() == 0 {
        Option::Some(Seq::empty())
    } else {
        match spec_parse_weekday(parts[0]) {
            Option::Some(w) => match spec_parse_weekday_items(parts.drop_first()) {
                Option::Some(rest) => Option::Some(seq![w] + rest),
                Option::None => Option::None,
            },
            Option::None => Option::None,
        }
    }
}

/// A comma-separated list of signed numbers, each within `min..=max` and
/// not zero.
pub open spec fn spec_parse_num_items(parts: Seq<Seq<char>>, min: int, max: int) -> Option<
    Seq<i32>,
>
    decreases parts.len(),
{
    if parts.len() == 0 {
        Option::Some(Seq::empty())
    } else {
        match parse_int(parts[0], 2147483647) {
            Option::Some(v) => if min <= v <= max && v != 0 {
                match spec_parse_num_items(parts.drop_first(), min, max) {
                    Option::Some(rest) => Option::Some(seq![v as i32] + rest),
                    Option::None => Option::None,
                }
            } else {
                Option::None
            },
            Option::None => Option::None,
        }
    }
}

/// The optional numeric list property named `key`.
pub open spec fn spec_get_num_list(
    props: Seq<PropView>,
    key: Seq<char>,
    min: int,
    max: int,
) -> Result<Option<Seq<i32>>, ParseErrView> {
    match spec_lookup(props, key) {
        Option::None => Result::Ok(Option::None),
        Option::Some(v) => match spec_parse_num_items(split_on(v, ','), min, max) {
            Option::Some(items) => Result::Ok(Option::Some(items)),
            Option::None => Result::Err(ParseErrView::InvalidValue(key)),
        },
    }
}

/// What parsing an RRULE string yields: the rule, or the first failure, the
/// properties checked in a fixed order — frequency, interval, limit, then
/// the BY* components with their coexistence constraints.
pub open spec fn spec_parse_props(props: Seq<PropView>) -> Result<RuleView, ParseErrView> {
    match spec_lookup(props, "FREQ"@) {
        Option::None => Result::Err(ParseErrView::MissingRequiredProperty("FREQ"@)),
        Option::Some(fv) => match spec_parse_freq(fv) {
            Option::None => Result::Err(ParseErrView::InvalidValue("FREQ"@)),
            Option::Some(frequency) => {
                let interval_r = match spec_lookup(props, "INTERVAL"@) {
                    Option::None => Option::Some(1int),
                    Option::Some(v) => match parse_bounded_nat(v, 4294967295) {
                        Option::Some(n) => if n >= 1 {
                            Option::Some(n)
                        } else {
                            Option::None
                        },
                        Option::None => Option::None,
                    },
                };
                match interval_r {
                    Option::None => Result::Err(ParseErrView::InvalidValue("INTERVAL"@)),
                    Option::Some(interval) => {
                        let limit_r: Result<RecurrenceLimit, ParseErrView> = match spec_lookup(
                            props,
                            "UNTIL"@,
                        ) {
                            Option::Some(uv) => if spec_lookup(props, "COUNT"@) is Some {
                                Result::Err(ParseErrView::DuplicateProperty("UNTIL and COUNT"@))
                            } else {
                                match parse_date(uv) {
                                    Option::Some(d) => Result::Ok(RecurrenceLimit::Date(d)),
                                    Option::None => Result::Err(
                                        ParseErrView::InvalidValue("UNTIL"@),
                                    ),
                                }
                            },
                            Option::None => match spec_lookup(props, "COUNT"@) {
                                Option::Some(cv) => match parse_bounded_nat(cv, 4294967295) {
                                    Option::Some(n) => Result::Ok(
                                        RecurrenceLimit::Count(n as u32),
                                    ),
                                    Option::None => Result::Err(
                                        ParseErrView::InvalidValue("COUNT"@),
                                    ),
                                },
                                Option::None => Result::Ok(RecurrenceLimit::Indefinite),
                            },
                        };
                        match limit_r {
                            Result::Err(e) => Result::Err(e),
                            Result::Ok(limit) => {
                                let by_day_r: Result<Option<Seq<Weekday>>, ParseErrView> =
                                    match spec_lookup(props, "BYDAY"@) {
                                    Option::None => Result::Ok(Option::None),
                                    Option::Some(v) => match spec_parse_weekday_items(
                                        split_on(v, ','),
                                    ) {
                                        Option::Some(ws) => Result::Ok(Option::Some(ws)),
                                        Option::None => Result::Err(
                                            ParseErrView::InvalidValue("BYDAY"@),
                                        ),
                                    },
                                };
                                match by_day_r {
                                    Result::Err(e) => Result::Err(e),
                                    Result::Ok(by_day) => match spec_get_num_list(
                                        props,
                                        "BYMONTH"@,
                                        1,
                                        12,
                                    ) {
                                        Result::Err(e) => Result::Err(e),
                                        Result::Ok(by_month_nums) => {
                                            let by_month = match by_month_nums {
                                                Option::Some(s) => Option::Some(
                                                    s.map_values(|x: i32| x as u8),
                                                ),
                                                Option::None => Option::None,
                                            };
                                            match spec_get_num_list(props, "BYYEARDAY"@, -366, 366) {
                                                Result::Err(e) => Result::Err(e),
                                                Result::Ok(by_year_day) => if by_year_day is Some
                                                    && (frequency == RecurrenceFreq::Daily
                                                    || frequency == RecurrenceFreq::Weekly
                                                    || frequency == RecurrenceFreq::Monthly) {
                                                    Result::Err(
                                                        ParseErrView::CannotCoexist(
                                                            "BYYEARDAY"@,
                                                            "FREQ=DAILY or FREQ=WEEKLY or FREQ=MONTHLY"@,
                                                        ),
                                                    )
                                                } else {
                                                    match spec_get_num_list(
                                                        props,
                                                        "BYMONTHDAY"@,
                                                        -31,
                                                        31,
                                                    ) {
                                                        Result::Err(e) => Result::Err(e),
                                                        Result::Ok(by_month_day) => if by_month_day
                                                            is Some && frequency
                                                            == RecurrenceFreq::Weekly {
                                                            Result::Err(
                                                                ParseErrView::CannotCoexist(
                                                                    "BYMONTHDAY"@,
                                                                    "FREQ=WEEKLY"@,
                                                                ),
                                                            )
                                                        } else {
                                                            match spec_get_num_list(
                                                                props,
                                                                "BYWEEKNO"@,
                                                                -53,
                                                                53,
                                                            ) {
                                                                Result::Err(e) => Result::Err(e),
                                                                Result::Ok(by_week_no) => if by_week_no
                                                                    is Some && frequency
                                                                    != RecurrenceFreq::Yearly {
                                                                    Result::Err(
                                                                        ParseErrView::Requires(
                                                                            "BYWEEKNO"@,
                                                                            "FREQ=YEARLY"@,
                                                                        ),
                                                                    )
                                                                } else {
                                                                    match spec_get_num_list(
                                                                        props,
                                                                        "BYSETPOS"@,
                                                                        -366,
                                                                        366,
                                                                    ) {
                                                                        Result::Err(e) => Result::Err(
                                                                            e,
                                                                        ),
                                                                        Result::Ok(by_set_pos) => if by_set_pos
                                                                            is Some && by_day
                                                                            is None && by_month
                                                                            is None && by_year_day
                                                                            is None && by_month_day
                                                                            is None && by_week_no
                                                                            is None {
                                                                            Result::Err(
                                                                                ParseErrView::Requires(
                                                                                    "BYSETPOS"@,
                                                                                    "BYDAY or BYMONTH or BYYEARDAY or BYMONTHDAY or BYWEEKNO"@,
                                                                                ),
                                                                            )
                                                                        } else {
                                                                            Result::Ok(
                                                                                RuleView {
                                                                                    frequency,
                                                                                    interval: interval as u32,
                                                                                    limit,
                                                                                    by_month,
                                                                                    by_week_no,
                                                                                    by_year_day,
                                                                                    by_month_day,
                                                                                    by_day,
                                                                                    by_set_pos,
                                                                                },
                                                                            )
                                                                        },
                                                                    }
                                                                },
                                                            }
                                                        },
                                                    }
                                                },
                                            }
                                        },
                                    },
                                }
                            },
                        }
                    },
                }
            },
        },
    }
}

/// What parsing an RRULE string yields.
pub open spec fn spec_parse_rule(s: Seq<char>) -> Result<RuleView, ParseErrView> {
    match spec_tokenize(split_on(s, ';')) {
        Result::Err(e) => Result::Err(e),
        Result::Ok(props) => spec_parse_props(props),
    }
}


fn copy_chars(v: &Vec<char>) -> (r: Vec<char>)
    ensures
        r@ == v@,
{
    let mut out: Vec<char> = Vec::new();
    let mut i: usize = 0;
    while i < v.len()
        invariant
            0 <= i <= v@.len(),
            out@ == v@.take(i as int),
        decreases v@.len() - i,
    {
        out.push(v[i]);
        proof {
            assert(out@ =~= v@.take(i + 1));
        }
        i = i + 1;
    }
    proof {
        assert(v@.take(v@.len() as int) =~= v@);
    }
    out
}

fn parse_digits_capped(v: &Vec<char>, from: usize, cap: u32) -> (r: Option<u32>)
    requires
        from <= v@.len(),
    ensures
        match parse_bounded_nat(v@.skip(from as int), cap as int) {
            Option::Some(n) => r is Some && r->0 == n,
            Option::None => r is None,
        },
{
    let ghost s = v@.skip(from as int);
    if from == v.len() {
        proof {
            assert(s.len() == 0);
        }
        return Option::None;
    }
    let mut acc: u64 = 0;
    let mut i: usize = from;
    while i < v.len()
        invariant
            from <= i <= v@.len(),
            from < v@.len(),
            s == v@.skip(from as int),
            acc == digits_val(v@.subrange(from as int, i as int)),
            all_digits(v@.subrange(from as int, i as int)),
            acc <= cap,
        decreases v@.len() - i,
    {
        let c = v[i];
        if !('0' <= c && c <= '9') {
            proof {
                assert(s[i - from] == v@[i as int]);
                assert(!is_digit(s[i - from]));
                assert(!all_digits(s));
            }
            return Option::None;
        }
        let d: u64 = (c as u32 - 48) as u64;
        let acc2: u64 = acc * 10 + d;
        proof {
            assert(v@.subrange(from as int, i + 1).drop_last() =~= v@.subrange(
                from as int,
                i as int,
            ));
            assert(v@.subrange(from as int, i + 1).last() == v@[i as int]);
            assert(digit_val(v@[i as int]) == d);
            assert(acc2 == digits_val(v@.subrange(from as int, i + 1)));
            assert(all_digits(v@.subrange(from as int, i + 1))) by {
                assert(forall|j: int|
                    0 <= j < i + 1 - from ==> #[trigger] v@.subrange(from as int, i + 1)[j]
                        == v@.subrange(from as int, i as int).push(v@[i as int])[j]);
            }
        }
        if acc2 > cap as u64 {
            proof {
                if all_digits(s) {
                    crate::text::lemma_digits_val_prefix(s, i + 1 - from);
                    assert(s.take(i + 1 - from) =~= v@.subrange(from as int, i + 1));
                    assert(digits_val(s) > cap);
                }
            }
            return Option::None;
        }
        acc = acc2;
        i = i + 1;
    }
    proof {
        assert(v@.subrange(from as int, v@.len() as int) =~= s);
        assert(s.len() >= 1);
    }
    Option::Some(acc as u32)
}

fn parse_i32_chars(v: &Vec<char>) -> (r: Option<i32>)
    ensures
        match parse_int(v@, 2147483647) {
            Option::Some(n) => r is Some && r->0 == n,
            Option::None => r is None,
        },
{
    if v.len() >= 1 && v[0] == '-' {
        proof {
            assert(v@.skip(1) =~= v@.drop_first());
        }
        match parse_digits_capped(v, 1, 2147483647) {
            Option::Some(u) => Option::Some(-(u as i32)),
            Option::None => Option::None,
        }
    } else {
        proof {
            assert(v@.skip(0) =~= v@);
            if v@.len() >= 1 {
                assert(v@[0] != '-');
            }
        }
        match parse_digits_capped(v, 0, 2147483647) {
            Option::Some(u) => Option::Some(u as i32),
            Option::None => Option::None,
        }
    }
}

fn parse_u32_chars(v: &Vec<char>) -> (r: Option<u32>)
    ensures
        match parse_bounded_nat(v@, 4294967295) {
            Option::Some(n) => r is Some && r->0 == n,
            Option::None => r is None,
        },
{
    proof {
        assert(v@.skip(0) =~= v@);
    }
    parse_digits_capped(v, 0, 4294967295)
}

fn digits_range_val(v: &Vec<char>, from: usize, to: usize) -> (r: u32)
    requires
        from <= to <= v@.len(),
        to - from <= 8,
        all_digits(v@.subrange(from as int, to as int)),
    ensures
        r == digits_val(v@.subrange(from as int, to as int)),
{
    proof {
        crate::text::lemma_digits_val_bound(v@.subrange(from as int, to as int));
        reveal_with_fuel(crate::text::pow10, 9);
    }
    let mut acc: u32 = 0;
    let mut i: usize = from;
    while i < to
        invariant
            from <= i <= to <= v@.len(),
            to - from <= 8,
            all_digits(v@.subrange(from as int, to as int)),
            acc == digits_val(v@.subrange(from as int, i as int)),
            acc < 100000000,
        decreases to - i,
    {
        proof {
            assert(v@.subrange(from as int, to as int)[i - from] == v@[i as int]);
            assert(is_digit(v@[i as int]));
            assert(v@.subrange(from as int, i + 1).drop_last() =~= v@.subrange(
                from as int,
                i as int,
            ));
            assert(v@.subrange(from as int, i + 1).last() == v@[i as int]);
            assert(all_digits(v@.subrange(from as int, i + 1))) by {
                assert(forall|j: int|
                    0 <= j < i + 1 - from ==> #[trigger] v@.subrange(from as int, i + 1)[j]
                        == v@.subrange(from as int, to as int)[j + from - from]);
            }
            crate::text::lemma_digits_val_bound(v@.subrange(from as int, i + 1));
            reveal_with_fuel(crate::text::pow10, 9);
            assert(crate::text::pow10(i + 1 - from) <= crate::text::pow10(8)) by {
                lemma_pow10_mono(i + 1 - from, 8);
            }
        }
        let c = v[i];
        let d: u32 = c as u32 - 48;
        acc = acc * 10 + d;
        i = i + 1;
    }
    acc
}

proof fn lemma_pow10_mono(a: int, b: int)
    requires
        0 <= a <= b,
    ensures
        crate::text::pow10(a) <= crate::text::pow10(b),
    decreases b - a,
{
    if a < b {
        lemma_pow10_mono(a, b - 1);
        assert(crate::text::pow10(b) == 10 * crate::text::pow10(b - 1));
        assert(crate::text::pow10(a) >= 1) by {
            lemma_pow10_pos(a);
        }
        lemma_pow10_pos(b - 1);
    }
}

proof fn lemma_pow10_pos(a: int)
    ensures
        crate::text::pow10(a) >= 1,
    decreases (if a > 0 {
        a
    } else {
        0int
    }),
{
    if a > 0 {
        lemma_pow10_pos(a - 1);
    }
}

fn parse_date_chars(v: &Vec<char>) -> (r: Option<Date>)
    ensures
        r == parse_date(v@),
        r is Some ==> date_wf(r->0),
{
    if v.len() != 8 {
        return Option::None;
    }
    let mut i: usize = 0;
    while i < 8
        invariant
            0 <= i <= 8,
            v@.len() == 8,
            forall|j: int| 0 <= j < i ==> is_digit(#[trigger] v@[j]),
        decreases 8 - i,
    {
        let c = v[i];
        if !('0' <= c && c <= '9') {
            proof {
                assert(!is_digit(v@[i as int]));
            }
            return Option::None;
        }
        i = i + 1;
    }
    proof {
        assert(all_digits(v@));
        assert(all_digits(v@.subrange(0, 4))) by {
            assert(forall|j: int| 0 <= j < 4 ==> v@.subrange(0, 4)[j] == #[trigger] v@[j]);
        }
        assert(all_digits(v@.subrange(4, 6))) by {
            assert(forall|j: int| 0 <= j < 2 ==> v@.subrange(4, 6)[j] == #[trigger] v@[j + 4]);
        }
        assert(all_digits(v@.subrange(6, 8))) by {
            assert(forall|j: int| 0 <= j < 2 ==> v@.subrange(6, 8)[j] == #[trigger] v@[j + 6]);
        }
        crate::text::lemma_digits_val_bound(v@.subrange(0, 4));
        crate::text::lemma_digits_val_bound(v@.subrange(4, 6));
        crate::text::lemma_digits_val_bound(v@.subrange(6, 8));
        reveal_with_fuel(crate::text::pow10, 9);
    }
    let y = digits_range_val(v, 0, 4);
    let m = digits_range_val(v, 4, 6);
    let dd = digits_range_val(v, 6, 8);
    if 1 <= m && m <= 12 && 1 <= dd {
        let dim = crate::date::days_in_month(y as i32, m as u8);
        if dd <= dim as u32 {
            return Option::Some(Date { year: y as i32, month: m as u8, day: dd as u8 });
        }
    }
    Option::None
}

fn parse_freq_chars(v: &Vec<char>) -> (r: Option<RecurrenceFreq>)
    ensures
        r == spec_parse_freq(v@),
{
    if crate::text::chars_eq_str(v, "DAILY") {
        Option::Some(RecurrenceFreq::Daily)
    } else if crate::text::chars_eq_str(v, "WEEKLY") {
        Option::Some(RecurrenceFreq::Weekly)
    } else if crate::text::chars_eq_str(v, "MONTHLY") {
        Option::Some(RecurrenceFreq::Monthly)
    } else if crate::text::chars_eq_str(v, "YEARLY") {
        Option::Some(RecurrenceFreq::Yearly)
    } else {
        Option::None
    }
}

fn parse_weekday_chars(v: &Vec<char>) -> (r: Option<Weekday>)
    ensures
        r == spec_parse_weekday(v@),
{
    if crate::text::chars_eq_str(v, "MO") {
        Option::Some(Weekday::Mon)
    } else if crate::text::chars_eq_str(v, "TU") {
        Option::Some(Weekday::Tue)
    } else if crate::text::chars_eq_str(v, "WE") {
        Option::Some(Weekday::Wed)
    } else if crate::text::chars_eq_str(v, "TH") {
        Option::Some(Weekday::Thu)
    } else if crate::text::chars_eq_str(v, "FR") {
        Option::Some(Weekday::Fri)
    } else if crate::text::chars_eq_str(v, "SA") {
        Option::Some(Weekday::Sat)
    } else if crate::text::chars_eq_str(v, "SU") {
        Option::Some(Weekday::Sun)
    } else {
        Option::None
    }
}

fn parse_weekday_list(v: &Vec<char>) -> (r: Option<Vec<Weekday>>)
    ensures
        match spec_parse_weekday_items(split_on(v@, ',')) {
            Option::Some(ws) => r is Some && r->0@ == ws && ws.len() >= 1,
            Option::None => r is None,
        },
{
    let parts = crate::text::split_chars(v, ',');
    proof {
        crate::text::lemma_split_nonempty(v@, ',');
    }
    let ghost pd = parts.deep_view();
    let mut out: Vec<Weekday> = Vec::new();
    let mut i: usize = 0;
    proof {
        assert(pd.skip(0) =~= pd);
        assert(forall|rest: Seq<Weekday>| out@ + rest =~= rest);
    }
    while i < parts.len()
        invariant
            0 <= i <= pd.len(),
            pd == parts.deep_view(),
            pd == split_on(v@, ','),
            pd.len() == parts@.len(),
            out@.len() == i,
            spec_parse_weekday_items(pd) == (match spec_parse_weekday_items(pd.skip(i as int)) {
                Option::Some(rest) => Option::Some(out@ + rest),
                Option::None => Option::<Seq<Weekday>>::None,
            }),
        decreases pd.len() - i,
    {
        proof {
            assert(pd[i as int] == parts@[i as int]@);
            assert(pd.skip(i as int) =~= seq![pd[i as int]] + pd.skip(i + 1));
            assert(pd.skip(i as int)[0] == pd[i as int]);
            assert(pd.skip(i as int).drop_first() =~= pd.skip(i + 1));
        }
        let w = match parse_weekday_chars(&parts[i]) {
            Option::Some(w) => w,
            Option::None => {
                return Option::None;
            },
        };
        out.push(w);
        proof {
            match spec_parse_weekday_items(pd.skip(i + 1)) {
                Option::Some(rest) => {
                    assert(out@ + rest =~= out@.drop_last() + (seq![w] + rest));
                },
                Option::None => {},
            }
        }
        i = i + 1;
    }
    proof {
        assert(pd.skip(pd.len() as int) =~= Seq::<Seq<char>>::empty());
        match spec_parse_weekday_items(pd) {
            Option::Some(all) => {
                assert(out@ + Seq::<Weekday>::empty() =~= out@);
            },
            Option::None => {},
        }
    }
    Option::Some(out)
}

fn parse_num_list(v: &Vec<char>, min: i32, max: i32) -> (r: Option<Vec<i32>>)
    ensures
        match spec_parse_num_items(split_on(v@, ','), min as int, max as int) {
            Option::Some(items) => r is Some && r->0@ == items && items.len() >= 1 && (forall|
                j: int,
            |
                0 <= j < items.len() ==> min <= #[trigger] items[j] <= max && items[j] != 0),
            Option::None => r is None,
        },
{
    let parts = crate::text::split_chars(v, ',');
    proof {
        crate::text::lemma_split_nonempty(v@, ',');
    }
    let ghost pd = parts.deep_view();
    let mut out: Vec<i32> = Vec::new();
    let mut i: usize = 0;
    proof {
        assert(pd.skip(0) =~= pd);
        assert(forall|rest: Seq<i32>| out@ + rest =~= rest);
    }
    while i < parts.len()
        invariant
            0 <= i <= pd.len(),
            pd == parts.deep_view(),
            pd == split_on(v@, ','),
            pd.len() == parts@.len(),
            out@.len() == i,
            forall|j: int| 0 <= j < i ==> min <= #[trigger] out@[j] <= max && out@[j] != 0,
            spec_parse_num_items(pd, min as int, max as int) == (match spec_parse_num_items(
                pd.skip(i as int),
                min as int,
                max as int,
            ) {
                Option::Some(rest) => Option::Some(out@ + rest),
                Option::None => Option::<Seq<i32>>::None,
            }),
        decreases pd.len() - i,
    {
        proof {
            assert(pd[i as int] == parts@[i as int]@);
            assert(pd.skip(i as int) =~= seq![pd[i as int]] + pd.skip(i + 1));
            assert(pd.skip(i as int)[0] == pd[i as int]);
            assert(pd.skip(i as int).drop_first() =~= pd.skip(i + 1));
        }
        let x = match parse_i32_chars(&parts[i]) {
            Option::Some(x) => x,
            Option::None => {
                return Option::None;
            },
        };
        if !(min <= x && x <= max && x != 0) {
            return Option::None;
        }
        out.push(x);
        proof {
            match spec_parse_num_items(pd.skip(i + 1), min as int, max as int) {
                Option::Some(rest) => {
                    assert(out@ + rest =~= out@.drop_last() + (seq![x] + rest));
                },
                Option::None => {},
            }
        }
        i = i + 1;
    }
    proof {
        assert(pd.skip(pd.len() as int) =~= Seq::<Seq<char>>::empty());
        match spec_parse_num_items(pd, min as int, max as int) {
            Option::Some(all) => {
                assert(out@ + Seq::<i32>::empty() =~= out@);
            },
            Option::None => {},
        }
    }
    Option::Some(out)
}

fn lookup_prop(props: &Vec<Prop>, key: &str) -> (r: Option<usize>)
    ensures
        match spec_lookup(props.deep_view(), key@) {
            Option::Some(val) => r is Some && r->0 < props@.len() && props@[r->0 as int].value@
                == val,
            Option::None => r is None,
        },
{
    let ghost pd = props.deep_view();
    let mut i: usize = props.len();
    proof {
        assert(pd.take(pd.len() as int) =~= pd);
    }
    while i > 0
        invariant
            0 <= i <= pd.len(),
            pd == props.deep_view(),
            pd.len() == props@.len(),
            spec_lookup(pd, key@) == spec_lookup(pd.take(i as int), key@),
        decreases i,
    {
        i = i - 1;
        proof {
            assert(pd.take(i + 1).last() == pd[i as int]);
            assert(pd.take(i + 1).drop_last() =~= pd.take(i as int));
            assert(pd[i as int] == props@[i as int].deep_view());
        }
        if crate::text::chars_eq_str(&props[i].key, key) {
            return Option::Some(i);
        }
    }
    proof {
        assert(pd.take(0) =~= Seq::<PropView>::empty());
    }
    Option::None
}

/// Parses an RRULE string: semicolon-separated `KEY=VALUE` properties in any
/// order, `FREQ` required; unknown keys are ignored, and when a key repeats,
/// the later occurrence wins. The returned rule always satisfies the
/// construction invariant `rule_wf`.
pub fn parse(rule: &str) -> (r: Result<RecurrenceRule, RRuleParseError>)
    ensures
        r is Ok <==> spec_parse_rule(rule@) is Ok,
        r is Ok ==> r->Ok_0@ == spec_parse_rule(rule@)->Ok_0 && rule_wf(r->Ok_0@),
        r is Err ==> r->Err_0@ == spec_parse_rule(rule@)->Err_0,
{
    let chars = crate::text::str_to_chars(rule);
    let parts = crate::text::split_chars(&chars, ';');
    let ghost pd = parts.deep_view();
    let mut props: Vec<Prop> = Vec::new();
    let mut i: usize = 0;
    proof {
        assert(pd.skip(0) =~= pd);
        assert(forall|rest: Seq<PropView>| props.deep_view() + rest =~= rest);
    }
    while i < parts.len()
        invariant
            0 <= i <= pd.len(),
            pd == parts.deep_view(),
            pd == split_on(chars@, ';'),
            chars@ == rule@,
            pd.len() == parts@.len(),
            spec_tokenize(pd) == (match spec_tokenize(pd.skip(i as int)) {
                Result::Ok(rest) => Result::Ok(props.deep_view() + rest),
                Result::Err(e) => Result::<Seq<PropView>, ParseErrView>::Err(e),
            }),
        decreases pd.len() - i,
    {
        proof {
            assert(pd[i as int] == parts@[i as int]@);
            assert(pd.skip(i as int) =~= seq![pd[i as int]] + pd.skip(i + 1));
            assert(pd.skip(i as int)[0] == pd[i as int]);
            assert(pd.skip(i as int).drop_first() =~= pd.skip(i + 1));
        }
        let kv = crate::text::split_chars(&parts[i], '=');
        proof {
            crate::text::lemma_split_nonempty(pd[i as int], '=');
        }
        if kv.len() < 2 {
            return Result::Err(
                RRuleParseError::InvalidProperty(crate::text::chars_to_string(&parts[i])),
            );
        }
        let key = copy_chars(&kv[0]);
        let value = copy_chars(&kv[1]);
        proof {
            assert(kv.deep_view()[0] == kv@[0]@ && kv.deep_view()[1] == kv@[1]@);
        }
        let ghost old_props = props.deep_view();
        props.push(Prop { key, value });
        proof {
            assert(props.deep_view() =~= old_props + seq![
                PropView {
                    key: split_on(pd[i as int], '=')[0],
                    value: split_on(pd[i as int], '=')[1],
                },
            ]);
            match spec_tokenize(pd.skip(i + 1)) {
                Result::Ok(rest) => {
                    assert(props.deep_view() + rest =~= old_props + (seq![
                        PropView {
                            key: split_on(pd[i as int], '=')[0],
                            value: split_on(pd[i as int], '=')[1],
                        },
                    ] + rest));
                },
                Result::Err(e) => {},
            }
        }
        i = i + 1;
    }
    proof {
        assert(pd.skip(pd.len() as int) =~= Seq::<Seq<char>>::empty());
        assert(props.deep_view() + Seq::<PropView>::empty() =~= props.deep_view());
    }
    let ghost propsd = props.deep_view();
    // FREQ
    let frequency = match lookup_prop(&props, "FREQ") {
        Option::None => {
            return Result::Err(
                RRuleParseError::MissingRequiredProperty(String::from_str("FREQ")),
            );
        },
        Option::Some(fi) => match parse_freq_chars(&props[fi].value) {
            Option::Some(f) => f,
            Option::None => {
                return Result::Err(RRuleParseError::InvalidValue(String::from_str("FREQ")));
            },
        },
    };
    // INTERVAL
    let interval: u32 = match lookup_prop(&props, "INTERVAL") {
        Option::None => 1,
        Option::Some(vi) => match parse_u32_chars(&props[vi].value) {
            Option::Some(n) => {
                if n >= 1 {
                    n
                } else {
                    return Result::Err(
                        RRuleParseError::InvalidValue(String::from_str("INTERVAL")),
                    );
                }
            },
            Option::None => {
                return Result::Err(RRuleParseError::InvalidValue(String::from_str("INTERVAL")));
            },
        },
    };
    // LIMIT
    let limit: RecurrenceLimit = match lookup_prop(&props, "UNTIL") {
        Option::Some(ui) => {
            if lookup_prop(&props, "COUNT").is_some() {
                return Result::Err(
                    RRuleParseError::DuplicateProperty(String::from_str("UNTIL and COUNT")),
                );
            }
            match parse_date_chars(&props[ui].value) {
                Option::Some(d) => RecurrenceLimit::Date(d),
                Option::None => {
                    return Result::Err(RRuleParseError::InvalidValue(String::from_str("UNTIL")));
                },
            }
        },
        Option::None => match lookup_prop(&props, "COUNT") {
            Option::Some(ci) => match parse_u32_chars(&props[ci].value) {
                Option::Some(n) => RecurrenceLimit::Count(n),
                Option::None => {
                    return Result::Err(RRuleParseError::InvalidValue(String::from_str("COUNT")));
                },
            },
            Option::None => RecurrenceLimit::Indefinite,
        },
    };
    // BYDAY
    let by_day: Option<Vec<Weekday>> = match lookup_prop(&props, "BYDAY") {
        Option::None => Option::None,
        Option::Some(di) => match parse_weekday_list(&props[di].value) {
            Option::Some(ws) => Option::Some(ws),
            Option::None => {
                return Result::Err(RRuleParseError::InvalidValue(String::from_str("BYDAY")));
            },
        },
    };
    // BYMONTH
    let by_month: Option<Vec<u8>> = match lookup_prop(&props, "BYMONTH") {
        Option::None => Option::None,
        Option::Some(mi) => match parse_num_list(&props[mi].value, 1, 12) {
            Option::Some(ms) => {
                let mut out: Vec<u8> = Vec::new();
                let mut j: usize = 0;
                while j < ms.len()
                    invariant
                        0 <= j <= ms@.len(),
                        forall|k: int| 0 <= k < ms@.len() ==> 1 <= #[trigger] ms@[k] <= 12,
                        out@ == ms@.take(j as int).map_values(|x: i32| x as u8),
                    decreases ms@.len() - j,
                {
                    out.push(ms[j] as u8);
                    proof {
                        assert(out@ =~= ms@.take(j + 1).map_values(|x: i32| x as u8));
                    }
                    j = j + 1;
                }
                proof {
                    assert(ms@.take(ms@.len() as int) =~= ms@);
                }
                Option::Some(out)
            },
            Option::None => {
                return Result::Err(RRuleParseError::InvalidValue(String::from_str("BYMONTH")));
            },
        },
    };
    // BYYEARDAY
    let by_year_day: Option<Vec<i32>> = match lookup_prop(&props, "BYYEARDAY") {
        Option::None => Option::None,
        Option::Some(yi) => match parse_num_list(&props[yi].value, -366, 366) {
            Option::Some(ys) => Option::Some(ys),
            Option::None => {
                return Result::Err(RRuleParseError::InvalidValue(String::from_str("BYYEARDAY")));
            },
        },
    };
    if by_year_day.is_some() && (matches!(frequency, RecurrenceFreq::Daily) || matches!(
        frequency,
        RecurrenceFreq::Weekly,
    ) || matches!(frequency, RecurrenceFreq::Monthly)) {
        return Result::Err(
            RRuleParseError::CannotCoexist(
                String::from_str("BYYEARDAY"),
                String::from_str("FREQ=DAILY or FREQ=WEEKLY or FREQ=MONTHLY"),
            ),
        );
    }
    // BYMONTHDAY
    let by_month_day: Option<Vec<i32>> = match lookup_prop(&props, "BYMONTHDAY") {
        Option::None => Option::None,
        Option::Some(mdi) => match parse_num_list(&props[mdi].value, -31, 31) {
            Option::Some(ms) => Option::Some(ms),
            Option::None => {
                return Result::Err(
                    RRuleParseError::InvalidValue(String::from_str("BYMONTHDAY")),
                );
            },
        },
    };
    if by_month_day.is_some() && matches!(frequency, RecurrenceFreq::Weekly) {
        return Result::Err(
            RRuleParseError::CannotCoexist(
                String::from_str("BYMONTHDAY"),
                String::from_str("FREQ=WEEKLY"),
            ),
        );
    }
    // BYWEEKNO
    let by_week_no: Option<Vec<i32>> = match lookup_prop(&props, "BYWEEKNO") {
        Option::None => Option::None,
        Option::Some(wi) => match parse_num_list(&props[wi].value, -53, 53) {
            Option::Some(ws) => Option::Some(ws),
            Option::None => {
                return Result::Err(RRuleParseError::InvalidValue(String::from_str("BYWEEKNO")));
            },
        },
    };
    if by_week_no.is_some() && !matches!(frequency, RecurrenceFreq::Yearly) {
        return Result::Err(
            RRuleParseError::Requires(
                String::from_str("BYWEEKNO"),
                String::from_str("FREQ=YEARLY"),
            ),
        );
    }
    // BYSETPOS
    let by_set_pos: Option<Vec<i32>> = match lookup_prop(&props, "BYSETPOS") {
        Option::None => Option::None,
        Option::Some(si) => match parse_num_list(&props[si].value, -366, 366) {
            Option::Some(ss) => Option::Some(ss),
            Option::None => {
                return Result::Err(RRuleParseError::InvalidValue(String::from_str("BYSETPOS")));
            },
        },
    };
    if by_set_pos.is_some() && by_day.is_none() && by_month.is_none() && by_year_day.is_none()
        && by_month_day.is_none() && by_week_no.is_none() {
        return Result::Err(
            RRuleParseError::Requires(
                String::from_str("BYSETPOS"),
                String::from_str("BYDAY or BYMONTH or BYYEARDAY or BYMONTHDAY or BYWEEKNO"),
            ),
        );
    }
    let ret_val = RecurrenceRule {
        frequency,
        interval,
        limit,
        by_day,
        by_month,
        by_year_day,
        by_month_day,
        by_week_no,
        by_set_pos,
    };
    proof {
        assert(ret_val@ =~~= spec_parse_rule(rule@)->Ok_0);
    }
    Result::Ok(ret_val)
}

impl RecurrenceRule {
    /// Parses an RRULE string; see `parse`.
    pub fn new(rrule: &str) -> (r: Result<Self, RRuleParseError>)
        ensures
            r is Ok <==> spec_parse_rule(rrule@) is Ok,
            r is Ok ==> r->Ok_0@ == spec_parse_rule(rrule@)->Ok_0 && rule_wf(r->Ok_0@),
            r is Err ==> r->Err_0@ == spec_parse_rule(rrule@)->Err_0,
    {
        let rule = parse(rrule)?;
        Result::Ok(rule)
    }
}

} // verus!
