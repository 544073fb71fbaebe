//! The RRULE printer: a rule back to its canonical textual form. `FREQ`
//! comes first, `INTERVAL` only when above one, then the present BY*
//! components, then `UNTIL` or `COUNT` when the rule is limited.

use vstd::prelude::*;
use vstd::string::StrSliceExecFns;

use crate::date::{date_wf, Date};
use crate::rule::{RecurrenceFreq, RecurrenceLimit, RecurrenceRule, RuleView, Weekday};
use crate::text::{chars_to_string, date_rep, dec_rep, int_rep, join_with, padded};

verus! {

/// The wire name of a frequency.
pub open spec fn freq_code(f: RecurrenceFreq) -> Seq<char> {
    match f {
        RecurrenceFreq::Daily => "DAILY"@,
        RecurrenceFreq::Weekly => "WEEKLY"@,
        RecurrenceFreq::Monthly => "MONTHLY"@,
        RecurrenceFreq::Yearly => "YEARLY"@,
    }
}

/// The two-letter wire code of a weekday.
pub open spec fn weekday_code(w: Weekday) -> Seq<char> {
    match w {
        Weekday::Mon => "MO"@,
        Weekday::Tue => "TU"@,
        Weekday::Wed => "WE"@,
        Weekday::Thu => "TH"@,
        Weekday::Fri => "FR"@,
        Weekday::Sat => "SA"@,
        Weekday::Sun => "SU"@,
    }
}

/// A comma-separated list of signed numbers.
pub open spec fn nums_rep(s: Seq<i32>) -> Seq<char> {
    join_with(s.map_values(|x: i32| int_rep(x as int)), ',')
}

/// A comma-separated list of month numbers.
pub open spec fn months_rep(s: Seq<u8>) -> Seq<char> {
    join_with(s.map_values(|x: u8| dec_rep(x as int)), ',')
}

/// A comma-separated list of weekday codes.
pub open spec fn weekdays_rep(s: Seq<Weekday>) -> Seq<char> {
    join_with(s.map_values(|w: Weekday| weekday_code(w)), ',')
}

/// The properties a rule prints, in order: `FREQ`, `INTERVAL` when above
/// one, the present BY* components, the limit when there is one.
pub open spec fn spec_rule_parts(r: RuleView) -> Seq<Seq<char>> {
    seq![
        "FREQ="@ + freq_code(r.frequency),
    ] + (if r.interval > 1 {
        seq!["INTERVAL="@ + dec_rep(r.interval as int)]
    } else {
        Seq::empty()
    }) + (match r.by_year_day {
        Option::Some(s) => seq!["BYYEARDAY="@ + nums_rep(s)],
        Option::None => Seq::empty(),
    }) + (match r.by_day {
        Option::Some(s) => seq!["BYDAY="@ + weekdays_rep(s)],
        Option::None => Seq::empty(),
    }) + (match r.by_week_no {
        Option::Some(s) => seq!["BYWEEKNO="@ + nums_rep(s)],
        Option::None => Seq::empty(),
    }) + (match r.by_month_day {
        Option::Some(s) => seq!["BYMONTHDAY="@ + nums_rep(s)],
        Option::None => Seq::empty(),
    }) + (match r.by_set_pos {
        Option::Some(s) => seq!["BYSETPOS="@ + nums_rep(s)],
        Option::None => Seq::empty(),
    }) + (match r.by_month {
        Option::Some(s) => seq!["BYMONTH="@ + months_rep(s)],
        Option::None => Seq::empty(),
    }) + (match r.limit {
        RecurrenceLimit::Indefinite => Seq::empty(),
        RecurrenceLimit::Date(d) => seq!["UNTIL="@ + date_rep(d)],
        RecurrenceLimit::Count(n) => seq!["COUNT="@ + dec_rep(n as int)],
    })
}

/// The canonical textual form of a rule.
pub open spec fn spec_format(r: RuleView) -> Seq<char> {
    join_with(spec_rule_parts(r), ';')
}

/// The first half of the printed properties: frequency, interval, and the
/// year-day, weekday and week-number components.
pub open spec fn spec_head_parts(r: RuleView) -> Seq<Seq<char>> {
    seq![
        "FREQ="@ + freq_code(r.frequency),
    ] + (if r.interval > 1 {
        seq!["INTERVAL="@ + dec_rep(r.interval as int)]
    } else {
        Seq::empty()
    }) + (match r.by_year_day {
        Option::Some(s) => seq!["BYYEARDAY="@ + nums_rep(s)],
        Option::None => Seq::empty(),
    }) + (match r.by_day {
        Option::Some(s) => seq!["BYDAY="@ + weekdays_rep(s)],
        Option::None => Seq::empty(),
    }) + (match r.by_week_no {
        Option::Some(s) => seq!["BYWEEKNO="@ + nums_rep(s)],
        Option::None => Seq::empty(),
    })
}

fn push_str(out: &mut Vec<char>, s: &str)
    ensures
        final(out)@ == old(out)@ + s@,
{
    let n = s.unicode_len();
    let mut i: usize = 0;
    while i < n
        invariant
            0 <= i <= n,
            n == s@.len(),
            out@ == old(out)@ + s@.take(i as int),
        decreases n - i,
    {
        out.push(s.get_char(i));
        proof {
            assert(old(out)@ + s@.take(i + 1) =~= (old(out)@ + s@.take(i as int)).push(
                s@[i as int],
            ));
        }
        i = i + 1;
    }
    proof {
        assert(s@.take(n as int) =~= s@);
    }
}

/// The shortest decimal form of `n`, appended to `out`.
fn push_dec(out: &mut Vec<char>, n: u32)
    ensures
        final(out)@ == old(out)@ + dec_rep(n as int),
    decreases n,
{
    if n < 10 {
        let c = digit_char_exec(n as u8);
        out.push(c);
        proof {
            assert(old(out)@ + dec_rep(n as int) =~= old(out)@.push(
                crate::text::digit_char(n as int),
            ));
        }
    } else {
        push_dec(out, n / 10);
        let c = digit_char_exec((n % 10) as u8);
        out.push(c);
        proof {
            assert(old(out)@ + dec_rep(n as int) =~= (old(out)@ + dec_rep(n as int / 10)).push(
                crate::text::digit_char(n as int % 10),
            ));
        }
    }
}

fn digit_char_exec(v: u8) -> (c: char)
    requires
        v <= 9,
    ensures
        c == crate::text::digit_char(v as int),
{
    if v == 0 {
        '0'
    } else if v == 1 {
        '1'
    } else if v == 2 {
        '2'
    } else if v == 3 {
        '3'
    } else if v == 4 {
        '4'
    } else if v == 5 {
        '5'
    } else if v == 6 {
        '6'
    } else if v == 7 {
        '7'
    } else if v == 8 {
        '8'
    } else {
        '9'
    }
}

/// The signed decimal form of `v`, appended to `out`.
fn push_int(out: &mut Vec<char>, v: i32)
    requires
        v > i32::MIN,
    ensures
        final(out)@ == old(out)@ + int_rep(v as int),
{
    if v < 0 {
        out.push('-');
        push_dec(out, (-v) as u32);
        proof {
            assert(old(out)@ + int_rep(v as int) =~= (old(out)@.push('-')) + dec_rep(
                -(v as int),
            ));
        }
    } else {
        push_dec(out, v as u32);
    }
}

/// The zero-padded `w`-digit decimal form of `n`, appended to `out`.
fn push_padded(out: &mut Vec<char>, n: u32, w: u8)
    ensures
        final(out)@ == old(out)@ + padded(n as int, w as int),
    decreases w,
{
    if w == 0 {
        proof {
            assert(old(out)@ + padded(n as int, 0) =~= old(out)@);
        }
    } else {
        push_padded(out, n / 10, w - 1);
        let c = digit_char_exec((n % 10) as u8);
        out.push(c);
        proof {
            assert(old(out)@ + padded(n as int, w as int) =~= (old(out)@ + padded(
                n as int / 10,
                w - 1,
            )).push(crate::text::digit_char(n as int % 10)));
        }
    }
}

/// The `YYYYMMDD` form of a date, appended to `out`.
fn push_date(out: &mut Vec<char>, d: &Date)
    requires
        date_wf(*d),
    ensures
        final(out)@ == old(out)@ + date_rep(*d),
{
    push_padded(out, d.year as u32, 4);
    push_padded(out, d.month as u32, 2);
    push_padded(out, d.day as u32, 2);
    proof {
        assert(old(out)@ + date_rep(*d) =~= ((old(out)@ + padded(d.year as int, 4)) + padded(
            d.month as int,
            2,
        )) + padded(d.day as int, 2));
    }
}

/// A comma-separated signed-number list, appended to `out`.
fn push_nums(out: &mut Vec<char>, s: &Vec<i32>)
    requires
        forall|j: int| 0 <= j < s@.len() ==> #[trigger] s@[j] > i32::MIN,
    ensures
        final(out)@ == old(out)@ + nums_rep(s@),
{
    let ghost reps = s@.map_values(|x: i32| int_rep(x as int));
    let mut i: usize = 0;
    proof {
        assert(reps.take(0) =~= Seq::<Seq<char>>::empty());
        assert(out@ + join_with(reps.take(0), ',') =~= out@);
    }
    while i < s.len()
        invariant
            0 <= i <= s@.len(),
            reps == s@.map_values(|x: i32| int_rep(x as int)),
            forall|j: int| 0 <= j < s@.len() ==> #[trigger] s@[j] > i32::MIN,
            out@ == old(out)@ + join_with(reps.take(i as int), ','),
        decreases s@.len() - i,
    {
        if i > 0 {
            out.push(',');
        }
        push_int(out, s[i]);
        proof {
            crate::text::lemma_join_push(reps.take(i as int), reps[i as int], ',');
            assert(reps.take(i + 1) =~= reps.take(i as int).push(reps[i as int]));
            assert(reps[i as int] == int_rep(s@[i as int] as int));
            if i > 0 {
                assert(out@ =~= old(out)@ + (join_with(reps.take(i as int), ',') + seq![',']
                    + int_rep(s@[i as int] as int)));
            } else {
                assert(out@ =~= old(out)@ + int_rep(s@[i as int] as int));
            }
        }
        i = i + 1;
    }
    proof {
        assert(reps.take(s@.len() as int) =~= reps);
    }
}

/// A comma-separated month list, appended to `out`.
fn push_months(out: &mut Vec<char>, s: &Vec<u8>)
    ensures
        final(out)@ == old(out)@ + months_rep(s@),
{
    let ghost reps = s@.map_values(|x: u8| dec_rep(x as int));
    let mut i: usize = 0;
    proof {
        assert(reps.take(0) =~= Seq::<Seq<char>>::empty());
        assert(out@ + join_with(reps.take(0), ',') =~= out@);
    }
    while i < s.len()
        invariant
            0 <= i <= s@.len(),
            reps == s@.map_values(|x: u8| dec_rep(x as int)),
            out@ == old(out)@ + join_with(reps.take(i as int), ','),
        decreases s@.len() - i,
    {
        if i > 0 {
            out.push(',');
        }
        push_dec(out, s[i] as u32);
        proof {
            crate::text::lemma_join_push(reps.take(i as int), reps[i as int], ',');
            assert(reps.take(i + 1) =~= reps.take(i as int).push(reps[i as int]));
            assert(reps[i as int] == dec_rep(s@[i as int] as int));
            if i > 0 {
                assert(out@ =~= old(out)@ + (join_with(reps.take(i as int), ',') + seq![',']
                    + dec_rep(s@[i as int] as int)));
            } else {
                assert(out@ =~= old(out)@ + dec_rep(s@[i as int] as int));
            }
        }
        i = i + 1;
    }
    proof {
        assert(reps.take(s@.len() as int) =~= reps);
    }
}

fn weekday_code_exec(w: Weekday) -> (r: &'static str)
    ensures
        r@ == weekday_code(w),
{
    match w {
        Weekday::Mon => "MO",
        Weekday::Tue => "TU",
        Weekday::Wed => "WE",
        Weekday::Thu => "TH",
        Weekday::Fri => "FR",
        Weekday::Sat => "SA",
        Weekday::Sun => "SU",
    }
}

/// A comma-separated weekday-code list, appended to `out`.
fn push_weekdays(out: &mut Vec<char>, s: &Vec<Weekday>)
    ensures
        final(out)@ == old(out)@ + weekdays_rep(s@),
{
    let ghost reps = s@.map_values(|w: Weekday| weekday_code(w));
    let mut i: usize = 0;
    proof {
        assert(reps.take(0) =~= Seq::<Seq<char>>::empty());
        assert(out@ + join_with(reps.take(0), ',') =~= out@);
    }
    while i < s.len()
        invariant
            0 <= i <= s@.len(),
            reps == s@.map_values(|w: Weekday| weekday_code(w)),
            out@ == old(out)@ + join_with(reps.take(i as int), ','),
        decreases s@.len() - i,
    {
        if i > 0 {
            out.push(',');
        }
        push_str(out, weekday_code_exec(s[i]));
        proof {
            crate::text::lemma_join_push(reps.take(i as int), reps[i as int], ',');
            assert(reps.take(i + 1) =~= reps.take(i as int).push(reps[i as int]));
            assert(reps[i as int] == weekday_code(s@[i as int]));
            if i > 0 {
                assert(out@ =~= old(out)@ + (join_with(reps.take(i as int), ',') + seq![',']
                    + weekday_code(s@[i as int])));
            } else {
                assert(out@ =~= old(out)@ + weekday_code(s@[i as int]));
            }
        }
        i = i + 1;
    }
    proof {
        assert(reps.take(s@.len() as int) =~= reps);
    }
}

fn freq_code_exec(f: RecurrenceFreq) -> (r: &'static str)
    ensures
        r@ == freq_code(f),
{
    match f {
        RecurrenceFreq::Daily => "DAILY",
        RecurrenceFreq::Weekly => "WEEKLY",
        RecurrenceFreq::Monthly => "MONTHLY",
        RecurrenceFreq::Yearly => "YEARLY",
    }
}

#[verifier::rlimit(100)]
fn format_head(r: &RecurrenceRule) -> (out: Vec<char>)
    requires
        signed_vec_in_range(r@.by_year_day),
        signed_vec_in_range(r@.by_week_no),
    ensures
        out@ == join_with(spec_head_parts(r@), ';'),
        spec_head_parts(r@).len() >= 1,
{
    let self_ = r;
    let mut out: Vec<char> = Vec::new();
        let ghost done: Seq<Seq<char>> = seq!["FREQ="@ + freq_code(self_@.frequency)];
        push_str(&mut out, "FREQ=");
        push_str(&mut out, freq_code_exec(self_.frequency));
        proof {
            assert(out@ =~= join_with(done, ';'));
        }
        let ghost prev = done;
        let ghost done = prev + (if self_@.interval > 1 {
            seq!["INTERVAL="@ + dec_rep(self_@.interval as int)]
        } else {
            Seq::<Seq<char>>::empty()
        });
        if self_.interval > 1 {
            out.push(';');
            push_str(&mut out, "INTERVAL=");
            push_dec(&mut out, self_.interval);
            proof {
                crate::text::lemma_join_push(prev, done.last(), ';');
                assert(prev.push(done.last()) =~= done);
                assert(out@ =~= join_with(done, ';'));
            }
        } else {
            proof {
                assert(done =~= seq!["FREQ="@ + freq_code(self_@.frequency)]);
            }
        }
        let ghost prev = done;
        let ghost done = prev + (match self_@.by_year_day {
            Option::Some(s) => seq!["BYYEARDAY="@ + nums_rep(s)],
            Option::None => Seq::<Seq<char>>::empty(),
        });
        match &self_.by_year_day {
            Option::Some(s) => {
                proof {
                    assert(s.deep_view() =~= s@);
                }
                out.push(';');
                push_str(&mut out, "BYYEARDAY=");
                push_nums(&mut out, s);
                proof {
                    crate::text::lemma_join_push(prev, done.last(), ';');
                    assert(prev.push(done.last()) =~= done);
                    assert(out@ =~= join_with(done, ';'));
                }
            },
            Option::None => {
                proof {
                    assert(done =~= done.subrange(0, done.len() as int));
                }
            },
        }
        let ghost prev = done;
        let ghost done = prev + (match self_@.by_day {
            Option::Some(s) => seq!["BYDAY="@ + weekdays_rep(s)],
            Option::None => Seq::<Seq<char>>::empty(),
        });
        match &self_.by_day {
            Option::Some(s) => {
                proof {
                    assert(s.deep_view() =~= s@);
                }
                out.push(';');
                push_str(&mut out, "BYDAY=");
                push_weekdays(&mut out, s);
                proof {
                    crate::text::lemma_join_push(prev, done.last(), ';');
                    assert(prev.push(done.last()) =~= done);
                    assert(out@ =~= join_with(done, ';'));
                }
            },
            Option::None => {},
        }
        let ghost prev = done;
        let ghost done = prev + (match self_@.by_week_no {
            Option::Some(s) => seq!["BYWEEKNO="@ + nums_rep(s)],
            Option::None => Seq::<Seq<char>>::empty(),
        });
        match &self_.by_week_no {
            Option::Some(s) => {
                proof {
                    assert(s.deep_view() =~= s@);
                }
                out.push(';');
                push_str(&mut out, "BYWEEKNO=");
                push_nums(&mut out, s);
                proof {
                    crate::text::lemma_join_push(prev, done.last(), ';');
                    assert(prev.push(done.last()) =~= done);
                    assert(out@ =~= join_with(done, ';'));
                }
            },
            Option::None => {},
        }
    proof {
        assert(done =~= spec_head_parts(self_@));
    }
    out
}

/// All entries of an optional list stay above `i32::MIN`, so each has a
/// printable negation.
pub open spec fn signed_vec_in_range(o: Option<Seq<i32>>) -> bool {
    match o {
        Option::None => true,
        Option::Some(s) => forall|j: int| 0 <= j < s.len() ==> #[trigger] s[j] > i32::MIN,
    }
}

/// The printed segment of an optional numeric-list property.
pub open spec fn num_seg(key: Seq<char>, o: Option<Seq<i32>>) -> Seq<Seq<char>> {
    match o {
        Option::Some(s) => seq![key + nums_rep(s)],
        Option::None => Seq::empty(),
    }
}

/// The printed segment of the optional month-list property.
pub open spec fn month_seg(key: Seq<char>, o: Option<Seq<u8>>) -> Seq<Seq<char>> {
    match o {
        Option::Some(s) => seq![key + months_rep(s)],
        Option::None => Seq::empty(),
    }
}

/// The printed segment of the limit.
pub open spec fn limit_seg(l: RecurrenceLimit) -> Seq<Seq<char>> {
    match l {
        RecurrenceLimit::Indefinite => Seq::empty(),
        RecurrenceLimit::Date(d) => seq!["UNTIL="@ + date_rep(d)],
        RecurrenceLimit::Count(n) => seq!["COUNT="@ + dec_rep(n as int)],
    }
}

fn push_num_part(
    out: &mut Vec<char>,
    Ghost(prev): Ghost<Seq<Seq<char>>>,
    key: &str,
    o: &Option<Vec<i32>>,
)
    requires
        old(out)@ == join_with(prev, ';'),
        prev.len() >= 1,
        signed_vec_in_range(o.deep_view()),
    ensures
        final(out)@ == join_with(prev + num_seg(key@, o.deep_view()), ';'),
{
    match o {
        Option::None => {
            proof {
                assert(prev + num_seg(key@, o.deep_view()) =~= prev);
            }
        },
        Option::Some(s) => {
            proof {
                assert(s.deep_view() =~= s@);
                assert(o.deep_view() == Option::Some(s.deep_view()));
                assert forall|j: int| 0 <= j < s@.len() implies #[trigger] s@[j] > i32::MIN by {
                    assert(s.deep_view()[j] == s@[j]);
                    assert(o.deep_view()->0[j] > i32::MIN);
                }
            }
            out.push(';');
            push_str(out, key);
            push_nums(out, s);
            proof {
                crate::text::lemma_join_push(prev, key@ + nums_rep(s@), ';');
                assert(prev.push(key@ + nums_rep(s@)) =~= prev + num_seg(key@, o.deep_view()));
                assert(out@ =~= join_with(prev, ';') + seq![';'] + (key@ + nums_rep(s@)));
            }
        },
    }
}

fn push_month_part(
    out: &mut Vec<char>,
    Ghost(prev): Ghost<Seq<Seq<char>>>,
    key: &str,
    o: &Option<Vec<u8>>,
)
    requires
        old(out)@ == join_with(prev, ';'),
        prev.len() >= 1,
    ensures
        final(out)@ == join_with(prev + month_seg(key@, o.deep_view()), ';'),
{
    match o {
        Option::None => {
            proof {
                assert(prev + month_seg(key@, o.deep_view()) =~= prev);
            }
        },
        Option::Some(s) => {
            proof {
                assert(s.deep_view() =~= s@);
            }
            out.push(';');
            push_str(out, key);
            push_months(out, s);
            proof {
                crate::text::lemma_join_push(prev, key@ + months_rep(s@), ';');
                assert(prev.push(key@ + months_rep(s@)) =~= prev + month_seg(
                    key@,
                    o.deep_view(),
                ));
                assert(out@ =~= join_with(prev, ';') + seq![';'] + (key@ + months_rep(s@)));
            }
        },
    }
}

fn push_limit_part(out: &mut Vec<char>, Ghost(prev): Ghost<Seq<Seq<char>>>, l: &RecurrenceLimit)
    requires
        old(out)@ == join_with(prev, ';'),
        prev.len() >= 1,
        match l {
            RecurrenceLimit::Date(d) => date_wf(*d),
            _ => true,
        },
    ensures
        final(out)@ == join_with(prev + limit_seg(*l), ';'),
{
    match l {
        RecurrenceLimit::Indefinite => {
            proof {
                assert(prev + limit_seg(*l) =~= prev);
            }
        },
        RecurrenceLimit::Date(d) => {
            out.push(';');
            push_str(out, "UNTIL=");
            push_date(out, d);
            proof {
                crate::text::lemma_join_push(prev, "UNTIL="@ + date_rep(*d), ';');
                assert(prev.push("UNTIL="@ + date_rep(*d)) =~= prev + limit_seg(*l));
                assert(out@ =~= join_with(prev, ';') + seq![';'] + ("UNTIL="@ + date_rep(*d)));
            }
        },
        RecurrenceLimit::Count(n) => {
            out.push(';');
            push_str(out, "COUNT=");
            push_dec(out, *n);
            proof {
                crate::text::lemma_join_push(prev, "COUNT="@ + dec_rep(*n as int), ';');
                assert(prev.push("COUNT="@ + dec_rep(*n as int)) =~= prev + limit_seg(*l));
                assert(out@ =~= join_with(prev, ';') + seq![';'] + ("COUNT="@ + dec_rep(
                    *n as int,
                )));
            }
        },
    }
}

impl RecurrenceRule {
    /// The canonical textual form of this rule; `parse` accepts it and
    /// yields this rule back.
    pub fn to_string(&self) -> (r: String)
        requires
            match self@.limit {
                RecurrenceLimit::Date(d) => date_wf(d),
                _ => true,
            },
            signed_vec_in_range(self@.by_year_day),
            signed_vec_in_range(self@.by_week_no),
            signed_vec_in_range(self@.by_month_day),
            signed_vec_in_range(self@.by_set_pos),
        ensures
            r@ == spec_format(self@),
    {
        let mut out: Vec<char> = format_head(self);
        let ghost d0 = spec_head_parts(self@);
        push_num_part(&mut out, Ghost(d0), "BYMONTHDAY=", &self.by_month_day);
        let ghost d1 = d0 + num_seg("BYMONTHDAY="@, self@.by_month_day);
        push_num_part(&mut out, Ghost(d1), "BYSETPOS=", &self.by_set_pos);
        let ghost d2 = d1 + num_seg("BYSETPOS="@, self@.by_set_pos);
        push_month_part(&mut out, Ghost(d2), "BYMONTH=", &self.by_month);
        let ghost d3 = d2 + month_seg("BYMONTH="@, self@.by_month);
        push_limit_part(&mut out, Ghost(d3), &self.limit);
        let ghost d4 = d3 + limit_seg(self@.limit);
        proof {
            assert(d4 =~= spec_rule_parts(self@));
        }
        chars_to_string(&out)
    }
}

} // verus!
