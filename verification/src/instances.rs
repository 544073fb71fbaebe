//! Bounded enumeration of the dates on which a rule recurs: a single scan
//! from the start date that advances by the rule's interval in days, filters
//! each date through the BY* predicates, and accepts it when the distance
//! from the last accepted instance honours the interval in the rule's own
//! frequency unit.

use vstd::prelude::*;

use crate::date::{
    date_of_index, date_to_days, date_wf, day_index, days_to_date, lemma_date_of_index,
    lemma_day_index_order, lemma_day_index_total, spec_uniq_weeks_between, uniq_weeks_between,
    Date, TOTAL_DAYS,
};
use crate::rule::{
    date_fits, rule_wf, spec_infer, RecurrenceFreq, RecurrenceLimit, RecurrenceRule,
};

verus! {

/// A rule component that is recognized and validated but whose matching
/// predicate is not implemented.
#[derive(Clone, Copy, Debug, PartialEq, Eq, Structural)]
pub enum UnsupportedProp {
    ByWeekNo,
    BySetPos,
}

/// Why an otherwise valid rule cannot be evaluated.
#[derive(Clone, Copy, Debug, PartialEq, Eq, Structural)]
pub enum EvalError {
    Unsupported(UnsupportedProp),
}

/// Distance from the last accepted instance to the current date, in the
/// unit of the rule's frequency: whole days, distinct calendar weeks, months
/// (wrapping through twelve), or calendar years.
pub open spec fn spec_freq_diff(freq: RecurrenceFreq, cur: Date, last: Date) -> int {
    match freq {
        RecurrenceFreq::Daily => day_index(cur) - day_index(last),
        RecurrenceFreq::Weekly => spec_uniq_weeks_between(day_index(cur), day_index(last)),
        RecurrenceFreq::Monthly => if last.month > cur.month {
            cur.month + 12 - last.month
        } else {
            cur.month - last.month
        },
        RecurrenceFreq::Yearly => cur.year - last.year,
    }
}

/// The dates the scan accepts, starting the test at day-line position
/// `cur_n` with `last` the most recently accepted instance and `count`
/// instances accepted so far, and stopping beyond position `end_n` or when a
/// COUNT limit is reached. A date is accepted when it fits the BY*
/// components and its frequency distance from `last` is zero or at least the
/// interval.
pub open spec fn spec_scan(r: crate::rule::RuleView, cur_n: int, last: Date, count: int, end_n: int) -> Seq<
    Date,
>
    decreases (if cur_n > end_n {
        0int
    } else {
        end_n + 1 - cur_n
    }),
{
    if cur_n > end_n {
        Seq::empty()
    } else if r.limit is Count && count >= r.limit->Count_0 {
        Seq::empty()
    } else {
        let step = if r.interval >= 1 {
            r.interval as int
        } else {
            1int
        };
        let d = date_of_index(cur_n);
        let diff = spec_freq_diff(r.frequency, d, last);
        if date_fits(r, d) && (diff >= r.interval || diff == 0) {
            seq![d] + spec_scan(r, cur_n + step, d, count + 1, end_n)
        } else {
            spec_scan(r, cur_n + step, last, count, end_n)
        }
    }
}

/// What the scan accepts is well-formed, lies between the scan's current
/// position and its end, is strictly increasing, and, under a COUNT limit,
/// never exceeds the count that is still owed.
pub proof fn lemma_scan_elems(r: crate::rule::RuleView, cur_n: int, last: Date, count: int, end_n: int)
    requires
        0 <= cur_n,
        end_n < TOTAL_DAYS,
    ensures
        forall|k: int|
            0 <= k < spec_scan(r, cur_n, last, count, end_n).len() ==> date_wf(
                #[trigger] spec_scan(r, cur_n, last, count, end_n)[k],
            ) && cur_n <= day_index(spec_scan(r, cur_n, last, count, end_n)[k]) <= end_n,
        forall|k1: int, k2: int|
            0 <= k1 < k2 < spec_scan(r, cur_n, last, count, end_n).len() ==> day_index(
                #[trigger] spec_scan(r, cur_n, last, count, end_n)[k1],
            ) < day_index(#[trigger] spec_scan(r, cur_n, last, count, end_n)[k2]),
        r.limit is Count ==> spec_scan(r, cur_n, last, count, end_n).len() + count
            <= r.limit->Count_0 || spec_scan(r, cur_n, last, count, end_n).len() == 0,
    decreases (if cur_n > end_n {
        0int
    } else {
        end_n + 1 - cur_n
    }),
{
    if cur_n > end_n {
    } else if r.limit is Count && count >= r.limit->Count_0 {
    } else {
        let step = if r.interval >= 1 {
            r.interval as int
        } else {
            1int
        };
        let d = date_of_index(cur_n);
        let diff = spec_freq_diff(r.frequency, d, last);
        lemma_date_of_index(cur_n);
        if date_fits(r, d) && (diff >= r.interval || diff == 0) {
            lemma_scan_elems(r, cur_n + step, d, count + 1, end_n);
            let rest = spec_scan(r, cur_n + step, d, count + 1, end_n);
            let whole = spec_scan(r, cur_n, last, count, end_n);
            assert(whole == seq![d] + rest);
            assert(whole[0] == d);
            assert forall|k: int|
                0 <= k < spec_scan(r, cur_n, last, count, end_n).len() implies date_wf(
                #[trigger] spec_scan(r, cur_n, last, count, end_n)[k],
            ) && cur_n <= day_index(spec_scan(r, cur_n, last, count, end_n)[k]) <= end_n by {
                if k > 0 {
                    assert(spec_scan(r, cur_n, last, count, end_n)[k] == rest[k - 1]);
                } else {
                    assert(spec_scan(r, cur_n, last, count, end_n)[k] == d);
                }
            }
            assert forall|k1: int, k2: int|
                0 <= k1 < k2 < spec_scan(r, cur_n, last, count, end_n).len() implies day_index(
                #[trigger] spec_scan(r, cur_n, last, count, end_n)[k1],
            ) < day_index(#[trigger] spec_scan(r, cur_n, last, count, end_n)[k2]) by {
                assert(spec_scan(r, cur_n, last, count, end_n)[k2] == rest[k2 - 1]);
                assert(cur_n + step <= day_index(rest[k2 - 1]));
                if k1 > 0 {
                    assert(spec_scan(r, cur_n, last, count, end_n)[k1] == rest[k1 - 1]);
                } else {
                    assert(spec_scan(r, cur_n, last, count, end_n)[k1] == d);
                }
            }
        } else {
            lemma_scan_elems(r, cur_n + step, last, count, end_n);
            assert(spec_scan(r, cur_n, last, count, end_n) == spec_scan(
                r,
                cur_n + step,
                last,
                count,
                end_n,
            ));
        }
    }
}

/// Runs the scan from `starting_at` up to day-line position `end_n`,
/// returning every accepted instance.
fn run_scan(rule: &RecurrenceRule, starting_at: Date, end_n: u32) -> (out: Vec<Date>)
    requires
        rule_wf(rule@),
        rule@.by_week_no is None,
        rule@.by_set_pos is None,
        date_wf(starting_at),
        end_n < TOTAL_DAYS,
    ensures
        out@ == spec_scan(rule@, day_index(starting_at), starting_at, 0, end_n as int),
{
    let ghost start_n = day_index(starting_at);
    let mut cur_n: u64 = date_to_days(&starting_at) as u64;
    let mut last: Date = starting_at;
    let mut last_n: u64 = cur_n;
    let mut count: u64 = 0;
    let mut out: Vec<Date> = Vec::new();
    proof {
        assert(out@ + spec_scan(rule@, start_n, starting_at, 0, end_n as int) =~= spec_scan(
            rule@,
            start_n,
            starting_at,
            0,
            end_n as int,
        ));
    }
    loop
        invariant
            rule_wf(rule@),
            rule@.by_week_no is None,
            rule@.by_set_pos is None,
            date_wf(last),
            day_index(last) == last_n,
            start_n <= last_n <= cur_n,
            last_n < TOTAL_DAYS,
            start_n == day_index(starting_at),
            0 <= start_n < TOTAL_DAYS,
            end_n < TOTAL_DAYS,
            cur_n < TOTAL_DAYS as u64 + rule.interval as u64,
            count <= cur_n - start_n + 1,
            spec_scan(rule@, start_n, starting_at, 0, end_n as int) == out@ + spec_scan(
                rule@,
                cur_n as int,
                last,
                count as int,
                end_n as int,
            ),
        ensures
            spec_scan(rule@, cur_n as int, last, count as int, end_n as int) == Seq::<
                Date,
            >::empty(),
            spec_scan(rule@, start_n, starting_at, 0, end_n as int) == out@ + spec_scan(
                rule@,
                cur_n as int,
                last,
                count as int,
                end_n as int,
            ),
        decreases (if cur_n > end_n as u64 {
            0int
        } else {
            end_n as int + 1 - cur_n as int
        }),
    {
        if cur_n > end_n as u64 {
            break ;
        }
        if let RecurrenceLimit::Count(n) = rule.limit {
            if count >= n as u64 {
                break ;
            }
        }
        let d = days_to_date(cur_n as u32);
        proof {
            lemma_date_of_index(cur_n as int);
            lemma_day_index_order(d, date_of_index(cur_n as int));
            assert(date_of_index(cur_n as int) == d);
            lemma_day_index_order(last, d);
        }
        let fits = rule.fits_date(&d);
        let fd: u64 = match rule.frequency {
            RecurrenceFreq::Daily => cur_n - last_n,
            RecurrenceFreq::Weekly => uniq_weeks_between(cur_n as u32, last_n as u32) as u64,
            RecurrenceFreq::Monthly => if last.month > d.month {
                d.month as u64 + 12 - last.month as u64
            } else {
                d.month as u64 - last.month as u64
            },
            RecurrenceFreq::Yearly => (d.year - last.year) as u64,
        };
        proof {
            assert(fd == spec_freq_diff(rule@.frequency, d, last));
        }
        let accepted = fits && (fd >= rule.interval as u64 || fd == 0);
        proof {
            let old_scan = spec_scan(rule@, cur_n as int, last, count as int, end_n as int);
            let step = rule@.interval as int;
            if accepted {
                assert(old_scan == seq![d] + spec_scan(
                    rule@,
                    cur_n as int + step,
                    d,
                    count as int + 1,
                    end_n as int,
                ));
                assert(out@ + old_scan =~= (out@ + seq![d]) + spec_scan(
                    rule@,
                    cur_n as int + step,
                    d,
                    count as int + 1,
                    end_n as int,
                ));
            } else {
                assert(old_scan == spec_scan(
                    rule@,
                    cur_n as int + step,
                    last,
                    count as int,
                    end_n as int,
                ));
            }
        }
        if accepted {
            count = count + 1;
            out.push(d);
            last = d;
            last_n = cur_n;
        }
        cur_n = cur_n + rule.interval as u64;
    }
    proof {
        assert(out@ + Seq::<Date>::empty() =~= out@);
    }
    out
}

/// Keeps the dates at or after day-line position `from_n`, in order.
fn filter_from(v: &Vec<Date>, from_n: u32) -> (r: Vec<Date>)
    requires
        forall|k: int| 0 <= k < v@.len() ==> date_wf(#[trigger] v@[k]),
    ensures
        r@ == v@.filter(|d: Date| day_index(d) >= from_n as int),
{
    let mut out: Vec<Date> = Vec::new();
    let mut i: usize = 0;
    proof {
        reveal(Seq::filter);
        assert(v@.take(0).filter(|d: Date| day_index(d) >= from_n as int) =~= Seq::<
            Date,
        >::empty());
    }
    while i < v.len()
        invariant
            0 <= i <= v@.len(),
            forall|k: int| 0 <= k < v@.len() ==> date_wf(#[trigger] v@[k]),
            out@ == v@.take(i as int).filter(|d: Date| day_index(d) >= from_n as int),
        decreases v@.len() - i,
    {
        let d = v[i];
        let keep = date_to_days(&d) >= from_n;
        proof {
            reveal(Seq::filter);
            let p = |d: Date| day_index(d) >= from_n as int;
            assert(v@.take(i + 1).drop_last() =~= v@.take(i as int));
            assert(v@.take(i + 1).last() == v@[i as int]);
            assert(v@.take(i + 1).filter(p) == if p(v@[i as int]) {
                v@.take(i as int).filter(p).push(v@[i as int])
            } else {
                v@.take(i as int).filter(p)
            });
        }
        if keep {
            out.push(d);
        }
        i = i + 1;
    }
    proof {
        assert(v@.take(v@.len() as int) =~= v@);
    }
    out
}

/// The end of the scan: the query's upper bound, tightened to the rule's
/// UNTIL date when one is present.
pub open spec fn spec_scan_end(r: crate::rule::RuleView, to: Date) -> int {
    match r.limit {
        RecurrenceLimit::Date(u) => if day_index(u) < day_index(to) {
            day_index(u)
        } else {
            day_index(to)
        },
        _ => day_index(to),
    }
}

/// The error, if any, that evaluating `r` seeded from `starting_at` must
/// raise: BYWEEKNO and BYSETPOS are parsed and validated, but matching them
/// is not implemented, and evaluation refuses them deterministically.
pub open spec fn spec_eval_refusal(r: crate::rule::RuleView, starting_at: Date) -> Option<EvalError> {
    let inf = spec_infer(r, starting_at);
    if inf.by_week_no is Some {
        Option::Some(EvalError::Unsupported(UnsupportedProp::ByWeekNo))
    } else if inf.by_set_pos is Some {
        Option::Some(EvalError::Unsupported(UnsupportedProp::BySetPos))
    } else {
        Option::None
    }
}

/// The dates `calculate_instances` returns: the scan of the inferred rule
/// from the start date to the scan end, kept to those at or after `from`.
pub open spec fn spec_instances(r: crate::rule::RuleView, from: Date, to: Date, starting_at: Date) -> Seq<
    Date,
> {
    let inf = spec_infer(r, starting_at);
    spec_scan(inf, day_index(starting_at), starting_at, 0, spec_scan_end(inf, to)).filter(
        |d: Date| day_index(d) >= day_index(from),
    )
}

/// What a filter keeps satisfies the predicate, comes from the input, and
/// keeps any strict order the input had.
pub proof fn lemma_filter_elems(s: Seq<Date>, p: spec_fn(Date) -> bool)
    ensures
        forall|i: int|
            0 <= i < s.filter(p).len() ==> p(#[trigger] s.filter(p)[i]) && s.contains(
                s.filter(p)[i],
            ),
        (forall|i: int, j: int|
            0 <= i < j < s.len() ==> day_index(#[trigger] s[i]) < day_index(#[trigger] s[j]))
            ==> (forall|i: int, j: int|
            0 <= i < j < s.filter(p).len() ==> day_index(#[trigger] s.filter(p)[i]) < day_index(
                #[trigger] s.filter(p)[j],
            )),
    decreases s.len(),
{
    reveal(Seq::filter);
    broadcast use vstd::seq_lib::group_filter_ensures;

    if s.len() == 0 {
    } else {
        let dl = s.drop_last();
        lemma_filter_elems(dl, p);
        let f = s.filter(p);
        let fdl = dl.filter(p);
        assert forall|i: int| 0 <= i < f.len() implies p(#[trigger] f[i]) && s.contains(f[i]) by {
            if i < fdl.len() {
                assert(f[i] == fdl[i]);
                let k = choose|k: int| 0 <= k < dl.len() && dl[k] == fdl[i];
                assert(s[k] == f[i]);
            } else {
                assert(f[i] == s.last());
                assert(s[s.len() - 1] == s.last());
            }
        }
        if forall|i: int, j: int|
            0 <= i < j < s.len() ==> day_index(#[trigger] s[i]) < day_index(#[trigger] s[j]) {
            assert forall|i: int, j: int|
                0 <= i < j < f.len() implies day_index(#[trigger] f[i]) < day_index(
                #[trigger] f[j],
            ) by {
                if j < fdl.len() {
                    assert(f[i] == fdl[i] && f[j] == fdl[j]);
                } else {
                    assert(f[j] == s.last());
                    assert(f[i] == fdl[i]);
                    let k = choose|k: int| 0 <= k < dl.len() && dl[k] == fdl[i];
                    assert(s[k] == f[i]);
                    assert(day_index(s[k]) < day_index(s[s.len() - 1]));
                }
            }
        }
    }
}

/// When the limit is COUNT, no more instances are returned than it allows.
pub proof fn lemma_count_respect(r: crate::rule::RuleView, from: Date, to: Date, starting_at: Date)
    requires
        date_wf(from),
        date_wf(to),
        date_wf(starting_at),
        r.limit is Count,
    ensures
        spec_instances(r, from, to, starting_at).len() <= r.limit->Count_0,
{
    broadcast use vstd::prelude::Seq::lemma_filter_len;

    let inf = spec_infer(r, starting_at);
    lemma_day_index_total(starting_at);
    lemma_day_index_total(to);
    lemma_scan_elems(inf, day_index(starting_at), starting_at, 0, spec_scan_end(inf, to));
}

/// When the limit is UNTIL, no returned instance lies beyond that date, and
/// every one lies inside the query window; the sequence is strictly
/// increasing. The same bounds hold for the other limits, with the window
/// alone bounding above.
pub proof fn lemma_instances_window(r: crate::rule::RuleView, from: Date, to: Date, starting_at: Date)
    requires
        date_wf(from),
        date_wf(to),
        date_wf(starting_at),
    ensures
        forall|k: int|
            0 <= k < spec_instances(r, from, to, starting_at).len() ==> date_wf(
                #[trigger] spec_instances(r, from, to, starting_at)[k],
            ) && day_index(from) <= day_index(spec_instances(r, from, to, starting_at)[k])
                && day_index(spec_instances(r, from, to, starting_at)[k]) <= spec_scan_end(
                spec_infer(r, starting_at),
                to,
            ) <= day_index(to),
        forall|k1: int, k2: int|
            0 <= k1 < k2 < spec_instances(r, from, to, starting_at).len() ==> day_index(
                #[trigger] spec_instances(r, from, to, starting_at)[k1],
            ) < day_index(#[trigger] spec_instances(r, from, to, starting_at)[k2]),
{
    let inf = spec_infer(r, starting_at);
    let end_n = spec_scan_end(inf, to);
    lemma_day_index_total(starting_at);
    lemma_day_index_total(to);
    let scan = spec_scan(inf, day_index(starting_at), starting_at, 0, end_n);
    lemma_scan_elems(inf, day_index(starting_at), starting_at, 0, end_n);
    lemma_filter_elems(scan, |d: Date| day_index(d) >= day_index(from));
    let out = spec_instances(r, from, to, starting_at);
    assert forall|k: int|
        0 <= k < out.len() implies date_wf(#[trigger] out[k]) && day_index(from) <= day_index(
        out[k],
    ) && day_index(out[k]) <= end_n <= day_index(to) by {
        assert(scan.contains(out[k]));
        let j = choose|j: int| 0 <= j < scan.len() && scan[j] == out[k];
        assert(date_wf(scan[j]) && day_index(scan[j]) <= end_n);
    }
}

/// When the limit is UNTIL, no algorithmic instance exceeds the UNTIL date.
pub proof fn lemma_until_respect(r: crate::rule::RuleView, from: Date, to: Date, starting_at: Date)
    requires
        date_wf(from),
        date_wf(to),
        date_wf(starting_at),
        r.limit is Date,
    ensures
        forall|k: int|
            0 <= k < spec_instances(r, from, to, starting_at).len() ==> day_index(
                #[trigger] spec_instances(r, from, to, starting_at)[k],
            ) <= day_index(r.limit->Date_0),
{
    lemma_instances_window(r, from, to, starting_at);
}

impl RecurrenceRule {
    /// Calculate event instances based on this rule: every date between
    /// `from` and `to` (both inclusive) on which the event recurs, given
    /// that the original event takes place at `starting_at`.
    ///
    /// Some rule properties might be inferred from `starting_at` if they're
    /// not present in the rule (e.g. if not already specified, BYDAY is
    /// inferred to be the same weekday as `starting_at` when FREQ=WEEKLY);
    /// see `infer_stuff`.
    ///
    /// A rule that carries BYWEEKNO or BYSETPOS is refused with
    /// `EvalError::Unsupported`: matching them is deliberately not
    /// implemented, and silently wrong results would be worse.
    pub fn calculate_instances(&self, from: Date, to: Date, starting_at: Date) -> (r: Result<
        Vec<Date>,
        EvalError,
    >)
        requires
            rule_wf(self@),
            date_wf(from),
            date_wf(to),
            date_wf(starting_at),
        ensures
            r is Err <==> spec_eval_refusal(self@, starting_at) is Some,
            r is Err ==> Option::Some(r->Err_0) == spec_eval_refusal(self@, starting_at),
            r is Ok ==> r->Ok_0@ == spec_instances(self@, from, to, starting_at),
    {
        let inferred = self.infer_stuff(starting_at);
        if inferred.by_week_no.is_some() {
            return Result::Err(EvalError::Unsupported(UnsupportedProp::ByWeekNo));
        }
        if inferred.by_set_pos.is_some() {
            return Result::Err(EvalError::Unsupported(UnsupportedProp::BySetPos));
        }
        proof {
            crate::rule::lemma_infer_wf(self@, starting_at);
        }
        let to_n = date_to_days(&to);
        let end_n: u32 = match inferred.limit {
            RecurrenceLimit::Date(u) => {
                let u_n = date_to_days(&u);
                if u_n < to_n {
                    u_n
                } else {
                    to_n
                }
            },
            _ => to_n,
        };
        proof {
            assert(end_n as int == spec_scan_end(inferred@, to));
        }
        let accepted = run_scan(&inferred, starting_at, end_n);
        proof {
            lemma_day_index_total(starting_at);
            lemma_scan_elems(
                inferred@,
                day_index(starting_at),
                starting_at,
                0,
                end_n as int,
            );
        }
        let from_n = date_to_days(&from);
        let emitted = filter_from(&accepted, from_n);
        Result::Ok(emitted)
    }
}

} // verus!
