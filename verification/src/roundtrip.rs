//! Round-trip law of the wire format: parsing the canonical textual form of
//! any well-formed rule yields that rule back.

use vstd::prelude::*;

use crate::printer::{
    freq_code, months_rep, nums_rep, spec_format, spec_rule_parts, weekday_code, weekdays_rep,
};
use crate::recurrence_parser::{
    spec_lookup, spec_parse_freq, spec_parse_num_items, spec_parse_props, spec_parse_rule,
    spec_parse_weekday, spec_parse_weekday_items, spec_tokenize, PropView,
};
use crate::rule::{rule_wf, RecurrenceFreq, RecurrenceLimit, RuleView, Weekday};
use crate::text::{
    date_rep, dec_rep, int_rep, join_with, lemma_dec_rep, lemma_digit_chars, lemma_parse_date_rep,
    lemma_parse_dec_rep, lemma_parse_int_rep, lemma_split_join, lemma_split_step,
    lemma_split_whole, split_on,
};
use crate::date::{date_wf, Date};

verus! {

/// An element of a concatenation comes from one of the two halves.
proof fn lemma_concat_contains(a: Seq<char>, b: Seq<char>, c: char)
    ensures
        (a + b).contains(c) <==> a.contains(c) || b.contains(c),
{
    if a.contains(c) {
        let i = choose|i: int| 0 <= i < a.len() && a[i] == c;
        assert((a + b)[i] == c);
    }
    if b.contains(c) {
        let i = choose|i: int| 0 <= i < b.len() && b[i] == c;
        assert((a + b)[i + a.len()] == c);
    }
    if (a + b).contains(c) {
        let i = choose|i: int| 0 <= i < (a + b).len() && (a + b)[i] == c;
        if i < a.len() {
            assert(a[i] == c);
        } else {
            assert(b[i - a.len()] == c);
        }
    }
}

/// A join contains no character that neither its parts nor its separator
/// hold.
proof fn lemma_join_free(parts: Seq<Seq<char>>, sep: char, c: char)
    requires
        sep != c,
        forall|i: int| 0 <= i < parts.len() ==> !(#[trigger] parts[i]).contains(c),
    ensures
        !join_with(parts, sep).contains(c),
    decreases parts.len(),
{
    if parts.len() == 0 {
    } else if parts.len() == 1 {
        assert(!parts[0].contains(c));
    } else {
        lemma_join_free(parts.drop_first(), sep, c);
        lemma_concat_contains(parts[0], seq![sep], c);
        lemma_concat_contains(parts[0] + seq![sep], join_with(parts.drop_first(), sep), c);
        assert(!seq![sep].contains(c)) by {
            if seq![sep].contains(c) {
                let i = choose|i: int| 0 <= i < 1 && seq![sep][i] == c;
                assert(seq![sep][0] == sep);
            }
        }
    }
}

/// A signed decimal holds only digits and the sign, so no separators.
proof fn lemma_int_rep_free(v: int)
    requires
        v > -2147483648,
    ensures
        !int_rep(v).contains(';'),
        !int_rep(v).contains(','),
        !int_rep(v).contains('='),
{
    if v < 0 {
        lemma_dec_rep(-v);
        lemma_digit_chars(dec_rep(-v));
        lemma_concat_contains(seq!['-'], dec_rep(-v), ';');
        lemma_concat_contains(seq!['-'], dec_rep(-v), ',');
        lemma_concat_contains(seq!['-'], dec_rep(-v), '=');
        assert(forall|c: char| seq!['-'].contains(c) ==> c == '-') by {
            assert(forall|i: int| 0 <= i < 1 ==> seq!['-'][i] == '-');
        }
    } else {
        lemma_dec_rep(v);
        lemma_digit_chars(dec_rep(v));
    }
}

/// A number list holds only digits, signs and commas.
proof fn lemma_nums_rep_free(s: Seq<i32>)
    requires
        forall|i: int| 0 <= i < s.len() ==> #[trigger] s[i] > i32::MIN,
    ensures
        !nums_rep(s).contains(';'),
        !nums_rep(s).contains('='),
{
    let reps = s.map_values(|x: i32| int_rep(x as int));
    assert forall|i: int| 0 <= i < reps.len() implies !(#[trigger] reps[i]).contains(';') && !(
    reps[i]).contains('=') by {
        lemma_int_rep_free(s[i] as int);
    }
    lemma_join_free(reps, ',', ';');
    lemma_join_free(reps, ',', '=');
}

/// A month list holds only digits and commas.
proof fn lemma_months_rep_free(s: Seq<u8>)
    ensures
        !months_rep(s).contains(';'),
        !months_rep(s).contains('='),
{
    let reps = s.map_values(|x: u8| dec_rep(x as int));
    assert forall|i: int| 0 <= i < reps.len() implies !(#[trigger] reps[i]).contains(';') && !(
    reps[i]).contains('=') by {
        lemma_dec_rep(s[i] as int);
        lemma_digit_chars(dec_rep(s[i] as int));
    }
    lemma_join_free(reps, ',', ';');
    lemma_join_free(reps, ',', '=');
}

/// A weekday code holds only letters.
proof fn lemma_weekday_code_free(w: Weekday)
    ensures
        !weekday_code(w).contains(';'),
        !weekday_code(w).contains('='),
        !weekday_code(w).contains(','),
        weekday_code(w).len() == 2,
{
    reveal_strlit("MO");
    reveal_strlit("TU");
    reveal_strlit("WE");
    reveal_strlit("TH");
    reveal_strlit("FR");
    reveal_strlit("SA");
    reveal_strlit("SU");
    let v = weekday_code(w);
    assert forall|c: char| v.contains(c) implies c != ';' && c != '=' && c != ',' by {
        let i = choose|i: int| 0 <= i < v.len() && v[i] == c;
        assert(i == 0 || i == 1);
    }
}

/// A weekday-code list holds only letters and commas.
proof fn lemma_weekdays_rep_free(s: Seq<Weekday>)
    ensures
        !weekdays_rep(s).contains(';'),
        !weekdays_rep(s).contains('='),
{
    let reps = s.map_values(|w: Weekday| weekday_code(w));
    assert forall|i: int| 0 <= i < reps.len() implies !(#[trigger] reps[i]).contains(';') && !(
    reps[i]).contains('=') by {
        lemma_weekday_code_free(s[i]);
    }
    lemma_join_free(reps, ',', ';');
    lemma_join_free(reps, ',', '=');
}

/// The date wire form holds only digits.
proof fn lemma_date_rep_free(d: Date)
    requires
        date_wf(d),
    ensures
        !date_rep(d).contains(';'),
        !date_rep(d).contains('='),
{
    lemma_parse_date_rep(d);
    lemma_digit_chars(date_rep(d));
}

/// Tokenizing a single well-shaped `KEY=VALUE` part yields that pair.
proof fn lemma_tokenize_single(key: Seq<char>, value: Seq<char>)
    requires
        !key.contains('='),
        !value.contains('='),
    ensures
        spec_tokenize(seq![key + seq!['='] + value]) == Result::<
            Seq<PropView>,
            crate::recurrence_parser::ParseErrView,
        >::Ok(seq![PropView { key, value }]),
{
    lemma_split_step(key, value, '=');
    lemma_split_whole(value, '=');
    let parts = seq![key + seq!['='] + value];
    assert(parts.drop_first() =~= Seq::<Seq<char>>::empty());
    assert(spec_tokenize(Seq::<Seq<char>>::empty()) == Result::<
        Seq<PropView>,
        crate::recurrence_parser::ParseErrView,
    >::Ok(Seq::<PropView>::empty()));
    let kv = split_on(parts[0], '=');
    assert(kv == seq![key] + seq![value]);
    assert(kv.len() == 2);
    assert(kv[0] == key && kv[1] == value);
    assert(spec_tokenize(parts) is Ok);
    assert(spec_tokenize(parts)->Ok_0 =~= seq![PropView { key, value }]);
}

/// Tokenizing a concatenation of well-tokenizing part lists concatenates
/// their pairs.
proof fn lemma_tokenize_append(ps1: Seq<Seq<char>>, ps2: Seq<Seq<char>>)
    requires
        spec_tokenize(ps1) is Ok,
        spec_tokenize(ps2) is Ok,
    ensures
        spec_tokenize(ps1 + ps2) == Result::<
            Seq<PropView>,
            crate::recurrence_parser::ParseErrView,
        >::Ok(spec_tokenize(ps1)->Ok_0 + spec_tokenize(ps2)->Ok_0),
    decreases ps1.len(),
{
    if ps1.len() == 0 {
        assert(ps1 + ps2 =~= ps2);
        assert(spec_tokenize(ps1)->Ok_0 + spec_tokenize(ps2)->Ok_0 =~= spec_tokenize(ps2)->Ok_0);
    } else {
        assert(ps1.drop_first() + ps2 =~= (ps1 + ps2).drop_first());
        lemma_tokenize_append(ps1.drop_first(), ps2);
        assert((ps1 + ps2)[0] == ps1[0]);
        let kv = split_on(ps1[0], '=');
        assert(kv.len() >= 2);
        assert(spec_tokenize(ps1 + ps2)->Ok_0 =~= spec_tokenize(ps1)->Ok_0 + spec_tokenize(
            ps2,
        )->Ok_0);
    }
}

/// A lookup in a concatenation takes the later half's answer when it has
/// one.
proof fn lemma_lookup_append(a: Seq<PropView>, b: Seq<PropView>)
    ensures
        forall|key: Seq<char>| #[trigger]
            spec_lookup(a + b, key) == (match spec_lookup(b, key) {
                Option::Some(v) => Option::Some(v),
                Option::None => spec_lookup(a, key),
            }),
    decreases b.len(),
{
    if b.len() == 0 {
        assert(a + b =~= a);
    } else {
        assert((a + b).drop_last() =~= a + b.drop_last());
        assert((a + b).last() == b.last());
        lemma_lookup_append(a, b.drop_last());
    }
    assert forall|key: Seq<char>| #[trigger]
        spec_lookup(a + b, key) == (match spec_lookup(b, key) {
            Option::Some(v) => Option::Some(v),
            Option::None => spec_lookup(a, key),
        }) by {
        if b.len() > 0 {
            assert(spec_lookup(a + b.drop_last(), key) == (match spec_lookup(b.drop_last(), key) {
                Option::Some(v) => Option::Some(v),
                Option::None => spec_lookup(a, key),
            }));
        }
    }
}

/// Parsing a printed number list yields the numbers back.
proof fn lemma_parse_nums_rep(s: Seq<i32>, min: int, max: int)
    requires
        -2147483647 <= min <= max <= 2147483647,
        s.len() >= 1,
        forall|i: int| 0 <= i < s.len() ==> min <= #[trigger] s[i] <= max && s[i] != 0,
    ensures
        spec_parse_num_items(split_on(nums_rep(s), ','), min, max) == Option::Some(s),
{
    let reps = s.map_values(|x: i32| int_rep(x as int));
    assert forall|i: int| 0 <= i < reps.len() implies !(#[trigger] reps[i]).contains(',') by {
        lemma_int_rep_free(s[i] as int);
    }
    lemma_split_join(reps, ',');
    lemma_parse_items_of_reps(s, min, max);
}

/// Parsing the item representations one by one yields the numbers back.
proof fn lemma_parse_items_of_reps(s: Seq<i32>, min: int, max: int)
    requires
        -2147483647 <= min <= max <= 2147483647,
        forall|i: int| 0 <= i < s.len() ==> min <= #[trigger] s[i] <= max && s[i] != 0,
    ensures
        spec_parse_num_items(s.map_values(|x: i32| int_rep(x as int)), min, max) == Option::Some(
            s,
        ),
    decreases s.len(),
{
    let reps = s.map_values(|x: i32| int_rep(x as int));
    if s.len() == 0 {
        assert(spec_parse_num_items(reps, min, max) =~~= Option::Some(s));
    } else {
        assert(reps[0] == int_rep(s[0] as int));
        lemma_parse_int_rep(s[0] as int, 2147483647);
        assert(reps.drop_first() =~= s.drop_first().map_values(|x: i32| int_rep(x as int)));
        lemma_parse_items_of_reps(s.drop_first(), min, max);
        assert(seq![s[0]] + s.drop_first() =~= s);
    }
}

/// Parsing a printed month list yields the months back, as numbers.
proof fn lemma_parse_months_rep(s: Seq<u8>)
    requires
        forall|i: int| 0 <= i < s.len() ==> 1 <= #[trigger] s[i] <= 12,
        s.len() >= 1,
    ensures
        spec_parse_num_items(split_on(months_rep(s), ','), 1, 12) == Option::Some(
            s.map_values(|x: u8| x as i32),
        ),
{
    let nums = s.map_values(|x: u8| x as i32);
    assert(months_rep(s) == nums_rep(nums)) by {
        assert(s.map_values(|x: u8| dec_rep(x as int)) =~= nums.map_values(
            |x: i32| int_rep(x as int),
        ));
    }
    lemma_parse_nums_rep(nums, 1, 12);
}

/// Parsing a printed weekday list yields the weekdays back.
proof fn lemma_parse_weekdays_rep(s: Seq<Weekday>)
    requires
        s.len() >= 1,
    ensures
        spec_parse_weekday_items(split_on(weekdays_rep(s), ',')) == Option::Some(s),
{
    let reps = s.map_values(|w: Weekday| weekday_code(w));
    assert forall|i: int| 0 <= i < reps.len() implies !(#[trigger] reps[i]).contains(',') by {
        lemma_weekday_code_free(s[i]);
    }
    lemma_split_join(reps, ',');
    lemma_parse_weekday_items_of_reps(s);
}

proof fn lemma_parse_weekday_code(w: Weekday)
    ensures
        spec_parse_weekday(weekday_code(w)) == Option::Some(w),
{
    reveal_strlit("MO");
    reveal_strlit("TU");
    reveal_strlit("WE");
    reveal_strlit("TH");
    reveal_strlit("FR");
    reveal_strlit("SA");
    reveal_strlit("SU");
    assert("MO"@[0] == 'M' && "TU"@[0] == 'T' && "WE"@[0] == 'W' && "TH"@[0] == 'T' && "FR"@[0]
        == 'F' && "SA"@[0] == 'S' && "SU"@[0] == 'S');
    assert("TU"@[1] == 'U' && "TH"@[1] == 'H');
    assert("SA"@[1] == 'A' && "SU"@[1] == 'U');
}

proof fn lemma_parse_weekday_items_of_reps(s: Seq<Weekday>)
    ensures
        spec_parse_weekday_items(s.map_values(|w: Weekday| weekday_code(w)))
            == Option::Some(s),
    decreases s.len(),
{
    let reps = s.map_values(|w: Weekday| weekday_code(w));
    if s.len() == 0 {
        assert(spec_parse_weekday_items(reps) =~~= Option::Some(s));
    } else {
        assert(reps[0] == weekday_code(s[0]));
        lemma_parse_weekday_code(s[0]);
        assert(reps.drop_first() =~= s.drop_first().map_values(|w: Weekday| weekday_code(w)));
        lemma_parse_weekday_items_of_reps(s.drop_first());
        assert(seq![s[0]] + s.drop_first() =~= s);
    }
}


/// The properties the canonical text tokenizes to, in printed order.
pub open spec fn spec_rule_pairs(r: RuleView) -> Seq<PropView> {
    seq![
        PropView { key: "FREQ"@, value: freq_code(r.frequency) },
    ] + (if r.interval > 1 {
        seq![PropView { key: "INTERVAL"@, value: dec_rep(r.interval as int) }]
    } else {
        Seq::empty()
    }) + (match r.by_year_day {
        Option::Some(s) => seq![PropView { key: "BYYEARDAY"@, value: nums_rep(s) }],
        Option::None => Seq::empty(),
    }) + (match r.by_day {
        Option::Some(s) => seq![PropView { key: "BYDAY"@, value: weekdays_rep(s) }],
        Option::None => Seq::empty(),
    }) + (match r.by_week_no {
        Option::Some(s) => seq![PropView { key: "BYWEEKNO"@, value: nums_rep(s) }],
        Option::None => Seq::empty(),
    }) + (match r.by_month_day {
        Option::Some(s) => seq![PropView { key: "BYMONTHDAY"@, value: nums_rep(s) }],
        Option::None => Seq::empty(),
    }) + (match r.by_set_pos {
        Option::Some(s) => seq![PropView { key: "BYSETPOS"@, value: nums_rep(s) }],
        Option::None => Seq::empty(),
    }) + (match r.by_month {
        Option::Some(s) => seq![PropView { key: "BYMONTH"@, value: months_rep(s) }],
        Option::None => Seq::empty(),
    }) + (match r.limit {
        RecurrenceLimit::Indefinite => Seq::empty(),
        RecurrenceLimit::Date(d) => seq![PropView { key: "UNTIL"@, value: date_rep(d) }],
        RecurrenceLimit::Count(n) => seq![PropView { key: "COUNT"@, value: dec_rep(n as int) }],
    })
}

/// The `KEY=` prefixes hold no semicolon.
proof fn lemma_key_prefixes_free()
    ensures
        !("FREQ="@).contains(';'),
        !("INTERVAL="@).contains(';'),
        !("BYYEARDAY="@).contains(';'),
        !("BYDAY="@).contains(';'),
        !("BYWEEKNO="@).contains(';'),
        !("BYMONTHDAY="@).contains(';'),
        !("BYSETPOS="@).contains(';'),
        !("BYMONTH="@).contains(';'),
        !("UNTIL="@).contains(';'),
        !("COUNT="@).contains(';'),
{
    reveal_strlit("FREQ=");
    reveal_strlit("INTERVAL=");
    reveal_strlit("BYYEARDAY=");
    reveal_strlit("BYDAY=");
    reveal_strlit("BYWEEKNO=");
    reveal_strlit("BYMONTHDAY=");
    reveal_strlit("BYSETPOS=");
    reveal_strlit("BYMONTH=");
    reveal_strlit("UNTIL=");
    reveal_strlit("COUNT=");
}

/// The frequency code holds no semicolon.
proof fn lemma_freq_code_free(f: RecurrenceFreq)
    ensures
        !freq_code(f).contains(';'),
        !freq_code(f).contains('='),
{
    reveal_strlit("DAILY");
    reveal_strlit("WEEKLY");
    reveal_strlit("MONTHLY");
    reveal_strlit("YEARLY");
    let fcode = freq_code(f);
    if fcode.contains(';') {
        let i = choose|i: int| 0 <= i < fcode.len() && fcode[i] == ';';
    }
    if fcode.contains('=') {
        let i = choose|i: int| 0 <= i < fcode.len() && fcode[i] == '=';
    }
}

/// No printed part holds a semicolon, so splitting the canonical text
/// recovers the printed parts.
#[verifier::rlimit(100)]
#[verifier::spinoff_prover]
proof fn lemma_format_splits(r: RuleView)
    requires
        rule_wf(r),
    ensures
        split_on(spec_format(r), ';') == spec_rule_parts(r),
{
    lemma_key_prefixes_free();
    lemma_freq_code_free(r.frequency);
    let fcode = freq_code(r.frequency);
    let p1 = seq!["FREQ="@ + fcode];
    let p2: Seq<Seq<char>> = if r.interval > 1 {
        seq!["INTERVAL="@ + dec_rep(r.interval as int)]
    } else {
        Seq::empty()
    };
    let p3: Seq<Seq<char>> = match r.by_year_day {
        Option::Some(s) => seq!["BYYEARDAY="@ + nums_rep(s)],
        Option::None => Seq::empty(),
    };
    let p4: Seq<Seq<char>> = match r.by_day {
        Option::Some(s) => seq!["BYDAY="@ + weekdays_rep(s)],
        Option::None => Seq::empty(),
    };
    let p5: Seq<Seq<char>> = match r.by_week_no {
        Option::Some(s) => seq!["BYWEEKNO="@ + nums_rep(s)],
        Option::None => Seq::empty(),
    };
    let p6: Seq<Seq<char>> = match r.by_month_day {
        Option::Some(s) => seq!["BYMONTHDAY="@ + nums_rep(s)],
        Option::None => Seq::empty(),
    };
    let p7: Seq<Seq<char>> = match r.by_set_pos {
        Option::Some(s) => seq!["BYSETPOS="@ + nums_rep(s)],
        Option::None => Seq::empty(),
    };
    let p8: Seq<Seq<char>> = match r.by_month {
        Option::Some(s) => seq!["BYMONTH="@ + months_rep(s)],
        Option::None => Seq::empty(),
    };
    let p9: Seq<Seq<char>> = match r.limit {
        RecurrenceLimit::Indefinite => Seq::empty(),
        RecurrenceLimit::Date(d) => seq!["UNTIL="@ + date_rep(d)],
        RecurrenceLimit::Count(n) => seq!["COUNT="@ + dec_rep(n as int)],
    };
    assert(!p1[0].contains(';')) by {
        lemma_concat_contains("FREQ="@, fcode, ';');
    }
    if r.interval > 1 {
        lemma_dec_rep(r.interval as int);
        lemma_digit_chars(dec_rep(r.interval as int));
        assert(!p2[0].contains(';')) by {
            lemma_concat_contains("INTERVAL="@, dec_rep(r.interval as int), ';');
        }
    }
    match r.by_year_day {
        Option::Some(s) => {
            lemma_nums_rep_free(s);
            assert(!p3[0].contains(';')) by {
                lemma_concat_contains("BYYEARDAY="@, nums_rep(s), ';');
            }
        },
        Option::None => {},
    }
    match r.by_day {
        Option::Some(s) => {
            lemma_weekdays_rep_free(s);
            assert(!p4[0].contains(';')) by {
                lemma_concat_contains("BYDAY="@, weekdays_rep(s), ';');
            }
        },
        Option::None => {},
    }
    match r.by_week_no {
        Option::Some(s) => {
            lemma_nums_rep_free(s);
            assert(!p5[0].contains(';')) by {
                lemma_concat_contains("BYWEEKNO="@, nums_rep(s), ';');
            }
        },
        Option::None => {},
    }
    match r.by_month_day {
        Option::Some(s) => {
            lemma_nums_rep_free(s);
            assert(!p6[0].contains(';')) by {
                lemma_concat_contains("BYMONTHDAY="@, nums_rep(s), ';');
            }
        },
        Option::None => {},
    }
    match r.by_set_pos {
        Option::Some(s) => {
            lemma_nums_rep_free(s);
            assert(!p7[0].contains(';')) by {
                lemma_concat_contains("BYSETPOS="@, nums_rep(s), ';');
            }
        },
        Option::None => {},
    }
    match r.by_month {
        Option::Some(s) => {
            lemma_months_rep_free(s);
            assert(!p8[0].contains(';')) by {
                lemma_concat_contains("BYMONTH="@, months_rep(s), ';');
            }
        },
        Option::None => {},
    }
    match r.limit {
        RecurrenceLimit::Indefinite => {},
        RecurrenceLimit::Date(d) => {
            lemma_date_rep_free(d);
            assert(!p9[0].contains(';')) by {
                lemma_concat_contains("UNTIL="@, date_rep(d), ';');
            }
        },
        RecurrenceLimit::Count(n) => {
            lemma_dec_rep(n as int);
            lemma_digit_chars(dec_rep(n as int));
            assert(!p9[0].contains(';')) by {
                lemma_concat_contains("COUNT="@, dec_rep(n as int), ';');
            }
        },
    }
    assert(spec_rule_parts(r) =~= p1 + p2 + p3 + p4 + p5 + p6 + p7 + p8 + p9);
    assert forall|i: int|
        0 <= i < spec_rule_parts(r).len() implies !(#[trigger] spec_rule_parts(r)[i]).contains(
        ';',
    ) by {
        assert(spec_rule_parts(r) == p1 + p2 + p3 + p4 + p5 + p6 + p7 + p8 + p9);
    }
    assert(spec_rule_parts(r).len() >= 1) by {
        assert(spec_rule_parts(r)[0] == p1[0]);
    }
    lemma_split_join(spec_rule_parts(r), ';');
}

/// Every printed part is a well-shaped `KEY=VALUE`, so tokenizing the
/// printed parts yields the printed properties.
#[verifier::rlimit(100)]
#[verifier::spinoff_prover]
proof fn lemma_parts_tokenize(r: RuleView)
    requires
        rule_wf(r),
    ensures
        spec_tokenize(spec_rule_parts(r)) == Result::<
            Seq<PropView>,
            crate::recurrence_parser::ParseErrView,
        >::Ok(spec_rule_pairs(r)),
{
    reveal_strlit("FREQ=");
    reveal_strlit("FREQ");
    reveal_strlit("INTERVAL=");
    reveal_strlit("INTERVAL");
    reveal_strlit("BYYEARDAY=");
    reveal_strlit("BYYEARDAY");
    reveal_strlit("BYDAY=");
    reveal_strlit("BYDAY");
    reveal_strlit("BYWEEKNO=");
    reveal_strlit("BYWEEKNO");
    reveal_strlit("BYMONTHDAY=");
    reveal_strlit("BYMONTHDAY");
    reveal_strlit("BYSETPOS=");
    reveal_strlit("BYSETPOS");
    reveal_strlit("BYMONTH=");
    reveal_strlit("BYMONTH");
    reveal_strlit("UNTIL=");
    reveal_strlit("UNTIL");
    reveal_strlit("COUNT=");
    reveal_strlit("COUNT");
    reveal_strlit("DAILY");
    reveal_strlit("WEEKLY");
    reveal_strlit("MONTHLY");
    reveal_strlit("YEARLY");
    assert("FREQ="@ =~= "FREQ"@ + seq!['=']);
    assert("INTERVAL="@ =~= "INTERVAL"@ + seq!['=']);
    assert("BYYEARDAY="@ =~= "BYYEARDAY"@ + seq!['=']);
    assert("BYDAY="@ =~= "BYDAY"@ + seq!['=']);
    assert("BYWEEKNO="@ =~= "BYWEEKNO"@ + seq!['=']);
    assert("BYMONTHDAY="@ =~= "BYMONTHDAY"@ + seq!['=']);
    assert("BYSETPOS="@ =~= "BYSETPOS"@ + seq!['=']);
    assert("BYMONTH="@ =~= "BYMONTH"@ + seq!['=']);
    assert("UNTIL="@ =~= "UNTIL"@ + seq!['=']);
    assert("COUNT="@ =~= "COUNT"@ + seq!['=']);
    lemma_keys_free();
    let fcode = freq_code(r.frequency);
    assert(!fcode.contains(';') && !fcode.contains('=')) by {
        if fcode.contains(';') {
            let i = choose|i: int| 0 <= i < fcode.len() && fcode[i] == ';';
        }
        if fcode.contains('=') {
            let i = choose|i: int| 0 <= i < fcode.len() && fcode[i] == '=';
        }
    }
    let p1 = seq!["FREQ="@ + freq_code(r.frequency)];
    let p2: Seq<Seq<char>> = if r.interval > 1 {
        seq!["INTERVAL="@ + dec_rep(r.interval as int)]
    } else {
        Seq::empty()
    };
    let p3: Seq<Seq<char>> = match r.by_year_day {
        Option::Some(s) => seq!["BYYEARDAY="@ + nums_rep(s)],
        Option::None => Seq::empty(),
    };
    let p4: Seq<Seq<char>> = match r.by_day {
        Option::Some(s) => seq!["BYDAY="@ + weekdays_rep(s)],
        Option::None => Seq::empty(),
    };
    let p5: Seq<Seq<char>> = match r.by_week_no {
        Option::Some(s) => seq!["BYWEEKNO="@ + nums_rep(s)],
        Option::None => Seq::empty(),
    };
    let p6: Seq<Seq<char>> = match r.by_month_day {
        Option::Some(s) => seq!["BYMONTHDAY="@ + nums_rep(s)],
        Option::None => Seq::empty(),
    };
    let p7: Seq<Seq<char>> = match r.by_set_pos {
        Option::Some(s) => seq!["BYSETPOS="@ + nums_rep(s)],
        Option::None => Seq::empty(),
    };
    let p8: Seq<Seq<char>> = match r.by_month {
        Option::Some(s) => seq!["BYMONTH="@ + months_rep(s)],
        Option::None => Seq::empty(),
    };
    let p9: Seq<Seq<char>> = match r.limit {
        RecurrenceLimit::Indefinite => Seq::empty(),
        RecurrenceLimit::Date(d) => seq!["UNTIL="@ + date_rep(d)],
        RecurrenceLimit::Count(n) => seq!["COUNT="@ + dec_rep(n as int)],
    };
    if r.interval > 1 {
        lemma_dec_rep(r.interval as int);
        lemma_digit_chars(dec_rep(r.interval as int));
    }
    match r.by_year_day {
        Option::Some(s) => {
            lemma_nums_rep_free(s);
        },
        Option::None => {},
    }
    match r.by_day {
        Option::Some(s) => {
            lemma_weekdays_rep_free(s);
        },
        Option::None => {},
    }
    match r.by_week_no {
        Option::Some(s) => {
            lemma_nums_rep_free(s);
        },
        Option::None => {},
    }
    match r.by_month_day {
        Option::Some(s) => {
            lemma_nums_rep_free(s);
        },
        Option::None => {},
    }
    match r.by_set_pos {
        Option::Some(s) => {
            lemma_nums_rep_free(s);
        },
        Option::None => {},
    }
    match r.by_month {
        Option::Some(s) => {
            lemma_months_rep_free(s);
        },
        Option::None => {},
    }
    match r.limit {
        RecurrenceLimit::Indefinite => {},
        RecurrenceLimit::Date(d) => {
            lemma_date_rep_free(d);
        },
        RecurrenceLimit::Count(n) => {
            lemma_dec_rep(n as int);
            lemma_digit_chars(dec_rep(n as int));
        },
    }
    let q1 = seq![PropView { key: "FREQ"@, value: fcode }];
    let q2: Seq<PropView> = if r.interval > 1 {
        seq![PropView { key: "INTERVAL"@, value: dec_rep(r.interval as int) }]
    } else {
        Seq::empty()
    };
    let q3: Seq<PropView> = match r.by_year_day {
        Option::Some(s) => seq![PropView { key: "BYYEARDAY"@, value: nums_rep(s) }],
        Option::None => Seq::empty(),
    };
    let q4: Seq<PropView> = match r.by_day {
        Option::Some(s) => seq![PropView { key: "BYDAY"@, value: weekdays_rep(s) }],
        Option::None => Seq::empty(),
    };
    let q5: Seq<PropView> = match r.by_week_no {
        Option::Some(s) => seq![PropView { key: "BYWEEKNO"@, value: nums_rep(s) }],
        Option::None => Seq::empty(),
    };
    let q6: Seq<PropView> = match r.by_month_day {
        Option::Some(s) => seq![PropView { key: "BYMONTHDAY"@, value: nums_rep(s) }],
        Option::None => Seq::empty(),
    };
    let q7: Seq<PropView> = match r.by_set_pos {
        Option::Some(s) => seq![PropView { key: "BYSETPOS"@, value: nums_rep(s) }],
        Option::None => Seq::empty(),
    };
    let q8: Seq<PropView> = match r.by_month {
        Option::Some(s) => seq![PropView { key: "BYMONTH"@, value: months_rep(s) }],
        Option::None => Seq::empty(),
    };
    let q9: Seq<PropView> = match r.limit {
        RecurrenceLimit::Indefinite => Seq::empty(),
        RecurrenceLimit::Date(d) => seq![PropView { key: "UNTIL"@, value: date_rep(d) }],
        RecurrenceLimit::Count(n) => seq![PropView { key: "COUNT"@, value: dec_rep(n as int) }],
    };
    assert(spec_tokenize(Seq::<Seq<char>>::empty()) == Result::<
        Seq<PropView>,
        crate::recurrence_parser::ParseErrView,
    >::Ok(Seq::<PropView>::empty()));
    assert(p1[0] =~= "FREQ"@ + seq!['='] + fcode);
    lemma_tokenize_single("FREQ"@, fcode);
    assert(p1 =~= seq!["FREQ"@ + seq!['='] + fcode]);
    if r.interval > 1 {
        assert(p2[0] =~= "INTERVAL"@ + seq!['='] + dec_rep(r.interval as int));
        lemma_tokenize_single("INTERVAL"@, dec_rep(r.interval as int));
        assert(p2 =~= seq!["INTERVAL"@ + seq!['='] + dec_rep(r.interval as int)]);
    }
    match r.by_year_day {
        Option::Some(s) => {
            assert(p3[0] =~= "BYYEARDAY"@ + seq!['='] + nums_rep(s));
            lemma_tokenize_single("BYYEARDAY"@, nums_rep(s));
            assert(p3 =~= seq!["BYYEARDAY"@ + seq!['='] + nums_rep(s)]);
        },
        Option::None => {},
    }
    match r.by_day {
        Option::Some(s) => {
            assert(p4[0] =~= "BYDAY"@ + seq!['='] + weekdays_rep(s));
            lemma_tokenize_single("BYDAY"@, weekdays_rep(s));
            assert(p4 =~= seq!["BYDAY"@ + seq!['='] + weekdays_rep(s)]);
        },
        Option::None => {},
    }
    match r.by_week_no {
        Option::Some(s) => {
            assert(p5[0] =~= "BYWEEKNO"@ + seq!['='] + nums_rep(s));
            lemma_tokenize_single("BYWEEKNO"@, nums_rep(s));
            assert(p5 =~= seq!["BYWEEKNO"@ + seq!['='] + nums_rep(s)]);
        },
        Option::None => {},
    }
    match r.by_month_day {
        Option::Some(s) => {
            assert(p6[0] =~= "BYMONTHDAY"@ + seq!['='] + nums_rep(s));
            lemma_tokenize_single("BYMONTHDAY"@, nums_rep(s));
            assert(p6 =~= seq!["BYMONTHDAY"@ + seq!['='] + nums_rep(s)]);
        },
        Option::None => {},
    }
    match r.by_set_pos {
        Option::Some(s) => {
            assert(p7[0] =~= "BYSETPOS"@ + seq!['='] + nums_rep(s));
            lemma_tokenize_single("BYSETPOS"@, nums_rep(s));
            assert(p7 =~= seq!["BYSETPOS"@ + seq!['='] + nums_rep(s)]);
        },
        Option::None => {},
    }
    match r.by_month {
        Option::Some(s) => {
            assert(p8[0] =~= "BYMONTH"@ + seq!['='] + months_rep(s));
            lemma_tokenize_single("BYMONTH"@, months_rep(s));
            assert(p8 =~= seq!["BYMONTH"@ + seq!['='] + months_rep(s)]);
        },
        Option::None => {},
    }
    match r.limit {
        RecurrenceLimit::Indefinite => {},
        RecurrenceLimit::Date(d) => {
            assert(p9[0] =~= "UNTIL"@ + seq!['='] + date_rep(d));
            lemma_tokenize_single("UNTIL"@, date_rep(d));
            assert(p9 =~= seq!["UNTIL"@ + seq!['='] + date_rep(d)]);
        },
        RecurrenceLimit::Count(n) => {
            assert(p9[0] =~= "COUNT"@ + seq!['='] + dec_rep(n as int));
            lemma_tokenize_single("COUNT"@, dec_rep(n as int));
            assert(p9 =~= seq!["COUNT"@ + seq!['='] + dec_rep(n as int)]);
        },
    }
    lemma_tokenize_append(p1, p2);
    lemma_tokenize_append(p1 + p2, p3);
    lemma_tokenize_append(p1 + p2 + p3, p4);
    lemma_tokenize_append(p1 + p2 + p3 + p4, p5);
    lemma_tokenize_append(p1 + p2 + p3 + p4 + p5, p6);
    lemma_tokenize_append(p1 + p2 + p3 + p4 + p5 + p6, p7);
    lemma_tokenize_append(p1 + p2 + p3 + p4 + p5 + p6 + p7, p8);
    lemma_tokenize_append(p1 + p2 + p3 + p4 + p5 + p6 + p7 + p8, p9);
    assert(spec_rule_parts(r) =~= p1 + p2 + p3 + p4 + p5 + p6 + p7 + p8 + p9);
    assert(spec_rule_pairs(r) =~= q1 + q2 + q3 + q4 + q5 + q6 + q7 + q8 + q9);
    assert(spec_tokenize(spec_rule_parts(r))->Ok_0 =~= spec_rule_pairs(r));
}

/// None of the property keys holds a separator.
proof fn lemma_keys_free()
    ensures
        !("FREQ"@).contains('='),
        !("INTERVAL"@).contains('='),
        !("BYYEARDAY"@).contains('='),
        !("BYDAY"@).contains('='),
        !("BYWEEKNO"@).contains('='),
        !("BYMONTHDAY"@).contains('='),
        !("BYSETPOS"@).contains('='),
        !("BYMONTH"@).contains('='),
        !("UNTIL"@).contains('='),
        !("COUNT"@).contains('='),
{
    broadcast use vstd::string::group_string_axioms;

    reveal_strlit("FREQ");
    reveal_strlit("INTERVAL");
    reveal_strlit("BYYEARDAY");
    reveal_strlit("BYDAY");
    reveal_strlit("BYWEEKNO");
    reveal_strlit("BYMONTHDAY");
    reveal_strlit("BYSETPOS");
    reveal_strlit("BYMONTH");
    reveal_strlit("UNTIL");
    reveal_strlit("COUNT");
    assert(("FREQ"@).len() == 4);
    assert(("INTERVAL"@).len() == 8);
    assert(("BYYEARDAY"@).len() == 9);
    assert(("BYDAY"@).len() == 5);
    assert(("BYWEEKNO"@).len() == 8);
    assert(("BYMONTHDAY"@).len() == 10);
    assert(("BYSETPOS"@).len() == 8);
    assert(("BYMONTH"@).len() == 7);
    assert(("UNTIL"@).len() == 5);
    assert(("COUNT"@).len() == 5);
    assert(("INTERVAL"@)[0] == 'I' && ("BYWEEKNO"@)[0] == 'B' && ("BYSETPOS"@)[0] == 'B');
    assert(("BYWEEKNO"@)[2] == 'W' && ("BYSETPOS"@)[2] == 'S');
    assert(("BYDAY"@)[0] == 'B' && ("UNTIL"@)[0] == 'U' && ("COUNT"@)[0] == 'C');
    assert(("FREQ"@) != ("INTERVAL"@));
    assert(("FREQ"@) != ("BYYEARDAY"@));
    assert(("FREQ"@) != ("BYDAY"@));
    assert(("FREQ"@) != ("BYWEEKNO"@));
    assert(("FREQ"@) != ("BYMONTHDAY"@));
    assert(("FREQ"@) != ("BYSETPOS"@));
    assert(("FREQ"@) != ("BYMONTH"@));
    assert(("FREQ"@) != ("UNTIL"@));
    assert(("FREQ"@) != ("COUNT"@));
    assert(("INTERVAL"@) != ("BYYEARDAY"@));
    assert(("INTERVAL"@) != ("BYDAY"@));
    assert(("INTERVAL"@) != ("BYWEEKNO"@));
    assert(("INTERVAL"@) != ("BYMONTHDAY"@));
    assert(("INTERVAL"@) != ("BYSETPOS"@));
    assert(("INTERVAL"@) != ("BYMONTH"@));
    assert(("INTERVAL"@) != ("UNTIL"@));
    assert(("INTERVAL"@) != ("COUNT"@));
    assert(("BYYEARDAY"@) != ("BYDAY"@));
    assert(("BYYEARDAY"@) != ("BYWEEKNO"@));
    assert(("BYYEARDAY"@) != ("BYMONTHDAY"@));
    assert(("BYYEARDAY"@) != ("BYSETPOS"@));
    assert(("BYYEARDAY"@) != ("BYMONTH"@));
    assert(("BYYEARDAY"@) != ("UNTIL"@));
    assert(("BYYEARDAY"@) != ("COUNT"@));
    assert(("BYDAY"@) != ("BYWEEKNO"@));
    assert(("BYDAY"@) != ("BYMONTHDAY"@));
    assert(("BYDAY"@) != ("BYSETPOS"@));
    assert(("BYDAY"@) != ("BYMONTH"@));
    assert(("BYDAY"@) != ("UNTIL"@));
    assert(("BYDAY"@) != ("COUNT"@));
    assert(("BYWEEKNO"@) != ("BYMONTHDAY"@));
    assert(("BYWEEKNO"@) != ("BYSETPOS"@));
    assert(("BYWEEKNO"@) != ("BYMONTH"@));
    assert(("BYWEEKNO"@) != ("UNTIL"@));
    assert(("BYWEEKNO"@) != ("COUNT"@));
    assert(("BYMONTHDAY"@) != ("BYSETPOS"@));
    assert(("BYMONTHDAY"@) != ("BYMONTH"@));
    assert(("BYMONTHDAY"@) != ("UNTIL"@));
    assert(("BYMONTHDAY"@) != ("COUNT"@));
    assert(("BYSETPOS"@) != ("BYMONTH"@));
    assert(("BYSETPOS"@) != ("UNTIL"@));
    assert(("BYSETPOS"@) != ("COUNT"@));
    assert(("BYMONTH"@) != ("UNTIL"@));
    assert(("BYMONTH"@) != ("COUNT"@));
    assert(("UNTIL"@) != ("COUNT"@));
}


/// The ten property keys are pairwise distinct.
#[verifier::rlimit(100)]
#[verifier::spinoff_prover]
proof fn lemma_keys_distinct()
    ensures
        ("FREQ"@) != ("INTERVAL"@),
        ("FREQ"@) != ("BYYEARDAY"@),
        ("FREQ"@) != ("BYDAY"@),
        ("FREQ"@) != ("BYWEEKNO"@),
        ("FREQ"@) != ("BYMONTHDAY"@),
        ("FREQ"@) != ("BYSETPOS"@),
        ("FREQ"@) != ("BYMONTH"@),
        ("FREQ"@) != ("UNTIL"@),
        ("FREQ"@) != ("COUNT"@),
        ("INTERVAL"@) != ("BYYEARDAY"@),
        ("INTERVAL"@) != ("BYDAY"@),
        ("INTERVAL"@) != ("BYWEEKNO"@),
        ("INTERVAL"@) != ("BYMONTHDAY"@),
        ("INTERVAL"@) != ("BYSETPOS"@),
        ("INTERVAL"@) != ("BYMONTH"@),
        ("INTERVAL"@) != ("UNTIL"@),
        ("INTERVAL"@) != ("COUNT"@),
        ("BYYEARDAY"@) != ("BYDAY"@),
        ("BYYEARDAY"@) != ("BYWEEKNO"@),
        ("BYYEARDAY"@) != ("BYMONTHDAY"@),
        ("BYYEARDAY"@) != ("BYSETPOS"@),
        ("BYYEARDAY"@) != ("BYMONTH"@),
        ("BYYEARDAY"@) != ("UNTIL"@),
        ("BYYEARDAY"@) != ("COUNT"@),
        ("BYDAY"@) != ("BYWEEKNO"@),
        ("BYDAY"@) != ("BYMONTHDAY"@),
        ("BYDAY"@) != ("BYSETPOS"@),
        ("BYDAY"@) != ("BYMONTH"@),
        ("BYDAY"@) != ("UNTIL"@),
        ("BYDAY"@) != ("COUNT"@),
        ("BYWEEKNO"@) != ("BYMONTHDAY"@),
        ("BYWEEKNO"@) != ("BYSETPOS"@),
        ("BYWEEKNO"@) != ("BYMONTH"@),
        ("BYWEEKNO"@) != ("UNTIL"@),
        ("BYWEEKNO"@) != ("COUNT"@),
        ("BYMONTHDAY"@) != ("BYSETPOS"@),
        ("BYMONTHDAY"@) != ("BYMONTH"@),
        ("BYMONTHDAY"@) != ("UNTIL"@),
        ("BYMONTHDAY"@) != ("COUNT"@),
        ("BYSETPOS"@) != ("BYMONTH"@),
        ("BYSETPOS"@) != ("UNTIL"@),
        ("BYSETPOS"@) != ("COUNT"@),
        ("BYMONTH"@) != ("UNTIL"@),
        ("BYMONTH"@) != ("COUNT"@),
        ("UNTIL"@) != ("COUNT"@),
{
    broadcast use vstd::string::group_string_axioms;

    reveal_strlit("FREQ");
    reveal_strlit("INTERVAL");
    reveal_strlit("BYYEARDAY");
    reveal_strlit("BYDAY");
    reveal_strlit("BYWEEKNO");
    reveal_strlit("BYMONTHDAY");
    reveal_strlit("BYSETPOS");
    reveal_strlit("BYMONTH");
    reveal_strlit("UNTIL");
    reveal_strlit("COUNT");
    assert(("FREQ"@).len() == 4);
    assert(("INTERVAL"@).len() == 8);
    assert(("BYYEARDAY"@).len() == 9);
    assert(("BYDAY"@).len() == 5);
    assert(("BYWEEKNO"@).len() == 8);
    assert(("BYSETPOS"@).len() == 8);
    assert(("BYMONTHDAY"@).len() == 10);
    assert(("BYMONTH"@).len() == 7);
    assert(("UNTIL"@).len() == 5);
    assert(("COUNT"@).len() == 5);
    assert(("INTERVAL"@)[0] == 'I' && ("BYWEEKNO"@)[0] == 'B' && ("BYSETPOS"@)[0] == 'B');
    assert(("BYWEEKNO"@)[2] == 'W' && ("BYSETPOS"@)[2] == 'S');
    assert(("BYDAY"@)[0] == 'B' && ("UNTIL"@)[0] == 'U' && ("COUNT"@)[0] == 'C');
    assert(("FREQ"@) != ("INTERVAL"@));
    assert(("FREQ"@) != ("BYYEARDAY"@));
    assert(("FREQ"@) != ("BYDAY"@));
    assert(("FREQ"@) != ("BYWEEKNO"@));
    assert(("FREQ"@) != ("BYSETPOS"@));
    assert(("FREQ"@) != ("BYMONTHDAY"@));
    assert(("FREQ"@) != ("BYMONTH"@));
    assert(("FREQ"@) != ("UNTIL"@));
    assert(("FREQ"@) != ("COUNT"@));
    assert(("INTERVAL"@) != ("BYYEARDAY"@));
    assert(("INTERVAL"@) != ("BYDAY"@));
    assert(("INTERVAL"@) != ("BYWEEKNO"@));
    assert(("INTERVAL"@) != ("BYSETPOS"@));
    assert(("INTERVAL"@) != ("BYMONTHDAY"@));
    assert(("INTERVAL"@) != ("BYMONTH"@));
    assert(("INTERVAL"@) != ("UNTIL"@));
    assert(("INTERVAL"@) != ("COUNT"@));
    assert(("BYYEARDAY"@) != ("BYDAY"@));
    assert(("BYYEARDAY"@) != ("BYWEEKNO"@));
    assert(("BYYEARDAY"@) != ("BYSETPOS"@));
    assert(("BYYEARDAY"@) != ("BYMONTHDAY"@));
    assert(("BYYEARDAY"@) != ("BYMONTH"@));
    assert(("BYYEARDAY"@) != ("UNTIL"@));
    assert(("BYYEARDAY"@) != ("COUNT"@));
    assert(("BYDAY"@) != ("BYWEEKNO"@));
    assert(("BYDAY"@) != ("BYSETPOS"@));
    assert(("BYDAY"@) != ("BYMONTHDAY"@));
    assert(("BYDAY"@) != ("BYMONTH"@));
    assert(("BYDAY"@) != ("UNTIL"@));
    assert(("BYDAY"@) != ("COUNT"@));
    assert(("BYWEEKNO"@) != ("BYSETPOS"@));
    assert(("BYWEEKNO"@) != ("BYMONTHDAY"@));
    assert(("BYWEEKNO"@) != ("BYMONTH"@));
    assert(("BYWEEKNO"@) != ("UNTIL"@));
    assert(("BYWEEKNO"@) != ("COUNT"@));
    assert(("BYSETPOS"@) != ("BYMONTHDAY"@));
    assert(("BYSETPOS"@) != ("BYMONTH"@));
    assert(("BYSETPOS"@) != ("UNTIL"@));
    assert(("BYSETPOS"@) != ("COUNT"@));
    assert(("BYMONTHDAY"@) != ("BYMONTH"@));
    assert(("BYMONTHDAY"@) != ("UNTIL"@));
    assert(("BYMONTHDAY"@) != ("COUNT"@));
    assert(("BYMONTH"@) != ("UNTIL"@));
    assert(("BYMONTH"@) != ("COUNT"@));
    assert(("UNTIL"@) != ("COUNT"@));
}

/// A lookup in a single property answers by that property's key.
proof fn lemma_lookup_single(pv: PropView)
    ensures
        forall|key: Seq<char>| #[trigger]
            spec_lookup(seq![pv], key) == (if pv.key == key {
                Option::Some(pv.value)
            } else {
                Option::<Seq<char>>::None
            }),
{
    assert forall|key: Seq<char>| #[trigger]
        spec_lookup(seq![pv], key) == (if pv.key == key {
            Option::Some(pv.value)
        } else {
            Option::<Seq<char>>::None
        }) by {
        assert(seq![pv].last() == pv);
        assert(seq![pv].drop_last() =~= Seq::<PropView>::empty());
        assert(spec_lookup(Seq::<PropView>::empty(), key) == Option::<Seq<char>>::None);
    }
}

/// Parsing the printed properties yields the rule back.
#[verifier::rlimit(100)]
#[verifier::spinoff_prover]
proof fn lemma_parse_pairs(r: RuleView)
    requires
        rule_wf(r),
    ensures
        spec_parse_props(spec_rule_pairs(r)) == Result::<
            RuleView,
            crate::recurrence_parser::ParseErrView,
        >::Ok(r),
{
    lemma_keys_distinct();
    let fcode = freq_code(r.frequency);
    let q1 = seq![PropView { key: "FREQ"@, value: fcode }];
    let q2: Seq<PropView> = if r.interval > 1 {
        seq![PropView { key: "INTERVAL"@, value: dec_rep(r.interval as int) }]
    } else {
        Seq::empty()
    };
    let q3: Seq<PropView> = match r.by_year_day {
        Option::Some(s) => seq![PropView { key: "BYYEARDAY"@, value: nums_rep(s) }],
        Option::None => Seq::empty(),
    };
    let q4: Seq<PropView> = match r.by_day {
        Option::Some(s) => seq![PropView { key: "BYDAY"@, value: weekdays_rep(s) }],
        Option::None => Seq::empty(),
    };
    let q5: Seq<PropView> = match r.by_week_no {
        Option::Some(s) => seq![PropView { key: "BYWEEKNO"@, value: nums_rep(s) }],
        Option::None => Seq::empty(),
    };
    let q6: Seq<PropView> = match r.by_month_day {
        Option::Some(s) => seq![PropView { key: "BYMONTHDAY"@, value: nums_rep(s) }],
        Option::None => Seq::empty(),
    };
    let q7: Seq<PropView> = match r.by_set_pos {
        Option::Some(s) => seq![PropView { key: "BYSETPOS"@, value: nums_rep(s) }],
        Option::None => Seq::empty(),
    };
    let q8: Seq<PropView> = match r.by_month {
        Option::Some(s) => seq![PropView { key: "BYMONTH"@, value: months_rep(s) }],
        Option::None => Seq::empty(),
    };
    let q9: Seq<PropView> = match r.limit {
        RecurrenceLimit::Indefinite => Seq::empty(),
        RecurrenceLimit::Date(d) => seq![PropView { key: "UNTIL"@, value: date_rep(d) }],
        RecurrenceLimit::Count(n) => seq![PropView { key: "COUNT"@, value: dec_rep(n as int) }],
    };
    let pairs = spec_rule_pairs(r);
    assert(pairs =~= q1 + q2 + q3 + q4 + q5 + q6 + q7 + q8 + q9);
    assert(forall|key: Seq<char>| #[trigger]
        spec_lookup(Seq::<PropView>::empty(), key) == Option::<Seq<char>>::None);
    lemma_lookup_single(q1[0]);
    if r.interval > 1 {
        lemma_lookup_single(q2[0]);
    }
    match r.by_year_day {
        Option::Some(s) => lemma_lookup_single(q3[0]),
        Option::None => (),
    }
    match r.by_day {
        Option::Some(s) => lemma_lookup_single(q4[0]),
        Option::None => (),
    }
    match r.by_week_no {
        Option::Some(s) => lemma_lookup_single(q5[0]),
        Option::None => (),
    }
    match r.by_month_day {
        Option::Some(s) => lemma_lookup_single(q6[0]),
        Option::None => (),
    }
    match r.by_set_pos {
        Option::Some(s) => lemma_lookup_single(q7[0]),
        Option::None => (),
    }
    match r.by_month {
        Option::Some(s) => lemma_lookup_single(q8[0]),
        Option::None => (),
    }
    match r.limit {
        RecurrenceLimit::Indefinite => (),
        _ => lemma_lookup_single(q9[0]),
    }
    lemma_lookup_append(q1, q2);
    lemma_lookup_append(q1 + q2, q3);
    lemma_lookup_append(q1 + q2 + q3, q4);
    lemma_lookup_append(q1 + q2 + q3 + q4, q5);
    lemma_lookup_append(q1 + q2 + q3 + q4 + q5, q6);
    lemma_lookup_append(q1 + q2 + q3 + q4 + q5 + q6, q7);
    lemma_lookup_append(q1 + q2 + q3 + q4 + q5 + q6 + q7, q8);
    lemma_lookup_append(q1 + q2 + q3 + q4 + q5 + q6 + q7 + q8, q9);
    // the lookups the parser makes
    assert(spec_lookup(pairs, "FREQ"@) == Option::Some(fcode));
    assert(spec_lookup(pairs, "INTERVAL"@) == (if r.interval > 1 {
        Option::Some(dec_rep(r.interval as int))
    } else {
        Option::<Seq<char>>::None
    }));
    assert(spec_lookup(pairs, "UNTIL"@) == (match r.limit {
        RecurrenceLimit::Date(d) => Option::Some(date_rep(d)),
        _ => Option::<Seq<char>>::None,
    }));
    assert(spec_lookup(pairs, "COUNT"@) == (match r.limit {
        RecurrenceLimit::Count(n) => Option::Some(dec_rep(n as int)),
        _ => Option::<Seq<char>>::None,
    }));
    assert(spec_lookup(pairs, "BYDAY"@) == (match r.by_day {
        Option::Some(s) => Option::Some(weekdays_rep(s)),
        Option::None => Option::<Seq<char>>::None,
    }));
    assert(spec_lookup(pairs, "BYMONTH"@) == (match r.by_month {
        Option::Some(s) => Option::Some(months_rep(s)),
        Option::None => Option::<Seq<char>>::None,
    }));
    assert(spec_lookup(pairs, "BYYEARDAY"@) == (match r.by_year_day {
        Option::Some(s) => Option::Some(nums_rep(s)),
        Option::None => Option::<Seq<char>>::None,
    }));
    assert(spec_lookup(pairs, "BYMONTHDAY"@) == (match r.by_month_day {
        Option::Some(s) => Option::Some(nums_rep(s)),
        Option::None => Option::<Seq<char>>::None,
    }));
    assert(spec_lookup(pairs, "BYWEEKNO"@) == (match r.by_week_no {
        Option::Some(s) => Option::Some(nums_rep(s)),
        Option::None => Option::<Seq<char>>::None,
    }));
    assert(spec_lookup(pairs, "BYSETPOS"@) == (match r.by_set_pos {
        Option::Some(s) => Option::Some(nums_rep(s)),
        Option::None => Option::<Seq<char>>::None,
    }));
    // the values parse back
    lemma_parse_freq_code(r.frequency);
    if r.interval > 1 {
        lemma_parse_dec_rep(r.interval as int, 4294967295);
    }
    match r.limit {
        RecurrenceLimit::Indefinite => {},
        RecurrenceLimit::Date(d) => {
            lemma_parse_date_rep(d);
        },
        RecurrenceLimit::Count(n) => {
            lemma_parse_dec_rep(n as int, 4294967295);
        },
    }
    match r.by_day {
        Option::Some(s) => {
            lemma_parse_weekdays_rep(s);
        },
        Option::None => {},
    }
    match r.by_month {
        Option::Some(s) => {
            lemma_parse_months_rep(s);
            assert(s.map_values(|x: u8| x as i32).map_values(|x: i32| x as u8) =~= s);
        },
        Option::None => {},
    }
    match r.by_year_day {
        Option::Some(s) => {
            lemma_parse_nums_rep(s, -366, 366);
        },
        Option::None => {},
    }
    match r.by_month_day {
        Option::Some(s) => {
            lemma_parse_nums_rep(s, -31, 31);
        },
        Option::None => {},
    }
    match r.by_week_no {
        Option::Some(s) => {
            lemma_parse_nums_rep(s, -53, 53);
        },
        Option::None => {},
    }
    match r.by_set_pos {
        Option::Some(s) => {
            lemma_parse_nums_rep(s, -366, 366);
        },
        Option::None => {},
    }
    assert(spec_parse_props(pairs) is Ok);
    assert(spec_parse_props(pairs)->Ok_0 =~~= r);
}

/// The frequency codes parse back to their frequencies.
proof fn lemma_parse_freq_code(f: RecurrenceFreq)
    ensures
        spec_parse_freq(freq_code(f)) == Option::Some(f),
{
    reveal_strlit("DAILY");
    reveal_strlit("WEEKLY");
    reveal_strlit("MONTHLY");
    reveal_strlit("YEARLY");
    assert("DAILY"@.len() == 5 && "WEEKLY"@.len() == 6 && "MONTHLY"@.len() == 7 && "YEARLY"@.len()
        == 6);
    assert("WEEKLY"@[0] == 'W' && "YEARLY"@[0] == 'Y');
}

/// Round-trip of the wire format: parsing the canonical textual form of any
/// well-formed rule yields exactly that rule.
pub proof fn lemma_parse_format(r: RuleView)
    requires
        rule_wf(r),
    ensures
        spec_parse_rule(spec_format(r)) == Result::<
            RuleView,
            crate::recurrence_parser::ParseErrView,
        >::Ok(r),
{
    lemma_format_splits(r);
    lemma_parts_tokenize(r);
    lemma_parse_pairs(r);
}

} // verus!
