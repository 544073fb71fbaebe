//! Plain-text building blocks of the RRULE wire format: separator-joined
//! parts, decimal numbers, and `YYYYMMDD` dates, each with a printer, a
//! parser, and the proof that the parser undoes the printer.

use vstd::prelude::*;

use crate::date::{date_wf, spec_days_in_month, Date};

verus! {

/// Splits at every occurrence of `sep`; the result always has one part more
/// than the text has separators, so it is never empty.
pub open spec fn split_on(s: Seq<char>, sep: char) -> Seq<Seq<char>>
    decreases s.len(),
{
    if s.len() == 0 {
        seq![Seq::<char>::empty()]
    } else if s[0] == sep {
        seq![Seq::<char>::empty()] + split_on(s.drop_first(), sep)
    } else {
        let rest = split_on(s.drop_first(), sep);
        seq![seq![s[0]] + rest[0]] + rest.drop_first()
    }
}

/// Joins the parts, writing `sep` between each two.
pub open spec fn join_with(parts: Seq<Seq<char>>, sep: char) -> Seq<char>
    decreases parts.len(),
{
    if parts.len() == 0 {
        Seq::empty()
    } else if parts.len() == 1 {
        parts[0]
    } else {
        parts[0] + seq![sep] + join_with(parts.drop_first(), sep)
    }
}


/// Appending one more part to a join writes one more separator and the
/// part.
pub proof fn lemma_join_push(parts: Seq<Seq<char>>, x: Seq<char>, sep: char)
    ensures
        join_with(parts.push(x), sep) == if parts.len() == 0 {
            x
        } else {
            join_with(parts, sep) + seq![sep] + x
        },
    decreases parts.len(),
{
    if parts.len() == 0 {
        assert(parts.push(x).len() == 1);
        assert(parts.push(x)[0] == x);
    } else if parts.len() == 1 {
        assert(parts.push(x)[0] == parts[0]);
        assert(parts.push(x).drop_first() =~= seq![x]);
        assert(join_with(seq![x], sep) == x);
        assert(join_with(parts, sep) == parts[0]);
    } else {
        lemma_join_push(parts.drop_first(), x, sep);
        assert(parts.push(x)[0] == parts[0]);
        assert(parts.push(x).drop_first() =~= parts.drop_first().push(x));
        assert(join_with(parts.push(x), sep) == parts[0] + seq![sep] + join_with(
            parts.drop_first().push(x),
            sep,
        ));
        assert(parts[0] + seq![sep] + (join_with(parts.drop_first(), sep) + seq![sep] + x) =~= (
        parts[0] + seq![sep] + join_with(parts.drop_first(), sep)) + seq![sep] + x);
    }
}

/// A split is never empty.
pub proof fn lemma_split_nonempty(s: Seq<char>, sep: char)
    ensures
        split_on(s, sep).len() >= 1,
    decreases s.len(),
{
    if s.len() > 0 {
        lemma_split_nonempty(s.drop_first(), sep);
    }
}

/// Splitting text that holds no separator yields that text alone.
pub proof fn lemma_split_whole(s: Seq<char>, sep: char)
    requires
        !s.contains(sep),
    ensures
        split_on(s, sep) == seq![s],
    decreases s.len(),
{
    if s.len() == 0 {
        assert(split_on(s, sep) =~~= seq![s]);
    } else {
        assert(s[0] != sep);
        assert(!s.drop_first().contains(sep)) by {
            if s.drop_first().contains(sep) {
                let i = choose|i: int| 0 <= i < s.drop_first().len() && s.drop_first()[i] == sep;
                assert(s[i + 1] == sep);
            }
        }
        lemma_split_whole(s.drop_first(), sep);
        let rest = split_on(s.drop_first(), sep);
        assert(rest[0] == s.drop_first());
        assert(seq![s[0]] + rest[0] =~= s);
        assert(split_on(s, sep) =~~= seq![s]);
    }
}

/// Splitting a separator-free part, the separator, and a remainder peels
/// off that part.
pub proof fn lemma_split_step(p: Seq<char>, r: Seq<char>, sep: char)
    requires
        !p.contains(sep),
    ensures
        split_on(p + seq![sep] + r, sep) == seq![p] + split_on(r, sep),
    decreases p.len(),
{
    if p.len() == 0 {
        let s = p + seq![sep] + r;
        assert(s[0] == sep);
        assert(s.drop_first() =~= r);
        assert(split_on(s, sep) =~~= seq![p] + split_on(r, sep));
    } else {
        let s = p + seq![sep] + r;
        assert(s[0] == p[0] && s[0] != sep);
        assert(!p.drop_first().contains(sep)) by {
            if p.drop_first().contains(sep) {
                let i = choose|i: int| 0 <= i < p.drop_first().len() && p.drop_first()[i] == sep;
                assert(p[i + 1] == sep);
            }
        }
        lemma_split_step(p.drop_first(), r, sep);
        assert(s.drop_first() =~= p.drop_first() + seq![sep] + r);
        let rest = split_on(s.drop_first(), sep);
        assert(rest == seq![p.drop_first()] + split_on(r, sep));
        assert(rest[0] == p.drop_first());
        assert(seq![s[0]] + rest[0] =~= p);
        assert(rest.drop_first() =~= split_on(r, sep));
        assert(split_on(s, sep) =~~= seq![p] + split_on(r, sep));
    }
}

/// Splitting a join recovers the parts, as long as no part holds the
/// separator.
pub proof fn lemma_split_join(parts: Seq<Seq<char>>, sep: char)
    requires
        parts.len() >= 1,
        forall|i: int| 0 <= i < parts.len() ==> !(#[trigger] parts[i]).contains(sep),
    ensures
        split_on(join_with(parts, sep), sep) == parts,
    decreases parts.len(),
{
    if parts.len() == 1 {
        lemma_split_whole(parts[0], sep);
        assert(split_on(join_with(parts, sep), sep) =~~= parts);
    } else {
        lemma_split_join(parts.drop_first(), sep);
        lemma_split_step(parts[0], join_with(parts.drop_first(), sep), sep);
        assert(split_on(join_with(parts, sep), sep) =~~= parts);
    }
}

/// A decimal digit.
pub open spec fn is_digit(c: char) -> bool {
    '0' <= c && c <= '9'
}

pub open spec fn digit_val(c: char) -> int {
    c as int - 48
}

pub open spec fn digit_char(v: int) -> char {
    if v == 0 {
        '0'
    } else if v == 1 {
        '1'
    } else if v == 2 {
        '2'
    } else if v == 3 {
        '3'
    } else if v == 4 {
        '4'
    } else if v == 5 {
        '5'
    } else if v == 6 {
        '6'
    } else if v == 7 {
        '7'
    } else if v == 8 {
        '8'
    } else {
        '9'
    }
}

pub open spec fn all_digits(s: Seq<char>) -> bool {
    forall|i: int| 0 <= i < s.len() ==> is_digit(#[trigger] s[i])
}

/// The number a digit string denotes.
pub open spec fn digits_val(s: Seq<char>) -> int
    decreases s.len(),
{
    if s.len() == 0 {
        0
    } else {
        digits_val(s.drop_last()) * 10 + digit_val(s.last())
    }
}

/// The shortest decimal form of a non-negative number.
pub open spec fn dec_rep(n: int) -> Seq<char>
    decreases n,
{
    if n < 10 {
        seq![digit_char(n)]
    } else {
        dec_rep(n / 10) + seq![digit_char(n % 10)]
    }
}

/// The signed decimal form: a minus sign before the digits when negative.
pub open spec fn int_rep(v: int) -> Seq<char> {
    if v < 0 {
        seq!['-'] + dec_rep(-v)
    } else {
        dec_rep(v)
    }
}

/// The decimal form of `n` denotes `n`, consists of digits, and is
/// non-empty.
pub proof fn lemma_dec_rep(n: int)
    requires
        n >= 0,
    ensures
        all_digits(dec_rep(n)),
        dec_rep(n).len() >= 1,
        digits_val(dec_rep(n)) == n,
    decreases n,
{
    if n < 10 {
        let s = dec_rep(n);
        assert(s.drop_last() =~= Seq::<char>::empty());
        assert(digits_val(Seq::<char>::empty()) == 0);
        assert(s.last() == digit_char(n));
        assert(digits_val(s) == digits_val(s.drop_last()) * 10 + digit_val(s.last()));
        assert(digit_val(digit_char(n)) == n);
    } else {
        lemma_dec_rep(n / 10);
        let s = dec_rep(n);
        assert(s.drop_last() =~= dec_rep(n / 10));
        assert(s.last() == digit_char(n % 10));
        assert(digit_val(digit_char(n % 10)) == n % 10);
        assert(digits_val(s) == (n / 10) * 10 + n % 10);
        assert((n / 10) * 10 + n % 10 == n) by (nonlinear_arith);
        assert forall|i: int| 0 <= i < s.len() implies is_digit(#[trigger] s[i]) by {
            if i < s.len() - 1 {
                assert(s[i] == dec_rep(n / 10)[i]);
            }
        }
    }
}

/// Numbers to parse are capped well below what their digit strings could
/// denote, so a parse can stop as soon as this bound is passed.
pub open spec fn parse_nat(s: Seq<char>) -> Option<int> {
    if s.len() >= 1 && all_digits(s) {
        Option::Some(digits_val(s))
    } else {
        Option::None
    }
}

/// The value a digit string denotes is never negative, and grows (weakly)
/// with every digit appended.
pub proof fn lemma_digits_val_nonneg(s: Seq<char>)
    requires
        all_digits(s),
    ensures
        digits_val(s) >= 0,
    decreases s.len(),
{
    if s.len() > 0 {
        assert(all_digits(s.drop_last())) by {
            assert(forall|i: int| 0 <= i < s.len() - 1 ==> s.drop_last()[i] == #[trigger] s[i]);
        }
        lemma_digits_val_nonneg(s.drop_last());
        assert(is_digit(s.last()));
    }
}

/// An unsigned number: digits alone, within `max`.
pub open spec fn parse_bounded_nat(s: Seq<char>, max: int) -> Option<int> {
    match parse_nat(s) {
        Option::Some(v) => if v <= max {
            Option::Some(v)
        } else {
            Option::None
        },
        Option::None => Option::None,
    }
}

/// A signed number: an optional minus sign, then digits, within
/// `-max ..= max`.
pub open spec fn parse_int(s: Seq<char>, max: int) -> Option<int> {
    if s.len() >= 1 && s[0] == '-' {
        match parse_bounded_nat(s.drop_first(), max) {
            Option::Some(v) => Option::Some(-v),
            Option::None => Option::None,
        }
    } else {
        parse_bounded_nat(s, max)
    }
}

/// Parsing the decimal form of `n` gives `n` back.
pub proof fn lemma_parse_dec_rep(n: int, max: int)
    requires
        0 <= n <= max,
    ensures
        parse_bounded_nat(dec_rep(n), max) == Option::Some(n),
    decreases n,
{
    lemma_dec_rep(n);
}

/// Parsing the signed decimal form of `v` gives `v` back.
pub proof fn lemma_parse_int_rep(v: int, max: int)
    requires
        -max <= v <= max,
    ensures
        parse_int(int_rep(v), max) == Option::Some(v),
{
    if v < 0 {
        lemma_dec_rep(-v);
        let s = int_rep(v);
        assert(s[0] == '-');
        assert(s.drop_first() =~= dec_rep(-v));
        lemma_parse_dec_rep(-v, max);
    } else {
        lemma_dec_rep(v);
        assert(is_digit(dec_rep(v)[0]));
        assert(dec_rep(v)[0] != '-');
        lemma_parse_dec_rep(v, max);
    }
}

/// Digits are not separators or signs.
pub proof fn lemma_digit_chars(s: Seq<char>)
    requires
        all_digits(s),
    ensures
        !s.contains(';'),
        !s.contains(','),
        !s.contains('='),
        !s.contains('-'),
{
    assert forall|i: int| 0 <= i < s.len() implies s[i] != ';' && s[i] != ',' && s[i] != '='
        && s[i] != '-' by {
        assert(is_digit(s[i]));
    }
}


/// Every prefix of a digit string denotes at most what the whole denotes.
pub proof fn lemma_digits_val_prefix(s: Seq<char>, i: int)
    requires
        all_digits(s),
        0 <= i <= s.len(),
    ensures
        digits_val(s.take(i)) <= digits_val(s),
    decreases s.len(),
{
    if i < s.len() {
        assert(all_digits(s.drop_last())) by {
            assert(forall|j: int| 0 <= j < s.len() - 1 ==> s.drop_last()[j] == #[trigger] s[j]);
        }
        lemma_digits_val_prefix(s.drop_last(), i);
        assert(s.take(i) =~= s.drop_last().take(i));
        lemma_digits_val_nonneg(s.drop_last());
        assert(is_digit(s.last()));
        assert(digits_val(s.drop_last()) * 10 >= digits_val(s.drop_last())) by (nonlinear_arith)
            requires
                digits_val(s.drop_last()) >= 0,
        ;
    } else {
        assert(s.take(i) =~= s);
    }
}

/// A digit string of `w` digits denotes less than ten to the `w`.
pub proof fn lemma_digits_val_bound(s: Seq<char>)
    requires
        all_digits(s),
    ensures
        0 <= digits_val(s) < pow10(s.len() as int),
    decreases s.len(),
{
    if s.len() == 0 {
    } else {
        assert(all_digits(s.drop_last())) by {
            assert(forall|j: int| 0 <= j < s.len() - 1 ==> s.drop_last()[j] == #[trigger] s[j]);
        }
        lemma_digits_val_bound(s.drop_last());
        assert(is_digit(s.last()));
        assert(digits_val(s) < pow10(s.len() as int)) by (nonlinear_arith)
            requires
                digits_val(s) == digits_val(s.drop_last()) * 10 + digit_val(s.last()),
                0 <= digits_val(s.drop_last()) < pow10(s.len() - 1),
                0 <= digit_val(s.last()) <= 9,
                pow10(s.len() as int) == 10 * pow10(s.len() - 1),
        ;
        lemma_digits_val_nonneg(s);
    }
}

/// Powers of ten.
pub open spec fn pow10(w: int) -> int
    decreases w,
{
    if w <= 0 {
        1
    } else {
        10 * pow10(w - 1)
    }
}

/// The decimal form of `n` padded with zeroes to exactly `w` digits.
pub open spec fn padded(n: int, w: int) -> Seq<char>
    decreases w,
{
    if w <= 0 {
        Seq::empty()
    } else {
        padded(n / 10, w - 1) + seq![digit_char(n % 10)]
    }
}

/// A padded number consists of exactly `w` digits and denotes `n` again,
/// for `n` below ten to the `w`.
pub proof fn lemma_padded(n: int, w: int)
    requires
        0 <= n < pow10(w),
        w >= 0,
    ensures
        padded(n, w).len() == w,
        all_digits(padded(n, w)),
        digits_val(padded(n, w)) == n,
    decreases w,
{
    if w > 0 {
        assert(0 <= n / 10 && n / 10 < pow10(w - 1)) by (nonlinear_arith)
            requires
                0 <= n < 10 * pow10(w - 1),
                pow10(w) == 10 * pow10(w - 1),
        ;
        lemma_padded(n / 10, w - 1);
        let s = padded(n, w);
        assert(s.drop_last() =~= padded(n / 10, w - 1));
        assert(digit_val(digit_char(n % 10)) == n % 10);
        assert(digits_val(s) == (n / 10) * 10 + n % 10);
        assert((n / 10) * 10 + n % 10 == n) by (nonlinear_arith);
        assert forall|i: int| 0 <= i < s.len() implies is_digit(#[trigger] s[i]) by {
            if i < s.len() - 1 {
                assert(s[i] == padded(n / 10, w - 1)[i]);
            }
        }
    }
}

/// A date in the `YYYYMMDD` wire form.
pub open spec fn date_rep(d: Date) -> Seq<char> {
    padded(d.year as int, 4) + padded(d.month as int, 2) + padded(d.day as int, 2)
}

/// A date from the `YYYYMMDD` wire form: exactly eight digits, naming a
/// real calendar date.
pub open spec fn parse_date(s: Seq<char>) -> Option<Date> {
    if s.len() == 8 && all_digits(s) {
        let y = digits_val(s.subrange(0, 4));
        let m = digits_val(s.subrange(4, 6));
        let dd = digits_val(s.subrange(6, 8));
        let d = Date { year: y as i32, month: m as u8, day: dd as u8 };
        if 1 <= m <= 12 && 1 <= dd <= spec_days_in_month(y, m) {
            Option::Some(d)
        } else {
            Option::None
        }
    } else {
        Option::None
    }
}

/// Parsing the wire form of a well-formed date gives the date back.
pub proof fn lemma_parse_date_rep(d: Date)
    requires
        date_wf(d),
    ensures
        parse_date(date_rep(d)) == Option::Some(d),
        all_digits(date_rep(d)),
        date_rep(d).len() == 8,
{
    assert(pow10(4) == 10000 && pow10(2) == 100) by {
        reveal_with_fuel(pow10, 5);
    }
    lemma_padded(d.year as int, 4);
    lemma_padded(d.month as int, 2);
    lemma_padded(d.day as int, 2);
    let s = date_rep(d);
    assert(s.subrange(0, 4) =~= padded(d.year as int, 4));
    assert(s.subrange(4, 6) =~= padded(d.month as int, 2));
    assert(s.subrange(6, 8) =~= padded(d.day as int, 2));
    assert(all_digits(s)) by {
        assert forall|i: int| 0 <= i < s.len() implies is_digit(#[trigger] s[i]) by {
            if i < 4 {
                assert(s[i] == padded(d.year as int, 4)[i]);
                assert(is_digit(padded(d.year as int, 4)[i]));
            } else if i < 6 {
                assert(s[i] == padded(d.month as int, 2)[i - 4]);
                assert(is_digit(padded(d.month as int, 2)[i - 4]));
            } else {
                assert(s[i] == padded(d.day as int, 2)[i - 6]);
                assert(is_digit(padded(d.day as int, 2)[i - 6]));
            }
        }
    }
}


/// Collects characters into an owned string.
///
/// Relies on `String`'s `FromIterator<char>`: collecting an iterator of
/// characters yields the string of exactly those characters, in order.
#[verifier::external_body]
pub fn chars_to_string(v: &Vec<char>) -> (r: String)
    ensures
        r@ == v@,
{
    v.iter().collect()
}

/// Reads a string slice into its characters.
pub fn str_to_chars(s: &str) -> (r: Vec<char>)
    ensures
        r@ == s@,
{
    let n = s.unicode_len();
    let mut out: Vec<char> = Vec::new();
    let mut i: usize = 0;
    while i < n
        invariant
            0 <= i <= n,
            n == s@.len(),
            out@ == s@.take(i as int),
        decreases n - i,
    {
        out.push(s.get_char(i));
        proof {
            assert(out@ =~= s@.take(i + 1));
        }
        i = i + 1;
    }
    proof {
        assert(s@.take(n as int) =~= s@);
    }
    out
}

/// Compares characters against a string slice.
pub fn chars_eq_str(v: &Vec<char>, s: &str) -> (r: bool)
    ensures
        r == (v@ == s@),
{
    let n = s.unicode_len();
    if v.len() != n {
        return false;
    }
    let mut i: usize = 0;
    while i < n
        invariant
            0 <= i <= n,
            n == s@.len() == v@.len(),
            forall|j: int| 0 <= j < i ==> v@[j] == s@[j],
        decreases n - i,
    {
        if v[i] != s.get_char(i) {
            return false;
        }
        i = i + 1;
    }
    proof {
        assert(v@ =~= s@);
    }
    true
}

/// Splits characters at every occurrence of `sep`.
pub fn split_chars(v: &Vec<char>, sep: char) -> (r: Vec<Vec<char>>)
    ensures
        r.deep_view() == split_on(v@, sep),
{
    let mut out: Vec<Vec<char>> = Vec::new();
    let mut cur: Vec<char> = Vec::new();
    let mut i: usize = 0;
    proof {
        lemma_split_nonempty(v@.skip(0), sep);
        assert(v@.skip(0) =~= v@);
        assert(out.deep_view() + (seq![cur@ + split_on(v@.skip(0), sep)[0]] + split_on(
            v@.skip(0),
            sep,
        ).drop_first()) =~~= split_on(v@, sep));
    }
    while i < v.len()
        invariant
            0 <= i <= v@.len(),
            split_on(v@, sep) == out.deep_view() + (seq![cur@ + split_on(v@.skip(i as int), sep)[0]]
                + split_on(v@.skip(i as int), sep).drop_first()),
        decreases v@.len() - i,
    {
        let c = v[i];
        proof {
            lemma_split_nonempty(v@.skip(i + 1), sep);
            assert(v@.skip(i as int) =~= seq![v@[i as int]] + v@.skip(i + 1));
            let s0 = split_on(v@.skip(i as int), sep);
            let s1 = split_on(v@.skip(i + 1), sep);
            assert(v@.skip(i as int)[0] == v@[i as int]);
            assert(v@.skip(i as int).drop_first() =~= v@.skip(i + 1));
            if v@[i as int] == sep {
                assert(s0 == seq![Seq::<char>::empty()] + s1);
                assert(s0[0] =~= Seq::<char>::empty());
                assert(cur@ + s0[0] =~= cur@);
                assert(s0.drop_first() =~= s1);
                assert(out.deep_view() + (seq![cur@ + s0[0]] + s0.drop_first()) =~~= (
                out.deep_view() + seq![cur@]) + (seq![Seq::<char>::empty() + s1[0]]
                    + s1.drop_first()));
                assert(Seq::<char>::empty() + s1[0] =~= s1[0]);
                assert((out.deep_view() + seq![cur@]) + (seq![Seq::<char>::empty() + s1[0]]
                    + s1.drop_first()) =~~= (out.deep_view() + seq![cur@]) + (seq![s1[0]]
                    + s1.drop_first()));
            } else {
                assert(s0 == seq![seq![v@[i as int]] + s1[0]] + s1.drop_first());
                assert(s0[0] == seq![v@[i as int]] + s1[0]);
                assert(cur@ + s0[0] =~= (cur@ + seq![v@[i as int]]) + s1[0]);
                assert(s0.drop_first() =~= s1.drop_first());
            }
        }
        if c == sep {
            let done = cur;
            cur = Vec::new();
            out.push(done);
            proof {
                let s1 = split_on(v@.skip(i + 1), sep);
                assert(out.deep_view() + (seq![cur@ + s1[0]] + s1.drop_first()) =~~= split_on(
                    v@,
                    sep,
                ));
            }
        } else {
            cur.push(c);
            proof {
                let s1 = split_on(v@.skip(i + 1), sep);
                assert(out.deep_view() + (seq![cur@ + s1[0]] + s1.drop_first()) =~~= split_on(
                    v@,
                    sep,
                ));
            }
        }
        i = i + 1;
    }
    proof {
        assert(v@.skip(v@.len() as int) =~= Seq::<char>::empty());
        let s0 = split_on(v@.skip(v@.len() as int), sep);
        assert(s0 == seq![Seq::<char>::empty()]);
        assert(cur@ + s0[0] =~= cur@);
        assert(s0.drop_first() =~= Seq::<Seq<char>>::empty());
        assert(out.deep_view() + (seq![cur@ + s0[0]] + s0.drop_first()) =~~= out.deep_view()
            + seq![cur@]);
    }
    out.push(cur);
    proof {
        assert(out.deep_view() =~~= split_on(v@, sep));
    }
    out
}

} // verus!
