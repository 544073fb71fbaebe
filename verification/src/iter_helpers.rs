//! Ordered merge of two sorted vectors, preserving sort order and keeping
//! duplicates: on each step the smaller head is emitted, the head of the
//! first input on a tie; when one side is exhausted the other is drained.

use vstd::prelude::*;

use vstd::multiset::Multiset;

use crate::date::{date_wf, day_index, lemma_day_index_order, Date};

verus! {

/// A type carrying a total order through an integer key.
pub trait OrderedKey: Sized + Copy {
    /// The integer deciding this value's place in the order.
    spec fn key(&self) -> int;

    /// Decides `self.key() <= other.key()`.
    fn le(&self, other: &Self) -> (r: bool)
        ensures
            r == (self.key() <= other.key()),
    ;
}

impl OrderedKey for i32 {
    open spec fn key(&self) -> int {
        *self as int
    }

    fn le(&self, other: &Self) -> (r: bool) {
        *self <= *other
    }
}

impl OrderedKey for Date {
    /// An order-preserving encoding of the year/month/day lexicographic
    /// order; the field widths (a byte each for month and day) keep the
    /// summands from overlapping.
    open spec fn key(&self) -> int {
        self.year * 65536 + self.month * 256 + self.day
    }

    fn le(&self, other: &Self) -> (r: bool) {
        if self.year != other.year {
            self.year < other.year
        } else if self.month != other.month {
            self.month < other.month
        } else {
            self.day <= other.day
        }
    }
}

/// On well-formed dates the lexicographic key orders exactly as the day
/// line does.
pub proof fn lemma_date_key_order(a: Date, b: Date)
    requires
        date_wf(a),
        date_wf(b),
    ensures
        (a.key() <= b.key()) <==> (day_index(a) <= day_index(b)),
{
    lemma_day_index_order(a, b);
    lemma_day_index_order(b, a);
}

/// The keys of the sequence are non-decreasing.
pub open spec fn sorted<T: OrderedKey>(s: Seq<T>) -> bool {
    forall|i: int, j: int| 0 <= i <= j < s.len() ==> s[i].key() <= s[j].key()
}

/// The merge in order of two sequences: the smaller head first, the head of
/// `a` on a tie; what remains of the other side is appended at the end.
pub open spec fn spec_merge<T: OrderedKey>(a: Seq<T>, b: Seq<T>) -> Seq<T>
    decreases a.len() + b.len(),
{
    if a.len() == 0 {
        b
    } else if b.len() == 0 {
        a
    } else if a[0].key() <= b[0].key() {
        seq![a[0]] + spec_merge(a.drop_first(), b)
    } else {
        seq![b[0]] + spec_merge(a, b.drop_first())
    }
}

/// The merge holds exactly the elements of both inputs: its length is the
/// sum of theirs, and a value occurs in it as often as in both together.
pub proof fn lemma_merge_multiset<T: OrderedKey>(a: Seq<T>, b: Seq<T>)
    ensures
        spec_merge(a, b).len() == a.len() + b.len(),
        spec_merge(a, b).to_multiset() == a.to_multiset().add(b.to_multiset()),
    decreases a.len() + b.len(),
{
    broadcast use vstd::seq_lib::group_to_multiset_ensures;

    if a.len() == 0 {
        assert(a.to_multiset() =~= Multiset::empty());
        assert(spec_merge(a, b).to_multiset() =~= a.to_multiset().add(b.to_multiset()));
    } else if b.len() == 0 {
        assert(b.to_multiset() =~= Multiset::empty());
        assert(spec_merge(a, b).to_multiset() =~= a.to_multiset().add(b.to_multiset()));
    } else if a[0].key() <= b[0].key() {
        lemma_merge_multiset(a.drop_first(), b);
        assert(seq![a[0]] + spec_merge(a.drop_first(), b) =~= spec_merge(
            a.drop_first(),
            b,
        ).insert(0, a[0]));
        assert(a =~= a.drop_first().insert(0, a[0]));
        assert(spec_merge(a, b).to_multiset() =~= a.to_multiset().add(b.to_multiset()));
    } else {
        lemma_merge_multiset(a, b.drop_first());
        assert(seq![b[0]] + spec_merge(a, b.drop_first()) =~= spec_merge(
            a,
            b.drop_first(),
        ).insert(0, b[0]));
        assert(b =~= b.drop_first().insert(0, b[0]));
        assert(spec_merge(a, b).to_multiset() =~= a.to_multiset().add(b.to_multiset()));
    }
}

/// An element of the merge is an element of one of the inputs.
pub proof fn lemma_merge_membership<T: OrderedKey>(a: Seq<T>, b: Seq<T>, x: T)
    ensures
        spec_merge(a, b).contains(x) <==> (a.contains(x) || b.contains(x)),
{
    broadcast use vstd::seq_lib::group_to_multiset_ensures;

    lemma_merge_multiset(a, b);
    assert(spec_merge(a, b).contains(x) <==> spec_merge(a, b).to_multiset().count(x) > 0);
    assert(a.contains(x) <==> a.to_multiset().count(x) > 0);
    assert(b.contains(x) <==> b.to_multiset().count(x) > 0);
}

/// Merging sorted inputs yields a sorted output.
pub proof fn lemma_merge_sorted<T: OrderedKey>(a: Seq<T>, b: Seq<T>)
    requires
        sorted(a),
        sorted(b),
    ensures
        sorted(spec_merge(a, b)),
        spec_merge(a, b).len() > 0 ==> a.len() > 0 && spec_merge(a, b)[0] == a[0] || b.len() > 0
            && spec_merge(a, b)[0] == b[0],
    decreases a.len() + b.len(),
{
    if a.len() == 0 || b.len() == 0 {
    } else if a[0].key() <= b[0].key() {
        assert(sorted(a.drop_first()));
        lemma_merge_sorted(a.drop_first(), b);
        let rest = spec_merge(a.drop_first(), b);
        let m = seq![a[0]] + rest;
        assert forall|i: int, j: int| 0 <= i <= j < m.len() implies m[i].key() <= m[j].key() by {
            if i == 0 && j > 0 {
                assert(rest[j - 1].key() >= a[0].key()) by {
                    if rest.len() > 0 {
                        assert(rest[0].key() <= rest[j - 1].key());
                    }
                }
            } else if i > 0 {
                assert(rest[i - 1].key() <= rest[j - 1].key());
            }
        }
    } else {
        assert(sorted(b.drop_first()));
        lemma_merge_sorted(a, b.drop_first());
        let rest = spec_merge(a, b.drop_first());
        let m = seq![b[0]] + rest;
        assert forall|i: int, j: int| 0 <= i <= j < m.len() implies m[i].key() <= m[j].key() by {
            if i == 0 && j > 0 {
                assert(rest[j - 1].key() >= b[0].key()) by {
                    if rest.len() > 0 {
                        assert(rest[0].key() <= rest[j - 1].key());
                    }
                }
            } else if i > 0 {
                assert(rest[i - 1].key() <= rest[j - 1].key());
            }
        }
    }
}

/// One step of the merge, on the suffixes starting at `i` and `j`.
proof fn lemma_merge_step<T: OrderedKey>(a: Seq<T>, b: Seq<T>, i: int, j: int)
    requires
        0 <= i < a.len(),
        0 <= j < b.len(),
    ensures
        a[i].key() <= b[j].key() ==> spec_merge(a.skip(i), b.skip(j)) == seq![a[i]] + spec_merge(
            a.skip(i + 1),
            b.skip(j),
        ),
        !(a[i].key() <= b[j].key()) ==> spec_merge(a.skip(i), b.skip(j)) == seq![b[j]]
            + spec_merge(a.skip(i), b.skip(j + 1)),
{
    assert(a.skip(i)[0] == a[i]);
    assert(b.skip(j)[0] == b[j]);
    assert(a.skip(i).drop_first() =~= a.skip(i + 1));
    assert(b.skip(j).drop_first() =~= b.skip(j + 1));
}

/// Merge two ordered vectors in order.
///
/// The result is pinned down exactly by `spec_merge`; the sortedness of the
/// output, for sorted inputs, is `lemma_merge_sorted`.
pub fn merge_ordered<T: OrderedKey>(a: &Vec<T>, b: &Vec<T>) -> (r: Vec<T>)
    ensures
        r@ == spec_merge(a@, b@),
{
    let mut out: Vec<T> = Vec::new();
    let mut i: usize = 0;
    let mut j: usize = 0;
    proof {
        assert(a@.skip(0) =~= a@);
        assert(b@.skip(0) =~= b@);
        assert(out@ + spec_merge(a@.skip(0), b@.skip(0)) =~= spec_merge(a@, b@));
    }
    while i < a.len() || j < b.len()
        invariant
            0 <= i <= a.len(),
            0 <= j <= b.len(),
            spec_merge(a@, b@) == out@ + spec_merge(a@.skip(i as int), b@.skip(j as int)),
        decreases a.len() + b.len() - i - j,
    {
        if i < a.len() && (j >= b.len() || a[i].le(&b[j])) {
            proof {
                if j < b.len() {
                    lemma_merge_step(a@, b@, i as int, j as int);
                    assert(out@ + spec_merge(a@.skip(i as int), b@.skip(j as int)) =~= (out@
                        + seq![a@[i as int]]) + spec_merge(a@.skip(i + 1), b@.skip(j as int)));
                } else {
                    assert(b@.skip(j as int) =~= Seq::<T>::empty());
                    assert(a@.skip(i as int) =~= seq![a@[i as int]] + a@.skip(i + 1));
                    assert(spec_merge(a@.skip(i as int), b@.skip(j as int)) == a@.skip(i as int));
                    assert(spec_merge(a@.skip(i + 1), b@.skip(j as int)) == a@.skip(i + 1));
                    assert(out@ + spec_merge(a@.skip(i as int), b@.skip(j as int)) =~= (out@
                        + seq![a@[i as int]]) + spec_merge(a@.skip(i + 1), b@.skip(j as int)));
                }
            }
            out.push(a[i]);
            i = i + 1;
        } else {
            proof {
                let jj = j as int;
                if i < a.len() {
                    lemma_merge_step(a@, b@, i as int, jj);
                    assert(out@ + spec_merge(a@.skip(i as int), b@.skip(jj)) =~= (out@
                        + seq![b@[jj]]) + spec_merge(a@.skip(i as int), b@.skip(jj + 1)));
                } else {
                    assert(a@.skip(i as int) =~= Seq::<T>::empty());
                    assert(b@.skip(jj) =~= seq![b@[jj]] + b@.skip(jj + 1));
                    assert(spec_merge(a@.skip(i as int), b@.skip(jj)) == b@.skip(jj));
                    assert(spec_merge(a@.skip(i as int), b@.skip(jj + 1)) == b@.skip(jj + 1));
                    assert(out@ + spec_merge(a@.skip(i as int), b@.skip(jj)) =~= (out@
                        + seq![b@[jj]]) + spec_merge(a@.skip(i as int), b@.skip(jj + 1)));
                }
            }
            out.push(b[j]);
            j = j + 1;
        }
    }
    proof {
        assert(a@.skip(a@.len() as int) =~= Seq::<T>::empty());
        assert(b@.skip(b@.len() as int) =~= Seq::<T>::empty());
        assert(out@ + spec_merge(a@.skip(i as int), b@.skip(j as int)) =~= out@);
    }
    out
}

} // verus!
