//! Stable sorting of items that carry an ordering key.

use vstd::prelude::*;

verus! {

/// Items ordered by a key. `precedes` is a strict order on the keys: two
/// items of which neither precedes the other have equal keys.
pub trait Keyed: Sized {
    /// The key of `self` comes strictly before the key of `other`.
    spec fn precedes(&self, other: &Self) -> bool;

    /// Whether the key of `self` comes strictly before the key of `other`.
    fn comes_before(&self, other: &Self) -> (b: bool)
        ensures
            b == self.precedes(other),
    ;

    /// No item precedes itself.
    proof fn lemma_irreflexive(a: &Self)
        ensures
            !a.precedes(a),
    ;

    /// The order is transitive.
    proof fn lemma_transitive(a: &Self, b: &Self, c: &Self)
        requires
            a.precedes(b),
            b.precedes(c),
        ensures
            a.precedes(c),
    ;
}

/// No item of the sequence is preceded by a later one.
pub open spec fn is_sorted<T: Keyed>(s: Seq<T>) -> bool {
    forall|i: int, j: int| #![trigger s[i], s[j]] 0 <= i < j < s.len() ==> !s[j].precedes(&s[i])
}

/// Where `x` goes in the sorted sequence `s`: behind the last item that
/// precedes it, and so in front of the items with the same key.
pub open spec fn insertion_point<T: Keyed>(s: Seq<T>, x: T) -> int
    decreases s.len(),
{
    if s.len() == 0 {
        0
    } else if s.last().precedes(&x) {
        s.len() as int
    } else {
        insertion_point(s.drop_last(), x)
    }
}

/// The items of `s` in the order of their keys; items with equal keys keep
/// the order that they have in `s`.
pub open spec fn sorted_of<T: Keyed>(s: Seq<T>) -> Seq<T>
    decreases s.len(),
{
    if s.len() == 0 {
        Seq::empty()
    } else {
        let rest = sorted_of(s.drop_first());
        rest.insert(insertion_point(rest, s[0]), s[0])
    }
}

/// The insertion point lies within the sequence; what stands at or behind
/// it does not precede `x`, and what stands just in front of it does.
pub proof fn lemma_insertion_point<T: Keyed>(s: Seq<T>, x: T)
    ensures
        0 <= insertion_point(s, x) <= s.len(),
        forall|j: int| insertion_point(s, x) <= j < s.len() ==> !(#[trigger] s[j]).precedes(&x),
        insertion_point(s, x) > 0 ==> s[insertion_point(s, x) - 1].precedes(&x),
    decreases s.len(),
{
    if s.len() > 0 && !s.last().precedes(&x) {
        let t = s.drop_last();
        lemma_insertion_point(t, x);
        assert forall|j: int| insertion_point(s, x) <= j < s.len() implies !(#[trigger] s[j]).precedes(
            &x,
        ) by {
            if j < t.len() {
                assert(t[j] == s[j]);
            }
        }
        if insertion_point(s, x) > 0 {
            assert(t[insertion_point(t, x) - 1] == s[insertion_point(s, x) - 1]);
        }
    }
}

/// Inserting an item at its insertion point keeps a sequence sorted.
pub proof fn lemma_insert_keeps_sorted<T: Keyed>(s: Seq<T>, x: T)
    requires
        is_sorted(s),
    ensures
        is_sorted(s.insert(insertion_point(s, x), x)),
{
    let p = insertion_point(s, x);
    lemma_insertion_point(s, x);
    let r = s.insert(p, x);
    assert forall|i: int, j: int| #![trigger r[i], r[j]] 0 <= i < j < r.len() implies !r[j].precedes(
        &r[i],
    ) by {
        if j == p {
            // r[j] is x, r[i] stands in front of the insertion point
            assert(r[i] == s[i]);
            if x.precedes(&s[i]) {
                T::lemma_transitive(&s[p - 1], &x, &s[i]);
                if i == p - 1 {
                    T::lemma_irreflexive(&s[i]);
                }
            }
        } else if i == p {
            assert(r[j] == s[j - 1]);
        } else if j < p {
            assert(r[i] == s[i] && r[j] == s[j]);
        } else if i > p {
            assert(r[i] == s[i - 1] && r[j] == s[j - 1]);
        } else {
            assert(r[i] == s[i] && r[j] == s[j - 1]);
        }
    }
}

/// `sorted_of` gives a sorted sequence that holds the same items, each as
/// often as the input does.
pub proof fn lemma_sorted_of<T: Keyed>(s: Seq<T>)
    ensures
        is_sorted(sorted_of(s)),
        sorted_of(s).len() == s.len(),
        sorted_of(s).to_multiset() == s.to_multiset(),
    decreases s.len(),
{
    broadcast use vstd::seq_lib::group_to_multiset_ensures;

    if s.len() == 0 {
        assert(sorted_of(s) =~= s);
    } else {
        let rest = sorted_of(s.drop_first());
        lemma_sorted_of(s.drop_first());
        lemma_insertion_point(rest, s[0]);
        lemma_insert_keeps_sorted(rest, s[0]);
        let p = insertion_point(rest, s[0]);
        vstd::seq_lib::to_multiset_insert(rest, p, s[0]);
        assert(s =~= s.drop_first().insert(0, s[0]));
        vstd::seq_lib::to_multiset_insert(s.drop_first(), 0, s[0]);
    }
}

/// Sorts the items by their keys; items with equal keys keep their order.
pub fn sort_by_key<T: Keyed>(items: Vec<T>) -> (r: Vec<T>)
    ensures
        r@ == sorted_of(items@),
        is_sorted(r@),
        r@.len() == items@.len(),
        r@.to_multiset() == items@.to_multiset(),
{
    let ghost input: Seq<T> = items@;
    let mut items = items;
    let mut out: Vec<T> = Vec::new();
    proof {
        assert(input.skip(input.len() as int) =~= Seq::<T>::empty());
    }
    while items.len() > 0
        invariant
            items@.len() <= input.len(),
            items@ == input.take(items@.len() as int),
            out@ == sorted_of(input.skip(items@.len() as int)),
        decreases items@.len(),
    {
        let ghost k: int = items@.len() as int;
        let x: T = items.pop().unwrap();
        let mut j: usize = out.len();
        proof {
            lemma_sorted_of(input.skip(k));
            assert(out@.take(j as int) =~= out@);
        }
        while j > 0 && !out[j - 1].comes_before(&x)
            invariant
                j <= out@.len(),
                insertion_point(out@, x) == insertion_point(out@.take(j as int), x),
            decreases j,
        {
            proof {
                let t = out@.take(j as int);
                assert(t.last() == out@[j - 1]);
                assert(t.drop_last() =~= out@.take(j - 1));
            }
            j -= 1;
        }
        proof {
            let t = out@.take(j as int);
            if j > 0 {
                assert(t.last() == out@[j - 1]);
            }
            assert(insertion_point(out@, x) == j);
            let tail = input.skip(k - 1);
            assert(tail[0] == x);
            assert(tail.drop_first() =~= input.skip(k));
            assert(items@ =~= input.take(k - 1));
        }
        out.insert(j, x);
    }
    proof {
        assert(input.skip(0) =~= input);
        lemma_sorted_of(input);
    }
    out
}

/// Any two items of the sequence have different keys.
pub open spec fn keys_distinct<T: Keyed>(s: Seq<T>) -> bool {
    forall|i: int, j: int|
        #![trigger s[i], s[j]]
        0 <= i < j < s.len() ==> s[i].precedes(&s[j]) || s[j].precedes(&s[i])
}

/// A sequence whose keys are distinct holds no item twice.
pub proof fn lemma_keys_distinct_no_duplicates<T: Keyed>(s: Seq<T>)
    requires
        keys_distinct(s),
    ensures
        s.no_duplicates(),
{
    assert forall|i: int, j: int| (0 <= i < s.len() && 0 <= j < s.len() && i != j) implies s[i]
        != s[j] by {
        if s[i] == s[j] {
            T::lemma_irreflexive(&s[i]);
            if i < j {
                assert(s[i].precedes(&s[j]) || s[j].precedes(&s[i]));
            } else {
                assert(s[j].precedes(&s[i]) || s[i].precedes(&s[j]));
            }
        }
    }
}

/// Distinctness of keys depends only on which items a sequence holds, not
/// on their order.
pub proof fn lemma_keys_distinct_rearranged<T: Keyed>(a: Seq<T>, x: Seq<T>)
    requires
        keys_distinct(a),
        a.to_multiset() == x.to_multiset(),
    ensures
        keys_distinct(x),
{
    broadcast use vstd::seq_lib::group_to_multiset_ensures;

    lemma_keys_distinct_no_duplicates(a);
    a.lemma_multiset_has_no_duplicates();
    x.lemma_multiset_has_no_duplicates_conv();
    assert forall|i: int, j: int| #![trigger x[i], x[j]] 0 <= i < j < x.len() implies x[i].precedes(
        &x[j],
    ) || x[j].precedes(&x[i]) by {
        assert(x.to_multiset().contains(x[i]));
        assert(x.to_multiset().contains(x[j]));
        assert(a.to_multiset().contains(x[i]));
        assert(a.to_multiset().contains(x[j]));
        let p = choose|p: int| 0 <= p < a.len() && a[p] == x[i];
        let q = choose|q: int| 0 <= q < a.len() && a[q] == x[j];
        assert(x[i] != x[j]);
        if p < q {
            assert(a[p].precedes(&a[q]) || a[q].precedes(&a[p]));
        } else {
            assert(a[q].precedes(&a[p]) || a[p].precedes(&a[q]));
        }
    }
}

/// Two sorted sequences that hold the same items, with distinct keys, are
/// equal.
pub proof fn lemma_sorted_unique_keys<T: Keyed>(x: Seq<T>, y: Seq<T>)
    requires
        is_sorted(x),
        is_sorted(y),
        keys_distinct(x),
        keys_distinct(y),
        x.to_multiset() == y.to_multiset(),
    ensures
        x == y,
    decreases x.len(),
{
    broadcast use vstd::seq_lib::group_to_multiset_ensures;

    vstd::seq_lib::to_multiset_len(x);
    vstd::seq_lib::to_multiset_len(y);
    assert(x.len() == y.len());
    if x.len() == 0 {
        assert(x =~= y);
    } else {
        assert(x.to_multiset().contains(x[0]));
        assert(y.to_multiset().contains(y[0]));
        assert(y.to_multiset().contains(x[0]));
        assert(x.to_multiset().contains(y[0]));
        let k = choose|k: int| 0 <= k < y.len() && y[k] == x[0];
        let m = choose|m: int| 0 <= m < x.len() && x[m] == y[0];
        if m > 0 && k > 0 {
            assert(x[0].precedes(&x[m]) || x[m].precedes(&x[0]));
            assert(y[0].precedes(&y[k]) || y[k].precedes(&y[0]));
            T::lemma_transitive(&x[0], &y[0], &x[0]);
            T::lemma_irreflexive(&x[0]);
        }
        assert(x[0] == y[0]);
        let xs = x.drop_first();
        let ys = y.drop_first();
        assert(xs =~= x.remove(0));
        assert(ys =~= y.remove(0));
        vstd::seq_lib::to_multiset_remove(x, 0);
        vstd::seq_lib::to_multiset_remove(y, 0);
        assert(is_sorted(xs)) by {
            assert forall|i: int, j: int| #![trigger xs[i], xs[j]] 0 <= i < j < xs.len() implies !xs[j].precedes(
                &xs[i],
            ) by {
                assert(xs[i] == x[i + 1] && xs[j] == x[j + 1]);
            }
        }
        assert(is_sorted(ys)) by {
            assert forall|i: int, j: int| #![trigger ys[i], ys[j]] 0 <= i < j < ys.len() implies !ys[j].precedes(
                &ys[i],
            ) by {
                assert(ys[i] == y[i + 1] && ys[j] == y[j + 1]);
            }
        }
        assert(keys_distinct(xs)) by {
            assert forall|i: int, j: int| #![trigger xs[i], xs[j]] 0 <= i < j < xs.len() implies xs[i].precedes(
                &xs[j],
            ) || xs[j].precedes(&xs[i]) by {
                assert(xs[i] == x[i + 1] && xs[j] == x[j + 1]);
            }
        }
        assert(keys_distinct(ys)) by {
            assert forall|i: int, j: int| #![trigger ys[i], ys[j]] 0 <= i < j < ys.len() implies ys[i].precedes(
                &ys[j],
            ) || ys[j].precedes(&ys[i]) by {
                assert(ys[i] == y[i + 1] && ys[j] == y[j + 1]);
            }
        }
        lemma_sorted_unique_keys(xs, ys);
        assert forall|i: int| 0 <= i < x.len() implies x[i] == y[i] by {
            if i > 0 {
                assert(xs[i - 1] == x[i] && ys[i - 1] == y[i]);
            }
        }
        assert(x =~= y);
    }
}

/// Sorting does not depend on the order of its input: two sequences that
/// hold the same items, with distinct keys, sort to the same sequence.
pub proof fn lemma_sort_ignores_input_order<T: Keyed>(a: Seq<T>, b: Seq<T>)
    requires
        a.to_multiset() == b.to_multiset(),
        keys_distinct(a),
    ensures
        sorted_of(a) == sorted_of(b),
{
    lemma_sorted_of(a);
    lemma_sorted_of(b);
    lemma_keys_distinct_rearranged(a, sorted_of(a));
    lemma_keys_distinct_rearranged(a, sorted_of(b));
    lemma_sorted_unique_keys(sorted_of(a), sorted_of(b));
}

/// Sorting a sequence with distinct keys and sorting its reverse give the
/// same sequence.
pub proof fn lemma_sort_ignores_reversal<T: Keyed>(a: Seq<T>)
    requires
        keys_distinct(a),
    ensures
        sorted_of(a.reverse()) == sorted_of(a),
{
    a.lemma_reverse_to_multiset();
    lemma_sort_ignores_input_order(a, a.reverse());
}

} // verus!
