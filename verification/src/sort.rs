//! Stable sorting of a store's valid prefix.
//!
//! The executable sorter is specified against `spec_insertion_sort`, a
//! spec-level stable insertion sort: a new element is placed after every
//! element the comparator does not order strictly above it, so elements the
//! comparator treats as equal keep their original relative order.  The
//! public lemmas state the three facts reporting relies on: the sorted
//! prefix is a permutation of the old one, it is ordered, and it is stable.

use vstd::prelude::*;
use vstd::seq_lib::group_seq_properties;

pub use core::cmp::Ordering as SortOrdering;

verus! {

/// The "less than or equal" relation a deterministic comparator decides:
/// it returned `Less` or `Equal`, not `Greater`.
pub open spec fn spec_cmp_leq<T, F: Fn(&T, &T) -> SortOrdering>(f: F) -> spec_fn(T, T) -> bool {
    |a: T, b: T|
        call_ensures(f, (&a, &b), SortOrdering::Less) || call_ensures(
            f,
            (&a, &b),
            SortOrdering::Equal,
        )
}

/// The comparator answers every query with exactly one ordering.
pub open spec fn spec_cmp_deterministic<T, F: Fn(&T, &T) -> SortOrdering>(f: F) -> bool {
    forall|a: &T, b: &T, o1: SortOrdering, o2: SortOrdering|
        #[trigger] call_ensures(f, (a, b), o1) && #[trigger] call_ensures(f, (a, b), o2) ==> o1
            == o2
}

/// Places `x` into `s` directly after the last element that is `leq` it;
/// every element ordered strictly above `x` shifts one place up.  On a
/// sorted sequence this is the stable insertion step.
pub open spec fn spec_insert_sorted<T>(s: Seq<T>, x: T, leq: spec_fn(T, T) -> bool) -> Seq<T>
    decreases s.len(),
{
    if s.len() == 0 {
        seq![x]
    } else if leq(s.last(), x) {
        s.push(x)
    } else {
        spec_insert_sorted(s.drop_last(), x, leq).push(s.last())
    }
}

/// Stable insertion sort: inserts the elements one by one, in order.
pub open spec fn spec_insertion_sort<T>(s: Seq<T>, leq: spec_fn(T, T) -> bool) -> Seq<T>
    decreases s.len(),
{
    if s.len() == 0 {
        s
    } else {
        spec_insert_sorted(spec_insertion_sort(s.drop_last(), leq), s.last(), leq)
    }
}

/// The elements two `leq`-comparisons tie: both orderings hold.
pub open spec fn spec_tied<T>(leq: spec_fn(T, T) -> bool, x: T) -> spec_fn(T) -> bool {
    |e: T| leq(e, x) && leq(x, e)
}

pub proof fn lemma_insert_sorted_len<T>(s: Seq<T>, x: T, leq: spec_fn(T, T) -> bool)
    ensures
        spec_insert_sorted(s, x, leq).len() == s.len() + 1,
    decreases s.len(),
{
    if s.len() > 0 && !leq(s.last(), x) {
        lemma_insert_sorted_len(s.drop_last(), x, leq);
    }
}

pub proof fn lemma_insertion_sort_len<T>(s: Seq<T>, leq: spec_fn(T, T) -> bool)
    ensures
        spec_insertion_sort(s, leq).len() == s.len(),
    decreases s.len(),
{
    if s.len() > 0 {
        lemma_insertion_sort_len(s.drop_last(), leq);
        lemma_insert_sorted_len(spec_insertion_sort(s.drop_last(), leq), s.last(), leq);
    }
}

/// Where the insertion step puts the new element: given a split point `j`
/// with everything at or above `j` ordered strictly above `x` and the
/// element just below `j` (if any) not above it, the insertion step is the
/// plain splice at `j`.
pub proof fn lemma_insert_sorted_position<T>(
    s: Seq<T>,
    x: T,
    leq: spec_fn(T, T) -> bool,
    j: int,
)
    requires
        0 <= j <= s.len(),
        forall|k: int| j <= k < s.len() ==> !leq(#[trigger] s[k], x),
        j > 0 ==> leq(s[j - 1], x),
    ensures
        spec_insert_sorted(s, x, leq) == s.subrange(0, j) + seq![x] + s.subrange(j, s.len() as int),
    decreases s.len(),
{
    if s.len() == 0 {
        assert(spec_insert_sorted(s, x, leq) =~= s.subrange(0, j) + seq![x] + s.subrange(
            j,
            s.len() as int,
        ));
    } else if leq(s.last(), x) {
        assert(j == s.len());
        assert(spec_insert_sorted(s, x, leq) =~= s.subrange(0, j) + seq![x] + s.subrange(
            j,
            s.len() as int,
        ));
    } else {
        lemma_insert_sorted_position(s.drop_last(), x, leq, j);
        assert(spec_insert_sorted(s.drop_last(), x, leq).push(s.last()) =~= s.subrange(0, j)
            + seq![x] + s.subrange(j, s.len() as int));
    }
}

/// The insertion step adds exactly its element: the multiset of values is
/// the old one plus `x`.
pub proof fn lemma_insert_sorted_multiset<T>(s: Seq<T>, x: T, leq: spec_fn(T, T) -> bool)
    ensures
        spec_insert_sorted(s, x, leq).to_multiset() == s.to_multiset().insert(x),
    decreases s.len(),
{
    broadcast use group_seq_properties;

    if s.len() == 0 {
        assert(spec_insert_sorted(s, x, leq) =~= Seq::<T>::empty().push(x));
        assert(Seq::<T>::empty().push(x).to_multiset() =~= s.to_multiset().insert(x));
    } else if leq(s.last(), x) {
        assert(s.push(x).to_multiset() =~= s.to_multiset().insert(x));
    } else {
        lemma_insert_sorted_multiset(s.drop_last(), x, leq);
        assert(spec_insert_sorted(s.drop_last(), x, leq).push(s.last()).to_multiset()
            =~= spec_insert_sorted(s.drop_last(), x, leq).to_multiset().insert(s.last()));
        assert(s.drop_last().push(s.last()) =~= s);
        assert(s.drop_last().push(s.last()).to_multiset() =~= s.drop_last().to_multiset().insert(
            s.last(),
        ));
        assert(spec_insert_sorted(s, x, leq).to_multiset() =~= s.to_multiset().insert(x));
    }
}

/// Sorting permutes: the sorted prefix holds exactly the records of the old
/// prefix, each with its multiplicity.
pub proof fn lemma_insertion_sort_multiset<T>(s: Seq<T>, leq: spec_fn(T, T) -> bool)
    ensures
        spec_insertion_sort(s, leq).to_multiset() == s.to_multiset(),
    decreases s.len(),
{
    broadcast use group_seq_properties;

    if s.len() > 0 {
        lemma_insertion_sort_multiset(s.drop_last(), leq);
        lemma_insert_sorted_multiset(spec_insertion_sort(s.drop_last(), leq), s.last(), leq);
        assert(s.drop_last().push(s.last()) =~= s);
        assert(s.drop_last().push(s.last()).to_multiset() =~= s.drop_last().to_multiset().insert(
            s.last(),
        ));
    }
}

/// Sorting invents nothing: every record of the sorted prefix already
/// stood in the old one.
pub proof fn lemma_insertion_sort_membership<T>(s: Seq<T>, leq: spec_fn(T, T) -> bool)
    ensures
        forall|i: int|
            0 <= i < spec_insertion_sort(s, leq).len() ==> s.contains(
                #[trigger] spec_insertion_sort(s, leq)[i],
            ),
{
    broadcast use group_seq_properties;

    lemma_insertion_sort_multiset(s, leq);
    assert forall|i: int| 0 <= i < spec_insertion_sort(s, leq).len() implies s.contains(
        #[trigger] spec_insertion_sort(s, leq)[i],
    ) by {
        let x = spec_insertion_sort(s, leq)[i];
        assert(spec_insertion_sort(s, leq).contains(x));
        assert(spec_insertion_sort(s, leq).to_multiset().count(x) > 0);
        assert(s.to_multiset().count(x) > 0);
    }
}

/// A sequence ordered under `leq`: every element is `leq` all later ones.
pub open spec fn spec_sorted_by<T>(s: Seq<T>, leq: spec_fn(T, T) -> bool) -> bool {
    forall|i: int, j: int| 0 <= i < j < s.len() ==> leq(#[trigger] s[i], #[trigger] s[j])
}

/// A total preorder: the shape a sort comparator must decide.
pub open spec fn spec_total_preorder<T>(leq: spec_fn(T, T) -> bool) -> bool {
    &&& forall|a: T, b: T| #[trigger] leq(a, b) || #[trigger] leq(b, a)
    &&& forall|a: T, b: T, c: T| #[trigger] leq(a, b) && #[trigger] leq(b, c) ==> leq(a, c)
}

pub proof fn lemma_insert_sorted_ordered<T>(s: Seq<T>, x: T, leq: spec_fn(T, T) -> bool)
    requires
        spec_total_preorder(leq),
        spec_sorted_by(s, leq),
    ensures
        spec_sorted_by(spec_insert_sorted(s, x, leq), leq),
    decreases s.len(),
{
    if s.len() == 0 {
    } else if leq(s.last(), x) {
        assert forall|i: int, j: int| 0 <= i < j < s.push(x).len() implies leq(
            #[trigger] s.push(x)[i],
            #[trigger] s.push(x)[j],
        ) by {
            if j == s.len() {
                if i < s.len() - 1 {
                    assert(leq(s[i], s.last()));
                }
            }
        }
    } else {
        lemma_insert_sorted_ordered(s.drop_last(), x, leq);
        let t = spec_insert_sorted(s.drop_last(), x, leq);
        lemma_insert_sorted_len(s.drop_last(), x, leq);
        assert(!leq(s.last(), x));
        assert(leq(x, s.last()));
        assert forall|i: int, j: int| 0 <= i < j < t.push(s.last()).len() implies leq(
            #[trigger] t.push(s.last())[i],
            #[trigger] t.push(s.last())[j],
        ) by {
            if j == t.len() {
                let e = t[i];
                lemma_insert_sorted_member_source(s.drop_last(), x, leq, i);
                if e == x {
                    assert(leq(e, s.last()));
                } else {
                    assert(exists|k: int| 0 <= k < s.drop_last().len() && s.drop_last()[k] == e);
                    let k = choose|k: int| 0 <= k < s.drop_last().len() && s.drop_last()[k] == e;
                    assert(leq(s[k], s.last()));
                }
            }
        }
    }
}

/// Every element of the insertion step's result is the new element or one
/// of the old ones.
pub proof fn lemma_insert_sorted_member_source<T>(
    s: Seq<T>,
    x: T,
    leq: spec_fn(T, T) -> bool,
    i: int,
)
    requires
        0 <= i < spec_insert_sorted(s, x, leq).len(),
    ensures
        spec_insert_sorted(s, x, leq)[i] == x || exists|k: int|
            0 <= k < s.len() && s[k] == spec_insert_sorted(s, x, leq)[i],
    decreases s.len(),
{
    lemma_insert_sorted_len(s, x, leq);
    if s.len() == 0 {
    } else if leq(s.last(), x) {
    } else {
        let t = spec_insert_sorted(s.drop_last(), x, leq);
        lemma_insert_sorted_len(s.drop_last(), x, leq);
        if i < t.len() {
            lemma_insert_sorted_member_source(s.drop_last(), x, leq, i);
            if t[i] != x {
                let k = choose|k: int| 0 <= k < s.drop_last().len() && s.drop_last()[k] == t[i];
                assert(s[k] == t[i]);
            }
        } else {
            assert(spec_insert_sorted(s, x, leq)[i] == s.last());
            assert(s[s.len() - 1] == s.last());
        }
    }
}

/// Sorting orders: under a total preorder the sorted prefix is ordered.
pub proof fn lemma_insertion_sort_ordered<T>(s: Seq<T>, leq: spec_fn(T, T) -> bool)
    requires
        spec_total_preorder(leq),
    ensures
        spec_sorted_by(spec_insertion_sort(s, leq), leq),
    decreases s.len(),
{
    if s.len() > 0 {
        lemma_insertion_sort_ordered(s.drop_last(), leq);
        lemma_insert_sorted_ordered(spec_insertion_sort(s.drop_last(), leq), s.last(), leq);
    }
}

/// The insertion step never reorders a tie class: filtering by the elements
/// tied with any fixed `x` commutes with inserting.
pub proof fn lemma_insert_sorted_stable<T>(
    s: Seq<T>,
    y: T,
    leq: spec_fn(T, T) -> bool,
    x: T,
)
    requires
        forall|a: T, b: T, c: T| #[trigger] leq(a, b) && #[trigger] leq(b, c) ==> leq(a, c),
    ensures
        spec_insert_sorted(s, y, leq).filter(spec_tied(leq, x)) == (if spec_tied(leq, x)(y) {
            s.filter(spec_tied(leq, x)).push(y)
        } else {
            s.filter(spec_tied(leq, x))
        }),
    decreases s.len(),
{
    broadcast use group_seq_properties;

    let cls = spec_tied(leq, x);
    reveal_with_fuel(Seq::filter, 2);
    if s.len() == 0 {
        assert(seq![y].drop_last() =~= Seq::<T>::empty());
        if cls(y) {
            assert(Seq::<T>::empty().filter(cls) =~= Seq::<T>::empty());
            assert(seq![y].filter(cls) =~= Seq::<T>::empty().filter(cls).push(y));
        } else {
            assert(seq![y].filter(cls) =~= Seq::<T>::empty().filter(cls));
        }
    } else if leq(s.last(), y) {
        assert(s.push(y).drop_last() =~= s);
    } else {
        // The displaced last element cannot be tied with x when y is:
        // leq(s.last(), x) and leq(x, y) would give leq(s.last(), y).
        lemma_insert_sorted_stable(s.drop_last(), y, leq, x);
        let t = spec_insert_sorted(s.drop_last(), y, leq);
        assert(t.push(s.last()).drop_last() =~= t);
        if cls(y) && cls(s.last()) {
            assert(leq(s.last(), x) && leq(x, y));
            assert(leq(s.last(), y));
            assert(false);
        }
        if cls(s.last()) {
            assert(t.push(s.last()).filter(cls) =~= t.filter(cls).push(s.last()));
            assert(s.drop_last().push(s.last()) =~= s);
            assert(s.filter(cls) =~= s.drop_last().filter(cls).push(s.last()));
        } else {
            assert(t.push(s.last()).filter(cls) =~= t.filter(cls));
            assert(s.drop_last().push(s.last()) =~= s);
            assert(s.filter(cls) =~= s.drop_last().filter(cls));
        }
    }
}

/// Sorting is stable: for every record, the records tied with it appear in
/// the sorted prefix in exactly the order they had before.
pub proof fn lemma_insertion_sort_stable<T>(s: Seq<T>, leq: spec_fn(T, T) -> bool, x: T)
    requires
        forall|a: T, b: T, c: T| #[trigger] leq(a, b) && #[trigger] leq(b, c) ==> leq(a, c),
    ensures
        spec_insertion_sort(s, leq).filter(spec_tied(leq, x)) == s.filter(spec_tied(leq, x)),
    decreases s.len(),
{
    broadcast use group_seq_properties;

    let cls = spec_tied(leq, x);
    reveal_with_fuel(Seq::filter, 2);
    if s.len() > 0 {
        lemma_insertion_sort_stable(s.drop_last(), leq, x);
        lemma_insert_sorted_stable(spec_insertion_sort(s.drop_last(), leq), s.last(), leq, x);
        assert(s.drop_last().push(s.last()) =~= s);
        if cls(s.last()) {
            assert(s.filter(cls) =~= s.drop_last().filter(cls).push(s.last()));
        } else {
            assert(s.filter(cls) =~= s.drop_last().filter(cls));
        }
    }
}

/// Sorts the first `n` places of `v` in place with the given comparator,
/// leaving the rest untouched; the result of the prefix is exactly the
/// spec-level stable insertion sort.
pub fn sort_prefix<T: Copy, F: Fn(&T, &T) -> SortOrdering>(v: &mut Vec<T>, n: usize, compare: &F)
    requires
        n <= old(v).len(),
        forall|x: &T, y: &T| #[trigger] call_requires(*compare, (x, y)),
        spec_cmp_deterministic(*compare),
    ensures
        final(v)@ == spec_insertion_sort(old(v)@.subrange(0, n as int), spec_cmp_leq(*compare))
            + old(v)@.subrange(n as int, old(v)@.len() as int),
        final(v)@.len() == old(v)@.len(),
{
    let ghost leq = spec_cmp_leq(*compare);
    let mut sorted: Vec<T> = Vec::new();
    let mut i: usize = 0;
    while i < n
        invariant
            i <= n,
            n <= v@.len(),
            v@ == old(v)@,
            forall|x: &T, y: &T| #[trigger] call_requires(*compare, (x, y)),
            spec_cmp_deterministic(*compare),
            leq == spec_cmp_leq(*compare),
            sorted@ == spec_insertion_sort(v@.subrange(0, i as int), leq),
            sorted@.len() == i,
        decreases n - i,
    {
        let x = v[i];
        let mut j: usize = sorted.len();
        loop
            invariant_except_break
                j <= sorted@.len(),
                forall|x0: &T, y0: &T| #[trigger] call_requires(*compare, (x0, y0)),
                spec_cmp_deterministic(*compare),
                leq == spec_cmp_leq(*compare),
                x == v@[i as int],
                forall|k: int| j <= k < sorted@.len() ==> !leq(#[trigger] sorted@[k], x),
            ensures
                j <= sorted@.len(),
                forall|k: int| j <= k < sorted@.len() ==> !leq(#[trigger] sorted@[k], x),
                j > 0 ==> leq(sorted@[j - 1], x),
            decreases j,
        {
            if j == 0 {
                break ;
            }
            let prev = sorted[j - 1];
            let o = compare(&prev, &x);
            match o {
                SortOrdering::Greater => {
                    proof {
                        if leq(sorted@[j - 1], x) {
                            assert(false);
                        }
                    }
                    j = j - 1;
                },
                _ => {
                    break ;
                },
            }
        }
        let ghost sorted_before = sorted@;
        sorted.insert(j, x);
        i = i + 1;
        proof {
            lemma_insert_sorted_position(sorted_before, x, leq, j as int);
            assert(sorted@ =~= sorted_before.subrange(0, j as int) + seq![x]
                + sorted_before.subrange(j as int, sorted_before.len() as int));
            assert(v@.subrange(0, i as int).drop_last() =~= v@.subrange(0, i - 1));
            assert(v@.subrange(0, i as int).last() == x);
            assert(sorted@ == spec_insert_sorted(sorted_before, x, leq));
            lemma_insert_sorted_len(sorted_before, x, leq);
        }
    }
    proof {
        assert(v@.subrange(0, n as int) =~= old(v)@.subrange(0, n as int));
    }
    let mut w: usize = 0;
    while w < n
        invariant
            w <= n,
            n <= v@.len(),
            v@.len() == old(v)@.len(),
            sorted@.len() == n,
            sorted@ == spec_insertion_sort(old(v)@.subrange(0, n as int), leq),
            v@.subrange(n as int, v@.len() as int) == old(v)@.subrange(
                n as int,
                old(v)@.len() as int,
            ),
            v@.subrange(0, w as int) == sorted@.subrange(0, w as int),
        decreases n - w,
    {
        let val = sorted[w];
        v.set(w, val);
        w = w + 1;
        proof {
            assert(v@.subrange(0, w as int) =~= sorted@.subrange(0, w as int));
            assert(v@.subrange(n as int, v@.len() as int) =~= old(v)@.subrange(
                n as int,
                old(v)@.len() as int,
            ));
        }
    }
    proof {
        assert(v@.subrange(0, n as int) =~= sorted@.subrange(0, n as int));
        assert(sorted@.subrange(0, n as int) =~= sorted@);
        assert(v@ =~= v@.subrange(0, n as int) + v@.subrange(n as int, v@.len() as int));
    }
}

} // verus!
