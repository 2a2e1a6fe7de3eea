//! Specifications of the list operations the library performs: keeping the
//! first occurrence of each element, and stable sorting by a comparison.
use vstd::prelude::*;

verus! {

/// The elements of `s` in order, each kept only at its first occurrence.
pub open spec fn first_occurrences<A>(s: Seq<A>) -> Seq<A>
    decreases s.len(),
{
    if s.len() == 0 {
        s
    } else {
        let prev = first_occurrences(s.drop_last());
        if s.drop_last().contains(s.last()) {
            prev
        } else {
            prev.push(s.last())
        }
    }
}

/// Insert `x` into `s` after every trailing element that is not greater than it:
/// one step of a stable insertion sort.
pub open spec fn insert_stable<A>(s: Seq<A>, x: A, le: spec_fn(A, A) -> bool) -> Seq<A>
    decreases s.len(),
{
    if s.len() == 0 {
        seq![x]
    } else if le(s.last(), x) {
        s.push(x)
    } else {
        insert_stable(s.drop_last(), x, le).push(s.last())
    }
}

/// Stable sort of `s` by the ordering `le` (what `slice::sort_by` computes
/// for a total order).
pub open spec fn sort_stable<A>(s: Seq<A>, le: spec_fn(A, A) -> bool) -> Seq<A>
    decreases s.len(),
{
    if s.len() == 0 {
        s
    } else {
        insert_stable(sort_stable(s.drop_last(), le), s.last(), le)
    }
}

pub open spec fn sorted_by<A>(s: Seq<A>, le: spec_fn(A, A) -> bool) -> bool {
    forall|i: int, j: int| 0 <= i < j < s.len() ==> le(s[i], s[j])
}

pub open spec fn total_preorder<A>(le: spec_fn(A, A) -> bool) -> bool {
    &&& forall|a: A, b: A| #[trigger] le(a, b) || le(b, a)
    &&& forall|a: A, b: A, c: A| #[trigger] le(a, b) && #[trigger] le(b, c) ==> le(a, c)
}

/// Inserting at a split point found by scanning from the end.
pub proof fn lemma_insert_at<A>(s: Seq<A>, x: A, le: spec_fn(A, A) -> bool, k: int)
    requires
        0 <= k <= s.len(),
        k == 0 || le(s[k - 1], x),
        forall|j: int| k <= j < s.len() ==> !le(#[trigger] s[j], x),
    ensures
        insert_stable(s, x, le) == s.take(k).push(x) + s.skip(k),
    decreases s.len(),
{
    if s.len() == 0 {
        assert(s.take(k).push(x) + s.skip(k) =~= seq![x]);
    } else if k == s.len() {
        assert(s.take(k) =~= s);
        assert(s.skip(k) =~= Seq::<A>::empty());
        assert(s.take(k).push(x) + s.skip(k) =~= s.push(x));
    } else {
        assert(!le(s[s.len() - 1], x));
        let t = s.drop_last();
        assert forall|j: int| k <= j < t.len() implies !le(#[trigger] t[j], x) by {
            assert(t[j] == s[j]);
        }
        lemma_insert_at(t, x, le, k);
        assert(t.take(k) =~= s.take(k));
        assert(t.skip(k).push(s.last()) =~= s.skip(k));
        assert((t.take(k).push(x) + t.skip(k)).push(s.last()) =~= s.take(k).push(x) + s.skip(k));
    }
}

pub proof fn lemma_insert_multiset<A>(s: Seq<A>, x: A, le: spec_fn(A, A) -> bool)
    ensures
        insert_stable(s, x, le).to_multiset() == s.to_multiset().insert(x),
        insert_stable(s, x, le).len() == s.len() + 1,
    decreases s.len(),
{
    broadcast use vstd::seq_lib::group_to_multiset_ensures;
    if s.len() == 0 {
        assert(seq![x] =~= Seq::<A>::empty().push(x));
    } else if le(s.last(), x) {
    } else {
        lemma_insert_multiset(s.drop_last(), x, le);
        assert(s.drop_last().push(s.last()) =~= s);
        assert(s.to_multiset() == s.drop_last().to_multiset().insert(s.last()));
        assert(insert_stable(s, x, le).to_multiset() =~= s.to_multiset().insert(x));
    }
}

/// The stable sort rearranges its input: same elements, same multiplicities.
pub proof fn lemma_sort_multiset<A>(s: Seq<A>, le: spec_fn(A, A) -> bool)
    ensures
        sort_stable(s, le).to_multiset() == s.to_multiset(),
        sort_stable(s, le).len() == s.len(),
    decreases s.len(),
{
    broadcast use vstd::seq_lib::group_to_multiset_ensures;
    if s.len() > 0 {
        lemma_sort_multiset(s.drop_last(), le);
        lemma_insert_multiset(sort_stable(s.drop_last(), le), s.last(), le);
        assert(s.drop_last().push(s.last()) =~= s);
    }
}

pub proof fn lemma_insert_sorted<A>(s: Seq<A>, x: A, le: spec_fn(A, A) -> bool)
    requires
        total_preorder(le),
        sorted_by(s, le),
    ensures
        sorted_by(insert_stable(s, x, le), le),
    decreases s.len(),
{
    if s.len() == 0 {
    } else if le(s.last(), x) {
        let r = s.push(x);
        assert forall|i: int, j: int| 0 <= i < j < r.len() implies le(r[i], r[j]) by {
            if j == s.len() {
                if i < s.len() - 1 {
                    assert(le(s[i], s[s.len() - 1]));
                    assert(le(s[i], s[s.len() - 1]) && le(s[s.len() - 1], x));
                }
            }
        }
    } else {
        let t = s.drop_last();
        assert(sorted_by(t, le));
        lemma_insert_sorted(t, x, le);
        lemma_insert_multiset(t, x, le);
        broadcast use vstd::seq_lib::group_to_multiset_ensures;
        let u = insert_stable(t, x, le);
        let r = u.push(s.last());
        assert(le(x, s.last()));
        assert forall|i: int, j: int| 0 <= i < j < r.len() implies le(r[i], r[j]) by {
            if j == u.len() {
                // every element of u is x or an element of t, all below s.last()
                assert(u.contains(u[i]));
                assert(u.to_multiset().count(u[i]) > 0);
                assert(u.to_multiset() == t.to_multiset().insert(x));
                if u[i] != x {
                    assert(t.to_multiset().count(u[i]) > 0);
                    assert(t.contains(u[i]));
                    let k = choose|k: int| 0 <= k < t.len() && t[k] == u[i];
                    assert(le(s[k], s[s.len() - 1]));
                }
            }
        }
    }
}

/// The stable sort by a total preorder yields a sorted sequence.
pub proof fn lemma_sort_sorted<A>(s: Seq<A>, le: spec_fn(A, A) -> bool)
    requires
        total_preorder(le),
    ensures
        sorted_by(sort_stable(s, le), le),
    decreases s.len(),
{
    if s.len() > 0 {
        lemma_sort_sorted(s.drop_last(), le);
        lemma_insert_sorted(sort_stable(s.drop_last(), le), s.last(), le);
    }
}

/// `first_occurrences` keeps exactly the elements of its input, once each.
pub proof fn lemma_first_occurrences<A>(s: Seq<A>)
    ensures
        first_occurrences(s).no_duplicates(),
        forall|x: A| first_occurrences(s).contains(x) <==> s.contains(x),
        first_occurrences(s).len() <= s.len(),
    decreases s.len(),
{
    if s.len() > 0 {
        let t = s.drop_last();
        lemma_first_occurrences(t);
        let f = first_occurrences(s);
        let ft = first_occurrences(t);
        assert(t.push(s.last()) =~= s);
        assert forall|x: A| f.contains(x) <==> s.contains(x) by {
            if t.contains(s.last()) {
                assert(f == ft);
                if s.contains(x) {
                    let k = choose|k: int| 0 <= k < s.len() && s[k] == x;
                    if k < s.len() - 1 {
                        assert(t[k] == x);
                    }
                }
                if t.contains(x) {
                    let k = choose|k: int| 0 <= k < t.len() && t[k] == x;
                    assert(s[k] == x);
                }
            } else {
                assert(f == ft.push(s.last()));
                assert(f[ft.len() as int] == s.last());
                if s.contains(x) {
                    let k = choose|k: int| 0 <= k < s.len() && s[k] == x;
                    if k < s.len() - 1 {
                        assert(t[k] == x);
                        assert(t.contains(x));
                        assert(ft.contains(x));
                        let m = choose|m: int| 0 <= m < ft.len() && ft[m] == x;
                        assert(f[m] == x);
                    }
                }
                if f.contains(x) {
                    let m = choose|m: int| 0 <= m < f.len() && f[m] == x;
                    if m < ft.len() {
                        assert(ft[m] == x);
                        assert(t.contains(x));
                        let k = choose|k: int| 0 <= k < t.len() && t[k] == x;
                        assert(s[k] == x);
                    } else {
                        assert(s[s.len() - 1] == x);
                    }
                }
            }
        }
        if !t.contains(s.last()) {
            assert(!ft.contains(s.last()));
            assert forall|i: int, j: int| 0 <= i < f.len() && 0 <= j < f.len() && i != j implies f[i] != f[j] by {
                if i < ft.len() && j < ft.len() {
                } else if i < ft.len() {
                    assert(ft.contains(f[i]));
                } else {
                    assert(ft.contains(f[j]));
                }
            }
        }
    }
}

/// Removing repeated elements twice removes nothing more.
pub proof fn lemma_first_occurrences_idempotent<A>(s: Seq<A>)
    requires
        s.no_duplicates(),
    ensures
        first_occurrences(s) == s,
    decreases s.len(),
{
    if s.len() > 0 {
        let t = s.drop_last();
        assert(t.no_duplicates());
        lemma_first_occurrences_idempotent(t);
        if t.contains(s.last()) {
            let k = choose|k: int| 0 <= k < t.len() && t[k] == s.last();
            assert(s[k] == s[s.len() - 1]);
        }
        assert(t.push(s.last()) =~= s);
    }
}


/// Sorting keeps exactly the elements of its input, so a list without
/// repeats stays without repeats.
pub proof fn lemma_sort_keeps_elements<A>(s: Seq<A>, le: spec_fn(A, A) -> bool)
    ensures
        forall|x: A| sort_stable(s, le).contains(x) <==> s.contains(x),
        s.no_duplicates() ==> sort_stable(s, le).no_duplicates(),
{
    broadcast use vstd::seq_lib::group_to_multiset_ensures;
    lemma_sort_multiset(s, le);
    let r = sort_stable(s, le);
    assert forall|x: A| r.contains(x) <==> s.contains(x) by {
        assert(r.to_multiset().count(x) == s.to_multiset().count(x));
    }
    if s.no_duplicates() {
        s.lemma_multiset_has_no_duplicates();
        r.lemma_multiset_has_no_duplicates_conv();
    }
}


/// Sorting a sorted sequence leaves it as it is.
pub proof fn lemma_sort_of_sorted<A>(s: Seq<A>, le: spec_fn(A, A) -> bool)
    requires
        sorted_by(s, le),
    ensures
        sort_stable(s, le) == s,
    decreases s.len(),
{
    if s.len() > 0 {
        let t = s.drop_last();
        assert(sorted_by(t, le));
        lemma_sort_of_sorted(t, le);
        if t.len() > 0 {
            assert(le(s[t.len() - 1], s[s.len() - 1]));
            assert(t.last() == s[t.len() - 1]);
        }
        assert(t.push(s.last()) =~= s);
    }
}

} // verus!
