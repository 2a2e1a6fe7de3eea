//! Lexicographic order on character sequences, the order `String` compares by
//! (UTF-8 byte order coincides with code point order).
use vstd::prelude::*;

use crate::seqs::{lemma_insert_at, sort_stable, total_preorder};
use crate::text::{chars_of, string_views};

verus! {

/// `a <= b` in lexicographic code point order.
pub open spec fn lex_le(a: Seq<char>, b: Seq<char>) -> bool
    decreases a.len(),
{
    if a.len() == 0 {
        true
    } else if b.len() == 0 {
        false
    } else if a[0] < b[0] {
        true
    } else if a[0] > b[0] {
        false
    } else {
        lex_le(a.drop_first(), b.drop_first())
    }
}

/// `a < b` in lexicographic code point order.
pub open spec fn lex_lt(a: Seq<char>, b: Seq<char>) -> bool {
    lex_le(a, b) && a != b
}

pub proof fn lemma_lex_total(a: Seq<char>, b: Seq<char>)
    ensures
        lex_le(a, b) || lex_le(b, a),
    decreases a.len(),
{
    if a.len() > 0 && b.len() > 0 && a[0] == b[0] {
        lemma_lex_total(a.drop_first(), b.drop_first());
    }
}

pub proof fn lemma_lex_trans(a: Seq<char>, b: Seq<char>, c: Seq<char>)
    requires
        lex_le(a, b),
        lex_le(b, c),
    ensures
        lex_le(a, c),
    decreases a.len(),
{
    if a.len() > 0 && b.len() > 0 && c.len() > 0 && a[0] == b[0] && b[0] == c[0] {
        lemma_lex_trans(a.drop_first(), b.drop_first(), c.drop_first());
    }
}

pub proof fn lemma_lex_antisym(a: Seq<char>, b: Seq<char>)
    requires
        lex_le(a, b),
        lex_le(b, a),
    ensures
        a == b,
    decreases a.len(),
{
    if a.len() == 0 {
        assert(b.len() == 0);
        assert(a =~= b);
    } else {
        assert(b.len() > 0);
        assert(a[0] == b[0]);
        lemma_lex_antisym(a.drop_first(), b.drop_first());
        assert(a =~= seq![a[0]] + a.drop_first());
        assert(b =~= seq![b[0]] + b.drop_first());
    }
}

pub proof fn lemma_lex_refl(a: Seq<char>)
    ensures
        lex_le(a, a),
    decreases a.len(),
{
    if a.len() > 0 {
        lemma_lex_refl(a.drop_first());
    }
}

/// Lexicographic comparison: `a <= b`.
pub fn lex_le_exec(a: &[char], b: &[char]) -> (r: bool)
    ensures
        r == lex_le(a@, b@),
{
    let mut i: usize = 0;
    assert(a@.skip(0) =~= a@);
    assert(b@.skip(0) =~= b@);
    while i < a.len()
        invariant
            i <= a.len(),
            i <= b.len(),
            lex_le(a@, b@) == lex_le(a@.skip(i as int), b@.skip(i as int)),
        decreases a.len() - i,
    {
        if i >= b.len() {
            return false;
        }
        let ca = a[i];
        let cb = b[i];
        if ca < cb {
            return true;
        }
        if ca > cb {
            return false;
        }
        assert(a@.skip(i as int).drop_first() =~= a@.skip(i + 1));
        assert(b@.skip(i as int).drop_first() =~= b@.skip(i + 1));
        i += 1;
    }
    true
}


/// The lexicographic order is a total preorder.
pub proof fn lemma_lex_order_total()
    ensures
        total_preorder(lex_order()),
{
    let le = lex_order();
    assert forall|a: Seq<char>, b: Seq<char>| #[trigger] le(a, b) || le(b, a) by {
        lemma_lex_total(a, b);
    }
    assert forall|a: Seq<char>, b: Seq<char>, c: Seq<char>| #[trigger] le(a, b) && #[trigger] le(b, c) implies le(a, c) by {
        lemma_lex_trans(a, b, c);
    }
}

/// The lexicographic order as a comparison.
pub open spec fn lex_order() -> spec_fn(Seq<char>, Seq<char>) -> bool {
    |a: Seq<char>, b: Seq<char>| lex_le(a, b)
}

/// Sorts strings into lexicographic order, as `slice::sort` does.
pub fn sort_lex(v: Vec<String>) -> (r: Vec<String>)
    ensures
        string_views(r@) == sort_stable(string_views(v@), lex_order()),
{
    let mut out: Vec<String> = Vec::new();
    let mut i: usize = 0;
    let ghost vv = string_views(v@);
    while i < v.len()
        invariant
            i <= v.len(),
            vv == string_views(v@),
            string_views(out@) == sort_stable(vv.take(i as int), lex_order()),
        decreases v.len() - i,
    {
        let x = v[i].clone();
        let xc = chars_of(x.as_str());
        let mut k: usize = out.len();
        while k > 0 && !lex_le_exec(&chars_of(out[k - 1].as_str()), &xc)
            invariant
                k <= out.len(),
                xc@ == x@,
                forall|j: int| k <= j < out.len() ==> !lex_le(#[trigger] string_views(out@)[j], x@),
            decreases k,
        {
            k -= 1;
        }
        let ghost before = string_views(out@);
        proof {
            assert(k == 0 || lex_le(before[k - 1], x@));
            assert forall|j: int| k <= j < before.len() implies !(lex_order())(#[trigger] before[j], x@) by {}
            lemma_insert_at(before, x@, lex_order(), k as int);
            assert(vv.take(i + 1).drop_last() =~= vv.take(i as int));
            assert(vv.take(i + 1).last() == x@);
        }
        out.insert(k, x);
        assert(string_views(out@) =~= before.take(k as int).push(x@) + before.skip(k as int));
        i += 1;
    }
    assert(vv.take(v.len() as int) =~= vv);
    out
}

} // verus!
