//! Ordering: the lexicographic order `String`'s `Ord` uses, and a stable
//! sort proved to return a sorted permutation of its input.

use crate::text::chars_of;
use vstd::prelude::*;

verus! {

/// `str`'s `Ord`: lexicographic by character. UTF-8 preserves code-point
/// order, so comparing bytes and comparing characters agree.
pub open spec fn lex_le(a: Seq<char>, b: Seq<char>) -> bool
    decreases a.len(),
{
    if a.len() == 0 {
        true
    } else if b.len() == 0 {
        false
    } else if a[0] < b[0] {
        true
    } else if a[0] > b[0] {
        false
    } else {
        lex_le(a.drop_first(), b.drop_first())
    }
}

pub open spec fn lex_lt(a: Seq<char>, b: Seq<char>) -> bool {
    lex_le(a, b) && a != b
}

pub proof fn lemma_lex_total(a: Seq<char>, b: Seq<char>)
    ensures
        lex_le(a, b) || lex_le(b, a),
    decreases a.len(),
{
    if a.len() > 0 && b.len() > 0 && a[0] == b[0] {
        lemma_lex_total(a.drop_first(), b.drop_first());
    }
}

pub proof fn lemma_lex_trans(a: Seq<char>, b: Seq<char>, c: Seq<char>)
    requires
        lex_le(a, b),
        lex_le(b, c),
    ensures
        lex_le(a, c),
    decreases a.len(),
{
    if a.len() > 0 && b.len() > 0 && c.len() > 0 && a[0] == b[0] && b[0] == c[0] {
        lemma_lex_trans(a.drop_first(), b.drop_first(), c.drop_first());
    }
}

pub proof fn lemma_lex_antisym(a: Seq<char>, b: Seq<char>)
    requires
        lex_le(a, b),
        lex_le(b, a),
    ensures
        a == b,
    decreases a.len(),
{
    if a.len() > 0 && b.len() > 0 {
        lemma_lex_antisym(a.drop_first(), b.drop_first());
        assert(a =~= seq![a[0]] + a.drop_first());
        assert(b =~= seq![b[0]] + b.drop_first());
    }
}

pub proof fn lemma_lex_refl(a: Seq<char>)
    ensures
        lex_le(a, a),
    decreases a.len(),
{
    if a.len() > 0 {
        lemma_lex_refl(a.drop_first());
    }
}

/// `a <= b` as `str` orders them.
pub fn text_le(a: &str, b: &str) -> (r: bool)
    ensures
        r == lex_le(a@, b@),
{
    let x = chars_of(a);
    let y = chars_of(b);
    chars_le(&x, &y)
}

pub fn chars_le(x: &[char], y: &[char]) -> (r: bool)
    ensures
        r == lex_le(x@, y@),
{
    let mut i: usize = 0;
    assert(x@.subrange(0, x.len() as int) =~= x@);
    assert(y@.subrange(0, y.len() as int) =~= y@);
    while i < x.len() && i < y.len()
        invariant
            i <= x.len(),
            i <= y.len(),
            lex_le(x@, y@) == lex_le(x@.subrange(i as int, x.len() as int), y@.subrange(i as int, y.len() as int)),
        decreases x.len() - i,
    {
        let ghost xs = x@.subrange(i as int, x.len() as int);
        let ghost ys = y@.subrange(i as int, y.len() as int);
        assert(xs[0] == x@[i as int] && ys[0] == y@[i as int]);
        if x[i] < y[i] {
            return true;
        }
        if x[i] > y[i] {
            return false;
        }
        assert(xs.drop_first() =~= x@.subrange(i + 1, x.len() as int));
        assert(ys.drop_first() =~= y@.subrange(i + 1, y.len() as int));
        i += 1;
    }
    let ghost xs = x@.subrange(i as int, x.len() as int);
    x.len() == i
}

/// `a == b` as `str` compares them.
pub fn text_eq(a: &str, b: &str) -> (r: bool)
    ensures
        r == (a@ == b@),
{
    crate::text::str_eq(a, b)
}

// ---------------------------------------------------------------------------
// Sorting
// ---------------------------------------------------------------------------

pub open spec fn total_preorder<T>(leq: spec_fn(T, T) -> bool) -> bool {
    &&& forall|a: T, b: T| #[trigger] leq(a, b) || leq(b, a)
    &&& forall|a: T, b: T, c: T| #[trigger] leq(a, b) && #[trigger] leq(b, c) ==> leq(a, c)
}

pub open spec fn sorted_by<T>(s: Seq<T>, leq: spec_fn(T, T) -> bool) -> bool {
    forall|i: int, j: int| 0 <= i < j < s.len() ==> leq(#[trigger] s[i], #[trigger] s[j])
}

/// A stable insertion sort: the result is a permutation of `v`, sorted by
/// `leq`, with equal elements kept in their original order.
pub fn sort_by<T, F: Fn(&T, &T) -> bool>(v: Vec<T>, le: &F, leq: Ghost<spec_fn(T, T) -> bool>) -> (r: Vec<T>)
    requires
        total_preorder(leq@),
        forall|a: &T, b: &T| le.requires((a, b)),
        forall|a: &T, b: &T, x: bool| le.ensures((a, b), x) ==> x == leq@(*a, *b),
    ensures
        sorted_by(r@, leq@),
        r@.to_multiset() == v@.to_multiset(),
        r.len() == v.len(),
{
    broadcast use vstd::seq_lib::group_to_multiset_ensures;
    let mut input = v;
    let ghost orig = input@;
    let mut out: Vec<T> = Vec::new();
    let n = input.len();
    // Taken from the front, so equal elements keep their order.
    proof {
        assert(out@ =~= Seq::<T>::empty());
        assert(out@.to_multiset().len() == 0);
        assert(out@.to_multiset() =~= vstd::multiset::Multiset::<T>::empty());
        assert(out@.to_multiset().add(input@.to_multiset()) =~= orig.to_multiset());
    }
    while input.len() > 0
        invariant
            total_preorder(leq@),
            forall|a: &T, b: &T| le.requires((a, b)),
            forall|a: &T, b: &T, x: bool| le.ensures((a, b), x) ==> x == leq@(*a, *b),
            sorted_by(out@, leq@),
            out@.to_multiset().add(input@.to_multiset()) == orig.to_multiset(),
            out.len() + input.len() == n,
            n == orig.len(),
        decreases input.len(),
    {
        let ghost whole = input@;
        let x = input.remove(0);
        assert(input@ == whole.remove(0));
        proof {
            vstd::seq_lib::to_multiset_remove(whole, 0);
            assert(whole.contains(x)) by {
                assert(whole[0] == x);
            }
            vstd::seq_lib::to_multiset_contains(whole, x);
        }
        let mut p: usize = 0;
        while p < out.len() && le(&out[p], &x)
            invariant
                p <= out.len(),
                forall|a: &T, b: &T| le.requires((a, b)),
                forall|a: &T, b: &T, y: bool| le.ensures((a, b), y) ==> y == leq@(*a, *b),
                forall|k: int| 0 <= k < p ==> leq@(#[trigger] out@[k], x),
            decreases out.len() - p,
        {
            p += 1;
        }
        let ghost before = out@;
        proof {
            if p < out.len() {
                assert(!leq@(out@[p as int], x));
                assert(leq@(x, out@[p as int]));
            }
        }
        out.insert(p, x);
        proof {
            assert(out@ == before.insert(p as int, x));
            assert forall|i: int, j: int| 0 <= i < j < out@.len() implies leq@(#[trigger] out@[i], #[trigger] out@[j]) by {
                if j < p {
                    assert(out@[i] == before[i] && out@[j] == before[j]);
                } else if j == p {
                    assert(out@[i] == before[i]);
                } else if i == p {
                    assert(out@[j] == before[j - 1]);
                    if j - 1 > p {
                        assert(leq@(before[p as int], before[j - 1]));
                    }
                } else if i < p {
                    assert(out@[i] == before[i] && out@[j] == before[j - 1]);
                } else {
                    assert(out@[i] == before[i - 1] && out@[j] == before[j - 1]);
                }
            }
            vstd::seq_lib::to_multiset_insert(before, p as int, x);
            assert(out@.to_multiset().add(input@.to_multiset()) =~= orig.to_multiset());
        }
    }
    out
}

/// Rearranging a sequence and then mapping it gives a rearrangement of
/// the mapped sequence.
pub proof fn lemma_permutation_maps<A, B>(s1: Seq<A>, s2: Seq<A>, f: spec_fn(A) -> B)
    requires
        s1.to_multiset() == s2.to_multiset(),
    ensures
        s1.map_values(f).to_multiset() == s2.map_values(f).to_multiset(),
    decreases s1.len(),
{
    broadcast use vstd::seq_lib::group_to_multiset_ensures;
    if s1.len() == 0 {
        assert(s2.len() == 0) by {
            vstd::seq_lib::to_multiset_len(s1);
            vstd::seq_lib::to_multiset_len(s2);
        }
        assert(s1.map_values(f) =~= s2.map_values(f));
    } else {
        let x = s1[0];
        vstd::seq_lib::to_multiset_contains(s1, x);
        assert(s1.contains(x)) by {
            assert(s1[0] == x);
        }
        assert(s2.to_multiset().count(x) > 0);
        vstd::seq_lib::to_multiset_contains(s2, x);
        let i = choose|i: int| 0 <= i < s2.len() && s2[i] == x;
        vstd::seq_lib::to_multiset_remove(s1, 0);
        vstd::seq_lib::to_multiset_remove(s2, i);
        assert(s1.remove(0).to_multiset() == s2.remove(i).to_multiset());
        lemma_permutation_maps(s1.remove(0), s2.remove(i), f);
        let m1 = s1.map_values(f);
        let m2 = s2.map_values(f);
        assert(m1.remove(0) =~= s1.remove(0).map_values(f));
        assert(m2.remove(i) =~= s2.remove(i).map_values(f));
        vstd::seq_lib::to_multiset_remove(m1, 0);
        vstd::seq_lib::to_multiset_remove(m2, i);
        vstd::seq_lib::to_multiset_contains(m1, f(x));
        vstd::seq_lib::to_multiset_contains(m2, f(x));
        assert(m1.contains(f(x))) by {
            assert(m1[0] == f(x));
        }
        assert(m2.contains(f(x))) by {
            assert(m2[i] == f(x));
        }
        assert(m1.to_multiset() =~= m1.remove(0).to_multiset().insert(f(x)));
        assert(m2.to_multiset() =~= m2.remove(i).to_multiset().insert(f(x)));
    }
}

} // verus!
