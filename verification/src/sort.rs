//! Sorting of numbers and texts.
use vstd::prelude::*;
use vstd::relations::{sorted_by, total_ordering};
use crate::paths::texts;
use crate::text::{lemma_text_le_total, lemma_text_le_transitive, not_after, text_le};

verus! {

/// Numbers from the least to the greatest.
pub open spec fn sorted_numbers(s: Seq<u64>) -> Seq<u64> {
    s.sort_by(|a: u64, b: u64| a <= b)
}

/// Texts from the first to the last.
pub open spec fn sorted_texts(s: Seq<Seq<char>>) -> Seq<Seq<char>> {
    s.sort_by(|a: Seq<char>, b: Seq<char>| text_le(a, b))
}

/// Putting an element in anywhere adds it to the elements.
pub proof fn lemma_insert_multiset<A>(s: Seq<A>, i: int, x: A)
    requires
        0 <= i <= s.len(),
    ensures
        s.insert(i, x).to_multiset() == s.to_multiset().insert(x),
{
    broadcast use vstd::multiset::group_multiset_axioms;
    broadcast use vstd::seq_lib::group_to_multiset_ensures;

    let t = s.insert(i, x);
    assert(t.remove(i) =~= s);
    assert(t[i] == x);
    assert(t.contains(x));
    assert(t.to_multiset() =~= s.to_multiset().insert(x));
}

/// Putting an element between those not after it and those not before it keeps the order.
pub proof fn lemma_insert_sorted<A>(s: Seq<A>, i: int, x: A, leq: spec_fn(A, A) -> bool)
    requires
        0 <= i <= s.len(),
        sorted_by(s, leq),
        forall|j: int| 0 <= j < i ==> leq(#[trigger] s[j], x),
        forall|j: int| i <= j < s.len() ==> leq(x, #[trigger] s[j]),
    ensures
        sorted_by(s.insert(i, x), leq),
{
    let t = s.insert(i, x);
    assert forall|a: int, b: int| 0 <= a < b < t.len() implies #[trigger] leq(t[a], t[b]) by {
        let p = if a < i { a } else { a - 1 };
        let q = if b < i { b } else { b - 1 };
        if a == i {
            assert(t[b] == s[q]);
        } else if b == i {
            assert(t[a] == s[p]);
        } else {
            assert(t[a] == s[p] && t[b] == s[q]);
            assert(leq(s[p], s[q]));
        }
    }
}

/// Sorts numbers.
pub fn sort_numbers(v: &Vec<u64>) -> (r: Vec<u64>)
    ensures
        r@ == sorted_numbers(v@),
        r@.len() == v@.len(),
{
    let ghost leq = |a: u64, b: u64| a <= b;
    let mut out: Vec<u64> = Vec::new();
    let mut i: usize = 0;
    proof {
        assert(out@ =~= v@.take(0));
    }
    while i < v.len()
        invariant
            i <= v@.len(),
            leq == (|a: u64, b: u64| a <= b),
            out@.len() == i,
            sorted_by(out@, leq),
            out@.to_multiset() == v@.take(i as int).to_multiset(),
        decreases v@.len() - i,
    {
        let x: u64 = v[i];
        let ghost before = out@;
        let mut p: usize = out.len();
        while p > 0 && out[p - 1] > x
            invariant
                p <= out@.len(),
                out@ == before,
                leq == (|a: u64, b: u64| a <= b),
                sorted_by(out@, leq),
                forall|j: int| p <= j < out@.len() ==> leq(x, #[trigger] out@[j]),
            decreases p,
        {
            p = p - 1;
        }
        proof {
            assert forall|j: int| 0 <= j < p implies leq(#[trigger] before[j], x) by {
                if j < p - 1 {
                    assert(leq(before[j], before[p - 1]));
                }
            }
            lemma_insert_sorted(before, p as int, x, leq);
            lemma_insert_multiset(before, p as int, x);
            assert(v@.take(i + 1) =~= v@.take(i as int).push(x));
            broadcast use vstd::seq_lib::group_to_multiset_ensures;

        }
        out.insert(p, x);
        i = i + 1;
    }
    proof {
        assert(v@.take(i as int) =~= v@);
        assert(total_ordering(leq));
        v@.lemma_sort_by_ensures(leq);
        vstd::seq_lib::lemma_sorted_unique(out@, v@.sort_by(leq), leq);
    }
    out
}

/// The order of texts is a total order.
pub proof fn lemma_text_order()
    ensures
        total_ordering(|a: Seq<char>, b: Seq<char>| text_le(a, b)),
{
    let leq = |a: Seq<char>, b: Seq<char>| text_le(a, b);
    assert forall|x: Seq<char>| #[trigger] leq(x, x) by {
        lemma_text_le_total(x, x);
    }
    assert forall|x: Seq<char>, y: Seq<char>| #[trigger] leq(x, y) && #[trigger] leq(
        y,
        x,
    ) implies x == y by {
        lemma_text_le_total(x, y);
    }
    assert forall|x: Seq<char>, y: Seq<char>, z: Seq<char>| #[trigger] leq(x, y) && #[trigger] leq(
        y,
        z,
    ) implies leq(x, z) by {
        lemma_text_le_transitive(x, y, z);
    }
    assert forall|x: Seq<char>, y: Seq<char>| #[trigger] leq(x, y) || #[trigger] leq(y, x) by {
        lemma_text_le_total(x, y);
    }
}

/// Sorts texts.
pub fn sort_texts(v: Vec<String>) -> (r: Vec<String>)
    ensures
        texts(r@) == sorted_texts(texts(v@)),
{
    let ghost leq = |a: Seq<char>, b: Seq<char>| text_le(a, b);
    let mut out: Vec<String> = Vec::new();
    let mut i: usize = 0;
    proof {
        assert(texts(out@) =~= texts(v@).take(0));
    }
    while i < v.len()
        invariant
            i <= v@.len(),
            leq == (|a: Seq<char>, b: Seq<char>| text_le(a, b)),
            out@.len() == i,
            sorted_by(texts(out@), leq),
            texts(out@).to_multiset() == texts(v@).take(i as int).to_multiset(),
        decreases v@.len() - i,
    {
        let x = v[i].clone();
        let ghost before = texts(out@);
        let mut p: usize = out.len();
        while p > 0 && !not_after(out[p - 1].as_str(), x.as_str())
            invariant
                p <= out@.len(),
                texts(out@) == before,
                leq == (|a: Seq<char>, b: Seq<char>| text_le(a, b)),
                sorted_by(before, leq),
                forall|j: int| p <= j < before.len() ==> leq(x@, #[trigger] before[j]),
            decreases p,
        {
            proof {
                lemma_text_le_total(out@[p - 1]@, x@);
                assert(before[p - 1] == out@[p - 1]@);
            }
            p = p - 1;
        }
        proof {
            assert forall|j: int| 0 <= j < p implies leq(#[trigger] before[j], x@) by {
                assert(before[p - 1] == out@[p - 1]@);
                if j < p - 1 {
                    assert(leq(before[j], before[p - 1]));
                    lemma_text_le_transitive(before[j], before[p - 1], x@);
                }
            }
            lemma_insert_sorted(before, p as int, x@, leq);
            lemma_insert_multiset(before, p as int, x@);
            assert(texts(v@).take(i + 1) =~= texts(v@).take(i as int).push(x@));
            broadcast use vstd::seq_lib::group_to_multiset_ensures;

        }
        out.insert(p, x);
        assert(texts(out@) =~= before.insert(p as int, x@));
        i = i + 1;
    }
    proof {
        assert(texts(v@).take(i as int) =~= texts(v@));
        lemma_text_order();
        texts(v@).lemma_sort_by_ensures(leq);
        vstd::seq_lib::lemma_sorted_unique(texts(out@), texts(v@).sort_by(leq), leq);
    }
    out
}

/// Sorted numbers are the same numbers, each as often as before, none after a greater one.
pub proof fn law_numbers_sorted(s: Seq<u64>)
    ensures
        sorted_numbers(s).to_multiset() == s.to_multiset(),
        forall|i: int, j: int|
            0 <= i <= j < sorted_numbers(s).len() ==> sorted_numbers(s)[i] <= sorted_numbers(s)[j],
{
    let leq = |a: u64, b: u64| a <= b;
    s.lemma_sort_by_ensures(leq);
    let r = sorted_numbers(s);
    assert forall|i: int, j: int| 0 <= i <= j < r.len() implies r[i] <= r[j] by {
        if i < j {
            assert(leq(r[i], r[j]));
        }
    }
}

/// Sorted texts are the same texts, each as often as before, none after one that comes later.
pub proof fn law_texts_sorted(s: Seq<Seq<char>>)
    ensures
        sorted_texts(s).to_multiset() == s.to_multiset(),
        forall|i: int, j: int|
            0 <= i <= j < sorted_texts(s).len() ==> text_le(sorted_texts(s)[i], sorted_texts(s)[j]),
{
    let leq = |a: Seq<char>, b: Seq<char>| text_le(a, b);
    lemma_text_order();
    s.lemma_sort_by_ensures(leq);
    let r = sorted_texts(s);
    assert forall|i: int, j: int| 0 <= i <= j < r.len() implies text_le(r[i], r[j]) by {
        if i < j {
            assert(leq(r[i], r[j]));
        } else {
            lemma_text_le_total(r[i], r[i]);
        }
    }
}

} // verus!
