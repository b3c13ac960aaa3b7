//! The relevance ranker: order retrieved candidates by relevance.
//!
//! The nearest-neighbour search itself is the datastore's; it hands back
//! `k` candidates, each with a query-scoped relevance. This module sorts
//! those candidates by relevance, descending, with a stable sort — equal
//! relevances keep their retrieval order — and returns the texts.
//!
//! The relevance is an order-preserving 32-bit key supplied by the
//! caller (for non-negative floats, the float's bit pattern is such a
//! key); the ranker itself never computes on it, it only compares.

use vstd::prelude::*;
use crate::schemas::DocumentRef;

verus! {

/// The candidate's relevance key. Meaningful only when a similarity
/// query populated it.
pub open spec fn spec_rel(d: DocumentRef) -> u32 {
    d.relevence.unwrap()
}

/// Relevances never increase along `s`.
pub open spec fn spec_sorted_desc(s: Seq<DocumentRef>) -> bool {
    forall|i: int, j: int| 0 <= i < j < s.len() ==> spec_rel(s[i]) >= spec_rel(s[j])
}

/// Where a stable pass places `x`: after every element at least as
/// relevant, before the first strictly less relevant one.
pub open spec fn spec_insert_desc(s: Seq<DocumentRef>, x: DocumentRef) -> Seq<DocumentRef>
    decreases s.len(),
{
    if s.len() == 0 {
        seq![x]
    } else if spec_rel(s[0]) >= spec_rel(x) {
        seq![s[0]] + spec_insert_desc(s.drop_first(), x)
    } else {
        seq![x] + s
    }
}

/// The stable descending sort: candidates inserted in retrieval order.
pub open spec fn spec_sort_desc(s: Seq<DocumentRef>) -> Seq<DocumentRef>
    decreases s.len(),
{
    if s.len() == 0 {
        Seq::empty()
    } else {
        spec_insert_desc(spec_sort_desc(s.drop_last()), s.last())
    }
}

/// The candidates of one relevance class, in order.
pub open spec fn spec_class(s: Seq<DocumentRef>, k: u32) -> Seq<DocumentRef>
    decreases s.len(),
{
    if s.len() == 0 {
        Seq::empty()
    } else if spec_rel(s[0]) == k {
        seq![s[0]] + spec_class(s.drop_first(), k)
    } else {
        spec_class(s.drop_first(), k)
    }
}

/// Sorts the retrieved candidates by relevance, descending and stable,
/// and returns their texts in that order.
pub fn sort_embeddings(embeddings: Vec<DocumentRef>) -> (r: Vec<String>)
    requires
        forall|i: int| 0 <= i < embeddings@.len() ==> (#[trigger] embeddings@[i]).relevence is Some,
    ensures
        r@ == spec_sort_desc(embeddings@).map_values(|d: DocumentRef| d.raw),
{
    let ghost orig = embeddings@;
    let n_exec = embeddings.len();
    let mut rest = embeddings;
    let mut sorted: Vec<DocumentRef> = Vec::new();
    let ghost n = orig.len();
    let mut k: usize = 0;
    proof {
        assert(orig.take(0) =~= Seq::<DocumentRef>::empty());
        assert(rest@ =~= orig.skip(0));
    }
    while rest.len() > 0
        invariant
            k <= n,
            n == orig.len(),
            n == n_exec,
            rest@ == orig.skip(k as int),
            forall|i: int| 0 <= i < n ==> (#[trigger] orig[i]).relevence is Some,
            sorted@ == spec_sort_desc(orig.take(k as int)),
            forall|i: int| 0 <= i < sorted@.len() ==> (#[trigger] sorted@[i]).relevence is Some,
        decreases rest@.len(),
    {
        let x = rest.remove(0);
        proof {
            assert(x == orig[k as int]);
            assert(rest@ =~= orig.skip(k as int + 1));
        }
        let m = sorted.len();
        let mut p: usize = 0;
        let mut placed = false;
        while !placed
            invariant
                p <= m,
                m == sorted@.len(),
                forall|i: int| 0 <= i < sorted@.len() ==> (#[trigger] sorted@[i]).relevence is Some,
                x.relevence is Some,
                forall|i: int| 0 <= i < p ==> spec_rel(#[trigger] sorted@[i]) >= spec_rel(x),
                placed ==> (p == m || spec_rel(sorted@[p as int]) < spec_rel(x)),
            decreases m - p + (if placed { 0int } else { 1int }),
        {
            if p == m {
                placed = true;
            } else if relevance_of(&sorted[p]) < relevance_of(&x) {
                placed = true;
            } else {
                p = p + 1;
            }
        }
        let ghost pre = sorted@;
        proof {
            lemma_insert_desc_at(pre, x, p as int);
        }
        sorted.insert(p, x);
        proof {
            assert(sorted@ == spec_insert_desc(pre, x));
            assert forall|i: int|
                0 <= i < sorted@.len() implies (#[trigger] sorted@[i]).relevence is Some by {
                if i < p {
                    assert(sorted@[i] == pre[i]);
                } else if i == p {
                    assert(sorted@[i] == x);
                } else {
                    assert(sorted@[i] == pre[i - 1]);
                }
            }
        }
        k = k + 1;
        proof {
            assert(orig.take(k as int).drop_last() =~= orig.take(k as int - 1));
            assert(orig.take(k as int).last() == orig[k as int - 1]);
        }
    }
    proof {
        assert(orig.take(n as int) =~= orig);
    }
    let mut r: Vec<String> = Vec::new();
    let mut i: usize = 0;
    while i < sorted.len()
        invariant
            i <= sorted@.len(),
            r@.len() == i,
            forall|j: int| 0 <= j < i ==> r@[j] == (#[trigger] sorted@[j]).raw,
            sorted@ == spec_sort_desc(orig),
        decreases sorted@.len() - i,
    {
        r.push(sorted[i].raw.clone());
        i = i + 1;
    }
    proof {
        assert(r@ =~= spec_sort_desc(orig).map_values(|d: DocumentRef| d.raw));
    }
    r
}

fn relevance_of(d: &DocumentRef) -> (r: u32)
    requires
        d.relevence is Some,
    ensures
        r == spec_rel(*d),
{
    match d.relevence {
        Some(v) => v,
        None => 0,
    }
}

/// Inserting at the first position whose relevance is strictly below the
/// new element's is exactly the stable placement.
proof fn lemma_insert_desc_at(s: Seq<DocumentRef>, x: DocumentRef, p: int)
    requires
        0 <= p <= s.len(),
        forall|i: int| 0 <= i < p ==> spec_rel(#[trigger] s[i]) >= spec_rel(x),
        p < s.len() ==> spec_rel(s[p]) < spec_rel(x),
    ensures
        spec_insert_desc(s, x) == s.insert(p, x),
    decreases s.len(),
{
    if p == 0 {
        if s.len() == 0 {
            assert(spec_insert_desc(s, x) =~= s.insert(0, x));
        } else {
            assert(spec_insert_desc(s, x) =~= s.insert(0, x));
        }
    } else {
        assert(spec_rel(s[0]) >= spec_rel(x));
        lemma_insert_desc_at(s.drop_first(), x, p - 1);
        assert(spec_insert_desc(s, x) == seq![s[0]] + spec_insert_desc(s.drop_first(), x));
        assert(spec_insert_desc(s, x) =~= s.insert(p, x));
    }
}

/// Stable insertion keeps a descending-sorted sequence sorted.
proof fn lemma_insert_desc_sorted(s: Seq<DocumentRef>, x: DocumentRef)
    requires
        spec_sorted_desc(s),
    ensures
        spec_sorted_desc(spec_insert_desc(s, x)),
    decreases s.len(),
{
    if s.len() == 0 {
    } else if spec_rel(s[0]) >= spec_rel(x) {
        assert(spec_sorted_desc(s.drop_first()));
        lemma_insert_desc_sorted(s.drop_first(), x);
        let t = seq![s[0]] + spec_insert_desc(s.drop_first(), x);
        lemma_insert_desc_members(s.drop_first(), x);
        assert forall|i: int, j: int| 0 <= i < j < t.len() implies spec_rel(t[i]) >= spec_rel(
            t[j],
        ) by {
            if i > 0 {
                assert(t[i] == spec_insert_desc(s.drop_first(), x)[i - 1]);
                assert(t[j] == spec_insert_desc(s.drop_first(), x)[j - 1]);
            } else {
                assert(t[j] == spec_insert_desc(s.drop_first(), x)[j - 1]);
            }
        }
    } else {
    }
}

/// Every element of a stable insertion is the new element or one of the
/// old ones, and the old head still bounds everything inserted after it.
proof fn lemma_insert_desc_members(s: Seq<DocumentRef>, x: DocumentRef)
    ensures
        spec_insert_desc(s, x).len() == s.len() + 1,
        forall|i: int|
            0 <= i < spec_insert_desc(s, x).len() ==> (#[trigger] spec_insert_desc(s, x)[i]) == x
                || exists|j: int| 0 <= j < s.len() && spec_insert_desc(s, x)[i] == s[j],
    decreases s.len(),
{
    if s.len() == 0 {
    } else if spec_rel(s[0]) >= spec_rel(x) {
        lemma_insert_desc_members(s.drop_first(), x);
        let t = seq![s[0]] + spec_insert_desc(s.drop_first(), x);
        assert forall|i: int|
            0 <= i < t.len() implies (#[trigger] t[i]) == x || exists|j: int|
            0 <= j < s.len() && t[i] == s[j] by {
            if i == 0 {
                assert(t[0] == s[0]);
            } else {
                let u = spec_insert_desc(s.drop_first(), x);
                assert(t[i] == u[i - 1]);
                if u[i - 1] == x {
                } else {
                    let j = choose|j: int| 0 <= j < s.drop_first().len() && u[i - 1]
                        == s.drop_first()[j];
                    assert(t[i] == s[j + 1]);
                }
            }
        }
    } else {
    }
}

/// Law: the ranker's order is descending by relevance.
pub proof fn lemma_sort_desc_sorted(s: Seq<DocumentRef>)
    ensures
        spec_sorted_desc(spec_sort_desc(s)),
    decreases s.len(),
{
    if s.len() > 0 {
        lemma_sort_desc_sorted(s.drop_last());
        lemma_insert_desc_sorted(spec_sort_desc(s.drop_last()), s.last());
    }
}

/// Within one relevance class, stable insertion appends at the end when
/// the new element belongs to the class, and touches nothing otherwise.
/// Needs the sequence sorted: then no class member sits past the
/// insertion point.
proof fn lemma_insert_desc_class(s: Seq<DocumentRef>, x: DocumentRef, k: u32)
    requires
        spec_sorted_desc(s),
    ensures
        spec_class(spec_insert_desc(s, x), k) == if spec_rel(x) == k {
            spec_class(s, k).push(x)
        } else {
            spec_class(s, k)
        },
    decreases s.len(),
{
    if s.len() == 0 {
        assert(seq![x].drop_first() =~= Seq::<DocumentRef>::empty());
        assert(spec_class(Seq::<DocumentRef>::empty(), k) =~= Seq::<DocumentRef>::empty());
        if spec_rel(x) == k {
            assert(spec_class(seq![x], k) =~= spec_class(s, k).push(x));
        } else {
            assert(spec_class(seq![x], k) =~= spec_class(s, k));
        }
    } else if spec_rel(s[0]) >= spec_rel(x) {
        assert(spec_sorted_desc(s.drop_first()));
        lemma_insert_desc_class(s.drop_first(), x, k);
        let t = seq![s[0]] + spec_insert_desc(s.drop_first(), x);
        assert(t.drop_first() =~= spec_insert_desc(s.drop_first(), x));
        if spec_rel(s[0]) == k {
            if spec_rel(x) == k {
                assert(spec_class(t, k) =~= spec_class(s, k).push(x));
            } else {
                assert(spec_class(t, k) =~= spec_class(s, k));
            }
        } else {
            if spec_rel(x) == k {
                assert(spec_class(t, k) =~= spec_class(s, k).push(x));
            } else {
                assert(spec_class(t, k) =~= spec_class(s, k));
            }
        }
    } else {
        let t = seq![x] + s;
        assert(t.drop_first() =~= s);
        if spec_rel(x) == k {
            lemma_class_of_high_head(s, x, k);
        }
    }
}

/// When every later element is strictly less relevant than `k`, the
/// class of `k` behind the head is empty, so prepending a `k` element is
/// also appending it.
proof fn lemma_class_of_high_head(s: Seq<DocumentRef>, x: DocumentRef, k: u32)
    requires
        spec_sorted_desc(s),
        s.len() > 0,
        spec_rel(s[0]) < spec_rel(x),
        spec_rel(x) == k,
    ensures
        spec_class(seq![x] + s, k) == spec_class(s, k).push(x),
{
    lemma_class_empty_when_all_below(s, k);
    assert((seq![x] + s).drop_first() =~= s);
    assert(spec_class(seq![x] + s, k) =~= Seq::<DocumentRef>::empty().push(x));
    assert(spec_class(s, k).push(x) =~= Seq::<DocumentRef>::empty().push(x));
}

/// A class is empty in a sequence whose members are all strictly less
/// relevant.
proof fn lemma_class_empty_when_all_below(s: Seq<DocumentRef>, k: u32)
    requires
        forall|i: int| 0 <= i < s.len() ==> spec_rel(#[trigger] s[i]) < k,
    ensures
        spec_class(s, k) == Seq::<DocumentRef>::empty(),
    decreases s.len(),
{
    if s.len() > 0 {
        lemma_class_empty_when_all_below(s.drop_first(), k);
    }
}

/// A class distributes over dropping the last element.
proof fn lemma_class_drop_last(s: Seq<DocumentRef>, k: u32)
    requires
        s.len() > 0,
    ensures
        spec_class(s, k) == if spec_rel(s.last()) == k {
            spec_class(s.drop_last(), k).push(s.last())
        } else {
            spec_class(s.drop_last(), k)
        },
    decreases s.len(),
{
    if s.len() == 1 {
        assert(s.drop_first() =~= Seq::<DocumentRef>::empty());
        assert(s.drop_last() =~= Seq::<DocumentRef>::empty());
        assert(s.last() == s[0]);
        assert(spec_class(Seq::<DocumentRef>::empty(), k) =~= Seq::<DocumentRef>::empty());
        if spec_rel(s[0]) == k {
            assert(spec_class(s, k) =~= spec_class(s.drop_last(), k).push(s.last()));
        } else {
            assert(spec_class(s, k) =~= spec_class(s.drop_last(), k));
        }
    } else {
        lemma_class_drop_last(s.drop_first(), k);
        assert(s.drop_first().drop_last() =~= s.drop_last().drop_first());
        assert(s.drop_first().last() == s.last());
        assert(s.drop_last()[0] == s[0]);
        assert(s.drop_last().len() == s.len() - 1);
        if spec_rel(s[0]) == k {
            if spec_rel(s.last()) == k {
                assert(spec_class(s, k) =~= spec_class(s.drop_last(), k).push(s.last()));
            } else {
                assert(spec_class(s, k) =~= spec_class(s.drop_last(), k));
            }
        } else {
            if spec_rel(s.last()) == k {
                assert(spec_class(s, k) =~= spec_class(s.drop_last(), k).push(s.last()));
            } else {
                assert(spec_class(s, k) =~= spec_class(s.drop_last(), k));
            }
        }
    }
}

/// Law: the ranker's sort is stable — for every relevance value, the
/// candidates carrying it come out in exactly their retrieval order.
pub proof fn lemma_sort_desc_stable(s: Seq<DocumentRef>, k: u32)
    ensures
        spec_class(spec_sort_desc(s), k) == spec_class(s, k),
    decreases s.len(),
{
    if s.len() > 0 {
        lemma_sort_desc_stable(s.drop_last(), k);
        lemma_sort_desc_sorted(s.drop_last());
        lemma_insert_desc_class(spec_sort_desc(s.drop_last()), s.last(), k);
        lemma_class_drop_last(s, k);
    }
}

} // verus!
