//! Stable insertion sort, as a specification: what sorting a sequence with a
//! three-way comparison gives, and the facts the wire list and connector
//! tables rely on (it permutes, it orders neighbours, and with a total order
//! it orders everything).

use vstd::prelude::*;
use crate::text::Order;

verus! {

/// Where `x` goes when inserted into `t[..p]` from the back: past every
/// element it is `Less` than.
pub open spec fn insert_pos<A>(t: Seq<A>, x: A, ord: spec_fn(A, A) -> Order, p: nat) -> nat
    decreases p,
{
    if p > 0 && ord(x, t[p - 1]) == Order::Less {
        insert_pos(t, x, ord, (p - 1) as nat)
    } else {
        p
    }
}

/// Stable insertion sort of `s` by `ord`.
pub open spec fn isort<A>(s: Seq<A>, ord: spec_fn(A, A) -> Order) -> Seq<A>
    decreases s.len(),
{
    if s.len() == 0 {
        s
    } else {
        let t = isort(s.drop_last(), ord);
        t.insert(insert_pos(t, s.last(), ord, t.len()) as int, s.last())
    }
}

/// `ord(a, b) == Less` implies `ord(b, a) == Greater`.
pub open spec fn antisymmetric<A>(ord: spec_fn(A, A) -> Order) -> bool {
    forall|a: A, b: A| #[trigger] ord(a, b) == Order::Less ==> ord(b, a) == Order::Greater
}

/// No element is `Less` than its left neighbour.
pub open spec fn locally_sorted<A>(s: Seq<A>, ord: spec_fn(A, A) -> Order) -> bool {
    forall|k: int| 0 <= k < s.len() - 1 ==> #[trigger] ord(s[k + 1], s[k]) != Order::Less
}

/// No element is `Less` than any element to its left.
pub open spec fn sorted<A>(s: Seq<A>, ord: spec_fn(A, A) -> Order) -> bool {
    forall|i: int, j: int|
        #![trigger s[i], s[j]]
        0 <= i < j < s.len() ==> ord(s[j], s[i]) != Order::Less
}

pub proof fn lemma_insert_pos<A>(t: Seq<A>, x: A, ord: spec_fn(A, A) -> Order, p: nat)
    requires
        p <= t.len(),
    ensures
        insert_pos(t, x, ord, p) <= p,
        insert_pos(t, x, ord, p) == 0 || ord(x, t[insert_pos(t, x, ord, p) - 1]) != Order::Less,
        insert_pos(t, x, ord, p) < p ==> ord(x, t[insert_pos(t, x, ord, p) as int]) == Order::Less,
    decreases p,
{
    if p > 0 && ord(x, t[p - 1]) == Order::Less {
        lemma_insert_pos(t, x, ord, (p - 1) as nat);
    }
}

/// Sorting permutes: the result holds the same items, as often.
pub proof fn lemma_isort_permutes<A>(s: Seq<A>, ord: spec_fn(A, A) -> Order)
    ensures
        isort(s, ord).to_multiset() == s.to_multiset(),
        isort(s, ord).len() == s.len(),
    decreases s.len(),
{
    broadcast use vstd::seq_lib::group_to_multiset_ensures;

    if s.len() > 0 {
        let p = s.drop_last();
        lemma_isort_permutes(p, ord);
        let t = isort(p, ord);
        let x = s.last();
        let k = insert_pos(t, x, ord, t.len());
        lemma_insert_pos(t, x, ord, t.len());
        let r = t.insert(k as int, x);
        assert(r.remove(k as int) =~= t);
        assert(r[k as int] == x);
        assert(r.to_multiset().remove(x) == t.to_multiset());
        assert(r.to_multiset().count(x) > 0) by {
            assert(r.contains(x));
        }
        assert(r.to_multiset() =~= t.to_multiset().insert(x));
        assert(s =~= p.push(x));
        assert(s.to_multiset() =~= p.to_multiset().insert(x));
    }
}

/// With an antisymmetric comparison, sorting orders neighbours.
pub proof fn lemma_isort_locally_sorted<A>(s: Seq<A>, ord: spec_fn(A, A) -> Order)
    requires
        antisymmetric(ord),
    ensures
        locally_sorted(isort(s, ord), ord),
    decreases s.len(),
{
    if s.len() > 0 {
        let p = s.drop_last();
        lemma_isort_locally_sorted(p, ord);
        lemma_isort_permutes(p, ord);
        let t = isort(p, ord);
        let x = s.last();
        let k = insert_pos(t, x, ord, t.len());
        lemma_insert_pos(t, x, ord, t.len());
        let r = t.insert(k as int, x);
        assert forall|q: int| 0 <= q < r.len() - 1 implies #[trigger] ord(r[q + 1], r[q])
            != Order::Less by {
            if q + 1 < k {
                assert(r[q + 1] == t[q + 1]);
                assert(r[q] == t[q]);
            } else if q + 1 == k {
                assert(r[q + 1] == x);
                assert(r[q] == t[q]);
            } else if q == k {
                assert(r[q] == x);
                assert(r[q + 1] == t[q]);
                assert(ord(x, t[k as int]) == Order::Less);
            } else {
                assert(r[q] == t[q - 1]);
                assert(r[q + 1] == t[q]);
                assert(ord(t[(q - 1) + 1], t[q - 1]) != Order::Less);
            }
        }
    }
}

proof fn lemma_chain<A>(s: Seq<A>, ord: spec_fn(A, A) -> Order, i: int, m: int)
    requires
        0 <= i < m < s.len(),
        locally_sorted(s, ord),
        forall|a: A, b: A| #[trigger] ord(a, b) == Order::Greater ==> ord(b, a) == Order::Less,
        forall|a: A, b: A, c: A|
            #[trigger] ord(a, b) != Order::Greater && #[trigger] ord(b, c) != Order::Greater ==> ord(
                a,
                c,
            ) != Order::Greater,
    ensures
        ord(s[i], s[m]) != Order::Greater,
    decreases m - i,
{
    assert(ord(s[m - 1 + 1], s[m - 1]) != Order::Less);
    assert(ord(s[m], s[m - 1]) != Order::Less);
    assert(ord(s[m - 1], s[m]) != Order::Greater);
    if m - 1 > i {
        lemma_chain(s, ord, i, m - 1);
    }
}

/// A neighbour-ordered sequence is ordered, when "not `Greater`" is
/// transitive and `ord` is antisymmetric both ways.
pub proof fn lemma_locally_sorted_sorted<A>(s: Seq<A>, ord: spec_fn(A, A) -> Order)
    requires
        locally_sorted(s, ord),
        forall|a: A, b: A| #[trigger] ord(a, b) == Order::Greater ==> ord(b, a) == Order::Less,
        forall|a: A, b: A| #[trigger] ord(a, b) == Order::Less ==> ord(b, a) == Order::Greater,
        forall|a: A, b: A, c: A|
            #[trigger] ord(a, b) != Order::Greater && #[trigger] ord(b, c) != Order::Greater ==> ord(
                a,
                c,
            ) != Order::Greater,
    ensures
        sorted(s, ord),
{
    assert forall|i: int, j: int| 0 <= i < j < s.len() implies ord(s[j], s[i]) != Order::Less by {
        lemma_chain(s, ord, i, j);
    }
}

/// Sorting commutes with a map that keeps the comparison.
pub proof fn lemma_isort_map<A, B>(
    s: Seq<A>,
    f: spec_fn(A) -> B,
    ord_a: spec_fn(A, A) -> Order,
    ord_b: spec_fn(B, B) -> Order,
)
    requires
        forall|a1: A, a2: A| #[trigger] ord_a(a1, a2) == ord_b(f(a1), f(a2)),
    ensures
        isort(s, ord_a).map_values(f) == isort(s.map_values(f), ord_b),
    decreases s.len(),
{
    if s.len() > 0 {
        let p = s.drop_last();
        lemma_isort_map(p, f, ord_a, ord_b);
        lemma_isort_permutes(p, ord_a);
        let t = isort(p, ord_a);
        let tb = t.map_values(f);
        let x = s.last();
        assert(s.map_values(f).drop_last() =~= p.map_values(f));
        assert(s.map_values(f).last() == f(x));
        lemma_insert_pos_map(t, x, f, ord_a, ord_b, t.len());
        let k = insert_pos(t, x, ord_a, t.len());
        lemma_insert_pos(t, x, ord_a, t.len());
        assert(t.insert(k as int, x).map_values(f) =~= tb.insert(k as int, f(x)));
    }
}

proof fn lemma_insert_pos_map<A, B>(
    t: Seq<A>,
    x: A,
    f: spec_fn(A) -> B,
    ord_a: spec_fn(A, A) -> Order,
    ord_b: spec_fn(B, B) -> Order,
    p: nat,
)
    requires
        p <= t.len(),
        forall|a1: A, a2: A| #[trigger] ord_a(a1, a2) == ord_b(f(a1), f(a2)),
    ensures
        insert_pos(t, x, ord_a, p) == insert_pos(t.map_values(f), f(x), ord_b, p),
    decreases p,
{
    if p > 0 {
        assert(t.map_values(f)[p - 1] == f(t[p - 1]));
        assert(ord_a(x, t[p - 1]) == ord_b(f(x), f(t[p - 1])));
        lemma_insert_pos_map(t, x, f, ord_a, ord_b, (p - 1) as nat);
    }
}

} // verus!
