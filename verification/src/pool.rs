//! A station's resource pool: a min-heap of `(departure, id, arrival)`
//! triples, kept in `binary_heap_plus::BinaryHeap` behind trusted wrappers.
//!
//! The heap key is the whole triple under the lexicographic order on integer
//! tuples, so the station releases the user with the earliest departure
//! time, ties going to the lower user id: a deterministic rule, which keeps
//! replications reproducible.

use vstd::prelude::*;
use vstd::multiset::Multiset;

verus! {

broadcast use vstd::multiset::group_multiset_axioms;

/// A pool entry: departure time, user id, arrival time.
pub type PoolEntry = (u64, u64, u64);

#[verifier::external_type_specification]
#[verifier::external_body]
#[verifier::reject_recursive_types(T)]
#[verifier::reject_recursive_types(C)]
pub struct ExBinaryHeap<T, C>(binary_heap_plus::BinaryHeap<T, C>);

#[verifier::external_type_specification]
#[verifier::external_body]
pub struct ExMinComparator(binary_heap_plus::MinComparator);

/// The heap type every station owns.
pub type UserHeap = binary_heap_plus::BinaryHeap<PoolEntry, binary_heap_plus::MinComparator>;

/// What a heap holds, as a multiset of its entries.
pub uninterp spec fn pool_contents(h: UserHeap) -> Multiset<PoolEntry>;

/// Lexicographic order on pool entries, the order `Ord` gives integer triples.
pub open spec fn lex_le(a: PoolEntry, b: PoolEntry) -> bool {
    a.0 < b.0 || (a.0 == b.0 && (a.1 < b.1 || (a.1 == b.1 && a.2 <= b.2)))
}

/// `t` is the least entry of `m` under the lexicographic order.
pub open spec fn is_pool_min(m: Multiset<PoolEntry>, t: PoolEntry) -> bool {
    m.contains(t) && forall|x: PoolEntry| m.contains(x) ==> lex_le(t, x)
}

/// `r` carries the least entry of `before`, and `after` is `before` with
/// that one entry taken out.
pub open spec fn min_popped(
    before: Multiset<PoolEntry>,
    after: Multiset<PoolEntry>,
    r: Option<PoolEntry>,
) -> bool {
    r matches Some(t) && is_pool_min(before, t) && after == before.remove(t)
}

/// `r` carries the least entry of `m`.
pub open spec fn min_peeked(m: Multiset<PoolEntry>, r: Option<PoolEntry>) -> bool {
    r matches Some(t) && is_pool_min(m, t)
}

/// The least entry of a non-empty multiset, as a value.
pub open spec fn pool_min_entry(m: Multiset<PoolEntry>) -> PoolEntry {
    choose|t: PoolEntry| is_pool_min(m, t)
}

/// The least entry of a multiset is one and the same wherever it is found.
pub proof fn lemma_pool_min_unique(m: Multiset<PoolEntry>, a: PoolEntry, b: PoolEntry)
    requires
        is_pool_min(m, a),
        is_pool_min(m, b),
    ensures
        a == b,
{
    assert(lex_le(a, b) && lex_le(b, a));
}

/// A non-empty multiset of pool entries has a least entry.
pub proof fn lemma_pool_min_exists(m: Multiset<PoolEntry>)
    requires
        m.len() > 0,
    ensures
        exists|t: PoolEntry| is_pool_min(m, t),
    decreases m.len(),
{
    let v = m.choose();
    assert(m.contains(v));
    assert(Multiset::singleton(v).subset_of(m)) by {
        assert(forall|x: PoolEntry| Multiset::singleton(v).count(x) <= m.count(x));
    }
    let rest = m.remove(v);
    assert(rest.len() == m.len() - 1);
    if rest.len() == 0 {
        assert forall|x: PoolEntry| m.contains(x) implies lex_le(v, x) by {
            if x != v {
                assert(rest.count(x) == m.count(x));
                assert(rest.contains(x));
                assert(rest.len() > 0) by {
                    lemma_contains_len(rest, x);
                }
            }
        }
        assert(is_pool_min(m, v));
    } else {
        lemma_pool_min_exists(rest);
        let w = choose|t: PoolEntry| is_pool_min(rest, t);
        let best = if lex_le(v, w) {
            v
        } else {
            w
        };
        assert(m.contains(best)) by {
            assert(rest.count(w) <= m.count(w));
        }
        assert forall|x: PoolEntry| m.contains(x) implies lex_le(best, x) by {
            if x == v {
            } else {
                assert(rest.count(x) == m.count(x));
                assert(rest.contains(x));
                assert(lex_le(w, x));
            }
        }
        assert(is_pool_min(m, best));
    }
}

/// An element a multiset contains makes its length positive.
pub proof fn lemma_contains_len(m: Multiset<PoolEntry>, x: PoolEntry)
    requires
        m.contains(x),
    ensures
        m.len() > 0,
{
    assert(Multiset::singleton(x).subset_of(m)) by {
        assert(forall|y: PoolEntry| Multiset::singleton(x).count(y) <= m.count(y));
    }
    assert(m.sub(Multiset::singleton(x)).len() == m.len() - 1);
}

/// Relies on `BinaryHeap::with_capacity_min`: a freshly built heap is empty.
#[verifier::external_body]
pub fn heap_new(capacity: usize) -> (h: UserHeap)
    ensures
        pool_contents(h) == Multiset::<PoolEntry>::empty(),
{
    binary_heap_plus::BinaryHeap::with_capacity_min(capacity)
}

/// Relies on `BinaryHeap::len`: the number of entries held.
#[verifier::external_body]
pub fn heap_len(h: &UserHeap) -> (n: usize)
    ensures
        n == pool_contents(*h).len(),
{
    h.len()
}

/// Relies on `BinaryHeap::push`: the entry joins the heap's contents and
/// nothing else changes.
#[verifier::external_body]
pub fn heap_push(h: &mut UserHeap, t: PoolEntry)
    ensures
        pool_contents(*final(h)) == pool_contents(*old(h)).insert(t),
{
    h.push(t)
}

/// Relies on `BinaryHeap::pop` with `MinComparator`: the least entry under
/// `Ord` leaves the heap; an empty heap yields `None` and stays empty.
#[verifier::external_body]
pub fn heap_pop(h: &mut UserHeap) -> (r: Option<PoolEntry>)
    ensures
        pool_contents(*old(h)).len() == 0 ==> r is None && pool_contents(*final(h))
            == pool_contents(*old(h)),
        pool_contents(*old(h)).len() > 0 ==> min_popped(
            pool_contents(*old(h)),
            pool_contents(*final(h)),
            r,
        ),
{
    h.pop()
}

/// Relies on `BinaryHeap::peek` with `MinComparator`: a view of the least
/// entry under `Ord`, with the heap untouched.
#[verifier::external_body]
pub fn heap_peek(h: &UserHeap) -> (r: Option<PoolEntry>)
    ensures
        pool_contents(*h).len() == 0 ==> r is None,
        pool_contents(*h).len() > 0 ==> min_peeked(pool_contents(*h), r),
{
    h.peek().copied()
}

} // verus!
