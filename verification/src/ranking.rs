//! Stable orderings of a list by integer keys.

use vstd::prelude::*;

verus! {

/// A sort key: compared component by component, smaller first.
pub type Key = (u64, u64, u64);

/// Whether key `a` comes strictly before key `b`.
pub open spec fn key_lt(a: Key, b: Key) -> bool {
    a.0 < b.0 || (a.0 == b.0 && (a.1 < b.1 || (a.1 == b.1 && a.2 < b.2)))
}

/// Whether the item at index `a` comes before the item at index `b`: by key, and
/// among equal keys by position.
pub open spec fn comes_before(keys: Seq<Key>, a: int, b: int) -> bool {
    key_lt(keys[a], keys[b]) || (keys[a] == keys[b] && a < b)
}

/// `order` lists the first `n` indices of `keys`, each once, in stable key order.
pub open spec fn is_stable_order(order: Seq<usize>, keys: Seq<Key>, n: int) -> bool {
    &&& order.len() == n
    &&& forall|i: int| 0 <= i < order.len() ==> #[trigger] order[i] < n
    &&& forall|i: int, j: int|
        0 <= i < j < order.len() ==> comes_before(keys, #[trigger] order[i] as int, #[trigger] order[j] as int)
}

fn lt(a: Key, b: Key) -> (r: bool)
    ensures
        r == key_lt(a, b),
{
    a.0 < b.0 || (a.0 == b.0 && (a.1 < b.1 || (a.1 == b.1 && a.2 < b.2)))
}

/// The indices of `keys` in stable key order.
pub fn stable_order(keys: &[Key]) -> (order: Vec<usize>)
    ensures
        is_stable_order(order@, keys@, keys@.len() as int),
{
    let mut order: Vec<usize> = Vec::new();
    let mut k: usize = 0;
    while k < keys.len()
        invariant
            k <= keys@.len(),
            is_stable_order(order@, keys@, k as int),
        decreases keys@.len() - k,
    {
        let mut pos: usize = 0;
        while pos < order.len() && !lt(keys[k], keys[order[pos]])
            invariant
                k < keys@.len(),
                pos <= order@.len(),
                is_stable_order(order@, keys@, k as int),
                forall|i: int| 0 <= i < pos ==> !key_lt(keys@[k as int], keys@[#[trigger] order@[i] as int]),
            decreases order@.len() - pos,
        {
            pos = pos + 1;
        }
        let ghost prev = order@;
        order.insert(pos, k);
        proof {
            assert forall|i: int, j: int| 0 <= i < j < order@.len() implies comes_before(
                keys@,
                #[trigger] order@[i] as int,
                #[trigger] order@[j] as int,
            ) by {
                let a = if i < pos { i } else { i - 1 };
                let b = if j < pos { j } else { j - 1 };
                if i == pos {
                    assert(order@[j] == prev[j - 1]);
                    assert(comes_before(keys@, prev[pos as int] as int, prev[j - 1] as int) || j - 1 == pos);
                } else if j == pos {
                    assert(order@[i] == prev[i]);
                } else {
                    assert(order@[i] == prev[a]);
                    assert(order@[j] == prev[b]);
                }
            }
            assert forall|i: int| 0 <= i < order@.len() implies #[trigger] order@[i] < k + 1 by {
                if i < pos {
                    assert(order@[i] == prev[i]);
                } else if i > pos {
                    assert(order@[i] == prev[i - 1]);
                }
            }
        }
        k = k + 1;
    }
    order
}

/// No index occurs twice in a stable order.
pub proof fn stable_order_distinct(order: Seq<usize>, keys: Seq<Key>, n: int)
    requires
        is_stable_order(order, keys, n),
    ensures
        order.no_duplicates(),
{
    assert forall|i: int, j: int| 0 <= i < order.len() && 0 <= j < order.len() && i != j implies order[i]
        != order[j] by {
        if i < j {
            assert(comes_before(keys, order[i] as int, order[j] as int));
        } else {
            assert(comes_before(keys, order[j] as int, order[i] as int));
        }
    }
}

/// Whether `s` never decreases.
pub open spec fn ascending(s: Seq<u64>) -> bool {
    forall|i: int, j: int| 0 <= i <= j < s.len() ==> s[i] <= s[j]
}

/// `v` in ascending order.
pub fn sort_u64(v: &[u64]) -> (r: Vec<u64>)
    ensures
        ascending(r@),
        r@.to_multiset() == v@.to_multiset(),
        r@.len() == v@.len(),
{
    let mut r: Vec<u64> = Vec::new();
    let mut k: usize = 0;
    proof {
        assert(v@.take(0) =~= Seq::<u64>::empty());
        assert(r@ =~= Seq::<u64>::empty());
    }
    while k < v.len()
        invariant
            k <= v@.len(),
            r@.len() == k,
            ascending(r@),
            r@.to_multiset() == v@.take(k as int).to_multiset(),
        decreases v@.len() - k,
    {
        let x: u64 = v[k];
        let mut pos: usize = 0;
        while pos < r.len() && r[pos] <= x
            invariant
                pos <= r@.len(),
                ascending(r@),
                forall|i: int| 0 <= i < pos ==> r@[i] <= x,
            decreases r@.len() - pos,
        {
            pos = pos + 1;
        }
        let ghost prev = r@;
        r.insert(pos, x);
        proof {
            assert forall|i: int, j: int| 0 <= i <= j < r@.len() implies r@[i] <= r@[j] by {
                let a = if i < pos { i } else { i - 1 };
                let b = if j < pos { j } else { j - 1 };
                if i != pos {
                    assert(r@[i] == prev[a]);
                }
                if j != pos {
                    assert(r@[j] == prev[b]);
                }
            }
            assert(r@.remove(pos as int) =~= prev);
            vstd::seq_lib::to_multiset_remove(r@, pos as int);
            r@.to_multiset_ensures();
            assert(r@[pos as int] == x);
            assert(r@.contains(x));
            assert(r@.to_multiset() =~= prev.to_multiset().insert(x));
            assert(v@.take(k as int + 1) =~= v@.take(k as int).push(x));
            v@.take(k as int).to_multiset_ensures();
        }
        k = k + 1;
    }
    assert(v@.take(k as int) =~= v@);
    r
}

} // verus!
