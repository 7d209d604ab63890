//! Sorting, by value and by key.
use vstd::prelude::*;
use vstd::relations::sorted_by;

verus! {

/// The numbers of `s` in ascending order.
pub open spec fn ascending(s: Seq<u32>) -> Seq<u32> {
    s.sort_by(|a: u32, b: u32| a <= b)
}

/// Whether every number of `s` is at most the next.
pub open spec fn is_ascending(s: Seq<u32>) -> bool {
    forall|i: int, j: int| 0 <= i <= j < s.len() ==> s[i] <= s[j]
}

/// The numbers in ascending order are in ascending order, and the same numbers as before.
pub proof fn lemma_ascending(s: Seq<u32>)
    ensures
        is_ascending(ascending(s)),
        ascending(s).to_multiset() == s.to_multiset(),
{
    let leq = |a: u32, b: u32| a <= b;
    s.lemma_sort_by_ensures(leq);
    assert forall|i: int, j: int| 0 <= i <= j < ascending(s).len() implies ascending(s)[i]
        <= ascending(s)[j] by {
        if i < j {
            assert(leq(ascending(s)[i], ascending(s)[j]));
        }
    }
}

/// The numbers of `v` in ascending order.
pub fn sort_numbers(v: &Vec<u32>) -> (r: Vec<u32>)
    ensures
        r@ == ascending(v@),
{
    let mut out: Vec<u32> = Vec::new();
    let mut i: usize = 0;
    assert(out@ =~= v@.take(0));
    while i < v.len()
        invariant
            i <= v@.len(),
            out@.len() == i,
            is_ascending(out@),
            out@.to_multiset() == v@.take(i as int).to_multiset(),
        decreases v@.len() - i,
    {
        let x = v[i];
        let mut at: usize = out.len();
        while at > 0 && out[at - 1] > x
            invariant
                at <= out@.len(),
                forall|k: int| at <= k < out@.len() ==> out@[k] > x,
            decreases at,
        {
            at = at - 1;
        }
        let ghost before = out@;
        out.insert(at, x);
        assert(v@.take(i + 1) =~= v@.take(i as int).push(x));
        proof {
            vstd::seq_lib::to_multiset_insert(before, at as int, x);
            vstd::seq_lib::to_multiset_build(v@.take(i as int), x);
        }
        i = i + 1;
    }
    assert(v@.take(i as int) =~= v@);
    proof {
        let leq = |a: u32, b: u32| a <= b;
        v@.lemma_sort_by_ensures(leq);
        assert(sorted_by(out@, leq));
        vstd::seq_lib::lemma_sorted_unique(out@, ascending(v@), leq);
    }
    out
}

/// Whether `order` lists all positions of `keys` by ascending key, equal keys from front to back.
pub open spec fn is_key_order(keys: Seq<u64>, order: Seq<usize>) -> bool {
    &&& order.len() == keys.len()
    &&& forall|i: int| 0 <= i < order.len() ==> #[trigger] order[i] < keys.len()
    &&& forall|p: int| 0 <= p < keys.len() ==> #[trigger] order.contains(p as usize)
    &&& forall|i: int, j: int|
        0 <= i < j < order.len() ==> keys[#[trigger] order[i] as int]
            < keys[#[trigger] order[j] as int] || (keys[order[i] as int] == keys[order[j] as int]
            && order[i] < order[j])
}

/// There is only one such order.
pub proof fn lemma_key_order_is_unique(keys: Seq<u64>, a: Seq<usize>, b: Seq<usize>)
    requires
        is_key_order(keys, a),
        is_key_order(keys, b),
    ensures
        a == b,
{
    assert forall|i: int| 0 <= i < a.len() implies a[i] == b[i] by {
        lemma_key_orders_agree(keys, a, b, i);
    }
    assert(a =~= b);
}

proof fn lemma_key_orders_agree(keys: Seq<u64>, a: Seq<usize>, b: Seq<usize>, i: int)
    requires
        is_key_order(keys, a),
        is_key_order(keys, b),
        0 <= i < a.len(),
    ensures
        a[i] == b[i],
    decreases i,
{
    assert forall|k: int| 0 <= k < i implies a[k] == b[k] by {
        lemma_key_orders_agree(keys, a, b, k);
    }
    assert(b.contains(a[i] as int as usize));
    assert(a.contains(b[i] as int as usize));
    let j = choose|j: int| 0 <= j < b.len() && b[j] == a[i];
    let l = choose|l: int| 0 <= l < a.len() && a[l] == b[i];
    if j < i {
        assert(a[j] == b[j]);
    }
    if l < i {
        assert(a[l] == b[l]);
    }
}

/// Whether an order holds a position.
pub open spec fn holds_place(order: Seq<usize>, p: int) -> bool {
    exists|k: int| 0 <= k < order.len() && (#[trigger] order[k]) as int == p
}

/// An order by key holds each position exactly once, and the keys ascend along it.
pub proof fn lemma_key_order(keys: Seq<u64>, order: Seq<usize>)
    requires
        is_key_order(keys, order),
    ensures
        order.len() == keys.len(),
        forall|i: int, j: int|
            0 <= i < j < order.len() ==> order[i] != order[j] && keys[order[i] as int]
                <= keys[order[j] as int],
        forall|p: int|
            0 <= p < keys.len() ==> #[trigger] holds_place(order, p),
{
    let n = keys.len() as int;
    let places = order.map_values(|p: usize| p as int);
    assert forall|i: int, j: int| 0 <= i < j < order.len() implies order[i] != order[j]
        && keys[order[i] as int] <= keys[order[j] as int] by {}
    assert(places.no_duplicates()) by {
        assert forall|i: int, j: int|
            0 <= i < places.len() && 0 <= j < places.len() && i != j implies places[i]
            != places[j] by {
            if i < j {
                assert(order[i] != order[j]);
            } else {
                assert(order[j] != order[i]);
            }
        }
    }
    places.unique_seq_to_set();
    vstd::set_lib::lemma_int_range(0, n);
    vstd::seq_lib::seq_to_set_is_finite(places);
    assert(places.to_set().subset_of(vstd::set_lib::set_int_range(0, n))) by {
        assert forall|p: int| places.to_set().contains(p) implies 0 <= p < n by {
            let k = choose|k: int| 0 <= k < places.len() && places[k] == p;
            assert(order[k] < keys.len());
        }
    }
    vstd::set_lib::lemma_subset_equality(places.to_set(), vstd::set_lib::set_int_range(0, n));
    assert forall|p: int| 0 <= p < keys.len() implies #[trigger] holds_place(order, p) by {
        assert(vstd::set_lib::set_int_range(0, n).contains(p));
        assert(places.to_set().contains(p));
        let k = choose|k: int| 0 <= k < places.len() && places[k] == p;
        assert(order[k] as int == p);
    }
}

/// The positions of `keys` by ascending key; equal keys stay in order.
pub fn key_order(keys: &Vec<u64>) -> (order: Vec<usize>)
    ensures
        is_key_order(keys@, order@),
{
    let mut order: Vec<usize> = Vec::new();
    let mut i: usize = 0;
    while i < keys.len()
        invariant
            i <= keys@.len(),
            order@.len() == i,
            forall|k: int| 0 <= k < order@.len() ==> #[trigger] order@[k] < i,
            forall|a: int, b: int|
                0 <= a < b < order@.len() ==> keys@[#[trigger] order@[a] as int]
                    < keys@[#[trigger] order@[b] as int] || (keys@[order@[a] as int]
                    == keys@[order@[b] as int] && order@[a] < order@[b]),
            forall|p: int| 0 <= p < i ==> #[trigger] order@.contains(p as usize),
        decreases keys@.len() - i,
    {
        let mut at: usize = order.len();
        while at > 0 && keys[order[at - 1]] > keys[i]
            invariant
                i < keys@.len(),
                at <= order@.len(),
                forall|k: int| 0 <= k < order@.len() ==> #[trigger] order@[k] < i,
                forall|k: int|
                    at <= k < order@.len() ==> keys@[#[trigger] order@[k] as int]
                        > keys@[i as int],
            decreases at,
        {
            at = at - 1;
        }
        let ghost before = order@;
        order.insert(at, i);
        assert forall|k: int| 0 <= k < order@.len() implies #[trigger] order@[k] < i + 1 by {
            if k < at {
                assert(order@[k] == before[k]);
            } else if k > at {
                assert(order@[k] == before[k - 1]);
            }
        }
        assert forall|a: int, b: int| 0 <= a < b < order@.len() implies keys@[#[trigger] order@[
        a] as int] < keys@[#[trigger] order@[b] as int] || (keys@[order@[a] as int]
            == keys@[order@[b] as int] && order@[a] < order@[b]) by {
            let oa = if a < at {
                a
            } else {
                a - 1
            };
            let ob = if b < at {
                b
            } else {
                b - 1
            };
            if a != at {
                assert(order@[a] == before[oa]);
            }
            if b != at {
                assert(order@[b] == before[ob]);
            }
            if a != at && b != at {
                assert(before[oa] < i && before[ob] < i);
            } else if b == at {
                if a < at - 1 {
                    assert(before[a] < i && before[at - 1] < i);
                }
            }
        }
        assert forall|p: int| 0 <= p < i + 1 implies #[trigger] order@.contains(p as usize) by {
            if p == i {
                assert(order@[at as int] == i);
            } else {
                assert(before.contains(p as usize));
                let k = choose|k: int| 0 <= k < before.len() && before[k] == p as usize;
                if k < at {
                    assert(order@[k] == p as usize);
                } else {
                    assert(order@[k + 1] == p as usize);
                }
            }
        }
        i = i + 1;
    }
    order
}

} // verus!
