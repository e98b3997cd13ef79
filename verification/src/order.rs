//! Byte strings in order: comparison, and sorted lists without duplicates.
use vstd::prelude::*;
use crate::bytes::{copied, lemma_views_push, same, views};

verus! {

broadcast use lemma_views_push;

/// Whether `a` comes before `b`, comparing from byte `i` on.
pub open spec fn less_from(a: Seq<u8>, b: Seq<u8>, i: int) -> bool
    decreases b.len() - i,
{
    if i >= b.len() {
        false
    } else if i >= a.len() {
        true
    } else if a[i] != b[i] {
        a[i] < b[i]
    } else {
        less_from(a, b, i + 1)
    }
}

/// Whether `a` comes before `b` byte by byte; a proper prefix comes first.
pub open spec fn less(a: Seq<u8>, b: Seq<u8>) -> bool {
    less_from(a, b, 0)
}

/// `x` put into `list` at its place from position `i` on, unless it is there already.
pub open spec fn inserted_from(list: Seq<Seq<u8>>, x: Seq<u8>, i: int) -> Seq<Seq<u8>>
    decreases list.len() - i,
{
    if i >= list.len() {
        list.push(x)
    } else if list[i] == x {
        list
    } else if less(x, list[i]) {
        list.insert(i, x)
    } else {
        inserted_from(list, x, i + 1)
    }
}

/// The members of `list` in order, each once.
pub open spec fn sorted_set(list: Seq<Seq<u8>>) -> Seq<Seq<u8>>
    decreases list.len(),
{
    if list.len() == 0 {
        seq![]
    } else {
        inserted_from(sorted_set(list.drop_last()), list.last(), 0)
    }
}

pub open spec fn increasing(list: Seq<Seq<u8>>) -> bool {
    forall|i: int, j: int| 0 <= i < j < list.len() ==> less(#[trigger] list[i], #[trigger] list[j])
}

proof fn lemma_less_irreflexive(a: Seq<u8>, i: int)
    requires
        0 <= i,
    ensures
        !less_from(a, a, i),
    decreases a.len() - i,
{
    if i < a.len() {
        lemma_less_irreflexive(a, i + 1);
    }
}

proof fn lemma_less_transitive(a: Seq<u8>, b: Seq<u8>, c: Seq<u8>, i: int)
    requires
        0 <= i,
        less_from(a, b, i),
        less_from(b, c, i),
    ensures
        less_from(a, c, i),
    decreases c.len() - i,
{
    if i < a.len() && i < b.len() && i < c.len() && a[i] == b[i] && b[i] == c[i] {
        lemma_less_transitive(a, b, c, i + 1);
    }
}

proof fn lemma_less_total(a: Seq<u8>, b: Seq<u8>, i: int)
    requires
        0 <= i,
        i <= a.len(),
        i <= b.len(),
        a.subrange(0, i) == b.subrange(0, i),
        a != b,
    ensures
        less_from(a, b, i) || less_from(b, a, i),
    decreases b.len() - i,
{
    if i < a.len() && i < b.len() && a[i] == b[i] {
        assert(a.subrange(0, i + 1) =~= a.subrange(0, i).push(a[i]));
        assert(b.subrange(0, i + 1) =~= b.subrange(0, i).push(b[i]));
        lemma_less_total(a, b, i + 1);
    } else if i >= a.len() && i >= b.len() {
        assert(a.subrange(0, i) =~= a);
        assert(b.subrange(0, i) =~= b);
    }
}

/// The order is total and strict: of two different byte strings exactly one comes first.
pub proof fn order_is_strict_and_total(a: Seq<u8>, b: Seq<u8>)
    ensures
        !(less(a, b) && less(b, a)),
        a != b ==> less(a, b) || less(b, a),
        a == b ==> !less(a, b),
{
    lemma_less_irreflexive(a, 0);
    if less(a, b) && less(b, a) {
        lemma_less_transitive(a, b, a, 0);
    }
    if a != b {
        assert(a.subrange(0, 0) =~= b.subrange(0, 0));
        lemma_less_total(a, b, 0);
    }
}

/// The order is transitive.
pub proof fn order_is_transitive(a: Seq<u8>, b: Seq<u8>, c: Seq<u8>)
    requires
        less(a, b),
        less(b, c),
    ensures
        less(a, c),
{
    lemma_less_transitive(a, b, c, 0);
}

proof fn lemma_inserted(list: Seq<Seq<u8>>, x: Seq<u8>, i: int)
    requires
        increasing(list),
        0 <= i <= list.len(),
        forall|j: int| 0 <= j < i ==> less(#[trigger] list[j], x),
    ensures
        increasing(inserted_from(list, x, i)),
        forall|y: Seq<u8>|
            inserted_from(list, x, i).contains(y) <==> list.contains(y) || y == x,
    decreases list.len() - i,
{
    let out = inserted_from(list, x, i);
    if i >= list.len() {
        assert(out == list.push(x));
        assert forall|y: Seq<u8>| out.contains(y) <==> list.contains(y) || y == x by {
            if list.contains(y) {
                let k = choose|k: int| 0 <= k < list.len() && list[k] == y;
                assert(out[k] == y);
            }
            assert(out[list.len() as int] == x);
            if out.contains(y) && y != x {
                let k = choose|k: int| 0 <= k < out.len() && out[k] == y;
                assert(list[k] == y);
            }
        }
    } else if list[i] == x {
        assert forall|y: Seq<u8>| out.contains(y) <==> list.contains(y) || y == x by {
            assert(list[i] == x);
        }
    } else if less(x, list[i]) {
        assert(out == list.insert(i, x));
        assert forall|a: int, b: int| 0 <= a < b < out.len() implies less(
            #[trigger] out[a],
            #[trigger] out[b],
        ) by {
            if a < i && b == i {
                assert(out[a] == list[a]);
                assert(less(list[a], x));
            } else if a == i && b > i {
                assert(out[b] == list[b - 1]);
                if b - 1 > i {
                    assert(less(list[i], list[b - 1]));
                    lemma_less_transitive(x, list[i], list[b - 1], 0);
                }
            } else if a < i && b > i {
                assert(out[a] == list[a]);
                assert(out[b] == list[b - 1]);
            } else if a < i {
                assert(out[a] == list[a] && out[b] == list[b]);
            } else {
                assert(out[a] == list[a - 1] && out[b] == list[b - 1]);
            }
        }
        assert forall|y: Seq<u8>| out.contains(y) <==> list.contains(y) || y == x by {
            assert(out[i] == x);
            if list.contains(y) {
                let k = choose|k: int| 0 <= k < list.len() && list[k] == y;
                if k < i {
                    assert(out[k] == y);
                } else {
                    assert(out[k + 1] == y);
                }
            }
            if out.contains(y) && y != x {
                let k = choose|k: int| 0 <= k < out.len() && out[k] == y;
                if k < i {
                    assert(list[k] == y);
                } else {
                    assert(list[k - 1] == y);
                }
            }
        }
    } else {
        order_is_strict_and_total(x, list[i]);
        lemma_inserted(list, x, i + 1);
    }
}

/// A sorted set is strictly increasing and has exactly the members of the list it was made of.
pub proof fn sorted_set_is_ordered_and_complete(list: Seq<Seq<u8>>)
    ensures
        increasing(sorted_set(list)),
        forall|y: Seq<u8>| sorted_set(list).contains(y) <==> list.contains(y),
    decreases list.len(),
{
    if list.len() > 0 {
        let init = list.drop_last();
        let last = list.last();
        sorted_set_is_ordered_and_complete(init);
        lemma_inserted(sorted_set(init), last, 0);
        assert forall|y: Seq<u8>| sorted_set(list).contains(y) <==> list.contains(y) by {
            assert(list =~= init.push(last));
            if list.contains(y) {
                let k = choose|k: int| 0 <= k < list.len() && list[k] == y;
                if k < init.len() {
                    assert(init[k] == y);
                }
            }
            if init.contains(y) {
                let k = choose|k: int| 0 <= k < init.len() && init[k] == y;
                assert(list[k] == y);
            }
            assert(list[list.len() - 1] == last);
        }
    }
}

/// Whether `a` comes before `b`.
pub fn is_less(a: &[u8], b: &[u8]) -> (r: bool)
    ensures
        r == less(a@, b@),
{
    let mut i: usize = 0;
    while i < a.len() && i < b.len() && a[i] == b[i]
        invariant
            i <= a.len(),
            i <= b.len(),
            less(a@, b@) == less_from(a@, b@, i as int),
        decreases b.len() - i,
    {
        i = i + 1;
    }
    if i == b.len() {
        false
    } else if i == a.len() {
        true
    } else {
        a[i] < b[i]
    }
}

/// Puts `x` into a sorted list at its place, unless it is there already.
pub fn insert_sorted(list: &mut Vec<Vec<u8>>, x: Vec<u8>)
    ensures
        views(final(list)@) == inserted_from(views(old(list)@), x@, 0),
{
    let ghost all = views(list@);
    let mut i: usize = 0;
    while i < list.len()
        invariant
            i <= list.len(),
            all == views(list@),
            list@ == old(list)@,
            inserted_from(all, x@, 0) == inserted_from(all, x@, i as int),
        decreases list.len() - i,
    {
        proof {
            assert(all[i as int] == list@[i as int]@);
        }
        if same(list[i].as_slice(), x.as_slice()) {
            return;
        }
        if is_less(x.as_slice(), list[i].as_slice()) {
            list.insert(i, x);
            proof {
                assert(views(list@) =~= all.insert(i as int, x@));
            }
            return;
        }
        i = i + 1;
    }
    list.push(x);
}

/// The members of a list in order, each once.
pub fn sort_unique(list: &Vec<Vec<u8>>) -> (r: Vec<Vec<u8>>)
    ensures
        views(r@) == sorted_set(views(list@)),
{
    let mut out: Vec<Vec<u8>> = Vec::new();
    let mut i: usize = 0;
    proof {
        assert(views(list@).subrange(0, 0) =~= seq![]);
        assert(views(out@) =~= seq![]);
    }
    while i < list.len()
        invariant
            i <= list.len(),
            views(out@) == sorted_set(views(list@).subrange(0, i as int)),
        decreases list.len() - i,
    {
        proof {
            let next = views(list@).subrange(0, i + 1);
            assert(next.drop_last() =~= views(list@).subrange(0, i as int));
            assert(next.last() == list@[i as int]@);
        }
        insert_sorted(&mut out, copied(list[i].as_slice()));
        i = i + 1;
    }
    proof {
        assert(views(list@).subrange(0, i as int) =~= views(list@));
    }
    out
}

// --------------------------------------------------------------- keeping repetitions

/// Where a key goes among ordered keys: before the first that is greater.
pub open spec fn place_among(keys: Seq<Seq<u8>>, key: Seq<u8>, i: int) -> int
    decreases keys.len() - i,
{
    if i >= keys.len() {
        keys.len() as int
    } else if less(key, keys[i]) {
        i
    } else {
        place_among(keys, key, i + 1)
    }
}

/// The members of a list in order, repetitions included.
pub open spec fn sorted(list: Seq<Seq<u8>>) -> Seq<Seq<u8>>
    decreases list.len(),
{
    if list.len() == 0 {
        Seq::empty()
    } else {
        let rest = sorted(list.drop_last());
        rest.insert(place_among(rest, list.last(), 0), list.last())
    }
}

/// Whether no key is less than one before it.
pub open spec fn never_decreasing(list: Seq<Seq<u8>>) -> bool {
    forall|i: int, j: int| 0 <= i < j < list.len() ==> !less(#[trigger] list[j], #[trigger] list[i])
}

pub proof fn lemma_place_among(keys: Seq<Seq<u8>>, key: Seq<u8>, i: int)
    requires
        0 <= i <= keys.len(),
    ensures
        i <= place_among(keys, key, i) <= keys.len(),
        place_among(keys, key, i) < keys.len() ==> less(key, keys[place_among(keys, key, i)]),
        forall|j: int| i <= j < place_among(keys, key, i) ==> !less(key, #[trigger] keys[j]),
    decreases keys.len() - i,
{
    if i < keys.len() && !less(key, keys[i]) {
        lemma_place_among(keys, key, i + 1);
    }
}

/// A key put in its place leaves the keys in order.
pub proof fn lemma_placed_in_order(keys: Seq<Seq<u8>>, key: Seq<u8>)
    requires
        never_decreasing(keys),
    ensures
        never_decreasing(keys.insert(place_among(keys, key, 0), key)),
{
    let k = place_among(keys, key, 0);
    lemma_place_among(keys, key, 0);
    let result = keys.insert(k, key);
    assert forall|i: int, j: int| 0 <= i < j < result.len() implies !less(
        #[trigger] result[j],
        #[trigger] result[i],
    ) by {
        let old_i = if i < k { i } else { i - 1 };
        let old_j = if j < k { j } else { j - 1 };
        if j == k {
            assert(result[i] == keys[i]);
        } else if i == k {
            assert(result[j] == keys[j - 1]);
            if less(keys[j - 1], key) {
                order_is_transitive(keys[j - 1], key, keys[k]);
                if j - 1 > k {
                    assert(!less(keys[j - 1], keys[k]));
                } else {
                    order_is_strict_and_total(keys[k], keys[k]);
                }
            }
        } else {
            assert(result[i] == keys[old_i]);
            assert(result[j] == keys[old_j]);
        }
    }
}

/// Sorting puts a list in order, and neither adds nor loses a member.
pub proof fn sorting_orders_and_keeps(list: Seq<Seq<u8>>)
    ensures
        never_decreasing(sorted(list)),
        sorted(list).to_multiset() == list.to_multiset(),
    decreases list.len(),
{
    broadcast use vstd::seq_lib::group_to_multiset_ensures;

    if list.len() == 0 {
        assert(sorted(list) =~= list);
    } else {
        sorting_orders_and_keeps(list.drop_last());
        let rest = sorted(list.drop_last());
        lemma_place_among(rest, list.last(), 0);
        lemma_placed_in_order(rest, list.last());
        vstd::seq_lib::to_multiset_insert(rest, place_among(rest, list.last(), 0), list.last());
        assert(list =~= list.drop_last().push(list.last()));
        assert(sorted(list).to_multiset() =~= list.to_multiset());
    }
}

/// Puts a list in order, repetitions included.
pub fn sort_all(list: &Vec<Vec<u8>>) -> (r: Vec<Vec<u8>>)
    ensures
        views(r@) == sorted(views(list@)),
{
    let ghost all = views(list@);
    let mut out: Vec<Vec<u8>> = Vec::new();
    let mut i: usize = 0;
    proof {
        assert(views(out@) =~= sorted(all.subrange(0, 0)));
    }
    while i < list.len()
        invariant
            i <= list.len(),
            all == views(list@),
            all.len() == list@.len(),
            views(out@) == sorted(all.subrange(0, i as int)),
        decreases list.len() - i,
    {
        let ghost before = views(out@);
        let key = list[i].as_slice();
        let mut k: usize = 0;
        while k < out.len() && !is_less(key, out[k].as_slice())
            invariant
                k <= out.len(),
                before == views(out@),
                before.len() == out@.len(),
                place_among(before, key@, 0) == place_among(before, key@, k as int),
            decreases out.len() - k,
        {
            proof {
                assert(before[k as int] == out@[k as int]@);
            }
            k = k + 1;
        }
        proof {
            if k < out.len() {
                assert(before[k as int] == out@[k as int]@);
            }
            let taken = all.subrange(0, i + 1);
            assert(taken.drop_last() =~= all.subrange(0, i as int));
            assert(taken.last() == list@[i as int]@);
        }
        out.insert(k, copied(key));
        proof {
            assert(views(out@) =~= before.insert(k as int, key@));
        }
        i = i + 1;
    }
    proof {
        assert(all.subrange(0, i as int) =~= all);
    }
    out
}

} // verus!
