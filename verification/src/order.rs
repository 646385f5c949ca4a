//! Stable ordering by integer keys.

use vstd::prelude::*;

verus! {

/// Position `a` comes before position `b`: by key, and by position where the
/// keys are equal.
pub open spec fn precedes(keys: Seq<u64>, a: int, b: int) -> bool {
    keys[a] < keys[b] || (keys[a] == keys[b] && a < b)
}

/// `perm` lists positions below `n`, each one before all that follow it.
pub open spec fn ascending(keys: Seq<u64>, perm: Seq<usize>) -> bool {
    forall|i: int, j: int|
        0 <= i < j < perm.len() ==> precedes(keys, #[trigger] perm[i] as int, #[trigger] perm[j] as int)
}

/// `perm` is the order in which a stable sort by `keys` lists the positions.
pub open spec fn is_stable_order(keys: Seq<u64>, perm: Seq<usize>) -> bool {
    &&& perm.len() == keys.len()
    &&& forall|i: int| 0 <= i < perm.len() ==> (#[trigger] perm[i]) < keys.len()
    &&& ascending(keys, perm)
}

/// The stable order of `keys`.
pub open spec fn stable_order_of(keys: Seq<u64>) -> Seq<usize> {
    choose|perm: Seq<usize>| is_stable_order(keys, perm)
}

/// The items in the order that `perm` lists them.
pub open spec fn arrange<T>(items: Seq<T>, perm: Seq<usize>) -> Seq<T> {
    Seq::new(perm.len(), |i: int| items[perm[i] as int])
}

/// A stable order leaves no position out.
pub proof fn stable_order_is_complete(keys: Seq<u64>, perm: Seq<usize>)
    requires
        is_stable_order(keys, perm),
        keys.len() <= usize::MAX,
    ensures
        perm.no_duplicates(),
        forall|k: usize| k < keys.len() ==> #[trigger] perm.contains(k),
{
    assert(perm.no_duplicates()) by {
        assert forall|i: int, j: int| 0 <= i < perm.len() && 0 <= j < perm.len() && i != j implies perm[i]
            != perm[j] by {
            if i < j {
                assert(precedes(keys, perm[i] as int, perm[j] as int));
            } else {
                assert(precedes(keys, perm[j] as int, perm[i] as int));
            }
        }
    }
    perm.unique_seq_to_set();
    let n = keys.len() as int;
    let wide = perm.map_values(|k: usize| k as int);
    assert(wide.no_duplicates());
    wide.unique_seq_to_set();
    let all = vstd::set_lib::set_int_range(0, n);
    vstd::set_lib::lemma_int_range(0, n);
    assert(wide.to_set().subset_of(all)) by {
        assert forall|k: int| wide.to_set().contains(k) implies all.contains(k) by {
            let i = choose|i: int| 0 <= i < wide.len() && wide[i] == k;
            assert(perm[i] < keys.len());
        }
    }
    vstd::set_lib::lemma_subset_equality(wide.to_set(), all);
    assert forall|k: usize| k < keys.len() implies #[trigger] perm.contains(k) by {
        assert(all.contains(k as int));
        assert(wide.to_set().contains(k as int));
        let i = choose|i: int| 0 <= i < wide.len() && wide[i] == k as int;
        assert(perm[i] == k);
    }
}

/// There is only one stable order: the first `n` places of two of them agree.
proof fn stable_orders_agree(keys: Seq<u64>, p: Seq<usize>, q: Seq<usize>, n: nat)
    requires
        is_stable_order(keys, p),
        is_stable_order(keys, q),
        keys.len() <= usize::MAX,
        n <= keys.len(),
    ensures
        forall|i: int| 0 <= i < n ==> p[i] == q[i],
    decreases n,
{
    if n > 0 {
        let k = n - 1;
        stable_orders_agree(keys, p, q, k as nat);
        if p[k] != q[k] {
            stable_order_is_complete(keys, p);
            stable_order_is_complete(keys, q);
            assert(q.contains(p[k]));
            assert(p.contains(q[k]));
            let j = choose|j: int| 0 <= j < q.len() && q[j] == p[k];
            let m = choose|m: int| 0 <= m < p.len() && p[m] == q[k];
            if j < k {
                assert(p[j] == p[k]);
            }
            if m < k {
                assert(q[m] == q[k]);
            }
            assert(precedes(keys, q[k] as int, q[j] as int));
            assert(precedes(keys, p[k] as int, p[m] as int));
        }
    }
}

/// There is only one stable order of given keys.
pub proof fn stable_order_is_unique(keys: Seq<u64>, perm: Seq<usize>)
    requires
        is_stable_order(keys, perm),
        keys.len() <= usize::MAX,
    ensures
        perm == stable_order_of(keys),
{
    let other = stable_order_of(keys);
    assert(is_stable_order(keys, other));
    stable_orders_agree(keys, perm, other, keys.len());
    assert(perm =~= other);
}

/// Where in `perm` a later position with key `x` belongs, from place `i` on.
proof fn slot_from(keys: Seq<u64>, perm: Seq<usize>, x: u64, i: int) -> (c: int)
    requires
        0 <= i <= perm.len(),
        ascending(keys, perm),
        forall|j: int| 0 <= j < i ==> keys[#[trigger] perm[j] as int] <= x,
    ensures
        i <= c <= perm.len(),
        forall|j: int| 0 <= j < c ==> keys[#[trigger] perm[j] as int] <= x,
        forall|j: int| c <= j < perm.len() ==> x < keys[#[trigger] perm[j] as int],
    decreases perm.len() - i,
{
    if i == perm.len() {
        i
    } else if keys[perm[i] as int] <= x {
        slot_from(keys, perm, x, i + 1)
    } else {
        assert forall|j: int| i <= j < perm.len() implies x < keys[#[trigger] perm[j] as int] by {
            if i < j {
                assert(precedes(keys, perm[i] as int, perm[j] as int));
            }
        }
        i
    }
}

/// Any keys have a stable order.
pub proof fn stable_order_exists(keys: Seq<u64>)
    requires
        keys.len() <= usize::MAX,
    ensures
        is_stable_order(keys, stable_order_of(keys)),
    decreases keys.len(),
{
    if keys.len() == 0 {
        assert(is_stable_order(keys, Seq::<usize>::empty()));
    } else {
        let n = keys.len() - 1;
        let front = keys.drop_last();
        stable_order_exists(front);
        let perm = stable_order_of(front);
        assert(ascending(keys, perm)) by {
            assert forall|i: int, j: int| 0 <= i < j < perm.len() implies precedes(
                keys,
                #[trigger] perm[i] as int,
                #[trigger] perm[j] as int,
            ) by {
                assert(precedes(front, perm[i] as int, perm[j] as int));
            }
        }
        let c = slot_from(keys, perm, keys[n], 0);
        let full = perm.insert(c, n as usize);
        assert(is_stable_order(keys, full)) by {
            assert forall|i: int| 0 <= i < full.len() implies (#[trigger] full[i]) < keys.len() by {
                if i < c {
                    assert(full[i] == perm[i]);
                } else if i > c {
                    assert(full[i] == perm[i - 1]);
                }
            }
            assert forall|i: int, j: int| 0 <= i < j < full.len() implies precedes(
                keys,
                #[trigger] full[i] as int,
                #[trigger] full[j] as int,
            ) by {
                let a = if i < c { i } else { i - 1 };
                let b = if j < c { j } else { j - 1 };
                if i != c {
                    assert(full[i] == perm[a]);
                }
                if j != c {
                    assert(full[j] == perm[b]);
                }
                if i != c && j != c {
                    assert(precedes(keys, perm[a] as int, perm[b] as int));
                }
            }
        }
    }
}

/// Keys that already ascend are left where they are.
pub proof fn sorted_keys_stay(keys: Seq<u64>)
    requires
        keys.len() <= usize::MAX,
        forall|i: int, j: int| 0 <= i < j < keys.len() ==> keys[i] <= keys[j],
    ensures
        stable_order_of(keys) == Seq::new(keys.len(), |i: int| i as usize),
{
    let id = Seq::new(keys.len(), |i: int| i as usize);
    assert(is_stable_order(keys, id));
    stable_order_is_unique(keys, id);
}

/// Merges two ascending lists of positions.
fn merge(keys: &[u64], a: &Vec<usize>, b: &Vec<usize>) -> (out: Vec<usize>)
    requires
        ascending(keys@, a@),
        ascending(keys@, b@),
        a@.len() + b@.len() <= usize::MAX,
        forall|i: int| 0 <= i < a@.len() ==> (#[trigger] a@[i]) < keys@.len(),
        forall|i: int| 0 <= i < b@.len() ==> (#[trigger] b@[i]) < keys@.len(),
        forall|i: int, j: int| 0 <= i < a@.len() && 0 <= j < b@.len() ==> (#[trigger] a@[i]) < (#[trigger] b@[j]),
    ensures
        ascending(keys@, out@),
        out@.len() == a@.len() + b@.len(),
        forall|i: int| 0 <= i < out@.len() ==> a@.contains(#[trigger] out@[i]) || b@.contains(out@[i]),
{
    let mut out: Vec<usize> = Vec::with_capacity(a.len() + b.len());
    let mut i: usize = 0;
    let mut j: usize = 0;
    while i < a.len() || j < b.len()
        invariant
            i <= a@.len(),
            j <= b@.len(),
            out@.len() == i + j,
            ascending(keys@, a@),
            ascending(keys@, b@),
            ascending(keys@, out@),
            forall|i: int| 0 <= i < a@.len() ==> (#[trigger] a@[i]) < keys@.len(),
            forall|i: int| 0 <= i < b@.len() ==> (#[trigger] b@[i]) < keys@.len(),
            forall|i: int, j: int| 0 <= i < a@.len() && 0 <= j < b@.len() ==> (#[trigger] a@[i]) < (#[trigger] b@[j]),
            forall|k: int, m: int|
                0 <= k < out@.len() && i <= m < a@.len() ==> precedes(keys@, #[trigger] out@[k] as int, #[trigger] a@[m] as int),
            forall|k: int, m: int|
                0 <= k < out@.len() && j <= m < b@.len() ==> precedes(keys@, #[trigger] out@[k] as int, #[trigger] b@[m] as int),
            forall|k: int| 0 <= k < out@.len() ==> a@.contains(#[trigger] out@[k]) || b@.contains(out@[k]),
        decreases a@.len() - i + b@.len() - j,
    {
        let take_left = j >= b.len() || (i < a.len() && keys[a[i]] <= keys[b[j]]);
        if take_left {
            out.push(a[i]);
            i += 1;
        } else {
            out.push(b[j]);
            j += 1;
        }
    }
    out
}

/// The positions `lo..hi` in stable order.
fn sort_span(keys: &[u64], lo: usize, hi: usize) -> (out: Vec<usize>)
    requires
        lo <= hi <= keys@.len(),
    ensures
        ascending(keys@, out@),
        out@.len() == hi - lo,
        forall|i: int| 0 <= i < out@.len() ==> lo <= (#[trigger] out@[i]) < hi,
    decreases hi - lo,
{
    if hi - lo <= 1 {
        let mut out: Vec<usize> = Vec::new();
        if lo < hi {
            out.push(lo);
        }
        out
    } else {
        let mid: usize = lo + (hi - lo) / 2;
        let a = sort_span(keys, lo, mid);
        let b = sort_span(keys, mid, hi);
        merge(keys, &a, &b)
    }
}

/// The order in which a stable sort by `keys` lists the positions.
pub fn stable_order(keys: &[u64]) -> (out: Vec<usize>)
    ensures
        is_stable_order(keys@, out@),
        out@ == stable_order_of(keys@),
{
    let out = sort_span(keys, 0, keys.len());
    proof {
        stable_order_is_unique(keys@, out@);
    }
    out
}

/// Items listed by positions that leave none out and name none twice are the
/// same items, each as often as before.
pub proof fn arranging_keeps_items<T>(items: Seq<T>, perm: Seq<usize>)
    requires
        perm.len() == items.len(),
        perm.no_duplicates(),
        forall|k: usize| k < items.len() ==> #[trigger] perm.contains(k),
        forall|i: int| 0 <= i < perm.len() ==> (#[trigger] perm[i]) < items.len(),
        items.len() <= usize::MAX,
    ensures
        arrange(items, perm).to_multiset() == items.to_multiset(),
    decreases items.len(),
{
    if items.len() == 0 {
        assert(arrange(items, perm) =~= items);
    } else {
        let n = items.len() - 1;
        let last = n as usize;
        assert(perm.contains(last));
        let j = choose|j: int| 0 <= j < perm.len() && perm[j] == last;
        let fewer = items.drop_last();
        let rest = perm.remove(j);
        assert forall|i: int| 0 <= i < rest.len() implies (#[trigger] rest[i]) < fewer.len() by {
            let at = if i < j {
                i
            } else {
                i + 1
            };
            assert(rest[i] == perm[at]);
            assert(perm[at] != last);
        }
        assert(rest.no_duplicates());
        assert forall|k: usize| k < fewer.len() implies #[trigger] rest.contains(k) by {
            assert(perm.contains(k));
            let i = choose|i: int| 0 <= i < perm.len() && perm[i] == k;
            if i < j {
                assert(rest[i] == k);
            } else {
                assert(rest[i - 1] == k);
            }
        }
        arranging_keeps_items(fewer, rest);
        assert(arrange(items, perm) =~= arrange(fewer, rest).insert(j, items[n]));
        vstd::seq_lib::to_multiset_insert(arrange(fewer, rest), j, items[n]);
        assert(items =~= fewer.push(items[n]));
        vstd::seq_lib::to_multiset_build(fewer, items[n]);
    }
}

/// A stable sort keeps every item as often as it was given, and lists them by
/// key, items with one key in the order given.
pub proof fn stable_order_sorts<T>(items: Seq<T>, keys: Seq<u64>)
    requires
        keys.len() == items.len(),
        items.len() <= usize::MAX,
    ensures
        arrange(items, stable_order_of(keys)).len() == items.len(),
        arrange(items, stable_order_of(keys)).to_multiset() == items.to_multiset(),
        forall|i: int, j: int|
            #![trigger stable_order_of(keys)[i], stable_order_of(keys)[j]]
            0 <= i < j < items.len() ==> {
                let a = stable_order_of(keys)[i];
                let b = stable_order_of(keys)[j];
                keys[a as int] < keys[b as int] || keys[a as int] == keys[b as int] && a < b
            },
{
    let perm = stable_order_of(keys);
    stable_order_exists(keys);
    stable_order_is_complete(keys, perm);
    arranging_keeps_items(items, perm);
    assert forall|i: int, j: int|
        #![trigger perm[i], perm[j]]
        0 <= i < j < items.len() implies keys[perm[i] as int] < keys[perm[j] as int] || keys[perm[i] as int]
        == keys[perm[j] as int] && perm[i] < perm[j] by {
        assert(precedes(keys, perm[i] as int, perm[j] as int));
    }
}

} // verus!
