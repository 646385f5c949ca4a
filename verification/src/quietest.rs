//! Choosing the voice to steal.

use crate::number::{SINGLE_SIGN, Single};
use vstd::prelude::*;

verus! {

/// Level `i` is the lowest in the total order, and the first such.
pub open spec fn is_quietest(levels: Seq<Single>, i: int) -> bool {
    &&& 0 <= i < levels.len()
    &&& forall|j: int| 0 <= j < levels.len() ==> levels[i].total_order() <= (#[trigger] levels[j]).total_order()
    &&& forall|j: int| 0 <= j < i ==> levels[i].total_order() < (#[trigger] levels[j]).total_order()
}

/// The first of the lowest levels.
pub open spec fn quietest(levels: Seq<Single>) -> int {
    choose|i: int| is_quietest(levels, i)
}

/// Only one level is the first of the lowest.
pub proof fn quietest_is_unique(levels: Seq<Single>, a: int, b: int)
    requires
        is_quietest(levels, a),
        is_quietest(levels, b),
    ensures
        a == b,
{
    assert(levels[a].total_order() <= levels[b].total_order());
    assert(levels[b].total_order() <= levels[a].total_order());
}

/// Some level is the lowest, if there are any.
pub proof fn quietest_exists(levels: Seq<Single>)
    requires
        levels.len() > 0,
    ensures
        is_quietest(levels, quietest(levels)),
{
    let i = lemma_quietest_of(levels, levels.len() as int);
    assert(is_quietest(levels, i));
}

proof fn lemma_quietest_of(levels: Seq<Single>, n: int) -> (r: int)
    requires
        0 < n <= levels.len(),
    ensures
        0 <= r < n,
        forall|j: int| 0 <= j < n ==> levels[r].total_order() <= (#[trigger] levels[j]).total_order(),
        forall|j: int| 0 <= j < r ==> levels[r].total_order() < (#[trigger] levels[j]).total_order(),
    decreases n,
{
    if n == 1 {
        0
    } else {
        let r = lemma_quietest_of(levels, n - 1);
        if levels[n - 1].total_order() < levels[r].total_order() {
            n - 1
        } else {
            r
        }
    }
}

/// The items without the quietest one, whose place the last one takes.
pub open spec fn without_quietest<T>(items: Seq<T>, levels: Seq<Single>) -> Seq<T> {
    items.update(quietest(levels), items.last()).drop_last()
}

/// What is left after a theft are items from before, at most one from another
/// place, and none of them twice.
pub proof fn theft_keeps_the_others<T>(items: Seq<T>, levels: Seq<Single>)
    requires
        levels.len() == items.len(),
        items.len() > 0,
    ensures
        without_quietest(items, levels).len() == items.len() - 1,
        forall|i: int|
            0 <= i < items.len() - 1 ==> #[trigger] without_quietest(items, levels)[i] == items[if i == quietest(
                levels,
            ) {
                items.len() - 1
            } else {
                i
            }],
{
    quietest_exists(levels);
}

/// The first of the lowest of the first `n` levels.
pub fn find_quietest(levels: &[Single], n: usize) -> (best: usize)
    requires
        0 < n <= levels@.len(),
    ensures
        is_quietest(levels@.take(n as int), best as int),
        best == quietest(levels@.take(n as int)),
{
    let ghost all = levels@.take(n as int);
    let mut best: usize = 0;
    let mut least: u64 = levels[0].rank();
    let mut i: usize = 1;
    while i < n
        invariant
            1 <= i <= n <= levels@.len(),
            all == levels@.take(n as int),
            best < i,
            least == all[best as int].total_order() + SINGLE_SIGN,
            forall|j: int| 0 <= j < i ==> all[best as int].total_order() <= (#[trigger] all[j]).total_order(),
            forall|j: int| 0 <= j < best ==> all[best as int].total_order() < (#[trigger] all[j]).total_order(),
        decreases n - i,
    {
        let level: u64 = levels[i].rank();
        assert(all[i as int] == levels@[i as int]);
        if level < least {
            best = i;
            least = level;
        }
        i += 1;
    }
    proof {
        assert(is_quietest(all, best as int));
        quietest_is_unique(all, best as int, quietest(all));
    }
    best
}

} // verus!
