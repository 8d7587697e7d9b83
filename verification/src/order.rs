//! Stable sorting by a key.
//!
//! [`stable_order`] computes in which order items come when they are sorted by their keys,
//! with equal keys left in the order in which they stood. [`arrange`] puts items into such an
//! order.

use vstd::prelude::*;

verus! {

/// A key by which items are sorted. What it holds decides where it comes.
pub trait SortKey: View + Sized {
    /// Whether a key that holds `left` may come before one that holds `right` in ascending order.
    spec fn at_most(left: Self::V, right: Self::V) -> bool;

    /// Any two keys can be compared.
    proof fn lemma_total(left: Self::V, right: Self::V)
        ensures
            Self::at_most(left, right) || Self::at_most(right, left),
    ;

    /// The comparison is transitive.
    proof fn lemma_transitive(low: Self::V, middle: Self::V, high: Self::V)
        requires
            Self::at_most(low, middle),
            Self::at_most(middle, high),
        ensures
            Self::at_most(low, high),
    ;

    /// Whether this key may come before `other` in ascending order.
    fn is_at_most(&self, other: &Self) -> (below: bool)
        ensures
            below == Self::at_most(self@, other@),
    ;
}

/// What the keys hold.
pub open spec fn key_views<K: SortKey>(keys: Seq<K>) -> Seq<K::V> {
    keys.map_values(|key: K| key@)
}

/// Whether the item at `first` comes before the item at `second` in a stable sort: its key is
/// smaller, or the keys are equal and it stood in front.
pub open spec fn comes_before<K: SortKey>(keys: Seq<K::V>, first: int, second: int) -> bool {
    &&& K::at_most(keys[first], keys[second])
    &&& K::at_most(keys[second], keys[first]) ==> first < second
}

/// Positions as whole numbers.
pub open spec fn positions(order: Seq<usize>) -> Seq<int> {
    order.map_values(|at: usize| at as int)
}

/// Whether `order` lists this position.
pub open spec fn lists(order: Seq<int>, at: int) -> bool {
    exists|place: int| 0 <= place < order.len() && #[trigger] order[place] == at
}

/// Whether `order` lists the positions from `low` up to `high`, each once, as a stable sort
/// by `keys` arranges them.
pub open spec fn is_stable_run<K: SortKey>(
    keys: Seq<K::V>,
    order: Seq<int>,
    low: int,
    high: int,
) -> bool {
    &&& order.len() == high - low
    &&& forall|i: int| 0 <= i < order.len() ==> low <= #[trigger] order[i] < high
    &&& forall|at: int| low <= at < high ==> #[trigger] lists(order, at)
    &&& forall|i: int, j: int|
        0 <= i < j < order.len() ==> comes_before::<K>(keys, #[trigger] order[i], #[trigger] order[j])
}

/// Whether `order` lists every position once, as a stable sort by `keys` arranges them.
pub open spec fn is_stable_order<K: SortKey>(keys: Seq<K::V>, order: Seq<int>) -> bool {
    is_stable_run::<K>(keys, order, 0, keys.len() as int)
}

/// The order in which a stable sort by `keys` puts the positions.
pub open spec fn sorting_order<K: SortKey>(keys: Seq<K::V>) -> Seq<int> {
    choose|order: Seq<int>| is_stable_order::<K>(keys, order)
}

/// The items at the positions that `order` lists.
pub open spec fn arranged<T>(items: Seq<T>, order: Seq<int>) -> Seq<T> {
    order.map_values(|at: int| items[at])
}

proof fn lemma_before_is_transitive<K: SortKey>(keys: Seq<K::V>, a: int, b: int, c: int)
    requires
        comes_before::<K>(keys, a, b),
        comes_before::<K>(keys, b, c),
    ensures
        comes_before::<K>(keys, a, c),
{
    K::lemma_transitive(keys[a], keys[b], keys[c]);
    if K::at_most(keys[c], keys[a]) {
        K::lemma_transitive(keys[b], keys[c], keys[a]);
        K::lemma_transitive(keys[c], keys[a], keys[b]);
    }
}

/// A position comes at one place of a stable order only.
pub proof fn lemma_stable_order_has_no_duplicates<K: SortKey>(keys: Seq<K::V>, order: Seq<int>)
    requires
        is_stable_order::<K>(keys, order),
    ensures
        order.no_duplicates(),
{
    assert forall|i: int, j: int|
        0 <= i < order.len() && 0 <= j < order.len() && i != j implies order[i] != order[j] by {
        let (first, second) = if i < j { (i, j) } else { (j, i) };
        assert(comes_before::<K>(keys, order[first], order[second]));
        if order[i] == order[j] {
            K::lemma_total(keys[order[i]], keys[order[i]]);
        }
    }
}

/// There is a stable order for any keys.
pub proof fn lemma_stable_order_exists<K: SortKey>(keys: Seq<K::V>)
    ensures
        is_stable_order::<K>(keys, sorting_order::<K>(keys)),
{
    let order = lemma_insertion_sort::<K>(keys);
    assert(is_stable_order::<K>(keys, order));
}

proof fn lemma_insertion_sort<K: SortKey>(keys: Seq<K::V>) -> (order: Seq<int>)
    ensures
        is_stable_order::<K>(keys, order),
    decreases keys.len(),
{
    if keys.len() == 0 {
        Seq::<int>::empty()
    } else {
        let last = keys.len() - 1;
        let front = keys.drop_last();
        let earlier = lemma_insertion_sort::<K>(front);
        let above = |place: int|
            place >= earlier.len() || 0 <= place && !K::at_most(keys[earlier[place]], keys[last]);
        assert(above(earlier.len() as int));
        let place = lemma_least(above, earlier.len() as int);
        let order = earlier.insert(place, last);
        assert forall|i: int, j: int| 0 <= i < j < order.len() implies comes_before::<K>(
            keys,
            #[trigger] order[i],
            #[trigger] order[j],
        ) by {
            let a = if i < place { i } else { i - 1 };
            let b = if j < place { j } else { j - 1 };
            if i != place && j != place {
                assert(comes_before::<K>(front, earlier[a], earlier[b]));
            } else if j == place {
                assert(!above(i));
            } else {
                assert(above(place));
                K::lemma_total(keys[earlier[place]], keys[last]);
                if b > place {
                    assert(comes_before::<K>(front, earlier[place], earlier[b]));
                    K::lemma_transitive(keys[last], keys[earlier[place]], keys[earlier[b]]);
                    if K::at_most(keys[earlier[b]], keys[last]) {
                        K::lemma_transitive(keys[earlier[place]], keys[earlier[b]], keys[last]);
                    }
                }
            }
        }
        assert forall|at: int| 0 <= at < keys.len() implies #[trigger] lists(order, at) by {
            if at == last {
                assert(order[place] == last);
            } else {
                assert(lists(earlier, at));
                let k = choose|k: int| 0 <= k < earlier.len() && #[trigger] earlier[k] == at;
                if k < place {
                    assert(order[k] == at);
                } else {
                    assert(order[k + 1] == at);
                }
            }
        }
        order
    }
}

/// There is one stable order.
pub proof fn lemma_stable_order_is_unique<K: SortKey>(
    keys: Seq<K::V>,
    first: Seq<int>,
    second: Seq<int>,
)
    requires
        is_stable_order::<K>(keys, first),
        is_stable_order::<K>(keys, second),
    ensures
        first == second,
{
    if first != second {
        let differs = |at: int| 0 <= at < first.len() && first[at] != second[at];
        assert(exists|at: int| #[trigger] differs(at)) by {
            if !(exists|at: int| #[trigger] differs(at)) {
                assert forall|at: int| 0 <= at < first.len() implies first[at] == second[at] by {
                    assert(!differs(at));
                }
                assert(first =~= second);
            }
        }
        let start = choose|at: int| #[trigger] differs(at);
        let at = lemma_least(differs, start);
        assert forall|i: int| 0 <= i < at implies first[i] == second[i] by {
            assert(!differs(i));
        }
        lemma_least_unplaced::<K>(keys, first, second, at);
        lemma_least_unplaced::<K>(keys, second, first, at);
    }
}

proof fn lemma_least(holds: spec_fn(int) -> bool, start: int) -> (least: int)
    requires
        0 <= start,
        holds(start),
    ensures
        0 <= least <= start,
        holds(least),
        forall|at: int| 0 <= at < least ==> !#[trigger] holds(at),
    decreases start,
{
    if exists|at: int| 0 <= at < start && #[trigger] holds(at) {
        let at = choose|at: int| 0 <= at < start && #[trigger] holds(at);
        lemma_least(holds, at)
    } else {
        start
    }
}

proof fn lemma_least_unplaced<K: SortKey>(
    keys: Seq<K::V>,
    first: Seq<int>,
    second: Seq<int>,
    at: int,
)
    requires
        is_stable_order::<K>(keys, first),
        is_stable_order::<K>(keys, second),
        0 <= at < first.len(),
        first[at] != second[at],
        forall|i: int| 0 <= i < at ==> first[i] == second[i],
    ensures
        comes_before::<K>(keys, first[at], second[at]),
        !comes_before::<K>(keys, second[at], first[at]),
{
    lemma_stable_order_has_no_duplicates::<K>(keys, first);
    lemma_stable_order_has_no_duplicates::<K>(keys, second);
    assert(lists(first, second[at]));
    let place = choose|i: int| 0 <= i < first.len() && #[trigger] first[i] == second[at];
    if place < at {
        assert(second[place] == second[at]);
    }
    assert(comes_before::<K>(keys, first[at], first[place]));
}

/// Merges two sorted runs of neighbouring positions into one.
fn merge<K: SortKey>(
    keys: &[K],
    left: &[usize],
    right: &[usize],
    low: usize,
    middle: usize,
    high: usize,
) -> (run: Vec<usize>)
    requires
        low <= middle <= high <= keys.len(),
        is_stable_run::<K>(key_views(keys@), positions(left@), low as int, middle as int),
        is_stable_run::<K>(key_views(keys@), positions(right@), middle as int, high as int),
    ensures
        is_stable_run::<K>(key_views(keys@), positions(run@), low as int, high as int),
{
    let ghost l = positions(left@);
    let ghost r = positions(right@);
    let mut run: Vec<usize> = Vec::new();
    let mut i: usize = 0;
    let mut j: usize = 0;
    while i < left.len() || j < right.len()
        invariant
            low <= middle <= high <= keys.len(),
            l == positions(left@),
            r == positions(right@),
            is_stable_run::<K>(key_views(keys@), l, low as int, middle as int),
            is_stable_run::<K>(key_views(keys@), r, middle as int, high as int),
            i <= left.len(),
            j <= right.len(),
            run.len() == i + j,
            forall|a: int| 0 <= a < run.len() ==> low <= #[trigger] positions(run@)[a] < high,
            forall|a: int, b: int|
                0 <= a < b < run.len() ==> comes_before::<K>(
                    key_views(keys@),
                    #[trigger] positions(run@)[a],
                    #[trigger] positions(run@)[b],
                ),
            forall|a: int, x: int|
                0 <= a < run.len() && i <= x < left.len() ==> comes_before::<K>(
                    key_views(keys@),
                    #[trigger] positions(run@)[a],
                    #[trigger] l[x],
                ),
            forall|a: int, y: int|
                0 <= a < run.len() && j <= y < right.len() ==> comes_before::<K>(
                    key_views(keys@),
                    #[trigger] positions(run@)[a],
                    #[trigger] r[y],
                ),
            forall|x: int| 0 <= x < i ==> lists(positions(run@), #[trigger] l[x]),
            forall|y: int| 0 <= y < j ==> lists(positions(run@), #[trigger] r[y]),
        decreases left.len() - i + right.len() - j,
    {
        proof {
            if i < left.len() {
                assert(l[i as int] == left[i as int]);
            }
            if j < right.len() {
                assert(r[j as int] == right[j as int]);
            }
        }
        let from_left = if i == left.len() {
            false
        } else if j == right.len() {
            true
        } else {
            assert(key_views(keys@)[l[i as int]] == keys@[l[i as int]]@);
            assert(key_views(keys@)[r[j as int]] == keys@[r[j as int]]@);
            keys[left[i]].is_at_most(&keys[right[j]])
        };
        let ghost before = positions(run@);
        let next: usize = if from_left { left[i] } else { right[j] };
        proof {
            if from_left {
                assert forall|y: int| j <= y < right.len() implies comes_before::<K>(
                    key_views(keys@),
                    next as int,
                    #[trigger] r[y],
                ) by {
                    assert(comes_before::<K>(key_views(keys@), l[i as int], r[j as int]));
                    if y > j {
                        lemma_before_is_transitive::<K>(key_views(keys@), next as int, r[j as int], r[y]);
                    }
                }
            } else {
                assert forall|x: int| i <= x < left.len() implies comes_before::<K>(
                    key_views(keys@),
                    next as int,
                    #[trigger] l[x],
                ) by {
                    K::lemma_total(key_views(keys@)[l[i as int]], key_views(keys@)[r[j as int]]);
                    assert(comes_before::<K>(key_views(keys@), r[j as int], l[i as int]));
                    if x > i {
                        lemma_before_is_transitive::<K>(key_views(keys@), next as int, l[i as int], l[x]);
                    }
                }
            }
        }
        run.push(next);
        proof {
            assert(positions(run@) =~= before.push(next as int));
            assert(positions(run@)[before.len() as int] == next);
            assert forall|at: int| lists(before, at) implies lists(positions(run@), at) by {
                let place = choose|a: int| 0 <= a < before.len() && #[trigger] before[a] == at;
                assert(positions(run@)[place] == at);
            }
        }
        if from_left {
            i = i + 1;
        } else {
            j = j + 1;
        }
    }
    proof {
        assert forall|at: int| low <= at < high implies #[trigger] lists(positions(run@), at) by {
            if at < middle {
                assert(lists(l, at));
                let x = choose|x: int| 0 <= x < l.len() && #[trigger] l[x] == at;
                assert(lists(positions(run@), l[x]));
            } else {
                assert(lists(r, at));
                let y = choose|y: int| 0 <= y < r.len() && #[trigger] r[y] == at;
                assert(lists(positions(run@), r[y]));
            }
        }
    }
    run
}

/// Sorts the positions from `low` up to `high`.
fn sort_run<K: SortKey>(keys: &[K], low: usize, high: usize) -> (run: Vec<usize>)
    requires
        low <= high <= keys.len(),
    ensures
        is_stable_run::<K>(key_views(keys@), positions(run@), low as int, high as int),
    decreases high - low,
{
    let mut run: Vec<usize> = Vec::new();
    if high - low == 0 {
        run
    } else if high - low == 1 {
        run.push(low);
        assert(positions(run@)[0] == low);
        run
    } else {
        let middle: usize = low + (high - low) / 2;
        let left = sort_run(keys, low, middle);
        let right = sort_run(keys, middle, high);
        merge(keys, left.as_slice(), right.as_slice(), low, middle, high)
    }
}

/// The order in which a stable sort by `keys` puts the positions.
pub fn stable_order<K: SortKey>(keys: &[K]) -> (order: Vec<usize>)
    ensures
        is_stable_order::<K>(key_views(keys@), positions(order@)),
        positions(order@) == sorting_order::<K>(key_views(keys@)),
{
    let order = sort_run(keys, 0, keys.len());
    proof {
        lemma_stable_order_exists::<K>(key_views(keys@));
        lemma_stable_order_is_unique::<K>(key_views(keys@), positions(order@), sorting_order::<K>(key_views(keys@)));
    }
    order
}

/// The items in the order that lists their positions.
pub fn arrange<T>(items: Vec<T>, order: &[usize]) -> (result: Vec<T>)
    requires
        positions(order@).no_duplicates(),
        forall|i: int| 0 <= i < order.len() ==> #[trigger] positions(order@)[i] < items.len(),
    ensures
        result@ == arranged(items@, positions(order@)),
{
    let ghost all = items@;
    let ghost places = positions(order@);
    let mut slots: Vec<Option<T>> = Vec::new();
    for item in it: items
        invariant
            it.seq() == all,
            slots.len() == it.index(),
            forall|i: int| 0 <= i < slots.len() ==> slots[i] == Some(all[i]),
    {
        slots.push(Some(item));
    }
    let mut result: Vec<T> = Vec::new();
    for i in 0..order.len()
        invariant
            places == positions(order@),
            places.no_duplicates(),
            forall|j: int| 0 <= j < places.len() ==> #[trigger] places[j] < all.len(),
            slots.len() == all.len(),
            forall|j: int|
                i <= j < places.len() ==> slots[#[trigger] places[j]] == Some(all[places[j]]),
            result@ == arranged(all, places.take(i as int)),
    {
        assert(places[i as int] == order[i as int]);
        let mut slot: Option<T> = None;
        std::mem::swap(&mut slot, &mut slots[order[i]]);
        if let Some(item) = slot {
            result.push(item);
        }
        assert(arranged(all, places.take(i + 1)) =~= arranged(all, places.take(i as int)).push(
            all[places[i as int]],
        ));
    }
    assert(places.take(order.len() as int) =~= places);
    result
}

} // verus!
