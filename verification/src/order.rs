//! Stable descending order by rank: what ranks higher comes first, and equals keep their places.

use vstd::prelude::*;

use crate::time::Timestamp;

verus! {

/// What an item is ordered by: a match score first, then the time of its last update.
#[derive(Debug, Clone, Copy)]
pub struct Rank {
    /// Match score; higher comes first.
    pub score: i64,
    /// Last update; later comes first.
    pub updated_at: Timestamp,
}

/// A rank as numbers: the score, then the seconds and nanoseconds of the last update.
pub type RankView = (int, int, int);

impl View for Rank {
    type V = RankView;

    open spec fn view(&self) -> RankView {
        (self.score as int, self.updated_at@.0, self.updated_at@.1)
    }
}

/// Whether rank `a` is higher than rank `b`.
pub open spec fn above(a: RankView, b: RankView) -> bool {
    ||| a.0 > b.0
    ||| a.0 == b.0 && a.1 > b.1
    ||| a.0 == b.0 && a.1 == b.1 && a.2 > b.2
}

/// Whether item `i` belongs before item `j`: it ranks higher, or equally and stands before it.
pub open spec fn precedes(ranks: Seq<RankView>, i: int, j: int) -> bool {
    above(ranks[i], ranks[j]) || (ranks[i] == ranks[j] && i < j)
}

/// Whether `order` lists every item once, each before all those that it precedes.
pub open spec fn is_stable_order(ranks: Seq<RankView>, order: Seq<int>) -> bool {
    &&& order.len() == ranks.len()
    &&& forall|k: int| 0 <= k < order.len() ==> 0 <= #[trigger] order[k] < ranks.len()
    &&& forall|i: int| 0 <= i < ranks.len() ==> #[trigger] order.contains(i)
    &&& forall|j: int, k: int|
        0 <= j < k < order.len() ==> precedes(ranks, #[trigger] order[j], #[trigger] order[k])
}

/// The one stable descending order of `ranks`.
pub open spec fn stable_order(ranks: Seq<RankView>) -> Seq<int> {
    choose|order: Seq<int>| is_stable_order(ranks, order)
}

/// The items of `items` in the stable descending order of their ranks.
pub open spec fn in_stable_order<T>(items: Seq<T>, ranks: Seq<RankView>) -> Seq<T> {
    Seq::new(items.len(), |k: int| items[stable_order(ranks)[k]])
}

/// There is at most one stable descending order.
pub proof fn stable_order_is_unique(ranks: Seq<RankView>, a: Seq<int>, b: Seq<int>)
    requires
        is_stable_order(ranks, a),
        is_stable_order(ranks, b),
    ensures
        a == b,
{
    lemma_orders_agree(ranks, a, b, ranks.len() as int);
    assert(a.take(ranks.len() as int) == a);
    assert(b.take(ranks.len() as int) == b);
}

proof fn lemma_orders_agree(ranks: Seq<RankView>, a: Seq<int>, b: Seq<int>, n: int)
    requires
        is_stable_order(ranks, a),
        is_stable_order(ranks, b),
        0 <= n <= ranks.len(),
    ensures
        a.take(n) == b.take(n),
    decreases n,
{
    if n > 0 {
        let k = n - 1;
        lemma_orders_agree(ranks, a, b, k);
        assert forall|j: int| 0 <= j < k implies a[j] == b[j] by {
            assert(a.take(k)[j] == b.take(k)[j]);
        }
        assert(b.contains(a[k]));
        assert(a.contains(b[k]));
        let m = choose|m: int| 0 <= m < b.len() && b[m] == a[k];
        let l = choose|l: int| 0 <= l < a.len() && a[l] == b[k];
        if a[k] != b[k] {
            if m < k {
                assert(precedes(ranks, a[m], a[k]));
            } else {
                assert(precedes(ranks, b[k], b[m]));
                if l < k {
                    assert(precedes(ranks, b[l], b[k]));
                } else {
                    assert(precedes(ranks, a[k], a[l]));
                }
            }
            assert(false);
        }
        assert(a.take(n) == a.take(k).push(a[k]));
        assert(b.take(n) == b.take(k).push(b[k]));
    }
}

/// There is a stable descending order.
pub proof fn stable_order_exists(ranks: Seq<RankView>)
    ensures
        is_stable_order(ranks, stable_order(ranks)),
{
    lemma_prefix_order_exists(ranks, ranks.len() as int);
    assert(ranks.take(ranks.len() as int) == ranks);
}

proof fn lemma_prefix_order_exists(ranks: Seq<RankView>, n: int)
    requires
        0 <= n <= ranks.len(),
    ensures
        is_stable_order(ranks.take(n), stable_order(ranks.take(n))),
    decreases n,
{
    if n == 0 {
        assert(is_stable_order(ranks.take(0), Seq::<int>::empty()));
    } else {
        lemma_prefix_order_exists(ranks, n - 1);
        let head = ranks.take(n - 1);
        let order = stable_order(head);
        let p = insertion_place(ranks, order, n - 1, order.len() as int);
        lemma_insertion_place(ranks, order, n - 1, order.len() as int);
        lemma_insert_keeps_order(ranks, order, n - 1, p);
    }
}

spec fn insertion_place(ranks: Seq<RankView>, order: Seq<int>, i: int, p: int) -> int
    decreases p,
{
    if p > 0 && above(ranks[i], ranks[order[p - 1]]) {
        insertion_place(ranks, order, i, p - 1)
    } else {
        p
    }
}

proof fn lemma_insertion_place(ranks: Seq<RankView>, order: Seq<int>, i: int, p: int)
    requires
        0 <= p <= order.len(),
    ensures
        0 <= insertion_place(ranks, order, i, p) <= p,
        insertion_place(ranks, order, i, p) > 0 ==> !above(
            ranks[i],
            ranks[order[insertion_place(ranks, order, i, p) - 1]],
        ),
        forall|k: int|
            insertion_place(ranks, order, i, p) <= k < p ==> above(
                ranks[i],
                ranks[#[trigger] order[k]],
            ),
    decreases p,
{
    if p > 0 && above(ranks[i], ranks[order[p - 1]]) {
        lemma_insertion_place(ranks, order, i, p - 1);
    }
}

/// The items of `items` that stand at the places of `order`.
pub open spec fn picked<T>(items: Seq<T>, order: Seq<int>) -> Seq<T> {
    Seq::new(order.len(), |k: int| items[order[k]])
}

/// Taking every item once loses none and adds none.
pub proof fn picking_each_once_rearranges<T>(items: Seq<T>, order: Seq<int>)
    requires
        order.len() == items.len(),
        order.no_duplicates(),
        forall|k: int| 0 <= k < order.len() ==> 0 <= #[trigger] order[k] < items.len(),
        forall|i: int| 0 <= i < items.len() ==> #[trigger] order.contains(i),
    ensures
        picked(items, order).to_multiset() == items.to_multiset(),
    decreases items.len(),
{
    let n = items.len() as int;
    if n == 0 {
        assert(picked(items, order) =~= items);
    } else {
        assert(order.contains(n - 1));
        let p = choose|p: int| 0 <= p < order.len() && order[p] == n - 1;
        let rest = items.drop_last();
        let shorter = order.remove(p);
        assert forall|k: int| 0 <= k < shorter.len() implies 0 <= #[trigger] shorter[k] < rest.len() by {
            if k < p {
                assert(shorter[k] == order[k]);
            } else {
                assert(shorter[k] == order[k + 1]);
            }
        }
        assert forall|i: int| 0 <= i < rest.len() implies #[trigger] shorter.contains(i) by {
            assert(order.contains(i));
            let k = choose|k: int| 0 <= k < order.len() && order[k] == i;
            if k < p {
                assert(shorter[k] == i);
            } else {
                assert(shorter[k - 1] == i);
            }
        }
        picking_each_once_rearranges(rest, shorter);
        assert(picked(items, order) =~= picked(rest, shorter).insert(p, items.last()));
        vstd::seq_lib::to_multiset_insert(picked(rest, shorter), p, items.last());
        vstd::seq_lib::to_multiset_build(rest, items.last());
        assert(items =~= rest.push(items.last()));
    }
}

fn ranks_above(a: &Rank, b: &Rank) -> (r: bool)
    ensures
        r == above(a@, b@),
{
    a.score > b.score || (a.score == b.score && b.updated_at.is_before(&a.updated_at))
}

/// The indices of `order` as integers.
pub open spec fn indices(order: Seq<usize>) -> Seq<int> {
    Seq::new(order.len(), |k: int| order[k] as int)
}

/// The ranks of `ranks` as numbers.
pub open spec fn rank_views(ranks: Seq<Rank>) -> Seq<RankView> {
    Seq::new(ranks.len(), |k: int| ranks[k]@)
}

/// The positions of `ranks`, higher ranks first and equal ranks in the order they stand.
pub fn rank_order(ranks: &Vec<Rank>) -> (r: Vec<usize>)
    ensures
        is_stable_order(rank_views(ranks@), indices(r@)),
        indices(r@) == stable_order(rank_views(ranks@)),
{
    let ghost views = rank_views(ranks@);
    let mut order: Vec<usize> = Vec::new();
    let mut i: usize = 0;
    while i < ranks.len()
        invariant
            i <= ranks@.len(),
            views == rank_views(ranks@),
            is_stable_order(views.take(i as int), indices(order@)),
        decreases ranks@.len() - i,
    {
        let ghost seen = views.take(i as int);
        let ghost before = indices(order@);
        let mut p: usize = order.len();
        proof {
            assert(order@.len() == i);
            assert forall|k: int| 0 <= k < order@.len() implies #[trigger] order@[k] < i by {
                assert(before[k] == order@[k] as int);
            }
        }
        while p > 0 && ranks_above(&ranks[i], &ranks[order[p - 1]])
            invariant
                p <= order@.len(),
                order@.len() == i,
                i < ranks@.len(),
                views == rank_views(ranks@),
                seen == views.take(i as int),
                before == indices(order@),
                forall|k: int| 0 <= k < order@.len() ==> #[trigger] order@[k] < i,
                forall|k: int|
                    p <= k < order@.len() ==> above(views[i as int], views[#[trigger] before[k]]),
            decreases p,
        {
            p = p - 1;
            proof {
                assert(before[p as int] == order@[p as int] as int);
                assert forall|k: int| p <= k < order@.len() implies above(
                    views[i as int],
                    views[#[trigger] before[k]],
                ) by {}
            }
        }
        proof {
            lemma_insert_keeps_order(views, before, i as int, p as int);
        }
        order.insert(p, i);
        proof {
            assert(indices(order@) == before.insert(p as int, i as int));
        }
        i = i + 1;
    }
    proof {
        assert(views.take(ranks@.len() as int) == views);
        stable_order_is_unique(views, indices(order@), stable_order(views));
    }
    order
}

proof fn lemma_insert_keeps_order(views: Seq<RankView>, order: Seq<int>, i: int, p: int)
    requires
        0 <= i < views.len(),
        is_stable_order(views.take(i), order),
        0 <= p <= order.len(),
        p > 0 ==> !above(views[i], views[order[p - 1]]),
        forall|k: int| p <= k < order.len() ==> above(views[i], views[#[trigger] order[k]]),
    ensures
        is_stable_order(views.take(i + 1), order.insert(p, i)),
{
    let seen = views.take(i);
    let next = views.take(i + 1);
    let grown = order.insert(p, i);
    assert forall|j: int| 0 <= j < next.len() implies #[trigger] grown.contains(j) by {
        if j == i {
            assert(grown[p] == i);
        } else {
            assert(order.contains(j));
            let k = choose|k: int| 0 <= k < order.len() && order[k] == j;
            if k < p {
                assert(grown[k] == j);
            } else {
                assert(grown[k + 1] == j);
            }
        }
    }
    assert forall|k: int| 0 <= k < grown.len() implies 0 <= #[trigger] grown[k] < next.len() by {
        if k < p {
            assert(grown[k] == order[k]);
        } else if k > p {
            assert(grown[k] == order[k - 1]);
        }
    }
    assert forall|j: int, k: int| 0 <= j < k < grown.len() implies precedes(
        next,
        #[trigger] grown[j],
        #[trigger] grown[k],
    ) by {
        let a = if j < p { j } else { j - 1 };
        let b = if k < p { k } else { k - 1 };
        if j != p && k != p {
            assert(grown[j] == order[a] && grown[k] == order[b]);
            assert(precedes(seen, order[a], order[b]));
        } else if k == p {
            assert(grown[j] == order[j]);
            if j < p - 1 {
                assert(precedes(seen, order[j], order[p - 1]));
            }
        } else {
            assert(grown[k] == order[k - 1]);
        }
    }
}

/// The items of `items`, rearranged so that item `order[k]` stands at `k`.
pub fn arranged<T>(items: Vec<T>, order: &Vec<usize>) -> (r: Vec<T>)
    requires
        order@.len() == items@.len(),
        forall|k: int| 0 <= k < order@.len() ==> #[trigger] order@[k] < items@.len(),
        forall|j: int, k: int| 0 <= j < k < order@.len() ==> order@[j] != order@[k],
    ensures
        r@ == Seq::new(items@.len(), |k: int| items@[order@[k] as int]),
{
    let ghost all = items@;
    let mut slots: Vec<Option<T>> = Vec::new();
    for item in it: items.into_iter()
        invariant
            it.seq() == all,
            slots@ == Seq::new(it.index() as nat, |k: int| Some(all[k])),
    {
        slots.push(Some(item));
    }
    let mut r: Vec<T> = Vec::new();
    let mut k: usize = 0;
    while k < order.len()
        invariant
            k <= order@.len(),
            order@.len() == all.len(),
            slots@.len() == all.len(),
            forall|k: int| 0 <= k < order@.len() ==> #[trigger] order@[k] < all.len(),
            forall|j: int, k: int| 0 <= j < k < order@.len() ==> order@[j] != order@[k],
            forall|j: int| k <= j < order@.len() ==> slots@[#[trigger] order@[j] as int] == Some(
                all[order@[j] as int],
            ),
            r@ == Seq::new(k as nat, |k: int| all[order@[k] as int]),
        decreases order@.len() - k,
    {
        let place = order[k];
        if let Some(item) = slots[place].take() {
            r.push(item);
        }
        k = k + 1;
    }
    r
}

/// What is kept of a sequence stands in its order: `places` lists the places of what is kept, each
/// once and the first one first.
pub proof fn what_is_kept_stands_in_order<T>(all: Seq<T>, keep: spec_fn(T) -> bool) -> (places: Seq<int>)
    ensures
        places.len() == all.filter(keep).len(),
        forall|k: int|
            0 <= k < places.len() ==> 0 <= #[trigger] places[k] < all.len() && all[places[k]] == all.filter(
                keep,
            )[k] && keep(all[places[k]]),
        forall|j: int, k: int| 0 <= j < k < places.len() ==> #[trigger] places[j] < #[trigger] places[k],
        forall|i: int| 0 <= i < all.len() && keep(#[trigger] all[i]) ==> places.contains(i),
    decreases all.len(),
{
    reveal(Seq::filter);
    if all.len() == 0 {
        Seq::empty()
    } else {
        let less = all.drop_last();
        let before = what_is_kept_stands_in_order(less, keep);
        let n = all.len() - 1;
        let kept = all.filter(keep);
        if keep(all.last()) {
            let places = before.push(n);
            assert forall|i: int| 0 <= i < all.len() && keep(#[trigger] all[i]) implies places.contains(i) by {
                if i < n {
                    assert(less[i] == all[i]);
                    let k = choose|k: int| 0 <= k < before.len() && before[k] == i;
                    assert(places[k] == i);
                } else {
                    assert(places[before.len() as int] == i);
                }
            }
            assert forall|k: int| 0 <= k < places.len() implies 0 <= #[trigger] places[k] < all.len()
                && all[places[k]] == kept[k] && keep(all[places[k]]) by {
                if k < before.len() {
                    assert(places[k] == before[k]);
                    assert(less[before[k]] == all[before[k]]);
                }
            }
            assert forall|j: int, k: int| 0 <= j < k < places.len() implies #[trigger] places[j]
                < #[trigger] places[k] by {
                assert(places[j] == before[j]);
                if k < before.len() {
                    assert(places[k] == before[k]);
                }
            }
            places
        } else {
            assert forall|i: int| 0 <= i < all.len() && keep(#[trigger] all[i]) implies before.contains(i) by {
                assert(less[i] == all[i]);
            }
            assert forall|k: int| 0 <= k < before.len() implies 0 <= #[trigger] before[k] < all.len()
                && all[before[k]] == kept[k] && keep(all[before[k]]) by {
                assert(less[before[k]] == all[before[k]]);
            }
            before
        }
    }
}

} // verus!
