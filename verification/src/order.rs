//! Sorting that keeps the order of items of equal rank.

use vstd::prelude::*;

verus! {

/// Items that are listed in a fixed order of ranks.
pub trait Ranked: Sized {
    /// Whether `self` may stand before `other` in a list.
    spec fn rank_le(self, other: Self) -> bool;

    /// Of any two items, one may stand before the other.
    proof fn rank_total(a: Self, b: Self)
        ensures
            a.rank_le(b) || b.rank_le(a),
    ;

    proof fn rank_transitive(a: Self, b: Self, c: Self)
        requires
            a.rank_le(b),
            b.rank_le(c),
        ensures
            a.rank_le(c),
    ;

    fn is_rank_le(&self, other: &Self) -> (yes: bool)
        ensures
            yes == self.rank_le(*other),
    ;
}

pub open spec fn in_rank_order<T: Ranked>(items: Seq<T>) -> bool {
    forall|i: int, j: int|
        0 <= i < j < items.len() ==> (#[trigger] items[i]).rank_le(#[trigger] items[j])
}

pub open spec fn same_rank<T: Ranked>(a: T, b: T) -> bool {
    a.rank_le(b) && b.rank_le(a)
}

/// The items that rank with `item`, in order.
pub open spec fn peers_of<T: Ranked>(items: Seq<T>, item: T) -> Seq<T> {
    items.filter(|other: T| same_rank(item, other))
}

/// `sorted` holds the items of `items` in the order of their ranks; those of equal rank stand
/// in the order that they had.
pub open spec fn is_stable_sort_of<T: Ranked>(sorted: Seq<T>, items: Seq<T>) -> bool {
    &&& in_rank_order(sorted)
    &&& sorted.to_multiset() == items.to_multiset()
    &&& forall|item: T| #[trigger] peers_of(sorted, item) == peers_of(items, item)
}

proof fn lemma_insert_in_order<T: Ranked>(sorted: Seq<T>, at: int, item: T)
    requires
        in_rank_order(sorted),
        0 <= at <= sorted.len(),
        at > 0 ==> sorted[at - 1].rank_le(item),
        forall|k: int| at <= k < sorted.len() ==> !(#[trigger] sorted[k]).rank_le(item),
    ensures
        in_rank_order(sorted.insert(at, item)),
        sorted.insert(at, item).to_multiset() == sorted.to_multiset().insert(item),
        forall|other: T| #[trigger]
            peers_of(sorted.insert(at, item), other) == peers_of(sorted, other)
                + if same_rank(other, item) {
                seq![item]
            } else {
                Seq::empty()
            },
{
    let after = sorted.insert(at, item);
    sorted.insert_ensures(at, item);
    assert forall|i: int, j: int| 0 <= i < j < after.len() implies (#[trigger] after[i]).rank_le(
        #[trigger] after[j],
    ) by {
        if i < at {
            T::rank_total(sorted[i], sorted[i]);
            if i < at - 1 {
                assert(sorted[i].rank_le(sorted[at - 1]));
                T::rank_transitive(sorted[i], sorted[at - 1], item);
            }
            assert(sorted[i].rank_le(item));
            if j < at {
                assert(sorted[i].rank_le(sorted[j]));
            } else if j > at {
                assert(after[j] == sorted[j - 1]);
                assert(sorted[i].rank_le(sorted[j - 1]));
            }
        } else if i == at {
            assert(after[j] == sorted[j - 1]);
            T::rank_total(item, sorted[j - 1]);
        } else {
            assert(after[i] == sorted[i - 1]);
            assert(after[j] == sorted[j - 1]);
            assert(sorted[i - 1].rank_le(sorted[j - 1]));
        }
    }
    vstd::seq_lib::to_multiset_insert(sorted, at, item);
    assert forall|other: T| #[trigger]
        peers_of(after, other) == peers_of(sorted, other) + if same_rank(other, item) {
            seq![item]
        } else {
            Seq::empty()
        } by {
        let pred = |candidate: T| same_rank(other, candidate);
        let head = sorted.subrange(0, at);
        let tail = sorted.subrange(at, sorted.len() as int);
        assert(sorted =~= head + tail);
        Seq::filter_distributes_over_add(head, tail, pred);
        Seq::filter_distributes_over_add(head.push(item), tail, pred);
        head.lemma_filter_push(item, pred);
        if same_rank(other, item) {
            assert forall|k: int| 0 <= k < tail.len() implies !pred(#[trigger] tail[k]) by {
                assert(tail[k] == sorted[at + k]);
                if pred(tail[k]) {
                    T::rank_transitive(tail[k], other, item);
                }
            }
            tail.lemma_all_neg_filter_empty(pred);
            assert(tail.filter(pred) =~= Seq::empty());
            assert(head.filter(pred).push(item) =~= head.filter(pred) + seq![item]);
        }
        assert(peers_of(after, other) =~= peers_of(sorted, other) + if same_rank(other, item) {
            seq![item]
        } else {
            Seq::empty()
        });
    }
}

/// Sorts items by rank.
pub fn stable_sort<T: Ranked>(items: Vec<T>) -> (sorted: Vec<T>)
    ensures
        is_stable_sort_of(sorted@, items@),
{
    let ghost all = items@;
    let mut sorted: Vec<T> = Vec::new();
    let mut rest = items;
    let ghost mut taken: int = 0;
    proof {
        assert(all.take(0) =~= Seq::empty());
        assert(all.skip(0) =~= all);
        reveal(Seq::filter);
    }
    while rest.len() > 0
        invariant
            0 <= taken <= all.len(),
            rest@ == all.skip(taken),
            is_stable_sort_of(sorted@, all.take(taken)),
        decreases rest.len(),
    {
        let ghost before = sorted@;
        let item = rest.remove(0);
        let mut at: usize = sorted.len();
        while at > 0 && !sorted[at - 1].is_rank_le(&item)
            invariant
                at <= sorted.len(),
                forall|k: int| at <= k < sorted.len() ==> !(#[trigger] sorted@[k]).rank_le(item),
            decreases at,
        {
            at = at - 1;
        }
        proof {
            lemma_insert_in_order(before, at as int, item);
            assert(all.take(taken + 1) =~= all.take(taken).push(item));
            vstd::seq_lib::to_multiset_build(all.take(taken), item);
            assert forall|other: T| #[trigger]
                peers_of(before.insert(at as int, item), other) == peers_of(
                    all.take(taken + 1),
                    other,
                ) by {
                assert(peers_of(before, other) == peers_of(all.take(taken), other));
                all.take(taken).lemma_filter_push(
                    item,
                    |candidate: T| same_rank(other, candidate),
                );
                assert(peers_of(before.insert(at as int, item), other) =~= peers_of(
                    all.take(taken + 1),
                    other,
                ));
            }
            assert(rest@ =~= all.skip(taken + 1));
            taken = taken + 1;
        }
        sorted.insert(at, item);
    }
    assert(all.take(taken) =~= all);
    sorted
}

} // verus!
