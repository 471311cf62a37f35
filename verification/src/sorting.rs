//! Stable sorting by a rank.

use vstd::prelude::*;

verus! {

/// Items that stand before or after one another, or are tied.
pub trait Ranked: Sized {
    /// Whether `self` stands before `other`.
    spec fn precedes(self, other: Self) -> bool;

    /// Two items do not both stand before the other.
    proof fn precedence_is_asymmetric(left: Self, right: Self)
        ensures
            left.precedes(right) ==> !right.precedes(left),
    ;

    /// Where an item stands before another, a third one stands after the
    /// first or before the second.
    proof fn precedence_is_weak(left: Self, middle: Self, right: Self)
        ensures
            left.precedes(right) ==> left.precedes(middle) || middle.precedes(right),
    ;

    /// Whether `self` stands before `other`.
    fn stands_before(&self, other: &Self) -> (before: bool)
        ensures
            before == self.precedes(*other),
    ;
}

/// Whether neither of two items stands before the other.
pub open spec fn tied<T: Ranked>(left: T, right: T) -> bool {
    !left.precedes(right) && !right.precedes(left)
}

/// The items of a sequence that are tied with an item, in their order.
pub open spec fn ties_of<T: Ranked>(items: Seq<T>, item: T) -> Seq<T> {
    items.filter(|other: T| tied(item, other))
}

/// No item stands before one that comes earlier.
pub open spec fn is_sorted<T: Ranked>(items: Seq<T>) -> bool {
    forall|i: int, j: int| 0 <= i < j < items.len() ==> !(#[trigger] items[j]).precedes(#[trigger] items[i])
}

/// `sorted` holds the items of `items` in the order of their ranks, and tied
/// items in the order in which `items` holds them.
pub open spec fn is_stable_sort_of<T: Ranked>(sorted: Seq<T>, items: Seq<T>) -> bool {
    &&& is_sorted(sorted)
    &&& sorted.len() == items.len()
    &&& forall|item: T| #[trigger] ties_of(sorted, item) == ties_of(items, item)
}

proof fn lemma_insertion<T: Ranked>(sorted: Seq<T>, items: Seq<T>, at: int, item: T)
    requires
        is_stable_sort_of(sorted, items),
        0 <= at <= sorted.len(),
        forall|i: int| 0 <= i < at ==> !item.precedes(#[trigger] sorted[i]),
        forall|i: int| at <= i < sorted.len() ==> item.precedes(#[trigger] sorted[i]),
    ensures
        is_stable_sort_of(sorted.insert(at, item), items.push(item)),
{
    let inserted = sorted.insert(at, item);
    assert forall|i: int, j: int| 0 <= i < j < inserted.len() implies !(
    #[trigger] inserted[j]).precedes(#[trigger] inserted[i]) by {
        let left = if i < at {
            sorted[i]
        } else if i == at {
            item
        } else {
            sorted[i - 1]
        };
        let right = if j < at {
            sorted[j]
        } else if j == at {
            item
        } else {
            sorted[j - 1]
        };
        assert(inserted[i] == left && inserted[j] == right);
        if i == at {
            T::precedence_is_asymmetric(item, right);
        }
    }
    let before = sorted.take(at);
    let after = sorted.skip(at);
    assert(sorted =~= before + after);
    assert(inserted =~= before.push(item) + after);
    assert forall|other: T| #[trigger] ties_of(inserted, other) == ties_of(items.push(item), other) by {
        let pred = |x: T| tied(other, x);
        Seq::filter_distributes_over_add(before, after, pred);
        Seq::filter_distributes_over_add(before.push(item), after, pred);
        before.lemma_filter_push(item, pred);
        items.lemma_filter_push(item, pred);
        assert(ties_of(sorted, other) == ties_of(items, other));
        if tied(other, item) {
            assert forall|k: int| 0 <= k < after.len() implies !pred(#[trigger] after[k]) by {
                assert(item.precedes(sorted[at + k]));
                T::precedence_is_weak(item, other, after[k]);
            }
            after.lemma_all_neg_filter_empty(pred);
            assert(before.filter(pred) + after.filter(pred) =~= before.filter(pred));
            assert(before.push(item).filter(pred) + after.filter(pred) =~= before.push(item).filter(
                pred,
            ));
        }
    }
}

/// The items in the order of their ranks; tied items keep their order.
pub fn stable_sort<T: Ranked>(items: Vec<T>) -> (sorted: Vec<T>)
    ensures
        is_stable_sort_of(sorted@, items@),
{
    let ghost all = items@;
    let mut rest: Vec<T> = items;
    let mut reversed: Vec<T> = Vec::new();
    while rest.len() > 0
        invariant
            rest@ + reversed@.reverse() == all,
        decreases rest.len(),
    {
        let ghost before = rest@;
        let ghost turned = reversed@;
        match rest.pop() {
            Some(item) => {
                reversed.push(item);
                assert(before =~= rest@.push(item));
                assert(rest@ + reversed@.reverse() =~= before + turned.reverse());
            },
            None => {},
        }
    }
    assert(reversed@.reverse() =~= all);
    let mut sorted: Vec<T> = Vec::new();
    let ghost mut done: Seq<T> = seq![];
    while reversed.len() > 0
        invariant
            done + reversed@.reverse() == all,
            is_stable_sort_of(sorted@, done),
        decreases reversed.len(),
    {
        let ghost before = reversed@;
        match reversed.pop() {
            Some(item) => {
                assert(before =~= reversed@.push(item));
                assert(before.reverse() =~= seq![item] + reversed@.reverse());
                assert(done.push(item) + reversed@.reverse() =~= done + before.reverse());
                let mut at: usize = sorted.len();
                while at > 0 && item.stands_before(&sorted[at - 1])
                    invariant
                        at <= sorted.len(),
                        forall|i: int|
                            at <= i < sorted.len() ==> item.precedes(#[trigger] sorted@[i]),
                    decreases at,
                {
                    at = at - 1;
                }
                proof {
                    assert forall|i: int| 0 <= i < at implies !item.precedes(
                        #[trigger] sorted@[i],
                    ) by {
                        if i < at - 1 {
                            assert(!sorted@[at - 1].precedes(sorted@[i]));
                            T::precedence_is_weak(item, sorted@[at - 1], sorted@[i]);
                        }
                    }
                    lemma_insertion(sorted@, done, at as int, item);
                    done = done.push(item);
                }
                sorted.insert(at, item);
            },
            None => {},
        }
    }
    assert(done =~= all);
    sorted
}

} // verus!
