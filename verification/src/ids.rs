//! Sets of identifiers.

use std::collections::HashSet;
use vstd::prelude::*;

verus! {

/// The identifiers of a set, each once, in some order.
pub fn listed(ids: &HashSet<u128>) -> (list: Vec<u128>)
    ensures
        list@.no_duplicates(),
        list@.to_set() == ids@,
        list@.len() == ids@.len(),
{
    let mut list: Vec<u128> = Vec::new();
    for id in iter: ids.iter()
        invariant
            list@ == iter.seq().unref().take(iter.index()),
            iter.index() == iter.seq().len() ==> list@ =~= iter.seq().unref(),
            list@.no_duplicates(),
            0 <= iter.index() <= iter.seq().len(),
            iter.seq().unref().to_set() == ids@,
            iter.seq().no_duplicates(),
            iter.seq().len() == ids@.len(),
    {
        proof {
            let order = iter.seq();
            let at = iter.index();
            assert(*id == *order[at]);
            assert(order.unref().take(at + 1) =~= order.unref().take(at).push(*id));
            assert forall|i: int| 0 <= i < at implies list@[i] != *id by {
                assert(order[i] != order[at]);
            }
        }
        list.push(*id);
    }
    list
}

/// The set of the listed identifiers.
pub fn id_set(list: &Vec<u128>) -> (ids: HashSet<u128>)
    ensures
        ids@ == list@.to_set(),
{
    let mut ids: HashSet<u128> = HashSet::new();
    add_listed(&mut ids, list);
    assert(ids@ =~= list@.to_set());
    ids
}

/// Adds the listed identifiers to a set.
pub fn add_listed(ids: &mut HashSet<u128>, list: &Vec<u128>)
    ensures
        final(ids)@ == old(ids)@.union(list@.to_set()),
{
    let ghost before = ids@;
    let mut i: usize = 0;
    while i < list.len()
        invariant
            i <= list.len(),
            ids@ == before.union(list@.take(i as int).to_set()),
        decreases list.len() - i,
    {
        let ghost done = ids@;
        ids.insert(list[i]);
        proof {
            let taken = list@.take(i + 1);
            assert(taken =~= list@.take(i as int).push(list@[i as int]));
            assert forall|id: u128| ids@.contains(id) <==> before.union(taken.to_set()).contains(id) by {
                if list@.take(i as int).contains(id) {
                    let k = choose|k: int| 0 <= k < i && list@.take(i as int)[k] == id;
                    assert(taken[k] == id);
                }
                if taken.contains(id) {
                    let k = choose|k: int| 0 <= k < taken.len() && taken[k] == id;
                    if k < i {
                        assert(list@.take(i as int)[k] == id);
                    }
                }
                assert(taken[i as int] == list@[i as int]);
            }
            assert(ids@ =~= before.union(taken.to_set()));
        }
        i = i + 1;
    }
    assert(list@.take(i as int) =~= list@);
}

/// Takes the listed identifiers out of a set.
pub fn remove_listed(ids: &mut HashSet<u128>, list: &Vec<u128>)
    ensures
        final(ids)@ == old(ids)@.difference(list@.to_set()),
{
    let ghost before = ids@;
    let mut i: usize = 0;
    while i < list.len()
        invariant
            i <= list.len(),
            forall|id: u128| #[trigger]
                ids@.contains(id) <==> before.contains(id) && !list@.take(i as int).contains(id),
        decreases list.len() - i,
    {
        let ghost done = ids@;
        ids.remove(&list[i]);
        proof {
            let taken = list@.take(i + 1);
            assert(taken =~= list@.take(i as int).push(list@[i as int]));
            assert forall|id: u128| #[trigger]
                ids@.contains(id) <==> before.contains(id) && !taken.contains(id) by {
                assert(done.contains(id) <==> before.contains(id) && !list@.take(
                    i as int,
                ).contains(id));
                if list@.take(i as int).contains(id) {
                    let k = choose|k: int| 0 <= k < i && list@.take(i as int)[k] == id;
                    assert(taken[k] == id);
                }
                if taken.contains(id) {
                    let k = choose|k: int| 0 <= k < taken.len() && taken[k] == id;
                    if k < i {
                        assert(list@.take(i as int)[k] == id);
                    }
                }
                assert(taken[i as int] == list@[i as int]);
            }
        }
        i = i + 1;
    }
    assert(list@.take(i as int) =~= list@);
    assert(ids@ =~= before.difference(list@.to_set()));
}

/// Whether a set holds all of the listed identifiers.
pub fn holds_all(ids: &HashSet<u128>, list: &Vec<u128>) -> (all: bool)
    ensures
        all == list@.to_set().subset_of(ids@),
{
    let mut i: usize = 0;
    while i < list.len()
        invariant
            i <= list.len(),
            forall|k: int| 0 <= k < i ==> ids@.contains(#[trigger] list@[k]),
        decreases list.len() - i,
    {
        if !ids.contains(&list[i]) {
            assert(list@.to_set().contains(list@[i as int]));
            return false;
        }
        i = i + 1;
    }
    true
}

} // verus!
