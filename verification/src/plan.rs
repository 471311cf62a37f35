//! Ordered lists of actions.

use vstd::prelude::*;

verus! {

/// The list of just `action` where the condition holds, and else the empty
/// list.
pub open spec fn only_if<A>(condition: bool, action: A) -> Seq<A> {
    if condition {
        seq![action]
    } else {
        seq![]
    }
}

/// Appends `action` where the condition holds.
pub fn push_if<A>(actions: &mut Vec<A>, condition: bool, action: A)
    ensures
        final(actions)@ == old(actions)@ + only_if(condition, action),
{
    if condition {
        actions.push(action);
    }
    assert(actions@ =~= old(actions)@ + only_if(condition, action));
}

/// What is in one list after another is in one of the two.
pub proof fn lemma_contained_in_either<A>(first: Seq<A>, second: Seq<A>, action: A)
    ensures
        (first + second).contains(action) <==> first.contains(action) || second.contains(action),
{
    if first.contains(action) {
        let i = choose|i: int| 0 <= i < first.len() && first[i] == action;
        assert((first + second)[i] == action);
    }
    if second.contains(action) {
        let i = choose|i: int| 0 <= i < second.len() && second[i] == action;
        assert((first + second)[first.len() + i] == action);
    }
}

/// The conditional list holds its action exactly where the condition holds.
pub proof fn lemma_contained_if<A>(condition: bool, held: A, action: A)
    ensures
        only_if(condition, held).contains(action) <==> condition && held == action,
{
    if condition {
        assert(only_if(condition, held)[0] == held);
    }
}

/// Two lists without repetition that share nothing make one without
/// repetition.
pub proof fn lemma_no_repetition<A>(first: Seq<A>, second: Seq<A>)
    requires
        first.no_duplicates(),
        second.no_duplicates(),
        forall|a: A| #[trigger] first.contains(a) ==> !second.contains(a),
    ensures
        (first + second).no_duplicates(),
{
    let both = first + second;
    assert forall|i: int, j: int| 0 <= i < j < both.len() implies both[i] != both[j] by {
        if i < first.len() && j >= first.len() {
            assert(first.contains(first[i]));
            if first[i] == second[j - first.len()] {
                assert(second.contains(second[j - first.len()]));
            }
        }
    }
}

} // verus!
