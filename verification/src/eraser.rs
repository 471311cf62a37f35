//! Taking the path of an eraser away from operations.

use crate::drafts::{is_random_id, new_id};
use crate::model::{
    are_same_points, is_same_point, point_views, same_operation, CanvasPoint, EditKind,
    EditOperation, PointView,
};
use std::collections::HashMap;
use std::collections::HashSet;
use vstd::prelude::*;

verus! {

broadcast use vstd::std_specs::hash::group_hash_axioms;

/// An operation is like itself.
pub proof fn lemma_same_operation_reflexive(operation: EditOperation)
    ensures
        same_operation(operation, operation),
    decreases operation,
{
    assert forall|i: int| 0 <= i < operation.compact_sources@.len() implies same_operation(
        #[trigger] operation.compact_sources@[i],
        operation.compact_sources@[i],
    ) by {
        assert(decreases_to!(operation => operation.compact_sources@[i]));
        lemma_same_operation_reflexive(operation.compact_sources@[i]);
    }
}

/// The operation with other points; an area that was cut is no longer
/// smoothed.
pub open spec fn is_fragment(
    source: EditOperation,
    points: Seq<PointView>,
    fragment: EditOperation,
) -> bool {
    &&& point_views(fragment.points@) == points
    &&& fragment.smooth_area == (source.smooth_area && source.kind != EditKind::Fill)
    &&& same_operation(
        source,
        EditOperation { points: source.points, smooth_area: source.smooth_area, ..fragment },
    )
}

/// What is left of an operation when only the fragments stay: none where it
/// stays whole, and else an operation for each fragment.
pub open spec fn is_fragment_change(
    source: EditOperation,
    fragments: Seq<Vec<CanvasPoint>>,
    change: Option<Seq<EditOperation>>,
) -> bool {
    if fragments.len() == 1 && are_same_points(
        point_views(fragments[0]@),
        point_views(source.points@),
    ) {
        change is None
    } else {
        &&& change matches Some(replacements)
        &&& replacements.len() == fragments.len()
        &&& forall|k: int|
            0 <= k < fragments.len() ==> is_fragment(
                source,
                point_views(fragments[k]@),
                #[trigger] replacements[k],
            )
    }
}

fn points_match(left: &Vec<CanvasPoint>, right: &Vec<CanvasPoint>) -> (same: bool)
    ensures
        same == are_same_points(point_views(left@), point_views(right@)),
{
    if left.len() != right.len() {
        assert(point_views(left@).len() != point_views(right@).len());
        return false;
    }
    let mut i: usize = 0;
    while i < left.len()
        invariant
            i <= left@.len() == right@.len(),
            forall|k: int| 0 <= k < i ==> is_same_point((#[trigger] left@[k])@, right@[k]@),
        decreases left@.len() - i,
    {
        if left[i] != right[i] {
            assert(!is_same_point(point_views(left@)[i as int], point_views(right@)[i as int]));
            return false;
        }
        i = i + 1;
    }
    assert forall|k: int| 0 <= k < left@.len() implies is_same_point(
        #[trigger] point_views(left@)[k],
        point_views(right@)[k],
    ) by {
        assert(is_same_point(left@[k]@, right@[k]@));
    }
    true
}

/// The change of a spec-level view of an optional list.
pub open spec fn change_view(change: Option<Vec<EditOperation>>) -> Option<Seq<EditOperation>> {
    match change {
        Some(replacements) => Some(replacements@),
        None => None,
    }
}

/// What is left of an operation when only the fragments stay.
pub fn fragment_change(source: &EditOperation, fragments: Vec<Vec<CanvasPoint>>) -> (change: Option<
    Vec<EditOperation>,
>)
    ensures
        is_fragment_change(*source, fragments@, change_view(change)),
{
    if fragments.len() == 1 && points_match(&fragments[0], &source.points) {
        return None;
    }
    let mut replacements: Vec<EditOperation> = Vec::new();
    let mut i: usize = 0;
    while i < fragments.len()
        invariant
            i <= fragments@.len(),
            replacements@.len() == i,
            forall|k: int|
                0 <= k < i ==> is_fragment(
                    *source,
                    point_views(fragments@[k]@),
                    #[trigger] replacements@[k],
                ),
        decreases fragments@.len() - i,
    {
        let mut replacement = source.clone();
        let ghost copy = replacement;
        replacement.points = crate::model::clone_points(&fragments[i]);
        if replacement.kind == EditKind::Fill {
            replacement.smooth_area = false;
        }
        proof {
            lemma_with_same_points(
                *source,
                copy,
                EditOperation {
                    points: source.points,
                    smooth_area: source.smooth_area,
                    ..replacement
                },
            );
        }
        replacements.push(replacement);
        i = i + 1;
    }
    Some(replacements)
}

proof fn lemma_with_same_points(source: EditOperation, copy: EditOperation, other: EditOperation)
    requires
        same_operation(source, copy),
        other == (EditOperation {
            points: source.points,
            smooth_area: source.smooth_area,
            ..copy
        }),
    ensures
        same_operation(source, other),
{
    assert(other.compact_sources == copy.compact_sources);
}

/// The objects of filled areas of which something was taken away.
pub open spec fn changed_groups(
    sources: Seq<EditOperation>,
    changes: Seq<Option<Seq<EditOperation>>>,
    count: int,
) -> Set<u128>
    decreases count,
{
    if count <= 0 {
        Set::empty()
    } else if sources[count - 1].kind == EditKind::Fill && changes[count - 1] is Some {
        changed_groups(sources, changes, count - 1).insert(sources[count - 1].object())
    } else {
        changed_groups(sources, changes, count - 1)
    }
}

proof fn lemma_changed_groups(
    sources: Seq<EditOperation>,
    changes: Seq<Option<Seq<EditOperation>>>,
    count: int,
    group: u128,
)
    requires
        0 <= count <= sources.len(),
    ensures
        changed_groups(sources, changes, count).contains(group) <==> exists|i: int|
            0 <= i < count && (#[trigger] sources[i]).kind == EditKind::Fill && changes[i] is Some
                && sources[i].object() == group,
    decreases count,
{
    if count > 0 {
        lemma_changed_groups(sources, changes, count - 1, group);
        let last = sources[count - 1];
        assert(last == sources[count - 1]);
        if exists|i: int|
            0 <= i < count - 1 && (#[trigger] sources[i]).kind == EditKind::Fill && changes[i]
                is Some && sources[i].object() == group {
            let i = choose|i: int|
                0 <= i < count - 1 && (#[trigger] sources[i]).kind == EditKind::Fill && changes[i]
                    is Some && sources[i].object() == group;
            assert(0 <= i < count && sources[i].kind == EditKind::Fill);
        }
    }
}

/// A group of fills is changed if and only if one of its fills is, whichever one
/// that is.
pub proof fn law_groups_change_with_any_of_their_fills(
    sources: Seq<EditOperation>,
    changes: Seq<Option<Seq<EditOperation>>>,
    group: u128,
)
    requires
        sources.len() == changes.len(),
    ensures
        changed_groups(sources, changes, sources.len() as int).contains(group) <==> exists|i: int|
            0 <= i < sources.len() && (#[trigger] sources[i]).kind == EditKind::Fill && changes[i]
                is Some && sources[i].object() == group,
{
    lemma_changed_groups(sources, changes, sources.len() as int, group);
}

proof fn lemma_replaced_places(
    sources: Seq<EditOperation>,
    changes: Seq<Option<Seq<EditOperation>>>,
    keeps_untouched: bool,
    count: int,
)
    requires
        0 <= count <= usize::MAX,
    ensures
        ({
            let places = replaced_places(sources, changes, keeps_untouched, count);
            &&& forall|k: int|
                0 <= k < places.len() ==> 0 <= #[trigger] places[k] < count && is_replaced(
                    sources,
                    changes,
                    keeps_untouched,
                    places[k] as int,
                )
            &&& forall|k: int, l: int|
                0 <= k < l < places.len() ==> #[trigger] places[k] < #[trigger] places[l]
            &&& forall|at: usize|
                at < count && #[trigger] is_replaced(sources, changes, keeps_untouched, at as int)
                    ==> places.contains(at)
        }),
    decreases count,
{
    if count > 0 {
        lemma_replaced_places(sources, changes, keeps_untouched, count - 1);
        let places = replaced_places(sources, changes, keeps_untouched, count);
        let before = replaced_places(sources, changes, keeps_untouched, count - 1);
        assert forall|at: usize|
            at < count && #[trigger] is_replaced(
                sources,
                changes,
                keeps_untouched,
                at as int,
            ) implies places.contains(at) by {
            if at < count - 1 {
                assert(places[before.index_of(at)] == at);
            } else {
                assert(places[before.len() as int] == at);
            }
        }
    }
}

/// What is replaced are, in order and each once, the sources that are changed,
/// those of a group of fills that is changed, and all of them where untouched
/// ones are kept; no others.
pub proof fn law_sources_are_replaced_in_order(
    sources: Seq<EditOperation>,
    changes: Seq<Option<Seq<EditOperation>>>,
    keeps_untouched: bool,
    at: usize,
)
    requires
        sources.len() == changes.len(),
        at < sources.len() <= usize::MAX,
    ensures
        ({
            let places = replaced_places(
                sources,
                changes,
                keeps_untouched,
                sources.len() as int,
            );
            &&& places.contains(at) <==> keeps_untouched || changes[at as int] is Some || exists|
                i: int,
            |
                0 <= i < sources.len() && (#[trigger] sources[i]).kind == EditKind::Fill
                    && changes[i] is Some && sources[i].object() == sources[at as int].object()
            &&& forall|k: int, l: int|
                0 <= k < l < places.len() ==> #[trigger] places[k] < #[trigger] places[l]
        }),
{
    lemma_replaced_places(sources, changes, keeps_untouched, sources.len() as int);
    lemma_changed_groups(
        sources,
        changes,
        sources.len() as int,
        sources[at as int].object(),
    );
    let places = replaced_places(sources, changes, keeps_untouched, sources.len() as int);
    if places.contains(at) {
        let k = places.index_of(at);
        assert(places[k] == at);
    }
    if is_replaced(sources, changes, keeps_untouched, at as int) {
        assert(places.contains(at));
    }
}

/// Whether a source has replacements: where something was taken away of it or
/// of the rest of its object, or where untouched ones are kept too.
pub open spec fn is_replaced(
    sources: Seq<EditOperation>,
    changes: Seq<Option<Seq<EditOperation>>>,
    keeps_untouched: bool,
    at: int,
) -> bool {
    keeps_untouched || changes[at] is Some || changed_groups(
        sources,
        changes,
        sources.len() as int,
    ).contains(sources[at].object())
}

/// The places of the sources that have replacements, among the first `count`.
pub open spec fn replaced_places(
    sources: Seq<EditOperation>,
    changes: Seq<Option<Seq<EditOperation>>>,
    keeps_untouched: bool,
    count: int,
) -> Seq<usize>
    decreases count,
{
    if count <= 0 {
        seq![]
    } else if is_replaced(sources, changes, keeps_untouched, count - 1) {
        replaced_places(sources, changes, keeps_untouched, count - 1).push((count - 1) as usize)
    } else {
        replaced_places(sources, changes, keeps_untouched, count - 1)
    }
}

/// Whether a source moves to a new fill group, with all of its object.
pub open spec fn is_regrouped(
    sources: Seq<EditOperation>,
    changes: Seq<Option<Seq<EditOperation>>>,
    at: int,
) -> bool {
    sources[at].kind == EditKind::Fill && changed_groups(
        sources,
        changes,
        sources.len() as int,
    ).contains(sources[at].object())
}

/// Whether the replacement is the operation, in the given group where it moves
/// to one.
pub open spec fn moved_to_group(
    before: EditOperation,
    group: Option<u128>,
    after: EditOperation,
) -> bool {
    same_operation(
        EditOperation {
            fill_group_id: if group is Some {
                group
            } else {
                before.fill_group_id
            },
            ..before
        },
        after,
    )
}

/// Whether the replacements of a source are what is left of it, or a copy of it
/// where nothing was taken away, in the new group where it moves to one.
pub open spec fn are_replacements(
    source: EditOperation,
    change: Option<Seq<EditOperation>>,
    group: Option<u128>,
    replacements: Seq<EditOperation>,
) -> bool {
    let before = match change {
        Some(left) => left,
        None => seq![source],
    };
    &&& replacements.len() == before.len()
    &&& forall|k: int|
        0 <= k < before.len() ==> moved_to_group(before[k], group, #[trigger] replacements[k])
}

/// What takes the place of a source.
pub struct Replacement {
    /// The place of the source.
    pub source: usize,
    pub operations: Vec<EditOperation>,
}

/// The places of the sources.
pub open spec fn source_places(replacements: Seq<Replacement>) -> Seq<usize> {
    replacements.map_values(|replacement: Replacement| replacement.source)
}

/// The group to which a source moves.
pub open spec fn new_group(
    sources: Seq<EditOperation>,
    changes: Seq<Option<Seq<EditOperation>>>,
    groups: Map<u128, u128>,
    at: int,
) -> Option<u128> {
    if is_regrouped(sources, changes, at) {
        Some(groups[sources[at].object()])
    } else {
        None
    }
}

/// Whether the replacements are those of the sources, where all parts of an
/// object of which something was taken away move to one new group, which has a
/// random identifier.
pub open spec fn are_regrouped(
    sources: Seq<EditOperation>,
    changes: Seq<Option<Seq<EditOperation>>>,
    keeps_untouched: bool,
    groups: Map<u128, u128>,
    replacements: Seq<Replacement>,
) -> bool {
    &&& source_places(replacements) == replaced_places(
        sources,
        changes,
        keeps_untouched,
        sources.len() as int,
    )
    &&& forall|k: int|
        0 <= k < replacements.len() ==> {
            let at = (#[trigger] replacements[k]).source as int;
            are_replacements(
                sources[at],
                changes[at],
                new_group(sources, changes, groups, at),
                replacements[k].operations@,
            )
        }
    &&& forall|k: int|
        0 <= k < replacements.len() ==> {
            let at = (#[trigger] replacements[k]).source as int;
            new_group(sources, changes, groups, at) matches Some(group) ==> is_random_id(group)
        }
}

/// What the changes of a list are, mathematically.
pub open spec fn changes_view(changes: Seq<Option<Vec<EditOperation>>>) -> Seq<
    Option<Seq<EditOperation>>,
> {
    changes.map_values(|change: Option<Vec<EditOperation>>| change_view(change))
}

fn find_changed_groups(sources: &Vec<EditOperation>, changes: &Vec<Option<Vec<EditOperation>>>) -> (
groups: HashSet<u128>)
    requires
        sources@.len() == changes@.len(),
    ensures
        groups@ == changed_groups(sources@, changes_view(changes@), sources@.len() as int),
{
    let mut groups: HashSet<u128> = HashSet::new();
    let mut i: usize = 0;
    while i < sources.len()
        invariant
            i <= sources@.len() == changes@.len(),
            groups@ == changed_groups(sources@, changes_view(changes@), i as int),
        decreases sources@.len() - i,
    {
        assert(changes_view(changes@)[i as int] == change_view(changes@[i as int]));
        if sources[i].kind == EditKind::Fill && changes[i].is_some() {
            groups.insert(sources[i].object_group_id());
        }
        i = i + 1;
    }
    groups
}

fn move_to_group(operations: &mut Vec<EditOperation>, group: u128)
    ensures
        final(operations)@.len() == old(operations)@.len(),
        forall|k: int|
            0 <= k < old(operations)@.len() ==> #[trigger] final(operations)@[k] == (
            EditOperation { fill_group_id: Some(group), ..old(operations)@[k] }),
{
    let mut i: usize = 0;
    while i < operations.len()
        invariant
            i <= operations@.len() == old(operations)@.len(),
            forall|k: int|
                0 <= k < i ==> #[trigger] operations@[k] == (EditOperation {
                    fill_group_id: Some(group),
                    ..old(operations)@[k]
                }),
            forall|k: int|
                i <= k < operations@.len() ==> #[trigger] operations@[k] == old(operations)@[k],
        decreases operations@.len() - i,
    {
        operations[i].fill_group_id = Some(group);
        i = i + 1;
    }
}

/// Puts together what takes the place of the sources, where `changes` is what
/// is left of each. Parts of an object of which something was taken away stay
/// one object: all of them move to one new fill group.
pub fn regroup(
    sources: &Vec<EditOperation>,
    changes: Vec<Option<Vec<EditOperation>>>,
    keeps_untouched: bool,
) -> (replacements: Vec<Replacement>)
    requires
        sources@.len() == changes@.len(),
    ensures
        exists|groups: Map<u128, u128>| #[trigger]
            are_regrouped(
                sources@,
                changes_view(changes@),
                keeps_untouched,
                groups,
                replacements@,
            ),
{
    let ghost views = changes_view(changes@);
    let changed: HashSet<u128> = find_changed_groups(sources, &changes);
    let mut changes = changes;
    let mut groups: HashMap<u128, u128> = HashMap::new();
    let mut replacements: Vec<Replacement> = Vec::new();
    let mut i: usize = 0;
    assert(source_places(replacements@) =~= seq![]);
    while i < sources.len()
        invariant
            i <= sources@.len() == changes@.len(),
            views.len() == sources@.len(),
            forall|k: int|
                i <= k < sources@.len() ==> views[k] == change_view(#[trigger] changes@[k]),
            changed@ == changed_groups(sources@, views, sources@.len() as int),
            forall|object: u128| #[trigger]
                groups@.contains_key(object) ==> is_random_id(groups@[object]),
            source_places(replacements@) == replaced_places(
                sources@,
                views,
                keeps_untouched,
                i as int,
            ),
            forall|k: int|
                0 <= k < replacements@.len() ==> {
                    let at = (#[trigger] replacements@[k]).source as int;
                    &&& 0 <= at < i
                    &&& is_regrouped(sources@, views, at) ==> groups@.contains_key(
                        sources@[at].object(),
                    )
                    &&& are_replacements(
                        sources@[at],
                        views[at],
                        new_group(sources@, views, groups@, at),
                        replacements@[k].operations@,
                    )
                },
        decreases sources@.len() - i,
    {
        let source = &sources[i];
        let in_changed: bool = changed.contains(&source.object_group_id());
        let change: Option<Vec<EditOperation>> = changes[i].take();
        let ghost view = change_view(change);
        assert(view == views[i as int]);
        if keeps_untouched || change.is_some() || in_changed {
            let mut operations: Vec<EditOperation> = match change {
                Some(left) => left,
                None => {
                    let mut copies: Vec<EditOperation> = Vec::new();
                    copies.push(source.clone());
                    copies
                },
            };
            let ghost left = operations@;
            let ghost old_groups = groups@;
            let ghost mut group: Option<u128> = None;
            if source.kind == EditKind::Fill && in_changed {
                let object: u128 = source.object_group_id();
                let known: Option<u128> = match groups.get(&object) {
                    Some(known) => Some(*known),
                    None => None,
                };
                let id: u128 = match known {
                    Some(known) => known,
                    None => {
                        let id: u128 = new_id();
                        groups.insert(object, id);
                        id
                    },
                };
                move_to_group(&mut operations, id);
                proof {
                    group = Some(id);
                }
            }
            let ghost earlier = replacements@;
            let ghost added = operations@;
            replacements.push(Replacement { source: i, operations });
            proof {
                assert(group == new_group(sources@, views, groups@, i as int));
                lemma_are_replacements(*source, view, group, left, added);
                assert(source_places(replacements@) =~= source_places(earlier).push(i));
                assert forall|k: int| 0 <= k < replacements@.len() implies {
                    let at = (#[trigger] replacements@[k]).source as int;
                    &&& 0 <= at < i + 1
                    &&& is_regrouped(sources@, views, at) ==> groups@.contains_key(
                        sources@[at].object(),
                    )
                    &&& are_replacements(
                        sources@[at],
                        views[at],
                        new_group(sources@, views, groups@, at),
                        replacements@[k].operations@,
                    )
                } by {
                    if k < earlier.len() {
                        assert(replacements@[k] == earlier[k]);
                        let at = earlier[k].source as int;
                        assert(new_group(sources@, views, groups@, at) == new_group(
                            sources@,
                            views,
                            old_groups,
                            at,
                        ));
                    }
                }
            }
        }
        i = i + 1;
    }
    assert(are_regrouped(sources@, views, keeps_untouched, groups@, replacements@));
    replacements
}

proof fn lemma_are_replacements(
    source: EditOperation,
    change: Option<Seq<EditOperation>>,
    group: Option<u128>,
    left: Seq<EditOperation>,
    added: Seq<EditOperation>,
)
    requires
        match change {
            Some(seq) => left == seq,
            None => left.len() == 1 && same_operation(source, left[0]),
        },
        added.len() == left.len(),
        forall|k: int|
            0 <= k < left.len() ==> #[trigger] added[k] == (EditOperation {
                fill_group_id: if group is Some {
                    group
                } else {
                    left[k].fill_group_id
                },
                ..left[k]
            }),
    ensures
        are_replacements(source, change, group, added),
{
    let before = match change {
        Some(left) => left,
        None => seq![source],
    };
    assert forall|k: int| 0 <= k < before.len() implies moved_to_group(
        before[k],
        group,
        #[trigger] added[k],
    ) by {
        match change {
            Some(seq) => {
                lemma_same_operation_reflexive(added[k]);
            },
            None => {
                let moved = EditOperation {
                    fill_group_id: if group is Some {
                        group
                    } else {
                        source.fill_group_id
                    },
                    ..source
                };
                assert(same_operation(source, left[0]));
                assert(moved.compact_sources == source.compact_sources);
                assert(added[0].compact_sources == left[0].compact_sources);
                assert(same_operation(moved, added[0]));
            },
        }
    }
}

/// All operations that take the place of sources, in order.
pub open spec fn all_operations(replacements: Seq<Replacement>) -> Seq<EditOperation>
    decreases replacements.len(),
{
    if replacements.len() == 0 {
        seq![]
    } else {
        all_operations(replacements.drop_last()) + replacements.last().operations@
    }
}

/// The operations of replacements are all of theirs, in order: those of the last
/// one come after those of the others.
pub proof fn law_no_replacement_is_left_out(replacements: Seq<Replacement>, at: int, k: int)
    requires
        0 <= at < replacements.len(),
        0 <= k < replacements[at].operations@.len(),
    ensures
        ({
            let first = all_operations(replacements.take(at)).len() as int;
            let all = all_operations(replacements);
            &&& first + replacements[at].operations@.len() <= all.len()
            &&& all[first + k] == replacements[at].operations@[k]
            &&& all_operations(replacements.take(at + 1)).len() == first
                + replacements[at].operations@.len()
        }),
    decreases replacements.len(),
{
    let rest = replacements.drop_last();
    assert(replacements.take(at + 1).drop_last() =~= replacements.take(at));
    assert(replacements.take(at + 1).last() == replacements[at]);
    if at < replacements.len() - 1 {
        law_no_replacement_is_left_out(rest, at, k);
        assert(rest.take(at) =~= replacements.take(at));
        assert(rest[at] == replacements[at]);
    } else {
        assert(rest =~= replacements.take(at));
    }
}

fn collect_operations(replacements: Vec<Replacement>) -> (operations: Vec<EditOperation>)
    ensures
        operations@ == all_operations(replacements@),
{
    let ghost all = replacements@;
    let mut replacements = replacements;
    let mut operations: Vec<EditOperation> = Vec::new();
    let ghost mut done: int = 0;
    assert(all.skip(0) =~= all);
    assert(all.take(0) =~= seq![]);
    while replacements.len() > 0
        invariant
            0 <= done <= all.len(),
            replacements@ == all.skip(done),
            operations@ == all_operations(all.take(done)),
        decreases replacements@.len(),
    {
        let replacement: Replacement = replacements.remove(0);
        let mut more: Vec<EditOperation> = replacement.operations;
        assert(all.take(done + 1).drop_last() =~= all.take(done));
        assert(all.take(done + 1).last() == replacement);
        operations.append(&mut more);
        assert(replacements@ =~= all.skip(done + 1));
        proof {
            done = done + 1;
        }
    }
    assert(all.take(done) =~= all);
    operations
}

/// Whether the block is the source with other parts.
pub open spec fn is_block_of(
    source: EditOperation,
    parts: Seq<EditOperation>,
    block: EditOperation,
) -> bool {
    &&& block.compact_sources@ == parts
    &&& same_operation(
        EditOperation { compact_sources: block.compact_sources, ..source },
        block,
    )
}

/// Whether nothing was taken away of any part.
pub open spec fn all_untouched(changes: Seq<Option<Seq<EditOperation>>>) -> bool {
    forall|i: int| 0 <= i < changes.len() ==> (#[trigger] changes[i]) is None
}

/// Whether the change is what is left of a block whose parts changed: the
/// rebuilt block of what is left of them, or nothing.
pub open spec fn is_block_change<R: Fn(EditOperation) -> Result<EditOperation, String>>(
    source: EditOperation,
    changes: Seq<Option<Seq<EditOperation>>>,
    change: Option<Seq<EditOperation>>,
    rebuild: R,
) -> bool {
    if all_untouched(changes) {
        change is None
    } else {
        exists|groups: Map<u128, u128>, replacements: Seq<Replacement>| #[trigger]
            are_regrouped(source.compact_sources@, changes, true, groups, replacements) && {
                let parts = all_operations(replacements);
                if parts.len() == 0 {
                    change == Some(Seq::<EditOperation>::empty())
                } else {
                    exists|block: EditOperation, rebuilt: EditOperation|
                        is_block_of(source, parts, block) && #[trigger] call_ensures(
                            rebuild,
                            (block,),
                            Ok::<EditOperation, String>(rebuilt),
                        ) && change == Some(seq![rebuilt])
                }
            }
    }
}

/// What tells whether an operation lies where the eraser went.
pub trait EraserReach {
    /// Whether it can be asked.
    spec fn is_ready(&self) -> bool;

    /// `answer` may be given on the operation.
    spec fn may_say(&self, operation: EditOperation, answer: Result<bool, String>) -> bool;

    fn asked(&self, operation: &EditOperation) -> (answer: Result<bool, String>)
        requires
            self.is_ready(),
        ensures
            self.may_say(*operation, answer),
    ;
}

/// What gives the outlines that the eraser leaves of an operation.
pub trait OutlineCut {
    /// Whether it can be asked.
    spec fn is_ready(&self) -> bool;

    /// `left` may be what is left of the operation.
    spec fn may_leave(
        &self,
        operation: EditOperation,
        left: Result<Vec<Vec<CanvasPoint>>, String>,
    ) -> bool;

    fn cut(&self, operation: &EditOperation) -> (left: Result<Vec<Vec<CanvasPoint>>, String>)
        requires
            self.is_ready(),
        ensures
            self.may_leave(*operation, left),
    ;
}

/// An answer that a function gives.
pub struct Asked<T> {
    pub ask: T,
}

impl<T: Fn(&EditOperation) -> Result<bool, String>> EraserReach for Asked<T> {
    open spec fn is_ready(&self) -> bool {
        forall|operation: EditOperation| #[trigger] call_requires(self.ask, (&operation,))
    }

    open spec fn may_say(&self, operation: EditOperation, answer: Result<bool, String>) -> bool {
        call_ensures(self.ask, (&operation,), answer)
    }

    fn asked(&self, operation: &EditOperation) -> (answer: Result<bool, String>) {
        (self.ask)(operation)
    }
}

impl<T: Fn(&EditOperation) -> Result<Vec<Vec<CanvasPoint>>, String>> OutlineCut for Asked<T> {
    open spec fn is_ready(&self) -> bool {
        forall|operation: EditOperation| #[trigger] call_requires(self.ask, (&operation,))
    }

    open spec fn may_leave(
        &self,
        operation: EditOperation,
        left: Result<Vec<Vec<CanvasPoint>>, String>,
    ) -> bool {
        call_ensures(self.ask, (&operation,), left)
    }

    fn cut(&self, operation: &EditOperation) -> (left: Result<Vec<Vec<CanvasPoint>>, String>) {
        (self.ask)(operation)
    }
}

/// Whether the change is what an operation leaves that the eraser may touch.
pub open spec fn is_cut<
    H: EraserReach,
    P: OutlineCut,
>(
    source: EditOperation,
    change: Option<Seq<EditOperation>>,
    touches: H,
    cut: P,
) -> bool {
    ||| touches.may_say(source, Ok::<bool, String>(false)) && change is None
    ||| touches.may_say(source, Ok::<bool, String>(true)) && exists|
        fragments: Vec<Vec<CanvasPoint>>,
    | #[trigger]
        cut.may_leave(source, Ok::<Vec<Vec<CanvasPoint>>, String>(fragments))
            && is_fragment_change(source, fragments@, change)
}

/// Whether the change is what the eraser leaves of the operation: strokes and
/// filled areas are cut, blocks are taken apart, and what erases is left alone.
pub open spec fn is_change<
    H: EraserReach,
    P: OutlineCut,
    F: OutlineCut,
    R: Fn(EditOperation) -> Result<EditOperation, String>,
>(
    source: EditOperation,
    change: Option<Seq<EditOperation>>,
    touches: H,
    cut_paint: P,
    cut_fill: F,
    rebuild: R,
) -> bool
    decreases source,
{
    match source.kind {
        EditKind::Erase | EditKind::EraseArea => change is None,
        EditKind::Paint => is_cut(source, change, touches, cut_paint),
        EditKind::Fill => is_cut(source, change, touches, cut_fill),
        EditKind::CompactBlock => exists|changes: Seq<Option<Seq<EditOperation>>>|
            changes.len() == source.compact_sources@.len() && (forall|i: int|
                0 <= i < source.compact_sources@.len() ==> is_change(
                    #[trigger] source.compact_sources@[i],
                    changes[i],
                    touches,
                    cut_paint,
                    cut_fill,
                    rebuild,
                )) && #[trigger] is_block_change(source, changes, change, rebuild),
    }
}

/// Whether rebuilding what is left of a block may fail with the error: some parts
/// changed, something is left of them, and the block of that is refused.
pub open spec fn is_rebuild_failure<R: Fn(EditOperation) -> Result<EditOperation, String>>(
    source: EditOperation,
    changes: Seq<Option<Seq<EditOperation>>>,
    error: String,
    rebuild: R,
) -> bool {
    &&& !all_untouched(changes)
    &&& exists|groups: Map<u128, u128>, replacements: Seq<Replacement>, block: EditOperation|
        {
            &&& #[trigger] are_regrouped(
                source.compact_sources@,
                changes,
                true,
                groups,
                replacements,
            )
            &&& all_operations(replacements).len() > 0
            &&& is_block_of(source, all_operations(replacements), block)
            &&& #[trigger] call_ensures(rebuild, (block,), Err::<EditOperation, String>(error))
        }
}

/// Whether the eraser can fail on the operation with the error: where the
/// computation on a stroke or a filled area does, where it does on the first part
/// of a block that it fails on, or where what is left of a block is refused.
pub open spec fn can_fail<
    H: EraserReach,
    P: OutlineCut,
    F: OutlineCut,
    R: Fn(EditOperation) -> Result<EditOperation, String>,
>(
    source: EditOperation,
    error: String,
    touches: H,
    cut_paint: P,
    cut_fill: F,
    rebuild: R,
) -> bool
    decreases source,
{
    match source.kind {
        EditKind::Erase | EditKind::EraseArea => false,
        EditKind::Paint => touches.may_say(source, Err::<bool, String>(error)) || (
        touches.may_say(source, Ok::<bool, String>(true)) && cut_paint.may_leave(
            source,
            Err::<Vec<Vec<CanvasPoint>>, String>(error),
        )),
        EditKind::Fill => touches.may_say(source, Err::<bool, String>(error)) || (
        touches.may_say(source, Ok::<bool, String>(true)) && cut_fill.may_leave(
            source,
            Err::<Vec<Vec<CanvasPoint>>, String>(error),
        )),
        EditKind::CompactBlock => (exists|i: int, changes: Seq<Option<Seq<EditOperation>>>|
            0 <= i < source.compact_sources@.len() && #[trigger] are_changes(
                source.compact_sources@.take(i),
                changes,
                touches,
                cut_paint,
                cut_fill,
                rebuild,
            ) && can_fail(
                source.compact_sources@[i],
                error,
                touches,
                cut_paint,
                cut_fill,
                rebuild,
            )) || (exists|changes: Seq<Option<Seq<EditOperation>>>|
            are_changes(
                source.compact_sources@,
                changes,
                touches,
                cut_paint,
                cut_fill,
                rebuild,
            ) && #[trigger] is_rebuild_failure(source, changes, error, rebuild)),
    }
}

/// What the eraser leaves of an operation: none where it stays as it is.
/// `touches` tells whether the operation lies where the eraser went, `cut_paint`
/// and `cut_fill` give the outlines that are left of a stroke or a filled area,
/// and `rebuild` makes a block fit its parts.
pub fn subtract_eraser_operation<
    H: EraserReach,
    P: OutlineCut,
    F: OutlineCut,
    R: Fn(EditOperation) -> Result<EditOperation, String>,
>(
    source: &EditOperation,
    touches: &H,
    cut_paint: &P,
    cut_fill: &F,
    rebuild: &R,
) -> (result: Result<Option<Vec<EditOperation>>, String>)
    requires
        touches.is_ready(),
        cut_paint.is_ready(),
        cut_fill.is_ready(),
        forall|operation: EditOperation| #[trigger] call_requires(*rebuild, (operation,)),
    ensures
        match result {
            Ok(change) => is_change(
                *source,
                change_view(change),
                *touches,
                *cut_paint,
                *cut_fill,
                *rebuild,
            ),
            Err(error) => can_fail(*source, error, *touches, *cut_paint, *cut_fill, *rebuild),
        },
    decreases source,
{
    match source.kind {
        EditKind::Erase | EditKind::EraseArea => Ok(None),
        EditKind::Paint => match touches.asked(source) {
            Ok(false) => Ok(None),
            Ok(true) => match cut_paint.cut(source) {
                Ok(fragments) => Ok(fragment_change(source, fragments)),
                Err(error) => Err(error),
            },
            Err(error) => Err(error),
        },
        EditKind::Fill => match touches.asked(source) {
            Ok(false) => Ok(None),
            Ok(true) => match cut_fill.cut(source) {
                Ok(fragments) => Ok(fragment_change(source, fragments)),
                Err(error) => Err(error),
            },
            Err(error) => Err(error),
        },
        EditKind::CompactBlock => {
            let mut changes: Vec<Option<Vec<EditOperation>>> = Vec::new();
            let mut untouched: bool = true;
            let mut i: usize = 0;
            while i < source.compact_sources.len()
                invariant
                    i <= source.compact_sources@.len(),
                    source.kind == EditKind::CompactBlock,
                    changes@.len() == i,
                    touches.is_ready(),
                    cut_paint.is_ready(),
                    cut_fill.is_ready(),
                    forall|operation: EditOperation| #[trigger]
                        call_requires(*rebuild, (operation,)),
                    forall|k: int|
                        0 <= k < i ==> is_change(
                            #[trigger] source.compact_sources@[k],
                            change_view(changes@[k]),
                            *touches,
                            *cut_paint,
                            *cut_fill,
                            *rebuild,
                        ),
                    untouched == (forall|k: int| 0 <= k < i ==> (#[trigger] changes@[k]) is None),
                decreases source.compact_sources@.len() - i,
            {
                assert(decreases_to!(*source => source.compact_sources@[i as int]));
                match subtract_eraser_operation(
                    &source.compact_sources[i],
                    touches,
                    cut_paint,
                    cut_fill,
                    rebuild,
                ) {
                    Ok(change) => {
                        let ghost before = changes@;
                        if change.is_some() {
                            untouched = false;
                        }
                        changes.push(change);
                        assert(changes@[i as int] == change);
                        proof {
                            if exists|k: int| 0 <= k < i && (#[trigger] before[k]) is Some {
                                let k = choose|k: int| 0 <= k < i && (#[trigger] before[k]) is Some;
                                assert(changes@[k] is Some);
                            } else {
                                assert forall|k: int| 0 <= k < i implies (
                                #[trigger] changes@[k]) is None by {
                                    assert(changes@[k] == before[k]);
                                }
                            }
                        }
                    },
                    Err(error) => {
                        proof {
                            lemma_are_changes(
                                source.compact_sources@,
                                changes@,
                                *touches,
                                *cut_paint,
                                *cut_fill,
                                *rebuild,
                            );
                        }
                        return Err(error);
                    },
                }
                i = i + 1;
            }
            let ghost views = changes_view(changes@);
            assert forall|k: int| 0 <= k < source.compact_sources@.len() implies is_change(
                #[trigger] source.compact_sources@[k],
                views[k],
                *touches,
                *cut_paint,
                *cut_fill,
                *rebuild,
            ) by {
                assert(views[k] == change_view(changes@[k]));
            }
            assert(all_untouched(views) == untouched) by {
                if untouched {
                    assert forall|k: int| 0 <= k < views.len() implies (
                    #[trigger] views[k]) is None by {
                        assert(changes@[k] is None);
                    }
                } else {
                    let k = choose|k: int| 0 <= k < i && (#[trigger] changes@[k]) is Some;
                    assert(views[k] is Some);
                }
            }
            if untouched {
                assert(is_block_change(*source, views, None, *rebuild));
                return Ok(None);
            }
            let replacements: Vec<Replacement> = regroup(&source.compact_sources, changes, true);
            let ghost groups = choose|groups: Map<u128, u128>| #[trigger]
                are_regrouped(source.compact_sources@, views, true, groups, replacements@);
            assert(are_regrouped(source.compact_sources@, views, true, groups, replacements@));
            let ghost listed = replacements@;
            let parts: Vec<EditOperation> = collect_operations(replacements);
            if parts.len() == 0 {
                let nothing: Vec<EditOperation> = Vec::new();
                assert(nothing@ =~= Seq::<EditOperation>::empty());
                assert(is_block_change(*source, views, change_view(Some(nothing)), *rebuild));
                return Ok(Some(nothing));
            }
            let mut block = source.clone();
            let ghost copy = block;
            block.compact_sources = parts;
            assert(is_block_of(*source, all_operations(listed), block)) by {
                assert forall|k: int|
                    0 <= k < block.compact_sources@.len() implies same_operation(
                    #[trigger] block.compact_sources@[k],
                    block.compact_sources@[k],
                ) by {
                    lemma_same_operation_reflexive(block.compact_sources@[k]);
                }
            }
            let ghost given = block;
            match (*rebuild)(block) {
                Ok(rebuilt) => {
                    let mut change: Vec<EditOperation> = Vec::new();
                    change.push(rebuilt);
                    assert(change@ =~= seq![rebuilt]);
                    assert(call_ensures(
                        *rebuild,
                        (given,),
                        Ok::<EditOperation, String>(rebuilt),
                    ));
                    assert(is_block_change(*source, views, change_view(Some(change)), *rebuild));
                    Ok(Some(change))
                },
                Err(error) => {
                    assert(call_ensures(
                        *rebuild,
                        (given,),
                        Err::<EditOperation, String>(error),
                    ));
                    assert(is_rebuild_failure(*source, views, error, *rebuild));
                    assert(are_changes(
                        source.compact_sources@,
                        views,
                        *touches,
                        *cut_paint,
                        *cut_fill,
                        *rebuild,
                    ));
                    Err(error)
                },
            }
        },
    }
}

/// Whether the changes are what the eraser leaves of the sources, one by one.
pub open spec fn are_changes<
    H: EraserReach,
    P: OutlineCut,
    F: OutlineCut,
    R: Fn(EditOperation) -> Result<EditOperation, String>,
>(
    sources: Seq<EditOperation>,
    changes: Seq<Option<Seq<EditOperation>>>,
    touches: H,
    cut_paint: P,
    cut_fill: F,
    rebuild: R,
) -> bool {
    &&& changes.len() == sources.len()
    &&& forall|i: int|
        0 <= i < sources.len() ==> is_change(
            #[trigger] sources[i],
            changes[i],
            touches,
            cut_paint,
            cut_fill,
            rebuild,
        )
}

proof fn lemma_are_changes<
    H: EraserReach,
    P: OutlineCut,
    F: OutlineCut,
    R: Fn(EditOperation) -> Result<EditOperation, String>,
>(
    sources: Seq<EditOperation>,
    changes: Seq<Option<Vec<EditOperation>>>,
    touches: H,
    cut_paint: P,
    cut_fill: F,
    rebuild: R,
)
    requires
        changes.len() <= sources.len(),
        forall|k: int|
            0 <= k < changes.len() ==> is_change(
                #[trigger] sources[k],
                change_view(changes[k]),
                touches,
                cut_paint,
                cut_fill,
                rebuild,
            ),
    ensures
        are_changes(
            sources.take(changes.len() as int),
            changes_view(changes),
            touches,
            cut_paint,
            cut_fill,
            rebuild,
        ),
{
    let first = sources.take(changes.len() as int);
    assert forall|k: int| 0 <= k < first.len() implies is_change(
        #[trigger] first[k],
        changes_view(changes)[k],
        touches,
        cut_paint,
        cut_fill,
        rebuild,
    ) by {
        assert(first[k] == sources[k]);
        assert(changes_view(changes)[k] == change_view(changes[k]));
    }
}

/// Whether the eraser can fail on the sources with the error: on the first one
/// of them that it fails on.
pub open spec fn can_fail_on_sources<
    H: EraserReach,
    P: OutlineCut,
    F: OutlineCut,
    R: Fn(EditOperation) -> Result<EditOperation, String>,
>(
    sources: Seq<EditOperation>,
    error: String,
    touches: H,
    cut_paint: P,
    cut_fill: F,
    rebuild: R,
) -> bool {
    exists|i: int, changes: Seq<Option<Seq<EditOperation>>>|
        0 <= i < sources.len() && #[trigger] are_changes(
            sources.take(i),
            changes,
            touches,
            cut_paint,
            cut_fill,
            rebuild,
        ) && can_fail(sources[i], error, touches, cut_paint, cut_fill, rebuild)
}

/// Whether the replacements are what the eraser leaves of the sources, with the
/// parts of each object together.
pub open spec fn is_outcome<
    H: EraserReach,
    P: OutlineCut,
    F: OutlineCut,
    R: Fn(EditOperation) -> Result<EditOperation, String>,
>(
    sources: Seq<EditOperation>,
    replacements: Seq<Replacement>,
    touches: H,
    cut_paint: P,
    cut_fill: F,
    rebuild: R,
) -> bool {
    exists|changes: Seq<Option<Seq<EditOperation>>>, groups: Map<u128, u128>|
        are_changes(sources, changes, touches, cut_paint, cut_fill, rebuild)
            && #[trigger] are_regrouped(sources, changes, false, groups, replacements)
}

/// What the eraser leaves of the sources: those of which nothing was taken away
/// stay, unless they are parts of an object of which something was. Without a
/// place where the eraser went nothing changes.
pub fn subtract_eraser_sources<
    H: EraserReach,
    P: OutlineCut,
    F: OutlineCut,
    R: Fn(EditOperation) -> Result<EditOperation, String>,
>(
    sources: &Vec<EditOperation>,
    eraser_has_bounds: bool,
    touches: &H,
    cut_paint: &P,
    cut_fill: &F,
    rebuild: &R,
) -> (result: Result<Vec<Replacement>, String>)
    requires
        touches.is_ready(),
        cut_paint.is_ready(),
        cut_fill.is_ready(),
        forall|operation: EditOperation| #[trigger] call_requires(*rebuild, (operation,)),
    ensures
        !eraser_has_bounds ==> result is Ok && result->Ok_0@.len() == 0,
        eraser_has_bounds && result is Ok ==> is_outcome(
            sources@,
            result->Ok_0@,
            *touches,
            *cut_paint,
            *cut_fill,
            *rebuild,
        ),
        result is Err ==> can_fail_on_sources(
            sources@,
            result->Err_0,
            *touches,
            *cut_paint,
            *cut_fill,
            *rebuild,
        ),
{
    if !eraser_has_bounds {
        return Ok(Vec::new());
    }
    let mut changes: Vec<Option<Vec<EditOperation>>> = Vec::new();
    let mut i: usize = 0;
    while i < sources.len()
        invariant
            i <= sources@.len(),
            changes@.len() == i,
            eraser_has_bounds,
            touches.is_ready(),
            cut_paint.is_ready(),
            cut_fill.is_ready(),
            forall|operation: EditOperation| #[trigger] call_requires(*rebuild, (operation,)),
            forall|k: int|
                0 <= k < i ==> is_change(
                    #[trigger] sources@[k],
                    change_view(changes@[k]),
                    *touches,
                    *cut_paint,
                    *cut_fill,
                    *rebuild,
                ),
        decreases sources@.len() - i,
    {
        match subtract_eraser_operation(&sources[i], touches, cut_paint, cut_fill, rebuild) {
            Ok(change) => {
                changes.push(change);
            },
            Err(error) => {
                proof {
                    lemma_are_changes(
                        sources@,
                        changes@,
                        *touches,
                        *cut_paint,
                        *cut_fill,
                        *rebuild,
                    );
                }
                return Err(error);
            },
        }
        i = i + 1;
    }
    let ghost views = changes_view(changes@);
    assert forall|k: int| 0 <= k < sources@.len() implies is_change(
        #[trigger] sources@[k],
        views[k],
        *touches,
        *cut_paint,
        *cut_fill,
        *rebuild,
    ) by {
        assert(views[k] == change_view(changes@[k]));
    }
    let replacements: Vec<Replacement> = regroup(sources, changes, false);
    let ghost groups = choose|groups: Map<u128, u128>| #[trigger]
        are_regrouped(sources@, views, false, groups, replacements@);
    assert(are_changes(sources@, views, *touches, *cut_paint, *cut_fill, *rebuild));
    assert(are_regrouped(sources@, views, false, groups, replacements@));
    assert(is_outcome(sources@, replacements@, *touches, *cut_paint, *cut_fill, *rebuild));
    Ok(replacements)
}

/// Parts of one object stay one object: what takes the place of two filled
/// areas of one object of which something was taken away is in one fill group.
pub proof fn law_objects_stay_together(
    sources: Seq<EditOperation>,
    changes: Seq<Option<Seq<EditOperation>>>,
    keeps_untouched: bool,
    groups: Map<u128, u128>,
    replacements: Seq<Replacement>,
    first: int,
    second: int,
    j: int,
    k: int,
)
    requires
        are_regrouped(sources, changes, keeps_untouched, groups, replacements),
        0 <= first < replacements.len(),
        0 <= second < replacements.len(),
        0 <= j < replacements[first].operations@.len(),
        0 <= k < replacements[second].operations@.len(),
        sources[replacements[first].source as int].object()
            == sources[replacements[second].source as int].object(),
        is_regrouped(sources, changes, replacements[first].source as int),
        is_regrouped(sources, changes, replacements[second].source as int),
    ensures
        replacements[first].operations@[j].shares_fill_group(replacements[second].operations@[k]),
{
    let left = replacements[first].source as int;
    let right = replacements[second].source as int;
    let group = groups[sources[left].object()];
    assert(are_replacements(
        sources[left],
        changes[left],
        Some(group),
        replacements[first].operations@,
    ));
    assert(are_replacements(
        sources[right],
        changes[right],
        Some(group),
        replacements[second].operations@,
    ));
    assert(replacements[first].operations@[j].fill_group_id == Some(group));
    assert(replacements[second].operations@[k].fill_group_id == Some(group));
}

/// A replacement that moves to a group is otherwise what it was, and one that
/// moves to none stays what it was.
pub proof fn law_moving_to_a_group_changes_nothing_else(
    before: EditOperation,
    group: Option<u128>,
    after: EditOperation,
)
    requires
        moved_to_group(before, group, after),
    ensures
        group is Some ==> after.fill_group_id == group,
        group is None ==> same_operation(before, after),
        same_operation(before, (EditOperation { fill_group_id: before.fill_group_id, ..after })),
{
    reveal_with_fuel(same_operation, 2);
}

/// A fragment has its own points; an area that was filled is no longer smooth,
/// and in all else the fragment is what was cut.
pub proof fn law_fragments_differ_by_their_points(
    source: EditOperation,
    points: Seq<PointView>,
    fragment: EditOperation,
)
    requires
        is_fragment(source, points, fragment),
    ensures
        fragment.points@.len() == points.len(),
        forall|i: int| 0 <= i < points.len() ==> (#[trigger] fragment.points@[i])@ == points[i],
        source.kind == EditKind::Fill ==> !fragment.smooth_area,
        source.kind != EditKind::Fill ==> fragment.smooth_area == source.smooth_area,
        fragment.kind == source.kind,
        fragment.color == source.color,
        fragment.width_px == source.width_px,
        fragment.order() == source.order(),
        fragment.object() == source.object(),
        fragment.native_depth == source.native_depth,
        fragment.native_zoom == source.native_zoom,
{
    assert(point_views(fragment.points@).len() == points.len());
    assert forall|i: int| 0 <= i < points.len() implies (#[trigger] fragment.points@[i])@
        == points[i] by {
        assert(point_views(fragment.points@)[i] == fragment.points@[i]@);
    }
}

} // verus!
