//! What a click or a rectangle selects.

use crate::model::EditOperation;
use crate::selection::{
    applied_selection, apply_selection_ids, fully_contained, fully_contained_object_operation_ids,
    object_is_contained, selected_object_count, selected_objects, RectangleSelectionMode,
};
use crate::selection_state::SelectionState;
use crate::text::{decimal_text, with_number};
use std::collections::HashSet;
use vstd::prelude::*;

verus! {

/// Whether the operation with this identifier may be picked and is hit.
pub open spec fn is_hit(
    operations: Seq<EditOperation>,
    candidates: Set<u128>,
    hits: Seq<bool>,
    id: u128,
) -> bool {
    candidates.contains(id) && exists|i: int|
        0 <= i < operations.len() && (#[trigger] operations[i]).id == id && hits[i]
}

/// Whether the rectangle picks the operation with this identifier: all that is
/// hit, and where it takes what lies inside only objects that do so completely.
pub open spec fn is_picked(
    operations: Seq<EditOperation>,
    candidates: Set<u128>,
    hits: Seq<bool>,
    mode: RectangleSelectionMode,
    layer_id: u128,
    id: u128,
) -> bool {
    match mode {
        RectangleSelectionMode::Crossing => is_hit(operations, candidates, hits, id),
        RectangleSelectionMode::Inside => fully_contained(
            operations,
            Set::new(|hit: u128| is_hit(operations, candidates, hits, hit)),
            layer_id,
            id,
        ),
    }
}

fn hit_ids(
    operations: &Vec<EditOperation>,
    candidates: &HashSet<u128>,
    hits: &Vec<bool>,
) -> (ids: HashSet<u128>)
    requires
        hits@.len() == operations@.len(),
    ensures
        forall|id: u128| #[trigger]
            ids@.contains(id) <==> is_hit(operations@, candidates@, hits@, id),
{
    let mut ids: HashSet<u128> = HashSet::new();
    let mut i: usize = 0;
    while i < operations.len()
        invariant
            hits@.len() == operations@.len(),
            i <= operations@.len(),
            forall|id: u128| #[trigger]
                ids@.contains(id) ==> is_hit(operations@, candidates@, hits@, id),
            forall|k: int|
                0 <= k < i && hits@[k] && candidates@.contains((#[trigger] operations@[k]).id)
                    ==> ids@.contains(operations@[k].id),
        decreases operations@.len() - i,
    {
        let id: u128 = operations[i].id;
        if hits[i] && candidates.contains(&id) {
            assert(is_hit(operations@, candidates@, hits@, operations@[i as int].id));
            ids.insert(id);
        }
        i = i + 1;
    }
    ids
}

/// The operations that a rectangle picks. `hits` tells of each operation whether
/// it lies inside, or crosses the rectangle.
pub fn rectangle_matches(
    operations: &Vec<EditOperation>,
    candidates: &HashSet<u128>,
    hits: &Vec<bool>,
    mode: RectangleSelectionMode,
    layer_id: u128,
) -> (matches: HashSet<u128>)
    requires
        hits@.len() == operations@.len(),
    ensures
        forall|id: u128| #[trigger]
            matches@.contains(id) <==> is_picked(
                operations@,
                candidates@,
                hits@,
                mode,
                layer_id,
                id,
            ),
{
    let ids: HashSet<u128> = hit_ids(operations, candidates, hits);
    match mode {
        RectangleSelectionMode::Crossing => ids,
        RectangleSelectionMode::Inside => {
            assert(ids@ =~= Set::new(|hit: u128| is_hit(operations@, candidates@, hits@, hit)));
            fully_contained_object_operation_ids(operations, &ids, layer_id)
        },
    }
}

/// Whether a position hits something that is selected. `hits` tells of each
/// operation whether it lies there.
pub fn position_hits_selected(
    operations: &Vec<EditOperation>,
    selected: &HashSet<u128>,
    hits: &Vec<bool>,
) -> (result: bool)
    requires
        hits@.len() == operations@.len(),
    ensures
        result == exists|i: int|
            0 <= i < operations@.len() && selected@.contains((#[trigger] operations@[i]).id)
                && hits@[i],
{
    let mut i: usize = 0;
    while i < operations.len()
        invariant
            hits@.len() == operations@.len(),
            i <= operations@.len(),
            forall|k: int|
                0 <= k < i && selected@.contains((#[trigger] operations@[k]).id) ==> !hits@[k],
        decreases operations@.len() - i,
    {
        if selected.contains(&operations[i].id) && hits[i] {
            assert(selected@.contains(operations@[i as int].id));
            return true;
        }
        i = i + 1;
    }
    false
}

/// What is told of the number of selected objects.
pub fn selected_message(count: usize) -> (message: String)
    ensures
        message@ == "Selected "@ + decimal_text(count as int) + " objects"@,
{
    with_number("Selected ", count as u64, " objects")
}

impl SelectionState {
    /// Selects the objects that a click or rectangle picked, and tells how many
    /// are selected now. A rectangle ends the walk through the objects under a
    /// position.
    pub fn select_picked(
        &mut self,
        operations: &Vec<EditOperation>,
        object_ids: &HashSet<u128>,
        shift: bool,
        ctrl: bool,
        ends_cycle: bool,
    ) -> (message: String)
        requires
            old(self).wf(),
        ensures
            final(self).wf(),
            final(self).same_modes(*old(self)),
            final(self).same_area(*old(self)),
            final(self).same_eraser(*old(self)),
            final(self).gestures == old(self).gestures,
            !ends_cycle ==> final(self).cycle == old(self).cycle,
            ends_cycle ==> {
                &&& final(self).cycle.position is None
                &&& final(self).cycle.candidates@.len() == 0
                &&& final(self).cycle.index == 0
            },
            final(self).selected_operation_ids@ == applied_selection(
                old(self).selected_operation_ids@,
                object_ids@,
                shift,
                ctrl,
            ),
            message@ == "Selected "@ + decimal_text(
                selected_objects(
                    operations@,
                    final(self).selected_operation_ids@,
                    operations@.len() as int,
                ).len() as int,
            ) + " objects"@,
    {
        apply_selection_ids(&mut self.selected_operation_ids, object_ids, shift, ctrl);
        if ends_cycle {
            self.cycle.reset();
        }
        selected_message(selected_object_count(operations, &self.selected_operation_ids))
    }
}

/// A rectangle that crosses picks whatever candidate it hits; one that has to
/// contain picks, of the layer, objects all of whose operations it hits, and leaves
/// out every object of which it misses one.
pub proof fn law_rectangles_pick_by_their_mode(
    operations: Seq<EditOperation>,
    candidates: Set<u128>,
    hits: Seq<bool>,
    layer_id: u128,
    at: int,
    missed: int,
)
    requires
        0 <= at < operations.len(),
        0 <= missed < operations.len(),
        hits.len() == operations.len(),
        forall|i: int, j: int|
            0 <= i < operations.len() && 0 <= j < operations.len() && (#[trigger] operations[i]).id
                == (#[trigger] operations[j]).id ==> i == j,
    ensures
        is_picked(
            operations,
            candidates,
            hits,
            RectangleSelectionMode::Crossing,
            layer_id,
            operations[at].id,
        ) <==> candidates.contains(operations[at].id) && hits[at],
        !(candidates.contains(operations[missed].id) && hits[missed])
            && operations[missed].layer_id == layer_id && operations[missed].object()
            == operations[at].object() ==> !is_picked(
            operations,
            candidates,
            hits,
            RectangleSelectionMode::Inside,
            layer_id,
            operations[at].id,
        ),
        operations[at].layer_id != layer_id ==> !is_picked(
            operations,
            candidates,
            hits,
            RectangleSelectionMode::Inside,
            layer_id,
            operations[at].id,
        ),
        operations[at].layer_id == layer_id && (forall|k: int|
            0 <= k < operations.len() && (#[trigger] operations[k]).layer_id == layer_id
                && operations[k].object() == operations[at].object() ==> candidates.contains(
                operations[k].id,
            ) && hits[k]) ==> is_picked(
            operations,
            candidates,
            hits,
            RectangleSelectionMode::Inside,
            layer_id,
            operations[at].id,
        ),
{
    let hit = Set::new(|id: u128| is_hit(operations, candidates, hits, id));
    assert forall|k: int| 0 <= k < operations.len() implies (hit.contains(
        (#[trigger] operations[k]).id,
    ) <==> candidates.contains(operations[k].id) && hits[k]) by {
        if is_hit(operations, candidates, hits, operations[k].id) {
            let i = choose|i: int|
                0 <= i < operations.len() && (#[trigger] operations[i]).id == operations[k].id
                    && hits[i];
            assert(i == k);
        }
    }
    if fully_contained(operations, hit, layer_id, operations[at].id) {
        let i = choose|i: int|
            0 <= i < operations.len() && (#[trigger] operations[i]).id == operations[at].id
                && operations[i].layer_id == layer_id && object_is_contained(
                operations,
                hit,
                layer_id,
                operations[i].object(),
            );
        assert(i == at);
        assert(object_is_contained(operations, hit, layer_id, operations[at].object()));
    }
    if operations[at].layer_id == layer_id && (forall|k: int|
        0 <= k < operations.len() && (#[trigger] operations[k]).layer_id == layer_id
            && operations[k].object() == operations[at].object() ==> candidates.contains(
            operations[k].id,
        ) && hits[k]) {
        assert forall|k: int|
            0 <= k < operations.len() && (#[trigger] operations[k]).layer_id == layer_id
                && operations[k].object() == operations[at].object() implies hit.contains(
            operations[k].id,
        ) by {
            assert(candidates.contains(operations[k].id) && hits[k]);
        }
        assert(object_is_contained(operations, hit, layer_id, operations[at].object()));
    }
}

} // verus!
