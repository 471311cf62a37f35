//! What becomes of the selection when its objects were changed.

use crate::edits::{
    finish_compact, finish_selection_edit, Clearing, EditEffect, Refresh, SelectionEdit,
};
use crate::gestures::SelectionGestures;
use crate::ids::id_set;
use crate::model::EditOperation;
use crate::screen::{less_than, number_less_than, Position};
use crate::selection::{selected_object_count, selected_objects};
use crate::selection_order::{replaced, replaced_selection};
use crate::selection_state::SelectionState;
use crate::text::natural_text;
use std::collections::HashSet;
use vstd::prelude::*;

verus! {

broadcast use vstd::std_specs::hash::group_hash_axioms;

/// The bit pattern of the distance from which on a move of the selection counts.
pub const LEAST_MOVE: u32 = 0x3f00_0000;

/// Whether the selection was dragged far enough to be moved.
pub fn move_counts(length: u32) -> (counts: bool)
    ensures
        counts == !less_than(length, LEAST_MOVE),
{
    !number_less_than(length, LEAST_MOVE)
}

/// `moved` may be where `shift` takes a position, where there is one.
pub open spec fn may_shift<F: Fn(Position) -> Position>(
    position: Option<Position>,
    shift: F,
    moved: Option<Position>,
) -> bool {
    match (position, moved) {
        (Some(from), Some(to)) => call_ensures(shift, (from,), to),
        (None, None) => true,
        _ => false,
    }
}

fn shifted<F: Fn(Position) -> Position>(position: Option<Position>, shift: &F) -> (moved: Option<
    Position,
>)
    requires
        forall|from: Position| #[trigger] call_requires(*shift, (from,)),
    ensures
        may_shift(position, *shift, moved),
{
    match position {
        Some(from) => Some((*shift)(from)),
        None => None,
    }
}

impl SelectionState {
    /// Nothing but the selected objects and the gestures differs from `other`.
    pub open spec fn same_but_objects(self, other: SelectionState) -> bool {
        &&& self.same_modes(other)
        &&& self.same_area(other)
        &&& self.same_eraser(other)
        &&& self.cycle == other.cycle
    }

    /// What the user is told of a change of the selected objects.
    pub open spec fn tells_change(
        self,
        operations: Seq<EditOperation>,
        edit: SelectionEdit,
        amount: Seq<char>,
        effect: EditEffect,
    ) -> bool {
        effect.is(
            edit.done(
                selected_objects(
                    operations,
                    self.selected_operation_ids@,
                    operations.len() as int,
                ).len() as int,
                amount,
            ),
            Clearing::Nothing,
            Refresh::Layer,
        )
    }

    /// Ends a change of the selected objects, which `replacement_ids` take the
    /// place of: these are selected then. `operations` are those of the drawing
    /// after the change.
    pub fn finish_transform(
        &mut self,
        operations: &Vec<EditOperation>,
        edit: SelectionEdit,
        amount: &str,
        replacement_ids: Result<Vec<u128>, String>,
    ) -> (effect: EditEffect)
        requires
            old(self).wf(),
        ensures
            final(self).wf(),
            final(self).same_but_objects(*old(self)),
            final(self).gestures == old(self).gestures,
            match replacement_ids {
                Ok(ids) => if ids@.len() > 0 {
                    &&& final(self).selected_operation_ids@ == ids@.to_set()
                    &&& final(self).tells_change(operations@, edit, amount@, effect)
                } else {
                    &&& final(self).same_objects(*old(self))
                    &&& effect.only_tells(edit.nothing_done())
                },
                Err(error) => {
                    &&& final(self).same_objects(*old(self))
                    &&& effect.only_tells(edit.failure() + error@)
                },
            },
    {
        match replacement_ids {
            Ok(ids) => {
                if ids.len() == 0 {
                    return finish_selection_edit(edit, amount, Ok(None));
                }
                self.selected_operation_ids = id_set(&ids);
                let count: usize = selected_object_count(operations, &self.selected_operation_ids);
                finish_selection_edit(edit, amount, Ok(Some(count as u64)))
            },
            Err(error) => finish_selection_edit(edit, amount, Err(error)),
        }
    }

    /// Ends a move of the selected objects: the rectangle that selected them
    /// moves along.
    pub fn finish_moved<F: Fn(Position) -> Position>(
        &mut self,
        operations: &Vec<EditOperation>,
        shift: &F,
        replacement_ids: Result<Vec<u128>, String>,
    ) -> (effect: EditEffect)
        requires
            old(self).wf(),
            forall|from: Position| #[trigger] call_requires(*shift, (from,)),
        ensures
            final(self).wf(),
            final(self).same_but_objects(*old(self)),
            match replacement_ids {
                Ok(ids) => if ids@.len() > 0 {
                    &&& final(self).selected_operation_ids@ == ids@.to_set()
                    &&& final(self).tells_change(operations@, SelectionEdit::Move, ""@, effect)
                    &&& may_shift(
                        old(self).gestures.drag_start,
                        *shift,
                        final(self).gestures.drag_start,
                    )
                    &&& may_shift(
                        old(self).gestures.drag_current,
                        *shift,
                        final(self).gestures.drag_current,
                    )
                    &&& final(self).gestures == (SelectionGestures {
                        drag_start: final(self).gestures.drag_start,
                        drag_current: final(self).gestures.drag_current,
                        ..old(self).gestures
                    })
                } else {
                    &&& final(self).same_objects(*old(self))
                    &&& effect.only_tells("Nothing moved"@)
                },
                Err(error) => {
                    &&& final(self).same_objects(*old(self))
                    &&& effect.only_tells("Move failed: "@ + error@)
                },
            },
    {
        let moves: bool = match &replacement_ids {
            Ok(ids) => ids.len() > 0,
            Err(_) => false,
        };
        if moves {
            self.gestures.drag_start = shifted(self.gestures.drag_start, shift);
            self.gestures.drag_current = shifted(self.gestures.drag_current, shift);
        }
        self.finish_transform(operations, SelectionEdit::Move, "", replacement_ids)
    }

    /// Ends a change of color of the selected objects; each pair holds what was
    /// replaced and what took its place. What was not replaced stays selected.
    pub fn finish_recolor(
        &mut self,
        operations: &Vec<EditOperation>,
        replacements: Result<Vec<(u128, u128)>, String>,
    ) -> (effect: EditEffect)
        requires
            old(self).wf(),
        ensures
            final(self).wf(),
            final(self).same_but_objects(*old(self)),
            final(self).gestures == old(self).gestures,
            match replacements {
                Ok(pairs) => if pairs@.len() > 0 {
                    &&& forall|id: u128| #[trigger]
                        final(self).selected_operation_ids@.contains(id) <==> exists|source: u128|
                            #[trigger] old(self).selected_operation_ids@.contains(source)
                                && replaced(pairs@, source) == id
                    &&& final(self).tells_change(operations@, SelectionEdit::Recolor, ""@, effect)
                } else {
                    &&& final(self).same_objects(*old(self))
                    &&& effect.only_tells("Nothing recolored"@)
                },
                Err(error) => {
                    &&& final(self).same_objects(*old(self))
                    &&& effect.only_tells("Recolor failed: "@ + error@)
                },
            },
    {
        match replacements {
            Ok(pairs) => {
                if pairs.len() == 0 {
                    return finish_selection_edit(SelectionEdit::Recolor, "", Ok(None));
                }
                self.selected_operation_ids = replaced_selection(
                    &self.selected_operation_ids,
                    &pairs,
                );
                let count: usize = selected_object_count(operations, &self.selected_operation_ids);
                finish_selection_edit(SelectionEdit::Recolor, "", Ok(Some(count as u64)))
            },
            Err(error) => finish_selection_edit(SelectionEdit::Recolor, "", Err(error)),
        }
    }

    /// Ends the compaction of the selected operations; `Ok` holds the block that
    /// took their place, where one did: it alone is selected then.
    pub fn finish_compaction(&mut self, compacted: Result<Option<u128>, String>) -> (effect:
        EditEffect)
        requires
            old(self).wf(),
        ensures
            final(self).wf(),
            final(self).same_but_objects(*old(self)),
            final(self).gestures == old(self).gestures,
            match compacted {
                Ok(Some(block)) => {
                    &&& final(self).selected_operation_ids@ == Set::<u128>::empty().insert(block)
                    &&& effect.is(
                        "Compacted "@ + natural_text(old(self).selected_operation_ids@.len() as int)
                            + " objects"@,
                        Clearing::Nothing,
                        Refresh::Everything,
                    )
                },
                Ok(None) => {
                    &&& final(self).same_objects(*old(self))
                    &&& effect.only_tells("Nothing compacted"@)
                },
                Err(error) => {
                    &&& final(self).same_objects(*old(self))
                    &&& effect.only_tells("Compact failed: "@ + error@)
                },
            },
    {
        let selected: usize = self.selected_operation_ids.len();
        match compacted {
            Ok(Some(block)) => {
                let mut ids: HashSet<u128> = HashSet::new();
                ids.insert(block);
                self.selected_operation_ids = ids;
                finish_compact(selected, Ok(true))
            },
            Ok(None) => finish_compact(selected, Ok(false)),
            Err(error) => finish_compact(selected, Err(error)),
        }
    }
}

} // verus!
