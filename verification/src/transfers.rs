//! Objects that come from the clipboard or move to another layer: they are what
//! is selected afterwards.

use crate::editor::Editor;
use crate::edits::SelectionClipboard;
use crate::ids::id_set;
use crate::layers::{layer_index, place_of, Layer, LayerPanel};
use crate::model::EditOperation;
use crate::selection::{selected_object_count, selected_objects};
use crate::text::natural_text;
use vstd::prelude::*;

verus! {

broadcast use vstd::std_specs::hash::group_hash_axioms;

/// The name of the layer that objects move to, or why they cannot.
pub fn move_target_name(layers: &Vec<Layer>, target_id: u128) -> (name: Result<
    String,
    &'static str,
>)
    ensures
        match place_of(layers@, target_id) {
            Some(place) => name is Ok && name->Ok_0@ == layers@[place].name@,
            None => name is Err && name->Err_0@ == "Target layer not found"@,
        },
{
    match layer_index(layers, target_id) {
        Some(index) => Ok(layers[index].name.clone()),
        None => Err("Target layer not found"),
    }
}

/// The number of objects among the operations with the identifiers, as text.
pub open spec fn object_number(operations: Seq<EditOperation>, ids: Set<u128>) -> Seq<char> {
    natural_text(selected_objects(operations, ids, operations.len() as int).len() as int)
}

impl Editor {
    /// Ends a paste, whose operations get the identifiers `pasted`: these are
    /// selected then, and nothing else is. `operations` are those of the drawing
    /// afterwards. Returns what to tell the user.
    pub fn finish_paste(
        &mut self,
        operations: &Vec<EditOperation>,
        in_place: bool,
        pasted: Result<Vec<u128>, String>,
    ) -> (message: String)
        requires
            old(self).wf(),
        ensures
            final(self).wf(),
            match pasted {
                Ok(ids) => if ids@.len() > 0 {
                    &&& final(self).selection.selected_operation_ids@ == ids@.to_set()
                    &&& final(self).selection.objects_rest()
                    &&& final(self).selection.area_cleared()
                    &&& final(self).selection.eraser_cleared()
                    &&& final(self).selection.same_modes(old(self).selection)
                    &&& final(self).everything_is_drawn_anew(*old(self))
                    &&& final(self).clipboard == (SelectionClipboard {
                        paste_count: if !in_place && old(self).clipboard.paste_count < u32::MAX {
                            (old(self).clipboard.paste_count + 1) as u32
                        } else {
                            old(self).clipboard.paste_count
                        },
                        ..old(self).clipboard
                    })
                    &&& *final(self) == (Editor {
                        selection: final(self).selection,
                        clipboard: final(self).clipboard,
                        tiles: final(self).tiles,
                        renderer: final(self).renderer,
                        ..*old(self)
                    })
                    &&& message@ == "Pasted "@ + object_number(operations@, ids@.to_set())
                        + if in_place {
                        " objects in place"@
                    } else {
                        " objects"@
                    }
                } else {
                    *final(self) == *old(self) && message@ == "Clipboard is empty"@
                },
                Err(error) => *final(self) == *old(self) && message@ == "Paste failed: "@ + error@,
            },
    {
        let effect = match pasted {
            Ok(ids) => {
                if ids.len() > 0 {
                    let selected = id_set(&ids);
                    let count: usize = selected_object_count(operations, &selected);
                    let effect = self.clipboard.finish_paste(in_place, Ok(Some(count as u64)));
                    self.apply_edit_effect(&effect, false);
                    self.selection.selected_operation_ids = selected;
                    return effect.message;
                }
                self.clipboard.finish_paste(in_place, Ok(None))
            },
            Err(error) => self.clipboard.finish_paste(in_place, Err(error)),
        };
        effect.message
    }

    /// Ends the move of the selected operations to a layer, where they have the
    /// identifiers `moved`: the layer is active then, and they are selected.
    /// `operations` are those of the drawing afterwards. Returns what to tell the
    /// user.
    pub fn finish_move_selection(
        &mut self,
        operations: &Vec<EditOperation>,
        target_id: u128,
        target_name: String,
        moved: Result<Vec<u128>, String>,
    ) -> (message: String)
        requires
            old(self).wf(),
        ensures
            final(self).wf(),
            match moved {
                Ok(ids) => if ids@.len() > 0 {
                    &&& final(self).layers == (LayerPanel {
                        active_layer_id: target_id,
                        name_edit: target_name,
                        ..old(self).layers
                    })
                    &&& final(self).selection.selected_operation_ids@ == ids@.to_set()
                    &&& final(self).selection.same_modes(old(self).selection)
                    &&& if target_id != old(self).layers.active_layer_id {
                        &&& final(self).selection.objects_rest()
                        &&& final(self).selection.area_cleared()
                        &&& final(self).selection.eraser_cleared()
                    } else {
                        &&& final(self).selection.gestures == old(self).selection.gestures
                        &&& final(self).selection.same_but_objects(old(self).selection)
                    }
                    &&& final(self).everything_is_drawn_anew(*old(self))
                    &&& *final(self) == (Editor {
                        selection: final(self).selection,
                        layers: final(self).layers,
                        tiles: final(self).tiles,
                        renderer: final(self).renderer,
                        ..*old(self)
                    })
                    &&& message@ == "Moved "@ + object_number(operations@, ids@.to_set())
                        + " objects to "@ + target_name@
                } else {
                    *final(self) == *old(self) && message@ == "Nothing moved"@
                },
                Err(error) => *final(self) == *old(self) && message@ == "Move to layer failed: "@
                    + error@,
            },
    {
        let effect = match moved {
            Ok(ids) => {
                if ids.len() > 0 {
                    let selected = id_set(&ids);
                    let count: usize = selected_object_count(operations, &selected);
                    let effect = self.layers.finish_move_selection(
                        target_id,
                        target_name,
                        Ok(Some(count as u64)),
                    );
                    self.apply_layer_effect(&effect);
                    self.selection.selected_operation_ids = selected;
                    return effect.message;
                }
                self.layers.finish_move_selection(target_id, target_name, Ok(None))
            },
            Err(error) => self.layers.finish_move_selection(target_id, target_name, Err(error)),
        };
        effect.message
    }
}

} // verus!
