//! Steps back and forward in the history of the drawing.

use crate::editor::Editor;
use crate::edits::{finish_redo, finish_undo, Clearing, EditEffect, Refresh};
use crate::layers::Layer;
use vstd::prelude::*;

verus! {

impl Editor {
    /// What a step in the history has come to: all selections are dropped, and
    /// where a step was made, all is drawn anew with the layers that are there.
    pub open spec fn has_stepped(
        self,
        before: Editor,
        layers: Seq<Layer>,
        stepped: Result<bool, String>,
    ) -> bool {
        &&& self.tools_cleared()
        &&& self.selection.same_modes(before.selection)
        &&& if stepped == Ok::<bool, String>(true) {
            &&& self.layers.has_synced(before.layers, layers)
            &&& self.everything_is_drawn_anew(before)
            &&& self == (Editor {
                selection: self.selection,
                layers: self.layers,
                tiles: self.tiles,
                renderer: self.renderer,
                ..before
            })
        } else {
            self == (Editor { selection: self.selection, ..before })
        }
    }

    fn step(&mut self, layers: &Vec<Layer>, effect: &EditEffect, stepped: bool)
        requires
            old(self).wf(),
            effect.clearing == Clearing::All,
            effect.refresh == if stepped {
                Refresh::Everything
            } else {
                Refresh::Nothing
            },
        ensures
            final(self).wf(),
            final(self).has_stepped(*old(self), layers@, Ok(stepped)),
    {
        self.apply_edit_effect(effect, false);
        if stepped {
            self.layers.sync_active_layer_after_history(layers);
        }
    }

    /// Ends a step back; `undone` tells whether there was one. Returns what to
    /// tell the user.
    pub fn run_undo(&mut self, layers: &Vec<Layer>, undone: Result<bool, String>) -> (message:
        String)
        requires
            old(self).wf(),
        ensures
            final(self).wf(),
            final(self).has_stepped(*old(self), layers@, undone),
            message@ == match undone {
                Ok(true) => "Undone"@,
                Ok(false) => "Nothing to undo"@,
                Err(error) => "Undo failed: "@ + error@,
            },
    {
        let stepped: bool = match &undone {
            Ok(stepped) => *stepped,
            Err(_) => false,
        };
        let effect = finish_undo(undone);
        self.step(layers, &effect, stepped);
        effect.message
    }

    /// Ends a step forward; `redone` tells whether there was one. Returns what to
    /// tell the user.
    pub fn run_redo(&mut self, layers: &Vec<Layer>, redone: Result<bool, String>) -> (message:
        String)
        requires
            old(self).wf(),
        ensures
            final(self).wf(),
            final(self).has_stepped(*old(self), layers@, redone),
            message@ == match redone {
                Ok(true) => "Redone"@,
                Ok(false) => "Nothing to redo"@,
                Err(error) => "Redo failed: "@ + error@,
            },
    {
        let stepped: bool = match &redone {
            Ok(stepped) => *stepped,
            Err(_) => false,
        };
        let effect = finish_redo(redone);
        self.step(layers, &effect, stepped);
        effect.message
    }
}

} // verus!
