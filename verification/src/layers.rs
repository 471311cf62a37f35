//! Layers: which one is active, and what the window for layers does.

use crate::coordinates::{trim, trimmed};
use crate::model::EditOperation;
use crate::text::{joined, natural_text, text_of, with_number};
use std::collections::HashMap;
use vstd::prelude::*;

verus! {

broadcast use vstd::std_specs::hash::group_hash_axioms;

/// A layer; the first of a list is at the bottom.
pub struct Layer {
    pub id: u128,
    pub name: String,
    pub visible: bool,
    pub locked: bool,
}

impl Layer {
    /// Whether its contents can be changed.
    pub open spec fn editable(self) -> bool {
        self.visible && !self.locked
    }
}

/// How many of the operations are on the layer.
pub open spec fn operations_on(operations: Seq<EditOperation>, layer_id: u128) -> int
    decreases operations.len(),
{
    if operations.len() == 0 {
        0
    } else {
        operations_on(operations.drop_last(), layer_id) + if operations.last().layer_id
            == layer_id {
            1int
        } else {
            0
        }
    }
}

proof fn lemma_operations_on(operations: Seq<EditOperation>, layer_id: u128)
    ensures
        0 <= operations_on(operations, layer_id) <= operations.len(),
        operations_on(operations, layer_id) > 0 <==> exists|i: int|
            0 <= i < operations.len() && (#[trigger] operations[i]).layer_id == layer_id,
    decreases operations.len(),
{
    if operations.len() > 0 {
        let front = operations.drop_last();
        lemma_operations_on(front, layer_id);
        if operations_on(front, layer_id) > 0 {
            let i = choose|i: int|
                0 <= i < front.len() && (#[trigger] front[i]).layer_id == layer_id;
            assert(operations[i].layer_id == layer_id);
        }
        if operations.last().layer_id == layer_id {
            assert(operations[operations.len() - 1].layer_id == layer_id);
        }
        if exists|i: int| 0 <= i < operations.len() && (#[trigger] operations[i]).layer_id
            == layer_id {
            let i = choose|i: int|
                0 <= i < operations.len() && (#[trigger] operations[i]).layer_id == layer_id;
            if i < front.len() {
                assert(front[i].layer_id == layer_id);
            }
        }
    }
}

/// How many operations are on each layer that has any.
pub fn layer_operation_counts(operations: &Vec<EditOperation>) -> (counts: HashMap<u128, usize>)
    ensures
        forall|layer_id: u128| #[trigger]
            counts@.contains_key(layer_id) <==> operations_on(operations@, layer_id) > 0,
        forall|layer_id: u128| #[trigger]
            counts@.contains_key(layer_id) ==> counts@[layer_id] == operations_on(
                operations@,
                layer_id,
            ),
{
    let mut counts: HashMap<u128, usize> = HashMap::new();
    let mut i: usize = 0;
    assert(operations@.take(0) =~= seq![]);
    while i < operations.len()
        invariant
            i <= operations@.len(),
            forall|layer_id: u128| #[trigger]
                counts@.contains_key(layer_id) <==> operations_on(
                    operations@.take(i as int),
                    layer_id,
                ) > 0,
            forall|layer_id: u128| #[trigger]
                counts@.contains_key(layer_id) ==> counts@[layer_id] == operations_on(
                    operations@.take(i as int),
                    layer_id,
                ),
        decreases operations@.len() - i,
    {
        let layer_id: u128 = operations[i].layer_id;
        proof {
            let before = operations@.take(i as int);
            let after = operations@.take(i + 1);
            assert(after.drop_last() =~= before);
            assert(after.last() == operations@[i as int]);
            lemma_operations_on(before, layer_id);
            assert forall|other: u128| operations_on(after, other) == operations_on(before, other)
                + if operations@[i as int].layer_id == other {
                1int
            } else {
                0
            } by {}
            assert(operations_on(before, layer_id) <= i);
            assert(0 <= operations_on(before, layer_id));
        }
        let count: usize = match counts.get(&layer_id) {
            Some(count) => *count,
            None => 0,
        };
        counts.insert(layer_id, count + 1);
        i = i + 1;
    }
    assert(operations@.take(i as int) =~= operations@);
    counts
}

/// How many of the operations are on the layer.
pub fn count_operations_on(operations: &Vec<EditOperation>, layer_id: u128) -> (count: usize)
    ensures
        count == operations_on(operations@, layer_id),
{
    let mut count: usize = 0;
    let mut i: usize = 0;
    while i < operations.len()
        invariant
            i <= operations@.len(),
            count <= i,
            count == operations_on(operations@.take(i as int), layer_id),
        decreases operations@.len() - i,
    {
        assert(operations@.take(i + 1).drop_last() =~= operations@.take(i as int));
        if operations[i].layer_id == layer_id {
            count = count + 1;
        }
        i = i + 1;
    }
    assert(operations@.take(i as int) =~= operations@);
    count
}

/// Where the layer stands among the layers.
pub open spec fn place_of(layers: Seq<Layer>, layer_id: u128) -> Option<int>
    decreases layers.len(),
{
    if layers.len() == 0 {
        None
    } else if place_of(layers.drop_last(), layer_id) is Some {
        place_of(layers.drop_last(), layer_id)
    } else if layers.last().id == layer_id {
        Some(layers.len() - 1)
    } else {
        None
    }
}

proof fn lemma_place_of(layers: Seq<Layer>, layer_id: u128)
    ensures
        place_of(layers, layer_id) matches Some(place) ==> 0 <= place < layers.len()
            && layers[place].id == layer_id,
        place_of(layers, layer_id) is None ==> forall|i: int|
            0 <= i < layers.len() ==> (#[trigger] layers[i]).id != layer_id,
    decreases layers.len(),
{
    if layers.len() > 0 {
        lemma_place_of(layers.drop_last(), layer_id);
        assert forall|i: int|
            place_of(layers, layer_id) is None && 0 <= i < layers.len() implies (
        #[trigger] layers[i]).id != layer_id by {
            if i < layers.len() - 1 {
                assert(layers.drop_last()[i] == layers[i]);
            }
        }
    }
}

/// Where the layer stands among the layers.
pub fn layer_index(layers: &Vec<Layer>, layer_id: u128) -> (index: Option<usize>)
    ensures
        match index {
            Some(index) => place_of(layers@, layer_id) == Some(index as int) && index
                < layers@.len() && layers@[index as int].id == layer_id,
            None => place_of(layers@, layer_id) is None,
        },
{
    let mut found: Option<usize> = None;
    let mut i: usize = 0;
    while i < layers.len()
        invariant
            i <= layers@.len(),
            match found {
                Some(index) => place_of(layers@.take(i as int), layer_id) == Some(index as int)
                    && index < layers@.len() && layers@[index as int].id == layer_id,
                None => place_of(layers@.take(i as int), layer_id) is None,
            },
        decreases layers@.len() - i,
    {
        assert(layers@.take(i + 1).drop_last() =~= layers@.take(i as int));
        if found.is_none() && layers[i].id == layer_id {
            found = Some(i);
        }
        i = i + 1;
    }
    assert(layers@.take(i as int) =~= layers@);
    found
}

/// Which buttons of the window for layers can be pressed.
#[derive(Debug, Clone, Copy, PartialEq, Eq, Structural)]
pub struct LayerButtons {
    pub duplicate: bool,
    pub delete: bool,
    pub move_up: bool,
    pub move_down: bool,
    pub merge_down: bool,
    pub move_selection: bool,
}

/// Which buttons can be pressed for the active layer.
pub open spec fn buttons_for(
    layers: Seq<Layer>,
    active: u128,
    active_is_editable: bool,
    has_selection: bool,
) -> LayerButtons {
    let place = place_of(layers, active);
    LayerButtons {
        duplicate: place is Some,
        delete: layers.len() > 1,
        move_up: place is Some && place->0 + 1 < layers.len(),
        move_down: place is Some && place->0 > 0,
        merge_down: place is Some && place->0 > 0 && active_is_editable
            && layers[place->0 - 1].editable(),
        move_selection: has_selection && active_is_editable && exists|i: int|
            0 <= i < layers.len() && (#[trigger] layers[i]).id != active && layers[i].editable(),
    }
}

/// Which buttons can be pressed for the active layer.
pub fn layer_buttons(
    layers: &Vec<Layer>,
    active: u128,
    active_is_editable: bool,
    has_selection: bool,
) -> (buttons: LayerButtons)
    ensures
        buttons == buttons_for(layers@, active, active_is_editable, has_selection),
{
    proof {
        lemma_place_of(layers@, active);
    }
    let mut buttons = LayerButtons {
        duplicate: false,
        delete: layers.len() > 1,
        move_up: false,
        move_down: false,
        merge_down: false,
        move_selection: false,
    };
    match layer_index(layers, active) {
        Some(index) => {
            buttons.duplicate = true;
            buttons.move_up = layers.len() - index > 1;
            buttons.move_down = index > 0;
            buttons.merge_down = index > 0 && active_is_editable && layers[index - 1].visible
                && !layers[index - 1].locked;
        },
        None => {},
    }
    if has_selection && active_is_editable {
        let mut i: usize = 0;
        let mut found: bool = false;
        while i < layers.len()
            invariant
                i <= layers@.len(),
                found == exists|k: int|
                    0 <= k < i && (#[trigger] layers@[k]).id != active && layers@[k].editable(),
            decreases layers@.len() - i,
        {
            if layers[i].id != active && layers[i].visible && !layers[i].locked {
                assert(layers@[i as int].editable());
                found = true;
            }
            i = i + 1;
        }
        buttons.move_selection = found;
    }
    buttons
}

/// The places of the layers to which the selection of the active one can be
/// moved, among the first `count` from the top, and whether each is offered.
pub open spec fn targets(layers: Seq<Layer>, active: u128, count: int) -> Seq<(usize, bool)>
    decreases count,
{
    if count <= 0 {
        seq![]
    } else {
        let place = layers.len() - count;
        let before = targets(layers, active, count - 1);
        if layers[place].id == active {
            before
        } else {
            before.push((place as usize, layers[place].editable()))
        }
    }
}

/// The places of the layers to which the selection of the active one can be
/// moved, from the top, and whether each is offered.
pub fn move_targets(layers: &Vec<Layer>, active: u128) -> (result: Vec<(usize, bool)>)
    ensures
        result@ == targets(layers@, active, layers@.len() as int),
{
    let mut result: Vec<(usize, bool)> = Vec::new();
    let mut count: usize = 0;
    while count < layers.len()
        invariant
            count <= layers@.len(),
            result@ == targets(layers@, active, count as int),
        decreases layers@.len() - count,
    {
        let place: usize = layers.len() - count - 1;
        if layers[place].id != active {
            result.push((place, layers[place].visible && !layers[place].locked));
        }
        count = count + 1;
    }
    result
}

/// What was asked for in the window for layers.
#[derive(Debug, Clone, Copy)]
pub struct LayerRequests {
    pub create: bool,
    pub duplicate: bool,
    pub delete: bool,
    pub rename: bool,
    pub merge_down: bool,
    /// Up is positive, down is negative.
    pub move_direction: i32,
    pub move_selection_to: Option<u128>,
    pub visibility: Option<(u128, bool)>,
    pub lock: Option<(u128, bool)>,
}

/// The one thing that is done.
#[derive(Debug, Clone, Copy, PartialEq, Eq, Structural)]
pub enum LayerRequest {
    Nothing,
    Create,
    Duplicate,
    Delete,
    Rename,
    MergeDown,
    Move(i32),
    MoveSelection(u128),
    SetVisibility(u128, bool),
    SetLocked(u128, bool),
}

/// Of what was asked for, the first in this order is done.
pub fn layer_request(requests: &LayerRequests) -> (request: LayerRequest)
    ensures
        request == if requests.create {
            LayerRequest::Create
        } else if requests.duplicate {
            LayerRequest::Duplicate
        } else if requests.delete {
            LayerRequest::Delete
        } else if requests.rename {
            LayerRequest::Rename
        } else if requests.merge_down {
            LayerRequest::MergeDown
        } else if requests.move_direction != 0 {
            LayerRequest::Move(requests.move_direction)
        } else if requests.move_selection_to is Some {
            LayerRequest::MoveSelection(requests.move_selection_to->0)
        } else if requests.visibility is Some {
            LayerRequest::SetVisibility(requests.visibility.unwrap().0, requests.visibility.unwrap().1)
        } else if requests.lock is Some {
            LayerRequest::SetLocked(requests.lock.unwrap().0, requests.lock.unwrap().1)
        } else {
            LayerRequest::Nothing
        },
{
    if requests.create {
        LayerRequest::Create
    } else if requests.duplicate {
        LayerRequest::Duplicate
    } else if requests.delete {
        LayerRequest::Delete
    } else if requests.rename {
        LayerRequest::Rename
    } else if requests.merge_down {
        LayerRequest::MergeDown
    } else if requests.move_direction != 0 {
        LayerRequest::Move(requests.move_direction)
    } else {
        match (requests.move_selection_to, requests.visibility, requests.lock) {
            (Some(layer_id), _, _) => LayerRequest::MoveSelection(layer_id),
            (None, Some((layer_id, visible)), _) => LayerRequest::SetVisibility(layer_id, visible),
            (None, None, Some((layer_id, locked))) => LayerRequest::SetLocked(layer_id, locked),
            (None, None, None) => LayerRequest::Nothing,
        }
    }
}

/// What follows from a change of layers.
pub struct LayerEffect {
    /// What to tell the user.
    pub message: String,
    /// Whether selections and gestures are dropped.
    pub clears_tools: bool,
    /// Whether all tiles are rendered anew.
    pub invalidates_tiles: bool,
}

impl LayerEffect {
    /// Whether the effect is just the message.
    pub open spec fn only_tells(self, message: Seq<char>) -> bool {
        self.message@ == message && !self.clears_tools && !self.invalidates_tiles
    }
}

fn tell(message: &str) -> (effect: LayerEffect)
    ensures
        effect.only_tells(message@),
{
    LayerEffect {
        message: String::from_str(message),
        clears_tools: false,
        invalidates_tiles: false,
    }
}

fn tell_failure(what: &str, error: &str) -> (effect: LayerEffect)
    ensures
        effect.only_tells(what@ + error@),
{
    LayerEffect { message: joined(what, error), clears_tools: false, invalidates_tiles: false }
}

/// The active layer, its name as it is edited, and the layer that is to be
/// deleted once that is confirmed.
pub struct LayerPanel {
    pub active_layer_id: u128,
    pub name_edit: String,
    pub pending_delete: Option<u128>,
}

/// What is to be done to delete the active layer.
#[derive(Debug, Clone, Copy, PartialEq, Eq, Structural)]
pub enum DeleteStep {
    /// The last layer stays.
    Refused,
    /// It is empty: delete it at once.
    Delete(u128),
    /// Ask first.
    Confirm,
}

impl LayerPanel {
    /// The topmost layer is active; `default_id` where there is none, under its
    /// name.
    pub fn new(layers: &Vec<Layer>, default_id: u128, default_name: &str) -> (panel: Self)
        ensures
            panel.pending_delete is None,
            panel.active_layer_id == if layers@.len() > 0 {
                layers@.last().id
            } else {
                default_id
            },
            panel.name_edit@ == if layers@.len() > 0 {
                layers@.last().name@
            } else {
                default_name@
            },
    {
        if layers.len() > 0 {
            let top = &layers[layers.len() - 1];
            LayerPanel {
                active_layer_id: top.id,
                name_edit: String::from_str(top.name.as_str()),
                pending_delete: None,
            }
        } else {
            LayerPanel {
                active_layer_id: default_id,
                name_edit: String::from_str(default_name),
                pending_delete: None,
            }
        }
    }

    /// Makes a layer the active one. Returns whether another one was, in which
    /// case selections and gestures are dropped.
    pub fn activate_layer(&mut self, layer_id: u128, name: String) -> (changed: bool)
        ensures
            changed == (old(self).active_layer_id != layer_id),
            final(self).active_layer_id == layer_id,
            final(self).name_edit == name,
            final(self).pending_delete == old(self).pending_delete,
    {
        let changed: bool = self.active_layer_id != layer_id;
        self.active_layer_id = layer_id;
        self.name_edit = name;
        changed
    }

    /// The name of the next new layer, where there are so many.
    pub fn new_layer_name(layer_count: usize) -> (name: String)
        requires
            layer_count < usize::MAX,
        ensures
            name@ == "Layer "@ + natural_text(layer_count + 1),
    {
        let name = with_number("Layer ", (layer_count + 1) as u64, "");
        proof {
            reveal_strlit("");
            assert(name@ =~= "Layer "@ + natural_text(layer_count + 1));
        }
        name
    }

    /// Ends the creation of a layer.
    pub fn finish_create(&mut self, created: Result<(u128, String), String>) -> (effect:
        LayerEffect)
        ensures
            match created {
                Ok((id, name)) => {
                    &&& final(self).active_layer_id == id
                    &&& final(self).name_edit == name
                    &&& final(self).pending_delete == old(self).pending_delete
                    &&& effect.message@ == "Layer created"@
                    &&& effect.clears_tools == (id != old(self).active_layer_id)
                    &&& !effect.invalidates_tiles
                },
                Err(error) => *final(self) == *old(self) && effect.only_tells(
                    "Layer creation failed: "@ + error@,
                ),
            },
    {
        match created {
            Ok((id, name)) => {
                let clears_tools: bool = self.activate_layer(id, name);
                LayerEffect {
                    message: String::from_str("Layer created"),
                    clears_tools,
                    invalidates_tiles: false,
                }
            },
            Err(error) => tell_failure("Layer creation failed: ", error.as_str()),
        }
    }

    /// Ends the renaming of the active layer; `Ok` tells whether it was found.
    pub fn finish_rename(&mut self, renamed: Result<bool, String>) -> (effect: LayerEffect)
        ensures
            final(self).active_layer_id == old(self).active_layer_id,
            final(self).pending_delete == old(self).pending_delete,
            final(self).name_edit@ == if renamed == Ok::<bool, String>(true) {
                trimmed(old(self).name_edit@)
            } else {
                old(self).name_edit@
            },
            match renamed {
                Ok(true) => effect.only_tells("Layer renamed"@),
                Ok(false) => effect.only_tells("Active layer not found"@),
                Err(error) => effect.only_tells("Layer rename failed: "@ + error@),
            },
    {
        match renamed {
            Ok(true) => {
                let name: String = text_of(&trim(self.name_edit.as_str()));
                self.name_edit = name;
                tell("Layer renamed")
            },
            Ok(false) => tell("Active layer not found"),
            Err(error) => tell_failure("Layer rename failed: ", error.as_str()),
        }
    }

    /// Ends the duplication of the active layer; `Ok` holds the copy with its
    /// name and the number of its objects, where the layer was found.
    pub fn finish_duplicate(
        &mut self,
        duplicated: Result<Option<(u128, String, u64)>, String>,
    ) -> (effect: LayerEffect)
        ensures
            match duplicated {
                Ok(Some((id, name, count))) => {
                    &&& final(self).active_layer_id == id
                    &&& final(self).name_edit == name
                    &&& final(self).pending_delete == old(self).pending_delete
                    &&& effect.message@ == "Layer duplicated ("@ + natural_text(count as int)
                        + " objects)"@
                    &&& effect.clears_tools == (id != old(self).active_layer_id)
                    &&& effect.invalidates_tiles
                },
                Ok(None) => *final(self) == *old(self) && effect.only_tells(
                    "Active layer not found"@,
                ),
                Err(error) => *final(self) == *old(self) && effect.only_tells(
                    "Layer duplication failed: "@ + error@,
                ),
            },
    {
        match duplicated {
            Ok(Some((id, name, count))) => {
                let clears_tools: bool = self.activate_layer(id, name);
                LayerEffect {
                    message: with_number("Layer duplicated (", count, " objects)"),
                    clears_tools,
                    invalidates_tiles: true,
                }
            },
            Ok(None) => tell("Active layer not found"),
            Err(error) => tell_failure("Layer duplication failed: ", error.as_str()),
        }
    }

    /// Begins the deletion of the active layer, where there are so many layers
    /// and so many operations on it.
    pub fn request_delete_active_layer(
        &mut self,
        layer_count: usize,
        operation_count: usize,
    ) -> (step: DeleteStep)
        ensures
            final(self).active_layer_id == old(self).active_layer_id,
            final(self).name_edit == old(self).name_edit,
            step == if layer_count <= 1 {
                DeleteStep::Refused
            } else if operation_count == 0 {
                DeleteStep::Delete(old(self).active_layer_id)
            } else {
                DeleteStep::Confirm
            },
            final(self).pending_delete == if step == DeleteStep::Confirm {
                Some(old(self).active_layer_id)
            } else {
                old(self).pending_delete
            },
    {
        if layer_count <= 1 {
            DeleteStep::Refused
        } else if operation_count == 0 {
            DeleteStep::Delete(self.active_layer_id)
        } else {
            self.pending_delete = Some(self.active_layer_id);
            DeleteStep::Confirm
        }
    }

    /// The layer for whose deletion a confirmation is asked; one that is gone
    /// is forgotten.
    pub fn layer_to_confirm(&mut self, layers: &Vec<Layer>) -> (index: Option<usize>)
        ensures
            final(self).active_layer_id == old(self).active_layer_id,
            final(self).name_edit == old(self).name_edit,
            match index {
                Some(index) => {
                    &&& old(self).pending_delete is Some
                    &&& place_of(layers@, old(self).pending_delete->0) == Some(index as int)
                    &&& final(self).pending_delete == old(self).pending_delete
                },
                None => {
                    &&& old(self).pending_delete is Some ==> place_of(
                        layers@,
                        old(self).pending_delete->0,
                    ) is None
                    &&& final(self).pending_delete is None
                },
            },
    {
        match self.pending_delete {
            Some(layer_id) => {
                let index: Option<usize> = layer_index(layers, layer_id);
                if index.is_none() {
                    self.pending_delete = None;
                }
                index
            },
            None => None,
        }
    }

    /// Ends a frame of the confirmation. Returns the layer to delete.
    pub fn confirm_delete(&mut self, confirm: bool, cancel: bool) -> (layer_id: Option<u128>)
        ensures
            final(self).active_layer_id == old(self).active_layer_id,
            final(self).name_edit == old(self).name_edit,
            layer_id == if confirm {
                old(self).pending_delete
            } else {
                None
            },
            final(self).pending_delete == if confirm || cancel {
                None
            } else {
                old(self).pending_delete
            },
    {
        if confirm {
            let layer_id: Option<u128> = self.pending_delete;
            self.pending_delete = None;
            layer_id
        } else {
            if cancel {
                self.pending_delete = None;
            }
            None
        }
    }

    /// Ends the deletion of a layer; `next_active` takes its place, and `Ok`
    /// tells whether it was found.
    pub fn finish_delete(
        &mut self,
        next_active: Option<(u128, String)>,
        deleted: Result<bool, String>,
    ) -> (effect: LayerEffect)
        ensures
            match deleted {
                Ok(true) => {
                    &&& match next_active {
                        Some((id, name)) => {
                            &&& final(self).active_layer_id == id
                            &&& final(self).name_edit == name
                            &&& final(self).pending_delete == old(self).pending_delete
                        },
                        None => *final(self) == *old(self),
                    }
                    &&& effect.message@ == "Layer deleted"@
                    &&& effect.clears_tools
                    &&& effect.invalidates_tiles
                },
                Ok(false) => *final(self) == *old(self) && effect.only_tells("Layer not found"@),
                Err(error) => *final(self) == *old(self) && effect.only_tells(
                    "Layer deletion failed: "@ + error@,
                ),
            },
    {
        match deleted {
            Ok(true) => {
                if let Some((id, name)) = next_active {
                    self.activate_layer(id, name);
                }
                LayerEffect {
                    message: String::from_str("Layer deleted"),
                    clears_tools: true,
                    invalidates_tiles: true,
                }
            },
            Ok(false) => tell("Layer not found"),
            Err(error) => tell_failure("Layer deletion failed: ", error.as_str()),
        }
    }

    /// Ends the merging of the active layer into the one below; `Ok` holds that
    /// one with its name and the number of objects moved, where there is one.
    pub fn finish_merge(&mut self, merged: Result<Option<(u128, String, u64)>, String>) -> (effect:
        LayerEffect)
        ensures
            match merged {
                Ok(Some((id, name, count))) => {
                    &&& final(self).active_layer_id == id
                    &&& final(self).name_edit == name
                    &&& final(self).pending_delete == old(self).pending_delete
                    &&& effect.message@ == "Merged "@ + natural_text(count as int)
                        + " objects down"@
                    &&& effect.clears_tools == (id != old(self).active_layer_id)
                    &&& effect.invalidates_tiles
                },
                Ok(None) => *final(self) == *old(self) && effect.only_tells(
                    "No lower layer to merge into"@,
                ),
                Err(error) => *final(self) == *old(self) && effect.only_tells(
                    "Merge Down failed: "@ + error@,
                ),
            },
    {
        match merged {
            Ok(Some((id, name, count))) => {
                let clears_tools: bool = self.activate_layer(id, name);
                LayerEffect {
                    message: with_number("Merged ", count, " objects down"),
                    clears_tools,
                    invalidates_tiles: true,
                }
            },
            Ok(None) => tell("No lower layer to merge into"),
            Err(error) => tell_failure("Merge Down failed: ", error.as_str()),
        }
    }

    /// Ends the move of the selection to a layer; `Ok` holds the number of
    /// objects moved, where anything was.
    pub fn finish_move_selection(
        &mut self,
        target_id: u128,
        target_name: String,
        moved: Result<Option<u64>, String>,
    ) -> (effect: LayerEffect)
        ensures
            match moved {
                Ok(Some(count)) => {
                    &&& final(self).active_layer_id == target_id
                    &&& final(self).name_edit == target_name
                    &&& final(self).pending_delete == old(self).pending_delete
                    &&& effect.message@ == "Moved "@ + natural_text(count as int) + " objects to "@
                        + target_name@
                    &&& effect.clears_tools == (target_id != old(self).active_layer_id)
                    &&& effect.invalidates_tiles
                },
                Ok(None) => *final(self) == *old(self) && effect.only_tells("Nothing moved"@),
                Err(error) => *final(self) == *old(self) && effect.only_tells(
                    "Move to layer failed: "@ + error@,
                ),
            },
    {
        match moved {
            Ok(Some(count)) => {
                let before = with_number("Moved ", count, " objects to ");
                let message = joined(before.as_str(), target_name.as_str());
                let clears_tools: bool = self.activate_layer(target_id, target_name);
                LayerEffect { message, clears_tools, invalidates_tiles: true }
            },
            Ok(None) => tell("Nothing moved"),
            Err(error) => tell_failure("Move to layer failed: ", error.as_str()),
        }
    }

    /// Ends a change of visibility; `Ok` tells whether anything changed.
    pub fn finish_visibility(
        &self,
        layer_id: u128,
        visible: bool,
        changed: Result<bool, String>,
    ) -> (effect: LayerEffect)
        ensures
            match changed {
                Ok(true) => {
                    &&& effect.message@ == if visible {
                        "Layer shown"@
                    } else {
                        "Layer hidden"@
                    }
                    &&& effect.clears_tools == (layer_id == self.active_layer_id && !visible)
                    &&& effect.invalidates_tiles
                },
                Ok(false) => effect.only_tells("Layer visibility is unchanged"@),
                Err(error) => effect.only_tells("Layer visibility failed: "@ + error@),
            },
    {
        match changed {
            Ok(true) => LayerEffect {
                message: String::from_str(
                    if visible {
                        "Layer shown"
                    } else {
                        "Layer hidden"
                    },
                ),
                clears_tools: layer_id == self.active_layer_id && !visible,
                invalidates_tiles: true,
            },
            Ok(false) => tell("Layer visibility is unchanged"),
            Err(error) => tell_failure("Layer visibility failed: ", error.as_str()),
        }
    }

    /// Ends a change of the lock; `Ok` tells whether anything changed.
    pub fn finish_lock(
        &self,
        layer_id: u128,
        locked: bool,
        changed: Result<bool, String>,
    ) -> (effect: LayerEffect)
        ensures
            match changed {
                Ok(true) => {
                    &&& effect.message@ == if locked {
                        "Layer locked"@
                    } else {
                        "Layer unlocked"@
                    }
                    &&& effect.clears_tools == (layer_id == self.active_layer_id && locked)
                    &&& !effect.invalidates_tiles
                },
                Ok(false) => effect.only_tells("Layer lock is unchanged"@),
                Err(error) => effect.only_tells("Layer lock failed: "@ + error@),
            },
    {
        match changed {
            Ok(true) => LayerEffect {
                message: String::from_str(
                    if locked {
                        "Layer locked"
                    } else {
                        "Layer unlocked"
                    },
                ),
                clears_tools: layer_id == self.active_layer_id && locked,
                invalidates_tiles: false,
            },
            Ok(false) => tell("Layer lock is unchanged"),
            Err(error) => tell_failure("Layer lock failed: ", error.as_str()),
        }
    }

    /// The active layer is still there, with the name it has now; where it is
    /// gone, the topmost layer is active.
    pub open spec fn has_synced(self, before: LayerPanel, layers: Seq<Layer>) -> bool {
        let place = place_of(layers, before.active_layer_id);
        &&& self.pending_delete == before.pending_delete
        &&& if place is Some {
            &&& self.active_layer_id == before.active_layer_id
            &&& self.name_edit@ == layers[place->0].name@
        } else if layers.len() > 0 {
            &&& self.active_layer_id == layers.last().id
            &&& self.name_edit@ == layers.last().name@
        } else {
            self == before
        }
    }

    /// After a step in the history: the name of the active layer is taken over,
    /// and where it is gone the topmost layer becomes active.
    pub fn sync_active_layer_after_history(&mut self, layers: &Vec<Layer>)
        ensures
            final(self).has_synced(*old(self), layers@),
    {
        match layer_index(layers, self.active_layer_id) {
            Some(index) => {
                self.name_edit = String::from_str(layers[index].name.as_str());
            },
            None => {
                if layers.len() > 0 {
                    let top = &layers[layers.len() - 1];
                    self.active_layer_id = top.id;
                    self.name_edit = String::from_str(top.name.as_str());
                }
            },
        }
    }
}

/// Ends a move of the active layer up or down; `Ok` tells whether it moved.
pub fn finish_move(direction: i32, moved: Result<bool, String>) -> (effect: LayerEffect)
    ensures
        match moved {
            Ok(true) => {
                &&& effect.message@ == if direction > 0 {
                    "Layer moved up"@
                } else {
                    "Layer moved down"@
                }
                &&& !effect.clears_tools
                &&& effect.invalidates_tiles
            },
            Ok(false) => effect.only_tells("Layer is already at the edge"@),
            Err(error) => effect.only_tells("Layer reorder failed: "@ + error@),
        },
{
    match moved {
        Ok(true) => LayerEffect {
            message: String::from_str(
                if direction > 0 {
                    "Layer moved up"
                } else {
                    "Layer moved down"
                },
            ),
            clears_tools: false,
            invalidates_tiles: true,
        },
        Ok(false) => tell("Layer is already at the edge"),
        Err(error) => tell_failure("Layer reorder failed: ", error.as_str()),
    }
}

/// The place of the layer that becomes active when the one at a place is
/// deleted: the one above, or else the one below.
pub open spec fn successor(layer_count: int, place: int) -> Option<int> {
    if place + 1 < layer_count {
        Some(place + 1)
    } else if place > 0 {
        Some(place - 1)
    } else {
        None
    }
}

/// The place of the layer that becomes active when another one is deleted.
/// There is none to delete where `Err` is returned.
pub fn next_active_layer(layers: &Vec<Layer>, layer_id: u128) -> (next: Result<Option<usize>, ()>)
    ensures
        match next {
            Ok(next) => {
                &&& place_of(layers@, layer_id) is Some
                &&& match next {
                    Some(next) => successor(
                        layers@.len() as int,
                        place_of(layers@, layer_id)->0,
                    ) == Some(next as int),
                    None => successor(layers@.len() as int, place_of(layers@, layer_id)->0) is None,
                }
            },
            Err(()) => place_of(layers@, layer_id) is None,
        },
{
    match layer_index(layers, layer_id) {
        Some(index) => {
            if layers.len() - index > 1 {
                Ok(Some(index + 1))
            } else if index > 0 {
                Ok(Some(index - 1))
            } else {
                Ok(None)
            }
        },
        None => Err(()),
    }
}

/// While there are several layers, deleting one leaves another to become
/// active, and that one is not the one deleted.
pub proof fn law_deleting_a_layer_leaves_another(layers: Seq<Layer>, layer_id: u128)
    requires
        layers.len() > 1,
        place_of(layers, layer_id) is Some,
        forall|i: int, j: int|
            0 <= i < j < layers.len() ==> (#[trigger] layers[i]).id != (#[trigger] layers[j]).id,
    ensures
        ({
            let next = successor(layers.len() as int, place_of(layers, layer_id)->0);
            next is Some && 0 <= next->0 < layers.len() && layers[next->0].id != layer_id
        }),
{
    lemma_place_of(layers, layer_id);
    let place = place_of(layers, layer_id)->0;
    let next = successor(layers.len() as int, place)->0;
    if next < place {
        assert(layers[next].id != layers[place].id);
    } else {
        assert(layers[place].id != layers[next].id);
    }
}

/// The question asked before a layer is deleted.
pub fn delete_question(name: &str, operation_count: u64) -> (question: String)
    ensures
        question@ == "\""@ + name@ + "\" contains "@ + natural_text(operation_count as int)
            + " objects."@,
{
    let mut question = joined("\"", name);
    question.append(with_number("\" contains ", operation_count, " objects.").as_str());
    assert(question@ =~= "\""@ + name@ + "\" contains "@ + natural_text(operation_count as int)
        + " objects."@);
    question
}

/// The operations on a layer are counted, all of them and no others.
pub proof fn law_operations_are_counted_by_layer(operations: Seq<EditOperation>, layer_id: u128)
    ensures
        operations_on(operations, layer_id) == operations.filter(
            |operation: EditOperation| operation.layer_id == layer_id,
        ).len(),
    decreases operations.len(),
{
    reveal(Seq::filter);
    if operations.len() > 0 {
        law_operations_are_counted_by_layer(operations.drop_last(), layer_id);
    }
}

/// A layer is found at the first place where it is, and nowhere only where it is
/// not there.
pub proof fn law_layers_are_found_where_they_are(layers: Seq<Layer>, layer_id: u128)
    ensures
        match place_of(layers, layer_id) {
            Some(place) => {
                &&& 0 <= place < layers.len()
                &&& layers[place].id == layer_id
                &&& forall|k: int| 0 <= k < place ==> (#[trigger] layers[k]).id != layer_id
            },
            None => forall|k: int|
                0 <= k < layers.len() ==> (#[trigger] layers[k]).id != layer_id,
        },
    decreases layers.len(),
{
    if layers.len() > 0 {
        let rest = layers.drop_last();
        law_layers_are_found_where_they_are(rest, layer_id);
        if let Some(place) = place_of(rest, layer_id) {
            assert forall|k: int| 0 <= k < place implies (#[trigger] layers[k]).id != layer_id by {
                assert(rest[k] == layers[k]);
            }
        } else {
            assert forall|k: int| 0 <= k < rest.len() implies (#[trigger] layers[k]).id
                != layer_id by {
                assert(rest[k] == layers[k]);
            }
        }
    }
}

/// A selection can be moved to every layer but the active one: they are offered
/// from the topmost one down, each with whether it may be edited.
pub proof fn law_every_other_layer_is_offered(layers: Seq<Layer>, active: u128, count: int)
    requires
        0 <= count <= layers.len() <= usize::MAX,
    ensures
        ({
            let all = targets(layers, active, count);
            &&& forall|k: int|
                0 <= k < all.len() ==> {
                    let (place, editable) = #[trigger] all[k];
                    &&& layers.len() - count <= place < layers.len()
                    &&& layers[place as int].id != active
                    &&& editable == (layers[place as int].visible && !layers[place as int].locked)
                }
            &&& forall|k: int, l: int|
                0 <= k < l < all.len() ==> (#[trigger] all[k]).0 > (#[trigger] all[l]).0
            &&& forall|place: usize|
                layers.len() - count <= place < layers.len() && (
                #[trigger] layers[place as int]).id != active ==> all.contains(
                    (place, layers[place as int].editable()),
                )
        }),
    decreases count,
{
    if count > 0 {
        law_every_other_layer_is_offered(layers, active, count - 1);
        let all = targets(layers, active, count);
        let before = targets(layers, active, count - 1);
        assert forall|place: usize|
            layers.len() - count <= place < layers.len() && (#[trigger] layers[place as int]).id
                != active implies all.contains((place, layers[place as int].editable())) by {
            let target = (place, layers[place as int].editable());
            if place > layers.len() - count {
                assert(all[before.index_of(target)] == target);
            } else {
                assert(all[before.len() as int] == target);
            }
        }
    }
}

/// A layer can be moved up below the top and down above the bottom, merged into an
/// editable one below it, and deleted while it is not the only one.
pub proof fn law_buttons_offer_what_can_be_done(
    layers: Seq<Layer>,
    active: u128,
    active_is_editable: bool,
    has_selection: bool,
    place: int,
)
    requires
        0 <= place < layers.len(),
        layers[place].id == active,
        forall|k: int| 0 <= k < layers.len() && k != place ==> (#[trigger] layers[k]).id != active,
    ensures
        ({
            let buttons = buttons_for(layers, active, active_is_editable, has_selection);
            &&& buttons.duplicate
            &&& buttons.delete <==> layers.len() > 1
            &&& buttons.move_up <==> place < layers.len() - 1
            &&& buttons.move_down <==> place > 0
            &&& buttons.merge_down <==> place > 0 && active_is_editable && layers[place
                - 1].visible && !layers[place - 1].locked
            &&& buttons.move_selection <==> has_selection && active_is_editable && exists|i: int|
                0 <= i < layers.len() && i != place && (#[trigger] layers[i]).visible
                    && !layers[i].locked
        }),
{
    law_layers_are_found_where_they_are(layers, active);
    assert(place_of(layers, active) == Some(place)) by {
        if let Some(found) = place_of(layers, active) {
            assert(layers[found].id == active);
        } else {
            assert(layers[place].id != active);
        }
    }
    if exists|i: int|
        0 <= i < layers.len() && i != place && (#[trigger] layers[i]).visible && !layers[i].locked {
        let i = choose|i: int|
            0 <= i < layers.len() && i != place && (#[trigger] layers[i]).visible
                && !layers[i].locked;
        assert(layers[i].id != active && layers[i].editable());
    }
}

/// After a step in the history a layer that is there is active, under the name it
/// has: the one that was active, unless it is gone.
pub proof fn law_a_layer_that_is_there_stays_active(
    panel: LayerPanel,
    before: LayerPanel,
    layers: Seq<Layer>,
    i: int,
)
    requires
        panel.has_synced(before, layers),
        0 <= i < layers.len(),
    ensures
        exists|k: int|
            0 <= k < layers.len() && (#[trigger] layers[k]).id == panel.active_layer_id
                && layers[k].name@ == panel.name_edit@,
        layers[i].id == before.active_layer_id ==> panel.active_layer_id == before.active_layer_id,
        (forall|k: int| 0 <= k < layers.len() ==> (#[trigger] layers[k]).id
            != before.active_layer_id) ==> panel.active_layer_id == layers.last().id,
        panel.pending_delete == before.pending_delete,
{
    lemma_place_of(layers, before.active_layer_id);
    let place = place_of(layers, before.active_layer_id);
    if place is Some {
        assert(layers[place->0].id == panel.active_layer_id);
    } else {
        assert(layers[layers.len() - 1].id == panel.active_layer_id);
    }
}

} // verus!
