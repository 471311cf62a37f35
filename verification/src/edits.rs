//! What the user is told after an edit, and what has to be drawn anew.

use crate::model::{Color, EditOperation};
use crate::text::{joined, natural_text, with_number};
use std::collections::HashSet;
use vstd::prelude::*;

verus! {

broadcast use vstd::std_specs::hash::group_hash_axioms;

/// The color of an empty canvas: white.
pub open spec fn background() -> Color {
    Color { r: 255, g: 255, b: 255, a: 255 }
}

/// The color of an empty canvas.
pub fn background_color() -> (color: Color)
    ensures
        color == background(),
{
    Color { r: 255, g: 255, b: 255, a: 255 }
}

/// What has to be drawn anew.
#[derive(Debug, Clone, Copy, PartialEq, Eq, Structural)]
pub enum Refresh {
    Nothing,
    /// What shows the layer.
    Layer,
    /// Everything.
    Everything,
}

/// What is dropped of selections and gestures.
#[derive(Debug, Clone, Copy, PartialEq, Eq, Structural)]
pub enum Clearing {
    Nothing,
    Objects,
    ObjectsAndArea,
    All,
}

/// What follows from an edit.
pub struct EditEffect {
    /// What to tell the user.
    pub message: String,
    pub clearing: Clearing,
    pub refresh: Refresh,
}

impl EditEffect {
    /// Whether the effect is as given.
    pub open spec fn is(self, message: Seq<char>, clearing: Clearing, refresh: Refresh) -> bool {
        self.message@ == message && self.clearing == clearing && self.refresh == refresh
    }

    /// Whether the effect is just the message.
    pub open spec fn only_tells(self, message: Seq<char>) -> bool {
        self.is(message, Clearing::Nothing, Refresh::Nothing)
    }
}

fn effect(message: String, clearing: Clearing, refresh: Refresh) -> (effect: EditEffect)
    ensures
        effect.is(message@, clearing, refresh),
{
    EditEffect { message, clearing, refresh }
}

fn tell(message: &str) -> (effect: EditEffect)
    ensures
        effect.only_tells(message@),
{
    EditEffect {
        message: String::from_str(message),
        clearing: Clearing::Nothing,
        refresh: Refresh::Nothing,
    }
}

fn tell_failure(what: &str, error: &str) -> (effect: EditEffect)
    ensures
        effect.only_tells(what@ + error@),
{
    EditEffect {
        message: joined(what, error),
        clearing: Clearing::Nothing,
        refresh: Refresh::Nothing,
    }
}

/// Ends a step back in the history; `Ok` tells whether there was one. All
/// selections are dropped whatever comes of it.
pub fn finish_undo(undone: Result<bool, String>) -> (effect: EditEffect)
    ensures
        match undone {
            Ok(true) => effect.is("Undone"@, Clearing::All, Refresh::Everything),
            Ok(false) => effect.is("Nothing to undo"@, Clearing::All, Refresh::Nothing),
            Err(error) => effect.is("Undo failed: "@ + error@, Clearing::All, Refresh::Nothing),
        },
{
    match undone {
        Ok(true) => self::effect(String::from_str("Undone"), Clearing::All, Refresh::Everything),
        Ok(false) => self::effect(
            String::from_str("Nothing to undo"),
            Clearing::All,
            Refresh::Nothing,
        ),
        Err(error) => self::effect(
            joined("Undo failed: ", error.as_str()),
            Clearing::All,
            Refresh::Nothing,
        ),
    }
}

/// Ends a step forward in the history; `Ok` tells whether there was one. All
/// selections are dropped whatever comes of it.
pub fn finish_redo(redone: Result<bool, String>) -> (effect: EditEffect)
    ensures
        match redone {
            Ok(true) => effect.is("Redone"@, Clearing::All, Refresh::Everything),
            Ok(false) => effect.is("Nothing to redo"@, Clearing::All, Refresh::Nothing),
            Err(error) => effect.is("Redo failed: "@ + error@, Clearing::All, Refresh::Nothing),
        },
{
    match redone {
        Ok(true) => self::effect(String::from_str("Redone"), Clearing::All, Refresh::Everything),
        Ok(false) => self::effect(
            String::from_str("Nothing to redo"),
            Clearing::All,
            Refresh::Nothing,
        ),
        Err(error) => self::effect(
            joined("Redo failed: ", error.as_str()),
            Clearing::All,
            Refresh::Nothing,
        ),
    }
}

/// The objects of the first `count` operations.
pub open spec fn objects_of(operations: Seq<EditOperation>, count: int) -> Set<u128>
    decreases count,
{
    if count <= 0 {
        Set::empty()
    } else {
        objects_of(operations, count - 1).insert(operations[count - 1].object())
    }
}

/// To how many objects the operations belong.
pub fn object_count(operations: &Vec<EditOperation>) -> (count: usize)
    ensures
        count == objects_of(operations@, operations@.len() as int).len(),
{
    let mut objects: HashSet<u128> = HashSet::new();
    let mut i: usize = 0;
    while i < operations.len()
        invariant
            i <= operations@.len(),
            objects@ == objects_of(operations@, i as int),
        decreases operations@.len() - i,
    {
        objects.insert(operations[i].object_group_id());
        i = i + 1;
    }
    objects.len()
}

/// The operations that were copied, and how often they were pasted beside
/// themselves since.
pub struct SelectionClipboard {
    pub operations: Vec<EditOperation>,
    pub paste_count: u32,
}

/// Whether operations can be cut.
pub enum CutStep {
    /// They cannot.
    Refused(EditEffect),
    /// They are on the clipboard, so many objects, and are to be deleted.
    Delete(usize),
}

impl SelectionClipboard {
    /// An empty clipboard.
    pub fn new() -> (clipboard: Self)
        ensures
            clipboard.operations@.len() == 0,
            clipboard.paste_count == 0,
    {
        SelectionClipboard { operations: Vec::new(), paste_count: 0 }
    }

    /// Takes copies of the selected operations; without any the clipboard stays
    /// as it is.
    pub fn copy(&mut self, snapshots: Vec<EditOperation>) -> (effect: EditEffect)
        ensures
            snapshots@.len() == 0 ==> *final(self) == *old(self) && effect.only_tells(
                "Nothing selected"@,
            ),
            snapshots@.len() > 0 ==> {
                &&& final(self).operations == snapshots
                &&& final(self).paste_count == 0
                &&& effect.only_tells(
                    "Copied "@ + natural_text(
                        objects_of(snapshots@, snapshots@.len() as int).len() as int,
                    ) + " objects"@,
                )
            },
    {
        if snapshots.len() == 0 {
            return tell("Nothing selected");
        }
        let count: usize = object_count(&snapshots);
        *self = SelectionClipboard { operations: snapshots, paste_count: 0 };
        self::effect(
            with_number("Copied ", count as u64, " objects"),
            Clearing::Nothing,
            Refresh::Nothing,
        )
    }

    /// Begins to cut: on an editable layer the selected operations are copied
    /// first.
    pub fn cut(&mut self, layer_is_editable: bool, snapshots: Vec<EditOperation>) -> (step: CutStep)
        ensures
            if !layer_is_editable {
                &&& *final(self) == *old(self)
                &&& step matches CutStep::Refused(effect)
                &&& effect.only_tells("Active layer is hidden or locked"@)
            } else if snapshots@.len() == 0 {
                &&& *final(self) == *old(self)
                &&& step matches CutStep::Refused(effect)
                &&& effect.only_tells("Nothing selected"@)
            } else {
                &&& final(self).operations == snapshots
                &&& final(self).paste_count == 0
                &&& step matches CutStep::Delete(count)
                &&& count == objects_of(snapshots@, snapshots@.len() as int).len()
            },
    {
        if !layer_is_editable {
            return CutStep::Refused(tell("Active layer is hidden or locked"));
        }
        if snapshots.len() == 0 {
            return CutStep::Refused(tell("Nothing selected"));
        }
        let count: usize = object_count(&snapshots);
        *self = SelectionClipboard { operations: snapshots, paste_count: 0 };
        CutStep::Delete(count)
    }

    /// Why nothing can be pasted.
    pub fn paste_refusal(&self, layer_is_editable: bool) -> (refusal: Option<&'static str>)
        ensures
            refusal is Some == (self.operations@.len() == 0 || !layer_is_editable),
            self.operations@.len() == 0 ==> refusal->0@ == "Clipboard is empty"@,
            self.operations@.len() > 0 && !layer_is_editable ==> refusal->0@
                == "Active layer is hidden or locked"@,
    {
        if self.operations.len() == 0 {
            Some("Clipboard is empty")
        } else if !layer_is_editable {
            Some("Active layer is hidden or locked")
        } else {
            None
        }
    }

    /// How many steps away from the originals the next copies are pasted: one
    /// more each time, up to a limit, and none in place.
    pub fn paste_steps(&self, in_place: bool) -> (steps: u32)
        ensures
            steps == if in_place {
                0int
            } else if self.paste_count >= 1024 {
                1024
            } else {
                self.paste_count + 1
            },
    {
        if in_place {
            0
        } else if self.paste_count >= 1024 {
            1024
        } else {
            self.paste_count + 1
        }
    }

    /// Ends pasting; `Ok` holds the number of objects pasted, where any were.
    pub fn finish_paste(&mut self, in_place: bool, pasted: Result<Option<u64>, String>) -> (effect:
        EditEffect)
        ensures
            final(self).operations == old(self).operations,
            final(self).paste_count == if pasted is Ok && pasted->Ok_0 is Some && !in_place
                && old(self).paste_count < u32::MAX {
                old(self).paste_count + 1
            } else {
                old(self).paste_count as int
            },
            match pasted {
                Ok(Some(count)) => effect.is(
                    "Pasted "@ + natural_text(count as int) + if in_place {
                        " objects in place"@
                    } else {
                        " objects"@
                    },
                    Clearing::All,
                    Refresh::Everything,
                ),
                Ok(None) => effect.only_tells("Clipboard is empty"@),
                Err(error) => effect.only_tells("Paste failed: "@ + error@),
            },
    {
        match pasted {
            Ok(Some(count)) => {
                if !in_place && self.paste_count < u32::MAX {
                    self.paste_count = self.paste_count + 1;
                }
                self::effect(
                    with_number(
                        "Pasted ",
                        count,
                        if in_place {
                            " objects in place"
                        } else {
                            " objects"
                        },
                    ),
                    Clearing::All,
                    Refresh::Everything,
                )
            },
            Ok(None) => tell("Clipboard is empty"),
            Err(error) => tell_failure("Paste failed: ", error.as_str()),
        }
    }

    /// Ends the compaction of older objects; `keep_latest` is how many are
    /// kept, none where there is no limit, and `Ok` holds how many groups were
    /// compacted.
    pub fn finish_compact_older(
        &mut self,
        keep_latest: Option<u64>,
        compacted: Result<u64, String>,
    ) -> (effect: EditEffect)
        ensures
            final(self).operations == old(self).operations,
            final(self).paste_count == if keep_latest is Some && compacted is Ok
                && compacted->Ok_0 > 0 {
                0
            } else {
                old(self).paste_count
            },
            match (keep_latest, compacted) {
                (None, _) => effect.only_tells("Object compaction is Unlimited"@),
                (Some(keep), Ok(count)) => if count == 0 {
                    effect.only_tells(
                        "No old object groups above Keep latest "@ + natural_text(keep as int),
                    )
                } else {
                    effect.is(
                        "Compacted "@ + natural_text(count as int) + " old object groups"@,
                        Clearing::ObjectsAndArea,
                        Refresh::Everything,
                    )
                },
                (Some(_), Err(error)) => effect.only_tells("Compact older failed: "@ + error@),
            },
    {
        match (keep_latest, compacted) {
            (None, _) => tell("Object compaction is Unlimited"),
            (Some(keep), Ok(count)) => {
                if count == 0 {
                    let message = with_number(
                        "No old object groups above Keep latest ",
                        keep,
                        "",
                    );
                    proof {
                        reveal_strlit("");
                        assert(message@ =~= "No old object groups above Keep latest "@
                            + natural_text(keep as int));
                    }
                    self::effect(message, Clearing::Nothing, Refresh::Nothing)
                } else {
                    self.paste_count = 0;
                    self::effect(
                        with_number("Compacted ", count, " old object groups"),
                        Clearing::ObjectsAndArea,
                        Refresh::Everything,
                    )
                }
            },
            (Some(_), Err(error)) => tell_failure("Compact older failed: ", error.as_str()),
        }
    }
}

/// Ends the deletion that follows a cut of so many objects; `Ok` holds how many
/// were deleted.
pub fn finish_cut(copied: usize, deleted: Result<u64, String>) -> (effect: EditEffect)
    ensures
        match deleted {
            Ok(count) => effect.is(
                "Cut "@ + natural_text(count as int) + " objects"@,
                Clearing::All,
                Refresh::Everything,
            ),
            Err(error) => effect.only_tells(
                "Cut failed after copying "@ + natural_text(copied as int) + " objects: "@ + error@,
            ),
        },
{
    match deleted {
        Ok(count) => self::effect(
            with_number("Cut ", count, " objects"),
            Clearing::All,
            Refresh::Everything,
        ),
        Err(error) => {
            let before = with_number("Cut failed after copying ", copied as u64, " objects: ");
            tell_failure(before.as_str(), error.as_str())
        },
    }
}

/// Ends a deletion; `Ok` holds how many objects were deleted.
pub fn finish_delete(deleted: Result<u64, String>) -> (effect: EditEffect)
    ensures
        match deleted {
            Ok(count) => if count == 0 {
                effect.is("Nothing selected"@, Clearing::All, Refresh::Nothing)
            } else {
                effect.is(
                    "Deleted "@ + natural_text(count as int) + " objects"@,
                    Clearing::All,
                    Refresh::Everything,
                )
            },
            Err(error) => effect.only_tells("Delete failed: "@ + error@),
        },
{
    match deleted {
        Ok(count) => {
            if count == 0 {
                self::effect(String::from_str("Nothing selected"), Clearing::All, Refresh::Nothing)
            } else {
                self::effect(
                    with_number("Deleted ", count, " objects"),
                    Clearing::All,
                    Refresh::Everything,
                )
            }
        },
        Err(error) => tell_failure("Delete failed: ", error.as_str()),
    }
}

/// Ends the compaction of so many selected operations; `Ok` tells whether a
/// block took their place.
pub fn finish_compact(selected: usize, compacted: Result<bool, String>) -> (effect: EditEffect)
    ensures
        match compacted {
            Ok(true) => effect.is(
                "Compacted "@ + natural_text(selected as int) + " objects"@,
                Clearing::Nothing,
                Refresh::Everything,
            ),
            Ok(false) => effect.only_tells("Nothing compacted"@),
            Err(error) => effect.only_tells("Compact failed: "@ + error@),
        },
{
    match compacted {
        Ok(true) => self::effect(
            with_number("Compacted ", selected as u64, " objects"),
            Clearing::Nothing,
            Refresh::Everything,
        ),
        Ok(false) => tell("Nothing compacted"),
        Err(error) => tell_failure("Compact failed: ", error.as_str()),
    }
}

/// The ways in which a selection is changed.
#[derive(Debug, Clone, Copy, PartialEq, Eq, Structural)]
pub enum SelectionEdit {
    Move,
    Scale,
    Rotate,
    FlipHorizontally,
    FlipVertically,
    Recolor,
}

impl SelectionEdit {
    /// What the user is told where nothing changed.
    pub open spec fn nothing_done(self) -> Seq<char> {
        match self {
            SelectionEdit::Move => "Nothing moved"@,
            SelectionEdit::Scale => "Nothing scaled"@,
            SelectionEdit::Rotate => "Nothing rotated"@,
            SelectionEdit::FlipHorizontally => "Nothing flipped"@,
            SelectionEdit::FlipVertically => "Nothing flipped"@,
            SelectionEdit::Recolor => "Nothing recolored"@,
        }
    }

    /// What comes before an error.
    pub open spec fn failure(self) -> Seq<char> {
        match self {
            SelectionEdit::Move => "Move failed: "@,
            SelectionEdit::Scale => "Scale failed: "@,
            SelectionEdit::Rotate => "Rotate failed: "@,
            SelectionEdit::FlipHorizontally => "Flip failed: "@,
            SelectionEdit::FlipVertically => "Flip failed: "@,
            SelectionEdit::Recolor => "Recolor failed: "@,
        }
    }

    /// What the user is told of so many objects; `amount` is by how much they
    /// were scaled or rotated.
    pub open spec fn done(self, count: int, amount: Seq<char>) -> Seq<char> {
        match self {
            SelectionEdit::Move => "Moved "@ + natural_text(count) + " objects"@,
            SelectionEdit::Scale => "Scaled "@ + natural_text(count) + " objects to "@ + amount
                + "%"@,
            SelectionEdit::Rotate => "Rotated "@ + natural_text(count) + " objects by "@ + amount
                + " deg"@,
            SelectionEdit::FlipHorizontally => "Flipped "@ + natural_text(count)
                + " objects horizontally"@,
            SelectionEdit::FlipVertically => "Flipped "@ + natural_text(count)
                + " objects vertically"@,
            SelectionEdit::Recolor => "Recolored "@ + natural_text(count) + " objects"@,
        }
    }
}

/// Ends a change of the selection; `Ok` holds the number of objects changed,
/// where any were, and `amount` is by how much they were scaled or rotated.
pub fn finish_selection_edit(
    edit: SelectionEdit,
    amount: &str,
    changed: Result<Option<u64>, String>,
) -> (effect: EditEffect)
    ensures
        match changed {
            Ok(Some(count)) => effect.is(
                edit.done(count as int, amount@),
                Clearing::Nothing,
                Refresh::Layer,
            ),
            Ok(None) => effect.only_tells(edit.nothing_done()),
            Err(error) => effect.only_tells(edit.failure() + error@),
        },
{
    match changed {
        Ok(Some(count)) => {
            let message: String = match edit {
                SelectionEdit::Move => with_number("Moved ", count, " objects"),
                SelectionEdit::Scale => {
                    let mut message = with_number("Scaled ", count, " objects to ");
                    message.append(amount);
                    message.append("%");
                    message
                },
                SelectionEdit::Rotate => {
                    let mut message = with_number("Rotated ", count, " objects by ");
                    message.append(amount);
                    message.append(" deg");
                    message
                },
                SelectionEdit::FlipHorizontally => with_number(
                    "Flipped ",
                    count,
                    " objects horizontally",
                ),
                SelectionEdit::FlipVertically => with_number(
                    "Flipped ",
                    count,
                    " objects vertically",
                ),
                SelectionEdit::Recolor => with_number("Recolored ", count, " objects"),
            };
            self::effect(message, Clearing::Nothing, Refresh::Layer)
        },
        Ok(None) => match edit {
            SelectionEdit::Move => tell("Nothing moved"),
            SelectionEdit::Scale => tell("Nothing scaled"),
            SelectionEdit::Rotate => tell("Nothing rotated"),
            SelectionEdit::FlipHorizontally | SelectionEdit::FlipVertically => tell(
                "Nothing flipped",
            ),
            SelectionEdit::Recolor => tell("Nothing recolored"),
        },
        Err(error) => match edit {
            SelectionEdit::Move => tell_failure("Move failed: ", error.as_str()),
            SelectionEdit::Scale => tell_failure("Scale failed: ", error.as_str()),
            SelectionEdit::Rotate => tell_failure("Rotate failed: ", error.as_str()),
            SelectionEdit::FlipHorizontally | SelectionEdit::FlipVertically => tell_failure(
                "Flip failed: ",
                error.as_str(),
            ),
            SelectionEdit::Recolor => tell_failure("Recolor failed: ", error.as_str()),
        },
    }
}

/// Why the selection is not moved among the objects of its layer: there is none.
pub fn reorder_refusal(has_selection: bool) -> (refusal: Option<&'static str>)
    ensures
        refusal is Some == !has_selection,
        refusal matches Some(message) ==> message@ == "Nothing selected"@,
{
    if has_selection {
        None
    } else {
        Some("Nothing selected")
    }
}

/// Ends a move of the selection among the objects of its layer; `Ok` tells
/// whether it was not at that end already.
pub fn finish_reorder(direction: isize, reordered: Result<bool, String>) -> (effect: EditEffect)
    ensures
        match reordered {
            Ok(true) => effect.is(
                if direction > 0 {
                    "Selection moved forward"@
                } else {
                    "Selection moved backward"@
                },
                Clearing::Nothing,
                Refresh::Layer,
            ),
            Ok(false) => effect.only_tells("Selection is already at the edge"@),
            Err(error) => effect.only_tells("Reorder failed: "@ + error@),
        },
{
    match reordered {
        Ok(true) => {
            let message: &str = if direction > 0 {
                "Selection moved forward"
            } else {
                "Selection moved backward"
            };
            self::effect(String::from_str(message), Clearing::Nothing, Refresh::Layer)
        },
        Ok(false) => tell("Selection is already at the edge"),
        Err(error) => tell_failure("Reorder failed: ", error.as_str()),
    }
}

/// Why the selection cannot be flipped: the canvas was not shown yet, the layer
/// cannot be changed, nothing is on the screen, or the result cannot be
/// represented.
pub fn flip_refusal(
    canvas_is_ready: bool,
    layer_is_editable: bool,
    has_bounds: bool,
    is_representable: bool,
) -> (refusal: Option<&'static str>)
    ensures
        refusal is None == (canvas_is_ready && layer_is_editable && has_bounds
            && is_representable),
        !canvas_is_ready ==> refusal->0@ == "Canvas is not ready"@,
        canvas_is_ready && !layer_is_editable ==> refusal->0@
            == "Active layer is hidden or locked"@,
        canvas_is_ready && layer_is_editable && !has_bounds ==> refusal->0@ == "Nothing flipped"@,
        canvas_is_ready && layer_is_editable && has_bounds && !is_representable ==> refusal->0@
            == "Flip is not representable"@,
{
    if !canvas_is_ready {
        Some("Canvas is not ready")
    } else if !layer_is_editable {
        Some("Active layer is hidden or locked")
    } else if !has_bounds {
        Some("Nothing flipped")
    } else if !is_representable {
        Some("Flip is not representable")
    } else {
        None
    }
}

/// Why the selection is not scaled: the size stays the same, the layer cannot be
/// changed, or the result cannot be represented.
pub fn scale_refusal(is_unchanged: bool, layer_is_editable: bool, is_representable: bool) -> (
refusal: Option<&'static str>)
    ensures
        refusal is None == (!is_unchanged && layer_is_editable && is_representable),
        is_unchanged ==> refusal->0@ == "Scale unchanged"@,
        !is_unchanged && !layer_is_editable ==> refusal->0@ == "Active layer is hidden or locked"@,
        !is_unchanged && layer_is_editable && !is_representable ==> refusal->0@
            == "Scale is not representable"@,
{
    if is_unchanged {
        Some("Scale unchanged")
    } else if !layer_is_editable {
        Some("Active layer is hidden or locked")
    } else if !is_representable {
        Some("Scale is not representable")
    } else {
        None
    }
}

/// Why the selection is not rotated: the angle is none, the layer cannot be
/// changed, or the result cannot be represented.
pub fn rotate_refusal(is_unchanged: bool, layer_is_editable: bool, is_representable: bool) -> (
refusal: Option<&'static str>)
    ensures
        refusal is None == (!is_unchanged && layer_is_editable && is_representable),
        is_unchanged ==> refusal->0@ == "Rotation unchanged"@,
        !is_unchanged && !layer_is_editable ==> refusal->0@ == "Active layer is hidden or locked"@,
        !is_unchanged && layer_is_editable && !is_representable ==> refusal->0@
            == "Rotation is not representable"@,
{
    if is_unchanged {
        Some("Rotation unchanged")
    } else if !layer_is_editable {
        Some("Active layer is hidden or locked")
    } else if !is_representable {
        Some("Rotation is not representable")
    } else {
        None
    }
}

/// Why an area cannot be erased: the layer cannot be changed, the outline has
/// no area, or nothing of it lies in the selected area.
pub fn erase_area_refusal(layer_is_editable: bool, has_area: bool, mask_count: usize) -> (refusal:
    Option<&'static str>)
    ensures
        refusal is None == (layer_is_editable && has_area && mask_count > 0),
        !layer_is_editable ==> refusal->0@ == "Active layer is hidden or locked"@,
        layer_is_editable && !has_area ==> refusal->0@
            == "Eraser Lasso needs a non-degenerate area"@,
        layer_is_editable && has_area && mask_count == 0 ==> refusal->0@
            == "Clipped outside area"@,
{
    if !layer_is_editable {
        Some("Active layer is hidden or locked")
    } else if !has_area {
        Some("Eraser Lasso needs a non-degenerate area")
    } else if mask_count == 0 {
        Some("Clipped outside area")
    } else {
        None
    }
}

/// Ends the erasing of an area; `Ok` tells whether anything was erased.
pub fn finish_erase_area(erased: Result<bool, String>) -> (effect: EditEffect)
    ensures
        match erased {
            Ok(true) => effect.is("Area erased"@, Clearing::Objects, Refresh::Layer),
            Ok(false) => effect.only_tells("Nothing erased"@),
            Err(error) => effect.only_tells("Eraser Lasso failed: "@ + error@),
        },
{
    match erased {
        Ok(true) => self::effect(String::from_str("Area erased"), Clearing::Objects, Refresh::Layer),
        Ok(false) => tell("Nothing erased"),
        Err(error) => tell_failure("Eraser Lasso failed: ", error.as_str()),
    }
}

/// Ends the erasing along a stroke; `Ok` tells whether anything was erased.
pub fn finish_erase(erased: Result<bool, String>) -> (effect: EditEffect)
    ensures
        match erased {
            Ok(true) => effect.is("Erased"@, Clearing::Objects, Refresh::Layer),
            Ok(false) => effect.only_tells("Nothing erased"@),
            Err(error) => effect.only_tells("Erase failed: "@ + error@),
        },
{
    match erased {
        Ok(true) => self::effect(String::from_str("Erased"), Clearing::Objects, Refresh::Layer),
        Ok(false) => tell("Nothing erased"),
        Err(error) => tell_failure("Erase failed: ", error.as_str()),
    }
}

/// Ends the saving of what was drawn.
pub fn finish_save(saved: Result<(), String>) -> (effect: EditEffect)
    ensures
        match saved {
            Ok(()) => effect.is("Saved"@, Clearing::Nothing, Refresh::Layer),
            Err(error) => effect.only_tells("Save failed: "@ + error@),
        },
{
    match saved {
        Ok(()) => self::effect(String::from_str("Saved"), Clearing::Nothing, Refresh::Layer),
        Err(error) => tell_failure("Save failed: ", error.as_str()),
    }
}

/// Ends the saving of settings. Returns what to tell the user.
pub fn finish_save_settings(saved: Result<(), String>) -> (message: String)
    ensures
        message@ == match saved {
            Ok(()) => "Settings saved"@,
            Err(error) => "Settings failed: "@ + error@,
        },
{
    match saved {
        Ok(()) => String::from_str("Settings saved"),
        Err(error) => joined("Settings failed: ", error.as_str()),
    }
}

/// Ends a change of how the drawing is stored. Returns what to tell the user
/// where it failed.
pub fn finish_storage_commit_mode(changed: Result<(), String>) -> (message: Option<String>)
    ensures
        message is Some == changed is Err,
        changed matches Err(error) ==> message.unwrap()@ == "Storage commit setting failed: "@
            + error@,
{
    match changed {
        Ok(()) => None,
        Err(error) => Some(joined("Storage commit setting failed: ", error.as_str())),
    }
}

/// Ends a change of what the session log is told. Returns what to tell the user
/// where it failed.
pub fn finish_session_logging(changed: Result<(), String>) -> (message: Option<String>)
    ensures
        message is Some == changed is Err,
        changed matches Err(error) ==> message.unwrap()@ == "Session logging failed: "@ + error@,
{
    match changed {
        Ok(()) => None,
        Err(error) => Some(joined("Session logging failed: ", error.as_str())),
    }
}

/// The place of the last operation that was hit among the first `count`, or
/// minus one.
pub open spec fn last_hit(hits: Seq<bool>, count: int) -> int
    decreases count,
{
    if count <= 0 {
        -1
    } else if hits[count - 1] {
        count - 1
    } else {
        last_hit(hits, count - 1)
    }
}

/// The color at a place: that of the topmost operation there, or else the
/// background. `visible_colors` are the colors as they show.
pub fn sample_color(visible_colors: &Vec<Color>, hits: &Vec<bool>) -> (color: Color)
    requires
        visible_colors@.len() == hits@.len(),
    ensures
        color == if last_hit(hits@, hits@.len() as int) >= 0 {
            visible_colors@[last_hit(hits@, hits@.len() as int)]
        } else {
            background()
        },
{
    let mut i: usize = hits.len();
    while i > 0
        invariant
            i <= hits@.len() == visible_colors@.len(),
            last_hit(hits@, hits@.len() as int) == last_hit(hits@, i as int),
        decreases i,
    {
        if hits[i - 1] {
            return visible_colors[i - 1];
        }
        i = i - 1;
    }
    background_color()
}

/// What the user is told of a picked color.
pub fn picked_message(color: Color) -> (message: &'static str)
    ensures
        message@ == if color == background() {
            "Background picked"@
        } else {
            "Color picked"@
        },
{
    if color == background_color() {
        "Background picked"
    } else {
        "Color picked"
    }
}

/// The objects of operations are those that any of them belongs to.
pub proof fn law_objects_are_those_of_any_operation(
    operations: Seq<EditOperation>,
    count: int,
    object: u128,
)
    requires
        0 <= count <= operations.len(),
    ensures
        objects_of(operations, count).contains(object) <==> exists|i: int|
            0 <= i < count && (#[trigger] operations[i]).object() == object,
    decreases count,
{
    if count > 0 {
        law_objects_are_those_of_any_operation(operations, count - 1, object);
        let last = operations[count - 1];
        assert(last == operations[count - 1]);
        if exists|i: int| 0 <= i < count - 1 && (#[trigger] operations[i]).object() == object {
            let i = choose|i: int|
                0 <= i < count - 1 && (#[trigger] operations[i]).object() == object;
            assert(0 <= i < count && operations[i].object() == object);
        }
    }
}

/// The color of what lies on top is picked: the last operation that is hit, which
/// no later one hides.
pub proof fn law_the_topmost_hit_counts(hits: Seq<bool>, count: int)
    requires
        0 <= count <= hits.len(),
    ensures
        ({
            let top = last_hit(hits, count);
            &&& -1 <= top < count
            &&& top >= 0 ==> hits[top]
            &&& forall|k: int| top < k < count ==> !#[trigger] hits[k]
        }),
    decreases count,
{
    if count > 0 {
        law_the_topmost_hit_counts(hits, count - 1);
    }
}

} // verus!
