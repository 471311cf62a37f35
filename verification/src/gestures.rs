//! Gestures of the selection tool.

use crate::screen::{
    optional_positions_match, same_optional_position, same_position, Position, ScreenRect,
};
use vstd::prelude::*;

verus! {

/// A corner of the selection by which it is scaled.
#[derive(Debug, Clone, Copy, PartialEq, Eq, Structural)]
pub enum SelectionScaleHandle {
    TopLeft,
    TopRight,
    BottomLeft,
    BottomRight,
}

impl SelectionScaleHandle {
    /// The corner at which the handle stands.
    pub fn position(self, bounds: &ScreenRect) -> (corner: Position)
        ensures
            corner == self.corner(*bounds),
    {
        match self {
            SelectionScaleHandle::TopLeft => bounds.min,
            SelectionScaleHandle::TopRight => Position { x: bounds.max.x, y: bounds.min.y },
            SelectionScaleHandle::BottomLeft => Position { x: bounds.min.x, y: bounds.max.y },
            SelectionScaleHandle::BottomRight => bounds.max,
        }
    }

    /// The corner that stays in place while the handle is dragged.
    pub fn pivot(self, bounds: &ScreenRect) -> (corner: Position)
        ensures
            corner == self.opposite().corner(*bounds),
    {
        match self {
            SelectionScaleHandle::TopLeft => bounds.max,
            SelectionScaleHandle::TopRight => Position { x: bounds.min.x, y: bounds.max.y },
            SelectionScaleHandle::BottomLeft => Position { x: bounds.max.x, y: bounds.min.y },
            SelectionScaleHandle::BottomRight => bounds.min,
        }
    }

    /// The corner at which the handle stands.
    pub open spec fn corner(self, bounds: ScreenRect) -> Position {
        Position {
            x: if self == SelectionScaleHandle::TopLeft || self
                == SelectionScaleHandle::BottomLeft {
                bounds.min.x
            } else {
                bounds.max.x
            },
            y: if self == SelectionScaleHandle::TopLeft || self == SelectionScaleHandle::TopRight {
                bounds.min.y
            } else {
                bounds.max.y
            },
        }
    }

    /// The handle at the diagonally opposite corner.
    pub open spec fn opposite(self) -> SelectionScaleHandle {
        match self {
            SelectionScaleHandle::TopLeft => SelectionScaleHandle::BottomRight,
            SelectionScaleHandle::TopRight => SelectionScaleHandle::BottomLeft,
            SelectionScaleHandle::BottomLeft => SelectionScaleHandle::TopRight,
            SelectionScaleHandle::BottomRight => SelectionScaleHandle::TopLeft,
        }
    }
}

/// Scaling the selection by one of its corners.
#[derive(Debug, Clone, Copy)]
pub struct SelectionScaleGesture {
    pub handle: SelectionScaleHandle,
    pub bounds: ScreenRect,
    pub pointer_start: Position,
    pub current: Position,
}

/// Turning the selection around its center.
#[derive(Debug, Clone, Copy)]
pub struct SelectionRotateGesture {
    pub bounds: ScreenRect,
    pub pointer_start: Position,
    pub current: Position,
    pub snap: bool,
}

/// What the pointer is doing to the selection of objects.
#[derive(Debug, Clone, Copy)]
pub struct SelectionGestures {
    pub hovered_operation_id: Option<u128>,
    pub hover_position: Option<Position>,
    pub drag_start: Option<Position>,
    pub drag_current: Option<Position>,
    pub drag_active: bool,
    pub move_start: Option<Position>,
    pub move_current: Option<Position>,
    pub move_active: bool,
    pub scale: Option<SelectionScaleGesture>,
    pub rotate: Option<SelectionRotateGesture>,
}

/// The modifier keys that the selection heeds.
#[derive(Debug, Clone, Copy, PartialEq, Eq, Structural)]
pub struct SelectionModifiers {
    pub shift: bool,
    pub ctrl: bool,
    pub alt: bool,
}

/// What the pointer did in one frame.
#[derive(Debug)]
pub struct PointerFrame {
    /// Where the primary button went down, if it did.
    pub press_position: Option<Position>,
    /// Where the pointer is.
    pub position: Option<Position>,
    /// Where the pointer was while the primary button was down.
    pub drag_positions: Vec<Position>,
    pub pressed: bool,
    pub down: bool,
    pub released: bool,
    /// Whether the pointer is over the canvas.
    pub hovered: bool,
    pub canvas: ScreenRect,
    pub modifiers: SelectionModifiers,
}

impl PointerFrame {
    /// Where a press that started over the canvas in this frame happened.
    pub open spec fn press(self) -> Option<Position> {
        if !self.pressed || !self.hovered {
            None
        } else if self.press_position.is_some() {
            self.press_position
        } else {
            self.position
        }
    }

    /// Where a press that started over the canvas in this frame happened.
    pub fn canvas_press(&self) -> (press: Option<Position>)
        ensures
            press == self.press(),
    {
        if !self.pressed || !self.hovered {
            return None;
        }
        match self.press_position {
            Some(position) => Some(position),
            None => self.position,
        }
    }
}

/// The drag positions of a frame, with the pointer's position at their end
/// while the button is down.
pub open spec fn with_pointer(
    drag_positions: Seq<Position>,
    position: Option<Position>,
    down: bool,
) -> Seq<Position> {
    if down && position.is_some() && !(drag_positions.len() > 0 && same_position(
        drag_positions.last(),
        position.unwrap(),
    )) {
        drag_positions.push(position.unwrap())
    } else {
        drag_positions
    }
}

/// Adds the pointer's position to the drag positions, unless it is there.
pub fn push_pointer(drag_positions: &mut Vec<Position>, position: Option<Position>, down: bool)
    ensures
        final(drag_positions)@ == with_pointer(old(drag_positions)@, position, down),
{
    if down {
        if let Some(position) = position {
            let count: usize = drag_positions.len();
            if count == 0 || !drag_positions[count - 1].same_as(position) {
                drag_positions.push(position);
            }
        }
    }
}

/// The last of the positions, or `before` where there are none.
pub open spec fn last_or(positions: Seq<Position>, before: Option<Position>) -> Option<Position> {
    if positions.len() > 0 {
        Some(positions.last())
    } else {
        before
    }
}

/// The last of the positions that lies on the canvas, or `before` where none
/// does.
pub open spec fn last_inside(
    canvas: ScreenRect,
    positions: Seq<Position>,
    before: Option<Position>,
) -> Option<Position>
    decreases positions.len(),
{
    if positions.len() == 0 {
        before
    } else if canvas.covers(positions.last()) {
        Some(positions.last())
    } else {
        last_inside(canvas, positions.drop_last(), before)
    }
}

/// The pointer's position where it lies on the canvas, and else `before`.
pub open spec fn inside_or(
    canvas: ScreenRect,
    position: Option<Position>,
    before: Option<Position>,
) -> Option<Position> {
    if position.is_some() && canvas.covers(position.unwrap()) {
        position
    } else {
        before
    }
}

fn find_last_inside(
    canvas: &ScreenRect,
    positions: &Vec<Position>,
    before: Option<Position>,
) -> (found: Option<Position>)
    ensures
        found == last_inside(*canvas, positions@, before),
{
    let mut i: usize = positions.len();
    assert(positions@.take(i as int) =~= positions@);
    while i > 0
        invariant
            i <= positions.len(),
            last_inside(*canvas, positions@, before) == last_inside(
                *canvas,
                positions@.take(i as int),
                before,
            ),
        decreases i,
    {
        assert(positions@.take(i as int).last() == positions@[i - 1]);
        assert(positions@.take(i as int).drop_last() =~= positions@.take(i - 1));
        if canvas.contains(positions[i - 1]) {
            return Some(positions[i - 1]);
        }
        i = i - 1;
    }
    before
}

/// What lies under the pointer where a press on the canvas happened.
#[derive(Debug, Clone, Copy)]
pub struct PressTarget {
    /// The screen bounds of the selection, where it has any.
    pub bounds: Option<ScreenRect>,
    pub on_rotate_handle: bool,
    pub on_scale_handle: Option<SelectionScaleHandle>,
    pub on_selected: bool,
}

/// What a frame of the selection tool brought to an end.
#[derive(Debug, Clone, Copy, PartialEq, Eq, Structural)]
pub enum GestureOutcome {
    Continues,
    FinishRotate,
    FinishScale,
    FinishMove,
    FinishDrag,
}

impl SelectionGestures {
    /// No gesture.
    pub fn new() -> (gestures: Self)
        ensures
            gestures == (SelectionGestures {
                hovered_operation_id: None,
                hover_position: None,
                drag_start: None,
                drag_current: None,
                drag_active: false,
                move_start: None,
                move_current: None,
                move_active: false,
                scale: None,
                rotate: None,
            }),
    {
        SelectionGestures {
            hovered_operation_id: None,
            hover_position: None,
            drag_start: None,
            drag_current: None,
            drag_active: false,
            move_start: None,
            move_current: None,
            move_active: false,
            scale: None,
            rotate: None,
        }
    }

    /// Whether no gesture is under way.
    pub open spec fn idle(self) -> bool {
        !self.drag_active && !self.move_active && self.scale.is_none() && self.rotate.is_none()
    }

    /// Whether what lies under the pointer has to be looked up anew: it rests
    /// at another place, and nothing moves.
    pub open spec fn looks_up_hover(self, frame: PointerFrame, busy: bool, settling: bool) -> bool {
        &&& !frame.down
        &&& self.idle()
        &&& !busy
        &&& !settling
        &&& !same_optional_position(frame.position, self.hover_position)
    }

    /// Whether what lies under the pointer has to be looked up anew. `busy`
    /// tells whether any button is down or the wheel turns, `settling` whether
    /// a change of zoom is settling.
    pub fn wants_hover(&self, frame: &PointerFrame, busy: bool, settling: bool) -> (wanted: bool)
        ensures
            wanted == self.looks_up_hover(*frame, busy, settling),
    {
        !frame.down && !self.drag_active && !self.move_active && self.scale.is_none()
            && self.rotate.is_none() && !busy && !settling && !optional_positions_match(
            frame.position,
            self.hover_position,
        )
    }

    /// The gestures after the pointer came to rest at another place, where
    /// `found` is the topmost object.
    pub open spec fn after_hover(
        self,
        frame: PointerFrame,
        busy: bool,
        settling: bool,
        found: Option<u128>,
    ) -> SelectionGestures {
        if self.looks_up_hover(frame, busy, settling) {
            SelectionGestures {
                hover_position: frame.position,
                hovered_operation_id: if frame.position.is_some() && frame.canvas.covers(
                    frame.position.unwrap(),
                ) {
                    found
                } else {
                    None
                },
                ..self
            }
        } else {
            self
        }
    }

    /// The gestures after a press at `position`: the first that applies of
    /// turning, scaling and moving the selection, and else a new drag.
    pub open spec fn after_press(
        self,
        position: Position,
        modifiers: SelectionModifiers,
        has_selection: bool,
        target: PressTarget,
    ) -> SelectionGestures {
        let rested = SelectionGestures { hovered_operation_id: None, hover_position: None, ..self };
        let transforms = !modifiers.ctrl && !modifiers.alt && has_selection
            && target.bounds.is_some();
        if transforms && target.on_rotate_handle {
            SelectionGestures {
                rotate: Some(
                    SelectionRotateGesture {
                        bounds: target.bounds.unwrap(),
                        pointer_start: position,
                        current: position,
                        snap: modifiers.shift,
                    },
                ),
                move_active: false,
                drag_active: false,
                ..rested
            }
        } else if transforms && !modifiers.shift && target.on_scale_handle.is_some() {
            SelectionGestures {
                scale: Some(
                    SelectionScaleGesture {
                        handle: target.on_scale_handle.unwrap(),
                        bounds: target.bounds.unwrap(),
                        pointer_start: position,
                        current: position,
                    },
                ),
                move_active: false,
                drag_active: false,
                ..rested
            }
        } else if !modifiers.shift && !modifiers.ctrl && !modifiers.alt && target.on_selected {
            SelectionGestures {
                move_start: Some(position),
                move_current: Some(position),
                move_active: true,
                drag_active: false,
                ..rested
            }
        } else {
            SelectionGestures {
                drag_start: Some(position),
                drag_current: Some(position),
                drag_active: true,
                move_active: false,
                ..rested
            }
        }
    }

    /// The gestures after the pointer moved along `drags`, and the one that a
    /// release of the button brought to an end.
    pub open spec fn after_drag(
        self,
        frame: PointerFrame,
        drags: Seq<Position>,
    ) -> (SelectionGestures, GestureOutcome) {
        let ended = |outcome: GestureOutcome|
            if frame.released {
                outcome
            } else {
                GestureOutcome::Continues
            };
        let followed = if frame.released && frame.position.is_some() {
            frame.position
        } else {
            last_or(drags, None)
        };
        if let Some(gesture) = self.rotate {
            let gesture = if followed.is_some() {
                SelectionRotateGesture {
                    current: followed.unwrap(),
                    snap: frame.modifiers.shift,
                    ..gesture
                }
            } else {
                gesture
            };
            (
                SelectionGestures { rotate: Some(gesture), ..self },
                ended(GestureOutcome::FinishRotate),
            )
        } else if let Some(gesture) = self.scale {
            let gesture = if followed.is_some() {
                SelectionScaleGesture { current: followed.unwrap(), ..gesture }
            } else {
                gesture
            };
            (SelectionGestures { scale: Some(gesture), ..self }, ended(GestureOutcome::FinishScale))
        } else if self.move_active {
            let current = if followed.is_some() {
                followed
            } else {
                self.move_current
            };
            (SelectionGestures { move_current: current, ..self }, ended(GestureOutcome::FinishMove))
        } else if self.drag_active {
            let current = last_inside(frame.canvas, drags, self.drag_current);
            if frame.released {
                (
                    SelectionGestures {
                        drag_current: inside_or(frame.canvas, frame.position, current),
                        drag_active: false,
                        ..self
                    },
                    GestureOutcome::FinishDrag,
                )
            } else {
                (SelectionGestures { drag_current: current, ..self }, GestureOutcome::Continues)
            }
        } else {
            (self, GestureOutcome::Continues)
        }
    }

    /// The gestures after one frame of the selection tool, and the gesture
    /// that the frame brought to an end.
    pub open spec fn after_frame(
        self,
        frame: PointerFrame,
        busy: bool,
        settling: bool,
        found: Option<u128>,
        has_selection: bool,
        target: PressTarget,
    ) -> (SelectionGestures, GestureOutcome) {
        let drags = with_pointer(frame.drag_positions@, frame.position, frame.down);
        let hovering = self.after_hover(frame, busy, settling, found);
        let pressed = match frame.press() {
            Some(position) => hovering.after_press(
                position,
                frame.modifiers,
                has_selection,
                target,
            ),
            None => hovering,
        };
        pressed.after_drag(frame, drags)
    }

    fn begin(
        &mut self,
        position: Position,
        modifiers: SelectionModifiers,
        has_selection: bool,
        target: PressTarget,
    )
        ensures
            *final(self) == old(self).after_press(position, modifiers, has_selection, target),
    {
        self.hovered_operation_id = None;
        self.hover_position = None;
        let bounds: Option<ScreenRect> = if !modifiers.ctrl && !modifiers.alt && has_selection {
            target.bounds
        } else {
            None
        };
        if let Some(bounds) = bounds {
            if target.on_rotate_handle {
                self.rotate = Some(
                    SelectionRotateGesture {
                        bounds,
                        pointer_start: position,
                        current: position,
                        snap: modifiers.shift,
                    },
                );
                self.move_active = false;
                self.drag_active = false;
                return;
            }
            if !modifiers.shift {
                if let Some(handle) = target.on_scale_handle {
                    self.scale = Some(
                        SelectionScaleGesture {
                            handle,
                            bounds,
                            pointer_start: position,
                            current: position,
                        },
                    );
                    self.move_active = false;
                    self.drag_active = false;
                    return;
                }
            }
        }
        if !modifiers.shift && !modifiers.ctrl && !modifiers.alt && target.on_selected {
            self.move_start = Some(position);
            self.move_current = Some(position);
            self.move_active = true;
            self.drag_active = false;
        } else {
            self.drag_start = Some(position);
            self.drag_current = Some(position);
            self.drag_active = true;
            self.move_active = false;
        }
    }

    fn follow(&mut self, frame: &PointerFrame, drags: &Vec<Position>) -> (outcome: GestureOutcome)
        ensures
            (*final(self), outcome) == old(self).after_drag(*frame, drags@),
    {
        let count: usize = drags.len();
        let followed: Option<Position> = if frame.released && frame.position.is_some() {
            frame.position
        } else if count > 0 {
            Some(drags[count - 1])
        } else {
            None
        };
        if let Some(gesture) = self.rotate {
            if let Some(position) = followed {
                self.rotate = Some(
                    SelectionRotateGesture {
                        current: position,
                        snap: frame.modifiers.shift,
                        ..gesture
                    },
                );
            }
            return if frame.released {
                GestureOutcome::FinishRotate
            } else {
                GestureOutcome::Continues
            };
        }
        if let Some(gesture) = self.scale {
            if let Some(position) = followed {
                self.scale = Some(SelectionScaleGesture { current: position, ..gesture });
            }
            return if frame.released {
                GestureOutcome::FinishScale
            } else {
                GestureOutcome::Continues
            };
        }
        if self.move_active {
            if followed.is_some() {
                self.move_current = followed;
            }
            return if frame.released {
                GestureOutcome::FinishMove
            } else {
                GestureOutcome::Continues
            };
        }
        if !self.drag_active {
            return GestureOutcome::Continues;
        }
        self.drag_current = find_last_inside(&frame.canvas, drags, self.drag_current);
        if !frame.released {
            return GestureOutcome::Continues;
        }
        if let Some(position) = frame.position {
            if frame.canvas.contains(position) {
                self.drag_current = Some(position);
            }
        }
        self.drag_active = false;
        GestureOutcome::FinishDrag
    }

    /// Takes one frame of the selection tool. `found` is the topmost object
    /// under the pointer, read where [`Self::wants_hover`] says so; `target`
    /// is what lies under a press.
    pub fn handle_frame(
        &mut self,
        frame: &PointerFrame,
        busy: bool,
        settling: bool,
        found: Option<u128>,
        has_selection: bool,
        target: PressTarget,
    ) -> (outcome: GestureOutcome)
        ensures
            (*final(self), outcome) == old(self).after_frame(
                *frame,
                busy,
                settling,
                found,
                has_selection,
                target,
            ),
    {
        let mut drags: Vec<Position> = Vec::new();
        let mut i: usize = 0;
        while i < frame.drag_positions.len()
            invariant
                i <= frame.drag_positions.len(),
                drags@ == frame.drag_positions@.take(i as int),
            decreases frame.drag_positions.len() - i,
        {
            drags.push(frame.drag_positions[i]);
            i = i + 1;
        }
        assert(drags@ =~= frame.drag_positions@);
        push_pointer(&mut drags, frame.position, frame.down);
        if self.wants_hover(frame, busy, settling) {
            self.hover_position = frame.position;
            self.hovered_operation_id = match frame.position {
                Some(position) => if frame.canvas.contains(position) {
                    found
                } else {
                    None
                },
                None => None,
            };
        }
        if let Some(position) = frame.canvas_press() {
            self.begin(position, frame.modifiers, has_selection, target);
        }
        self.follow(frame, &drags)
    }
}

/// The last position of a drag inside of the canvas is one of the positions, lies
/// inside, and none after it does; where none does, it stays what it was.
pub proof fn law_drags_follow_the_pointer_inside_the_canvas(
    canvas: ScreenRect,
    positions: Seq<Position>,
    before: Option<Position>,
)
    ensures
        (exists|i: int|
            {
                &&& 0 <= i < positions.len()
                &&& canvas.covers(#[trigger] positions[i])
                &&& last_inside(canvas, positions, before) == Some(positions[i])
                &&& forall|k: int|
                    i < k < positions.len() ==> !canvas.covers(#[trigger] positions[k])
            }) || ((forall|k: int|
            0 <= k < positions.len() ==> !canvas.covers(#[trigger] positions[k]))
            && last_inside(canvas, positions, before) == before),
    decreases positions.len(),
{
    if positions.len() > 0 {
        let rest = positions.drop_last();
        let last = positions.len() - 1;
        if canvas.covers(positions.last()) {
            assert(positions[last] == positions.last());
        } else {
            law_drags_follow_the_pointer_inside_the_canvas(canvas, rest, before);
            if exists|i: int|
                {
                    &&& 0 <= i < rest.len()
                    &&& canvas.covers(#[trigger] rest[i])
                    &&& last_inside(canvas, rest, before) == Some(rest[i])
                    &&& forall|k: int| i < k < rest.len() ==> !canvas.covers(#[trigger] rest[k])
                } {
                let i = choose|i: int|
                    {
                        &&& 0 <= i < rest.len()
                        &&& canvas.covers(#[trigger] rest[i])
                        &&& last_inside(canvas, rest, before) == Some(rest[i])
                        &&& forall|k: int|
                            i < k < rest.len() ==> !canvas.covers(#[trigger] rest[k])
                    };
                assert(positions[i] == rest[i]);
                assert forall|k: int| i < k < positions.len() implies !canvas.covers(
                    #[trigger] positions[k],
                ) by {
                    if k < rest.len() {
                        assert(rest[k] == positions[k]);
                    }
                }
            } else {
                assert forall|k: int| 0 <= k < positions.len() implies !canvas.covers(
                    #[trigger] positions[k],
                ) by {
                    if k < rest.len() {
                        assert(rest[k] == positions[k]);
                    }
                }
            }
        }
    }
}

/// A corner is scaled about the opposite one: these two have no side in common,
/// and the opposite of the opposite corner is the corner itself.
pub proof fn law_corners_are_scaled_about_their_opposites(
    handle: SelectionScaleHandle,
    bounds: ScreenRect,
)
    ensures
        ({
            let corner = handle.corner(bounds);
            let pivot = handle.opposite().corner(bounds);
            &&& (corner.x == bounds.min.x && pivot.x == bounds.max.x) || (corner.x == bounds.max.x
                && pivot.x == bounds.min.x)
            &&& (corner.y == bounds.min.y && pivot.y == bounds.max.y) || (corner.y == bounds.max.y
                && pivot.y == bounds.min.y)
            &&& handle.opposite().opposite() == handle
        }),
        SelectionScaleHandle::TopLeft.corner(bounds) == bounds.min,
        SelectionScaleHandle::BottomRight.corner(bounds) == bounds.max,
        SelectionScaleHandle::TopRight.corner(bounds) == (Position {
            x: bounds.max.x,
            y: bounds.min.y,
        }),
        SelectionScaleHandle::BottomLeft.corner(bounds) == (Position {
            x: bounds.min.x,
            y: bounds.max.y,
        }),
{
}

/// Pressing begins just one gesture, at the press, and forgets what was hovered.
/// The handle for rotating comes first, then those for scaling, then moving what
/// is selected, and else an area is dragged; with the control or the alternate key
/// it always is.
pub proof fn law_presses_begin_one_gesture(
    gestures: SelectionGestures,
    position: Position,
    modifiers: SelectionModifiers,
    has_selection: bool,
    target: PressTarget,
)
    requires
        gestures.idle(),
    ensures
        ({
            let after = gestures.after_press(position, modifiers, has_selection, target);
            let count = (if after.drag_active {
                1int
            } else {
                0
            }) + (if after.move_active {
                1int
            } else {
                0
            }) + (if after.scale is Some {
                1int
            } else {
                0
            }) + (if after.rotate is Some {
                1int
            } else {
                0
            });
            &&& count == 1
            &&& after.hovered_operation_id is None
            &&& after.hover_position is None
            &&& modifiers.ctrl || modifiers.alt ==> after.drag_active
            &&& after.drag_active ==> after.drag_start == Some(position) && after.drag_current
                == Some(position)
            &&& after.move_active ==> after.move_start == Some(position) && after.move_current
                == Some(position) && target.on_selected && !modifiers.shift
            &&& after.scale matches Some(scale) ==> {
                &&& Some(scale.handle) == target.on_scale_handle
                &&& Some(scale.bounds) == target.bounds
                &&& scale.pointer_start == position
                &&& scale.current == position
                &&& !modifiers.shift
                &&& has_selection
            }
            &&& after.rotate matches Some(rotate) ==> {
                &&& target.on_rotate_handle
                &&& Some(rotate.bounds) == target.bounds
                &&& rotate.pointer_start == position
                &&& rotate.current == position
                &&& rotate.snap == modifiers.shift
                &&& has_selection
            }
            &&& !modifiers.ctrl && !modifiers.alt && has_selection && target.bounds is Some
                && target.on_rotate_handle ==> after.rotate is Some
            &&& !modifiers.ctrl && !modifiers.alt && !modifiers.shift && has_selection
                && target.bounds is Some && !target.on_rotate_handle && target.on_scale_handle
                is Some ==> after.scale is Some
            &&& !modifiers.ctrl && !modifiers.alt && !modifiers.shift && target.on_selected && (
            !has_selection || target.bounds is None) ==> after.move_active
        }),
{
}

/// While a gesture goes on, only where it has come to changes: where it began, and
/// what it is about, stay. It finishes when the button is released, as the gesture
/// that it is.
pub proof fn law_gestures_keep_where_they_began(
    gestures: SelectionGestures,
    frame: PointerFrame,
    drags: Seq<Position>,
)
    ensures
        ({
            let (after, outcome) = gestures.after_drag(frame, drags);
            &&& after.drag_start == gestures.drag_start
            &&& after.move_start == gestures.move_start
            &&& after.move_active == gestures.move_active
            &&& after.hovered_operation_id == gestures.hovered_operation_id
            &&& after.hover_position == gestures.hover_position
            &&& (after.rotate is Some) == (gestures.rotate is Some)
            &&& (after.scale is Some) == (gestures.scale is Some)
            &&& gestures.rotate matches Some(rotate) ==> {
                &&& (after.rotate->0).bounds == rotate.bounds
                &&& (after.rotate->0).pointer_start == rotate.pointer_start
                &&& frame.released && frame.position is Some ==> Some((after.rotate->0).current)
                    == frame.position
                &&& !frame.released && drags.len() > 0 ==> (after.rotate->0).current
                    == drags.last()
            }
            &&& gestures.scale matches Some(scale) ==> {
                &&& (after.scale->0).bounds == scale.bounds
                &&& (after.scale->0).handle == scale.handle
                &&& (after.scale->0).pointer_start == scale.pointer_start
            }
            &&& gestures.rotate is None && gestures.scale is Some && frame.released
                && frame.position is Some ==> Some((after.scale->0).current) == frame.position
            &&& gestures.rotate is None && gestures.scale is Some && !frame.released && drags.len()
                > 0 ==> (after.scale->0).current == drags.last()
            &&& gestures.rotate is None && gestures.scale is None && gestures.move_active
                && frame.released && frame.position is Some ==> after.move_current
                == frame.position
            &&& gestures.rotate is None && gestures.scale is None && gestures.move_active
                && !frame.released && drags.len() > 0 ==> after.move_current == Some(drags.last())
            &&& !frame.released ==> outcome == GestureOutcome::Continues
            &&& frame.released ==> (outcome == GestureOutcome::FinishRotate <==> gestures.rotate
                is Some)
            &&& frame.released && gestures.rotate is None ==> (outcome
                == GestureOutcome::FinishScale <==> gestures.scale is Some)
            &&& frame.released && gestures.rotate is None && gestures.scale is None ==> (outcome
                == GestureOutcome::FinishMove <==> gestures.move_active)
            &&& outcome == GestureOutcome::FinishDrag ==> !after.drag_active
        }),
{
}

/// What is under the pointer is looked up only while nothing is going on, and is
/// known only for a pointer over the canvas.
pub proof fn law_hovering_waits_for_gestures(
    gestures: SelectionGestures,
    frame: PointerFrame,
    busy: bool,
    settling: bool,
    found: Option<u128>,
)
    ensures
        ({
            let after = gestures.after_hover(frame, busy, settling, found);
            &&& frame.down || busy || settling || gestures.drag_active || gestures.move_active
                || gestures.scale is Some || gestures.rotate is Some ==> after == gestures
            &&& after.hovered_operation_id != gestures.hovered_operation_id ==> {
                ||| after.hovered_operation_id is None
                ||| after.hovered_operation_id == found && frame.position is Some
                    && frame.canvas.covers(frame.position->0)
            }
            &&& !frame.down && !busy && !settling && gestures.idle() && !same_optional_position(
                frame.position,
                gestures.hover_position,
            ) && frame.position is Some && frame.canvas.covers(frame.position->0)
                ==> after.hovered_operation_id == found && after.hover_position == frame.position
        }),
{
}

/// While the button is down, the drag positions of a frame end where the pointer
/// is; none of them is left out, and the pointer's position is not repeated.
pub proof fn law_drags_end_at_the_pointer(
    drag_positions: Seq<Position>,
    position: Option<Position>,
    down: bool,
)
    ensures
        ({
            let all = with_pointer(drag_positions, position, down);
            &&& drag_positions.len() <= all.len() <= drag_positions.len() + 1
            &&& all.take(drag_positions.len() as int) == drag_positions
            &&& down && position is Some ==> all.len() > 0 && (all.last() == position.unwrap()
                || same_position(all.last(), position.unwrap()))
            &&& !down || position is None ==> all == drag_positions
            &&& drag_positions.len() > 0 && position is Some && same_position(
                drag_positions.last(),
                position.unwrap(),
            ) ==> all == drag_positions
        }),
{
    assert(drag_positions.take(drag_positions.len() as int) =~= drag_positions);
    if position is Some {
        assert(drag_positions.push(position.unwrap()).take(drag_positions.len() as int)
            =~= drag_positions);
    }
}

} // verus!
