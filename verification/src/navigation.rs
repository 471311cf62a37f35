//! Moving the camera with the pointer, the wheel and the window for
//! navigation.

use crate::input::{
    has_moved, moved, paint_order_steps, paint_order_wheel_steps, selection_steps,
    selection_wheel_steps, steps_of, InputEvent,
};
use crate::screen::Position;
use vstd::prelude::*;

verus! {

/// Whether the canvas is dragged along: the space bar and the primary button
/// are down.
pub fn space_pan_requested(space_down: bool, primary_down: bool) -> (requested: bool)
    ensures
        requested == (space_down && primary_down),
{
    space_down && primary_down
}

/// Whether dragging zooms: the key for it and the primary button are down.
pub fn z_zoom_requested(z_down: bool, primary_down: bool) -> (requested: bool)
    ensures
        requested == (z_down && primary_down),
{
    z_down && primary_down
}

/// What is known of the pointer and the keys in a frame.
#[derive(Debug, Clone, Copy)]
pub struct NavigationInput {
    /// Whether the pointer is over the canvas.
    pub hovered: bool,
    /// Where over the canvas it is.
    pub hover_position: Option<Position>,
    /// Whether the selection tool is in hand and targets objects.
    pub selects_objects: bool,
    pub alt: bool,
    pub space_down: bool,
    pub z_down: bool,
    pub primary_down: bool,
    pub middle_down: bool,
    /// By how much the pointer moved.
    pub delta_x: u32,
    pub delta_y: u32,
}

/// What the wheel does in a frame.
#[derive(Debug)]
pub enum WheelNavigation {
    /// Moves the selection in the order of painting, step by step; the frame
    /// ends with that.
    Reorder { steps: Vec<isize> },
    /// Walks through the objects under the pointer; the frame ends with that.
    Cycle { position: Position, steps: Vec<isize> },
    /// Nothing, and the frame ends with that.
    Held,
    /// Zooms at the position.
    Zoom { position: Position },
    /// Nothing.
    Nothing,
}

impl WheelNavigation {
    /// Whether nothing more is done in the frame.
    pub open spec fn ends(self) -> bool {
        self is Reorder || self is Cycle || self is Held
    }

    /// Whether nothing more is done in the frame.
    pub fn ends_frame(&self) -> (ends: bool)
        ensures
            ends == self.ends(),
    {
        match self {
            WheelNavigation::Reorder { .. } | WheelNavigation::Cycle { .. }
            | WheelNavigation::Held => true,
            WheelNavigation::Zoom { .. } | WheelNavigation::Nothing => false,
        }
    }
}

/// All steps in the order of painting that the events ask for.
pub open spec fn reorder_steps(events: Seq<InputEvent>) -> Seq<isize> {
    steps_of(events, |event: InputEvent| paint_order_steps(event), events.len() as int)
}

/// All steps through the objects under the pointer that the events ask for.
pub open spec fn cycle_steps(events: Seq<InputEvent>) -> Seq<isize> {
    steps_of(events, |event: InputEvent| selection_steps(event), events.len() as int)
}

/// What the wheel does: over the canvas, with objects to select, it reorders or
/// walks through them where the modifiers ask for that. Otherwise it zooms,
/// unless the modifier for walking is held over objects.
pub fn wheel_navigation(input: &NavigationInput, events: &Vec<InputEvent>) -> (wheel:
    WheelNavigation)
    ensures
        ({
            let over = input.hovered && input.hover_position is Some;
            let reorders = reorder_steps(events@);
            let cycles = cycle_steps(events@);
            if !over {
                wheel is Nothing
            } else if input.selects_objects && reorders.len() > 0 {
                wheel matches WheelNavigation::Reorder { steps } && steps@ == reorders
            } else if input.selects_objects && cycles.len() > 0 {
                wheel matches WheelNavigation::Cycle { position, steps } && position
                    == input.hover_position->0 && steps@ == cycles
            } else if input.selects_objects && input.alt {
                wheel is Held
            } else {
                wheel matches WheelNavigation::Zoom { position } && position
                    == input.hover_position->0
            }
        }),
{
    if !input.hovered {
        return WheelNavigation::Nothing;
    }
    match input.hover_position {
        Some(position) => {
            if input.selects_objects {
                let steps: Vec<isize> = paint_order_wheel_steps(events);
                if steps.len() > 0 {
                    return WheelNavigation::Reorder { steps };
                }
                let steps: Vec<isize> = selection_wheel_steps(events);
                if steps.len() > 0 {
                    return WheelNavigation::Cycle { position, steps };
                }
                if input.alt {
                    return WheelNavigation::Held;
                }
            }
            WheelNavigation::Zoom { position }
        },
        None => WheelNavigation::Nothing,
    }
}

/// Whether any event is a turn of the wheel, which is then logged.
pub fn has_wheel_events(events: &Vec<InputEvent>) -> (present: bool)
    ensures
        present == exists|i: int| 0 <= i < events@.len() && #[trigger] events@[i] is Wheel,
{
    let mut i: usize = 0;
    while i < events.len()
        invariant
            i <= events@.len(),
            forall|k: int| 0 <= k < i ==> !(#[trigger] events@[k] is Wheel),
        decreases events@.len() - i,
    {
        if let InputEvent::Wheel(wheel) = events[i] {
            assert(events@[i as int] is Wheel);
            return true;
        }
        i = i + 1;
    }
    false
}

/// What dragging the pointer does in a frame.
#[derive(Debug, Clone, Copy)]
pub enum DragNavigation {
    Nothing,
    /// Moves the canvas along, with the space bar.
    SpacePan,
    /// Zooms at the position.
    Zoom { position: Position },
    /// Moves the canvas along, with the middle button.
    MiddlePan,
}

/// What dragging the pointer does: the space bar before the key for zooming,
/// and that before the middle button. Without a move nothing happens.
pub fn drag_navigation(input: &NavigationInput) -> (drag: DragNavigation)
    ensures
        drag == if input.space_down && input.primary_down {
            if moved(input.delta_x) || moved(input.delta_y) {
                DragNavigation::SpacePan
            } else {
                DragNavigation::Nothing
            }
        } else if input.z_down && input.primary_down {
            if moved(input.delta_y) && input.hover_position is Some {
                DragNavigation::Zoom { position: input.hover_position->0 }
            } else {
                DragNavigation::Nothing
            }
        } else if input.middle_down && (moved(input.delta_x) || moved(input.delta_y)) {
            DragNavigation::MiddlePan
        } else {
            DragNavigation::Nothing
        },
{
    let dragged: bool = has_moved(input.delta_x) || has_moved(input.delta_y);
    if space_pan_requested(input.space_down, input.primary_down) {
        if dragged {
            DragNavigation::SpacePan
        } else {
            DragNavigation::Nothing
        }
    } else if z_zoom_requested(input.z_down, input.primary_down) {
        match input.hover_position {
            Some(position) => {
                if has_moved(input.delta_y) {
                    DragNavigation::Zoom { position }
                } else {
                    DragNavigation::Nothing
                }
            },
            None => DragNavigation::Nothing,
        }
    } else if input.middle_down && dragged {
        DragNavigation::MiddlePan
    } else {
        DragNavigation::Nothing
    }
}

impl DragNavigation {
    /// Under what name the move is logged.
    pub fn label(self) -> (label: Option<&'static str>)
        ensures
            label is None == (self is Nothing),
            self is SpacePan ==> label->0@ == "space_pan"@,
            self is Zoom ==> label->0@ == "z_drag_zoom"@,
            self is MiddlePan ==> label->0@ == "middle_pan"@,
    {
        match self {
            DragNavigation::Nothing => None,
            DragNavigation::SpacePan => Some("space_pan"),
            DragNavigation::Zoom { .. } => Some("z_drag_zoom"),
            DragNavigation::MiddlePan => Some("middle_pan"),
        }
    }

    /// Whether what is under the pointer has to be looked up anew.
    pub fn drops_hover(self) -> (drops: bool)
        ensures
            drops == (self is SpacePan || self is MiddlePan),
    {
        match self {
            DragNavigation::SpacePan | DragNavigation::MiddlePan => true,
            DragNavigation::Nothing | DragNavigation::Zoom { .. } => false,
        }
    }
}

/// What was asked for in the window for navigation.
#[derive(Debug, Clone, Copy, PartialEq, Eq, Structural)]
pub struct NavigationRequests {
    pub depth_jump: bool,
    pub lateral_jump: bool,
    pub origin: bool,
    pub bookmarks: bool,
}

/// Something to do after the window for navigation was shown.
#[derive(Debug, Clone, Copy, PartialEq, Eq, Structural)]
pub enum NavigationAction {
    JumpToDepth,
    JumpToTile,
    JumpToOrigin,
    ShowBookmarks,
}

/// What the requests come to, in order: a jump to a tile before one to the
/// origin.
pub fn navigation_actions(requests: &NavigationRequests) -> (actions: Vec<NavigationAction>)
    ensures
        actions@ == crate::plan::only_if(requests.depth_jump, NavigationAction::JumpToDepth)
            + crate::plan::only_if(requests.lateral_jump, NavigationAction::JumpToTile)
            + crate::plan::only_if(
            requests.origin && !requests.lateral_jump,
            NavigationAction::JumpToOrigin,
        ) + crate::plan::only_if(requests.bookmarks, NavigationAction::ShowBookmarks),
{
    let mut actions: Vec<NavigationAction> = Vec::new();
    crate::plan::push_if(&mut actions, requests.depth_jump, NavigationAction::JumpToDepth);
    crate::plan::push_if(&mut actions, requests.lateral_jump, NavigationAction::JumpToTile);
    crate::plan::push_if(
        &mut actions,
        requests.origin && !requests.lateral_jump,
        NavigationAction::JumpToOrigin,
    );
    crate::plan::push_if(&mut actions, requests.bookmarks, NavigationAction::ShowBookmarks);
    assert(actions@ =~= crate::plan::only_if(requests.depth_jump, NavigationAction::JumpToDepth)
        + crate::plan::only_if(requests.lateral_jump, NavigationAction::JumpToTile)
        + crate::plan::only_if(
        requests.origin && !requests.lateral_jump,
        NavigationAction::JumpToOrigin,
    ) + crate::plan::only_if(requests.bookmarks, NavigationAction::ShowBookmarks));
    actions
}

} // verus!
