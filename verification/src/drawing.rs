//! What the pointer does with the tool in hand.

use crate::gestures::{push_pointer, with_pointer, PointerFrame, SelectionGestures};
use crate::model::{Color, EditKind, ToolKind};
use crate::screen::Position;
use crate::selection::SelectionTargetMode;
use crate::selection_state::positions_inside;
use vstd::prelude::*;

verus! {

/// At most so many steps of a walk through objects are taken in one frame.
pub const MAX_CYCLE_STEPS_PER_FRAME: usize = 64;

/// Dragging with the alt key held: up and down walks through the objects under
/// the place where it began, a mere click picks the color there.
#[derive(Debug, Clone, Copy)]
pub struct AltPointerGesture {
    pub start: Position,
    pub current: Position,
    pub applied_cycle_steps: isize,
    pub cycle_selection: bool,
}

/// The tool in hand and what it is in the middle of.
#[derive(Debug, Clone, Copy)]
pub struct PointerTools {
    pub tool: ToolKind,
    pub brush_sizing_drag_active: bool,
    pub alt_gesture: Option<AltPointerGesture>,
    pub last_pointer_position: Option<Position>,
}

/// Who takes the pointer in a frame.
#[derive(Debug, Clone, Copy, PartialEq, Eq, Structural)]
pub enum DrawingRoute {
    /// The view is being moved or zoomed.
    Navigation,
    /// A gesture with the alt key.
    AltGesture,
    /// The brush is being sized.
    SizeBrush,
    /// The sizing of the brush has ended.
    SizingEnded,
    /// Objects are shown as a picture and cannot be selected; where a press
    /// tried to, that is announced.
    SelectionReadOnly { announce: bool },
    /// The selection tool.
    Selection,
    /// Objects are shown as a picture and cannot be erased; where a press
    /// tried to, that is announced.
    EraserLassoReadOnly { announce: bool },
    /// The lasso eraser.
    EraserLasso,
    /// A tool that draws, or picks a color.
    Draw,
}

/// Whether the tool has a size.
pub open spec fn is_sized(tool: ToolKind) -> bool {
    tool == ToolKind::Brush || tool == ToolKind::Eraser || tool == ToolKind::LassoFill
}

impl PointerTools {
    /// The brush in hand, and nothing under way.
    pub fn new() -> (tools: Self)
        ensures
            tools == (PointerTools {
                tool: ToolKind::Brush,
                brush_sizing_drag_active: false,
                alt_gesture: None,
                last_pointer_position: None,
            }),
    {
        PointerTools {
            tool: ToolKind::Brush,
            brush_sizing_drag_active: false,
            alt_gesture: None,
            last_pointer_position: None,
        }
    }

    /// Whether the brush is being sized once the frame has begun.
    pub open spec fn sizing(self, frame: PointerFrame) -> bool {
        self.brush_sizing_drag_active || (frame.pressed && frame.modifiers.ctrl && frame.hovered
            && is_sized(self.tool))
    }

    /// Who takes the pointer in a frame.
    pub open spec fn route(
        self,
        frame: PointerFrame,
        navigating: bool,
        alt_taken: bool,
        objects_editable: bool,
    ) -> DrawingRoute {
        if navigating {
            DrawingRoute::Navigation
        } else if alt_taken {
            DrawingRoute::AltGesture
        } else if self.sizing(frame) {
            if frame.down {
                DrawingRoute::SizeBrush
            } else {
                DrawingRoute::SizingEnded
            }
        } else if self.tool == ToolKind::Selection {
            if objects_editable {
                DrawingRoute::Selection
            } else {
                DrawingRoute::SelectionReadOnly { announce: frame.pressed && frame.hovered }
            }
        } else if self.tool == ToolKind::EraserLasso {
            if objects_editable {
                DrawingRoute::EraserLasso
            } else {
                DrawingRoute::EraserLassoReadOnly { announce: frame.pressed && frame.hovered }
            }
        } else {
            DrawingRoute::Draw
        }
    }

    /// Decides who takes the pointer in a frame, and notes what follows from
    /// that alone: navigation ends a gesture with the alt key, a sizing begins
    /// or ends, and nothing is hovered unless objects can be selected. Where
    /// the pointer was is noted on every route but two: not while navigating,
    /// and on the drawing route only when the drawing is done.
    pub fn route_frame(
        &mut self,
        gestures: &mut SelectionGestures,
        frame: &PointerFrame,
        navigating: bool,
        alt_taken: bool,
        objects_editable: bool,
    ) -> (route: DrawingRoute)
        ensures
            route == old(self).route(*frame, navigating, alt_taken, objects_editable),
            *final(self) == (PointerTools {
                alt_gesture: if navigating {
                    None
                } else {
                    old(self).alt_gesture
                },
                brush_sizing_drag_active: match route {
                    DrawingRoute::Navigation | DrawingRoute::AltGesture => old(self).brush_sizing_drag_active,
                    _ => route == DrawingRoute::SizeBrush,
                },
                last_pointer_position: match route {
                    DrawingRoute::Navigation | DrawingRoute::Draw => old(self).last_pointer_position,
                    _ => frame.position,
                },
                ..*old(self)
            }),
            *final(gestures) == match route {
                DrawingRoute::SelectionReadOnly { .. }
                | DrawingRoute::EraserLassoReadOnly { .. }
                | DrawingRoute::EraserLasso
                | DrawingRoute::Draw => SelectionGestures {
                    hovered_operation_id: None,
                    hover_position: None,
                    ..*old(gestures)
                },
                _ => *old(gestures),
            },
    {
        if navigating {
            self.alt_gesture = None;
            return DrawingRoute::Navigation;
        }
        if alt_taken {
            self.last_pointer_position = frame.position;
            return DrawingRoute::AltGesture;
        }
        let sized: bool = match self.tool {
            ToolKind::Brush | ToolKind::Eraser | ToolKind::LassoFill => true,
            ToolKind::Eyedropper | ToolKind::Selection | ToolKind::EraserLasso => false,
        };
        if frame.pressed && frame.modifiers.ctrl && frame.hovered && sized {
            self.brush_sizing_drag_active = true;
        }
        if self.brush_sizing_drag_active {
            self.last_pointer_position = frame.position;
            if frame.down {
                return DrawingRoute::SizeBrush;
            }
            self.brush_sizing_drag_active = false;
            return DrawingRoute::SizingEnded;
        }
        let selecting: bool = self.tool == ToolKind::Selection;
        if !selecting || !objects_editable {
            gestures.hovered_operation_id = None;
            gestures.hover_position = None;
        }
        if selecting {
            self.last_pointer_position = frame.position;
            return if objects_editable {
                DrawingRoute::Selection
            } else {
                DrawingRoute::SelectionReadOnly { announce: frame.pressed && frame.hovered }
            };
        }
        if self.tool == ToolKind::EraserLasso {
            self.last_pointer_position = frame.position;
            return if objects_editable {
                DrawingRoute::EraserLasso
            } else {
                DrawingRoute::EraserLassoReadOnly { announce: frame.pressed && frame.hovered }
            };
        }
        DrawingRoute::Draw
    }
}

impl DrawingRoute {
    /// What to tell the user.
    pub fn message(self) -> (message: Option<&'static str>)
        ensures
            match self {
                DrawingRoute::SelectionReadOnly { announce: true } => message.is_some()
                    && message.unwrap()@
                    == "Distant tile is read-only; move closer to edit objects"@,
                DrawingRoute::EraserLassoReadOnly { announce: true } => message.is_some()
                    && message.unwrap()@ == "Distant tile is read-only; move closer to erase"@,
                _ => message.is_none(),
            },
    {
        match self {
            DrawingRoute::SelectionReadOnly { announce } => if announce {
                Some("Distant tile is read-only; move closer to edit objects")
            } else {
                None
            },
            DrawingRoute::EraserLassoReadOnly { announce } => if announce {
                Some("Distant tile is read-only; move closer to erase")
            } else {
                None
            },
            _ => None,
        }
    }

    /// Whether the recorded path of the pointer is dropped. The lasso eraser
    /// keeps it while the button is down, drawing ends it with the draft.
    pub fn resets_pointer_history(self, frame: &PointerFrame) -> (resets: bool)
        ensures
            resets == match self {
                DrawingRoute::EraserLasso => frame.released || !frame.down,
                DrawingRoute::Draw => false,
                _ => true,
            },
    {
        match self {
            DrawingRoute::EraserLasso => frame.released || !frame.down,
            DrawingRoute::Draw => false,
            _ => true,
        }
    }
}

/// Where a gesture with the alt key stands after it took note of a frame.
#[derive(Debug, Clone, Copy)]
pub enum AltPhase {
    /// There is no such gesture.
    Absent,
    /// It begins in this frame.
    Began,
    /// It goes on, and may end in this frame.
    Follows(AltPointerGesture),
}

/// What the frame of a gesture with the alt key asks for.
#[derive(Debug, Clone, Copy)]
pub struct AltActions {
    /// Walk through the objects under `origin` in this direction.
    pub direction: isize,
    /// So many steps.
    pub steps: usize,
    pub origin: Position,
    /// Pick the color at `origin`.
    pub pick_color: bool,
}

/// The steps still to take, at most as many as one frame takes.
pub open spec fn pending_steps(target: int, applied: int) -> int {
    let pending = target - applied;
    if pending > 64 {
        64
    } else if pending < -64 {
        -64
    } else {
        pending
    }
}

impl PointerTools {
    /// Whether a gesture with the alt key would walk through objects.
    pub open spec fn alt_cycles(self, target_mode: SelectionTargetMode) -> bool {
        self.tool == ToolKind::Selection && target_mode == SelectionTargetMode::Object
    }

    /// The gesture with the alt key, after it followed the pointer.
    pub open spec fn followed_gesture(self, frame: PointerFrame) -> AltPointerGesture {
        let gesture = self.alt_gesture.unwrap();
        match frame.position {
            Some(position) => AltPointerGesture { current: position, ..gesture },
            None => gesture,
        }
    }

    /// Begins a gesture with the alt key, or lets one under way follow the
    /// pointer. What a gesture begun in this frame hovered is forgotten.
    pub fn track_alt_gesture(
        &mut self,
        gestures: &mut SelectionGestures,
        frame: &PointerFrame,
        target_mode: SelectionTargetMode,
    ) -> (phase: AltPhase)
        ensures
            frame.modifiers.alt && frame.press().is_some() ==> {
                &&& phase is Began
                &&& *final(self) == (PointerTools {
                    alt_gesture: Some(
                        AltPointerGesture {
                            start: frame.press().unwrap(),
                            current: frame.press().unwrap(),
                            applied_cycle_steps: 0,
                            cycle_selection: old(self).alt_cycles(target_mode),
                        },
                    ),
                    ..*old(self)
                })
                &&& *final(gestures) == (SelectionGestures {
                    hovered_operation_id: None,
                    hover_position: None,
                    ..*old(gestures)
                })
            },
            !(frame.modifiers.alt && frame.press().is_some()) ==> {
                &&& *final(gestures) == *old(gestures)
                &&& *final(self) == *old(self)
                &&& phase == if old(self).alt_gesture.is_some() {
                    AltPhase::Follows(old(self).followed_gesture(*frame))
                } else {
                    AltPhase::Absent
                }
            },
    {
        if frame.modifiers.alt {
            if let Some(start) = frame.canvas_press() {
                let cycle_selection: bool = self.tool == ToolKind::Selection && target_mode
                    == SelectionTargetMode::Object;
                self.alt_gesture = Some(
                    AltPointerGesture {
                        start,
                        current: start,
                        applied_cycle_steps: 0,
                        cycle_selection,
                    },
                );
                gestures.hovered_operation_id = None;
                gestures.hover_position = None;
                return AltPhase::Began;
            }
        }
        match self.alt_gesture {
            Some(gesture) => match frame.position {
                Some(position) => AltPhase::Follows(
                    AltPointerGesture { current: position, ..gesture },
                ),
                None => AltPhase::Follows(gesture),
            },
            None => AltPhase::Absent,
        }
    }

    /// Goes on with the gesture that [`Self::track_alt_gesture`] returned.
    /// `target_steps` is how many steps of the walk its path is worth, `near`
    /// whether the pointer is still about where it began.
    pub fn apply_alt_gesture(
        &mut self,
        gesture: AltPointerGesture,
        frame: &PointerFrame,
        target_steps: isize,
        near: bool,
    ) -> (actions: AltActions)
        requires
            isize::MIN < target_steps - gesture.applied_cycle_steps <= isize::MAX,
        ensures
            ({
                let taken = if gesture.cycle_selection {
                    pending_steps(target_steps as int, gesture.applied_cycle_steps as int)
                } else {
                    0
                };
                let applied = gesture.applied_cycle_steps + taken;
                let ends = frame.released || !frame.down;
                &&& actions.origin == gesture.start
                &&& actions.steps == if taken < 0 {
                    -taken
                } else {
                    taken
                }
                &&& actions.direction == if taken > 0 {
                    1int
                } else if taken < 0 {
                    -1int
                } else {
                    0int
                }
                &&& actions.pick_color == (ends && applied == 0 && near)
                &&& *final(self) == (PointerTools {
                    alt_gesture: if ends {
                        None
                    } else {
                        Some(
                            AltPointerGesture { applied_cycle_steps: applied as isize, ..gesture },
                        )
                    },
                    ..*old(self)
                })
            }),
    {
        let mut gesture: AltPointerGesture = gesture;
        let mut direction: isize = 0;
        let mut steps: usize = 0;
        if gesture.cycle_selection {
            let pending: isize = target_steps - gesture.applied_cycle_steps;
            if pending > 0 {
                direction = 1;
                steps = if pending > 64 {
                    MAX_CYCLE_STEPS_PER_FRAME
                } else {
                    pending as usize
                };
                gesture.applied_cycle_steps = gesture.applied_cycle_steps + steps as isize;
            } else if pending < 0 {
                direction = -1;
                steps = if pending < -64 {
                    MAX_CYCLE_STEPS_PER_FRAME
                } else {
                    (-pending) as usize
                };
                gesture.applied_cycle_steps = gesture.applied_cycle_steps - steps as isize;
            }
        }
        let ends: bool = frame.released || !frame.down;
        let pick_color: bool = ends && gesture.applied_cycle_steps == 0 && near;
        self.alt_gesture = if ends {
            None
        } else {
            Some(gesture)
        };
        AltActions { direction, steps, origin: gesture.start, pick_color }
    }
}

/// What a press does with a drawing tool.
#[derive(Debug, Clone, Copy)]
pub enum DrawPress {
    /// There was no press on the canvas.
    Absent,
    /// The color at the position is picked.
    PickColor(Option<Position>),
    /// Objects are shown as a picture and cannot be erased.
    ReadOnly,
    /// The layer is hidden or locked.
    LayerBlocked,
    /// It is not known where the press was.
    Nowhere,
    /// A draft begins.
    Begin { position: Position, kind: EditKind, color: Color },
}

/// What a draft of the tool does to the canvas.
pub open spec fn drawn_kind(tool: ToolKind) -> EditKind {
    match tool {
        ToolKind::Eraser => EditKind::Erase,
        ToolKind::LassoFill => EditKind::Fill,
        _ => EditKind::Paint,
    }
}

/// What a press does with a drawing tool; erasing draws in the background's
/// color.
pub open spec fn pressed_with(
    tool: ToolKind,
    frame: PointerFrame,
    objects_editable: bool,
    layer_editable: bool,
    color: Color,
    background: Color,
) -> DrawPress {
    if !frame.pressed || !frame.hovered {
        DrawPress::Absent
    } else if tool == ToolKind::Eyedropper {
        DrawPress::PickColor(frame.press())
    } else if tool == ToolKind::Eraser && !objects_editable {
        DrawPress::ReadOnly
    } else if !layer_editable {
        DrawPress::LayerBlocked
    } else {
        match frame.press() {
            Some(position) => DrawPress::Begin {
                position,
                kind: drawn_kind(tool),
                color: if tool == ToolKind::Eraser {
                    background
                } else {
                    color
                },
            },
            None => DrawPress::Nowhere,
        }
    }
}

/// That objects can only be looked at is announced where the pointer is pressed
/// over the canvas, and not while it stays down or elsewhere.
pub proof fn law_presses_are_answered_once(
    tools: PointerTools,
    frame: PointerFrame,
    navigating: bool,
    alt_taken: bool,
)
    ensures
        match tools.route(frame, navigating, alt_taken, false) {
            DrawingRoute::SelectionReadOnly { announce } => {
                &&& !frame.pressed || !frame.hovered ==> !announce
                &&& frame.pressed && frame.hovered ==> announce
            },
            DrawingRoute::EraserLassoReadOnly { announce } => {
                &&& !frame.pressed || !frame.hovered ==> !announce
                &&& frame.pressed && frame.hovered ==> announce
            },
            _ => true,
        },
{
}

/// Objects that can only be looked at are left alone: no frame of the pointer
/// selects them or draws a lasso around them, and no press erases them.
pub proof fn law_read_only_objects_are_left_alone(
    tools: PointerTools,
    frame: PointerFrame,
    navigating: bool,
    alt_taken: bool,
    layer_editable: bool,
    color: Color,
    background: Color,
)
    ensures
        tools.route(frame, navigating, alt_taken, false) != DrawingRoute::Selection,
        tools.route(frame, navigating, alt_taken, false) != DrawingRoute::EraserLasso,
        pressed_with(tools.tool, frame, false, layer_editable, color, background) matches
            DrawPress::Begin { kind, .. } ==> kind != EditKind::Erase,
{
}

/// What a press does with a drawing tool; erasing draws in the background's
/// color.
pub fn draw_press(
    tool: ToolKind,
    frame: &PointerFrame,
    objects_editable: bool,
    layer_editable: bool,
    color: Color,
    background: Color,
) -> (press: DrawPress)
    requires
        tool != ToolKind::Selection,
        tool != ToolKind::EraserLasso,
    ensures
        press == pressed_with(tool, *frame, objects_editable, layer_editable, color, background),
{
    if !frame.pressed || !frame.hovered {
        return DrawPress::Absent;
    }
    let press: Option<Position> = frame.canvas_press();
    if tool == ToolKind::Eyedropper {
        return DrawPress::PickColor(press);
    }
    if tool == ToolKind::Eraser && !objects_editable {
        return DrawPress::ReadOnly;
    }
    if !layer_editable {
        return DrawPress::LayerBlocked;
    }
    let kind: EditKind = match tool {
        ToolKind::Eraser => EditKind::Erase,
        ToolKind::LassoFill => EditKind::Fill,
        _ => EditKind::Paint,
    };
    match press {
        Some(position) => DrawPress::Begin {
            position,
            kind,
            color: if kind == EditKind::Erase {
                background
            } else {
                color
            },
        },
        None => DrawPress::Nowhere,
    }
}

impl DrawPress {
    /// What to tell the user.
    pub fn message(self) -> (message: Option<&'static str>)
        ensures
            match self {
                DrawPress::ReadOnly => message.is_some() && message.unwrap()@
                    == "Distant tile is read-only; move closer to erase"@,
                DrawPress::LayerBlocked => message.is_some() && message.unwrap()@
                    == "Active layer is hidden or locked"@,
                _ => message.is_none(),
            },
    {
        match self {
            DrawPress::ReadOnly => Some("Distant tile is read-only; move closer to erase"),
            DrawPress::LayerBlocked => Some("Active layer is hidden or locked"),
            _ => None,
        }
    }

    /// Whether the frame ends with the press.
    pub fn ends_frame(self) -> (ends: bool)
        ensures
            ends == (self is PickColor || self is ReadOnly || self is LayerBlocked),
    {
        match self {
            DrawPress::PickColor(_) | DrawPress::ReadOnly | DrawPress::LayerBlocked => true,
            _ => false,
        }
    }
}

/// What a frame does to the draft.
#[derive(Debug)]
pub struct DraftFrame {
    /// Where to extend the draft to, in order.
    pub extend_to: Vec<Position>,
    /// How many samples of a touch to record.
    pub touch_samples: Option<usize>,
    /// Where to let the draft end.
    pub end_at: Option<Position>,
    /// Whether the draft is finished.
    pub finished: bool,
}

/// The path of the pointer in a frame: that of the events, or the recorded one
/// where it knows more positions.
pub open spec fn drawn_path(
    frame: PointerFrame,
    touch: bool,
    has_draft: bool,
    recorded: Option<Seq<Position>>,
) -> Seq<Position> {
    let drags = with_pointer(frame.drag_positions@, frame.position, frame.down);
    if has_draft && !touch && (frame.down || frame.released) && frame.position.is_some()
        && recorded.is_some() && recorded.unwrap().len() > drags.len() {
        recorded.unwrap()
    } else {
        drags
    }
}

/// Whether the recorded path of the pointer is asked for.
pub fn wants_recorded_path(frame: &PointerFrame, touch: bool, has_draft: bool) -> (wanted: bool)
    ensures
        wanted == (has_draft && !touch && (frame.down || frame.released)
            && frame.position.is_some()),
{
    has_draft && !touch && (frame.down || frame.released) && frame.position.is_some()
}

/// What a frame does to the draft. `touch` tells whether the frame's positions
/// come from a touch; `recorded` is the recorded path of the pointer, where
/// there is one.
pub fn draft_frame(
    frame: &PointerFrame,
    touch: bool,
    has_draft: bool,
    recorded: Option<Vec<Position>>,
) -> (result: DraftFrame)
    ensures
        ({
            let path = drawn_path(
                *frame,
                touch,
                has_draft,
                match recorded {
                    Some(positions) => Some(positions@),
                    None => None,
                },
            );
            &&& result.extend_to@ == if has_draft {
                positions_inside(frame.canvas, path)
            } else {
                Seq::<Position>::empty()
            }
            &&& result.touch_samples == if touch && (has_draft || frame.pressed || frame.down
                || frame.released) {
                Some(path.len() as usize)
            } else {
                None
            }
            &&& result.end_at == if frame.released && frame.position.is_some()
                && frame.canvas.covers(frame.position.unwrap()) {
                frame.position
            } else {
                None
            }
            &&& result.finished == frame.released
        }),
{
    let mut path: Vec<Position> = Vec::new();
    let mut i: usize = 0;
    while i < frame.drag_positions.len()
        invariant
            i <= frame.drag_positions.len(),
            path@ == frame.drag_positions@.take(i as int),
        decreases frame.drag_positions.len() - i,
    {
        path.push(frame.drag_positions[i]);
        i = i + 1;
    }
    assert(path@ =~= frame.drag_positions@);
    push_pointer(&mut path, frame.position, frame.down);
    if wants_recorded_path(frame, touch, has_draft) {
        if let Some(positions) = recorded {
            if positions.len() > path.len() {
                path = positions;
            }
        }
    }
    let touch_samples: Option<usize> = if touch && (has_draft || frame.pressed || frame.down
        || frame.released) {
        Some(path.len())
    } else {
        None
    };
    let ghost inside = |position: Position| frame.canvas.covers(position);
    let mut extend_to: Vec<Position> = Vec::new();
    if has_draft {
        let mut k: usize = 0;
        proof {
            reveal(Seq::filter);
            assert(path@.take(0).filter(inside) =~= seq![]);
        }
        while k < path.len()
            invariant
                k <= path.len(),
                inside == |position: Position| frame.canvas.covers(position),
                extend_to@ == path@.take(k as int).filter(inside),
            decreases path.len() - k,
        {
            proof {
                path@.take(k as int).lemma_filter_push(path@[k as int], inside);
                assert(path@.take(k + 1) =~= path@.take(k as int).push(path@[k as int]));
            }
            if frame.canvas.contains(path[k]) {
                extend_to.push(path[k]);
            }
            k = k + 1;
        }
        assert(path@.take(k as int) =~= path@);
    }
    let end_at: Option<Position> = match frame.position {
        Some(position) => if frame.released && frame.canvas.contains(position) {
            Some(position)
        } else {
            None
        },
        None => None,
    };
    DraftFrame { extend_to, touch_samples, end_at, finished: frame.released }
}

/// Each frame goes to what it is for: moving the view comes before everything, then
/// the alternate key, then sizing the brush, and else the tool in hand decides.
pub proof fn law_frames_go_to_what_they_are_for(
    tools: PointerTools,
    frame: PointerFrame,
    alt_taken: bool,
    objects_editable: bool,
)
    ensures
        tools.route(frame, true, alt_taken, objects_editable) == DrawingRoute::Navigation,
        tools.route(frame, false, true, objects_editable) == DrawingRoute::AltGesture,
        tools.brush_sizing_drag_active && frame.down ==> tools.route(
            frame,
            false,
            false,
            objects_editable,
        ) == DrawingRoute::SizeBrush,
        tools.brush_sizing_drag_active && !frame.down ==> tools.route(
            frame,
            false,
            false,
            objects_editable,
        ) == DrawingRoute::SizingEnded,
        !tools.brush_sizing_drag_active && !frame.modifiers.ctrl && tools.tool
            == ToolKind::Selection ==> tools.route(frame, false, false, true)
            == DrawingRoute::Selection,
        !tools.brush_sizing_drag_active && !frame.modifiers.ctrl && tools.tool
            == ToolKind::EraserLasso ==> tools.route(frame, false, false, true)
            == DrawingRoute::EraserLasso,
        !tools.brush_sizing_drag_active && !frame.modifiers.ctrl && tools.tool
            != ToolKind::Selection && tools.tool != ToolKind::EraserLasso ==> tools.route(
            frame,
            false,
            false,
            objects_editable,
        ) == DrawingRoute::Draw,
        !tools.brush_sizing_drag_active && frame.pressed && frame.hovered && frame.down
            && frame.modifiers.ctrl && (tools.tool == ToolKind::Brush || tools.tool
            == ToolKind::Eraser || tools.tool == ToolKind::LassoFill) ==> tools.route(
            frame,
            false,
            false,
            objects_editable,
        ) == DrawingRoute::SizeBrush,
{
}

/// A draft begins where the pointer was pressed, with the color of the tool: what
/// the eraser draws erases and has the color of the background, what the lasso
/// draws fills, and everything else paints.
pub proof fn law_drafts_begin_at_the_press(
    tool: ToolKind,
    frame: PointerFrame,
    color: Color,
    background: Color,
    position: Position,
)
    requires
        tool != ToolKind::Eyedropper,
        frame.pressed,
        frame.hovered,
        frame.press() == Some(position),
    ensures
        pressed_with(tool, frame, true, true, color, background) matches DrawPress::Begin {
            position: at,
            kind,
            color: drawn,
        } && at == position && (tool == ToolKind::Eraser ==> kind == EditKind::Erase && drawn
            == background) && (tool == ToolKind::LassoFill ==> kind == EditKind::Fill && drawn
            == color) && (tool == ToolKind::Brush ==> kind == EditKind::Paint && drawn == color),
        pressed_with(tool, frame, true, false, color, background) == DrawPress::LayerBlocked,
{
}

/// Steps are caught up with, not more than so many at a time, in the direction in
/// which they are.
pub proof fn law_steps_are_caught_up_with(target: int, applied: int)
    ensures
        -64 <= target - applied <= 64 ==> applied + pending_steps(target, applied) == target,
        target - applied > 64 ==> pending_steps(target, applied) == 64,
        target - applied < -64 ==> pending_steps(target, applied) == -64,
{
}

/// A draft follows the pointer, and where the path was recorded in more detail,
/// that path; never for a touch.
pub proof fn law_drafts_follow_the_recorded_path(
    frame: PointerFrame,
    touch: bool,
    has_draft: bool,
    recorded: Seq<Position>,
)
    ensures
        ({
            let drags = with_pointer(frame.drag_positions@, frame.position, frame.down);
            let path = drawn_path(frame, touch, has_draft, Some(recorded));
            &&& path == drags || path == recorded
            &&& drags.len() <= path.len()
            &&& touch || !has_draft || frame.position is None ==> path == drags
            &&& !touch && has_draft && frame.position is Some && (frame.down || frame.released)
                && recorded.len() > drags.len() ==> path == recorded
            &&& drawn_path(frame, touch, has_draft, None) == drags
        }),
{
}

} // verus!
