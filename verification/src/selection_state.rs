//! The selection tool's state from frame to frame.

use crate::gestures::{with_pointer, PointerFrame, SelectionGestures};
use crate::model::CanvasPoint;
use crate::screen::{Position, ScreenRect};
use crate::selection::{
    wrapped_cycle_index, AreaSelectionShape, RectangleSelectionMode, SelectionTargetMode,
};
use std::collections::HashSet;
use vstd::prelude::*;

verus! {

/// Where a walk through the objects under one place stands.
#[derive(Debug)]
pub struct SelectionCycle {
    pub position: Option<Position>,
    pub candidates: Vec<u128>,
    pub index: usize,
}

/// The place of the first selected candidate, from `from` on.
pub open spec fn first_selected(
    candidates: Seq<u128>,
    selected: Set<u128>,
    from: int,
) -> Option<int>
    decreases candidates.len() - from,
{
    if from >= candidates.len() {
        None
    } else if selected.contains(candidates[from]) {
        Some(from)
    } else {
        first_selected(candidates, selected, from + 1)
    }
}

fn find_first_selected(candidates: &Vec<u128>, selected: &HashSet<u128>) -> (found: Option<usize>)
    ensures
        match found {
            Some(index) => first_selected(candidates@, selected@, 0) == Some(index as int) && index
                < candidates.len(),
            None => first_selected(candidates@, selected@, 0).is_none(),
        },
{
    let mut i: usize = 0;
    while i < candidates.len()
        invariant
            i <= candidates.len(),
            first_selected(candidates@, selected@, 0) == first_selected(
                candidates@,
                selected@,
                i as int,
            ),
        decreases candidates.len() - i,
    {
        if selected.contains(&candidates[i]) {
            return Some(i);
        }
        i = i + 1;
    }
    None
}

fn same_ids(left: &Vec<u128>, right: &Vec<u128>) -> (same: bool)
    ensures
        same == (left@ == right@),
{
    if left.len() != right.len() {
        return false;
    }
    let mut i: usize = 0;
    while i < left.len()
        invariant
            i <= left.len(),
            left.len() == right.len(),
            forall|k: int| 0 <= k < i ==> left@[k] == right@[k],
        decreases left.len() - i,
    {
        if left[i] != right[i] {
            return false;
        }
        i = i + 1;
    }
    assert(left@ =~= right@);
    true
}

impl SelectionCycle {
    /// The index is that of a candidate, where there are any.
    pub open spec fn wf(self) -> bool {
        self.candidates.len() == 0 || self.index < self.candidates.len()
    }

    /// No walk.
    pub fn new() -> (cycle: Self)
        ensures
            cycle.wf(),
            cycle.position.is_none(),
            cycle.candidates@ == Seq::<u128>::empty(),
            cycle.index == 0,
    {
        SelectionCycle { position: None, candidates: Vec::new(), index: 0 }
    }

    /// Ends the walk.
    pub fn reset(&mut self)
        ensures
            final(self).wf(),
            final(self).position.is_none(),
            final(self).candidates@ == Seq::<u128>::empty(),
            final(self).index == 0,
    {
        self.position = None;
        self.candidates.clear();
        self.index = 0;
    }

    /// Which candidate a step reaches: the next one where the walk goes on,
    /// else the one after the selected candidate, and else the first or, for a
    /// step back, the last.
    pub open spec fn reached(
        self,
        near_previous: bool,
        candidate_ids: Seq<u128>,
        selected: Set<u128>,
        step: int,
    ) -> int {
        if self.position.is_some() && near_previous && self.candidates@ == candidate_ids {
            (self.index + step) % (candidate_ids.len() as int)
        } else if let Some(current) = first_selected(candidate_ids, selected, 0) {
            (current + step) % (candidate_ids.len() as int)
        } else if step < 0 {
            candidate_ids.len() - 1
        } else {
            0
        }
    }

    /// Takes a step of the walk through the objects under `position`, and
    /// returns the object reached. `near_previous` tells whether the walk was
    /// last at about this position.
    pub fn cycle_selection_candidate(
        &mut self,
        position: Position,
        near_previous: bool,
        candidate_ids: Vec<u128>,
        selected: &HashSet<u128>,
        step: isize,
    ) -> (reached: Option<u128>)
        requires
            old(self).wf(),
            candidate_ids.len() + step <= isize::MAX,
            candidate_ids.len() <= isize::MAX,
        ensures
            final(self).wf(),
            candidate_ids.len() == 0 ==> reached.is_none() && final(self).position.is_none()
                && final(self).candidates@.len() == 0 && final(self).index == 0,
            candidate_ids.len() > 0 ==> {
                &&& final(self).position == Some(position)
                &&& final(self).candidates@ == candidate_ids@
                &&& final(self).index == old(self).reached(
                    near_previous,
                    candidate_ids@,
                    selected@,
                    step as int,
                )
                &&& reached == Some(candidate_ids@[final(self).index as int])
            },
    {
        let count: usize = candidate_ids.len();
        if count == 0 {
            self.reset();
            return None;
        }
        let continues: bool = self.position.is_some() && near_previous && same_ids(
            &self.candidates,
            &candidate_ids,
        );
        let index: usize = if continues {
            wrapped_cycle_index(self.index, count, step)
        } else {
            match find_first_selected(&candidate_ids, selected) {
                Some(current) => wrapped_cycle_index(current, count, step),
                None => if step < 0 {
                    count - 1
                } else {
                    0
                },
            }
        };
        self.index = index;
        self.position = Some(position);
        self.candidates = candidate_ids;
        Some(self.candidates[index])
    }
}

/// An area to which drawing is clipped.
#[derive(Debug)]
pub struct AreaSelection {
    pub shape: AreaSelectionShape,
    pub points: Vec<CanvasPoint>,
}

/// The state of the selection tool and of the lasso eraser.
#[derive(Debug)]
pub struct SelectionState {
    pub selected_operation_ids: HashSet<u128>,
    pub gestures: SelectionGestures,
    pub cycle: SelectionCycle,
    pub target_mode: SelectionTargetMode,
    pub rectangle_mode: RectangleSelectionMode,
    pub area_shape: AreaSelectionShape,
    pub area: Option<AreaSelection>,
    pub area_drag_points: Vec<Position>,
    pub area_drag_active: bool,
    pub eraser_target_ids: HashSet<u128>,
    pub eraser_lasso_points: Vec<Position>,
    pub eraser_lasso_active: bool,
}

/// What a frame of a tool that draws an outline asks for.
#[derive(Debug)]
pub struct OutlineFrame {
    /// The positions to extend the outline by, in order.
    pub positions: Vec<Position>,
    /// Whether the outline is complete.
    pub finished: bool,
    /// Whether the layer may not be edited.
    pub refused: bool,
}

/// The positions that lie on the canvas, in order.
pub open spec fn positions_inside(canvas: ScreenRect, positions: Seq<Position>) -> Seq<Position> {
    positions.filter(|position: Position| canvas.covers(position))
}

/// The positions by which a frame extends an outline: those of the drag, and
/// the pointer's at a release, as far as they lie on the canvas.
pub open spec fn outline_positions(frame: PointerFrame) -> Seq<Position> {
    let drags = with_pointer(frame.drag_positions@, frame.position, frame.down);
    if frame.released && frame.position.is_some() {
        positions_inside(frame.canvas, drags.push(frame.position.unwrap()))
    } else {
        positions_inside(frame.canvas, drags)
    }
}

fn collect_outline_positions(frame: &PointerFrame) -> (positions: Vec<Position>)
    ensures
        positions@ == outline_positions(*frame),
{
    let mut drags: Vec<Position> = Vec::new();
    let mut i: usize = 0;
    while i < frame.drag_positions.len()
        invariant
            i <= frame.drag_positions.len(),
            drags@ == frame.drag_positions@.take(i as int),
        decreases frame.drag_positions.len() - i,
    {
        drags.push(frame.drag_positions[i]);
        i = i + 1;
    }
    assert(drags@ =~= frame.drag_positions@);
    crate::gestures::push_pointer(&mut drags, frame.position, frame.down);
    if frame.released {
        if let Some(position) = frame.position {
            drags.push(position);
        }
    }
    let ghost inside = |position: Position| frame.canvas.covers(position);
    let mut positions: Vec<Position> = Vec::new();
    let mut k: usize = 0;
    proof {
        reveal(Seq::filter);
        assert(drags@.take(0).filter(inside) =~= seq![]);
    }
    while k < drags.len()
        invariant
            k <= drags.len(),
            inside == |position: Position| frame.canvas.covers(position),
            positions@ == drags@.take(k as int).filter(inside),
        decreases drags.len() - k,
    {
        proof {
            drags@.take(k as int).lemma_filter_push(drags@[k as int], inside);
            assert(drags@.take(k + 1) =~= drags@.take(k as int).push(drags@[k as int]));
        }
        if frame.canvas.contains(drags[k]) {
            positions.push(drags[k]);
        }
        k = k + 1;
    }
    assert(drags@.take(k as int) =~= drags@);
    positions
}

/// The corners of a rectangle that is dragged through `positions`: the first
/// stays, the second is always the last position.
pub open spec fn dragged_corners(corners: Seq<Position>, positions: Seq<Position>) -> Seq<Position> {
    if positions.len() == 0 || corners.len() == 0 {
        corners
    } else if corners.len() == 1 {
        corners.push(positions.last())
    } else {
        corners.update(1, positions.last())
    }
}

fn drag_corner(corners: &mut Vec<Position>, positions: &Vec<Position>)
    ensures
        final(corners)@ == dragged_corners(old(corners)@, positions@),
{
    let count: usize = positions.len();
    if count == 0 || corners.len() == 0 {
        return;
    }
    let last: Position = positions[count - 1];
    if corners.len() == 1 {
        corners.push(last);
    } else {
        corners.set(1, last);
    }
}

impl SelectionState {
    /// The cycle's index is that of a candidate.
    pub open spec fn wf(self) -> bool {
        self.cycle.wf()
    }

    /// Nothing selected, objects targeted by rectangles that take what lies
    /// inside.
    pub fn new() -> (state: Self)
        ensures
            state.wf(),
            state.objects_cleared(),
            state.area_cleared(),
            state.eraser_cleared(),
            state.target_mode == SelectionTargetMode::Object,
            state.rectangle_mode == RectangleSelectionMode::Inside,
            state.area_shape == AreaSelectionShape::Rectangle,
    {
        SelectionState {
            selected_operation_ids: HashSet::new(),
            gestures: SelectionGestures::new(),
            cycle: SelectionCycle::new(),
            target_mode: SelectionTargetMode::Object,
            rectangle_mode: RectangleSelectionMode::Inside,
            area_shape: AreaSelectionShape::Rectangle,
            area: None,
            area_drag_points: Vec::new(),
            area_drag_active: false,
            eraser_target_ids: HashSet::new(),
            eraser_lasso_points: Vec::new(),
            eraser_lasso_active: false,
        }
    }

    /// No object is selected, hovered or dragged.
    pub open spec fn objects_cleared(self) -> bool {
        self.selected_operation_ids@ == Set::<u128>::empty() && self.objects_rest()
    }

    /// No object is hovered, dragged or walked through.
    pub open spec fn objects_rest(self) -> bool {
        &&& self.gestures.idle()
        &&& self.gestures.hovered_operation_id.is_none()
        &&& self.gestures.hover_position.is_none()
        &&& self.gestures.drag_start.is_none()
        &&& self.gestures.drag_current.is_none()
        &&& self.gestures.move_start.is_none()
        &&& self.gestures.move_current.is_none()
        &&& self.cycle.position.is_none()
        &&& self.cycle.candidates@.len() == 0
        &&& self.cycle.index == 0
    }

    /// No area is selected or being drawn.
    pub open spec fn area_cleared(self) -> bool {
        self.area.is_none() && self.area_drag_points@.len() == 0 && !self.area_drag_active
    }

    /// Nothing is about to be erased.
    pub open spec fn eraser_cleared(self) -> bool {
        &&& self.eraser_target_ids@ == Set::<u128>::empty()
        &&& self.eraser_lasso_points@.len() == 0
        &&& !self.eraser_lasso_active
    }

    /// The modes are those of `other`.
    pub open spec fn same_modes(self, other: SelectionState) -> bool {
        &&& self.target_mode == other.target_mode
        &&& self.rectangle_mode == other.rectangle_mode
        &&& self.area_shape == other.area_shape
    }

    /// The selected and dragged objects are those of `other`.
    pub open spec fn same_objects(self, other: SelectionState) -> bool {
        &&& self.selected_operation_ids@ == other.selected_operation_ids@
        &&& self.gestures == other.gestures
        &&& self.cycle == other.cycle
    }

    /// The area is that of `other`.
    pub open spec fn same_area(self, other: SelectionState) -> bool {
        &&& self.area == other.area
        &&& self.area_drag_points@ == other.area_drag_points@
        &&& self.area_drag_active == other.area_drag_active
    }

    /// What is about to be erased is that of `other`.
    pub open spec fn same_eraser(self, other: SelectionState) -> bool {
        &&& self.eraser_target_ids@ == other.eraser_target_ids@
        &&& self.eraser_lasso_points@ == other.eraser_lasso_points@
        &&& self.eraser_lasso_active == other.eraser_lasso_active
    }

    /// Deselects all objects and drops every gesture with them.
    pub fn clear_object_selection_state(&mut self)
        ensures
            final(self).wf(),
            final(self).objects_cleared(),
            final(self).same_modes(*old(self)),
            final(self).same_area(*old(self)),
            final(self).same_eraser(*old(self)),
    {
        self.selected_operation_ids.clear();
        self.gestures = SelectionGestures::new();
        self.cycle.reset();
    }

    /// Deselects the area.
    pub fn clear_area_selection_state(&mut self)
        ensures
            final(self).cycle == old(self).cycle,
            final(self).area_cleared(),
            final(self).same_modes(*old(self)),
            final(self).same_objects(*old(self)),
            final(self).same_eraser(*old(self)),
    {
        self.area = None;
        self.area_drag_points.clear();
        self.area_drag_active = false;
    }

    /// Deselects everything.
    pub fn clear_transient_tools(&mut self)
        ensures
            final(self).wf(),
            final(self).objects_cleared(),
            final(self).area_cleared(),
            final(self).eraser_cleared(),
            final(self).same_modes(*old(self)),
    {
        self.clear_object_selection_state();
        self.clear_area_selection_state();
        self.eraser_target_ids.clear();
        self.eraser_lasso_points.clear();
        self.eraser_lasso_active = false;
    }

    /// Targets objects or areas from now on; what the other mode selected is
    /// deselected. Returns the message to show, where the mode is another one.
    pub fn set_selection_target_mode(&mut self, mode: SelectionTargetMode) -> (message: Option<
        &'static str,
    >)
        requires
            old(self).wf(),
        ensures
            final(self).wf(),
            old(self).target_mode == mode ==> message.is_none() && *final(self) == *old(self),
            old(self).target_mode != mode ==> {
                &&& final(self).target_mode == mode
                &&& final(self).rectangle_mode == old(self).rectangle_mode
                &&& final(self).area_shape == old(self).area_shape
                &&& final(self).same_eraser(*old(self))
                &&& message.is_some()
                &&& match mode {
                    SelectionTargetMode::Object => final(self).area_cleared()
                        && final(self).same_objects(*old(self)) && message.unwrap()@
                        == "Object selection"@,
                    SelectionTargetMode::Area => final(self).objects_cleared()
                        && final(self).same_area(*old(self)) && message.unwrap()@
                        == "Area selection"@,
                }
            },
    {
        if self.target_mode == mode {
            return None;
        }
        self.target_mode = mode;
        match mode {
            SelectionTargetMode::Object => {
                self.clear_area_selection_state();
                Some("Object selection")
            },
            SelectionTargetMode::Area => {
                self.clear_object_selection_state();
                Some("Area selection")
            },
        }
    }

    /// Draws areas in another shape from now on; the area is deselected.
    /// Returns the message to show, where the shape is another one.
    pub fn set_area_selection_shape(&mut self, shape: AreaSelectionShape) -> (message: Option<
        &'static str,
    >)
        requires
            old(self).wf(),
        ensures
            final(self).wf(),
            old(self).area_shape == shape ==> message.is_none() && *final(self) == *old(self),
            old(self).area_shape != shape ==> {
                &&& final(self).area_shape == shape
                &&& final(self).target_mode == old(self).target_mode
                &&& final(self).rectangle_mode == old(self).rectangle_mode
                &&& final(self).area_cleared()
                &&& final(self).same_objects(*old(self))
                &&& final(self).same_eraser(*old(self))
                &&& message.is_some()
                &&& message.unwrap()@ == match shape {
                    AreaSelectionShape::Rectangle => "Area rectangle"@,
                    AreaSelectionShape::Lasso => "Area lasso"@,
                }
            },
    {
        if self.area_shape == shape {
            return None;
        }
        self.area_shape = shape;
        self.clear_area_selection_state();
        match shape {
            AreaSelectionShape::Rectangle => Some("Area rectangle"),
            AreaSelectionShape::Lasso => Some("Area lasso"),
        }
    }

    /// Gives up: a scaling, else a turning of the selection, and else all that
    /// is selected. Returns the message to show.
    pub fn cancel(&mut self) -> (message: &'static str)
        requires
            old(self).wf(),
        ensures
            final(self).wf(),
            final(self).same_modes(*old(self)),
            old(self).gestures.scale.is_some() ==> {
                &&& final(self).gestures == (SelectionGestures {
                    scale: None,
                    ..old(self).gestures
                })
                &&& final(self).selected_operation_ids@ == old(self).selected_operation_ids@
                &&& final(self).cycle == old(self).cycle
                &&& final(self).same_area(*old(self))
                &&& final(self).same_eraser(*old(self))
                &&& message@ == "Transform cancelled"@
            },
            old(self).gestures.scale.is_none() && old(self).gestures.rotate.is_some() ==> {
                &&& final(self).gestures == (SelectionGestures {
                    rotate: None,
                    ..old(self).gestures
                })
                &&& final(self).selected_operation_ids@ == old(self).selected_operation_ids@
                &&& final(self).cycle == old(self).cycle
                &&& final(self).same_area(*old(self))
                &&& final(self).same_eraser(*old(self))
                &&& message@ == "Transform cancelled"@
            },
            old(self).gestures.scale.is_none() && old(self).gestures.rotate.is_none() ==> {
                &&& final(self).objects_cleared()
                &&& final(self).area_cleared()
                &&& final(self).eraser_cleared()
                &&& message@ == "Selection cleared"@
            },
    {
        if self.gestures.scale.is_some() {
            self.gestures.scale = None;
            return "Transform cancelled";
        }
        if self.gestures.rotate.is_some() {
            self.gestures.rotate = None;
            return "Transform cancelled";
        }
        self.clear_transient_tools();
        "Selection cleared"
    }
}

impl SelectionState {
    /// The outline that a frame of the area tool leaves behind: a press starts
    /// a new one.
    pub open spec fn area_outline(self, frame: PointerFrame) -> Seq<Position> {
        match frame.press() {
            Some(position) => seq![position],
            None => self.area_drag_points@,
        }
    }

    /// Whether an area is being drawn in this frame.
    pub open spec fn draws_area(self, frame: PointerFrame) -> bool {
        frame.press().is_some() || self.area_drag_active
    }

    /// Takes one frame of the area tool. The corners of a rectangle follow the
    /// pointer; a lasso has to be extended by the positions of the result.
    pub fn handle_area_frame(&mut self, frame: &PointerFrame) -> (outline: OutlineFrame)
        requires
            old(self).wf(),
        ensures
            final(self).wf(),
            final(self).same_modes(*old(self)),
            final(self).same_eraser(*old(self)),
            final(self).area == old(self).area,
            frame.press().is_some() ==> final(self).objects_cleared(),
            frame.press().is_none() ==> {
                &&& final(self).selected_operation_ids@ == old(self).selected_operation_ids@
                &&& final(self).cycle == old(self).cycle
                &&& final(self).gestures == (SelectionGestures {
                    hovered_operation_id: None,
                    hover_position: None,
                    ..old(self).gestures
                })
            },
            !outline.refused,
            outline.finished == (old(self).draws_area(*frame) && frame.released),
            final(self).area_drag_active == (old(self).draws_area(*frame) && !frame.released),
            outline.positions@ == if old(self).draws_area(*frame) && old(self).area_shape
                == AreaSelectionShape::Lasso {
                outline_positions(*frame)
            } else {
                Seq::<Position>::empty()
            },
            final(self).area_drag_points@ == if old(self).draws_area(*frame)
                && old(self).area_shape == AreaSelectionShape::Rectangle {
                dragged_corners(old(self).area_outline(*frame), outline_positions(*frame))
            } else {
                old(self).area_outline(*frame)
            },
    {
        self.gestures.hovered_operation_id = None;
        self.gestures.hover_position = None;
        if let Some(position) = frame.canvas_press() {
            self.clear_object_selection_state();
            self.area_drag_points.clear();
            self.area_drag_points.push(position);
            self.area_drag_active = true;
            assert(self.area_drag_points@ =~= seq![position]);
        }
        if !self.area_drag_active {
            let outline = OutlineFrame { positions: Vec::new(), finished: false, refused: false };
            return outline;
        }
        let mut positions: Vec<Position> = collect_outline_positions(frame);
        if self.area_shape == AreaSelectionShape::Rectangle {
            drag_corner(&mut self.area_drag_points, &positions);
            positions = Vec::new();
        }
        if frame.released {
            self.area_drag_active = false;
        }
        OutlineFrame { positions, finished: frame.released, refused: false }
    }

    /// The opposite corners of the rectangle being drawn.
    pub fn area_corners(&self) -> (corners: Option<(Position, Position)>)
        ensures
            corners == if self.area_drag_points@.len() >= 2 {
                Some((self.area_drag_points@[0], self.area_drag_points@[1]))
            } else {
                None
            },
    {
        if self.area_drag_points.len() >= 2 {
            Some((self.area_drag_points[0], self.area_drag_points[1]))
        } else {
            None
        }
    }

    /// Selects the drawn area, or none where it was too small, and forgets its
    /// outline. Returns the message to show.
    pub fn complete_area_selection(&mut self, points: Option<Vec<CanvasPoint>>) -> (message:
        &'static str)
        ensures
            final(self).same_modes(*old(self)),
            final(self).same_objects(*old(self)),
            final(self).same_eraser(*old(self)),
            final(self).area_drag_active == old(self).area_drag_active,
            final(self).area_drag_points@ == Seq::<Position>::empty(),
            final(self).area == match points {
                Some(points) => Some(AreaSelection { shape: old(self).area_shape, points }),
                None => None,
            },
            message@ == if points.is_some() {
                "Area selected"@
            } else {
                "Area selection cleared"@
            },
    {
        self.area_drag_points.clear();
        match points {
            Some(points) => {
                self.area = Some(AreaSelection { shape: self.area_shape, points });
                "Area selected"
            },
            None => {
                self.area = None;
                "Area selection cleared"
            },
        }
    }

    /// Takes one frame of the lasso eraser. `target_ids` are the operations
    /// that a lasso starting in this frame erases from. Where the layer may not
    /// be edited, a press is refused.
    pub fn handle_eraser_lasso_frame(
        &mut self,
        frame: &PointerFrame,
        layer_editable: bool,
        target_ids: HashSet<u128>,
    ) -> (outline: OutlineFrame)
        requires
            old(self).wf(),
        ensures
            final(self).wf(),
            final(self).same_modes(*old(self)),
            final(self).same_area(*old(self)),
            final(self).selected_operation_ids@ == old(self).selected_operation_ids@,
            final(self).cycle == old(self).cycle,
            final(self).gestures == (SelectionGestures {
                hovered_operation_id: None,
                ..old(self).gestures
            }),
            outline.refused == (frame.press().is_some() && !layer_editable),
            outline.refused ==> {
                &&& outline.positions@ == Seq::<Position>::empty()
                &&& !outline.finished
                &&& final(self).eraser_target_ids@ == Set::<u128>::empty()
                &&& final(self).eraser_lasso_points@ == old(self).eraser_lasso_points@
                &&& final(self).eraser_lasso_active == old(self).eraser_lasso_active
            },
            !outline.refused ==> {
                let draws = frame.press().is_some() || old(self).eraser_lasso_active;
                &&& final(self).eraser_target_ids@ == if frame.press().is_some() {
                    target_ids@
                } else {
                    old(self).eraser_target_ids@
                }
                &&& final(self).eraser_lasso_points@ == match frame.press() {
                    Some(position) => seq![position],
                    None => old(self).eraser_lasso_points@,
                }
                &&& outline.finished == (draws && frame.released)
                &&& final(self).eraser_lasso_active == (draws && !frame.released)
                &&& outline.positions@ == if draws {
                    outline_positions(*frame)
                } else {
                    Seq::<Position>::empty()
                }
            },
    {
        self.gestures.hovered_operation_id = None;
        if let Some(position) = frame.canvas_press() {
            if !layer_editable {
                self.eraser_target_ids.clear();
                let outline = OutlineFrame {
                    positions: Vec::new(),
                    finished: false,
                    refused: true,
                };
                return outline;
            }
            self.eraser_target_ids = target_ids;
            self.eraser_lasso_points.clear();
            self.eraser_lasso_points.push(position);
            self.eraser_lasso_active = true;
            assert(self.eraser_lasso_points@ =~= seq![position]);
        }
        if !self.eraser_lasso_active {
            let outline = OutlineFrame { positions: Vec::new(), finished: false, refused: false };
            return outline;
        }
        let positions: Vec<Position> = collect_outline_positions(frame);
        if frame.released {
            self.eraser_lasso_active = false;
        }
        OutlineFrame { positions, finished: frame.released, refused: false }
    }

    /// Ends a drag of the selection tool: a click where the pointer hardly
    /// moved, and else a rectangle. The drag is forgotten, except where a
    /// rectangle has no corners.
    pub fn complete_drag(&mut self, is_click: bool) -> (completion: DragCompletion)
        requires
            old(self).wf(),
        ensures
            final(self).wf(),
            final(self).same_modes(*old(self)),
            final(self).same_area(*old(self)),
            final(self).same_eraser(*old(self)),
            final(self).selected_operation_ids@ == old(self).selected_operation_ids@,
            final(self).cycle == old(self).cycle,
            completion == old(self).gestures.drag_completion(is_click),
            final(self).gestures == if is_click || completion != DragCompletion::Nothing {
                SelectionGestures { drag_start: None, drag_current: None, ..old(self).gestures }
            } else {
                old(self).gestures
            },
    {
        let start: Option<Position> = self.gestures.drag_start;
        let current: Option<Position> = self.gestures.drag_current;
        if is_click {
            self.gestures.drag_start = None;
            self.gestures.drag_current = None;
            return match current {
                Some(position) => DragCompletion::Click(position),
                None => DragCompletion::Nothing,
            };
        }
        match (start, current) {
            (Some(start), Some(end)) => {
                self.gestures.drag_start = None;
                self.gestures.drag_current = None;
                DragCompletion::Rectangle(start, end)
            },
            _ => DragCompletion::Nothing,
        }
    }

    /// Chooses the object that a click at `position` selects: with the alt key
    /// the next one of the walk through the objects there, and else the first.
    /// A click on nothing deselects all, unless the shift or control key adds
    /// to the selection.
    pub fn choose_clicked(
        &mut self,
        position: Position,
        near_previous: bool,
        candidate_ids: Vec<u128>,
        shift: bool,
        ctrl: bool,
        alt: bool,
    ) -> (chosen: Option<u128>)
        requires
            old(self).wf(),
            candidate_ids.len() < isize::MAX,
        ensures
            final(self).wf(),
            final(self).same_modes(*old(self)),
            final(self).same_area(*old(self)),
            final(self).same_eraser(*old(self)),
            final(self).gestures == old(self).gestures,
            chosen.is_some() == (candidate_ids.len() > 0),
            chosen.is_some() ==> chosen.unwrap() == candidate_ids@[if alt {
                old(self).cycle.reached(
                    near_previous,
                    candidate_ids@,
                    old(self).selected_operation_ids@,
                    1,
                )
            } else {
                0
            }],
            alt && candidate_ids.len() > 0 ==> {
                &&& final(self).cycle.position == Some(position)
                &&& final(self).cycle.candidates@ == candidate_ids@
                &&& final(self).cycle.index == old(self).cycle.reached(
                    near_previous,
                    candidate_ids@,
                    old(self).selected_operation_ids@,
                    1,
                )
            },
            !(alt && candidate_ids.len() > 0) ==> {
                &&& final(self).cycle.position.is_none()
                &&& final(self).cycle.candidates@.len() == 0
                &&& final(self).cycle.index == 0
            },
            final(self).selected_operation_ids@ == if candidate_ids.len() == 0 && !shift && !ctrl {
                Set::<u128>::empty()
            } else {
                old(self).selected_operation_ids@
            },
    {
        let chosen: Option<u128> = if alt && candidate_ids.len() > 0 {
            self.cycle.cycle_selection_candidate(
                position,
                near_previous,
                candidate_ids,
                &self.selected_operation_ids,
                1,
            )
        } else {
            self.cycle.reset();
            if candidate_ids.len() > 0 {
                Some(candidate_ids[0])
            } else {
                None
            }
        };
        if chosen.is_none() && !shift && !ctrl {
            self.selected_operation_ids.clear();
        }
        chosen
    }

    /// Selects the object that a step of the walk through the objects under
    /// `position` reached.
    pub fn select_cycled(&mut self, position: Position, reached: u128, object_ids: HashSet<u128>)
        requires
            old(self).wf(),
        ensures
            final(self).wf(),
            final(self).same_modes(*old(self)),
            final(self).same_area(*old(self)),
            final(self).same_eraser(*old(self)),
            final(self).cycle == old(self).cycle,
            final(self).selected_operation_ids@ == object_ids@,
            final(self).gestures == (SelectionGestures {
                hovered_operation_id: Some(reached),
                hover_position: Some(position),
                drag_start: None,
                drag_current: None,
                ..old(self).gestures
            }),
    {
        self.selected_operation_ids = object_ids;
        self.gestures.hovered_operation_id = Some(reached);
        self.gestures.hover_position = Some(position);
        self.gestures.drag_start = None;
        self.gestures.drag_current = None;
    }
}

/// How a drag of the selection tool ended.
#[derive(Debug, Clone, Copy)]
pub enum DragCompletion {
    Nothing,
    Click(Position),
    Rectangle(Position, Position),
}

impl SelectionGestures {
    /// How a drag ends.
    pub open spec fn drag_completion(self, is_click: bool) -> DragCompletion {
        if is_click {
            match self.drag_current {
                Some(position) => DragCompletion::Click(position),
                None => DragCompletion::Nothing,
            }
        } else {
            match (self.drag_start, self.drag_current) {
                (Some(start), Some(end)) => DragCompletion::Rectangle(start, end),
                _ => DragCompletion::Nothing,
            }
        }
    }

    /// Ends the move of the selection: from where to where it went.
    pub fn finish_move(&mut self) -> (path: Option<(Position, Position)>)
        ensures
            path == match (old(self).move_start, old(self).move_current) {
                (Some(start), Some(end)) => Some((start, end)),
                _ => None,
            },
            *final(self) == (SelectionGestures {
                move_active: false,
                move_start: None,
                move_current: None,
                ..*old(self)
            }),
    {
        let path: Option<(Position, Position)> = match (self.move_start, self.move_current) {
            (Some(start), Some(end)) => Some((start, end)),
            _ => None,
        };
        self.move_active = false;
        self.move_start = None;
        self.move_current = None;
        path
    }
}

/// While no gesture is under way, or no new one is begun, a frame leaves at
/// most one gesture under way.
pub proof fn law_one_gesture_at_a_time(
    gestures: SelectionGestures,
    frame: PointerFrame,
    busy: bool,
    settling: bool,
    found: Option<u128>,
    has_selection: bool,
    target: crate::gestures::PressTarget,
)
    requires
        gestures.active_count() <= 1,
        frame.press().is_none() || gestures.idle(),
    ensures
        gestures.after_frame(
            frame,
            busy,
            settling,
            found,
            has_selection,
            target,
        ).0.active_count() <= 1,
{
}

/// A press on the canvas begins exactly one gesture where none was under way.
pub proof fn law_press_begins_a_gesture(
    gestures: SelectionGestures,
    position: Position,
    modifiers: crate::gestures::SelectionModifiers,
    has_selection: bool,
    target: crate::gestures::PressTarget,
)
    requires
        gestures.idle(),
    ensures
        gestures.after_press(position, modifiers, has_selection, target).active_count() == 1,
{
}

impl SelectionGestures {
    /// How many gestures are under way.
    pub open spec fn active_count(self) -> int {
        (if self.drag_active {
            1int
        } else {
            0
        }) + (if self.move_active {
            1int
        } else {
            0
        }) + (if self.scale.is_some() {
            1int
        } else {
            0
        }) + (if self.rotate.is_some() {
            1int
        } else {
            0
        })
    }
}

/// The first candidate that is selected is found: it is selected, and none before
/// it is; there is none only where no candidate is selected.
pub proof fn law_the_first_selected_candidate_is_found(
    candidates: Seq<u128>,
    selected: Set<u128>,
    from: int,
)
    requires
        0 <= from <= candidates.len(),
    ensures
        match first_selected(candidates, selected, from) {
            Some(at) => {
                &&& from <= at < candidates.len()
                &&& selected.contains(candidates[at])
                &&& forall|k: int| from <= k < at ==> !selected.contains(#[trigger] candidates[k])
            },
            None => forall|k: int|
                from <= k < candidates.len() ==> !selected.contains(#[trigger] candidates[k]),
        },
    decreases candidates.len() - from,
{
    if from < candidates.len() && !selected.contains(candidates[from]) {
        law_the_first_selected_candidate_is_found(candidates, selected, from + 1);
    }
}

/// Cycling goes through the candidates in order, and from the last one on to the
/// first: at the same place it goes on from the candidate that was reached, and
/// else from the first one that is selected; where none is, it starts at the first
/// candidate, and backwards at the last one.
pub proof fn law_cycling_goes_through_the_candidates(
    cycle: SelectionCycle,
    near_previous: bool,
    candidate_ids: Seq<u128>,
    selected: Set<u128>,
    at: int,
)
    requires
        0 <= at < candidate_ids.len(),
    ensures
        ({
            let on = cycle.reached(near_previous, candidate_ids, selected, 1);
            let back = cycle.reached(near_previous, candidate_ids, selected, -1);
            let goes_on = cycle.position is Some && near_previous && cycle.candidates@
                == candidate_ids;
            let length = candidate_ids.len() as int;
            let starts = goes_on && cycle.index == at || !goes_on && selected.contains(
                candidate_ids[at],
            ) && forall|k: int| 0 <= k < at ==> !selected.contains(#[trigger] candidate_ids[k]);
            &&& starts ==> on == if at + 1 < length {
                at + 1
            } else {
                0
            }
            &&& starts ==> back == if at > 0 {
                at - 1
            } else {
                length - 1
            }
            &&& !goes_on && (forall|k: int|
                0 <= k < length ==> !selected.contains(#[trigger] candidate_ids[k])) ==> on == 0
                && back == length - 1
        }),
{
    law_the_first_selected_candidate_is_found(candidate_ids, selected, 0);
    let length = candidate_ids.len() as int;
    assert((at + 1) % length == if at + 1 < length {
        at + 1
    } else {
        0
    }) by (nonlinear_arith)
        requires
            0 <= at < length,
    ;
    assert((at - 1) % length == if at > 0 {
        at - 1
    } else {
        length - 1
    }) by (nonlinear_arith)
        requires
            0 <= at < length,
    ;
    if let Some(first) = first_selected(candidate_ids, selected, 0) {
        if selected.contains(candidate_ids[at]) && forall|k: int|
            0 <= k < at ==> !selected.contains(#[trigger] candidate_ids[k]) {
            assert(first == at) by {
                if first < at {
                    assert(selected.contains(candidate_ids[first]));
                }
            }
        }
    }
}

/// A rectangle keeps the corner where it began, and its other corner follows the
/// pointer.
pub proof fn law_rectangles_keep_their_first_corner(
    corners: Seq<Position>,
    positions: Seq<Position>,
)
    requires
        0 < corners.len() <= 2,
        positions.len() > 0,
    ensures
        dragged_corners(corners, positions) == seq![corners[0], positions.last()],
        dragged_corners(corners, Seq::empty()) == corners,
{
    assert(dragged_corners(corners, positions) =~= seq![corners[0], positions.last()]);
}

/// An outline is drawn through all positions of the pointer on the canvas, in
/// order, and through none beside it.
pub proof fn law_outlines_stay_on_the_canvas(frame: PointerFrame, position: Position)
    requires
        frame.drag_positions@.contains(position),
    ensures
        outline_positions(frame).contains(position) <==> frame.canvas.covers(position),
        forall|k: int|
            0 <= k < outline_positions(frame).len() ==> frame.canvas.covers(
                #[trigger] outline_positions(frame)[k],
            ),
        frame.released && frame.position is Some && frame.canvas.covers(frame.position->0)
            ==> outline_positions(frame).last() == frame.position->0,
{
    broadcast use vstd::seq_lib::group_filter_ensures;

    let drags = with_pointer(frame.drag_positions@, frame.position, frame.down);
    let at = frame.drag_positions@.index_of(position);
    assert(drags[at] == position);
    assert(drags.contains(position));
    if frame.released && frame.position is Some {
        let all = drags.push(frame.position->0);
        assert(all[at] == position);
        assert(all.contains(position));
        reveal(Seq::filter);
        assert(all.drop_last() =~= drags);
    }
}

} // verus!
