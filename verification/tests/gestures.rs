//! The pointer in one frame after the other: drawing, selecting and erasing.

use endless_sketch::drafts::{
    autosave_due, begin_draft, clip_draft_to_area_selection, commit_plan, draft, finish_draft, AreaClip,
    CommitPlan, FinishedDraft,
};
use endless_sketch::drawing::{
    draft_frame, draw_press, AltPhase, DrawPress, DrawingRoute, PointerTools,
};
use endless_sketch::editor::Editor;
use endless_sketch::fallback::StrokeFallbackJoinMode;
use endless_sketch::gestures::{
    GestureOutcome, PointerFrame, PressTarget, SelectionGestures, SelectionModifiers,
    SelectionScaleHandle,
};
use endless_sketch::highlights::{selection_highlight_render_points, Highlights};
use endless_sketch::input::{InputEvent, Modifiers};
use endless_sketch::layers::{count_operations_on, LayerEffect};
use endless_sketch::model::{CanvasPoint, Color, EditKind, EditOperation, ToolKind};
use endless_sketch::navigation::{has_wheel_events, DragNavigation};
use endless_sketch::overlay::{
    area_preview, eraser_outline, highlight_shape, highlight_transform, highlighted_operations,
    hovered_operations, selection_box, shows_coordinates, AreaPreview, EraserOutline,
    HighlightShape, HighlightTransform, OverlaySettings,
};
use endless_sketch::pen::Pen;
use endless_sketch::render_cache::{
    saved_fallback_operation_key, RenderStyle, SavedFallbackRenderCache,
};
use endless_sketch::screen::{Position, ScreenRect};
use endless_sketch::selection::{
    selection_candidates, AreaSelectionShape, ClickScore, RectangleSelectionMode,
    SelectionTargetMode,
};
use endless_sketch::selection_order::warm_replacement_fallback_cache;
use endless_sketch::selection_state::{DragCompletion, SelectionState};
use endless_sketch::shortcuts::{apply_tool_keys, ToolKeys};
use endless_sketch::tile_index::TileIndex;
use endless_sketch::tile_state::TileState;
use num_bigint::BigInt;
use std::collections::HashSet;

fn at(x: f32, y: f32) -> Position {
    Position { x: x.to_bits(), y: y.to_bits() }
}

fn place(position: Position) -> (f32, f32) {
    (f32::from_bits(position.x), f32::from_bits(position.y))
}

fn places(positions: &[Position]) -> Vec<(f32, f32)> {
    positions.iter().map(|position| place(*position)).collect()
}

fn spot(position: Option<Position>) -> Option<(f32, f32)> {
    position.map(place)
}

const NO_KEYS: SelectionModifiers = SelectionModifiers { shift: false, ctrl: false, alt: false };

fn canvas() -> ScreenRect {
    ScreenRect { min: at(0.0, 0.0), max: at(100.0, 100.0) }
}

fn resting(x: f32, y: f32) -> PointerFrame {
    PointerFrame {
        press_position: None,
        position: Some(at(x, y)),
        drag_positions: Vec::new(),
        pressed: false,
        down: false,
        released: false,
        hovered: true,
        canvas: canvas(),
        modifiers: NO_KEYS,
    }
}

fn pressing(x: f32, y: f32) -> PointerFrame {
    PointerFrame {
        press_position: Some(at(x, y)),
        pressed: true,
        down: true,
        ..resting(x, y)
    }
}

fn dragging(x: f32, y: f32) -> PointerFrame {
    PointerFrame { down: true, ..resting(x, y) }
}

fn releasing(x: f32, y: f32) -> PointerFrame {
    PointerFrame { released: true, ..resting(x, y) }
}

fn nothing_there() -> PressTarget {
    PressTarget { bounds: None, on_rotate_handle: false, on_scale_handle: None, on_selected: false }
}

fn ids(list: &[u128]) -> HashSet<u128> {
    list.iter().copied().collect()
}

fn tile(number: i64) -> TileIndex {
    TileIndex::from_signed_bytes_le(BigInt::from(number).to_signed_bytes_le())
}

fn point(local: f64) -> CanvasPoint {
    CanvasPoint::in_tile(0, &tile(0), &tile(0), local.to_bits(), local.to_bits())
}

fn operation(id: u128, kind: EditKind) -> EditOperation {
    let mut operation = draft(
        kind,
        0,
        1.0f64.to_bits(),
        vec![point(0.25), point(0.5)],
        Color::rgba(0, 0, 0, 255),
        4.0f32.to_bits(),
    );
    operation.id = id;
    operation.layer_id = 1;
    operation.sequence = id as i64;
    operation
}

#[test]
fn a_drag_of_the_selection_tool_spans_a_rectangle() {
    let mut gestures = SelectionGestures::new();
    let begun =
        gestures.handle_frame(&pressing(10.0, 10.0), true, false, None, false, nothing_there());
    assert_eq!(begun, GestureOutcome::Continues);
    assert!(gestures.drag_active);
    gestures.handle_frame(&dragging(20.0, 30.0), true, false, None, false, nothing_there());
    assert_eq!(spot(gestures.drag_current), Some((20.0, 30.0)));
    // A position beside the canvas is not followed.
    gestures.handle_frame(&dragging(500.0, 30.0), true, false, None, false, nothing_there());
    assert_eq!(spot(gestures.drag_current), Some((20.0, 30.0)));
    let ended =
        gestures.handle_frame(&releasing(40.0, 50.0), false, false, None, false, nothing_there());
    assert_eq!(ended, GestureOutcome::FinishDrag);
    assert!(!gestures.drag_active);
    assert_eq!(spot(gestures.drag_start), Some((10.0, 10.0)));
    assert_eq!(spot(gestures.drag_current), Some((40.0, 50.0)));
}

#[test]
fn a_press_turns_scales_or_moves_what_is_selected() {
    let bounds = Some(canvas());
    let rotate = PressTarget { bounds, on_rotate_handle: true, ..nothing_there() };
    let mut gestures = SelectionGestures::new();
    gestures.handle_frame(&pressing(5.0, 5.0), true, false, None, true, rotate);
    assert!(gestures.rotate.is_some() && !gestures.drag_active);
    let ended = gestures.handle_frame(&releasing(9.0, 9.0), false, false, None, true, rotate);
    assert_eq!(ended, GestureOutcome::FinishRotate);

    let scale = PressTarget {
        bounds,
        on_scale_handle: Some(SelectionScaleHandle::TopLeft),
        ..nothing_there()
    };
    let mut gestures = SelectionGestures::new();
    gestures.handle_frame(&pressing(0.0, 0.0), true, false, None, true, scale);
    assert_eq!(gestures.scale.map(|scale| scale.handle), Some(SelectionScaleHandle::TopLeft));

    let selected = PressTarget { on_selected: true, ..nothing_there() };
    let mut gestures = SelectionGestures::new();
    gestures.handle_frame(&pressing(7.0, 7.0), true, false, None, true, selected);
    assert!(gestures.move_active);
    let ended = gestures.handle_frame(&releasing(8.0, 9.0), false, false, None, true, selected);
    assert_eq!(ended, GestureOutcome::FinishMove);
    let path = gestures.finish_move().expect("moved");
    assert_eq!((place(path.0), place(path.1)), ((7.0, 7.0), (8.0, 9.0)));

    // Nothing selected: the handles are not there.
    let mut gestures = SelectionGestures::new();
    gestures.handle_frame(&pressing(5.0, 5.0), true, false, None, false, rotate);
    assert!(gestures.rotate.is_none() && gestures.drag_active);
}

#[test]
fn a_resting_pointer_finds_what_is_under_it() {
    let mut gestures = SelectionGestures::new();
    gestures.handle_frame(&resting(3.0, 4.0), false, false, Some(8), false, nothing_there());
    assert_eq!(gestures.hovered_operation_id, Some(8));
    assert!(!gestures.wants_hover(&resting(3.0, 4.0), false, false));
    assert!(gestures.wants_hover(&resting(3.0, 5.0), false, false));
    assert!(!gestures.wants_hover(&resting(3.0, 5.0), true, false));
    gestures.handle_frame(&resting(300.0, 4.0), false, false, Some(8), false, nothing_there());
    assert_eq!(gestures.hovered_operation_id, None);
}

#[test]
fn a_click_selects_and_a_drag_spans() {
    let mut selection = SelectionState::new();
    selection.gestures.drag_start = Some(at(1.0, 2.0));
    selection.gestures.drag_current = Some(at(3.0, 4.0));
    match selection.complete_drag(false) {
        DragCompletion::Rectangle(start, end) => {
            assert_eq!((place(start), place(end)), ((1.0, 2.0), (3.0, 4.0)));
        }
        _ => panic!("a rectangle was spanned"),
    }
    assert!(selection.gestures.drag_start.is_none());
    selection.gestures.drag_current = Some(at(3.0, 4.0));
    assert!(matches!(selection.complete_drag(false), DragCompletion::Nothing));
    assert!(matches!(selection.complete_drag(true), DragCompletion::Click(_)));

    let candidates = vec![5, 6, 7];
    let chosen =
        selection.choose_clicked(at(3.0, 4.0), false, candidates.clone(), false, false, false);
    assert_eq!(chosen, Some(5));
    selection.selected_operation_ids = ids(&[5]);
    let next =
        selection.choose_clicked(at(3.0, 4.0), false, candidates.clone(), false, false, true);
    assert_eq!(next, Some(6));
    let further = selection.choose_clicked(at(3.0, 4.0), true, candidates, false, false, true);
    assert_eq!(further, Some(7));
    selection.select_cycled(at(3.0, 4.0), 7, ids(&[7, 8]));
    assert_eq!(selection.selected_operation_ids, ids(&[7, 8]));
    assert_eq!(selection.gestures.hovered_operation_id, Some(7));
    assert_eq!(selection.choose_clicked(at(9.0, 9.0), false, vec![], true, false, false), None);
    assert_eq!(selection.selected_operation_ids, ids(&[7, 8]));
    assert_eq!(selection.choose_clicked(at(9.0, 9.0), false, vec![], false, false, false), None);
    assert!(selection.selected_operation_ids.is_empty());
}

#[test]
fn an_area_is_selected_by_its_corners_or_its_outline() {
    let mut selection = SelectionState::new();
    assert_eq!(
        selection.set_selection_target_mode(SelectionTargetMode::Area),
        Some("Area selection")
    );
    selection.handle_area_frame(&pressing(10.0, 10.0));
    selection.handle_area_frame(&dragging(30.0, 40.0));
    let frame = selection.handle_area_frame(&releasing(50.0, 60.0));
    assert!(frame.finished && !selection.area_drag_active);
    let (start, end) = selection.area_corners().expect("two corners");
    assert_eq!((place(start), place(end)), ((10.0, 10.0), (50.0, 60.0)));
    assert_eq!(selection.complete_area_selection(Some(vec![point(0.5)])), "Area selected");
    assert_eq!(selection.area.as_ref().map(|area| area.points.len()), Some(1));

    assert_eq!(selection.set_area_selection_shape(AreaSelectionShape::Lasso), Some("Area lasso"));
    assert!(selection.set_area_selection_shape(AreaSelectionShape::Lasso).is_none());
    assert!(selection.area.is_none());
    selection.handle_area_frame(&pressing(10.0, 10.0));
    let frame = selection.handle_area_frame(&dragging(30.0, 40.0));
    assert_eq!(places(&frame.positions), vec![(30.0, 40.0)]);
    assert_eq!(selection.complete_area_selection(None), "Area selection cleared");
    assert!(selection.area_corners().is_none());
}

#[test]
fn an_eraser_lasso_starts_only_on_an_editable_layer() {
    let mut selection = SelectionState::new();
    let refused = selection.handle_eraser_lasso_frame(&pressing(1.0, 1.0), false, ids(&[3]));
    assert!(refused.refused && !selection.eraser_lasso_active);
    let begun = selection.handle_eraser_lasso_frame(&pressing(1.0, 1.0), true, ids(&[3]));
    assert!(!begun.refused && selection.eraser_lasso_active);
    assert_eq!(selection.eraser_target_ids, ids(&[3]));
    let ended = selection.handle_eraser_lasso_frame(&releasing(2.0, 2.0), true, ids(&[]));
    assert!(ended.finished && !selection.eraser_lasso_active);
    assert_eq!(selection.eraser_target_ids, ids(&[3]));
}

#[test]
fn a_frame_goes_to_the_tool_in_hand() {
    let mut gestures = SelectionGestures::new();
    let mut tools = PointerTools::new();
    let drawn = tools.route_frame(&mut gestures, &pressing(1.0, 1.0), false, false, true);
    assert_eq!(drawn, DrawingRoute::Draw);
    assert!(!drawn.resets_pointer_history(&pressing(1.0, 1.0)));
    let moved = tools.route_frame(&mut gestures, &pressing(1.0, 1.0), true, false, true);
    assert_eq!(moved, DrawingRoute::Navigation);
    assert!(moved.resets_pointer_history(&pressing(1.0, 1.0)));
    let picked = tools.route_frame(&mut gestures, &pressing(1.0, 1.0), false, true, true);
    assert_eq!(picked, DrawingRoute::AltGesture);
    tools.tool = ToolKind::Selection;
    let selecting = tools.route_frame(&mut gestures, &pressing(1.0, 1.0), false, false, true);
    assert_eq!(selecting, DrawingRoute::Selection);
    let distant = tools.route_frame(&mut gestures, &pressing(1.0, 1.0), false, false, false);
    assert_eq!(distant, DrawingRoute::SelectionReadOnly { announce: true });
    assert_eq!(
        distant.message(),
        Some("Distant tile is read-only; move closer to edit objects")
    );
    tools.tool = ToolKind::EraserLasso;
    let lasso = tools.route_frame(&mut gestures, &dragging(1.0, 1.0), false, false, true);
    assert_eq!(lasso, DrawingRoute::EraserLasso);
    assert!(!lasso.resets_pointer_history(&dragging(1.0, 1.0)));
    assert!(lasso.resets_pointer_history(&releasing(1.0, 1.0)));
}

#[test]
fn a_press_draws_picks_or_is_refused() {
    let black = Color::rgba(0, 0, 0, 255);
    let white = Color::rgba(255, 255, 255, 255);
    let press = |tool: ToolKind, editable: bool, layer: bool| {
        draw_press(tool, &pressing(2.0, 3.0), editable, layer, black, white)
    };
    match press(ToolKind::Brush, true, true) {
        DrawPress::Begin { position, kind, color } => {
            assert_eq!(place(position), (2.0, 3.0));
            assert_eq!((kind, color), (EditKind::Paint, black));
        }
        _ => panic!("a stroke begins"),
    }
    assert!(matches!(
        press(ToolKind::Eraser, true, true),
        DrawPress::Begin { kind: EditKind::Erase, .. }
    ));
    assert!(matches!(
        press(ToolKind::LassoFill, true, true),
        DrawPress::Begin { kind: EditKind::Fill, .. }
    ));
    assert!(matches!(press(ToolKind::Eyedropper, true, true), DrawPress::PickColor(Some(_))));
    let distant = press(ToolKind::Eraser, false, true);
    assert_eq!(distant.message(), Some("Distant tile is read-only; move closer to erase"));
    assert!(distant.ends_frame());
    let blocked = press(ToolKind::Brush, true, false);
    assert_eq!(blocked.message(), Some("Active layer is hidden or locked"));
    let absent =
        draw_press(ToolKind::Brush, &dragging(2.0, 3.0), true, true, black, white);
    assert!(matches!(absent, DrawPress::Absent) && !absent.ends_frame());
}

#[test]
fn a_draft_follows_the_pointer_within_the_canvas() {
    let mut frame = dragging(9.0, 9.0);
    frame.drag_positions = vec![at(5.0, 5.0), at(500.0, 5.0)];
    let followed = draft_frame(&frame, false, true, None);
    assert_eq!(places(&followed.extend_to), vec![(5.0, 5.0), (9.0, 9.0)]);
    assert!(followed.end_at.is_none() && !followed.finished && followed.touch_samples.is_none());
    let path = vec![at(5.0, 5.0), at(6.0, 6.0), at(7.0, 7.0), at(9.0, 9.0)];
    let recorded = draft_frame(&frame, false, true, Some(path.clone()));
    assert_eq!(places(&recorded.extend_to), places(&path));
    let shorter = draft_frame(&frame, false, true, Some(vec![at(6.0, 6.0)]));
    assert_eq!(places(&shorter.extend_to), vec![(5.0, 5.0), (9.0, 9.0)]);
    assert!(draft_frame(&frame, false, false, None).extend_to.is_empty());
    let ended = draft_frame(&releasing(4.0, 4.0), false, true, None);
    assert_eq!(spot(ended.end_at), Some((4.0, 4.0)));
    assert!(ended.finished);
    assert!(draft_frame(&frame, true, true, None).touch_samples.is_some());
}

#[test]
fn a_drag_with_the_alt_key_walks_or_picks_a_color() {
    let mut tools = PointerTools::new();
    tools.tool = ToolKind::Selection;
    let mut gestures = SelectionGestures::new();
    let alt = SelectionModifiers { alt: true, ..NO_KEYS };
    let press = PointerFrame { modifiers: alt, ..pressing(5.0, 5.0) };
    let phase = tools.track_alt_gesture(&mut gestures, &press, SelectionTargetMode::Object);
    assert!(matches!(phase, AltPhase::Began));
    let drag = PointerFrame { modifiers: alt, ..dragging(5.0, 60.0) };
    let gesture = match tools.track_alt_gesture(&mut gestures, &drag, SelectionTargetMode::Object) {
        AltPhase::Follows(gesture) => gesture,
        _ => panic!("the gesture goes on"),
    };
    let actions = tools.apply_alt_gesture(gesture, &drag, 2, false);
    assert_eq!((actions.direction, actions.steps), (1, 2));
    assert_eq!(place(actions.origin), (5.0, 5.0));
    assert!(!actions.pick_color);
    let gesture = tools.alt_gesture.expect("still down");
    let back = tools.apply_alt_gesture(gesture, &drag, -1, false);
    assert_eq!((back.direction, back.steps), (-1, 3));
    let release = releasing(5.0, 5.0);
    let mut fresh = PointerTools::new();
    fresh.track_alt_gesture(&mut gestures, &press, SelectionTargetMode::Object);
    let gesture = fresh.alt_gesture.expect("begun");
    let picked = fresh.apply_alt_gesture(gesture, &release, 0, true);
    assert!(picked.pick_color && fresh.alt_gesture.is_none());
}

#[test]
fn keys_take_tools_and_switch_modes() {
    let none = ToolKeys { b: false, e: false, l: false, i: false, q: false, s: false, x: false };
    let free =
        Modifiers { alt: false, ctrl: false, shift: false, mac_cmd: false, command: false };
    let mut tools = PointerTools::new();
    let mut selection = SelectionState::new();
    let mut press = |keys: ToolKeys, focused: bool, modifiers: &Modifiers| {
        let told = apply_tool_keys(&mut tools, &mut selection, &keys, focused, modifiers);
        (tools.tool, selection.target_mode, selection.rectangle_mode, told)
    };
    let (object, inside) = (SelectionTargetMode::Object, RectangleSelectionMode::Inside);
    let erase = ToolKeys { e: true, ..none };
    assert_eq!(press(erase, true, &free), (ToolKind::Brush, object, inside, None));
    let with_ctrl = Modifiers { ctrl: true, ..free };
    assert_eq!(press(erase, false, &with_ctrl), (ToolKind::Brush, object, inside, None));
    assert_eq!(press(erase, false, &free), (ToolKind::Eraser, object, inside, None));
    let select = ToolKeys { s: true, ..none };
    assert_eq!(press(select, false, &free), (ToolKind::Selection, object, inside, None));
    let crossing = RectangleSelectionMode::Crossing;
    assert_eq!(press(select, false, &free), (ToolKind::Selection, object, crossing, None));
    let switch = ToolKeys { q: true, ..none };
    assert_eq!(
        press(switch, false, &free),
        (ToolKind::Selection, SelectionTargetMode::Area, crossing, Some("Area selection"))
    );
    let both = ToolKeys { b: true, x: true, ..none };
    assert_eq!(press(both, false, &free).0, ToolKind::Brush);
}

#[test]
fn a_new_draft_is_smoothed_only_where_it_fills() {
    let black = Color::rgba(0, 0, 0, 255);
    let begin = |kind: EditKind| {
        begin_draft(kind, 3, 2.0f64.to_bits(), point(0.5), black, 8.0f32.to_bits(), 6)
    };
    let fill = begin(EditKind::Fill);
    assert!(fill.smooth_area);
    assert_eq!((fill.layer_id, fill.native_depth), (6, 3));
    assert_eq!(fill.points, vec![point(0.5)]);
    assert!(!begin(EditKind::Paint).smooth_area);
}

#[test]
fn a_finished_draft_is_committed_erased_or_dropped() {
    assert!(matches!(finish_draft(None), FinishedDraft::Nothing));
    assert!(matches!(
        finish_draft(Some(operation(1, EditKind::Paint))),
        FinishedDraft::Commit(_)
    ));
    assert!(matches!(finish_draft(Some(operation(1, EditKind::Erase))), FinishedDraft::Erase(_)));
    assert!(matches!(finish_draft(Some(operation(1, EditKind::Fill))), FinishedDraft::Discard(_)));
    assert_eq!(commit_plan(1, &vec![]), CommitPlan::Nothing);
    assert_eq!(
        commit_plan(1, &vec![operation(1, EditKind::Paint)]),
        CommitPlan::Single { discard_draft: false }
    );
    assert_eq!(
        commit_plan(1, &vec![operation(2, EditKind::Paint)]),
        CommitPlan::Single { discard_draft: true }
    );
    assert_eq!(
        commit_plan(1, &vec![operation(2, EditKind::Paint), operation(3, EditKind::Paint)]),
        CommitPlan::Group
    );
    assert!(autosave_due(true, 500) && !autosave_due(true, 499) && !autosave_due(false, 900));
}

#[test]
fn the_selected_area_cuts_a_draft_into_pieces_of_one_transaction() {
    let whole = clip_draft_to_area_selection(
        operation(1, EditKind::Paint),
        AreaClip::Unchanged,
        3,
        1.0f64.to_bits(),
    );
    assert_eq!(whole.len(), 1);
    assert_eq!(whole[0].id, 1);
    let pieces = clip_draft_to_area_selection(
        operation(1, EditKind::Paint),
        AreaClip::Pieces(vec![
            vec![point(0.25), point(0.375)],
            vec![],
            vec![point(0.5), point(0.625)],
        ]),
        3,
        1.0f64.to_bits(),
    );
    assert_eq!(pieces.len(), 2);
    assert_ne!(pieces[0].id, pieces[1].id);
    assert_eq!(pieces[0].transaction_id, pieces[1].transaction_id);
    assert_eq!(pieces[1].points, vec![point(0.5), point(0.625)]);
    let gone = clip_draft_to_area_selection(
        operation(1, EditKind::Paint),
        AreaClip::Pieces(vec![]),
        3,
        1.0f64.to_bits(),
    );
    assert!(gone.is_empty());
}

fn pen() -> Pen<
    fn(&CanvasPoint) -> Option<Position>,
    fn(Position, Position) -> u32,
    fn(u32, u32) -> usize,
    fn(Position, Position, usize, usize) -> Position,
    fn(Position) -> CanvasPoint,
> {
    Pen {
        project: |point: &CanvasPoint| {
            Some(at(
                f64::from_bits(point.local_x) as f32 * 100.0,
                f64::from_bits(point.local_y) as f32 * 100.0,
            ))
        },
        distance: |a: Position, b: Position| {
            let (a, b) = (place(a), place(b));
            (a.0 - b.0).hypot(a.1 - b.1).to_bits()
        },
        steps: |distance: u32, length: u32| {
            (f32::from_bits(distance) / f32::from_bits(length)).ceil().max(1.0) as usize
        },
        between: |a: Position, b: Position, step: usize, count: usize| {
            let (a, b) = (place(a), place(b));
            let t = step as f32 / count as f32;
            at(a.0 + (b.0 - a.0) * t, a.1 + (b.1 - a.1) * t)
        },
        place: |position: Position| {
            let (x, y) = place(position);
            CanvasPoint::in_tile(
                0,
                &tile(0),
                &tile(0),
                (f64::from(x) / 100.0).to_bits(),
                (f64::from(y) / 100.0).to_bits(),
            )
        },
    }
}

#[test]
fn a_draft_grows_by_points_far_enough_apart() {
    let spacing = 2.0f32.to_bits();
    let mut stroke = operation(1, EditKind::Paint);
    stroke.points = vec![point(0.5)];
    pen().extend_draft_to(&mut stroke, at(51.0, 50.0), false, spacing, spacing);
    assert_eq!(stroke.points.len(), 1);
    pen().extend_draft_to(&mut stroke, at(54.0, 50.0), false, spacing, spacing);
    assert_eq!(stroke.points.len(), 2);
    pen().extend_draft_to(&mut stroke, at(78.0, 50.0), false, spacing, spacing);
    assert_eq!(stroke.points.len(), 5);
    // With the shift key the stroke becomes a straight line.
    pen().extend_draft_to(&mut stroke, at(90.0, 50.0), true, spacing, spacing);
    assert_eq!(stroke.points.len(), 2);
    assert_eq!(stroke.points[0], point(0.5));
    let mut short = operation(2, EditKind::Paint);
    short.points = vec![point(0.5)];
    pen().preserve_draft_endpoint(&mut short, at(51.0, 50.0), false);
    assert_eq!(short.points.len(), 2);
}

#[test]
fn what_is_shown_of_gestures_follows_their_state() {
    assert_eq!(area_preview(1, AreaSelectionShape::Lasso), AreaPreview::Nothing);
    assert_eq!(area_preview(2, AreaSelectionShape::Rectangle), AreaPreview::Rectangle);
    assert_eq!(area_preview(9, AreaSelectionShape::Lasso), AreaPreview::Line);
    assert_eq!(eraser_outline(1, true), EraserOutline::Nothing);
    assert_eq!(eraser_outline(2, true), EraserOutline::Open);
    assert_eq!(eraser_outline(2, false), EraserOutline::Closed);
    assert_eq!(highlight_transform(true, true), HighlightTransform::Rotation);
    assert_eq!(highlight_transform(false, true), HighlightTransform::Scale);
    assert_eq!(highlight_transform(false, false), HighlightTransform::Move);
    assert_eq!(highlight_shape(EditKind::Fill, 2), HighlightShape::Outline);
    assert_eq!(highlight_shape(EditKind::Paint, 1), HighlightShape::Circle);
    assert_eq!(highlight_shape(EditKind::Paint, 3), HighlightShape::Line);
    assert_eq!(highlight_shape(EditKind::Paint, 0), HighlightShape::Nothing);
    assert!(selection_box(ToolKind::Brush, Some(canvas()), None).is_none());
    assert!(selection_box(ToolKind::Selection, None, Some(canvas())).is_some());
}

#[test]
fn selected_and_hovered_objects_are_highlighted() {
    let mut operations: Vec<EditOperation> =
        (1..=4).map(|id| operation(id, EditKind::Paint)).collect();
    operations[1].fill_group_id = Some(70);
    operations[3].fill_group_id = Some(70);
    let selected = ids(&[1, 3]);
    assert_eq!(highlighted_operations(&operations, &selected, false), vec![0, 2]);
    assert!(highlighted_operations(&operations, &selected, true).is_empty());
    assert_eq!(hovered_operations(&operations, Some(2), &selected), vec![1, 3]);
    assert!(hovered_operations(&operations, Some(1), &selected).is_empty());
    assert!(hovered_operations(&operations, Some(9), &selected).is_empty());
    assert_eq!(count_operations_on(&operations, 1), 4);
    assert_eq!(count_operations_on(&operations, 2), 0);
}

#[test]
fn coordinates_are_worked_out_only_where_they_are_shown() {
    let settings = OverlaySettings {
        enabled: true,
        show_depth: true,
        show_zoom: true,
        show_operation_count: true,
        show_performance: true,
        show_status: true,
        show_tile_state: true,
        show_tile_coordinates: false,
        show_local_coordinates: true,
    };
    assert!(shows_coordinates(&settings));
    assert!(!shows_coordinates(&OverlaySettings { enabled: false, ..settings }));
    assert!(!shows_coordinates(&OverlaySettings { show_local_coordinates: false, ..settings }));
}

#[test]
fn the_nearest_and_then_the_smallest_object_is_offered_first() {
    let mut operations: Vec<EditOperation> =
        (1..=4).map(|id| operation(id, EditKind::Paint)).collect();
    operations[3].fill_group_id = Some(1);
    let score = |distance: f64, area: f64| {
        Some(ClickScore { distance: distance.to_bits(), area: area.to_bits() })
    };
    let scores = vec![score(1.0, 9.0), score(0.0, 9.0), score(0.0, 4.0), score(0.0, 1.0)];
    let offered = selection_candidates(&operations, &ids(&[1, 2, 3, 4]), &scores, &vec![0; 4]);
    // The fourth one belongs to the object of the first one, which stands for it.
    let order: Vec<u128> = offered.iter().map(|candidate| candidate.id).collect();
    assert_eq!(order, vec![3, 2, 1]);
    let some = selection_candidates(&operations, &ids(&[2]), &scores, &vec![0; 4]);
    assert_eq!(some.len(), 1);
}

#[test]
fn moved_operations_keep_the_points_worked_out_for_them() {
    let style = RenderStyle {
        stroke_fallback_joins: StrokeFallbackJoinMode::Quality,
        auto_fast_stroke_fallback: false,
        smoothing_passes: 1,
    };
    let source = operation(1, EditKind::Paint);
    let moved = operation(2, EditKind::Paint);
    let mut cache = SavedFallbackRenderCache::new();
    let key = saved_fallback_operation_key(1, &source, style);
    cache.insert(key, vec![at(1.0, 1.0), at(2.0, 2.0)]);
    let operations = vec![source.clone(), moved.clone()];
    let warmed = warm_replacement_fallback_cache(
        &mut cache,
        &operations,
        &vec![source],
        &vec![2],
        style,
        &|position: Position| {
            let (x, y) = place(position);
            at(x + 10.0, y)
        },
    );
    assert_eq!(warmed, 1);
    let kept = cache.get(saved_fallback_operation_key(2, &moved, style)).expect("carried over");
    assert_eq!(places(kept), vec![(11.0, 1.0), (12.0, 2.0)]);
}

#[test]
fn operations_that_move_in_turn_hand_their_points_on() {
    let style = RenderStyle {
        stroke_fallback_joins: StrokeFallbackJoinMode::Quality,
        auto_fast_stroke_fallback: false,
        smoothing_passes: 1,
    };
    let operations: Vec<EditOperation> =
        (1..=3).map(|id| operation(id, EditKind::Paint)).collect();
    let mut cache = SavedFallbackRenderCache::new();
    cache.insert(saved_fallback_operation_key(1, &operations[0], style), vec![at(1.0, 1.0)]);
    // The second one takes over from the first one, and hands on to the third.
    let warmed = warm_replacement_fallback_cache(
        &mut cache,
        &operations,
        &vec![operations[0].clone(), operations[1].clone()],
        &vec![2, 3],
        style,
        &|position: Position| {
            let (x, y) = place(position);
            at(x + 10.0, y)
        },
    );
    assert_eq!(warmed, 2);
    let kept = |id: u128, index: usize| {
        cache
            .get(saved_fallback_operation_key(id, &operations[index], style))
            .map(|points| places(points))
    };
    assert_eq!(kept(2, 1), Some(vec![(11.0, 1.0)]));
    assert_eq!(kept(3, 2), Some(vec![(21.0, 1.0)]));
}

#[test]
fn an_interaction_after_a_rest_stops_what_is_rendered() {
    let mut tiles = TileState::new();
    tiles.update_rebuild_interaction(true, 100, Some(50));
    assert_eq!((tiles.generation, tiles.last_rebuild_interaction), (1, Some(100)));
    tiles.update_rebuild_interaction(true, 120, Some(50));
    assert_eq!((tiles.generation, tiles.last_rebuild_interaction), (1, Some(120)));
    tiles.update_rebuild_interaction(false, 130, Some(50));
    assert_eq!(tiles.last_rebuild_interaction, Some(120));
    tiles.update_rebuild_interaction(false, 500, Some(50));
    assert_eq!(tiles.last_rebuild_interaction, None);
    tiles.apply_pause_while_drawing_setting(true, true);
    assert!(tiles.drawing_pause);
    tiles.apply_pause_while_drawing_setting(true, false);
    assert!(!tiles.drawing_pause);
    let generation = tiles.generation;
    tiles.apply_tile_request_settings();
    assert_eq!(tiles.generation, generation + 1);
}

#[test]
fn a_change_of_layers_drops_selections_and_tiles() {
    let mut editor = Editor::new(&vec![], 0, "Layer 1", vec![]);
    editor.selection.selected_operation_ids = ids(&[4]);
    editor.apply_layer_effect(&LayerEffect {
        message: String::new(),
        clears_tools: false,
        invalidates_tiles: false,
    });
    assert_eq!(editor.selection.selected_operation_ids, ids(&[4]));
    editor.apply_layer_effect(&LayerEffect {
        message: String::new(),
        clears_tools: true,
        invalidates_tiles: true,
    });
    assert!(editor.selection.selected_operation_ids.is_empty());
    assert_eq!(editor.tiles.generation, 1);
}

#[test]
fn panning_drops_what_was_under_the_pointer() {
    assert!(DragNavigation::SpacePan.drops_hover() && DragNavigation::MiddlePan.drops_hover());
    assert!(!DragNavigation::Nothing.drops_hover());
    assert!(!has_wheel_events(&vec![InputEvent::Other]));
}

fn highlighted(operation: &EditOperation, points: &[Position]) -> Vec<(f32, f32)> {
    let line = |path: &Vec<Position>, _: usize| path[..1].to_vec();
    let closed = |path: &Vec<Position>, _: usize| path[1..].to_vec();
    places(&selection_highlight_render_points(operation, points.to_vec(), 3, 4, &line, &closed))
}

#[test]
fn highlights_show_what_is_drawn() {
    let points = [at(0.0, 0.0), at(1.0, 0.0), at(2.0, 0.0)];
    assert_eq!(highlighted(&operation(1, EditKind::Paint), &points), places(&points[..1]));
    let mut fill = operation(1, EditKind::Fill);
    assert_eq!(highlighted(&fill, &points), places(&points));
    fill.smooth_area = true;
    assert_eq!(highlighted(&fill, &points), places(&points[1..]));
    fill.smooth_area = false;
    let many: Vec<Position> = (0..8).map(|place| at(place as f32, 0.0)).collect();
    assert_eq!(highlighted(&fill, &many), [(0.0, 0.0), (2.0, 0.0), (4.0, 0.0), (6.0, 0.0)]);
    fill.kind = EditKind::CompactBlock;
    fill.compact_sources = vec![operation(2, EditKind::Paint)];
    assert_eq!(highlighted(&fill, &many), places(&many));
}

#[test]
fn a_selection_reaches_as_far_as_its_points_and_widths() {
    let radius = |operation: &EditOperation| if operation.kind.is_area() { 0.0 } else { 5.0 };
    let highlights = Highlights {
        points: |operation: &EditOperation| match operation.id {
            1 => vec![at(10.0, 20.0), at(30.0, 0.0)],
            2 => vec![at(40.0, 40.0)],
            _ => Vec::new(),
        },
        low: |operation: &EditOperation, point: Position| {
            let (x, y) = place(point);
            at(x - radius(operation), y - radius(operation))
        },
        high: |operation: &EditOperation, point: Position| {
            let (x, y) = place(point);
            at(x + radius(operation), y + radius(operation))
        },
    };
    let drawing = vec![
        operation(1, EditKind::Paint),
        operation(2, EditKind::Fill),
        operation(3, EditKind::Paint),
    ];
    let around = |selected: &[u128]| {
        highlights
            .selection_screen_bounds(&drawing, &ids(selected))
            .map(|rect| (place(rect.min), place(rect.max)))
    };
    assert_eq!(around(&[]), None);
    assert_eq!(around(&[3]), None);
    assert_eq!(around(&[2, 3]), Some(((40.0, 40.0), (40.0, 40.0))));
    assert_eq!(around(&[1, 2]), Some(((5.0, -5.0), (40.0, 40.0))));
}
