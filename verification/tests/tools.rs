use endless_sketch::drafts::{
    draft_is_committable, prepare_draft_for_commit, set_straight_draft_endpoint,
    straight_line_requested,
};
use endless_sketch::fallback::should_paint_live_draft;
use endless_sketch::input::{InputEvent, Modifiers};
use endless_sketch::menus::{canvas_context_menu_kind, CanvasContextMenuKind};
use endless_sketch::model::{
    color_from_srgb, CanvasPoint, Color, EditKind, EditOperation, ToolKind,
};
use endless_sketch::navigation::{space_pan_requested, z_zoom_requested};
use endless_sketch::selection::{
    rectangle_selection_mode_cycle, selection_bounds_signature, selection_target_cycle,
    wrapped_cycle_index, RectangleSelectionMode, SelectionTargetMode,
};
use endless_sketch::shortcuts::{
    area_cycle_tool, clipboard_command, clipboard_command_from_events, native_key_down,
    redo_shortcuts, tool_shortcut_allowed, ClipboardCommand, ClipboardShortcutKeys,
    NativeKeyStates,
};
use endless_sketch::tile_index::TileIndex;
use num_bigint::BigInt;
use std::collections::HashSet;

const BLACK: Color = Color { r: 0, g: 0, b: 0, a: 255 };
const WHITE: Color = Color { r: 255, g: 255, b: 255, a: 255 };
const NO_KEYS: Modifiers =
    Modifiers { alt: false, ctrl: false, shift: false, mac_cmd: false, command: false };

fn tile(number: i64) -> TileIndex {
    TileIndex::from_signed_bytes_le(BigInt::from(number).to_signed_bytes_le())
}

/// A point at a place that may lie outside of the first tile.
fn point(x: f64, y: f64) -> CanvasPoint {
    CanvasPoint::in_tile(
        0,
        &tile(x.floor() as i64),
        &tile(y.floor() as i64),
        (x - x.floor()).to_bits(),
        (y - y.floor()).to_bits(),
    )
}

fn draft(kind: EditKind, points: Vec<CanvasPoint>, color: Color, width: f32) -> EditOperation {
    EditOperation {
        id: 1,
        layer_id: 0,
        transaction_id: 1,
        sequence: 0,
        kind,
        points,
        color,
        width_px: width.to_bits(),
        native_depth: 0,
        native_zoom: 1.0f64.to_bits(),
        smooth_area: false,
        fill_group_id: None,
        paint_order: None,
        affects_before_sequence: None,
        compact_sources: vec![],
    }
}

#[test]
fn canvas_context_menu_routes_only_supported_tools() {
    assert_eq!(canvas_context_menu_kind(ToolKind::Brush), Some(CanvasContextMenuKind::Brush));
    assert_eq!(canvas_context_menu_kind(ToolKind::LassoFill), Some(CanvasContextMenuKind::Fill));
    assert_eq!(
        canvas_context_menu_kind(ToolKind::Selection),
        Some(CanvasContextMenuKind::Selection)
    );
    for tool in [ToolKind::Eraser, ToolKind::Eyedropper, ToolKind::EraserLasso] {
        assert_eq!(canvas_context_menu_kind(tool), None);
    }
}

#[test]
fn overlap_cycle_wraps_in_both_wheel_directions() {
    assert_eq!(wrapped_cycle_index(0, 3, 1), 1);
    assert_eq!(wrapped_cycle_index(2, 3, 1), 0);
    assert_eq!(wrapped_cycle_index(0, 3, -1), 2);
    assert_eq!(wrapped_cycle_index(2, 3, -1), 1);
}

#[test]
fn erase_area_prepare_closes_clipped_polygon() {
    let mut operation = draft(
        EditKind::EraseArea,
        vec![point(0.0, 0.0), point(1.0, 0.0), point(1.0, 1.0)],
        WHITE,
        0.0,
    );

    prepare_draft_for_commit(&mut operation);

    assert_eq!(operation.points.first(), operation.points.last());
    assert!(draft_is_committable(&operation));
}

#[test]
fn deferred_drawing_preview_skips_only_live_draft_painting() {
    assert!(should_paint_live_draft(false));
    assert!(!should_paint_live_draft(true));
}

#[test]
fn brush_single_click_becomes_a_visible_dot_operation() {
    let place = point(0.5, 0.5);
    let mut paint = draft(EditKind::Paint, vec![place.clone()], BLACK, 12.0);
    prepare_draft_for_commit(&mut paint);

    assert_eq!(paint.points.len(), 2);
    assert_eq!(paint.points[0].local_x, place.local_x);
    assert_eq!(paint.points[1].local_x, place.local_x);
    assert_eq!(paint.points[0].local_y, place.local_y);
    assert_eq!(paint.points[1].local_y, place.local_y);
}

#[test]
fn click_to_dot_does_not_apply_to_eraser_or_fill() {
    let place = point(0.5, 0.5);
    let mut erase = draft(EditKind::Erase, vec![place.clone()], WHITE, 12.0);
    let mut fill = draft(EditKind::Fill, vec![place], BLACK, 12.0);

    prepare_draft_for_commit(&mut erase);
    prepare_draft_for_commit(&mut fill);

    assert_eq!(erase.points.len(), 1);
    assert_eq!(fill.points.len(), 1);
    assert!(!draft_is_committable(&erase));
    assert!(!draft_is_committable(&fill));
}

#[test]
fn fill_requires_three_distinct_points_before_closure() {
    let points = [point(0.1, 0.1), point(0.2, 0.1), point(0.2, 0.2)];
    let mut too_short = draft(EditKind::Fill, points[..2].to_vec(), BLACK, 8.0);
    let mut valid = draft(EditKind::Fill, points.to_vec(), BLACK, 8.0);

    prepare_draft_for_commit(&mut too_short);
    prepare_draft_for_commit(&mut valid);

    assert!(!draft_is_committable(&too_short));
    assert!(draft_is_committable(&valid));
    assert_eq!(valid.points.first(), valid.points.last());
}

#[test]
fn shift_straight_lines_are_limited_to_brush_and_eraser() {
    assert!(straight_line_requested(EditKind::Paint, true));
    assert!(straight_line_requested(EditKind::Erase, true));
    assert!(!straight_line_requested(EditKind::Fill, true));
    assert!(!straight_line_requested(EditKind::Paint, false));
}

#[test]
fn straight_line_endpoint_collapses_draft_to_start_and_current_point() {
    let start = point(0.1, 0.1);
    let middle = point(0.3, 0.4);
    let old_end = point(0.5, 0.6);
    let new_end = point(0.8, 0.9);
    let mut paint = draft(EditKind::Paint, vec![start.clone(), middle, old_end], BLACK, 12.0);

    set_straight_draft_endpoint(&mut paint, new_end.clone());

    assert_eq!(paint.points, vec![start, new_end]);
}

#[test]
fn redo_shortcuts_match_shift_z_before_ctrl_y() {
    let shortcuts = redo_shortcuts();

    assert_eq!(shortcuts[0].key, 'Z');
    assert!(shortcuts[0].ctrl);
    assert!(shortcuts[0].shift);
    assert_eq!(shortcuts[1].key, 'Y');
    assert!(shortcuts[1].ctrl);
    assert!(!shortcuts[1].shift);
}

#[test]
fn tool_shortcuts_do_not_intercept_clipboard_modifiers() {
    assert!(tool_shortcut_allowed(&NO_KEYS));
    assert!(!tool_shortcut_allowed(&Modifiers { ctrl: true, ..NO_KEYS }));
    assert!(!tool_shortcut_allowed(&Modifiers { command: true, ..NO_KEYS }));
    assert!(!tool_shortcut_allowed(&Modifiers { alt: true, ..NO_KEYS }));
}

#[test]
fn x_shortcut_cycles_area_fill_and_erase() {
    assert_eq!(area_cycle_tool(ToolKind::Brush), ToolKind::LassoFill);
    assert_eq!(area_cycle_tool(ToolKind::Eraser), ToolKind::LassoFill);
    assert_eq!(area_cycle_tool(ToolKind::Eyedropper), ToolKind::LassoFill);
    assert_eq!(area_cycle_tool(ToolKind::Selection), ToolKind::LassoFill);
    assert_eq!(area_cycle_tool(ToolKind::LassoFill), ToolKind::EraserLasso);
    assert_eq!(area_cycle_tool(ToolKind::EraserLasso), ToolKind::LassoFill);
}

#[test]
fn s_shortcut_cycles_selection_inside_and_crossing() {
    assert_eq!(
        rectangle_selection_mode_cycle(RectangleSelectionMode::Inside),
        RectangleSelectionMode::Crossing
    );
    assert_eq!(
        rectangle_selection_mode_cycle(RectangleSelectionMode::Crossing),
        RectangleSelectionMode::Inside
    );
}

#[test]
fn q_shortcut_cycles_selection_object_and_area() {
    assert_eq!(selection_target_cycle(SelectionTargetMode::Object), SelectionTargetMode::Area);
    assert_eq!(selection_target_cycle(SelectionTargetMode::Area), SelectionTargetMode::Object);
}

#[test]
fn clipboard_events_map_to_internal_commands() {
    let ctrl = Modifiers { ctrl: true, ..NO_KEYS };
    assert_eq!(
        clipboard_command_from_events(&vec![InputEvent::Copy], &ctrl),
        Some(ClipboardCommand::Copy)
    );
    assert_eq!(
        clipboard_command_from_events(&vec![InputEvent::Cut], &ctrl),
        Some(ClipboardCommand::Cut)
    );
    assert_eq!(
        clipboard_command_from_events(&vec![InputEvent::Paste], &ctrl),
        Some(ClipboardCommand::Paste)
    );
    assert_eq!(
        clipboard_command_from_events(
            &vec![InputEvent::Paste],
            &Modifiers { ctrl: true, shift: true, ..NO_KEYS }
        ),
        Some(ClipboardCommand::PasteInPlace)
    );
}

#[test]
fn native_clipboard_keys_trigger_only_on_press_edges() {
    let mut keys = ClipboardShortcutKeys::default();
    assert_eq!(keys.update(true, false, true, false, false), Some(ClipboardCommand::Copy));
    assert_eq!(keys.update(true, false, true, false, false), None);
    assert_eq!(keys.update(true, false, false, false, false), None);
    assert_eq!(keys.update(true, false, true, false, false), Some(ClipboardCommand::Copy));
    assert_eq!(
        keys.update(true, true, false, false, true),
        Some(ClipboardCommand::PasteInPlace)
    );
}

#[test]
fn rgb_color_edit_produces_opaque_drawing_color() {
    assert_eq!(color_from_srgb([250, 240, 40]), Color::rgba(250, 240, 40, 255));
}

#[test]
fn selection_bounds_signature_changes_for_same_size_different_ids() {
    let first = [1u128, 2].into_iter().collect::<HashSet<_>>();
    let second = [1u128, 3].into_iter().collect::<HashSet<_>>();

    assert_ne!(selection_bounds_signature(&first), selection_bounds_signature(&second));
}

#[test]
fn space_pan_requires_space_and_primary_pointer() {
    assert!(space_pan_requested(true, true));
    assert!(!space_pan_requested(true, false));
    assert!(!space_pan_requested(false, true));
    assert!(!space_pan_requested(false, false));
}

#[test]
fn z_zoom_requires_z_and_primary_pointer() {
    assert!(z_zoom_requested(true, true));
    assert!(!z_zoom_requested(true, false));
    assert!(!z_zoom_requested(false, true));
    assert!(!z_zoom_requested(false, false));
}

#[test]
fn a_key_is_down_where_its_highest_bit_is_set() {
    assert!(native_key_down(i16::MIN));
    assert!(native_key_down(-1));
    assert!(!native_key_down(0));
    assert!(!native_key_down(1));
}

#[test]
fn polled_keys_paste_before_they_cut_or_copy() {
    let mut keys = ClipboardShortcutKeys::default();
    let held = NativeKeyStates { control: -1, shift: 0, copy: -1, cut: -1, paste: -1 };
    assert_eq!(keys.poll(&held), Some(ClipboardCommand::Paste));
    assert_eq!(keys.poll(&held), None);
    let none = NativeKeyStates { control: 0, shift: 0, copy: 0, cut: 0, paste: 0 };
    assert_eq!(keys.poll(&none), None);
    assert!(!keys.paste_down);
}

#[test]
fn clipboard_commands_wait_while_text_is_edited() {
    assert_eq!(clipboard_command(true, Some(ClipboardCommand::Cut), None), None);
    assert_eq!(
        clipboard_command(false, None, Some(ClipboardCommand::Paste)),
        Some(ClipboardCommand::Paste)
    );
}

#[test]
fn a_point_beyond_its_tile_moves_on_to_the_next_one() {
    let place = point(1.0, -0.25);
    assert_eq!(place.tile_x.to_signed_bytes_le(), BigInt::from(1).to_signed_bytes_le());
    assert_eq!(place.tile_y.to_signed_bytes_le(), BigInt::from(-1).to_signed_bytes_le());
    assert_eq!(f64::from_bits(place.local_y), 0.75);
    assert!(place != point(0.5, 0.5));
}
