use endless_sketch::bookmarks::{default_bookmark_name, Bookmark, BookmarkList};
use endless_sketch::camera::CameraAddress;
use endless_sketch::drafts::draft;
use endless_sketch::editor::Editor;
use endless_sketch::frame_rate::{
    frame_is_slow, FrameMeasures, FrameRateTracker, MAX_MEASURED_FRAME_TIME,
};
use endless_sketch::edits::{
    background_color, erase_area_refusal, finish_compact, finish_cut, finish_delete, finish_erase,
    finish_erase_area, finish_redo, finish_reorder, finish_save, finish_save_settings,
    finish_selection_edit, finish_session_logging, finish_undo, flip_refusal, object_count,
    picked_message, reorder_refusal, rotate_refusal, sample_color, scale_refusal, Clearing,
    CutStep, Refresh, SelectionClipboard, SelectionEdit,
};
use endless_sketch::eraser::{fragment_change, regroup, subtract_eraser_sources, Asked};
use endless_sketch::layers::{
    delete_question, finish_move, layer_buttons, layer_operation_counts, layer_request,
    move_targets, next_active_layer, DeleteStep, Layer, LayerPanel, LayerRequest, LayerRequests,
};
use endless_sketch::menus::{
    color_text, menu_outcome, selection_mode_label, FileDialog, FileWindowTab, MenuEffect,
    SelectionMenuAction, SelectionMenuState, ToolbarButton, Windows,
};
use endless_sketch::model::{CanvasPoint, Color, EditKind, EditOperation};
use endless_sketch::selection::{
    apply_selection_ids, fully_contained_object_operation_ids, selected_object_count,
    AreaSelectionShape, RectangleSelectionMode, SelectionTargetMode,
};
use endless_sketch::screen::Position;
use endless_sketch::selection_edits::{move_counts, LEAST_MOVE};
use endless_sketch::selection_order::{
    erasable_ids, replaced_selection, retain_recolored, selected_operation_snapshots,
    selected_operations_in_document_order, selected_operations_in_paint_order,
    snapshotted_eraser_sources,
};
use endless_sketch::selection_state::SelectionState;
use endless_sketch::session_log::{
    logged_depth_mode, logged_fallback_mode, merge_json_objects, Json,
};
use endless_sketch::settings::{depth_level_count, settings_actions, SettingsAction, WatchedSettings};
use endless_sketch::tile_index::TileIndex;
use endless_sketch::tile_requests::{DepthRenderMode, TileFallbackMode};
use endless_sketch::transfers::move_target_name;
use num_bigint::BigInt;
use std::collections::HashSet;

const DEFAULT_LAYER: u128 = 1;

fn tile(number: i64) -> TileIndex {
    TileIndex::from_signed_bytes_le(BigInt::from(number).to_signed_bytes_le())
}

fn point(x: f64, y: f64) -> CanvasPoint {
    CanvasPoint::in_tile(0, &tile(0), &tile(0), x.to_bits(), y.to_bits())
}

fn operation(id: u128, kind: EditKind) -> EditOperation {
    EditOperation {
        id,
        layer_id: DEFAULT_LAYER,
        transaction_id: 1,
        sequence: id as i64,
        kind,
        points: vec![point(0.5, 0.5), point(0.5, 0.5)],
        color: Color { r: 0, g: 0, b: 0, a: 255 },
        width_px: 5.0f32.to_bits(),
        native_depth: 0,
        native_zoom: 1.0f64.to_bits(),
        smooth_area: false,
        fill_group_id: None,
        paint_order: None,
        affects_before_sequence: None,
        compact_sources: vec![],
    }
}

fn layer(id: u128, name: &str) -> Layer {
    Layer { id, name: name.to_string(), visible: true, locked: false }
}

fn ids(list: &[u128]) -> HashSet<u128> {
    list.iter().copied().collect()
}

fn failed<T>() -> Result<T, String> {
    Err("disk is full".to_string())
}

#[test]
fn layer_panel_counts_operations_by_layer() {
    let first = operation(1, EditKind::Paint);
    let mut second = operation(2, EditKind::Paint);
    let other_layer = 2;
    second.layer_id = other_layer;

    let counts = layer_operation_counts(&vec![first, second]);

    assert_eq!(counts.get(&DEFAULT_LAYER), Some(&1));
    assert_eq!(counts.get(&other_layer), Some(&1));
}

const FRAME_TIME_EMA_ALPHA: f32 = 0.15;

type Blend = fn(u32, u32) -> u32;
type Scale = fn(u32) -> u32;

fn frame_measures() -> FrameMeasures<Blend, Scale, Scale> {
    FrameMeasures {
        blend: |average: u32, time: u32| {
            let average = f32::from_bits(average);
            (average + (f32::from_bits(time) - average) * FRAME_TIME_EMA_ALPHA).to_bits()
        },
        milliseconds: |time: u32| (f32::from_bits(time) * 1_000.0).to_bits(),
        rate: |time: u32| (1.0 / f32::from_bits(time)).to_bits(),
    }
}

fn frame(tracker: &mut FrameRateTracker, seconds: f32, active: bool) -> Option<f32> {
    tracker.update(seconds.to_bits(), active, &frame_measures()).map(f32::from_bits)
}

fn frame_metrics(tracker: &FrameRateTracker) -> Option<(f32, f32)> {
    let (fps, time) = tracker.metrics(&frame_measures())?;
    Some((f32::from_bits(fps), f32::from_bits(time)))
}

#[test]
fn frame_rate_tracker_measures_active_interactions_and_resets_after_idle() {
    let mut tracker = FrameRateTracker::new();

    assert_eq!(frame(&mut tracker, 1.0 / 20.0, false), None);
    assert_eq!(frame_metrics(&tracker), None);

    let measured = frame(&mut tracker, 1.0 / 60.0, true).expect("active frame measurement");
    assert!((measured - 1000.0 / 60.0).abs() < 0.01);
    let (fps, frame_time) = frame_metrics(&tracker).expect("active measurement");
    assert!((fps - 60.0).abs() < 0.01);
    assert!((frame_time - 1000.0 / 60.0).abs() < 0.01);

    let measured =
        frame(&mut tracker, 1.0 / 30.0, true).expect("continued active frame measurement");
    assert!((measured - 1000.0 / 30.0).abs() < 0.01);
    let expected = 1.0 / 60.0 + (1.0 / 30.0 - 1.0 / 60.0) * FRAME_TIME_EMA_ALPHA;
    assert!(
        (frame_metrics(&tracker).expect("averaged measurement").1 - expected * 1000.0).abs()
            < 0.01
    );

    assert_eq!(frame(&mut tracker, 1.0 / 20.0, false), None);
    assert_eq!(frame(&mut tracker, 1.0 / 40.0, true), Some(25.0));
    let (fps, _) = frame_metrics(&tracker).expect("reset measurement");
    assert!((fps - 40.0).abs() < 0.01);
}

#[test]
fn frame_rate_tracker_rejects_invalid_frame_times() {
    let mut tracker = FrameRateTracker::new();

    assert_eq!(frame(&mut tracker, f32::NAN, true), None);
    assert_eq!(frame(&mut tracker, 0.0, true), None);
    assert_eq!(frame(&mut tracker, 1.0, true), None);

    assert_eq!(frame_metrics(&tracker), None);

    let longest = f32::from_bits(MAX_MEASURED_FRAME_TIME);
    assert_eq!(longest, 0.25);
    assert_eq!(frame(&mut tracker, longest, true), Some(longest * 1_000.0));
}

#[test]
fn a_frame_is_slow_by_its_time_or_by_the_rate() {
    let slow = |frame_ms: Option<f32>, fps: Option<f32>| {
        frame_is_slow(
            frame_ms.map(f32::to_bits),
            fps.map(f32::to_bits),
            33.0f32.to_bits(),
            30.0f32.to_bits(),
        )
    };
    assert!(slow(Some(33.0), None));
    assert!(!slow(Some(32.9), None));
    assert!(slow(Some(10.0), Some(29.9)));
    assert!(!slow(Some(10.0), Some(30.0)));
    assert!(!slow(None, Some(1.0)));
    assert!(!slow(Some(f32::NAN), Some(f32::NAN)));
}

#[test]
fn fill_group_subtraction_replaces_untouched_siblings_atomically() {
    let group_id = 99;
    let fill = |id: u128, points: Vec<CanvasPoint>| {
        let mut piece = operation(id, EditKind::Fill);
        piece.points = points;
        piece.paint_order = Some(1);
        piece.fill_group_id = Some(group_id);
        piece
    };
    let left = fill(1, vec![point(0.1, 0.2), point(0.3, 0.2), point(0.3, 0.4), point(0.1, 0.2)]);
    let right = fill(2, vec![point(0.3, 0.2), point(0.5, 0.2), point(0.5, 0.4), point(0.3, 0.2)]);
    let right_points = right.points.clone();

    // The mask lies inside of the left piece, and leaves two parts of it.
    let parts = vec![
        vec![point(0.1, 0.2), point(0.15, 0.2), point(0.15, 0.3)],
        vec![point(0.25, 0.2), point(0.3, 0.2), point(0.3, 0.4)],
    ];
    let changes = subtract_eraser_sources(
        &vec![left, right],
        true,
        &Asked { ask: |source: &EditOperation| Ok(source.id == 1) },
        &Asked { ask: |_: &EditOperation| Ok(vec![]) },
        &Asked { ask: |_: &EditOperation| Ok(parts.clone()) },
        &|block: EditOperation| Ok(block),
    )
    .expect("valid masks");
    assert_eq!(changes.len(), 2);
    assert!(changes
        .iter()
        .any(|change| change.operations.len() == 1 && change.operations[0].points == right_points));
    let replacement_groups = changes
        .iter()
        .flat_map(|change| change.operations.iter().filter_map(|piece| piece.fill_group_id))
        .collect::<HashSet<_>>();
    assert_eq!(replacement_groups.len(), 1);
    assert!(!replacement_groups.contains(&group_id));
}

#[test]
fn an_eraser_that_touches_nothing_changes_nothing() {
    let sources = vec![operation(1, EditKind::Paint), operation(2, EditKind::Fill)];
    let nothing = subtract_eraser_sources(
        &sources,
        true,
        &Asked { ask: |_: &EditOperation| Ok(false) },
        &Asked { ask: |_: &EditOperation| Ok(vec![]) },
        &Asked { ask: |_: &EditOperation| Ok(vec![]) },
        &|block: EditOperation| Ok(block),
    )
    .expect("no masks");
    assert!(nothing.is_empty());
    let error = subtract_eraser_sources(
        &sources,
        true,
        &Asked { ask: |_: &EditOperation| Err("no such mask".to_string()) },
        &Asked { ask: |_: &EditOperation| Ok(vec![]) },
        &Asked { ask: |_: &EditOperation| Ok(vec![]) },
        &|block: EditOperation| Ok(block),
    );
    assert!(matches!(error, Err(message) if message == "no such mask"));
}

#[test]
fn blocks_are_erased_part_by_part() {
    let mut block = operation(9, EditKind::CompactBlock);
    block.compact_sources = vec![operation(1, EditKind::Paint), operation(2, EditKind::Paint)];
    let erase = |touched: &[u128], pieces: Vec<Vec<CanvasPoint>>| {
        subtract_eraser_sources(
            &vec![block.clone()],
            true,
            &Asked { ask: |source: &EditOperation| Ok(touched.contains(&source.id)) },
            &Asked { ask: |_: &EditOperation| Ok(pieces.clone()) },
            &Asked { ask: |_: &EditOperation| Ok(vec![]) },
            &|_: EditOperation| Err("no bounds".to_string()),
        )
    };
    // A block of which nothing is touched stays as it is, and one of which all is
    // erased goes: neither is built anew.
    assert!(erase(&[9], vec![]).expect("nothing touched").is_empty());
    let gone = erase(&[9, 1, 2], vec![]).expect("all erased");
    assert_eq!((gone.len(), gone[0].operations.len()), (1, 0));
    let left = vec![vec![point(0.1, 0.1), point(0.2, 0.1)]];
    assert!(matches!(erase(&[9, 1], left), Err(message) if message == "no bounds"));
}

#[test]
fn new_operations_have_random_identities() {
    let is_random = |id: u128| (id >> 76) & 0xf == 4 && (id >> 62) & 3 == 2;
    let drawn = || {
        draft(EditKind::Paint, 0, 0, vec![point(0.1, 0.1)], Color::rgba(0, 0, 0, 255), 0)
    };
    let (first, second) = (drawn(), drawn());
    assert!(is_random(first.id) && is_random(second.id));
    assert_ne!(first.id, second.id);
}

#[test]
fn a_stroke_that_is_all_erased_leaves_no_pieces() {
    let source = operation(1, EditKind::Paint);
    let gone = fragment_change(&source, vec![]).expect("a change");
    assert!(gone.is_empty());
    assert!(fragment_change(&source, vec![source.points.clone()]).is_none());
    let pieces = fragment_change(
        &source,
        vec![vec![point(0.1, 0.1), point(0.2, 0.1)], vec![point(0.3, 0.1), point(0.4, 0.1)]],
    )
    .expect("a change");
    assert_eq!(pieces.len(), 2);
    assert_eq!(pieces[0].color, source.color);
    assert!(pieces[1].points == vec![point(0.3, 0.1), point(0.4, 0.1)]);
    let replaced = regroup(&vec![source], vec![Some(pieces)], false);
    assert_eq!(replaced.len(), 1);
    assert_eq!(replaced[0].operations.len(), 2);
}

#[test]
fn layers_are_deleted_only_while_another_is_left() {
    let layers = vec![layer(1, "Layer 1"), layer(2, "Ink")];
    let mut panel = LayerPanel::new(&layers, 7, "Layer 1");
    assert_eq!(panel.active_layer_id, 2);
    assert_eq!(panel.name_edit, "Ink");
    assert_eq!(panel.request_delete_active_layer(1, 0), DeleteStep::Refused);
    assert_eq!(panel.request_delete_active_layer(2, 0), DeleteStep::Delete(2));
    assert_eq!(panel.request_delete_active_layer(2, 5), DeleteStep::Confirm);
    assert_eq!(panel.layer_to_confirm(&layers), Some(1));
    assert_eq!(delete_question("Ink", 5), "\"Ink\" contains 5 objects.");
    assert_eq!(panel.confirm_delete(true, false), Some(2));
    assert_eq!(panel.pending_delete, None);
    assert_eq!(next_active_layer(&layers, 2), Ok(Some(0)));
    assert_eq!(next_active_layer(&layers, 1), Ok(Some(1)));
    assert_eq!(next_active_layer(&layers, 9), Err(()));
    let effect = panel.finish_delete(Some((1, "Layer 1".to_string())), Ok(true));
    assert_eq!(effect.message, "Layer deleted");
    assert!(effect.clears_tools && effect.invalidates_tiles);
    assert_eq!(panel.active_layer_id, 1);
    assert_eq!(panel.finish_delete(None, Ok(false)).message, "Layer not found");
    assert_eq!(panel.finish_delete(None, failed()).message, "Layer deletion failed: disk is full");
}

#[test]
fn layer_changes_say_what_happened() {
    let layers = vec![layer(1, "Layer 1"), layer(2, "Ink")];
    let mut panel = LayerPanel::new(&layers, 7, "Layer 1");
    assert_eq!(LayerPanel::new_layer_name(2), "Layer 3");
    assert_eq!(panel.finish_create(Ok((3, "Layer 3".to_string()))).message, "Layer created");
    assert_eq!(panel.active_layer_id, 3);
    assert_eq!(panel.finish_create(failed()).message, "Layer creation failed: disk is full");
    panel.name_edit = "  Sky ".to_string();
    assert_eq!(panel.finish_rename(Ok(true)).message, "Layer renamed");
    assert_eq!(panel.name_edit, "Sky");
    assert_eq!(panel.finish_rename(Ok(false)).message, "Active layer not found");
    assert_eq!(panel.finish_rename(failed()).message, "Layer rename failed: disk is full");
    assert_eq!(
        panel.finish_duplicate(Ok(Some((4, "Copy".to_string(), 12)))).message,
        "Layer duplicated (12 objects)"
    );
    assert_eq!(panel.finish_duplicate(Ok(None)).message, "Active layer not found");
    assert_eq!(panel.finish_duplicate(failed()).message, "Layer duplication failed: disk is full");
    assert_eq!(
        panel.finish_merge(Ok(Some((1, "Layer 1".to_string(), 3)))).message,
        "Merged 3 objects down"
    );
    assert_eq!(panel.finish_merge(Ok(None)).message, "No lower layer to merge into");
    assert_eq!(panel.finish_merge(failed()).message, "Merge Down failed: disk is full");
    assert_eq!(
        panel.finish_move_selection(2, "Ink".to_string(), Ok(Some(6))).message,
        "Moved 6 objects to Ink"
    );
    assert_eq!(
        panel.finish_move_selection(2, "Ink".to_string(), Ok(None)).message,
        "Nothing moved"
    );
    assert_eq!(
        panel.finish_move_selection(2, "Ink".to_string(), failed()).message,
        "Move to layer failed: disk is full"
    );
    assert_eq!(panel.finish_visibility(2, false, Ok(true)).message, "Layer hidden");
    assert!(panel.finish_visibility(2, false, Ok(true)).clears_tools);
    assert_eq!(
        panel.finish_visibility(2, true, Ok(false)).message,
        "Layer visibility is unchanged"
    );
    assert_eq!(
        panel.finish_visibility(2, true, failed()).message,
        "Layer visibility failed: disk is full"
    );
    assert_eq!(panel.finish_lock(2, true, Ok(true)).message, "Layer locked");
    assert_eq!(panel.finish_lock(2, true, Ok(false)).message, "Layer lock is unchanged");
    assert_eq!(panel.finish_lock(2, true, failed()).message, "Layer lock failed: disk is full");
    assert_eq!(finish_move(1, Ok(true)).message, "Layer moved up");
    assert_eq!(finish_move(-1, Ok(true)).message, "Layer moved down");
    assert_eq!(finish_move(1, Ok(false)).message, "Layer is already at the edge");
    assert_eq!(finish_move(1, failed()).message, "Layer reorder failed: disk is full");
    panel.sync_active_layer_after_history(&vec![layer(8, "Base")]);
    assert_eq!(panel.active_layer_id, 8);
    assert_eq!(panel.name_edit, "Base");
}

#[test]
fn layer_buttons_fit_the_place_of_the_layer() {
    let mut layers = vec![layer(1, "Layer 1"), layer(2, "Ink")];
    let top = layer_buttons(&layers, 2, true, true);
    assert!(top.delete && !top.move_up && top.move_down && top.merge_down && top.move_selection);
    layers[0].locked = true;
    let blocked = layer_buttons(&layers, 2, true, true);
    assert!(!blocked.merge_down && !blocked.move_selection);
    assert_eq!(move_targets(&layers, 2), vec![(0, false)]);
    let mut requests = LayerRequests {
        create: false,
        duplicate: false,
        delete: false,
        rename: true,
        merge_down: true,
        move_direction: 0,
        move_selection_to: None,
        visibility: None,
        lock: Some((2, true)),
    };
    assert_eq!(layer_request(&requests), LayerRequest::Rename);
    requests.rename = false;
    requests.merge_down = false;
    assert_eq!(layer_request(&requests), LayerRequest::SetLocked(2, true));
}

#[test]
fn the_clipboard_holds_what_was_copied() {
    let mut clipboard = SelectionClipboard::new();
    assert_eq!(clipboard.paste_refusal(true), Some("Clipboard is empty"));
    assert_eq!(clipboard.copy(vec![]).message, "Nothing selected");
    let mut left = operation(1, EditKind::Fill);
    let mut right = operation(2, EditKind::Fill);
    left.fill_group_id = Some(5);
    right.fill_group_id = Some(5);
    assert_eq!(object_count(&vec![left.clone(), right.clone()]), 1);
    assert_eq!(clipboard.copy(vec![left.clone(), right]).message, "Copied 1 objects");
    assert_eq!(clipboard.paste_refusal(false), Some("Active layer is hidden or locked"));
    assert_eq!(clipboard.paste_refusal(true), None);
    assert_eq!(clipboard.paste_steps(true), 0);
    assert_eq!(clipboard.paste_steps(false), 1);
    let pasted = clipboard.finish_paste(false, Ok(Some(2)));
    assert_eq!(pasted.message, "Pasted 2 objects");
    assert_eq!(clipboard.paste_count, 1);
    assert_eq!(clipboard.finish_paste(true, Ok(Some(2))).message, "Pasted 2 objects in place");
    assert_eq!(clipboard.paste_count, 1);
    assert_eq!(clipboard.finish_paste(false, Ok(None)).message, "Clipboard is empty");
    assert_eq!(clipboard.finish_paste(false, failed()).message, "Paste failed: disk is full");
    assert!(matches!(clipboard.cut(true, vec![left.clone()]), CutStep::Delete(1)));
    assert!(matches!(clipboard.cut(false, vec![left]), CutStep::Refused(_)));
    assert!(matches!(clipboard.cut(true, vec![]), CutStep::Refused(_)));
    assert_eq!(finish_cut(1, Ok(1)).message, "Cut 1 objects");
    assert_eq!(
        finish_cut(1, failed()).message,
        "Cut failed after copying 1 objects: disk is full"
    );
    assert_eq!(
        clipboard.finish_compact_older(None, Ok(3)).message,
        "Object compaction is Unlimited"
    );
    assert_eq!(
        clipboard.finish_compact_older(Some(10), Ok(0)).message,
        "No old object groups above Keep latest 10"
    );
    assert_eq!(
        clipboard.finish_compact_older(Some(10), Ok(4)).message,
        "Compacted 4 old object groups"
    );
    assert_eq!(
        clipboard.finish_compact_older(Some(10), failed()).message,
        "Compact older failed: disk is full"
    );
}

#[test]
fn edits_end_with_a_message() {
    assert_eq!(finish_undo(Ok(true)).message, "Undone");
    assert_eq!(finish_undo(Ok(false)).message, "Nothing to undo");
    assert_eq!(finish_undo(failed()).message, "Undo failed: disk is full");
    assert_eq!(finish_redo(Ok(true)).message, "Redone");
    assert_eq!(finish_redo(Ok(false)).message, "Nothing to redo");
    assert_eq!(finish_redo(failed()).message, "Redo failed: disk is full");
    assert_eq!(finish_delete(Ok(0)).message, "Nothing selected");
    assert_eq!(finish_delete(Ok(3)).message, "Deleted 3 objects");
    assert_eq!(finish_delete(failed()).message, "Delete failed: disk is full");
    assert_eq!(finish_compact(4, Ok(true)).message, "Compacted 4 objects");
    assert_eq!(finish_compact(4, Ok(false)).message, "Nothing compacted");
    assert_eq!(finish_compact(4, failed()).message, "Compact failed: disk is full");
    assert_eq!(finish_erase_area(Ok(true)).message, "Area erased");
    assert_eq!(finish_erase_area(Ok(false)).message, "Nothing erased");
    assert_eq!(finish_erase_area(failed()).message, "Eraser Lasso failed: disk is full");
    assert_eq!(finish_erase(Ok(true)).message, "Erased");
    assert_eq!(finish_erase(failed()).message, "Erase failed: disk is full");
    assert_eq!(finish_save(Ok(())).message, "Saved");
    assert_eq!(finish_save(failed()).message, "Save failed: disk is full");
    assert_eq!(finish_save_settings(Ok(())), "Settings saved");
    assert_eq!(finish_save_settings(failed()), "Settings failed: disk is full");
    let scaled = finish_selection_edit(SelectionEdit::Scale, "150", Ok(Some(2)));
    assert_eq!(scaled.message, "Scaled 2 objects to 150%");
    assert_eq!(scaled.clearing, Clearing::Nothing);
    assert_eq!(scaled.refresh, Refresh::Layer);
    let turned = finish_selection_edit(SelectionEdit::Rotate, "45.0", Ok(Some(1)));
    assert_eq!(turned.message, "Rotated 1 objects by 45.0 deg");
}

#[test]
fn refusals_name_their_reason() {
    assert_eq!(flip_refusal(false, true, true, true), Some("Canvas is not ready"));
    assert_eq!(flip_refusal(true, false, true, true), Some("Active layer is hidden or locked"));
    assert_eq!(flip_refusal(true, true, false, true), Some("Nothing flipped"));
    assert_eq!(flip_refusal(true, true, true, false), Some("Flip is not representable"));
    assert_eq!(flip_refusal(true, true, true, true), None);
    assert_eq!(scale_refusal(true, true, true), Some("Scale unchanged"));
    assert_eq!(scale_refusal(false, true, false), Some("Scale is not representable"));
    assert_eq!(scale_refusal(false, true, true), None);
    assert_eq!(rotate_refusal(true, true, true), Some("Rotation unchanged"));
    assert_eq!(rotate_refusal(false, true, false), Some("Rotation is not representable"));
    assert_eq!(
        erase_area_refusal(true, false, 0),
        Some("Eraser Lasso needs a non-degenerate area")
    );
    assert_eq!(erase_area_refusal(true, true, 0), Some("Clipped outside area"));
    assert_eq!(erase_area_refusal(true, true, 1), None);
}

#[test]
fn a_selection_is_reordered_until_it_is_at_the_edge() {
    assert_eq!(reorder_refusal(false), Some("Nothing selected"));
    assert_eq!(reorder_refusal(true), None);
    let forward = finish_reorder(1, Ok(true));
    assert_eq!(forward.message, "Selection moved forward");
    assert_eq!(forward.refresh, Refresh::Layer);
    assert_eq!(finish_reorder(-1, Ok(true)).message, "Selection moved backward");
    assert_eq!(finish_reorder(1, Ok(false)).message, "Selection is already at the edge");
    assert_eq!(finish_reorder(1, failed()).message, "Reorder failed: disk is full");
}

#[test]
fn what_replaced_the_selected_objects_is_selected() {
    let mut first = operation(11, EditKind::Fill);
    first.fill_group_id = Some(50);
    let mut second = operation(12, EditKind::Fill);
    second.fill_group_id = Some(50);
    let drawing = vec![first, second, operation(13, EditKind::Paint)];
    let mut selection = SelectionState::new();
    selection.selected_operation_ids = ids(&[1, 2, 3]);

    let nothing = selection.finish_transform(&drawing, SelectionEdit::Scale, "50", Ok(vec![]));
    assert_eq!(nothing.message, "Nothing scaled");
    assert_eq!(selection.selected_operation_ids, ids(&[1, 2, 3]));
    let refused = selection.finish_transform(&drawing, SelectionEdit::Rotate, "5", failed());
    assert_eq!(refused.message, "Rotate failed: disk is full");
    let scaled = selection.finish_transform(
        &drawing,
        SelectionEdit::Scale,
        "50.0",
        Ok(vec![11, 12, 13]),
    );
    assert_eq!(scaled.message, "Scaled 2 objects to 50.0%");
    assert_eq!(scaled.refresh, Refresh::Layer);
    assert_eq!(selection.selected_operation_ids, ids(&[11, 12, 13]));
}

#[test]
fn a_moved_selection_takes_its_rectangle_along() {
    let spot = |x: f32| Position { x: x.to_bits(), y: 0.0f32.to_bits() };
    let shift = |from: Position| spot(f32::from_bits(from.x) + 10.0);
    let drawing = vec![operation(13, EditKind::Paint)];
    let mut selection = SelectionState::new();
    selection.selected_operation_ids = ids(&[3]);
    selection.gestures.drag_start = Some(spot(1.0));

    assert_eq!(selection.finish_moved(&drawing, &shift, failed()).message, "Move failed: disk is full");
    assert!(selection.gestures.drag_start.unwrap().same_as(spot(1.0)));
    assert_eq!(selection.finish_moved(&drawing, &shift, Ok(vec![])).message, "Nothing moved");
    let moved = selection.finish_moved(&drawing, &shift, Ok(vec![13]));
    assert_eq!(moved.message, "Moved 1 objects");
    assert!(selection.gestures.drag_start.unwrap().same_as(spot(11.0)));
    assert!(selection.gestures.drag_current.is_none());
    assert_eq!(selection.selected_operation_ids, ids(&[13]));

    assert_eq!(f32::from_bits(LEAST_MOVE), 0.5);
    assert!(!move_counts(0.49f32.to_bits()));
    assert!(move_counts(0.5f32.to_bits()));
}

#[test]
fn recolored_objects_stay_selected_with_the_others() {
    let drawing = vec![operation(11, EditKind::Paint), operation(2, EditKind::Erase)];
    let mut selection = SelectionState::new();
    selection.selected_operation_ids = ids(&[1, 2]);

    assert_eq!(selection.finish_recolor(&drawing, Ok(vec![])).message, "Nothing recolored");
    assert_eq!(selection.finish_recolor(&drawing, failed()).message, "Recolor failed: disk is full");
    let recolored = selection.finish_recolor(&drawing, Ok(vec![(1, 11)]));
    assert_eq!(recolored.message, "Recolored 2 objects");
    assert_eq!(selection.selected_operation_ids, ids(&[2, 11]));
}

#[test]
fn a_block_that_took_the_place_of_objects_is_selected() {
    let mut selection = SelectionState::new();
    selection.selected_operation_ids = ids(&[1, 2, 3]);

    assert_eq!(selection.finish_compaction(Ok(None)).message, "Nothing compacted");
    assert_eq!(selection.finish_compaction(failed()).message, "Compact failed: disk is full");
    assert_eq!(selection.selected_operation_ids, ids(&[1, 2, 3]));
    let compacted = selection.finish_compaction(Ok(Some(9)));
    assert_eq!(compacted.message, "Compacted 3 objects");
    assert_eq!(compacted.refresh, Refresh::Everything);
    assert_eq!(selection.selected_operation_ids, ids(&[9]));
}

#[test]
fn a_bookmark_needs_a_name() {
    assert_eq!(BookmarkList::rename_refusal(""), Some("Bookmark name is empty"));
    assert_eq!(BookmarkList::rename_refusal("Home"), None);
}

#[test]
fn the_topmost_color_under_the_pointer_is_picked() {
    let red = Color::rgba(255, 0, 0, 255);
    let blue = Color::rgba(0, 0, 255, 255);
    let colors = vec![red, blue, red];
    assert_eq!(sample_color(&colors, &vec![true, true, false]), blue);
    assert_eq!(sample_color(&colors, &vec![false; 3]), background_color());
    assert_eq!(picked_message(blue), "Color picked");
    assert_eq!(picked_message(background_color()), "Background picked");
    assert_eq!(color_text(&red), "#FF0000");
}

#[test]
fn selections_are_read_in_paint_order() {
    let mut operations =
        vec![operation(1, EditKind::Paint), operation(2, EditKind::Fill), operation(3, EditKind::Paint)];
    operations[0].paint_order = Some(9);
    let all = ids(&[1, 2, 3]);
    let order = |list: Vec<EditOperation>| list.iter().map(|piece| piece.id).collect::<Vec<_>>();
    assert_eq!(order(selected_operations_in_document_order(&operations, &all)), vec![1, 2, 3]);
    assert_eq!(
        order(selected_operations_in_paint_order(&operations, &all, DEFAULT_LAYER)),
        vec![2, 3, 1]
    );
    assert!(selected_operations_in_paint_order(&operations, &all, 44).is_empty());
    assert_eq!(order(selected_operation_snapshots(&operations, &ids(&[1, 3]))), vec![3, 1]);
    assert_eq!(selected_object_count(&operations, &all), 3);

    operations.push(operation(4, EditKind::Erase));
    assert_eq!(erasable_ids(&operations, &ids(&[1, 2, 4])), ids(&[1, 2]));
    assert!(snapshotted_eraser_sources(&operations, &ids(&[1, 77])).is_err());
    assert_eq!(
        order(snapshotted_eraser_sources(&operations, &ids(&[3, 1])).expect("both are there")),
        vec![1, 3]
    );
    assert_eq!(replaced_selection(&ids(&[1, 2]), &vec![(1, 8)]), ids(&[8, 2]));
    retain_recolored(&mut operations);
    assert!(operations.iter().all(|piece| piece.kind != EditKind::Erase));
}

#[test]
fn modifiers_add_to_and_take_from_a_selection() {
    let mut selected = ids(&[1, 2]);
    apply_selection_ids(&mut selected, &ids(&[2, 3]), true, false);
    assert_eq!(selected, ids(&[1, 2, 3]));
    apply_selection_ids(&mut selected, &ids(&[2, 9]), false, true);
    assert_eq!(selected, ids(&[1, 2, 3, 9]));
    apply_selection_ids(&mut selected, &ids(&[2, 9]), false, true);
    assert_eq!(selected, ids(&[1, 3]));
    apply_selection_ids(&mut selected, &ids(&[7]), false, false);
    assert_eq!(selected, ids(&[7]));

    let mut operations = vec![operation(1, EditKind::Fill), operation(2, EditKind::Fill)];
    operations[0].fill_group_id = Some(5);
    operations[1].fill_group_id = Some(5);
    let part = fully_contained_object_operation_ids(&operations, &ids(&[1]), DEFAULT_LAYER);
    assert!(part.is_empty());
    let whole = fully_contained_object_operation_ids(&operations, &ids(&[1, 2]), DEFAULT_LAYER);
    assert_eq!(whole, ids(&[1, 2]));
}

#[test]
fn bookmarks_come_and_go() {
    let camera = CameraAddress {
        depth: 0,
        tile_x: tile(0),
        tile_y: tile(0),
        local_x: 0,
        local_y: 0,
        zoom: 1.0f64.to_bits(),
    };
    let bookmark = |id: u128, name: &str| Bookmark {
        id,
        name: name.to_string(),
        camera: camera.clone(),
    };
    assert_eq!(default_bookmark_name(0), "Bookmark 1");
    let mut list = BookmarkList::new(vec![bookmark(1, "Start")]);
    assert_eq!(list.new_name, "Bookmark 2");
    list.new_name = "  ".to_string();
    assert_eq!(list.name_to_add(), "Bookmark 2");
    list.new_name = " End ".to_string();
    assert_eq!(list.name_to_add(), "End");
    assert_eq!(list.finish_add(Ok(bookmark(2, "End"))), "Bookmark saved");
    assert_eq!(list.finish_add(failed()), "Bookmark failed: disk is full");
    assert_eq!(list.finish_rename(2, "Finish".to_string(), Ok(true)), "Bookmark renamed");
    assert_eq!(list.bookmarks[1].name, "Finish");
    assert_eq!(list.edited_name(&list.bookmarks[1]), "Finish");
    assert_eq!(list.finish_rename(2, "Goal".to_string(), Ok(false)), "Bookmark not found");
    assert_eq!(list.finish_rename(2, "Goal".to_string(), failed()), "Rename failed: disk is full");
    assert_eq!(list.finish_delete(1, Ok(true)), "Bookmark deleted");
    assert_eq!(list.bookmarks.len(), 1);
    assert!(!list.edits.contains_key(&1));
    assert_eq!(list.finish_delete(1, Ok(false)), "Bookmark not found");
    assert_eq!(list.finish_delete(1, failed()), "Delete failed: disk is full");
}

fn menu_state() -> SelectionMenuState {
    SelectionMenuState {
        target_mode: SelectionTargetMode::Object,
        rectangle_mode: RectangleSelectionMode::Inside,
        area_shape: AreaSelectionShape::Rectangle,
        has_selection: true,
        has_area: false,
        clipboard_holds_something: false,
        layer_is_editable: true,
    }
}

#[test]
fn the_selection_menu_acts_on_what_is_clicked() {
    let entries = menu_state().entries();
    for (place, entry) in entries.iter().enumerate() {
        let mut clicked = vec![false; entries.len()];
        clicked[place] = true;
        let (mode, action) = menu_outcome(&entries, &clicked);
        if entry.enabled {
            match entry.effect {
                MenuEffect::Act(expected) => assert_eq!(action, Some(expected)),
                MenuEffect::SetRectangleMode(expected) => assert_eq!(mode, Some(expected)),
            }
        } else {
            assert_eq!((mode, action), (None, None));
        }
        assert!(!entry.effect.label().is_empty());
    }
    assert!(entries
        .iter()
        .any(|entry| entry.enabled && entry.effect == MenuEffect::Act(SelectionMenuAction::Delete)));
    let label = selection_mode_label(
        SelectionTargetMode::Object,
        RectangleSelectionMode::Crossing,
        AreaSelectionShape::Lasso,
    );
    assert!(!label.is_empty());
}

#[test]
fn toolbar_buttons_open_windows() {
    let mut windows = Windows::new();
    windows.press(ToolbarButton::Layers);
    assert!(windows.layers);
    windows.press(ToolbarButton::Layers);
    assert!(windows.layers);
    windows.press(ToolbarButton::Help);
    assert!(windows.file);
    assert_eq!(windows.file_tab, FileWindowTab::Help);
    assert_eq!(windows.finish_file_window(true, false, true), Some(FileDialog::Open));
    assert_eq!(windows.finish_file_window(false, false, false), None);
    assert!(!windows.file);
}

#[test]
fn opening_a_document_starts_anew() {
    let layers = vec![layer(1, "Layer 1")];
    let mut editor = Editor::new(&layers, 9, "Layer 1", vec![]);
    assert_eq!(editor.layers.active_layer_id, 1);
    assert!(editor.existing_object_tools_are_editable());
    assert!(editor.apply_depth_render_mode(DepthRenderMode::DistantTile));
    assert!(!editor.apply_depth_render_mode(DepthRenderMode::DistantTile));
    assert!(!editor.existing_object_tools_are_editable());
    assert!(editor.note_fallback_mode(TileFallbackMode::Full));
    assert!(!editor.note_fallback_mode(TileFallbackMode::Full));
    editor.mark_zoom_changed(4, 77);
    assert_eq!(editor.capture_depth, 4);
    assert_eq!(editor.tiles.last_zoom_change, Some(77));
    let generation = editor.tiles.generation;
    assert_eq!(editor.replace_document(&vec![], 9, vec![], 2, Ok(())), "Canvas opened");
    assert_eq!(editor.layers.active_layer_id, 9);
    assert_eq!(editor.tiles.generation, generation + 1);
    assert_eq!(editor.depth_jump_target, 2);
    assert_eq!(
        editor.replace_document(&vec![], 9, vec![], 3, failed()),
        "Tile cache failed: disk is full"
    );
    assert_eq!(editor.depth_jump_target, 2);
    let activity = editor.frame_activity(true, false, false, false);
    assert!(activity.input && activity.interaction && activity.overlay && !activity.previewing);
    editor.apply_edit_effect(&finish_undo(Ok(true)), true);
    assert_eq!(editor.tiles.generation, generation + 2);
}

fn leaf(value: u8) -> Json<u8> {
    Json::Leaf(value)
}

fn object(fields: Vec<(&str, Json<u8>)>) -> Json<u8> {
    Json::Object(fields.into_iter().map(|(name, value)| (name.to_string(), value)).collect())
}

fn field<'a>(value: &'a Json<u8>, name: &str) -> Option<&'a Json<u8>> {
    match value {
        Json::Object(fields) => {
            fields.iter().find(|(key, _)| key == name).map(|(_, value)| value)
        }
        Json::Leaf(_) => None,
    }
}

#[test]
fn merged_records_hold_the_fields_of_both() {
    let merged = merge_json_objects(
        object(vec![("a", leaf(1)), ("b", leaf(2))]),
        object(vec![("b", leaf(3)), ("c", leaf(4))]),
    );
    assert!(matches!(field(&merged, "a"), Some(Json::Leaf(1))));
    assert!(matches!(field(&merged, "b"), Some(Json::Leaf(3))));
    assert!(matches!(field(&merged, "c"), Some(Json::Leaf(4))));
    assert_eq!(logged_fallback_mode(None, None), "unknown");
    assert_eq!(logged_fallback_mode(None, Some(TileFallbackMode::Full)), "full");
    assert_eq!(logged_depth_mode(Some(DepthRenderMode::Empty)), "empty");
}

#[test]
fn changed_settings_are_applied_and_saved() {
    let settings = WatchedSettings {
        tile_worker_count: 1,
        tile_resolution_px: 128,
        pause_tile_generation: false,
        pause_tile_generation_while_drawing: false,
        tile_rebuild_policy: 0,
        tile_prefetch_radius: 1,
        distant_tiles_enabled: true,
        vector_depth_radius: 3,
        depth_capture_radius: 3,
        edge_quality: 0,
        smoothing: 1,
        cache_size_mib: 64,
        png_compression: 0,
        storage_commit_mode: 0,
        session_logging: 0,
    };
    assert!(settings_actions(false, false, &settings, &settings).is_empty());
    assert_eq!(
        settings_actions(true, false, &settings, &settings),
        vec![SettingsAction::SaveSettings]
    );
    let more = WatchedSettings { tile_worker_count: 2, ..settings };
    let actions = settings_actions(true, false, &settings, &more);
    assert!(actions.contains(&SettingsAction::RecreateTileScheduler));
    assert_eq!(actions.last(), Some(&SettingsAction::SaveSettings));
    assert_eq!(depth_level_count(3), 7);
}

#[test]
fn pasted_objects_are_selected() {
    let mut editor = Editor::new(&vec![layer(1, "Layer 1")], 9, "Layer 1", vec![]);
    editor.selection.selected_operation_ids = ids(&[1]);
    let before = editor.tiles.generation;
    let mut parts = vec![operation(1, EditKind::Paint), operation(2, EditKind::Fill)];
    parts.push(operation(3, EditKind::Fill));
    parts[1].fill_group_id = Some(7);
    parts[2].fill_group_id = Some(7);

    assert_eq!(editor.finish_paste(&parts, false, failed()), "Paste failed: disk is full");
    assert_eq!(editor.finish_paste(&parts, false, Ok(vec![])), "Clipboard is empty");
    assert_eq!(editor.selection.selected_operation_ids, ids(&[1]));
    assert_eq!((editor.tiles.generation, editor.clipboard.paste_count), (before, 0));

    assert_eq!(editor.finish_paste(&parts, false, Ok(vec![2, 3])), "Pasted 1 objects");
    assert_eq!(editor.selection.selected_operation_ids, ids(&[2, 3]));
    assert_eq!((editor.tiles.generation, editor.clipboard.paste_count), (before + 1, 1));

    assert_eq!(editor.finish_paste(&parts, true, Ok(vec![1, 2])), "Pasted 2 objects in place");
    assert_eq!(editor.selection.selected_operation_ids, ids(&[1, 2]));
    assert_eq!(editor.clipboard.paste_count, 1);
}

#[test]
fn moved_objects_are_selected_on_their_layer() {
    let layers = vec![layer(1, "Ground"), layer(2, "Sky")];
    assert_eq!(move_target_name(&layers, 1), Ok("Ground".to_string()));
    assert_eq!(move_target_name(&layers, 5), Err("Target layer not found"));

    let mut editor = Editor::new(&layers, 9, "Layer 1", vec![]);
    editor.selection.selected_operation_ids = ids(&[1]);
    editor.selection.eraser_target_ids = ids(&[4]);
    let parts = vec![operation(1, EditKind::Paint), operation(8, EditKind::Paint)];
    let ground = || "Ground".to_string();

    assert_eq!(
        editor.finish_move_selection(&parts, 1, ground(), failed()),
        "Move to layer failed: disk is full"
    );
    assert_eq!(editor.finish_move_selection(&parts, 1, ground(), Ok(vec![])), "Nothing moved");
    assert_eq!(editor.layers.active_layer_id, 2);
    assert_eq!(editor.selection.eraser_target_ids, ids(&[4]));

    assert_eq!(
        editor.finish_move_selection(&parts, 1, ground(), Ok(vec![8])),
        "Moved 1 objects to Ground"
    );
    assert_eq!((editor.layers.active_layer_id, editor.layers.name_edit.as_str()), (1, "Ground"));
    assert_eq!(editor.selection.selected_operation_ids, ids(&[8]));
    assert_eq!(editor.selection.eraser_target_ids, ids(&[]));
}

#[test]
fn steps_in_the_history_keep_to_the_layers_that_are_there() {
    let layers = vec![layer(1, "Ground"), layer(2, "Sky")];
    let mut editor = Editor::new(&layers, 9, "Layer 1", vec![]);
    editor.selection.selected_operation_ids = ids(&[1]);
    let before = editor.tiles.generation;

    assert_eq!(editor.run_undo(&layers, Ok(false)), "Nothing to undo");
    assert_eq!(editor.selection.selected_operation_ids, ids(&[]));
    assert_eq!(editor.run_undo(&layers, failed()), "Undo failed: disk is full");
    assert_eq!(editor.run_redo(&layers, Ok(false)), "Nothing to redo");
    assert_eq!(editor.run_redo(&layers, failed()), "Redo failed: disk is full");
    assert_eq!((editor.layers.active_layer_id, editor.tiles.generation), (2, before));

    let renamed = vec![layer(1, "Ground"), layer(2, "Clouds")];
    assert_eq!(editor.run_undo(&renamed, Ok(true)), "Undone");
    assert_eq!((editor.layers.active_layer_id, editor.layers.name_edit.as_str()), (2, "Clouds"));
    assert_eq!(editor.tiles.generation, before + 1);

    assert_eq!(editor.run_redo(&vec![layer(1, "Ground")], Ok(true)), "Redone");
    assert_eq!((editor.layers.active_layer_id, editor.layers.name_edit.as_str()), (1, "Ground"));
}

#[test]
fn another_active_layer_drops_the_selection() {
    let mut editor = Editor::new(&vec![layer(1, "Ground")], 9, "Layer 1", vec![]);
    editor.selection.selected_operation_ids = ids(&[1]);
    assert_eq!(editor.activate_layer(1, "Soil".to_string()), None);
    assert_eq!(editor.layers.name_edit, "Soil");
    assert_eq!(editor.selection.selected_operation_ids, ids(&[1]));
    assert_eq!(editor.activate_layer(2, "Sky".to_string()), Some("Active layer changed"));
    assert_eq!(editor.selection.selected_operation_ids, ids(&[]));
}

#[test]
fn a_log_that_cannot_be_written_is_told() {
    assert_eq!(finish_session_logging(Ok(())), None);
    assert_eq!(
        finish_session_logging(failed()).as_deref(),
        Some("Session logging failed: disk is full")
    );
}
