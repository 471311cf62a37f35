//! What a frame asks for: keys, picked objects, tiles and windows.

use endless_sketch::bookmarks::{BookmarkAction, BookmarkRequests};
use endless_sketch::drafts::draft;
use endless_sketch::editor::Editor;
use endless_sketch::edits::finish_storage_commit_mode;
use endless_sketch::model::{CanvasPoint, Color, EditKind, EditOperation};
use endless_sketch::picking::{position_hits_selected, rectangle_matches, selected_message};
use endless_sketch::selection::RectangleSelectionMode;
use endless_sketch::selection_bounds::{
    selection_overlay_width_expansion, SelectionOverlayWidthHint,
};
use endless_sketch::selection_state::SelectionState;
use endless_sketch::shortcuts::{ClipboardCommand, ShortcutAction, ShortcutInput};
use endless_sketch::stress::query_groups;
use endless_sketch::tile_index::TileIndex;
use endless_sketch::tile_state::{LoadedTile, TileState};
use endless_sketch::tile_view::TileKey;
use num_bigint::BigInt;
use std::collections::HashSet;

fn tile(number: i64) -> TileIndex {
    TileIndex::from_signed_bytes_le(BigInt::from(number).to_signed_bytes_le())
}

fn number(index: &TileIndex) -> BigInt {
    BigInt::from_signed_bytes_le(&index.to_signed_bytes_le())
}

fn stroke(id: u128, object: Option<u128>, sequence: i64) -> EditOperation {
    let point = CanvasPoint::in_tile(0, &tile(0), &tile(0), 0, 0);
    let mut operation =
        draft(EditKind::Paint, 0, 0, vec![point], Color::rgba(0, 0, 0, 255), 0);
    operation.id = id;
    operation.fill_group_id = object;
    operation.sequence = sequence;
    operation
}

fn ids(list: &[u128]) -> HashSet<u128> {
    list.iter().copied().collect()
}

#[test]
fn a_rectangle_takes_whole_objects_or_all_it_crosses() {
    let operations = vec![
        stroke(1, None, 1),
        stroke(2, Some(9), 2),
        stroke(3, Some(9), 3),
        stroke(4, None, 4),
    ];
    let candidates = ids(&[1, 2, 3]);
    let hits = vec![true, true, false, true];
    assert_eq!(
        rectangle_matches(&operations, &candidates, &hits, RectangleSelectionMode::Crossing, 0),
        ids(&[1, 2])
    );
    assert_eq!(
        rectangle_matches(&operations, &candidates, &hits, RectangleSelectionMode::Inside, 0),
        ids(&[1])
    );
    let hits = vec![true, true, true, true];
    assert_eq!(
        rectangle_matches(&operations, &candidates, &hits, RectangleSelectionMode::Inside, 0),
        ids(&[1, 2, 3])
    );
    assert!(position_hits_selected(&operations, &ids(&[3]), &hits));
    assert!(!position_hits_selected(&operations, &ids(&[7]), &hits));
    assert!(!position_hits_selected(&operations, &ids(&[2]), &vec![true, false, true, true]));
}

#[test]
fn picked_objects_are_selected_and_counted() {
    let operations = vec![stroke(1, None, 1), stroke(2, Some(9), 2), stroke(3, Some(9), 3)];
    let mut selection = SelectionState::new();
    let told = selection.select_picked(&operations, &ids(&[2, 3]), false, false, true);
    assert_eq!(told, "Selected 1 objects");
    let told = selection.select_picked(&operations, &ids(&[1]), true, false, true);
    assert_eq!(told, "Selected 2 objects");
    assert_eq!(selection.selected_operation_ids, ids(&[1, 2, 3]));
    let told = selection.select_picked(&operations, &ids(&[2, 3]), false, true, false);
    assert_eq!(told, "Selected 1 objects");
    assert_eq!(selection.selected_operation_ids, ids(&[1]));
    assert_eq!(selected_message(0), "Selected 0 objects");
}

fn no_keys() -> ShortcutInput {
    ShortcutInput {
        text_focused: false,
        help: false,
        mark: false,
        logging: false,
        clipboard: None,
        escape: false,
        delete: false,
        undo: false,
        redo: false,
    }
}

#[test]
fn keys_act_in_a_fixed_order() {
    assert_eq!(no_keys().actions(), vec![ShortcutAction::ChooseTool]);
    let all = ShortcutInput {
        text_focused: false,
        help: true,
        mark: true,
        logging: true,
        clipboard: Some(ClipboardCommand::Cut),
        escape: true,
        delete: true,
        undo: true,
        redo: true,
    };
    assert_eq!(
        all.actions(),
        vec![
            ShortcutAction::ShowHelp,
            ShortcutAction::MarkLog,
            ShortcutAction::Clipboard(ClipboardCommand::Cut),
            ShortcutAction::ChooseTool,
            ShortcutAction::Cancel,
            ShortcutAction::Delete,
            ShortcutAction::Undo,
            ShortcutAction::Redo,
        ]
    );
    let unlogged = ShortcutInput { mark: true, ..no_keys() };
    assert_eq!(
        unlogged.actions(),
        vec![ShortcutAction::TellLoggingOff, ShortcutAction::ChooseTool]
    );
    let typing = ShortcutInput { text_focused: true, ..all };
    assert_eq!(
        typing.actions(),
        vec![
            ShortcutAction::Cancel,
            ShortcutAction::Delete,
            ShortcutAction::Undo,
            ShortcutAction::Redo,
        ]
    );
}

#[test]
fn the_window_of_bookmarks_adds_before_it_goes_anywhere() {
    let requests = BookmarkRequests {
        add: true,
        open: Some(3),
        rename: Some((4, "Home".to_owned())),
        delete: Some(5),
        close: true,
    };
    let actions = requests.actions();
    assert_eq!(actions.len(), 5);
    assert!(matches!(actions[0], BookmarkAction::Add));
    assert!(matches!(actions[1], BookmarkAction::Open(3)));
    assert!(matches!(&actions[2], BookmarkAction::Rename(4, name) if name == "Home"));
    assert!(matches!(actions[3], BookmarkAction::Delete(5)));
    assert!(matches!(actions[4], BookmarkAction::Close));
}

fn key(x: i64) -> TileKey {
    TileKey { depth: 0, x: tile(x), y: tile(0), lod: 0 }
}

#[test]
fn a_tile_is_painted_over_only_with_later_opaque_strokes() {
    let mut tiles = TileState::new();
    tiles.loaded.push(LoadedTile { key: key(1), revision: 4, snapshot_sequence: 2 });
    let operations = vec![stroke(1, None, 1), stroke(2, None, 2), stroke(3, None, 3)];
    let (base, newer) = tiles.incremental_update(&key(1), 5, &operations).expect("only strokes");
    assert_eq!(base, 4);
    assert_eq!(newer.iter().map(|operation| operation.id).collect::<Vec<_>>(), vec![3]);
    assert!(tiles.incremental_update(&key(1), 4, &operations).is_none());
    assert!(tiles.incremental_update(&key(2), 5, &operations).is_none());
    let mut erased = operations;
    erased[2].kind = EditKind::Erase;
    assert!(tiles.incremental_update(&key(1), 5, &erased).is_none());
}

#[test]
fn tiles_are_asked_for_when_nothing_pauses_them() {
    let mut tiles = TileState::new();
    assert!(tiles.may_request(false, 10, Some(100)));
    assert!(!tiles.may_request(true, 10, None));
    tiles.last_rebuild_interaction = Some(5);
    assert!(!tiles.may_request(false, 10, Some(100)));
    assert!(tiles.may_request(false, 10, None));
    tiles.drawing_pause = true;
    assert!(!tiles.may_request(false, 10, None));
}

#[test]
fn tiles_that_cannot_be_kept_are_told() {
    let mut editor = Editor::new(&vec![], 0, "Layer 1", vec![]);
    let before = editor.tiles.generation;
    assert!(editor.finish_tile_scheduler(Ok(())).is_none());
    assert_eq!(editor.tiles.generation, before + 1);
    let told = editor.finish_tile_scheduler(Err("full".to_owned()));
    assert_eq!(told.as_deref(), Some("Tile cache failed: full"));
    assert_eq!(editor.tiles.generation, before + 1);
    assert!(finish_storage_commit_mode(Ok(())).is_none());
    assert_eq!(
        finish_storage_commit_mode(Err("busy".to_owned())).as_deref(),
        Some("Storage commit setting failed: busy")
    );
}

#[test]
fn queries_go_to_the_tiles_around_the_origin() {
    let groups = query_groups(6);
    assert_eq!(groups.len(), 3);
    assert!(groups.iter().all(|group| group.len() == 49));
    assert_eq!(groups[0][0].depth, -6);
    assert_eq!(groups[2][48].depth, 6);
    assert_eq!((number(&groups[1][0].x), number(&groups[1][0].y)), (
        BigInt::from(-3),
        BigInt::from(-3)
    ));
    assert_eq!((number(&groups[1][8].x), number(&groups[1][8].y)), (
        BigInt::from(-2),
        BigInt::from(-2)
    ));
}

#[test]
fn the_widest_stroke_counts_for_the_selection() {
    let hint = |native_depth: i64, width: f32| SelectionOverlayWidthHint {
        native_depth,
        native_zoom: 1.0f64.to_bits(),
        width_px: width.to_bits(),
    };
    let width = |hint: SelectionOverlayWidthHint, depths: i32, zoom: u64| {
        let zoom = f64::from_bits(zoom) as f32;
        (f32::from_bits(hint.width_px) * zoom * 8.0f32.powi(depths)).to_bits()
    };
    let half_and_two = |width: u32| (f32::from_bits(width) * 0.5 + 2.0).to_bits();
    let expansion = |hints: Vec<SelectionOverlayWidthHint>, zoom: f64| {
        f32::from_bits(selection_overlay_width_expansion(
            &hints,
            0,
            zoom.to_bits(),
            &width,
            &half_and_two,
        ))
    };
    assert_eq!(expansion(vec![], 1.0), 3.0);
    assert_eq!(expansion(vec![hint(0, 1.0)], 1.0), 3.0);
    assert_eq!(expansion(vec![hint(0, 7.0), hint(-1, 3.0), hint(1, 100.0)], 1.0), 14.0);
    assert_eq!(expansion(vec![hint(0, 7.0)], 4.0), 16.0);
    // No stroke counts as wider than a hundred thousand points.
    assert_eq!(expansion(vec![hint(-40, 1.0)], 1.0), 50_002.0);
    assert_eq!(expansion(vec![hint(0, f32::NAN)], 1.0), 3.0);
}
