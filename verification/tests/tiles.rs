use endless_sketch::model::{CanvasPoint, Color, EditKind, EditOperation};
use endless_sketch::tile_index::TileIndex;
use endless_sketch::tile_jobs::TileConditions;
use endless_sketch::tile_requests::{
    depth_render_mode, depth_render_mode_label, incremental_paint_operations,
    repaint_interval_for_work, tile_fallback_mode, tile_fallback_mode_label,
    tile_generation_is_paused, tile_rebuild_deferred_since, tile_request_batch,
    zoom_tile_requests_deferred_since, DepthRenderMode, TileFallbackMode, VisibleDepthMode,
    MAX_TILE_JOBS_QUEUED_PER_FRAME, TILE_POLL_REPAINT_INTERVAL,
};
use endless_sketch::tile_state::{PauseNotice, TileResult, TileState};
use endless_sketch::tile_view::{TileKey, TileOrigin, TileWindow};
use num_bigint::BigInt;
use std::collections::HashSet;

const MILLISECOND: u64 = 1_000_000;

fn tile(number: i64) -> TileIndex {
    TileIndex::from_signed_bytes_le(BigInt::from(number).to_signed_bytes_le())
}

fn number(index: &TileIndex) -> BigInt {
    BigInt::from_signed_bytes_le(&index.to_signed_bytes_le())
}

fn key(x: i64, y: i64) -> TileKey {
    TileKey { depth: 0, x: tile(x), y: tile(y), lod: 1 }
}

fn origin(depth: i64) -> TileOrigin {
    TileOrigin { depth, tile_x: tile(0), tile_y: tile(0), lod: 3 }
}

/// The window of a view of one tile's size around the corner of four tiles.
fn small_window() -> TileWindow {
    TileWindow { min_x: -1, max_x: 0, min_y: -1, max_y: 0 }
}

fn operation(kind: EditKind, color: Color, sequence: i64) -> EditOperation {
    let place =
        CanvasPoint::in_tile(0, &tile(0), &tile(0), 0.5f64.to_bits(), 0.5f64.to_bits());
    EditOperation {
        id: sequence as u128,
        layer_id: 0,
        transaction_id: 1,
        sequence,
        kind,
        points: vec![place.clone(), place],
        color,
        width_px: 8.0f32.to_bits(),
        native_depth: 0,
        native_zoom: 1.0f64.to_bits(),
        smooth_area: false,
        fill_group_id: None,
        paint_order: None,
        affects_before_sequence: None,
        compact_sources: vec![],
    }
}

const BLACK: Color = Color { r: 0, g: 0, b: 0, a: 255 };
const WHITE: Color = Color { r: 255, g: 255, b: 255, a: 255 };

#[test]
fn tile_fallback_uses_only_operations_newer_than_the_oldest_retained_tile() {
    assert_eq!(
        tile_fallback_mode(8, &vec![Some((8, 12)), Some((8, 12))]),
        TileFallbackMode::Current
    );
    assert_eq!(
        tile_fallback_mode(8, &vec![Some((8, 12)), Some((7, 10)), Some((6, 7))]),
        TileFallbackMode::OverlayAfter(7)
    );
    assert_eq!(tile_fallback_mode(8, &vec![Some((8, 12)), None]), TileFallbackMode::Full);
    assert_eq!(tile_fallback_mode(8, &vec![Some((9, 12))]), TileFallbackMode::Full);
}

#[test]
fn distant_tiles_gate_only_distant_non_empty_views() {
    assert_eq!(depth_render_mode(VisibleDepthMode::Empty, true), DepthRenderMode::Empty);
    assert_eq!(depth_render_mode(VisibleDepthMode::Near, true), DepthRenderMode::VectorsNear);
    assert_eq!(depth_render_mode(VisibleDepthMode::Distant, true), DepthRenderMode::DistantTile);
    assert_eq!(depth_render_mode(VisibleDepthMode::Distant, false), DepthRenderMode::VectorsNear);
}

#[test]
fn incremental_tile_updates_accept_only_new_opaque_paint_operations() {
    let old = operation(EditKind::Paint, BLACK, 1);
    let first = operation(EditKind::Paint, BLACK, 2);
    let second = operation(EditKind::Paint, Color::rgba(200, 20, 20, 255), 3);

    let incremental =
        incremental_paint_operations(1, &vec![old.clone(), first.clone(), second.clone()])
            .expect("opaque Paint delta");
    assert_eq!(incremental.len(), 2);
    assert_eq!(incremental[0].sequence, 2);
    assert_eq!(incremental[1].sequence, 3);
    assert!(incremental_paint_operations(3, &vec![old, first, second])
        .expect("empty tile-local delta")
        .is_empty());
    let new_lower_layer = operation(EditKind::Paint, BLACK, 4);
    let old_upper_layer = operation(EditKind::Paint, BLACK, 3);
    assert!(
        incremental_paint_operations(3, &vec![new_lower_layer, old_upper_layer]).is_none(),
        "a new lower-layer operation is not a render-order suffix"
    );

    let transparent = operation(EditKind::Paint, Color::rgba(20, 20, 20, 128), 4);
    let erase = operation(EditKind::Erase, WHITE, 4);
    let fill = operation(EditKind::Fill, BLACK, 4);
    assert!(incremental_paint_operations(3, &vec![transparent]).is_none());
    assert!(incremental_paint_operations(3, &vec![erase]).is_none());
    assert!(incremental_paint_operations(3, &vec![fill]).is_none());
}

#[test]
fn manual_and_drawing_tile_pauses_are_independent() {
    assert!(!tile_generation_is_paused(false, false));
    assert!(tile_generation_is_paused(true, false));
    assert!(tile_generation_is_paused(false, true));
    assert!(tile_generation_is_paused(true, true));
}

#[test]
fn tile_requests_are_deferred_only_while_zoom_is_settling() {
    let now = 10_000 * MILLISECOND;
    let settle_interval = 180 * MILLISECOND;

    assert!(!zoom_tile_requests_deferred_since(None, now, settle_interval));

    let recent_zoom = now - settle_interval / 2;
    assert!(zoom_tile_requests_deferred_since(Some(recent_zoom), now, settle_interval));

    let settled_zoom = now - (settle_interval + MILLISECOND);
    assert!(!zoom_tile_requests_deferred_since(Some(settled_zoom), now, settle_interval));
}

#[test]
fn repaint_interval_prioritizes_interaction_over_tile_polling() {
    let preview_interval = 33 * MILLISECOND;
    assert_eq!(repaint_interval_for_work(false, false, false, false, preview_interval), None);
    assert_eq!(
        repaint_interval_for_work(true, false, false, false, preview_interval),
        Some(preview_interval)
    );
    assert_eq!(
        repaint_interval_for_work(false, true, false, false, preview_interval),
        Some(TILE_POLL_REPAINT_INTERVAL)
    );
    assert_eq!(
        repaint_interval_for_work(false, false, true, false, preview_interval),
        Some(preview_interval)
    );
    assert_eq!(
        repaint_interval_for_work(true, true, false, false, preview_interval),
        Some(preview_interval)
    );
    assert_eq!(
        repaint_interval_for_work(false, false, false, true, preview_interval),
        Some(preview_interval)
    );
    let slow_preview = 66 * MILLISECOND;
    assert_eq!(
        repaint_interval_for_work(false, true, false, false, slow_preview),
        Some(slow_preview)
    );
}

#[test]
fn rebuild_deferral_expires_after_idle_interval() {
    let now = 10_000 * MILLISECOND;
    let interval = 180 * MILLISECOND;
    let recent = now - (interval - MILLISECOND);
    let settled = now - (interval + MILLISECOND);

    assert!(tile_rebuild_deferred_since(Some(recent), now, interval));
    assert!(!tile_rebuild_deferred_since(Some(settled), now, interval));
    assert!(!tile_rebuild_deferred_since(None, now, interval));
}

#[test]
fn tile_requests_prioritize_visible_tiles_before_prefetch_rings() {
    let visible = origin(0).tile_keys_for_view(&small_window(), 0, 2);
    let radius_one = origin(0).tile_keys_for_view(&small_window(), 1, 2);
    let radius_two = origin(0).tile_keys_for_view(&small_window(), 2, 2);

    assert_eq!(visible.len(), 4);
    assert_eq!(radius_one.len(), 16);
    assert_eq!(radius_two.len(), 36);
    assert!(radius_one[..visible.len()] == visible[..]);
    assert!(radius_two[..visible.len()] == visible[..]);
    assert!(radius_two[..radius_one.len()] == radius_one[..]);
}

#[test]
fn tile_request_batch_limits_jobs_without_reordering() {
    let requested = origin(0).tile_keys_for_view(&small_window(), 2, 2);

    let batch = tile_request_batch(requested.clone());

    assert_eq!(batch.len(), MAX_TILE_JOBS_QUEUED_PER_FRAME);
    assert!(batch[..] == requested[..MAX_TILE_JOBS_QUEUED_PER_FRAME]);
}

#[test]
fn visible_tile_keys_preserve_extreme_camera_depths() {
    // A view of 1280 by 720 points, with tiles of 512 points, from the corner
    // where four tiles meet.
    let window = TileWindow { min_x: -2, max_x: 1, min_y: -1, max_y: 0 };
    for depth in [-1000, -100, 100, 1000] {
        let keys = origin(depth).tile_keys_for_view(&window, 2, 2);
        assert!(!keys.is_empty());
        assert!(keys.iter().all(|key| key.depth == depth));
        assert_eq!(
            keys.iter().map(|key| (number(&key.x), number(&key.y))).collect::<HashSet<_>>().len(),
            keys.len(),
            "depth={depth}"
        );
    }
}

#[test]
fn the_prefetch_radius_is_limited() {
    assert_eq!(origin(0).tile_keys_for_view(&small_window(), 9, 1).len(), 16);
}

#[test]
fn tiles_lie_around_the_camera_however_far_it_is() {
    let far = BigInt::from(10u8).pow(40);
    let place = TileOrigin {
        depth: 7,
        tile_x: TileIndex::from_signed_bytes_le(far.to_signed_bytes_le()),
        tile_y: tile(-3),
        lod: 0,
    };
    let keys = place.tile_keys_for_view(
        &TileWindow { min_x: 2, max_x: 2, min_y: -1, max_y: -1 },
        0,
        2,
    );
    assert_eq!(keys.len(), 1);
    assert_eq!(number(&keys[0].x), far + 2);
    assert_eq!(number(&keys[0].y), BigInt::from(-4));
}

#[test]
fn modes_have_labels() {
    assert_eq!(tile_fallback_mode_label(TileFallbackMode::Current), "current");
    assert_eq!(tile_fallback_mode_label(TileFallbackMode::OverlayAfter(3)), "overlay_after");
    assert_eq!(tile_fallback_mode_label(TileFallbackMode::Full), "full");
    assert_eq!(depth_render_mode_label(DepthRenderMode::Empty), "empty");
    assert_eq!(depth_render_mode_label(DepthRenderMode::VectorsNear), "vectors_near");
    assert_eq!(depth_render_mode_label(DepthRenderMode::DistantTile), "distant_tile");
}

#[test]
fn a_tile_is_asked_for_once_and_shown_when_it_comes() {
    let mut state = TileState::new();
    let wanted = vec![key(0, 0), key(1, 0)];
    assert!(state.set_requested(&wanted, 4));
    assert!(!state.set_requested(&wanted, 4));
    assert!(state.tiles_to_request(&wanted, 4) == wanted);
    state.note_requested(&wanted[0], 4);
    assert!(state.tiles_to_request(&wanted, 4) == vec![key(1, 0)]);

    let generation = state.generation;
    assert_eq!(state.accept_result(key(0, 0), 4, generation, 11, true), TileResult::Shown);
    assert_eq!(state.loaded_snapshot(&key(0, 0)), Some((4, 11)));
    assert_eq!(state.loaded_snapshot(&key(1, 0)), None);
    assert_eq!(state.snapshots(&wanted), vec![Some((4, 11)), None]);
    assert_eq!(
        state.accept_result(key(0, 0), 4, generation.wrapping_add(1), 11, true),
        TileResult::Stale
    );
}

#[test]
fn pausing_tiles_is_announced() {
    let mut state = TileState::new();
    assert_eq!(state.apply_tile_generation_pause(true), PauseNotice::Paused);
    assert_eq!(state.apply_tile_generation_pause(false), PauseNotice::Resumed);
    assert!(state.begin_drawing_tile_pause(true));
    assert!(!state.begin_drawing_tile_pause(true));
    assert_eq!(state.apply_tile_generation_pause(false), PauseNotice::PausedWhileDrawing);
    assert!(state.end_drawing_tile_pause());
    assert!(!state.end_drawing_tile_pause());
}

#[test]
fn only_distant_views_at_rest_render_tiles() {
    let mut state = TileState::new();
    let wanted: Vec<TileKey> = (0..6).map(|x| key(x, 0)).collect();
    state.set_requested(&wanted, 1);
    let rests = TileConditions {
        mode: depth_render_mode(VisibleDepthMode::Distant, true),
        settling: false,
        manual_pause: false,
        now: 10 * MILLISECOND,
        idle_interval: None,
    };
    let rendered = |state: &TileState, conditions: TileConditions| {
        state.tiles_to_render(&conditions, &wanted, 1)
    };
    assert!(rendered(&state, rests) == wanted[..4].to_vec());
    for visible in [VisibleDepthMode::Near, VisibleDepthMode::Empty] {
        let mode = depth_render_mode(visible, true);
        assert!(rendered(&state, TileConditions { mode, ..rests }).is_empty());
    }
    let mode = depth_render_mode(VisibleDepthMode::Distant, false);
    assert!(rendered(&state, TileConditions { mode, ..rests }).is_empty());
    assert!(rendered(&state, TileConditions { settling: true, ..rests }).is_empty());
    assert!(rendered(&state, TileConditions { manual_pause: true, ..rests }).is_empty());

    let idle_interval = Some(5 * MILLISECOND);
    state.update_rebuild_interaction(true, 7 * MILLISECOND, idle_interval);
    assert!(rendered(&state, TileConditions { idle_interval, ..rests }).is_empty());
    let later = TileConditions { idle_interval, now: 12 * MILLISECOND, ..rests };
    assert_eq!(rendered(&state, later).len(), 4);

    state.begin_drawing_tile_pause(true);
    assert!(rendered(&state, later).is_empty());
}
