use endless_sketch::brushwork::{
    Brushwork, OperationPaintContext, PaintSettings, PaintedShape,
};
use endless_sketch::camera::CameraAddress;
use endless_sketch::fallback::{
    area_saved_fallback_render_points, auto_fast_stroke_fallback_active,
    consume_segmented_fallback_budget,
    fallback_operation_limit, fallback_operation_skip_count, fill_fallback_render_points,
    large_selection_fast_overlay_active, segmented_fallback_shape_count,
    should_paint_fill_fallback, smooth_saved_fallback, stroke_fallback_fast_endpoint_caps,
    stroke_fallback_segmented_point_limit, stroke_fallback_shapes,
    stroke_fallback_smoothing_passes, FallbackFrameStats, StrokeFallbackJoinMode, StrokeShape,
    AUTO_SEGMENTED_FALLBACK_POINTS, MAX_FALLBACK_SMOOTHING_INPUT_POINTS,
    MAX_FALLBACK_SMOOTHING_OUTPUT_POINTS, MAX_SEGMENTED_FALLBACK_SHAPES_PER_FRAME,
    QUALITY_SEGMENTED_FALLBACK_POINTS,
};
use endless_sketch::highlights::selection_highlight_render_points;
use endless_sketch::model::{CanvasPoint, Color, EditKind, EditOperation};
use endless_sketch::projection::{
    paint_groups, paint_stroke_runs, project_operations, projection_stats,
    FallbackPaintOperation, Projection, StrokeRun,
};
use endless_sketch::render_cache::{
    saved_fallback_operation_key, OperationBoundsCache, RenderStyle, SavedFallbackRenderCache,
    SavedFallbackRenderFrameKey, SavedFallbackRenderOperationKey,
};
use endless_sketch::renderer::{FallbackRenderer, OperationBounds};
use endless_sketch::scanlines::Span;
use endless_sketch::screen::{Position, ScreenRect};
use endless_sketch::tile_index::TileIndex;
use endless_sketch::tile_requests::TileFallbackMode;
use endless_sketch::tile_view::TileKey;
use num_bigint::BigInt;

const BLACK: Color = Color { r: 0, g: 0, b: 0, a: 255 };
const SMOOTH: RenderStyle = RenderStyle {
    stroke_fallback_joins: StrokeFallbackJoinMode::Auto,
    auto_fast_stroke_fallback: false,
    smoothing_passes: 1,
};

fn tile(number: i64) -> TileIndex {
    TileIndex::from_signed_bytes_le(BigInt::from(number).to_signed_bytes_le())
}

fn at(x: f32, y: f32) -> Position {
    Position { x: x.to_bits(), y: y.to_bits() }
}

fn places(points: &[Position]) -> Vec<(f32, f32)> {
    points.iter().map(|point| (f32::from_bits(point.x), f32::from_bits(point.y))).collect()
}

fn point_at(tile_number: i64, x: f64, y: f64) -> CanvasPoint {
    CanvasPoint::in_tile(0, &tile(tile_number), &tile(tile_number), x.to_bits(), y.to_bits())
}

fn operation(id: u128, kind: EditKind, points: Vec<CanvasPoint>) -> EditOperation {
    EditOperation {
        id,
        layer_id: 0,
        transaction_id: 1,
        sequence: 0,
        kind,
        points,
        color: BLACK,
        width_px: 8.0f32.to_bits(),
        native_depth: 0,
        native_zoom: 1.0f64.to_bits(),
        smooth_area: false,
        fill_group_id: None,
        paint_order: None,
        affects_before_sequence: None,
        compact_sources: vec![],
    }
}

fn dot(id: u128) -> EditOperation {
    operation(id, EditKind::Paint, vec![point_at(0, 0.0, 0.0), point_at(0, 0.0, 0.0)])
}

fn triangle(id: u128) -> EditOperation {
    operation(
        id,
        EditKind::Fill,
        vec![point_at(0, 0.25, 0.25), point_at(0, 0.75, 0.25), point_at(0, 0.75, 0.75)],
    )
}

fn camera() -> CameraAddress {
    CameraAddress {
        depth: 0,
        tile_x: tile(0),
        tile_y: tile(0),
        local_x: 0.0f64.to_bits(),
        local_y: 0.0f64.to_bits(),
        zoom: 1.0f64.to_bits(),
    }
}

fn frame_at(camera: CameraAddress) -> SavedFallbackRenderFrameKey {
    SavedFallbackRenderFrameKey {
        camera,
        rect: ScreenRect { min: at(0.0, 0.0), max: at(512.0, 512.0) },
        smoothing: 1,
        stroke_fallback_joins: StrokeFallbackJoinMode::Auto,
        fill_fallback_max_points: 512,
    }
}

/// The tiles of an operation's points, as wide as its first and last point.
fn bounds_of(operation: &EditOperation) -> Option<OperationBounds> {
    let first = operation.points.first()?;
    let last = operation.points.last()?;
    Some(OperationBounds {
        depth: first.depth,
        min_x: first.tile_x.clone(),
        max_x: last.tile_x.clone(),
        min_y: first.tile_y.clone(),
        max_y: last.tile_y.clone(),
    })
}

/// Whether bounds reach a view of a few tiles around the first one.
fn near_origin(_: &EditOperation, bounds: &OperationBounds) -> bool {
    let number =
        |index: &TileIndex| BigInt::from_signed_bytes_le(&index.to_signed_bytes_le());
    number(&bounds.min_x) < BigInt::from(4) && number(&bounds.max_x) > BigInt::from(-4)
}

/// The distances between neighbours, in place of the points themselves.
fn distances(points: &[(f32, f32)]) -> Vec<u32> {
    points
        .windows(2)
        .map(|pair| {
            let (dx, dy) = (pair[1].0 - pair[0].0, pair[1].1 - pair[0].1);
            (dx * dx + dy * dy).sqrt().to_bits()
        })
        .collect()
}

fn wave(count: usize) -> Vec<(f32, f32)> {
    (0..count).map(|index| (index as f32, (index % 7) as f32)).collect()
}

fn shapes_of(
    points: &[(f32, f32)],
    mode: StrokeFallbackJoinMode,
    fast: bool,
) -> (Vec<StrokeShape>, FallbackFrameStats) {
    stroke_fallback_shapes(
        points.len(),
        &distances(points),
        stroke_fallback_segmented_point_limit(mode, fast),
        stroke_fallback_fast_endpoint_caps(mode, fast),
    )
}

const BEND: [(f32, f32); 3] = [(0.0, 0.0), (12.0, 16.0), (28.0, 3.0)];

#[test]
fn dense_stroke_fallback_keeps_raw_points_and_uses_fast_shapes() {
    let points = wave(QUALITY_SEGMENTED_FALLBACK_POINTS + 1);

    let (shapes, stats) = shapes_of(&points, StrokeFallbackJoinMode::Quality, false);

    assert_eq!(shapes.len(), 3);
    assert_eq!(stats.stroke_shape_count, 3);
    assert_eq!(stats.segmented_strokes, 0);
    assert_eq!(stats.fast_strokes, 1);
    // One line through all the points, and a dot at either end.
    assert_eq!(
        shapes,
        vec![
            StrokeShape::Line,
            StrokeShape::Dot(0),
            StrokeShape::Dot(QUALITY_SEGMENTED_FALLBACK_POINTS),
        ]
    );
}

#[test]
fn segmented_fallback_budget_downgrades_over_budget_runs() {
    let limit = stroke_fallback_segmented_point_limit(StrokeFallbackJoinMode::Quality, false);
    let mut budget = 7;

    let (first_limit, first_downgraded) = consume_segmented_fallback_budget(4, limit, &mut budget);
    assert_eq!(first_limit, limit);
    assert!(!first_downgraded);
    assert_eq!(budget, 0);

    let (second_limit, second_downgraded) =
        consume_segmented_fallback_budget(3, limit, &mut budget);
    assert_eq!(second_limit, None);
    assert!(second_downgraded);

    let (dense_limit, dense_downgraded) =
        consume_segmented_fallback_budget(QUALITY_SEGMENTED_FALLBACK_POINTS + 1, limit, &mut budget);
    assert_eq!(dense_limit, limit);
    assert!(!dense_downgraded);
}

#[test]
fn large_selection_overlay_simplifies_only_during_interaction() {
    assert!(!large_selection_fast_overlay_active(511, true, false));
    assert!(!large_selection_fast_overlay_active(512, false, false));
    assert!(!large_selection_fast_overlay_active(512, true, true));
    assert!(large_selection_fast_overlay_active(512, true, false));
    assert!(large_selection_fast_overlay_active(900, true, false));
}

#[test]
fn auto_saved_stroke_fallback_uses_segment_capsule_shapes_without_active_draft() {
    let (shapes, stats) = shapes_of(&BEND, StrokeFallbackJoinMode::Auto, false);

    assert_eq!(shapes.len(), 5);
    assert_eq!(stats.stroke_shape_count, 5);
    assert_eq!(stats.segmented_strokes, 1);
    assert_eq!(stats.fast_strokes, 0);
    assert!(matches!(shapes[0], StrokeShape::Segment(_)));
    assert!(matches!(shapes[1], StrokeShape::Segment(_)));
    assert!(matches!(shapes[2], StrokeShape::Dot(_)));
    assert!(matches!(shapes[3], StrokeShape::Dot(_)));
    assert!(matches!(shapes[4], StrokeShape::Dot(_)));
}

fn assert_one_line(auto_fast_path: bool) {
    let (shapes, stats) = shapes_of(&BEND, StrokeFallbackJoinMode::Auto, auto_fast_path);

    assert_eq!(shapes.len(), 1);
    assert_eq!(stats.stroke_shape_count, 1);
    assert_eq!(stats.segmented_strokes, 0);
    assert_eq!(stats.fast_strokes, 1);
    assert!(matches!(shapes[0], StrokeShape::Line));
}

#[test]
fn auto_saved_stroke_fallback_uses_fast_shapes_with_active_draft() {
    assert_one_line(true);
}

#[test]
fn auto_saved_stroke_fallback_uses_fast_shapes_during_interaction() {
    assert_one_line(auto_fast_stroke_fallback_active(true, false, false));
}

#[test]
fn auto_saved_stroke_fallback_uses_fast_shapes_while_tiles_are_pending() {
    assert_one_line(auto_fast_stroke_fallback_active(false, true, false));
}

#[test]
fn manual_tile_pause_keeps_idle_saved_stroke_smoothing() {
    let auto_fast_path = auto_fast_stroke_fallback_active(false, false, true);

    assert!(!auto_fast_path);
    assert_eq!(
        stroke_fallback_smoothing_passes(StrokeFallbackJoinMode::Auto, auto_fast_path, 3),
        3
    );
}

#[test]
fn fallback_operation_budget_uses_visible_setting() {
    // At first and in the balanced profile there is no limit, which is written as
    // zero.
    let (first, performance, balanced) = (0, 1_500, 0);
    assert_eq!(fallback_operation_limit(first, TileFallbackMode::Full), None);

    assert_eq!(fallback_operation_limit(performance, TileFallbackMode::Full), Some(1_500));
    assert_eq!(fallback_operation_limit(performance, TileFallbackMode::Current), None);

    assert_eq!(fallback_operation_limit(balanced, TileFallbackMode::Full), None);

    assert_eq!(fallback_operation_limit(777, TileFallbackMode::OverlayAfter(10)), Some(777));
}

#[test]
fn fallback_operation_budget_skips_oldest_visible_operations() {
    assert_eq!(fallback_operation_skip_count(10, None), 0);
    assert_eq!(fallback_operation_skip_count(10, Some(12)), 0);
    assert_eq!(fallback_operation_skip_count(10, Some(4)), 6);
}

#[test]
fn operation_screen_cull_rejects_definitely_offscreen_fallback_operations() {
    let visible = dot(1);
    let mut cache = OperationBoundsCache::new();
    let visible_lookup =
        cache.operation_may_intersect_screen_rect(&visible, &bounds_of, &near_origin);
    assert!(!visible_lookup.cache_hit);
    assert!(visible_lookup.may_intersect);
    assert_eq!(cache.len(), 1);

    let repeated_lookup =
        cache.operation_may_intersect_screen_rect(&visible, &bounds_of, &near_origin);
    assert!(repeated_lookup.cache_hit);
    assert!(repeated_lookup.may_intersect);

    let offscreen = operation(
        2,
        EditKind::Paint,
        vec![point_at(100, 0.0, 0.0), point_at(100, 0.2, 0.2)],
    );
    let mut compact = operation(3, EditKind::CompactBlock, offscreen.points.clone());
    compact.compact_sources = vec![offscreen];
    let compact_source = compact.compact_sources.first().expect("compact source");
    let compact_source_lookup =
        cache.operation_may_intersect_screen_rect(compact_source, &bounds_of, &near_origin);
    assert!(!compact_source_lookup.cache_hit);
    assert!(!compact_source_lookup.may_intersect);
    assert_eq!(cache.len(), 2);
}

#[test]
fn operation_bounds_cache_survives_navigation_anchor_reset_and_explicitly_clears() {
    let stroke = dot(1);
    let mut bounds_cache = OperationBoundsCache::new();
    let first = bounds_cache.operation_may_intersect_screen_rect(&stroke, &bounds_of, &near_origin);
    assert!(!first.cache_hit);

    // Seen from far away nothing comes into view, but the bounds are known.
    let after_anchor_reset =
        bounds_cache.operation_may_intersect_screen_rect(&stroke, &bounds_of, &|_, _| false);
    assert!(after_anchor_reset.cache_hit);
    assert!(!after_anchor_reset.may_intersect);
    assert_eq!(bounds_cache.len(), 1);

    bounds_cache.clear();
    assert_eq!(bounds_cache.len(), 0);
    let after_clear =
        bounds_cache.operation_may_intersect_screen_rect(&stroke, &bounds_of, &|_, _| false);
    assert!(!after_clear.cache_hit);
}

fn project(renderer: &mut FallbackRenderer, operations: &Vec<EditOperation>) -> Projection {
    project_operations(
        operations,
        None,
        None,
        true,
        SMOOTH,
        &renderer.saved_render_cache,
        &mut renderer.operation_bounds_cache,
        &bounds_of,
        &near_origin,
    )
}

#[test]
fn fallback_renderer_centralizes_frame_and_invalidation_lifecycle() {
    let operation_key = SavedFallbackRenderOperationKey {
        scope_id: 0,
        operation_id: 0,
        sequence: 1,
        render_variant: 0,
    };
    let stroke = dot(1);
    let mut renderer = FallbackRenderer::new();
    let operations = vec![stroke.clone()];

    renderer.begin_frame(frame_at(camera()));
    renderer.saved_render_cache.insert(operation_key, vec![at(0.0, 0.0), at(1.0, 1.0)]);
    let bounds = renderer.operation_bounds_cache.operation_may_intersect_screen_rect(
        &stroke,
        &bounds_of,
        &near_origin,
    );
    assert!(!bounds.cache_hit);
    renderer.segmented_shape_budget_remaining = 0;

    renderer.begin_frame(frame_at(camera()));
    assert_eq!(renderer.saved_render_cache.cached_operation_count(), 1);
    assert_eq!(renderer.operation_bounds_cache.len(), 1);
    assert_eq!(
        renderer.segmented_shape_budget_remaining,
        MAX_SEGMENTED_FALLBACK_SHAPES_PER_FRAME
    );

    let mut moved_camera = camera();
    moved_camera.tile_x = tile(100);
    renderer.begin_frame(frame_at(moved_camera));
    assert_eq!(renderer.saved_render_cache.cached_operation_count(), 0);
    assert_eq!(renderer.operation_bounds_cache.len(), 1);

    let visible_tiles = Vec::new();
    let (visible, first_visible_cache_hit) =
        renderer.visible_operations(1, &visible_tiles, &|| vec![0]);
    assert!(!first_visible_cache_hit);
    assert_eq!(visible.len(), 1);
    let (cached_visible, repeated_visible_cache_hit) =
        renderer.visible_operations(1, &visible_tiles, &|| {
            panic!("same visible-operation cache key should not query again")
        });
    assert!(repeated_visible_cache_hit);
    assert_eq!(cached_visible.len(), 1);

    renderer.begin_frame(frame_at(camera()));
    renderer.operation_bounds_cache.clear();
    let first = project(&mut renderer, &operations);
    assert_eq!(first.items.len(), 1);
    assert_eq!(first.skipped, 0);
    assert!(matches!(first.items.first(), Some(FallbackPaintOperation::Projected { .. })));
    assert_eq!(first.stats.projected_operations, 1);
    assert_eq!(first.stats.fallback_bounds_cache_hits, 0);
    assert_eq!(first.stats.fallback_bounds_cache_misses, 1);

    let derived_key = saved_fallback_operation_key(stroke.id, &stroke, SMOOTH);
    renderer.saved_render_cache.insert(derived_key, vec![at(0.0, 0.0), at(1.0, 1.0)]);
    let derived = project(&mut renderer, &operations);
    assert!(matches!(derived.items.first(), Some(FallbackPaintOperation::CachedDerived { .. })));
    assert_eq!(derived.stats.fallback_cache_hits, 1);
    assert_eq!(derived.stats.projected_operations, 0);
    assert_eq!(derived.stats.fallback_bounds_cache_hits, 0);
    assert_eq!(derived.stats.fallback_bounds_cache_misses, 0);

    let mut zoomed_camera = camera();
    zoomed_camera.zoom = 1.1f64.to_bits();
    renderer.begin_frame(frame_at(zoomed_camera));
    let warmed = project(&mut renderer, &operations);
    assert_eq!(warmed.stats.fallback_bounds_cache_hits, 1);
    assert_eq!(warmed.stats.fallback_bounds_cache_misses, 0);

    renderer.clear();
    assert_eq!(renderer.saved_render_cache.cached_operation_count(), 0);
    assert_eq!(renderer.operation_bounds_cache.len(), 0);
    assert_eq!(
        renderer.segmented_shape_budget_remaining,
        MAX_SEGMENTED_FALLBACK_SHAPES_PER_FRAME
    );
    let (visible, visible_cache_hit) =
        renderer.visible_operations(1, &visible_tiles, &|| Vec::new());
    assert!(!visible_cache_hit);
    assert!(visible.is_empty());
}

#[test]
fn other_tiles_or_another_revision_are_looked_up_anew() {
    let mut renderer = FallbackRenderer::new();
    let here = vec![TileKey { depth: 0, x: tile(1), y: tile(2), lod: 0 }];
    let there = vec![TileKey { depth: 0, x: tile(1), y: tile(3), lod: 0 }];
    assert_eq!(renderer.visible_operations(1, &here, &|| vec![4]), (vec![4], false));
    assert_eq!(renderer.visible_operations(1, &here, &|| vec![5]), (vec![4], true));
    assert_eq!(renderer.visible_operations(2, &here, &|| vec![6]), (vec![6], false));
    assert_eq!(renderer.visible_operations(2, &there, &|| vec![7]), (vec![7], false));
}

#[test]
fn saved_fallback_render_cache_keys_on_frame_identity() {
    let operation_key = SavedFallbackRenderOperationKey {
        scope_id: 0,
        operation_id: 0,
        sequence: 42,
        render_variant: 0,
    };
    let points = vec![at(1.0, 2.0), at(3.0, 4.0)];
    let mut cache = SavedFallbackRenderCache::new();

    cache.begin_frame(frame_at(camera()));
    cache.insert(operation_key, points.clone());
    cache.insert_clipped_stroke_runs(operation_key, vec![points.clone()]);
    cache.insert_clipped_area_polygon(operation_key, points.clone());
    assert_eq!(places(cache.get(operation_key).expect("cached points")), places(&points));
    let runs = cache.get_clipped_stroke_runs(operation_key).expect("cached clipped stroke runs");
    assert_eq!(runs.len(), 1);
    assert_eq!(places(&runs[0]), places(&points));
    assert_eq!(
        places(cache.get_clipped_area_polygon(operation_key).expect("cached clipped area")),
        places(&points)
    );

    cache.begin_frame(frame_at(camera()));
    assert_eq!(cache.cached_operation_count(), 1);
    assert!(cache.get_clipped_stroke_runs(operation_key).is_some());
    assert!(cache.get_clipped_area_polygon(operation_key).is_some());

    let transformed_key = SavedFallbackRenderOperationKey {
        scope_id: 0,
        operation_id: 9,
        sequence: 43,
        render_variant: 0,
    };
    assert!(cache.insert_transformed_from(operation_key, transformed_key, &|point: Position| {
        at(f32::from_bits(point.x) + 10.0, f32::from_bits(point.y) - 1.0)
    }));
    assert_eq!(
        places(cache.get(transformed_key).expect("transformed cached points")),
        vec![(11.0, 1.0), (13.0, 3.0)]
    );
    assert!(cache.clipped_stroke_runs.get(transformed_key).is_none());
    assert!(cache.clipped_area_polygons.get(transformed_key).is_none());

    cache.begin_frame(frame_at(camera()));
    assert_eq!(cache.cached_operation_count(), 2);
    assert_eq!(places(cache.get(operation_key).expect("revision-only hit")), places(&points));
    assert!(cache.get_clipped_stroke_runs(operation_key).is_some());
    assert!(cache.get_clipped_area_polygon(operation_key).is_some());

    let mut moved_camera = camera();
    moved_camera.local_x = 0.01f64.to_bits();
    cache.begin_frame(frame_at(moved_camera));
    assert_eq!(cache.cached_operation_count(), 0);
    assert!(cache.get(operation_key).is_none());
    assert!(cache.get_clipped_stroke_runs(operation_key).is_none());
    assert!(cache.get_clipped_area_polygon(operation_key).is_none());
}

#[test]
fn saved_fallback_fast_path_state_does_not_clear_frame_cache() {
    let stroke = operation(
        1,
        EditKind::Paint,
        vec![point_at(0, 0.1, 0.1), point_at(0, 0.2, 0.2)],
    );
    let strong = RenderStyle { smoothing_passes: 3, ..SMOOTH };
    let quality_key = saved_fallback_operation_key(stroke.id, &stroke, strong);
    let fast_key = saved_fallback_operation_key(
        stroke.id,
        &stroke,
        RenderStyle { auto_fast_stroke_fallback: true, ..strong },
    );
    assert_ne!(quality_key.render_variant, fast_key.render_variant);

    let mut cache = SavedFallbackRenderCache::new();
    cache.begin_frame(frame_at(camera()));
    cache.insert(quality_key, vec![at(1.0, 2.0)]);
    cache.begin_frame(frame_at(camera()));
    assert_eq!(cache.cached_operation_count(), 1);
    assert!(cache.get(quality_key).is_some());
    assert!(cache.get(fast_key).is_none());

    let mut quality_frame = frame_at(camera());
    quality_frame.stroke_fallback_joins = StrokeFallbackJoinMode::Quality;
    cache.begin_frame(quality_frame);
    assert_eq!(cache.cached_operation_count(), 0);
}

#[test]
fn quality_saved_stroke_fallback_segments_up_to_quality_limit() {
    let points = wave(QUALITY_SEGMENTED_FALLBACK_POINTS);

    let (shapes, stats) = shapes_of(&points, StrokeFallbackJoinMode::Quality, true);

    assert_eq!(shapes.len(), QUALITY_SEGMENTED_FALLBACK_POINTS * 2 - 1);
    assert_eq!(stats.segmented_strokes, 1);
    assert_eq!(stats.fast_strokes, 0);
    assert!(matches!(shapes[0], StrokeShape::Segment(_)));
}

#[test]
fn performance_saved_stroke_fallback_always_uses_fast_shapes() {
    let points = wave(AUTO_SEGMENTED_FALLBACK_POINTS);

    let (shapes, stats) = shapes_of(&points, StrokeFallbackJoinMode::Performance, false);

    assert_eq!(shapes.len(), 1);
    assert_eq!(stats.stroke_shape_count, 1);
    assert_eq!(stats.segmented_strokes, 0);
    assert_eq!(stats.fast_strokes, 1);
    assert!(matches!(shapes[0], StrokeShape::Line));
}

#[test]
fn fast_saved_stroke_fallback_skips_smoothing_passes() {
    assert_eq!(stroke_fallback_smoothing_passes(StrokeFallbackJoinMode::Auto, false, 3), 3);
    assert_eq!(stroke_fallback_smoothing_passes(StrokeFallbackJoinMode::Auto, true, 3), 0);
    assert_eq!(stroke_fallback_smoothing_passes(StrokeFallbackJoinMode::Quality, true, 3), 3);
    assert_eq!(stroke_fallback_smoothing_passes(StrokeFallbackJoinMode::Performance, false, 3), 0);
}

fn part(from: Position, to: Position, share: f32) -> Position {
    let mix = |from: u32, to: u32| {
        f32::from_bits(from) + (f32::from_bits(to) - f32::from_bits(from)) * share
    };
    at(mix(from.x, to.x), mix(from.y, to.y))
}

/// Cuts the corners of a path, except its ends.
fn cut_corners(points: &Vec<Position>, passes: usize) -> Vec<Position> {
    let mut path = points.clone();
    for _ in 0..passes {
        let mut cut = vec![path[0]];
        for pair in path.windows(2) {
            cut.push(part(pair[0], pair[1], 0.25));
            cut.push(part(pair[0], pair[1], 0.75));
        }
        cut.push(path[path.len() - 1]);
        path = cut;
    }
    path
}

/// Cuts all corners of a closed outline, which ends where it begins.
fn cut_closed_corners(points: &Vec<Position>, passes: usize) -> Vec<Position> {
    let mut outline = points.clone();
    for _ in 0..passes {
        let mut cut = Vec::new();
        for pair in outline.windows(2) {
            cut.push(part(pair[0], pair[1], 0.25));
            cut.push(part(pair[0], pair[1], 0.75));
        }
        cut.push(cut[0]);
        outline = cut;
    }
    outline
}

#[test]
fn saved_fallback_smoothing_is_curved_and_bounded() {
    let points = vec![at(0.0, 0.0), at(10.0, 10.0), at(20.0, 0.0)];
    let smoothed = smooth_saved_fallback(points.clone(), 2, &cut_corners);

    assert!(smoothed.len() > points.len());
    assert!(!places(&smoothed).contains(&(10.0, 10.0)));
    assert_eq!(
        places(&smooth_saved_fallback(points.clone(), 0, &cut_corners)),
        places(&points)
    );

    let oversized: Vec<Position> = (0..=MAX_FALLBACK_SMOOTHING_INPUT_POINTS)
        .map(|index| at(index as f32, (index % 2) as f32))
        .collect();
    assert_eq!(
        places(&smooth_saved_fallback(oversized.clone(), 3, &cut_corners)),
        places(&oversized)
    );
}

#[test]
fn selection_highlight_uses_saved_fallback_render_geometry() {
    let points = vec![at(0.0, 0.0), at(10.0, 10.0), at(20.0, 0.0)];
    let operation = operation(1, EditKind::Paint, vec![]);

    let highlighted = selection_highlight_render_points(
        &operation,
        points.clone(),
        2,
        64,
        &cut_corners,
        &cut_closed_corners,
    );

    assert_eq!(
        places(&highlighted),
        places(&smooth_saved_fallback(points.clone(), 2, &cut_corners))
    );
    assert_ne!(places(&highlighted), places(&points));
}

#[test]
fn paths_that_come_out_too_long_are_drawn_unsmoothed() {
    let long: Vec<Position> = (0..MAX_FALLBACK_SMOOTHING_INPUT_POINTS)
        .map(|index| at(index as f32, (index % 2) as f32))
        .collect();
    assert!(cut_corners(&long, 2).len() > MAX_FALLBACK_SMOOTHING_OUTPUT_POINTS);
    let drawn = smooth_saved_fallback(long.clone(), 2, &cut_corners);
    assert_eq!(places(&drawn), places(&long));
    assert_eq!(
        smooth_saved_fallback(long.clone(), 1, &cut_corners).len(),
        MAX_FALLBACK_SMOOTHING_OUTPUT_POINTS
    );
}

fn square() -> Vec<Position> {
    vec![at(0.0, 0.0), at(10.0, 0.0), at(10.0, 10.0), at(0.0, 10.0), at(0.0, 0.0)]
}

#[test]
fn saved_area_fallback_preserves_sharp_polygon_corners() {
    let rendered = area_saved_fallback_render_points(&square(), 64, 0, &cut_closed_corners);

    assert_eq!(places(&rendered), places(&square()));
    let count = rendered.len();
    assert!(smooth_saved_fallback(rendered, 3, &cut_closed_corners).len() > count);
}

#[test]
fn freehand_area_fallback_smooths_closed_corners() {
    let rendered = area_saved_fallback_render_points(&square(), 64, 2, &cut_closed_corners);

    assert!(rendered.len() > square().len());
    assert!(!places(&rendered).contains(&(10.0, 0.0)));
}

#[test]
fn saved_area_fallback_samples_without_screen_space_simplification() {
    let points = vec![
        at(0.0, 0.0),
        at(0.05, 0.0),
        at(0.10, 0.0),
        at(0.15, 0.0),
        at(1.0, 1.0),
        at(2.0, 0.0),
        at(0.0, 0.0),
    ];

    let rendered = area_saved_fallback_render_points(&points, 4, 0, &cut_closed_corners);

    assert_eq!(places(&rendered), places(&[points[0], points[1], points[3], points[5]]));
}

#[test]
fn fill_fallback_render_points_are_derived_and_bounded() {
    let points: Vec<_> = (0..20).map(|index| at(index as f32, 0.0)).collect();
    let rendered = fill_fallback_render_points(&points, 8);

    assert_eq!(points.len(), 20);
    assert!(rendered.len() <= 8);
    assert_eq!(places(&rendered).first(), places(&points).first());
    assert!(places(&rendered).windows(2).all(|pair| pair[0] != pair[1]));
}

#[test]
fn fill_fallback_is_disabled_far_below_native_depth() {
    let fill = triangle(1);

    assert!(should_paint_fill_fallback(&fill, 6, fill.points.len(), 512, 6));
    assert!(!should_paint_fill_fallback(&fill, 7, fill.points.len(), 512, 6));
}

#[test]
fn oversized_fill_can_still_use_bounded_saved_fallback() {
    let max_points = 8;
    let raw_points: Vec<_> = (0..256).map(|index| at(index as f32, 0.0)).collect();
    let fallback_points = fill_fallback_render_points(&raw_points, max_points);
    let fill = triangle(1);

    assert!(raw_points.len() > max_points);
    assert!(should_paint_fill_fallback(&fill, 0, fallback_points.len(), max_points, 6));
}

#[test]
fn segmented_strokes_take_a_segment_and_a_dot_per_point() {
    assert_eq!(segmented_fallback_shape_count(0), 0);
    assert_eq!(segmented_fallback_shape_count(1), 1);
    assert_eq!(segmented_fallback_shape_count(4), 7);
    let runs = vec![
        StrokeRun { point_count: 4, distances: vec![1.0f32.to_bits(); 3] },
        StrokeRun { point_count: 3, distances: vec![1.0f32.to_bits(); 2] },
    ];
    let mut budget = 7;
    let (shapes, stats) = paint_stroke_runs(&runs, Some(512), true, &mut budget);
    assert_eq!(shapes[0].len(), 7);
    assert_eq!(shapes[1], vec![StrokeShape::Line, StrokeShape::Dot(0), StrokeShape::Dot(2)]);
    assert_eq!(budget, 0);
    assert_eq!(stats.segmented_strokes, 1);
    assert_eq!(stats.fast_strokes, 1);
    assert_eq!(stats.segmented_budget_fallbacks, 1);
}

#[test]
fn frame_counts_add_up() {
    let mut left = FallbackFrameStats::new();
    left.stroke_shape_count = 2;
    let mut right = FallbackFrameStats::new();
    right.stroke_shape_count = 3;
    right.fast_strokes = 1;
    let mut sum = left;
    sum.add(right);
    let mut reversed = right;
    reversed.add(left);
    assert_eq!(sum.stroke_shape_count, 5);
    assert_eq!(sum, reversed);
}

#[test]
fn painting_takes_fill_groups_together() {
    let mut operations = vec![dot(1), triangle(2), triangle(3), dot(4)];
    operations[1].fill_group_id = Some(9);
    operations[2].fill_group_id = Some(9);
    let items: Vec<_> = (0..4)
        .map(|operation_index| FallbackPaintOperation::Projected { operation_index })
        .collect();
    assert_eq!(paint_groups(&operations, &items), vec![1, 2, 1]);
}

type Path = fn(&Vec<Position>, usize) -> Vec<Position>;

/// Brushwork on a screen of sixteen by sixteen points: all lines are on it, and
/// areas are filled by one span per corner.
fn brushwork() -> Brushwork<
    impl Fn(&EditOperation) -> Vec<Position>,
    Path,
    Path,
    Path,
    impl Fn(&EditOperation, &Vec<Position>) -> Vec<Vec<Position>>,
    impl Fn(&Vec<Position>) -> Vec<Position>,
    impl Fn(&Vec<Position>) -> Vec<u32>,
    impl Fn(&Vec<Vec<Position>>) -> Vec<(i32, Span)>,
    impl Fn(&EditOperation) -> Option<OperationBounds>,
    impl Fn(&EditOperation, &OperationBounds) -> bool,
> {
    Brushwork {
        project: |operation: &EditOperation| {
            operation
                .points
                .iter()
                .map(|point| {
                    at(
                        f64::from_bits(point.local_x) as f32 * 16.0,
                        f64::from_bits(point.local_y) as f32 * 16.0,
                    )
                })
                .collect()
        },
        smooth_line: cut_corners,
        smooth_area: cut_closed_corners,
        smooth_draft: |line: &Vec<Position>, _: usize| line.clone(),
        clip_line: |_: &EditOperation, line: &Vec<Position>| vec![line.clone()],
        clip_area: |line: &Vec<Position>| line.clone(),
        distances: |line: &Vec<Position>| {
            line.windows(2).map(|pair| distance(pair[0], pair[1]).to_bits()).collect()
        },
        fill: |polygons: &Vec<Vec<Position>>| {
            polygons.iter().flatten().map(|at| (0, Span { left: at.x, right: at.x })).collect()
        },
        bounds: bounds_of,
        intersects: near_origin,
    }
}

fn distance(a: Position, b: Position) -> f32 {
    let gap = |a: u32, b: u32| f32::from_bits(b) - f32::from_bits(a);
    gap(a.x, b.x).hypot(gap(a.y, b.y))
}

const PAINT: PaintSettings = PaintSettings {
    style: SMOOTH,
    camera_depth: 0,
    fill_fallback_max_points: 512,
    fill_fallback_max_depth_delta: 6,
};

fn stroke(id: u128) -> EditOperation {
    operation(id, EditKind::Paint, vec![point_at(0, 0.25, 0.25), point_at(0, 0.75, 0.25)])
}

fn context(is_draft: bool, cache_scope_id: u128) -> OperationPaintContext {
    OperationPaintContext { is_draft, cache_scope_id }
}

#[test]
fn strokes_and_areas_are_painted_from_what_is_kept() {
    let mut renderer = FallbackRenderer::new();
    let line = stroke(1);
    let points = (brushwork().project)(&line);
    let (shapes, stats) = brushwork().paint_operation_points(
        &PAINT,
        &mut renderer,
        &line,
        &points,
        context(false, 1),
    );
    assert_eq!((stats.fallback_cache_misses, stats.painted_operations), (1, 1));
    assert_eq!(stats.segmented_strokes, 1);
    match &shapes[..] {
        [PaintedShape::Stroke { operation, line, shapes }] => {
            assert_eq!(operation.id, 1);
            assert_eq!(places(line), places(&cut_corners(&points, 1)));
            assert_eq!(shapes.len(), segmented_fallback_shape_count(4));
        }
        _ => panic!("one stroke"),
    }
    let (again, stats) = brushwork().paint_operation_points(
        &PAINT,
        &mut renderer,
        &line,
        &vec![at(9.0, 9.0), at(8.0, 8.0)],
        context(false, 1),
    );
    assert_eq!((stats.fallback_cache_hits, stats.fallback_cache_misses), (1, 0));
    assert!(matches!(
        &again[..],
        [PaintedShape::Stroke { line, .. }] if places(line) == places(&cut_corners(&points, 1))
    ));

    let area = triangle(2);
    let corners = (brushwork().project)(&area);
    let (shapes, stats) = brushwork().paint_operation_points(
        &PAINT,
        &mut renderer,
        &area,
        &corners,
        context(false, 2),
    );
    assert_eq!((stats.fill_shape_count, stats.painted_operations), (3, 1));
    assert!(matches!(&shapes[..], [PaintedShape::Area { spans, .. }] if spans.len() == 3));

    let far = PaintSettings { camera_depth: 7, ..PAINT };
    let (none, stats) = brushwork().paint_operation_points(
        &far,
        &mut renderer,
        &area,
        &corners,
        context(false, 2),
    );
    assert!(none.is_empty());
    assert_eq!((stats.fallback_cache_hits, stats.painted_operations), (1, 0));
}

#[test]
fn drafts_are_painted_as_they_are_drawn() {
    let mut renderer = FallbackRenderer::new();
    let points = vec![at(1.0, 1.0), at(2.0, 1.0), at(2.0, 2.0)];
    let (line, area) = (stroke(1), triangle(2));
    let (shapes, stats) = brushwork().paint_operation_points(
        &PAINT,
        &mut renderer,
        &line,
        &points,
        context(true, 1),
    );
    assert_eq!(stats, FallbackFrameStats::new());
    match &shapes[..] {
        [PaintedShape::Stroke { line, shapes, .. }] => {
            assert_eq!(places(line), places(&points));
            assert_eq!(
                *shapes,
                vec![StrokeShape::Line, StrokeShape::Dot(0), StrokeShape::Dot(2)]
            );
        }
        _ => panic!("one line"),
    }
    let (shapes, _) = brushwork().paint_operation_points(
        &PAINT,
        &mut renderer,
        &area,
        &points,
        context(true, 2),
    );
    assert!(matches!(&shapes[..], [PaintedShape::Outline { .. }]));
    let (shapes, _) = brushwork().paint_operation_points(
        &PAINT,
        &mut renderer,
        &line,
        &vec![at(1.0, 1.0)],
        context(true, 1),
    );
    assert!(shapes.is_empty());
    assert_eq!(renderer.saved_render_cache.cached_operation_count(), 0);
}

#[test]
fn the_parts_of_a_block_are_kept_under_its_name() {
    let mut block = operation(5, EditKind::CompactBlock, vec![]);
    let mut far_away = stroke(3);
    far_away.points = vec![point_at(900, 0.5, 0.5), point_at(900, 0.6, 0.5)];
    block.compact_sources = vec![stroke(1), triangle(2), far_away];
    let mut renderer = FallbackRenderer::new();
    let key = saved_fallback_operation_key(5, &block.compact_sources[0], SMOOTH);
    renderer.saved_render_cache.insert(key, vec![at(0.0, 0.0), at(1.0, 0.0)]);

    let (shapes, stats) = brushwork().paint_operation_points(
        &PAINT,
        &mut renderer,
        &block,
        &vec![],
        context(false, 5),
    );
    match &shapes[..] {
        [PaintedShape::Stroke { operation: first, line, .. }, PaintedShape::Area { operation: second, .. }] =>
        {
            assert_eq!((first.id, second.id), (1, 2));
            assert_eq!(places(line), vec![(0.0, 0.0), (1.0, 0.0)]);
        }
        _ => panic!("a stroke and an area"),
    }
    assert_eq!((stats.fallback_cache_hits, stats.fallback_cache_misses), (1, 1));
    assert_eq!((stats.fallback_bounds_cache_misses, stats.projected_operations), (2, 1));
    assert_eq!((stats.skipped_operations, stats.painted_operations), (1, 2));
}

#[test]
fn fill_groups_are_filled_as_one() {
    let mut operations = vec![stroke(1), triangle(2), triangle(3)];
    operations[1].fill_group_id = Some(9);
    operations[2].fill_group_id = Some(9);
    operations[2].native_depth = 7;
    let mut renderer = FallbackRenderer::new();
    let key = saved_fallback_operation_key(1, &operations[0], SMOOTH);
    renderer.saved_render_cache.insert(key, vec![at(0.0, 0.0), at(1.0, 0.0)]);
    let items = vec![
        FallbackPaintOperation::CachedDerived { operation_index: 0 },
        FallbackPaintOperation::Projected { operation_index: 1 },
        FallbackPaintOperation::Projected { operation_index: 2 },
    ];

    let (shapes, stats) = brushwork().paint_fallback_operation_items(
        &PAINT,
        &mut renderer,
        &operations,
        &items,
    );
    match &shapes[..] {
        [PaintedShape::Stroke { operation: first, .. }, PaintedShape::Area { operation: second, spans }] =>
        {
            assert_eq!((first.id, second.id), (1, 2));
            // The other area of the group comes from too far away.
            assert_eq!(spans.len(), 3);
        }
        _ => panic!("a stroke and an area"),
    }
    assert_eq!((stats.fallback_cache_hits, stats.fallback_cache_misses), (0, 2));
    assert_eq!((stats.fill_shape_count, stats.painted_operations), (3, 3));
}

#[test]
fn items_that_are_no_operations_are_passed_over() {
    let mut operations = vec![stroke(1)];
    operations[0].native_depth = i64::MAX;
    let items = vec![
        FallbackPaintOperation::Projected { operation_index: 7 },
        FallbackPaintOperation::Projected { operation_index: 0 },
    ];
    let settings = PaintSettings { camera_depth: -2, ..PAINT };
    let mut renderer = FallbackRenderer::new();
    let (shapes, _) =
        brushwork().paint_fallback_operation_items(&settings, &mut renderer, &operations, &items);
    // A stroke is painted from however far away it comes.
    assert!(matches!(&shapes[..], [PaintedShape::Stroke { operation, .. }] if operation.id == 1));
}

#[test]
fn a_view_counts_whether_its_operations_were_known() {
    let operations = vec![dot(1)];
    let mut renderer = FallbackRenderer::new();
    let projection = project(&mut renderer, &operations);
    assert_eq!(projection_stats(&projection, true).fallback_visible_cache_hits, 1);
    assert_eq!(projection_stats(&projection, false).fallback_visible_cache_misses, 1);
}
