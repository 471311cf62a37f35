//! The camera and what is drawn, cut and erased through it, with floating-point
//! arithmetic.

use endless_sketch::bookmarks::Bookmark;
use endless_sketch::camera::CameraAddress;
use endless_sketch::coords::{RelativeTile, DEPTH_RATIO, MAX_PROJECTED_LEVELS, TILE_PIXELS};
use endless_sketch::drafts::{
    draft, point_append_decision, prepare_draft_for_commit, AreaClip, PointAppendDecision,
};
use endless_sketch::editor::Editor;
use endless_sketch::eraser::{fragment_change, subtract_eraser_sources, Asked, EraserReach, OutlineCut};
use endless_sketch::erasing::{cut_by_each, LassoError, MaskView};
use endless_sketch::fallback::{should_paint_fill_fallback, StrokeFallbackJoinMode};
use endless_sketch::fill_difference::{FillCut, FillDifferenceError};
use endless_sketch::hit_testing::{
    operation_contained_by_rectangle, operation_intersects_selection, ClickMeasures,
    SelectionExtent, SelectionPoint,
};
use endless_sketch::intervals::{Double, Single};
use endless_sketch::line_clip::LineClip;
use endless_sketch::mask_rims::MaskRim;
use endless_sketch::masks::{EraserPath, EraserTip, Placing, Reach};
use endless_sketch::model::{CanvasPoint, Color, EditKind, EditOperation};
use endless_sketch::optics::{CanvasFunctions, CanvasMeasures, ScreenAffine};
use endless_sketch::pen::Pen;
use endless_sketch::plane::Plane;
use endless_sketch::projection::project_operations;
use endless_sketch::regions::{pos2_bounds, transformed_rect_bounds, Borders};
use endless_sketch::render_cache::{
    OperationBoundsCache, RenderStyle, SavedFallbackRenderCache,
};
use endless_sketch::renderer::{CornerProjection, OperationBounds};
use endless_sketch::scanlines::Scan;
use endless_sketch::screen::{Position, ScreenRect};
use endless_sketch::selection_bounds::{
    canvas_axis_less, selection_overlay_width_expansion, CanvasAxisBounds,
    SelectionDepthCanvasBounds, SelectionOverlayBoundsCache, SelectionOverlayWidthHint,
};
use endless_sketch::stroke_cut::StrokeCut;
use endless_sketch::vector_eraser::{
    AlongPath, ErasedBounds, FillMasks, OutsidePolygon, StrokeMasks,
};
use endless_sketch::viewing::Viewport;
use endless_sketch::tile_index::TileIndex;
use num_bigint::BigInt;
use num_traits::{FromPrimitive, ToPrimitive};
use std::collections::HashSet;

fn index_of(number: &BigInt) -> TileIndex {
    TileIndex::from_signed_bytes_le(number.to_signed_bytes_le())
}

fn number(index: &TileIndex) -> BigInt {
    BigInt::from_signed_bytes_le(&index.to_signed_bytes_le())
}

fn floor(number: u64) -> u64 {
    f64::from_bits(number).floor().to_bits()
}

fn count(number: u64) -> Option<i64> {
    f64::from_bits(number).to_i64()
}

fn join(left: u64, right: u64) -> u64 {
    (f64::from_bits(left) + f64::from_bits(right)).to_bits()
}

fn scale_up(local: u64) -> u64 {
    (f64::from_bits(local) * DEPTH_RATIO as f64).to_bits()
}

fn scale_down(remainder: i64, local: u64) -> u64 {
    ((remainder as f64 + f64::from_bits(local)) / DEPTH_RATIO as f64).to_bits()
}

fn multiply(zoom: u64, factor: u64) -> u64 {
    (f64::from_bits(zoom) * f64::from_bits(factor)).to_bits()
}

fn screen_scale(zoom: u64) -> f64 {
    f64::from_bits(TILE_PIXELS) * f64::from_bits(zoom)
}

fn locate(local: u64, screen: u64, extent: u64, zoom: u64) -> u64 {
    let from_center = f64::from_bits(screen) - f64::from_bits(extent) * 0.5;
    (f64::from_bits(local) + from_center / screen_scale(zoom)).to_bits()
}

fn power(levels: u64) -> Option<f64> {
    if levels > MAX_PROJECTED_LEVELS {
        return None;
    }
    Some((DEPTH_RATIO as f64).powi(levels as i32))
}

fn offset(relative: &RelativeTile, point_local: u64, camera_local: u64) -> Option<u64> {
    let tiles = number(&relative.offset).to_f64()?;
    let scale = power(relative.levels)?;
    let point_local = f64::from_bits(point_local);
    let camera_local = f64::from_bits(camera_local);
    let offset = if relative.camera_is_deeper {
        tiles + point_local * scale - camera_local
    } else {
        (tiles + point_local - camera_local * scale) / scale
    };
    Some(offset.to_bits())
}

fn onto_screen(offset: u64, extent: u64, zoom: u64) -> u64 {
    (f64::from_bits(extent) * 0.5 + f64::from_bits(offset) * screen_scale(zoom)).to_bits()
}

fn pan(local: u64, delta: u64, zoom: u64) -> u64 {
    (f64::from_bits(local) - f64::from_bits(delta) / screen_scale(zoom)).to_bits()
}

fn subtract(left: u64, right: u64) -> u64 {
    (f64::from_bits(left) - f64::from_bits(right)).to_bits()
}

fn translate(
    local: u64,
    delta: u64,
    zoom: u64,
    levels: u64,
    scales_up: bool,
) -> Option<(TileIndex, u64)> {
    let depth_scale = power(levels)?;
    let camera_delta = f64::from_bits(delta) / screen_scale(zoom);
    let delta = if scales_up { camera_delta * depth_scale } else { camera_delta / depth_scale };
    let moved = f64::from_bits(local) + delta;
    if !moved.is_finite() {
        return None;
    }
    let whole = BigInt::from_f64(moved.floor())?;
    Some((index_of(&whole), (moved - moved.floor()).to_bits()))
}

fn move_by(affine: ScreenAffine, x: u64, y: u64) -> (u64, u64) {
    let pivot_x = f64::from_bits(affine.pivot_x);
    let pivot_y = f64::from_bits(affine.pivot_y);
    let relative_x = f64::from_bits(x) - pivot_x;
    let relative_y = f64::from_bits(y) - pivot_y;
    let moved_x =
        pivot_x + relative_x * f64::from_bits(affine.m11) + relative_y * f64::from_bits(affine.m12);
    let moved_y =
        pivot_y + relative_x * f64::from_bits(affine.m21) + relative_y * f64::from_bits(affine.m22);
    ((moved_x - f64::from_bits(x)).to_bits(), (moved_y - f64::from_bits(y)).to_bits())
}

fn optics() -> impl CanvasMeasures {
    CanvasFunctions {
        floor,
        count,
        join,
        scale_up,
        scale_down,
        multiply,
        locate,
        offset,
        onto_screen,
        pan,
        subtract,
        translate,
        move_by,
    }
}

fn point(depth: i64, tile_x: &BigInt, tile_y: &BigInt, x: f64, y: f64) -> CanvasPoint {
    CanvasPoint::new(
        &optics(),
        depth,
        &index_of(tile_x),
        &index_of(tile_y),
        x.to_bits(),
        y.to_bits(),
    )
}

fn camera(
    depth: i64,
    tile_x: &BigInt,
    tile_y: &BigInt,
    x: f64,
    y: f64,
    zoom: f64,
) -> CameraAddress {
    CameraAddress {
        depth,
        tile_x: index_of(tile_x),
        tile_y: index_of(tile_y),
        local_x: x.to_bits(),
        local_y: y.to_bits(),
        zoom: zoom.to_bits(),
    }
}

fn pointed(camera: &CameraAddress, x: f64, y: f64, width: f64, height: f64) -> CanvasPoint {
    camera.screen_to_canvas(&optics(), x.to_bits(), y.to_bits(), width.to_bits(), height.to_bits())
}

fn shown(
    camera: &CameraAddress,
    point: &CanvasPoint,
    width: f64,
    height: f64,
) -> Option<(f64, f64)> {
    camera
        .canvas_to_screen(&optics(), point, width.to_bits(), height.to_bits())
        .map(|(x, y)| (f64::from_bits(x), f64::from_bits(y)))
}

fn zoom_at(camera: &mut CameraAddress, factor: f64, x: f64, y: f64, width: f64, height: f64) {
    camera.zoom_at(
        &optics(),
        factor.to_bits(),
        x.to_bits(),
        y.to_bits(),
        width.to_bits(),
        height.to_bits(),
    );
}

fn moved(
    point: &CanvasPoint,
    camera_depth: i64,
    zoom: f64,
    delta_x: f64,
    delta_y: f64,
) -> Option<CanvasPoint> {
    point.translated_by_screen_delta(
        &optics(),
        camera_depth,
        zoom.to_bits(),
        delta_x.to_bits(),
        delta_y.to_bits(),
    )
}

#[test]
fn zoom_threshold_preserves_cursor_anchor() {
    let mut camera = CameraAddress::start();
    let anchor = pointed(&camera, 123.0, 456.0, 1280.0, 720.0);
    for _ in 0..100 {
        zoom_at(&mut camera, 1.25, 123.0, 456.0, 1280.0, 720.0);
    }
    let (x, y) = shown(&camera, &anchor, 1280.0, 720.0).expect("anchor remains representable");
    assert!((x - 123.0).abs() < 0.01, "x={x}");
    assert!((y - 456.0).abs() < 0.01, "y={y}");
}

#[test]
fn deep_negative_zoom_round_trip_stays_representable() {
    let mut camera = CameraAddress::start();
    let anchor = pointed(&camera, 640.0, 360.0, 1280.0, 720.0);
    for _ in 0..120 {
        zoom_at(&mut camera, 0.75, 640.0, 360.0, 1280.0, 720.0);
    }
    assert!(camera.depth <= -15, "depth={}", camera.depth);
    for _ in 0..120 {
        zoom_at(&mut camera, 1.0 / 0.75, 640.0, 360.0, 1280.0, 720.0);
    }
    let (x, y) = shown(&camera, &anchor, 1280.0, 720.0).expect("anchor remains representable");
    assert!(x.is_finite() && y.is_finite(), "x={x} y={y}");
    assert!((-1..=1).contains(&camera.depth), "depth={}", camera.depth);
}

#[test]
fn bigint_pan_has_no_distance_limit() {
    let huge = BigInt::from(10u8).pow(10_000);
    let camera = camera(0, &huge, &-huge.clone(), 0.5, 0.5, 1.0);
    let center = camera.center_point(&optics());
    let (x, y) = shown(&camera, &center, 1920.0, 1080.0).expect("relative coordinates stay small");
    assert_eq!((x, y), (960.0, 540.0));
}

#[test]
fn exact_hundred_level_zoom_keeps_center_and_screen_round_trips_stable() {
    for (target_depth, factor) in [(-100, 1.0 / DEPTH_RATIO as f64), (100, DEPTH_RATIO as f64)] {
        let mut camera = CameraAddress::start();
        let anchor = camera.center_point(&optics());
        for _ in 0..100 {
            zoom_at(&mut camera, factor, 640.0, 360.0, 1280.0, 720.0);
        }

        assert_eq!(camera.depth, target_depth);
        assert_eq!(f64::from_bits(camera.zoom), 1.0);
        let (anchor_x, anchor_y) =
            shown(&camera, &anchor, 1280.0, 720.0).expect("center anchor remains representable");
        assert!((anchor_x - 640.0).abs() < 0.001, "x={anchor_x}");
        assert!((anchor_y - 360.0).abs() < 0.001, "y={anchor_y}");

        for (screen_x, screen_y) in [(0.0, 0.0), (321.5, 654.25), (1279.0, 719.0)] {
            let point = pointed(&camera, screen_x, screen_y, 1280.0, 720.0);
            let (result_x, result_y) = shown(&camera, &point, 1280.0, 720.0)
                .expect("same-depth point remains representable");
            assert!((result_x - screen_x).abs() < 0.001, "x={result_x}");
            assert!((result_y - screen_y).abs() < 0.001, "y={result_y}");
        }
    }
}

#[test]
fn direct_depth_jump_preserves_visible_center_at_each_target() {
    let original = camera(0, &BigInt::from(-123_456), &BigInt::from(987_654), 0.25, 0.75, 3.5);
    let center = original.center_point(&optics());

    for depth in [100, -100] {
        let mut camera = original.clone();
        camera.jump_to_depth(&optics(), depth);
        assert_eq!(camera.depth, depth);
        assert_eq!(camera.zoom, original.zoom);
        let (x, y) = shown(&camera, &center, 1280.0, 720.0).expect("center remains representable");
        assert!((x - 640.0).abs() < 0.001, "depth={depth} x={x}");
        assert!((y - 360.0).abs() < 0.001, "depth={depth} y={y}");
    }
}

#[test]
fn thousand_depth_same_level_round_trip_is_stable() {
    for depth in [-1000, 1000] {
        let far = BigInt::from(10u8).pow(500);
        let camera = camera(depth, &far, &-far.clone(), 0.125, 0.875, 2.5);
        for (screen_x, screen_y) in [(0.0, 0.0), (321.5, 654.25), (1279.0, 719.0)] {
            let point = pointed(&camera, screen_x, screen_y, 1280.0, 720.0);
            let (result_x, result_y) = shown(&camera, &point, 1280.0, 720.0)
                .expect("same-depth point remains representable");
            assert!((result_x - screen_x).abs() < 0.001, "depth={depth} x={result_x}");
            assert!((result_y - screen_y).abs() < 0.001, "depth={depth} y={result_y}");
        }
    }
}

#[test]
fn unrepresentable_cross_depth_projection_is_rejected() {
    let zero = BigInt::from(0);
    let point = point(0, &zero, &zero, 0.5, 0.5);
    for depth in [-1000, 1000] {
        let camera = camera(depth, &zero, &zero, 0.5, 0.5, 1.0);
        assert!(shown(&camera, &point, 1280.0, 720.0).is_none());
    }
}

#[test]
fn screen_delta_translation_preserves_extreme_bigint_tiles() {
    let huge = BigInt::from(10u8).pow(1000);
    let point = point(0, &huge, &-huge.clone(), 0.25, 0.75);

    let moved =
        moved(&point, 0, 2.0, 1024.0, -1024.0).expect("same-depth movement is representable");

    assert_eq!(number(&moved.tile_x), number(&point.tile_x) + 1);
    assert_eq!(number(&moved.tile_y), number(&point.tile_y) - 1);
    assert!((f64::from_bits(moved.local_x) - 0.25).abs() < f64::EPSILON);
    assert!((f64::from_bits(moved.local_y) - 0.75).abs() < f64::EPSILON);
}

#[test]
fn uniform_screen_affine_scales_around_pivot_at_extreme_coordinates() {
    let huge = BigInt::from(10u8).pow(1_000);
    let camera = camera(12, &huge, &-huge.clone(), 0.5, 0.5, 2.0);
    let point = point(12, &huge, &-huge.clone(), 0.6, 0.7);
    let before = shown(&camera, &point, 800.0, 600.0).expect("project source");
    let transform =
        ScreenAffine::uniform_scale(400.0f64.to_bits(), 300.0f64.to_bits(), 2.0f64.to_bits())
            .expect("valid scale");

    let transformed = transform
        .transform_canvas_point(
            &optics(),
            &point,
            &camera,
            800.0f64.to_bits(),
            600.0f64.to_bits(),
        )
        .expect("transform point");
    let after = shown(&camera, &transformed, 800.0, 600.0).expect("project transformed");

    assert!((after.0 - (400.0 + (before.0 - 400.0) * 2.0)).abs() < 1.0e-8);
    assert!((after.1 - (300.0 + (before.1 - 300.0) * 2.0)).abs() < 1.0e-8);
}

#[test]
fn uniform_screen_affine_rejects_invalid_scale() {
    assert!(ScreenAffine::uniform_scale(0, 0, 0.0f64.to_bits()).is_none());
    assert!(ScreenAffine::uniform_scale(0, 0, f64::NAN.to_bits()).is_none());
}

#[test]
fn screen_delta_translation_scales_at_the_point_depth() {
    let camera = CameraAddress::start();
    let point = point(1, &BigInt::from(4), &BigInt::from(4), 0.0, 0.0);
    let before = shown(&camera, &point, 1280.0, 720.0).expect("point projects");

    let moved = moved(&point, camera.depth, f64::from_bits(camera.zoom), 64.0, 0.0)
        .expect("adjacent-depth movement is representable");
    let after = shown(&camera, &moved, 1280.0, 720.0).expect("moved point projects");

    assert!((after.0 - before.0 - 64.0).abs() < 0.001);
    assert!((after.1 - before.1).abs() < 0.001);
}

#[test]
fn screen_delta_translation_rejects_unrepresentable_depth_scale() {
    let zero = BigInt::from(0);
    let point = point(1000, &zero, &zero, 0.5, 0.5);

    assert!(moved(&point, 0, 1.0, 10.0, 0.0).is_none());
}

#[test]
fn a_screen_position_is_shown_where_it_was() {
    for (depth, tile_x, tile_y, x, y, screen_x, screen_y) in [
        (-1000, -1_000_000, 999_999, 0.0, 0.999, 0.0, 1079.5),
        (0, 0, 0, 0.5, 0.5, 960.0, 540.0),
        (999, 123_456, -654_321, 0.25, 0.125, 1919.0, 1.0),
    ] {
        let camera = camera(depth, &BigInt::from(tile_x), &BigInt::from(tile_y), x, y, 2.5);
        let point = pointed(&camera, screen_x, screen_y, 1920.0, 1080.0);
        let (result_x, result_y) = shown(&camera, &point, 1920.0, 1080.0).expect("same depth");
        assert!((result_x - screen_x).abs() < 0.001);
        assert!((result_y - screen_y).abs() < 0.001);
    }
}

#[test]
fn a_jump_through_depths_and_back_returns() {
    let start = BigInt::from(10u8).pow(30) + 5;
    let mut camera = camera(2, &start, &BigInt::from(-9), 0.25, 0.5, 1.0);
    camera.jump_to_depth(&optics(), 4);
    assert_eq!(camera.depth, 4);
    // A quarter of the way through a tile is sixteen smaller tiles in.
    assert_eq!(number(&camera.tile_x), start.clone() * 64 + 16);
    assert_eq!(f64::from_bits(camera.local_x), 0.0);
    assert_eq!(number(&camera.tile_y), BigInt::from(-9 * 64 + 32));
    camera.jump_to_depth(&optics(), 2);
    assert_eq!(number(&camera.tile_x), start);
    assert_eq!(f64::from_bits(camera.local_x), 0.25);
    assert_eq!(number(&camera.tile_y), BigInt::from(-9));
    assert_eq!(f64::from_bits(camera.local_y), 0.5);
    camera.jump_to_depth(&optics(), 1);
    assert_eq!(number(&camera.tile_y), BigInt::from(-2));
    assert_eq!(f64::from_bits(camera.local_y), 0.875 + 0.0625);
}

#[test]
fn panning_moves_the_content_by_as_much() {
    let mut camera = CameraAddress::start();
    let point = pointed(&camera, 100.0, 200.0, 800.0, 600.0);
    camera.pan_content_by(&optics(), 700.0f64.to_bits(), (-50.0f64).to_bits());
    let (x, y) = shown(&camera, &point, 800.0, 600.0).expect("near");
    assert_eq!((x, y), (800.0, 150.0));
    assert_eq!(number(&camera.tile_x), BigInt::from(-1));
}

#[test]
fn zooming_by_no_positive_number_changes_nothing() {
    let mut camera = CameraAddress::start();
    for factor in [0.0, -1.0, f64::NAN, f64::INFINITY] {
        zoom_at(&mut camera, factor, 1.0, 2.0, 800.0, 600.0);
        assert!(camera.same_as(&CameraAddress::start()));
    }
}

#[test]
fn a_movement_too_small_to_hold_is_refused() {
    let zero = BigInt::from(0);
    let point = point(0, &zero, &zero, 0.5, 0.5);
    assert!(moved(&point, 0, 1.0, 1.0e-20, 0.0).is_none());
    assert!(moved(&point, 0, 1.0, 0.0, 0.0).is_some());
    assert!(moved(&point, 0, 0.0, 5.0, 0.0).is_none());
    assert!(moved(&point, 0, 1.0, f64::NAN, 0.0).is_none());
}

fn at(x: f32, y: f32) -> Position {
    Position { x: x.to_bits(), y: y.to_bits() }
}

fn x(position: Position) -> f32 {
    f32::from_bits(position.x)
}

fn y(position: Position) -> f32 {
    f32::from_bits(position.y)
}

fn list(points: &[(f32, f32)]) -> Vec<Position> {
    points.iter().map(|(x, y)| at(*x, *y)).collect()
}

fn pairs(points: &[Position]) -> Vec<(f32, f32)> {
    points.iter().map(|point| (x(*point), y(*point))).collect()
}

fn distance(left: Position, right: Position) -> f32 {
    (x(left) - x(right)).hypot(y(left) - y(right))
}

fn lerp(start: Position, end: Position, t: f32) -> Position {
    at((1.0 - t) * x(start) + t * x(end), (1.0 - t) * y(start) + t * y(end))
}

fn polygon_area_twice(points: &[Position]) -> f32 {
    if points.len() < 3 {
        return 0.0;
    }
    let mut area = 0.0;
    let mut previous = points[points.len() - 1];
    for point in points {
        area += x(previous) * y(*point) - x(*point) * y(previous);
        previous = *point;
    }
    area
}

fn area(points: &Vec<Position>) -> u32 {
    polygon_area_twice(points).to_bits()
}

fn cross(a: Position, b: Position, c: Position) -> u32 {
    ((x(b) - x(a)) * (y(c) - y(a)) - (y(b) - y(a)) * (x(c) - x(a))).to_bits()
}

fn left(point: Position, start: Position, end: Position) -> bool {
    (x(end) - x(start)) * (y(point) - y(start)) - (y(end) - y(start)) * (x(point) - x(start))
        >= -0.01
}

fn meeting_place(
    start: Position,
    end: Position,
    edge_start: Position,
    edge_end: Position,
) -> Option<(f32, f32)> {
    let (dx, dy) = (x(end) - x(start), y(end) - y(start));
    let (ex, ey) = (x(edge_end) - x(edge_start), y(edge_end) - y(edge_start));
    let denominator = dx * ey - dy * ex;
    if denominator.abs() <= f32::EPSILON {
        return None;
    }
    let (ox, oy) = (x(edge_start) - x(start), y(edge_start) - y(start));
    Some(((ox * ey - oy * ex) / denominator, (ox * dy - oy * dx) / denominator))
}

fn crossing(
    start: Position,
    end: Position,
    edge_start: Position,
    edge_end: Position,
) -> Option<Position> {
    meeting_place(start, end, edge_start, edge_end).map(|(t, _)| lerp(start, end, t))
}

fn distance_to_segment(point: Position, start: Position, end: Position) -> f32 {
    let (sx, sy) = (x(end) - x(start), y(end) - y(start));
    let length_squared = sx * sx + sy * sy;
    if length_squared <= f32::EPSILON {
        return distance(point, start);
    }
    let along = (x(point) - x(start)) * sx + (y(point) - y(start)) * sy;
    let t = (along / length_squared).clamp(0.0, 1.0);
    distance(point, at(x(start) + sx * t, y(start) + sy * t))
}

fn near_border(point: Position, start: Position, end: Position) -> bool {
    distance_to_segment(point, start, end) <= 0.01
}

fn crosses_ray(point: Position, current: Position, previous: Position) -> bool {
    ((y(current) > y(point)) != (y(previous) > y(point)))
        && x(point)
            < (x(previous) - x(current)) * (y(point) - y(current))
                / (y(previous) - y(current) + f32::EPSILON)
                + x(current)
}

fn borders() -> Inside {
    Borders { near: near_border, crosses: crosses_ray }
}

fn inside(point: Position, polygon: &Vec<Position>) -> bool {
    borders().point_in_pos_polygon(point, polygon)
}

fn spot_pair(point: SelectionPoint) -> (f64, f64) {
    (f64::from_bits(point.x), f64::from_bits(point.y))
}

type Area = fn(&Vec<Position>) -> u32;
type Turn = fn(Position, Position, Position) -> u32;
type Side = fn(Position, Position, Position) -> bool;
type Meeting = fn(Position, Position, Position, Position) -> Option<Position>;
type Inside = Borders<Side, Side>;

fn plane() -> Plane<Area, Turn, Side, Meeting, Inside> {
    Plane { area, cross, left, crossing, inside: borders() }
}

fn project_far(camera: &CameraAddress, point: &CanvasPoint) -> Option<Position> {
    shown(camera, point, 0.0, 0.0).map(|(x, y)| at(x as f32, y as f32))
}

fn shallower_zoom(zoom: u64, levels: i32) -> u64 {
    (f64::from_bits(zoom) * (DEPTH_RATIO as f64).powi(levels)).to_bits()
}

fn covers(polygon: &Vec<Position>, triangles: &Vec<Vec<Position>>) -> bool {
    let polygon_area = polygon_area_twice(polygon).abs();
    let triangle_area =
        triangles.iter().map(|triangle| polygon_area_twice(triangle).abs()).sum::<f32>();
    (triangle_area - polygon_area).abs() <= (polygon_area * 1.0e-4).max(1.0)
}

fn selection_point(position: Position) -> (f64, f64) {
    (f64::from(x(position)), f64::from(y(position)))
}

fn point_distance(left: (f64, f64), right: (f64, f64)) -> f64 {
    ((left.0 - right.0).powi(2) + (left.1 - right.1).powi(2)).sqrt()
}

fn point_segment_distance(point: (f64, f64), start: (f64, f64), end: (f64, f64)) -> f64 {
    let (dx, dy) = (end.0 - start.0, end.1 - start.1);
    let length_squared = dx * dx + dy * dy;
    if length_squared <= f64::EPSILON {
        return point_distance(point, start);
    }
    let t =
        (((point.0 - start.0) * dx + (point.1 - start.1) * dy) / length_squared).clamp(0.0, 1.0);
    point_distance(point, (start.0 + t * dx, start.1 + t * dy))
}

fn circle_places(start: Position, end: Position, center: Position, radius: u64) -> Vec<Double> {
    let radius = f64::from_bits(radius);
    let (start, end, center) =
        (selection_point(start), selection_point(end), selection_point(center));
    let (dx, dy) = (end.0 - start.0, end.1 - start.1);
    let (ox, oy) = (start.0 - center.0, start.1 - center.1);
    let a = dx * dx + dy * dy;
    if a <= f64::EPSILON {
        return Vec::new();
    }
    let b = 2.0 * (ox * dx + oy * dy);
    let c = ox * ox + oy * oy - radius * radius;
    let discriminant = b * b - 4.0 * a * c;
    if discriminant < 0.0 {
        return Vec::new();
    }
    let root = discriminant.sqrt();
    vec![
        Double { bits: ((-b - root) / (2.0 * a)).to_bits() },
        Double { bits: ((-b + root) / (2.0 * a)).to_bits() },
    ]
}

fn band_places(
    start: Position,
    end: Position,
    mask_start: Position,
    mask_end: Position,
    radius: u64,
) -> Vec<Double> {
    let radius = f64::from_bits(radius);
    let (start, end) = (selection_point(start), selection_point(end));
    let (mask_start, mask_end) = (selection_point(mask_start), selection_point(mask_end));
    let (dx, dy) = (end.0 - start.0, end.1 - start.1);
    let (mx, my) = (mask_end.0 - mask_start.0, mask_end.1 - mask_start.1);
    let length = point_distance(mask_start, mask_end);
    let slope = dx * my - dy * mx;
    if length <= f64::EPSILON || slope.abs() <= f64::EPSILON {
        return Vec::new();
    }
    let base = (start.0 - mask_start.0) * my - (start.1 - mask_start.1) * mx;
    vec![
        Double { bits: ((radius * length - base) / slope).to_bits() },
        Double { bits: ((-radius * length - base) / slope).to_bits() },
    ]
}

fn mask_rim() -> MaskRim<MiddleOf, Narrow, ToPoint, ToSegment, Inside> {
    MaskRim {
        middle: |start: Position, end: Position, from: Double, to: Double| {
            let (start, end) = (selection_point(start), selection_point(end));
            let middle = (f64::from_bits(from.bits) + f64::from_bits(to.bits)) * 0.5;
            SelectionPoint {
                x: (start.0 + (end.0 - start.0) * middle).to_bits(),
                y: (start.1 + (end.1 - start.1) * middle).to_bits(),
            }
        },
        position: |place: SelectionPoint| {
            at(f64::from_bits(place.x) as f32, f64::from_bits(place.y) as f32)
        },
        point: |place: SelectionPoint, at: Position| {
            point_distance(spot_pair(place), selection_point(at)).to_bits()
        },
        segment: |place: SelectionPoint, start: Position, end: Position| {
            point_segment_distance(spot_pair(place), selection_point(start), selection_point(end))
                .to_bits()
        },
        inside: borders(),
    }
}

type MiddleOf = fn(Position, Position, Double, Double) -> SelectionPoint;
type Narrow = fn(SelectionPoint) -> Position;
type ToPoint = fn(SelectionPoint, Position) -> u64;
type ToSegment = fn(SelectionPoint, Position, Position) -> u64;

fn near_places(left: Double, right: Double) -> bool {
    (f64::from_bits(left.bits) - f64::from_bits(right.bits)).abs() <= 1.0e-9
}

fn narrow_part(from: Double, to: Double) -> bool {
    f64::from_bits(to.bits) - f64::from_bits(from.bits) <= 1.0e-9
}

fn along_double(start: Position, end: Position, place: Double) -> Position {
    lerp(start, end, f64::from_bits(place.bits) as f32)
}

fn touching(left: Position, right: Position) -> bool {
    distance(left, right) <= 0.01
}

fn position_in_view(camera: &CameraAddress, point: &CanvasPoint) -> Option<Position> {
    let viewport = Viewport {
        width: 512.0f64.to_bits(),
        height: 512.0f64.to_bits(),
        position: |x: u64, y: u64| at(f64::from_bits(x) as f32, f64::from_bits(y) as f32),
        place: |_: Position| (0, 0),
    };
    viewport.canvas_point_to_position(&optics(), camera, point)
}

fn shift_on_segment(
    camera: &CameraAddress,
    start: &CanvasPoint,
    start_position: Position,
    end_position: Position,
    place: Double,
) -> Option<CanvasPoint> {
    let place = f64::from_bits(place.bits);
    moved(
        start,
        camera.depth,
        f64::from_bits(camera.zoom),
        f64::from(x(end_position) - x(start_position)) * place,
        f64::from(y(end_position) - y(start_position)) * place,
    )
}

fn stroke_cut(
    camera: &CameraAddress,
) -> StrokeCut<
    impl Fn(&CanvasPoint) -> Option<Position> + '_,
    Roots,
    Bands,
    Places,
    Places,
    Rim,
    AlongDouble,
    impl Fn(&CanvasPoint, Position, Position, Double) -> Option<CanvasPoint> + '_,
    Apart,
> {
    StrokeCut {
        project: move |point: &CanvasPoint| position_in_view(camera, point),
        circle: circle_places,
        sides: band_places,
        near: near_places,
        narrow: narrow_part,
        outside: mask_rim(),
        along: along_double,
        shift: move |start: &CanvasPoint, a: Position, b: Position, place: Double| {
            shift_on_segment(camera, start, a, b, place)
        },
        touch: touching,
    }
}

fn cut_by_path(
    paint: &EditOperation,
    camera: &CameraAddress,
    eraser: &[(f32, f32)],
    eraser_width: f32,
) -> Option<Vec<Vec<CanvasPoint>>> {
    let radius = f64::from(f32::from_bits(paint.width_px) + eraser_width) * 0.5;
    let eraser = list(eraser);
    stroke_cut(camera)
        .subtract_paint_stroke_by_path(paint, eraser, eraser_width.to_bits(), radius.to_bits())
}

fn cut_by_polygon(
    paint: &EditOperation,
    camera: &CameraAddress,
    polygon: &[(f32, f32)],
) -> Option<Vec<Vec<CanvasPoint>>> {
    let radius = f64::from(f32::from_bits(paint.width_px)) * 0.5;
    let polygon = list(polygon);
    stroke_cut(camera)
        .subtract_paint_stroke_by_polygon(paint, &plane(), &polygon, radius.to_bits())
}

type Roots = fn(Position, Position, Position, u64) -> Vec<Double>;
type Bands = fn(Position, Position, Position, Position, u64) -> Vec<Double>;
type Places = fn(Double, Double) -> bool;
type AlongDouble = fn(Position, Position, Double) -> Position;
type Nowhere = fn(&CanvasPoint) -> Option<Position>;
type Unshifted = fn(&CanvasPoint, Position, Position, Double) -> Option<CanvasPoint>;
type Apart = fn(Position, Position) -> bool;
type Rim = MaskRim<MiddleOf, Narrow, ToPoint, ToSegment, Inside>;
type Hides =
    StrokeCut<Nowhere, Roots, Bands, Places, Places, Rim, AlongDouble, Unshifted, Apart>;

fn hides() -> Hides {
    StrokeCut {
        project: |_: &CanvasPoint| None,
        circle: circle_places,
        sides: band_places,
        near: near_places,
        narrow: narrow_part,
        outside: mask_rim(),
        along: along_double,
        shift: |_: &CanvasPoint, _: Position, _: Position, _: Double| None,
        touch: touching,
    }
}

type FarPosition = fn(u64, u64) -> Position;
type Levels = fn(u64, i32) -> u64;
type Covers = fn(&Vec<Position>, &Vec<Vec<Position>>) -> bool;
type PlaceOf = fn(Position) -> (u64, u64);

fn fill_cut() -> FillCut<
    Area,
    Turn,
    Side,
    Meeting,
    Inside,
    impl CanvasMeasures,
    FarPosition,
    Levels,
    Covers,
    Hides,
    PlaceOf,
> {
    FillCut {
        plane: plane(),
        measures: optics(),
        position: |x: u64, y: u64| at(f64::from_bits(x) as f32, f64::from_bits(y) as f32),
        zoom: shallower_zoom,
        covers,
        hides: hides(),
        place: |position: Position| {
            (f64::from(x(position)).to_bits(), f64::from(y(position)).to_bits())
        },
    }
}

fn black() -> Color {
    Color::rgba(0, 0, 0, 255)
}

fn stroke_across(camera: &CameraAddress) -> EditOperation {
    draft(
        EditKind::Paint,
        camera.depth,
        camera.zoom,
        vec![
            pointed(camera, 100.0, 256.0, 512.0, 512.0),
            pointed(camera, 400.0, 256.0, 512.0, 512.0),
        ],
        black(),
        10.0f32.to_bits(),
    )
}

type Meet = fn(Position, Position, Position, Position) -> Option<Single>;
type Compare = fn(Single, Single) -> bool;
type Middle = fn(Position, Position, Single, Single) -> Position;
type Along = fn(Position, Position, Single) -> Position;
type Touch = fn(Position, Position) -> bool;

fn line_clip() -> LineClip<Meet, Compare, Compare, Middle, Along, Touch, Touch, Inside> {
    LineClip {
        meet: |a: Position, b: Position, c: Position, d: Position| {
            let (t, u) = meeting_place(a, b, c, d)?;
            ((-0.0001..=1.0001).contains(&t) && (-0.0001..=1.0001).contains(&u))
                .then_some(Single { bits: t.to_bits() })
        },
        near: |a: Single, b: Single| {
            (f32::from_bits(a.bits) - f32::from_bits(b.bits)).abs() <= 0.0001
        },
        narrow: |a: Single, b: Single| f32::from_bits(b.bits) - f32::from_bits(a.bits) <= 0.0001,
        middle: |start: Position, end: Position, a: Single, b: Single| {
            lerp(start, end, (f32::from_bits(a.bits) + f32::from_bits(b.bits)) * 0.5)
        },
        along: |start: Position, end: Position, place: Single| {
            lerp(start, end, f32::from_bits(place.bits))
        },
        touch: touching,
        far: |a: Position, b: Position| distance(a, b) > 0.01,
        inside: borders(),
    }
}

#[test]
fn area_polygon_clips_polyline_into_visible_runs() {
    let area = plane().normalized_pos_polygon(&list(&[
        (0.0, 0.0),
        (10.0, 0.0),
        (10.0, 10.0),
        (0.0, 10.0),
    ]));
    let runs = line_clip().clip_pos_polyline_to_polygon(&list(&[(-5.0, 5.0), (15.0, 5.0)]), &area);

    assert_eq!(runs.len(), 1);
    assert!((x(runs[0][0]) - 0.0).abs() <= 0.01);
    assert!((x(runs[0][1]) - 10.0).abs() <= 0.01);
    assert_eq!(y(runs[0][0]), 5.0);
    assert_eq!(y(runs[0][1]), 5.0);
}

#[test]
fn paint_stroke_subtraction_handles_width_crossing_tangent_and_full_removal() {
    let camera = camera(12, &BigInt::from(0), &BigInt::from(0), 0.5, 0.5, 1.0);
    let paint = stroke_across(&camera);
    let project_x = |point: &CanvasPoint| {
        shown(&camera, point, 512.0, 512.0).expect("result projects").0
    };

    let outside = cut_by_path(&paint, &camera, &[(250.0, 50.0)], 20.0).expect("valid subtraction");
    assert_eq!(outside, vec![paint.points.clone()]);

    let crossing = cut_by_path(&paint, &camera, &[(250.0, 100.0), (250.0, 400.0)], 20.0)
        .expect("valid subtraction");
    assert_eq!(crossing.len(), 2);
    assert!((project_x(crossing[0].last().unwrap()) - 235.0).abs() < 0.01);
    assert!((project_x(&crossing[1][0]) - 265.0).abs() < 0.01);
    assert_eq!(crossing[0].last().unwrap().depth, camera.depth);

    let tangent = cut_by_path(&paint, &camera, &[(250.0, 271.0)], 20.0).expect("valid subtraction");
    assert_eq!(tangent, vec![paint.points.clone()]);

    let endpoint =
        cut_by_path(&paint, &camera, &[(100.0, 256.0)], 20.0).expect("valid subtraction");
    assert_eq!(endpoint.len(), 1);
    assert!((project_x(&endpoint[0][0]) - 115.0).abs() < 0.01);
    assert!((project_x(endpoint[0].last().unwrap()) - 400.0).abs() < 0.01);

    let removed = cut_by_path(&paint, &camera, &[(100.0, 256.0), (400.0, 256.0)], 20.0)
        .expect("valid subtraction");
    assert!(removed.is_empty());
}

#[test]
fn a_stroke_is_cut_only_by_an_eraser_that_covers_something() {
    let camera = CameraAddress::start();
    let paint = stroke_across(&camera);
    assert!(cut_by_path(&paint, &camera, &[], 20.0).is_none());
    assert!(cut_by_path(&paint, &camera, &[(250.0, 50.0)], 0.0).is_none());
    assert!(cut_by_path(&paint, &camera, &[(250.0, 50.0)], f32::NAN).is_none());
    assert!(cut_by_path(&paint, &camera, &[(f32::INFINITY, 50.0)], 20.0).is_none());
    assert!(cut_by_polygon(&paint, &camera, &[(0.0, 0.0), (1.0, 1.0)]).is_none());
    let fill = EditOperation { kind: EditKind::Fill, ..paint };
    assert!(cut_by_path(&fill, &camera, &[(250.0, 50.0)], 20.0).is_none());
}

#[test]
fn paint_stroke_polygon_subtraction_handles_outside_boundary_and_full_removal() {
    let camera = CameraAddress::start();
    let paint = stroke_across(&camera);
    let project_x = |point: &CanvasPoint| {
        shown(&camera, point, 512.0, 512.0).expect("projected point").0
    };
    let rectangle = |left: f32, top: f32, right: f32, bottom: f32| {
        [(left, top), (right, top), (right, bottom), (left, bottom)]
    };

    let outside = cut_by_polygon(&paint, &camera, &rectangle(200.0, 100.0, 300.0, 150.0))
        .expect("valid outside polygon");
    assert_eq!(outside, vec![paint.points.clone()]);

    let crossing = cut_by_polygon(&paint, &camera, &rectangle(240.0, 200.0, 260.0, 300.0))
        .expect("valid crossing polygon");
    assert_eq!(crossing.len(), 2);
    assert!((project_x(crossing[0].last().unwrap()) - 235.0).abs() < 0.01);
    assert!((project_x(&crossing[1][0]) - 265.0).abs() < 0.01);

    let endpoint = cut_by_polygon(&paint, &camera, &rectangle(50.0, 200.0, 200.0, 300.0))
        .expect("valid endpoint polygon");
    assert_eq!(endpoint.len(), 1);
    assert!((project_x(&endpoint[0][0]) - 205.0).abs() < 0.01);

    let boundary = cut_by_polygon(&paint, &camera, &rectangle(240.0, 200.0, 260.0, 252.0))
        .expect("valid boundary polygon");
    assert_eq!(boundary.len(), 2);
    assert!((project_x(boundary[0].last().unwrap()) - 237.0).abs() < 0.01);
    assert!((project_x(&boundary[1][0]) - 263.0).abs() < 0.01);

    let removed = cut_by_polygon(&paint, &camera, &rectangle(50.0, 200.0, 450.0, 300.0))
        .expect("valid containing polygon");
    assert!(removed.is_empty());
}

fn test_canvas_polygon(depth: i64, coordinates: &[(f64, f64)]) -> Vec<CanvasPoint> {
    let zero = BigInt::from(0);
    let mut points: Vec<CanvasPoint> = coordinates
        .iter()
        .map(|(x, y)| point(depth, &zero, &zero, *x, *y))
        .collect();
    if let Some(first) = points.first().cloned() {
        points.push(first);
    }
    points
}

fn test_projected_polygon(points: &[CanvasPoint], depth: i64) -> Vec<Position> {
    let zero = BigInt::from(0);
    let camera = camera(depth, &zero, &zero, 0.0, 0.0, 1.0);
    let projected: Vec<Position> = points
        .iter()
        .map(|point| project_far(&camera, point).expect("test point is representable"))
        .collect();
    plane().normalized_pos_polygon(&projected)
}

fn test_fill_area(fragments: &[Vec<CanvasPoint>], depth: i64) -> f32 {
    fragments
        .iter()
        .map(|fragment| polygon_area_twice(&test_projected_polygon(fragment, depth)).abs() * 0.5)
        .sum()
}

fn assert_test_fill_area(fragments: &[Vec<CanvasPoint>], depth: i64, local_area: f32) {
    let expected = local_area * 512.0 * 512.0;
    let actual = test_fill_area(fragments, depth);
    assert!(
        (actual - expected).abs() <= expected.abs().max(1.0) * 1.0e-4,
        "actual={actual} expected={expected} fragments={}",
        fragments.len()
    );
}

fn assert_test_fill_fragments_do_not_overlap(fragments: &[Vec<CanvasPoint>], depth: i64) {
    let projected = fragments
        .iter()
        .map(|fragment| test_projected_polygon(fragment, depth))
        .collect::<Vec<_>>();
    for left in 0..projected.len() {
        for right in left + 1..projected.len() {
            let overlap =
                plane().clip_polygon_to_convex_pos_polygon(&projected[left], &projected[right]);
            assert!(
                polygon_area_twice(&overlap).abs() < 1.0,
                "fragments {left} and {right} overlap"
            );
        }
    }
}

#[test]
fn fill_polygon_difference_preserves_exact_no_op_depth_and_winding() {
    let depth = 37;
    let source = test_canvas_polygon(depth, &[(0.1, 0.1), (0.9, 0.1), (0.9, 0.9), (0.1, 0.9)]);
    let disjoint_reversed =
        test_canvas_polygon(depth, &[(1.2, 0.8), (1.4, 0.8), (1.4, 0.2), (1.2, 0.2)]);
    let tangent = test_canvas_polygon(depth, &[(0.9, 0.3), (1.0, 0.3), (1.0, 0.7), (0.9, 0.7)]);

    let fragments = fill_cut()
        .subtract_fill_polygon(&source, &vec![disjoint_reversed, tangent])
        .expect("subtraction");

    assert_eq!(fragments, vec![source]);
    assert!(fragments.iter().flatten().all(|point| point.depth == depth));
}

#[test]
fn mixed_eraser_keeps_a_visible_cross_depth_fill_mask_representable() {
    let zero = BigInt::from(0);
    let view = camera(-1, &zero, &zero, 0.5, 0.5, 3.0);
    let mut source_camera = view.clone();
    source_camera.jump_to_depth(&optics(), -5);
    source_camera.zoom = shallower_zoom(view.zoom, 4);
    let polygon = |camera: &CameraAddress, min: f64, max: f64| {
        [(min, min), (max, min), (max, max), (min, max), (min, min)]
            .into_iter()
            .map(|(x, y)| pointed(camera, x, y, 512.0, 512.0))
            .collect::<Vec<_>>()
    };
    let source = polygon(&source_camera, -6_000.0, 6_500.0);
    let mask = polygon(&view, 246.0, 266.0);
    let fill = draft(EditKind::Fill, -5, source_camera.zoom, source.clone(), black(), 0);
    let masks = vec![mask];
    let reach = Reach {
        project: |point: &CanvasPoint| project_far(&view, point),
        widen: |rect: ScreenRect, _: &EditOperation| rect,
    };
    let bounds = reach.mask_bounds(&masks).expect("representable").expect("points");

    let touches = ErasedBounds { reach, bounds: Some(bounds) };
    let fills = FillMasks { fill: fill_cut(), masks, camera: view.clone() };
    let changes = subtract_eraser_sources(
        &vec![fill],
        true,
        &touches,
        &Asked { ask: |_: &EditOperation| Ok(Vec::new()) },
        &fills,
        &|operation: EditOperation| Ok(operation),
    )
    .expect("subtraction");

    assert_eq!(changes.len(), 1);
    assert_ne!(changes[0].operations[0].points, source);
    assert!(changes[0]
        .operations
        .iter()
        .flat_map(|fragment| &fragment.points)
        .all(|point| point.depth == -5));
    let projected = changes[0]
        .operations
        .iter()
        .map(|fragment| {
            fragment
                .points
                .iter()
                .map(|point| {
                    let (x, y) = shown(&view, point, 512.0, 512.0)
                        .expect("replacement remains visible at the erase camera");
                    at(x as f32, y as f32)
                })
                .collect::<Vec<_>>()
        })
        .collect::<Vec<_>>();
    assert!(!projected.iter().any(|fragment| inside(at(256.0, 256.0), fragment)));
    assert!(projected.iter().any(|fragment| inside(at(200.0, 200.0), fragment)));
}

#[test]
fn fill_polygon_difference_handles_crossing_containment_and_hole() {
    let depth = -12;
    let source = test_canvas_polygon(depth, &[(0.1, 0.1), (0.9, 0.1), (0.9, 0.9), (0.1, 0.9)]);
    let crossing =
        test_canvas_polygon(depth, &[(0.45, 0.0), (0.55, 0.0), (0.55, 1.0), (0.45, 1.0)]);
    let crossed = fill_cut().subtract_fill_polygon(&source, &vec![crossing]).expect("subtraction");
    assert_test_fill_area(&crossed, depth, 0.56);
    assert!(crossed.len() >= 2);

    let hole = test_canvas_polygon(depth, &[(0.4, 0.4), (0.6, 0.4), (0.6, 0.6), (0.4, 0.6)]);
    let holed = fill_cut().subtract_fill_polygon(&source, &vec![hole]).expect("subtraction");
    assert_test_fill_area(&holed, depth, 0.60);
    assert_test_fill_fragments_do_not_overlap(&holed, depth);
    assert!(holed.len() > 1);
    assert!(holed.iter().all(|fragment| {
        fragment.first() == fragment.last() && fragment.iter().all(|point| point.depth == depth)
    }));

    let containing_reversed =
        test_canvas_polygon(depth, &[(0.0, 1.0), (1.0, 1.0), (1.0, 0.0), (0.0, 0.0)]);
    assert!(fill_cut()
        .subtract_fill_polygon(&source, &vec![containing_reversed])
        .expect("subtraction")
        .is_empty());
}

#[test]
fn fill_polygon_difference_handles_concave_source_mask_and_multiple_masks() {
    let depth = 5;
    let source = test_canvas_polygon(
        depth,
        &[(0.1, 0.1), (0.9, 0.1), (0.9, 0.4), (0.4, 0.4), (0.4, 0.9), (0.1, 0.9)],
    );
    let concave_mask = test_canvas_polygon(
        depth,
        &[(0.2, 0.15), (0.8, 0.15), (0.8, 0.25), (0.4, 0.25), (0.4, 0.35), (0.2, 0.35)],
    );
    let second_mask =
        test_canvas_polygon(depth, &[(0.15, 0.6), (0.25, 0.6), (0.25, 0.8), (0.15, 0.8)]);

    let fragments = fill_cut()
        .subtract_fill_polygon(&source, &vec![concave_mask, second_mask])
        .expect("subtraction");

    assert_test_fill_area(&fragments, depth, 0.29);
    assert_test_fill_fragments_do_not_overlap(&fragments, depth);
    assert!(fragments.len() > 2);
}

#[test]
fn fill_polygon_difference_preserves_degenerate_source_and_rejects_invalid_masks() {
    let depth = 0;
    let triangle = test_canvas_polygon(depth, &[(0.1, 0.1), (0.9, 0.1), (0.5, 0.9)]);
    let crossing =
        test_canvas_polygon(depth, &[(0.45, 0.0), (0.55, 0.0), (0.55, 1.0), (0.45, 1.0)]);
    let degenerate = test_canvas_polygon(depth, &[(0.1, 0.1), (0.2, 0.2), (0.3, 0.3)]);
    assert_eq!(
        fill_cut().subtract_fill_polygon(&degenerate, &vec![]).expect("left alone"),
        vec![degenerate.clone()]
    );
    assert!(fill_cut().subtract_fill_polygon(&triangle, &vec![degenerate]).is_err());

    let mut nonfinite = triangle.clone();
    nonfinite[1].local_x = f64::NAN.to_bits();
    assert!(fill_cut().subtract_fill_polygon(&nonfinite, &vec![]).is_err());

    let error = fill_cut()
        .subtract_fill_polygon_with_limit(&triangle, &vec![crossing], 1)
        .expect_err("crossing must exceed one fragment");
    assert!(error.message().contains("1-fragment limit"));
}

#[test]
fn every_failure_of_a_fill_difference_is_told() {
    let triangle = test_canvas_polygon(0, &[(0.1, 0.1), (0.9, 0.1), (0.5, 0.9)]);
    let empty = fill_cut().subtract_fill_polygon(&vec![], &vec![]).expect_err("nothing there");
    assert_eq!(empty, FillDifferenceError::EmptySource);
    assert_eq!(empty.message(), "fill subtraction source is empty");
    let none = fill_cut()
        .subtract_fill_polygon_with_limit(&triangle, &vec![], 0)
        .expect_err("no fragments allowed");
    assert_eq!(none.message(), "fill subtraction fragment limit is zero");
    let far = test_canvas_polygon(1000, &[(0.1, 0.1), (0.9, 0.1), (0.5, 0.9)]);
    let unrepresentable = fill_cut()
        .subtract_fill_polygon(&triangle, &vec![far])
        .expect_err("too many depths between");
    assert_eq!(unrepresentable.message(), "fill subtraction point is not representable");
    let mut deep = triangle.clone();
    deep[0].depth = i64::MIN;
    let camera = CameraAddress::start();
    let span = fill_cut()
        .subtract_fill_polygon_at_camera(&deep, &vec![], &camera)
        .expect_err("too many depths between");
    assert_eq!(span.message(), "fill subtraction depth span is not representable");
}

#[test]
fn fill_polygon_difference_erases_subpixel_fragments_that_can_be_zoomed_later() {
    let source = test_canvas_polygon(0, &[(0.0, 0.0), (0.001, 0.0), (0.001, 0.001), (0.0, 0.001)]);
    let mask = test_canvas_polygon(
        0,
        &[(-0.001, -0.001), (0.002, -0.001), (0.002, 0.002), (-0.001, 0.002)],
    );

    assert!(fill_cut()
        .subtract_fill_polygon(&source, &vec![mask])
        .expect("subtraction")
        .is_empty());
}

#[test]
fn fill_polygon_difference_stress_stays_below_fixed_fragment_limit() {
    let depth = 0;
    let source =
        test_canvas_polygon(depth, &[(0.05, 0.05), (0.95, 0.05), (0.95, 0.95), (0.05, 0.95)]);
    let masks = (0..48)
        .map(|index| {
            let left = 0.06 + index as f64 * 0.018;
            test_canvas_polygon(
                depth,
                &[(left, 0.04), (left + 0.006, 0.04), (left + 0.006, 0.96), (left, 0.96)],
            )
        })
        .collect::<Vec<_>>();

    let fragments = fill_cut().subtract_fill_polygon(&source, &masks).expect("subtraction");

    assert!(fragments.len() <= 256, "fragments={}", fragments.len());
    assert_eq!(fragments.len(), 98);
    assert_test_fill_fragments_do_not_overlap(&fragments, depth);
    assert_test_fill_area(&fragments, depth, 0.81 - 48.0 * 0.006 * 0.9);
}

#[test]
fn area_polygon_clips_fill_covering_area_into_one_selected_polygon() {
    let area = plane().normalized_pos_polygon(&list(&[
        (0.0, 0.0),
        (10.0, 0.0),
        (10.0, 10.0),
        (0.0, 10.0),
    ]));
    let subject = list(&[(-5.0, -5.0), (15.0, -5.0), (15.0, 15.0), (-5.0, 15.0)]);

    let fragments = plane().clip_pos_area_operation_to_polygon(&subject, &area);

    assert_eq!(fragments.len(), 1);
    assert_eq!(pairs(&fragments[0]), pairs(&area));
}

#[test]
fn area_polygon_clips_partial_fill_to_single_convex_result() {
    let area = plane().normalized_pos_polygon(&list(&[
        (0.0, 0.0),
        (10.0, 0.0),
        (10.0, 10.0),
        (0.0, 10.0),
    ]));
    let subject = list(&[(5.0, -5.0), (15.0, -5.0), (15.0, 15.0), (5.0, 15.0)]);

    let fragments = plane().clip_pos_area_operation_to_polygon(&subject, &area);

    assert_eq!(fragments.len(), 1);
    assert!(pairs(&fragments[0])
        .iter()
        .all(|(x, y)| *x >= 4.99 && *x <= 10.01 && *y >= -0.01 && *y <= 10.01));
}

fn circle_mask(center: Position, radius: f32) -> Vec<Position> {
    (0..16)
        .map(|step| {
            let angle = std::f32::consts::TAU * step as f32 / 16.0;
            at(x(center) + angle.cos() * radius, y(center) + angle.sin() * radius)
        })
        .collect()
}

fn long_capsule(start: Position, end: Position, width: u32) -> Vec<Position> {
    let radius = f32::from_bits(width) * 0.5;
    let angle = (y(end) - y(start)).atan2(x(end) - x(start));
    let mut polygon = Vec::new();
    for (center, turn) in
        [(end, -std::f32::consts::FRAC_PI_2), (start, std::f32::consts::FRAC_PI_2)]
    {
        for step in 0..=8 {
            let theta = angle + turn + std::f32::consts::PI * step as f32 / 8.0;
            polygon.push(at(x(center) + theta.cos() * radius, y(center) + theta.sin() * radius));
        }
    }
    polygon
}

type Simplify = fn(&Vec<Position>) -> Vec<Position>;
type Round = fn(Position, u32) -> Vec<Position>;
type Length = fn(Position, Position) -> u32;
type Wrap = fn(Position, Position, u32) -> Vec<Position>;

fn eraser_tip() -> EraserTip<Simplify, Round, Length, Wrap, Wrap> {
    EraserTip {
        simplify: |points: &Vec<Position>| match points.len() {
            0 | 1 => points.clone(),
            count => vec![points[0], points[count - 1]],
        },
        circle: |center: Position, width: u32| circle_mask(center, f32::from_bits(width) * 0.5),
        length: |a: Position, b: Position| distance(a, b).to_bits(),
        dot: |a: Position, b: Position, width: u32| {
            circle_mask(lerp(a, b, 0.5), f32::from_bits(width) * 0.5 + distance(a, b) * 0.5)
        },
        capsule: long_capsule,
    }
}

#[test]
fn generated_eraser_capsules_are_triangulatable() {
    for radius in [0.5f32, 1.0, 10.0, 250.0] {
        for length in [0.0001, 0.001, 0.01, 0.1, 0.24, 0.25, 1.0, 100.0] {
            for angle in [0.0_f32, 0.3, 1.0, 2.4] {
                let end = at(angle.cos() * length, angle.sin() * length);
                let polygon = eraser_tip().capsule_mask_polygon(
                    at(0.0, 0.0),
                    end,
                    (radius * 2.0).to_bits(),
                );
                if let Err(error) = fill_cut().triangulate_fill_polygon(&polygon) {
                    panic!(
                        "radius={radius} length={length} angle={angle}: {}",
                        error.message()
                    );
                }
            }
        }
    }
}

fn view_placing() -> Placing<fn(Position) -> CanvasPoint> {
    Placing {
        place: |position: Position| {
            pointed(
                &CameraAddress::start(),
                f64::from(x(position)),
                f64::from(y(position)),
                512.0,
                512.0,
            )
        },
    }
}

#[test]
fn fill_eraser_mask_simplifies_a_dense_straight_path_to_two_capsules_at_most() {
    let path = (0..200).map(|step| at(100.0 + step as f32, 256.0)).collect::<Vec<_>>();
    let masks = eraser_tip()
        .eraser_path_fill_masks(
            &vec![EraserPath { points: path, width: 20.0f32.to_bits() }],
            &view_placing(),
        )
        .expect("valid path");

    assert!(masks.len() <= 2, "masks={}", masks.len());
    assert!(masks.iter().all(|mask| mask.len() == 18));
}

#[test]
fn a_straight_eraser_path_covers_one_capsule_and_a_click_a_circle() {
    let path = (0..200).map(|step| at(100.0 + step as f32, 256.0)).collect::<Vec<_>>();
    let masks = eraser_tip()
        .eraser_path_fill_masks(
            &vec![
                EraserPath { points: path, width: 20.0f32.to_bits() },
                EraserPath { points: list(&[(50.0, 50.0)]), width: 8.0f32.to_bits() },
                EraserPath { points: list(&[(50.0, 50.0), (50.2, 50.0)]), width: 8.0f32.to_bits() },
            ],
            &view_placing(),
        )
        .expect("valid paths");
    assert_eq!(masks.len(), 3);
    assert_eq!(masks[0].len(), 18);
    assert_eq!(masks[1].len(), 16);
    assert_eq!(masks[2].len(), 16);
    let (right, _) = shown(&CameraAddress::start(), &masks[1][0], 512.0, 512.0).expect("near");
    assert!((right - 54.0).abs() < 0.001);
}

#[test]
fn an_eraser_path_without_points_or_width_is_refused() {
    let points = list(&[(50.0, 50.0)]);
    for path in [
        EraserPath { points: Vec::new(), width: 8.0f32.to_bits() },
        EraserPath { points: points.clone(), width: 0 },
        EraserPath { points: points.clone(), width: (-1.0f32).to_bits() },
        EraserPath { points, width: f32::NAN.to_bits() },
    ] {
        let refused = eraser_tip().eraser_path_fill_masks(&vec![path], &view_placing());
        assert_eq!(refused.err(), Some("eraser path produced invalid Fill mask geometry"));
    }
}

#[test]
fn area_rectangle_is_stored_as_canvas_corners() {
    let placing = Placing {
        place: |position: Position| {
            pointed(
                &CameraAddress::start(),
                f64::from(x(position) - 10.0),
                f64::from(y(position) - 20.0),
                512.0,
                512.0,
            )
        },
    };
    let points = placing.area_rectangle_points(at(110.0, 120.0), at(210.0, 220.0));
    let zero = BigInt::from(0);

    assert_eq!(points.len(), 4);
    assert_eq!(points[0], point(0, &zero, &zero, 0.1953125, 0.1953125));
    assert_eq!(points[2], point(0, &zero, &zero, 0.390625, 0.390625));
}

#[test]
fn area_lasso_rejects_degenerate_and_stores_canvas_points() {
    let placing = view_placing();
    assert!(plane().area_lasso_points(&placing, &list(&[(1.0, 1.0), (2.0, 2.0)])).is_none());

    let points = plane()
        .area_lasso_points(&placing, &list(&[(128.0, 128.0), (384.0, 128.0), (384.0, 384.0)]))
        .expect("valid area lasso");
    let zero = BigInt::from(0);
    assert_eq!(points.len(), 3);
    assert_eq!(points[0], point(0, &zero, &zero, 0.25, 0.25));
    assert_eq!(points[2], point(0, &zero, &zero, 0.75, 0.75));
}

#[test]
fn a_lasso_of_the_eraser_is_one_closed_area_of_the_layer() {
    let placing = view_placing();
    let operation = plane()
        .eraser_lasso_operation(
            &placing,
            &list(&[(100.0, 100.0), (300.0, 100.0), (200.0, 300.0)]),
            0,
            1.0f64.to_bits(),
            77,
        )
        .expect("valid lasso");
    assert_eq!(operation.kind, EditKind::EraseArea);
    assert_eq!(operation.layer_id, 77);
    assert_eq!(operation.points.len(), 4);
    assert_eq!(operation.points.first(), operation.points.last());
    assert_eq!(operation.color, Color::rgba(255, 255, 255, 255));
    assert!(plane()
        .eraser_lasso_operation(
            &placing,
            &list(&[(10.0, 10.0), (20.0, 20.0), (30.0, 30.0)]),
            0,
            1.0f64.to_bits(),
            77,
        )
        .is_none());
}

#[test]
fn it_is_told_why_bounds_are_not_known() {
    let reach = Reach {
        project: |point: &CanvasPoint| match point.depth {
            0 => Some(at(f64::from_bits(point.local_x) as f32, 2.0)),
            1 => Some(at(f32::NAN, 2.0)),
            _ => None,
        },
        widen: |rect: ScreenRect, _: &EditOperation| ScreenRect {
            min: at(x(rect.min) - 5.0, y(rect.min) - 5.0),
            max: at(x(rect.max) + 5.0, y(rect.max) + 5.0),
        },
    };
    let zero = BigInt::from(0);
    let here = |local: f64| point(0, &zero, &zero, local, 0.0);
    assert!(reach.canvas_points_screen_bounds(&vec![]).expect("nothing").is_none());
    let bounds =
        reach.canvas_points_screen_bounds(&vec![here(0.75), here(0.25)]).expect("known");
    let bounds = bounds.expect("points");
    assert_eq!((x(bounds.min), x(bounds.max)), (0.25, 0.75));
    let nowhere = point(1, &zero, &zero, 0.5, 0.5);
    let too_deep = point(2, &zero, &zero, 0.5, 0.5);
    let not_finite = reach
        .canvas_points_screen_bounds(&vec![here(0.5), nowhere.clone(), too_deep.clone()])
        .expect_err("not finite");
    assert_eq!(not_finite.message(), "eraser source bounds are not finite");
    let not_representable = reach
        .canvas_points_screen_bounds(&vec![too_deep, nowhere])
        .expect_err("too deep");
    assert_eq!(not_representable.message(), "eraser source bounds are not representable");

    let eraser = ScreenRect { min: at(5.0, 0.0), max: at(9.0, 3.0) };
    let mut operation = draft(EditKind::Fill, 0, 0, vec![here(0.5)], black(), 0);
    assert_eq!(reach.eraser_touches(&operation, &eraser), Ok(false));
    operation.kind = EditKind::Paint;
    assert_eq!(reach.eraser_touches(&operation, &eraser), Ok(true));
}

#[test]
fn points_have_bounds_where_they_are_finite() {
    let bounds = pos2_bounds(&list(&[(3.0, -1.0), (-2.0, 5.0), (0.0, 0.0)])).expect("points");
    assert_eq!((x(bounds.min), y(bounds.min)), (-2.0, -1.0));
    assert_eq!((x(bounds.max), y(bounds.max)), (3.0, 5.0));
    assert!(pos2_bounds(&vec![]).is_none());
    assert!(pos2_bounds(&list(&[(0.0, 0.0), (f32::NAN, 0.0)])).is_none());
    let turned = transformed_rect_bounds(&bounds, &|position: Position| {
        at(-y(position), x(position))
    });
    assert_eq!((x(turned.min), y(turned.min)), (-5.0, -2.0));
    assert_eq!((x(turned.max), y(turned.max)), (1.0, 3.0));
}

#[test]
fn rectangles_meet_where_they_have_a_position_in_common() {
    let left = ScreenRect::from_two_pos(at(4.0, 4.0), at(0.0, 0.0));
    let right = ScreenRect::from_two_pos(at(4.0, 1.0), at(8.0, 2.0));
    assert!(left.contains(at(4.0, 0.0)));
    assert!(left.intersects(&right) && right.intersects(&left));
    assert!(!left.intersects(&ScreenRect::from_two_pos(at(5.0, 1.0), at(8.0, 2.0))));
    let both = left.union(&right);
    assert_eq!((x(both.max), y(both.max)), (8.0, 4.0));
    assert_eq!(
        pairs(&left.corners()),
        vec![(0.0, 0.0), (4.0, 0.0), (4.0, 4.0), (0.0, 4.0)]
    );
}

#[test]
fn an_operation_off_the_screen_is_left_out() {
    let camera = CameraAddress::start();
    let projection = CornerProjection {
        project: |point: &CanvasPoint| position_in_view(&camera, point),
        widen: |rect: ScreenRect| ScreenRect {
            min: at(x(rect.min) - 2.0, y(rect.min) - 2.0),
            max: at(x(rect.max) + 2.0, y(rect.max) + 2.0),
        },
    };
    let screen = ScreenRect { min: at(0.0, 0.0), max: at(512.0, 512.0) };
    let tile = |number: i64| index_of(&BigInt::from(number));
    let bounds = |depth: i64, number: i64| OperationBounds {
        depth,
        min_x: tile(number),
        max_x: tile(number),
        min_y: tile(0),
        max_y: tile(0),
    };
    assert!(projection.operation_bounds_may_intersect_screen_rect(&bounds(0, 0), &screen));
    assert!(projection.operation_bounds_may_intersect_screen_rect(&bounds(0, 1), &screen));
    assert!(!projection.operation_bounds_may_intersect_screen_rect(&bounds(0, 2), &screen));
    // Where it is not known where it is, it may be seen.
    assert!(projection.operation_bounds_may_intersect_screen_rect(&bounds(1000, 2), &screen));
}

fn steps(distance: u32, length: u32) -> usize {
    (f32::from_bits(distance) / f32::from_bits(length)).ceil().max(1.0) as usize
}

type Project = fn(&CanvasPoint) -> Option<Position>;
type Steps = fn(u32, u32) -> usize;
type Between = fn(Position, Position, usize, usize) -> Position;
type Place = fn(Position) -> CanvasPoint;

fn pen() -> Pen<Project, Length, Steps, Between, Place> {
    Pen {
        project: |point: &CanvasPoint| position_in_view(&CameraAddress::start(), point),
        distance: |a: Position, b: Position| distance(a, b).to_bits(),
        steps,
        between: |a: Position, b: Position, step: usize, count: usize| {
            lerp(a, b, step as f32 / count as f32)
        },
        place: view_placing().place,
    }
}

#[test]
fn lasso_preview_skips_points_below_minimum_spacing() {
    let mut points = list(&[(0.0, 0.0)]);

    pen().append_preview_point(&mut points, at(1.0, 0.0), 2.0f32.to_bits());
    pen().append_preview_point(&mut points, at(2.0, 0.0), 2.0f32.to_bits());

    assert_eq!(pairs(&points), vec![(0.0, 0.0), (2.0, 0.0)]);
}

#[test]
fn lasso_preview_interpolates_large_pointer_gaps() {
    let mut points = list(&[(0.0, 0.0)]);

    pen().append_preview_point(&mut points, at(10.0, 0.0), 2.0f32.to_bits());

    assert_eq!(pairs(&points).last(), Some(&(10.0, 0.0)));
    assert!(points.len() > 2);
    assert!(points
        .windows(2)
        .all(|segment| distance(segment[0], segment[1]) <= 4.0 + f32::EPSILON));
}

const BRUSH_SPACING: f32 = 2.0;
const FILL_SPACING: f32 = 2.0;

fn decision(kind: EditKind, distance: f32, fill: f32, brush: f32) -> PointAppendDecision {
    point_append_decision(kind, distance.to_bits(), fill.to_bits(), brush.to_bits())
}

#[test]
fn drawing_interpolates_large_pointer_jumps() {
    let decide =
        |kind: EditKind, distance: f32| decision(kind, distance, FILL_SPACING, BRUSH_SPACING);
    assert_eq!(decide(EditKind::Paint, 1.0), PointAppendDecision::Skip);
    assert_eq!(decide(EditKind::Paint, 4.0), PointAppendDecision::Append);
    assert_eq!(decide(EditKind::Paint, 9.0), PointAppendDecision::Interpolate);
    assert_eq!(decide(EditKind::Fill, 1.5), PointAppendDecision::Skip);
    assert_eq!(decide(EditKind::Fill, 3.0), PointAppendDecision::Append);
    assert_eq!(decide(EditKind::Fill, 5.0), PointAppendDecision::Interpolate);
}

#[test]
fn a_long_fill_jump_takes_as_many_steps_as_its_gap_asks_for() {
    let start = pointed(&CameraAddress::start(), 0.0, 256.0, 512.0, 512.0);
    let mut fill = draft(EditKind::Fill, 0, 1.0f64.to_bits(), vec![start], black(), 0);
    pen().append_interpolated_points(&mut fill, at(128.0, 256.0));
    assert_eq!(fill.points.len(), 33);
    pen().append_interpolated_points(&mut fill, at(10_128.0, 256.0));
    assert_eq!(fill.points.len(), 33 + 2500);
}

#[test]
fn a_fill_draft_goes_on_taking_points_however_many_it_has() {
    let zero = BigInt::from(0);
    let start = point(0, &zero, &zero, 0.5, 0.5);
    let mut fill =
        draft(EditKind::Fill, 0, 1.0f64.to_bits(), vec![start.clone(); 4096], black(), 0);
    pen().append_interpolated_points(&mut fill, at(276.0, 256.0));
    assert!(fill.points.len() > 4096);
    assert_eq!(fill.points.first(), Some(&start));
}

#[test]
fn input_density_does_not_change_when_jumps_are_bridged() {
    assert_eq!(decision(EditKind::Paint, 1.0, 1.0, 0.75), PointAppendDecision::Append);
    assert_eq!(decision(EditKind::Paint, 1.0, 4.0, 8.0), PointAppendDecision::Skip);
    assert_eq!(decision(EditKind::Paint, 10.0, 1.0, 0.75), PointAppendDecision::Interpolate);
    assert_eq!(decision(EditKind::Paint, 10.0, 4.0, 8.0), PointAppendDecision::Interpolate);
    assert_eq!(decision(EditKind::Fill, 3.0, 1.0, 0.75), PointAppendDecision::Append);
    assert_eq!(decision(EditKind::Fill, 3.0, 4.0, 8.0), PointAppendDecision::Skip);
    assert_eq!(decision(EditKind::Fill, 5.0, 4.0, 8.0), PointAppendDecision::Interpolate);
    let fill = draft(
        EditKind::Fill,
        0,
        1.0f64.to_bits(),
        test_canvas_polygon(0, &[(0.25, 0.25), (0.75, 0.25), (0.75, 0.75)]),
        black(),
        8.0f32.to_bits(),
    );
    assert!(!should_paint_fill_fallback(&fill, 0, 129, 2, 0));
}

#[test]
fn final_endpoint_bypasses_sparse_input_threshold() {
    let camera = CameraAddress::start();
    let start = pointed(&camera, 256.0, 256.0, 512.0, 512.0);
    let mut paint =
        draft(EditKind::Paint, 0, 1.0f64.to_bits(), vec![start], black(), 8.0f32.to_bits());

    pen().append_interpolated_points(&mut paint, at(261.0, 256.0));

    assert_eq!(paint.points.len(), 2);
    let (x, y) = shown(&camera, &paint.points[1], 512.0, 512.0).expect("endpoint projects");
    assert!((x - 261.0).abs() <= f64::EPSILON);
    assert!((y - 256.0).abs() <= f64::EPSILON);
}

fn spot(x: f64, y: f64) -> SelectionPoint {
    SelectionPoint { x: x.to_bits(), y: y.to_bits() }
}

fn pair_of(point: SelectionPoint) -> (f64, f64) {
    (f64::from_bits(point.x), f64::from_bits(point.y))
}

type Spots = [(f64, f64)];

fn spots(points: &Spots) -> Vec<SelectionPoint> {
    points.iter().map(|(x, y)| spot(*x, *y)).collect()
}

fn measured<R>(
    width: f64,
    click: (f64, f64),
    ask: impl FnOnce(
        &ClickMeasures<
            &dyn Fn(SelectionPoint) -> u64,
            &dyn Fn(SelectionPoint, SelectionPoint) -> u64,
            &dyn Fn(&Vec<SelectionPoint>) -> bool,
            &dyn Fn(u64, bool) -> u64,
            &dyn Fn(SelectionExtent, bool) -> u64,
        >,
    ) -> R,
) -> R {
    ask(&ClickMeasures {
        point: &|point: SelectionPoint| point_distance(click, pair_of(point)).to_bits(),
        segment: &|start: SelectionPoint, end: SelectionPoint| {
            point_segment_distance(click, pair_of(start), pair_of(end)).to_bits()
        },
        inside: &|points: &Vec<SelectionPoint>| {
            let polygon: Vec<Position> = points
                .iter()
                .map(|point| at(pair_of(*point).0 as f32, pair_of(*point).1 as f32))
                .collect();
            inside(at(click.0 as f32, click.1 as f32), &polygon)
        },
        beyond: &|distance: u64, has_width: bool| {
            let radius = if has_width { width.max(0.0) * 0.5 } else { 0.0 };
            (f64::from_bits(distance) - radius).max(0.0).to_bits()
        },
        area: &|extent: SelectionExtent, has_width: bool| {
            let radius = if has_width { width.max(0.0) * 0.5 } else { 0.0 };
            let (min, max) = (pair_of(extent.min), pair_of(extent.max));
            let width = (max.0 - min.0 + radius * 2.0).max(1.0);
            let height = (max.1 - min.1 + radius * 2.0).max(1.0);
            (width * height).to_bits()
        },
    })
}

fn scored(kind: EditKind, points: &Spots, width: f64, click: (f64, f64)) -> Option<(f64, f64)> {
    measured(width, click, |measures| {
        measures
            .operation_click_score(kind, &spots(points))
            .map(|score| (f64::from_bits(score.distance), f64::from_bits(score.area)))
    })
}

fn picked(kind: EditKind, points: &Spots, width: f64, click: (f64, f64)) -> bool {
    measured(width, click, |measures| {
        measures.operation_pick_hit(kind, &spots(points), (width.max(1.0) * 0.5).to_bits())
    })
}

#[test]
fn eyedropper_hit_test_uses_stroke_radius_and_fill_area() {
    let stroke = [(0.0, 10.0), (20.0, 10.0)];
    assert!(picked(EditKind::Paint, &stroke, 6.0, (10.0, 12.9)));
    assert!(!picked(EditKind::Paint, &stroke, 6.0, (10.0, 14.1)));

    let fill = [(0.0, 0.0), (20.0, 0.0), (20.0, 20.0), (0.0, 20.0)];
    assert!(picked(EditKind::Fill, &fill, 1.0, (10.0, 10.0)));
    assert!(!picked(EditKind::Fill, &fill, 1.0, (30.0, 10.0)));
}

#[test]
fn click_selection_prefers_the_smaller_overlapping_operation() {
    let click = (5.0, 5.0);
    let long = [(-100.0, 5.0), (100.0, 5.0)];
    let small = [(4.0, 5.0), (6.0, 5.0)];

    let long_score = scored(EditKind::Paint, &long, 2.0, click).expect("long line hit");
    let small_score = scored(EditKind::Paint, &small, 2.0, click).expect("small line hit");

    assert_eq!(long_score.0, small_score.0);
    assert!(small_score.1 < long_score.1);
}

#[test]
fn click_selection_hits_fill_interior_and_rejects_distant_geometry() {
    let fill = [(0.0, 0.0), (10.0, 0.0), (10.0, 10.0), (0.0, 10.0)];

    assert!(scored(EditKind::Fill, &fill, 0.0, (5.0, 5.0)).is_some());
    assert!(scored(EditKind::Fill, &fill, 0.0, (30.0, 30.0)).is_none());
}

#[test]
fn inside_rectangle_rejects_crossing_strokes_and_respects_width() {
    let contained = |points: &[(f64, f64)]| {
        let within = |point: &(f64, f64), has_width: bool| {
            let radius = if has_width { 2.0 * 0.5 } else { 0.0 };
            point.0 - radius >= 0.0
                && point.0 + radius <= 10.0
                && point.1 - radius >= 0.0
                && point.1 + radius <= 10.0
        };
        operation_contained_by_rectangle(EditKind::Paint, &points.to_vec(), &within)
    };

    assert!(contained(&[(2.0, 5.0), (8.0, 5.0)]));
    assert!(!contained(&[(-1.0, 5.0), (8.0, 5.0)]));
    assert!(!contained(&[(0.5, 5.0), (8.0, 5.0)]));
}

#[test]
fn a_click_hits_what_is_near_enough() {
    let line = [(0.0, 0.0), (100.0, 0.0)];
    assert_eq!(scored(EditKind::Paint, &line, 10.0, (50.0, 3.0)), Some((0.0, 1100.0)));
    assert_eq!(scored(EditKind::Paint, &line, 10.0, (50.0, 8.0)), Some((3.0, 1100.0)));
    assert_eq!(scored(EditKind::Paint, &line, 10.0, (50.0, 11.0)), Some((6.0, 1100.0)));
    assert_eq!(scored(EditKind::Paint, &line, 10.0, (50.0, 11.5)), None);
    assert_eq!(scored(EditKind::Paint, &[(2.0, 2.0)], 1.0, (5.0, 6.0)), Some((4.5, 1.0)));
    assert_eq!(scored(EditKind::Paint, &[], 10.0, (0.0, 0.0)), None);
    let square = [(0.0, 0.0), (20.0, 0.0), (20.0, 20.0), (0.0, 20.0)];
    assert_eq!(scored(EditKind::Fill, &square, 10.0, (10.0, 10.0)), Some((0.0, 400.0)));
    assert_eq!(scored(EditKind::Fill, &square, 10.0, (-4.0, 10.0)), Some((4.0, 400.0)));
    assert_eq!(scored(EditKind::Fill, &square, 10.0, (-7.0, 10.0)), None);
}

#[test]
fn a_rectangle_contains_an_operation_with_its_width() {
    let within = |point: &(f64, f64), has_width: bool| {
        let radius = if has_width { 2.0 } else { 0.0 };
        point.0 - radius >= 0.0
            && point.0 + radius <= 10.0
            && point.1 - radius >= 0.0
            && point.1 + radius <= 10.0
    };
    let inner = vec![(2.0, 2.0), (8.0, 8.0)];
    let outer = vec![(1.0, 2.0), (8.0, 8.0)];
    assert!(operation_contained_by_rectangle(EditKind::Paint, &inner, &within));
    assert!(!operation_contained_by_rectangle(EditKind::Paint, &outer, &within));
    assert!(operation_contained_by_rectangle(EditKind::Fill, &outer, &within));
    assert!(!operation_contained_by_rectangle(EditKind::Fill, &Vec::new(), &within));
}

#[test]
fn rows_are_filled_between_crossings() {
    let scan = Scan {
        cross: |a: Position, b: Position, row: u32| {
            let row = f32::from_bits(row);
            if (y(a) > row) == (y(b) > row) {
                return None;
            }
            let place = x(a) + (row - y(a)) * (x(b) - x(a)) / (y(b) - y(a));
            Some(Single { bits: place.to_bits() })
        },
        reaches: |start: u32, end: u32| f32::from_bits(start) <= f32::from_bits(end) + 1.0e-3,
        center: |row: i32| (row as f32 + 0.5).to_bits(),
    };
    let square = list(&[(2.0, 0.0), (6.0, 0.0), (6.0, 2.0), (2.0, 2.0)]);
    let beside = list(&[(6.0, 0.0), (9.0, 0.0), (9.0, 2.0), (6.0, 2.0)]);
    let rows = scan.fill_rows(
        &vec![square, beside],
        0,
        3,
        0.0f32.to_bits(),
        8.0f32.to_bits(),
    );
    let rows: Vec<(i32, f32, f32)> = rows
        .iter()
        .map(|(row, span)| (*row, f32::from_bits(span.left), f32::from_bits(span.right)))
        .collect();
    assert_eq!(rows, vec![(0, 2.0, 8.0), (1, 2.0, 8.0)]);
}

#[test]
fn mixed_eraser_skips_a_disjoint_untriangulatable_fill_inside_compact_block() {
    let camera = CameraAddress::start();
    let paint = stroke_across(&camera);
    let invalid_fill = draft(
        EditKind::Fill,
        camera.depth,
        camera.zoom,
        [
            (5_000.0, 0.0),
            (5_100.0, 100.0),
            (5_000.0, 100.0),
            (5_100.0, 0.0),
            (5_000.0, 0.0),
        ]
        .into_iter()
        .map(|(x, y)| pointed(&camera, x, y, 512.0, 512.0))
        .collect(),
        black(),
        0,
    );
    let invalid_fill_id = invalid_fill.id;
    let mut block = draft(EditKind::CompactBlock, 0, 0, paint.points.clone(), black(), 0);
    block.compact_sources = vec![paint, invalid_fill];
    let path = [(250.0, 100.0), (250.0, 400.0)];
    let masks = eraser_tip()
        .eraser_path_fill_masks(
            &vec![EraserPath { points: list(&path), width: 20.0f32.to_bits() }],
            &view_placing(),
        )
        .expect("valid path");
    let reach = Reach {
        project: |point: &CanvasPoint| position_in_view(&camera, point),
        widen: |rect: ScreenRect, operation: &EditOperation| {
            let radius = f32::from_bits(operation.width_px) * 0.5;
            ScreenRect {
                min: at(x(rect.min) - radius, y(rect.min) - radius),
                max: at(x(rect.max) + radius, y(rect.max) + radius),
            }
        },
    };
    let bounds = reach.mask_bounds(&masks).expect("representable").expect("points");

    let touches = ErasedBounds { reach, bounds: Some(bounds) };
    let strokes = StrokeMasks {
        masks: vec![EraserPath { points: list(&path), width: 20.0f32.to_bits() }],
        cut: AlongPath {
            stroke: stroke_cut(&camera),
            radius: |run: &EditOperation, eraser_width: u32| {
                let width = f32::from_bits(run.width_px) + f32::from_bits(eraser_width);
                (f64::from(width) * 0.5).to_bits()
            },
        },
    };
    let fills = FillMasks { fill: fill_cut(), masks, camera: camera.clone() };
    let changes = subtract_eraser_sources(
        &vec![block],
        true,
        &touches,
        &strokes,
        &fills,
        &|operation: EditOperation| Ok(operation),
    )
    .expect("subtraction");

    assert_eq!(changes.len(), 1);
    assert!(changes[0].operations[0]
        .compact_sources
        .iter()
        .any(|source| source.id == invalid_fill_id && source.kind == EditKind::Fill));
    assert!(
        changes[0].operations[0]
            .compact_sources
            .iter()
            .filter(|source| source.kind == EditKind::Paint)
            .count()
            > 1
    );
}

fn mask_of(points: &[(f32, f32)]) -> EditOperation {
    let mut mask = stroke_across(&CameraAddress::start());
    mask.points = view_placing().place_all(&list(points));
    mask
}

fn mask_view() -> MaskView<fn(&CanvasPoint) -> Option<Position>, fn(&EditOperation) -> u32> {
    MaskView {
        project: |point: &CanvasPoint| position_in_view(&CameraAddress::start(), point),
        width: |operation: &EditOperation| operation.width_px,
    }
}

#[test]
fn masks_are_found_on_the_screen() {
    let masks = vec![mask_of(&[(10.0, 10.0), (60.0, 10.0), (60.0, 60.0)])];
    let paths = mask_view().eraser_paths(&masks).ok().unwrap();
    assert_eq!(paths.len(), 1);
    assert_eq!(paths[0].points.len(), 3);
    assert!((x(paths[0].points[1]) - 60.0).abs() < 0.01);
    assert_eq!(paths[0].width, masks[0].width_px);
    let polygons = mask_view().eraser_polygons(&plane(), &masks).unwrap();
    assert_eq!(polygons[0].len(), 3);

    let line = vec![mask_of(&[(10.0, 10.0), (60.0, 10.0)])];
    assert_eq!(mask_view().eraser_polygons(&plane(), &line).err(), Some(LassoError::Degenerate));

    let mut far = mask_of(&[(10.0, 10.0), (60.0, 10.0), (60.0, 60.0)]);
    far.points[1].depth = 10_000;
    assert_eq!(
        mask_view().eraser_paths(&vec![far.clone()]).err(),
        Some("eraser mask is not representable at the current camera")
    );
    let refused = mask_view().eraser_polygons(&plane(), &vec![far]).err();
    assert_eq!(refused, Some(LassoError::NotRepresentable));
    assert_eq!(
        LassoError::NotRepresentable.message(),
        "eraser lasso is not representable at the current camera"
    );
    assert_eq!(
        LassoError::Degenerate.message(),
        "eraser lasso produced a degenerate polygon after Area selection clipping"
    );
}

#[test]
fn every_mask_cuts_what_the_masks_before_it_left() {
    let stroke = stroke_across(&CameraAddress::start());
    let twice = Asked {
        ask: |run: &EditOperation, copies: &usize| {
            (*copies < 9).then(|| vec![run.points.clone(); *copies])
        },
    };
    assert_eq!(cut_by_each(&stroke, &vec![], &twice).unwrap().len(), 1);
    assert_eq!(cut_by_each(&stroke, &vec![2, 3], &twice).unwrap().len(), 6);
    assert_eq!(cut_by_each(&stroke, &vec![2, 0, 9], &twice).unwrap().len(), 0);
    assert_eq!(
        cut_by_each(&stroke, &vec![2, 9], &twice).err(),
        Some("paint subtraction is not representable at the current camera")
    );
}

fn clipped(drawn: &EditOperation, area: Option<&[(f32, f32)]>) -> AreaClip {
    let corners = area.map(|corners| view_placing().place_all(&list(corners)));
    line_clip().area_clip(&mask_view(), &plane(), &view_placing(), drawn, corners.as_ref())
}

#[test]
fn a_draft_is_clipped_to_the_selected_area() {
    let stroke = mask_of(&[(100.0, 256.0), (400.0, 256.0)]);
    let around = [(50.0, 50.0), (450.0, 50.0), (450.0, 450.0), (50.0, 450.0)];
    let half = [(200.0, 50.0), (450.0, 50.0), (450.0, 450.0), (200.0, 450.0)];
    let beside = [(50.0, 50.0), (90.0, 50.0), (90.0, 90.0)];
    assert!(matches!(clipped(&stroke, None), AreaClip::Unlimited));
    assert!(matches!(clipped(&stroke, Some(&around[..2])), AreaClip::Unlimited));
    assert!(matches!(clipped(&stroke, Some(&around)), AreaClip::Unchanged));
    match clipped(&stroke, Some(&half)) {
        AreaClip::Pieces(pieces) => {
            assert_eq!(pieces.len(), 1);
            let start = position_in_view(&CameraAddress::start(), &pieces[0][0]).unwrap();
            assert!((x(start) - 200.0).abs() < 0.05);
        }
        other => panic!("{other:?}"),
    }
    match clipped(&stroke, Some(&beside)) {
        AreaClip::Pieces(pieces) => assert!(pieces.is_empty()),
        other => panic!("{other:?}"),
    }

    let mut block = mask_of(&[(100.0, 256.0), (400.0, 256.0)]);
    block.kind = EditKind::CompactBlock;
    assert!(matches!(clipped(&block, Some(&half)), AreaClip::Unlimited));
    let mut far = mask_of(&[(100.0, 256.0), (400.0, 256.0)]);
    far.points[0].depth = 10_000;
    assert!(matches!(clipped(&far, Some(&half)), AreaClip::Unlimited));
    let mut fill = mask_of(&[(100.0, 100.0), (400.0, 100.0), (400.0, 400.0)]);
    fill.kind = EditKind::Fill;
    match clipped(&fill, Some(&half)) {
        AreaClip::Pieces(pieces) => assert!(pieces[0].len() >= 3),
        other => panic!("{other:?}"),
    }
}

fn tiles_of(camera: &CameraAddress) -> (i64, i64) {
    let small = |tile: &TileIndex| number(tile).to_i64().expect("small number");
    (small(&camera.tile_x), small(&camera.tile_y))
}

#[test]
fn jumps_move_the_camera_and_drop_what_was_selected_elsewhere() {
    let mut editor = Editor::new(&vec![], 1, "Layer 1", vec![]);
    let mut camera = CameraAddress::start();
    editor.selection.selected_operation_ids.insert(7);

    assert_eq!(editor.jump_to_target_depth(&mut camera, &optics(), 1), "Already at depth 0");
    assert_eq!(editor.tiles.last_zoom_change, None);
    editor.depth_jump_target = 2;
    assert_eq!(editor.jump_to_target_depth(&mut camera, &optics(), 2), "Depth 2");
    assert_eq!(camera.depth, 2);
    assert_eq!(tiles_of(&camera), (32, 32));
    assert_eq!((editor.capture_depth, editor.depth_jump_target), (2, 2));
    assert!(editor.selection.selected_operation_ids.is_empty());

    editor.depth_jump_target = i64::MAX;
    assert_eq!(editor.jump_to_target_depth(&mut camera, &optics(), 3), "Depth 10000");
    assert_eq!((camera.depth, editor.depth_jump_target), (10_000, 10_000));
}

#[test]
fn a_bookmark_takes_the_camera_to_where_it_is() {
    let far = camera(3, &BigInt::from(-7), &BigInt::from(9), 0.25, 0.5, 2.0);
    let bookmark = |id: u128, name: &str, camera: &CameraAddress| Bookmark {
        id,
        name: name.to_string(),
        camera: camera.clone(),
    };
    let bookmarks =
        vec![bookmark(1, "Home", &CameraAddress::start()), bookmark(2, "Far", &far)];
    let mut editor = Editor::new(&vec![], 1, "Layer 1", bookmarks);
    assert_eq!(editor.bookmarks.edits.len(), 2);
    assert_eq!(editor.bookmarks.edits.get(&2).map(String::as_str), Some("Far"));
    assert!(editor.coordinates.tile_x.is_none() && editor.coordinates.exact_x.is_empty());
    let mut view = CameraAddress::start();
    editor.selection.selected_operation_ids.insert(7);

    assert_eq!(editor.open_bookmark(&mut view, 5, 1), None);
    assert_eq!((view.depth, editor.tiles.last_zoom_change), (0, None));
    assert_eq!(editor.open_bookmark(&mut view, 2, 2), Some("Bookmark opened"));
    assert!(view.same_as(&far));
    assert_eq!((editor.capture_depth, editor.depth_jump_target), (3, 3));
    assert_eq!(editor.tiles.last_zoom_change, Some(2));
    assert!(editor.selection.selected_operation_ids.is_empty());

    let message = editor.replace_document(
        &vec![],
        1,
        vec![bookmark(9, "Else", &far)],
        3,
        Ok(()),
    );
    assert_eq!(message, "Canvas opened");
    assert_eq!(editor.bookmarks.edits.len(), 1);
    assert_eq!(editor.bookmarks.edits.get(&9).map(String::as_str), Some("Else"));
}

#[test]
fn how_much_of_a_segment_is_left_follows_from_the_radius() {
    let cut = StrokeCut {
        project: |_: &CanvasPoint| None,
        circle: circle_places,
        sides: band_places,
        near: near_places,
        narrow: narrow_part,
        outside: mask_rim(),
        along: along_double,
        shift: |_: &CanvasPoint, _: Position, _: Position, _: Double| None,
        touch: touching,
    };
    let (start, end) = (at(0.0, 0.0), at(100.0, 0.0));
    let left = |parts: Vec<(Double, Double)>| {
        parts
            .iter()
            .map(|(from, to)| f64::from_bits(to.bits) - f64::from_bits(from.bits))
            .sum::<f64>()
    };
    for radius in [5.0f64, 20.0] {
        let dot = list(&[(50.0, 0.0)]);
        let beside =
            left(cut.paint_segment_outside_stroke_mask(start, end, dot, radius.to_bits()));
        assert!((beside - (1.0 - radius / 50.0)).abs() < 1e-9);
        let square = list(&[(40.0, -10.0), (60.0, -10.0), (60.0, 10.0), (40.0, 10.0)]);
        let beside =
            left(cut.paint_segment_outside_polygon_mask(start, end, square, radius.to_bits()));
        assert!((beside - (0.8 - radius / 50.0)).abs() < 1e-9);
    }
}

#[test]
fn jumps_to_tiles_keep_the_depth() {
    let mut editor = Editor::new(&vec![], 1, "Layer 1", vec![]);
    let mut camera = CameraAddress::start();
    camera.local_x = 0.25f64.to_bits();
    editor.selection.selected_operation_ids.insert(7);

    editor.lateral_jump_x = "x".to_string();
    assert_eq!(editor.jump_to_lateral_target(&mut camera, 1), ("Invalid Tile X", false));
    editor.lateral_jump_x = " 12 ".to_string();
    editor.lateral_jump_y = "".to_string();
    assert_eq!(editor.jump_to_lateral_target(&mut camera, 2), ("Invalid Tile Y", false));
    assert_eq!(editor.tiles.last_zoom_change, None);

    editor.lateral_jump_y = "-3e2".to_string();
    assert_eq!(editor.jump_to_lateral_target(&mut camera, 3), ("Tile position updated", true));
    assert_eq!(tiles_of(&camera), (12, -300));
    assert_eq!((camera.depth, camera.local_x), (0, 0.25f64.to_bits()));
    assert_eq!(editor.tiles.last_zoom_change, Some(3));
    assert_eq!(editor.selection.selected_operation_ids.len(), 1);

    assert_eq!(editor.jump_to_lateral_origin(&mut camera, 4), "Tile origin");
    assert_eq!(tiles_of(&camera), (0, 0));
    assert_eq!((camera.local_x, camera.local_y), (0.5f64.to_bits(), 0.5f64.to_bits()));
    assert_eq!((editor.lateral_jump_x.as_str(), editor.lateral_jump_y.as_str()), ("0", "0"));
}

/// The tiles of an operation's points.
fn tiles_around(operation: &EditOperation) -> Option<OperationBounds> {
    let xs = || operation.points.iter().map(|point| number(&point.tile_x));
    let ys = || operation.points.iter().map(|point| number(&point.tile_y));
    Some(OperationBounds {
        depth: operation.points.first()?.depth,
        min_x: index_of(&xs().min()?),
        max_x: index_of(&xs().max()?),
        min_y: index_of(&ys().min()?),
        max_y: index_of(&ys().max()?),
    })
}

#[test]
fn fallback_operation_budget_never_splits_a_fill_group() {
    let camera = CameraAddress::start();
    let screen = ScreenRect { min: at(0.0, 0.0), max: at(512.0, 512.0) };
    let center = camera.center_point(&optics());
    let mut older = draft(
        EditKind::Paint,
        0,
        1.0f64.to_bits(),
        vec![center.clone(), center],
        black(),
        4.0f32.to_bits(),
    );
    older.sequence = 1;
    let source = draft(
        EditKind::Fill,
        0,
        1.0f64.to_bits(),
        test_canvas_polygon(0, &[(0.1, 0.1), (0.9, 0.1), (0.5, 0.9)]),
        black(),
        0.0f32.to_bits(),
    );
    let mask = test_canvas_polygon(0, &[(0.45, 0.0), (0.55, 0.0), (0.55, 1.0), (0.45, 1.0)]);
    let fragments =
        fill_cut().subtract_fill_polygon(&source.points, &vec![mask]).expect("subtraction");
    assert!(fragments.len() > 1);
    let mut operations = vec![older];
    for (offset, points) in fragments.into_iter().enumerate() {
        let mut fragment = draft(
            EditKind::Fill,
            0,
            1.0f64.to_bits(),
            points,
            black(),
            0.0f32.to_bits(),
        );
        fragment.fill_group_id = Some(77);
        fragment.sequence = offset as i64 + 2;
        fragment.paint_order = Some(2);
        operations.push(fragment);
    }
    let corners = CornerProjection {
        project: |point: &CanvasPoint| position_in_view(&camera, point),
        widen: |reach: ScreenRect| reach,
    };
    let style = RenderStyle {
        stroke_fallback_joins: StrokeFallbackJoinMode::Auto,
        auto_fast_stroke_fallback: false,
        smoothing_passes: 1,
    };

    let projection = project_operations(
        &operations,
        None,
        Some(1),
        true,
        style,
        &SavedFallbackRenderCache::new(),
        &mut OperationBoundsCache::new(),
        &tiles_around,
        &|_: &EditOperation, bounds: &OperationBounds| {
            corners.operation_bounds_may_intersect_screen_rect(bounds, &screen)
        },
    );

    assert_eq!(projection.skipped, 1);
    assert_eq!(projection.items.len(), operations.len() - 1);
}

#[test]
fn minus_zero_is_the_same_place_as_zero() {
    let index = index_of(&BigInt::from(3));
    let at_zero = |zero: f64| CanvasPoint::in_tile(0, &index, &index, zero.to_bits(), 0);
    let (plus, minus) = (at_zero(0.0), at_zero(-0.0));
    assert!(plus == minus);
    assert_eq!(minus.local_x, (-0.0f64).to_bits());
    assert!(at_zero(f64::NAN) != at_zero(f64::NAN));

    // The outline ends where it starts, so it is closed already.
    let mut fill = draft(
        EditKind::Fill,
        0,
        1.0f64.to_bits(),
        vec![plus.clone(), at_zero(0.5), minus.clone()],
        black(),
        0,
    );
    prepare_draft_for_commit(&mut fill);
    assert_eq!(fill.points.len(), 3);

    // Fragments that are the stroke but for the sign of a zero leave it whole.
    let mut stroke = fill.clone();
    stroke.kind = EditKind::Paint;
    stroke.points = vec![plus, at_zero(0.5)];
    assert!(fragment_change(&stroke, vec![vec![minus, at_zero(0.5)]]).is_none());
}

#[test]
fn minus_zero_is_no_greater_than_any_place_in_a_tile() {
    let index = index_of(&BigInt::from(0));
    let zero = (-0.0f64).to_bits();
    let half = 0.5f64.to_bits();
    assert!(canvas_axis_less(&index, zero, &index, half));
    assert!(!canvas_axis_less(&index, half, &index, zero));
    assert!(!canvas_axis_less(&index, zero, &index, 0));
    assert!(!canvas_axis_less(&index, 0, &index, zero));

    let mut bounds = CanvasAxisBounds::new(&index, half);
    bounds.take_in(&index, zero);
    assert_eq!((bounds.min_local, bounds.max_local), (zero, half));
}

#[test]
fn a_camera_comes_back_from_any_depth_as_it_left() {
    let far = BigInt::from(10u8).pow(40);
    let locals = [0.0, -0.0, 0.125, 1.0 / 3.0, 0.999_999_999, 1.0 - f64::EPSILON / 2.0, 5e-324];
    for tile in [BigInt::from(0), BigInt::from(-1), far.clone(), -far] {
        for local in locals {
            for levels in [0, 1, 7, 40] {
                let start = camera(-3, &tile, &(-tile.clone()), local, 1.0 - local.abs() / 2.0, 3.5);
                let mut moved = start.clone();
                moved.normalize_zoom(&optics());
                let settled = moved.clone();
                moved.jump_to_depth(&optics(), -3 + levels);
                moved.jump_to_depth(&optics(), -3);
                assert!(moved.same_as(&settled), "tile {tile} local {local} levels {levels}");
            }
        }
    }
}

#[test]
fn selection_overlay_bounds_cache_rebuilds_and_projects_selected_bounds() {
    let stroke = |id: u128, tile: i64, width: f32| {
        let index = index_of(&BigInt::from(tile));
        let point =
            |at: f64| CanvasPoint::in_tile(0, &index, &index, at.to_bits(), at.to_bits());
        let points = vec![point(0.25), point(0.75)];
        let mut stroke =
            draft(EditKind::Paint, 0, 1.0f64.to_bits(), points, black(), width.to_bits());
        stroke.id = id;
        stroke
    };
    let operations = vec![stroke(10, 0, 12.0), stroke(20, 1, 4.0)];
    let camera = CameraAddress::start();
    let corners = CornerProjection {
        project: |point: &CanvasPoint| position_in_view(&camera, point),
        widen: |reach: ScreenRect| reach,
    };
    let mut cache = SelectionOverlayBoundsCache::new();

    let selected_first = [10u128].into_iter().collect::<HashSet<_>>();
    assert!(cache.update(1, &operations, &selected_first));
    assert_eq!(cache.width_hints.len(), 1);
    let first_bounds =
        corners.fast_selection_overlay_bounds(&optics(), &cache.depth_bounds).expect("projected first");
    assert!((x(first_bounds.min) - 128.0).abs() < 0.001);
    assert!((x(first_bounds.max) - 384.0).abs() < 0.001);

    let selected_second = [20u128].into_iter().collect::<HashSet<_>>();
    assert!(cache.update(1, &operations, &selected_second));
    assert_eq!(cache.width_hints.len(), 1);
    let second_bounds =
        corners.fast_selection_overlay_bounds(&optics(), &cache.depth_bounds).expect("projected second");
    assert!(x(second_bounds.min) > x(first_bounds.max));
    assert!(!cache.update(1, &operations, &selected_second));
    let expansion = selection_overlay_width_expansion(
        &cache.width_hints,
        0,
        1.0f64.to_bits(),
        &|hint: SelectionOverlayWidthHint, levels: i32, zoom: u64| {
            let native_zoom = f64::from_bits(hint.native_zoom).max(1e-12);
            let width = f64::from(f32::from_bits(hint.width_px)) * f64::from_bits(zoom);
            ((width * (DEPTH_RATIO as f64).powi(levels) / native_zoom) as f32).to_bits()
        },
        &|width: u32| (f32::from_bits(width) * 0.5 + 2.0).to_bits(),
    );
    assert_eq!(f32::from_bits(expansion), 4.0);
}

#[test]
fn the_selection_reaches_as_far_as_its_bounds_at_every_depth() {
    let projection = CornerProjection {
        project: |point: &CanvasPoint| match point.depth {
            2 => None,
            depth => Some(at(
                f64::from_bits(point.local_x) as f32 * 100.0,
                depth as f32 * 10.0,
            )),
        },
        widen: |rect: ScreenRect| ScreenRect {
            min: at(f32::from_bits(rect.min.x) - 1.0, f32::from_bits(rect.min.y) - 1.0),
            max: at(f32::from_bits(rect.max.x) + 1.0, f32::from_bits(rect.max.y) + 1.0),
        },
    };
    let bounds = |depth: i64, local: f64| {
        SelectionDepthCanvasBounds::new(&CanvasPoint::in_tile(
            depth,
            &index_of(&BigInt::from(0)),
            &index_of(&BigInt::from(0)),
            local.to_bits(),
            0,
        ))
    };
    let rect = projection
        .fast_selection_overlay_bounds(&optics(), &vec![bounds(0, 0.25), bounds(1, 0.5)])
        .expect("everything is somewhere");
    assert_eq!(f32::from_bits(rect.min.x), 24.0);
    assert_eq!(f32::from_bits(rect.max.x), 51.0);
    assert_eq!(f32::from_bits(rect.max.y), 11.0);
    assert!(projection.fast_selection_overlay_bounds(&optics(), &vec![]).is_none());
    assert!(projection
        .fast_selection_overlay_bounds(&optics(), &vec![bounds(0, 0.25), bounds(2, 0.5)])
        .is_none());
}

#[test]
fn selection_hit_test_uses_stroke_radius_and_fill_area() {
    let nearby_stroke = vec![at(0.0, 3.0), at(20.0, 3.0)];
    let fill = vec![at(8.0, 8.0), at(12.0, 8.0), at(10.0, 12.0)];
    let rectangle = |grown: f32| {
        ScreenRect { min: at(5.0 - grown, 5.0 - grown), max: at(15.0 + grown, 15.0 + grown) }
    };
    let meets = |kind: EditKind, points: &Vec<Position>, width: f64| {
        operation_intersects_selection(
            kind,
            points,
            width.to_bits(),
            &|line: &Vec<Position>, width: u64| {
                let around = rectangle((f64::from_bits(width) * 0.5) as f32);
                line.windows(2).any(|pair| {
                    let (low, high) = (y(pair[0]).min(y(pair[1])), y(pair[0]).max(y(pair[1])));
                    let (left, right) = (x(pair[0]).min(x(pair[1])), x(pair[0]).max(x(pair[1])));
                    low <= y(around.max)
                        && high >= y(around.min)
                        && left <= x(around.max)
                        && right >= x(around.min)
                })
            },
            &|area: &Vec<Position>| {
                !plane()
                    .clip_pos_area_operation_to_polygon(area, &rectangle(0.0).corners())
                    .is_empty()
            },
        )
    };

    assert!(!meets(EditKind::Paint, &nearby_stroke, 3.0));
    assert!(meets(EditKind::Paint, &nearby_stroke, 4.0));
    assert!(!meets(EditKind::Paint, &nearby_stroke, f64::NAN));
    assert!(!meets(EditKind::Paint, &nearby_stroke, -4.0));
    assert!(meets(EditKind::Fill, &fill, 0.0));
}

#[test]
fn local_positions_outside_of_a_tile_count_for_other_tiles() {
    let zero = BigInt::from(0);
    let five = BigInt::from(5);
    let at = |x: f64, y: f64| {
        let point = point(3, &five, &zero, x, y);
        (
            number(&point.tile_x),
            f64::from_bits(point.local_x),
            number(&point.tile_y),
            f64::from_bits(point.local_y),
        )
    };
    let tile = |number: i64| BigInt::from(number);
    assert_eq!(at(0.25, 0.75), (tile(5), 0.25, tile(0), 0.75));
    assert_eq!(at(-0.25, 1.0), (tile(4), 0.75, tile(1), 0.0));
    assert_eq!(at(2.5, -3.75), (tile(7), 0.5, tile(-4), 0.25));
    assert_eq!(at(f64::NAN, f64::INFINITY), (tile(5), 0.0, tile(0), 0.0));
    assert_eq!(at(-1e-300, 0.0), (tile(5), 0.0, tile(0), 0.0));
    // So far off that tiles cannot be counted, the position stays as it is but
    // for one tile.
    let (tile_x, local_x, _, _) = at(1e300, 0.0);
    assert_eq!((tile_x, local_x), (tile(6), 1e300));
}

#[test]
fn a_place_on_the_screen_leads_to_the_canvas_and_back() {
    let far = BigInt::from(10u8).pow(400);
    for (local, zoom) in [(0.0, 1.0), (0.999_999, 7.999), (0.125, 2.5)] {
        let camera = camera(-700, &far, &-far.clone(), local, 1.0 - local.max(0.5), zoom);
        for (across, down) in [(0.0, 0.0), (-4000.0, 65536.0), (321.5, 654.25)] {
            let point = pointed(&camera, across, down, 3840.0, 2160.0);
            assert!(f64::from_bits(point.local_x) >= 0.0 && f64::from_bits(point.local_x) < 1.0);
            let (x, y) = shown(&camera, &point, 3840.0, 2160.0).expect("one level");
            assert!((x - across).abs() < 0.001 && (y - down).abs() < 0.001, "x={x} y={y}");
        }
    }
}

#[test]
fn zooming_by_up_to_a_level_keeps_what_is_under_the_pointer() {
    let far = BigInt::from(-123_456_789);
    for factor in [0.125, 0.3, 0.75, 1.0, 1.25, 4.0, 8.0] {
        for zoom in [1.0, 2.5, 7.99] {
            for (x, y) in [(0.0, 0.0), (1280.0, 5.0), (-20_000.0, 60_000.0)] {
                let mut camera = camera(40, &far, &far, 0.75, 0.001, zoom);
                let anchor = pointed(&camera, x, y, 1280.0, 720.0);
                zoom_at(&mut camera, factor, x, y, 1280.0, 720.0);
                let after = f64::from_bits(camera.zoom);
                assert!((1.0..8.0).contains(&after));
                assert!((39..=41).contains(&camera.depth));
                let (to_x, to_y) = shown(&camera, &anchor, 1280.0, 720.0).expect("near");
                assert!((to_x - x).abs() < 0.001 && (to_y - y).abs() < 0.001);
            }
        }
    }
    for factor in [0.0, -1.0, f64::NAN, f64::INFINITY] {
        let mut camera = camera(40, &far, &far, 0.75, 0.001, 2.0);
        zoom_at(&mut camera, factor, 1.0, 1.0, 1280.0, 720.0);
        assert_eq!((camera.depth, f64::from_bits(camera.zoom)), (40, 2.0));
        assert_eq!(f64::from_bits(camera.local_x), 0.75);
    }
}

#[test]
fn a_jump_deeper_and_back_ends_where_it_began() {
    let tile = BigInt::from(-77);
    let mut camera = camera(2, &tile, &tile, 0.1, 0.999, 3.0);
    camera.jump_to_depth(&optics(), 90);
    assert!(f64::from_bits(camera.local_x) < 1.0);
    assert_eq!(number(&camera.tile_x) >> (3 * 88), tile);
    camera.jump_to_depth(&optics(), 2);
    assert_eq!((number(&camera.tile_x), f64::from_bits(camera.local_x)), (tile.clone(), 0.1));
    assert_eq!((number(&camera.tile_y), f64::from_bits(camera.local_y)), (tile, 0.999));
}

#[test]
fn corners_of_bounds_lie_within_their_tiles() {
    let zero = index_of(&BigInt::from(0));
    let beyond = CanvasPoint::in_tile(0, &zero, &zero, 1.25f64.to_bits(), (-0.5f64).to_bits());
    let corners = SelectionDepthCanvasBounds::new(&beyond).corners(&optics());
    assert_eq!(corners.len(), 4);
    for corner in corners {
        assert_eq!((number(&corner.tile_x), number(&corner.tile_y)), (1.into(), (-1).into()));
        assert_eq!(f64::from_bits(corner.local_x), 0.25);
        assert_eq!(f64::from_bits(corner.local_y), 0.5);
    }
}

#[test]
fn panning_and_moving_show_a_point_that_much_farther() {
    let far = BigInt::from(10u8).pow(30);
    for depth in [6, 7, 8] {
        let camera = camera(7, &far, &far, 0.25, 0.5, 3.0);
        let mut source = camera.clone();
        source.jump_to_depth(&optics(), depth);
        let point = pointed(&source, 500.0, 20.0, 1280.0, 720.0);
        let (x, y) = shown(&camera, &point, 1280.0, 720.0).expect("one level");
        let (dx, dy) = (123.5, -4567.25);

        let mut panned = camera.clone();
        panned.pan_content_by(&optics(), f64::to_bits(dx), f64::to_bits(dy));
        let (to_x, to_y) = shown(&panned, &point, 1280.0, 720.0).expect("one level");
        assert!((to_x - x - dx).abs() < 0.001 && (to_y - y - dy).abs() < 0.001);

        let moved = moved(&point, 7, 3.0, dx, dy).expect("one level");
        let (to_x, to_y) = shown(&camera, &moved, 1280.0, 720.0).expect("one level");
        assert!((to_x - x - dx).abs() < 0.001 && (to_y - y - dy).abs() < 0.001);
    }
}

#[test]
fn the_canvas_looks_alike_however_far_on() {
    let near = BigInt::from(3);
    let farther = BigInt::from(7).pow(500);
    let here = camera(5, &near, &near, 0.25, 0.5, 3.0);
    let there = camera(
        5,
        &(&near + &farther * BigInt::from(64)),
        &(&near - &farther * BigInt::from(64)),
        0.25,
        0.5,
        3.0,
    );
    let point_here = point(3, &BigInt::from(0), &BigInt::from(0), 0.5, 0.5);
    let point_there = point(3, &farther, &-farther.clone(), 0.5, 0.5);
    assert_eq!(
        shown(&here, &point_here, 1280.0, 720.0).expect("two levels"),
        shown(&there, &point_there, 1280.0, 720.0).expect("two levels")
    );
    let one = pointed(&here, 7.0, 9.0, 1280.0, 720.0);
    let other = pointed(&there, 7.0, 9.0, 1280.0, 720.0);
    assert_eq!((one.local_x, one.local_y), (other.local_x, other.local_y));
    assert_eq!(number(&other.tile_x) - number(&one.tile_x), &farther * BigInt::from(64));
}

#[test]
fn polygons_are_taken_off_strokes_one_after_the_other() {
    let camera = CameraAddress::start();
    let stroke = stroke_across(&camera);
    let square = |left: f32| {
        list(&[(left, 200.0), (left + 20.0, 200.0), (left + 20.0, 300.0), (left, 300.0)])
    };
    let beside = |masks: Vec<Vec<Position>>| {
        StrokeMasks {
            masks,
            cut: OutsidePolygon {
                stroke: stroke_cut(&camera),
                plane: plane(),
                radius: |run: &EditOperation| {
                    (f64::from(f32::from_bits(run.width_px)) * 0.5).to_bits()
                },
            },
        }
        .cut(&stroke)
    };
    assert_eq!(beside(vec![]).expect("no mask"), vec![stroke.points.clone()]);
    assert_eq!(beside(vec![square(150.0)]).expect("a mask").len(), 2);
    assert_eq!(beside(vec![square(150.0), square(300.0)]).expect("masks").len(), 3);
    let flat = list(&[(150.0, 200.0), (170.0, 200.0)]);
    assert_eq!(
        beside(vec![square(150.0), flat]).err().as_deref(),
        Some("paint subtraction is not representable at the current camera")
    );
}

#[test]
fn an_eraser_that_went_nowhere_touches_nothing() {
    let camera = CameraAddress::start();
    let reach = |far: bool, bounds: Option<ScreenRect>| ErasedBounds {
        reach: Reach {
            project: move |point: &CanvasPoint| {
                if far {
                    None
                } else {
                    position_in_view(&CameraAddress::start(), point)
                }
            },
            widen: |rect: ScreenRect, _: &EditOperation| rect,
        },
        bounds,
    };
    let whole = Some(ScreenRect { min: at(0.0, 0.0), max: at(512.0, 512.0) });
    let stroke = stroke_across(&camera);
    assert_eq!(reach(false, None).asked(&stroke), Ok(false));
    assert_eq!(reach(false, whole).asked(&stroke), Ok(true));
    assert_eq!(
        reach(true, whole).asked(&stroke).err().as_deref(),
        Some("eraser source bounds are not representable")
    );
}
