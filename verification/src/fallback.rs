//! Drawing operations directly where no tile shows them.

use crate::model::EditOperation;
use crate::screen::{
    at_most, less_than, number_at_most, number_less_than, same_position, Position,
};
use crate::tile_requests::TileFallbackMode;
use vstd::prelude::*;

verus! {

/// A stroke of at most so many points is drawn segment by segment, where that
/// is decided by itself.
pub const AUTO_SEGMENTED_FALLBACK_POINTS: usize = 128;

/// A stroke of at most so many points is drawn segment by segment for quality.
pub const QUALITY_SEGMENTED_FALLBACK_POINTS: usize = 512;

/// At most so many shapes of a frame are drawn for strokes segment by segment.
pub const MAX_SEGMENTED_FALLBACK_SHAPES_PER_FRAME: usize = 200_000;

/// A path of more points is not smoothed.
pub const MAX_FALLBACK_SMOOTHING_INPUT_POINTS: usize = 4096;

/// A smoothed path of more points is not used.
pub const MAX_FALLBACK_SMOOTHING_OUTPUT_POINTS: usize = 8192;

/// From so many selected operations on, the selection is outlined as one.
pub const LARGE_SELECTION_FAST_OVERLAY_THRESHOLD: usize = 512;

/// The bit pattern of the distance up to which two points coincide.
pub const COINCIDENT_DISTANCE: u32 = 0x3400_0000;

/// How the joints of strokes are drawn.
#[derive(Debug, Clone, Copy, PartialEq, Eq, Structural)]
pub enum StrokeFallbackJoinMode {
    Auto,
    Quality,
    Performance,
}

/// What was drawn in a frame, and what was not.
#[derive(Debug, Clone, Copy, PartialEq, Eq, Structural)]
pub struct FallbackFrameStats {
    pub stroke_shape_count: usize,
    pub fill_shape_count: usize,
    pub segmented_strokes: usize,
    pub segmented_budget_fallbacks: usize,
    pub fast_strokes: usize,
    pub skipped_operations: usize,
    pub projected_operations: usize,
    pub painted_operations: usize,
    pub fallback_cache_hits: usize,
    pub fallback_cache_misses: usize,
    pub fallback_bounds_cache_hits: usize,
    pub fallback_bounds_cache_misses: usize,
    pub fallback_visible_cache_hits: usize,
    pub fallback_visible_cache_misses: usize,
}

/// The sum, or the greatest number where it is greater.
pub open spec fn capped_sum(left: usize, right: usize) -> usize {
    if left + right > usize::MAX {
        usize::MAX
    } else {
        (left + right) as usize
    }
}

impl FallbackFrameStats {
    /// Nothing.
    pub open spec fn nothing() -> FallbackFrameStats {
        FallbackFrameStats {
            stroke_shape_count: 0,
            fill_shape_count: 0,
            segmented_strokes: 0,
            segmented_budget_fallbacks: 0,
            fast_strokes: 0,
            skipped_operations: 0,
            projected_operations: 0,
            painted_operations: 0,
            fallback_cache_hits: 0,
            fallback_cache_misses: 0,
            fallback_bounds_cache_hits: 0,
            fallback_bounds_cache_misses: 0,
            fallback_visible_cache_hits: 0,
            fallback_visible_cache_misses: 0,
        }
    }

    /// Nothing.
    pub fn new() -> (stats: Self)
        ensures
            stats == FallbackFrameStats::nothing(),
    {
        FallbackFrameStats {
            stroke_shape_count: 0,
            fill_shape_count: 0,
            segmented_strokes: 0,
            segmented_budget_fallbacks: 0,
            fast_strokes: 0,
            skipped_operations: 0,
            projected_operations: 0,
            painted_operations: 0,
            fallback_cache_hits: 0,
            fallback_cache_misses: 0,
            fallback_bounds_cache_hits: 0,
            fallback_bounds_cache_misses: 0,
            fallback_visible_cache_hits: 0,
            fallback_visible_cache_misses: 0,
        }
    }

    /// Both together, counter by counter.
    pub open spec fn plus(self, other: FallbackFrameStats) -> FallbackFrameStats {
        FallbackFrameStats {
            stroke_shape_count: capped_sum(self.stroke_shape_count, other.stroke_shape_count),
            fill_shape_count: capped_sum(self.fill_shape_count, other.fill_shape_count),
            segmented_strokes: capped_sum(self.segmented_strokes, other.segmented_strokes),
            segmented_budget_fallbacks: capped_sum(
                self.segmented_budget_fallbacks,
                other.segmented_budget_fallbacks,
            ),
            fast_strokes: capped_sum(self.fast_strokes, other.fast_strokes),
            skipped_operations: capped_sum(self.skipped_operations, other.skipped_operations),
            projected_operations: capped_sum(self.projected_operations, other.projected_operations),
            painted_operations: capped_sum(self.painted_operations, other.painted_operations),
            fallback_cache_hits: capped_sum(self.fallback_cache_hits, other.fallback_cache_hits),
            fallback_cache_misses: capped_sum(
                self.fallback_cache_misses,
                other.fallback_cache_misses,
            ),
            fallback_bounds_cache_hits: capped_sum(
                self.fallback_bounds_cache_hits,
                other.fallback_bounds_cache_hits,
            ),
            fallback_bounds_cache_misses: capped_sum(
                self.fallback_bounds_cache_misses,
                other.fallback_bounds_cache_misses,
            ),
            fallback_visible_cache_hits: capped_sum(
                self.fallback_visible_cache_hits,
                other.fallback_visible_cache_hits,
            ),
            fallback_visible_cache_misses: capped_sum(
                self.fallback_visible_cache_misses,
                other.fallback_visible_cache_misses,
            ),
        }
    }

    /// Adds what was drawn elsewhere.
    pub fn add(&mut self, other: Self)
        ensures
            *final(self) == old(self).plus(other),
    {
        self.stroke_shape_count = self.stroke_shape_count.saturating_add(other.stroke_shape_count);
        self.fill_shape_count = self.fill_shape_count.saturating_add(other.fill_shape_count);
        self.segmented_strokes = self.segmented_strokes.saturating_add(other.segmented_strokes);
        self.segmented_budget_fallbacks =
        self.segmented_budget_fallbacks.saturating_add(other.segmented_budget_fallbacks);
        self.fast_strokes = self.fast_strokes.saturating_add(other.fast_strokes);
        self.skipped_operations = self.skipped_operations.saturating_add(other.skipped_operations);
        self.projected_operations =
        self.projected_operations.saturating_add(other.projected_operations);
        self.painted_operations = self.painted_operations.saturating_add(other.painted_operations);
        self.fallback_cache_hits =
        self.fallback_cache_hits.saturating_add(other.fallback_cache_hits);
        self.fallback_cache_misses =
        self.fallback_cache_misses.saturating_add(other.fallback_cache_misses);
        self.fallback_bounds_cache_hits =
        self.fallback_bounds_cache_hits.saturating_add(other.fallback_bounds_cache_hits);
        self.fallback_bounds_cache_misses =
        self.fallback_bounds_cache_misses.saturating_add(other.fallback_bounds_cache_misses);
        self.fallback_visible_cache_hits =
        self.fallback_visible_cache_hits.saturating_add(other.fallback_visible_cache_hits);
        self.fallback_visible_cache_misses =
        self.fallback_visible_cache_misses.saturating_add(other.fallback_visible_cache_misses);
    }
}

/// In which order the parts of a frame are added up makes no difference, and
/// nothing added changes nothing.
pub proof fn law_stats_add_up_in_any_order(
    first: FallbackFrameStats,
    second: FallbackFrameStats,
    third: FallbackFrameStats,
)
    ensures
        first.plus(second) == second.plus(first),
        first.plus(second).plus(third) == first.plus(second.plus(third)),
        first.plus(FallbackFrameStats::nothing()) == first,
{
}

/// Whether what is being drawn is shown while it is drawn.
pub fn should_paint_live_draft(deferred_drawing_preview: bool) -> (paints: bool)
    ensures
        paints == !deferred_drawing_preview,
{
    !deferred_drawing_preview
}

/// Whether strokes are drawn the fast way in this frame.
pub fn auto_fast_stroke_fallback_active(
    interaction_active: bool,
    tile_jobs_pending: bool,
    _tile_generation_paused: bool,
) -> (active: bool)
    ensures
        active == (interaction_active || tile_jobs_pending),
{
    interaction_active || tile_jobs_pending
}

/// Whether strokes are drawn fast, without quality.
pub open spec fn draws_fast(mode: StrokeFallbackJoinMode, auto_fast_path: bool) -> bool {
    mode == StrokeFallbackJoinMode::Performance || (mode == StrokeFallbackJoinMode::Auto
        && auto_fast_path)
}

/// Up to how many points a stroke is drawn segment by segment; none where it
/// never is.
pub open spec fn segmented_limit(mode: StrokeFallbackJoinMode, auto_fast_path: bool) -> Option<
    usize,
> {
    if draws_fast(mode, auto_fast_path) {
        None
    } else if mode == StrokeFallbackJoinMode::Auto {
        Some(128)
    } else {
        Some(512)
    }
}

/// Up to how many points a stroke is drawn segment by segment.
pub fn stroke_fallback_segmented_point_limit(
    mode: StrokeFallbackJoinMode,
    auto_fast_path: bool,
) -> (limit: Option<usize>)
    ensures
        limit == segmented_limit(mode, auto_fast_path),
{
    match mode {
        StrokeFallbackJoinMode::Auto => if auto_fast_path {
            None
        } else {
            Some(AUTO_SEGMENTED_FALLBACK_POINTS)
        },
        StrokeFallbackJoinMode::Quality => Some(QUALITY_SEGMENTED_FALLBACK_POINTS),
        StrokeFallbackJoinMode::Performance => None,
    }
}

/// Whether a stroke drawn as one line gets round ends.
pub fn stroke_fallback_fast_endpoint_caps(mode: StrokeFallbackJoinMode, auto_fast_path: bool) -> (
caps: bool)
    ensures
        caps == !draws_fast(mode, auto_fast_path),
{
    match mode {
        StrokeFallbackJoinMode::Performance => false,
        StrokeFallbackJoinMode::Auto => !auto_fast_path,
        StrokeFallbackJoinMode::Quality => true,
    }
}

/// How often a stroke is smoothed.
pub open spec fn smoothing_passes(
    mode: StrokeFallbackJoinMode,
    auto_fast_path: bool,
    configured: u8,
) -> int {
    if draws_fast(mode, auto_fast_path) {
        0
    } else {
        configured as int
    }
}

/// How often a stroke is smoothed.
pub fn stroke_fallback_smoothing_passes(
    mode: StrokeFallbackJoinMode,
    auto_fast_path: bool,
    configured_passes: u8,
) -> (passes: usize)
    ensures
        passes == smoothing_passes(mode, auto_fast_path, configured_passes),
{
    match mode {
        StrokeFallbackJoinMode::Performance => 0,
        StrokeFallbackJoinMode::Auto => if auto_fast_path {
            0
        } else {
            configured_passes as usize
        },
        StrokeFallbackJoinMode::Quality => configured_passes as usize,
    }
}

/// Whether the selection is outlined as one, to keep up with an interaction.
pub fn large_selection_fast_overlay_active(
    selected_count: usize,
    interaction_active: bool,
    selection_transform_active: bool,
) -> (active: bool)
    ensures
        active == (interaction_active && !selection_transform_active && selected_count >= 512),
{
    interaction_active && !selection_transform_active && selected_count
        >= LARGE_SELECTION_FAST_OVERLAY_THRESHOLD
}

/// At most how many operations are drawn; zero in the settings stands for no
/// limit.
pub fn fallback_operation_limit(
    saved_fallback_operation_limit: usize,
    fallback_mode: TileFallbackMode,
) -> (limit: Option<usize>)
    ensures
        limit == if fallback_mode == TileFallbackMode::Current || saved_fallback_operation_limit
            == 0 {
            None
        } else {
            Some(saved_fallback_operation_limit)
        },
{
    if fallback_mode == TileFallbackMode::Current || saved_fallback_operation_limit == 0 {
        None
    } else {
        Some(saved_fallback_operation_limit)
    }
}

/// How many operations are too many.
pub open spec fn skip_count(operation_count: int, operation_limit: Option<usize>) -> int {
    match operation_limit {
        Some(limit) => if operation_count > limit {
            operation_count - limit
        } else {
            0
        },
        None => 0,
    }
}

/// How many of the oldest operations are left out.
pub fn fallback_operation_skip_count(operation_count: usize, operation_limit: Option<usize>) -> (
skipped: usize)
    ensures
        skipped == skip_count(operation_count as int, operation_limit),
{
    match operation_limit {
        Some(limit) => operation_count.saturating_sub(limit),
        None => 0,
    }
}

/// How many shapes a stroke of so many points takes segment by segment: a line
/// between any two neighbours and a dot on every point.
pub open spec fn segmented_shapes(point_count: usize) -> usize {
    if point_count == 0 {
        0
    } else if 2 * point_count > usize::MAX {
        (usize::MAX - 1) as usize
    } else {
        (2 * point_count - 1) as usize
    }
}

/// How many shapes a stroke of so many points takes segment by segment.
pub fn segmented_fallback_shape_count(point_count: usize) -> (count: usize)
    ensures
        count == segmented_shapes(point_count),
{
    let doubled: usize = if point_count > usize::MAX / 2 {
        usize::MAX
    } else {
        point_count * 2
    };
    doubled.saturating_sub(1)
}

/// Takes the shapes of a stroke from the budget of a frame, where it is to be
/// drawn segment by segment. Returns up to how many points it is, and whether
/// the budget did not allow it.
pub fn consume_segmented_fallback_budget(
    point_count: usize,
    segmented_point_limit: Option<usize>,
    remaining_shape_budget: &mut usize,
) -> (result: (Option<usize>, bool))
    ensures
        ({
            let segmented = segmented_point_limit.is_some() && point_count
                <= segmented_point_limit.unwrap();
            let fits = segmented_shapes(point_count) <= *old(remaining_shape_budget);
            &&& result == if segmented && !fits {
                (None, true)
            } else {
                (segmented_point_limit, false)
            }
            &&& *final(remaining_shape_budget) == if segmented && fits {
                *old(remaining_shape_budget) - segmented_shapes(point_count)
            } else {
                *old(remaining_shape_budget) as int
            }
        }),
{
    match segmented_point_limit {
        Some(limit) => {
            if point_count > limit {
                return (segmented_point_limit, false);
            }
        },
        None => {
            return (segmented_point_limit, false);
        },
    }
    let required_shapes: usize = segmented_fallback_shape_count(point_count);
    if required_shapes <= *remaining_shape_budget {
        *remaining_shape_budget = *remaining_shape_budget - required_shapes;
        (segmented_point_limit, false)
    } else {
        (None, true)
    }
}

/// A shape of a stroke; points are given by their places.
#[derive(Debug, Clone, Copy, PartialEq, Eq, Structural)]
pub enum StrokeShape {
    /// A dot on a point.
    Dot(usize),
    /// A line from a point to the next one.
    Segment(usize),
    /// One line through all points.
    Line,
}

/// The lines between neighbours among the first `count` that lie apart.
pub open spec fn segments(distances: Seq<u32>, count: int) -> Seq<StrokeShape>
    decreases count,
{
    if count <= 0 {
        seq![]
    } else if less_than(COINCIDENT_DISTANCE, distances[count - 1]) {
        segments(distances, count - 1).push(StrokeShape::Segment((count - 1) as usize))
    } else {
        segments(distances, count - 1)
    }
}

/// A dot on each of the first `count` points.
pub open spec fn dots(count: int) -> Seq<StrokeShape> {
    Seq::new(count as nat, |i: int| StrokeShape::Dot(i as usize))
}

/// The shapes of a stroke of so many points, where `distances` are those
/// between neighbours: a dot where both points of two coincide, lines and dots
/// up to the limit, and else one line, with round ends or without.
pub open spec fn stroke_shapes(
    point_count: usize,
    distances: Seq<u32>,
    segmented_point_limit: Option<usize>,
    fast_endpoint_caps: bool,
) -> Seq<StrokeShape> {
    if point_count < 2 {
        seq![]
    } else if point_count == 2 && at_most(distances[0], COINCIDENT_DISTANCE) {
        seq![StrokeShape::Dot(0)]
    } else if segmented_point_limit.is_some() && point_count <= segmented_point_limit.unwrap() {
        segments(distances, distances.len() as int) + dots(point_count as int)
    } else if fast_endpoint_caps {
        seq![StrokeShape::Line, StrokeShape::Dot(0), StrokeShape::Dot((point_count - 1) as usize)]
    } else {
        seq![StrokeShape::Line]
    }
}

/// Whether the stroke is drawn segment by segment.
pub open spec fn is_segmented(
    point_count: usize,
    distances: Seq<u32>,
    segmented_point_limit: Option<usize>,
) -> bool {
    &&& point_count >= 2
    &&& !(point_count == 2 && at_most(distances[0], COINCIDENT_DISTANCE))
    &&& segmented_point_limit.is_some()
    &&& point_count <= segmented_point_limit.unwrap()
}

/// What the shapes of a stroke count as.
pub open spec fn stroke_stats(
    point_count: usize,
    distances: Seq<u32>,
    segmented_point_limit: Option<usize>,
    fast_endpoint_caps: bool,
) -> FallbackFrameStats {
    if point_count < 2 {
        FallbackFrameStats::nothing()
    } else {
        FallbackFrameStats {
            stroke_shape_count: stroke_shapes(
                point_count,
                distances,
                segmented_point_limit,
                fast_endpoint_caps,
            ).len() as usize,
            segmented_strokes: if is_segmented(point_count, distances, segmented_point_limit) {
                1
            } else {
                0
            },
            fast_strokes: if is_segmented(point_count, distances, segmented_point_limit) {
                0
            } else {
                1
            },
            ..FallbackFrameStats::nothing()
        }
    }
}

/// The shapes of a stroke, and what they count as.
pub fn stroke_fallback_shapes(
    point_count: usize,
    distances: &Vec<u32>,
    segmented_point_limit: Option<usize>,
    fast_endpoint_caps: bool,
) -> (result: (Vec<StrokeShape>, FallbackFrameStats))
    requires
        point_count >= 1 ==> distances.len() == point_count - 1,
    ensures
        result.0@ == stroke_shapes(
            point_count,
            distances@,
            segmented_point_limit,
            fast_endpoint_caps,
        ),
        result.1 == stroke_stats(
            point_count,
            distances@,
            segmented_point_limit,
            fast_endpoint_caps,
        ),
{
    let mut shapes: Vec<StrokeShape> = Vec::new();
    let mut stats = FallbackFrameStats::new();
    if point_count < 2 {
        assert(shapes@ =~= seq![]);
        return (shapes, stats);
    }
    if point_count == 2 && number_at_most(distances[0], COINCIDENT_DISTANCE) {
        shapes.push(StrokeShape::Dot(0));
        assert(shapes@ =~= seq![StrokeShape::Dot(0)]);
        stats.stroke_shape_count = 1;
        stats.fast_strokes = 1;
        return (shapes, stats);
    }
    let segmented: bool = match segmented_point_limit {
        Some(limit) => point_count <= limit,
        None => false,
    };
    if segmented {
        let mut i: usize = 0;
        while i < distances.len()
            invariant
                i <= distances.len(),
                shapes@ == segments(distances@, i as int),
            decreases distances.len() - i,
        {
            if number_less_than(COINCIDENT_DISTANCE, distances[i]) {
                shapes.push(StrokeShape::Segment(i));
            }
            i = i + 1;
        }
        let ghost lines = shapes@;
        let mut k: usize = 0;
        assert(shapes@ =~= lines + dots(0));
        while k < point_count
            invariant
                k <= point_count,
                shapes@ == lines + dots(k as int),
            decreases point_count - k,
        {
            shapes.push(StrokeShape::Dot(k));
            k = k + 1;
            assert(shapes@ =~= lines + dots(k as int));
        }
        stats.stroke_shape_count = shapes.len();
        stats.segmented_strokes = 1;
        return (shapes, stats);
    }
    shapes.push(StrokeShape::Line);
    if fast_endpoint_caps {
        shapes.push(StrokeShape::Dot(0));
        shapes.push(StrokeShape::Dot(point_count - 1));
    }
    assert(shapes@ =~= stroke_shapes(
        point_count,
        distances@,
        segmented_point_limit,
        fast_endpoint_caps,
    ));
    stats.stroke_shape_count = shapes.len();
    stats.fast_strokes = 1;
    (shapes, stats)
}

/// A stroke drawn segment by segment takes no more shapes than its share of the
/// budget.
pub proof fn law_segmented_strokes_stay_within_their_share(
    point_count: usize,
    distances: Seq<u32>,
    segmented_point_limit: Option<usize>,
    fast_endpoint_caps: bool,
)
    requires
        distances.len() == point_count - 1,
        2 * point_count <= usize::MAX,
        is_segmented(point_count, distances, segmented_point_limit),
    ensures
        stroke_shapes(
            point_count,
            distances,
            segmented_point_limit,
            fast_endpoint_caps,
        ).len() <= segmented_shapes(point_count),
{
    lemma_segment_count(distances, distances.len() as int);
}

proof fn lemma_segment_count(distances: Seq<u32>, count: int)
    requires
        0 <= count <= distances.len(),
    ensures
        segments(distances, count).len() <= count,
    decreases count,
{
    if count > 0 {
        lemma_segment_count(distances, count - 1);
    }
}

/// How the cached form of an operation was derived: not at all, or from how
/// many passes of smoothing.
pub open spec fn render_variant(
    operation: EditOperation,
    mode: StrokeFallbackJoinMode,
    auto_fast: bool,
    passes: u8,
) -> int {
    let smoothed = if operation.kind.area() {
        passes as int
    } else {
        smoothing_passes(mode, auto_fast, passes)
    };
    if operation.kind.area() && !operation.smooth_area {
        0
    } else if smoothed >= 254 {
        255
    } else {
        1 + smoothed
    }
}

/// How the cached form of an operation was derived.
pub fn saved_fallback_render_variant(
    operation: &EditOperation,
    fallback_join_mode: StrokeFallbackJoinMode,
    auto_fast_stroke_fallback: bool,
    smoothing_passes: u8,
) -> (variant: u8)
    ensures
        variant == render_variant(
            *operation,
            fallback_join_mode,
            auto_fast_stroke_fallback,
            smoothing_passes,
        ),
{
    if operation.kind.is_area() {
        return if operation.smooth_area {
            1u8.saturating_add(smoothing_passes)
        } else {
            0
        };
    }
    let passes: usize = stroke_fallback_smoothing_passes(
        fallback_join_mode,
        auto_fast_stroke_fallback,
        smoothing_passes,
    );
    if passes >= 254 {
        255
    } else {
        1 + passes as u8
    }
}

/// Whether an area is drawn: it has not too many points, and its depth is not
/// too far from the camera's.
pub open spec fn paints_area(
    operation: EditOperation,
    camera_depth: i64,
    screen_point_count: usize,
    max_points: usize,
    max_depth_delta: i64,
) -> bool {
    let delta = camera_depth - operation.native_depth;
    let distance = if delta < 0 {
        -delta
    } else {
        delta
    };
    let capped = if distance > i64::MAX {
        i64::MAX as int
    } else {
        distance
    };
    screen_point_count <= max_points && capped <= max_depth_delta
}

/// Whether an area is drawn.
pub fn should_paint_fill_fallback(
    operation: &EditOperation,
    camera_depth: i64,
    screen_point_count: usize,
    fill_fallback_max_points: usize,
    fill_fallback_max_depth_delta: i64,
) -> (paints: bool)
    requires
        screen_point_count <= fill_fallback_max_points ==> camera_depth - operation.native_depth
            > i64::MIN,
    ensures
        paints == paints_area(
            *operation,
            camera_depth,
            screen_point_count,
            fill_fallback_max_points,
            fill_fallback_max_depth_delta,
        ),
{
    if screen_point_count > fill_fallback_max_points {
        return false;
    }
    let delta: i128 = camera_depth as i128 - operation.native_depth as i128;
    let distance: i128 = if delta < 0 {
        -delta
    } else {
        delta
    };
    let capped: i128 = if distance > i64::MAX as i128 {
        i64::MAX as i128
    } else {
        distance
    };
    capped <= fill_fallback_max_depth_delta as i128
}

/// The points at even steps among all points, the first `count` of `target`,
/// without repetitions next to each other.
pub open spec fn sampled(points: Seq<Position>, target: int, count: int) -> Seq<Position>
    decreases count,
{
    if count <= 0 {
        seq![]
    } else {
        let before = sampled(points, target, count - 1);
        let point = points[(count - 1) * points.len() / target];
        if before.len() > 0 && same_position(before.last(), point) {
            before
        } else {
            before.push(point)
        }
    }
}

proof fn lemma_step_is_inside(index: int, length: int, target: int)
    requires
        0 <= index < target,
        0 < length,
    ensures
        0 <= index * length / target < length,
        0 <= index * length,
{
    assert(0 <= index * length / target < length) by (nonlinear_arith)
        requires
            0 <= index < target,
            0 < length,
    ;
    assert(0 <= index * length) by (nonlinear_arith)
        requires
            0 <= index,
            0 < length,
    ;
}

/// The points of an area that are drawn: no more than so many of them.
pub open spec fn thinned(points: Seq<Position>, max_points: int) -> Seq<Position> {
    if points.len() <= max_points || max_points < 3 {
        points
    } else {
        sampled(points, max_points, max_points)
    }
}

/// The outline with which an area is drawn: all points, or as many as are
/// allowed, taken at even steps.
pub fn fill_fallback_render_points(points: &Vec<Position>, max_points: usize) -> (result: Vec<
    Position,
>)
    requires
        points.len() * max_points <= usize::MAX,
    ensures
        result@ == thinned(points@, max_points as int),
{
    let mut result: Vec<Position> = Vec::new();
    let mut i: usize = 0;
    if points.len() <= max_points || max_points < 3 {
        while i < points.len()
            invariant
                i <= points.len(),
                result@ == points@.take(i as int),
            decreases points.len() - i,
        {
            result.push(points[i]);
            i = i + 1;
            assert(result@ =~= points@.take(i as int));
        }
        assert(result@ =~= points@);
        return result;
    }
    while i < max_points
        invariant
            i <= max_points,
            3 <= max_points < points.len(),
            points.len() * max_points <= usize::MAX,
            result@ == sampled(points@, max_points as int, i as int),
        decreases max_points - i,
    {
        proof {
            lemma_step_is_inside(i as int, points.len() as int, max_points as int);
            assert(i * points.len() <= points.len() * max_points) by (nonlinear_arith)
                requires
                    i < max_points,
                    0 < points.len(),
            ;
        }
        let point: Position = points[i * points.len() / max_points];
        let count: usize = result.len();
        if count == 0 || !result[count - 1].same_as(point) {
            result.push(point);
        }
        i = i + 1;
    }
    result
}

/// The outline with which an area is drawn has no more points than allowed,
/// and all of them are points of the area.
pub proof fn law_sampled_outline_is_bounded(points: Seq<Position>, target: int, count: int)
    requires
        0 <= count <= target,
        points.len() > 0,
    ensures
        sampled(points, target, count).len() <= count,
        forall|i: int|
            0 <= i < sampled(points, target, count).len() ==> points.contains(
                #[trigger] sampled(points, target, count)[i],
            ),
    decreases count,
{
    if count > 0 {
        law_sampled_outline_is_bounded(points, target, count - 1);
        lemma_step_is_inside(count - 1, points.len() as int, target);
        let before = sampled(points, target, count - 1);
        let all = sampled(points, target, count);
        let at = (count - 1) * points.len() / target;
        assert forall|i: int| 0 <= i < all.len() implies points.contains(#[trigger] all[i]) by {
            if i < before.len() {
                assert(all[i] == before[i]);
            } else {
                assert(all[i] == points[at]);
            }
        }
    }
}

/// `result` may be the path that is drawn: smoothed, unless there is no
/// smoothing, the path is too long for it, or it came out too long.
pub open spec fn may_smooth<S: Fn(&Vec<Position>, usize) -> Vec<Position>>(
    points: Seq<Position>,
    level: usize,
    smooth: S,
    result: Seq<Position>,
) -> bool {
    if level == 0 || points.len() > 4096 {
        result == points
    } else {
        exists|path: Vec<Position>, smoothed: Vec<Position>|
            {
                &&& path@ == points
                &&& #[trigger] call_ensures(smooth, (&path, level), smoothed)
                &&& result == if smoothed@.len() > 8192 {
                    points
                } else {
                    smoothed@
                }
            }
    }
}

/// The path that is drawn: smoothed, unless there is no smoothing, the path is
/// too long for it, or it came out too long.
pub fn smooth_saved_fallback<S: Fn(&Vec<Position>, usize) -> Vec<Position>>(
    points: Vec<Position>,
    level: usize,
    smooth: &S,
) -> (result: Vec<Position>)
    requires
        forall|path: Vec<Position>| #[trigger] call_requires(*smooth, (&path, level)),
    ensures
        may_smooth(points@, level, *smooth, result@),
{
    if level == 0 || points.len() > MAX_FALLBACK_SMOOTHING_INPUT_POINTS {
        return points;
    }
    let smoothed: Vec<Position> = (*smooth)(&points, level);
    assert(call_ensures(*smooth, (&points, level), smoothed));
    if smoothed.len() > MAX_FALLBACK_SMOOTHING_OUTPUT_POINTS {
        return points;
    }
    smoothed
}

/// The outline of an area that is drawn: no more than so many of its points,
/// smoothed.
pub fn area_saved_fallback_render_points<S: Fn(&Vec<Position>, usize) -> Vec<Position>>(
    points: &Vec<Position>,
    max_points: usize,
    smoothing_passes: usize,
    smooth: &S,
) -> (result: Vec<Position>)
    requires
        points@.len() * max_points <= usize::MAX,
        forall|path: Vec<Position>| #[trigger] call_requires(*smooth, (&path, smoothing_passes)),
    ensures
        may_smooth(thinned(points@, max_points as int), smoothing_passes, *smooth, result@),
{
    let outline: Vec<Position> = fill_fallback_render_points(points, max_points);
    smooth_saved_fallback(outline, smoothing_passes, smooth)
}

proof fn lemma_segments(distances: Seq<u32>, count: int)
    requires
        0 <= count <= distances.len() <= usize::MAX,
    ensures
        ({
            let all = segments(distances, count);
            &&& forall|k: int|
                0 <= k < all.len() ==> (#[trigger] all[k] matches StrokeShape::Segment(at) && at
                    < count && less_than(COINCIDENT_DISTANCE, distances[at as int]))
            &&& forall|at: usize|
                at < count && less_than(COINCIDENT_DISTANCE, #[trigger] distances[at as int])
                    ==> all.contains(StrokeShape::Segment(at))
        }),
    decreases count,
{
    if count > 0 {
        lemma_segments(distances, count - 1);
        let all = segments(distances, count);
        let before = segments(distances, count - 1);
        assert forall|k: int| 0 <= k < all.len() implies (#[trigger] all[k] matches
            StrokeShape::Segment(at) && at < count && less_than(
            COINCIDENT_DISTANCE,
            distances[at as int],
        )) by {
            if k < before.len() {
                assert(all[k] == before[k]);
            }
        }
        assert forall|at: usize|
            at < count && less_than(
                COINCIDENT_DISTANCE,
                #[trigger] distances[at as int],
            ) implies all.contains(StrokeShape::Segment(at)) by {
            let shape = StrokeShape::Segment(at);
            if at < count - 1 {
                assert(all[before.index_of(shape)] == shape);
            } else {
                assert(all[before.len() as int] == shape);
            }
        }
    }
}

/// A stroke that is drawn in segments has a dot on each of its points and a line
/// between each two neighbours that are apart, and nothing else.
pub proof fn law_segmented_strokes_have_every_segment(
    point_count: usize,
    distances: Seq<u32>,
    limit: usize,
    fast_endpoint_caps: bool,
    shape: StrokeShape,
)
    requires
        2 <= point_count <= limit,
        distances.len() == point_count - 1,
        point_count == 2 ==> !at_most(distances[0], COINCIDENT_DISTANCE),
    ensures
        stroke_shapes(point_count, distances, Some(limit), fast_endpoint_caps).contains(shape)
            <==> match shape {
            StrokeShape::Dot(at) => at < point_count,
            StrokeShape::Segment(at) => at < point_count - 1 && less_than(
                COINCIDENT_DISTANCE,
                distances[at as int],
            ),
            StrokeShape::Line => false,
        },
{
    let lines = segments(distances, distances.len() as int);
    let points = dots(point_count as int);
    let all = lines + points;
    lemma_segments(distances, distances.len() as int);
    if all.contains(shape) {
        let k = all.index_of(shape);
        if k < lines.len() {
            assert(lines[k] == shape);
        } else {
            assert(points[k - lines.len()] == shape);
        }
    }
    match shape {
        StrokeShape::Dot(at) => {
            if at < point_count {
                assert(points[at as int] == shape);
                assert(all[lines.len() + at] == shape);
            }
        },
        StrokeShape::Segment(at) => {
            if at < point_count - 1 && less_than(COINCIDENT_DISTANCE, distances[at as int]) {
                assert(lines.contains(shape));
                assert(all[lines.index_of(shape)] == shape);
            }
        },
        StrokeShape::Line => {},
    }
}

/// A stroke that is drawn fast is one line, with a dot on each of its ends where
/// these are rounded; one that ends where it begins is a dot.
pub proof fn law_fast_strokes_are_one_line(
    point_count: usize,
    distances: Seq<u32>,
    limit: Option<usize>,
)
    requires
        point_count >= 2,
        limit matches Some(limit) ==> point_count > limit,
        point_count == 2 ==> !at_most(distances[0], COINCIDENT_DISTANCE),
    ensures
        stroke_shapes(point_count, distances, limit, false) == seq![StrokeShape::Line],
        ({
            let shapes = stroke_shapes(point_count, distances, limit, true);
            &&& shapes.len() == 3
            &&& shapes[0] == StrokeShape::Line
            &&& shapes[1] == StrokeShape::Dot(0)
            &&& shapes[2] == StrokeShape::Dot((point_count - 1) as usize)
        }),
        forall|near: u32, limit: Option<usize>, caps: bool|
            at_most(near, COINCIDENT_DISTANCE) ==> #[trigger] stroke_shapes(
                2,
                seq![near],
                limit,
                caps,
            ) == seq![StrokeShape::Dot(0)],
{
}

/// Every sampled place of an outline has its point in the sample: the points are
/// taken at even steps, the first one among them.
pub proof fn law_samples_are_taken_at_even_steps(
    points: Seq<Position>,
    target: int,
    count: int,
    i: int,
)
    requires
        0 <= i < count <= target,
        points.len() > 0,
        same_position(
            points[i * points.len() / target],
            points[i * points.len() / target],
        ),
    ensures
        exists|k: int|
            0 <= k < sampled(points, target, count).len() && same_position(
                #[trigger] sampled(points, target, count)[k],
                points[i * points.len() / target],
            ),
        sampled(points, target, count).len() > 0,
        sampled(points, target, count)[0] == points[0],
    decreases count,
{
    let all = sampled(points, target, count);
    let before = sampled(points, target, count - 1);
    let point = points[i * points.len() / target];
    lemma_first_sample(points, target, count);
    if i < count - 1 {
        law_samples_are_taken_at_even_steps(points, target, count - 1, i);
        let k = choose|k: int|
            0 <= k < before.len() && same_position(#[trigger] before[k], point);
        assert(all[k] == before[k]);
    } else {
        let k = all.len() - 1;
        assert(same_position(all[k], point));
    }
}

proof fn lemma_first_sample(points: Seq<Position>, target: int, count: int)
    requires
        0 < count <= target,
    ensures
        sampled(points, target, count).len() > 0,
        sampled(points, target, count)[0] == points[0],
    decreases count,
{
    if count > 1 {
        lemma_first_sample(points, target, count - 1);
    } else {
        assert((count - 1) * points.len() / target == 0) by (nonlinear_arith)
            requires
                count == 1,
                target > 0,
        ;
        assert(sampled(points, target, 0).len() == 0);
    }
}

/// An outline with few enough points is drawn with all of them, and one that cannot
/// be thinned to a surface is not thinned.
pub proof fn law_small_outlines_are_not_thinned(points: Seq<Position>, max_points: int)
    ensures
        points.len() <= max_points ==> thinned(points, max_points) == points,
        max_points < 3 ==> thinned(points, max_points) == points,
        points.len() > max_points >= 3 ==> thinned(points, max_points).len() <= max_points,
{
    if points.len() > max_points >= 3 {
        law_sampled_outline_is_bounded(points, max_points, max_points);
    }
}

/// What is smoothed differently is kept apart: two levels of smoothing give two
/// variants of a stroke, an area that is not smoothed has one of its own, and
/// drawing fast does not smooth strokes at all.
pub proof fn law_variants_tell_smoothing_apart(
    operation: EditOperation,
    mode: StrokeFallbackJoinMode,
    passes: u8,
    other: u8,
)
    requires
        passes < other < 255,
    ensures
        operation.kind.area() && !operation.smooth_area ==> render_variant(
            operation,
            mode,
            false,
            passes,
        ) == 0,
        !operation.kind.area() || operation.smooth_area ==> render_variant(
            operation,
            mode,
            false,
            passes,
        ) > 0,
        operation.kind.area() && operation.smooth_area ==> render_variant(
            operation,
            mode,
            false,
            passes,
        ) < render_variant(operation, mode, false, other),
        !operation.kind.area() && mode != StrokeFallbackJoinMode::Performance ==> render_variant(
            operation,
            mode,
            false,
            passes,
        ) < render_variant(operation, mode, false, other),
        !operation.kind.area() && mode == StrokeFallbackJoinMode::Performance ==> render_variant(
            operation,
            mode,
            false,
            passes,
        ) == render_variant(operation, mode, false, 0),
        !operation.kind.area() && mode == StrokeFallbackJoinMode::Auto ==> render_variant(
            operation,
            mode,
            true,
            passes,
        ) == render_variant(operation, mode, true, 0),
{
}

/// Areas are drawn while they have few enough points and lie near enough in depth,
/// above or below.
pub proof fn law_near_areas_are_drawn(
    operation: EditOperation,
    camera_depth: i64,
    point_count: usize,
    max_points: usize,
    max_depth_delta: i64,
)
    requires
        max_depth_delta < i64::MAX,
    ensures
        paints_area(operation, camera_depth, point_count, max_points, max_depth_delta)
            <==> point_count <= max_points && camera_depth - operation.native_depth
            <= max_depth_delta && operation.native_depth - camera_depth <= max_depth_delta,
{
}

/// Of more operations than the limit, the ones beyond it are left out, and of fewer
/// none is.
pub proof fn law_only_operations_beyond_the_limit_are_skipped(operation_count: int, limit: usize)
    requires
        0 <= operation_count,
    ensures
        skip_count(operation_count, None) == 0,
        operation_count <= limit ==> skip_count(operation_count, Some(limit)) == 0,
        operation_count > limit ==> operation_count - skip_count(operation_count, Some(limit))
            == limit,
{
}

/// A stroke that has a line counts once, either as drawn segment by segment or as
/// drawn fast, and each of its shapes counts.
pub proof fn law_strokes_count_once(
    point_count: usize,
    distances: Seq<u32>,
    limit: Option<usize>,
    caps: bool,
)
    requires
        point_count >= 2,
        distances.len() == point_count - 1,
        stroke_shapes(point_count, distances, limit, caps).len() <= usize::MAX,
    ensures
        ({
            let stats = stroke_stats(point_count, distances, limit, caps);
            &&& stats.stroke_shape_count == stroke_shapes(point_count, distances, limit, caps).len()
            &&& stats.segmented_strokes + stats.fast_strokes == 1
            &&& limit is None ==> stats.fast_strokes == 1
            &&& limit is Some && point_count > limit->0 ==> stats.fast_strokes == 1
            &&& limit is Some && point_count <= limit->0 && (point_count > 2 || less_than(
                COINCIDENT_DISTANCE,
                distances[0],
            )) ==> stats.segmented_strokes == 1
            &&& stats.fill_shape_count == 0
        }),
{
}

/// Strokes that are drawn fast are neither smoothed nor drawn segment by segment,
/// and all others are.
pub proof fn law_fast_strokes_are_plain(
    mode: StrokeFallbackJoinMode,
    auto_fast_path: bool,
    configured: u8,
)
    ensures
        mode == StrokeFallbackJoinMode::Performance ==> segmented_limit(mode, auto_fast_path)
            is None,
        segmented_limit(mode, auto_fast_path) is None ==> smoothing_passes(
            mode,
            auto_fast_path,
            configured,
        ) == 0,
        segmented_limit(mode, auto_fast_path) is Some ==> smoothing_passes(
            mode,
            auto_fast_path,
            configured,
        ) == configured && segmented_limit(mode, auto_fast_path)->0 > 2,
        mode != StrokeFallbackJoinMode::Auto ==> segmented_limit(mode, true) == segmented_limit(
            mode,
            false,
        ),
        segmented_limit(StrokeFallbackJoinMode::Auto, true) is None,
        segmented_limit(StrokeFallbackJoinMode::Auto, false) is Some,
{
}

} // verus!
