//! How operations get onto the screen: from where their points are, over
//! smoothed and clipped lines, to the shapes that are painted.

use crate::fallback::{
    area_saved_fallback_render_points, draws_fast, law_sampled_outline_is_bounded, may_smooth,
    paints_area, segmented_limit, should_paint_fill_fallback, smooth_saved_fallback,
    smoothing_passes, stroke_fallback_fast_endpoint_caps, stroke_fallback_segmented_point_limit,
    stroke_fallback_shapes, stroke_fallback_smoothing_passes, stroke_shapes, thinned,
    FallbackFrameStats, StrokeFallbackJoinMode, StrokeShape,
};
use crate::model::EditOperation;
use crate::plane::{copied, figures};
use crate::projection::{
    are_of_one_group, budget_after, count_lookup, group_end, group_sizes, has_line,
    lemma_group_end, lookup_stats, paint_groups, paint_stroke_runs, run_limit, run_views,
    runs_stats, FallbackPaintOperation, OperationLookup, RunView, StrokeRun,
};
use crate::render_cache::{
    operation_key, saved_fallback_operation_key, OperationBoundsLookup, RenderStyle,
    SavedFallbackRenderOperationKey,
};
use crate::renderer::{FallbackRenderer, OperationBounds};
use crate::scanlines::Span;
use crate::screen::Position;
use vstd::prelude::*;

verus! {

/// How operations are painted in a frame.
#[derive(Debug, Clone, Copy)]
pub struct PaintSettings {
    pub style: RenderStyle,
    pub camera_depth: i64,
    pub fill_fallback_max_points: usize,
    pub fill_fallback_max_depth_delta: i64,
}

/// For what an operation is painted.
#[derive(Debug, Clone, Copy)]
pub struct OperationPaintContext {
    /// Whether it is being drawn.
    pub is_draft: bool,
    /// The operation under which what is painted is kept: a block for its parts.
    pub cache_scope_id: u128,
}

/// The depth of an operation and those of its parts can be compared with that of
/// the camera, as far as they are areas or in a fill group.
pub open spec fn depths_fit(operation: EditOperation, camera_depth: i64) -> bool
    decreases operation,
{
    &&& operation.kind.area() || operation.fill_group_id is Some ==> camera_depth
        - operation.native_depth > i64::MIN
    &&& forall|i: int|
        0 <= i < operation.compact_sources@.len() ==> depths_fit(
            #[trigger] operation.compact_sources@[i],
            camera_depth,
        )
}

/// Something to paint, in the color and width of an operation.
pub enum PaintedShape<'a> {
    /// Spans of rows, filled.
    Area { operation: &'a EditOperation, spans: Vec<(i32, Span)> },
    /// Shapes on the points of a line.
    Stroke { operation: &'a EditOperation, line: Vec<Position>, shapes: Vec<StrokeShape> },
    /// The outline of an area that is being drawn.
    Outline { operation: &'a EditOperation, line: Vec<Position> },
}

/// Something to paint.
pub enum ShapeView {
    Area { operation: EditOperation, spans: Seq<(i32, Span)> },
    Stroke { operation: EditOperation, line: Seq<Position>, shapes: Seq<StrokeShape> },
    Outline { operation: EditOperation, line: Seq<Position> },
}

impl<'a> View for PaintedShape<'a> {
    type V = ShapeView;

    open spec fn view(&self) -> ShapeView {
        match self {
            PaintedShape::Area { operation, spans } => ShapeView::Area {
                operation: **operation,
                spans: spans@,
            },
            PaintedShape::Stroke { operation, line, shapes } => ShapeView::Stroke {
                operation: **operation,
                line: line@,
                shapes: shapes@,
            },
            PaintedShape::Outline { operation, line } => ShapeView::Outline {
                operation: **operation,
                line: line@,
            },
        }
    }
}

/// Things to paint, one after the other.
pub open spec fn shape_views(shapes: Seq<PaintedShape>) -> Seq<ShapeView> {
    shapes.map_values(|shape: PaintedShape| shape@)
}

proof fn lemma_one_more_shape(shapes: Seq<PaintedShape>, shape: PaintedShape)
    ensures
        shape_views(shapes.push(shape)) == shape_views(shapes).push(shape@),
{
    assert(shape_views(shapes.push(shape)) =~= shape_views(shapes).push(shape@));
}

proof fn lemma_more_shapes(shapes: Seq<PaintedShape>, more: Seq<PaintedShape>)
    ensures
        shape_views(shapes + more) == shape_views(shapes) + shape_views(more),
{
    assert(shape_views(shapes + more) =~= shape_views(shapes) + shape_views(more));
}

/// Points were kept.
pub open spec fn cache_hit() -> FallbackFrameStats {
    FallbackFrameStats { fallback_cache_hits: 1, ..FallbackFrameStats::nothing() }
}

/// Points had to be derived.
pub open spec fn cache_miss() -> FallbackFrameStats {
    FallbackFrameStats { fallback_cache_misses: 1, ..FallbackFrameStats::nothing() }
}

proof fn lemma_nothing_counts(stats: FallbackFrameStats)
    ensures
        stats.plus(FallbackFrameStats::nothing()) == stats,
{
}

/// What is kept from one painting to the next, and what is left of the budget.
pub struct Kept {
    /// The smoothed points of operations.
    pub points: Map<SavedFallbackRenderOperationKey, Seq<Position>>,
    /// The parts of strokes on the screen.
    pub lines: Map<SavedFallbackRenderOperationKey, Seq<Seq<Position>>>,
    /// The parts of areas on the screen.
    pub polygons: Map<SavedFallbackRenderOperationKey, Seq<Position>>,
    pub bounds: Map<u128, Option<OperationBounds>>,
    pub budget: usize,
}

impl Kept {
    /// All that was kept before is kept, and no more is left of the budget.
    pub open spec fn extends(self, before: Kept) -> bool {
        &&& before.points.submap_of(self.points)
        &&& before.lines.submap_of(self.lines)
        &&& before.polygons.submap_of(self.polygons)
        &&& before.bounds.submap_of(self.bounds)
        &&& self.budget <= before.budget
    }
}

/// Kept paths, by their points.
pub open spec fn paths_kept(
    paths: Map<SavedFallbackRenderOperationKey, Vec<Position>>,
) -> Map<SavedFallbackRenderOperationKey, Seq<Position>> {
    paths.map_values(|path: Vec<Position>| path@)
}

/// Kept lists of lines, by their points.
pub open spec fn lines_kept(
    lists: Map<SavedFallbackRenderOperationKey, Vec<Vec<Position>>>,
) -> Map<SavedFallbackRenderOperationKey, Seq<Seq<Position>>> {
    lists.map_values(|lines: Vec<Vec<Position>>| figures(lines@))
}

proof fn lemma_path_kept(
    paths: Map<SavedFallbackRenderOperationKey, Vec<Position>>,
    key: SavedFallbackRenderOperationKey,
    path: Vec<Position>,
)
    ensures
        paths_kept(paths.insert(key, path)) == paths_kept(paths).insert(key, path@),
{
    assert(paths_kept(paths.insert(key, path)) =~= paths_kept(paths).insert(key, path@));
}

proof fn lemma_lines_kept(
    lists: Map<SavedFallbackRenderOperationKey, Vec<Vec<Position>>>,
    key: SavedFallbackRenderOperationKey,
    lines: Vec<Vec<Position>>,
)
    ensures
        lines_kept(lists.insert(key, lines)) == lines_kept(lists).insert(key, figures(lines@)),
{
    assert(lines_kept(lists.insert(key, lines)) =~= lines_kept(lists).insert(
        key,
        figures(lines@),
    ));
}

impl FallbackRenderer {
    /// What the renderer keeps.
    pub open spec fn kept(self) -> Kept {
        Kept {
            points: paths_kept(self.saved_render_cache.points@),
            lines: lines_kept(self.saved_render_cache.clipped_stroke_runs@),
            polygons: paths_kept(self.saved_render_cache.clipped_area_polygons@),
            bounds: self.operation_bounds_cache@,
            budget: self.segmented_shape_budget_remaining,
        }
    }

    /// The frame and what it shows are those of `before`.
    pub open spec fn same_frame_as(self, before: FallbackRenderer) -> bool {
        &&& self.visible_operations == before.visible_operations
        &&& self.saved_render_cache.frame_key == before.saved_render_cache.frame_key
    }
}

/// What painting comes to.
pub struct Painting {
    pub kept: Kept,
    pub shapes: Seq<ShapeView>,
    pub stats: FallbackFrameStats,
}

impl Painting {
    /// Nothing is painted.
    pub open spec fn nothing(kept: Kept) -> Painting {
        Painting { kept, shapes: Seq::empty(), stats: FallbackFrameStats::nothing() }
    }

    /// This, and then the other.
    pub open spec fn and(self, later: Painting) -> Painting {
        Painting {
            kept: later.kept,
            shapes: self.shapes + later.shapes,
            stats: self.stats.plus(later.stats),
        }
    }

    /// This, which counts as so much more.
    pub open spec fn counted(self, more: FallbackFrameStats) -> Painting {
        Painting { stats: more.plus(self.stats), ..self }
    }
}

/// The renderer, and what it returns, are what the painting comes to.
pub open spec fn is_painting(
    renderer: FallbackRenderer,
    result: (Vec<PaintedShape>, FallbackFrameStats),
    painting: Painting,
) -> bool {
    &&& renderer.kept() == painting.kept
    &&& shape_views(result.0@) == painting.shapes
    &&& result.1 == painting.stats
}

/// What painting the areas of a group has come to so far.
pub struct GroupView {
    pub kept: Kept,
    /// The parts of the areas on the screen.
    pub polygons: Seq<Seq<Position>>,
    pub stats: FallbackFrameStats,
}

/// `answer` is what a function makes of a path.
pub open spec fn gives_path<S: Fn(&Vec<Position>, usize) -> Vec<Position>>(
    smooth: S,
    points: Seq<Position>,
    passes: usize,
    answer: Seq<Position>,
) -> bool {
    exists|path: Vec<Position>, result: Vec<Position>|
        {
            &&& path@ == points
            &&& result@ == answer
            &&& #[trigger] call_ensures(smooth, (&path, passes), result)
        }
}

/// What a function makes of a path.
pub open spec fn path_given<S: Fn(&Vec<Position>, usize) -> Vec<Position>>(
    smooth: S,
    points: Seq<Position>,
    passes: usize,
) -> Seq<Position> {
    choose|answer: Seq<Position>| gives_path(smooth, points, passes, answer)
}

/// A function can be asked for every path, and the same path has one answer.
pub open spec fn gives_paths<S: Fn(&Vec<Position>, usize) -> Vec<Position>>(smooth: S) -> bool {
    &&& forall|path: Vec<Position>, passes: usize| #[trigger]
        call_requires(smooth, (&path, passes))
    &&& forall|points: Seq<Position>, passes: usize, first: Seq<Position>, second: Seq<Position>|
        #![trigger gives_path(smooth, points, passes, first), gives_path(smooth, points, passes, second)]
        gives_path(smooth, points, passes, first) && gives_path(smooth, points, passes, second)
            ==> first == second
}

/// A path that is drawn: smoothed, unless there is no smoothing, the path is too
/// long for it, or it came out too long.
pub open spec fn smoothed<S: Fn(&Vec<Position>, usize) -> Vec<Position>>(
    smooth: S,
    points: Seq<Position>,
    passes: usize,
) -> Seq<Position> {
    let result = path_given(smooth, points, passes);
    if passes == 0 || points.len() > 4096 || result.len() > 8192 {
        points
    } else {
        result
    }
}

proof fn lemma_smoothed<S: Fn(&Vec<Position>, usize) -> Vec<Position>>(
    smooth: S,
    points: Seq<Position>,
    passes: usize,
    result: Seq<Position>,
)
    requires
        gives_paths(smooth),
        may_smooth(points, passes, smooth, result),
    ensures
        result == smoothed(smooth, points, passes),
{
    if passes != 0 && points.len() <= 4096 {
        let (path, answer) = choose|path: Vec<Position>, answer: Vec<Position>|
            {
                &&& path@ == points
                &&& #[trigger] call_ensures(smooth, (&path, passes), answer)
                &&& result == if answer@.len() > 8192 {
                    points
                } else {
                    answer@
                }
            };
        assert(gives_path(smooth, points, passes, answer@));
        assert(gives_path(smooth, points, passes, path_given(smooth, points, passes)));
    }
}

/// How operations get onto the screen.
pub struct Brushwork<P, L, A, E, C, K, D, F, B, I> {
    /// Where the points of an operation are, as far as they can be shown.
    pub project: P,
    /// A line with its corners rounded so many times.
    pub smooth_line: L,
    /// An outline with its corners rounded so many times.
    pub smooth_area: A,
    /// A line that is being drawn, with its corners rounded.
    pub smooth_draft: E,
    /// The parts of a stroke on the screen.
    pub clip_line: C,
    /// The part of an area on the screen.
    pub clip_area: K,
    /// The distances between the neighbours of a line.
    pub distances: D,
    /// The spans of rows that polygons fill.
    pub fill: F,
    /// Where an operation lies on the canvas.
    pub bounds: B,
    /// Whether what lies there may be seen.
    pub intersects: I,
}

impl<
    P: Fn(&EditOperation) -> Vec<Position>,
    L: Fn(&Vec<Position>, usize) -> Vec<Position>,
    A: Fn(&Vec<Position>, usize) -> Vec<Position>,
    E: Fn(&Vec<Position>, usize) -> Vec<Position>,
    C: Fn(&EditOperation, &Vec<Position>) -> Vec<Vec<Position>>,
    K: Fn(&Vec<Position>) -> Vec<Position>,
    D: Fn(&Vec<Position>) -> Vec<u32>,
    F: Fn(&Vec<Vec<Position>>) -> Vec<(i32, Span)>,
    B: Fn(&EditOperation) -> Option<OperationBounds>,
    I: Fn(&EditOperation, &OperationBounds) -> bool,
> Brushwork<P, L, A, E, C, K, D, F, B, I> {
    /// `answer` is where the points of an operation are.
    pub open spec fn projects(self, operation: EditOperation, answer: Seq<Position>) -> bool {
        exists|points: Vec<Position>| #[trigger]
            call_ensures(self.project, (&operation,), points) && points@ == answer
    }

    /// Where the points of an operation are.
    pub open spec fn projected(self, operation: EditOperation) -> Seq<Position> {
        choose|answer: Seq<Position>| self.projects(operation, answer)
    }

    /// `answer` are the parts of a stroke on the screen.
    pub open spec fn clips_line(
        self,
        operation: EditOperation,
        points: Seq<Position>,
        answer: Seq<Seq<Position>>,
    ) -> bool {
        exists|path: Vec<Position>, lines: Vec<Vec<Position>>|
            {
                &&& path@ == points
                &&& figures(lines@) == answer
                &&& #[trigger] call_ensures(self.clip_line, (&operation, &path), lines)
            }
    }

    /// The parts of a stroke on the screen.
    pub open spec fn clipped_line(self, operation: EditOperation, points: Seq<Position>) -> Seq<
        Seq<Position>,
    > {
        choose|answer: Seq<Seq<Position>>| self.clips_line(operation, points, answer)
    }

    /// `answer` is the part of an area on the screen.
    pub open spec fn clips_area(self, points: Seq<Position>, answer: Seq<Position>) -> bool {
        exists|path: Vec<Position>, polygon: Vec<Position>|
            {
                &&& path@ == points
                &&& polygon@ == answer
                &&& #[trigger] call_ensures(self.clip_area, (&path,), polygon)
            }
    }

    /// The part of an area on the screen.
    pub open spec fn clipped_area(self, points: Seq<Position>) -> Seq<Position> {
        choose|answer: Seq<Position>| self.clips_area(points, answer)
    }

    /// `answer` are the distances between the neighbours of a line.
    pub open spec fn spaces(self, line: Seq<Position>, answer: Seq<u32>) -> bool {
        exists|path: Vec<Position>, distances: Vec<u32>|
            {
                &&& path@ == line
                &&& distances@ == answer
                &&& #[trigger] call_ensures(self.distances, (&path,), distances)
            }
    }

    /// The distances between the neighbours of a line.
    pub open spec fn spacing(self, line: Seq<Position>) -> Seq<u32> {
        choose|answer: Seq<u32>| self.spaces(line, answer)
    }

    /// `answer` are the spans that polygons fill.
    pub open spec fn fills(self, polygons: Seq<Seq<Position>>, answer: Seq<(i32, Span)>) -> bool {
        exists|list: Vec<Vec<Position>>, spans: Vec<(i32, Span)>|
            {
                &&& figures(list@) == polygons
                &&& spans@ == answer
                &&& #[trigger] call_ensures(self.fill, (&list,), spans)
            }
    }

    /// The spans that polygons fill.
    pub open spec fn filled(self, polygons: Seq<Seq<Position>>) -> Seq<(i32, Span)> {
        choose|answer: Seq<(i32, Span)>| self.fills(polygons, answer)
    }

    /// Where an operation lies on the canvas.
    pub open spec fn bounds_of(self, operation: EditOperation) -> Option<OperationBounds> {
        choose|answer: Option<OperationBounds>| call_ensures(self.bounds, (&operation,), answer)
    }

    /// Whether an operation with the bounds may be seen: not where it has none.
    pub open spec fn may_be_seen(
        self,
        operation: EditOperation,
        bounds: Option<OperationBounds>,
    ) -> bool {
        match bounds {
            Some(bounds) => choose|answer: bool|
                call_ensures(self.intersects, (&operation, &bounds), answer),
            None => false,
        }
    }

    /// The points of lines and operations can be asked for, and the same
    /// question has one answer.
    pub open spec fn lines_wf(self) -> bool {
        &&& gives_paths(self.smooth_line)
        &&& gives_paths(self.smooth_area)
        &&& gives_paths(self.smooth_draft)
        &&& forall|operation: EditOperation| #[trigger] call_requires(self.project, (&operation,))
        &&& forall|operation: EditOperation, first: Seq<Position>, second: Seq<Position>|
            #![trigger self.projects(operation, first), self.projects(operation, second)]
            self.projects(operation, first) && self.projects(operation, second) ==> first == second
        &&& forall|operation: EditOperation, path: Vec<Position>| #[trigger]
            call_requires(self.clip_line, (&operation, &path))
        &&& forall|
            operation: EditOperation,
            points: Seq<Position>,
            first: Seq<Seq<Position>>,
            second: Seq<Seq<Position>>,
        |
            #![trigger self.clips_line(operation, points, first), self.clips_line(operation, points, second)]
            self.clips_line(operation, points, first) && self.clips_line(operation, points, second)
                ==> first == second
        &&& forall|path: Vec<Position>| #[trigger] call_requires(self.distances, (&path,))
        &&& forall|line: Seq<Position>, first: Seq<u32>, second: Seq<u32>|
            #![trigger self.spaces(line, first), self.spaces(line, second)]
            self.spaces(line, first) && self.spaces(line, second) ==> first == second
        &&& forall|line: Seq<Position>, answer: Seq<u32>| #[trigger]
            self.spaces(line, answer) && line.len() >= 1 ==> answer.len() == line.len() - 1
    }

    /// Everything can be asked for, and the same question has one answer; there
    /// is a distance between any two neighbours of a line.
    pub open spec fn wf(self) -> bool {
        &&& self.lines_wf()
        &&& forall|path: Vec<Position>| #[trigger] call_requires(self.clip_area, (&path,))
        &&& forall|points: Seq<Position>, first: Seq<Position>, second: Seq<Position>|
            #![trigger self.clips_area(points, first), self.clips_area(points, second)]
            self.clips_area(points, first) && self.clips_area(points, second) ==> first == second
        &&& forall|list: Vec<Vec<Position>>| #[trigger] call_requires(self.fill, (&list,))
        &&& forall|
            polygons: Seq<Seq<Position>>,
            first: Seq<(i32, Span)>,
            second: Seq<(i32, Span)>,
        |
            #![trigger self.fills(polygons, first), self.fills(polygons, second)]
            self.fills(polygons, first) && self.fills(polygons, second) ==> first == second
        &&& forall|operation: EditOperation| #[trigger] call_requires(self.bounds, (&operation,))
        &&& forall|
            operation: EditOperation,
            first: Option<OperationBounds>,
            second: Option<OperationBounds>,
        |
            #![trigger
                call_ensures(self.bounds, (&operation,), first),
                call_ensures(self.bounds, (&operation,), second)
            ]
            call_ensures(self.bounds, (&operation,), first) && call_ensures(
                self.bounds,
                (&operation,),
                second,
            ) ==> first == second
        &&& forall|operation: EditOperation, bounds: OperationBounds| #[trigger]
            call_requires(self.intersects, (&operation, &bounds))
        &&& forall|operation: EditOperation, bounds: OperationBounds, first: bool, second: bool|
            #![trigger
                call_ensures(self.intersects, (&operation, &bounds), first),
                call_ensures(self.intersects, (&operation, &bounds), second)
            ]
            call_ensures(self.intersects, (&operation, &bounds), first) && call_ensures(
                self.intersects,
                (&operation, &bounds),
                second,
            ) ==> first == second
    }

    /// The points with which an operation is drawn: an area by no more than so
    /// many of them and smoothed only where it is to be, a stroke smoothed.
    pub open spec fn derived(
        self,
        settings: PaintSettings,
        operation: EditOperation,
        points: Seq<Position>,
    ) -> Seq<Position> {
        let style = settings.style;
        if operation.kind.area() {
            smoothed(
                self.smooth_area,
                thinned(points, settings.fill_fallback_max_points as int),
                if operation.smooth_area {
                    style.smoothing_passes as usize
                } else {
                    0
                },
            )
        } else {
            smoothed(
                self.smooth_line,
                points,
                smoothing_passes(
                    style.stroke_fallback_joins,
                    style.auto_fast_stroke_fallback,
                    style.smoothing_passes,
                ) as usize,
            )
        }
    }

    fn derive(&self, settings: &PaintSettings, operation: &EditOperation, points: &Vec<Position>)
        -> (result: Vec<Position>)
        requires
            self.wf(),
            points@.len() * settings.fill_fallback_max_points <= usize::MAX,
        ensures
            result@ == self.derived(*settings, *operation, points@),
    {
        let style = settings.style;
        if operation.kind.is_area() {
            let passes: usize = if operation.smooth_area {
                style.smoothing_passes as usize
            } else {
                0
            };
            let result = area_saved_fallback_render_points(
                points,
                settings.fill_fallback_max_points,
                passes,
                &self.smooth_area,
            );
            proof {
                lemma_smoothed(
                    self.smooth_area,
                    thinned(points@, settings.fill_fallback_max_points as int),
                    passes,
                    result@,
                );
            }
            result
        } else {
            let passes: usize = stroke_fallback_smoothing_passes(
                style.stroke_fallback_joins,
                style.auto_fast_stroke_fallback,
                style.smoothing_passes,
            );
            let result = smooth_saved_fallback(copied(points), passes, &self.smooth_line);
            proof {
                lemma_smoothed(self.smooth_line, points@, passes, result@);
            }
            result
        }
    }

    /// The part of an area on the screen is kept.
    pub open spec fn with_polygon(self, kept: Kept, key: SavedFallbackRenderOperationKey) -> Kept {
        if kept.polygons.contains_key(key) {
            kept
        } else {
            Kept {
                polygons: kept.polygons.insert(key, self.clipped_area(kept.points[key])),
                ..kept
            }
        }
    }

    /// The painting of an area whose points are kept: its part on the screen,
    /// filled, unless it has too many points or comes from too far away.
    pub open spec fn saved_area(
        self,
        settings: PaintSettings,
        kept: Kept,
        operation: EditOperation,
        key: SavedFallbackRenderOperationKey,
    ) -> Painting {
        if paints_area(
            operation,
            settings.camera_depth,
            kept.points[key].len() as usize,
            settings.fill_fallback_max_points,
            settings.fill_fallback_max_depth_delta,
        ) {
            let after = self.with_polygon(kept, key);
            let spans = self.filled(seq![after.polygons[key]]);
            Painting {
                kept: after,
                shapes: seq![ShapeView::Area { operation, spans }],
                stats: FallbackFrameStats {
                    fill_shape_count: spans.len() as usize,
                    painted_operations: 1,
                    ..FallbackFrameStats::nothing()
                },
            }
        } else {
            Painting::nothing(kept)
        }
    }

    /// The parts of a stroke on the screen are kept.
    pub open spec fn with_lines(
        self,
        kept: Kept,
        operation: EditOperation,
        key: SavedFallbackRenderOperationKey,
    ) -> Kept {
        if kept.lines.contains_key(key) {
            kept
        } else {
            Kept {
                lines: kept.lines.insert(key, self.clipped_line(operation, kept.points[key])),
                ..kept
            }
        }
    }

    /// Lines, by their numbers.
    pub open spec fn runs(self, lines: Seq<Seq<Position>>) -> Seq<RunView> {
        lines.map_values(
            |line: Seq<Position>|
                RunView { point_count: line.len() as usize, distances: self.spacing(line) },
        )
    }

    /// The painting of a stroke whose points are kept: its parts on the screen,
    /// segment by segment while the budget lasts.
    pub open spec fn saved_stroke(
        self,
        settings: PaintSettings,
        kept: Kept,
        operation: EditOperation,
        key: SavedFallbackRenderOperationKey,
    ) -> Painting {
        let style = settings.style;
        let after = self.with_lines(kept, operation, key);
        let lines = after.lines[key];
        let runs = self.runs(lines);
        let limit = segmented_limit(style.stroke_fallback_joins, style.auto_fast_stroke_fallback);
        let caps = !draws_fast(style.stroke_fallback_joins, style.auto_fast_stroke_fallback);
        Painting {
            kept: Kept {
                budget: budget_after(runs, limit, kept.budget, runs.len() as int) as usize,
                ..after
            },
            shapes: Seq::new(
                lines.len(),
                |k: int|
                    ShapeView::Stroke {
                        operation,
                        line: lines[k],
                        shapes: stroke_shapes(
                            runs[k].point_count,
                            runs[k].distances,
                            run_limit(runs, limit, kept.budget, k),
                            caps,
                        ),
                    },
            ),
            stats: FallbackFrameStats {
                painted_operations: if has_line(runs) {
                    1
                } else {
                    0
                },
                ..runs_stats(runs, limit, caps, kept.budget, runs.len() as int)
            },
        }
    }

    /// The painting of an operation whose points are kept.
    pub open spec fn saved(
        self,
        settings: PaintSettings,
        kept: Kept,
        operation: EditOperation,
        key: SavedFallbackRenderOperationKey,
    ) -> Painting {
        if kept.points[key].len() < 2 {
            Painting::nothing(kept)
        } else if operation.kind.area() {
            self.saved_area(settings, kept, operation, key)
        } else {
            self.saved_stroke(settings, kept, operation, key)
        }
    }

    /// The part of an area on the screen, which is kept.
    fn shown_area(
        &self,
        renderer: &mut FallbackRenderer,
        key: SavedFallbackRenderOperationKey,
        points: &Vec<Position>,
    ) -> (polygon: Vec<Position>)
        requires
            self.wf(),
            old(renderer).wf(),
            points@ == old(renderer).kept().points[key],
        ensures
            final(renderer).wf(),
            final(renderer).same_frame_as(*old(renderer)),
            final(renderer).kept() == self.with_polygon(old(renderer).kept(), key),
            polygon@ == final(renderer).kept().polygons[key],
    {
        let ghost before = renderer.kept();
        let ghost polygons = renderer.saved_render_cache.clipped_area_polygons@;
        if renderer.saved_render_cache.get_clipped_area_polygon(key).is_none() {
            let polygon = (self.clip_area)(points);
            proof {
                lemma_path_kept(polygons, key, polygon);
                assert(self.clips_area(points@, polygon@));
                assert(self.clips_area(points@, self.clipped_area(points@)));
            }
            renderer.saved_render_cache.insert_clipped_area_polygon(key, polygon);
        }
        assert(renderer.kept() == self.with_polygon(before, key));
        match renderer.saved_render_cache.get_clipped_area_polygon(key) {
            Some(polygon) => copied(polygon),
            None => Vec::new(),
        }
    }

    fn paint_saved_area<'a>(
        &self,
        settings: &PaintSettings,
        renderer: &mut FallbackRenderer,
        operation: &'a EditOperation,
        key: SavedFallbackRenderOperationKey,
        points: &Vec<Position>,
    ) -> (result: (Vec<PaintedShape<'a>>, FallbackFrameStats))
        requires
            self.wf(),
            old(renderer).wf(),
            old(renderer).kept().points.contains_key(key),
            points@ == old(renderer).kept().points[key],
            points@.len() <= settings.fill_fallback_max_points ==> settings.camera_depth
                - operation.native_depth > i64::MIN,
        ensures
            final(renderer).wf(),
            final(renderer).same_frame_as(*old(renderer)),
            is_painting(
                *final(renderer),
                result,
                self.saved_area(*settings, old(renderer).kept(), *operation, key),
            ),
    {
        let ghost before = renderer.kept();
        let mut shapes: Vec<PaintedShape<'a>> = Vec::new();
        let mut stats = FallbackFrameStats::new();
        if !should_paint_fill_fallback(
            operation,
            settings.camera_depth,
            points.len(),
            settings.fill_fallback_max_points,
            settings.fill_fallback_max_depth_delta,
        ) {
            assert(shape_views(shapes@) =~= Seq::empty());
            return (shapes, stats);
        }
        let mut list: Vec<Vec<Position>> = Vec::new();
        let polygon = self.shown_area(renderer, key, points);
        list.push(polygon);
        let spans = (self.fill)(&list);
        proof {
            let after = self.with_polygon(before, key);
            assert(figures(list@) =~= seq![after.polygons[key]]);
            assert(self.fills(figures(list@), spans@));
            assert(self.fills(figures(list@), self.filled(figures(list@))));
        }
        stats.fill_shape_count = spans.len();
        stats.painted_operations = 1;
        shapes.push(PaintedShape::Area { operation, spans });
        assert(shape_views(shapes@) =~= self.saved_area(*settings, before, *operation, key).shapes);
        (shapes, stats)
    }

    fn measured(&self, list: &Vec<Vec<Position>>) -> (result: (Vec<Vec<Position>>, Vec<StrokeRun>))
        requires
            self.wf(),
        ensures
            figures(result.0@) == figures(list@),
            run_views(result.1@) == self.runs(figures(list@)),
            forall|k: int| 0 <= k < result.1@.len() ==> (#[trigger] result.1@[k]).wf(),
    {
        let mut lines: Vec<Vec<Position>> = Vec::new();
        let mut runs: Vec<StrokeRun> = Vec::new();
        let mut i: usize = 0;
        while i < list.len()
            invariant
                i <= list@.len(),
                self.wf(),
                figures(lines@) == figures(list@).take(i as int),
                run_views(runs@) == self.runs(figures(list@)).take(i as int),
                forall|k: int| 0 <= k < runs@.len() ==> (#[trigger] runs@[k]).wf(),
            decreases list@.len() - i,
        {
            let line = copied(&list[i]);
            let distances = (self.distances)(&line);
            let ghost place = i as int;
            let ghost lines_before = lines@;
            let ghost runs_before = runs@;
            let run = StrokeRun { point_count: line.len(), distances };
            proof {
                assert(self.spaces(line@, distances@));
                assert(self.spaces(line@, self.spacing(line@)));
                assert(figures(list@)[place] == line@);
                assert(self.runs(figures(list@))[place] == run@);
                assert(figures(list@).take(place + 1) =~= figures(list@).take(place).push(line@));
                assert(self.runs(figures(list@)).take(place + 1) =~= self.runs(
                    figures(list@),
                ).take(place).push(run@));
                assert(figures(lines_before.push(line)) =~= figures(lines_before).push(line@));
                assert(run_views(runs_before.push(run)) =~= run_views(runs_before).push(run@));
            }
            runs.push(run);
            lines.push(line);
            i = i + 1;
        }
        assert(figures(lines@) =~= figures(list@));
        assert(run_views(runs@) =~= self.runs(figures(list@)));
        (lines, runs)
    }

    fn paint_saved_stroke<'a>(
        &self,
        settings: &PaintSettings,
        renderer: &mut FallbackRenderer,
        operation: &'a EditOperation,
        key: SavedFallbackRenderOperationKey,
        points: &Vec<Position>,
    ) -> (result: (Vec<PaintedShape<'a>>, FallbackFrameStats))
        requires
            self.wf(),
            old(renderer).wf(),
            old(renderer).kept().points.contains_key(key),
            points@ == old(renderer).kept().points[key],
        ensures
            final(renderer).wf(),
            final(renderer).same_frame_as(*old(renderer)),
            is_painting(
                *final(renderer),
                result,
                self.saved_stroke(*settings, old(renderer).kept(), *operation, key),
            ),
    {
        let ghost before = renderer.kept();
        let ghost lists = renderer.saved_render_cache.clipped_stroke_runs@;
        if renderer.saved_render_cache.get_clipped_stroke_runs(key).is_none() {
            let lines = (self.clip_line)(operation, points);
            renderer.saved_render_cache.insert_clipped_stroke_runs(key, lines);
        }
        let ghost after = self.with_lines(before, *operation, key);
        proof {
            let lines = renderer.saved_render_cache.clipped_stroke_runs@[key];
            if !lists.contains_key(key) {
                lemma_lines_kept(lists, key, lines);
                assert(self.clips_line(*operation, points@, figures(lines@)));
                assert(self.clips_line(
                    *operation,
                    points@,
                    self.clipped_line(*operation, points@),
                ));
            }
            assert(renderer.kept() == after);
        }
        let (mut lines, runs) = match renderer.saved_render_cache.get_clipped_stroke_runs(key) {
            Some(list) => self.measured(list),
            None => (Vec::new(), Vec::new()),
        };
        assert(figures(lines@) == after.lines[key]);
        let style = settings.style;
        let limit = stroke_fallback_segmented_point_limit(
            style.stroke_fallback_joins,
            style.auto_fast_stroke_fallback,
        );
        let caps: bool = stroke_fallback_fast_endpoint_caps(
            style.stroke_fallback_joins,
            style.auto_fast_stroke_fallback,
        );
        let (mut run_shapes, stats) = paint_stroke_runs(
            &runs,
            limit,
            caps,
            &mut renderer.segmented_shape_budget_remaining,
        );
        let ghost painting = self.saved_stroke(*settings, before, *operation, key);
        let ghost all_lines = lines@;
        let ghost all_shapes = run_shapes@;
        assert(self.runs(figures(lines@)).len() == lines@.len());
        assert(run_views(runs@).len() == runs@.len());
        proof {
            assert forall|k: int| 0 <= k < lines@.len() implies (#[trigger] painting.shapes[k])
                == (ShapeView::Stroke {
                operation: *operation,
                line: all_lines[k]@,
                shapes: all_shapes[k]@,
            }) by {
                assert(figures(all_lines)[k] == all_lines[k]@);
                assert(run_views(runs@)[k] == runs@[k]@);
            }
        }
        let mut shapes: Vec<PaintedShape<'a>> = Vec::new();
        let ghost mut done: int = 0;
        while lines.len() > 0
            invariant
                0 <= done <= all_lines.len(),
                all_lines.len() == all_shapes.len() == painting.shapes.len(),
                lines@ == all_lines.skip(done),
                run_shapes@ == all_shapes.skip(done),
                shape_views(shapes@) == painting.shapes.take(done),
                forall|k: int|
                    0 <= k < all_lines.len() ==> (#[trigger] painting.shapes[k])
                        == (ShapeView::Stroke {
                        operation: *operation,
                        line: all_lines[k]@,
                        shapes: all_shapes[k]@,
                    }),
            decreases lines@.len(),
        {
            let line = lines.remove(0);
            let on_line = run_shapes.remove(0);
            let shape = PaintedShape::Stroke { operation, line, shapes: on_line };
            proof {
                assert(lines@ =~= all_lines.skip(done + 1));
                assert(run_shapes@ =~= all_shapes.skip(done + 1));
                assert(painting.shapes[done] == shape@);
                lemma_one_more_shape(shapes@, shape);
                assert(painting.shapes.take(done + 1) =~= painting.shapes.take(done).push(shape@));
                done = done + 1;
            }
            shapes.push(shape);
        }
        assert(shape_views(shapes@) =~= painting.shapes);
        (shapes, stats)
    }

    /// Paints an operation whose points are kept.
    fn paint_saved_operation_derived_points<'a>(
        &self,
        settings: &PaintSettings,
        renderer: &mut FallbackRenderer,
        operation: &'a EditOperation,
        key: SavedFallbackRenderOperationKey,
    ) -> (result: (Vec<PaintedShape<'a>>, FallbackFrameStats))
        requires
            self.wf(),
            old(renderer).wf(),
            old(renderer).kept().points.contains_key(key),
            operation.kind.area() ==> settings.camera_depth - operation.native_depth > i64::MIN,
        ensures
            final(renderer).wf(),
            final(renderer).same_frame_as(*old(renderer)),
            is_painting(
                *final(renderer),
                result,
                self.saved(*settings, old(renderer).kept(), *operation, key),
            ),
    {
        let points = match renderer.saved_render_cache.get(key) {
            Some(points) => copied(points),
            None => Vec::new(),
        };
        if points.len() < 2 {
            let shapes: Vec<PaintedShape<'a>> = Vec::new();
            assert(shape_views(shapes@) =~= Seq::empty());
            (shapes, FallbackFrameStats::new())
        } else if operation.kind.is_area() {
            self.paint_saved_area(settings, renderer, operation, key, &points)
        } else {
            self.paint_saved_stroke(settings, renderer, operation, key, &points)
        }
    }

    /// The points of every operation can be thinned out.
    pub open spec fn projections_fit(self, settings: PaintSettings) -> bool {
        forall|operation: EditOperation, points: Seq<Position>| #[trigger]
            self.projects(operation, points) ==> points.len() * settings.fill_fallback_max_points
                <= usize::MAX
    }

    /// The painting of a saved operation from where its points are: from those
    /// that are kept for it, or from newly derived ones, which are kept then.
    pub open spec fn saved_from(
        self,
        settings: PaintSettings,
        kept: Kept,
        operation: EditOperation,
        points: Seq<Position>,
        scope_id: u128,
    ) -> Painting {
        let key = operation_key(scope_id, operation, settings.style);
        if kept.points.contains_key(key) {
            self.saved(settings, kept, operation, key).counted(cache_hit())
        } else {
            let after = Kept {
                points: kept.points.insert(key, self.derived(settings, operation, points)),
                ..kept
            };
            self.saved(settings, after, operation, key).counted(cache_miss())
        }
    }

    /// The painting of an operation that is being drawn: the outline of an area,
    /// or a stroke as one line.
    pub open spec fn drafted(
        self,
        settings: PaintSettings,
        kept: Kept,
        operation: EditOperation,
        points: Seq<Position>,
    ) -> Painting {
        let line = path_given(self.smooth_draft, points, settings.style.smoothing_passes as usize);
        Painting {
            kept,
            shapes: seq![
                if operation.kind.area() {
                    ShapeView::Outline { operation, line }
                } else {
                    ShapeView::Stroke {
                        operation,
                        line,
                        shapes: stroke_shapes(line.len() as usize, self.spacing(line), None, true),
                    }
                },
            ],
            stats: FallbackFrameStats::nothing(),
        }
    }

    /// The painting of an operation from where its points are: a block by its
    /// parts, and nothing where there are less than two points.
    pub open spec fn painted(
        self,
        settings: PaintSettings,
        kept: Kept,
        operation: EditOperation,
        points: Seq<Position>,
        context: OperationPaintContext,
    ) -> Painting
        decreases operation, operation.compact_sources@.len() + 1,
    {
        if operation.is_block() {
            self.sources_painted(
                settings,
                kept,
                operation,
                context,
                operation.compact_sources@.len(),
            )
        } else if points.len() < 2 {
            Painting::nothing(kept)
        } else if context.is_draft {
            self.drafted(settings, kept, operation, points)
        } else {
            self.saved_from(settings, kept, operation, points, context.cache_scope_id)
        }
    }

    /// The painting of the first `count` parts of a block: each from the points
    /// that are kept for it, or from where its points are, unless it lies off
    /// the screen.
    pub open spec fn sources_painted(
        self,
        settings: PaintSettings,
        kept: Kept,
        block: EditOperation,
        context: OperationPaintContext,
        count: nat,
    ) -> Painting
        decreases block, count,
    {
        if count == 0 || count > block.compact_sources@.len() {
            Painting::nothing(kept)
        } else {
            let before = self.sources_painted(settings, kept, block, context, (count - 1) as nat);
            let source = block.compact_sources@[count - 1];
            let key = operation_key(context.cache_scope_id, source, settings.style);
            proof {
                assert(decreases_to!(block => block.compact_sources@[count - 1]));
            }
            before.and(
                if !context.is_draft && before.kept.points.contains_key(key) {
                    self.saved(settings, before.kept, source, key).counted(cache_hit())
                } else {
                    let after = self.with_bounds(before.kept, source);
                    let lookup = OperationBoundsLookup {
                        cache_hit: before.kept.bounds.contains_key(source.id),
                        may_intersect: self.may_be_seen(source, after.bounds[source.id]),
                    };
                    if lookup.may_intersect {
                        self.painted(settings, after, source, self.projected(source), context)
                    } else {
                        Painting::nothing(after)
                    }.counted(lookup_stats(OperationLookup::Bounds(lookup)))
                },
            )
        }
    }

    /// The bounds of an operation are kept.
    pub open spec fn with_bounds(self, kept: Kept, operation: EditOperation) -> Kept {
        if kept.bounds.contains_key(operation.id) {
            kept
        } else {
            Kept {
                bounds: kept.bounds.insert(operation.id, self.bounds_of(operation)),
                ..kept
            }
        }
    }

    fn paint_saved_from<'a>(
        &self,
        settings: &PaintSettings,
        renderer: &mut FallbackRenderer,
        operation: &'a EditOperation,
        points: &Vec<Position>,
        scope_id: u128,
    ) -> (result: (Vec<PaintedShape<'a>>, FallbackFrameStats))
        requires
            self.wf(),
            old(renderer).wf(),
            points@.len() * settings.fill_fallback_max_points <= usize::MAX,
            operation.kind.area() ==> settings.camera_depth - operation.native_depth > i64::MIN,
        ensures
            final(renderer).wf(),
            final(renderer).same_frame_as(*old(renderer)),
            is_painting(
                *final(renderer),
                result,
                self.saved_from(*settings, old(renderer).kept(), *operation, points@, scope_id),
            ),
    {
        let key = saved_fallback_operation_key(scope_id, operation, settings.style);
        let mut stats = FallbackFrameStats::new();
        if renderer.saved_render_cache.get(key).is_some() {
            stats.fallback_cache_hits = 1;
        } else {
            let derived = self.derive(settings, operation, points);
            proof {
                lemma_path_kept(renderer.saved_render_cache.points@, key, derived);
            }
            renderer.saved_render_cache.insert(key, derived);
            stats.fallback_cache_misses = 1;
        }
        let (shapes, more) = self.paint_saved_operation_derived_points(
            settings,
            renderer,
            operation,
            key,
        );
        stats.add(more);
        (shapes, stats)
    }

    fn paint_drafted<'a>(
        &self,
        settings: &PaintSettings,
        operation: &'a EditOperation,
        points: &Vec<Position>,
    ) -> (shape: PaintedShape<'a>)
        requires
            self.wf(),
        ensures
            forall|kept: Kept|
                (#[trigger] self.drafted(*settings, kept, *operation, points@)).shapes
                    == seq![shape@],
    {
        let passes: usize = settings.style.smoothing_passes as usize;
        let line = (self.smooth_draft)(points, passes);
        proof {
            assert(gives_path(self.smooth_draft, points@, passes, line@));
            assert(gives_path(
                self.smooth_draft,
                points@,
                passes,
                path_given(self.smooth_draft, points@, passes),
            ));
        }
        if operation.kind.is_area() {
            PaintedShape::Outline { operation, line }
        } else {
            let distances = (self.distances)(&line);
            proof {
                assert(self.spaces(line@, distances@));
                assert(self.spaces(line@, self.spacing(line@)));
            }
            let (shapes, _) = stroke_fallback_shapes(line.len(), &distances, None, true);
            PaintedShape::Stroke { operation, line, shapes }
        }
    }

    /// Paints an operation from where its points are.
    pub fn paint_operation_points<'a>(
        &self,
        settings: &PaintSettings,
        renderer: &mut FallbackRenderer,
        operation: &'a EditOperation,
        points: &Vec<Position>,
        context: OperationPaintContext,
    ) -> (result: (Vec<PaintedShape<'a>>, FallbackFrameStats))
        requires
            self.wf(),
            self.projections_fit(*settings),
            old(renderer).wf(),
            points@.len() * settings.fill_fallback_max_points <= usize::MAX,
            context.is_draft || depths_fit(*operation, settings.camera_depth),
        ensures
            final(renderer).wf(),
            final(renderer).same_frame_as(*old(renderer)),
            is_painting(
                *final(renderer),
                result,
                self.painted(*settings, old(renderer).kept(), *operation, points@, context),
            ),
        decreases operation,
    {
        let mut shapes: Vec<PaintedShape<'a>> = Vec::new();
        let mut stats = FallbackFrameStats::new();
        assert(shape_views(shapes@) =~= Seq::empty());
        if !operation.is_compact_block() {
            if points.len() < 2 {
                return (shapes, stats);
            }
            if context.is_draft {
                let shape = self.paint_drafted(settings, operation, points);
                shapes.push(shape);
                assert(shape_views(shapes@) =~= seq![shape@]);
                return (shapes, stats);
            }
            return self.paint_saved_from(
                settings,
                renderer,
                operation,
                points,
                context.cache_scope_id,
            );
        }
        let ghost start = *renderer;
        let mut i: usize = 0;
        while i < operation.compact_sources.len()
            invariant
                self.wf(),
                self.projections_fit(*settings),
                context.is_draft || depths_fit(*operation, settings.camera_depth),
                i <= operation.compact_sources@.len(),
                renderer.wf(),
                renderer.same_frame_as(start),
                renderer.kept() == self.sources_painted(
                    *settings,
                    start.kept(),
                    *operation,
                    context,
                    i as nat,
                ).kept,
                shape_views(shapes@) == self.sources_painted(
                    *settings,
                    start.kept(),
                    *operation,
                    context,
                    i as nat,
                ).shapes,
                stats == self.sources_painted(
                    *settings,
                    start.kept(),
                    *operation,
                    context,
                    i as nat,
                ).stats,
            decreases operation.compact_sources@.len() - i,
        {
            let source = &operation.compact_sources[i];
            assert(decreases_to!(*operation => operation.compact_sources@[i as int]));
            assert(context.is_draft || depths_fit(*source, settings.camera_depth));
            let key = saved_fallback_operation_key(
                context.cache_scope_id,
                source,
                settings.style,
            );
            let ghost before = renderer.kept();
            let mut one = FallbackFrameStats::new();
            let cached: bool = !context.is_draft
                && renderer.saved_render_cache.get(key).is_some();
            if cached {
                one.fallback_cache_hits = 1;
                let (mut more, more_stats) = self.paint_saved_operation_derived_points(
                    settings,
                    renderer,
                    source,
                    key,
                );
                one.add(more_stats);
                proof {
                    lemma_more_shapes(shapes@, more@);
                }
                shapes.append(&mut more);
            } else {
                let lookup = renderer.operation_bounds_cache.operation_may_intersect_screen_rect(
                    source,
                    &self.bounds,
                    &self.intersects,
                );
                assert(renderer.kept() == self.with_bounds(before, *source));
                one = count_lookup(OperationLookup::Bounds(lookup));
                if lookup.may_intersect {
                    let projected = (self.project)(source);
                    proof {
                        assert(self.projects(*source, projected@));
                        assert(self.projects(*source, self.projected(*source)));
                    }
                    let (mut more, more_stats) = self.paint_operation_points(
                        settings,
                        renderer,
                        source,
                        &projected,
                        context,
                    );
                    one.add(more_stats);
                    proof {
                        lemma_more_shapes(shapes@, more@);
                    }
                    shapes.append(&mut more);
                } else {
                    proof {
                        lemma_nothing_counts(one);
                    }
                    assert(shape_views(shapes@) =~= shape_views(shapes@) + Seq::empty());
                }
            }
            stats.add(one);
            i = i + 1;
        }
        (shapes, stats)
    }

    /// The painting of one item by itself: nothing where it is not in the list.
    pub open spec fn item_painted(
        self,
        settings: PaintSettings,
        kept: Kept,
        operations: Seq<EditOperation>,
        item: FallbackPaintOperation,
    ) -> Painting {
        let operation = operations[item.index() as int];
        let key = operation_key(operation.id, operation, settings.style);
        if item.index() >= operations.len() {
            Painting::nothing(kept)
        } else if item is CachedDerived && kept.points.contains_key(key) {
            self.saved(settings, kept, operation, key)
        } else {
            self.painted(
                settings,
                kept,
                operation,
                self.projected(operation),
                OperationPaintContext { is_draft: false, cache_scope_id: operation.id },
            )
        }
    }

    /// The points of an item in a group are kept.
    pub open spec fn with_item(
        self,
        settings: PaintSettings,
        kept: Kept,
        operation: EditOperation,
        item: FallbackPaintOperation,
    ) -> Kept {
        let key = operation_key(operation.id, operation, settings.style);
        if item is CachedDerived && kept.points.contains_key(key) {
            kept
        } else {
            Kept {
                points: kept.points.insert(
                    key,
                    self.derived(settings, operation, self.projected(operation)),
                ),
                ..kept
            }
        }
    }

    /// What the first `count` items of a group come to: the part of each area on
    /// the screen, unless it has too many points or comes from too far away.
    pub open spec fn group_gathered(
        self,
        settings: PaintSettings,
        kept: Kept,
        operations: Seq<EditOperation>,
        items: Seq<FallbackPaintOperation>,
        count: int,
    ) -> GroupView
        decreases count,
    {
        if count <= 0 {
            GroupView { kept, polygons: Seq::empty(), stats: FallbackFrameStats::nothing() }
        } else {
            let before = self.group_gathered(settings, kept, operations, items, count - 1);
            let item = items[count - 1];
            let operation = operations[item.index() as int];
            let key = operation_key(operation.id, operation, settings.style);
            let after = self.with_item(settings, before.kept, operation, item);
            let stats = if item is CachedDerived && before.kept.points.contains_key(key) {
                before.stats
            } else {
                before.stats.plus(cache_miss())
            };
            if paints_area(
                operation,
                settings.camera_depth,
                after.points[key].len() as usize,
                settings.fill_fallback_max_points,
                settings.fill_fallback_max_depth_delta,
            ) {
                let shown = self.with_polygon(after, key);
                GroupView {
                    kept: shown,
                    polygons: before.polygons.push(shown.polygons[key]),
                    stats,
                }
            } else {
                GroupView { kept: after, polygons: before.polygons, stats }
            }
        }
    }

    /// The painting of a group of areas, filled together in the color of the
    /// first.
    pub open spec fn group_painted(
        self,
        settings: PaintSettings,
        kept: Kept,
        operations: Seq<EditOperation>,
        items: Seq<FallbackPaintOperation>,
    ) -> Painting {
        let group = self.group_gathered(settings, kept, operations, items, items.len() as int);
        let spans = self.filled(group.polygons);
        Painting {
            kept: group.kept,
            shapes: seq![
                ShapeView::Area { operation: operations[items[0].index() as int], spans },
            ],
            stats: FallbackFrameStats {
                fill_shape_count: spans.len() as usize,
                painted_operations: items.len() as usize,
                ..group.stats
            },
        }
    }

    /// The painting of the items from `start` on, after `before`: neighbours of
    /// one fill group together, and every other item by itself.
    pub open spec fn items_painted(
        self,
        settings: PaintSettings,
        before: Painting,
        operations: Seq<EditOperation>,
        items: Seq<FallbackPaintOperation>,
        start: int,
    ) -> Painting
        decreases items.len() - start,
    {
        let end = group_end(operations, items, start, start + 1);
        if start < 0 || start >= items.len() || end <= start || end > items.len() {
            before
        } else {
            let next = if end == start + 1 {
                self.item_painted(settings, before.kept, operations, items[start])
            } else {
                self.group_painted(
                    settings,
                    before.kept,
                    operations,
                    items.subrange(start, end),
                )
            };
            self.items_painted(settings, before.and(next), operations, items, end)
        }
    }

    fn paint_fallback_operation_item<'a>(
        &self,
        settings: &PaintSettings,
        renderer: &mut FallbackRenderer,
        operations: &'a Vec<EditOperation>,
        item: FallbackPaintOperation,
    ) -> (result: (Vec<PaintedShape<'a>>, FallbackFrameStats))
        requires
            self.wf(),
            self.projections_fit(*settings),
            old(renderer).wf(),
            item.index() < operations@.len() ==> depths_fit(
                operations@[item.index() as int],
                settings.camera_depth,
            ),
        ensures
            final(renderer).wf(),
            final(renderer).same_frame_as(*old(renderer)),
            is_painting(
                *final(renderer),
                result,
                self.item_painted(*settings, old(renderer).kept(), operations@, item),
            ),
    {
        if item.operation_index() >= operations.len() {
            let shapes: Vec<PaintedShape<'a>> = Vec::new();
            assert(shape_views(shapes@) =~= Seq::empty());
            return (shapes, FallbackFrameStats::new());
        }
        let operation = &operations[item.operation_index()];
        let key = saved_fallback_operation_key(operation.id, operation, settings.style);
        let is_kept: bool = match item {
            FallbackPaintOperation::CachedDerived { .. } => renderer.saved_render_cache.get(
                key,
            ).is_some(),
            FallbackPaintOperation::Projected { .. } => false,
        };
        if is_kept {
            return self.paint_saved_operation_derived_points(settings, renderer, operation, key);
        }
        let projected = (self.project)(operation);
        proof {
            assert(self.projects(*operation, projected@));
            assert(self.projects(*operation, self.projected(*operation)));
        }
        self.paint_operation_points(
            settings,
            renderer,
            operation,
            &projected,
            OperationPaintContext { is_draft: false, cache_scope_id: operation.id },
        )
    }

    fn paint_fallback_fill_group_items<'a>(
        &self,
        settings: &PaintSettings,
        renderer: &mut FallbackRenderer,
        operations: &'a Vec<EditOperation>,
        items: &Vec<FallbackPaintOperation>,
        start: usize,
        end: usize,
    ) -> (result: (Vec<PaintedShape<'a>>, FallbackFrameStats))
        requires
            self.wf(),
            self.projections_fit(*settings),
            old(renderer).wf(),
            start < end <= items@.len(),
            forall|k: int|
                start <= k < end ==> (#[trigger] items@[k]).index() < operations@.len(),
            forall|k: int|
                start <= k < end ==> operations@[(#[trigger] items@[k]).index() as int].fill_group_id
                    is Some,
            forall|k: int|
                0 <= k < operations@.len() ==> depths_fit(
                    #[trigger] operations@[k],
                    settings.camera_depth,
                ),
        ensures
            final(renderer).wf(),
            final(renderer).same_frame_as(*old(renderer)),
            is_painting(
                *final(renderer),
                result,
                self.group_painted(
                    *settings,
                    old(renderer).kept(),
                    operations@,
                    items@.subrange(start as int, end as int),
                ),
            ),
    {
        let ghost first = renderer.kept();
        let ghost begun = *renderer;
        let ghost group = items@.subrange(start as int, end as int);
        let mut stats = FallbackFrameStats::new();
        let mut polygons: Vec<Vec<Position>> = Vec::new();
        let mut i: usize = start;
        assert(figures(polygons@) =~= Seq::empty());
        while i < end
            invariant
                self.wf(),
                self.projections_fit(*settings),
                start <= i <= end <= items@.len(),
                group == items@.subrange(start as int, end as int),
                forall|k: int|
                    start <= k < end ==> (#[trigger] items@[k]).index() < operations@.len(),
                forall|k: int|
                    start <= k < end ==> operations@[(
                    #[trigger] items@[k]).index() as int].fill_group_id is Some,
                forall|k: int|
                    0 <= k < operations@.len() ==> depths_fit(
                        #[trigger] operations@[k],
                        settings.camera_depth,
                    ),
                renderer.wf(),
                renderer.same_frame_as(begun),
                renderer.kept() == self.group_gathered(
                    *settings,
                    first,
                    operations@,
                    group,
                    i - start,
                ).kept,
                figures(polygons@) == self.group_gathered(
                    *settings,
                    first,
                    operations@,
                    group,
                    i - start,
                ).polygons,
                stats == self.group_gathered(
                    *settings,
                    first,
                    operations@,
                    group,
                    i - start,
                ).stats,
            decreases end - i,
        {
            let item = items[i];
            assert(group[i - start] == item);
            let operation = &operations[item.operation_index()];
            assert(depths_fit(*operation, settings.camera_depth));
            let key = saved_fallback_operation_key(operation.id, operation, settings.style);
            let ghost before = renderer.kept();
            let is_kept: bool = match item {
                FallbackPaintOperation::CachedDerived { .. } => renderer.saved_render_cache.get(
                    key,
                ).is_some(),
                FallbackPaintOperation::Projected { .. } => false,
            };
            if !is_kept {
                let projected = (self.project)(operation);
                proof {
                    assert(self.projects(*operation, projected@));
                    assert(self.projects(*operation, self.projected(*operation)));
                }
                let derived = self.derive(settings, operation, &projected);
                proof {
                    lemma_path_kept(renderer.saved_render_cache.points@, key, derived);
                }
                renderer.saved_render_cache.insert(key, derived);
                let mut miss = FallbackFrameStats::new();
                miss.fallback_cache_misses = 1;
                stats.add(miss);
            }
            let ghost after = self.with_item(*settings, before, *operation, item);
            assert(renderer.kept() == after);
            let points = match renderer.saved_render_cache.get(key) {
                Some(points) => copied(points),
                None => Vec::new(),
            };
            if should_paint_fill_fallback(
                operation,
                settings.camera_depth,
                points.len(),
                settings.fill_fallback_max_points,
                settings.fill_fallback_max_depth_delta,
            ) {
                let polygon = self.shown_area(renderer, key, &points);
                assert(figures(polygons@.push(polygon)) =~= figures(polygons@).push(polygon@));
                polygons.push(polygon);
            }
            i = i + 1;
        }
        let spans = (self.fill)(&polygons);
        proof {
            assert(self.fills(figures(polygons@), spans@));
            assert(self.fills(figures(polygons@), self.filled(figures(polygons@))));
            assert(group[0] == items@[start as int]);
        }
        stats.fill_shape_count = spans.len();
        stats.painted_operations = end - start;
        let mut shapes: Vec<PaintedShape<'a>> = Vec::new();
        let operation = &operations[items[start].operation_index()];
        shapes.push(PaintedShape::Area { operation, spans });
        assert(shape_views(shapes@) =~= self.group_painted(
            *settings,
            first,
            operations@,
            group,
        ).shapes);
        (shapes, stats)
    }

    /// Paints what is drawn directly in a frame, in groups. Items that are not in
    /// the list are left out.
    pub fn paint_fallback_operation_items<'a>(
        &self,
        settings: &PaintSettings,
        renderer: &mut FallbackRenderer,
        operations: &'a Vec<EditOperation>,
        items: &Vec<FallbackPaintOperation>,
    ) -> (result: (Vec<PaintedShape<'a>>, FallbackFrameStats))
        requires
            self.wf(),
            self.projections_fit(*settings),
            old(renderer).wf(),
            forall|k: int|
                0 <= k < operations@.len() ==> depths_fit(
                    #[trigger] operations@[k],
                    settings.camera_depth,
                ),
        ensures
            final(renderer).wf(),
            final(renderer).same_frame_as(*old(renderer)),
            is_painting(
                *final(renderer),
                result,
                self.items_painted(
                    *settings,
                    Painting::nothing(old(renderer).kept()),
                    operations@,
                    items@,
                    0,
                ),
            ),
    {
        let ghost begun = *renderer;
        let ghost whole = self.items_painted(
            *settings,
            Painting::nothing(renderer.kept()),
            operations@,
            items@,
            0,
        );
        let sizes = paint_groups(operations, items);
        let mut shapes: Vec<PaintedShape<'a>> = Vec::new();
        let mut stats = FallbackFrameStats::new();
        assert(shape_views(shapes@) =~= Seq::empty());
        assert(sizes@.skip(0) =~= sizes@);
        let mut start: usize = 0;
        let mut group: usize = 0;
        while start < items.len()
            invariant
                self.wf(),
                self.projections_fit(*settings),
                start <= items@.len(),
                group <= sizes@.len(),
                sizes@.skip(group as int) == group_sizes(operations@, items@, start as int),
                forall|k: int|
                    0 <= k < operations@.len() ==> depths_fit(
                        #[trigger] operations@[k],
                        settings.camera_depth,
                    ),
                renderer.wf(),
                renderer.same_frame_as(begun),
                whole == self.items_painted(
                    *settings,
                    (Painting { kept: renderer.kept(), shapes: shape_views(shapes@), stats }),
                    operations@,
                    items@,
                    start as int,
                ),
            decreases items@.len() - start,
        {
            let ghost next = group_end(operations@, items@, start as int, start + 1);
            proof {
                lemma_group_end(operations@, items@, start as int, start + 1);
                assert(group_sizes(operations@, items@, start as int) == seq![
                    (next - start) as usize,
                ] + group_sizes(operations@, items@, next));
                assert(sizes@.skip(group as int).len() > 0);
                assert(sizes@.skip(group as int)[0] == sizes@[group as int]);
                assert(sizes@.skip(group + 1) =~= sizes@.skip(group as int).skip(1));
                assert(group_sizes(operations@, items@, start as int).skip(1) =~= group_sizes(
                    operations@,
                    items@,
                    next,
                ));
            }
            assert(group < sizes.len());
            let end: usize = start + sizes[group];
            let (mut more, more_stats) = if end == start + 1 {
                self.paint_fallback_operation_item(settings, renderer, operations, items[start])
            } else {
                assert(are_of_one_group(
                    operations@,
                    items@[start as int],
                    items@[start + 1],
                ));
                self.paint_fallback_fill_group_items(
                    settings,
                    renderer,
                    operations,
                    items,
                    start,
                    end,
                )
            };
            proof {
                lemma_more_shapes(shapes@, more@);
            }
            shapes.append(&mut more);
            stats.add(more_stats);
            start = end;
            group = group + 1;
        }
        (shapes, stats)
    }

    proof fn lemma_saved_extends(
        self,
        settings: PaintSettings,
        kept: Kept,
        operation: EditOperation,
        key: SavedFallbackRenderOperationKey,
    )
        ensures
            self.saved(settings, kept, operation, key).kept.extends(kept),
    {
        let style = settings.style;
        let lines = self.with_lines(kept, operation, key).lines[key];
        let runs = self.runs(lines);
        let limit = segmented_limit(style.stroke_fallback_joins, style.auto_fast_stroke_fallback);
        lemma_budget_shrinks(runs, limit, kept.budget, runs.len() as int);
    }

    proof fn lemma_sources_extend(
        self,
        settings: PaintSettings,
        kept: Kept,
        block: EditOperation,
        context: OperationPaintContext,
        count: nat,
    )
        ensures
            self.sources_painted(settings, kept, block, context, count).kept.extends(kept),
        decreases block, count,
    {
        if 0 < count <= block.compact_sources@.len() {
            self.lemma_sources_extend(settings, kept, block, context, (count - 1) as nat);
            let before = self.sources_painted(settings, kept, block, context, (count - 1) as nat);
            let source = block.compact_sources@[count - 1];
            let key = operation_key(context.cache_scope_id, source, settings.style);
            assert(decreases_to!(block => block.compact_sources@[count - 1]));
            self.lemma_saved_extends(settings, before.kept, source, key);
            let after = self.with_bounds(before.kept, source);
            let projected = self.projected(source);
            self.law_painting_keeps_what_is_kept(settings, after, source, projected, context);
            let saved = self.saved(settings, before.kept, source, key).kept;
            let painted = self.painted(settings, after, source, projected, context).kept;
            lemma_extends(kept, before.kept, saved);
            lemma_extends(kept, before.kept, after);
            lemma_extends(kept, after, painted);
        }
    }

    /// A saved operation is painted from points that are derived once: painted
    /// again, with the same budget and what was kept, it comes to the same shapes,
    /// from wherever its points are by now.
    pub proof fn law_saved_operations_are_painted_alike(
        self,
        settings: PaintSettings,
        kept: Kept,
        operation: EditOperation,
        points: Seq<Position>,
        later: Seq<Position>,
        scope_id: u128,
    )
        ensures
            ({
                let key = operation_key(scope_id, operation, settings.style);
                let first = self.saved_from(settings, kept, operation, points, scope_id);
                let again = self.saved_from(
                    settings,
                    Kept { budget: kept.budget, ..first.kept },
                    operation,
                    later,
                    scope_id,
                );
                &&& first.kept.points.contains_key(key)
                &&& kept.points.contains_key(key) ==> first.kept.points[key] == kept.points[key]
                &&& !kept.points.contains_key(key) ==> first.kept.points[key] == self.derived(
                    settings,
                    operation,
                    points,
                )
                &&& again.shapes == first.shapes
                &&& again.kept == first.kept
            }),
    {
        let key = operation_key(scope_id, operation, settings.style);
        let held = if kept.points.contains_key(key) {
            kept
        } else {
            Kept {
                points: kept.points.insert(key, self.derived(settings, operation, points)),
                ..kept
            }
        };
        let first = self.saved(settings, held, operation, key);
        let between = Kept { budget: kept.budget, ..first.kept };
        let again = self.saved(settings, between, operation, key);
        assert(first.kept.points == held.points);
        assert(again.shapes =~= first.shapes);
    }

    /// Points are drawn as they are where nothing smooths them: those of an area
    /// that is not to be smooth, unless they are too many, and those of any
    /// operation without smoothing.
    pub proof fn law_plain_points_are_drawn_as_they_are(
        self,
        settings: PaintSettings,
        operation: EditOperation,
        points: Seq<Position>,
    )
        ensures
            operation.kind.area() && points.len() <= settings.fill_fallback_max_points && (
            !operation.smooth_area || settings.style.smoothing_passes == 0) ==> self.derived(
                settings,
                operation,
                points,
            ) == points,
            !operation.kind.area() && settings.style.smoothing_passes == 0 ==> self.derived(
                settings,
                operation,
                points,
            ) == points,
            !operation.kind.area() && settings.style.stroke_fallback_joins
                == StrokeFallbackJoinMode::Performance ==> self.derived(settings, operation, points)
                == points,
            operation.kind.area() && points.len() > settings.fill_fallback_max_points
                && settings.fill_fallback_max_points >= 3 && !operation.smooth_area
                ==> self.derived(settings, operation, points).len()
                <= settings.fill_fallback_max_points,
    {
        if points.len() > settings.fill_fallback_max_points && settings.fill_fallback_max_points
            >= 3 {
            law_sampled_outline_is_bounded(
                points,
                settings.fill_fallback_max_points as int,
                settings.fill_fallback_max_points as int,
            );
        }
    }

    /// Painting an operation drops and changes nothing that is kept already, and
    /// adds nothing to the budget.
    pub proof fn law_painting_keeps_what_is_kept(
        self,
        settings: PaintSettings,
        kept: Kept,
        operation: EditOperation,
        points: Seq<Position>,
        context: OperationPaintContext,
    )
        ensures
            self.painted(settings, kept, operation, points, context).kept.extends(kept),
        decreases operation, operation.compact_sources@.len() + 1,
    {
        let key = operation_key(context.cache_scope_id, operation, settings.style);
        self.lemma_saved_extends(settings, kept, operation, key);
        self.lemma_saved_extends(
            settings,
            Kept {
                points: kept.points.insert(key, self.derived(settings, operation, points)),
                ..kept
            },
            operation,
            key,
        );
        if operation.is_block() {
            self.lemma_sources_extend(
                settings,
                kept,
                operation,
                context,
                operation.compact_sources@.len(),
            );
        }
    }
}

proof fn lemma_extends(first: Kept, second: Kept, third: Kept)
    requires
        second.extends(first),
        third.extends(second),
    ensures
        third.extends(first),
{
    lemma_submap(first.points, second.points, third.points);
    lemma_submap(first.lines, second.lines, third.lines);
    lemma_submap(first.polygons, second.polygons, third.polygons);
    lemma_submap(first.bounds, second.bounds, third.bounds);
}

proof fn lemma_submap<K, V>(first: Map<K, V>, second: Map<K, V>, third: Map<K, V>)
    requires
        first.submap_of(second),
        second.submap_of(third),
    ensures
        first.submap_of(third),
{
    assert forall|key: K| #[trigger] first.dom().contains(key) implies third.dom().contains(key)
        && first[key] == third[key] by {
        assert(second.dom().contains(key));
    }
}

proof fn lemma_budget_shrinks(
    runs: Seq<RunView>,
    limit: Option<usize>,
    budget: usize,
    count: int,
)
    ensures
        0 <= budget_after(runs, limit, budget, count) <= budget,
    decreases count,
{
    if count > 0 {
        lemma_budget_shrinks(runs, limit, budget, count - 1);
    }
}

/// Smoothing replaces a path by what it is smoothed to, unless it is not asked for,
/// or the path is too long before it or after it; then the path stays as it is.
pub proof fn law_paths_are_smoothed_or_stay<S: Fn(&Vec<Position>, usize) -> Vec<Position>>(
    smooth: S,
    points: Seq<Position>,
    passes: usize,
    answer: Seq<Position>,
)
    requires
        gives_paths(smooth),
        gives_path(smooth, points, passes, answer),
    ensures
        passes == 0 || points.len() > 4096 || answer.len() > 8192 ==> smoothed(
            smooth,
            points,
            passes,
        ) == points,
        passes > 0 && points.len() <= 4096 && answer.len() <= 8192 ==> smoothed(
            smooth,
            points,
            passes,
        ) == answer,
{
    assert(path_given(smooth, points, passes) == answer);
}

impl<
    P: Fn(&EditOperation) -> Vec<Position>,
    L: Fn(&Vec<Position>, usize) -> Vec<Position>,
    A: Fn(&Vec<Position>, usize) -> Vec<Position>,
    E: Fn(&Vec<Position>, usize) -> Vec<Position>,
    C: Fn(&EditOperation, &Vec<Position>) -> Vec<Vec<Position>>,
    K: Fn(&Vec<Position>) -> Vec<Position>,
    D: Fn(&Vec<Position>) -> Vec<u32>,
    F: Fn(&Vec<Vec<Position>>) -> Vec<(i32, Span)>,
    B: Fn(&EditOperation) -> Option<OperationBounds>,
    I: Fn(&EditOperation, &OperationBounds) -> bool,
> Brushwork<P, L, A, E, C, K, D, F, B, I> {
    /// Every part of a stroke on the screen is painted, in order, each along its
    /// own line: the parts that are kept, or else those that the stroke is cut into.
    pub proof fn law_every_part_of_a_stroke_is_painted(
        self,
        settings: PaintSettings,
        kept: Kept,
        operation: EditOperation,
        key: SavedFallbackRenderOperationKey,
        lines: Seq<Seq<Position>>,
    )
        requires
            self.wf(),
            !operation.kind.area(),
            kept.points[key].len() >= 2,
            if kept.lines.contains_key(key) {
                lines == kept.lines[key]
            } else {
                self.clips_line(operation, kept.points[key], lines)
            },
        ensures
            ({
                let painting = self.saved(settings, kept, operation, key);
                &&& painting.shapes.len() == lines.len()
                &&& forall|k: int|
                    0 <= k < lines.len() ==> (#[trigger] painting.shapes[k] matches
                        ShapeView::Stroke { operation: of, line, .. } && of == operation && line
                        == lines[k])
                &&& painting.kept.lines[key] == lines
            }),
    {
        if !kept.lines.contains_key(key) {
            assert(self.clipped_line(operation, kept.points[key]) == lines);
        }
    }

    /// An area that is near enough is painted with the spans of its part on the
    /// screen, and one that is not is not painted.
    pub proof fn law_near_areas_are_painted(
        self,
        settings: PaintSettings,
        kept: Kept,
        operation: EditOperation,
        key: SavedFallbackRenderOperationKey,
        polygon: Seq<Position>,
        spans: Seq<(i32, Span)>,
    )
        requires
            self.wf(),
            operation.kind.area(),
            kept.points[key].len() >= 2,
            if kept.polygons.contains_key(key) {
                polygon == kept.polygons[key]
            } else {
                self.clips_area(kept.points[key], polygon)
            },
            self.fills(seq![polygon], spans),
        ensures
            ({
                let painting = self.saved(settings, kept, operation, key);
                if paints_area(
                    operation,
                    settings.camera_depth,
                    kept.points[key].len() as usize,
                    settings.fill_fallback_max_points,
                    settings.fill_fallback_max_depth_delta,
                ) {
                    &&& painting.shapes == seq![ShapeView::Area { operation, spans }]
                    &&& painting.kept.polygons[key] == polygon
                } else {
                    painting.shapes.len() == 0 && painting.kept == kept
                }
            }),
    {
        if !kept.polygons.contains_key(key) {
            assert(self.clipped_area(kept.points[key]) == polygon);
        }
        assert(self.filled(seq![polygon]) == spans);
    }

    /// Every area of a group that is near enough is filled together with the
    /// others: its part on the screen is among the polygons that are gathered.
    pub proof fn law_every_area_of_a_group_is_gathered(
        self,
        settings: PaintSettings,
        kept: Kept,
        operations: Seq<EditOperation>,
        items: Seq<FallbackPaintOperation>,
        count: int,
        at: int,
    )
        requires
            0 <= at < count <= items.len(),
            ({
                let operation = operations[items[at].index() as int];
                let key = operation_key(operation.id, operation, settings.style);
                let before = self.group_gathered(settings, kept, operations, items, at).kept;
                let after = self.with_item(settings, before, operation, items[at]);
                paints_area(
                    operation,
                    settings.camera_depth,
                    after.points[key].len() as usize,
                    settings.fill_fallback_max_points,
                    settings.fill_fallback_max_depth_delta,
                )
            }),
        ensures
            ({
                let operation = operations[items[at].index() as int];
                let key = operation_key(operation.id, operation, settings.style);
                let place = self.group_gathered(
                    settings,
                    kept,
                    operations,
                    items,
                    at,
                ).polygons.len() as int;
                let all = self.group_gathered(settings, kept, operations, items, count).polygons;
                let next = self.group_gathered(settings, kept, operations, items, at + 1);
                &&& next.polygons.len() == place + 1
                &&& next.polygons.len() <= all.len()
                &&& all[place] == next.kept.polygons[key]
            }),
        decreases count,
    {
        if at < count - 1 {
            self.law_every_area_of_a_group_is_gathered(
                settings,
                kept,
                operations,
                items,
                count - 1,
                at,
            );
        }
    }

    /// What has been painted stays, and the next item, or the next group of them,
    /// is painted over it: items are painted in order and none is left out.
    pub proof fn law_items_are_painted_in_order(
        self,
        settings: PaintSettings,
        before: Painting,
        operations: Seq<EditOperation>,
        items: Seq<FallbackPaintOperation>,
        start: int,
        end: int,
    )
        requires
            0 <= start < end <= items.len(),
            forall|k: int|
                start < k < end ==> are_of_one_group(
                    operations,
                    items[start],
                    #[trigger] items[k],
                ),
            end < items.len() ==> !are_of_one_group(operations, items[start], items[end]),
        ensures
            ({
                let next = if end == start + 1 {
                    self.item_painted(settings, before.kept, operations, items[start])
                } else {
                    self.group_painted(
                        settings,
                        before.kept,
                        operations,
                        items.subrange(start, end),
                    )
                };
                let all = self.items_painted(settings, before, operations, items, start);
                &&& (before.shapes + next.shapes).is_prefix_of(all.shapes)
                &&& all == self.items_painted(settings, before.and(next), operations, items, end)
                &&& self.items_painted(
                    settings,
                    before,
                    operations,
                    items,
                    items.len() as int,
                ) == before
            }),
    {
        lemma_group_end(operations, items, start, start + 1);
        let found = group_end(operations, items, start, start + 1);
        assert(found == end) by {
            if found < end {
                assert(are_of_one_group(operations, items[start], items[found]));
            }
            if end < found {
                assert(are_of_one_group(operations, items[start], items[end]));
            }
        }
        let next = if end == start + 1 {
            self.item_painted(settings, before.kept, operations, items[start])
        } else {
            self.group_painted(settings, before.kept, operations, items.subrange(start, end))
        };
        self.lemma_painted_shapes_stay(settings, before.and(next), operations, items, end);
    }

    proof fn lemma_painted_shapes_stay(
        self,
        settings: PaintSettings,
        before: Painting,
        operations: Seq<EditOperation>,
        items: Seq<FallbackPaintOperation>,
        start: int,
    )
        ensures
            before.shapes.is_prefix_of(
                self.items_painted(settings, before, operations, items, start).shapes,
            ),
        decreases items.len() - start,
    {
        let end = group_end(operations, items, start, start + 1);
        if !(start < 0 || start >= items.len() || end <= start || end > items.len()) {
            let next = if end == start + 1 {
                self.item_painted(settings, before.kept, operations, items[start])
            } else {
                self.group_painted(
                    settings,
                    before.kept,
                    operations,
                    items.subrange(start, end),
                )
            };
            self.lemma_painted_shapes_stay(settings, before.and(next), operations, items, end);
        }
    }

    /// The parts of a block are painted in order: what the earlier ones paint stays,
    /// and a part that may be seen paints what it would paint on its own.
    pub proof fn law_parts_of_a_block_are_painted_in_order(
        self,
        settings: PaintSettings,
        kept: Kept,
        block: EditOperation,
        context: OperationPaintContext,
        at: int,
        bounds: OperationBounds,
        points: Seq<Position>,
    )
        requires
            self.wf(),
            0 <= at < block.compact_sources@.len(),
            ({
                let before = self.sources_painted(settings, kept, block, context, at as nat).kept;
                let source = block.compact_sources@[at];
                &&& context.is_draft || !before.points.contains_key(
                    operation_key(context.cache_scope_id, source, settings.style),
                )
                &&& !before.bounds.contains_key(source.id)
                &&& call_ensures(self.bounds, (&source,), Some(bounds))
                &&& call_ensures(self.intersects, (&source, &bounds), true)
                &&& self.projects(source, points)
            }),
        ensures
            ({
                let before = self.sources_painted(settings, kept, block, context, at as nat);
                let after = self.sources_painted(
                    settings,
                    kept,
                    block,
                    context,
                    (at + 1) as nat,
                );
                let source = block.compact_sources@[at];
                let own = self.painted(
                    settings,
                    Kept {
                        bounds: before.kept.bounds.insert(source.id, Some(bounds)),
                        ..before.kept
                    },
                    source,
                    points,
                    context,
                );
                &&& after.shapes == before.shapes + own.shapes
                &&& after.kept == own.kept
            }),
    {
        let source = block.compact_sources@[at];
        assert(self.bounds_of(source) == Some(bounds));
        assert(self.projected(source) == points);
        assert(self.may_be_seen(source, Some(bounds)));
    }
}

} // verus!
