//! Where on the canvas a selection lies, depth by depth.

use crate::amounts::{clamp_number, clamped};
use crate::camera::{double_less_than, is_less_double};
use crate::model::{point_views, CanvasPoint, EditOperation, PointView};
use crate::optics::{normal_point, AxisPlace, CanvasMeasures};
use crate::screen::{at_most, greatest, is_number, max_number};
use crate::selection::{
    selection_bounds_signature, signature_of, SelectionBoundsSignature,
};
use crate::tile_index::TileIndex;
use std::collections::HashSet;
use vstd::prelude::*;

verus! {

broadcast use vstd::std_specs::hash::group_hash_axioms;

/// Whether the first place of an axis lies before the second one.
pub open spec fn axis_less(left_tile: int, left_local: u64, right_tile: int, right_local: u64) -> bool {
    left_tile < right_tile || (left_tile == right_tile && is_less_double(
        left_local,
        right_local,
    ))
}

/// Whether the first place of an axis lies before the second one.
pub fn canvas_axis_less(
    left_tile: &TileIndex,
    left_local: u64,
    right_tile: &TileIndex,
    right_local: u64,
) -> (less: bool)
    ensures
        less == axis_less(left_tile@, left_local, right_tile@, right_local),
{
    left_tile.less_than(right_tile) || (left_tile.same_as(right_tile) && double_less_than(
        left_local,
        right_local,
    ))
}

/// The bounds along an axis, mathematically.
#[verifier::ext_equal]
pub struct AxisView {
    pub min_tile: int,
    pub min_local: u64,
    pub max_tile: int,
    pub max_local: u64,
}

impl AxisView {
    /// The bounds of just one place.
    pub open spec fn at(tile: int, local: u64) -> AxisView {
        AxisView { min_tile: tile, min_local: local, max_tile: tile, max_local: local }
    }

    /// The bounds with one more place inside.
    pub open spec fn with(self, tile: int, local: u64) -> AxisView {
        let below = axis_less(tile, local, self.min_tile, self.min_local);
        let above = axis_less(self.max_tile, self.max_local, tile, local);
        AxisView {
            min_tile: if below {
                tile
            } else {
                self.min_tile
            },
            min_local: if below {
                local
            } else {
                self.min_local
            },
            max_tile: if above {
                tile
            } else {
                self.max_tile
            },
            max_local: if above {
                local
            } else {
                self.max_local
            },
        }
    }

    /// The least place within the bounds.
    pub open spec fn least(self) -> AxisPlace {
        AxisPlace { tile: self.min_tile, local: self.min_local }
    }

    /// The greatest place within the bounds.
    pub open spec fn most(self) -> AxisPlace {
        AxisPlace { tile: self.max_tile, local: self.max_local }
    }

    /// Whether the place lies within the bounds.
    pub open spec fn covers(self, tile: int, local: u64) -> bool {
        !axis_less(tile, local, self.min_tile, self.min_local) && !axis_less(
            self.max_tile,
            self.max_local,
            tile,
            local,
        )
    }
}

/// The bounds along an axis.
#[derive(Debug)]
pub struct CanvasAxisBounds {
    pub min_tile: TileIndex,
    pub min_local: u64,
    pub max_tile: TileIndex,
    pub max_local: u64,
}

impl View for CanvasAxisBounds {
    type V = AxisView;

    open spec fn view(&self) -> AxisView {
        AxisView {
            min_tile: self.min_tile@,
            min_local: self.min_local,
            max_tile: self.max_tile@,
            max_local: self.max_local,
        }
    }
}

impl CanvasAxisBounds {
    /// The bounds of just one place.
    pub fn new(tile: &TileIndex, local: u64) -> (bounds: Self)
        ensures
            bounds@ == AxisView::at(tile@, local),
    {
        CanvasAxisBounds {
            min_tile: tile.clone(),
            min_local: local,
            max_tile: tile.clone(),
            max_local: local,
        }
    }

    /// Takes one more place in.
    pub fn take_in(&mut self, tile: &TileIndex, local: u64)
        ensures
            final(self)@ == old(self)@.with(tile@, local),
    {
        let below: bool = canvas_axis_less(tile, local, &self.min_tile, self.min_local);
        let above: bool = canvas_axis_less(&self.max_tile, self.max_local, tile, local);
        if below {
            self.min_tile = tile.clone();
            self.min_local = local;
        }
        if above {
            self.max_tile = tile.clone();
            self.max_local = local;
        }
    }
}

/// The bounds at a depth, mathematically.
#[verifier::ext_equal]
pub struct DepthBoundsView {
    pub depth: int,
    pub x: AxisView,
    pub y: AxisView,
}

impl DepthBoundsView {
    /// The bounds of just one point.
    pub open spec fn at(point: PointView) -> DepthBoundsView {
        DepthBoundsView {
            depth: point.depth,
            x: AxisView::at(point.tile_x, point.local_x),
            y: AxisView::at(point.tile_y, point.local_y),
        }
    }

    /// The bounds with one more point inside.
    pub open spec fn with(self, point: PointView) -> DepthBoundsView {
        DepthBoundsView {
            depth: self.depth,
            x: self.x.with(point.tile_x, point.local_x),
            y: self.y.with(point.tile_y, point.local_y),
        }
    }

    /// The corners of the bounds, around from the least one.
    pub open spec fn corners<M: CanvasMeasures>(self, measures: &M) -> Seq<PointView> {
        let depth = self.depth;
        let (left, top) = (self.x.least(), self.y.least());
        let (right, bottom) = (self.x.most(), self.y.most());
        seq![
            normal_point(measures, depth, left, top),
            normal_point(measures, depth, right, top),
            normal_point(measures, depth, right, bottom),
            normal_point(measures, depth, left, bottom),
        ]
    }

    /// Whether the point is at this depth and within the bounds.
    pub open spec fn covers(self, point: PointView) -> bool {
        &&& self.depth == point.depth
        &&& self.x.covers(point.tile_x, point.local_x)
        &&& self.y.covers(point.tile_y, point.local_y)
    }
}

/// The bounds at a depth.
#[derive(Debug)]
pub struct SelectionDepthCanvasBounds {
    pub depth: i64,
    pub x: CanvasAxisBounds,
    pub y: CanvasAxisBounds,
}

impl View for SelectionDepthCanvasBounds {
    type V = DepthBoundsView;

    open spec fn view(&self) -> DepthBoundsView {
        DepthBoundsView { depth: self.depth as int, x: self.x@, y: self.y@ }
    }
}

impl SelectionDepthCanvasBounds {
    /// The bounds of just one point.
    pub fn new(point: &CanvasPoint) -> (bounds: Self)
        ensures
            bounds@ == DepthBoundsView::at(point@),
    {
        SelectionDepthCanvasBounds {
            depth: point.depth,
            x: CanvasAxisBounds::new(&point.tile_x, point.local_x),
            y: CanvasAxisBounds::new(&point.tile_y, point.local_y),
        }
    }

    /// Takes one more point in.
    pub fn take_in(&mut self, point: &CanvasPoint)
        ensures
            final(self)@ == old(self)@.with(point@),
    {
        self.x.take_in(&point.tile_x, point.local_x);
        self.y.take_in(&point.tile_y, point.local_y);
    }

    /// The corners of the bounds, around from the least one.
    pub fn corners<M: CanvasMeasures>(&self, measures: &M) -> (corners: Vec<CanvasPoint>)
        requires
            measures.wf(),
        ensures
            corners@.len() == 4,
            point_views(corners@) == self@.corners(measures),
    {
        let mut corners: Vec<CanvasPoint> = Vec::new();
        corners.push(
            CanvasPoint::new(
                measures,
                self.depth,
                &self.x.min_tile,
                &self.y.min_tile,
                self.x.min_local,
                self.y.min_local,
            ),
        );
        corners.push(
            CanvasPoint::new(
                measures,
                self.depth,
                &self.x.max_tile,
                &self.y.min_tile,
                self.x.max_local,
                self.y.min_local,
            ),
        );
        corners.push(
            CanvasPoint::new(
                measures,
                self.depth,
                &self.x.max_tile,
                &self.y.max_tile,
                self.x.max_local,
                self.y.max_local,
            ),
        );
        corners.push(
            CanvasPoint::new(
                measures,
                self.depth,
                &self.x.min_tile,
                &self.y.max_tile,
                self.x.min_local,
                self.y.max_local,
            ),
        );
        assert(point_views(corners@) =~= self@.corners(measures));
        corners
    }
}

/// What the bounds of a list are, mathematically.
pub open spec fn bounds_views(bounds: Seq<SelectionDepthCanvasBounds>) -> Seq<DepthBoundsView> {
    bounds.map_values(|bounds: SelectionDepthCanvasBounds| bounds@)
}

/// The place of the bounds at a depth, from `from` on.
pub open spec fn depth_place(bounds: Seq<DepthBoundsView>, depth: int, from: int) -> int
    decreases bounds.len() - from,
{
    if from >= bounds.len() || from < 0 || bounds[from].depth == depth {
        from
    } else {
        depth_place(bounds, depth, from + 1)
    }
}

/// The bounds with one more point: inside those at its depth, or in new ones
/// at the end.
pub open spec fn with_point(bounds: Seq<DepthBoundsView>, point: PointView) -> Seq<
    DepthBoundsView,
> {
    let place = depth_place(bounds, point.depth, 0);
    if place < bounds.len() {
        bounds.update(place, bounds[place].with(point))
    } else {
        bounds.push(DepthBoundsView::at(point))
    }
}

/// The bounds of the points, one for each depth, in the order in which the
/// depths first occur.
pub open spec fn bounds_of_points(points: Seq<PointView>) -> Seq<DepthBoundsView>
    decreases points.len(),
{
    if points.len() == 0 {
        seq![]
    } else {
        with_point(bounds_of_points(points.drop_last()), points.last())
    }
}

/// The points of the selected ones among the first `count` operations.
pub open spec fn selected_points(
    operations: Seq<EditOperation>,
    selected: Set<u128>,
    count: int,
) -> Seq<PointView>
    decreases count,
{
    if count <= 0 {
        seq![]
    } else if selected.contains(operations[count - 1].id) {
        selected_points(operations, selected, count - 1) + point_views(
            operations[count - 1].points@,
        )
    } else {
        selected_points(operations, selected, count - 1)
    }
}

proof fn lemma_depth_place(bounds: Seq<DepthBoundsView>, depth: int, from: int)
    requires
        0 <= from <= bounds.len(),
    ensures
        from <= depth_place(bounds, depth, from) <= bounds.len(),
        depth_place(bounds, depth, from) < bounds.len() ==> bounds[depth_place(
            bounds,
            depth,
            from,
        )].depth == depth,
        forall|i: int|
            from <= i < depth_place(bounds, depth, from) ==> (#[trigger] bounds[i]).depth != depth,
    decreases bounds.len() - from,
{
    if from < bounds.len() && bounds[from].depth != depth {
        lemma_depth_place(bounds, depth, from + 1);
    }
}

/// Whether a bound is the place of some of the points at the depth.
pub open spec fn attained_x(points: Seq<PointView>, depth: int, tile: int, local: u64) -> bool {
    exists|i: int|
        0 <= i < points.len() && (#[trigger] points[i]).depth == depth && points[i].tile_x == tile
            && points[i].local_x == local
}

/// Whether a bound is the place of some of the points at the depth.
pub open spec fn attained_y(points: Seq<PointView>, depth: int, tile: int, local: u64) -> bool {
    exists|i: int|
        0 <= i < points.len() && (#[trigger] points[i]).depth == depth && points[i].tile_y == tile
            && points[i].local_y == local
}

/// Whether each side of the bounds is the place of one of the points.
pub open spec fn tight(points: Seq<PointView>, bounds: DepthBoundsView) -> bool {
    &&& attained_x(points, bounds.depth, bounds.x.min_tile, bounds.x.min_local)
    &&& attained_x(points, bounds.depth, bounds.x.max_tile, bounds.x.max_local)
    &&& attained_y(points, bounds.depth, bounds.y.min_tile, bounds.y.min_local)
    &&& attained_y(points, bounds.depth, bounds.y.max_tile, bounds.y.max_local)
}

/// Whether some of the bounds cover the point.
pub open spec fn covered(bounds: Seq<DepthBoundsView>, point: PointView) -> bool {
    exists|k: int| 0 <= k < bounds.len() && (#[trigger] bounds[k]).covers(point)
}

/// Whether no two of the bounds are for the same depth.
#[verifier::opaque]
pub open spec fn depths_differ(bounds: Seq<DepthBoundsView>) -> bool {
    forall|j: int, k: int|
        0 <= j < k < bounds.len() ==> (#[trigger] bounds[j]).depth != (#[trigger] bounds[k]).depth
}

proof fn lemma_still_covered(bounds: Seq<DepthBoundsView>, point: PointView, other: PointView)
    requires
        covered(bounds, other),
    ensures
        covered(with_point(bounds, point), other),
{
    let k = choose|k: int| 0 <= k < bounds.len() && (#[trigger] bounds[k]).covers(other);
    let after = with_point(bounds, point);
    lemma_depth_place(bounds, point.depth, 0);
    assert(after[k].covers(other));
}

proof fn lemma_newly_covered(bounds: Seq<DepthBoundsView>, point: PointView)
    ensures
        covered(with_point(bounds, point), point),
{
    let place = depth_place(bounds, point.depth, 0);
    lemma_depth_place(bounds, point.depth, 0);
    assert(with_point(bounds, point)[place].covers(point));
}

proof fn lemma_depths_still_differ(bounds: Seq<DepthBoundsView>, point: PointView)
    requires
        depths_differ(bounds),
    ensures
        depths_differ(with_point(bounds, point)),
{
    reveal(depths_differ);
    let after = with_point(bounds, point);
    lemma_depth_place(bounds, point.depth, 0);
    assert forall|j: int, k: int| 0 <= j < k < after.len() implies (#[trigger] after[j]).depth != (
    #[trigger] after[k]).depth by {
        if k < bounds.len() {
            assert(bounds[j].depth != bounds[k].depth);
        } else {
            assert(bounds[j].depth != point.depth);
        }
    }
}

proof fn lemma_still_attained(points: Seq<PointView>, point: PointView, depth: int, tile: int, local: u64)
    ensures
        attained_x(points, depth, tile, local) ==> attained_x(
            points.push(point),
            depth,
            tile,
            local,
        ),
        attained_y(points, depth, tile, local) ==> attained_y(
            points.push(point),
            depth,
            tile,
            local,
        ),
{
    let all = points.push(point);
    if attained_x(points, depth, tile, local) {
        let i = choose|i: int|
            0 <= i < points.len() && (#[trigger] points[i]).depth == depth && points[i].tile_x
                == tile && points[i].local_x == local;
        assert(all[i] == points[i]);
    }
    if attained_y(points, depth, tile, local) {
        let i = choose|i: int|
            0 <= i < points.len() && (#[trigger] points[i]).depth == depth && points[i].tile_y
                == tile && points[i].local_y == local;
        assert(all[i] == points[i]);
    }
}

proof fn lemma_still_tight(points: Seq<PointView>, point: PointView, bounds: DepthBoundsView)
    requires
        tight(points, bounds),
    ensures
        tight(points.push(point), bounds),
        point.depth == bounds.depth ==> tight(points.push(point), bounds.with(point)),
{
    let all = points.push(point);
    assert(all[all.len() - 1] == point);
    assert(attained_x(all, point.depth, point.tile_x, point.local_x));
    assert(attained_y(all, point.depth, point.tile_y, point.local_y));
    lemma_still_attained(points, point, bounds.depth, bounds.x.min_tile, bounds.x.min_local);
    lemma_still_attained(points, point, bounds.depth, bounds.x.max_tile, bounds.x.max_local);
    lemma_still_attained(points, point, bounds.depth, bounds.y.min_tile, bounds.y.min_local);
    lemma_still_attained(points, point, bounds.depth, bounds.y.max_tile, bounds.y.max_local);
}

/// Whether every point is covered.
#[verifier::opaque]
pub open spec fn all_covered(points: Seq<PointView>, bounds: Seq<DepthBoundsView>) -> bool {
    forall|i: int| 0 <= i < points.len() ==> covered(bounds, #[trigger] points[i])
}

/// Whether all bounds are tight.
#[verifier::opaque]
pub open spec fn all_tight(points: Seq<PointView>, bounds: Seq<DepthBoundsView>) -> bool {
    forall|k: int| 0 <= k < bounds.len() ==> tight(points, #[trigger] bounds[k])
}

proof fn lemma_all_covered(points: Seq<PointView>, bounds: Seq<DepthBoundsView>, point: PointView)
    requires
        all_covered(points, bounds),
    ensures
        all_covered(points.push(point), with_point(bounds, point)),
{
    reveal(all_covered);
    let all = points.push(point);
    lemma_newly_covered(bounds, point);
    assert forall|i: int| 0 <= i < all.len() implies covered(
        with_point(bounds, point),
        #[trigger] all[i],
    ) by {
        if i < points.len() {
            assert(all[i] == points[i]);
            lemma_still_covered(bounds, point, points[i]);
        }
    }
}

proof fn lemma_all_tight(points: Seq<PointView>, bounds: Seq<DepthBoundsView>, point: PointView)
    requires
        all_tight(points, bounds),
    ensures
        all_tight(points.push(point), with_point(bounds, point)),
{
    reveal(all_tight);
    let all = points.push(point);
    let after = with_point(bounds, point);
    lemma_depth_place(bounds, point.depth, 0);
    assert forall|k: int| 0 <= k < after.len() implies tight(all, #[trigger] after[k]) by {
        if k < bounds.len() {
            assert(tight(points, bounds[k]));
            lemma_still_tight(points, point, bounds[k]);
        } else {
            assert(all[all.len() - 1] == point);
            assert(attained_x(all, point.depth, point.tile_x, point.local_x));
            assert(attained_y(all, point.depth, point.tile_y, point.local_y));
        }
    }
}

/// The bounds of points cover every point, each of their sides is the place of
/// a point, and there is one for each depth.
pub proof fn law_bounds_are_tight(points: Seq<PointView>)
    ensures
        all_covered(points, bounds_of_points(points)),
        all_tight(points, bounds_of_points(points)),
        depths_differ(bounds_of_points(points)),
    decreases points.len(),
{
    if points.len() > 0 {
        let front = points.drop_last();
        let point = points.last();
        let before = bounds_of_points(front);
        law_bounds_are_tight(front);
        lemma_depths_still_differ(before, point);
        lemma_all_covered(front, before, point);
        lemma_all_tight(front, before, point);
        assert(points =~= front.push(point));
    } else {
        reveal(all_covered);
        reveal(all_tight);
        reveal(depths_differ);
    }
}

/// What the width of a selected stroke follows from.
#[derive(Debug, Clone, Copy, PartialEq, Eq, Structural)]
pub struct SelectionOverlayWidthHint {
    pub native_depth: i64,
    pub native_zoom: u64,
    pub width_px: u32,
}

/// The hints for the selected strokes among the first `count` operations.
pub open spec fn hints_of(
    operations: Seq<EditOperation>,
    selected: Set<u128>,
    count: int,
) -> Seq<SelectionOverlayWidthHint>
    decreases count,
{
    if count <= 0 {
        seq![]
    } else {
        let operation = operations[count - 1];
        let before = hints_of(operations, selected, count - 1);
        if selected.contains(operation.id) && !operation.kind.area() {
            before.push(
                SelectionOverlayWidthHint {
                    native_depth: operation.native_depth,
                    native_zoom: operation.native_zoom,
                    width_px: operation.width_px,
                },
            )
        } else {
            before
        }
    }
}

/// The depths between a stroke and the camera that count for its width: at
/// most forty either way.
pub fn overlay_depth_delta(target_depth: i64, native_depth: i64) -> (delta: i32)
    ensures
        delta == counted_depths(target_depth, native_depth),
{
    let delta: i128 = target_depth as i128 - native_depth as i128;
    if delta < -40 {
        -40
    } else if delta > 40 {
        40
    } else {
        delta as i32
    }
}

/// The bit pattern of the least width that counts for what is around a
/// selection.
pub const MIN_OVERLAY_WIDTH: u32 = 0x4000_0000;

/// The bit pattern of the least width of a stroke on the screen.
pub const MIN_STROKE_WIDTH: u32 = 0x3eb3_3333;

/// The bit pattern of the greatest width of a stroke on the screen.
pub const MAX_STROKE_WIDTH: u32 = 0x47c3_5000;

/// The depths between a stroke and the camera that count for its width.
pub open spec fn counted_depths(target_depth: i64, native_depth: i64) -> i32 {
    if target_depth - native_depth < -40 {
        -40i32
    } else if target_depth - native_depth > 40 {
        40
    } else {
        (target_depth - native_depth) as i32
    }
}

/// `width` tells the widths of strokes so many depths off at a zoom: it can be
/// asked for every stroke, and the same question has one answer.
pub open spec fn tells_widths<W: Fn(SelectionOverlayWidthHint, i32, u64) -> u32>(width: W) -> bool {
    &&& forall|hint: SelectionOverlayWidthHint, depths: i32, zoom: u64| #[trigger]
        call_requires(width, (hint, depths, zoom))
    &&& forall|hint: SelectionOverlayWidthHint, depths: i32, zoom: u64, one: u32, other: u32|
     #[trigger]
        call_ensures(width, (hint, depths, zoom), one) && #[trigger] call_ensures(
            width,
            (hint, depths, zoom),
            other,
        ) ==> one == other
}

/// The width of a stroke on the screen, within the limits.
pub open spec fn shown_width<W: Fn(SelectionOverlayWidthHint, i32, u64) -> u32>(
    hint: SelectionOverlayWidthHint,
    target_depth: i64,
    target_zoom: u64,
    width: W,
) -> u32 {
    let depths = counted_depths(target_depth, hint.native_depth);
    clamped(
        choose|answer: u32| call_ensures(width, (hint, depths, target_zoom), answer),
        MIN_STROKE_WIDTH,
        MAX_STROKE_WIDTH,
    )
}

/// The greatest width of the first `count` strokes, and of the least one that
/// counts.
pub open spec fn greatest_width<W: Fn(SelectionOverlayWidthHint, i32, u64) -> u32>(
    hints: Seq<SelectionOverlayWidthHint>,
    count: int,
    target_depth: i64,
    target_zoom: u64,
    width: W,
) -> u32
    decreases count,
{
    if count <= 0 {
        MIN_OVERLAY_WIDTH
    } else {
        greatest(
            greatest_width(hints, count - 1, target_depth, target_zoom, width),
            shown_width(hints[count - 1], target_depth, target_zoom, width),
        )
    }
}

fn selection_overlay_width<W: Fn(SelectionOverlayWidthHint, i32, u64) -> u32>(
    hints: &Vec<SelectionOverlayWidthHint>,
    target_depth: i64,
    target_zoom: u64,
    width: &W,
) -> (result: u32)
    requires
        tells_widths(*width),
    ensures
        result == greatest_width(
            hints@,
            hints@.len() as int,
            target_depth,
            target_zoom,
            *width,
        ),
{
    let mut result: u32 = MIN_OVERLAY_WIDTH;
    let mut i: usize = 0;
    while i < hints.len()
        invariant
            tells_widths(*width),
            i <= hints@.len(),
            result == greatest_width(hints@, i as int, target_depth, target_zoom, *width),
        decreases hints@.len() - i,
    {
        let hint: SelectionOverlayWidthHint = hints[i];
        let depths: i32 = overlay_depth_delta(target_depth, hint.native_depth);
        let answer: u32 = width(hint, depths, target_zoom);
        assert(call_ensures(*width, (hint, depths, target_zoom), answer));
        result = max_number(result, clamp_number(answer, MIN_STROKE_WIDTH, MAX_STROKE_WIDTH));
        i = i + 1;
    }
    result
}

/// How far what is around a selection reaches beyond its points: what `expand`
/// makes of the greatest width of its strokes.
pub fn selection_overlay_width_expansion<
    W: Fn(SelectionOverlayWidthHint, i32, u64) -> u32,
    E: Fn(u32) -> u32,
>(
    width_hints: &Vec<SelectionOverlayWidthHint>,
    target_depth: i64,
    target_zoom: u64,
    width: &W,
    expand: &E,
) -> (expansion: u32)
    requires
        tells_widths(*width),
        forall|bits: u32| #[trigger] call_requires(*expand, (bits,)),
    ensures
        call_ensures(
            *expand,
            (greatest_width(
                width_hints@,
                width_hints@.len() as int,
                target_depth,
                target_zoom,
                *width,
            ),),
            expansion,
        ),
{
    let greatest: u32 = selection_overlay_width(width_hints, target_depth, target_zoom, width);
    expand(greatest)
}

/// For what the bounds were computed.
#[derive(Debug, Clone, Copy, PartialEq, Eq, Structural)]
pub struct SelectionOverlayBoundsKey {
    pub document_revision: u64,
    pub signature: SelectionBoundsSignature,
}

/// The bounds of the selection, as long as it stays the same.
pub struct SelectionOverlayBoundsCache {
    pub key: Option<SelectionOverlayBoundsKey>,
    pub depth_bounds: Vec<SelectionDepthCanvasBounds>,
    pub width_hints: Vec<SelectionOverlayWidthHint>,
}

impl SelectionOverlayBoundsCache {
    /// No bounds.
    pub fn new() -> (cache: Self)
        ensures
            cache.key is None,
            cache.depth_bounds@.len() == 0,
            cache.width_hints@.len() == 0,
    {
        SelectionOverlayBoundsCache { key: None, depth_bounds: Vec::new(), width_hints: Vec::new() }
    }

    /// Whether the bounds are those of the selected operations.
    pub open spec fn describes(self, operations: Seq<EditOperation>, selected: Set<u128>) -> bool {
        &&& bounds_views(self.depth_bounds@) == bounds_of_points(
            selected_points(operations, selected, operations.len() as int),
        )
        &&& self.width_hints@ == hints_of(operations, selected, operations.len() as int)
    }

    /// Makes the bounds those of the selection: they are computed anew where the
    /// document has another revision or the selection another digest.
    pub fn update(
        &mut self,
        document_revision: u64,
        operations: &Vec<EditOperation>,
        selected: &HashSet<u128>,
    ) -> (rebuilt: bool)
        ensures
            final(self).key is Some,
            final(self).key->0.document_revision == document_revision,
            forall|ids: Seq<u128>|
                ids.no_duplicates() && #[trigger] ids.to_set() == selected@
                    ==> final(self).key->0.signature == signature_of(ids),
            rebuilt == (old(self).key != final(self).key),
            rebuilt ==> final(self).describes(operations@, selected@),
            !rebuilt ==> *final(self) == *old(self),
    {
        let key = SelectionOverlayBoundsKey {
            document_revision,
            signature: selection_bounds_signature(selected),
        };
        let same: bool = match self.key {
            Some(known) => known == key,
            None => false,
        };
        if same {
            return false;
        }
        self.rebuild(key, operations, selected);
        true
    }

    fn rebuild(
        &mut self,
        key: SelectionOverlayBoundsKey,
        operations: &Vec<EditOperation>,
        selected: &HashSet<u128>,
    )
        ensures
            final(self).key == Some(key),
            final(self).describes(operations@, selected@),
    {
        let mut depth_bounds: Vec<SelectionDepthCanvasBounds> = Vec::new();
        let mut width_hints: Vec<SelectionOverlayWidthHint> = Vec::new();
        let mut i: usize = 0;
        assert(bounds_views(depth_bounds@) =~= seq![]);
        while i < operations.len()
            invariant
                i <= operations@.len(),
                bounds_views(depth_bounds@) == bounds_of_points(
                    selected_points(operations@, selected@, i as int),
                ),
                width_hints@ == hints_of(operations@, selected@, i as int),
            decreases operations@.len() - i,
        {
            let operation = &operations[i];
            if selected.contains(&operation.id) {
                if !operation.kind.is_area() {
                    width_hints.push(
                        SelectionOverlayWidthHint {
                            native_depth: operation.native_depth,
                            native_zoom: operation.native_zoom,
                            width_px: operation.width_px,
                        },
                    );
                }
                take_in_points(
                    &mut depth_bounds,
                    &operation.points,
                    Ghost(selected_points(operations@, selected@, i as int)),
                );
            }
            i = i + 1;
        }
        self.key = Some(key);
        self.depth_bounds = depth_bounds;
        self.width_hints = width_hints;
    }
}

fn take_in_points(
    depth_bounds: &mut Vec<SelectionDepthCanvasBounds>,
    points: &Vec<CanvasPoint>,
    Ghost(earlier): Ghost<Seq<PointView>>,
)
    requires
        bounds_views(old(depth_bounds)@) == bounds_of_points(earlier),
    ensures
        bounds_views(final(depth_bounds)@) == bounds_of_points(earlier + point_views(points@)),
{
    let ghost views = point_views(points@);
    let mut i: usize = 0;
    assert(earlier + views.take(0) =~= earlier);
    while i < points.len()
        invariant
            i <= points@.len(),
            views == point_views(points@),
            bounds_views(depth_bounds@) == bounds_of_points(earlier + views.take(i as int)),
        decreases points@.len() - i,
    {
        let ghost so_far = earlier + views.take(i as int);
        let ghost next = earlier + views.take(i + 1);
        assert(next.drop_last() =~= so_far);
        assert(next.last() == points@[i as int]@);
        take_in_point(depth_bounds, &points[i]);
        i = i + 1;
    }
    assert(views.take(i as int) =~= views);
}

fn take_in_point(depth_bounds: &mut Vec<SelectionDepthCanvasBounds>, point: &CanvasPoint)
    ensures
        bounds_views(final(depth_bounds)@) == with_point(bounds_views(old(depth_bounds)@), point@),
{
    let ghost views = bounds_views(depth_bounds@);
    let mut k: usize = 0;
    while k < depth_bounds.len() && depth_bounds[k].depth != point.depth
        invariant
            k <= depth_bounds@.len(),
            depth_bounds@ == old(depth_bounds)@,
            views == bounds_views(depth_bounds@),
            depth_place(views, point@.depth, 0) == depth_place(views, point@.depth, k as int),
        decreases depth_bounds@.len() - k,
    {
        assert(views[k as int] == depth_bounds@[k as int]@);
        k = k + 1;
    }
    if k < depth_bounds.len() {
        assert(views[k as int] == depth_bounds@[k as int]@);
        depth_bounds[k].take_in(point);
        assert(bounds_views(depth_bounds@) =~= views.update(
            k as int,
            views[k as int].with(point@),
        ));
    } else {
        depth_bounds.push(SelectionDepthCanvasBounds::new(point));
        assert(bounds_views(depth_bounds@) =~= views.push(DepthBoundsView::at(point@)));
    }
}

/// The points of a selection are all points of all selected operations, and no
/// others.
pub proof fn law_the_points_of_a_selection_are_all_of_its_points(
    operations: Seq<EditOperation>,
    selected: Set<u128>,
    count: int,
    point: PointView,
)
    requires
        0 <= count <= operations.len(),
    ensures
        selected_points(operations, selected, count).contains(point) <==> exists|i: int|
            0 <= i < count && selected.contains((#[trigger] operations[i]).id) && point_views(
                operations[i].points@,
            ).contains(point),
    decreases count,
{
    if count > 0 {
        law_the_points_of_a_selection_are_all_of_its_points(
            operations,
            selected,
            count - 1,
            point,
        );
        let all = selected_points(operations, selected, count);
        let before = selected_points(operations, selected, count - 1);
        let last = operations[count - 1];
        let own = point_views(last.points@);
        if all.contains(point) {
            let k = all.index_of(point);
            if k < before.len() {
                assert(before[k] == point);
                assert(before.contains(point));
                let i = choose|i: int|
                    0 <= i < count - 1 && selected.contains((#[trigger] operations[i]).id)
                        && point_views(operations[i].points@).contains(point);
                assert(0 <= i < count && selected.contains(operations[i].id));
            } else {
                assert(own[k - before.len()] == point);
                assert(own.contains(point));
                assert(selected.contains(operations[count - 1].id));
            }
        }
        if exists|i: int|
            0 <= i < count && selected.contains((#[trigger] operations[i]).id) && point_views(
                operations[i].points@,
            ).contains(point) {
            let i = choose|i: int|
                0 <= i < count && selected.contains((#[trigger] operations[i]).id) && point_views(
                    operations[i].points@,
                ).contains(point);
            if i < count - 1 {
                assert(before.contains(point));
                assert(all[before.index_of(point)] == point);
            } else {
                assert(all[before.len() + own.index_of(point)] == point);
            }
        }
    }
}

/// Every selected stroke has its width looked at.
pub proof fn law_every_selected_stroke_has_a_hint(
    operations: Seq<EditOperation>,
    selected: Set<u128>,
    count: int,
    at: int,
)
    requires
        0 <= at < count <= operations.len(),
        selected.contains(operations[at].id),
        !operations[at].kind.area(),
    ensures
        hints_of(operations, selected, count).contains(
            SelectionOverlayWidthHint {
                native_depth: operations[at].native_depth,
                native_zoom: operations[at].native_zoom,
                width_px: operations[at].width_px,
            },
        ),
    decreases count,
{
    let all = hints_of(operations, selected, count);
    let before = hints_of(operations, selected, count - 1);
    let hint = SelectionOverlayWidthHint {
        native_depth: operations[at].native_depth,
        native_zoom: operations[at].native_zoom,
        width_px: operations[at].width_px,
    };
    if at < count - 1 {
        law_every_selected_stroke_has_a_hint(operations, selected, count - 1, at);
        assert(all[before.index_of(hint)] == hint);
    } else {
        assert(all[before.len() as int] == hint);
    }
}

/// Widths are looked at of selected strokes only.
pub proof fn law_hints_are_of_selected_strokes(
    operations: Seq<EditOperation>,
    selected: Set<u128>,
    count: int,
    k: int,
) -> (at: int)
    requires
        0 <= count <= operations.len(),
        0 <= k < hints_of(operations, selected, count).len(),
    ensures
        0 <= at < count,
        selected.contains(operations[at].id),
        !operations[at].kind.area(),
        hints_of(operations, selected, count)[k].native_depth == operations[at].native_depth,
        hints_of(operations, selected, count)[k].native_zoom == operations[at].native_zoom,
        hints_of(operations, selected, count)[k].width_px == operations[at].width_px,
    decreases count,
{
    let before = hints_of(operations, selected, count - 1);
    if k < before.len() {
        assert(hints_of(operations, selected, count)[k] == before[k]);
        law_hints_are_of_selected_strokes(operations, selected, count - 1, k)
    } else {
        count - 1
    }
}

/// Depths are counted as they are up to the limit, in either direction, and never
/// beyond it.
pub proof fn law_depths_are_counted_up_to_a_limit(target_depth: i64, native_depth: i64)
    ensures
        -40 <= counted_depths(target_depth, native_depth) <= 40,
        -40 <= target_depth - native_depth <= 40 ==> counted_depths(target_depth, native_depth)
            == target_depth - native_depth,
        target_depth - native_depth > 40 ==> counted_depths(target_depth, native_depth) == 40,
        target_depth - native_depth < -40 ==> counted_depths(target_depth, native_depth) == -40,
{
}

proof fn lemma_greatest_width<W: Fn(SelectionOverlayWidthHint, i32, u64) -> u32>(
    hints: Seq<SelectionOverlayWidthHint>,
    count: int,
    target_depth: i64,
    target_zoom: u64,
    width: W,
)
    requires
        0 <= count <= hints.len(),
        forall|i: int|
            0 <= i < hints.len() ==> is_number(
                shown_width(#[trigger] hints[i], target_depth, target_zoom, width),
            ),
    ensures
        ({
            let widest = greatest_width(hints, count, target_depth, target_zoom, width);
            &&& is_number(widest)
            &&& at_most(MIN_OVERLAY_WIDTH, widest)
            &&& forall|i: int|
                0 <= i < count ==> at_most(
                    shown_width(#[trigger] hints[i], target_depth, target_zoom, width),
                    widest,
                )
            &&& widest == MIN_OVERLAY_WIDTH || exists|i: int|
                0 <= i < count && widest == shown_width(
                    #[trigger] hints[i],
                    target_depth,
                    target_zoom,
                    width,
                )
        }),
    decreases count,
{
    if count > 0 {
        lemma_greatest_width(hints, count - 1, target_depth, target_zoom, width);
        let last = hints[count - 1];
        assert(is_number(shown_width(hints[count - 1], target_depth, target_zoom, width)));
        let widest = greatest_width(hints, count, target_depth, target_zoom, width);
        let before = greatest_width(hints, count - 1, target_depth, target_zoom, width);
        assert(widest == before || widest == shown_width(
            hints[count - 1],
            target_depth,
            target_zoom,
            width,
        ));
    }
}

/// The overlay makes room for the widest stroke: no stroke is wider than that, and
/// where it is more than the least, one stroke is as wide.
pub proof fn law_overlays_make_room_for_the_widest_stroke<
    W: Fn(SelectionOverlayWidthHint, i32, u64) -> u32,
>(
    hints: Seq<SelectionOverlayWidthHint>,
    target_depth: i64,
    target_zoom: u64,
    width: W,
)
    requires
        forall|i: int|
            0 <= i < hints.len() ==> is_number(
                shown_width(#[trigger] hints[i], target_depth, target_zoom, width),
            ),
    ensures
        ({
            let widest = greatest_width(
                hints,
                hints.len() as int,
                target_depth,
                target_zoom,
                width,
            );
            &&& at_most(MIN_OVERLAY_WIDTH, widest)
            &&& forall|i: int|
                0 <= i < hints.len() ==> at_most(
                    shown_width(#[trigger] hints[i], target_depth, target_zoom, width),
                    widest,
                )
            &&& widest == MIN_OVERLAY_WIDTH || exists|i: int|
                0 <= i < hints.len() && widest == shown_width(
                    #[trigger] hints[i],
                    target_depth,
                    target_zoom,
                    width,
                )
        }),
{
    lemma_greatest_width(hints, hints.len() as int, target_depth, target_zoom, width);
}

} // verus!
