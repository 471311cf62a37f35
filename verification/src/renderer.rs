//! What drawing operations directly keeps from frame to frame.

use crate::fallback::MAX_SEGMENTED_FALLBACK_SHAPES_PER_FRAME;
use crate::model::{point_views, CanvasPoint, PointView};
use crate::optics::CanvasMeasures;
use crate::plane::is_somewhere;
use crate::regions::{bounds_of, law_bounds_hold_the_points, reach_of};
use crate::render_cache::{
    same_frame, OperationBoundsCache, SavedFallbackRenderCache, SavedFallbackRenderFrameKey,
};
use crate::screen::{law_rectangles_with_a_common_position_meet, Position, ScreenRect};
use crate::selection_bounds::{bounds_views, DepthBoundsView, SelectionDepthCanvasBounds};
use crate::tile_index::TileIndex;
use crate::tile_state::cloned_keys;
use crate::tile_view::{key_views, KeyView, TileKey};
use vstd::prelude::*;

verus! {

/// The tiles that an operation touches at its depth.
#[derive(Debug)]
pub struct OperationBounds {
    pub depth: i64,
    pub min_x: TileIndex,
    pub max_x: TileIndex,
    pub min_y: TileIndex,
    pub max_y: TileIndex,
}

/// Where the corners of an operation's tiles are on the screen, as far as
/// arithmetic tells.
pub struct CornerProjection<P, W> {
    /// Where a point is on the screen; none where that is not representable.
    pub project: P,
    /// A rectangle with half of the width of a stroke around it.
    pub widen: W,
}

impl<P: Fn(&CanvasPoint) -> Option<Position>, W: Fn(ScreenRect) -> ScreenRect> CornerProjection<
    P,
    W,
> {
    /// `answer` may be where `point` is on the screen.
    pub open spec fn projects(self, point: PointView, answer: Option<Position>) -> bool {
        exists|at: CanvasPoint|
            at@ == point && #[trigger] call_ensures(self.project, (&at,), answer)
    }

    /// Everything can be asked, and the same question has one answer.
    pub open spec fn wf(self) -> bool {
        &&& forall|at: CanvasPoint| #[trigger] call_requires(self.project, (&at,))
        &&& forall|rect: ScreenRect| #[trigger] call_requires(self.widen, (rect,))
        &&& forall|point: PointView, one: Option<Position>, other: Option<Position>| #[trigger]
            self.projects(point, one) && #[trigger] self.projects(point, other) ==> one == other
        &&& forall|rect: ScreenRect, one: ScreenRect, other: ScreenRect| #[trigger]
            call_ensures(self.widen, (rect,), one) && #[trigger] call_ensures(
                self.widen,
                (rect,),
                other,
            ) ==> one == other
    }

    /// Where a point is on the screen.
    pub open spec fn shown(self, point: PointView) -> Option<Position> {
        choose|answer: Option<Position>| self.projects(point, answer)
    }

    /// A rectangle with half of the width of a stroke around it.
    pub open spec fn widened(self, rect: ScreenRect) -> ScreenRect {
        choose|answer: ScreenRect| call_ensures(self.widen, (rect,), answer)
    }

    /// How far points reach on the screen; none where there are none, or one of
    /// them is not known to be anywhere.
    pub open spec fn reach(self, points: Seq<PointView>) -> Option<ScreenRect> {
        if points.len() == 0 || exists|i: int|
            0 <= i < points.len() && self.shown(#[trigger] points[i]) is None {
            None
        } else {
            Some(
                reach_of(
                    points.map_values(|point: PointView| self.shown(point).unwrap()),
                    points.len() as int,
                ),
            )
        }
    }

    /// Points that are all on the screen reach around each of them; one that is
    /// nowhere leaves all of them without a reach.
    pub proof fn law_reach_is_around_all_points(
        self,
        points: Seq<PointView>,
        i: int,
    )
        requires
            0 <= i < points.len(),
        ensures
            self.shown(points[i]) is None ==> self.reach(points) is None,
            (forall|k: int|
                0 <= k < points.len() ==> self.shown(#[trigger] points[k]) is Some && is_somewhere(
                    self.shown(points[k])->0,
                )) ==> self.reach(points) is Some && self.reach(points).unwrap().covers(
                self.shown(points[i])->0,
            ),
            self.reach(Seq::empty()) is None,
    {
        let positions = points.map_values(|point: PointView| self.shown(point).unwrap());
        if forall|k: int|
            0 <= k < points.len() ==> self.shown(#[trigger] points[k]) is Some && is_somewhere(
                self.shown(points[k])->0,
            ) {
            assert forall|k: int| 0 <= k < positions.len() implies is_somewhere(
                #[trigger] positions[k],
            ) by {
                assert(self.shown(points[k]) is Some);
            }
            law_bounds_hold_the_points(positions);
            assert(bounds_of(positions).unwrap().covers(positions[i]));
        }
    }

    /// How far points reach on the screen.
    pub fn project_points(&self, points: &Vec<CanvasPoint>) -> (reach: Option<ScreenRect>)
        requires
            self.wf(),
        ensures
            reach == self.reach(point_views(points@)),
    {
        let ghost views = point_views(points@);
        let ghost shown = views.map_values(|point: PointView| self.shown(point).unwrap());
        let mut reach: Option<ScreenRect> = None;
        let mut i: usize = 0;
        while i < points.len()
            invariant
                self.wf(),
                i <= points@.len(),
                views == point_views(points@),
                views.len() == points@.len(),
                shown == views.map_values(|point: PointView| self.shown(point).unwrap()),
                forall|k: int| 0 <= k < i ==> self.shown(#[trigger] views[k]) is Some,
                reach == (if i == 0 {
                    None
                } else {
                    Some(reach_of(shown, i as int))
                }),
            decreases points@.len() - i,
        {
            let answer: Option<Position> = (self.project)(&points[i]);
            assert(self.projects(views[i as int], answer));
            match answer {
                Some(position) => {
                    assert(shown[i as int] == position);
                    let spot = ScreenRect { min: position, max: position };
                    reach = match reach {
                        None => Some(spot),
                        Some(before) => Some(before.union(&spot)),
                    };
                },
                None => {
                    assert(self.shown(views[i as int]) is None);
                    return None;
                },
            }
            i = i + 1;
        }
        reach
    }

    /// Whether an operation on these tiles may be seen in `screen`: where a
    /// corner is not known to be anywhere it may, and else where the tiles, with
    /// half of the width of a stroke around them, reach into it.
    pub open spec fn may_be_seen(self, corners: Seq<PointView>, screen: ScreenRect) -> bool {
        match self.reach(corners) {
            None => true,
            Some(reach) => self.widened(reach).meets(screen),
        }
    }

    /// Whether an operation on these tiles may be seen in `screen`.
    pub fn operation_bounds_may_intersect_screen_rect(
        &self,
        bounds: &OperationBounds,
        screen: &ScreenRect,
    ) -> (result: bool)
        requires
            self.wf(),
        ensures
            result == self.may_be_seen(bounds.corner_views(), *screen),
    {
        match self.project_points(&bounds.corners()) {
            None => true,
            Some(reach) => {
                let wide: ScreenRect = (self.widen)(reach);
                assert(wide == self.widened(reach));
                wide.intersects(screen)
            },
        }
    }

    /// How far the first `count` bounds reach together; none where one of them is
    /// not known to be anywhere.
    pub open spec fn joint_reach<M: CanvasMeasures>(
        self,
        measures: &M,
        bounds: Seq<DepthBoundsView>,
        count: int,
    ) -> Option<ScreenRect>
        decreases count,
    {
        if count <= 0 {
            None
        } else if count == 1 {
            self.reach(bounds[0].corners(measures))
        } else {
            match (
                self.joint_reach(measures, bounds, count - 1),
                self.reach(bounds[count - 1].corners(measures)),
            ) {
                (Some(before), Some(reach)) => Some(before.joined(reach)),
                _ => None,
            }
        }
    }

    proof fn lemma_unknown_stays<M: CanvasMeasures>(
        self,
        measures: &M,
        bounds: Seq<DepthBoundsView>,
        count: int,
        later: int,
    )
        requires
            0 < count <= later,
            self.joint_reach(measures, bounds, count) is None,
        ensures
            self.joint_reach(measures, bounds, later) is None,
        decreases later - count,
    {
        if count < later {
            self.lemma_unknown_stays(measures, bounds, count, later - 1);
        }
    }

    /// The rectangle around what is selected, from its bounds at each depth, with
    /// half of the width of its strokes around it; none where nothing is
    /// selected, or bounds are not known to be anywhere.
    pub fn fast_selection_overlay_bounds<M: CanvasMeasures>(
        &self,
        measures: &M,
        bounds: &Vec<SelectionDepthCanvasBounds>,
    ) -> (rect: Option<ScreenRect>)
        requires
            self.wf(),
            measures.wf(),
        ensures
            rect == match self.joint_reach(
                measures,
                bounds_views(bounds@),
                bounds@.len() as int,
            ) {
                None => None,
                Some(reach) => Some(self.widened(reach)),
            },
    {
        let ghost views = bounds_views(bounds@);
        let mut reach: Option<ScreenRect> = None;
        let mut i: usize = 0;
        while i < bounds.len()
            invariant
                self.wf(),
                measures.wf(),
                i <= bounds@.len(),
                views == bounds_views(bounds@),
                i > 0 ==> reach is Some,
                reach == self.joint_reach(measures, views, i as int),
            decreases bounds@.len() - i,
        {
            assert(views[i as int] == bounds@[i as int]@);
            let corners: Vec<CanvasPoint> = bounds[i].corners(measures);
            assert(point_views(corners@) =~= views[i as int].corners(measures));
            match self.project_points(&corners) {
                None => {
                    assert(self.joint_reach(measures, views, i + 1) is None);
                    proof {
                        self.lemma_unknown_stays(measures, views, i + 1, bounds@.len() as int);
                    }
                    return None;
                },
                Some(rect) => {
                    reach = match reach {
                        None => Some(rect),
                        Some(before) => Some(before.union(&rect)),
                    };
                },
            }
            i = i + 1;
        }
        match reach {
            None => None,
            Some(rect) => {
                let wide: ScreenRect = (self.widen)(rect);
                assert(wide == self.widened(rect));
                Some(wide)
            },
        }
    }
}

impl OperationBounds {
    /// The corners of the tiles, from the upper left one on to the right.
    pub open spec fn corner_views(self) -> Seq<PointView> {
        seq![
            self.corner_view(self.min_x@, self.min_y@),
            self.corner_view(self.max_x@ + 1, self.min_y@),
            self.corner_view(self.max_x@ + 1, self.max_y@ + 1),
            self.corner_view(self.min_x@, self.max_y@ + 1),
        ]
    }

    /// The upper left corner of a tile.
    pub open spec fn corner_view(self, tile_x: int, tile_y: int) -> PointView {
        PointView { depth: self.depth as int, tile_x, tile_y, local_x: 0, local_y: 0 }
    }

    /// The corners of the tiles, from the upper left one on to the right.
    pub fn corners(&self) -> (corners: Vec<CanvasPoint>)
        ensures
            point_views(corners@) == self.corner_views(),
            corners@.len() == 4,
    {
        let mut corners: Vec<CanvasPoint> = Vec::new();
        let end_x: TileIndex = self.max_x.shifted(1);
        let end_y: TileIndex = self.max_y.shifted(1);
        corners.push(CanvasPoint::in_tile(self.depth, &self.min_x, &self.min_y, 0, 0));
        corners.push(CanvasPoint::in_tile(self.depth, &end_x, &self.min_y, 0, 0));
        corners.push(CanvasPoint::in_tile(self.depth, &end_x, &end_y, 0, 0));
        corners.push(CanvasPoint::in_tile(self.depth, &self.min_x, &end_y, 0, 0));
        assert(point_views(corners@) =~= self.corner_views());
        corners
    }
}

/// Which operations the tiles of a view show, as it was last found out.
pub struct VisibleOperationCache {
    pub known: bool,
    pub revision: u64,
    pub tiles: Vec<TileKey>,
    pub operations: Vec<usize>,
}

fn same_tiles(left: &Vec<TileKey>, right: &Vec<TileKey>) -> (same: bool)
    ensures
        same == (key_views(left@) == key_views(right@)),
{
    if left.len() != right.len() {
        assert(key_views(left@).len() != key_views(right@).len());
        return false;
    }
    let mut i: usize = 0;
    while i < left.len()
        invariant
            i <= left@.len(),
            left@.len() == right@.len(),
            forall|k: int| 0 <= k < i ==> (#[trigger] left@[k])@ == right@[k]@,
        decreases left@.len() - i,
    {
        if left[i] != right[i] {
            assert(key_views(left@)[i as int] != key_views(right@)[i as int]);
            return false;
        }
        i = i + 1;
    }
    assert(key_views(left@) =~= key_views(right@));
    true
}

impl VisibleOperationCache {
    /// Whether it is known what these tiles show at this revision.
    pub open spec fn holds(self, revision: u64, tiles: Seq<KeyView>) -> bool {
        self.known && self.revision == revision && key_views(self.tiles@) == tiles
    }

    /// Nothing is known.
    pub fn new() -> (cache: Self)
        ensures
            !cache.known,
    {
        VisibleOperationCache {
            known: false,
            revision: 0,
            tiles: Vec::new(),
            operations: Vec::new(),
        }
    }

    /// Finds out what the tiles show at a revision, if that is not known, and
    /// returns whether it was.
    pub fn update<Q: Fn() -> Vec<usize>>(
        &mut self,
        revision: u64,
        tiles: &Vec<TileKey>,
        query: &Q,
    ) -> (hit: bool)
        requires
            call_requires(query, ()),
        ensures
            final(self).holds(revision, key_views(tiles@)),
            hit == old(self).holds(revision, key_views(tiles@)),
            hit ==> *final(self) == *old(self),
            !hit ==> call_ensures(query, (), final(self).operations),
    {
        if self.known && self.revision == revision && same_tiles(&self.tiles, tiles) {
            return true;
        }
        self.operations = query();
        self.tiles = cloned_keys(tiles);
        self.revision = revision;
        self.known = true;
        false
    }

    /// Forgets what is known.
    pub fn clear(&mut self)
        ensures
            !final(self).known,
    {
        self.known = false;
        self.tiles.clear();
        self.operations.clear();
    }
}

/// What drawing operations directly keeps from frame to frame, and what is left
/// of the budget of the current one.
pub struct FallbackRenderer {
    pub segmented_shape_budget_remaining: usize,
    pub visible_operations: VisibleOperationCache,
    pub saved_render_cache: SavedFallbackRenderCache,
    pub operation_bounds_cache: OperationBoundsCache<OperationBounds>,
}

impl FallbackRenderer {
    /// The points are kept under different keys.
    pub open spec fn wf(self) -> bool {
        self.saved_render_cache.wf()
    }

    /// Nothing is kept, and the budget is whole.
    pub open spec fn is_clear(self) -> bool {
        &&& self.segmented_shape_budget_remaining == 200_000
        &&& !self.visible_operations.known
        &&& self.saved_render_cache.is_clear()
        &&& self.operation_bounds_cache@ == Map::<u128, Option<OperationBounds>>::empty()
    }

    /// Nothing.
    pub fn new() -> (renderer: Self)
        ensures
            renderer.wf(),
            renderer.is_clear(),
    {
        FallbackRenderer {
            segmented_shape_budget_remaining: MAX_SEGMENTED_FALLBACK_SHAPES_PER_FRAME,
            visible_operations: VisibleOperationCache::new(),
            saved_render_cache: SavedFallbackRenderCache::new(),
            operation_bounds_cache: OperationBoundsCache::new(),
        }
    }

    /// Begins a frame with a whole budget; the kept points go where the frame is
    /// another one, the rest stays.
    pub fn begin_frame(&mut self, frame_key: SavedFallbackRenderFrameKey)
        requires
            old(self).wf(),
        ensures
            final(self).wf(),
            final(self).segmented_shape_budget_remaining == 200_000,
            final(self).visible_operations == old(self).visible_operations,
            final(self).operation_bounds_cache == old(self).operation_bounds_cache,
            ({
                let known = old(self).saved_render_cache.frame_key;
                if known is Some && same_frame(known->0, frame_key) {
                    final(self).saved_render_cache == old(self).saved_render_cache
                } else {
                    &&& final(self).saved_render_cache.frame_key == Some(frame_key)
                    &&& final(self).saved_render_cache.holds_nothing()
                }
            }),
    {
        self.saved_render_cache.begin_frame(frame_key);
        self.segmented_shape_budget_remaining = MAX_SEGMENTED_FALLBACK_SHAPES_PER_FRAME;
    }

    /// Which operations the tiles show, and whether it was known already.
    pub fn visible_operations<Q: Fn() -> Vec<usize>>(
        &mut self,
        revision: u64,
        visible_tiles: &Vec<TileKey>,
        query: &Q,
    ) -> (result: (Vec<usize>, bool))
        requires
            call_requires(query, ()),
        ensures
            final(self).visible_operations.holds(revision, key_views(visible_tiles@)),
            result.0@ == final(self).visible_operations.operations@,
            result.1 == old(self).visible_operations.holds(revision, key_views(visible_tiles@)),
            result.1 ==> final(self).visible_operations == old(self).visible_operations,
            !result.1 ==> call_ensures(query, (), final(self).visible_operations.operations),
            final(self).segmented_shape_budget_remaining == old(self).segmented_shape_budget_remaining,
            final(self).saved_render_cache == old(self).saved_render_cache,
            final(self).operation_bounds_cache == old(self).operation_bounds_cache,
    {
        let hit: bool = self.visible_operations.update(revision, visible_tiles, query);
        let mut operations: Vec<usize> = Vec::new();
        let mut i: usize = 0;
        while i < self.visible_operations.operations.len()
            invariant
                i <= self.visible_operations.operations@.len(),
                operations@ == self.visible_operations.operations@.take(i as int),
            decreases self.visible_operations.operations@.len() - i,
        {
            operations.push(self.visible_operations.operations[i]);
            i = i + 1;
        }
        assert(operations@ =~= self.visible_operations.operations@);
        (operations, hit)
    }

    /// Drops everything.
    pub fn clear(&mut self)
        ensures
            final(self).wf(),
            final(self).is_clear(),
    {
        self.visible_operations.clear();
        self.saved_render_cache.clear();
        self.operation_bounds_cache.clear();
        self.segmented_shape_budget_remaining = MAX_SEGMENTED_FALLBACK_SHAPES_PER_FRAME;
    }
}

impl<P: Fn(&CanvasPoint) -> Option<Position>, W: Fn(ScreenRect) -> ScreenRect> CornerProjection<
    P,
    W,
> {
    /// What has a corner on the screen may be seen, whichever corner it is, as long
    /// as widening a rectangle leaves out nothing that was in it; so may what lies
    /// where it cannot be told.
    pub proof fn law_what_has_a_corner_on_the_screen_may_be_seen(
        self,
        corners: Seq<PointView>,
        screen: ScreenRect,
        i: int,
        position: Position,
        wide: ScreenRect,
    )
        requires
            self.wf(),
            0 <= i < corners.len(),
            self.projects(corners[i], Some(position)),
            screen.covers(position),
            forall|k: int|
                0 <= k < corners.len() ==> (self.shown(#[trigger] corners[k]) matches Some(at)
                    ==> is_somewhere(at)),
            self.reach(corners) matches Some(reach) ==> call_ensures(self.widen, (reach,), wide)
                && forall|at: Position| #[trigger] reach.covers(at) ==> wide.covers(at),
        ensures
            self.may_be_seen(corners, screen),
    {
        assert(self.shown(corners[i]) == Some(position));
        if let Some(reach) = self.reach(corners) {
            let positions = corners.map_values(|point: PointView| self.shown(point).unwrap());
            assert forall|k: int| 0 <= k < positions.len() implies is_somewhere(
                #[trigger] positions[k],
            ) by {
                assert(self.shown(corners[k]) is Some);
            }
            law_bounds_hold_the_points(positions);
            assert(bounds_of(positions) == Some(reach));
            assert(reach.covers(positions[i]));
            assert(positions[i] == position);
            assert(self.widened(reach) == wide);
            assert(wide.covers(position));
            law_rectangles_with_a_common_position_meet(wide, screen, position);
        }
    }

    /// What reaches nowhere, because a corner of it cannot be shown, may be seen.
    pub proof fn law_what_cannot_be_shown_may_be_seen(
        self,
        corners: Seq<PointView>,
        screen: ScreenRect,
        i: int,
    )
        requires
            self.wf(),
            0 <= i < corners.len(),
            self.projects(corners[i], None),
        ensures
            self.may_be_seen(corners, screen),
            self.reach(corners) is None,
    {
        assert(self.shown(corners[i]) is None);
    }

    proof fn lemma_joint_reach<M: CanvasMeasures>(
        self,
        measures: &M,
        bounds: Seq<DepthBoundsView>,
        count: int,
        at: int,
        position: Position,
    )
        requires
            0 <= at < count <= bounds.len(),
            self.joint_reach(measures, bounds, count) is Some,
            self.reach(bounds[at].corners(measures)) is Some,
            self.reach(bounds[at].corners(measures))->0.covers(position),
            forall|k: int|
                0 <= k < bounds.len() ==> (self.reach((#[trigger] bounds[k]).corners(measures))
                    matches Some(reach) ==> is_somewhere(reach.min) && is_somewhere(reach.max)),
        ensures
            self.joint_reach(measures, bounds, count)->0.covers(position),
            is_somewhere(self.joint_reach(measures, bounds, count)->0.min),
            is_somewhere(self.joint_reach(measures, bounds, count)->0.max),
        decreases count,
    {
        assert(self.reach(bounds[count - 1].corners(measures)) is Some);
        if count > 1 {
            if at < count - 1 {
                self.lemma_joint_reach(measures, bounds, count - 1, at, position);
            } else {
                self.lemma_joint_reach_is_somewhere(measures, bounds, count - 1);
            }
        }
    }

    proof fn lemma_joint_reach_is_somewhere<M: CanvasMeasures>(
        self,
        measures: &M,
        bounds: Seq<DepthBoundsView>,
        count: int,
    )
        requires
            0 < count <= bounds.len(),
            self.joint_reach(measures, bounds, count) is Some,
            forall|k: int|
                0 <= k < bounds.len() ==> (self.reach((#[trigger] bounds[k]).corners(measures))
                    matches Some(reach) ==> is_somewhere(reach.min) && is_somewhere(reach.max)),
        ensures
            is_somewhere(self.joint_reach(measures, bounds, count)->0.min),
            is_somewhere(self.joint_reach(measures, bounds, count)->0.max),
        decreases count,
    {
        assert(self.reach(bounds[count - 1].corners(measures)) is Some);
        if count > 1 {
            self.lemma_joint_reach_is_somewhere(measures, bounds, count - 1);
        }
    }

    /// Together, bounds reach as far as each of them does.
    pub proof fn law_bounds_reach_as_far_as_each_of_them<M: CanvasMeasures>(
        self,
        measures: &M,
        bounds: Seq<DepthBoundsView>,
        at: int,
        position: Position,
    )
        requires
            0 <= at < bounds.len(),
            self.joint_reach(measures, bounds, bounds.len() as int) is Some,
            self.reach(bounds[at].corners(measures)) is Some,
            self.reach(bounds[at].corners(measures))->0.covers(position),
            forall|k: int|
                0 <= k < bounds.len() ==> (self.reach((#[trigger] bounds[k]).corners(measures))
                    matches Some(reach) ==> is_somewhere(reach.min) && is_somewhere(reach.max)),
        ensures
            self.joint_reach(measures, bounds, bounds.len() as int)->0.covers(position),
    {
        self.lemma_joint_reach(measures, bounds, bounds.len() as int, at, position);
    }
}

/// The corners of the bounds of an operation are around all of its tiles: from the
/// first tile up to the end of the last one, at its depth.
pub proof fn law_corners_are_around_all_tiles(bounds: OperationBounds, x: int, y: int)
    requires
        bounds.min_x@ <= x <= bounds.max_x@,
        bounds.min_y@ <= y <= bounds.max_y@,
    ensures
        ({
            let corners = bounds.corner_views();
            &&& corners.len() == 4
            &&& corners[0].tile_x <= x && x + 1 <= corners[2].tile_x
            &&& corners[0].tile_y <= y && y + 1 <= corners[2].tile_y
            &&& corners[1].tile_x == corners[2].tile_x && corners[1].tile_y == corners[0].tile_y
            &&& corners[3].tile_x == corners[0].tile_x && corners[3].tile_y == corners[2].tile_y
            &&& corners[0].tile_x == bounds.min_x@ && corners[2].tile_x == bounds.max_x@ + 1
            &&& corners[0].tile_y == bounds.min_y@ && corners[2].tile_y == bounds.max_y@ + 1
            &&& forall|k: int|
                0 <= k < 4 ==> (#[trigger] corners[k]).depth == bounds.depth && corners[k].local_x
                    == 0 && corners[k].local_y == 0
        }),
{
}

} // verus!
