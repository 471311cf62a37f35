//! Outlines placed on the canvas: lassos, rectangles and what an eraser covers.

use crate::drafts::{draft, is_random_id};
use crate::edits::{background, background_color};
use crate::model::{point_views, CanvasPoint, EditKind, EditOperation, PointView};
use crate::plane::{
    is_finite, is_finite_pattern, is_somewhere, position_is_finite, Plane,
};
use crate::regions::{bounds_of, law_bounds_hold_the_points, pos2_bounds, PolygonTest};
use crate::screen::{
    at_most, is_number, law_rectangles_with_a_common_position_meet, less_than, magnitude,
    number_at_most, number_less_than, Position, ScreenRect,
};
use vstd::prelude::*;

verus! {

/// The bit pattern of twice the area below which an outline is dropped.
pub const MIN_OUTLINE_AREA_TWICE: u32 = 0x3f80_0000;

/// The bit pattern of the length up to which a piece of an eraser's path is a
/// dot.
pub const MAX_DOT_LENGTH: u32 = 0x3e80_0000;

/// The bit pattern of zero.
pub const ZERO_WIDTH: u32 = 0;

/// What the points of lists are, mathematically.
pub open spec fn outlines(lists: Seq<Vec<CanvasPoint>>) -> Seq<Seq<PointView>> {
    lists.map_values(|list: Vec<CanvasPoint>| point_views(list@))
}

/// Where positions of the screen are on the canvas, as far as arithmetic tells.
pub struct Placing<U> {
    pub place: U,
}

impl<U: Fn(Position) -> CanvasPoint> Placing<U> {
    /// `answer` may be the point at `position`.
    pub open spec fn places(self, position: Position, answer: PointView) -> bool {
        exists|point: CanvasPoint|
            point@ == answer && #[trigger] call_ensures(self.place, (position,), point)
    }

    /// Every position can be placed, and has one point.
    pub open spec fn wf(self) -> bool {
        &&& forall|position: Position| #[trigger] call_requires(self.place, (position,))
        &&& forall|position: Position, one: PointView, other: PointView| #[trigger]
            self.places(position, one) && #[trigger] self.places(position, other) ==> one == other
    }

    /// The point at a position.
    pub open spec fn point_at(self, position: Position) -> PointView {
        choose|answer: PointView| self.places(position, answer)
    }

    /// The points at positions.
    pub open spec fn placed(self, positions: Seq<Position>) -> Seq<PointView> {
        positions.map_values(|position: Position| self.point_at(position))
    }

    /// The points at positions.
    pub fn place_all(&self, positions: &Vec<Position>) -> (points: Vec<CanvasPoint>)
        requires
            self.wf(),
        ensures
            point_views(points@) == self.placed(positions@),
    {
        let mut points: Vec<CanvasPoint> = Vec::new();
        let mut i: usize = 0;
        while i < positions.len()
            invariant
                self.wf(),
                i <= positions@.len(),
                points@.len() == i,
                forall|k: int|
                    0 <= k < i ==> (#[trigger] points@[k])@ == self.point_at(positions@[k]),
            decreases positions@.len() - i,
        {
            let point: CanvasPoint = (self.place)(positions[i]);
            assert(self.places(positions@[i as int], point@));
            points.push(point);
            i = i + 1;
        }
        assert(point_views(points@) =~= self.placed(positions@));
        points
    }

    /// Placing keeps the order and leaves nothing out: the i-th point is the one
    /// at the i-th position.
    pub proof fn law_points_are_at_their_positions(self, positions: Seq<Position>)
        requires
            self.wf(),
        ensures
            self.placed(positions).len() == positions.len(),
            forall|i: int, point: PointView|
                0 <= i < positions.len() && #[trigger] self.places(positions[i], point)
                    ==> self.placed(positions)[i] == point,
    {
    }

    /// A rectangle drawn from one corner to the opposite one, in whatever
    /// direction, has four corners in a round, holds both positions, and reaches
    /// no further than they do.
    pub proof fn law_rectangles_lie_between_their_corners(self, start: Position, end: Position)
        requires
            is_somewhere(start),
            is_somewhere(end),
        ensures
            ({
                let corners = ScreenRect::spanned(start, end).corner_list();
                &&& corners.len() == 4
                &&& corners[0].y == corners[1].y
                &&& corners[1].x == corners[2].x
                &&& corners[2].y == corners[3].y
                &&& corners[3].x == corners[0].x
                &&& ScreenRect { min: corners[0], max: corners[2] }.covers(start)
                &&& ScreenRect { min: corners[0], max: corners[2] }.covers(end)
                &&& corners[0].x == start.x || corners[0].x == end.x
                &&& corners[2].x == start.x || corners[2].x == end.x
                &&& corners[0].y == start.y || corners[0].y == end.y
                &&& corners[2].y == start.y || corners[2].y == end.y
            }),
    {
    }

    /// The corners of the rectangle between two positions, on the canvas.
    pub fn area_rectangle_points(&self, start: Position, end: Position) -> (points: Vec<
        CanvasPoint,
    >)
        requires
            self.wf(),
        ensures
            point_views(points@) == self.placed(ScreenRect::spanned(start, end).corner_list()),
    {
        self.place_all(&ScreenRect::from_two_pos(start, end).corners())
    }
}

impl<
    A: Fn(&Vec<Position>) -> u32,
    C: Fn(Position, Position, Position) -> u32,
    L: Fn(Position, Position, Position) -> bool,
    X: Fn(Position, Position, Position, Position) -> Option<Position>,
    I: PolygonTest,
> Plane<A, C, L, X, I> {
    /// Whether an outline surrounds an area: three points at least, all finite,
    /// and an area that is not too small.
    pub open spec fn surrounds(self, points: Seq<Position>) -> bool {
        &&& points.len() >= 3
        &&& forall|i: int| 0 <= i < points.len() ==> is_somewhere(#[trigger] points[i])
        &&& !less_than(magnitude(self.area_of(points)), MIN_OUTLINE_AREA_TWICE)
    }

    /// An outline of three finite points or more surrounds an area exactly where
    /// twice its area is not less than the least one, whichever way it goes around.
    pub proof fn law_outlines_with_an_area_surround_it(self, points: Seq<Position>)
        requires
            is_number(self.area_of(points)),
        ensures
            self.surrounds(points) <==> points.len() > 2 && at_most(
                MIN_OUTLINE_AREA_TWICE,
                magnitude(self.area_of(points)),
            ) && !exists|i: int| 0 <= i < points.len() && !is_somewhere(#[trigger] points[i]),
    {
    }

    /// Whether an outline surrounds an area.
    pub fn outline_surrounds_area(&self, points: &Vec<Position>) -> (result: bool)
        requires
            self.wf(),
        ensures
            result == self.surrounds(points@),
    {
        if points.len() < 3 {
            return false;
        }
        let mut i: usize = 0;
        while i < points.len()
            invariant
                i <= points@.len(),
                forall|k: int| 0 <= k < i ==> is_somewhere(#[trigger] points@[k]),
            decreases points@.len() - i,
        {
            if !position_is_finite(points[i]) {
                return false;
            }
            i = i + 1;
        }
        !self.is_smaller_than(points, MIN_OUTLINE_AREA_TWICE)
    }

    /// The points of a lasso; none where it surrounds no area.
    pub fn area_lasso_points<U: Fn(Position) -> CanvasPoint>(
        &self,
        placing: &Placing<U>,
        points: &Vec<Position>,
    ) -> (result: Option<Vec<CanvasPoint>>)
        requires
            self.wf(),
            placing.wf(),
        ensures
            match result {
                None => !self.surrounds(points@),
                Some(placed) => self.surrounds(points@) && point_views(placed@) == placing.placed(
                    points@,
                ),
            },
    {
        if !self.outline_surrounds_area(points) {
            return None;
        }
        Some(placing.place_all(points))
    }

    /// The operation that erases what a lasso surrounds: the area in it, closed by
    /// its first point; none where it surrounds no area.
    pub fn eraser_lasso_operation<U: Fn(Position) -> CanvasPoint>(
        &self,
        placing: &Placing<U>,
        points: &Vec<Position>,
        depth: i64,
        zoom: u64,
        layer_id: u128,
    ) -> (result: Option<EditOperation>)
        requires
            self.wf(),
            placing.wf(),
        ensures
            match result {
                None => !self.surrounds(points@),
                Some(operation) => {
                    &&& self.surrounds(points@)
                    &&& operation.kind == EditKind::EraseArea
                    &&& operation.layer_id == layer_id
                    &&& point_views(operation.points@) == placing.placed(points@).push(
                        placing.point_at(points@[0]),
                    )
                    &&& operation.color == background()
                    &&& operation.width_px == ZERO_WIDTH
                    &&& operation.native_depth == depth
                    &&& operation.native_zoom == zoom
                    &&& operation.sequence == 0
                    &&& !operation.smooth_area
                    &&& operation.fill_group_id is None
                    &&& operation.paint_order is None
                    &&& operation.affects_before_sequence is None
                    &&& operation.compact_sources@.len() == 0
                    &&& is_random_id(operation.id)
                    &&& is_random_id(operation.transaction_id)
                },
            },
    {
        if !self.outline_surrounds_area(points) {
            return None;
        }
        let mut placed: Vec<CanvasPoint> = placing.place_all(points);
        let ghost open = placed@;
        assert(point_views(open).len() == points@.len());
        assert(point_views(open)[0] == placing.placed(points@)[0]);
        let first: CanvasPoint = placed[0].clone();
        placed.push(first);
        assert(point_views(placed@) =~= point_views(open).push(first@));
        let mut operation: EditOperation = draft(
            EditKind::EraseArea,
            depth,
            zoom,
            placed,
            background_color(),
            ZERO_WIDTH,
        );
        operation.layer_id = layer_id;
        Some(operation)
    }
}

/// An eraser's path: where it went, and its width.
pub struct EraserPath {
    pub points: Vec<Position>,
    pub width: u32,
}

impl EraserPath {
    /// Whether the path covers anything: it has points, and a positive width.
    pub open spec fn is_valid(self) -> bool {
        self.points@.len() > 0 && is_finite(self.width) && less_than(ZERO_WIDTH, self.width)
    }

    /// A path without points covers nothing, nor does one without a width.
    pub proof fn law_only_paths_with_a_width_cover_something(self)
        ensures
            self.points@.len() == 0 ==> !self.is_valid(),
            !is_finite(self.width) ==> !self.is_valid(),
            at_most(self.width, ZERO_WIDTH) ==> !self.is_valid(),
            self.is_valid() || self.points@.len() == 0 || !is_finite(self.width) || at_most(
                self.width,
                ZERO_WIDTH,
            ),
    {
    }
}

/// The shapes of an eraser, as far as arithmetic gives them.
pub struct EraserTip<S, C, D, B, L> {
    /// A path without the points that hardly show.
    pub simplify: S,
    /// The circle around a position.
    pub circle: C,
    /// How far two positions are apart.
    pub length: D,
    /// The circle that covers a short piece of a path.
    pub dot: B,
    /// The outline around a longer piece of a path.
    pub capsule: L,
}

/// `answer` may be what `ask` makes of the positions.
pub open spec fn simplifies<S: Fn(&Vec<Position>) -> Vec<Position>>(
    ask: S,
    positions: Seq<Position>,
    answer: Seq<Position>,
) -> bool {
    exists|list: Vec<Position>, result: Vec<Position>|
        list@ == positions && result@ == answer && #[trigger] call_ensures(ask, (&list,), result)
}

/// `answer` may be the shape around a position.
pub open spec fn rounds<C: Fn(Position, u32) -> Vec<Position>>(
    ask: C,
    center: Position,
    width: u32,
    answer: Seq<Position>,
) -> bool {
    exists|result: Vec<Position>|
        result@ == answer && #[trigger] call_ensures(ask, (center, width), result)
}

/// `answer` may be the shape around a segment.
pub open spec fn wraps<L: Fn(Position, Position, u32) -> Vec<Position>>(
    ask: L,
    start: Position,
    end: Position,
    width: u32,
    answer: Seq<Position>,
) -> bool {
    exists|result: Vec<Position>|
        result@ == answer && #[trigger] call_ensures(ask, (start, end, width), result)
}

impl<
    S: Fn(&Vec<Position>) -> Vec<Position>,
    C: Fn(Position, u32) -> Vec<Position>,
    D: Fn(Position, Position) -> u32,
    B: Fn(Position, Position, u32) -> Vec<Position>,
    L: Fn(Position, Position, u32) -> Vec<Position>,
> EraserTip<S, C, D, B, L> {
    /// Everything can be asked, and the same question has one answer.
    pub open spec fn wf(self) -> bool {
        &&& forall|list: Vec<Position>| #[trigger] call_requires(self.simplify, (&list,))
        &&& forall|center: Position, width: u32| #[trigger]
            call_requires(self.circle, (center, width))
        &&& forall|a: Position, b: Position| #[trigger] call_requires(self.length, (a, b))
        &&& forall|a: Position, b: Position, width: u32| #[trigger]
            call_requires(self.dot, (a, b, width))
        &&& forall|a: Position, b: Position, width: u32| #[trigger]
            call_requires(self.capsule, (a, b, width))
        &&& forall|positions: Seq<Position>, one: Seq<Position>, other: Seq<Position>| #[trigger]
            simplifies(self.simplify, positions, one) && #[trigger] simplifies(
                self.simplify,
                positions,
                other,
            ) ==> one == other
        &&& forall|center: Position, width: u32, one: Seq<Position>, other: Seq<Position>|
            #[trigger] rounds(self.circle, center, width, one) && #[trigger] rounds(
                self.circle,
                center,
                width,
                other,
            ) ==> one == other
        &&& forall|a: Position, b: Position, one: u32, other: u32| #[trigger]
            call_ensures(self.length, (a, b), one) && #[trigger] call_ensures(
                self.length,
                (a, b),
                other,
            ) ==> one == other
        &&& forall|a: Position, b: Position, width: u32, one: Seq<Position>, other: Seq<Position>|
            #[trigger] wraps(self.dot, a, b, width, one) && #[trigger] wraps(
                self.dot,
                a,
                b,
                width,
                other,
            ) ==> one == other
        &&& forall|a: Position, b: Position, width: u32, one: Seq<Position>, other: Seq<Position>|
            #[trigger] wraps(self.capsule, a, b, width, one) && #[trigger] wraps(
                self.capsule,
                a,
                b,
                width,
                other,
            ) ==> one == other
    }

    /// A path without the points that hardly show.
    pub open spec fn simplified(self, positions: Seq<Position>) -> Seq<Position> {
        choose|answer: Seq<Position>| simplifies(self.simplify, positions, answer)
    }

    /// The circle around a position.
    pub open spec fn disc(self, center: Position, width: u32) -> Seq<Position> {
        choose|answer: Seq<Position>| rounds(self.circle, center, width, answer)
    }

    /// How far two positions are apart.
    pub open spec fn distance(self, a: Position, b: Position) -> u32 {
        choose|answer: u32| call_ensures(self.length, (a, b), answer)
    }

    /// The outline around a piece of a path: a circle around a short one.
    pub open spec fn around(self, a: Position, b: Position, width: u32) -> Seq<Position> {
        if at_most(self.distance(a, b), MAX_DOT_LENGTH) {
            choose|answer: Seq<Position>| wraps(self.dot, a, b, width, answer)
        } else {
            choose|answer: Seq<Position>| wraps(self.capsule, a, b, width, answer)
        }
    }

    /// The outlines that cover a simplified path: a circle around a single
    /// point, and else one outline around each piece.
    pub open spec fn cover(self, path: Seq<Position>, width: u32) -> Seq<Seq<Position>> {
        if path.len() == 1 {
            seq![self.disc(path[0], width)]
        } else if path.len() == 0 {
            Seq::empty()
        } else {
            Seq::new(
                (path.len() - 1) as nat,
                |i: int| self.around(path[i], path[i + 1], width),
            )
        }
    }

    /// The outlines that cover the first `count` paths.
    pub open spec fn covers(self, paths: Seq<EraserPath>, count: int) -> Seq<Seq<Position>>
        decreases count,
    {
        if count <= 0 {
            Seq::empty()
        } else {
            self.covers(paths, count - 1) + self.cover(
                self.simplified(paths[count - 1].points@),
                paths[count - 1].width,
            )
        }
    }

    proof fn lemma_earlier_covers_stay(self, paths: Seq<EraserPath>, count: int, later: int)
        requires
            0 <= count <= later,
        ensures
            self.covers(paths, count).len() <= self.covers(paths, later).len(),
            forall|i: int|
                0 <= i < self.covers(paths, count).len() ==> #[trigger] self.covers(
                    paths,
                    later,
                )[i] == self.covers(paths, count)[i],
        decreases later - count,
    {
        if count < later {
            self.lemma_earlier_covers_stay(paths, count, later - 1);
        }
    }

    /// An eraser leaves no piece of its paths uncovered, and covers nothing else:
    /// where a path is simplified to a single point, the next outline after those
    /// of the paths before is the circle around that point; where it is simplified
    /// to more points, the next ones are, in order, one around each piece between
    /// two neighbouring points, a circle around a short piece and a longer shape
    /// around the others. The outlines of the following paths come after these.
    pub proof fn law_every_piece_of_a_path_is_covered(
        self,
        paths: Seq<EraserPath>,
        at: int,
        simple: Seq<Position>,
    )
        requires
            self.wf(),
            0 <= at < paths.len(),
            simplifies(self.simplify, paths[at].points@, simple),
        ensures
            ({
                let all = self.covers(paths, paths.len() as int);
                let first = self.covers(paths, at).len() as int;
                let next = self.covers(paths, at + 1).len() as int;
                let width = paths[at].width;
                &&& self.covers(paths, 0).len() == 0
                &&& next == first + if simple.len() < 2 {
                    simple.len() as int
                } else {
                    simple.len() - 1
                }
                &&& next <= all.len()
                &&& simple.len() == 1 ==> forall|outline: Seq<Position>| #[trigger]
                    rounds(self.circle, simple[0], width, outline) ==> all[first] == outline
                &&& forall|piece: int, length: u32, outline: Seq<Position>|
                    0 <= piece < simple.len() - 1 && #[trigger] call_ensures(
                        self.length,
                        (simple[piece], simple[piece + 1]),
                        length,
                    ) && at_most(length, MAX_DOT_LENGTH) && #[trigger] wraps(
                        self.dot,
                        simple[piece],
                        simple[piece + 1],
                        width,
                        outline,
                    ) ==> all[first + piece] == outline
                &&& forall|piece: int, length: u32, outline: Seq<Position>|
                    0 <= piece < simple.len() - 1 && #[trigger] call_ensures(
                        self.length,
                        (simple[piece], simple[piece + 1]),
                        length,
                    ) && !at_most(length, MAX_DOT_LENGTH) && #[trigger] wraps(
                        self.capsule,
                        simple[piece],
                        simple[piece + 1],
                        width,
                        outline,
                    ) ==> all[first + piece] == outline
            }),
    {
        let all = self.covers(paths, paths.len() as int);
        let first = self.covers(paths, at).len() as int;
        let width = paths[at].width;
        assert(self.simplified(paths[at].points@) == simple);
        let own = self.cover(simple, width);
        assert(self.covers(paths, at + 1) == self.covers(paths, at) + own);
        self.lemma_earlier_covers_stay(paths, at + 1, paths.len() as int);
        assert forall|i: int| 0 <= i < own.len() implies all[first + i] == own[i] by {
            assert(self.covers(paths, at + 1)[first + i] == own[i]);
        }
        if simple.len() == 1 {
            assert forall|outline: Seq<Position>| #[trigger]
                rounds(self.circle, simple[0], width, outline) implies all[first] == outline by {
                assert(all[first + 0] == own[0]);
            }
        }
        assert forall|piece: int, length: u32, outline: Seq<Position>|
            0 <= piece < simple.len() - 1 && #[trigger] call_ensures(
                self.length,
                (simple[piece], simple[piece + 1]),
                length,
            ) && at_most(length, MAX_DOT_LENGTH) && #[trigger] wraps(
                self.dot,
                simple[piece],
                simple[piece + 1],
                width,
                outline,
            ) implies all[first + piece] == outline by {
            assert(self.distance(simple[piece], simple[piece + 1]) == length);
            assert(own[piece] == self.around(simple[piece], simple[piece + 1], width));
        }
        assert forall|piece: int, length: u32, outline: Seq<Position>|
            0 <= piece < simple.len() - 1 && #[trigger] call_ensures(
                self.length,
                (simple[piece], simple[piece + 1]),
                length,
            ) && !at_most(length, MAX_DOT_LENGTH) && #[trigger] wraps(
                self.capsule,
                simple[piece],
                simple[piece + 1],
                width,
                outline,
            ) implies all[first + piece] == outline by {
            assert(self.distance(simple[piece], simple[piece + 1]) == length);
            assert(own[piece] == self.around(simple[piece], simple[piece + 1], width));
        }
    }

    /// The outline around a piece of a path: a circle around a short one.
    pub fn capsule_mask_polygon(&self, start: Position, end: Position, width: u32) -> (polygon: Vec<
        Position,
    >)
        requires
            self.wf(),
        ensures
            polygon@ == self.around(start, end, width),
    {
        if number_at_most((self.length)(start, end), MAX_DOT_LENGTH) {
            let polygon: Vec<Position> = (self.dot)(start, end, width);
            assert(wraps(self.dot, start, end, width, polygon@));
            polygon
        } else {
            let polygon: Vec<Position> = (self.capsule)(start, end, width);
            assert(wraps(self.capsule, start, end, width, polygon@));
            polygon
        }
    }

    fn push_masks<U: Fn(Position) -> CanvasPoint>(
        &self,
        path: &EraserPath,
        placing: &Placing<U>,
        masks: &mut Vec<Vec<CanvasPoint>>,
    )
        requires
            self.wf(),
            placing.wf(),
        ensures
            outlines(final(masks)@) == outlines(old(masks)@) + self.cover(
                self.simplified(path.points@),
                path.width,
            ).map_values(|polygon: Seq<Position>| placing.placed(polygon)),
    {
        let ghost before = masks@;
        let simple: Vec<Position> = (self.simplify)(&path.points);
        assert(simplifies(self.simplify, path.points@, simple@));
        let ghost shapes = self.cover(simple@, path.width);
        let ghost added = shapes.map_values(|polygon: Seq<Position>| placing.placed(polygon));
        let count: usize = simple.len();
        if count == 1 {
            let polygon: Vec<Position> = (self.circle)(simple[0], path.width);
            assert(rounds(self.circle, simple@[0], path.width, polygon@));
            masks.push(placing.place_all(&polygon));
            assert(outlines(masks@) =~= outlines(before) + added);
            return;
        }
        if count == 0 {
            assert(outlines(masks@) =~= outlines(before) + added);
            return;
        }
        let mut i: usize = 1;
        while i < count
            invariant
                self.wf(),
                placing.wf(),
                1 <= i <= count,
                count == simple@.len(),
                count > 1,
                shapes == self.cover(simple@, path.width),
                added == shapes.map_values(|polygon: Seq<Position>| placing.placed(polygon)),
                outlines(masks@) == outlines(before) + added.take(i - 1),
            decreases count - i,
        {
            let polygon: Vec<Position> = self.capsule_mask_polygon(
                simple[i - 1],
                simple[i],
                path.width,
            );
            assert(shapes[i - 1] == polygon@);
            let ghost earlier = masks@;
            let mask: Vec<CanvasPoint> = placing.place_all(&polygon);
            assert(added[i - 1] == point_views(mask@));
            masks.push(mask);
            assert(outlines(masks@) =~= outlines(earlier).push(point_views(mask@)));
            assert(added.take(i as int) =~= added.take(i - 1).push(added[i - 1]));
            i = i + 1;
            assert(outlines(masks@) =~= outlines(before) + added.take(i - 1));
        }
        assert(added.take(count - 1) =~= added);
    }

    /// What an eraser covers on its paths, as outlines on the canvas; an error
    /// where a path covers nothing.
    pub fn eraser_path_fill_masks<U: Fn(Position) -> CanvasPoint>(
        &self,
        paths: &Vec<EraserPath>,
        placing: &Placing<U>,
    ) -> (result: Result<Vec<Vec<CanvasPoint>>, &'static str>)
        requires
            self.wf(),
            placing.wf(),
        ensures
            match result {
                Ok(masks) => {
                    &&& forall|i: int| 0 <= i < paths@.len() ==> (#[trigger] paths@[i]).is_valid()
                    &&& outlines(masks@) == self.covers(paths@, paths@.len() as int).map_values(
                        |polygon: Seq<Position>| placing.placed(polygon),
                    )
                },
                Err(error) => {
                    &&& exists|i: int| 0 <= i < paths@.len() && !(#[trigger] paths@[i]).is_valid()
                    &&& error@ == "eraser path produced invalid Fill mask geometry"@
                },
            },
    {
        let mut masks: Vec<Vec<CanvasPoint>> = Vec::new();
        let ghost placed = |polygon: Seq<Position>| placing.placed(polygon);
        assert(outlines(masks@) =~= self.covers(paths@, 0).map_values(placed));
        let mut i: usize = 0;
        while i < paths.len()
            invariant
                self.wf(),
                placing.wf(),
                i <= paths@.len(),
                placed == (|polygon: Seq<Position>| placing.placed(polygon)),
                forall|k: int| 0 <= k < i ==> (#[trigger] paths@[k]).is_valid(),
                outlines(masks@) == self.covers(paths@, i as int).map_values(placed),
            decreases paths@.len() - i,
        {
            let path: &EraserPath = &paths[i];
            if path.points.len() == 0 || !is_finite_pattern(path.width) || !number_less_than(
                ZERO_WIDTH,
                path.width,
            ) {
                assert(!paths@[i as int].is_valid());
                return Err("eraser path produced invalid Fill mask geometry");
            }
            let ghost earlier = self.covers(paths@, i as int);
            let ghost added = self.cover(self.simplified(path.points@), path.width);
            self.push_masks(path, placing, &mut masks);
            i = i + 1;
            assert((earlier + added).map_values(placed) =~= earlier.map_values(placed)
                + added.map_values(placed));
        }
        Ok(masks)
    }
}

/// Why it is not known how far something reaches on the screen.
#[derive(Debug, Clone, Copy, PartialEq, Eq, Structural)]
pub enum BoundsError {
    /// A point is too far away to be projected.
    NotRepresentable,
    /// A point is projected to no finite position.
    NotFinite,
}

impl BoundsError {
    /// What is told of the error.
    pub open spec fn text(self) -> Seq<char> {
        match self {
            BoundsError::NotRepresentable => "eraser source bounds are not representable"@,
            BoundsError::NotFinite => "eraser source bounds are not finite"@,
        }
    }

    /// What is told of the error.
    pub fn message(self) -> (message: &'static str)
        ensures
            message@ == self.text(),
    {
        match self {
            BoundsError::NotRepresentable => "eraser source bounds are not representable",
            BoundsError::NotFinite => "eraser source bounds are not finite",
        }
    }
}

/// How far things reach on the screen, as far as arithmetic tells.
pub struct Reach<P, W> {
    /// Where a point is on the screen; none where that is not representable.
    pub project: P,
    /// A rectangle with half of the width of a stroke around it.
    pub widen: W,
}

impl<
    P: Fn(&CanvasPoint) -> Option<Position>,
    W: Fn(ScreenRect, &EditOperation) -> ScreenRect,
> Reach<P, W> {
    /// `answer` may be where `point` is on the screen.
    pub open spec fn projects(self, point: PointView, answer: Option<Position>) -> bool {
        exists|at: CanvasPoint|
            at@ == point && #[trigger] call_ensures(self.project, (&at,), answer)
    }

    /// Everything can be asked, and a point is in one place.
    pub open spec fn wf(self) -> bool {
        &&& forall|at: CanvasPoint| #[trigger] call_requires(self.project, (&at,))
        &&& forall|rect: ScreenRect, operation: EditOperation| #[trigger]
            call_requires(self.widen, (rect, &operation))
        &&& forall|point: PointView, one: Option<Position>, other: Option<Position>| #[trigger]
            self.projects(point, one) && #[trigger] self.projects(point, other) ==> one == other
    }

    /// Where a point is on the screen.
    pub open spec fn shown(self, point: PointView) -> Option<Position> {
        choose|answer: Option<Position>| self.projects(point, answer)
    }

    /// Whether a point is at a finite position of the screen.
    pub open spec fn is_shown(self, point: PointView) -> bool {
        self.shown(point) is Some && is_somewhere(self.shown(point).unwrap())
    }

    /// The positions of points.
    pub open spec fn positions(self, points: Seq<PointView>) -> Seq<Position> {
        points.map_values(|point: PointView| self.shown(point).unwrap())
    }

    /// How far points reach: none where there are none, and an error where one
    /// of them is nowhere on the screen; the first such one decides.
    pub open spec fn extent(self, points: Seq<PointView>) -> Result<
        Option<ScreenRect>,
        BoundsError,
    > {
        if forall|i: int| 0 <= i < points.len() ==> self.is_shown(#[trigger] points[i]) {
            Ok(bounds_of(self.positions(points)))
        } else {
            let first = choose|i: int|
                {
                    &&& 0 <= i < points.len()
                    &&& !self.is_shown(#[trigger] points[i])
                    &&& forall|k: int| 0 <= k < i ==> self.is_shown(#[trigger] points[k])
                };
            if self.shown(points[first]) is None {
                Err(BoundsError::NotRepresentable)
            } else {
                Err(BoundsError::NotFinite)
            }
        }
    }

    /// How far points reach on the screen.
    pub fn canvas_points_screen_bounds(&self, points: &Vec<CanvasPoint>) -> (result: Result<
        Option<ScreenRect>,
        BoundsError,
    >)
        requires
            self.wf(),
        ensures
            result == self.extent(point_views(points@)),
    {
        let ghost views = point_views(points@);
        let mut projected: Vec<Position> = Vec::new();
        let mut i: usize = 0;
        while i < points.len()
            invariant
                self.wf(),
                views == point_views(points@),
                views.len() == points@.len(),
                i <= points@.len(),
                projected@.len() == i,
                forall|k: int| 0 <= k < i ==> self.is_shown(#[trigger] views[k]),
                forall|k: int|
                    0 <= k < i ==> #[trigger] projected@[k] == self.shown(views[k]).unwrap(),
            decreases points@.len() - i,
        {
            let answer: Option<Position> = (self.project)(&points[i]);
            assert(self.projects(views[i as int], answer));
            match answer {
                Some(position) if position_is_finite(position) => {
                    projected.push(position);
                },
                _ => {
                    assert(!self.is_shown(views[i as int]));
                    proof {
                        let first = choose|j: int|
                            {
                                &&& 0 <= j < views.len()
                                &&& !self.is_shown(#[trigger] views[j])
                                &&& forall|k: int| 0 <= k < j ==> self.is_shown(#[trigger] views[k])
                            };
                        assert(first == i);
                    }
                    return if answer.is_none() {
                        Err(BoundsError::NotRepresentable)
                    } else {
                        Err(BoundsError::NotFinite)
                    };
                },
            }
            i = i + 1;
        }
        assert(projected@ =~= self.positions(views));
        Ok(pos2_bounds(&projected))
    }

    /// How far the first `count` outlines reach together, those without a point
    /// left out; an error where one of them has one.
    pub open spec fn total(self, masks: Seq<Seq<PointView>>, count: int) -> Result<
        Option<ScreenRect>,
        BoundsError,
    >
        decreases count,
    {
        if count <= 0 {
            Ok(None)
        } else {
            match (self.total(masks, count - 1), self.extent(masks[count - 1])) {
                (Err(error), _) => Err(error),
                (_, Err(error)) => Err(error),
                (Ok(before), Ok(None)) => Ok(before),
                (Ok(None), Ok(Some(bounds))) => Ok(Some(bounds)),
                (Ok(Some(before)), Ok(Some(bounds))) => Ok(Some(before.joined(bounds))),
            }
        }
    }

    proof fn lemma_errors_stay(self, masks: Seq<Seq<PointView>>, count: int, later: int)
        requires
            0 <= count <= later,
            self.total(masks, count) is Err,
        ensures
            self.total(masks, later) == self.total(masks, count),
        decreases later - count,
    {
        if count < later {
            self.lemma_errors_stay(masks, count, later - 1);
        }
    }

    proof fn lemma_extent_holds(self, points: Seq<PointView>)
        requires
            forall|i: int| 0 <= i < points.len() ==> self.is_shown(#[trigger] points[i]),
        ensures
            match self.extent(points) {
                Err(_) => false,
                Ok(None) => points.len() == 0,
                Ok(Some(bounds)) => points.len() > 0 && forall|i: int|
                    0 <= i < points.len() ==> bounds.covers(
                        self.shown(#[trigger] points[i]).unwrap(),
                    ),
            },
    {
        let positions = self.positions(points);
        assert forall|i: int| 0 <= i < positions.len() implies is_somewhere(
            #[trigger] positions[i],
        ) by {
            assert(self.is_shown(points[i]));
        }
        if points.len() > 0 {
            law_bounds_hold_the_points(positions);
            assert forall|i: int| 0 <= i < points.len() implies self.extent(
                points,
            )->Ok_0.unwrap().covers(self.shown(#[trigger] points[i]).unwrap()) by {
                assert(positions[i] == self.shown(points[i]).unwrap());
            }
        }
    }

    proof fn lemma_total_holds(self, masks: Seq<Seq<PointView>>, count: int)
        requires
            0 <= count <= masks.len(),
            forall|at: int, i: int|
                0 <= at < masks.len() && 0 <= i < masks[at].len() ==> self.is_shown(
                    #[trigger] masks[at][i],
                ),
        ensures
            match self.total(masks, count) {
                Err(_) => false,
                Ok(None) => forall|at: int|
                    0 <= at < count ==> (#[trigger] masks[at]).len() == 0,
                Ok(Some(bounds)) => forall|at: int, i: int|
                    0 <= at < count && 0 <= i < masks[at].len() ==> bounds.covers(
                        self.shown(#[trigger] masks[at][i]).unwrap(),
                    ),
            },
        decreases count,
    {
        if count > 0 {
            self.lemma_total_holds(masks, count - 1);
            let last = masks[count - 1];
            assert forall|i: int| 0 <= i < last.len() implies self.is_shown(
                #[trigger] last[i],
            ) by {
                assert(self.is_shown(masks[count - 1][i]));
            }
            self.lemma_extent_holds(last);
            if let Ok(Some(bounds)) = self.total(masks, count) {
                assert forall|at: int, i: int|
                    0 <= at < count && 0 <= i < masks[at].len() implies bounds.covers(
                    self.shown(#[trigger] masks[at][i]).unwrap(),
                ) by {
                    if at == count - 1 {
                        assert(self.extent(last)->Ok_0.unwrap().covers(
                            self.shown(last[i]).unwrap(),
                        ));
                    }
                }
            }
        }
    }

    /// The bounds of what an eraser covers hold every point of every outline, and
    /// there are none only where there are no points.
    pub proof fn law_mask_bounds_hold_every_point(self, masks: Seq<Seq<PointView>>)
        requires
            self.wf(),
            forall|at: int, i: int|
                0 <= at < masks.len() && 0 <= i < masks[at].len() ==> self.is_shown(
                    #[trigger] masks[at][i],
                ),
        ensures
            match self.total(masks, masks.len() as int) {
                Err(_) => false,
                Ok(None) => forall|at: int|
                    0 <= at < masks.len() ==> (#[trigger] masks[at]).len() == 0,
                Ok(Some(bounds)) => forall|at: int, i: int, position: Position|
                    0 <= at < masks.len() && 0 <= i < masks[at].len() && #[trigger] self.projects(
                        masks[at][i],
                        Some(position),
                    ) ==> bounds.covers(position),
            },
    {
        self.lemma_total_holds(masks, masks.len() as int);
        if let Ok(Some(bounds)) = self.total(masks, masks.len() as int) {
            assert forall|at: int, i: int, position: Position|
                0 <= at < masks.len() && 0 <= i < masks[at].len() && #[trigger] self.projects(
                    masks[at][i],
                    Some(position),
                ) implies bounds.covers(position) by {
                assert(self.shown(masks[at][i]) == Some(position));
            }
        }
    }

    /// A point that is nowhere on the screen makes the bounds an error, whatever
    /// the other points are.
    pub proof fn law_hidden_points_have_no_bounds(
        self,
        masks: Seq<Seq<PointView>>,
        at: int,
        i: int,
    )
        requires
            self.wf(),
            0 <= at < masks.len(),
            0 <= i < masks[at].len(),
            self.projects(masks[at][i], None),
        ensures
            self.extent(masks[at]) is Err,
            self.total(masks, masks.len() as int) is Err,
    {
        assert(self.shown(masks[at][i]) is None);
        assert(!self.is_shown(masks[at][i]));
        assert(self.total(masks, at + 1) is Err);
        self.lemma_errors_stay(masks, at + 1, masks.len() as int);
    }

    /// How far the outlines that an eraser covers reach together; none where
    /// they have no points.
    pub fn mask_bounds(&self, masks: &Vec<Vec<CanvasPoint>>) -> (result: Result<
        Option<ScreenRect>,
        BoundsError,
    >)
        requires
            self.wf(),
        ensures
            result == self.total(outlines(masks@), masks@.len() as int),
    {
        let ghost views = outlines(masks@);
        let mut bounds: Option<ScreenRect> = None;
        let mut i: usize = 0;
        while i < masks.len()
            invariant
                self.wf(),
                views == outlines(masks@),
                i <= masks@.len(),
                Ok::<Option<ScreenRect>, BoundsError>(bounds) == self.total(views, i as int),
            decreases masks@.len() - i,
        {
            assert(views[i as int] == point_views(masks@[i as int]@));
            match self.canvas_points_screen_bounds(&masks[i]) {
                Err(error) => {
                    assert(self.total(views, i + 1) == Err::<Option<ScreenRect>, BoundsError>(
                        error,
                    ));
                    proof {
                        self.lemma_errors_stay(views, i + 1, masks@.len() as int);
                    }
                    return Err(error);
                },
                Ok(None) => {},
                Ok(Some(mask)) => {
                    bounds = match bounds {
                        None => Some(mask),
                        Some(before) => Some(before.union(&mask)),
                    };
                },
            }
            i = i + 1;
        }
        Ok(bounds)
    }

    /// `touches` may be whether an operation of paint or fill lies where an
    /// eraser went.
    pub open spec fn may_touch(
        self,
        source: EditOperation,
        eraser: ScreenRect,
        touches: Result<bool, BoundsError>,
    ) -> bool {
        match self.extent(point_views(source.points@)) {
            Err(error) => touches == Err::<bool, BoundsError>(error),
            Ok(None) => touches == Ok::<bool, BoundsError>(false),
            Ok(Some(bounds)) => if source.kind == EditKind::Paint {
                exists|wide: ScreenRect| #[trigger]
                    call_ensures(self.widen, (bounds, &source), wide) && touches == Ok::<
                        bool,
                        BoundsError,
                    >(wide.meets(eraser))
            } else {
                touches == Ok::<bool, BoundsError>(bounds.meets(eraser))
            },
        }
    }

    /// Where a single point of an outline has no finite position, the error tells
    /// whether it has no position at all, or one that is not finite.
    pub proof fn law_errors_tell_what_is_missing(self, points: Seq<PointView>, i: int)
        requires
            0 <= i < points.len(),
            !self.is_shown(points[i]),
            forall|k: int| 0 <= k < points.len() && k != i ==> self.is_shown(#[trigger] points[k]),
        ensures
            self.shown(points[i]) is None ==> self.extent(points) == Err::<
                Option<ScreenRect>,
                BoundsError,
            >(BoundsError::NotRepresentable),
            self.shown(points[i]) is Some ==> self.extent(points) == Err::<
                Option<ScreenRect>,
                BoundsError,
            >(BoundsError::NotFinite),
    {
        assert(!self.is_shown(points[i]) && forall|k: int|
            0 <= k < i ==> self.is_shown(#[trigger] points[k]));
        let first = choose|first: int|
            {
                &&& 0 <= first < points.len()
                &&& !self.is_shown(#[trigger] points[first])
                &&& forall|k: int| 0 <= k < first ==> self.is_shown(#[trigger] points[k])
            };
        assert(first == i);
    }

    /// What has a point where the eraser went is touched: whatever is filled, and
    /// what is painted where its width takes nothing away from where it is.
    pub proof fn law_what_lies_under_the_eraser_is_touched(
        self,
        source: EditOperation,
        eraser: ScreenRect,
        touches: Result<bool, BoundsError>,
        i: int,
        position: Position,
    )
        requires
            self.wf(),
            self.may_touch(source, eraser, touches),
            forall|k: int|
                0 <= k < source.points@.len() ==> self.is_shown(
                    #[trigger] point_views(source.points@)[k],
                ),
            0 <= i < source.points@.len(),
            self.projects(source.points@[i]@, Some(position)),
            eraser.covers(position),
            source.kind == EditKind::Paint ==> forall|rect: ScreenRect, wide: ScreenRect|
                #[trigger] call_ensures(self.widen, (rect, &source), wide) && rect.covers(position)
                    ==> wide.covers(position),
        ensures
            touches == Ok::<bool, BoundsError>(true),
    {
        let points = point_views(source.points@);
        let positions = self.positions(points);
        assert(points[i] == source.points@[i]@);
        assert(self.shown(points[i]) == Some(position));
        assert forall|k: int| 0 <= k < positions.len() implies is_somewhere(
            #[trigger] positions[k],
        ) by {
            assert(self.is_shown(points[k]));
        }
        law_bounds_hold_the_points(positions);
        assert(positions[i] == position);
        let bounds = bounds_of(positions).unwrap();
        assert(self.extent(points) == Ok::<Option<ScreenRect>, BoundsError>(Some(bounds)));
        law_rectangles_with_a_common_position_meet(bounds, eraser, position);
        if source.kind == EditKind::Paint {
            let wide = choose|wide: ScreenRect| #[trigger]
                call_ensures(self.widen, (bounds, &source), wide) && touches == Ok::<
                    bool,
                    BoundsError,
                >(wide.meets(eraser));
            law_rectangles_with_a_common_position_meet(wide, eraser, position);
        }
    }

    /// Whether an operation of paint or fill lies where an eraser went: its
    /// points do, and for a stroke half of its width around them.
    pub fn eraser_touches(&self, source: &EditOperation, eraser: &ScreenRect) -> (touches: Result<
        bool,
        BoundsError,
    >)
        requires
            self.wf(),
        ensures
            self.may_touch(*source, *eraser, touches),
    {
        match self.canvas_points_screen_bounds(&source.points) {
            Err(error) => Err(error),
            Ok(None) => Ok(false),
            Ok(Some(bounds)) => {
                if source.kind == EditKind::Paint {
                    let wide: ScreenRect = (self.widen)(bounds, source);
                    Ok(wide.intersects(eraser))
                } else {
                    Ok(bounds.intersects(eraser))
                }
            },
        }
    }
}

} // verus!
