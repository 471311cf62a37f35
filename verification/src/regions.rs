//! Outlines drawn on the screen, and how far they reach.

use crate::plane::{edges, is_somewhere, polygon_edges_pos, position_is_finite};
use crate::screen::{
    greatest_position, least_position, max_position, min_position, Position, ScreenRect,
};
use vstd::prelude::*;

verus! {

/// The bit pattern of positive infinity.
pub const POSITIVE_INFINITY: u32 = 0x7f80_0000;

/// The bit pattern of negative infinity.
pub const NEGATIVE_INFINITY: u32 = 0xff80_0000;

/// How far the first `count` points reach.
pub open spec fn reach_of(points: Seq<Position>, count: int) -> ScreenRect
    decreases count,
{
    if count <= 1 {
        ScreenRect { min: points[0], max: points[0] }
    } else {
        let before = reach_of(points, count - 1);
        ScreenRect {
            min: least_position(before.min, points[count - 1]),
            max: greatest_position(before.max, points[count - 1]),
        }
    }
}

/// How far points reach; none where there are none, or one after the first is
/// not finite.
pub open spec fn bounds_of(points: Seq<Position>) -> Option<ScreenRect> {
    if points.len() > 0 && forall|i: int|
        0 < i < points.len() ==> is_somewhere(#[trigger] points[i]) {
        Some(reach_of(points, points.len() as int))
    } else {
        None
    }
}

/// How far points reach; none where there are none, or one after the first is
/// not finite.
pub fn pos2_bounds(points: &Vec<Position>) -> (bounds: Option<ScreenRect>)
    ensures
        bounds == bounds_of(points@),
{
    if points.len() == 0 {
        return None;
    }
    let mut bounds = ScreenRect { min: points[0], max: points[0] };
    let mut i: usize = 1;
    while i < points.len()
        invariant
            1 <= i <= points@.len(),
            bounds == reach_of(points@, i as int),
            forall|k: int| 0 < k < i ==> is_somewhere(#[trigger] points@[k]),
        decreases points@.len() - i,
    {
        let point: Position = points[i];
        if !position_is_finite(point) {
            assert(!is_somewhere(points@[i as int]));
            return None;
        }
        bounds = ScreenRect {
            min: min_position(bounds.min, point),
            max: max_position(bounds.max, point),
        };
        i = i + 1;
    }
    Some(bounds)
}

proof fn lemma_reach_covers(points: Seq<Position>, count: int, i: int)
    requires
        0 <= i < count <= points.len(),
        forall|k: int| 0 <= k < points.len() ==> is_somewhere(#[trigger] points[k]),
    ensures
        reach_of(points, count).covers(points[i]),
        is_somewhere(reach_of(points, count).min),
        is_somewhere(reach_of(points, count).max),
    decreases count,
{
    if count > 1 {
        assert(is_somewhere(points[count - 1]));
        if i < count - 1 {
            lemma_reach_covers(points, count - 1, i);
        } else {
            lemma_reach_covers(points, count - 1, 0);
        }
        assert(is_somewhere(points[i]));
    } else {
        assert(is_somewhere(points[0]));
    }
}

/// Finite points have bounds, and all of them lie in these.
pub proof fn law_bounds_hold_the_points(points: Seq<Position>)
    requires
        points.len() > 0,
        forall|k: int| 0 <= k < points.len() ==> is_somewhere(#[trigger] points[k]),
    ensures
        bounds_of(points) is Some,
        forall|i: int|
            0 <= i < points.len() ==> bounds_of(points).unwrap().covers(#[trigger] points[i]),
{
    assert forall|i: int| 0 <= i < points.len() implies bounds_of(points).unwrap().covers(
        #[trigger] points[i],
    ) by {
        lemma_reach_covers(points, points.len() as int, i);
    }
}

proof fn lemma_reach_is_tight(points: Seq<Position>, count: int)
    requires
        0 < count <= points.len(),
    ensures
        exists|i: int| 0 <= i < count && reach_of(points, count).min.x == (#[trigger] points[i]).x,
        exists|i: int| 0 <= i < count && reach_of(points, count).min.y == (#[trigger] points[i]).y,
        exists|i: int| 0 <= i < count && reach_of(points, count).max.x == (#[trigger] points[i]).x,
        exists|i: int| 0 <= i < count && reach_of(points, count).max.y == (#[trigger] points[i]).y,
    decreases count,
{
    let reach = reach_of(points, count);
    let last = points[count - 1];
    if count > 1 {
        lemma_reach_is_tight(points, count - 1);
        let before = reach_of(points, count - 1);
        assert(reach.min.x == before.min.x || reach.min.x == last.x);
        assert(reach.min.y == before.min.y || reach.min.y == last.y);
        assert(reach.max.x == before.max.x || reach.max.x == last.x);
        assert(reach.max.y == before.max.y || reach.max.y == last.y);
    }
    assert(0 <= count - 1 < count && last == points[count - 1]);
}

/// Bounds reach no further than the points: each of the four sides goes through
/// one of them.
pub proof fn law_bounds_touch_the_points(points: Seq<Position>)
    requires
        bounds_of(points) is Some,
    ensures
        exists|i: int|
            0 <= i < points.len() && bounds_of(points).unwrap().min.x == (#[trigger] points[i]).x,
        exists|i: int|
            0 <= i < points.len() && bounds_of(points).unwrap().min.y == (#[trigger] points[i]).y,
        exists|i: int|
            0 <= i < points.len() && bounds_of(points).unwrap().max.x == (#[trigger] points[i]).x,
        exists|i: int|
            0 <= i < points.len() && bounds_of(points).unwrap().max.y == (#[trigger] points[i]).y,
{
    lemma_reach_is_tight(points, points.len() as int);
}

/// How far the first `count` positions reach, starting from nowhere.
pub open spec fn reach_from_nowhere(positions: Seq<Position>, count: int) -> ScreenRect
    decreases count,
{
    if count <= 0 {
        ScreenRect {
            min: Position { x: POSITIVE_INFINITY, y: POSITIVE_INFINITY },
            max: Position { x: NEGATIVE_INFINITY, y: NEGATIVE_INFINITY },
        }
    } else {
        let before = reach_from_nowhere(positions, count - 1);
        ScreenRect {
            min: least_position(before.min, positions[count - 1]),
            max: greatest_position(before.max, positions[count - 1]),
        }
    }
}

/// Starting from nowhere, what is reached holds every finite position, and each
/// of its four sides goes through one of them.
pub proof fn law_what_is_reached_from_nowhere_holds_the_positions(
    positions: Seq<Position>,
    count: int,
)
    requires
        0 < count <= positions.len(),
        forall|i: int| 0 <= i < positions.len() ==> is_somewhere(#[trigger] positions[i]),
    ensures
        ({
            let reach = reach_from_nowhere(positions, count);
            &&& forall|i: int| 0 <= i < count ==> reach.covers(#[trigger] positions[i])
            &&& exists|i: int| 0 <= i < count && reach.min.x == (#[trigger] positions[i]).x
            &&& exists|i: int| 0 <= i < count && reach.min.y == (#[trigger] positions[i]).y
            &&& exists|i: int| 0 <= i < count && reach.max.x == (#[trigger] positions[i]).x
            &&& exists|i: int| 0 <= i < count && reach.max.y == (#[trigger] positions[i]).y
        }),
    decreases count,
{
    let reach = reach_from_nowhere(positions, count);
    let before = reach_from_nowhere(positions, count - 1);
    let last = positions[count - 1];
    assert(is_somewhere(last));
    if count > 1 {
        law_what_is_reached_from_nowhere_holds_the_positions(positions, count - 1);
        assert(before.covers(positions[0]));
        assert(reach.min.x == before.min.x || reach.min.x == last.x);
        assert(reach.min.y == before.min.y || reach.min.y == last.y);
        assert(reach.max.x == before.max.x || reach.max.x == last.x);
        assert(reach.max.y == before.max.y || reach.max.y == last.y);
        assert forall|i: int| 0 <= i < count implies reach.covers(#[trigger] positions[i]) by {
            assert(is_somewhere(positions[i]));
            if i < count - 1 {
                assert(before.covers(positions[i]));
            }
        }
    } else {
        assert(reach.min == last && reach.max == last);
    }
    assert(0 <= count - 1 < count && last == positions[count - 1]);
}

/// `moved` may be where `transform` moves the positions.
pub open spec fn are_moved<T: Fn(Position) -> Position>(
    positions: Seq<Position>,
    transform: T,
    moved: Seq<Position>,
) -> bool {
    &&& moved.len() == positions.len()
    &&& forall|i: int|
        0 <= i < moved.len() ==> call_ensures(transform, (positions[i],), #[trigger] moved[i])
}

/// How far the corners of a rectangle reach once they are moved.
pub fn transformed_rect_bounds<T: Fn(Position) -> Position>(
    rect: &ScreenRect,
    transform: &T,
) -> (bounds: ScreenRect)
    requires
        forall|position: Position| #[trigger] call_requires(*transform, (position,)),
    ensures
        exists|moved: Seq<Position>| #[trigger]
            are_moved(rect.corner_list(), *transform, moved) && bounds == reach_from_nowhere(
                moved,
                4,
            ),
{
    let corners: Vec<Position> = rect.corners();
    let mut bounds = ScreenRect {
        min: Position { x: POSITIVE_INFINITY, y: POSITIVE_INFINITY },
        max: Position { x: NEGATIVE_INFINITY, y: NEGATIVE_INFINITY },
    };
    let ghost mut moved = Seq::<Position>::empty();
    let mut i: usize = 0;
    while i < 4
        invariant
            forall|position: Position| #[trigger] call_requires(*transform, (position,)),
            i <= 4,
            corners@.len() == 4,
            moved.len() == i,
            forall|k: int|
                0 <= k < i ==> call_ensures(*transform, (corners@[k],), #[trigger] moved[k]),
            bounds == reach_from_nowhere(moved, i as int),
        decreases 4 - i,
    {
        let position: Position = transform(corners[i]);
        bounds = ScreenRect {
            min: min_position(bounds.min, position),
            max: max_position(bounds.max, position),
        };
        proof {
            lemma_reach_is_of_the_first(moved, moved.push(position), i as int);
            moved = moved.push(position);
        }
        i = i + 1;
    }
    assert(are_moved(rect.corner_list(), *transform, moved));
    bounds
}

proof fn lemma_reach_is_of_the_first(left: Seq<Position>, right: Seq<Position>, count: int)
    requires
        forall|k: int| 0 <= k < count ==> left[k] == right[k],
    ensures
        reach_from_nowhere(left, count) == reach_from_nowhere(right, count),
    decreases count,
{
    if count > 0 {
        lemma_reach_is_of_the_first(left, right, count - 1);
    }
}

/// Whether a point lies in a polygon, as far as arithmetic tells.
pub struct Borders<N, C> {
    /// Whether a point lies next to a segment.
    pub near: N,
    /// Whether a ray from a point crosses the segment between two others.
    pub crosses: C,
}

impl<
    N: Fn(Position, Position, Position) -> bool,
    C: Fn(Position, Position, Position) -> bool,
> Borders<N, C> {
    /// Everything can be asked, and the same question has one answer.
    pub open spec fn wf(self) -> bool {
        &&& forall|point: Position, start: Position, end: Position| #[trigger]
            call_requires(self.near, (point, start, end))
        &&& forall|point: Position, start: Position, end: Position| #[trigger]
            call_requires(self.crosses, (point, start, end))
        &&& forall|point: Position, start: Position, end: Position, one: bool, other: bool|
            #[trigger] call_ensures(self.near, (point, start, end), one) && #[trigger] call_ensures(
                self.near,
                (point, start, end),
                other,
            ) ==> one == other
        &&& forall|point: Position, start: Position, end: Position, one: bool, other: bool|
            #[trigger] call_ensures(self.crosses, (point, start, end), one)
                && #[trigger] call_ensures(self.crosses, (point, start, end), other) ==> one
                == other
    }

    /// Whether a point lies next to one of the edges.
    pub open spec fn on_border(self, point: Position, polygon: Seq<Position>) -> bool {
        exists|i: int|
            0 <= i < edges(polygon).len() && call_ensures(
                self.near,
                (point, (#[trigger] edges(polygon)[i]).0, edges(polygon)[i].1),
                true,
            )
    }

    /// Whether a ray from a point crosses an odd number of the first `count`
    /// segments, each of which ends at a corner and starts at the one before.
    pub open spec fn is_odd(self, point: Position, polygon: Seq<Position>, count: int) -> bool
        decreases count,
    {
        if count <= 0 {
            false
        } else {
            let before = if count == 1 {
                polygon.last()
            } else {
                polygon[count - 2]
            };
            self.is_odd(point, polygon, count - 1) != call_ensures(
                self.crosses,
                (point, polygon[count - 1], before),
                true,
            )
        }
    }

    /// Whether a point lies in a polygon, or on its border.
    pub open spec fn holds(self, point: Position, polygon: Seq<Position>) -> bool {
        polygon.len() >= 3 && (self.on_border(point, polygon) || self.is_odd(
            point,
            polygon,
            polygon.len() as int,
        ))
    }

    /// The sides of a polygon that a ray from a point crosses, by the corner at
    /// which they end.
    pub open spec fn crossed_sides(
        self,
        point: Position,
        polygon: Seq<Position>,
        count: int,
    ) -> Seq<int> {
        Seq::new(count as nat, |i: int| i).filter(
            |i: int|
                call_ensures(
                    self.crosses,
                    (point, polygon[i], polygon[(i + polygon.len() - 1) % polygon.len() as int]),
                    true,
                ),
        )
    }

    proof fn lemma_crossings_are_counted(
        self,
        point: Position,
        polygon: Seq<Position>,
        count: int,
    )
        requires
            0 <= count <= polygon.len(),
        ensures
            self.is_odd(point, polygon, count) == (self.crossed_sides(point, polygon, count).len()
                % 2 == 1),
        decreases count,
    {
        reveal(Seq::filter);
        if count > 0 {
            let size = polygon.len() as int;
            self.lemma_crossings_are_counted(point, polygon, count - 1);
            let all = Seq::new(count as nat, |i: int| i);
            assert(all.drop_last() =~= Seq::new((count - 1) as nat, |i: int| i));
            assert(all.last() == count - 1);
            if count == 1 {
                assert((0 + size - 1) % size == size - 1) by (nonlinear_arith)
                    requires
                        size > 0,
                ;
            } else {
                assert((count - 1 + size - 1) % size == count - 2) by (nonlinear_arith)
                    requires
                        2 <= count <= size,
                ;
            }
        }
    }

    /// A point of which a ray crosses an odd number of all sides of a polygon lies
    /// in it, as does one next to a side; others do not, and nothing lies in a
    /// polygon of fewer than three corners.
    pub proof fn law_polygons_hold_what_their_sides_enclose(
        self,
        point: Position,
        polygon: Seq<Position>,
    )
        ensures
            polygon.len() < 3 ==> !self.holds(point, polygon),
            polygon.len() >= 3 ==> (self.holds(point, polygon) <==> self.crossed_sides(
                point,
                polygon,
                polygon.len() as int,
            ).len() % 2 == 1 || exists|i: int|
                0 <= i < polygon.len() && call_ensures(
                    self.near,
                    (point, #[trigger] polygon[i], polygon[(i + 1) % polygon.len() as int]),
                    true,
                )),
    {
        if polygon.len() >= 3 {
            self.lemma_crossings_are_counted(point, polygon, polygon.len() as int);
            if self.on_border(point, polygon) {
                let i = choose|i: int|
                    0 <= i < edges(polygon).len() && call_ensures(
                        self.near,
                        (point, (#[trigger] edges(polygon)[i]).0, edges(polygon)[i].1),
                        true,
                    );
                assert(edges(polygon)[i].0 == polygon[i]);
            }
            if exists|i: int|
                0 <= i < polygon.len() && call_ensures(
                    self.near,
                    (point, #[trigger] polygon[i], polygon[(i + 1) % polygon.len() as int]),
                    true,
                ) {
                let i = choose|i: int|
                    0 <= i < polygon.len() && call_ensures(
                        self.near,
                        (point, #[trigger] polygon[i], polygon[(i + 1) % polygon.len() as int]),
                        true,
                    );
                assert(edges(polygon)[i].0 == polygon[i]);
            }
        }
    }

    /// Whether a point lies in a polygon, or on its border.
    pub fn point_in_pos_polygon(&self, point: Position, polygon: &Vec<Position>) -> (inside: bool)
        requires
            self.wf(),
        ensures
            inside == self.holds(point, polygon@),
    {
        if polygon.len() < 3 {
            return false;
        }
        let sides: Vec<(Position, Position)> = polygon_edges_pos(polygon);
        let mut i: usize = 0;
        while i < sides.len()
            invariant
                self.wf(),
                polygon@.len() >= 3,
                sides@ == edges(polygon@),
                i <= sides@.len(),
                forall|k: int|
                    0 <= k < i ==> !call_ensures(
                        self.near,
                        (point, (#[trigger] edges(polygon@)[k]).0, edges(polygon@)[k].1),
                        true,
                    ),
            decreases sides@.len() - i,
        {
            if (self.near)(point, sides[i].0, sides[i].1) {
                assert(call_ensures(
                    self.near,
                    (point, edges(polygon@)[i as int].0, edges(polygon@)[i as int].1),
                    true,
                ));
                return true;
            }
            i = i + 1;
        }
        let mut inside: bool = false;
        let mut previous: Position = polygon[polygon.len() - 1];
        let mut j: usize = 0;
        while j < polygon.len()
            invariant
                self.wf(),
                j <= polygon@.len(),
                polygon@.len() >= 3,
                previous == (if j == 0 {
                    polygon@.last()
                } else {
                    polygon@[j - 1]
                }),
                inside == self.is_odd(point, polygon@, j as int),
            decreases polygon@.len() - j,
        {
            let current: Position = polygon[j];
            if (self.crosses)(point, current, previous) {
                inside = !inside;
            }
            previous = current;
            j = j + 1;
        }
        inside
    }
}

/// What tells whether a point lies in a polygon.
pub trait PolygonTest {
    /// Whether it can be asked.
    spec fn is_ready(&self) -> bool;

    /// Whether the point lies in the polygon.
    spec fn has(&self, point: Position, polygon: Seq<Position>) -> bool;

    fn test(&self, point: Position, polygon: &Vec<Position>) -> (inside: bool)
        requires
            self.is_ready(),
        ensures
            inside == self.has(point, polygon@),
    ;
}

impl<
    N: Fn(Position, Position, Position) -> bool,
    C: Fn(Position, Position, Position) -> bool,
> PolygonTest for Borders<N, C> {
    open spec fn is_ready(&self) -> bool {
        self.wf()
    }

    open spec fn has(&self, point: Position, polygon: Seq<Position>) -> bool {
        self.holds(point, polygon)
    }

    fn test(&self, point: Position, polygon: &Vec<Position>) -> (inside: bool) {
        self.point_in_pos_polygon(point, polygon)
    }
}

} // verus!
