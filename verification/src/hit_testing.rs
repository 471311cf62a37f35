//! What a click hits.

use crate::camera::{double_at_most, is_at_most};
use crate::model::EditKind;
use crate::selection::ClickScore;
use vstd::prelude::*;

verus! {

/// The bit pattern of how far beside an operation a click still hits it.
pub const CLICK_SELECTION_TOLERANCE_PX: u64 = 0x4018_0000_0000_0000;

/// A position on the screen, as bit patterns of double-precision numbers.
#[derive(Debug, Clone, Copy, PartialEq, Eq, Structural)]
pub struct SelectionPoint {
    pub x: u64,
    pub y: u64,
}

/// The least and the greatest coordinates of points.
#[derive(Debug, Clone, Copy, PartialEq, Eq, Structural)]
pub struct SelectionExtent {
    pub min: SelectionPoint,
    pub max: SelectionPoint,
}

/// The lesser one of two numbers, and the other one where one is no number.
pub open spec fn lesser(left: u64, right: u64) -> u64 {
    if !is_at_most(left, left) || is_at_most(right, left) && !is_at_most(left, right) {
        right
    } else {
        left
    }
}

/// The greater one of two numbers, and the other one where one is no number.
pub open spec fn greater(left: u64, right: u64) -> u64 {
    if !is_at_most(left, left) || is_at_most(left, right) && !is_at_most(right, left) {
        right
    } else {
        left
    }
}

pub(crate) fn take_lesser(left: u64, right: u64) -> (result: u64)
    ensures
        result == lesser(left, right),
{
    if !double_at_most(left, left) || double_at_most(right, left) && !double_at_most(left, right) {
        right
    } else {
        left
    }
}

fn take_greater(left: u64, right: u64) -> (result: u64)
    ensures
        result == greater(left, right),
{
    if !double_at_most(left, left) || double_at_most(left, right) && !double_at_most(right, left) {
        right
    } else {
        left
    }
}

/// The extent of the first `count` points.
pub open spec fn extent(points: Seq<SelectionPoint>, count: int) -> SelectionExtent
    decreases count,
{
    if count <= 1 {
        SelectionExtent { min: points[0], max: points[0] }
    } else {
        let before = extent(points, count - 1);
        let point = points[count - 1];
        SelectionExtent {
            min: SelectionPoint {
                x: lesser(before.min.x, point.x),
                y: lesser(before.min.y, point.y),
            },
            max: SelectionPoint {
                x: greater(before.max.x, point.x),
                y: greater(before.max.y, point.y),
            },
        }
    }
}

fn extent_of(points: &Vec<SelectionPoint>) -> (result: SelectionExtent)
    requires
        points@.len() > 0,
    ensures
        result == extent(points@, points@.len() as int),
{
    let mut result = SelectionExtent { min: points[0], max: points[0] };
    let mut i: usize = 1;
    while i < points.len()
        invariant
            1 <= i <= points@.len(),
            result == extent(points@, i as int),
        decreases points@.len() - i,
    {
        let point: SelectionPoint = points[i];
        result = SelectionExtent {
            min: SelectionPoint {
                x: take_lesser(result.min.x, point.x),
                y: take_lesser(result.min.y, point.y),
            },
            max: SelectionPoint {
                x: take_greater(result.max.x, point.x),
                y: take_greater(result.max.y, point.y),
            },
        };
        i = i + 1;
    }
    result
}

proof fn lemma_extent_holds(points: Seq<SelectionPoint>, count: int)
    requires
        0 < count <= points.len(),
        forall|i: int| 0 <= i < points.len() ==> is_measured(#[trigger] points[i]),
    ensures
        is_measured(extent(points, count).min),
        is_measured(extent(points, count).max),
        forall|i: int|
            0 <= i < count ==> is_in_extent(extent(points, count), #[trigger] points[i]),
        exists|i: int| 0 <= i < count && extent(points, count).min.x == (#[trigger] points[i]).x,
        exists|i: int| 0 <= i < count && extent(points, count).min.y == (#[trigger] points[i]).y,
        exists|i: int| 0 <= i < count && extent(points, count).max.x == (#[trigger] points[i]).x,
        exists|i: int| 0 <= i < count && extent(points, count).max.y == (#[trigger] points[i]).y,
    decreases count,
{
    let whole = extent(points, count);
    let last = points[count - 1];
    assert(is_measured(last));
    if count > 1 {
        lemma_extent_holds(points, count - 1);
        let before = extent(points, count - 1);
        assert(whole.min.x == before.min.x || whole.min.x == last.x);
        assert(whole.min.y == before.min.y || whole.min.y == last.y);
        assert(whole.max.x == before.max.x || whole.max.x == last.x);
        assert(whole.max.y == before.max.y || whole.max.y == last.y);
        assert forall|i: int| 0 <= i < count implies is_in_extent(whole, #[trigger] points[i]) by {
            assert(is_measured(points[i]));
            if i < count - 1 {
                assert(is_in_extent(before, points[i]));
            }
        }
    }
    assert(0 <= count - 1 < count && last == points[count - 1]);
}

/// Whether both coordinates are numbers.
pub open spec fn is_measured(point: SelectionPoint) -> bool {
    is_at_most(point.x, point.x) && is_at_most(point.y, point.y)
}

/// Whether a point lies between the least and the greatest coordinates.
pub open spec fn is_in_extent(extent: SelectionExtent, point: SelectionPoint) -> bool {
    &&& is_at_most(extent.min.x, point.x)
    &&& is_at_most(point.x, extent.max.x)
    &&& is_at_most(extent.min.y, point.y)
    &&& is_at_most(point.y, extent.max.y)
}

/// The extent of points holds all of them, and each of its four sides goes
/// through one of them.
pub proof fn law_extents_hold_their_points(points: Seq<SelectionPoint>)
    requires
        points.len() > 0,
        forall|i: int| 0 <= i < points.len() ==> is_measured(#[trigger] points[i]),
    ensures
        ({
            let whole = extent(points, points.len() as int);
            &&& forall|i: int|
                0 <= i < points.len() ==> is_in_extent(whole, #[trigger] points[i])
            &&& exists|i: int| 0 <= i < points.len() && whole.min.x == (#[trigger] points[i]).x
            &&& exists|i: int| 0 <= i < points.len() && whole.min.y == (#[trigger] points[i]).y
            &&& exists|i: int| 0 <= i < points.len() && whole.max.x == (#[trigger] points[i]).x
            &&& exists|i: int| 0 <= i < points.len() && whole.max.y == (#[trigger] points[i]).y
        }),
{
    lemma_extent_holds(points, points.len() as int);
}

/// The bit pattern of the distance to a line without any segment.
pub const INFINITE_DISTANCE: u64 = 0x7FF0_0000_0000_0000;

/// What a click's nearness rests on that comes from floating-point arithmetic.
pub struct ClickMeasures<D, S, I, R, A> {
    /// How far the click is from a point.
    pub point: D,
    /// How far the click is from a segment.
    pub segment: S,
    /// Whether the click lies in a polygon.
    pub inside: I,
    /// How far a distance reaches beyond half of the width of a stroke, where
    /// there is one.
    pub beyond: R,
    /// The area of an extent, with half of the width of a stroke around it where
    /// there is one.
    pub area: A,
}

impl<
    D: Fn(SelectionPoint) -> u64,
    S: Fn(SelectionPoint, SelectionPoint) -> u64,
    I: Fn(&Vec<SelectionPoint>) -> bool,
    R: Fn(u64, bool) -> u64,
    A: Fn(SelectionExtent, bool) -> u64,
> ClickMeasures<D, S, I, R, A> {
    /// Everything can be asked, and the same question has one answer.
    pub open spec fn wf(self) -> bool {
        &&& forall|at: SelectionPoint| #[trigger] call_requires(self.point, (at,))
        &&& forall|at: SelectionPoint, first: u64, second: u64|
            #![trigger
                call_ensures(self.point, (at,), first),
                call_ensures(self.point, (at,), second)
            ]
            call_ensures(self.point, (at,), first) && call_ensures(self.point, (at,), second)
                ==> first == second
        &&& forall|start: SelectionPoint, end: SelectionPoint| #[trigger]
            call_requires(self.segment, (start, end))
        &&& forall|start: SelectionPoint, end: SelectionPoint, first: u64, second: u64|
            #![trigger
                call_ensures(self.segment, (start, end), first),
                call_ensures(self.segment, (start, end), second)
            ]
            call_ensures(self.segment, (start, end), first) && call_ensures(
                self.segment,
                (start, end),
                second,
            ) ==> first == second
        &&& forall|points: Vec<SelectionPoint>| #[trigger] call_requires(self.inside, (&points,))
        &&& forall|
            left: Vec<SelectionPoint>,
            right: Vec<SelectionPoint>,
            first: bool,
            second: bool,
        |
            #![trigger
                call_ensures(self.inside, (&left,), first),
                call_ensures(self.inside, (&right,), second)
            ]
            left@ == right@ && call_ensures(self.inside, (&left,), first) && call_ensures(
                self.inside,
                (&right,),
                second,
            ) ==> first == second
        &&& forall|distance: u64, has_width: bool| #[trigger]
            call_requires(self.beyond, (distance, has_width))
        &&& forall|distance: u64, has_width: bool, first: u64, second: u64|
            #![trigger
                call_ensures(self.beyond, (distance, has_width), first),
                call_ensures(self.beyond, (distance, has_width), second)
            ]
            call_ensures(self.beyond, (distance, has_width), first) && call_ensures(
                self.beyond,
                (distance, has_width),
                second,
            ) ==> first == second
        &&& forall|extent: SelectionExtent, has_width: bool| #[trigger]
            call_requires(self.area, (extent, has_width))
        &&& forall|extent: SelectionExtent, has_width: bool, first: u64, second: u64|
            #![trigger
                call_ensures(self.area, (extent, has_width), first),
                call_ensures(self.area, (extent, has_width), second)
            ]
            call_ensures(self.area, (extent, has_width), first) && call_ensures(
                self.area,
                (extent, has_width),
                second,
            ) ==> first == second
    }

    /// How far the click is from a point.
    pub open spec fn from_point(self, at: SelectionPoint) -> u64 {
        choose|distance: u64| call_ensures(self.point, (at,), distance)
    }

    /// How far the click is from a segment.
    pub open spec fn from_segment(self, start: SelectionPoint, end: SelectionPoint) -> u64 {
        choose|distance: u64| call_ensures(self.segment, (start, end), distance)
    }

    /// Whether some polygon with these corners is told to hold the click.
    pub open spec fn lies_in(self, points: Seq<SelectionPoint>) -> bool {
        exists|list: Vec<SelectionPoint>|
            list@ == points && #[trigger] call_ensures(self.inside, (&list,), true)
    }

    /// How far a distance reaches beyond half of the width of a stroke.
    pub open spec fn remaining(self, distance: u64, has_width: bool) -> u64 {
        choose|beyond: u64| call_ensures(self.beyond, (distance, has_width), beyond)
    }

    /// The area of an extent.
    pub open spec fn covered(self, extent: SelectionExtent, has_width: bool) -> u64 {
        choose|area: u64| call_ensures(self.area, (extent, has_width), area)
    }

    /// The least distance to the first `count` segments of a line.
    pub open spec fn nearest(self, points: Seq<SelectionPoint>, count: int) -> u64
        decreases count,
    {
        if count <= 0 {
            INFINITE_DISTANCE
        } else {
            lesser(
                self.nearest(points, count - 1),
                self.from_segment(points[count - 1], points[count]),
            )
        }
    }

    /// How far the click is from a line through points.
    pub open spec fn from_line(self, points: Seq<SelectionPoint>) -> u64 {
        if points.len() == 1 {
            self.from_point(points[0])
        } else {
            self.nearest(points, points.len() - 1)
        }
    }

    /// How far the click is from the closed line through points.
    pub open spec fn from_outline(self, points: Seq<SelectionPoint>) -> u64 {
        if points.len() < 2 {
            self.from_line(points)
        } else {
            lesser(self.from_line(points), self.from_segment(points.last(), points[0]))
        }
    }

    /// How far the click is from the border of an operation.
    pub open spec fn from_operation(self, kind: EditKind, points: Seq<SelectionPoint>) -> u64 {
        let distance = if !kind.area() {
            self.from_line(points)
        } else if self.lies_in(points) {
            0
        } else {
            self.from_outline(points)
        };
        self.remaining(distance, !kind.area())
    }

    /// How well the click hits an operation; none where it is too far beside it,
    /// or the operation has no points.
    pub open spec fn score(self, kind: EditKind, points: Seq<SelectionPoint>) -> Option<
        ClickScore,
    > {
        let distance = self.from_operation(kind, points);
        if points.len() == 0 || is_at_most(CLICK_SELECTION_TOLERANCE_PX, distance) && !is_at_most(
            distance,
            CLICK_SELECTION_TOLERANCE_PX,
        ) {
            None
        } else {
            Some(
                ClickScore {
                    distance,
                    area: self.covered(extent(points, points.len() as int), !kind.area()),
                },
            )
        }
    }

    /// Whether the click picks an operation whose stroke reaches `reach` to both
    /// sides: one of an area where it lies in it, and one of a stroke where it
    /// lies on it.
    pub open spec fn picks(self, kind: EditKind, points: Seq<SelectionPoint>, reach: u64) -> bool {
        if kind.area() {
            points.len() >= 3 && self.lies_in(points)
        } else {
            points.len() > 0 && is_at_most(self.from_line(points), reach)
        }
    }

    proof fn lemma_nearest(self, points: Seq<SelectionPoint>, distances: Seq<u64>, count: int)
        requires
            self.wf(),
            0 <= count <= distances.len() < points.len(),
            forall|i: int|
                0 <= i < distances.len() ==> call_ensures(
                    self.segment,
                    (points[i], points[i + 1]),
                    #[trigger] distances[i],
                ) && is_at_most(distances[i], distances[i]),
        ensures
            is_at_most(self.nearest(points, count), self.nearest(points, count)),
            forall|i: int|
                0 <= i < count ==> is_at_most(
                    self.nearest(points, count),
                    #[trigger] distances[i],
                ),
            count > 0 ==> exists|i: int|
                0 <= i < count && self.nearest(points, count) == #[trigger] distances[i],
        decreases count,
    {
        if count > 0 {
            self.lemma_nearest(points, distances, count - 1);
            let last = distances[count - 1];
            assert(call_ensures(self.segment, (points[count - 1], points[count]), last));
            assert(self.from_segment(points[count - 1], points[count]) == last);
            let before = self.nearest(points, count - 1);
            let least = self.nearest(points, count);
            assert(least == lesser(before, last));
            if count > 1 {
                assert(least == before || least == last);
            } else {
                assert(is_at_most(last, INFINITE_DISTANCE));
                assert(least == last);
            }
            assert(0 <= count - 1 < count && last == distances[count - 1]);
        }
    }

    /// A line is as far away as the nearest one of its segments: where all of
    /// these are at measurable distances, none of them is nearer than the line,
    /// and one of them is just as far.
    pub proof fn law_a_line_is_as_far_as_its_nearest_segment(
        self,
        points: Seq<SelectionPoint>,
        distances: Seq<u64>,
    )
        requires
            self.wf(),
            points.len() >= 2,
            distances.len() == points.len() - 1,
            forall|i: int|
                0 <= i < distances.len() ==> call_ensures(
                    self.segment,
                    (points[i], points[i + 1]),
                    #[trigger] distances[i],
                ) && is_at_most(distances[i], distances[i]),
        ensures
            forall|i: int|
                0 <= i < distances.len() ==> is_at_most(
                    self.from_line(points),
                    #[trigger] distances[i],
                ),
            exists|i: int|
                0 <= i < distances.len() && self.from_line(points) == #[trigger] distances[i],
    {
        self.lemma_nearest(points, distances, points.len() - 1);
    }

    /// A closed line is as far away as the nearest one of its segments, among
    /// them the one from its last point back to its first.
    pub proof fn law_an_outline_is_as_far_as_its_nearest_segment(
        self,
        points: Seq<SelectionPoint>,
        distances: Seq<u64>,
    )
        requires
            self.wf(),
            points.len() >= 2,
            distances.len() == points.len(),
            forall|i: int|
                0 <= i < distances.len() - 1 ==> call_ensures(
                    self.segment,
                    (points[i], points[i + 1]),
                    #[trigger] distances[i],
                ),
            call_ensures(self.segment, (points.last(), points[0]), distances.last()),
            forall|i: int|
                0 <= i < distances.len() ==> is_at_most(#[trigger] distances[i], distances[i]),
        ensures
            forall|i: int|
                0 <= i < distances.len() ==> is_at_most(
                    self.from_outline(points),
                    #[trigger] distances[i],
                ),
            exists|i: int|
                0 <= i < distances.len() && self.from_outline(points) == #[trigger] distances[i],
    {
        let open = distances.drop_last();
        assert forall|i: int| 0 <= i < open.len() implies call_ensures(
            self.segment,
            (points[i], points[i + 1]),
            #[trigger] open[i],
        ) && is_at_most(open[i], open[i]) by {
            assert(open[i] == distances[i]);
        }
        self.lemma_nearest(points, open, points.len() - 1);
        let before = self.from_line(points);
        let last = distances.last();
        let whole = self.from_outline(points);
        assert(self.from_segment(points.last(), points[0]) == last);
        assert(whole == lesser(before, last));
        assert(is_at_most(whole, before) && is_at_most(whole, last));
        let nearest = choose|i: int| 0 <= i < open.len() && before == #[trigger] open[i];
        assert(before == distances[nearest]);
        assert(last == distances[distances.len() - 1]);
        assert(whole == before || whole == last);
        assert forall|i: int| 0 <= i < distances.len() implies is_at_most(
            whole,
            #[trigger] distances[i],
        ) by {
            if i < open.len() {
                assert(open[i] == distances[i]);
                assert(is_at_most(before, open[i]));
            }
        }
    }

    /// A single point is as far away as that point, closed or not, and what has
    /// no points is farther than everything.
    pub proof fn law_few_points_are_no_line(self, at: SelectionPoint, distance: u64)
        requires
            self.wf(),
            call_ensures(self.point, (at,), distance),
        ensures
            self.from_line(seq![at]) == distance,
            self.from_outline(seq![at]) == distance,
            self.from_line(Seq::empty()) == INFINITE_DISTANCE,
            forall|other: u64|
                is_at_most(other, other) ==> #[trigger] is_at_most(
                    other,
                    self.from_line(Seq::empty()),
                ),
    {
    }

    /// A click hits an operation where what is left of its distance is within
    /// the tolerance, and in no other case. The distance is that to the line of a
    /// stroke; for an area it is none inside of it and that to its outline
    /// outside. The score keeps what is left of the distance, and the area of the
    /// extent of all points.
    pub proof fn law_clicks_hit_within_the_tolerance(
        self,
        kind: EditKind,
        points: Seq<SelectionPoint>,
        left: u64,
        area: u64,
    )
        requires
            self.wf(),
            points.len() > 0,
            kind.area() && self.lies_in(points) ==> call_ensures(self.beyond, (0, false), left),
            kind.area() && !self.lies_in(points) ==> call_ensures(
                self.beyond,
                (self.from_outline(points), false),
                left,
            ),
            !kind.area() ==> call_ensures(self.beyond, (self.from_line(points), true), left),
            call_ensures(
                self.area,
                (extent(points, points.len() as int), !kind.area()),
                area,
            ),
        ensures
            is_at_most(left, CLICK_SELECTION_TOLERANCE_PX) ==> self.score(kind, points) == Some(
                ClickScore { distance: left, area },
            ),
            is_at_most(CLICK_SELECTION_TOLERANCE_PX, left) && !is_at_most(
                left,
                CLICK_SELECTION_TOLERANCE_PX,
            ) ==> self.score(kind, points) is None,
            self.score(kind, Seq::empty()) is None,
    {
    }

    /// A stroke is picked as soon as one of its segments is within reach, and
    /// never where all of them are out of it.
    pub proof fn law_strokes_are_picked_by_any_segment(
        self,
        kind: EditKind,
        points: Seq<SelectionPoint>,
        distances: Seq<u64>,
        reach: u64,
    )
        requires
            self.wf(),
            !kind.area(),
            points.len() >= 2,
            distances.len() == points.len() - 1,
            forall|i: int|
                0 <= i < distances.len() ==> call_ensures(
                    self.segment,
                    (points[i], points[i + 1]),
                    #[trigger] distances[i],
                ) && is_at_most(distances[i], distances[i]),
        ensures
            self.picks(kind, points, reach) <==> exists|i: int|
                0 <= i < distances.len() && is_at_most(#[trigger] distances[i], reach),
    {
        self.law_a_line_is_as_far_as_its_nearest_segment(points, distances);
        if self.picks(kind, points, reach) {
            let i = choose|i: int|
                0 <= i < distances.len() && self.from_line(points) == #[trigger] distances[i];
            assert(is_at_most(distances[i], reach));
        }
    }

    /// An area is picked where the click lies in it, however near its border is.
    pub proof fn law_areas_are_picked_inside(
        self,
        kind: EditKind,
        points: Vec<SelectionPoint>,
        inside: bool,
        reach: u64,
    )
        requires
            self.wf(),
            kind.area(),
            points@.len() >= 3,
            call_ensures(self.inside, (&points,), inside),
        ensures
            self.picks(kind, points@, reach) == inside,
    {
    }

    /// How far the click is from a line through points: from a single point, or
    /// the least distance to a segment.
    pub fn polyline_distance(&self, points: &Vec<SelectionPoint>) -> (distance: u64)
        requires
            self.wf(),
        ensures
            distance == self.from_line(points@),
    {
        let count: usize = points.len();
        if count == 1 {
            return (self.point)(points[0]);
        }
        let mut distance: u64 = INFINITE_DISTANCE;
        if count == 0 {
            return distance;
        }
        let mut i: usize = 1;
        while i < count
            invariant
                self.wf(),
                1 <= i <= count,
                count == points@.len(),
                distance == self.nearest(points@, i - 1),
            decreases count - i,
        {
            distance = take_lesser(distance, (self.segment)(points[i - 1], points[i]));
            i = i + 1;
        }
        distance
    }

    /// How far the click is from the closed line through points.
    pub fn closed_polyline_distance(&self, points: &Vec<SelectionPoint>) -> (distance: u64)
        requires
            self.wf(),
        ensures
            distance == self.from_outline(points@),
    {
        let open_distance: u64 = self.polyline_distance(points);
        if points.len() < 2 {
            return open_distance;
        }
        take_lesser(open_distance, (self.segment)(points[points.len() - 1], points[0]))
    }

    /// How well the click hits an operation; none where it is too far beside it,
    /// or the operation has no points.
    pub fn operation_click_score(&self, kind: EditKind, points: &Vec<SelectionPoint>) -> (score:
        Option<ClickScore>)
        requires
            self.wf(),
        ensures
            score == self.score(kind, points@),
    {
        if points.len() == 0 {
            return None;
        }
        let has_width: bool = !kind.is_area();
        let distance: u64 = if has_width {
            self.polyline_distance(points)
        } else if (self.inside)(points) {
            0
        } else {
            self.closed_polyline_distance(points)
        };
        let beyond: u64 = (self.beyond)(distance, has_width);
        if double_at_most(CLICK_SELECTION_TOLERANCE_PX, beyond) && !double_at_most(
            beyond,
            CLICK_SELECTION_TOLERANCE_PX,
        ) {
            return None;
        }
        let area: u64 = (self.area)(extent_of(points), has_width);
        Some(ClickScore { distance: beyond, area })
    }

    /// Whether the click picks an operation whose stroke reaches `reach` to both
    /// sides.
    pub fn operation_pick_hit(
        &self,
        kind: EditKind,
        points: &Vec<SelectionPoint>,
        reach: u64,
    ) -> (hit: bool)
        requires
            self.wf(),
        ensures
            hit == self.picks(kind, points@, reach),
    {
        if points.len() == 0 {
            return false;
        }
        if kind.is_area() {
            points.len() >= 3 && (self.inside)(points)
        } else {
            double_at_most(self.polyline_distance(points), reach)
        }
    }
}

/// `contained` may be whether a rectangle holds all points of an operation.
pub open spec fn is_containment<T, W: Fn(&T, bool) -> bool>(
    kind: EditKind,
    points: Seq<T>,
    within: W,
    contained: bool,
) -> bool {
    if contained {
        &&& points.len() > 0
        &&& forall|i: int|
            0 <= i < points.len() ==> call_ensures(
                within,
                (&#[trigger] points[i], !kind.area()),
                true,
            )
    } else {
        points.len() == 0 || exists|i: int|
            0 <= i < points.len() && call_ensures(
                within,
                (&#[trigger] points[i], !kind.area()),
                false,
            )
    }
}

/// Whether a rectangle holds all points of an operation; `within` tells whether
/// it holds one, with half of the width of a stroke around it where there is
/// one.
pub fn operation_contained_by_rectangle<T, W: Fn(&T, bool) -> bool>(
    kind: EditKind,
    points: &Vec<T>,
    within: &W,
) -> (contained: bool)
    requires
        forall|point: T, has_width: bool| #[trigger] call_requires(*within, (&point, has_width)),
    ensures
        is_containment(kind, points@, *within, contained),
{
    if points.len() == 0 {
        return false;
    }
    let has_width: bool = !kind.is_area();
    let mut i: usize = 0;
    while i < points.len()
        invariant
            forall|point: T, has_width: bool| #[trigger]
                call_requires(*within, (&point, has_width)),
            points@.len() > 0,
            has_width == !kind.area(),
            i <= points@.len(),
            forall|k: int|
                0 <= k < i ==> call_ensures(*within, (&#[trigger] points@[k], has_width), true),
        decreases points@.len() - i,
    {
        if !within(&points[i], has_width) {
            assert(call_ensures(*within, (&points@[i as int], has_width), false));
            return false;
        }
        i = i + 1;
    }
    true
}

/// `crosses` may be whether an operation meets a selection: by its area, or by its
/// line, as wide as it is and not less than nothing.
pub open spec fn is_crossing<T, L: Fn(&Vec<T>, u64) -> bool, P: Fn(&Vec<T>) -> bool>(
    kind: EditKind,
    points: Vec<T>,
    width: u64,
    line_meets: L,
    area_meets: P,
    crosses: bool,
) -> bool {
    if kind.area() {
        call_ensures(area_meets, (&points,), crosses)
    } else {
        call_ensures(line_meets, (&points, greater(width, 0)), crosses)
    }
}

/// Whether an operation meets a selection. `area_meets` tells it of an area, and
/// `line_meets` of a line of some width.
pub fn operation_intersects_selection<T, L: Fn(&Vec<T>, u64) -> bool, P: Fn(&Vec<T>) -> bool>(
    kind: EditKind,
    points: &Vec<T>,
    width: u64,
    line_meets: &L,
    area_meets: &P,
) -> (crosses: bool)
    requires
        call_requires(*line_meets, (points, greater(width, 0))),
        call_requires(*area_meets, (points,)),
    ensures
        is_crossing(kind, *points, width, *line_meets, *area_meets, crosses),
{
    if kind.is_area() {
        area_meets(points)
    } else {
        line_meets(points, take_greater(width, 0))
    }
}

} // verus!
