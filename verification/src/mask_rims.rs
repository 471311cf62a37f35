//! Whether something lies beside what an eraser covers.

use crate::camera::{double_at_most, double_less_than, is_at_most, is_less_double, INFINITE_DOUBLE};
use crate::hit_testing::{lesser, take_lesser, SelectionPoint};
use crate::intervals::Double;
use crate::plane::{edges, polygon_edges_pos};
use crate::regions::PolygonTest;
use crate::screen::Position;
use crate::stroke_cut::{lines_of_path, path_lines, MaskView, StrokeMask};
use vstd::prelude::*;

verus! {

/// What tells whether a part of a segment lies beside a mask.
pub trait MaskSide {
    /// Whether it can be asked.
    spec fn is_ready(&self) -> bool;

    /// Whether the part of a segment from a place on to another one lies beside the
    /// mask.
    spec fn beside(
        &self,
        start: Position,
        end: Position,
        from: Double,
        to: Double,
        mask: MaskView,
    ) -> bool;

    fn lies_beside(
        &self,
        start: Position,
        end: Position,
        from: Double,
        to: Double,
        mask: &StrokeMask,
    ) -> (result: bool)
        requires
            self.is_ready(),
        ensures
            result == self.beside(start, end, from, to, mask@),
    ;
}

/// What the sides of a mask rest on that comes from floating-point arithmetic.
pub struct MaskRim<K, V, D, E, I> {
    /// The place in the middle of a part of a segment.
    pub middle: K,
    /// The position at a place.
    pub position: V,
    /// How far a place is from a position.
    pub point: D,
    /// How far a place is from a segment.
    pub segment: E,
    /// Whether a position lies in a polygon.
    pub inside: I,
}

impl<
    K: Fn(Position, Position, Double, Double) -> SelectionPoint,
    V: Fn(SelectionPoint) -> Position,
    D: Fn(SelectionPoint, Position) -> u64,
    E: Fn(SelectionPoint, Position, Position) -> u64,
    I: PolygonTest,
> MaskRim<K, V, D, E, I> {
    /// Everything can be asked, and asking twice gives the same answer.
    pub open spec fn wf(self) -> bool {
        &&& self.inside.is_ready()
        &&& forall|a: Position, b: Position, x: Double, y: Double| #[trigger]
            call_requires(self.middle, (a, b, x, y))
        &&& forall|place: SelectionPoint| #[trigger] call_requires(self.position, (place,))
        &&& forall|place: SelectionPoint, a: Position| #[trigger]
            call_requires(self.point, (place, a))
        &&& forall|place: SelectionPoint, a: Position, b: Position| #[trigger]
            call_requires(self.segment, (place, a, b))
        &&& forall|
            a: Position,
            b: Position,
            x: Double,
            y: Double,
            one: SelectionPoint,
            other: SelectionPoint,
        | #[trigger]
            call_ensures(self.middle, (a, b, x, y), one) && #[trigger] call_ensures(
                self.middle,
                (a, b, x, y),
                other,
            ) ==> one == other
        &&& forall|place: SelectionPoint, one: Position, other: Position| #[trigger]
            call_ensures(self.position, (place,), one) && #[trigger] call_ensures(
                self.position,
                (place,),
                other,
            ) ==> one == other
        &&& forall|place: SelectionPoint, a: Position, one: u64, other: u64| #[trigger]
            call_ensures(self.point, (place, a), one) && #[trigger] call_ensures(
                self.point,
                (place, a),
                other,
            ) ==> one == other
        &&& forall|place: SelectionPoint, a: Position, b: Position, one: u64, other: u64|
         #[trigger]
            call_ensures(self.segment, (place, a, b), one) && #[trigger] call_ensures(
                self.segment,
                (place, a, b),
                other,
            ) ==> one == other
    }

    /// The place in the middle of a part of a segment.
    pub open spec fn middle_of(
        self,
        start: Position,
        end: Position,
        from: Double,
        to: Double,
    ) -> SelectionPoint {
        choose|answer: SelectionPoint| call_ensures(self.middle, (start, end, from, to), answer)
    }

    /// The position at a place.
    pub open spec fn position_of(self, place: SelectionPoint) -> Position {
        choose|answer: Position| call_ensures(self.position, (place,), answer)
    }

    /// How far a place is from a position.
    pub open spec fn from_point(self, place: SelectionPoint, at: Position) -> u64 {
        choose|answer: u64| call_ensures(self.point, (place, at), answer)
    }

    /// How far a place is from a segment.
    pub open spec fn from_segment(self, place: SelectionPoint, line: (Position, Position)) -> u64 {
        choose|answer: u64| call_ensures(self.segment, (place, line.0, line.1), answer)
    }

    /// How far a place is from the nearest one of the first `count` segments.
    pub open spec fn from_lines(
        self,
        place: SelectionPoint,
        lines: Seq<(Position, Position)>,
        count: int,
    ) -> u64
        decreases count,
    {
        if count <= 0 {
            INFINITE_DOUBLE
        } else {
            lesser(
                self.from_lines(place, lines, count - 1),
                self.from_segment(place, lines[count - 1]),
            )
        }
    }

    /// How far a place is from a path, or from the border of a polygon.
    pub open spec fn from_figure(
        self,
        place: SelectionPoint,
        figure: Seq<Position>,
        closed: bool,
    ) -> u64 {
        let lines = if closed {
            edges(figure)
        } else {
            path_lines(figure)
        };
        if figure.len() == 1 {
            self.from_point(place, figure[0])
        } else {
            self.from_lines(place, lines, lines.len() as int)
        }
    }

    /// Whether `distances` are those of a place from lines, all measurable.
    pub open spec fn are_distances(
        self,
        place: SelectionPoint,
        lines: Seq<(Position, Position)>,
        distances: Seq<u64>,
    ) -> bool {
        &&& distances.len() == lines.len()
        &&& forall|i: int|
            0 <= i < lines.len() ==> call_ensures(
                self.segment,
                (place, lines[i].0, lines[i].1),
                #[trigger] distances[i],
            ) && is_at_most(distances[i], distances[i])
    }

    proof fn lemma_nearest_line(
        self,
        place: SelectionPoint,
        lines: Seq<(Position, Position)>,
        distances: Seq<u64>,
        count: int,
    )
        requires
            self.wf(),
            0 <= count <= lines.len(),
            self.are_distances(place, lines, distances),
        ensures
            is_at_most(
                self.from_lines(place, lines, count),
                self.from_lines(place, lines, count),
            ),
            forall|i: int|
                0 <= i < count ==> is_at_most(
                    self.from_lines(place, lines, count),
                    #[trigger] distances[i],
                ),
            count > 0 ==> exists|i: int|
                0 <= i < count && self.from_lines(place, lines, count) == #[trigger] distances[i],
        decreases count,
    {
        if count > 0 {
            self.lemma_nearest_line(place, lines, distances, count - 1);
            let last = distances[count - 1];
            assert(self.from_segment(place, lines[count - 1]) == last);
            let before = self.from_lines(place, lines, count - 1);
            let least = self.from_lines(place, lines, count);
            assert(least == lesser(before, last));
            if count > 1 {
                assert(least == before || least == last);
            } else {
                assert(is_at_most(last, INFINITE_DOUBLE));
                assert(least == last);
            }
            assert(0 <= count - 1 < count && last == distances[count - 1]);
        }
    }

    /// A place is as far from a figure as from the nearest one of its lines.
    pub proof fn law_a_figure_is_as_far_as_its_nearest_line(
        self,
        place: SelectionPoint,
        figure: Seq<Position>,
        closed: bool,
        distances: Seq<u64>,
    )
        requires
            self.wf(),
            figure.len() >= 2,
            self.are_distances(
                place,
                if closed {
                    edges(figure)
                } else {
                    path_lines(figure)
                },
                distances,
            ),
        ensures
            path_lines(figure).len() == figure.len() - 1,
            forall|i: int|
                0 <= i < distances.len() ==> is_at_most(
                    self.from_figure(place, figure, closed),
                    #[trigger] distances[i],
                ),
            distances.len() > 0 ==> exists|i: int|
                0 <= i < distances.len() && self.from_figure(place, figure, closed)
                    == #[trigger] distances[i],
    {
        let lines = if closed {
            edges(figure)
        } else {
            path_lines(figure)
        };
        self.lemma_nearest_line(place, lines, distances, lines.len() as int);
    }

    fn figure_distance(&self, place: SelectionPoint, figure: &Vec<Position>, closed: bool) -> (
    distance: u64)
        requires
            self.wf(),
        ensures
            distance == self.from_figure(place, figure@, closed),
    {
        if figure.len() == 1 {
            return (self.point)(place, figure[0]);
        }
        let lines: Vec<(Position, Position)> = if closed {
            polygon_edges_pos(figure)
        } else {
            lines_of_path(figure)
        };
        let mut nearest: u64 = INFINITE_DOUBLE;
        let mut i: usize = 0;
        while i < lines.len()
            invariant
                self.wf(),
                i <= lines@.len(),
                nearest == self.from_lines(place, lines@, i as int),
            decreases lines@.len() - i,
        {
            let distance: u64 = (self.segment)(place, lines[i].0, lines[i].1);
            nearest = take_lesser(nearest, distance);
            i = i + 1;
        }
        nearest
    }
}

impl<
    K: Fn(Position, Position, Double, Double) -> SelectionPoint,
    V: Fn(SelectionPoint) -> Position,
    D: Fn(SelectionPoint, Position) -> u64,
    E: Fn(SelectionPoint, Position, Position) -> u64,
    I: PolygonTest,
> MaskSide for MaskRim<K, V, D, E, I> {
    open spec fn is_ready(&self) -> bool {
        self.wf()
    }

    /// Beside a path is what is farther off than its radius; beside a polygon is
    /// what does not lie in it either.
    open spec fn beside(
        &self,
        start: Position,
        end: Position,
        from: Double,
        to: Double,
        mask: MaskView,
    ) -> bool {
        let place = self.middle_of(start, end, from, to);
        let distance = self.from_figure(place, mask.figure, mask.closed);
        if mask.closed {
            !self.inside.has(self.position_of(place), mask.figure) && !is_at_most(
                distance,
                mask.radius,
            )
        } else {
            is_less_double(mask.radius, distance)
        }
    }

    fn lies_beside(
        &self,
        start: Position,
        end: Position,
        from: Double,
        to: Double,
        mask: &StrokeMask,
    ) -> (result: bool) {
        let place: SelectionPoint = (self.middle)(start, end, from, to);
        let distance: u64 = self.figure_distance(place, &mask.figure, mask.closed);
        if mask.closed {
            let position: Position = (self.position)(place);
            !self.inside.test(position, &mask.figure) && !double_at_most(distance, mask.radius)
        } else {
            double_less_than(mask.radius, distance)
        }
    }
}

impl<
    K: Fn(Position, Position, Double, Double) -> SelectionPoint,
    V: Fn(SelectionPoint) -> Position,
    D: Fn(SelectionPoint, Position) -> u64,
    E: Fn(SelectionPoint, Position, Position) -> u64,
    I: PolygonTest,
> MaskRim<K, V, D, E, I> {
    /// A part of a segment lies beside the path of an eraser if and only if its
    /// middle is farther away than the radius from every line of the path; for a
    /// path of a single point, from that point.
    pub proof fn law_beside_a_path_is_far_from_all_of_it(
        self,
        start: Position,
        end: Position,
        from: Double,
        to: Double,
        mask: MaskView,
        place: SelectionPoint,
        distances: Seq<u64>,
    )
        requires
            self.wf(),
            !mask.closed,
            mask.figure.len() > 0,
            is_at_most(mask.radius, mask.radius),
            call_ensures(self.middle, (start, end, from, to), place),
            mask.figure.len() >= 2 ==> distances.len() == mask.figure.len() - 1 && forall|i: int|
                0 <= i < distances.len() ==> call_ensures(
                    self.segment,
                    (place, mask.figure[i], mask.figure[i + 1]),
                    #[trigger] distances[i],
                ),
            mask.figure.len() == 1 ==> distances.len() == 1 && call_ensures(
                self.point,
                (place, mask.figure[0]),
                distances[0],
            ),
            forall|i: int|
                0 <= i < distances.len() ==> is_at_most(#[trigger] distances[i], distances[i]),
        ensures
            self.beside(start, end, from, to, mask) <==> forall|i: int|
                0 <= i < distances.len() ==> !is_at_most(#[trigger] distances[i], mask.radius),
    {
        assert(self.middle_of(start, end, from, to) == place);
        if mask.figure.len() == 1 {
            assert(self.from_point(place, mask.figure[0]) == distances[0]);
        } else {
            let lines = path_lines(mask.figure);
            assert forall|i: int| 0 <= i < lines.len() implies call_ensures(
                self.segment,
                (place, lines[i].0, lines[i].1),
                #[trigger] distances[i],
            ) && is_at_most(distances[i], distances[i]) by {
                assert(lines[i] == (mask.figure[i], mask.figure[i + 1]));
            }
            self.lemma_nearest_line(place, lines, distances, lines.len() as int);
            let least = self.from_figure(place, mask.figure, false);
            let nearest = choose|i: int|
                0 <= i < distances.len() && least == #[trigger] distances[i];
            assert(least == distances[nearest]);
        }
    }

    /// A part of a segment lies beside a polygon if and only if its middle lies
    /// outside of it and farther away than the radius from every edge of it.
    pub proof fn law_beside_a_polygon_is_outside_and_far_from_all_edges(
        self,
        start: Position,
        end: Position,
        from: Double,
        to: Double,
        mask: MaskView,
        place: SelectionPoint,
        position: Position,
        distances: Seq<u64>,
    )
        requires
            self.wf(),
            mask.closed,
            mask.figure.len() >= 2,
            edges(mask.figure).len() > 0,
            is_at_most(mask.radius, mask.radius),
            call_ensures(self.middle, (start, end, from, to), place),
            call_ensures(self.position, (place,), position),
            self.are_distances(place, edges(mask.figure), distances),
        ensures
            self.beside(start, end, from, to, mask) <==> !self.inside.has(position, mask.figure)
                && forall|i: int|
                0 <= i < distances.len() ==> !is_at_most(#[trigger] distances[i], mask.radius),
    {
        assert(self.middle_of(start, end, from, to) == place);
        assert(self.position_of(place) == position);
        let lines = edges(mask.figure);
        self.lemma_nearest_line(place, lines, distances, lines.len() as int);
        let least = self.from_figure(place, mask.figure, true);
        let nearest = choose|i: int| 0 <= i < distances.len() && least == #[trigger] distances[i];
        assert(least == distances[nearest]);
    }
}

} // verus!
