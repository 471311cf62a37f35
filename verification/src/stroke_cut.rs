//! What an eraser leaves of a stroke.

use crate::camera::{
    double_at_most, doubles_match, equal_doubles, is_at_most, is_positive_double,
    positive_double, ONE_DOUBLE,
};
use crate::fill_difference::lists_of_points;
use crate::intervals::{
    answers, apart, are_taken_together, is_so, is_taken_together, join_parts, joined,
    law_joined_parts_are_made_of_all_parts, law_kept_numbers_stay_in_order, lemma_part_is_in_one,
    ordered, push_unit_break, sorted_numbers, unit_break, without_neighbours, Double, Placed,
    BREAK_TOLERANCE,
};
use crate::mask_rims::MaskSide;
use crate::model::{
    clone_points, is_same_point, point_views, CanvasPoint, EditKind, EditOperation, PointView,
};
use crate::plane::{
    copied, edges, is_somewhere, polygon_edges_pos, position_is_finite, Plane,
    MIN_FILL_FRAGMENT_AREA_TWICE,
};
use crate::regions::PolygonTest;
use crate::screen::{less_than, magnitude, Position, INFINITE_MAGNITUDE};
use vstd::prelude::*;

verus! {

/// The bit pattern of the last place on a segment that is not its end.
pub const NEARLY_THE_END: u64 = 0x3fef_ffff_ff76_8fa1;

/// What cutting a stroke rests on that comes from floating-point arithmetic.
pub struct StrokeCut<P, R, S, N, W, O, M, T, J> {
    /// Where a point is on the screen; none where that is not representable.
    pub project: P,
    /// Where on the line between two positions it enters and leaves a circle of
    /// a radius.
    pub circle: R,
    /// Where on the line between two positions it crosses the sides of the band
    /// of a radius around a line.
    pub sides: S,
    /// Whether two places on a segment are the same but for rounding.
    pub near: N,
    /// Whether hardly anything lies between two places on a segment.
    pub narrow: W,
    /// What tells whether a part of a segment lies beside the mask.
    pub outside: O,
    /// The position at a place between two others.
    pub along: M,
    /// The point at a place on a segment; none where it is not representable.
    pub shift: T,
    /// Whether two positions are the same but for rounding.
    pub touch: J,
}

/// A stroke while it is put together from what is left of its segments.
pub struct StrokeRuns {
    pub runs: Seq<Seq<PointView>>,
    pub current: Seq<PointView>,
    /// Where the last part ended.
    pub end: Option<Position>,
}

impl StrokeRuns {
    /// Whether every finished run has at least two points.
    pub open spec fn are_long(self) -> bool {
        forall|i: int| 0 <= i < self.runs.len() ==> (#[trigger] self.runs[i]).len() >= 2
    }
}

impl<
    P: Fn(&CanvasPoint) -> Option<Position>,
    R: Fn(Position, Position, Position, u64) -> Vec<Double>,
    S: Fn(Position, Position, Position, Position, u64) -> Vec<Double>,
    N: Fn(Double, Double) -> bool,
    W: Fn(Double, Double) -> bool,
    O: MaskSide,
    M: Fn(Position, Position, Double) -> Position,
    T: Fn(&CanvasPoint, Position, Position, Double) -> Option<CanvasPoint>,
    J: Fn(Position, Position) -> bool,
> StrokeCut<P, R, S, N, W, O, M, T, J> {
    /// `answer` may be where `point` is on the screen.
    pub open spec fn projects(self, point: PointView, answer: Option<Position>) -> bool {
        exists|at: CanvasPoint|
            at@ == point && #[trigger] call_ensures(self.project, (&at,), answer)
    }

    /// `answer` may be where a line meets a circle.
    pub open spec fn circles(
        self,
        start: Position,
        end: Position,
        center: Position,
        radius: u64,
        answer: Seq<Double>,
    ) -> bool {
        exists|list: Vec<Double>|
            list@ == answer && #[trigger] call_ensures(
                self.circle,
                (start, end, center, radius),
                list,
            )
    }

    /// `answer` may be where a line meets the sides of a band.
    pub open spec fn bands(
        self,
        start: Position,
        end: Position,
        a: Position,
        b: Position,
        radius: u64,
        answer: Seq<Double>,
    ) -> bool {
        exists|list: Vec<Double>|
            list@ == answer && #[trigger] call_ensures(
                self.sides,
                (start, end, a, b, radius),
                list,
            )
    }

    /// `answer` may be the point at a place on a segment.
    pub open spec fn shifts(
        self,
        point: PointView,
        start: Position,
        end: Position,
        place: Double,
        answer: Option<PointView>,
    ) -> bool {
        exists|at: CanvasPoint, moved: Option<CanvasPoint>|
            at@ == point && optional_view(moved) == answer && #[trigger] call_ensures(
                self.shift,
                (&at, start, end, place),
                moved,
            )
    }

    /// Everything can be asked, and asking twice gives the same answer.
    pub open spec fn wf(self) -> bool {
        &&& answers::<Double, N>(self.near)
        &&& answers::<Double, W>(self.narrow)
        &&& answers::<Position, J>(self.touch)
        &&& forall|at: CanvasPoint| #[trigger] call_requires(self.project, (&at,))
        &&& forall|a: Position, b: Position, c: Position, radius: u64| #[trigger]
            call_requires(self.circle, (a, b, c, radius))
        &&& forall|a: Position, b: Position, c: Position, d: Position, radius: u64| #[trigger]
            call_requires(self.sides, (a, b, c, d, radius))
        &&& self.outside.is_ready()
        &&& forall|a: Position, b: Position, x: Double| #[trigger]
            call_requires(self.along, (a, b, x))
        &&& forall|at: CanvasPoint, a: Position, b: Position, x: Double| #[trigger]
            call_requires(self.shift, (&at, a, b, x))
        &&& forall|point: PointView, one: Option<Position>, other: Option<Position>| #[trigger]
            self.projects(point, one) && #[trigger] self.projects(point, other) ==> one == other
        &&& forall|
            a: Position,
            b: Position,
            c: Position,
            radius: u64,
            one: Seq<Double>,
            other: Seq<Double>,
        | #[trigger]
            self.circles(a, b, c, radius, one) && #[trigger] self.circles(a, b, c, radius, other)
                ==> one == other
        &&& forall|
            a: Position,
            b: Position,
            c: Position,
            d: Position,
            radius: u64,
            one: Seq<Double>,
            other: Seq<Double>,
        | #[trigger]
            self.bands(a, b, c, d, radius, one) && #[trigger] self.bands(
                a,
                b,
                c,
                d,
                radius,
                other,
            ) ==> one == other
        &&& forall|a: Position, b: Position, x: Double, one: Position, other: Position| #[trigger]
            call_ensures(self.along, (a, b, x), one) && #[trigger] call_ensures(
                self.along,
                (a, b, x),
                other,
            ) ==> one == other
        &&& forall|
            point: PointView,
            a: Position,
            b: Position,
            x: Double,
            one: Option<PointView>,
            other: Option<PointView>,
        | #[trigger]
            self.shifts(point, a, b, x, one) && #[trigger] self.shifts(point, a, b, x, other)
                ==> one == other
    }

    /// Where a point is on the screen.
    pub open spec fn shown(self, point: PointView) -> Option<Position> {
        choose|answer: Option<Position>| self.projects(point, answer)
    }

    /// Where a line enters and leaves a circle.
    pub open spec fn circle_breaks(
        self,
        start: Position,
        end: Position,
        center: Position,
        radius: u64,
    ) -> Seq<Double> {
        choose|answer: Seq<Double>| self.circles(start, end, center, radius, answer)
    }

    /// Where a line crosses the sides of a band.
    pub open spec fn side_breaks(
        self,
        start: Position,
        end: Position,
        a: Position,
        b: Position,
        radius: u64,
    ) -> Seq<Double> {
        choose|answer: Seq<Double>| self.bands(start, end, a, b, radius, answer)
    }

    /// Whether a part of a segment lies beside the mask.
    pub open spec fn is_beside(
        self,
        start: Position,
        end: Position,
        from: Double,
        to: Double,
        mask: MaskView,
    ) -> bool {
        self.outside.beside(start, end, from, to, mask)
    }

    /// The position at a place between two others.
    pub open spec fn position_at(self, start: Position, end: Position, place: Double) -> Position {
        choose|answer: Position| call_ensures(self.along, (start, end, place), answer)
    }

    /// The point at a place inside of a segment.
    pub open spec fn shifted(
        self,
        point: PointView,
        start: Position,
        end: Position,
        place: Double,
    ) -> Option<PointView> {
        choose|answer: Option<PointView>| self.shifts(point, start, end, place, answer)
    }

    fn show(&self, point: &CanvasPoint) -> (answer: Option<Position>)
        requires
            self.wf(),
        ensures
            answer == self.shown(point@),
    {
        let answer: Option<Position> = (self.project)(point);
        assert(self.projects(point@, answer));
        answer
    }

    fn meet_circle(&self, start: Position, end: Position, center: Position, radius: u64) -> (list:
        Vec<Double>)
        requires
            self.wf(),
        ensures
            list@ == self.circle_breaks(start, end, center, radius),
    {
        let list: Vec<Double> = (self.circle)(start, end, center, radius);
        assert(self.circles(start, end, center, radius, list@));
        list
    }

    fn meet_sides(
        &self,
        start: Position,
        end: Position,
        a: Position,
        b: Position,
        radius: u64,
    ) -> (list: Vec<Double>)
        requires
            self.wf(),
        ensures
            list@ == self.side_breaks(start, end, a, b, radius),
    {
        let list: Vec<Double> = (self.sides)(start, end, a, b, radius);
        assert(self.bands(start, end, a, b, radius, list@));
        list
    }

    fn lies_beside(
        &self,
        start: Position,
        end: Position,
        from: Double,
        to: Double,
        mask: &StrokeMask,
    ) -> (answer: bool)
        requires
            self.wf(),
        ensures
            answer == self.is_beside(start, end, from, to, mask@),
    {
        self.outside.lies_beside(start, end, from, to, mask)
    }

    fn go_along(&self, start: Position, end: Position, place: Double) -> (position: Position)
        requires
            self.wf(),
        ensures
            position == self.position_at(start, end, place),
    {
        (self.along)(start, end, place)
    }

    fn shift_to(&self, point: &CanvasPoint, start: Position, end: Position, place: Double) -> (
    answer: Option<CanvasPoint>)
        requires
            self.wf(),
        ensures
            optional_view(answer) == self.shifted(point@, start, end, place),
    {
        let answer: Option<CanvasPoint> = (self.shift)(point, start, end, place);
        assert(self.shifts(point@, start, end, place, optional_view(answer)));
        answer
    }

    /// Where a line may enter or leave the band of a radius around each of the
    /// first `count` lines.
    pub open spec fn band_breaks(
        self,
        start: Position,
        end: Position,
        lines: Seq<(Position, Position)>,
        radius: u64,
        count: int,
    ) -> Seq<Double>
        decreases count,
    {
        if count <= 0 {
            Seq::empty()
        } else {
            let line = lines[count - 1];
            self.band_breaks(start, end, lines, radius, count - 1) + self.circle_breaks(
                start,
                end,
                line.0,
                radius,
            ) + self.circle_breaks(start, end, line.1, radius) + self.side_breaks(
                start,
                end,
                line.0,
                line.1,
                radius,
            )
        }
    }

    fn meet_bands(
        &self,
        start: Position,
        end: Position,
        lines: &Vec<(Position, Position)>,
        radius: u64,
    ) -> (list: Vec<Double>)
        requires
            self.wf(),
        ensures
            list@ == self.band_breaks(start, end, lines@, radius, lines@.len() as int),
    {
        let mut list: Vec<Double> = Vec::new();
        let mut i: usize = 0;
        while i < lines.len()
            invariant
                self.wf(),
                i <= lines@.len(),
                list@ == self.band_breaks(start, end, lines@, radius, i as int),
            decreases lines@.len() - i,
        {
            let line: (Position, Position) = lines[i];
            let ghost before = list@;
            let mut first: Vec<Double> = self.meet_circle(start, end, line.0, radius);
            let mut second: Vec<Double> = self.meet_circle(start, end, line.1, radius);
            let mut third: Vec<Double> = self.meet_sides(start, end, line.0, line.1, radius);
            list.append(&mut first);
            list.append(&mut second);
            list.append(&mut third);
            i = i + 1;
        }
        list
    }

    /// The breaks of a segment, its two ends among them, in order.
    pub open spec fn ordered_breaks(self, found: Seq<Double>) -> Seq<Double> {
        let all = ordered(with_breaks(found, found.len() as int));
        apart(self.near, all, all.len() as int)
    }

    /// Those of the first `count` parts of a segment that lie beside the mask.
    pub open spec fn parts_beside(
        self,
        start: Position,
        end: Position,
        breaks: Seq<Double>,
        mask: MaskView,
        count: int,
    ) -> Seq<(Double, Double)>
        decreases count,
    {
        if count <= 0 {
            Seq::empty()
        } else {
            let before = self.parts_beside(start, end, breaks, mask, count - 1);
            let from = breaks[count - 1];
            let to = breaks[count];
            if !is_so(self.narrow, from, to) && self.is_beside(
                start,
                end,
                from,
                to,
                mask,
            ) {
                before.push((from, to))
            } else {
                before
            }
        }
    }

    /// What of a segment lies beside a mask that it meets at the breaks found.
    pub open spec fn outside_parts(
        self,
        start: Position,
        end: Position,
        found: Seq<Double>,
        mask: MaskView,
    ) -> Seq<(Double, Double)> {
        let breaks = self.ordered_breaks(found);
        let beside = self.parts_beside(start, end, breaks, mask, breaks.len() - 1);
        joined(self.near, beside, beside.len() as int)
    }

    fn take_outside_parts(
        &self,
        start: Position,
        end: Position,
        found: &Vec<Double>,
        mask: &StrokeMask,
    ) -> (result: Vec<(Double, Double)>)
        requires
            self.wf(),
        ensures
            result@ == self.outside_parts(start, end, found@, mask@),
    {
        let mut all: Vec<Double> = Vec::new();
        all.push(Double { bits: 0 });
        all.push(Double { bits: ONE_DOUBLE });
        let mut i: usize = 0;
        assert(all@ =~= with_breaks(found@, 0));
        while i < found.len()
            invariant
                i <= found@.len(),
                all@ == with_breaks(found@, i as int),
            decreases found@.len() - i,
        {
            push_unit_break(&mut all, found[i]);
            i = i + 1;
        }
        let sorted: Vec<Double> = sorted_numbers(&all);
        let breaks: Vec<Double> = without_neighbours(&sorted, &self.near);
        let mut beside: Vec<(Double, Double)> = Vec::new();
        if breaks.len() > 0 {
            let mut k: usize = 0;
            while k < breaks.len() - 1
                invariant
                    self.wf(),
                    k < breaks@.len(),
                    beside@ == self.parts_beside(start, end, breaks@, mask@, k as int),
                decreases breaks@.len() - k,
            {
                let from: Double = breaks[k];
                let to: Double = breaks[k + 1];
                if !(self.narrow)(from, to) && self.lies_beside(start, end, from, to, mask) {
                    beside.push((from, to));
                }
                k = k + 1;
            }
        }
        join_parts(&beside, &self.near)
    }

    /// Where a line may enter or leave a mask.
    pub open spec fn mask_breaks(self, start: Position, end: Position, mask: MaskView) -> Seq<
        Double,
    > {
        if mask.closed {
            let lines = edges(mask.figure);
            self.band_breaks(start, end, lines, mask.radius, lines.len() as int)
        } else if mask.figure.len() == 1 {
            self.circle_breaks(start, end, mask.figure[0], mask.radius)
        } else {
            let lines = path_lines(mask.figure);
            self.band_breaks(start, end, lines, mask.radius, lines.len() as int)
        }
    }

    /// What of a segment lies beside a mask.
    pub open spec fn beside_mask(self, start: Position, end: Position, mask: MaskView) -> Seq<
        (Double, Double),
    > {
        self.outside_parts(start, end, self.mask_breaks(start, end, mask), mask)
    }

    fn parts_beside_mask(&self, start: Position, end: Position, mask: &StrokeMask) -> (result: Vec<
        (Double, Double),
    >)
        requires
            self.wf(),
        ensures
            result@ == self.beside_mask(start, end, mask@),
    {
        let found: Vec<Double> = if mask.closed {
            let lines: Vec<(Position, Position)> = polygon_edges_pos(&mask.figure);
            self.meet_bands(start, end, &lines, mask.radius)
        } else if mask.figure.len() == 1 {
            self.meet_circle(start, end, mask.figure[0], mask.radius)
        } else {
            let lines: Vec<(Position, Position)> = lines_of_path(&mask.figure);
            self.meet_bands(start, end, &lines, mask.radius)
        };
        self.take_outside_parts(start, end, &found, mask)
    }

    /// What of a segment lies beside the mask that a path sweeps over, `radius`
    /// to each side.
    pub fn paint_segment_outside_stroke_mask(
        &self,
        start: Position,
        end: Position,
        mask: Vec<Position>,
        radius: u64,
    ) -> (result: Vec<(Double, Double)>)
        requires
            self.wf(),
        ensures
            result@ == self.beside_mask(
                start,
                end,
                (MaskView { figure: mask@, closed: false, radius }),
            ),
    {
        self.parts_beside_mask(start, end, &StrokeMask { figure: mask, closed: false, radius })
    }

    /// What of a segment lies beside a polygon with its rim, which is `radius`
    /// wide.
    pub fn paint_segment_outside_polygon_mask(
        &self,
        start: Position,
        end: Position,
        polygon: Vec<Position>,
        radius: u64,
    ) -> (result: Vec<(Double, Double)>)
        requires
            self.wf(),
        ensures
            result@ == self.beside_mask(
                start,
                end,
                (MaskView { figure: polygon@, closed: true, radius }),
            ),
    {
        self.parts_beside_mask(start, end, &StrokeMask { figure: polygon, closed: true, radius })
    }

    /// The point at a place on a segment: one of its ends where the place is as
    /// good as there.
    pub open spec fn point_on(
        self,
        start: PointView,
        end: PointView,
        from: Position,
        to: Position,
        place: Double,
    ) -> Option<PointView> {
        if is_at_most(place.bits, BREAK_TOLERANCE) {
            Some(start)
        } else if is_at_most(NEARLY_THE_END, place.bits) {
            Some(end)
        } else {
            self.shifted(start, from, to, place)
        }
    }

    /// The point at a place on a segment: one of its ends where the place is as
    /// good as there.
    pub fn canvas_point_on_projected_segment(
        &self,
        start: &CanvasPoint,
        end: &CanvasPoint,
        start_position: Position,
        end_position: Position,
        place: Double,
    ) -> (point: Option<CanvasPoint>)
        requires
            self.wf(),
        ensures
            optional_view(point) == self.point_on(
                start@,
                end@,
                start_position,
                end_position,
                place,
            ),
    {
        if double_at_most(place.bits, BREAK_TOLERANCE) {
            Some(start.clone())
        } else if double_at_most(NEARLY_THE_END, place.bits) {
            Some(end.clone())
        } else {
            self.shift_to(start, start_position, end_position, place)
        }
    }

    /// The runs of a stroke with one more part of a segment; none where one of
    /// its ends is not representable.
    pub open spec fn with_part(
        self,
        runs: StrokeRuns,
        start: PointView,
        end: PointView,
        from: Position,
        to: Position,
        part: (Double, Double),
    ) -> Option<StrokeRuns> {
        let first = self.point_on(start, end, from, to, part.0);
        let last = self.point_on(start, end, from, to, part.1);
        let first_position = self.position_at(from, to, part.0);
        let last_position = self.position_at(from, to, part.1);
        if first is None || last is None {
            None
        } else if runs.end is Some && is_so(self.touch, runs.end->0, first_position) {
            Some(
                StrokeRuns {
                    runs: runs.runs,
                    current: if runs.current.len() > 0 && is_same_point(
                        runs.current.last(),
                        last->0,
                    ) {
                        runs.current
                    } else {
                        runs.current.push(last->0)
                    },
                    end: Some(last_position),
                },
            )
        } else if runs.current.len() >= 2 {
            Some(
                StrokeRuns {
                    runs: runs.runs.push(runs.current),
                    current: seq![first->0, last->0],
                    end: Some(last_position),
                },
            )
        } else {
            Some(
                StrokeRuns {
                    runs: runs.runs,
                    current: runs.current.push(first->0).push(last->0),
                    end: Some(last_position),
                },
            )
        }
    }

    /// The runs of a stroke with the first `count` parts of a segment.
    pub open spec fn with_parts(
        self,
        runs: StrokeRuns,
        start: PointView,
        end: PointView,
        from: Position,
        to: Position,
        list: Seq<(Double, Double)>,
        count: int,
    ) -> Option<StrokeRuns>
        decreases count,
    {
        if count <= 0 {
            Some(runs)
        } else {
            match self.with_parts(runs, start, end, from, to, list, count - 1) {
                None => None,
                Some(before) => self.with_part(before, start, end, from, to, list[count - 1]),
            }
        }
    }

    /// The runs of what is left of the first `count` segments of a stroke.
    pub open spec fn with_segments(
        self,
        points: Seq<PointView>,
        positions: Seq<Position>,
        mask: MaskView,
        count: int,
    ) -> Option<StrokeRuns>
        decreases count,
    {
        if count <= 0 {
            Some(StrokeRuns { runs: Seq::empty(), current: Seq::empty(), end: None })
        } else {
            let left = self.beside_mask(positions[count - 1], positions[count], mask);
            match self.with_segments(points, positions, mask, count - 1) {
                None => None,
                Some(before) => self.with_parts(
                    before,
                    points[count - 1],
                    points[count],
                    positions[count - 1],
                    positions[count],
                    left,
                    left.len() as int,
                ),
            }
        }
    }

    /// Whether a mask leaves all of the first `count` segments as they are.
    pub open spec fn leaves_whole(
        self,
        positions: Seq<Position>,
        mask: MaskView,
        count: int,
    ) -> bool {
        forall|i: int|
            0 <= i < count ==> is_whole(
                self.beside_mask(#[trigger] positions[i], positions[i + 1], mask),
            )
    }

    /// Where the points are on the screen; none where one of them is not
    /// representable.
    pub open spec fn all_shown(self, points: Seq<PointView>) -> Option<Seq<Position>> {
        if forall|i: int| 0 <= i < points.len() ==> self.shown(#[trigger] points[i]) is Some {
            Some(Seq::new(points.len(), |i: int| self.shown(points[i])->0))
        } else {
            None
        }
    }

    /// Only strokes of paint are cut, with two points or more, all of which are on
    /// the screen; of such a stroke something can be told wherever all that is left
    /// of its segments can be.
    pub proof fn law_only_strokes_on_the_screen_are_cut(
        self,
        kind: EditKind,
        points: Seq<PointView>,
        mask: MaskView,
    )
        ensures
            kind != EditKind::Paint ==> self.left_of_stroke(kind, points, mask) is None,
            points.len() < 2 ==> self.left_of_stroke(kind, points, mask) is None,
            (exists|i: int| 0 <= i < points.len() && self.shown(#[trigger] points[i]) is None)
                ==> self.left_of_stroke(kind, points, mask) is None,
            kind == EditKind::Paint && points.len() >= 2 && (forall|i: int|
                0 <= i < points.len() ==> self.shown(#[trigger] points[i]) is Some)
                && self.with_segments(
                points,
                self.all_shown(points)->0,
                mask,
                points.len() - 1,
            ) is Some ==> self.left_of_stroke(kind, points, mask) is Some,
    {
    }

    /// What a mask leaves of a stroke: its runs, all of it where the mask does
    /// not touch it; none where that is not representable.
    pub open spec fn left_of_stroke(
        self,
        kind: EditKind,
        points: Seq<PointView>,
        mask: MaskView,
    ) -> Option<Seq<Seq<PointView>>> {
        let positions = self.all_shown(points);
        let segments = points.len() - 1;
        if kind != EditKind::Paint || points.len() < 2 || positions is None {
            None
        } else {
            match self.with_segments(points, positions->0, mask, segments) {
                None => None,
                Some(runs) => if self.leaves_whole(positions->0, mask, segments) {
                    Some(seq![points])
                } else if runs.current.len() >= 2 {
                    Some(runs.runs.push(runs.current))
                } else {
                    Some(runs.runs)
                },
            }
        }
    }

    fn show_all(&self, points: &Vec<CanvasPoint>) -> (positions: Option<Vec<Position>>)
        requires
            self.wf(),
        ensures
            match (positions, self.all_shown(point_views(points@))) {
                (Some(positions), Some(expected)) => positions@ == expected,
                (None, None) => true,
                _ => false,
            },
    {
        let ghost views = point_views(points@);
        let mut positions: Vec<Position> = Vec::new();
        let mut i: usize = 0;
        while i < points.len()
            invariant
                self.wf(),
                i <= points@.len(),
                views == point_views(points@),
                positions@.len() == i,
                forall|k: int|
                    0 <= k < i ==> self.shown(#[trigger] views[k]) == Some(positions@[k]),
            decreases points@.len() - i,
        {
            assert(views[i as int] == points@[i as int]@);
            match self.show(&points[i]) {
                Some(position) => {
                    positions.push(position);
                },
                None => {
                    return None;
                },
            }
            i = i + 1;
        }
        assert(positions@ =~= self.all_shown(views)->0);
        Some(positions)
    }

    fn add_part(
        &self,
        runs: &mut RunsInWork,
        start: &CanvasPoint,
        end: &CanvasPoint,
        from: Position,
        to: Position,
        part: (Double, Double),
    ) -> (added: bool)
        requires
            self.wf(),
        ensures
            match self.with_part(old(runs)@, start@, end@, from, to, part) {
                Some(expected) => added && final(runs)@ == expected,
                None => !added,
            },
    {
        let first: CanvasPoint = match self.canvas_point_on_projected_segment(
            start,
            end,
            from,
            to,
            part.0,
        ) {
            Some(point) => point,
            None => {
                return false;
            },
        };
        let last: CanvasPoint = match self.canvas_point_on_projected_segment(
            start,
            end,
            from,
            to,
            part.1,
        ) {
            Some(point) => point,
            None => {
                return false;
            },
        };
        let ghost before = *runs;
        let first_position: Position = self.go_along(from, to, part.0);
        let last_position: Position = self.go_along(from, to, part.1);
        let continues: bool = match runs.end {
            Some(position) => (self.touch)(position, first_position),
            None => false,
        };
        let length: usize = runs.current.len();
        assert(point_views(before.current@).len() == length);
        if continues {
            if length > 0 {
                assert(point_views(before.current@).last() == before.current@[length - 1]@);
            }
            if !(length > 0 && runs.current[length - 1] == last) {
                runs.current.push(last);
                assert(point_views(runs.current@) =~= point_views(before.current@).push(last@));
            }
        } else {
            if length >= 2 {
                let mut fresh: Vec<CanvasPoint> = Vec::new();
                std::mem::swap(&mut fresh, &mut runs.current);
                runs.runs.push(fresh);
                assert(lists_of_points(runs.runs@) =~= lists_of_points(before.runs@).push(
                    point_views(before.current@),
                ));
            }
            let ghost rest = runs.current@;
            runs.current.push(first);
            runs.current.push(last);
            assert(point_views(runs.current@) =~= point_views(rest).push(first@).push(last@));
            if length >= 2 {
                assert(point_views(runs.current@) =~= seq![first@, last@]);
            }
        }
        runs.end = Some(last_position);
        true
    }

    fn add_parts(
        &self,
        runs: &mut RunsInWork,
        start: &CanvasPoint,
        end: &CanvasPoint,
        from: Position,
        to: Position,
        list: &Vec<(Double, Double)>,
    ) -> (added: bool)
        requires
            self.wf(),
        ensures
            match self.with_parts(
                old(runs)@,
                start@,
                end@,
                from,
                to,
                list@,
                list@.len() as int,
            ) {
                Some(expected) => added && final(runs)@ == expected,
                None => !added,
            },
    {
        let ghost before = runs@;
        let mut i: usize = 0;
        while i < list.len()
            invariant
                self.wf(),
                i <= list@.len(),
                before == old(runs)@,
                self.with_parts(before, start@, end@, from, to, list@, i as int) == Some(runs@),
            decreases list@.len() - i,
        {
            if !self.add_part(runs, start, end, from, to, list[i]) {
                proof {
                    self.lemma_lost_part_stays_lost(
                        before,
                        start@,
                        end@,
                        from,
                        to,
                        list@,
                        i + 1,
                        list@.len() as int,
                    );
                }
                return false;
            }
            i = i + 1;
        }
        true
    }

    proof fn lemma_lost_part_stays_lost(
        self,
        runs: StrokeRuns,
        start: PointView,
        end: PointView,
        from: Position,
        to: Position,
        list: Seq<(Double, Double)>,
        lost: int,
        count: int,
    )
        requires
            0 <= lost <= count,
            self.with_parts(runs, start, end, from, to, list, lost) is None,
        ensures
            self.with_parts(runs, start, end, from, to, list, count) is None,
        decreases count - lost,
    {
        if lost < count {
            self.lemma_lost_part_stays_lost(runs, start, end, from, to, list, lost, count - 1);
        }
    }

    proof fn lemma_lost_segment_stays_lost(
        self,
        points: Seq<PointView>,
        positions: Seq<Position>,
        mask: MaskView,
        lost: int,
        count: int,
    )
        requires
            0 <= lost <= count,
            self.with_segments(points, positions, mask, lost) is None,
        ensures
            self.with_segments(points, positions, mask, count) is None,
        decreases count - lost,
    {
        if lost < count {
            self.lemma_lost_segment_stays_lost(points, positions, mask, lost, count - 1);
        }
    }

    proof fn lemma_parts_keep_runs_long(
        self,
        runs: StrokeRuns,
        start: PointView,
        end: PointView,
        from: Position,
        to: Position,
        list: Seq<(Double, Double)>,
        count: int,
    )
        requires
            runs.are_long(),
        ensures
            self.with_parts(runs, start, end, from, to, list, count) matches Some(after)
                ==> after.are_long(),
        decreases count,
    {
        if count > 0 {
            self.lemma_parts_keep_runs_long(runs, start, end, from, to, list, count - 1);
        }
    }

    proof fn lemma_segments_keep_runs_long(
        self,
        points: Seq<PointView>,
        positions: Seq<Position>,
        mask: MaskView,
        count: int,
    )
        ensures
            self.with_segments(points, positions, mask, count) matches Some(runs)
                ==> runs.are_long(),
        decreases count,
    {
        if count > 0 {
            self.lemma_segments_keep_runs_long(points, positions, mask, count - 1);
            if let Some(before) = self.with_segments(points, positions, mask, count - 1) {
                let left = self.beside_mask(positions[count - 1], positions[count], mask);
                self.lemma_parts_keep_runs_long(
                    before,
                    points[count - 1],
                    points[count],
                    positions[count - 1],
                    positions[count],
                    left,
                    left.len() as int,
                );
            }
        }
    }

    /// Every run that a mask leaves of a stroke has at least two points: it is a
    /// stroke itself.
    pub proof fn law_runs_are_strokes(
        self,
        kind: EditKind,
        points: Seq<PointView>,
        mask: MaskView,
    )
        ensures
            self.left_of_stroke(kind, points, mask) matches Some(runs) ==> forall|i: int|
                0 <= i < runs.len() ==> (#[trigger] runs[i]).len() >= 2,
    {
        if let Some(positions) = self.all_shown(points) {
            self.lemma_segments_keep_runs_long(points, positions, mask, points.len() - 1);
        }
    }

    /// Whether a point, or one that is the same, is at `k` of run `r`; the run in
    /// work comes after the others.
    pub open spec fn is_point_at(runs: StrokeRuns, r: int, k: int, point: PointView) -> bool {
        let run = if r == runs.runs.len() {
            runs.current
        } else {
            runs.runs[r]
        };
        &&& 0 <= r <= runs.runs.len()
        &&& 0 <= k < run.len()
        &&& run[k] == point || is_same_point(run[k], point)
    }

    /// A run that goes on with a part keeps all points that it had and ends where
    /// the part ends; one that does not is finished as it is, and the next one has
    /// the two ends of the part. A part goes on with the run where it starts at the
    /// position at which the last part ended.
    pub proof fn law_runs_that_go_on_keep_their_points(
        self,
        runs: StrokeRuns,
        start: PointView,
        end: PointView,
        from: Position,
        to: Position,
        part: (Double, Double),
        first_position: Position,
        last_position: Position,
    )
        requires
            self.wf(),
            self.with_part(runs, start, end, from, to, part) is Some,
            call_ensures(self.along, (from, to, part.0), first_position),
            call_ensures(self.along, (from, to, part.1), last_position),
        ensures
            ({
                let after = self.with_part(runs, start, end, from, to, part)->0;
                let first = self.point_on(start, end, from, to, part.0)->0;
                let last = self.point_on(start, end, from, to, part.1)->0;
                let goes_on = runs.end is Some && is_so(
                    self.touch,
                    runs.end->0,
                    first_position,
                );
                &&& after.end == Some(last_position)
                &&& after.current.len() > 0
                &&& after.current.last() == last || is_same_point(after.current.last(), last)
                &&& goes_on ==> after.runs == runs.runs && runs.current.is_prefix_of(after.current)
                    && after.current.len() <= runs.current.len() + 1
                &&& !goes_on && runs.current.len() >= 2 ==> after.runs == runs.runs.push(
                    runs.current,
                ) && after.current == seq![first, last]
                &&& !goes_on && runs.current.len() == 0 ==> after.runs == runs.runs
                    && after.current == seq![first, last]
            }),
    {
        assert(self.position_at(from, to, part.0) == first_position);
        assert(self.position_at(from, to, part.1) == last_position);
        assert(Seq::<PointView>::empty().push(
            self.point_on(start, end, from, to, part.0)->0,
        ).push(self.point_on(start, end, from, to, part.1)->0) =~= seq![
            self.point_on(start, end, from, to, part.0)->0,
            self.point_on(start, end, from, to, part.1)->0,
        ]);
        if runs.current.len() == 0 {
            assert(runs.current =~= Seq::<PointView>::empty());
        }
    }

    proof fn lemma_part_keeps_points(
        self,
        runs: StrokeRuns,
        start: PointView,
        end: PointView,
        from: Position,
        to: Position,
        part: (Double, Double),
        r: int,
        k: int,
        point: PointView,
    )
        requires
            self.with_part(runs, start, end, from, to, part) is Some,
            Self::is_point_at(runs, r, k, point),
        ensures
            Self::is_point_at(
                self.with_part(runs, start, end, from, to, part)->0,
                r,
                k,
                point,
            ),
    {
    }

    proof fn lemma_parts_keep_points(
        self,
        runs: StrokeRuns,
        start: PointView,
        end: PointView,
        from: Position,
        to: Position,
        list: Seq<(Double, Double)>,
        count: int,
        later: int,
        r: int,
        k: int,
        point: PointView,
    )
        requires
            0 <= count <= later,
            self.with_parts(runs, start, end, from, to, list, later) is Some,
            self.with_parts(runs, start, end, from, to, list, count) is Some ==> Self::is_point_at(
                self.with_parts(runs, start, end, from, to, list, count)->0,
                r,
                k,
                point,
            ),
        ensures
            Self::is_point_at(
                self.with_parts(runs, start, end, from, to, list, later)->0,
                r,
                k,
                point,
            ),
        decreases later - count,
    {
        if count < later {
            self.lemma_parts_keep_points(
                runs,
                start,
                end,
                from,
                to,
                list,
                count,
                later - 1,
                r,
                k,
                point,
            );
            self.lemma_part_keeps_points(
                self.with_parts(runs, start, end, from, to, list, later - 1)->0,
                start,
                end,
                from,
                to,
                list[later - 1],
                r,
                k,
                point,
            );
        }
    }

    proof fn lemma_segments_keep_points(
        self,
        points: Seq<PointView>,
        positions: Seq<Position>,
        mask: MaskView,
        count: int,
        later: int,
        r: int,
        k: int,
        point: PointView,
    )
        requires
            0 <= count <= later,
            self.with_segments(points, positions, mask, later) is Some,
            self.with_segments(points, positions, mask, count) is Some ==> Self::is_point_at(
                self.with_segments(points, positions, mask, count)->0,
                r,
                k,
                point,
            ),
        ensures
            Self::is_point_at(
                self.with_segments(points, positions, mask, later)->0,
                r,
                k,
                point,
            ),
        decreases later - count,
    {
        if count < later {
            self.lemma_segments_keep_points(
                points,
                positions,
                mask,
                count,
                later - 1,
                r,
                k,
                point,
            );
            let left = self.beside_mask(positions[later - 1], positions[later], mask);
            self.lemma_parts_keep_points(
                self.with_segments(points, positions, mask, later - 1)->0,
                points[later - 1],
                points[later],
                positions[later - 1],
                positions[later],
                left,
                0,
                left.len() as int,
                r,
                k,
                point,
            );
        }
    }

    /// The runs in work before part `i` of segment `at` of a stroke.
    spec fn runs_before(
        self,
        points: Seq<PointView>,
        positions: Seq<Position>,
        mask: MaskView,
        at: int,
        i: int,
    ) -> Option<StrokeRuns> {
        match self.with_segments(points, positions, mask, at) {
            None => None,
            Some(before) => self.with_parts(
                before,
                points[at],
                points[at + 1],
                positions[at],
                positions[at + 1],
                self.beside_mask(positions[at], positions[at + 1], mask),
                i,
            ),
        }
    }

    proof fn lemma_runs_before_are_there(
        self,
        points: Seq<PointView>,
        positions: Seq<Position>,
        mask: MaskView,
        at: int,
        i: int,
    )
        requires
            0 <= at < points.len() - 1,
            0 <= i <= self.beside_mask(positions[at], positions[at + 1], mask).len(),
            self.with_segments(points, positions, mask, points.len() - 1) is Some,
        ensures
            self.runs_before(points, positions, mask, at, i) is Some,
            self.with_segments(points, positions, mask, at + 1) is Some,
    {
        if self.with_segments(points, positions, mask, at + 1) is None {
            self.lemma_lost_segment_stays_lost(
                points,
                positions,
                mask,
                at + 1,
                points.len() - 1,
            );
        }
        let left = self.beside_mask(positions[at], positions[at + 1], mask);
        if self.runs_before(points, positions, mask, at, i) is None {
            self.lemma_lost_part_stays_lost(
                self.with_segments(points, positions, mask, at)->0,
                points[at],
                points[at + 1],
                positions[at],
                positions[at + 1],
                left,
                i,
                left.len() as int,
            );
        }
    }

    proof fn lemma_found_point(
        self,
        points: Seq<PointView>,
        positions: Seq<Position>,
        mask: MaskView,
        at: int,
        i: int,
    ) -> (found: (int, int))
        requires
            0 <= at < points.len() - 1,
            0 <= i < self.beside_mask(positions[at], positions[at + 1], mask).len(),
            self.with_segments(points, positions, mask, points.len() - 1) is Some,
        ensures
            ({
                let (r, k) = found;
                let part = self.beside_mask(positions[at], positions[at + 1], mask)[i];
                let point = self.point_on(
                    points[at],
                    points[at + 1],
                    positions[at],
                    positions[at + 1],
                    part.1,
                );
                let before = self.runs_before(points, positions, mask, at, i);
                let after = self.runs_before(points, positions, mask, at, i + 1);
                let last = self.with_segments(points, positions, mask, points.len() - 1);
                &&& point is Some
                &&& before is Some
                &&& after is Some
                &&& last is Some
                &&& Self::is_point_at(after->0, r, k, point->0)
                &&& Self::is_point_at(last->0, r, k, point->0)
                &&& self.with_segments(points, positions, mask, at + 1) is Some
                &&& Self::is_point_at(
                    self.with_segments(points, positions, mask, at + 1)->0,
                    r,
                    k,
                    point->0,
                )
                &&& r > (before->0).runs.len() || r == (before->0).runs.len() && k >= (
                before->0).current.len() - 1
            }),
    {
        self.lemma_runs_before_are_there(points, positions, mask, at, i);
        self.lemma_runs_before_are_there(points, positions, mask, at, i + 1);
        let left = self.beside_mask(positions[at], positions[at + 1], mask);
        let after = self.runs_before(points, positions, mask, at, i + 1)->0;
        let r = after.runs.len() as int;
        let k = after.current.len() - 1;
        let point = self.point_on(
            points[at],
            points[at + 1],
            positions[at],
            positions[at + 1],
            left[i].1,
        )->0;
        assert(Self::is_point_at(after, r, k, point));
        self.lemma_parts_keep_points(
            self.with_segments(points, positions, mask, at)->0,
            points[at],
            points[at + 1],
            positions[at],
            positions[at + 1],
            left,
            i + 1,
            left.len() as int,
            r,
            k,
            point,
        );
        self.lemma_segments_keep_points(
            points,
            positions,
            mask,
            at + 1,
            points.len() - 1,
            r,
            k,
            point,
        );
        (r, k)
    }

    proof fn lemma_runs_in_work_are_long(
        self,
        runs: StrokeRuns,
        start: PointView,
        end: PointView,
        from: Position,
        to: Position,
        list: Seq<(Double, Double)>,
        count: int,
    )
        requires
            runs.current.len() != 1,
            runs.end is Some ==> runs.current.len() >= 2,
        ensures
            self.with_parts(runs, start, end, from, to, list, count) matches Some(after)
                ==> after.current.len() != 1 && (after.end is Some ==> after.current.len() >= 2),
        decreases count,
    {
        if count > 0 {
            self.lemma_runs_in_work_are_long(runs, start, end, from, to, list, count - 1);
        }
    }

    proof fn lemma_last_run_is_long(
        self,
        points: Seq<PointView>,
        positions: Seq<Position>,
        mask: MaskView,
        count: int,
    )
        ensures
            self.with_segments(points, positions, mask, count) matches Some(runs)
                ==> runs.current.len() != 1 && (runs.end is Some ==> runs.current.len() >= 2),
        decreases count,
    {
        if count > 0 {
            self.lemma_last_run_is_long(points, positions, mask, count - 1);
            if let Some(before) = self.with_segments(points, positions, mask, count - 1) {
                let left = self.beside_mask(positions[count - 1], positions[count], mask);
                self.lemma_runs_in_work_are_long(
                    before,
                    points[count - 1],
                    points[count],
                    positions[count - 1],
                    positions[count],
                    left,
                    left.len() as int,
                );
            }
        }
    }

    /// Every part of a segment that a mask leaves ends in one of the runs that
    /// are left of the stroke: the point where the part ends, or one that is the
    /// same, is a point of a run. Parts that come one after the other on the
    /// stroke end in this order in the runs.
    pub proof fn law_parts_end_in_the_runs_in_order(
        self,
        kind: EditKind,
        points: Seq<PointView>,
        mask: MaskView,
        at: int,
        i: int,
        next_at: int,
        next: int,
    )
        requires
            self.all_shown(points) is Some,
            self.left_of_stroke(kind, points, mask) is Some,
            !self.leaves_whole(self.all_shown(points)->0, mask, points.len() - 1),
            0 <= at <= next_at < points.len() - 1,
            at < next_at || i < next,
            0 <= i < self.beside_mask(
                self.all_shown(points)->0[at],
                self.all_shown(points)->0[at + 1],
                mask,
            ).len(),
            0 <= next < self.beside_mask(
                self.all_shown(points)->0[next_at],
                self.all_shown(points)->0[next_at + 1],
                mask,
            ).len(),
        ensures
            exists|r: int, k: int, next_r: int, next_k: int|
                #![trigger self.left_of_stroke(kind, points, mask)->0[r][k],
                    self.left_of_stroke(kind, points, mask)->0[next_r][next_k]]
                {
                    let positions = self.all_shown(points)->0;
                    let runs = self.left_of_stroke(kind, points, mask)->0;
                    let part = self.beside_mask(positions[at], positions[at + 1], mask)[i];
                    let other = self.beside_mask(
                        positions[next_at],
                        positions[next_at + 1],
                        mask,
                    )[next];
                    let end = self.point_on(
                        points[at],
                        points[at + 1],
                        positions[at],
                        positions[at + 1],
                        part.1,
                    )->0;
                    let next_end = self.point_on(
                        points[next_at],
                        points[next_at + 1],
                        positions[next_at],
                        positions[next_at + 1],
                        other.1,
                    )->0;
                    &&& 0 <= r < runs.len()
                    &&& 0 <= k < runs[r].len()
                    &&& runs[r][k] == end || is_same_point(runs[r][k], end)
                    &&& 0 <= next_r < runs.len()
                    &&& 0 <= next_k < runs[next_r].len()
                    &&& runs[next_r][next_k] == next_end || is_same_point(
                        runs[next_r][next_k],
                        next_end,
                    )
                    &&& r < next_r || r == next_r && k <= next_k
                },
    {
        let positions = self.all_shown(points)->0;
        let (r, k) = self.lemma_found_point(points, positions, mask, at, i);
        let (next_r, next_k) = self.lemma_found_point(points, positions, mask, next_at, next);
        let left = self.beside_mask(positions[at], positions[at + 1], mask);
        let other = self.beside_mask(positions[next_at], positions[next_at + 1], mask);
        let end = self.point_on(
            points[at],
            points[at + 1],
            positions[at],
            positions[at + 1],
            left[i].1,
        )->0;
        let before = self.runs_before(points, positions, mask, next_at, next)->0;
        if at < next_at {
            self.lemma_runs_before_are_there(points, positions, mask, next_at, next);
            self.lemma_segments_keep_points(
                points,
                positions,
                mask,
                at + 1,
                next_at,
                r,
                k,
                end,
            );
            self.lemma_parts_keep_points(
                self.with_segments(points, positions, mask, next_at)->0,
                points[next_at],
                points[next_at + 1],
                positions[next_at],
                positions[next_at + 1],
                other,
                0,
                next,
                r,
                k,
                end,
            );
        } else {
            self.lemma_parts_keep_points(
                self.with_segments(points, positions, mask, at)->0,
                points[at],
                points[at + 1],
                positions[at],
                positions[at + 1],
                left,
                i + 1,
                next,
                r,
                k,
                end,
            );
        }
        assert(Self::is_point_at(before, r, k, end));
        self.lemma_last_run_is_long(points, positions, mask, points.len() - 1);
        let last = self.with_segments(points, positions, mask, points.len() - 1)->0;
        let runs = self.left_of_stroke(kind, points, mask)->0;
        assert(Self::is_point_at(last, r, k, end));
        if r == last.runs.len() {
            assert(runs[r][k] == last.current[k]);
        } else {
            assert(runs[r][k] == last.runs[r][k]);
        }
        if next_r == last.runs.len() {
            assert(runs[next_r][next_k] == last.current[next_k]);
        } else {
            assert(runs[next_r][next_k] == last.runs[next_r][next_k]);
        }
    }

    /// A bend of a stroke that a mask does not touch stays: where the last part
    /// that is left of a segment goes up to its end, the point at its end, or one
    /// that is the same, is a point of one of the runs.
    pub proof fn law_untouched_points_stay(
        self,
        kind: EditKind,
        points: Seq<PointView>,
        mask: MaskView,
        at: int,
    )
        requires
            self.all_shown(points) is Some,
            self.left_of_stroke(kind, points, mask) is Some,
            0 < at < points.len(),
            ({
                let positions = self.all_shown(points)->0;
                let left = self.beside_mask(positions[at - 1], positions[at], mask);
                left.len() > 0 && is_at_most(NEARLY_THE_END, left.last().1.bits)
            }),
        ensures
            exists|r: int, k: int|
                #![trigger self.left_of_stroke(kind, points, mask)->0[r][k]]
                {
                    let runs = self.left_of_stroke(kind, points, mask)->0;
                    &&& 0 <= r < runs.len()
                    &&& 0 <= k < runs[r].len()
                    &&& runs[r][k] == points[at] || is_same_point(runs[r][k], points[at])
                },
    {
        let positions = self.all_shown(points)->0;
        let runs = self.left_of_stroke(kind, points, mask)->0;
        let left = self.beside_mask(positions[at - 1], positions[at], mask);
        if self.leaves_whole(positions, mask, points.len() - 1) {
            assert(runs[0][at] == points[at]);
        } else {
            let (r, k) = self.lemma_found_point(points, positions, mask, at - 1, left.len() - 1);
            self.lemma_last_run_is_long(points, positions, mask, points.len() - 1);
            let last = self.with_segments(points, positions, mask, points.len() - 1)->0;
            assert(Self::is_point_at(last, r, k, points[at]));
            if r == last.runs.len() {
                assert(runs[r][k] == last.current[k]);
            } else {
                assert(runs[r][k] == last.runs[r][k]);
            }
        }
    }

    /// A stroke that a mask does not touch is left as it is, in one piece.
    pub proof fn law_untouched_strokes_stay_whole(
        self,
        kind: EditKind,
        points: Seq<PointView>,
        mask: MaskView,
    )
        requires
            self.all_shown(points) is Some,
            self.left_of_stroke(kind, points, mask) is Some,
            forall|i: int|
                0 <= i < points.len() - 1 ==> is_whole(
                    self.beside_mask(
                        #[trigger] self.all_shown(points)->0[i],
                        self.all_shown(points)->0[i + 1],
                        mask,
                    ),
                ),
        ensures
            self.left_of_stroke(kind, points, mask) == Some(seq![points]),
    {
    }

    /// Whether a point is where a part that a mask leaves of one of the first
    /// `count` segments starts or ends.
    pub open spec fn is_end_of_a_part(
        self,
        points: Seq<PointView>,
        positions: Seq<Position>,
        mask: MaskView,
        count: int,
        point: PointView,
    ) -> bool {
        exists|at: int, i: int|
            #![trigger self.beside_mask(positions[at], positions[at + 1], mask)[i]]
            {
                let left = self.beside_mask(positions[at], positions[at + 1], mask);
                &&& 0 <= at < count
                &&& 0 <= i < left.len()
                &&& self.point_on(
                    points[at],
                    points[at + 1],
                    positions[at],
                    positions[at + 1],
                    left[i].0,
                ) == Some(point) || self.point_on(
                    points[at],
                    points[at + 1],
                    positions[at],
                    positions[at + 1],
                    left[i].1,
                ) == Some(point)
            }
    }

    spec fn are_ends(
        self,
        points: Seq<PointView>,
        positions: Seq<Position>,
        mask: MaskView,
        count: int,
        runs: StrokeRuns,
    ) -> bool {
        &&& forall|r: int, k: int|
            0 <= r < runs.runs.len() && 0 <= k < runs.runs[r].len() ==> self.is_end_of_a_part(
                points,
                positions,
                mask,
                count,
                #[trigger] runs.runs[r][k],
            )
        &&& forall|k: int|
            0 <= k < runs.current.len() ==> self.is_end_of_a_part(
                points,
                positions,
                mask,
                count,
                #[trigger] runs.current[k],
            )
    }

    proof fn lemma_parts_are_ends(
        self,
        points: Seq<PointView>,
        positions: Seq<Position>,
        mask: MaskView,
        at: int,
        i: int,
    )
        requires
            0 <= at < points.len() - 1,
            0 <= i <= self.beside_mask(positions[at], positions[at + 1], mask).len(),
            self.with_segments(points, positions, mask, at) matches Some(before) ==> self.are_ends(
                points,
                positions,
                mask,
                at + 1,
                before,
            ),
        ensures
            self.runs_before(points, positions, mask, at, i) matches Some(after) ==> self.are_ends(
                points,
                positions,
                mask,
                at + 1,
                after,
            ),
        decreases i,
    {
        if i > 0 {
            self.lemma_parts_are_ends(points, positions, mask, at, i - 1);
            if let Some(after) = self.runs_before(points, positions, mask, at, i) {
                let before = self.runs_before(points, positions, mask, at, i - 1)->0;
                let left = self.beside_mask(positions[at], positions[at + 1], mask);
                let part = left[i - 1];
                let first = self.point_on(
                    points[at],
                    points[at + 1],
                    positions[at],
                    positions[at + 1],
                    part.0,
                )->0;
                let last = self.point_on(
                    points[at],
                    points[at + 1],
                    positions[at],
                    positions[at + 1],
                    part.1,
                )->0;
                assert(self.is_end_of_a_part(points, positions, mask, at + 1, first)) by {
                    assert(self.beside_mask(positions[at], positions[at + 1], mask)[i - 1] == part);
                }
                assert(self.is_end_of_a_part(points, positions, mask, at + 1, last)) by {
                    assert(self.beside_mask(positions[at], positions[at + 1], mask)[i - 1] == part);
                }
                assert forall|r: int, k: int|
                    0 <= r < after.runs.len() && 0 <= k
                        < after.runs[r].len() implies self.is_end_of_a_part(
                    points,
                    positions,
                    mask,
                    at + 1,
                    #[trigger] after.runs[r][k],
                ) by {
                    if r < before.runs.len() {
                        assert(after.runs[r][k] == before.runs[r][k]);
                    } else {
                        assert(after.runs[r][k] == before.current[k]);
                    }
                }
                assert forall|k: int|
                    0 <= k < after.current.len() implies self.is_end_of_a_part(
                    points,
                    positions,
                    mask,
                    at + 1,
                    #[trigger] after.current[k],
                ) by {
                    if after.current[k] != first && after.current[k] != last {
                        assert(after.current[k] == before.current[k]);
                    }
                }
            }
        }
    }

    proof fn lemma_segments_are_ends(
        self,
        points: Seq<PointView>,
        positions: Seq<Position>,
        mask: MaskView,
        count: int,
    )
        requires
            0 <= count < points.len(),
        ensures
            self.with_segments(points, positions, mask, count) matches Some(after)
                ==> self.are_ends(points, positions, mask, count, after),
        decreases count,
    {
        if count > 0 {
            self.lemma_segments_are_ends(points, positions, mask, count - 1);
            assert forall|point: PointView|
                self.is_end_of_a_part(
                    points,
                    positions,
                    mask,
                    count - 1,
                    point,
                ) implies self.is_end_of_a_part(points, positions, mask, count, point) by {
                let (at, i) = choose|at: int, i: int|
                    #![trigger self.beside_mask(positions[at], positions[at + 1], mask)[i]]
                    {
                        let left = self.beside_mask(positions[at], positions[at + 1], mask);
                        &&& 0 <= at < count - 1
                        &&& 0 <= i < left.len()
                        &&& self.point_on(
                            points[at],
                            points[at + 1],
                            positions[at],
                            positions[at + 1],
                            left[i].0,
                        ) == Some(point) || self.point_on(
                            points[at],
                            points[at + 1],
                            positions[at],
                            positions[at + 1],
                            left[i].1,
                        ) == Some(point)
                    };
                let part = self.beside_mask(positions[at], positions[at + 1], mask)[i];
                assert(0 <= at < count);
            }
            if let Some(before) = self.with_segments(points, positions, mask, count - 1) {
                assert(self.are_ends(points, positions, mask, count, before));
            }
            self.lemma_parts_are_ends(
                points,
                positions,
                mask,
                count - 1,
                self.beside_mask(positions[count - 1], positions[count], mask).len() as int,
            );
        }
    }

    /// Cutting adds nothing to a stroke: every point of every run is a point of
    /// the stroke, or where a part that the mask leaves of one of its segments
    /// starts or ends.
    pub proof fn law_runs_are_made_of_what_is_left(
        self,
        kind: EditKind,
        points: Seq<PointView>,
        mask: MaskView,
        r: int,
        k: int,
    )
        requires
            self.left_of_stroke(kind, points, mask) matches Some(runs) && 0 <= r < runs.len() && 0
                <= k < runs[r].len(),
        ensures
            ({
                let point = self.left_of_stroke(kind, points, mask)->0[r][k];
                let positions = self.all_shown(points)->0;
                ||| self.leaves_whole(positions, mask, points.len() - 1) && points.contains(point)
                ||| self.is_end_of_a_part(points, positions, mask, points.len() - 1, point)
            }),
    {
        let positions = self.all_shown(points)->0;
        let runs = self.left_of_stroke(kind, points, mask)->0;
        self.lemma_segments_are_ends(points, positions, mask, points.len() - 1);
        if self.leaves_whole(positions, mask, points.len() - 1) {
            assert(runs[r][k] == points[k]);
        } else {
            let last = self.with_segments(points, positions, mask, points.len() - 1)->0;
            if r < last.runs.len() {
                assert(runs[r][k] == last.runs[r][k]);
            } else {
                assert(runs[r][k] == last.current[k]);
            }
        }
    }

    /// A place as good as an end of a segment is that end, and any other is the
    /// point so far on the way.
    pub proof fn law_points_on_a_segment(
        self,
        start: PointView,
        end: PointView,
        from: Position,
        to: Position,
        place: Double,
        shifted: Option<PointView>,
    )
        requires
            self.wf(),
            self.shifts(start, from, to, place, shifted),
        ensures
            is_at_most(place.bits, BREAK_TOLERANCE) ==> self.point_on(start, end, from, to, place)
                == Some(start),
            is_at_most(NEARLY_THE_END, place.bits) ==> self.point_on(start, end, from, to, place)
                == Some(end),
            !is_at_most(place.bits, BREAK_TOLERANCE) && !is_at_most(NEARLY_THE_END, place.bits)
                ==> self.point_on(start, end, from, to, place) == shifted,
    {
    }

    /// Whether `chosen` says, in order, which of the first `count` stretches
    /// between breaks lie beside a mask.
    spec fn are_stretches_beside(
        self,
        start: Position,
        end: Position,
        breaks: Seq<Double>,
        mask: MaskView,
        count: int,
        chosen: Seq<int>,
    ) -> bool {
        let beside = self.parts_beside(start, end, breaks, mask, count);
        &&& chosen.len() == beside.len()
        &&& forall|m: int|
            0 <= m < chosen.len() ==> 0 <= #[trigger] chosen[m] < count && beside[m] == (
                breaks[chosen[m]],
                breaks[chosen[m] + 1],
            ) && self.is_left(start, end, breaks, mask, chosen[m])
        &&& forall|m: int, n: int|
            0 <= m < n < chosen.len() ==> #[trigger] chosen[m] < #[trigger] chosen[n]
        &&& forall|k: int|
            0 <= k < count && #[trigger] self.is_left(start, end, breaks, mask, k)
                ==> chosen.contains(k)
    }

    /// Whether a stretch between two neighbouring breaks lies beside a mask, and
    /// more than hardly anything is in it.
    pub open spec fn is_left(
        self,
        start: Position,
        end: Position,
        breaks: Seq<Double>,
        mask: MaskView,
        k: int,
    ) -> bool {
        !is_so(self.narrow, breaks[k], breaks[k + 1]) && self.outside.beside(
            start,
            end,
            breaks[k],
            breaks[k + 1],
            mask,
        )
    }

    proof fn lemma_stretches_beside(
        self,
        start: Position,
        end: Position,
        breaks: Seq<Double>,
        mask: MaskView,
        count: int,
    ) -> (chosen: Seq<int>)
        requires
            0 <= count,
        ensures
            self.are_stretches_beside(start, end, breaks, mask, count, chosen),
        decreases count,
    {
        if count == 0 {
            Seq::empty()
        } else {
            let before = self.lemma_stretches_beside(start, end, breaks, mask, count - 1);
            let beside = self.parts_beside(start, end, breaks, mask, count);
            let earlier = self.parts_beside(start, end, breaks, mask, count - 1);
            if self.is_left(start, end, breaks, mask, count - 1) {
                let chosen = before.push(count - 1);
                assert forall|m: int| 0 <= m < chosen.len() implies 0 <= #[trigger] chosen[m]
                    < count && beside[m] == (breaks[chosen[m]], breaks[chosen[m] + 1])
                    && self.is_left(start, end, breaks, mask, chosen[m]) by {
                    if m < before.len() {
                        assert(chosen[m] == before[m]);
                        assert(beside[m] == earlier[m]);
                    }
                }
                assert forall|k: int|
                    0 <= k < count && #[trigger] self.is_left(
                        start,
                        end,
                        breaks,
                        mask,
                        k,
                    ) implies chosen.contains(k) by {
                    if k < count - 1 {
                        assert(chosen[before.index_of(k)] == k);
                    } else {
                        assert(chosen[before.len() as int] == k);
                    }
                }
                chosen
            } else {
                before
            }
        }
    }

    /// No stretch of a segment beside a mask is lost: it lies in one of the parts
    /// that are left.
    pub proof fn law_stretches_beside_a_mask_are_left(
        self,
        start: Position,
        end: Position,
        mask: MaskView,
        k: int,
    )
        requires
            0 <= k < self.ordered_breaks(self.mask_breaks(start, end, mask)).len() - 1,
            self.is_left(
                start,
                end,
                self.ordered_breaks(self.mask_breaks(start, end, mask)),
                mask,
                k,
            ),
        ensures
            exists|p: int|
                #![trigger self.beside_mask(start, end, mask)[p]]
                {
                    let left = self.beside_mask(start, end, mask);
                    let breaks = self.ordered_breaks(self.mask_breaks(start, end, mask));
                    &&& 0 <= p < left.len()
                    &&& left[p].0.place() <= breaks[k].place()
                    &&& breaks[k + 1].place() <= left[p].1.place()
                },
    {
        let found = self.mask_breaks(start, end, mask);
        let breaks = self.ordered_breaks(found);
        law_kept_numbers_stay_in_order(self.near, with_breaks(found, found.len() as int));
        let chosen = self.lemma_stretches_beside(start, end, breaks, mask, breaks.len() - 1);
        let beside = self.parts_beside(start, end, breaks, mask, breaks.len() - 1);
        let left = self.beside_mask(start, end, mask);
        law_joined_parts_are_made_of_all_parts(self.near, beside);
        let (starts, ends) = choose|starts: Seq<int>, ends: Seq<int>| #[trigger]
            are_taken_together(self.near, beside, beside.len() as int, left, starts, ends);
        assert(chosen.contains(k));
        let m = chosen.index_of(k);
        let p = lemma_part_is_in_one(self.near, beside, left, starts, ends, m);
        lemma_stretch_is_covered(breaks, beside, chosen, starts[p], ends[p], m);
        assert(left[p].0 == beside[starts[p]].0 && left[p].1 == beside[ends[p]].1);
        assert(self.beside_mask(start, end, mask)[p] == left[p]);
    }

    /// What a mask hides is gone: every part that is left goes from one break to a
    /// later one, and all stretches between them lie beside the mask. Two places
    /// are near each other whichever is asked about first, and so is everything
    /// between them.
    pub proof fn law_parts_left_lie_beside_the_mask(
        self,
        start: Position,
        end: Position,
        mask: MaskView,
        p: int,
    )
        requires
            forall|a: Double, b: Double| #[trigger]
                is_so(self.near, a, b) ==> is_so(self.near, b, a),
            forall|a: Double, b: Double, c: Double|
                a.place() <= b.place() <= c.place() && #[trigger] is_so(self.near, a, c)
                    ==> #[trigger] is_so(self.near, a, b),
            0 <= p < self.beside_mask(start, end, mask).len(),
        ensures
            exists|i: int, j: int|
                #![trigger self.ordered_breaks(self.mask_breaks(start, end, mask))[i],
                    self.ordered_breaks(self.mask_breaks(start, end, mask))[j]]
                {
                    let breaks = self.ordered_breaks(self.mask_breaks(start, end, mask));
                    &&& 0 <= i < j < breaks.len()
                    &&& self.beside_mask(start, end, mask)[p] == (breaks[i], breaks[j])
                    &&& forall|k: int|
                        i <= k < j ==> #[trigger] self.is_left(start, end, breaks, mask, k)
                },
    {
        let found = self.mask_breaks(start, end, mask);
        let breaks = self.ordered_breaks(found);
        law_kept_numbers_stay_in_order(self.near, with_breaks(found, found.len() as int));
        let chosen = self.lemma_stretches_beside(start, end, breaks, mask, breaks.len() - 1);
        let beside = self.parts_beside(start, end, breaks, mask, breaks.len() - 1);
        let left = self.beside_mask(start, end, mask);
        law_joined_parts_are_made_of_all_parts(self.near, beside);
        let (starts, ends) = choose|starts: Seq<int>, ends: Seq<int>| #[trigger]
            are_taken_together(self.near, beside, beside.len() as int, left, starts, ends);
        let first = starts[p];
        let last = ends[p];
        assert(is_taken_together(self.near, beside, first, last, left[p]));
        self.lemma_joined_stretches(start, end, breaks, mask, beside, chosen, first, last);
        let i = chosen[first];
        let j = chosen[last] + 1;
        assert(beside[first] == (breaks[i], breaks[i + 1]));
        assert(beside[last] == (breaks[j - 1], breaks[j]));
        assert(left[p] == (breaks[i], breaks[j]));
        assert(chosen[last] == i + (last - first));
        assert forall|k: int| i <= k < j implies #[trigger] self.is_left(
            start,
            end,
            breaks,
            mask,
            k,
        ) by {
            assert(chosen[first + (k - i)] == k);
        }
    }

    proof fn lemma_joined_stretches(
        self,
        start: Position,
        end: Position,
        breaks: Seq<Double>,
        mask: MaskView,
        beside: Seq<(Double, Double)>,
        chosen: Seq<int>,
        first: int,
        last: int,
    )
        requires
            forall|a: Double, b: Double| #[trigger]
                is_so(self.near, a, b) ==> is_so(self.near, b, a),
            forall|a: Double, b: Double, c: Double|
                a.place() <= b.place() <= c.place() && #[trigger] is_so(self.near, a, c)
                    ==> #[trigger] is_so(self.near, a, b),
            forall|k: int, l: int|
                0 <= k < l < breaks.len() ==> (#[trigger] breaks[k]).place() <= (
                #[trigger] breaks[l]).place(),
            forall|k: int|
                0 < k < breaks.len() ==> !is_so(self.near, #[trigger] breaks[k], breaks[k - 1]),
            beside == self.parts_beside(start, end, breaks, mask, breaks.len() - 1),
            self.are_stretches_beside(start, end, breaks, mask, breaks.len() - 1, chosen),
            0 <= first <= last < beside.len(),
            forall|i: int|
                first < i <= last ==> is_so(self.near, beside[i - 1].1, (#[trigger] beside[i]).0),
        ensures
            forall|m: int| first <= m <= last ==> #[trigger] chosen[m] == chosen[first] + (m - first),
        decreases last - first,
    {
        if first < last {
            self.lemma_joined_stretches(
                start,
                end,
                breaks,
                mask,
                beside,
                chosen,
                first,
                last - 1,
            );
            let a = chosen[last - 1] + 1;
            let b = chosen[last];
            assert(chosen[last - 1] < chosen[last]);
            assert(is_so(self.near, beside[last - 1].1, beside[last].0));
            assert(beside[last - 1] == (breaks[chosen[last - 1]], breaks[a]));
            assert(beside[last] == (breaks[b], breaks[b + 1]));
            assert(is_so(self.near, breaks[a], breaks[b]));
            if a < b {
                assert(breaks[a].place() <= breaks[a + 1].place());
                if a + 1 < b {
                    assert(breaks[a + 1].place() <= breaks[b].place());
                }
                assert(is_so(self.near, breaks[a], breaks[a + 1]));
                assert(is_so(self.near, breaks[a + 1], breaks[a]));
                assert(!is_so(self.near, breaks[a + 1], breaks[(a + 1) - 1]));
                assert(false);
            }
        }
    }

    proof fn lemma_band_breaks_hold(
        self,
        start: Position,
        end: Position,
        lines: Seq<(Position, Position)>,
        radius: u64,
        count: int,
        at: int,
        value: Double,
    )
        requires
            0 <= at < count,
            self.circle_breaks(start, end, lines[at].0, radius).contains(value)
                || self.circle_breaks(start, end, lines[at].1, radius).contains(value)
                || self.side_breaks(start, end, lines[at].0, lines[at].1, radius).contains(value),
        ensures
            self.band_breaks(start, end, lines, radius, count).contains(value),
        decreases count,
    {
        let before = self.band_breaks(start, end, lines, radius, count - 1);
        let line = lines[count - 1];
        let one = self.circle_breaks(start, end, line.0, radius);
        let two = self.circle_breaks(start, end, line.1, radius);
        let three = self.side_breaks(start, end, line.0, line.1, radius);
        let all = self.band_breaks(start, end, lines, radius, count);
        assert(all == before + one + two + three);
        if at < count - 1 {
            self.lemma_band_breaks_hold(start, end, lines, radius, count - 1, at, value);
            assert(all[before.index_of(value)] == value);
        } else if one.contains(value) {
            assert(all[before.len() + one.index_of(value)] == value);
        } else if two.contains(value) {
            assert(all[before.len() + one.len() + two.index_of(value)] == value);
        } else {
            assert(all[before.len() + one.len() + two.len() + three.index_of(value)] == value);
        }
    }

    /// A segment is broken wherever it may enter or leave the mask: where it meets
    /// the circle around an end of any line of the mask, or the sides of its band.
    pub proof fn law_masks_break_a_segment_at_every_line(
        self,
        start: Position,
        end: Position,
        mask: MaskView,
        at: int,
        list: Seq<Double>,
        value: Double,
    )
        requires
            self.wf(),
            list.contains(value),
            mask.closed || mask.figure.len() >= 2,
            ({
                let lines = if mask.closed {
                    edges(mask.figure)
                } else {
                    Seq::new(
                        (mask.figure.len() - 1) as nat,
                        |i: int| (mask.figure[i], mask.figure[i + 1]),
                    )
                };
                &&& 0 <= at < lines.len()
                &&& self.circles(start, end, lines[at].0, mask.radius, list) || self.circles(
                    start,
                    end,
                    lines[at].1,
                    mask.radius,
                    list,
                ) || self.bands(start, end, lines[at].0, lines[at].1, mask.radius, list)
            }),
        ensures
            self.mask_breaks(start, end, mask).contains(value),
    {
        let lines = if mask.closed {
            edges(mask.figure)
        } else {
            Seq::new(
                (mask.figure.len() - 1) as nat,
                |i: int| (mask.figure[i], mask.figure[i + 1]),
            )
        };
        if !mask.closed {
            assert(lines =~= path_lines(mask.figure));
        }
        self.lemma_band_breaks_hold(
            start,
            end,
            lines,
            mask.radius,
            lines.len() as int,
            at,
            value,
        );
    }

    /// A path of a single point breaks a segment where it meets the circle around
    /// that point.
    pub proof fn law_dots_break_a_segment(
        self,
        start: Position,
        end: Position,
        mask: MaskView,
        list: Seq<Double>,
    )
        requires
            self.wf(),
            !mask.closed,
            mask.figure.len() == 1,
            self.circles(start, end, mask.figure[0], mask.radius, list),
        ensures
            self.mask_breaks(start, end, mask) == list,
    {
    }

    /// Every break that is found on a segment, and both of its ends, are among the
    /// breaks in order, or near one of them.
    pub proof fn law_found_breaks_are_kept(self, found: Seq<Double>, value: Double, place: Double)
        requires
            found.contains(value),
            unit_break(value) == Some(place),
        ensures
            ({
                let breaks = self.ordered_breaks(found);
                &&& exists|k: int|
                    0 <= k < breaks.len() && (#[trigger] breaks[k] == place || is_so(
                        self.near,
                        place,
                        breaks[k],
                    ))
                &&& exists|k: int|
                    0 <= k < breaks.len() && (#[trigger] breaks[k] == Double { bits: 0 } || is_so(
                        self.near,
                        Double { bits: 0 },
                        breaks[k],
                    ))
                &&& exists|k: int|
                    0 <= k < breaks.len() && (#[trigger] breaks[k] == Double { bits: ONE_DOUBLE }
                        || is_so(self.near, Double { bits: ONE_DOUBLE }, breaks[k]))
            }),
    {
        let all = with_breaks(found, found.len() as int);
        lemma_with_breaks_hold(found, found.len() as int, found.index_of(value), place);
        law_kept_numbers_stay_in_order(self.near, all);
        let breaks = self.ordered_breaks(found);
        assert(breaks == apart(self.near, ordered(all), ordered(all).len() as int));
        assert(all.contains(place));
        assert(all.contains(Double { bits: 0 }));
        assert(all.contains(Double { bits: ONE_DOUBLE }));
    }

    fn cut_segment(
        &self,
        runs: &mut RunsInWork,
        points: &Vec<CanvasPoint>,
        positions: &Vec<Position>,
        mask: &StrokeMask,
        i: usize,
    ) -> (whole: Option<bool>)
        requires
            self.wf(),
            i + 1 < points@.len(),
            points@.len() == positions@.len(),
            self.with_segments(point_views(points@), positions@, mask@, i as int) == Some(
                old(runs)@,
            ),
        ensures
            match self.with_segments(point_views(points@), positions@, mask@, i + 1) {
                Some(expected) => whole == Some(
                    is_whole(self.beside_mask(positions@[i as int], positions@[i + 1], mask@)),
                ) && final(runs)@ == expected,
                None => whole is None,
            },
    {
        let count: usize = positions.len();
        assert(i + 1 < count);
        let from: Position = positions[i];
        let to: Position = positions[i + 1];
        let left: Vec<(Double, Double)> = self.parts_beside_mask(from, to, mask);
        assert(point_views(points@)[i as int] == points@[i as int]@);
        assert(point_views(points@)[i + 1] == points@[i + 1]@);
        if self.add_parts(runs, &points[i], &points[i + 1], from, to, &left) {
            Some(
                left.len() == 1 && doubles_match(left[0].0.bits, 0) && doubles_match(
                    left[0].1.bits,
                    ONE_DOUBLE,
                ),
            )
        } else {
            None
        }
    }

    fn cut_segments(
        &self,
        points: &Vec<CanvasPoint>,
        positions: &Vec<Position>,
        mask: &StrokeMask,
    ) -> (cut: Option<(RunsInWork, bool)>)
        requires
            self.wf(),
            2 <= points@.len() == positions@.len(),
        ensures
            match self.with_segments(
                point_views(points@),
                positions@,
                mask@,
                points@.len() - 1,
            ) {
                Some(expected) => cut is Some && (cut->0).0@ == expected && (cut->0).1
                    == self.leaves_whole(positions@, mask@, points@.len() - 1),
                None => cut is None,
            },
    {
        let ghost views = point_views(points@);
        let mut runs = RunsInWork { runs: Vec::new(), current: Vec::new(), end: None };
        assert(lists_of_points(runs.runs@) =~= Seq::<Seq<PointView>>::empty());
        assert(point_views(runs.current@) =~= Seq::<PointView>::empty());
        let mut whole: bool = true;
        let mut i: usize = 0;
        while i < points.len() - 1
            invariant
                self.wf(),
                2 <= points@.len() == positions@.len(),
                i < points@.len(),
                views == point_views(points@),
                whole == self.leaves_whole(positions@, mask@, i as int),
                self.with_segments(views, positions@, mask@, i as int) == Some(runs@),
            decreases points@.len() - i,
        {
            match self.cut_segment(&mut runs, points, positions, mask, i) {
                Some(leaves) => {
                    whole = whole && leaves;
                },
                None => {
                    proof {
                        self.lemma_lost_segment_stays_lost(
                            views,
                            positions@,
                            mask@,
                            i + 1,
                            points@.len() - 1,
                        );
                    }
                    return None;
                },
            }
            assert(whole == self.leaves_whole(positions@, mask@, i + 1)) by {
                assert(self.leaves_whole(positions@, mask@, i + 1) ==> is_whole(
                    self.beside_mask(positions@[i as int], positions@[i + 1], mask@),
                ));
            }
            i = i + 1;
        }
        Some((runs, whole))
    }

    /// What a mask leaves of a stroke: its runs, all of it where the mask does
    /// not touch it; none where that is not representable.
    pub fn subtract_paint_stroke_with(&self, operation: &EditOperation, mask: &StrokeMask) -> (
    result: Option<Vec<Vec<CanvasPoint>>>)
        requires
            self.wf(),
        ensures
            optional_lists(result) == self.left_of_stroke(
                operation.kind,
                point_views(operation.points@),
                mask@,
            ),
    {
        let ghost views = point_views(operation.points@);
        assert(views.len() == operation.points@.len());
        if operation.kind != EditKind::Paint || operation.points.len() < 2 {
            return None;
        }
        let positions: Vec<Position> = match self.show_all(&operation.points) {
            Some(positions) => positions,
            None => {
                return None;
            },
        };
        let (runs, whole): (RunsInWork, bool) = match self.cut_segments(
            &operation.points,
            &positions,
            mask,
        ) {
            Some(cut) => cut,
            None => {
                return None;
            },
        };
        let mut result: Vec<Vec<CanvasPoint>> = Vec::new();
        if whole {
            result.push(clone_points(&operation.points));
            assert(lists_of_points(result@) =~= seq![views]);
            return Some(result);
        }
        let RunsInWork { runs: mut finished, current, end } = runs;
        let ghost before = finished@;
        if current.len() >= 2 {
            finished.push(current);
            assert(lists_of_points(finished@) =~= lists_of_points(before).push(
                point_views(current@),
            ));
        }
        Some(finished)
    }

    /// A path cuts a stroke only where it has points, all of them finite, and a
    /// width; how wide it is then matters only by how far around it is erased.
    pub proof fn law_paths_cut_where_they_have_a_width(
        self,
        operation: EditOperation,
        path: Seq<Position>,
        width: u32,
        other: u32,
        radius: u64,
    )
        ensures
            path.len() == 0 ==> self.left_by_path(operation, path, width, radius) is None,
            !is_positive_single(width) ==> self.left_by_path(operation, path, width, radius)
                is None,
            !is_positive_double(radius) ==> self.left_by_path(operation, path, width, radius)
                is None,
            (exists|i: int| 0 <= i < path.len() && !is_somewhere(#[trigger] path[i]))
                ==> self.left_by_path(operation, path, width, radius) is None,
            is_positive_single(width) && is_positive_single(other) ==> self.left_by_path(
                operation,
                path,
                width,
                radius,
            ) == self.left_by_path(operation, path, other, radius),
            path.len() > 0 && is_positive_single(width) && is_positive_double(radius) && (forall|
                i: int,
            |
                0 <= i < path.len() ==> is_somewhere(#[trigger] path[i])) ==> self.left_by_path(
                operation,
                path,
                width,
                radius,
            ) == self.left_of_stroke(
                operation.kind,
                point_views(operation.points@),
                (MaskView { figure: path, closed: false, radius }),
            ),
    {
    }

    /// What the path of an eraser leaves of a stroke: none where the path is
    /// nowhere or has no width.
    pub open spec fn left_by_path(
        self,
        operation: EditOperation,
        path: Seq<Position>,
        width: u32,
        radius: u64,
    ) -> Option<Seq<Seq<PointView>>> {
        if path.len() == 0 || !is_positive_single(width) || !(forall|i: int|
            0 <= i < path.len() ==> is_somewhere(#[trigger] path[i])) || !is_positive_double(
            radius,
        ) {
            None
        } else {
            self.left_of_stroke(
                operation.kind,
                point_views(operation.points@),
                (MaskView { figure: path, closed: false, radius }),
            )
        }
    }

    /// What the path of an eraser leaves of a stroke: none where the path is
    /// nowhere or has no width. `radius` is how far around the path the middle
    /// of the stroke is erased.
    pub fn subtract_paint_stroke_by_path(
        &self,
        operation: &EditOperation,
        eraser_points: Vec<Position>,
        eraser_width: u32,
        radius: u64,
    ) -> (result: Option<Vec<Vec<CanvasPoint>>>)
        requires
            self.wf(),
        ensures
            optional_lists(result) == self.left_by_path(
                *operation,
                eraser_points@,
                eraser_width,
                radius,
            ),
    {
        if eraser_points.len() == 0 || eraser_width == 0 || eraser_width >= INFINITE_MAGNITUDE {
            return None;
        }
        let mut i: usize = 0;
        while i < eraser_points.len()
            invariant
                i <= eraser_points@.len(),
                forall|k: int| 0 <= k < i ==> is_somewhere(#[trigger] eraser_points@[k]),
            decreases eraser_points@.len() - i,
        {
            if !position_is_finite(eraser_points[i]) {
                return None;
            }
            i = i + 1;
        }
        if !positive_double(radius) {
            return None;
        }
        self.subtract_paint_stroke_with(
            operation,
            &StrokeMask { figure: eraser_points, closed: false, radius },
        )
    }

    /// What a polygon leaves of a stroke: none where the polygon has no inside.
    pub open spec fn left_by_polygon<A, C, L, X, I>(
        self,
        operation: EditOperation,
        plane: Plane<A, C, L, X, I>,
        polygon: Seq<Position>,
        radius: u64,
    ) -> Option<Seq<Seq<PointView>>> where
        A: Fn(&Vec<Position>) -> u32,
        C: Fn(Position, Position, Position) -> u32,
        L: Fn(Position, Position, Position) -> bool,
        X: Fn(Position, Position, Position, Position) -> Option<Position>,
        I: PolygonTest,
     {
        let outline = plane.normalized(polygon);
        if outline.len() < 3 || less_than(
            magnitude(plane.area_of(outline)),
            MIN_FILL_FRAGMENT_AREA_TWICE,
        ) || !is_positive_double(radius) {
            None
        } else {
            self.left_of_stroke(
                operation.kind,
                point_views(operation.points@),
                (MaskView { figure: outline, closed: true, radius }),
            )
        }
    }

    /// What a polygon leaves of a stroke: none where the polygon has no inside.
    /// `radius` is how far around it the middle of the stroke is erased.
    pub fn subtract_paint_stroke_by_polygon<A, C, L, X, I>(
        &self,
        operation: &EditOperation,
        plane: &Plane<A, C, L, X, I>,
        polygon: &Vec<Position>,
        radius: u64,
    ) -> (result: Option<Vec<Vec<CanvasPoint>>>) where
        A: Fn(&Vec<Position>) -> u32,
        C: Fn(Position, Position, Position) -> u32,
        L: Fn(Position, Position, Position) -> bool,
        X: Fn(Position, Position, Position, Position) -> Option<Position>,
        I: PolygonTest,

        requires
            self.wf(),
            plane.wf(),
        ensures
            optional_lists(result) == self.left_by_polygon(*operation, *plane, polygon@, radius),
    {
        let outline: Vec<Position> = plane.normalized_pos_polygon(polygon);
        if outline.len() < 3 || plane.is_smaller_than(&outline, MIN_FILL_FRAGMENT_AREA_TWICE) {
            return None;
        }
        if !positive_double(radius) {
            return None;
        }
        self.subtract_paint_stroke_with(
            operation,
            &StrokeMask { figure: outline, closed: true, radius },
        )
    }
}

/// What an optional point is, mathematically.
pub open spec fn optional_view(point: Option<CanvasPoint>) -> Option<PointView> {
    match point {
        Some(point) => Some(point@),
        None => None,
    }
}

/// The ends of a segment, and the first `count` breaks that lie on it.
pub open spec fn with_breaks(found: Seq<Double>, count: int) -> Seq<Double>
    decreases count,
{
    if count <= 0 {
        seq![Double { bits: 0 }, Double { bits: ONE_DOUBLE }]
    } else {
        match unit_break(found[count - 1]) {
            Some(place) => with_breaks(found, count - 1).push(place),
            None => with_breaks(found, count - 1),
        }
    }
}

proof fn lemma_stretch_is_covered(
    breaks: Seq<Double>,
    beside: Seq<(Double, Double)>,
    chosen: Seq<int>,
    first: int,
    last: int,
    m: int,
)
    requires
        forall|k: int, l: int|
            0 <= k < l < breaks.len() ==> (#[trigger] breaks[k]).place() <= (
            #[trigger] breaks[l]).place(),
        forall|n: int|
            0 <= n < chosen.len() ==> 0 <= #[trigger] chosen[n] < breaks.len() - 1 && beside[n] == (
                breaks[chosen[n]],
                breaks[chosen[n] + 1],
            ),
        forall|n: int, o: int|
            0 <= n < o < chosen.len() ==> #[trigger] chosen[n] < #[trigger] chosen[o],
        0 <= first <= m <= last < chosen.len(),
    ensures
        beside[first].0.place() <= breaks[chosen[m]].place(),
        breaks[chosen[m] + 1].place() <= beside[last].1.place(),
{
    let k = chosen[m];
    let i = chosen[first];
    let j = chosen[last];
    assert(i <= k <= j);
    if i < k {
        assert(breaks[i].place() <= breaks[k].place());
    }
    if k < j {
        assert(breaks[k + 1].place() <= breaks[j + 1].place());
    }
}

proof fn lemma_with_breaks_hold(found: Seq<Double>, count: int, at: int, place: Double)
    requires
        0 <= at < count,
        unit_break(found[at]) == Some(place),
    ensures
        with_breaks(found, count).contains(place),
        with_breaks(found, count).contains(Double { bits: 0 }),
        with_breaks(found, count).contains(Double { bits: ONE_DOUBLE }),
    decreases count,
{
    let all = with_breaks(found, count);
    let before = with_breaks(found, count - 1);
    lemma_ends_are_breaks(found, count);
    if at < count - 1 {
        lemma_with_breaks_hold(found, count - 1, at, place);
        assert(all[before.index_of(place)] == place);
    } else {
        assert(all[before.len() as int] == place);
    }
}

proof fn lemma_ends_are_breaks(found: Seq<Double>, count: int)
    ensures
        with_breaks(found, count).len() >= 2,
        with_breaks(found, count)[0] == (Double { bits: 0 }),
        with_breaks(found, count)[1] == (Double { bits: ONE_DOUBLE }),
    decreases count,
{
    if count > 0 {
        lemma_ends_are_breaks(found, count - 1);
    }
}

/// The lines of a path.
pub open spec fn path_lines(path: Seq<Position>) -> Seq<(Position, Position)> {
    if path.len() < 2 {
        Seq::empty()
    } else {
        Seq::new((path.len() - 1) as nat, |i: int| (path[i], path[i + 1]))
    }
}

pub(crate) fn lines_of_path(path: &Vec<Position>) -> (lines: Vec<(Position, Position)>)
    ensures
        lines@ == path_lines(path@),
{
    let mut lines: Vec<(Position, Position)> = Vec::new();
    if path.len() < 2 {
        return lines;
    }
    let mut i: usize = 0;
    while i < path.len() - 1
        invariant
            2 <= path@.len(),
            i < path@.len(),
            lines@ == path_lines(path@).take(i as int),
        decreases path@.len() - i,
    {
        lines.push((path[i], path[i + 1]));
        assert(path_lines(path@).take(i + 1) =~= path_lines(path@).take(i as int).push(
            path_lines(path@)[i as int],
        ));
        i = i + 1;
    }
    assert(path_lines(path@).take(i as int) =~= path_lines(path@));
    lines
}

/// What tells whether all of a line lies in a polygon.
pub trait SegmentCover {
    /// Whether it can be asked.
    spec fn is_ready(&self) -> bool;

    /// Whether all of the line between two positions lies in the polygon.
    spec fn hidden(&self, start: Position, end: Position, polygon: Seq<Position>) -> bool;

    fn is_hidden(&self, start: Position, end: Position, polygon: &Vec<Position>) -> (result: bool)
        requires
            self.is_ready(),
        ensures
            result == self.hidden(start, end, polygon@),
    ;
}

impl<
    P: Fn(&CanvasPoint) -> Option<Position>,
    R: Fn(Position, Position, Position, u64) -> Vec<Double>,
    S: Fn(Position, Position, Position, Position, u64) -> Vec<Double>,
    N: Fn(Double, Double) -> bool,
    W: Fn(Double, Double) -> bool,
    O: MaskSide,
    M: Fn(Position, Position, Double) -> Position,
    T: Fn(&CanvasPoint, Position, Position, Double) -> Option<CanvasPoint>,
    J: Fn(Position, Position) -> bool,
> SegmentCover for StrokeCut<P, R, S, N, W, O, M, T, J> {
    open spec fn is_ready(&self) -> bool {
        self.wf()
    }

    open spec fn hidden(&self, start: Position, end: Position, polygon: Seq<Position>) -> bool {
        self.beside_mask(
            start,
            end,
            (MaskView { figure: polygon, closed: true, radius: 0 }),
        ).len() == 0
    }

    fn is_hidden(&self, start: Position, end: Position, polygon: &Vec<Position>) -> (result: bool) {
        self.paint_segment_outside_polygon_mask(start, end, copied(polygon), 0).len() == 0
    }
}

/// What a stroke is cut with: what lies within a radius of a path, or of a
/// polygon, whose inside is part of it. The radius is a bit pattern.
pub struct StrokeMask {
    pub figure: Vec<Position>,
    /// Whether the figure is a polygon.
    pub closed: bool,
    pub radius: u64,
}

/// What a mask is, mathematically.
pub struct MaskView {
    pub figure: Seq<Position>,
    pub closed: bool,
    pub radius: u64,
}

impl View for StrokeMask {
    type V = MaskView;

    open spec fn view(&self) -> MaskView {
        MaskView { figure: self.figure@, closed: self.closed, radius: self.radius }
    }
}

/// Whether all of a segment is left.
pub open spec fn is_whole(list: Seq<(Double, Double)>) -> bool {
    list.len() == 1 && equal_doubles(list[0].0.bits, 0) && equal_doubles(
        list[0].1.bits,
        ONE_DOUBLE,
    )
}

/// Whether a pattern is a finite single-precision number greater than zero.
pub open spec fn is_positive_single(bits: u32) -> bool {
    0 < bits < INFINITE_MAGNITUDE
}

/// The points of the lists, where there are any lists.
pub open spec fn optional_lists(lists: Option<Vec<Vec<CanvasPoint>>>) -> Option<
    Seq<Seq<PointView>>,
> {
    match lists {
        Some(lists) => Some(lists_of_points(lists@)),
        None => None,
    }
}

struct RunsInWork {
    runs: Vec<Vec<CanvasPoint>>,
    current: Vec<CanvasPoint>,
    end: Option<Position>,
}

impl View for RunsInWork {
    type V = StrokeRuns;

    closed spec fn view(&self) -> StrokeRuns {
        StrokeRuns {
            runs: lists_of_points(self.runs@),
            current: point_views(self.current@),
            end: self.end,
        }
    }
}

} // verus!
