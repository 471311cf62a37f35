//! What of a line on the screen lies in a polygon.

use crate::intervals::{
    answers, apart, is_so, law_kept_numbers_stay_in_order, ordered, push_screen_break,
    screen_break, sorted_numbers, without_neighbours, Placed, Single, ONE_SINGLE,
};
use crate::plane::{copied, edges, figures, polygon_edges_pos};
use crate::regions::PolygonTest;
use crate::screen::Position;
use vstd::prelude::*;

verus! {

/// What clipping a line rests on that comes from floating-point arithmetic.
pub struct LineClip<X, N, W, K, M, J, F, I> {
    /// Where the line between two positions meets that between two others; none
    /// where it does not.
    pub meet: X,
    /// Whether two places on a line are the same but for rounding.
    pub near: N,
    /// Whether hardly anything lies between two places on a line.
    pub narrow: W,
    /// The position in the middle between two places on a line.
    pub middle: K,
    /// The position at a place between two others.
    pub along: M,
    /// Whether two positions are the same but for rounding.
    pub touch: J,
    /// Whether two positions are apart.
    pub far: F,
    /// Whether a position lies in a polygon.
    pub inside: I,
}

/// A line while it is put together from what lies inside.
pub struct LineRuns {
    pub runs: Seq<Seq<Position>>,
    pub current: Seq<Position>,
}

impl LineRuns {
    /// Whether every finished run has at least two points.
    pub open spec fn are_long(self) -> bool {
        forall|i: int| 0 <= i < self.runs.len() ==> (#[trigger] self.runs[i]).len() >= 2
    }
}

impl<
    X: Fn(Position, Position, Position, Position) -> Option<Single>,
    N: Fn(Single, Single) -> bool,
    W: Fn(Single, Single) -> bool,
    K: Fn(Position, Position, Single, Single) -> Position,
    M: Fn(Position, Position, Single) -> Position,
    J: Fn(Position, Position) -> bool,
    F: Fn(Position, Position) -> bool,
    I: PolygonTest,
> LineClip<X, N, W, K, M, J, F, I> {
    /// Everything can be asked, and asking twice gives the same answer.
    pub open spec fn wf(self) -> bool {
        &&& answers::<Single, N>(self.near)
        &&& answers::<Single, W>(self.narrow)
        &&& answers::<Position, J>(self.touch)
        &&& answers::<Position, F>(self.far)
        &&& forall|a: Position, b: Position, c: Position, d: Position| #[trigger]
            call_requires(self.meet, (a, b, c, d))
        &&& forall|a: Position, b: Position, x: Single, y: Single| #[trigger]
            call_requires(self.middle, (a, b, x, y))
        &&& forall|a: Position, b: Position, x: Single| #[trigger]
            call_requires(self.along, (a, b, x))
        &&& self.inside.is_ready()
        &&& forall|
            a: Position,
            b: Position,
            c: Position,
            d: Position,
            one: Option<Single>,
            other: Option<Single>,
        | #[trigger]
            call_ensures(self.meet, (a, b, c, d), one) && #[trigger] call_ensures(
                self.meet,
                (a, b, c, d),
                other,
            ) ==> one == other
        &&& forall|a: Position, b: Position, x: Single, y: Single, one: Position, other: Position|
         #[trigger]
            call_ensures(self.middle, (a, b, x, y), one) && #[trigger] call_ensures(
                self.middle,
                (a, b, x, y),
                other,
            ) ==> one == other
        &&& forall|a: Position, b: Position, x: Single, one: Position, other: Position| #[trigger]
            call_ensures(self.along, (a, b, x), one) && #[trigger] call_ensures(
                self.along,
                (a, b, x),
                other,
            ) ==> one == other
    }

    /// Where a line meets another one.
    pub open spec fn meeting(self, start: Position, end: Position, edge: (Position, Position)) -> Option<
        Single,
    > {
        choose|answer: Option<Single>|
            call_ensures(self.meet, (start, end, edge.0, edge.1), answer)
    }

    /// The position in the middle between two places on a line.
    pub open spec fn middle_of(self, start: Position, end: Position, from: Single, to: Single) -> Position {
        choose|answer: Position| call_ensures(self.middle, (start, end, from, to), answer)
    }

    /// The position at a place on a line.
    pub open spec fn position_at(self, start: Position, end: Position, place: Single) -> Position {
        choose|answer: Position| call_ensures(self.along, (start, end, place), answer)
    }

    /// Whether a position lies in a polygon.
    pub open spec fn is_in(self, point: Position, polygon: Seq<Position>) -> bool {
        self.inside.has(point, polygon)
    }

    fn lies_in(&self, point: Position, polygon: &Vec<Position>) -> (answer: bool)
        requires
            self.wf(),
        ensures
            answer == self.is_in(point, polygon@),
    {
        self.inside.test(point, polygon)
    }

    /// The ends of a line, and where it meets the first `count` edges.
    pub open spec fn breaks(
        self,
        start: Position,
        end: Position,
        lines: Seq<(Position, Position)>,
        count: int,
    ) -> Seq<Single>
        decreases count,
    {
        if count <= 0 {
            seq![Single { bits: 0 }, Single { bits: ONE_SINGLE }]
        } else {
            let before = self.breaks(start, end, lines, count - 1);
            match self.meeting(start, end, lines[count - 1]) {
                None => before,
                Some(place) => match screen_break(place) {
                    None => before,
                    Some(place) => before.push(place),
                },
            }
        }
    }

    /// The breaks of a line, in order.
    pub open spec fn ordered_breaks(
        self,
        start: Position,
        end: Position,
        polygon: Seq<Position>,
    ) -> Seq<Single> {
        let all = ordered(self.breaks(start, end, edges(polygon), edges(polygon).len() as int));
        apart(self.near, all, all.len() as int)
    }

    /// Those of the first `count` parts of a line that lie in a polygon.
    pub open spec fn parts_inside(
        self,
        start: Position,
        end: Position,
        polygon: Seq<Position>,
        breaks: Seq<Single>,
        count: int,
    ) -> Seq<(Position, Position)>
        decreases count,
    {
        if count <= 0 {
            Seq::empty()
        } else {
            let before = self.parts_inside(start, end, polygon, breaks, count - 1);
            let from = breaks[count - 1];
            let to = breaks[count];
            if !is_so(self.narrow, from, to) && self.is_in(
                self.middle_of(start, end, from, to),
                polygon,
            ) {
                before.push(
                    (self.position_at(start, end, from), self.position_at(start, end, to)),
                )
            } else {
                before
            }
        }
    }

    /// The parts of a line that lie in a polygon.
    pub open spec fn segment_inside(
        self,
        start: Position,
        end: Position,
        polygon: Seq<Position>,
    ) -> Seq<(Position, Position)> {
        let breaks = self.ordered_breaks(start, end, polygon);
        self.parts_inside(start, end, polygon, breaks, breaks.len() - 1)
    }

    /// The parts of a line that lie in a polygon.
    pub fn clipped_segment_inside_polygon(
        &self,
        start: Position,
        end: Position,
        polygon: &Vec<Position>,
    ) -> (result: Vec<(Position, Position)>)
        requires
            self.wf(),
        ensures
            result@ == self.segment_inside(start, end, polygon@),
    {
        let lines: Vec<(Position, Position)> = polygon_edges_pos(polygon);
        let mut values: Vec<Single> = Vec::new();
        values.push(Single { bits: 0 });
        values.push(Single { bits: ONE_SINGLE });
        assert(values@ =~= self.breaks(start, end, lines@, 0));
        let mut i: usize = 0;
        while i < lines.len()
            invariant
                self.wf(),
                i <= lines@.len(),
                values@ == self.breaks(start, end, lines@, i as int),
            decreases lines@.len() - i,
        {
            let meeting: Option<Single> = (self.meet)(start, end, lines[i].0, lines[i].1);
            assert(meeting == self.meeting(start, end, lines@[i as int]));
            if let Some(place) = meeting {
                push_screen_break(&mut values, place);
            }
            i = i + 1;
        }
        let sorted: Vec<Single> = sorted_numbers(&values);
        let breaks: Vec<Single> = without_neighbours(&sorted, &self.near);
        let mut result: Vec<(Position, Position)> = Vec::new();
        if breaks.len() == 0 {
            return result;
        }
        let mut k: usize = 0;
        while k < breaks.len() - 1
            invariant
                self.wf(),
                k < breaks@.len(),
                result@ == self.parts_inside(start, end, polygon@, breaks@, k as int),
            decreases breaks@.len() - k,
        {
            let from: Single = breaks[k];
            let to: Single = breaks[k + 1];
            if !(self.narrow)(from, to) {
                let middle: Position = (self.middle)(start, end, from, to);
                if self.lies_in(middle, polygon) {
                    let first: Position = (self.along)(start, end, from);
                    let last: Position = (self.along)(start, end, to);
                    result.push((first, last));
                }
            }
            k = k + 1;
        }
        result
    }

    /// The runs of a line with one more part.
    pub open spec fn with_part(self, runs: LineRuns, part: (Position, Position)) -> LineRuns {
        let current = runs.current;
        if current.len() > 0 && is_so(self.touch, current.last(), part.0) {
            LineRuns {
                runs: runs.runs,
                current: if is_so(self.far, current.last(), part.1) {
                    current.push(part.1)
                } else {
                    current
                },
            }
        } else {
            let start = if current.len() >= 2 {
                seq![part.0]
            } else {
                current.push(part.0)
            };
            LineRuns {
                runs: if current.len() >= 2 {
                    runs.runs.push(current)
                } else {
                    runs.runs
                },
                current: if is_so(self.far, part.0, part.1) {
                    start.push(part.1)
                } else {
                    start
                },
            }
        }
    }

    /// The runs of a line with the first `count` parts of a segment.
    pub open spec fn with_parts(
        self,
        runs: LineRuns,
        list: Seq<(Position, Position)>,
        count: int,
    ) -> LineRuns
        decreases count,
    {
        if count <= 0 {
            runs
        } else {
            self.with_part(self.with_parts(runs, list, count - 1), list[count - 1])
        }
    }

    /// The runs of what of the first `count` segments lies in a polygon; a
    /// segment of which nothing does ends a run.
    pub open spec fn with_segments(
        self,
        points: Seq<Position>,
        polygon: Seq<Position>,
        count: int,
    ) -> LineRuns
        decreases count,
    {
        if count <= 0 {
            LineRuns { runs: Seq::empty(), current: Seq::empty() }
        } else {
            let before = self.with_segments(points, polygon, count - 1);
            let list = self.segment_inside(points[count - 1], points[count], polygon);
            if list.len() == 0 {
                LineRuns {
                    runs: if before.current.len() >= 2 {
                        before.runs.push(before.current)
                    } else {
                        before.runs
                    },
                    current: Seq::empty(),
                }
            } else {
                self.with_parts(before, list, list.len() as int)
            }
        }
    }

    /// Whether all of the points lie in a polygon.
    pub open spec fn all_in(self, points: Seq<Position>, polygon: Seq<Position>) -> bool {
        forall|i: int| 0 <= i < points.len() ==> self.is_in(#[trigger] points[i], polygon)
    }

    /// What of a line lies in a polygon.
    pub open spec fn line_inside(self, points: Seq<Position>, polygon: Seq<Position>) -> Seq<
        Seq<Position>,
    > {
        if points.len() < 2 || polygon.len() < 3 {
            Seq::empty()
        } else if self.all_in(points, polygon) {
            seq![points]
        } else {
            let runs = self.with_segments(points, polygon, points.len() - 1);
            if runs.current.len() >= 2 {
                runs.runs.push(runs.current)
            } else {
                runs.runs
            }
        }
    }

    proof fn lemma_runs_stay_long(
        self,
        points: Seq<Position>,
        polygon: Seq<Position>,
        count: int,
    )
        ensures
            self.with_segments(points, polygon, count).are_long(),
        decreases count,
    {
        if count > 0 {
            self.lemma_runs_stay_long(points, polygon, count - 1);
            let list = self.segment_inside(points[count - 1], points[count], polygon);
            self.lemma_parts_keep_runs_long(
                self.with_segments(points, polygon, count - 1),
                list,
                list.len() as int,
            );
        }
    }

    proof fn lemma_parts_keep_runs_long(
        self,
        runs: LineRuns,
        list: Seq<(Position, Position)>,
        count: int,
    )
        requires
            runs.are_long(),
        ensures
            self.with_parts(runs, list, count).are_long(),
        decreases count,
    {
        if count > 0 {
            self.lemma_parts_keep_runs_long(runs, list, count - 1);
        }
    }

    /// Every run of a line that lies in a polygon has at least two points.
    pub proof fn law_runs_inside_are_lines(self, points: Seq<Position>, polygon: Seq<Position>)
        ensures
            forall|i: int|
                0 <= i < self.line_inside(points, polygon).len() ==> (
                #[trigger] self.line_inside(points, polygon)[i]).len() >= 2,
    {
        self.lemma_runs_stay_long(points, polygon, points.len() - 1);
    }

    /// Whether the position at a place on a line is `point`.
    pub open spec fn is_at(
        self,
        start: Position,
        end: Position,
        place: Single,
        point: Position,
    ) -> bool {
        forall|answer: Position|
            call_ensures(self.along, (start, end, place), answer) ==> answer == point
    }

    /// Whether the middle between two places on a line lies in a polygon, and
    /// more than hardly anything is between them.
    pub open spec fn is_stretch_inside(
        self,
        start: Position,
        end: Position,
        polygon: Seq<Position>,
        from: Single,
        to: Single,
    ) -> bool {
        &&& !is_so(self.narrow, from, to)
        &&& forall|middle: Position|
            call_ensures(self.middle, (start, end, from, to), middle) ==> self.inside.has(
                middle,
                polygon,
            )
    }

    /// Whether a position is an end of a part of a line whose middle lies in a
    /// polygon.
    pub open spec fn is_end_inside(
        self,
        start: Position,
        end: Position,
        polygon: Seq<Position>,
        point: Position,
    ) -> bool {
        exists|from: Single, to: Single| #[trigger]
            self.is_stretch_inside(start, end, polygon, from, to) && (self.is_at(
                start,
                end,
                from,
                point,
            ) || self.is_at(start, end, to, point))
    }

    proof fn lemma_parts_are_inside(
        self,
        start: Position,
        end: Position,
        polygon: Seq<Position>,
        breaks: Seq<Single>,
        count: int,
    )
        requires
            self.wf(),
        ensures
            ({
                let all = self.parts_inside(start, end, polygon, breaks, count);
                forall|i: int|
                    0 <= i < all.len() ==> self.is_end_inside(
                        start,
                        end,
                        polygon,
                        (#[trigger] all[i]).0,
                    ) && self.is_end_inside(start, end, polygon, all[i].1)
            }),
        decreases count,
    {
        if count > 0 {
            self.lemma_parts_are_inside(start, end, polygon, breaks, count - 1);
            let from = breaks[count - 1];
            let to = breaks[count];
            if !is_so(self.narrow, from, to) && self.is_in(
                self.middle_of(start, end, from, to),
                polygon,
            ) {
                assert(self.is_stretch_inside(start, end, polygon, from, to));
                assert(self.is_at(start, end, from, self.position_at(start, end, from)));
                assert(self.is_at(start, end, to, self.position_at(start, end, to)));
                assert(self.is_end_inside(
                    start,
                    end,
                    polygon,
                    self.position_at(start, end, from),
                ));
                assert(self.is_end_inside(start, end, polygon, self.position_at(start, end, to)));
            }
            let before = self.parts_inside(start, end, polygon, breaks, count - 1);
            let all = self.parts_inside(start, end, polygon, breaks, count);
            assert forall|i: int| 0 <= i < all.len() implies self.is_end_inside(
                start,
                end,
                polygon,
                (#[trigger] all[i]).0,
            ) && self.is_end_inside(start, end, polygon, all[i].1) by {
                if i < before.len() {
                    assert(all[i] == before[i]);
                }
            }
        }
    }

    /// Whether every position of the runs is an end of a part of one of the first
    /// `count` segments of a line that lies in a polygon.
    spec fn are_inside(
        self,
        points: Seq<Position>,
        polygon: Seq<Position>,
        count: int,
        runs: LineRuns,
    ) -> bool {
        &&& forall|r: int, k: int|
            0 <= r < runs.runs.len() && 0 <= k < runs.runs[r].len() ==> self.is_of_segments(
                points,
                polygon,
                count,
                #[trigger] runs.runs[r][k],
            )
        &&& forall|k: int|
            0 <= k < runs.current.len() ==> self.is_of_segments(
                points,
                polygon,
                count,
                #[trigger] runs.current[k],
            )
    }

    spec fn is_of_segments(
        self,
        points: Seq<Position>,
        polygon: Seq<Position>,
        count: int,
        point: Position,
    ) -> bool {
        exists|i: int|
            0 <= i < count && self.is_end_inside(
                #[trigger] points[i],
                points[i + 1],
                polygon,
                point,
            )
    }

    proof fn lemma_part_is_inside(
        self,
        points: Seq<Position>,
        polygon: Seq<Position>,
        count: int,
        runs: LineRuns,
        part: (Position, Position),
    )
        requires
            self.are_inside(points, polygon, count, runs),
            self.is_of_segments(points, polygon, count, part.0),
            self.is_of_segments(points, polygon, count, part.1),
        ensures
            self.are_inside(points, polygon, count, self.with_part(runs, part)),
    {
        let after = self.with_part(runs, part);
        assert forall|r: int, k: int|
            0 <= r < after.runs.len() && 0 <= k < after.runs[r].len() implies self.is_of_segments(
            points,
            polygon,
            count,
            #[trigger] after.runs[r][k],
        ) by {
            if r < runs.runs.len() {
                assert(after.runs[r][k] == runs.runs[r][k]);
            } else {
                assert(after.runs[r][k] == runs.current[k]);
            }
        }
        assert forall|k: int| 0 <= k < after.current.len() implies self.is_of_segments(
            points,
            polygon,
            count,
            #[trigger] after.current[k],
        ) by {
            if after.current[k] != part.0 && after.current[k] != part.1 {
                assert(after.current[k] == runs.current[k]);
            }
        }
    }

    proof fn lemma_segments_are_inside(
        self,
        points: Seq<Position>,
        polygon: Seq<Position>,
        count: int,
    )
        requires
            self.wf(),
            0 <= count < points.len(),
        ensures
            self.are_inside(points, polygon, count, self.with_segments(points, polygon, count)),
        decreases count,
    {
        if count > 0 {
            self.lemma_segments_are_inside(points, polygon, count - 1);
            let before = self.with_segments(points, polygon, count - 1);
            assert forall|point: Position|
                self.is_of_segments(points, polygon, count - 1, point) implies self.is_of_segments(
                points,
                polygon,
                count,
                point,
            ) by {
                let i = choose|i: int|
                    0 <= i < count - 1 && self.is_end_inside(
                        #[trigger] points[i],
                        points[i + 1],
                        polygon,
                        point,
                    );
                assert(0 <= i < count && self.is_end_inside(
                    points[i],
                    points[i + 1],
                    polygon,
                    point,
                ));
            }
            assert(self.are_inside(points, polygon, count, before));
            let start = points[count - 1];
            let end = points[count];
            let breaks = self.ordered_breaks(start, end, polygon);
            self.lemma_parts_are_inside(start, end, polygon, breaks, breaks.len() - 1);
            let list = self.segment_inside(start, end, polygon);
            self.lemma_part_list_is_inside(points, polygon, count, before, list, list.len() as int);
            if list.len() == 0 && before.current.len() >= 2 {
                let after = self.with_segments(points, polygon, count);
                assert forall|r: int, k: int|
                    0 <= r < after.runs.len() && 0 <= k
                        < after.runs[r].len() implies self.is_of_segments(
                    points,
                    polygon,
                    count,
                    #[trigger] after.runs[r][k],
                ) by {
                    if r < before.runs.len() {
                        assert(after.runs[r][k] == before.runs[r][k]);
                    } else {
                        assert(after.runs[r][k] == before.current[k]);
                    }
                }
            }
        }
    }

    proof fn lemma_part_list_is_inside(
        self,
        points: Seq<Position>,
        polygon: Seq<Position>,
        segments: int,
        runs: LineRuns,
        list: Seq<(Position, Position)>,
        count: int,
    )
        requires
            0 < segments < points.len(),
            0 <= count <= list.len(),
            self.are_inside(points, polygon, segments, runs),
            forall|i: int|
                0 <= i < list.len() ==> self.is_end_inside(
                    points[segments - 1],
                    points[segments],
                    polygon,
                    (#[trigger] list[i]).0,
                ) && self.is_end_inside(points[segments - 1], points[segments], polygon, list[i].1),
        ensures
            self.are_inside(points, polygon, segments, self.with_parts(runs, list, count)),
        decreases count,
    {
        if count > 0 {
            self.lemma_part_list_is_inside(points, polygon, segments, runs, list, count - 1);
            let part = list[count - 1];
            let at = segments - 1;
            assert(self.is_end_inside(points[at], points[at + 1], polygon, part.0));
            assert(self.is_end_inside(points[at], points[at + 1], polygon, part.1));
            self.lemma_part_is_inside(
                points,
                polygon,
                segments,
                self.with_parts(runs, list, count - 1),
                part,
            );
        }
    }

    /// Nothing outside of a polygon is left of a line: every position of every run
    /// is one of the line that lies in the polygon itself, or an end of a part of
    /// one of the segments of the line whose middle lies in the polygon.
    pub proof fn law_runs_lie_inside(
        self,
        points: Seq<Position>,
        polygon: Seq<Position>,
        r: int,
        k: int,
    )
        requires
            self.wf(),
            0 <= r < self.line_inside(points, polygon).len(),
            0 <= k < self.line_inside(points, polygon)[r].len(),
        ensures
            ({
                let point = self.line_inside(points, polygon)[r][k];
                ||| points.contains(point) && self.inside.has(point, polygon)
                ||| exists|i: int|
                    0 <= i < points.len() - 1 && self.is_end_inside(
                        #[trigger] points[i],
                        points[i + 1],
                        polygon,
                        point,
                    )
            }),
    {
        self.lemma_segments_are_inside(points, polygon, points.len() - 1);
        let all = self.line_inside(points, polygon);
        let point = all[r][k];
        if self.all_in(points, polygon) {
            assert(point == points[k]);
            assert(self.is_in(points[k], polygon));
        } else {
            let runs = self.with_segments(points, polygon, points.len() - 1);
            if r < runs.runs.len() {
                assert(point == runs.runs[r][k]);
            } else {
                assert(point == runs.current[k]);
            }
            assert(self.is_of_segments(points, polygon, points.len() - 1, point));
        }
    }

    /// A line all of whose points lie in a polygon is left as it is, in one piece.
    pub proof fn law_lines_inside_stay_whole(self, points: Seq<Position>, polygon: Seq<Position>)
        requires
            points.len() >= 2,
            polygon.len() >= 3,
            forall|i: int| 0 <= i < points.len() ==> self.inside.has(#[trigger] points[i], polygon),
        ensures
            self.line_inside(points, polygon) == seq![points],
    {
        assert(self.all_in(points, polygon));
    }

    /// Whether `from` and `to` are next to each other in the runs, at `k` of run
    /// `r`; the run in work comes after the others.
    pub open spec fn is_step(
        runs: LineRuns,
        r: int,
        k: int,
        from: Position,
        to: Position,
    ) -> bool {
        let run = if r == runs.runs.len() {
            runs.current
        } else {
            runs.runs[r]
        };
        &&& 0 <= r <= runs.runs.len()
        &&& 0 <= k < run.len() - 1
        &&& run[k] == from
        &&& run[k + 1] == to
    }

    /// Whether a part ends apart from where it starts, and from every position
    /// that is as good as its start.
    pub open spec fn is_long(self, part: (Position, Position)) -> bool {
        &&& is_so(self.far, part.0, part.1)
        &&& forall|near: Position| #[trigger]
            is_so(self.touch, near, part.0) ==> is_so(self.far, near, part.1)
    }

    proof fn lemma_part_adds_a_step(self, runs: LineRuns, part: (Position, Position)) -> (found: (
        int,
        int,
        Position,
    ))
        requires
            self.is_long(part),
        ensures
            ({
                let (r, k, from) = found;
                &&& Self::is_step(self.with_part(runs, part), r, k, from, part.1)
                &&& from == part.0 || is_so(self.touch, from, part.0)
                &&& r > runs.runs.len() || r == runs.runs.len() && k >= runs.current.len() - 1
            }),
    {
        let after = self.with_part(runs, part);
        let k = after.current.len() - 2;
        (after.runs.len() as int, k, after.current[k])
    }

    proof fn lemma_steps_stay(
        self,
        runs: LineRuns,
        list: Seq<(Position, Position)>,
        count: int,
        r: int,
        k: int,
        from: Position,
        to: Position,
    )
        requires
            Self::is_step(runs, r, k, from, to),
        ensures
            Self::is_step(self.with_parts(runs, list, count), r, k, from, to),
        decreases count,
    {
        if count > 0 {
            self.lemma_steps_stay(runs, list, count - 1, r, k, from, to);
        }
    }

    proof fn lemma_steps_stay_in_segments(
        self,
        points: Seq<Position>,
        polygon: Seq<Position>,
        count: int,
        later: int,
        r: int,
        k: int,
        from: Position,
        to: Position,
    )
        requires
            0 <= count <= later,
            Self::is_step(self.with_segments(points, polygon, count), r, k, from, to),
        ensures
            Self::is_step(self.with_segments(points, polygon, later), r, k, from, to),
        decreases later - count,
    {
        if count < later {
            self.lemma_steps_stay_in_segments(
                points,
                polygon,
                count,
                later - 1,
                r,
                k,
                from,
                to,
            );
            let before = self.with_segments(points, polygon, later - 1);
            let list = self.segment_inside(points[later - 1], points[later], polygon);
            self.lemma_steps_stay(before, list, list.len() as int, r, k, from, to);
        }
    }

    proof fn lemma_found_step(
        self,
        points: Seq<Position>,
        polygon: Seq<Position>,
        at: int,
        i: int,
    ) -> (found: (int, int, Position))
        requires
            0 <= at < points.len() - 1,
            0 <= i < self.segment_inside(points[at], points[at + 1], polygon).len(),
            self.is_long(self.segment_inside(points[at], points[at + 1], polygon)[i]),
        ensures
            ({
                let (r, k, from) = found;
                let list = self.segment_inside(points[at], points[at + 1], polygon);
                let before = self.with_parts(self.with_segments(points, polygon, at), list, i);
                &&& Self::is_step(
                    self.with_parts(self.with_segments(points, polygon, at), list, i + 1),
                    r,
                    k,
                    from,
                    list[i].1,
                )
                &&& Self::is_step(
                    self.with_segments(points, polygon, at + 1),
                    r,
                    k,
                    from,
                    list[i].1,
                )
                &&& Self::is_step(
                    self.with_segments(points, polygon, points.len() - 1),
                    r,
                    k,
                    from,
                    list[i].1,
                )
                &&& from == list[i].0 || is_so(self.touch, from, list[i].0)
                &&& r > before.runs.len() || r == before.runs.len() && k >= before.current.len() - 1
            }),
    {
        let list = self.segment_inside(points[at], points[at + 1], polygon);
        let start = self.with_segments(points, polygon, at);
        let before = self.with_parts(start, list, i);
        let (r, k, from) = self.lemma_part_adds_a_step(before, list[i]);
        assert(Self::is_step(self.with_parts(start, list, i + 1), r, k, from, list[i].1));
        self.lemma_more_parts(start, list, i + 1, list.len() as int, r, k, from, list[i].1);
        self.lemma_steps_stay_in_segments(
            points,
            polygon,
            at + 1,
            points.len() - 1,
            r,
            k,
            from,
            list[i].1,
        );
        (r, k, from)
    }

    proof fn lemma_more_parts(
        self,
        runs: LineRuns,
        list: Seq<(Position, Position)>,
        count: int,
        later: int,
        r: int,
        k: int,
        from: Position,
        to: Position,
    )
        requires
            0 <= count <= later,
            Self::is_step(self.with_parts(runs, list, count), r, k, from, to),
        ensures
            Self::is_step(self.with_parts(runs, list, later), r, k, from, to),
        decreases later - count,
    {
        if count < later {
            self.lemma_more_parts(runs, list, count, later - 1, r, k, from, to);
        }
    }

    /// Every part of a line that lies in a polygon is in one of the runs: the run
    /// goes on from where the part starts, or from a position that is the same but
    /// for rounding, to where it ends. Parts that come one after the other on the
    /// line do so in the runs. (A part that ends where it starts, but for
    /// rounding, is none.)
    pub proof fn law_parts_inside_are_kept_in_order(
        self,
        points: Seq<Position>,
        polygon: Seq<Position>,
        at: int,
        i: int,
        next_at: int,
        next: int,
    )
        requires
            points.len() >= 2,
            polygon.len() >= 3,
            exists|outside: int|
                0 <= outside < points.len() && !self.inside.has(
                    #[trigger] points[outside],
                    polygon,
                ),
            0 <= at <= next_at < points.len() - 1,
            at < next_at || i < next,
            0 <= i < self.segment_inside(points[at], points[at + 1], polygon).len(),
            0 <= next < self.segment_inside(points[next_at], points[next_at + 1], polygon).len(),
            self.is_long(self.segment_inside(points[at], points[at + 1], polygon)[i]),
            self.is_long(self.segment_inside(points[next_at], points[next_at + 1], polygon)[next]),
        ensures
            exists|r: int, k: int, next_r: int, next_k: int|
                #![trigger self.line_inside(points, polygon)[r][k],
                    self.line_inside(points, polygon)[next_r][next_k]]
                {
                    let runs = self.line_inside(points, polygon);
                    let part = self.segment_inside(points[at], points[at + 1], polygon)[i];
                    let other = self.segment_inside(
                        points[next_at],
                        points[next_at + 1],
                        polygon,
                    )[next];
                    &&& 0 <= r < runs.len()
                    &&& 0 <= k < runs[r].len() - 1
                    &&& runs[r][k] == part.0 || is_so(self.touch, runs[r][k], part.0)
                    &&& runs[r][k + 1] == part.1
                    &&& 0 <= next_r < runs.len()
                    &&& 0 <= next_k < runs[next_r].len() - 1
                    &&& runs[next_r][next_k] == other.0 || is_so(
                        self.touch,
                        runs[next_r][next_k],
                        other.0,
                    )
                    &&& runs[next_r][next_k + 1] == other.1
                    &&& r < next_r || r == next_r && k < next_k
                },
    {
        let (r, k, from) = self.lemma_found_step(points, polygon, at, i);
        let (next_r, next_k, next_from) = self.lemma_found_step(points, polygon, next_at, next);
        let list = self.segment_inside(points[at], points[at + 1], polygon);
        let other = self.segment_inside(points[next_at], points[next_at + 1], polygon);
        let before = self.with_parts(self.with_segments(points, polygon, next_at), other, next);
        if at < next_at {
            self.lemma_steps_stay_in_segments(
                points,
                polygon,
                at + 1,
                next_at,
                r,
                k,
                from,
                list[i].1,
            );
            self.lemma_steps_stay(
                self.with_segments(points, polygon, next_at),
                other,
                next,
                r,
                k,
                from,
                list[i].1,
            );
        } else {
            self.lemma_more_parts(
                self.with_segments(points, polygon, at),
                list,
                i + 1,
                next,
                r,
                k,
                from,
                list[i].1,
            );
        }
        assert(Self::is_step(before, r, k, from, list[i].1));
        let outside = choose|outside: int|
            0 <= outside < points.len() && !self.inside.has(#[trigger] points[outside], polygon);
        assert(!self.is_in(points[outside], polygon));
        assert(!self.all_in(points, polygon));
        let runs = self.line_inside(points, polygon);
        let last = self.with_segments(points, polygon, points.len() - 1);
        assert(Self::is_step(last, r, k, from, list[i].1));
        assert(Self::is_step(last, next_r, next_k, next_from, other[next].1));
        assert(runs[r][k] == from);
        assert(runs[next_r][next_k] == next_from);
    }

    proof fn lemma_stretches_are_parts(
        self,
        start: Position,
        end: Position,
        polygon: Seq<Position>,
        breaks: Seq<Single>,
        count: int,
        k: int,
    )
        requires
            0 <= k < count,
            !is_so(self.narrow, breaks[k], breaks[k + 1]),
            self.is_in(self.middle_of(start, end, breaks[k], breaks[k + 1]), polygon),
        ensures
            self.parts_inside(start, end, polygon, breaks, count).contains(
                (self.position_at(start, end, breaks[k]), self.position_at(start, end, breaks[k + 1])),
            ),
        decreases count,
    {
        let part = (
            self.position_at(start, end, breaks[k]),
            self.position_at(start, end, breaks[k + 1]),
        );
        let all = self.parts_inside(start, end, polygon, breaks, count);
        if k == count - 1 {
            assert(all.last() == part);
        } else {
            self.lemma_stretches_are_parts(start, end, polygon, breaks, count - 1, k);
            let before = self.parts_inside(start, end, polygon, breaks, count - 1);
            let i = before.index_of(part);
            assert(all[i] == part);
        }
    }

    /// A stretch of a line between two neighbouring breaks is a part that lies in
    /// the polygon as soon as its middle does and more than hardly anything is in
    /// it.
    pub proof fn law_stretches_inside_are_parts(
        self,
        start: Position,
        end: Position,
        polygon: Seq<Position>,
        k: int,
        middle: Position,
        first: Position,
        last: Position,
    )
        requires
            self.wf(),
            0 <= k < self.ordered_breaks(start, end, polygon).len() - 1,
            ({
                let from = self.ordered_breaks(start, end, polygon)[k];
                let to = self.ordered_breaks(start, end, polygon)[k + 1];
                &&& !is_so(self.narrow, from, to)
                &&& call_ensures(self.middle, (start, end, from, to), middle)
                &&& self.inside.has(middle, polygon)
                &&& call_ensures(self.along, (start, end, from), first)
                &&& call_ensures(self.along, (start, end, to), last)
            }),
        ensures
            self.segment_inside(start, end, polygon).contains((first, last)),
    {
        let breaks = self.ordered_breaks(start, end, polygon);
        assert(self.middle_of(start, end, breaks[k], breaks[k + 1]) == middle);
        assert(self.position_at(start, end, breaks[k]) == first);
        assert(self.position_at(start, end, breaks[k + 1]) == last);
        self.lemma_stretches_are_parts(start, end, polygon, breaks, breaks.len() - 1, k);
    }

    proof fn lemma_found_breaks(
        self,
        start: Position,
        end: Position,
        lines: Seq<(Position, Position)>,
        count: int,
        at: int,
    )
        requires
            0 <= at < count,
        ensures
            self.breaks(start, end, lines, count).contains(Single { bits: 0 }),
            self.breaks(start, end, lines, count).contains(Single { bits: ONE_SINGLE }),
            match self.meeting(start, end, lines[at]) {
                None => true,
                Some(place) => match screen_break(place) {
                    None => true,
                    Some(place) => self.breaks(start, end, lines, count).contains(place),
                },
            },
        decreases count,
    {
        let all = self.breaks(start, end, lines, count);
        let before = self.breaks(start, end, lines, count - 1);
        if count == 1 {
            assert(before[0] == Single { bits: 0 } && before[1] == Single { bits: ONE_SINGLE });
        } else if at < count - 1 {
            self.lemma_found_breaks(start, end, lines, count - 1, at);
        } else {
            self.lemma_found_breaks(start, end, lines, count - 1, 0);
        }
        assert forall|place: Single| before.contains(place) implies all.contains(place) by {
            assert(all[before.index_of(place)] == place);
        }
        if all.len() > before.len() {
            assert(all[all.len() - 1] == all.last());
        }
    }

    /// A line is broken wherever it meets an edge of the polygon, and at its two
    /// ends: each of these places is among the breaks, or as good as one of them,
    /// and the breaks are in order.
    pub proof fn law_lines_break_at_every_edge(
        self,
        start: Position,
        end: Position,
        polygon: Seq<Position>,
        at: int,
        place: Single,
        found: Single,
    )
        requires
            self.wf(),
            0 <= at < edges(polygon).len(),
            call_ensures(
                self.meet,
                (start, end, edges(polygon)[at].0, edges(polygon)[at].1),
                Some(place),
            ),
            screen_break(place) == Some(found),
        ensures
            ({
                let breaks = self.ordered_breaks(start, end, polygon);
                &&& exists|k: int|
                    0 <= k < breaks.len() && (#[trigger] breaks[k] == found || is_so(
                        self.near,
                        found,
                        breaks[k],
                    ))
                &&& exists|k: int|
                    0 <= k < breaks.len() && (#[trigger] breaks[k] == Single { bits: 0 } || is_so(
                        self.near,
                        Single { bits: 0 },
                        breaks[k],
                    ))
                &&& exists|k: int|
                    0 <= k < breaks.len() && (#[trigger] breaks[k] == Single { bits: ONE_SINGLE }
                        || is_so(self.near, Single { bits: ONE_SINGLE }, breaks[k]))
                &&& forall|k: int, l: int|
                    0 <= k < l < breaks.len() ==> (#[trigger] breaks[k]).place() <= (
                    #[trigger] breaks[l]).place()
            }),
    {
        let lines = edges(polygon);
        let raw = self.breaks(start, end, lines, lines.len() as int);
        assert(self.meeting(start, end, lines[at]) == Some(place));
        self.lemma_found_breaks(start, end, lines, lines.len() as int, at);
        law_kept_numbers_stay_in_order(self.near, raw);
        let breaks = self.ordered_breaks(start, end, polygon);
        assert(breaks == apart(self.near, ordered(raw), ordered(raw).len() as int));
        assert(raw.contains(found));
        assert(raw.contains(Single { bits: 0 }));
        assert(raw.contains(Single { bits: ONE_SINGLE }));
    }

    fn add_part(
        &self,
        runs: &mut Vec<Vec<Position>>,
        current: &mut Vec<Position>,
        part: (Position, Position),
    )
        requires
            self.wf(),
        ensures
            (LineRuns { runs: figures(final(runs)@), current: final(current)@ }) == self.with_part(
                LineRuns { runs: figures(old(runs)@), current: old(current)@ },
                part,
            ),
    {
        let length: usize = current.len();
        let ghost before_runs = runs@;
        let ghost before_current = current@;
        if length > 0 && (self.touch)(current[length - 1], part.0) {
            if (self.far)(current[length - 1], part.1) {
                current.push(part.1);
            }
        } else {
            if length >= 2 {
                let mut fresh: Vec<Position> = Vec::new();
                std::mem::swap(&mut fresh, current);
                runs.push(fresh);
                assert(figures(runs@) =~= figures(before_runs).push(before_current));
                assert(current@ =~= Seq::<Position>::empty());
            }
            current.push(part.0);
            if length >= 2 {
                assert(current@ =~= seq![part.0]);
            }
            if (self.far)(part.0, part.1) {
                current.push(part.1);
            }
        }
    }

    fn add_segment(
        &self,
        runs: &mut Vec<Vec<Position>>,
        current: &mut Vec<Position>,
        points: &Vec<Position>,
        polygon: &Vec<Position>,
        i: usize,
    )
        requires
            self.wf(),
            i + 1 < points@.len(),
            (LineRuns { runs: figures(old(runs)@), current: old(current)@ }) == self.with_segments(
                points@,
                polygon@,
                i as int,
            ),
        ensures
            (LineRuns { runs: figures(final(runs)@), current: final(current)@ })
                == self.with_segments(points@, polygon@, i + 1),
    {
        let count: usize = points.len();
        assert(i + 1 < count);
        let list: Vec<(Position, Position)> = self.clipped_segment_inside_polygon(
            points[i],
            points[i + 1],
            polygon,
        );
        let ghost before = LineRuns { runs: figures(runs@), current: current@ };
        let ghost before_runs = runs@;
        if list.len() == 0 {
            if current.len() >= 2 {
                let mut fresh: Vec<Position> = Vec::new();
                std::mem::swap(&mut fresh, current);
                runs.push(fresh);
                assert(figures(runs@) =~= figures(before_runs).push(before.current));
            } else {
                current.clear();
            }
            assert(current@ =~= Seq::<Position>::empty());
            return;
        }
        let mut k: usize = 0;
        while k < list.len()
            invariant
                self.wf(),
                k <= list@.len(),
                (LineRuns { runs: figures(runs@), current: current@ }) == self.with_parts(
                    before,
                    list@,
                    k as int,
                ),
            decreases list@.len() - k,
        {
            self.add_part(runs, current, list[k]);
            k = k + 1;
        }
    }

    /// What of a line lies in a polygon.
    pub fn clip_pos_polyline_to_polygon(&self, points: &Vec<Position>, polygon: &Vec<Position>) -> (
    result: Vec<Vec<Position>>)
        requires
            self.wf(),
        ensures
            figures(result@) == self.line_inside(points@, polygon@),
    {
        let mut runs: Vec<Vec<Position>> = Vec::new();
        assert(figures(runs@) =~= Seq::<Seq<Position>>::empty());
        if points.len() < 2 || polygon.len() < 3 {
            return runs;
        }
        let mut all: bool = true;
        let mut i: usize = 0;
        while i < points.len()
            invariant
                self.wf(),
                i <= points@.len(),
                all == (forall|k: int|
                    0 <= k < i ==> self.is_in(#[trigger] points@[k], polygon@)),
            decreases points@.len() - i,
        {
            let inside: bool = self.lies_in(points[i], polygon);
            all = all && inside;
            i = i + 1;
        }
        if all {
            runs.push(copied(points));
            assert(figures(runs@) =~= seq![points@]);
            return runs;
        }
        let mut current: Vec<Position> = Vec::new();
        let mut k: usize = 0;
        assert(current@ =~= Seq::<Position>::empty());
        while k < points.len() - 1
            invariant
                self.wf(),
                k < points@.len(),
                (LineRuns { runs: figures(runs@), current: current@ }) == self.with_segments(
                    points@,
                    polygon@,
                    k as int,
                ),
            decreases points@.len() - k,
        {
            self.add_segment(&mut runs, &mut current, points, polygon, k);
            k = k + 1;
        }
        let ghost before = runs@;
        if current.len() >= 2 {
            runs.push(current);
            assert(figures(runs@) =~= figures(before).push(current@));
        }
        runs
    }
}

} // verus!
