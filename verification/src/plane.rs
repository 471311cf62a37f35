//! Polygons on the screen: clipping them and cutting them into triangles.
//!
//! What is measured of figures rests on floating-point arithmetic; the answers
//! come from functions that are handed in. All that is decided upon the answers
//! stands here.

use crate::regions::PolygonTest;
use crate::screen::{
    at_most, less_than, magnitude, number_at_most, number_less_than, rank, same_position,
    without_sign, Position, INFINITE_MAGNITUDE, SIGN_BIT,
};
use vstd::prelude::*;

verus! {

/// The bit pattern of the least area, taken twice, of a polygon that is none of
/// a line or a point.
pub const MIN_FILL_GEOMETRY_AREA_TWICE: u32 = 0x38d1_b717;

/// The bit pattern of the least area, taken twice, of a piece that is kept.
pub const MIN_FILL_FRAGMENT_AREA_TWICE: u32 = 0x3f80_0000;

/// The bit pattern of the measure of a turn up to which a corner is straight.
pub const STRAIGHT_TURN: u32 = 0x38d1_b717;

/// The measures of figures on the screen, as bit patterns of single-precision
/// numbers.
pub struct Plane<A, C, L, X, I> {
    /// Twice the area in a polygon, less than zero where it runs clockwise.
    pub area: A,
    /// How far a path turns to the left at the second of three points.
    pub cross: C,
    /// Whether the first point lies to the left of the line through the others.
    pub left: L,
    /// Where the line from the first to the second point meets that through the
    /// third and fourth; none where they are parallel.
    pub crossing: X,
    /// Whether a point lies in a polygon.
    pub inside: I,
}

/// Whether a pattern is a finite number.
pub open spec fn is_finite(bits: u32) -> bool {
    -INFINITE_MAGNITUDE < rank(bits) < INFINITE_MAGNITUDE
}

/// Whether a pattern is a finite number.
pub fn is_finite_pattern(bits: u32) -> (result: bool)
    ensures
        result == is_finite(bits),
{
    without_sign(bits) < INFINITE_MAGNITUDE
}

/// Whether both coordinates are finite.
pub open spec fn is_somewhere(position: Position) -> bool {
    is_finite(position.x) && is_finite(position.y)
}

/// Whether both coordinates of a position are finite.
pub fn position_is_finite(position: Position) -> (result: bool)
    ensures
        result == is_somewhere(position),
{
    is_finite_pattern(position.x) && is_finite_pattern(position.y)
}

/// The points that are somewhere, among the first `count`, without those that
/// repeat the one before.
pub open spec fn without_repeats(points: Seq<Position>, count: int) -> Seq<Position>
    decreases count,
{
    if count <= 0 {
        Seq::empty()
    } else {
        let before = without_repeats(points, count - 1);
        let point = points[count - 1];
        if is_somewhere(point) && !(before.len() > 0 && same_position(before.last(), point)) {
            before.push(point)
        } else {
            before
        }
    }
}

/// A polygon whose last point does not repeat the first one.
pub open spec fn unclosed(points: Seq<Position>) -> Seq<Position> {
    if points.len() > 1 && same_position(points.first(), points.last()) {
        points.drop_last()
    } else {
        points
    }
}

/// The edges of a polygon; the last one leads back to the first point.
pub open spec fn edges(points: Seq<Position>) -> Seq<(Position, Position)> {
    if points.len() < 2 {
        Seq::empty()
    } else {
        Seq::new(points.len(), |i: int| (points[i], points[(i + 1) % points.len() as int]))
    }
}

/// The edges of a polygon; the last one leads back to the first point.
pub fn polygon_edges_pos(points: &Vec<Position>) -> (result: Vec<(Position, Position)>)
    ensures
        result@ == edges(points@),
{
    let mut result: Vec<(Position, Position)> = Vec::new();
    if points.len() < 2 {
        return result;
    }
    let mut i: usize = 0;
    while i < points.len()
        invariant
            2 <= points@.len(),
            i <= points@.len(),
            result@ == edges(points@).take(i as int),
        decreases points@.len() - i,
    {
        let next: usize = if i == points.len() - 1 {
            0
        } else {
            i + 1
        };
        assert(next == (i + 1) % points@.len() as int) by {
            if i + 1 < points@.len() {
                vstd::arithmetic::div_mod::lemma_small_mod((i + 1) as nat, points@.len());
            } else {
                vstd::arithmetic::div_mod::lemma_mod_self_0(points@.len() as int);
            }
        }
        result.push((points[i], points[next]));
        assert(edges(points@).take(i + 1) =~= edges(points@).take(i as int).push(
            edges(points@)[i as int],
        ));
        i = i + 1;
    }
    assert(edges(points@).take(i as int) =~= edges(points@));
    result
}

fn reversed(points: &Vec<Position>) -> (result: Vec<Position>)
    ensures
        result@ == points@.reverse(),
{
    let mut result: Vec<Position> = Vec::new();
    let mut left: usize = points.len();
    while left > 0
        invariant
            left <= points@.len(),
            result@ == points@.reverse().take(points@.len() - left),
        decreases left,
    {
        left = left - 1;
        result.push(points[left]);
        assert(points@.reverse().take(points@.len() - left) =~= points@.reverse().take(
            points@.len() - left - 1,
        ).push(points@[left as int]));
    }
    assert(points@.reverse().take(points@.len() as int) =~= points@.reverse());
    result
}

pub(crate) fn copied(points: &Vec<Position>) -> (result: Vec<Position>)
    ensures
        result@ == points@,
{
    let mut result: Vec<Position> = Vec::new();
    let mut i: usize = 0;
    while i < points.len()
        invariant
            i <= points@.len(),
            result@ == points@.take(i as int),
        decreases points@.len() - i,
    {
        result.push(points[i]);
        i = i + 1;
    }
    assert(result@ =~= points@);
    result
}

impl<
    A: Fn(&Vec<Position>) -> u32,
    C: Fn(Position, Position, Position) -> u32,
    L: Fn(Position, Position, Position) -> bool,
    X: Fn(Position, Position, Position, Position) -> Option<Position>,
    I: PolygonTest,
> Plane<A, C, L, X, I> {
    /// `answer` may be measured for the area of `polygon`.
    pub open spec fn measures(self, polygon: Seq<Position>, answer: u32) -> bool {
        exists|figure: Vec<Position>|
            figure@ == polygon && #[trigger] call_ensures(self.area, (&figure,), answer)
    }

    /// Everything can be measured, and measuring twice gives the same answer.
    pub open spec fn wf(self) -> bool {
        &&& forall|figure: Vec<Position>| #[trigger] call_requires(self.area, (&figure,))
        &&& forall|a: Position, b: Position, c: Position| #[trigger]
            call_requires(self.cross, (a, b, c))
        &&& forall|a: Position, b: Position, c: Position| #[trigger]
            call_requires(self.left, (a, b, c))
        &&& forall|a: Position, b: Position, c: Position, d: Position| #[trigger]
            call_requires(self.crossing, (a, b, c, d))
        &&& self.inside.is_ready()
        &&& forall|polygon: Seq<Position>, one: u32, other: u32| #[trigger]
            self.measures(polygon, one) && #[trigger] self.measures(polygon, other) ==> one == other
        &&& forall|a: Position, b: Position, c: Position, one: u32, other: u32| #[trigger]
            call_ensures(self.cross, (a, b, c), one) && #[trigger] call_ensures(
                self.cross,
                (a, b, c),
                other,
            ) ==> one == other
        &&& forall|a: Position, b: Position, c: Position, one: bool, other: bool| #[trigger]
            call_ensures(self.left, (a, b, c), one) && #[trigger] call_ensures(
                self.left,
                (a, b, c),
                other,
            ) ==> one == other
        &&& forall|
            a: Position,
            b: Position,
            c: Position,
            d: Position,
            one: Option<Position>,
            other: Option<Position>,
        | #[trigger]
            call_ensures(self.crossing, (a, b, c, d), one) && #[trigger] call_ensures(
                self.crossing,
                (a, b, c, d),
                other,
            ) ==> one == other
    }

    /// Twice the area in a polygon.
    pub open spec fn area_of(self, polygon: Seq<Position>) -> u32 {
        choose|answer: u32| self.measures(polygon, answer)
    }

    /// How far a path turns to the left at `b`.
    pub open spec fn turn(self, a: Position, b: Position, c: Position) -> u32 {
        choose|answer: u32| call_ensures(self.cross, (a, b, c), answer)
    }

    /// Whether `point` lies to the left of the line from `start` to `end`.
    pub open spec fn is_left(self, point: Position, start: Position, end: Position) -> bool {
        choose|answer: bool| call_ensures(self.left, (point, start, end), answer)
    }

    /// Where the line from `a` to `b` meets that from `c` to `d`.
    pub open spec fn meeting(self, a: Position, b: Position, c: Position, d: Position) -> Option<
        Position,
    > {
        choose|answer: Option<Position>| call_ensures(self.crossing, (a, b, c, d), answer)
    }

    /// Whether `point` lies in `polygon`.
    pub open spec fn is_in(self, point: Position, polygon: Seq<Position>) -> bool {
        self.inside.has(point, polygon)
    }

    fn area_twice(&self, polygon: &Vec<Position>) -> (answer: u32)
        requires
            self.wf(),
        ensures
            answer == self.area_of(polygon@),
    {
        let answer: u32 = (self.area)(polygon);
        assert(self.measures(polygon@, answer));
        answer
    }

    fn turn_at(&self, a: Position, b: Position, c: Position) -> (answer: u32)
        requires
            self.wf(),
        ensures
            answer == self.turn(a, b, c),
    {
        (self.cross)(a, b, c)
    }

    fn lies_left(&self, point: Position, start: Position, end: Position) -> (answer: bool)
        requires
            self.wf(),
        ensures
            answer == self.is_left(point, start, end),
    {
        (self.left)(point, start, end)
    }

    fn meets_at(&self, a: Position, b: Position, c: Position, d: Position) -> (answer: Option<
        Position,
    >)
        requires
            self.wf(),
        ensures
            answer == self.meeting(a, b, c, d),
    {
        (self.crossing)(a, b, c, d)
    }

    fn lies_in(&self, point: Position, polygon: &Vec<Position>) -> (answer: bool)
        requires
            self.wf(),
        ensures
            answer == self.is_in(point, polygon@),
    {
        self.inside.test(point, polygon)
    }

    /// The polygon that the points describe, counterclockwise: without what is
    /// nowhere or repeats its neighbour.
    pub open spec fn normalized(self, points: Seq<Position>) -> Seq<Position> {
        let polygon = unclosed(without_repeats(points, points.len() as int));
        if less_than(self.area_of(polygon), 0) {
            polygon.reverse()
        } else {
            polygon
        }
    }

    /// The polygon that the points describe, counterclockwise: without what is
    /// nowhere or repeats its neighbour.
    pub fn normalized_pos_polygon(&self, points: &Vec<Position>) -> (polygon: Vec<Position>)
        requires
            self.wf(),
        ensures
            polygon@ == self.normalized(points@),
    {
        let mut polygon: Vec<Position> = Vec::new();
        let mut i: usize = 0;
        while i < points.len()
            invariant
                i <= points@.len(),
                polygon@ == without_repeats(points@, i as int),
            decreases points@.len() - i,
        {
            let point: Position = points[i];
            let repeats: bool = polygon.len() > 0 && polygon[polygon.len() - 1].same_as(point);
            if position_is_finite(point) && !repeats {
                polygon.push(point);
            }
            i = i + 1;
        }
        if polygon.len() > 1 && polygon[0].same_as(polygon[polygon.len() - 1]) {
            let ghost before = polygon@;
            let dropped = polygon.pop();
            assert(polygon@ =~= before.drop_last());
        }
        assert(polygon@ == unclosed(without_repeats(points@, points@.len() as int)));
        if number_less_than(self.area_twice(&polygon), 0) {
            polygon = reversed(&polygon);
        }
        polygon
    }

    /// Which of the points lie on the side of a line that is kept: on its left,
    /// or on its right, the line itself included.
    pub open spec fn sides(
        self,
        points: Seq<Position>,
        edge: (Position, Position),
        keep_left: bool,
    ) -> Seq<bool> {
        Seq::new(
            points.len(),
            |i: int|
                if keep_left {
                    at_most(0, self.turn(edge.0, edge.1, points[i]))
                } else {
                    at_most(self.turn(edge.0, edge.1, points[i]), 0)
                },
        )
    }

    /// Which of the points lie to the left of a line, or barely beside it.
    pub open spec fn left_sides(self, points: Seq<Position>, edge: (Position, Position)) -> Seq<
        bool,
    > {
        Seq::new(points.len(), |i: int| self.is_left(points[i], edge.0, edge.1))
    }

    /// What the first `count` steps round a polygon leave of it: the points that
    /// are kept, and where it crosses the line between one that is and one that
    /// is not.
    pub open spec fn walked(
        self,
        points: Seq<Position>,
        kept: Seq<bool>,
        edge: (Position, Position),
        count: int,
    ) -> Seq<Position>
        decreases count,
    {
        if count <= 0 {
            Seq::empty()
        } else {
            let current = count - 1;
            let previous = if current == 0 {
                points.len() - 1
            } else {
                current - 1
            };
            let before = self.walked(points, kept, edge, count - 1);
            let meeting = self.meeting(points[previous], points[current], edge.0, edge.1);
            let crossed = if kept[current] != kept[previous] && meeting is Some {
                before.push(meeting->0)
            } else {
                before
            };
            if kept[current] {
                crossed.push(points[current])
            } else {
                crossed
            }
        }
    }

    fn walk(
        &self,
        points: &Vec<Position>,
        kept: &Vec<bool>,
        edge: (Position, Position),
    ) -> (result: Vec<Position>)
        requires
            self.wf(),
            points@.len() == kept@.len(),
        ensures
            result@ == self.walked(points@, kept@, edge, points@.len() as int),
    {
        let mut result: Vec<Position> = Vec::new();
        let mut current: usize = 0;
        while current < points.len()
            invariant
                self.wf(),
                points@.len() == kept@.len(),
                current <= points@.len(),
                result@ == self.walked(points@, kept@, edge, current as int),
            decreases points@.len() - current,
        {
            let previous: usize = if current == 0 {
                points.len() - 1
            } else {
                current - 1
            };
            if kept[current] != kept[previous] {
                if let Some(meeting) = self.meets_at(
                    points[previous],
                    points[current],
                    edge.0,
                    edge.1,
                ) {
                    result.push(meeting);
                }
            }
            if kept[current] {
                result.push(points[current]);
            }
            current = current + 1;
        }
        result
    }

    /// What of a polygon lies on one side of a line.
    pub open spec fn half(
        self,
        subject: Seq<Position>,
        edge: (Position, Position),
        keep_left: bool,
    ) -> Seq<Position> {
        self.normalized(
            self.walked(
                subject,
                self.sides(subject, edge, keep_left),
                edge,
                subject.len() as int,
            ),
        )
    }

    /// What of a polygon lies on one side of a line.
    pub fn clip_pos_polygon_to_half_plane(
        &self,
        subject: &Vec<Position>,
        edge_start: Position,
        edge_end: Position,
        keep_left: bool,
    ) -> (result: Vec<Position>)
        requires
            self.wf(),
        ensures
            result@ == self.half(subject@, (edge_start, edge_end), keep_left),
    {
        let ghost sides = self.sides(subject@, (edge_start, edge_end), keep_left);
        let mut kept: Vec<bool> = Vec::new();
        let mut i: usize = 0;
        while i < subject.len()
            invariant
                self.wf(),
                i <= subject@.len(),
                sides == self.sides(subject@, (edge_start, edge_end), keep_left),
                kept@ == sides.take(i as int),
            decreases subject@.len() - i,
        {
            let turn: u32 = self.turn_at(edge_start, edge_end, subject[i]);
            let side: bool = if keep_left {
                number_at_most(0, turn)
            } else {
                number_at_most(turn, 0)
            };
            kept.push(side);
            assert(sides.take(i + 1) =~= sides.take(i as int).push(sides[i as int]));
            i = i + 1;
        }
        assert(sides.take(i as int) =~= sides);
        let walked: Vec<Position> = self.walk(subject, &kept, (edge_start, edge_end));
        self.normalized_pos_polygon(&walked)
    }

    /// What of a polygon lies to the left of each of the first `count` lines.
    pub open spec fn cut_by(
        self,
        subject: Seq<Position>,
        lines: Seq<(Position, Position)>,
        count: int,
    ) -> Seq<Position>
        decreases count,
    {
        if count <= 0 {
            subject
        } else {
            let before = self.cut_by(subject, lines, count - 1);
            let edge = lines[count - 1];
            self.walked(before, self.left_sides(before, edge), edge, before.len() as int)
        }
    }

    /// What of a polygon lies in a convex one.
    pub open spec fn within_convex(
        self,
        subject: Seq<Position>,
        convex: Seq<Position>,
    ) -> Seq<Position> {
        let lines = edges(self.normalized(convex));
        self.normalized(self.cut_by(self.normalized(subject), lines, lines.len() as int))
    }

    fn cut_left(&self, subject: &Vec<Position>, edge: (Position, Position)) -> (result: Vec<
        Position,
    >)
        requires
            self.wf(),
        ensures
            result@ == self.walked(
                subject@,
                self.left_sides(subject@, edge),
                edge,
                subject@.len() as int,
            ),
    {
        let ghost sides = self.left_sides(subject@, edge);
        let mut kept: Vec<bool> = Vec::new();
        let mut i: usize = 0;
        while i < subject.len()
            invariant
                self.wf(),
                i <= subject@.len(),
                sides == self.left_sides(subject@, edge),
                kept@ == sides.take(i as int),
            decreases subject@.len() - i,
        {
            kept.push(self.lies_left(subject[i], edge.0, edge.1));
            assert(sides.take(i + 1) =~= sides.take(i as int).push(sides[i as int]));
            i = i + 1;
        }
        assert(sides.take(i as int) =~= sides);
        self.walk(subject, &kept, edge)
    }

    /// What of a polygon lies in a convex one.
    pub fn clip_polygon_to_convex_pos_polygon(
        &self,
        subject: &Vec<Position>,
        clip_polygon: &Vec<Position>,
    ) -> (result: Vec<Position>)
        requires
            self.wf(),
        ensures
            result@ == self.within_convex(subject@, clip_polygon@),
    {
        let mut output: Vec<Position> = self.normalized_pos_polygon(subject);
        let ghost start = output@;
        let convex: Vec<Position> = self.normalized_pos_polygon(clip_polygon);
        let lines: Vec<(Position, Position)> = polygon_edges_pos(&convex);
        let mut i: usize = 0;
        while i < lines.len()
            invariant
                self.wf(),
                i <= lines@.len(),
                output@ == self.cut_by(start, lines@, i as int),
            decreases lines@.len() - i,
        {
            output = self.cut_left(&output, lines[i]);
            i = i + 1;
        }
        self.normalized_pos_polygon(&output)
    }

    /// Whether a polygon has an inside.
    pub open spec fn has_inside(self, points: Seq<Position>) -> bool {
        &&& points.len() >= 3
        &&& forall|i: int| 0 <= i < points.len() ==> is_somewhere(#[trigger] points[i])
        &&& at_most(MIN_FILL_GEOMETRY_AREA_TWICE, magnitude(self.area_of(points)))
    }

    /// Whether a polygon has an inside.
    pub fn fill_polygon_is_nondegenerate(&self, points: &Vec<Position>) -> (result: bool)
        requires
            self.wf(),
        ensures
            result == self.has_inside(points@),
    {
        if points.len() < 3 {
            return false;
        }
        let mut i: usize = 0;
        while i < points.len()
            invariant
                i <= points@.len(),
                forall|k: int| 0 <= k < i ==> is_somewhere(#[trigger] points@[k]),
            decreases points@.len() - i,
        {
            if !position_is_finite(points[i]) {
                return false;
            }
            i = i + 1;
        }
        number_at_most(MIN_FILL_GEOMETRY_AREA_TWICE, without_sign(self.area_twice(points)))
    }

    /// Whether a polygon has more than so much area, taken twice.
    pub fn is_larger_than(&self, points: &Vec<Position>, area_twice: u32) -> (result: bool)
        requires
            self.wf(),
        ensures
            result == less_than(area_twice, magnitude(self.area_of(points@))),
    {
        number_less_than(area_twice, without_sign(self.area_twice(points)))
    }

    /// Whether a polygon has less than so much area, taken twice.
    pub fn is_smaller_than(&self, points: &Vec<Position>, area_twice: u32) -> (result: bool)
        requires
            self.wf(),
        ensures
            result == less_than(magnitude(self.area_of(points@)), area_twice),
    {
        number_less_than(without_sign(self.area_twice(points)), area_twice)
    }

    /// Whether a piece is large enough to be kept.
    pub open spec fn is_piece(self, points: Seq<Position>) -> bool {
        self.has_inside(points) && at_most(
            MIN_FILL_FRAGMENT_AREA_TWICE,
            magnitude(self.area_of(points)),
        )
    }

    /// Whether a piece is large enough to be kept.
    pub fn fill_fragment_is_valid(&self, points: &Vec<Position>) -> (result: bool)
        requires
            self.wf(),
        ensures
            result == self.is_piece(points@),
    {
        self.fill_polygon_is_nondegenerate(points) && number_at_most(
            MIN_FILL_FRAGMENT_AREA_TWICE,
            without_sign(self.area_twice(points)),
        )
    }

    /// What taking one side after another off a convex mask leaves of a polygon.
    pub open spec fn peeled(
        self,
        subject: Seq<Position>,
        lines: Seq<(Position, Position)>,
        count: int,
    ) -> Peeling
        decreases count,
    {
        if count <= 0 {
            Peeling { inside: subject, pieces: Seq::empty(), done: false }
        } else {
            let before = self.peeled(subject, lines, count - 1);
            if before.done {
                before
            } else {
                let outside = self.half(before.inside, lines[count - 1], false);
                let inside = self.half(before.inside, lines[count - 1], true);
                Peeling {
                    inside,
                    pieces: if self.is_piece(outside) {
                        before.pieces.push(outside)
                    } else {
                        before.pieces
                    },
                    done: !self.is_piece(inside),
                }
            }
        }
    }

    /// The pieces that a convex mask leaves of a convex polygon.
    pub open spec fn without_convex(self, subject: Seq<Position>, mask: Seq<Position>) -> Seq<
        Seq<Position>,
    > {
        if self.has_inside(self.within_convex(subject, mask)) {
            self.peeled(subject, edges(mask), edges(mask).len() as int).pieces
        } else {
            seq![subject]
        }
    }

    /// The pieces that a convex mask leaves of a convex polygon.
    pub fn subtract_convex_pos_polygon(
        &self,
        subject: &Vec<Position>,
        mask: &Vec<Position>,
    ) -> (pieces: Vec<Vec<Position>>)
        requires
            self.wf(),
        ensures
            figures(pieces@) == self.without_convex(subject@, mask@),
    {
        let mut pieces: Vec<Vec<Position>> = Vec::new();
        let common: Vec<Position> = self.clip_polygon_to_convex_pos_polygon(subject, mask);
        if !self.fill_polygon_is_nondegenerate(&common) {
            pieces.push(copied(subject));
            assert(figures(pieces@) =~= seq![subject@]);
            return pieces;
        }
        let lines: Vec<(Position, Position)> = polygon_edges_pos(mask);
        let mut inside: Vec<Position> = copied(subject);
        let mut done: bool = false;
        let mut i: usize = 0;
        assert(figures(pieces@) =~= Seq::<Seq<Position>>::empty());
        while i < lines.len() && !done
            invariant
                self.wf(),
                i <= lines@.len(),
                self.peeled(subject@, lines@, i as int) == (Peeling {
                    inside: inside@,
                    pieces: figures(pieces@),
                    done,
                }),
            decreases lines@.len() - i,
        {
            let ghost before = pieces@;
            let outside: Vec<Position> = self.clip_pos_polygon_to_half_plane(
                &inside,
                lines[i].0,
                lines[i].1,
                false,
            );
            if self.fill_fragment_is_valid(&outside) {
                pieces.push(outside);
                assert(figures(pieces@) =~= figures(before).push(outside@));
            }
            inside = self.clip_pos_polygon_to_half_plane(&inside, lines[i].0, lines[i].1, true);
            done = !self.fill_fragment_is_valid(&inside);
            i = i + 1;
        }
        proof {
            self.lemma_peeling_ends(subject@, lines@, i as int, lines@.len() as int);
        }
        pieces
    }

    proof fn lemma_peeling_ends(
        self,
        subject: Seq<Position>,
        lines: Seq<(Position, Position)>,
        from: int,
        count: int,
    )
        requires
            0 <= from <= count,
            from == count || self.peeled(subject, lines, from).done,
        ensures
            self.peeled(subject, lines, count) == self.peeled(subject, lines, from),
        decreases count - from,
    {
        if from < count {
            self.lemma_peeling_ends(subject, lines, from, count - 1);
        }
    }

    /// Whether a point lies in a triangle.
    pub open spec fn in_triangle(
        self,
        point: Position,
        a: Position,
        b: Position,
        c: Position,
    ) -> bool {
        self.is_left(point, a, b) && self.is_left(point, b, c) && self.is_left(point, c, a)
    }

    /// What lies in a triangle lies to the left of each of its sides, whichever
    /// corner the triangle is told from, and what lies to the right of one of them
    /// does not.
    pub proof fn law_triangles_hold_what_is_left_of_all_sides(
        self,
        point: Position,
        a: Position,
        b: Position,
        c: Position,
    )
        ensures
            self.in_triangle(point, a, b, c) ==> self.is_left(point, a, b),
            self.in_triangle(point, a, b, c) == self.in_triangle(point, b, c, a),
            self.in_triangle(point, a, b, c) == self.in_triangle(point, c, a, b),
            self.is_left(point, a, b) && self.is_left(point, b, c) && self.is_left(point, c, a)
                ==> self.in_triangle(point, a, b, c),
    {
    }

    /// Whether a point lies in a triangle.
    pub fn point_in_triangle(&self, point: Position, a: Position, b: Position, c: Position) -> (
    result: bool)
        requires
            self.wf(),
        ensures
            result == self.in_triangle(point, a, b, c),
    {
        self.lies_left(point, a, b) && self.lies_left(point, b, c) && self.lies_left(point, c, a)
    }

    /// Whether the corner `i` can be cut off: it turns to the left, and no other
    /// corner lies in the triangle that it makes with its neighbours.
    pub open spec fn is_ear(self, ring: Seq<Position>, i: int) -> bool {
        let a = ring[before(i, ring.len() as int)];
        let b = ring[i];
        let c = ring[after(i, ring.len() as int)];
        &&& less_than(STRAIGHT_TURN, self.turn(a, b, c))
        &&& forall|k: int|
            0 <= k < ring.len() && k != before(i, ring.len() as int) && k != i && k != after(
                i,
                ring.len() as int,
            ) ==> !self.in_triangle(#[trigger] ring[k], a, b, c)
    }

    /// The first corner from `from` on that can be cut off.
    pub open spec fn first_ear(self, ring: Seq<Position>, from: int) -> Option<int>
        decreases ring.len() - from,
    {
        if from >= ring.len() {
            None
        } else if self.is_ear(ring, from) {
            Some(from)
        } else {
            self.first_ear(ring, from + 1)
        }
    }

    /// The triangles that cutting off one corner after another makes of a
    /// polygon, as far as corners can be cut off.
    pub open spec fn triangles(self, ring: Seq<Position>) -> Seq<Seq<Position>>
        decreases ring.len(),
    {
        if ring.len() < 3 {
            Seq::empty()
        } else if ring.len() == 3 {
            seq![ring]
        } else {
            match self.first_ear(ring, 0) {
                Some(i) => if 0 <= i < ring.len() {
                    seq![corner(ring, i)] + self.triangles(ring.remove(i))
                } else {
                    Seq::empty()
                },
                None => Seq::empty(),
            }
        }
    }

    /// A corner that turns to the left can be cut off unless another corner, which is
    /// not one of its neighbours, lies in the triangle that it makes with them.
    pub proof fn law_corners_are_cut_off_unless_another_is_in_the_way(
        self,
        ring: Seq<Position>,
        i: int,
    )
        requires
            ring.len() >= 3,
            0 <= i < ring.len(),
        ensures
            ({
                let size = ring.len() as int;
                let a = ring[before(i, size)];
                let c = ring[after(i, size)];
                self.is_ear(ring, i) <==> less_than(STRAIGHT_TURN, self.turn(a, ring[i], c)) && !(
                exists|k: int|
                    {
                        &&& 0 <= k < size
                        &&& k != i
                        &&& k != (if i == 0 {
                            size - 1
                        } else {
                            i - 1
                        })
                        &&& k != (if i == size - 1 {
                            0
                        } else {
                            i + 1
                        })
                        &&& self.in_triangle(#[trigger] ring[k], a, ring[i], c)
                    })
            }),
    {
    }

    fn can_be_cut_off(&self, ring: &Vec<Position>, i: usize) -> (result: bool)
        requires
            self.wf(),
            i < ring@.len(),
        ensures
            result == self.is_ear(ring@, i as int),
    {
        let previous: usize = if i == 0 {
            ring.len() - 1
        } else {
            i - 1
        };
        let next: usize = if i == ring.len() - 1 {
            0
        } else {
            i + 1
        };
        if !number_less_than(STRAIGHT_TURN, self.turn_at(ring[previous], ring[i], ring[next])) {
            return false;
        }
        let mut k: usize = 0;
        while k < ring.len()
            invariant
                self.wf(),
                i < ring@.len(),
                previous == before(i as int, ring@.len() as int),
                previous < ring@.len(),
                next == after(i as int, ring@.len() as int),
                next < ring@.len(),
                k <= ring@.len(),
                forall|j: int|
                    0 <= j < k && j != previous && j != i && j != next ==> !self.in_triangle(
                        #[trigger] ring@[j],
                        ring@[previous as int],
                        ring@[i as int],
                        ring@[next as int],
                    ),
            decreases ring@.len() - k,
        {
            if k != previous && k != i && k != next && self.point_in_triangle(
                ring[k],
                ring[previous],
                ring[i],
                ring[next],
            ) {
                return false;
            }
            k = k + 1;
        }
        true
    }

    fn find_ear(&self, ring: &Vec<Position>) -> (ear: Option<usize>)
        requires
            self.wf(),
        ensures
            match ear {
                Some(i) => self.first_ear(ring@, 0) == Some(i as int) && i < ring@.len(),
                None => self.first_ear(ring@, 0) is None,
            },
    {
        let mut i: usize = 0;
        while i < ring.len()
            invariant
                self.wf(),
                i <= ring@.len(),
                self.first_ear(ring@, 0) == self.first_ear(ring@, i as int),
            decreases ring@.len() - i,
        {
            if self.can_be_cut_off(ring, i) {
                return Some(i);
            }
            i = i + 1;
        }
        None
    }

    /// The triangles that cutting off one corner after another makes of a
    /// polygon, as far as corners can be cut off.
    pub fn triangulate_pos_polygon(&self, polygon: &Vec<Position>) -> (result: Vec<Vec<Position>>)
        requires
            self.wf(),
        ensures
            figures(result@) == self.triangles(self.normalized(polygon@)),
    {
        let mut result: Vec<Vec<Position>> = Vec::new();
        let mut ring: Vec<Position> = self.normalized_pos_polygon(polygon);
        let ghost all = self.triangles(ring@);
        let mut stuck: bool = false;
        assert(figures(result@) + self.triangles(ring@) =~= all);
        while ring.len() > 3 && !stuck
            invariant
                self.wf(),
                figures(result@) + self.triangles(ring@) == all,
                stuck ==> ring@.len() > 3 && self.triangles(ring@).len() == 0,
            decreases
                ring@.len() + if stuck {
                    0int
                } else {
                    1
                },
        {
            match self.find_ear(&ring) {
                Some(i) => {
                    let ghost before_ring = ring@;
                    let ghost before_result = result@;
                    let previous: usize = if i == 0 {
                        ring.len() - 1
                    } else {
                        i - 1
                    };
                    let next: usize = if i == ring.len() - 1 {
                        0
                    } else {
                        i + 1
                    };
                    let mut triangle: Vec<Position> = Vec::new();
                    triangle.push(ring[previous]);
                    triangle.push(ring[i]);
                    triangle.push(ring[next]);
                    assert(triangle@ =~= corner(ring@, i as int));
                    result.push(triangle);
                    let cut: Position = ring.remove(i);
                    assert(ring@ =~= before_ring.remove(i as int));
                    assert(figures(result@) =~= figures(before_result).push(triangle@));
                    assert(figures(result@) + self.triangles(ring@) =~= figures(before_result)
                        + self.triangles(before_ring));
                },
                None => {
                    stuck = true;
                },
            }
        }
        if ring.len() == 3 {
            let ghost before_result = result@;
            let ghost last = ring@;
            result.push(ring);
            assert(figures(result@) =~= figures(before_result) + seq![last]);
        } else {
            assert(figures(result@) =~= all);
        }
        result
    }

    /// Which way the first `count` corners of a polygon turn.
    pub open spec fn turning(self, polygon: Seq<Position>, count: int) -> Turning
        decreases count,
    {
        if count <= 0 {
            Turning::Undecided
        } else {
            let length = polygon.len() as int;
            let measure = self.turn(
                polygon[count - 1],
                polygon[after(count - 1, length)],
                polygon[after(after(count - 1, length), length)],
            );
            self.turning(polygon, count - 1).then_turns(measure)
        }
    }

    /// Whether a polygon turns the same way at each of its corners.
    pub open spec fn is_convex(self, points: Seq<Position>) -> bool {
        let polygon = self.normalized(points);
        let turning = self.turning(polygon, polygon.len() as int);
        polygon.len() >= 3 && !(turning is Undecided) && !(turning is Mixed)
    }

    /// Whether a polygon turns the same way at each of its corners.
    pub fn pos_polygon_is_convex(&self, points: &Vec<Position>) -> (convex: bool)
        requires
            self.wf(),
        ensures
            convex == self.is_convex(points@),
    {
        let polygon: Vec<Position> = self.normalized_pos_polygon(points);
        if polygon.len() < 3 {
            return false;
        }
        let mut turning: Turning = Turning::Undecided;
        let mut i: usize = 0;
        while i < polygon.len()
            invariant
                self.wf(),
                3 <= polygon@.len(),
                i <= polygon@.len(),
                turning == self.turning(polygon@, i as int),
            decreases polygon@.len() - i,
        {
            let next: usize = if i == polygon.len() - 1 {
                0
            } else {
                i + 1
            };
            let last: usize = if next == polygon.len() - 1 {
                0
            } else {
                next + 1
            };
            turning = turning.turn_on(self.turn_at(polygon[i], polygon[next], polygon[last]));
            i = i + 1;
        }
        turning != Turning::Undecided && turning != Turning::Mixed
    }

    /// Whether all of the points lie in a polygon.
    pub open spec fn all_in(self, points: Seq<Position>, polygon: Seq<Position>) -> bool {
        forall|i: int| 0 <= i < points.len() ==> self.is_in(#[trigger] points[i], polygon)
    }

    /// Whether all of the points lie in a polygon.
    pub fn points_lie_in(&self, points: &Vec<Position>, polygon: &Vec<Position>) -> (all: bool)
        requires
            self.wf(),
        ensures
            all == self.all_in(points@, polygon@),
    {
        let mut i: usize = 0;
        while i < points.len()
            invariant
                self.wf(),
                i <= points@.len(),
                forall|k: int| 0 <= k < i ==> self.is_in(#[trigger] points@[k], polygon@),
            decreases points@.len() - i,
        {
            if !self.lies_in(points[i], polygon) {
                return false;
            }
            i = i + 1;
        }
        true
    }

    /// Whether a clipped area is large enough to be drawn.
    pub open spec fn is_area(self, points: Seq<Position>) -> bool {
        points.len() >= 3 && at_most(
            MIN_FILL_FRAGMENT_AREA_TWICE,
            magnitude(self.area_of(points)),
        )
    }

    fn is_large_enough(&self, points: &Vec<Position>) -> (result: bool)
        requires
            self.wf(),
        ensures
            result == self.is_area(points@),
    {
        points.len() >= 3 && number_at_most(
            MIN_FILL_FRAGMENT_AREA_TWICE,
            without_sign(self.area_twice(points)),
        )
    }

    /// What of a polygon lies in each of the first `count` triangles, where that
    /// is large enough.
    pub open spec fn areas_within(
        self,
        subject: Seq<Position>,
        triangles: Seq<Seq<Position>>,
        count: int,
    ) -> Seq<Seq<Position>>
        decreases count,
    {
        if count <= 0 {
            Seq::empty()
        } else {
            let before = self.areas_within(subject, triangles, count - 1);
            let common = self.within_convex(subject, triangles[count - 1]);
            if self.is_area(common) {
                before.push(common)
            } else {
                before
            }
        }
    }

    /// What of an area lies in a polygon.
    pub open spec fn areas_in(self, points: Seq<Position>, clip: Seq<Position>) -> Seq<
        Seq<Position>,
    > {
        let subject = self.normalized(points);
        if subject.len() < 3 || clip.len() < 3 {
            Seq::empty()
        } else if self.all_in(subject, clip) {
            seq![subject]
        } else if self.all_in(clip, subject) {
            seq![clip]
        } else if self.is_convex(clip) {
            let common = self.within_convex(subject, clip);
            if self.is_area(common) {
                seq![common]
            } else {
                Seq::empty()
            }
        } else if self.is_convex(subject) {
            let common = self.within_convex(clip, subject);
            if self.is_area(common) {
                seq![common]
            } else {
                Seq::empty()
            }
        } else {
            let triangles = self.triangles(self.normalized(clip));
            self.areas_within(subject, triangles, triangles.len() as int)
        }
    }

    fn single_area(&self, points: Vec<Position>) -> (areas: Vec<Vec<Position>>)
        requires
            self.wf(),
        ensures
            figures(areas@) == if self.is_area(points@) {
                seq![points@]
            } else {
                Seq::empty()
            },
    {
        let mut areas: Vec<Vec<Position>> = Vec::new();
        if self.is_large_enough(&points) {
            areas.push(points);
            assert(figures(areas@) =~= seq![points@]);
        } else {
            assert(figures(areas@) =~= Seq::<Seq<Position>>::empty());
        }
        areas
    }

    /// What of an area lies in a polygon.
    pub fn clip_pos_area_operation_to_polygon(
        &self,
        points: &Vec<Position>,
        clip_polygon: &Vec<Position>,
    ) -> (areas: Vec<Vec<Position>>)
        requires
            self.wf(),
        ensures
            figures(areas@) == self.areas_in(points@, clip_polygon@),
    {
        let mut areas: Vec<Vec<Position>> = Vec::new();
        assert(figures(areas@) =~= Seq::<Seq<Position>>::empty());
        let subject: Vec<Position> = self.normalized_pos_polygon(points);
        if subject.len() < 3 || clip_polygon.len() < 3 {
            return areas;
        }
        if self.points_lie_in(&subject, clip_polygon) {
            areas.push(subject);
            assert(figures(areas@) =~= seq![subject@]);
            return areas;
        }
        if self.points_lie_in(clip_polygon, &subject) {
            areas.push(copied(clip_polygon));
            assert(figures(areas@) =~= seq![clip_polygon@]);
            return areas;
        }
        if self.pos_polygon_is_convex(clip_polygon) {
            return self.single_area(
                self.clip_polygon_to_convex_pos_polygon(&subject, clip_polygon),
            );
        }
        if self.pos_polygon_is_convex(&subject) {
            return self.single_area(
                self.clip_polygon_to_convex_pos_polygon(clip_polygon, &subject),
            );
        }
        let triangles: Vec<Vec<Position>> = self.triangulate_pos_polygon(clip_polygon);
        let mut i: usize = 0;
        while i < triangles.len()
            invariant
                self.wf(),
                i <= triangles@.len(),
                figures(areas@) == self.areas_within(subject@, figures(triangles@), i as int),
            decreases triangles@.len() - i,
        {
            let ghost before = areas@;
            let common: Vec<Position> = self.clip_polygon_to_convex_pos_polygon(
                &subject,
                &triangles[i],
            );
            assert(figures(triangles@)[i as int] == triangles@[i as int]@);
            if self.is_large_enough(&common) {
                areas.push(common);
                assert(figures(areas@) =~= figures(before).push(common@));
            }
            i = i + 1;
        }
        areas
    }

    proof fn lemma_ear_is_a_corner(self, ring: Seq<Position>, from: int)
        requires
            0 <= from,
        ensures
            self.first_ear(ring, from) matches Some(i) ==> from <= i < ring.len() && self.is_ear(
                ring,
                i,
            ),
        decreases ring.len() - from,
    {
        if from < ring.len() && !self.is_ear(ring, from) {
            self.lemma_ear_is_a_corner(ring, from + 1);
        }
    }

    /// A polygon is cut into at most two triangles less than it has corners, and
    /// each of them has three of its corners.
    pub proof fn law_triangles_have_the_corners(self, ring: Seq<Position>)
        ensures
            self.triangles(ring).len() <= if ring.len() >= 2 {
                ring.len() - 2
            } else {
                0
            },
            forall|i: int|
                0 <= i < self.triangles(ring).len() ==> (#[trigger] self.triangles(ring)[i]).len()
                    == 3 && forall|k: int|
                    0 <= k < 3 ==> ring.contains(#[trigger] self.triangles(ring)[i][k]),
        decreases ring.len(),
    {
        if ring.len() > 3 {
            self.lemma_ear_is_a_corner(ring, 0);
            if let Some(ear) = self.first_ear(ring, 0) {
                let rest = ring.remove(ear);
                self.law_triangles_have_the_corners(rest);
                let all = self.triangles(ring);
                assert(all =~= seq![corner(ring, ear)] + self.triangles(rest));
                assert forall|i: int| 0 <= i < all.len() implies (#[trigger] all[i]).len() == 3
                    && forall|k: int| 0 <= k < 3 ==> ring.contains(#[trigger] all[i][k]) by {
                    if i > 0 {
                        assert(all[i] == self.triangles(rest)[i - 1]);
                        assert forall|k: int| 0 <= k < 3 implies ring.contains(
                            #[trigger] all[i][k],
                        ) by {
                            assert(rest.contains(self.triangles(rest)[i - 1][k]));
                            let place = choose|place: int|
                                0 <= place < rest.len() && rest[place] == all[i][k];
                            assert(rest[place] == ring[if place < ear {
                                place
                            } else {
                                place + 1
                            }]);
                        }
                    }
                }
            }
        } else if ring.len() == 3 {
            assert(self.triangles(ring) =~= seq![ring]);
        }
    }

    /// A polygon that is put straight loses nothing but repetitions: every finite
    /// point of it is still there, as the same position, and nothing else is.
    pub proof fn law_normalized_polygons_lose_only_repeats(self, points: Seq<Position>, i: int)
        requires
            0 <= i < points.len(),
            is_somewhere(points[i]),
        ensures
            exists|k: int|
                0 <= k < self.normalized(points).len() && same_position(
                    #[trigger] self.normalized(points)[k],
                    points[i],
                ),
            forall|k: int|
                0 <= k < self.normalized(points).len() ==> points.contains(
                    #[trigger] self.normalized(points)[k],
                ),
    {
        let count = points.len() as int;
        let kept = without_repeats(points, count);
        let k = lemma_repeats_only(points, count, i);
        lemma_kept_points_were_there(points, count);
        let outline = unclosed(kept);
        let whole = self.normalized(points);
        let at = if k < outline.len() {
            k
        } else {
            0
        };
        assert(same_position(outline[at], points[i]));
        if less_than(self.area_of(outline), 0) {
            assert(whole[outline.len() - 1 - at] == outline[at]);
            assert forall|k: int| 0 <= k < whole.len() implies points.contains(
                #[trigger] whole[k],
            ) by {
                assert(whole[k] == kept[outline.len() - 1 - k]);
            }
        } else {
            assert(whole[at] == outline[at]);
            assert forall|k: int| 0 <= k < whole.len() implies points.contains(
                #[trigger] whole[k],
            ) by {
                assert(whole[k] == kept[k]);
            }
        }
    }

    /// A polygon that is put straight keeps the order of its corners, and turns
    /// them round where it would run the other way.
    pub proof fn law_normalized_polygons_keep_their_order(
        self,
        points: Seq<Position>,
        area: u32,
    )
        requires
            self.wf(),
            forall|i: int| 0 <= i < points.len() ==> is_somewhere(#[trigger] points[i]),
            forall|i: int|
                0 < i < points.len() ==> !same_position(points[i - 1], #[trigger] points[i]),
            points.len() > 1 ==> !same_position(points.first(), points.last()),
            self.measures(points, area),
        ensures
            self.normalized(points) == if less_than(area, 0) {
                points.reverse()
            } else {
                points
            },
    {
        lemma_nothing_repeats(points, points.len() as int);
        assert(points.take(points.len() as int) =~= points);
        assert(self.area_of(points) == area);
    }

    proof fn lemma_walked(
        self,
        points: Seq<Position>,
        kept: Seq<bool>,
        edge: (Position, Position),
        count: int,
        k: int,
    )
        requires
            0 <= k < count <= points.len(),
            points.len() == kept.len(),
        ensures
            kept[k] ==> self.walked(points, kept, edge, count).contains(points[k]),
            kept[k] != kept[before(k, points.len() as int)] && self.meeting(
                points[before(k, points.len() as int)],
                points[k],
                edge.0,
                edge.1,
            ) is Some ==> self.walked(points, kept, edge, count).contains(
                self.meeting(
                    points[before(k, points.len() as int)],
                    points[k],
                    edge.0,
                    edge.1,
                )->0,
            ),
        decreases count,
    {
        let all = self.walked(points, kept, edge, count);
        let earlier = self.walked(points, kept, edge, count - 1);
        let meeting = self.meeting(
            points[before(k, points.len() as int)],
            points[k],
            edge.0,
            edge.1,
        );
        if k < count - 1 {
            self.lemma_walked(points, kept, edge, count - 1, k);
            assert forall|point: Position| earlier.contains(point) implies all.contains(point) by {
                assert(all[earlier.index_of(point)] == point);
            }
        } else {
            if kept[k] {
                assert(all[all.len() - 1] == points[k]);
            }
            if kept[k] != kept[before(k, points.len() as int)] && meeting is Some {
                assert(all[earlier.len() as int] == meeting->0);
            }
        }
    }

    /// Cutting along a line keeps every corner on the side that is kept, and adds
    /// one wherever the outline crosses the line.
    pub proof fn law_halves_keep_their_corners(
        self,
        subject: Seq<Position>,
        edge: (Position, Position),
        keep_left: bool,
        k: int,
        turn: u32,
    )
        requires
            self.wf(),
            0 <= k < subject.len(),
            is_somewhere(subject[k]),
            call_ensures(self.cross, (edge.0, edge.1, subject[k]), turn),
            if keep_left {
                at_most(0, turn)
            } else {
                at_most(turn, 0)
            },
        ensures
            exists|i: int|
                0 <= i < self.half(subject, edge, keep_left).len() && same_position(
                    #[trigger] self.half(subject, edge, keep_left)[i],
                    subject[k],
                ),
    {
        let kept = self.sides(subject, edge, keep_left);
        let walked = self.walked(subject, kept, edge, subject.len() as int);
        assert(self.turn(edge.0, edge.1, subject[k]) == turn);
        assert(kept[k]);
        self.lemma_walked(subject, kept, edge, subject.len() as int, k);
        let at = walked.index_of(subject[k]);
        self.law_normalized_polygons_lose_only_repeats(walked, at);
        let half = self.half(subject, edge, keep_left);
        assert(half == self.normalized(walked));
        let i = choose|i: int|
            0 <= i < self.normalized(walked).len() && same_position(
                #[trigger] self.normalized(walked)[i],
                walked[at],
            );
        assert(same_position(half[i], subject[k]));
    }

    /// What a line leaves of a polygon lies on the side that is kept: each of its
    /// corners is one of the polygon on that side, or one where the outline
    /// crosses the line between a corner on that side and one on the other.
    pub proof fn law_halves_lie_on_their_side(
        self,
        subject: Seq<Position>,
        edge: (Position, Position),
        keep_left: bool,
        i: int,
    )
        requires
            self.wf(),
            0 <= i < self.half(subject, edge, keep_left).len(),
        ensures
            ({
                let point = self.half(subject, edge, keep_left)[i];
                exists|k: int|
                    0 <= k < subject.len() && {
                        ||| #[trigger] subject[k] == point && self.is_on_side(
                            edge,
                            keep_left,
                            point,
                        )
                        ||| self.is_on_side(edge, keep_left, subject[k]) != self.is_on_side(
                            edge,
                            keep_left,
                            subject[before(k, subject.len() as int)],
                        ) && self.meeting(
                            subject[before(k, subject.len() as int)],
                            subject[k],
                            edge.0,
                            edge.1,
                        ) == Some(point)
                    }
            }),
    {
        let count = subject.len() as int;
        let kept = self.sides(subject, edge, keep_left);
        let walked = self.walked(subject, kept, edge, count);
        let half = self.half(subject, edge, keep_left);
        lemma_kept_points_were_there(walked, walked.len() as int);
        let outline = unclosed(without_repeats(walked, walked.len() as int));
        let at = if less_than(self.area_of(outline), 0) {
            outline.len() - 1 - i
        } else {
            i
        };
        assert(half[i] == without_repeats(walked, walked.len() as int)[at]);
        assert(walked.contains(half[i]));
        let place = walked.index_of(half[i]);
        self.law_clipped_points_are_kept_or_crossings(subject, kept, edge, count);
        assert(self.is_kept_or_crossing(subject, kept, edge, walked[place]));
        let k = choose|k: int|
            0 <= k < subject.len() && {
                ||| kept[k] && #[trigger] subject[k] == half[i]
                ||| {
                    let previous = before(k, subject.len() as int);
                    &&& kept[k] != kept[previous]
                    &&& self.meeting(subject[previous], subject[k], edge.0, edge.1) == Some(half[i])
                }
            };
        assert(kept[k] == self.is_on_side(edge, keep_left, subject[k]));
        let previous = before(k, subject.len() as int);
        assert(kept[previous] == self.is_on_side(edge, keep_left, subject[previous]));
    }

    /// Whether a point lies on a side of a line, or on the line.
    pub open spec fn is_on_side(
        self,
        edge: (Position, Position),
        left: bool,
        point: Position,
    ) -> bool {
        if left {
            at_most(0, self.turn(edge.0, edge.1, point))
        } else {
            at_most(self.turn(edge.0, edge.1, point), 0)
        }
    }

    /// What the lines of a convex polygon leave of another one lies to the left of
    /// all of them: every corner that is left was there or is where the outline
    /// crossed one of the lines, and lies to the left of every line that was cut
    /// along since.
    pub proof fn law_cut_corners_lie_left_of_every_line(
        self,
        subject: Seq<Position>,
        lines: Seq<(Position, Position)>,
        count: int,
        i: int,
    )
        requires
            self.wf(),
            0 <= count <= lines.len(),
            0 <= i < self.cut_by(subject, lines, count).len(),
        ensures
            ({
                let point = self.cut_by(subject, lines, count)[i];
                exists|since: int|
                    0 <= since <= count && #[trigger] self.came_with(
                        subject,
                        lines,
                        since,
                        point,
                    ) && forall|j: int|
                        since <= j < count ==> self.is_left(
                            point,
                            (#[trigger] lines[j]).0,
                            lines[j].1,
                        )
            }),
        decreases count,
    {
        let point = self.cut_by(subject, lines, count)[i];
        if count == 0 {
            assert(self.came_with(subject, lines, 0, point));
        } else {
            let earlier = self.cut_by(subject, lines, count - 1);
            let edge = lines[count - 1];
            let kept = self.left_sides(earlier, edge);
            self.law_clipped_points_are_kept_or_crossings(
                earlier,
                kept,
                edge,
                earlier.len() as int,
            );
            assert(self.is_kept_or_crossing(
                earlier,
                kept,
                edge,
                self.walked(earlier, kept, edge, earlier.len() as int)[i],
            ));
            let k = choose|k: int|
                0 <= k < earlier.len() && {
                    ||| kept[k] && #[trigger] earlier[k] == point
                    ||| {
                        let previous = before(k, earlier.len() as int);
                        &&& kept[k] != kept[previous]
                        &&& self.meeting(earlier[previous], earlier[k], edge.0, edge.1) == Some(
                            point,
                        )
                    }
                };
            if kept[k] && earlier[k] == point {
                self.law_cut_corners_lie_left_of_every_line(subject, lines, count - 1, k);
                let since = choose|since: int|
                    0 <= since <= count - 1 && #[trigger] self.came_with(
                        subject,
                        lines,
                        since,
                        point,
                    ) && forall|j: int|
                        since <= j < count - 1 ==> self.is_left(
                            point,
                            (#[trigger] lines[j]).0,
                            lines[j].1,
                        );
                assert(self.is_left(point, lines[count - 1].0, lines[count - 1].1));
                assert(self.came_with(subject, lines, since, point));
            } else {
                assert(self.came_with(subject, lines, count, point));
            }
        }
    }

    /// Whether a point is a corner of the subject, for no line, or else one where
    /// an outline crosses the last of so many lines.
    pub open spec fn came_with(
        self,
        subject: Seq<Position>,
        lines: Seq<(Position, Position)>,
        count: int,
        point: Position,
    ) -> bool {
        if count <= 0 {
            subject.contains(point)
        } else {
            exists|a: Position, b: Position| #[trigger]
                self.meeting(a, b, lines[count - 1].0, lines[count - 1].1) == Some(point)
        }
    }

    proof fn lemma_inner_corners_stay(
        self,
        subject: Seq<Position>,
        lines: Seq<(Position, Position)>,
        count: int,
        point: Position,
    )
        requires
            0 <= count <= lines.len(),
            subject.contains(point),
            forall|j: int|
                0 <= j < lines.len() ==> self.is_left(point, (#[trigger] lines[j]).0, lines[j].1),
        ensures
            self.cut_by(subject, lines, count).contains(point),
        decreases count,
    {
        if count > 0 {
            self.lemma_inner_corners_stay(subject, lines, count - 1, point);
            let earlier = self.cut_by(subject, lines, count - 1);
            let edge = lines[count - 1];
            let k = earlier.index_of(point);
            assert(self.left_sides(earlier, edge)[k]);
            self.lemma_walked(
                earlier,
                self.left_sides(earlier, edge),
                edge,
                earlier.len() as int,
                k,
            );
        }
    }

    /// A corner of a polygon that lies to the left of every edge of a convex one
    /// is, as the same position, a corner of what they have in common.
    pub proof fn law_corners_inside_a_convex_polygon_stay(
        self,
        subject: Seq<Position>,
        convex: Seq<Position>,
        k: int,
    )
        requires
            self.wf(),
            0 <= k < self.normalized(subject).len(),
            forall|j: int|
                0 <= j < edges(self.normalized(convex)).len() ==> self.is_left(
                    self.normalized(subject)[k],
                    (#[trigger] edges(self.normalized(convex))[j]).0,
                    edges(self.normalized(convex))[j].1,
                ),
        ensures
            exists|i: int|
                0 <= i < self.within_convex(subject, convex).len() && same_position(
                    #[trigger] self.within_convex(subject, convex)[i],
                    self.normalized(subject)[k],
                ),
    {
        let lines = edges(self.normalized(convex));
        let point = self.normalized(subject)[k];
        let cut = self.cut_by(self.normalized(subject), lines, lines.len() as int);
        assert(self.normalized(subject).contains(point));
        self.lemma_inner_corners_stay(
            self.normalized(subject),
            lines,
            lines.len() as int,
            point,
        );
        let at = cut.index_of(point);
        law_outlines_repeat_no_point(subject);
        let outline = unclosed(without_repeats(subject, subject.len() as int));
        assert(is_somewhere(point)) by {
            if less_than(self.area_of(outline), 0) {
                assert(point == outline[outline.len() - 1 - k]);
            } else {
                assert(point == outline[k]);
            }
        }
        self.law_normalized_polygons_lose_only_repeats(cut, at);
        let common = self.within_convex(subject, convex);
        assert(common == self.normalized(cut));
        let i = choose|i: int|
            0 <= i < self.normalized(cut).len() && same_position(
                #[trigger] self.normalized(cut)[i],
                cut[at],
            );
        assert(same_position(common[i], point));
    }

    /// A polygon that is cut into triangles altogether has two less of these than
    /// corners, and every corner is one of a triangle.
    pub proof fn law_triangles_use_every_corner(self, ring: Seq<Position>, k: int)
        requires
            ring.len() >= 3,
            self.triangles(ring).len() == ring.len() - 2,
            0 <= k < ring.len(),
        ensures
            exists|i: int|
                0 <= i < self.triangles(ring).len() && (#[trigger] self.triangles(
                    ring,
                )[i]).contains(ring[k]),
        decreases ring.len(),
    {
        let all = self.triangles(ring);
        if ring.len() == 3 {
            assert(all[0] == ring);
            assert(all[0].contains(ring[k]));
        } else {
            self.lemma_ear_is_a_corner(ring, 0);
            let ear = self.first_ear(ring, 0)->0;
            let rest = ring.remove(ear);
            assert(all == seq![corner(ring, ear)] + self.triangles(rest));
            if k == ear {
                assert(all[0][1] == ring[k]);
                assert(all[0].contains(ring[k]));
            } else {
                let at = if k < ear {
                    k
                } else {
                    k - 1
                };
                assert(rest[at] == ring[k]);
                self.law_triangles_use_every_corner(rest, at);
                let i = choose|i: int|
                    0 <= i < self.triangles(rest).len() && (#[trigger] self.triangles(
                        rest,
                    )[i]).contains(rest[at]);
                assert(all[i + 1] == self.triangles(rest)[i]);
            }
        }
    }

    /// The first triangle that is cut off turns to the left, and no other corner
    /// of the polygon lies in it.
    pub proof fn law_triangles_are_ears(self, ring: Seq<Position>)
        requires
            ring.len() > 3,
            self.triangles(ring).len() > 0,
        ensures
            exists|i: int|
                {
                    let a = ring[before(i, ring.len() as int)];
                    let c = ring[after(i, ring.len() as int)];
                    &&& 0 <= i < ring.len()
                    &&& self.triangles(ring) == seq![seq![a, #[trigger] ring[i], c]]
                        + self.triangles(ring.remove(i))
                    &&& less_than(STRAIGHT_TURN, self.turn(a, ring[i], c))
                    &&& forall|k: int|
                        0 <= k < ring.len() && k != before(i, ring.len() as int) && k != i && k
                            != after(i, ring.len() as int) ==> !(self.is_left(
                            #[trigger] ring[k],
                            a,
                            ring[i],
                        ) && self.is_left(ring[k], ring[i], c) && self.is_left(ring[k], c, a))
                },
    {
        self.lemma_ear_is_a_corner(ring, 0);
        let i = self.first_ear(ring, 0)->0;
        let a = ring[before(i, ring.len() as int)];
        let b = ring[i];
        let c = ring[after(i, ring.len() as int)];
        assert(corner(ring, i) == seq![a, b, c]);
        assert forall|k: int|
            0 <= k < ring.len() && k != before(i, ring.len() as int) && k != i && k != after(
                i,
                ring.len() as int,
            ) implies !(self.is_left(#[trigger] ring[k], a, ring[i]) && self.is_left(
            ring[k],
            ring[i],
            c,
        ) && self.is_left(ring[k], c, a)) by {
            assert(!self.in_triangle(ring[k], a, b, c));
        }
    }

    proof fn lemma_turning(self, polygon: Seq<Position>, measures: Seq<u32>, count: int)
        requires
            self.wf(),
            0 <= count <= polygon.len(),
            self.are_turns(polygon, measures),
        ensures
            match self.turning(polygon, count) {
                Turning::Undecided => forall|i: int|
                    0 <= i < count ==> at_most(magnitude(#[trigger] measures[i]), STRAIGHT_TURN),
                Turning::Left => (exists|i: int| 0 <= i < count && !is_straight(#[trigger] measures[i]))
                    && forall|i: int|
                    0 <= i < count && !is_straight(#[trigger] measures[i]) ==> measures[i]
                        < SIGN_BIT,
                Turning::Right => (exists|i: int|
                    0 <= i < count && !is_straight(#[trigger] measures[i])) && forall|i: int|
                    0 <= i < count && !is_straight(#[trigger] measures[i]) ==> measures[i]
                        >= SIGN_BIT,
                Turning::Unmeasured => false,
                Turning::Mixed => (exists|i: int|
                    0 <= i < count && !is_straight(#[trigger] measures[i]) && measures[i]
                        < SIGN_BIT) && (exists|i: int|
                    0 <= i < count && !is_straight(#[trigger] measures[i]) && measures[i]
                        >= SIGN_BIT),
            },
        decreases count,
    {
        if count > 0 {
            self.lemma_turning(polygon, measures, count - 1);
            let length = polygon.len() as int;
            let measure = measures[count - 1];
            assert(self.turn(
                polygon[count - 1],
                polygon[after(count - 1, length)],
                polygon[after(after(count - 1, length), length)],
            ) == measure);
            assert(magnitude(measure) <= INFINITE_MAGNITUDE);
            assert(0 <= count - 1 < count && measure == measures[count - 1]);
        }
    }

    /// Whether `measures` are how far a polygon turns at its corners, all
    /// measurable.
    pub open spec fn are_turns(self, polygon: Seq<Position>, measures: Seq<u32>) -> bool {
        let length = polygon.len() as int;
        &&& measures.len() == polygon.len()
        &&& forall|i: int|
            0 <= i < polygon.len() ==> call_ensures(
                self.cross,
                (
                    polygon[i],
                    polygon[after(i, length)],
                    polygon[after(after(i, length), length)],
                ),
                #[trigger] measures[i],
            ) && magnitude(measures[i]) <= INFINITE_MAGNITUDE
    }

    /// A polygon is convex if and only if it turns somewhere and turns the same
    /// way wherever it turns.
    pub proof fn law_convex_polygons_turn_one_way(self, points: Seq<Position>, measures: Seq<u32>)
        requires
            self.wf(),
            self.normalized(points).len() >= 3,
            self.are_turns(self.normalized(points), measures),
        ensures
            self.is_convex(points) <==> (exists|i: int|
                0 <= i < measures.len() && !is_straight(#[trigger] measures[i])) && (forall|
                i: int,
                j: int,
            |
                0 <= i < measures.len() && 0 <= j < measures.len() && !is_straight(
                    #[trigger] measures[i],
                ) && !is_straight(#[trigger] measures[j]) ==> (measures[i] < SIGN_BIT <==> measures[j]
                    < SIGN_BIT)),
    {
        let polygon = self.normalized(points);
        self.lemma_turning(polygon, measures, polygon.len() as int);
    }

    /// An area in a polygon, and a polygon in an area, are left as they are; else
    /// every part in common has three corners and enough of an area.
    pub proof fn law_areas_in_a_polygon(self, points: Seq<Position>, clip: Seq<Position>)
        requires
            self.normalized(points).len() >= 3,
            clip.len() >= 3,
        ensures
            ({
                let subject = self.normalized(points);
                let areas = self.areas_in(points, clip);
                let subject_in = forall|i: int|
                    0 <= i < subject.len() ==> self.inside.has(#[trigger] subject[i], clip);
                let clip_in = forall|i: int|
                    0 <= i < clip.len() ==> self.inside.has(#[trigger] clip[i], subject);
                &&& subject_in ==> areas == seq![subject]
                &&& !subject_in && clip_in ==> areas == seq![clip]
                &&& !subject_in && !clip_in ==> forall|i: int|
                    0 <= i < areas.len() ==> (#[trigger] areas[i]).len() >= 3 && at_most(
                        MIN_FILL_FRAGMENT_AREA_TWICE,
                        magnitude(self.area_of(areas[i])),
                    )
            }),
    {
        let subject = self.normalized(points);
        assert(self.all_in(subject, clip) == forall|i: int|
            0 <= i < subject.len() ==> self.inside.has(#[trigger] subject[i], clip)) by {
            if self.all_in(subject, clip) {
                assert forall|i: int| 0 <= i < subject.len() implies self.inside.has(
                    #[trigger] subject[i],
                    clip,
                ) by {
                    assert(self.is_in(subject[i], clip));
                }
            }
        }
        assert(self.all_in(clip, subject) == forall|i: int|
            0 <= i < clip.len() ==> self.inside.has(#[trigger] clip[i], subject)) by {
            if self.all_in(clip, subject) {
                assert forall|i: int| 0 <= i < clip.len() implies self.inside.has(
                    #[trigger] clip[i],
                    subject,
                ) by {
                    assert(self.is_in(clip[i], subject));
                }
            }
        }
        let triangles = self.triangles(self.normalized(clip));
        self.lemma_areas_are_areas(subject, triangles, triangles.len() as int);
    }

    proof fn lemma_areas_are_areas(
        self,
        subject: Seq<Position>,
        triangles: Seq<Seq<Position>>,
        count: int,
    )
        ensures
            forall|i: int|
                0 <= i < self.areas_within(subject, triangles, count).len() ==> self.is_area(
                    #[trigger] self.areas_within(subject, triangles, count)[i],
                ),
        decreases count,
    {
        if count > 0 {
            self.lemma_areas_are_areas(subject, triangles, count - 1);
            let all = self.areas_within(subject, triangles, count);
            let earlier = self.areas_within(subject, triangles, count - 1);
            assert forall|i: int| 0 <= i < all.len() implies self.is_area(#[trigger] all[i]) by {
                if i < earlier.len() {
                    assert(all[i] == earlier[i]);
                }
            }
        }
    }

    /// What an area has in common with any of the triangles of a polygon, where
    /// that is large enough, is one of the areas in it.
    pub proof fn law_no_triangle_is_left_out(
        self,
        subject: Seq<Position>,
        triangles: Seq<Seq<Position>>,
        count: int,
        i: int,
    )
        requires
            0 <= i < count <= triangles.len(),
            self.within_convex(subject, triangles[i]).len() >= 3,
            at_most(
                MIN_FILL_FRAGMENT_AREA_TWICE,
                magnitude(self.area_of(self.within_convex(subject, triangles[i]))),
            ),
        ensures
            self.areas_within(subject, triangles, count).contains(
                self.within_convex(subject, triangles[i]),
            ),
        decreases count,
    {
        let common = self.within_convex(subject, triangles[i]);
        let all = self.areas_within(subject, triangles, count);
        if i < count - 1 {
            self.law_no_triangle_is_left_out(subject, triangles, count - 1, i);
            let earlier = self.areas_within(subject, triangles, count - 1);
            assert(all[earlier.index_of(common)] == common);
        } else {
            assert(all.last() == common);
        }
    }

    proof fn lemma_pieces_stay(
        self,
        subject: Seq<Position>,
        lines: Seq<(Position, Position)>,
        count: int,
        later: int,
        piece: Seq<Position>,
    )
        requires
            0 <= count <= later,
            self.peeled(subject, lines, count).pieces.contains(piece),
        ensures
            self.peeled(subject, lines, later).pieces.contains(piece),
        decreases later - count,
    {
        if count < later {
            self.lemma_pieces_stay(subject, lines, count, later - 1, piece);
            let earlier = self.peeled(subject, lines, later - 1).pieces;
            let all = self.peeled(subject, lines, later).pieces;
            assert(all[earlier.index_of(piece)] == piece);
        }
    }

    /// Subtracting a convex polygon peels off what lies outside of each of its
    /// edges in turn: until nothing worth it is left inside, what is left is cut
    /// along the next edge, its inner half goes on, and its outer half is a piece
    /// if it is large enough.
    pub proof fn law_every_edge_peels_off_what_lies_outside(
        self,
        subject: Seq<Position>,
        lines: Seq<(Position, Position)>,
        at: int,
    )
        requires
            0 <= at < lines.len(),
            !self.peeled(subject, lines, at).done,
        ensures
            ({
                let inside = self.peeled(subject, lines, at).inside;
                let outer = self.half(inside, lines[at], false);
                &&& self.peeled(subject, lines, 0).inside == subject
                &&& self.peeled(subject, lines, at + 1).inside == self.half(
                    inside,
                    lines[at],
                    true,
                )
                &&& self.is_piece(outer) ==> self.peeled(
                    subject,
                    lines,
                    lines.len() as int,
                ).pieces.contains(outer)
                &&& self.peeled(subject, lines, at + 1).done <==> !self.is_piece(
                    self.half(inside, lines[at], true),
                )
            }),
    {
        let inside = self.peeled(subject, lines, at).inside;
        let outer = self.half(inside, lines[at], false);
        if self.is_piece(outer) {
            let pieces = self.peeled(subject, lines, at + 1).pieces;
            assert(pieces.last() == outer);
            assert(pieces.contains(outer));
            self.lemma_pieces_stay(subject, lines, at + 1, lines.len() as int, outer);
        }
    }

    /// Where a polygon has nothing worth it in common with a convex one, it is
    /// left as it is; and all pieces that are left else are large enough.
    pub proof fn law_pieces_are_worth_it(self, subject: Seq<Position>, mask: Seq<Position>)
        ensures
            !self.has_inside(self.within_convex(subject, mask)) ==> self.without_convex(
                subject,
                mask,
            ) == seq![subject],
            self.has_inside(self.within_convex(subject, mask)) ==> forall|i: int|
                0 <= i < self.without_convex(subject, mask).len() ==> self.is_piece(
                    #[trigger] self.without_convex(subject, mask)[i],
                ),
    {
        self.lemma_pieces_are_pieces(subject, edges(mask), edges(mask).len() as int);
    }

    proof fn lemma_pieces_are_pieces(
        self,
        subject: Seq<Position>,
        lines: Seq<(Position, Position)>,
        count: int,
    )
        ensures
            forall|i: int|
                0 <= i < self.peeled(subject, lines, count).pieces.len() ==> self.is_piece(
                    #[trigger] self.peeled(subject, lines, count).pieces[i],
                ),
        decreases count,
    {
        if count > 0 {
            self.lemma_pieces_are_pieces(subject, lines, count - 1);
            let all = self.peeled(subject, lines, count).pieces;
            let earlier = self.peeled(subject, lines, count - 1).pieces;
            assert forall|i: int| 0 <= i < all.len() implies self.is_piece(#[trigger] all[i]) by {
                if i < earlier.len() {
                    assert(all[i] == earlier[i]);
                }
            }
        }
    }

    /// Every point of what a line leaves of a polygon is one of its points on the
    /// side that is kept, or one where it crosses the line.
    pub proof fn law_clipped_points_are_kept_or_crossings(
        self,
        points: Seq<Position>,
        kept: Seq<bool>,
        edge: (Position, Position),
        count: int,
    )
        requires
            points.len() == kept.len(),
            0 <= count <= points.len(),
        ensures
            forall|i: int|
                0 <= i < self.walked(points, kept, edge, count).len() ==> self.is_kept_or_crossing(
                    points,
                    kept,
                    edge,
                    #[trigger] self.walked(points, kept, edge, count)[i],
                ),
        decreases count,
    {
        if count > 0 {
            self.law_clipped_points_are_kept_or_crossings(points, kept, edge, count - 1);
            let current = count - 1;
            let previous = before(current, points.len() as int);
            let walked = self.walked(points, kept, edge, count);
            let earlier = self.walked(points, kept, edge, count - 1);
            let meeting = self.meeting(points[previous], points[current], edge.0, edge.1);
            assert forall|i: int| 0 <= i < walked.len() implies self.is_kept_or_crossing(
                points,
                kept,
                edge,
                #[trigger] walked[i],
            ) by {
                if i < earlier.len() {
                    assert(walked[i] == earlier[i]);
                } else if kept[current] && i == walked.len() - 1 {
                    assert(walked[i] == points[current]);
                } else {
                    assert(kept[current] != kept[previous] && meeting == Some(walked[i]));
                }
            }
        }
    }

    /// Whether a point is one of a polygon's that are kept, or one where the
    /// polygon crosses a line between one that is kept and one that is not.
    pub open spec fn is_kept_or_crossing(
        self,
        points: Seq<Position>,
        kept: Seq<bool>,
        edge: (Position, Position),
        point: Position,
    ) -> bool {
        exists|k: int|
            0 <= k < points.len() && {
                ||| kept[k] && #[trigger] points[k] == point
                ||| {
                    let previous = before(k, points.len() as int);
                    &&& kept[k] != kept[previous]
                    &&& self.meeting(points[previous], points[k], edge.0, edge.1) == Some(point)
                }
            }
    }
}

/// What is left of a polygon while the sides of a mask are taken off: what is
/// still inside of all of them, and the pieces outside of one.
pub struct Peeling {
    pub inside: Seq<Position>,
    pub pieces: Seq<Seq<Position>>,
    pub done: bool,
}

/// The points of each figure.
pub open spec fn figures(list: Seq<Vec<Position>>) -> Seq<Seq<Position>> {
    list.map_values(|figure: Vec<Position>| figure@)
}

/// The corner before `i`, going round.
pub open spec fn before(i: int, length: int) -> int {
    if i == 0 {
        length - 1
    } else {
        i - 1
    }
}

/// The corner after `i`, going round.
pub open spec fn after(i: int, length: int) -> int {
    if i + 1 == length {
        0
    } else {
        i + 1
    }
}

/// The triangle of a corner and its neighbours.
pub open spec fn corner(ring: Seq<Position>, i: int) -> Seq<Position> {
    seq![ring[before(i, ring.len() as int)], ring[i], ring[after(i, ring.len() as int)]]
}

/// Which way the corners of a polygon turn.
#[derive(Debug, Clone, Copy, PartialEq, Eq, Structural)]
pub enum Turning {
    /// No corner turns.
    Undecided,
    Left,
    Right,
    /// One corner turns, and its measure is not a number.
    Unmeasured,
    Mixed,
}

/// Which way a corner turns that is not straight.
pub open spec fn turn_of(measure: u32) -> Turning {
    if magnitude(measure) > INFINITE_MAGNITUDE {
        Turning::Unmeasured
    } else if measure >= SIGN_BIT {
        Turning::Right
    } else {
        Turning::Left
    }
}

impl Turning {
    /// Which way the corners turn, one more of them.
    pub open spec fn then_turns(self, measure: u32) -> Turning {
        if at_most(magnitude(measure), STRAIGHT_TURN) {
            self
        } else if self is Undecided {
            turn_of(measure)
        } else if self == turn_of(measure) && !(self is Unmeasured) {
            self
        } else {
            Turning::Mixed
        }
    }

    fn turn_on(self, measure: u32) -> (turning: Turning)
        ensures
            turning == self.then_turns(measure),
    {
        let size: u32 = without_sign(measure);
        if number_at_most(size, STRAIGHT_TURN) {
            return self;
        }
        let turn: Turning = if size > INFINITE_MAGNITUDE {
            Turning::Unmeasured
        } else if measure >= SIGN_BIT {
            Turning::Right
        } else {
            Turning::Left
        };
        if self == Turning::Undecided {
            turn
        } else if self == turn && self != Turning::Unmeasured {
            self
        } else {
            Turning::Mixed
        }
    }
}

proof fn lemma_without_repeats(points: Seq<Position>, count: int)
    requires
        0 <= count <= points.len(),
    ensures
        ({
            let kept = without_repeats(points, count);
            &&& kept.len() <= count
            &&& forall|i: int| 0 <= i < kept.len() ==> is_somewhere(#[trigger] kept[i])
            &&& forall|i: int|
                0 < i < kept.len() ==> !same_position(kept[i - 1], #[trigger] kept[i])
        }),
    decreases count,
{
    if count > 0 {
        lemma_without_repeats(points, count - 1);
    }
}

/// No point of a polygon that is left repeats the one before it, all of them
/// are somewhere, and the last one does not repeat the first.
pub proof fn law_outlines_repeat_no_point(points: Seq<Position>)
    ensures
        ({
            let outline = unclosed(without_repeats(points, points.len() as int));
            &&& outline.len() <= points.len()
            &&& forall|i: int| 0 <= i < outline.len() ==> is_somewhere(#[trigger] outline[i])
            &&& forall|i: int|
                0 < i < outline.len() ==> !same_position(outline[i - 1], #[trigger] outline[i])
            &&& outline.len() > 2 ==> !same_position(outline.first(), outline.last())
        }),
{
    let kept = without_repeats(points, points.len() as int);
    lemma_without_repeats(points, points.len() as int);
    let outline = unclosed(kept);
    assert forall|i: int| 0 < i < outline.len() implies !same_position(
        outline[i - 1],
        #[trigger] outline[i],
    ) by {
        assert(outline[i] == kept[i]);
    }
    if outline.len() > 2 && outline.len() < kept.len() {
        let last = kept.len() - 1;
        assert(same_position(kept[0], kept[last]));
        assert(!same_position(kept[last - 1], kept[last]));
        assert(outline.last() == kept[last - 1]);
        assert(is_somewhere(kept[0]));
        assert(is_somewhere(kept[last - 1]));
    }
}

proof fn lemma_repeats_only(points: Seq<Position>, count: int, i: int) -> (k: int)
    requires
        0 <= i < count <= points.len(),
        is_somewhere(points[i]),
    ensures
        0 <= k < without_repeats(points, count).len(),
        same_position(without_repeats(points, count)[k], points[i]),
    decreases count,
{
    let kept = without_repeats(points, count);
    let before = without_repeats(points, count - 1);
    if i < count - 1 {
        let k = lemma_repeats_only(points, count - 1, i);
        assert(kept[k] == before[k]);
        k
    } else {
        kept.len() - 1
    }
}

proof fn lemma_kept_points_were_there(points: Seq<Position>, count: int)
    requires
        0 <= count <= points.len(),
    ensures
        forall|k: int|
            0 <= k < without_repeats(points, count).len() ==> points.contains(
                #[trigger] without_repeats(points, count)[k],
            ),
    decreases count,
{
    if count > 0 {
        lemma_kept_points_were_there(points, count - 1);
        let last = points[count - 1];
        assert(points.contains(last));
        let all = without_repeats(points, count);
        let before = without_repeats(points, count - 1);
        assert forall|k: int| 0 <= k < all.len() implies points.contains(#[trigger] all[k]) by {
            if k < before.len() {
                assert(all[k] == before[k]);
            }
        }
    }
}

/// The lines of a polygon go around it: one starts at each corner and ends where
/// the next one starts, and the last one ends at the first corner.
pub proof fn law_edges_go_around(points: Seq<Position>)
    requires
        points.len() >= 2,
    ensures
        edges(points).len() == points.len(),
        forall|i: int|
            0 <= i < points.len() - 1 ==> (#[trigger] edges(points)[i]).0 == points[i] && edges(
                points,
            )[i].1 == points[i + 1],
        edges(points).last().0 == points.last(),
        edges(points).last().1 == points.first(),
{
    let length = points.len() as int;
    assert forall|i: int| 0 <= i < length - 1 implies (#[trigger] edges(points)[i]).0 == points[i]
        && edges(points)[i].1 == points[i + 1] by {
        assert((i + 1) % length == i + 1) by (nonlinear_arith)
            requires
                0 <= i < length - 1,
        ;
    }
    assert(((length - 1) + 1) % length == 0) by (nonlinear_arith)
        requires
            length >= 2,
    ;
}

proof fn lemma_nothing_repeats(points: Seq<Position>, count: int)
    requires
        0 <= count <= points.len(),
        forall|i: int| 0 <= i < points.len() ==> is_somewhere(#[trigger] points[i]),
        forall|i: int| 0 < i < points.len() ==> !same_position(points[i - 1], #[trigger] points[i]),
    ensures
        without_repeats(points, count) == points.take(count),
    decreases count,
{
    if count > 0 {
        lemma_nothing_repeats(points, count - 1);
        assert(points.take(count) =~= points.take(count - 1).push(points[count - 1]));
        assert(is_somewhere(points[count - 1]));
    } else {
        assert(points.take(0) =~= Seq::<Position>::empty());
    }
}

/// Whether a corner hardly turns.
pub open spec fn is_straight(measure: u32) -> bool {
    at_most(magnitude(measure), STRAIGHT_TURN)
}

} // verus!
