//! Filling polygons row by row.

use crate::intervals::{ordered, sorted_numbers, Placed, Single};
use crate::plane::{before, figures};
use crate::screen::{at_most, is_number, less_than, number_less_than, Position};
use vstd::prelude::*;

verus! {

/// A filled part of a row.
#[derive(Debug, Clone, Copy, PartialEq, Eq, Structural)]
pub struct Span {
    pub left: u32,
    pub right: u32,
}

impl Placed for Span {
    /// Spans stand where they start.
    open spec fn place(self) -> int {
        Single { bits: self.left }.place()
    }

    fn stands_before(self, other: Self) -> (before: bool) {
        let one = Single { bits: self.left };
        let two = Single { bits: other.left };
        one.stands_before(two)
    }
}

/// What filling rests on that comes from floating-point arithmetic.
pub struct Scan<X, R, C> {
    /// Where the line between two positions crosses a row; none where that is
    /// nowhere.
    pub cross: X,
    /// Whether a span that starts at the first place begins where one ends that
    /// ends at the second, but for rounding.
    pub reaches: R,
    /// The middle of a row.
    pub center: C,
}

/// The two by two parts between the first `count` pairs of places.
pub open spec fn pairs(places: Seq<Single>, count: int) -> Seq<Span>
    decreases count,
{
    if count <= 0 {
        Seq::empty()
    } else {
        pairs(places, count - 1).push(
            Span { left: places[2 * count - 2].bits, right: places[2 * count - 1].bits },
        )
    }
}

fn take_pairs(places: &Vec<Single>) -> (spans: Vec<Span>)
    ensures
        spans@ == pairs(places@, places@.len() as int / 2),
{
    let count: usize = places.len() / 2;
    let mut spans: Vec<Span> = Vec::new();
    let mut i: usize = 0;
    while i < count
        invariant
            i <= count,
            count == places@.len() as int / 2,
            places@.len() <= usize::MAX,
            spans@ == pairs(places@, i as int),
        decreases count - i,
    {
        spans.push(Span { left: places[2 * i].bits, right: places[2 * i + 1].bits });
        i = i + 1;
    }
    spans
}

/// The greater one of a place and a limit.
pub open spec fn at_least(place: u32, limit: u32) -> u32 {
    if less_than(place, limit) {
        limit
    } else {
        place
    }
}

/// The lesser one of a place and a limit.
pub open spec fn no_more_than(place: u32, limit: u32) -> u32 {
    if less_than(limit, place) {
        limit
    } else {
        place
    }
}

/// What of the first `count` spans lies between two limits.
pub open spec fn clipped(spans: Seq<Span>, left: u32, right: u32, count: int) -> Seq<Span>
    decreases count,
{
    if count <= 0 {
        Seq::empty()
    } else {
        let earlier = clipped(spans, left, right, count - 1);
        let span = Span {
            left: at_least(spans[count - 1].left, left),
            right: no_more_than(spans[count - 1].right, right),
        };
        if less_than(span.left, span.right) {
            earlier.push(span)
        } else {
            earlier
        }
    }
}

fn clip_spans(spans: &Vec<Span>, left: u32, right: u32) -> (result: Vec<Span>)
    ensures
        result@ == clipped(spans@, left, right, spans@.len() as int),
{
    let mut result: Vec<Span> = Vec::new();
    let mut i: usize = 0;
    while i < spans.len()
        invariant
            i <= spans@.len(),
            result@ == clipped(spans@, left, right, i as int),
        decreases spans@.len() - i,
    {
        let from: u32 = if number_less_than(spans[i].left, left) {
            left
        } else {
            spans[i].left
        };
        let to: u32 = if number_less_than(right, spans[i].right) {
            right
        } else {
            spans[i].right
        };
        if number_less_than(from, to) {
            result.push(Span { left: from, right: to });
        }
        i = i + 1;
    }
    result
}

impl<
    X: Fn(Position, Position, u32) -> Option<Single>,
    R: Fn(u32, u32) -> bool,
    C: Fn(i32) -> u32,
> Scan<X, R, C> {
    /// Everything can be asked, and asking twice gives the same answer.
    pub open spec fn wf(self) -> bool {
        &&& crate::intervals::answers::<u32, R>(self.reaches)
        &&& forall|a: Position, b: Position, row: u32| #[trigger]
            call_requires(self.cross, (a, b, row))
        &&& forall|y: i32| #[trigger] call_requires(self.center, (y,))
        &&& forall|
            a: Position,
            b: Position,
            row: u32,
            one: Option<Single>,
            other: Option<Single>,
        | #[trigger]
            call_ensures(self.cross, (a, b, row), one) && #[trigger] call_ensures(
                self.cross,
                (a, b, row),
                other,
            ) ==> one == other
        &&& forall|y: i32, one: u32, other: u32| #[trigger]
            call_ensures(self.center, (y,), one) && #[trigger] call_ensures(
                self.center,
                (y,),
                other,
            ) ==> one == other
    }

    /// Where the line between two positions crosses a row.
    pub open spec fn crossing(self, a: Position, b: Position, row: u32) -> Option<Single> {
        choose|answer: Option<Single>| call_ensures(self.cross, (a, b, row), answer)
    }

    /// The middle of a row.
    pub open spec fn middle(self, y: i32) -> u32 {
        choose|answer: u32| call_ensures(self.center, (y,), answer)
    }

    /// Where the first `count` edges of a polygon cross a row: those of which one
    /// end lies below it and the other one does not.
    pub open spec fn crossings(self, points: Seq<Position>, row: u32, count: int) -> Seq<Single>
        decreases count,
    {
        if count <= 0 {
            Seq::empty()
        } else {
            let earlier = self.crossings(points, row, count - 1);
            let a = points[count - 1];
            let b = points[before(count - 1, points.len() as int)];
            let crossing = self.crossing(a, b, row);
            if less_than(row, a.y) != less_than(row, b.y) && crossing is Some {
                earlier.push(crossing->0)
            } else {
                earlier
            }
        }
    }

    fn find_crossings(&self, points: &Vec<Position>, row: u32) -> (places: Vec<Single>)
        requires
            self.wf(),
        ensures
            places@ == self.crossings(points@, row, points@.len() as int),
    {
        let mut places: Vec<Single> = Vec::new();
        let mut current: usize = 0;
        while current < points.len()
            invariant
                self.wf(),
                current <= points@.len(),
                places@ == self.crossings(points@, row, current as int),
            decreases points@.len() - current,
        {
            let previous: usize = if current == 0 {
                points.len() - 1
            } else {
                current - 1
            };
            let a: Position = points[current];
            let b: Position = points[previous];
            if number_less_than(row, a.y) != number_less_than(row, b.y) {
                let crossing: Option<Single> = (self.cross)(a, b, row);
                assert(crossing == self.crossing(a, b, row));
                if let Some(place) = crossing {
                    places.push(place);
                }
            }
            current = current + 1;
        }
        places
    }

    /// What of a row lies in each of the first `count` polygons.
    pub open spec fn spans_of(self, polygons: Seq<Seq<Position>>, row: u32, count: int) -> Seq<Span>
        decreases count,
    {
        if count <= 0 {
            Seq::empty()
        } else {
            let earlier = self.spans_of(polygons, row, count - 1);
            let points = polygons[count - 1];
            if points.len() >= 3 {
                let places = ordered(self.crossings(points, row, points.len() as int));
                earlier + pairs(places, places.len() as int / 2)
            } else {
                earlier
            }
        }
    }

    /// The first `count` spans, with one that starts where the one before ends
    /// taken together with it.
    pub open spec fn merged(self, spans: Seq<Span>, count: int) -> Seq<Span>
        decreases count,
    {
        if count <= 0 {
            Seq::empty()
        } else {
            let earlier = self.merged(spans, count - 1);
            let span = spans[count - 1];
            if earlier.len() > 0 && crate::intervals::is_so(
                self.reaches,
                span.left,
                earlier.last().right,
            ) {
                earlier.drop_last().push(
                    Span {
                        left: earlier.last().left,
                        right: at_least(earlier.last().right, span.right),
                    },
                )
            } else {
                earlier.push(span)
            }
        }
    }

    /// What of a row is filled, between two limits.
    pub open spec fn row_spans(
        self,
        polygons: Seq<Seq<Position>>,
        row: u32,
        left: u32,
        right: u32,
    ) -> Seq<Span> {
        let spans = ordered(self.spans_of(polygons, row, polygons.len() as int));
        let all = self.merged(spans, spans.len() as int);
        clipped(all, left, right, all.len() as int)
    }

    /// What of a row is filled, between two limits.
    pub fn fill_row(&self, polygons: &Vec<Vec<Position>>, row: u32, left: u32, right: u32) -> (
    result: Vec<Span>)
        requires
            self.wf(),
        ensures
            result@ == self.row_spans(figures(polygons@), row, left, right),
    {
        let ghost all = figures(polygons@);
        let mut spans: Vec<Span> = Vec::new();
        let mut i: usize = 0;
        while i < polygons.len()
            invariant
                self.wf(),
                i <= polygons@.len(),
                all == figures(polygons@),
                spans@ == self.spans_of(all, row, i as int),
            decreases polygons@.len() - i,
        {
            assert(all[i as int] == polygons@[i as int]@);
            if polygons[i].len() >= 3 {
                let places: Vec<Single> = self.find_crossings(&polygons[i], row);
                let sorted: Vec<Single> = sorted_numbers(&places);
                let mut added: Vec<Span> = take_pairs(&sorted);
                spans.append(&mut added);
            }
            i = i + 1;
        }
        assert(all.len() == polygons@.len());
        let sorted: Vec<Span> = sorted_numbers(&spans);
        let mut result: Vec<Span> = Vec::new();
        let mut k: usize = 0;
        while k < sorted.len()
            invariant
                self.wf(),
                k <= sorted@.len(),
                result@ == self.merged(sorted@, k as int),
            decreases sorted@.len() - k,
        {
            let span: Span = sorted[k];
            let ghost earlier = result@;
            if result.len() > 0 && (self.reaches)(span.left, result[result.len() - 1].right) {
                let last: usize = result.len() - 1;
                let reached: Span = result[last];
                let end: u32 = if number_less_than(reached.right, span.right) {
                    span.right
                } else {
                    reached.right
                };
                result.set(last, Span { left: reached.left, right: end });
                assert(result@ =~= earlier.drop_last().push(
                    Span { left: earlier.last().left, right: end },
                ));
            } else {
                result.push(span);
            }
            k = k + 1;
        }
        clip_spans(&result, left, right)
    }

    /// What is filled of the rows from `first` to before `end`: each span with
    /// its row.
    pub open spec fn rows_filled(
        self,
        polygons: Seq<Seq<Position>>,
        first: int,
        end: int,
        left: u32,
        right: u32,
    ) -> Seq<(i32, Span)>
        decreases end - first,
    {
        if end <= first {
            Seq::empty()
        } else {
            let y = (end - 1) as i32;
            self.rows_filled(polygons, first, end - 1, left, right) + self.row_spans(
                polygons,
                self.middle(y),
                left,
                right,
            ).map_values(|span: Span| (y, span))
        }
    }

    /// What is filled of the rows from `min_y` to `max_y`: nothing where no
    /// polygon has three points.
    pub fn fill_rows(
        &self,
        polygons: &Vec<Vec<Position>>,
        min_y: i32,
        max_y: i32,
        left: u32,
        right: u32,
    ) -> (result: Vec<(i32, Span)>)
        requires
            self.wf(),
        ensures
            result@ == if exists|i: int|
                0 <= i < polygons@.len() && (#[trigger] polygons@[i])@.len() >= 3 {
                self.rows_filled(figures(polygons@), min_y as int, max_y + 1, left, right)
            } else {
                Seq::empty()
            },
    {
        let mut result: Vec<(i32, Span)> = Vec::new();
        let mut has_area: bool = false;
        let mut i: usize = 0;
        while i < polygons.len()
            invariant
                i <= polygons@.len(),
                has_area == exists|k: int|
                    0 <= k < i && (#[trigger] polygons@[k])@.len() >= 3,
            decreases polygons@.len() - i,
        {
            if polygons[i].len() >= 3 {
                assert(polygons@[i as int]@.len() >= 3);
                has_area = true;
            }
            i = i + 1;
        }
        if !has_area || min_y > max_y {
            return result;
        }
        let mut y: i32 = min_y;
        let mut more: bool = true;
        while more
            invariant
                self.wf(),
                min_y <= y <= max_y,
                result@ == if more {
                    self.rows_filled(figures(polygons@), min_y as int, y as int, left, right)
                } else {
                    self.rows_filled(figures(polygons@), min_y as int, max_y + 1, left, right)
                },
            decreases
                max_y - y + if more {
                    1int
                } else {
                    0
                },
        {
            let row: u32 = (self.center)(y);
            assert(row == self.middle(y));
            let spans: Vec<Span> = self.fill_row(polygons, row, left, right);
            let ghost earlier = result@;
            let mut k: usize = 0;
            let ghost rows = spans@.map_values(|span: Span| (y, span));
            assert(result@ =~= earlier + rows.take(0));
            while k < spans.len()
                invariant
                    k <= spans@.len(),
                    rows == spans@.map_values(|span: Span| (y, span)),
                    result@ == earlier + rows.take(k as int),
                decreases spans@.len() - k,
            {
                result.push((y, spans[k]));
                assert(rows.take(k + 1) =~= rows.take(k as int).push(rows[k as int]));
                assert(earlier + rows.take(k + 1) =~= (earlier + rows.take(k as int)).push(
                    rows[k as int],
                ));
                k = k + 1;
            }
            assert(rows.take(k as int) =~= rows);
            if y == max_y {
                more = false;
            } else {
                y = y + 1;
            }
        }
        result
    }
}

/// Every span that is filled has a width, and lies between the limits.
pub proof fn law_filled_spans_lie_within(spans: Seq<Span>, left: u32, right: u32, count: int)
    ensures
        forall|i: int|
            0 <= i < clipped(spans, left, right, count).len() ==> {
                let span = #[trigger] clipped(spans, left, right, count)[i];
                &&& less_than(span.left, span.right)
                &&& !less_than(span.left, left)
                &&& !less_than(right, span.right)
            },
    decreases count,
{
    if count > 0 {
        law_filled_spans_lie_within(spans, left, right, count - 1);
        let all = clipped(spans, left, right, count);
        let earlier = clipped(spans, left, right, count - 1);
        assert forall|i: int| 0 <= i < all.len() implies {
            let span = #[trigger] all[i];
            &&& less_than(span.left, span.right)
            &&& !less_than(span.left, left)
            &&& !less_than(right, span.right)
        } by {
            if i < earlier.len() {
                assert(all[i] == earlier[i]);
            }
        }
    }
}

/// Whether spans stand in order, and all their ends are numbers.
pub open spec fn are_spans_in_order(spans: Seq<Span>) -> bool {
    &&& forall|i: int|
        0 <= i < spans.len() ==> is_number((#[trigger] spans[i]).left) && is_number(spans[i].right)
    &&& forall|i: int, j: int|
        0 <= i < j < spans.len() ==> (#[trigger] spans[i]).place() <= (#[trigger] spans[j]).place()
}

proof fn lemma_pairs(places: Seq<Single>, count: int)
    requires
        0 <= count,
        2 * count <= places.len(),
    ensures
        pairs(places, count).len() == count,
        forall|i: int|
            0 <= i < count ==> (#[trigger] pairs(places, count)[i]).left == places[2 * i].bits
                && pairs(places, count)[i].right == places[2 * i + 1].bits,
    decreases count,
{
    if count > 0 {
        lemma_pairs(places, count - 1);
        let all = pairs(places, count);
        let earlier = pairs(places, count - 1);
        assert forall|i: int| 0 <= i < count implies (#[trigger] all[i]).left == places[2 * i].bits
            && all[i].right == places[2 * i + 1].bits by {
            if i < count - 1 {
                assert(all[i] == earlier[i]);
            }
        }
    }
}

/// Places are taken in pairs: the i-th span goes from the first to the second
/// place of the i-th pair, and only a last place without another one is left out.
pub proof fn law_places_are_paired(places: Seq<Single>)
    ensures
        pairs(places, places.len() as int / 2).len() == places.len() / 2,
        forall|i: int|
            0 <= i < places.len() / 2 ==> (#[trigger] pairs(places, places.len() as int / 2)[i]).left
                == places[2 * i].bits && pairs(places, places.len() as int / 2)[i].right == places[2
                * i + 1].bits,
{
    lemma_pairs(places, places.len() as int / 2);
}

proof fn lemma_clipped(spans: Seq<Span>, left: u32, right: u32, count: int)
    requires
        0 <= count <= spans.len(),
    ensures
        ({
            let all = clipped(spans, left, right, count);
            &&& forall|i: int|
                0 <= i < count && less_than(
                    at_least((#[trigger] spans[i]).left, left),
                    no_more_than(spans[i].right, right),
                ) ==> all.contains(
                    Span {
                        left: at_least(spans[i].left, left),
                        right: no_more_than(spans[i].right, right),
                    },
                )
            &&& forall|k: int|
                0 <= k < all.len() ==> exists|i: int|
                    0 <= i < count && (#[trigger] all[k]).left == at_least(
                        (#[trigger] spans[i]).left,
                        left,
                    ) && all[k].right == no_more_than(spans[i].right, right)
        }),
    decreases count,
{
    if count > 0 {
        lemma_clipped(spans, left, right, count - 1);
        let all = clipped(spans, left, right, count);
        let earlier = clipped(spans, left, right, count - 1);
        assert forall|i: int|
            0 <= i < count && less_than(
                at_least((#[trigger] spans[i]).left, left),
                no_more_than(spans[i].right, right),
            ) implies all.contains(
            Span {
                left: at_least(spans[i].left, left),
                right: no_more_than(spans[i].right, right),
            },
        ) by {
            let span = Span {
                left: at_least(spans[i].left, left),
                right: no_more_than(spans[i].right, right),
            };
            if i < count - 1 {
                assert(all[earlier.index_of(span)] == span);
            } else {
                assert(all[earlier.len() as int] == span);
            }
        }
        assert forall|k: int| 0 <= k < all.len() implies exists|i: int|
            0 <= i < count && (#[trigger] all[k]).left == at_least(
                (#[trigger] spans[i]).left,
                left,
            ) && all[k].right == no_more_than(spans[i].right, right) by {
            if k < earlier.len() {
                assert(all[k] == earlier[k]);
                let i = choose|i: int|
                    0 <= i < count - 1 && earlier[k].left == at_least(
                        (#[trigger] spans[i]).left,
                        left,
                    ) && earlier[k].right == no_more_than(spans[i].right, right);
                assert(all[k].left == at_least(spans[i].left, left));
            } else {
                assert(all[k].left == at_least(spans[count - 1].left, left));
            }
        }
    }
}

/// A span that reaches into the limits is filled as far as it does: a filled span
/// is a span cut off at the limits, and every span that has something between
/// them is filled.
pub proof fn law_spans_are_filled_as_far_as_the_limits(spans: Seq<Span>, left: u32, right: u32)
    ensures
        ({
            let all = clipped(spans, left, right, spans.len() as int);
            &&& forall|i: int|
                0 <= i < spans.len() && less_than(
                    at_least((#[trigger] spans[i]).left, left),
                    no_more_than(spans[i].right, right),
                ) ==> all.contains(
                    Span {
                        left: at_least(spans[i].left, left),
                        right: no_more_than(spans[i].right, right),
                    },
                )
            &&& forall|k: int|
                0 <= k < all.len() ==> exists|i: int|
                    0 <= i < spans.len() && (#[trigger] all[k]).left == at_least(
                        (#[trigger] spans[i]).left,
                        left,
                    ) && all[k].right == no_more_than(spans[i].right, right)
            &&& forall|place: u32|
                is_number(place) && is_number(left) ==> at_most(
                    left,
                    #[trigger] at_least(place, left),
                ) && at_most(place, at_least(place, left)) && (at_least(place, left) == place
                    || at_least(place, left) == left)
            &&& forall|place: u32|
                is_number(place) && is_number(right) ==> at_most(
                    #[trigger] no_more_than(place, right),
                    right,
                ) && at_most(no_more_than(place, right), place) && (no_more_than(place, right)
                    == place || no_more_than(place, right) == right)
        }),
{
    lemma_clipped(spans, left, right, spans.len() as int);
}

impl<
    X: Fn(Position, Position, u32) -> Option<Single>,
    R: Fn(u32, u32) -> bool,
    C: Fn(i32) -> u32,
> Scan<X, R, C> {
    proof fn lemma_crossing_is_found(self, points: Seq<Position>, row: u32, count: int, i: int)
        requires
            0 <= i < count <= points.len(),
            self.is_crossed(points, row, i),
            self.crossing(points[i], points[before(i, points.len() as int)], row) is Some,
        ensures
            self.crossings(points, row, count).contains(
                self.crossing(points[i], points[before(i, points.len() as int)], row)->0,
            ),
        decreases count,
    {
        let all = self.crossings(points, row, count);
        let earlier = self.crossings(points, row, count - 1);
        let place = self.crossing(points[i], points[before(i, points.len() as int)], row)->0;
        if i < count - 1 {
            self.lemma_crossing_is_found(points, row, count - 1, i);
            assert(all[earlier.index_of(place)] == place);
        } else {
            assert(all[earlier.len() as int] == place);
        }
    }

    proof fn lemma_crossing_is_of_a_side(
        self,
        points: Seq<Position>,
        row: u32,
        count: int,
        k: int,
    ) -> (i: int)
        requires
            0 <= count <= points.len(),
            0 <= k < self.crossings(points, row, count).len(),
        ensures
            0 <= i < count,
            self.is_crossed(points, row, i),
            self.crossing(points[i], points[before(i, points.len() as int)], row) == Some(
                self.crossings(points, row, count)[k],
            ),
        decreases count,
    {
        let earlier = self.crossings(points, row, count - 1);
        if k < earlier.len() {
            assert(self.crossings(points, row, count)[k] == earlier[k]);
            self.lemma_crossing_is_of_a_side(points, row, count - 1, k)
        } else {
            count - 1
        }
    }

    /// Whether a side of a polygon goes from above a row to below it, or back.
    pub open spec fn is_crossed(self, points: Seq<Position>, row: u32, i: int) -> bool {
        less_than(row, points[i].y) != less_than(row, points[before(i, points.len() as int)].y)
    }

    /// A row meets a polygon at every side that goes from above it to below it or
    /// back, the one from the last point to the first among them.
    pub proof fn law_rows_meet_every_side_across_them(
        self,
        points: Seq<Position>,
        row: u32,
        i: int,
        place: Single,
    )
        requires
            self.wf(),
            0 <= i < points.len(),
            ({
                let previous = if i == 0 {
                    points.last()
                } else {
                    points[i - 1]
                };
                &&& less_than(row, points[i].y) != less_than(row, previous.y)
                &&& call_ensures(self.cross, (points[i], previous, row), Some(place))
            }),
        ensures
            self.crossings(points, row, points.len() as int).contains(place),
    {
        assert(self.crossing(points[i], points[before(i, points.len() as int)], row) == Some(
            place,
        ));
        self.lemma_crossing_is_found(points, row, points.len() as int, i);
    }

    /// A row meets a polygon only at sides that go from above it to below it or
    /// back.
    pub proof fn law_rows_meet_no_other_side(self, points: Seq<Position>, row: u32, k: int)
        requires
            0 <= k < self.crossings(points, row, points.len() as int).len(),
        ensures
            exists|i: int|
                0 <= i < points.len() && self.is_crossed(points, row, i) && self.crossing(
                    #[trigger] points[i],
                    points[before(i, points.len() as int)],
                    row,
                ) == Some(self.crossings(points, row, points.len() as int)[k]),
    {
        let i = self.lemma_crossing_is_of_a_side(points, row, points.len() as int, k);
        assert(self.crossing(points[i], points[before(i, points.len() as int)], row) == Some(
            self.crossings(points, row, points.len() as int)[k],
        ));
    }

    proof fn lemma_spans_of(
        self,
        polygons: Seq<Seq<Position>>,
        row: u32,
        count: int,
        span: Span,
    )
        requires
            0 <= count <= polygons.len(),
        ensures
            self.spans_of(polygons, row, count).contains(span) <==> exists|i: int|
                0 <= i < count && self.has_span(#[trigger] polygons[i], row, span),
        decreases count,
    {
        if count > 0 {
            self.lemma_spans_of(polygons, row, count - 1, span);
            let all = self.spans_of(polygons, row, count);
            let earlier = self.spans_of(polygons, row, count - 1);
            let points = polygons[count - 1];
            let places = ordered(self.crossings(points, row, points.len() as int));
            let own = pairs(places, places.len() as int / 2);
            if all.contains(span) {
                let k = all.index_of(span);
                if k < earlier.len() {
                    assert(earlier[k] == span);
                    assert(earlier.contains(span));
                    let i = choose|i: int|
                        0 <= i < count - 1 && self.has_span(#[trigger] polygons[i], row, span);
                    assert(0 <= i < count && self.has_span(polygons[i], row, span));
                } else {
                    assert(own[k - earlier.len()] == span);
                    assert(own.contains(span));
                    assert(self.has_span(polygons[count - 1], row, span));
                }
            }
            if exists|i: int|
                0 <= i < count && self.has_span(#[trigger] polygons[i], row, span) {
                let i = choose|i: int|
                    0 <= i < count && self.has_span(#[trigger] polygons[i], row, span);
                if i < count - 1 {
                    assert(earlier.contains(span));
                    assert(all[earlier.index_of(span)] == span);
                } else {
                    assert(all[earlier.len() + own.index_of(span)] == span);
                }
            }
        }
    }

    /// Whether a span lies between two places, taken in pairs, at which a row
    /// meets a polygon with a surface.
    pub open spec fn has_span(self, points: Seq<Position>, row: u32, span: Span) -> bool {
        let places = ordered(self.crossings(points, row, points.len() as int));
        points.len() >= 3 && pairs(places, places.len() as int / 2).contains(span)
    }

    /// A row is filled in all polygons: its spans are those of each of them that
    /// has three points, and no others.
    pub proof fn law_rows_are_filled_in_every_polygon(
        self,
        polygons: Seq<Seq<Position>>,
        row: u32,
        span: Span,
    )
        ensures
            self.spans_of(polygons, row, polygons.len() as int).contains(span) <==> exists|i: int|
                0 <= i < polygons.len() && self.has_span(#[trigger] polygons[i], row, span),
    {
        self.lemma_spans_of(polygons, row, polygons.len() as int, span);
    }

    proof fn lemma_merged_numbers(self, spans: Seq<Span>, count: int, k: int) -> (found: (int, int))
        requires
            0 <= count <= spans.len(),
            0 <= k < self.merged(spans, count).len(),
        ensures
            0 <= found.0 < count,
            0 <= found.1 < count,
            self.merged(spans, count)[k].left == spans[found.0].left,
            self.merged(spans, count)[k].right == spans[found.1].right,
        decreases count,
    {
        let all = self.merged(spans, count);
        let earlier = self.merged(spans, count - 1);
        if k < earlier.len() {
            let (first, last) = self.lemma_merged_numbers(spans, count - 1, k);
            if all[k] == earlier[k] {
                (first, last)
            } else {
                assert(k == earlier.len() - 1);
                assert(all[k].left == earlier[k].left);
                if all[k].right == earlier[k].right {
                    (first, last)
                } else {
                    (first, count - 1)
                }
            }
        } else {
            (count - 1, count - 1)
        }
    }

    proof fn lemma_span_is_merged(self, spans: Seq<Span>, count: int, i: int) -> (k: int)
        requires
            0 <= i < count <= spans.len(),
            are_spans_in_order(spans),
        ensures
            0 <= k < self.merged(spans, count).len(),
            self.merged(spans, count)[k].place() <= spans[i].place(),
            at_most(spans[i].right, self.merged(spans, count)[k].right),
        decreases count,
    {
        let all = self.merged(spans, count);
        let earlier = self.merged(spans, count - 1);
        let last = count - 1;
        assert(is_number(spans[i].right) && is_number(spans[last].right));
        if i < last {
            let k = self.lemma_span_is_merged(spans, count - 1, i);
            assert(all[k].left == earlier[k].left);
            k
        } else {
            let k = all.len() - 1;
            if earlier.len() == all.len() {
                let (first, end) = self.lemma_merged_numbers(spans, count - 1, k);
                assert(earlier[k].left == spans[first].left);
                assert(earlier[k].right == spans[end].right);
                assert(is_number(spans[end].right));
                assert(spans[first].place() <= spans[last].place());
            }
            k
        }
    }

    proof fn lemma_merged_spans_are_apart(self, spans: Seq<Span>, count: int, k: int)
        requires
            0 <= count <= spans.len(),
            0 < k < self.merged(spans, count).len(),
        ensures
            !crate::intervals::is_so(
                self.reaches,
                self.merged(spans, count)[k].left,
                self.merged(spans, count)[k - 1].right,
            ),
        decreases count,
    {
        let all = self.merged(spans, count);
        let earlier = self.merged(spans, count - 1);
        if k < earlier.len() {
            self.lemma_merged_spans_are_apart(spans, count - 1, k);
            assert(all[k].left == earlier[k].left);
            assert(all[k - 1] == earlier[k - 1]);
        }
    }

    /// Spans that reach each other are filled as one, so that every span lies in
    /// one that is filled.
    pub proof fn law_every_span_is_filled(self, spans: Seq<Span>, i: int)
        requires
            are_spans_in_order(spans),
            0 <= i < spans.len(),
        ensures
            exists|k: int|
                0 <= k < self.merged(spans, spans.len() as int).len() && (
                #[trigger] self.merged(spans, spans.len() as int)[k]).place() <= spans[i].place()
                    && at_most(
                    spans[i].right,
                    self.merged(spans, spans.len() as int)[k].right,
                ),
    {
        let k = self.lemma_span_is_merged(spans, spans.len() as int, i);
        assert(self.merged(spans, spans.len() as int)[k].place() <= spans[i].place());
    }

    /// What is filled starts where a span starts, ends where one ends, and does
    /// not reach what is filled before it.
    pub proof fn law_filled_spans_are_apart(self, spans: Seq<Span>, k: int)
        requires
            0 <= k < self.merged(spans, spans.len() as int).len(),
        ensures
            exists|i: int|
                0 <= i < spans.len() && (#[trigger] spans[i]).left == self.merged(
                    spans,
                    spans.len() as int,
                )[k].left,
            exists|i: int|
                0 <= i < spans.len() && (#[trigger] spans[i]).right == self.merged(
                    spans,
                    spans.len() as int,
                )[k].right,
            k > 0 ==> !crate::intervals::is_so(
                self.reaches,
                self.merged(spans, spans.len() as int)[k].left,
                self.merged(spans, spans.len() as int)[k - 1].right,
            ),
    {
        let (first, last) = self.lemma_merged_numbers(spans, spans.len() as int, k);
        assert(spans[first].left == self.merged(spans, spans.len() as int)[k].left);
        assert(spans[last].right == self.merged(spans, spans.len() as int)[k].right);
        if k > 0 {
            self.lemma_merged_spans_are_apart(spans, spans.len() as int, k);
        }
    }

    /// Every row from the first up to the last is filled, each at its middle, and
    /// no other row is.
    pub proof fn law_every_row_is_filled(
        self,
        polygons: Seq<Seq<Position>>,
        first: int,
        end: int,
        left: u32,
        right: u32,
        y: i32,
        span: Span,
    )
        requires
            i32::MIN <= first <= end <= i32::MAX,
        ensures
            self.rows_filled(polygons, first, end, left, right).contains((y, span)) <==> first <= y
                < end && self.row_spans(polygons, self.middle(y), left, right).contains(span),
        decreases end - first,
    {
        let all = self.rows_filled(polygons, first, end, left, right);
        if first < end {
            self.law_every_row_is_filled(polygons, first, end - 1, left, right, y, span);
            let last = (end - 1) as i32;
            let earlier = self.rows_filled(polygons, first, end - 1, left, right);
            let row = self.row_spans(polygons, self.middle(last), left, right);
            let own = row.map_values(|span: Span| (last, span));
            assert(all == earlier + own);
            if all.contains((y, span)) {
                let k = all.index_of((y, span));
                if k < earlier.len() {
                    assert(earlier[k] == (y, span));
                    assert(earlier.contains((y, span)));
                } else {
                    assert(own[k - earlier.len()] == (y, span));
                    assert(row[k - earlier.len()] == span);
                    assert(row.contains(span));
                }
            }
            if first <= y < end && self.row_spans(
                polygons,
                self.middle(y),
                left,
                right,
            ).contains(span) {
                if y < end - 1 {
                    assert(all[earlier.index_of((y, span))] == (y, span));
                } else {
                    assert(own[row.index_of(span)] == (y, span));
                    assert(all[earlier.len() + row.index_of(span)] == (y, span));
                }
            }
        }
    }
}

} // verus!
