//! The points with which operations are highlighted, and how far these reach.

use crate::fallback::{
    area_saved_fallback_render_points, may_smooth, smooth_saved_fallback, thinned,
};
use crate::model::EditOperation;
use crate::regions::{reach_from_nowhere, NEGATIVE_INFINITY, POSITIVE_INFINITY};
use crate::screen::{
    at_most, greatest_position, is_number, least_position, max_position, min_position, Position,
    ScreenRect,
};
use std::collections::HashSet;
use vstd::prelude::*;

verus! {

broadcast use vstd::std_specs::hash::group_hash_axioms;

/// `result` may be the points with which an operation is highlighted: a block is
/// shown as it is, an area by no more than so many points and smoothed only
/// where it is drawn smoothed, and a stroke smoothed.
pub open spec fn may_highlight<
    L: Fn(&Vec<Position>, usize) -> Vec<Position>,
    A: Fn(&Vec<Position>, usize) -> Vec<Position>,
>(
    operation: EditOperation,
    points: Seq<Position>,
    smoothing_passes: usize,
    max_points: int,
    smooth_line: L,
    smooth_area: A,
    result: Seq<Position>,
) -> bool {
    if operation.is_block() {
        result == points
    } else if operation.kind.area() {
        may_smooth(
            thinned(points, max_points),
            if operation.smooth_area {
                smoothing_passes
            } else {
                0
            },
            smooth_area,
            result,
        )
    } else {
        may_smooth(points, smoothing_passes, smooth_line, result)
    }
}

/// The points with which an operation is highlighted.
pub fn selection_highlight_render_points<
    L: Fn(&Vec<Position>, usize) -> Vec<Position>,
    A: Fn(&Vec<Position>, usize) -> Vec<Position>,
>(
    operation: &EditOperation,
    points: Vec<Position>,
    smoothing_passes: usize,
    fill_fallback_max_points: usize,
    smooth_line: &L,
    smooth_area: &A,
) -> (result: Vec<Position>)
    requires
        operation.kind.area() ==> points@.len() * fill_fallback_max_points <= usize::MAX,
        forall|path: Vec<Position>, level: usize| #[trigger]
            call_requires(*smooth_line, (&path, level)),
        forall|path: Vec<Position>, level: usize| #[trigger]
            call_requires(*smooth_area, (&path, level)),
    ensures
        may_highlight(
            *operation,
            points@,
            smoothing_passes,
            fill_fallback_max_points as int,
            *smooth_line,
            *smooth_area,
            result@,
        ),
{
    if operation.is_compact_block() {
        return points;
    }
    if operation.kind.is_area() {
        let level: usize = if operation.smooth_area {
            smoothing_passes
        } else {
            0
        };
        area_saved_fallback_render_points(&points, fill_fallback_max_points, level, smooth_area)
    } else {
        smooth_saved_fallback(points, smoothing_passes, smooth_line)
    }
}

/// Whether both coordinates are numbers.
pub open spec fn is_number_pair(position: Position) -> bool {
    is_number(position.x) && is_number(position.y)
}

/// Whether no coordinate of the left position is beyond that of the right one.
pub open spec fn before(left: Position, right: Position) -> bool {
    at_most(left.x, right.x) && at_most(left.y, right.y)
}

/// Where operations are highlighted, as far as arithmetic tells.
pub struct Highlights<R, L, H> {
    /// The points with which an operation is highlighted.
    pub points: R,
    /// A point of an operation, less half of its width.
    pub low: L,
    /// A point of an operation, with half of its width more.
    pub high: H,
}

impl<
    R: Fn(&EditOperation) -> Vec<Position>,
    L: Fn(&EditOperation, Position) -> Position,
    H: Fn(&EditOperation, Position) -> Position,
> Highlights<R, L, H> {
    /// `answer` may be the points of an operation.
    pub open spec fn shows(self, operation: EditOperation, answer: Seq<Position>) -> bool {
        exists|points: Vec<Position>|
            points@ == answer && #[trigger] call_ensures(self.points, (&operation,), points)
    }

    /// Everything can be asked, and the same question has one answer.
    pub open spec fn wf(self) -> bool {
        &&& forall|operation: EditOperation| #[trigger] call_requires(self.points, (&operation,))
        &&& forall|operation: EditOperation, point: Position| #[trigger]
            call_requires(self.low, (&operation, point))
        &&& forall|operation: EditOperation, point: Position| #[trigger]
            call_requires(self.high, (&operation, point))
        &&& forall|operation: EditOperation, one: Seq<Position>, other: Seq<Position>| #[trigger]
            self.shows(operation, one) && #[trigger] self.shows(operation, other) ==> one == other
        &&& forall|operation: EditOperation, point: Position, one: Position, other: Position|
            #[trigger] call_ensures(self.low, (&operation, point), one)
                && #[trigger] call_ensures(self.low, (&operation, point), other) ==> one == other
        &&& forall|operation: EditOperation, point: Position, one: Position, other: Position|
            #[trigger] call_ensures(self.high, (&operation, point), one)
                && #[trigger] call_ensures(self.high, (&operation, point), other) ==> one == other
    }

    /// The points of an operation.
    pub open spec fn shown(self, operation: EditOperation) -> Seq<Position> {
        choose|answer: Seq<Position>| self.shows(operation, answer)
    }

    /// A point of an operation, less half of its width.
    pub open spec fn least(self, operation: EditOperation, point: Position) -> Position {
        choose|answer: Position| call_ensures(self.low, (&operation, point), answer)
    }

    /// A point of an operation, with half of its width more.
    pub open spec fn most(self, operation: EditOperation, point: Position) -> Position {
        choose|answer: Position| call_ensures(self.high, (&operation, point), answer)
    }

    /// How far a rectangle and the first `count` points of an operation reach.
    pub open spec fn stretched(
        self,
        rect: ScreenRect,
        operation: EditOperation,
        points: Seq<Position>,
        count: int,
    ) -> ScreenRect
        decreases count,
    {
        if count <= 0 {
            rect
        } else {
            let before = self.stretched(rect, operation, points, count - 1);
            ScreenRect {
                min: least_position(before.min, self.least(operation, points[count - 1])),
                max: greatest_position(before.max, self.most(operation, points[count - 1])),
            }
        }
    }

    /// How far the selected ones among the first `count` operations reach,
    /// starting from nowhere.
    pub open spec fn reach(
        self,
        operations: Seq<EditOperation>,
        selected: Set<u128>,
        count: int,
    ) -> ScreenRect
        decreases count,
    {
        if count <= 0 {
            reach_from_nowhere(Seq::empty(), 0)
        } else {
            let before = self.reach(operations, selected, count - 1);
            let operation = operations[count - 1];
            if selected.contains(operation.id) {
                self.stretched(
                    before,
                    operation,
                    self.shown(operation),
                    self.shown(operation).len() as int,
                )
            } else {
                before
            }
        }
    }

    /// Whether a selected one among the first `count` operations has a point.
    pub open spec fn has_point(
        self,
        operations: Seq<EditOperation>,
        selected: Set<u128>,
        count: int,
    ) -> bool {
        exists|i: int|
            0 <= i < count && selected.contains((#[trigger] operations[i]).id) && self.shown(
                operations[i],
            ).len() > 0
    }

    /// Whether the points of an operation are numbers, with its width around them.
    pub open spec fn is_measured(self, operation: EditOperation) -> bool {
        forall|k: int|
            0 <= k < self.shown(operation).len() ==> {
                let point = #[trigger] self.shown(operation)[k];
                &&& is_number_pair(self.least(operation, point))
                &&& is_number_pair(self.most(operation, point))
            }
    }

    /// Whether the rectangle reaches around a point of an operation.
    pub open spec fn holds(
        self,
        rect: ScreenRect,
        operation: EditOperation,
        point: Position,
    ) -> bool {
        &&& before(rect.min, self.least(operation, point))
        &&& before(self.most(operation, point), rect.max)
    }

    proof fn lemma_stretched_holds(
        self,
        rect: ScreenRect,
        operation: EditOperation,
        points: Seq<Position>,
        count: int,
    )
        requires
            0 <= count <= points.len(),
            is_number_pair(rect.min),
            is_number_pair(rect.max),
            forall|k: int|
                0 <= k < points.len() ==> is_number_pair(
                    self.least(operation, #[trigger] points[k]),
                ) && is_number_pair(self.most(operation, points[k])),
        ensures
            before(self.stretched(rect, operation, points, count).min, rect.min),
            before(rect.max, self.stretched(rect, operation, points, count).max),
            forall|k: int|
                0 <= k < count ==> self.holds(
                    self.stretched(rect, operation, points, count),
                    operation,
                    #[trigger] points[k],
                ),
        decreases count,
    {
        if count > 0 {
            self.lemma_stretched_holds(rect, operation, points, count - 1);
            assert(is_number_pair(self.least(operation, points[count - 1])));
            assert(is_number_pair(self.most(operation, points[count - 1])));
        }
    }

    proof fn lemma_reach_holds(
        self,
        operations: Seq<EditOperation>,
        selected: Set<u128>,
        count: int,
    )
        requires
            0 <= count <= operations.len(),
            forall|i: int|
                0 <= i < operations.len() && selected.contains((#[trigger] operations[i]).id)
                    ==> self.is_measured(operations[i]),
        ensures
            is_number_pair(self.reach(operations, selected, count).min),
            is_number_pair(self.reach(operations, selected, count).max),
            forall|i: int, k: int|
                0 <= i < count && selected.contains(operations[i].id) && 0 <= k < self.shown(
                    operations[i],
                ).len() ==> self.holds(
                    self.reach(operations, selected, count),
                    operations[i],
                    #[trigger] self.shown(operations[i])[k],
                ),
        decreases count,
    {
        if count > 0 {
            self.lemma_reach_holds(operations, selected, count - 1);
            let operation = operations[count - 1];
            if selected.contains(operation.id) {
                assert(self.is_measured(operation));
                self.lemma_stretched_holds(
                    self.reach(operations, selected, count - 1),
                    operation,
                    self.shown(operation),
                    self.shown(operation).len() as int,
                );
            }
        }
    }

    /// The rectangle around a selection reaches around every highlighted point of
    /// it, with the width of its operation.
    pub proof fn law_the_selection_lies_in_its_bounds(
        self,
        operations: Seq<EditOperation>,
        selected: Set<u128>,
        i: int,
        k: int,
    )
        requires
            self.wf(),
            forall|j: int|
                0 <= j < operations.len() && selected.contains((#[trigger] operations[j]).id)
                    ==> self.is_measured(operations[j]),
            0 <= i < operations.len(),
            selected.contains(operations[i].id),
            0 <= k < self.shown(operations[i]).len(),
        ensures
            self.has_point(operations, selected, operations.len() as int),
            self.holds(
                self.reach(operations, selected, operations.len() as int),
                operations[i],
                self.shown(operations[i])[k],
            ),
    {
        self.lemma_reach_holds(operations, selected, operations.len() as int);
        assert(selected.contains(operations[i].id));
    }

    /// A highlighted point of a selected operation.
    pub open spec fn is_marked(
        self,
        operations: Seq<EditOperation>,
        selected: Set<u128>,
        i: int,
        k: int,
    ) -> bool {
        &&& 0 <= i < operations.len()
        &&& selected.contains(operations[i].id)
        &&& 0 <= k < self.shown(operations[i]).len()
    }

    proof fn lemma_stretched_to_points(
        self,
        rect: ScreenRect,
        operation: EditOperation,
        points: Seq<Position>,
        count: int,
    )
        requires
            0 <= count <= points.len(),
        ensures
            ({
                let reached = self.stretched(rect, operation, points, count);
                &&& reached.min.x == rect.min.x || exists|k: int|
                    0 <= k < count && reached.min.x == self.least(operation, #[trigger] points[k]).x
                &&& reached.min.y == rect.min.y || exists|k: int|
                    0 <= k < count && reached.min.y == self.least(operation, #[trigger] points[k]).y
                &&& reached.max.x == rect.max.x || exists|k: int|
                    0 <= k < count && reached.max.x == self.most(operation, #[trigger] points[k]).x
                &&& reached.max.y == rect.max.y || exists|k: int|
                    0 <= k < count && reached.max.y == self.most(operation, #[trigger] points[k]).y
            }),
        decreases count,
    {
        if count > 0 {
            self.lemma_stretched_to_points(rect, operation, points, count - 1);
            let point = points[count - 1];
            let reached = self.stretched(rect, operation, points, count);
            let earlier = self.stretched(rect, operation, points, count - 1);
            assert(reached.min.x == earlier.min.x || reached.min.x == self.least(
                operation,
                point,
            ).x);
            assert(reached.min.y == earlier.min.y || reached.min.y == self.least(
                operation,
                point,
            ).y);
            assert(reached.max.x == earlier.max.x || reached.max.x == self.most(
                operation,
                point,
            ).x);
            assert(reached.max.y == earlier.max.y || reached.max.y == self.most(
                operation,
                point,
            ).y);
        }
    }

    /// The rectangle around a selection reaches no further than the points of it:
    /// each side, unless it is still where it began, is that of one of them.
    pub proof fn law_the_bounds_touch_the_selection(
        self,
        operations: Seq<EditOperation>,
        selected: Set<u128>,
        count: int,
    )
        requires
            0 <= count <= operations.len(),
        ensures
            ({
                let rect = self.reach(operations, selected, count);
                &&& rect.min.x == POSITIVE_INFINITY || exists|i: int, k: int| #[trigger]
                    self.is_marked(operations, selected, i, k) && rect.min.x == self.least(
                        operations[i],
                        self.shown(operations[i])[k],
                    ).x
                &&& rect.min.y == POSITIVE_INFINITY || exists|i: int, k: int| #[trigger]
                    self.is_marked(operations, selected, i, k) && rect.min.y == self.least(
                        operations[i],
                        self.shown(operations[i])[k],
                    ).y
                &&& rect.max.x == NEGATIVE_INFINITY || exists|i: int, k: int| #[trigger]
                    self.is_marked(operations, selected, i, k) && rect.max.x == self.most(
                        operations[i],
                        self.shown(operations[i])[k],
                    ).x
                &&& rect.max.y == NEGATIVE_INFINITY || exists|i: int, k: int| #[trigger]
                    self.is_marked(operations, selected, i, k) && rect.max.y == self.most(
                        operations[i],
                        self.shown(operations[i])[k],
                    ).y
            }),
        decreases count,
    {
        if count > 0 {
            self.law_the_bounds_touch_the_selection(operations, selected, count - 1);
            let operation = operations[count - 1];
            if selected.contains(operation.id) {
                let points = self.shown(operation);
                self.lemma_stretched_to_points(
                    self.reach(operations, selected, count - 1),
                    operation,
                    points,
                    points.len() as int,
                );
                let last = count - 1;
                assert forall|k: int| 0 <= k < points.len() implies self.is_marked(
                    operations,
                    selected,
                    last,
                    k,
                ) && #[trigger] points[k] == self.shown(operations[last])[k] by {
                }
            }
        }
    }

    /// The rectangle around the selected operations; none where they have no
    /// point on the screen.
    pub fn selection_screen_bounds(
        &self,
        operations: &Vec<EditOperation>,
        selected: &HashSet<u128>,
    ) -> (bounds: Option<ScreenRect>)
        requires
            self.wf(),
        ensures
            bounds == if self.has_point(operations@, selected@, operations@.len() as int) {
                Some(self.reach(operations@, selected@, operations@.len() as int))
            } else {
                None
            },
    {
        let mut bounds = ScreenRect {
            min: Position { x: POSITIVE_INFINITY, y: POSITIVE_INFINITY },
            max: Position { x: NEGATIVE_INFINITY, y: NEGATIVE_INFINITY },
        };
        let mut found: bool = false;
        let mut i: usize = 0;
        while i < operations.len()
            invariant
                self.wf(),
                i <= operations@.len(),
                bounds == self.reach(operations@, selected@, i as int),
                found == self.has_point(operations@, selected@, i as int),
            decreases operations@.len() - i,
        {
            let operation: &EditOperation = &operations[i];
            let ghost before = bounds;
            if selected.contains(&operation.id) {
                let points: Vec<Position> = (self.points)(operation);
                assert(self.shows(*operation, points@));
                let mut k: usize = 0;
                while k < points.len()
                    invariant
                        self.wf(),
                        k <= points@.len(),
                        bounds == self.stretched(before, *operation, points@, k as int),
                    decreases points@.len() - k,
                {
                    let low: Position = (self.low)(operation, points[k]);
                    let high: Position = (self.high)(operation, points[k]);
                    assert(call_ensures(self.low, (operation, points@[k as int]), low));
                    assert(call_ensures(self.high, (operation, points@[k as int]), high));
                    bounds = ScreenRect {
                        min: min_position(bounds.min, low),
                        max: max_position(bounds.max, high),
                    };
                    k = k + 1;
                }
                if points.len() > 0 {
                    found = true;
                }
            }
            proof {
                let now = self.has_point(operations@, selected@, i + 1);
                if self.has_point(operations@, selected@, i as int) {
                    let j = choose|j: int|
                        0 <= j < i && selected@.contains((#[trigger] operations@[j]).id)
                            && self.shown(operations@[j]).len() > 0;
                    assert(selected@.contains(operations@[j].id));
                    assert(now);
                } else if selected@.contains(operations@[i as int].id) && self.shown(
                    operations@[i as int],
                ).len() > 0 {
                    assert(now);
                } else {
                    assert(!now);
                }
            }
            i = i + 1;
        }
        if found {
            Some(bounds)
        } else {
            None
        }
    }
}

} // verus!
