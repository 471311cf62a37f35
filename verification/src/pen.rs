//! Extending a draft, or an outline, to where the pointer is.

use crate::drafts::{
    draft_ending, draft_extension, input_spacing_px, interpolation_gap, max_interpolation_gap_px,
    point_append_decision, set_straight_draft_endpoint, DraftExtension, PointAppendDecision,
    MAX_BRUSH_INTERPOLATION_GAP_PX, MAX_FILL_INTERPOLATION_GAP_PX,
};
use crate::model::{point_views, CanvasPoint, EditKind, EditOperation, PointView};
use crate::plane::{is_finite, is_finite_pattern};
use crate::screen::{at_most, less_than, number_at_most, number_less_than, Position};
use vstd::prelude::*;

verus! {

/// The bit pattern of the least distance that counts as one.
pub const LEAST_DISTANCE: u32 = 0x3400_0000;

/// The bit pattern of the largest gap of an outline that is not bridged.
pub const MAX_LASSO_PREVIEW_GAP_PX: u32 = 0x4080_0000;

/// The largest number of steps in which a gap of an outline is bridged.
pub const MAX_LASSO_PREVIEW_INTERPOLATION_STEPS: usize = 128;

/// What extending a draft rests on that comes from floating-point arithmetic.
pub struct Pen<P, D, G, B, U> {
    /// Where a point is on the screen; none where that is not representable.
    pub project: P,
    /// How far two positions are apart.
    pub distance: D,
    /// In how many steps a distance is bridged by steps of a length.
    pub steps: G,
    /// The position so many steps, of so many, on the way between two others.
    pub between: B,
    /// The point at a position.
    pub place: U,
}

impl<
    P: Fn(&CanvasPoint) -> Option<Position>,
    D: Fn(Position, Position) -> u32,
    G: Fn(u32, u32) -> usize,
    B: Fn(Position, Position, usize, usize) -> Position,
    U: Fn(Position) -> CanvasPoint,
> Pen<P, D, G, B, U> {
    /// `answer` may be where `point` is on the screen.
    pub open spec fn projects(self, point: PointView, answer: Option<Position>) -> bool {
        exists|at: CanvasPoint|
            at@ == point && #[trigger] call_ensures(self.project, (&at,), answer)
    }

    /// `answer` may be the point at `position`.
    pub open spec fn places(self, position: Position, answer: PointView) -> bool {
        exists|point: CanvasPoint|
            point@ == answer && #[trigger] call_ensures(self.place, (position,), point)
    }

    /// Everything can be asked, and asking twice gives the same answer.
    pub open spec fn wf(self) -> bool {
        &&& forall|at: CanvasPoint| #[trigger] call_requires(self.project, (&at,))
        &&& forall|a: Position, b: Position| #[trigger] call_requires(self.distance, (a, b))
        &&& forall|distance: u32, length: u32| #[trigger]
            call_requires(self.steps, (distance, length))
        &&& forall|a: Position, b: Position, step: usize, count: usize| #[trigger]
            call_requires(self.between, (a, b, step, count))
        &&& forall|position: Position| #[trigger] call_requires(self.place, (position,))
        &&& forall|point: PointView, one: Option<Position>, other: Option<Position>| #[trigger]
            self.projects(point, one) && #[trigger] self.projects(point, other) ==> one == other
        &&& forall|a: Position, b: Position, one: u32, other: u32| #[trigger]
            call_ensures(self.distance, (a, b), one) && #[trigger] call_ensures(
                self.distance,
                (a, b),
                other,
            ) ==> one == other
        &&& forall|distance: u32, length: u32, one: usize, other: usize| #[trigger]
            call_ensures(self.steps, (distance, length), one) && #[trigger] call_ensures(
                self.steps,
                (distance, length),
                other,
            ) ==> one == other
        &&& forall|
            a: Position,
            b: Position,
            step: usize,
            count: usize,
            one: Position,
            other: Position,
        | #[trigger]
            call_ensures(self.between, (a, b, step, count), one) && #[trigger] call_ensures(
                self.between,
                (a, b, step, count),
                other,
            ) ==> one == other
        &&& forall|position: Position, one: PointView, other: PointView| #[trigger]
            self.places(position, one) && #[trigger] self.places(position, other) ==> one == other
    }

    /// Where a point is on the screen.
    pub open spec fn shown(self, point: PointView) -> Option<Position> {
        choose|answer: Option<Position>| self.projects(point, answer)
    }

    /// How far two positions are apart.
    pub open spec fn distance_between(self, a: Position, b: Position) -> u32 {
        choose|answer: u32| call_ensures(self.distance, (a, b), answer)
    }

    /// In how many steps a distance is bridged by steps of a length.
    pub open spec fn step_count(self, distance: u32, length: u32) -> usize {
        choose|answer: usize| call_ensures(self.steps, (distance, length), answer)
    }

    /// The position so many steps, of so many, on the way between two others.
    pub open spec fn on_the_way(
        self,
        a: Position,
        b: Position,
        step: usize,
        count: usize,
    ) -> Position {
        choose|answer: Position| call_ensures(self.between, (a, b, step, count), answer)
    }

    /// The point at a position.
    pub open spec fn point_at(self, position: Position) -> PointView {
        choose|answer: PointView| self.places(position, answer)
    }

    fn show(&self, point: &CanvasPoint) -> (answer: Option<Position>)
        requires
            self.wf(),
        ensures
            answer == self.shown(point@),
    {
        let answer: Option<Position> = (self.project)(point);
        assert(self.projects(point@, answer));
        answer
    }

    fn measure(&self, a: Position, b: Position) -> (answer: u32)
        requires
            self.wf(),
        ensures
            answer == self.distance_between(a, b),
    {
        (self.distance)(a, b)
    }

    fn take_place(&self, position: Position) -> (point: CanvasPoint)
        requires
            self.wf(),
        ensures
            point@ == self.point_at(position),
    {
        let point: CanvasPoint = (self.place)(position);
        assert(self.places(position, point@));
        point
    }

    /// How far the last point of a draft is from a position; none where there is
    /// no such point, or it is not representable on the screen.
    pub open spec fn gap(self, points: Seq<PointView>, position: Position) -> Option<u32> {
        if points.len() == 0 {
            None
        } else {
            match self.shown(points.last()) {
                None => None,
                Some(last) => Some(self.distance_between(last, position)),
            }
        }
    }

    fn measure_gap(&self, points: &Vec<CanvasPoint>, position: Position) -> (gap: Option<u32>)
        requires
            self.wf(),
        ensures
            gap == self.gap(point_views(points@), position),
    {
        assert(point_views(points@).len() == points@.len());
        if points.len() == 0 {
            return None;
        }
        assert(point_views(points@).last() == points@[points@.len() - 1]@);
        match self.show(&points[points.len() - 1]) {
            None => None,
            Some(last) => Some(self.measure(last, position)),
        }
    }

    /// The points on the way from one position to another, in steps.
    pub open spec fn stepped(self, from: Position, to: Position, count: usize) -> Seq<PointView> {
        Seq::new(
            count as nat,
            |i: int| self.point_at(self.on_the_way(from, to, (i + 1) as usize, count)),
        )
    }

    /// The points that lead a draft to a position: in steps where it is far.
    pub open spec fn leading_points(
        self,
        kind: EditKind,
        points: Seq<PointView>,
        position: Position,
    ) -> Seq<PointView> {
        match self.gap(points, position) {
            None => seq![self.point_at(position)],
            Some(gap) => if !is_finite(gap) || at_most(gap, interpolation_gap(kind)) {
                seq![self.point_at(position)]
            } else {
                self.stepped(
                    self.shown(points.last())->0,
                    position,
                    self.step_count(gap, interpolation_gap(kind)),
                )
            },
        }
    }

    /// A jump is bridged from where the draft ended to where the pointer is,
    /// whatever kind of draft it is: of the points that are added, the one at each
    /// step is the one so many steps on the way from the last point to the
    /// pointer. Where the last step arrives, the draft ends at the pointer.
    pub proof fn law_jumps_are_bridged_towards_the_pointer(
        self,
        kind: EditKind,
        points: Seq<PointView>,
        position: Position,
        from: Position,
        distance: u32,
        count: usize,
    )
        requires
            self.wf(),
            points.len() > 0,
            self.projects(points.last(), Some(from)),
            call_ensures(self.distance, (from, position), distance),
            is_finite(distance),
            less_than(
                if kind == EditKind::Fill {
                    MAX_FILL_INTERPOLATION_GAP_PX
                } else {
                    MAX_BRUSH_INTERPOLATION_GAP_PX
                },
                distance,
            ),
            call_ensures(
                self.steps,
                (
                    distance,
                    if kind == EditKind::Fill {
                        MAX_FILL_INTERPOLATION_GAP_PX
                    } else {
                        MAX_BRUSH_INTERPOLATION_GAP_PX
                    },
                ),
                count,
            ),
        ensures
            self.leading_points(kind, points, position).len() == count,
            forall|step: usize, on_the_way: Position, point: PointView|
                1 <= step <= count && #[trigger] call_ensures(
                    self.between,
                    (from, position, step, count),
                    on_the_way,
                ) && #[trigger] self.places(on_the_way, point) ==> self.leading_points(
                    kind,
                    points,
                    position,
                )[step - 1] == point,
            forall|point: PointView|
                count > 0 && call_ensures(
                    self.between,
                    (from, position, count, count),
                    position,
                ) && #[trigger] self.places(position, point) ==> self.leading_points(
                    kind,
                    points,
                    position,
                ).last() == point,
    {
        assert(self.shown(points.last()) == Some(from));
        assert(self.distance_between(from, position) == distance);
        assert(self.step_count(distance, interpolation_gap(kind)) == count);
        let led = self.leading_points(kind, points, position);
        assert(led == self.stepped(from, position, count));
        assert forall|step: usize, on_the_way: Position, point: PointView|
            1 <= step <= count && #[trigger] call_ensures(
                self.between,
                (from, position, step, count),
                on_the_way,
            ) && #[trigger] self.places(on_the_way, point) implies led[step - 1] == point by {
            assert(((step - 1) + 1) as usize == step);
            assert(self.on_the_way(from, position, step, count) == on_the_way);
            assert(self.point_at(on_the_way) == point);
        }
    }

    /// A draft without a last point on the screen, and one whose last point is
    /// near, goes on with one point where the pointer is.
    pub proof fn law_near_drafts_go_on_at_the_pointer(
        self,
        kind: EditKind,
        points: Seq<PointView>,
        position: Position,
        point: PointView,
    )
        requires
            self.wf(),
            self.places(position, point),
            points.len() == 0 || self.projects(points.last(), None) || exists|
                from: Position,
                distance: u32,
            |
                self.projects(points.last(), Some(from)) && #[trigger] call_ensures(
                    self.distance,
                    (from, position),
                    distance,
                ) && at_most(
                    distance,
                    if kind == EditKind::Fill {
                        MAX_FILL_INTERPOLATION_GAP_PX
                    } else {
                        MAX_BRUSH_INTERPOLATION_GAP_PX
                    },
                ),
        ensures
            self.leading_points(kind, points, position) == seq![point],
    {
        assert(self.point_at(position) == point);
        if points.len() > 0 {
            if self.projects(points.last(), None) {
                assert(self.shown(points.last()) is None);
            } else {
                let (from, distance) = choose|from: Position, distance: u32|
                    self.projects(points.last(), Some(from)) && #[trigger] call_ensures(
                        self.distance,
                        (from, position),
                        distance,
                    ) && at_most(distance, interpolation_gap(kind));
                assert(self.shown(points.last()) == Some(from));
                assert(self.distance_between(from, position) == distance);
            }
        }
    }

    /// Leads a draft to a position: in steps where it is far.
    pub fn append_interpolated_points(&self, draft: &mut EditOperation, position: Position)
        requires
            self.wf(),
        ensures
            point_views(final(draft).points@) == point_views(old(draft).points@)
                + self.leading_points(old(draft).kind, point_views(old(draft).points@), position),
            *final(draft) == (EditOperation { points: final(draft).points, ..*old(draft) }),
    {
        let ghost before = draft.points@;
        let gap: Option<u32> = self.measure_gap(&draft.points, position);
        let length: u32 = max_interpolation_gap_px(draft.kind);
        let direct: bool = match gap {
            None => true,
            Some(gap) => !is_finite_pattern(gap) || number_at_most(gap, length),
        };
        if direct {
            let point: CanvasPoint = self.take_place(position);
            draft.points.push(point);
            assert(point_views(draft.points@) =~= point_views(before) + seq![point@]);
            return;
        }
        assert(point_views(before).len() == before.len());
        assert(point_views(before).last() == before[before.len() - 1]@);
        if let (Some(gap), Some(from)) = (gap, self.show(&draft.points[draft.points.len() - 1])) {
            let count: usize = (self.steps)(gap, length);
            let ghost steps = self.stepped(from, position, count);
            let mut i: usize = 0;
            assert(point_views(before) + steps.take(0) =~= point_views(before));
            while i < count
                invariant
                    self.wf(),
                    i <= count,
                    steps == self.stepped(from, position, count),
                    point_views(draft.points@) == point_views(before) + steps.take(i as int),
                    *draft == (EditOperation { points: draft.points, ..*old(draft) }),
                decreases count - i,
            {
                let ghost earlier = draft.points@;
                let on_the_way: Position = (self.between)(from, position, i + 1, count);
                let point: CanvasPoint = self.take_place(on_the_way);
                draft.points.push(point);
                assert(steps.take(i + 1) =~= steps.take(i as int).push(steps[i as int]));
                assert(point_views(draft.points@) =~= point_views(earlier).push(point@));
                assert(point_views(before) + steps.take(i + 1) =~= (point_views(before)
                    + steps.take(i as int)).push(steps[i as int]));
                i = i + 1;
            }
            assert(steps.take(i as int) =~= steps);
        }
    }

    /// Whether a straight line from the first point of a draft to a position is
    /// long enough to be drawn.
    pub open spec fn is_long_enough(
        self,
        points: Seq<PointView>,
        position: Position,
        spacing: u32,
    ) -> bool {
        ||| points.len() == 0
        ||| self.shown(points[0]) is None
        ||| at_most(spacing, self.distance_between(self.shown(points[0])->0, position))
    }

    /// Whether a straight line from the first point of a draft to a position is
    /// long enough to be drawn.
    pub fn should_update_straight_endpoint(
        &self,
        draft: &EditOperation,
        position: Position,
        fill_spacing: u32,
        brush_spacing: u32,
    ) -> (result: bool)
        requires
            self.wf(),
        ensures
            result == self.is_long_enough(
                point_views(draft.points@),
                position,
                if draft.kind == EditKind::Fill {
                    fill_spacing
                } else {
                    brush_spacing
                },
            ),
    {
        assert(point_views(draft.points@).len() == draft.points@.len());
        if draft.points.len() == 0 {
            return true;
        }
        assert(point_views(draft.points@)[0] == draft.points@[0]@);
        match self.show(&draft.points[0]) {
            None => true,
            Some(start) => number_at_most(
                input_spacing_px(draft.kind, fill_spacing, brush_spacing),
                self.measure(start, position),
            ),
        }
    }

    /// The points of a draft that was extended to a position.
    pub open spec fn extended(
        self,
        kind: EditKind,
        points: Seq<PointView>,
        position: Position,
        shift_down: bool,
        fill_spacing: u32,
        brush_spacing: u32,
    ) -> Seq<PointView> {
        let spacing = if kind == EditKind::Fill {
            fill_spacing
        } else {
            brush_spacing
        };
        let gap = self.gap(points, position);
        if shift_down && (kind == EditKind::Paint || kind == EditKind::Erase) {
            if self.is_long_enough(points, position, spacing) {
                straightened(points, self.point_at(position))
            } else {
                points
            }
        } else if gap is Some && less_than(gap->0, spacing) {
            points
        } else if gap is Some && less_than(interpolation_gap(kind), gap->0) {
            if kind == EditKind::Paint || kind == EditKind::Erase || kind == EditKind::Fill {
                points + self.leading_points(kind, points, position)
            } else {
                points
            }
        } else {
            points.push(self.point_at(position))
        }
    }

    /// A draft that is drawn freely never loses a point: it stays as it is where
    /// the pointer moved less than the spacing of its kind, and else goes on with
    /// what leads it to the pointer.
    pub proof fn law_free_drafts_only_grow(
        self,
        kind: EditKind,
        points: Seq<PointView>,
        position: Position,
        shift_down: bool,
        fill_spacing: u32,
        brush_spacing: u32,
        from: Position,
        distance: u32,
        point: PointView,
    )
        requires
            self.wf(),
            kind == EditKind::Fill || kind == EditKind::Paint && !shift_down || kind
                == EditKind::Erase && !shift_down,
            points.len() > 0,
            self.projects(points.last(), Some(from)),
            call_ensures(self.distance, (from, position), distance),
            is_finite(distance),
            self.places(position, point),
        ensures
            ({
                let spacing = if kind == EditKind::Fill {
                    fill_spacing
                } else {
                    brush_spacing
                };
                let after = self.extended(
                    kind,
                    points,
                    position,
                    shift_down,
                    fill_spacing,
                    brush_spacing,
                );
                &&& points.is_prefix_of(after)
                &&& less_than(distance, spacing) ==> after == points
                &&& !less_than(distance, spacing) ==> after == points + self.leading_points(
                    kind,
                    points,
                    position,
                )
                &&& !less_than(distance, spacing) && at_most(
                    distance,
                    if kind == EditKind::Fill {
                        MAX_FILL_INTERPOLATION_GAP_PX
                    } else {
                        MAX_BRUSH_INTERPOLATION_GAP_PX
                    },
                ) ==> after == points.push(point)
            }),
    {
        assert(self.shown(points.last()) == Some(from));
        assert(self.distance_between(from, position) == distance);
        assert(self.point_at(position) == point);
        assert(points + seq![point] =~= points.push(point));
    }

    /// A stroke drawn with the shift key held is a straight line: it keeps its
    /// first point and ends at the pointer, once it is long enough, and until
    /// then it stays as it is.
    pub proof fn law_straight_strokes_keep_their_start(
        self,
        kind: EditKind,
        points: Seq<PointView>,
        position: Position,
        fill_spacing: u32,
        brush_spacing: u32,
        start: Position,
        length: u32,
        point: PointView,
    )
        requires
            self.wf(),
            kind == EditKind::Paint || kind == EditKind::Erase,
            points.len() > 0,
            self.projects(points[0], Some(start)),
            call_ensures(self.distance, (start, position), length),
            self.places(position, point),
        ensures
            ({
                let after = self.extended(
                    kind,
                    points,
                    position,
                    true,
                    fill_spacing,
                    brush_spacing,
                );
                let end = self.ended(kind, points, position, true);
                &&& at_most(brush_spacing, length) ==> after.len() == 2 && after[0] == points[0]
                    && after[1] == point
                &&& !at_most(brush_spacing, length) ==> after == points
                &&& end.len() == 2
                &&& end[0] == points[0]
                &&& end[1] == point
            }),
    {
        assert(self.shown(points[0]) == Some(start));
        assert(self.distance_between(start, position) == length);
        assert(self.point_at(position) == point);
    }

    /// A draft that has no points yet starts where the pointer is.
    pub proof fn law_drafts_start_at_the_pointer(
        self,
        kind: EditKind,
        position: Position,
        shift_down: bool,
        fill_spacing: u32,
        brush_spacing: u32,
        point: PointView,
    )
        requires
            self.wf(),
            self.places(position, point),
        ensures
            self.extended(kind, Seq::empty(), position, shift_down, fill_spacing, brush_spacing)
                == seq![point],
            self.ended(kind, Seq::empty(), position, shift_down) == seq![point],
    {
        assert(self.point_at(position) == point);
        assert(Seq::<PointView>::empty().push(point) =~= seq![point]);
        assert(Seq::<PointView>::empty() + seq![point] =~= seq![point]);
    }

    /// Extends a draft to a position.
    pub fn extend_draft_to(
        &self,
        draft: &mut EditOperation,
        position: Position,
        shift_down: bool,
        fill_spacing: u32,
        brush_spacing: u32,
    )
        requires
            self.wf(),
        ensures
            point_views(final(draft).points@) == self.extended(
                old(draft).kind,
                point_views(old(draft).points@),
                position,
                shift_down,
                fill_spacing,
                brush_spacing,
            ),
            *final(draft) == (EditOperation { points: final(draft).points, ..*old(draft) }),
    {
        let decision: PointAppendDecision = match self.measure_gap(&draft.points, position) {
            None => PointAppendDecision::Append,
            Some(gap) => point_append_decision(draft.kind, gap, fill_spacing, brush_spacing),
        };
        let long_enough: bool = self.should_update_straight_endpoint(
            draft,
            position,
            fill_spacing,
            brush_spacing,
        );
        let ghost before = draft.points@;
        match draft_extension(draft.kind, shift_down, long_enough, decision) {
            DraftExtension::SetEndpoint => {
                let point: CanvasPoint = self.take_place(position);
                set_straight_draft_endpoint(draft, point);
            },
            DraftExtension::Append => {
                let point: CanvasPoint = self.take_place(position);
                draft.points.push(point);
                assert(point_views(draft.points@) =~= point_views(before).push(point@));
            },
            DraftExtension::Interpolate => {
                self.append_interpolated_points(draft, position);
            },
            DraftExtension::Nothing => {},
        }
    }

    /// The points of a draft that ends at a position.
    pub open spec fn ended(
        self,
        kind: EditKind,
        points: Seq<PointView>,
        position: Position,
        shift_down: bool,
    ) -> Seq<PointView> {
        let gap = self.gap(points, position);
        if shift_down && (kind == EditKind::Paint || kind == EditKind::Erase) {
            straightened(points, self.point_at(position))
        } else if gap is None || less_than(LEAST_DISTANCE, gap->0) {
            points + self.leading_points(kind, points, position)
        } else {
            points
        }
    }

    /// A draft that is drawn freely keeps all its points when it ends, and ends
    /// where the pointer is: nothing is added where it is there already, and else
    /// what leads it to the pointer.
    pub proof fn law_free_drafts_end_at_the_pointer(
        self,
        kind: EditKind,
        points: Seq<PointView>,
        position: Position,
        shift_down: bool,
        from: Position,
        distance: u32,
        point: PointView,
    )
        requires
            self.wf(),
            !shift_down || kind != EditKind::Paint && kind != EditKind::Erase,
            points.len() > 0,
            self.projects(points.last(), Some(from)),
            call_ensures(self.distance, (from, position), distance),
            is_finite(distance),
            self.places(position, point),
        ensures
            points.is_prefix_of(self.ended(kind, points, position, shift_down)),
            at_most(distance, LEAST_DISTANCE) ==> self.ended(kind, points, position, shift_down)
                == points,
            less_than(LEAST_DISTANCE, distance) ==> self.ended(
                kind,
                points,
                position,
                shift_down,
            ) == points + self.leading_points(kind, points, position),
            less_than(LEAST_DISTANCE, distance) && at_most(
                distance,
                if kind == EditKind::Fill {
                    MAX_FILL_INTERPOLATION_GAP_PX
                } else {
                    MAX_BRUSH_INTERPOLATION_GAP_PX
                },
            ) ==> self.ended(kind, points, position, shift_down) == points.push(point),
    {
        assert(self.shown(points.last()) == Some(from));
        assert(self.distance_between(from, position) == distance);
        assert(self.point_at(position) == point);
        assert(points + seq![point] =~= points.push(point));
    }

    /// Ends a draft at a position.
    pub fn preserve_draft_endpoint(
        &self,
        draft: &mut EditOperation,
        position: Position,
        shift_down: bool,
    )
        requires
            self.wf(),
        ensures
            point_views(final(draft).points@) == self.ended(
                old(draft).kind,
                point_views(old(draft).points@),
                position,
                shift_down,
            ),
            *final(draft) == (EditOperation { points: final(draft).points, ..*old(draft) }),
    {
        let is_new: bool = match self.measure_gap(&draft.points, position) {
            None => true,
            Some(gap) => number_less_than(LEAST_DISTANCE, gap),
        };
        match draft_ending(draft.kind, shift_down, is_new) {
            DraftExtension::SetEndpoint => {
                let point: CanvasPoint = self.take_place(position);
                set_straight_draft_endpoint(draft, point);
            },
            DraftExtension::Interpolate => {
                self.append_interpolated_points(draft, position);
            },
            _ => {},
        }
    }

    /// The largest gap of an outline that is not bridged.
    pub open spec fn preview_gap(self, minimum_spacing: u32) -> u32 {
        if less_than(MAX_LASSO_PREVIEW_GAP_PX, minimum_spacing) {
            minimum_spacing
        } else {
            MAX_LASSO_PREVIEW_GAP_PX
        }
    }

    /// In how many steps a gap of an outline is bridged.
    pub open spec fn preview_steps(self, distance: u32, gap: u32) -> usize {
        let count = self.step_count(distance, gap);
        if count < 1 {
            1
        } else if count > MAX_LASSO_PREVIEW_INTERPOLATION_STEPS {
            MAX_LASSO_PREVIEW_INTERPOLATION_STEPS
        } else {
            count
        }
    }

    /// The positions that lead an outline on: none where they are too near, and
    /// in steps where it is far.
    pub open spec fn preview_points(
        self,
        points: Seq<Position>,
        point: Position,
        minimum_spacing: u32,
    ) -> Seq<Position> {
        if points.len() == 0 {
            seq![point]
        } else {
            let distance = self.distance_between(points.last(), point);
            let gap = self.preview_gap(minimum_spacing);
            if !is_finite(distance) || less_than(distance, minimum_spacing) {
                Seq::empty()
            } else if at_most(distance, gap) {
                seq![point]
            } else {
                let count = self.preview_steps(distance, gap);
                Seq::new(
                    count as nat,
                    |i: int| self.on_the_way(points.last(), point, (i + 1) as usize, count),
                )
            }
        }
    }

    /// Leads an outline on to a position.
    pub fn append_preview_point(
        &self,
        points: &mut Vec<Position>,
        point: Position,
        minimum_spacing: u32,
    )
        requires
            self.wf(),
        ensures
            final(points)@ == old(points)@ + self.preview_points(
                old(points)@,
                point,
                minimum_spacing,
            ),
    {
        let ghost before = points@;
        if points.len() == 0 {
            points.push(point);
            assert(points@ =~= before + seq![point]);
            return;
        }
        let previous: Position = points[points.len() - 1];
        let distance: u32 = self.measure(previous, point);
        if !is_finite_pattern(distance) || number_less_than(distance, minimum_spacing) {
            assert(points@ =~= before + Seq::<Position>::empty());
            return;
        }
        let gap: u32 = if number_less_than(MAX_LASSO_PREVIEW_GAP_PX, minimum_spacing) {
            minimum_spacing
        } else {
            MAX_LASSO_PREVIEW_GAP_PX
        };
        if number_at_most(distance, gap) {
            points.push(point);
            assert(points@ =~= before + seq![point]);
            return;
        }
        let found: usize = (self.steps)(distance, gap);
        let count: usize = if found < 1 {
            1
        } else if found > MAX_LASSO_PREVIEW_INTERPOLATION_STEPS {
            MAX_LASSO_PREVIEW_INTERPOLATION_STEPS
        } else {
            found
        };
        let ghost steps = self.preview_points(before, point, minimum_spacing);
        assert(count == self.preview_steps(distance, gap));
        let mut i: usize = 0;
        assert(before + steps.take(0) =~= before);
        while i < count
            invariant
                self.wf(),
                i <= count,
                steps.len() == count,
                forall|k: int|
                    0 <= k < count ==> #[trigger] steps[k] == self.on_the_way(
                        previous,
                        point,
                        (k + 1) as usize,
                        count,
                    ),
                points@ == before + steps.take(i as int),
            decreases count - i,
        {
            let on_the_way: Position = (self.between)(previous, point, i + 1, count);
            assert(on_the_way == steps[i as int]);
            points.push(on_the_way);
            assert(before + steps.take(i + 1) =~= (before + steps.take(i as int)).push(
                steps[i as int],
            ));
            i = i + 1;
        }
        assert(steps.take(i as int) =~= steps);
    }

    /// An outline goes on towards the pointer: not at all for less than the least
    /// spacing, straight to it for a small gap, and else in steps, the position
    /// at each of which is the one so many steps on the way from its last position
    /// to the pointer. Where the last step arrives, the outline ends there.
    pub proof fn law_outlines_go_on_towards_the_pointer(
        self,
        points: Seq<Position>,
        point: Position,
        minimum_spacing: u32,
        distance: u32,
    )
        requires
            self.wf(),
            points.len() > 0,
            call_ensures(self.distance, (points.last(), point), distance),
            is_finite(distance),
        ensures
            ({
                let added = self.preview_points(points, point, minimum_spacing);
                let count = added.len() as usize;
                &&& less_than(distance, minimum_spacing) <==> added.len() == 0
                &&& !less_than(distance, minimum_spacing) && (at_most(
                    distance,
                    MAX_LASSO_PREVIEW_GAP_PX,
                ) || at_most(distance, minimum_spacing)) ==> added == seq![point]
                &&& !less_than(distance, minimum_spacing) && less_than(
                    MAX_LASSO_PREVIEW_GAP_PX,
                    distance,
                ) && !at_most(distance, minimum_spacing) ==> {
                    &&& forall|step: usize, on_the_way: Position|
                        1 <= step <= count && #[trigger] call_ensures(
                            self.between,
                            (points.last(), point, step, count),
                            on_the_way,
                        ) ==> added[step - 1] == on_the_way
                    &&& call_ensures(self.between, (points.last(), point, count, count), point)
                        ==> added.last() == point
                    &&& forall|gap: u32, steps: usize|
                        (gap == if less_than(MAX_LASSO_PREVIEW_GAP_PX, minimum_spacing) {
                            minimum_spacing
                        } else {
                            MAX_LASSO_PREVIEW_GAP_PX
                        }) && #[trigger] call_ensures(self.steps, (distance, gap), steps) ==> {
                            &&& 1 <= steps <= MAX_LASSO_PREVIEW_INTERPOLATION_STEPS ==> count
                                == steps
                            &&& steps > MAX_LASSO_PREVIEW_INTERPOLATION_STEPS ==> count
                                == MAX_LASSO_PREVIEW_INTERPOLATION_STEPS
                            &&& steps == 0 ==> count == 1
                        }
                }
            }),
            self.preview_points(Seq::empty(), point, minimum_spacing) == seq![point],
    {
        assert(self.distance_between(points.last(), point) == distance);
        let added = self.preview_points(points, point, minimum_spacing);
        let count = added.len() as usize;
        if !less_than(distance, minimum_spacing) && !at_most(
            distance,
            self.preview_gap(minimum_spacing),
        ) {
            assert(added.len() == self.preview_steps(distance, self.preview_gap(minimum_spacing)));
            assert forall|step: usize, on_the_way: Position|
                1 <= step <= count && #[trigger] call_ensures(
                    self.between,
                    (points.last(), point, step, count),
                    on_the_way,
                ) implies added[step - 1] == on_the_way by {
                assert(((step - 1) + 1) as usize == step);
                assert(self.on_the_way(points.last(), point, step, count) == on_the_way);
            }
        }
    }

    /// An outline grows by at most as many positions as there are steps, and
    /// what it held stays.
    pub proof fn law_outlines_grow_by_few_steps(
        self,
        points: Seq<Position>,
        point: Position,
        minimum_spacing: u32,
    )
        ensures
            self.preview_points(points, point, minimum_spacing).len()
                <= MAX_LASSO_PREVIEW_INTERPOLATION_STEPS,
    {
    }
}

/// The points of a draft that is a straight line to an endpoint.
pub open spec fn straightened(points: Seq<PointView>, endpoint: PointView) -> Seq<PointView> {
    if points.len() == 0 {
        seq![endpoint]
    } else {
        seq![points[0], endpoint]
    }
}

} // verus!
