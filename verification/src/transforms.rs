//! Changes of size and direction of a selection, while its handles are dragged.

use crate::amounts::{clamp_number, clamped};
use crate::gestures::{SelectionRotateGesture, SelectionScaleGesture, SelectionScaleHandle};
use crate::intervals::{answers, is_so};
use crate::plane::{is_finite, is_finite_pattern};
use crate::regions::{are_moved, reach_from_nowhere, transformed_rect_bounds};
use crate::screen::{at_most, number_at_most, Position, ScreenRect};
use vstd::prelude::*;

verus! {

/// The bit pattern of the least change of size.
pub const MIN_SELECTION_SCALE: u32 = 0x3d4c_cccd;

/// The bit pattern of the greatest change of size.
pub const MAX_SELECTION_SCALE: u32 = 0x4280_0000;

/// The bit pattern of no change of size.
pub const SAME_SIZE: u32 = 0x3f80_0000;

/// The bit pattern of no rotation.
pub const SAME_DIRECTION: u32 = 0;

/// The bit pattern of the distance up to which two positions are one.
pub const NO_DISTANCE: u32 = 0x3400_0000;

/// Whether a number can be divided by.
pub open spec fn is_divisor(bits: u32) -> bool {
    is_finite(bits) && !at_most(bits, NO_DISTANCE)
}

fn can_divide(bits: u32) -> (result: bool)
    ensures
        result == is_divisor(bits),
{
    is_finite_pattern(bits) && !number_at_most(bits, NO_DISTANCE)
}

/// The handles, in the order in which they are tried.
pub open spec fn handles() -> Seq<SelectionScaleHandle> {
    seq![
        SelectionScaleHandle::TopLeft,
        SelectionScaleHandle::TopRight,
        SelectionScaleHandle::BottomLeft,
        SelectionScaleHandle::BottomRight,
    ]
}

/// The handle of a selection at a position: the first one that is near enough.
pub fn selection_scale_handle_at<N: Fn(Position, Position) -> bool>(
    bounds: &ScreenRect,
    position: Position,
    near: &N,
) -> (handle: Option<SelectionScaleHandle>)
    requires
        answers::<Position, N>(*near),
    ensures
        match handle {
            Some(handle) => exists|i: int|
                {
                    &&& 0 <= i < 4
                    &&& handle == #[trigger] handles()[i]
                    &&& is_so(*near, handle.corner(*bounds), position)
                    &&& forall|k: int|
                        0 <= k < i ==> !is_so(
                            *near,
                            (#[trigger] handles()[k]).corner(*bounds),
                            position,
                        )
                },
            None => forall|k: int|
                0 <= k < 4 ==> !is_so(*near, (#[trigger] handles()[k]).corner(*bounds), position),
        },
{
    let order: [SelectionScaleHandle; 4] = [
        SelectionScaleHandle::TopLeft,
        SelectionScaleHandle::TopRight,
        SelectionScaleHandle::BottomLeft,
        SelectionScaleHandle::BottomRight,
    ];
    assert(order@ =~= handles());
    let mut i: usize = 0;
    while i < 4
        invariant
            answers::<Position, N>(*near),
            i <= 4,
            order@ == handles(),
            forall|k: int|
                0 <= k < i ==> !is_so(*near, (#[trigger] handles()[k]).corner(*bounds), position),
        decreases 4 - i,
    {
        let corner: Position = order[i].position(bounds);
        let answer: bool = (*near)(corner, position);
        assert(call_ensures(*near, (handles()[i as int].corner(*bounds), position), answer));
        if answer {
            return Some(order[i]);
        }
        i = i + 1;
    }
    None
}

/// Whether the handle for rotations of a selection is at a position.
pub fn selection_rotate_handle_at<
    H: Fn(ScreenRect) -> Position,
    N: Fn(Position, Position) -> bool,
>(bounds: &ScreenRect, position: Position, handle: &H, near: &N) -> (result: bool)
    requires
        call_requires(*handle, (*bounds,)),
        answers::<Position, N>(*near),
    ensures
        exists|place: Position| #[trigger]
            call_ensures(*handle, (*bounds,), place) && result == is_so(*near, place, position),
{
    let place: Position = (*handle)(*bounds);
    assert(call_ensures(*handle, (*bounds,), place));
    (*near)(place, position)
}

/// What changing the size rests on that comes from floating-point arithmetic.
pub struct ScaleMeasures<C, Q, R, G> {
    /// The first position, carried from the second to the third.
    pub carry: C,
    /// The squared distance of two positions.
    pub square: Q,
    /// How far the third position lies from the first in the direction of the
    /// second, with their distance as one.
    pub share: R,
    /// The second position, with its distance from the first so many times as
    /// large.
    pub grow: G,
}

impl<
    C: Fn(Position, Position, Position) -> Position,
    Q: Fn(Position, Position) -> u32,
    R: Fn(Position, Position, Position) -> u32,
    G: Fn(Position, Position, u32) -> Position,
> ScaleMeasures<C, Q, R, G> {
    /// Everything can be asked, and the same question has one answer.
    pub open spec fn wf(self) -> bool {
        &&& forall|a: Position, b: Position, c: Position| #[trigger]
            call_requires(self.carry, (a, b, c))
        &&& forall|a: Position, b: Position| #[trigger] call_requires(self.square, (a, b))
        &&& forall|a: Position, b: Position, c: Position| #[trigger]
            call_requires(self.share, (a, b, c))
        &&& forall|a: Position, b: Position, by: u32| #[trigger]
            call_requires(self.grow, (a, b, by))
        &&& forall|a: Position, b: Position, c: Position, one: Position, other: Position| #[trigger]
            call_ensures(self.carry, (a, b, c), one) && #[trigger] call_ensures(
                self.carry,
                (a, b, c),
                other,
            ) ==> one == other
        &&& forall|a: Position, b: Position, one: u32, other: u32| #[trigger]
            call_ensures(self.square, (a, b), one) && #[trigger] call_ensures(
                self.square,
                (a, b),
                other,
            ) ==> one == other
        &&& forall|a: Position, b: Position, c: Position, one: u32, other: u32| #[trigger]
            call_ensures(self.share, (a, b, c), one) && #[trigger] call_ensures(
                self.share,
                (a, b, c),
                other,
            ) ==> one == other
        &&& forall|a: Position, b: Position, by: u32, one: Position, other: Position| #[trigger]
            call_ensures(self.grow, (a, b, by), one) && #[trigger] call_ensures(
                self.grow,
                (a, b, by),
                other,
            ) ==> one == other
    }

    /// The squared distance of two positions.
    pub open spec fn square_of(self, a: Position, b: Position) -> u32 {
        choose|answer: u32| call_ensures(self.square, (a, b), answer)
    }

    /// By how much a handle that is dragged to a position changes the size.
    pub open spec fn factor(
        self,
        bounds: ScreenRect,
        handle: SelectionScaleHandle,
        dragged: Position,
    ) -> u32 {
        let pivot = handle.opposite().corner(bounds);
        let corner = handle.corner(bounds);
        let share = choose|answer: u32|
            call_ensures(self.share, (pivot, corner, dragged), answer);
        if is_divisor(self.square_of(pivot, corner)) && is_finite(share) {
            clamped(share, MIN_SELECTION_SCALE, MAX_SELECTION_SCALE)
        } else {
            SAME_SIZE
        }
    }

    /// However a handle is dragged, the change of size stays within its limits: a
    /// selection neither vanishes nor turns inside out.
    pub proof fn law_sizes_stay_within_limits(
        self,
        bounds: ScreenRect,
        handle: SelectionScaleHandle,
        dragged: Position,
    )
        requires
            self.wf(),
        ensures
            at_most(MIN_SELECTION_SCALE, self.factor(bounds, handle, dragged)),
            at_most(self.factor(bounds, handle, dragged), MAX_SELECTION_SCALE),
    {
    }

    /// By how much a handle that is dragged to a position changes the size; not
    /// at all where that cannot be told.
    pub fn selection_scale_factor(
        &self,
        bounds: &ScreenRect,
        handle: SelectionScaleHandle,
        dragged: Position,
    ) -> (scale: u32)
        requires
            self.wf(),
        ensures
            scale == self.factor(*bounds, handle, dragged),
    {
        let pivot: Position = handle.pivot(bounds);
        let corner: Position = handle.position(bounds);
        let square: u32 = (self.square)(pivot, corner);
        assert(call_ensures(self.square, (pivot, corner), square));
        if !can_divide(square) {
            return SAME_SIZE;
        }
        let share: u32 = (self.share)(pivot, corner, dragged);
        assert(call_ensures(self.share, (pivot, corner, dragged), share));
        if is_finite_pattern(share) {
            clamp_number(share, MIN_SELECTION_SCALE, MAX_SELECTION_SCALE)
        } else {
            SAME_SIZE
        }
    }

    /// By how much a gesture changes the size: its handle goes as far as the
    /// pointer.
    pub open spec fn scale_by(self, gesture: SelectionScaleGesture) -> u32 {
        let corner = gesture.handle.corner(gesture.bounds);
        let dragged = choose|answer: Position|
            call_ensures(
                self.carry,
                (corner, gesture.pointer_start, gesture.current),
                answer,
            );
        self.factor(gesture.bounds, gesture.handle, dragged)
    }

    /// By how much a gesture changes the size.
    pub fn scale(&self, gesture: &SelectionScaleGesture) -> (scale: u32)
        requires
            self.wf(),
        ensures
            scale == self.scale_by(*gesture),
    {
        let corner: Position = gesture.handle.position(&gesture.bounds);
        let dragged: Position = (self.carry)(corner, gesture.pointer_start, gesture.current);
        assert(call_ensures(
            self.carry,
            (corner, gesture.pointer_start, gesture.current),
            dragged,
        ));
        self.selection_scale_factor(&gesture.bounds, gesture.handle, dragged)
    }

    /// Where a gesture takes a position: away from the pivot or towards it.
    pub open spec fn scaled(self, gesture: SelectionScaleGesture, position: Position) -> Position {
        choose|answer: Position|
            call_ensures(
                self.grow,
                (
                    gesture.handle.opposite().corner(gesture.bounds),
                    position,
                    self.scale_by(gesture),
                ),
                answer,
            )
    }

    /// Where a gesture takes a position.
    pub fn transform_position(&self, gesture: &SelectionScaleGesture, position: Position) -> (moved:
        Position)
        requires
            self.wf(),
        ensures
            moved == self.scaled(*gesture, position),
    {
        let pivot: Position = gesture.handle.pivot(&gesture.bounds);
        let scale: u32 = self.scale(gesture);
        let moved: Position = (self.grow)(pivot, position, scale);
        assert(call_ensures(self.grow, (pivot, position, scale), moved));
        moved
    }

    /// The bounds of a selection while its size is changed.
    pub fn transformed_bounds(&self, gesture: &SelectionScaleGesture) -> (bounds: ScreenRect)
        requires
            self.wf(),
        ensures
            bounds == ScreenRect::spanned(
                gesture.handle.opposite().corner(gesture.bounds),
                self.scaled(*gesture, gesture.handle.corner(gesture.bounds)),
            ),
    {
        let corner: Position = gesture.handle.position(&gesture.bounds);
        ScreenRect::from_two_pos(
            gesture.handle.pivot(&gesture.bounds),
            self.transform_position(gesture, corner),
        )
    }
}

/// What rotating rests on that comes from floating-point arithmetic.
pub struct RotateMeasures<M, L, T, N, G> {
    /// The middle of a rectangle.
    pub middle: M,
    /// The product of the distances of two positions from the first one.
    pub spread: L,
    /// The angle between two positions, seen from the first one.
    pub turn: T,
    /// The nearest angle among those that are held to.
    pub snap: N,
    /// The second position, rotated around the first by an angle.
    pub spin: G,
}

impl<
    M: Fn(ScreenRect) -> Position,
    L: Fn(Position, Position, Position) -> u32,
    T: Fn(Position, Position, Position) -> u32,
    N: Fn(u32) -> u32,
    G: Fn(Position, Position, u32) -> Position,
> RotateMeasures<M, L, T, N, G> {
    /// Everything can be asked, and the same question has one answer.
    pub open spec fn wf(self) -> bool {
        &&& forall|rect: ScreenRect| #[trigger] call_requires(self.middle, (rect,))
        &&& forall|a: Position, b: Position, c: Position| #[trigger]
            call_requires(self.spread, (a, b, c))
        &&& forall|a: Position, b: Position, c: Position| #[trigger]
            call_requires(self.turn, (a, b, c))
        &&& forall|angle: u32| #[trigger] call_requires(self.snap, (angle,))
        &&& forall|a: Position, b: Position, angle: u32| #[trigger]
            call_requires(self.spin, (a, b, angle))
        &&& forall|rect: ScreenRect, one: Position, other: Position| #[trigger]
            call_ensures(self.middle, (rect,), one) && #[trigger] call_ensures(
                self.middle,
                (rect,),
                other,
            ) ==> one == other
        &&& forall|a: Position, b: Position, c: Position, one: u32, other: u32| #[trigger]
            call_ensures(self.spread, (a, b, c), one) && #[trigger] call_ensures(
                self.spread,
                (a, b, c),
                other,
            ) ==> one == other
        &&& forall|a: Position, b: Position, c: Position, one: u32, other: u32| #[trigger]
            call_ensures(self.turn, (a, b, c), one) && #[trigger] call_ensures(
                self.turn,
                (a, b, c),
                other,
            ) ==> one == other
        &&& forall|angle: u32, one: u32, other: u32| #[trigger]
            call_ensures(self.snap, (angle,), one) && #[trigger] call_ensures(
                self.snap,
                (angle,),
                other,
            ) ==> one == other
        &&& forall|a: Position, b: Position, angle: u32, one: Position, other: Position| #[trigger]
            call_ensures(self.spin, (a, b, angle), one) && #[trigger] call_ensures(
                self.spin,
                (a, b, angle),
                other,
            ) ==> one == other
    }

    /// The middle of a rectangle.
    pub open spec fn middle_of(self, rect: ScreenRect) -> Position {
        choose|answer: Position| call_ensures(self.middle, (rect,), answer)
    }

    /// By how much a gesture rotates: by the angle between where it began and
    /// where it is, seen from the middle of the selection, held to some angles
    /// where that is asked for.
    pub open spec fn angle_by(self, gesture: SelectionRotateGesture) -> u32 {
        let center = self.middle_of(gesture.bounds);
        let spread = choose|answer: u32|
            call_ensures(
                self.spread,
                (center, gesture.pointer_start, gesture.current),
                answer,
            );
        let turn = choose|answer: u32|
            call_ensures(self.turn, (center, gesture.pointer_start, gesture.current), answer);
        if !is_divisor(spread) {
            SAME_DIRECTION
        } else if gesture.snap {
            choose|answer: u32| call_ensures(self.snap, (turn,), answer)
        } else {
            turn
        }
    }

    /// By how much a gesture rotates; not at all where that cannot be told.
    pub fn angle(&self, gesture: &SelectionRotateGesture) -> (angle: u32)
        requires
            self.wf(),
        ensures
            angle == self.angle_by(*gesture),
    {
        let center: Position = (self.middle)(gesture.bounds);
        assert(call_ensures(self.middle, (gesture.bounds,), center));
        let spread: u32 = (self.spread)(center, gesture.pointer_start, gesture.current);
        assert(call_ensures(
            self.spread,
            (center, gesture.pointer_start, gesture.current),
            spread,
        ));
        if !can_divide(spread) {
            return SAME_DIRECTION;
        }
        let turn: u32 = (self.turn)(center, gesture.pointer_start, gesture.current);
        assert(call_ensures(self.turn, (center, gesture.pointer_start, gesture.current), turn));
        if gesture.snap {
            let angle: u32 = (self.snap)(turn);
            assert(call_ensures(self.snap, (turn,), angle));
            angle
        } else {
            turn
        }
    }

    /// Where a gesture takes a position: around the middle of the selection.
    pub open spec fn rotated(self, gesture: SelectionRotateGesture, position: Position) -> Position {
        choose|answer: Position|
            call_ensures(
                self.spin,
                (self.middle_of(gesture.bounds), position, self.angle_by(gesture)),
                answer,
            )
    }

    /// Where a gesture takes a position.
    pub fn transform_position(&self, gesture: &SelectionRotateGesture, position: Position) -> (moved:
        Position)
        requires
            self.wf(),
        ensures
            moved == self.rotated(*gesture, position),
    {
        let center: Position = (self.middle)(gesture.bounds);
        assert(call_ensures(self.middle, (gesture.bounds,), center));
        let angle: u32 = self.angle(gesture);
        let moved: Position = (self.spin)(center, position, angle);
        assert(call_ensures(self.spin, (center, position, angle), moved));
        moved
    }

    /// The bounds of a selection while it is rotated: those of its corners.
    pub fn transformed_bounds(&self, gesture: &SelectionRotateGesture) -> (bounds: ScreenRect)
        requires
            self.wf(),
        ensures
            bounds == reach_from_nowhere(
                gesture.bounds.corner_list().map_values(
                    |corner: Position| self.rotated(*gesture, corner),
                ),
                4,
            ),
    {
        let rotate = |corner: Position| -> (moved: Position)
            ensures
                moved == self.rotated(*gesture, corner),
            { self.transform_position(gesture, corner) };
        let bounds: ScreenRect = transformed_rect_bounds(&gesture.bounds, &rotate);
        proof {
            let corners = gesture.bounds.corner_list();
            let moved = choose|moved: Seq<Position>| #[trigger]
                are_moved(corners, rotate, moved) && bounds == reach_from_nowhere(moved, 4);
            assert(moved =~= corners.map_values(
                |corner: Position| self.rotated(*gesture, corner),
            ));
        }
        bounds
    }
}

impl<
    C: Fn(Position, Position, Position) -> Position,
    Q: Fn(Position, Position) -> u32,
    R: Fn(Position, Position, Position) -> u32,
    G: Fn(Position, Position, u32) -> Position,
> ScaleMeasures<C, Q, R, G> {
    /// Scaling leaves the opposite corner where it is and moves everything else as
    /// far from it as the dragged corner: the corner is carried along with the
    /// pointer from where it began, the factor is how far it then lies on the way
    /// from the opposite corner to where it was, within limits, and every position
    /// grows away from the opposite corner by that factor.
    pub proof fn law_everything_grows_with_the_dragged_corner(
        self,
        gesture: SelectionScaleGesture,
        dragged: Position,
        square: u32,
        share: u32,
        position: Position,
        moved: Position,
    )
        requires
            self.wf(),
            ({
                let corner = gesture.handle.corner(gesture.bounds);
                let pivot = gesture.handle.opposite().corner(gesture.bounds);
                &&& call_ensures(
                    self.carry,
                    (corner, gesture.pointer_start, gesture.current),
                    dragged,
                )
                &&& call_ensures(self.square, (pivot, corner), square)
                &&& is_divisor(square)
                &&& call_ensures(self.share, (pivot, corner, dragged), share)
                &&& at_most(MIN_SELECTION_SCALE, share)
                &&& at_most(share, MAX_SELECTION_SCALE)
                &&& is_finite(share)
                &&& call_ensures(self.grow, (pivot, position, share), moved)
            }),
        ensures
            self.scale_by(gesture) == share,
            self.scaled(gesture, position) == moved,
    {
        let corner = gesture.handle.corner(gesture.bounds);
        let pivot = gesture.handle.opposite().corner(gesture.bounds);
        assert(self.square_of(pivot, corner) == square);
        assert(self.factor(gesture.bounds, gesture.handle, dragged) == share);
        assert(self.scale_by(gesture) == share);
    }

    /// A selection without any extent is not scaled.
    pub proof fn law_what_has_no_extent_keeps_its_size(
        self,
        bounds: ScreenRect,
        handle: SelectionScaleHandle,
        dragged: Position,
        square: u32,
    )
        requires
            self.wf(),
            call_ensures(self.square, (handle.opposite().corner(bounds), handle.corner(bounds)), square),
            !is_divisor(square),
        ensures
            self.factor(bounds, handle, dragged) == SAME_SIZE,
    {
        assert(self.square_of(handle.opposite().corner(bounds), handle.corner(bounds)) == square);
    }
}

impl<
    M: Fn(ScreenRect) -> Position,
    L: Fn(Position, Position, Position) -> u32,
    T: Fn(Position, Position, Position) -> u32,
    N: Fn(u32) -> u32,
    G: Fn(Position, Position, u32) -> Position,
> RotateMeasures<M, L, T, N, G> {
    /// Rotating turns everything around the middle of the selection, by the angle
    /// from where the pointer began to where it is, held to the nearest of some
    /// angles where that is asked for; not at all where there is no such angle.
    pub proof fn law_everything_turns_around_the_middle(
        self,
        gesture: SelectionRotateGesture,
        center: Position,
        spread: u32,
        turn: u32,
        held: u32,
        position: Position,
        moved: Position,
    )
        requires
            self.wf(),
            call_ensures(self.middle, (gesture.bounds,), center),
            call_ensures(self.spread, (center, gesture.pointer_start, gesture.current), spread),
            call_ensures(self.turn, (center, gesture.pointer_start, gesture.current), turn),
            call_ensures(self.snap, (turn,), held),
            call_ensures(
                self.spin,
                (
                    center,
                    position,
                    if !is_divisor(spread) {
                        SAME_DIRECTION
                    } else if gesture.snap {
                        held
                    } else {
                        turn
                    },
                ),
                moved,
            ),
        ensures
            !is_divisor(spread) ==> self.angle_by(gesture) == SAME_DIRECTION,
            is_divisor(spread) && gesture.snap ==> self.angle_by(gesture) == held,
            is_divisor(spread) && !gesture.snap ==> self.angle_by(gesture) == turn,
            self.rotated(gesture, position) == moved,
    {
        assert(self.middle_of(gesture.bounds) == center);
    }
}

} // verus!
