//! What an eraser reaches of a drawing, and what it leaves of strokes and of
//! filled areas.

use crate::camera::CameraAddress;
use crate::eraser::{EraserReach, OutlineCut};
use crate::erasing::{cut_by_each, may_leave_by_each, may_stop_at, RunCut};
use crate::fill_difference::{lists_of_points, FillCut, MAX_FILL_DIFFERENCE_FRAGMENTS};
use crate::intervals::Double;
use crate::mask_rims::MaskSide;
use crate::masks::{outlines, BoundsError, EraserPath, Reach};
use crate::model::{point_views, CanvasPoint, EditOperation};
use crate::optics::CanvasMeasures;
use crate::plane::{copied, Plane};
use crate::regions::PolygonTest;
use crate::screen::{Position, ScreenRect};
use crate::stroke_cut::{optional_lists, SegmentCover, StrokeCut};
use vstd::prelude::*;

verus! {

/// Where an eraser went: inside of a rectangle of the screen, or nowhere.
pub struct ErasedBounds<P, W> {
    pub reach: Reach<P, W>,
    pub bounds: Option<ScreenRect>,
}

impl<
    P: Fn(&CanvasPoint) -> Option<Position>,
    W: Fn(ScreenRect, &EditOperation) -> ScreenRect,
> EraserReach for ErasedBounds<P, W> {
    open spec fn is_ready(&self) -> bool {
        self.reach.wf()
    }

    open spec fn may_say(&self, operation: EditOperation, answer: Result<bool, String>) -> bool {
        match self.bounds {
            None => answer == Ok::<bool, String>(false),
            Some(bounds) => exists|touches: Result<bool, BoundsError>|
                {
                    &&& #[trigger] self.reach.may_touch(operation, bounds, touches)
                    &&& match (touches, answer) {
                        (Ok(touches), Ok(answer)) => answer == touches,
                        (Err(error), Err(message)) => message@ == error.text(),
                        _ => false,
                    }
                },
        }
    }

    fn asked(&self, operation: &EditOperation) -> (answer: Result<bool, String>) {
        match &self.bounds {
            None => Ok(false),
            Some(bounds) => match self.reach.eraser_touches(operation, bounds) {
                Ok(touches) => Ok(touches),
                Err(error) => Err(String::from_str(error.message())),
            },
        }
    }
}

/// Cutting strokes along the path of an eraser.
pub struct AlongPath<S, V> {
    pub stroke: S,
    /// How far around the path of an eraser of some width the middle of a stroke is
    /// erased: a bit pattern.
    pub radius: V,
}

impl<
    P: Fn(&CanvasPoint) -> Option<Position>,
    R: Fn(Position, Position, Position, u64) -> Vec<Double>,
    S: Fn(Position, Position, Position, Position, u64) -> Vec<Double>,
    N: Fn(Double, Double) -> bool,
    W: Fn(Double, Double) -> bool,
    O: MaskSide,
    M: Fn(Position, Position, Double) -> Position,
    T: Fn(&CanvasPoint, Position, Position, Double) -> Option<CanvasPoint>,
    J: Fn(Position, Position) -> bool,
    V: Fn(&EditOperation, u32) -> u64,
> RunCut<EraserPath> for AlongPath<StrokeCut<P, R, S, N, W, O, M, T, J>, V> {
    open spec fn is_ready(&self) -> bool {
        &&& self.stroke.wf()
        &&& forall|run: EditOperation, width: u32| #[trigger]
            call_requires(self.radius, (&run, width))
    }

    open spec fn may_cut(
        &self,
        run: EditOperation,
        mask: EraserPath,
        left: Option<Vec<Vec<CanvasPoint>>>,
    ) -> bool {
        exists|radius: u64| #[trigger]
            call_ensures(self.radius, (&run, mask.width), radius) && optional_lists(left)
                == self.stroke.left_by_path(run, mask.points@, mask.width, radius)
    }

    fn cut_run(&self, run: &EditOperation, mask: &EraserPath) -> (left: Option<
        Vec<Vec<CanvasPoint>>,
    >) {
        let radius: u64 = (self.radius)(run, mask.width);
        self.stroke.subtract_paint_stroke_by_path(run, copied(&mask.points), mask.width, radius)
    }
}

/// Cutting polygons out of strokes.
pub struct OutsidePolygon<S, Q, V> {
    pub stroke: S,
    pub plane: Q,
    /// Half of the width of a stroke: a bit pattern.
    pub radius: V,
}

impl<
    P: Fn(&CanvasPoint) -> Option<Position>,
    R: Fn(Position, Position, Position, u64) -> Vec<Double>,
    S: Fn(Position, Position, Position, Position, u64) -> Vec<Double>,
    N: Fn(Double, Double) -> bool,
    W: Fn(Double, Double) -> bool,
    O: MaskSide,
    M: Fn(Position, Position, Double) -> Position,
    T: Fn(&CanvasPoint, Position, Position, Double) -> Option<CanvasPoint>,
    J: Fn(Position, Position) -> bool,
    A: Fn(&Vec<Position>) -> u32,
    C: Fn(Position, Position, Position) -> u32,
    L: Fn(Position, Position, Position) -> bool,
    X: Fn(Position, Position, Position, Position) -> Option<Position>,
    I: PolygonTest,
    V: Fn(&EditOperation) -> u64,
> RunCut<Vec<Position>> for OutsidePolygon<
    StrokeCut<P, R, S, N, W, O, M, T, J>,
    Plane<A, C, L, X, I>,
    V,
> {
    open spec fn is_ready(&self) -> bool {
        &&& self.stroke.wf()
        &&& self.plane.wf()
        &&& forall|run: EditOperation| #[trigger] call_requires(self.radius, (&run,))
    }

    open spec fn may_cut(
        &self,
        run: EditOperation,
        mask: Vec<Position>,
        left: Option<Vec<Vec<CanvasPoint>>>,
    ) -> bool {
        exists|radius: u64| #[trigger]
            call_ensures(self.radius, (&run,), radius) && optional_lists(left)
                == self.stroke.left_by_polygon(run, self.plane, mask@, radius)
    }

    fn cut_run(&self, run: &EditOperation, mask: &Vec<Position>) -> (left: Option<
        Vec<Vec<CanvasPoint>>,
    >) {
        let radius: u64 = (self.radius)(run);
        self.stroke.subtract_paint_stroke_by_polygon(run, &self.plane, mask, radius)
    }
}

/// Taking masks off strokes, one after the other.
pub struct StrokeMasks<T, C> {
    pub masks: Vec<T>,
    pub cut: C,
}

impl<T, C: RunCut<T>> OutlineCut for StrokeMasks<T, C> {
    open spec fn is_ready(&self) -> bool {
        self.cut.is_ready()
    }

    open spec fn may_leave(
        &self,
        operation: EditOperation,
        left: Result<Vec<Vec<CanvasPoint>>, String>,
    ) -> bool {
        let masks = self.masks@;
        match left {
            Ok(left) => may_leave_by_each(
                operation,
                masks,
                masks.len() as int,
                self.cut,
                outlines(left@),
            ),
            Err(message) => {
                &&& exists|at: int|
                    0 <= at < masks.len() && #[trigger] may_stop_at(operation, masks, at, self.cut)
                &&& message@ == "paint subtraction is not representable at the current camera"@
            },
        }
    }

    fn cut(&self, operation: &EditOperation) -> (left: Result<Vec<Vec<CanvasPoint>>, String>) {
        match cut_by_each(operation, &self.masks, &self.cut) {
            Ok(left) => Ok(left),
            Err(message) => Err(String::from_str(message)),
        }
    }
}

/// Taking masks off filled areas, as a camera sees both.
pub struct FillMasks<F> {
    pub fill: F,
    pub masks: Vec<Vec<CanvasPoint>>,
    pub camera: CameraAddress,
}

impl<
    A: Fn(&Vec<Position>) -> u32,
    C: Fn(Position, Position, Position) -> u32,
    L: Fn(Position, Position, Position) -> bool,
    X: Fn(Position, Position, Position, Position) -> Option<Position>,
    I: PolygonTest,
    O: CanvasMeasures,
    P: Fn(u64, u64) -> Position,
    Z: Fn(u64, i32) -> u64,
    W: Fn(&Vec<Position>, &Vec<Vec<Position>>) -> bool,
    H: SegmentCover,
    U: Fn(Position) -> (u64, u64),
> OutlineCut for FillMasks<FillCut<A, C, L, X, I, O, P, Z, W, H, U>> {
    open spec fn is_ready(&self) -> bool {
        self.fill.wf()
    }

    open spec fn may_leave(
        &self,
        operation: EditOperation,
        left: Result<Vec<Vec<CanvasPoint>>, String>,
    ) -> bool {
        let difference = self.fill.difference(
            point_views(operation.points@),
            lists_of_points(self.masks@),
            self.camera@,
            MAX_FILL_DIFFERENCE_FRAGMENTS,
        );
        match (left, difference) {
            (Ok(left), Ok(difference)) => lists_of_points(left@) == difference,
            (Err(message), Err(error)) => message@ == error.text(),
            _ => false,
        }
    }

    fn cut(&self, operation: &EditOperation) -> (left: Result<Vec<Vec<CanvasPoint>>, String>) {
        match self.fill.subtract_fill_polygon_at_camera(
            &operation.points,
            &self.masks,
            &self.camera,
        ) {
            Ok(left) => Ok(left),
            Err(error) => Err(error.message()),
        }
    }
}

} // verus!
