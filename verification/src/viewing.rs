//! Positions of the screen and points of the canvas, in a rectangle of the screen.

use crate::camera::CameraAddress;
use crate::model::{CanvasPoint, PointView};
use crate::optics::{pointed, projected, CanvasMeasures};
use crate::plane::{is_somewhere, position_is_finite};
use crate::screen::Position;
use vstd::prelude::*;

verus! {

/// A rectangle of the screen through which a camera shows the canvas, as far as it
/// rests on floating-point arithmetic.
pub struct Viewport<P, U> {
    /// The bit patterns of its width and its height.
    pub width: u64,
    pub height: u64,
    /// The position of the screen at a place of the rectangle.
    pub position: P,
    /// The place of the rectangle that a position of the screen is.
    pub place: U,
}

impl<P: Fn(u64, u64) -> Position, U: Fn(Position) -> (u64, u64)> Viewport<P, U> {
    /// Everything can be asked, and asking twice gives the same answer.
    pub open spec fn wf(self) -> bool {
        &&& forall|x: u64, y: u64| #[trigger] call_requires(self.position, (x, y))
        &&& forall|at: Position| #[trigger] call_requires(self.place, (at,))
        &&& forall|x: u64, y: u64, one: Position, other: Position| #[trigger]
            call_ensures(self.position, (x, y), one) && #[trigger] call_ensures(
                self.position,
                (x, y),
                other,
            ) ==> one == other
        &&& forall|at: Position, one: (u64, u64), other: (u64, u64)| #[trigger]
            call_ensures(self.place, (at,), one) && #[trigger] call_ensures(
                self.place,
                (at,),
                other,
            ) ==> one == other
    }

    /// The position of the screen at a place of the rectangle.
    pub open spec fn position_of(self, x: u64, y: u64) -> Position {
        choose|answer: Position| call_ensures(self.position, (x, y), answer)
    }

    /// The place of the rectangle that a position of the screen is.
    pub open spec fn place_of(self, at: Position) -> (u64, u64) {
        choose|answer: (u64, u64)| call_ensures(self.place, (at,), answer)
    }

    /// Where a camera shows a point on the screen; none where that is not
    /// representable, or nowhere.
    pub open spec fn shown<M: CanvasMeasures>(
        self,
        measures: &M,
        camera: CameraAddress,
        point: PointView,
    ) -> Option<Position> {
        match projected(measures, camera@, point, self.width, self.height) {
            Some((x, y)) if is_somewhere(self.position_of(x, y)) => Some(self.position_of(x, y)),
            _ => None,
        }
    }

    /// Where a camera shows a point on the screen; none where that is not
    /// representable, or nowhere.
    pub fn canvas_point_to_position<M: CanvasMeasures>(
        &self,
        measures: &M,
        camera: &CameraAddress,
        point: &CanvasPoint,
    ) -> (result: Option<Position>)
        requires
            self.wf(),
            measures.wf(),
        ensures
            result == self.shown(measures, *camera, point@),
    {
        match camera.canvas_to_screen(measures, point, self.width, self.height) {
            Some((x, y)) => {
                let position: Position = (self.position)(x, y);
                if position_is_finite(position) {
                    Some(position)
                } else {
                    None
                }
            },
            None => None,
        }
    }

    /// The point that a camera shows at a position of the screen.
    pub fn screen_to_canvas_for_camera<M: CanvasMeasures>(
        &self,
        measures: &M,
        camera: &CameraAddress,
        at: Position,
    ) -> (point: CanvasPoint)
        requires
            self.wf(),
            measures.wf(),
        ensures
            ({
                let (x, y) = self.place_of(at);
                point@ == pointed(measures, camera@, x, y, self.width, self.height)
            }),
    {
        let (x, y): (u64, u64) = (self.place)(at);
        camera.screen_to_canvas(measures, x, y, self.width, self.height)
    }
}

} // verus!
