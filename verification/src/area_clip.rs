//! What of a draft lies in the selected area.

use crate::drafts::AreaClip;
use crate::erasing::MaskView;
use crate::intervals::{is_so, Single};
use crate::line_clip::LineClip;
use crate::masks::{outlines, Placing};
use crate::model::{point_views, CanvasPoint, EditKind, EditOperation, PointView};
use crate::plane::{figures, Plane};
use crate::regions::PolygonTest;
use crate::screen::Position;
use vstd::prelude::*;

verus! {

/// The points of the selected area, mathematically.
pub open spec fn area_view(area: Option<&Vec<CanvasPoint>>) -> Option<Seq<PointView>> {
    match area {
        Some(points) => Some(point_views(points@)),
        None => None,
    }
}

impl<
    X: Fn(Position, Position, Position, Position) -> Option<Single>,
    N: Fn(Single, Single) -> bool,
    W: Fn(Single, Single) -> bool,
    K: Fn(Position, Position, Single, Single) -> Position,
    M: Fn(Position, Position, Single) -> Position,
    J: Fn(Position, Position) -> bool,
    F: Fn(Position, Position) -> bool,
    I: PolygonTest,
> LineClip<X, N, W, K, M, J, F, I> {
    /// Whether two lines have the same points but for rounding.
    pub open spec fn all_touch(self, left: Seq<Position>, right: Seq<Position>) -> bool {
        &&& left.len() == right.len()
        &&& forall|i: int| 0 <= i < left.len() ==> is_so(self.touch, #[trigger] left[i], right[i])
    }

    /// Whether two lines have the same points but for rounding.
    pub fn same_pos_points(&self, left: &Vec<Position>, right: &Vec<Position>) -> (same: bool)
        requires
            self.wf(),
        ensures
            same == self.all_touch(left@, right@),
    {
        if left.len() != right.len() {
            return false;
        }
        let mut i: usize = 0;
        while i < left.len()
            invariant
                self.wf(),
                i <= left@.len() == right@.len(),
                forall|k: int| 0 <= k < i ==> is_so(self.touch, #[trigger] left@[k], right@[k]),
            decreases left@.len() - i,
        {
            let answer: bool = (self.touch)(left[i], right[i]);
            if !answer {
                assert(call_ensures(self.touch, (left@[i as int], right@[i as int]), false));
                assert(!is_so(self.touch, left@[i as int], right@[i as int]));
                return false;
            }
            i = i + 1;
        }
        true
    }

    /// The selected area on the screen, where it limits a draft: there is one, it
    /// is a polygon on the screen, and the draft is on the screen too. A block is
    /// never limited.
    pub open spec fn limit<
        P: Fn(&CanvasPoint) -> Option<Position>,
        V: Fn(&EditOperation) -> u32,
        A: Fn(&Vec<Position>) -> u32,
        C: Fn(Position, Position, Position) -> u32,
        L: Fn(Position, Position, Position) -> bool,
        Y: Fn(Position, Position, Position, Position) -> Option<Position>,
        Q: PolygonTest,
    >(
        self,
        view: MaskView<P, V>,
        plane: Plane<A, C, L, Y, Q>,
        kind: EditKind,
        points: Seq<PointView>,
        area: Option<Seq<PointView>>,
    ) -> Option<Seq<Position>> {
        match area {
            Some(corners) => {
                let polygon = plane.normalized(view.positions(corners));
                if kind != EditKind::CompactBlock && view.all_shown(corners) && polygon.len() >= 3
                    && view.all_shown(points) {
                    Some(polygon)
                } else {
                    None
                }
            },
            None => None,
        }
    }

    /// The parts of a draft in a polygon.
    pub open spec fn parts<
        A: Fn(&Vec<Position>) -> u32,
        C: Fn(Position, Position, Position) -> u32,
        L: Fn(Position, Position, Position) -> bool,
        Y: Fn(Position, Position, Position, Position) -> Option<Position>,
        Q: PolygonTest,
    >(
        self,
        plane: Plane<A, C, L, Y, Q>,
        kind: EditKind,
        points: Seq<Position>,
        polygon: Seq<Position>,
    ) -> Seq<Seq<Position>> {
        if kind == EditKind::Paint || kind == EditKind::Erase {
            self.line_inside(points, polygon)
        } else {
            plane.areas_in(points, polygon)
        }
    }

    /// What of a draft lies in the selected area: it is unlimited where no area
    /// limits it, unchanged where its only part is itself, and else its parts.
    pub fn area_clip<
        P: Fn(&CanvasPoint) -> Option<Position>,
        V: Fn(&EditOperation) -> u32,
        A: Fn(&Vec<Position>) -> u32,
        C: Fn(Position, Position, Position) -> u32,
        L: Fn(Position, Position, Position) -> bool,
        Y: Fn(Position, Position, Position, Position) -> Option<Position>,
        Q: PolygonTest,
        U: Fn(Position) -> CanvasPoint,
    >(
        &self,
        view: &MaskView<P, V>,
        plane: &Plane<A, C, L, Y, Q>,
        placing: &Placing<U>,
        draft: &EditOperation,
        area: Option<&Vec<CanvasPoint>>,
    ) -> (clip: AreaClip)
        requires
            self.wf(),
            view.wf(),
            plane.wf(),
            placing.wf(),
        ensures
            ({
                let points = point_views(draft.points@);
                let drawn = view.positions(points);
                match self.limit(*view, *plane, draft.kind, points, area_view(area)) {
                    None => clip is Unlimited,
                    Some(polygon) => {
                        let parts = self.parts(*plane, draft.kind, drawn, polygon);
                        if parts.len() == 1 && self.all_touch(parts[0], drawn) {
                            clip is Unchanged
                        } else {
                            &&& clip matches AreaClip::Pieces(pieces)
                            &&& outlines(pieces@) == parts.map_values(
                                |part: Seq<Position>| placing.placed(part),
                            )
                        }
                    },
                }
            }),
    {
        if draft.kind == EditKind::CompactBlock {
            return AreaClip::Unlimited;
        }
        let corners: &Vec<CanvasPoint> = match area {
            Some(corners) => corners,
            None => {
                return AreaClip::Unlimited;
            },
        };
        let polygon: Vec<Position> = match view.project_all(corners) {
            Some(positions) => plane.normalized_pos_polygon(&positions),
            None => {
                return AreaClip::Unlimited;
            },
        };
        if polygon.len() < 3 {
            return AreaClip::Unlimited;
        }
        let drawn: Vec<Position> = match view.project_all(&draft.points) {
            Some(positions) => positions,
            None => {
                return AreaClip::Unlimited;
            },
        };
        let parts: Vec<Vec<Position>> = if draft.kind == EditKind::Paint || draft.kind
            == EditKind::Erase {
            self.clip_pos_polyline_to_polygon(&drawn, &polygon)
        } else {
            plane.clip_pos_area_operation_to_polygon(&drawn, &polygon)
        };
        let ghost wanted = self.parts(*plane, draft.kind, drawn@, polygon@);
        assert(figures(parts@) == wanted);
        assert(forall|k: int| 0 <= k < parts@.len() ==> #[trigger] wanted[k] == parts@[k]@);
        if parts.len() == 1 && self.same_pos_points(&parts[0], &drawn) {
            return AreaClip::Unchanged;
        }
        let mut pieces: Vec<Vec<CanvasPoint>> = Vec::new();
        let ghost placed = |part: Seq<Position>| placing.placed(part);
        let mut i: usize = 0;
        while i < parts.len()
            invariant
                placing.wf(),
                i <= parts@.len() == wanted.len(),
                pieces@.len() == i,
                forall|k: int| 0 <= k < parts@.len() ==> #[trigger] wanted[k] == parts@[k]@,
                forall|k: int|
                    0 <= k < i ==> point_views((#[trigger] pieces@[k])@) == placing.placed(
                        wanted[k],
                    ),
            decreases parts@.len() - i,
        {
            pieces.push(placing.place_all(&parts[i]));
            assert(wanted[i as int] == parts@[i as int]@);
            i = i + 1;
        }
        assert(outlines(pieces@) =~= wanted.map_values(placed));
        AreaClip::Pieces(pieces)
    }
}

} // verus!
