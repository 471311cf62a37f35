//! What masks leave of a filled polygon.

use crate::camera::{
    is_positive_double, positive_double, CameraAddress, CameraView, ONE_DOUBLE,
};
use crate::model::{clone_points, point_views, CanvasPoint, PointView};
use crate::optics::{jumped_camera, pointed, projected, CanvasMeasures};
use crate::plane::{
    edges, figures, is_somewhere, polygon_edges_pos, position_is_finite, Plane,
    MIN_FILL_GEOMETRY_AREA_TWICE,
};
use crate::regions::PolygonTest;
use crate::screen::{less_than, magnitude, Position};
use crate::stroke_cut::SegmentCover;
use crate::text::with_number;
use vstd::prelude::*;

verus! {

/// The largest number of pieces that a polygon may be cut into.
pub const MAX_FILL_DIFFERENCE_FRAGMENTS: usize = 4096;

/// Why masks could not be taken off a polygon.
#[derive(Debug, Clone, Copy, PartialEq, Eq, Structural)]
pub enum FillDifferenceError {
    EmptySource,
    NoFragments,
    DepthSpan,
    PointNotRepresentable,
    PointNotFinite,
    DegenerateMask,
    UntriangulatedMask,
    TooManyFragments(usize),
}

impl FillDifferenceError {
    /// What the user is told.
    pub open spec fn text(self) -> Seq<char> {
        match self {
            FillDifferenceError::EmptySource => "fill subtraction source is empty"@,
            FillDifferenceError::NoFragments => "fill subtraction fragment limit is zero"@,
            FillDifferenceError::DepthSpan => "fill subtraction depth span is not representable"@,
            FillDifferenceError::PointNotRepresentable =>
                "fill subtraction point is not representable"@,
            FillDifferenceError::PointNotFinite => "fill subtraction point is not finite"@,
            FillDifferenceError::DegenerateMask =>
                "fill subtraction mask polygon is degenerate"@,
            FillDifferenceError::UntriangulatedMask =>
                "fill subtraction mask polygon could not be triangulated"@,
            FillDifferenceError::TooManyFragments(limit) => "fill subtraction exceeded the "@
                + crate::text::natural_text(limit as int) + "-fragment limit"@,
        }
    }

    /// What the user is told.
    pub fn message(self) -> (message: String)
        ensures
            message@ == self.text(),
    {
        match self {
            FillDifferenceError::EmptySource => String::from_str("fill subtraction source is empty"),
            FillDifferenceError::NoFragments => String::from_str(
                "fill subtraction fragment limit is zero",
            ),
            FillDifferenceError::DepthSpan => String::from_str(
                "fill subtraction depth span is not representable",
            ),
            FillDifferenceError::PointNotRepresentable => String::from_str(
                "fill subtraction point is not representable",
            ),
            FillDifferenceError::PointNotFinite => String::from_str(
                "fill subtraction point is not finite",
            ),
            FillDifferenceError::DegenerateMask => String::from_str(
                "fill subtraction mask polygon is degenerate",
            ),
            FillDifferenceError::UntriangulatedMask => String::from_str(
                "fill subtraction mask polygon could not be triangulated",
            ),
            FillDifferenceError::TooManyFragments(limit) => with_number(
                "fill subtraction exceeded the ",
                limit as u64,
                "-fragment limit",
            ),
        }
    }
}

/// The points of each list.
pub open spec fn lists_of_points(lists: Seq<Vec<CanvasPoint>>) -> Seq<Seq<PointView>> {
    lists.map_values(|list: Vec<CanvasPoint>| point_views(list@))
}

/// Whether the levels from the polygon to the camera can be counted.
pub open spec fn spans_representable_levels(camera_depth: int, depth: int) -> bool {
    i32::MIN <= camera_depth - depth <= i32::MAX
}

/// What taking masks off a polygon rests on that comes from floating-point
/// arithmetic.
pub struct FillCut<A, C, L, X, I, O, P, Z, W, H, U> {
    pub plane: Plane<A, C, L, X, I>,
    /// How cameras show the canvas.
    pub measures: O,
    /// The position at a place of the screen.
    pub position: P,
    /// The bit pattern of a zoom, so many levels shallower.
    pub zoom: Z,
    /// Whether the areas of triangles add up to that of a polygon.
    pub covers: W,
    /// What tells whether all of a line lies in a polygon.
    pub hides: H,
    /// The place of the screen that a position is.
    pub place: U,
}

impl<
    A: Fn(&Vec<Position>) -> u32,
    C: Fn(Position, Position, Position) -> u32,
    L: Fn(Position, Position, Position) -> bool,
    X: Fn(Position, Position, Position, Position) -> Option<Position>,
    I: PolygonTest,
    O: CanvasMeasures,
    P: Fn(u64, u64) -> Position,
    Z: Fn(u64, i32) -> u64,
    W: Fn(&Vec<Position>, &Vec<Vec<Position>>) -> bool,
    H: SegmentCover,
    U: Fn(Position) -> (u64, u64),
> FillCut<A, C, L, X, I, O, P, Z, W, H, U> {
    /// `answer` may be given on whether `triangles` cover `polygon`.
    pub open spec fn weighs(
        self,
        polygon: Seq<Position>,
        triangles: Seq<Seq<Position>>,
        answer: bool,
    ) -> bool {
        exists|figure: Vec<Position>, parts: Vec<Vec<Position>>|
            figure@ == polygon && figures(parts@) == triangles && #[trigger] call_ensures(
                self.covers,
                (&figure, &parts),
                answer,
            )
    }

    /// Everything can be asked, and asking twice gives the same answer.
    pub open spec fn wf(self) -> bool {
        &&& self.plane.wf()
        &&& self.measures.wf()
        &&& forall|x: u64, y: u64| #[trigger] call_requires(self.position, (x, y))
        &&& forall|zoom: u64, levels: i32| #[trigger] call_requires(self.zoom, (zoom, levels))
        &&& forall|figure: Vec<Position>, parts: Vec<Vec<Position>>| #[trigger]
            call_requires(self.covers, (&figure, &parts))
        &&& self.hides.is_ready()
        &&& forall|position: Position| #[trigger] call_requires(self.place, (position,))
        &&& forall|x: u64, y: u64, one: Position, other: Position| #[trigger]
            call_ensures(self.position, (x, y), one) && #[trigger] call_ensures(
                self.position,
                (x, y),
                other,
            ) ==> one == other
        &&& forall|zoom: u64, levels: i32, one: u64, other: u64| #[trigger]
            call_ensures(self.zoom, (zoom, levels), one) && #[trigger] call_ensures(
                self.zoom,
                (zoom, levels),
                other,
            ) ==> one == other
        &&& forall|position: Position, one: (u64, u64), other: (u64, u64)| #[trigger]
            call_ensures(self.place, (position,), one) && #[trigger] call_ensures(
                self.place,
                (position,),
                other,
            ) ==> one == other
        &&& forall|polygon: Seq<Position>, parts: Seq<Seq<Position>>, one: bool, other: bool|
         #[trigger]
            self.weighs(polygon, parts, one) && #[trigger] self.weighs(polygon, parts, other)
                ==> one == other
    }

    /// The position at a place of the screen.
    pub open spec fn position_of(self, x: u64, y: u64) -> Position {
        choose|answer: Position| call_ensures(self.position, (x, y), answer)
    }

    /// The place of the screen that a position is.
    pub open spec fn place_of(self, position: Position) -> (u64, u64) {
        choose|answer: (u64, u64)| call_ensures(self.place, (position,), answer)
    }

    /// Where a camera shows a point, from its own place on; none where that is not
    /// representable.
    pub open spec fn shown(self, camera: CameraView, point: PointView) -> Option<Position> {
        match projected(&self.measures, camera, point, 0, 0) {
            Some((x, y)) => Some(self.position_of(x, y)),
            None => None,
        }
    }

    /// A zoom, so many levels shallower.
    pub open spec fn zoom_at(self, zoom: u64, levels: i32) -> u64 {
        choose|answer: u64| call_ensures(self.zoom, (zoom, levels), answer)
    }

    /// The camera at another depth that shows what a camera shows.
    pub open spec fn camera_in(self, camera: CameraView, depth: i64) -> CameraView {
        CameraView {
            zoom: self.zoom_at(camera.zoom, (camera.depth - depth) as i32),
            ..jumped_camera(&self.measures, camera, depth as int)
        }
    }

    /// Whether triangles cover a polygon.
    pub open spec fn covered(self, polygon: Seq<Position>, triangles: Seq<Seq<Position>>) -> bool {
        choose|answer: bool| self.weighs(polygon, triangles, answer)
    }

    /// Whether all of a line lies in a polygon.
    pub open spec fn hidden(self, start: Position, end: Position, polygon: Seq<Position>) -> bool {
        self.hides.hidden(start, end, polygon)
    }

    /// The point that a camera shows at a position.
    pub open spec fn point_at(self, camera: CameraView, position: Position) -> PointView {
        let (x, y) = self.place_of(position);
        pointed(&self.measures, camera, x, y, 0, 0)
    }

    fn show(&self, camera: &CameraAddress, point: &CanvasPoint) -> (answer: Option<Position>)
        requires
            self.wf(),
        ensures
            answer == self.shown(camera@, point@),
    {
        match camera.canvas_to_screen(&self.measures, point, 0, 0) {
            Some((x, y)) => Some((self.position)(x, y)),
            None => None,
        }
    }

    fn shallower_zoom(&self, zoom: u64, levels: i32) -> (answer: u64)
        requires
            self.wf(),
        ensures
            answer == self.zoom_at(zoom, levels),
    {
        (self.zoom)(zoom, levels)
    }

    fn camera_at_depth(&self, camera: &CameraAddress, depth: i64) -> (output: CameraAddress)
        requires
            self.wf(),
            spans_representable_levels(camera.depth as int, depth as int),
        ensures
            output@ == self.camera_in(camera@, depth),
    {
        let levels: i32 = (camera.depth as i128 - depth as i128) as i32;
        let mut output: CameraAddress = camera.clone();
        output.jump_to_depth(&self.measures, depth);
        output.zoom = self.shallower_zoom(camera.zoom, levels);
        output
    }

    fn triangles_cover(&self, polygon: &Vec<Position>, triangles: &Vec<Vec<Position>>) -> (answer:
        bool)
        requires
            self.wf(),
        ensures
            answer == self.covered(polygon@, figures(triangles@)),
    {
        let answer: bool = (self.covers)(polygon, triangles);
        assert(self.weighs(polygon@, figures(triangles@), answer));
        answer
    }

    fn line_is_hidden(&self, start: Position, end: Position, polygon: &Vec<Position>) -> (answer:
        bool)
        requires
            self.wf(),
        ensures
            answer == self.hidden(start, end, polygon@),
    {
        self.hides.is_hidden(start, end, polygon)
    }

    fn take_place(&self, camera: &CameraAddress, position: Position) -> (point: CanvasPoint)
        requires
            self.wf(),
        ensures
            point@ == self.point_at(camera@, position),
            point@.depth == camera.depth,
    {
        let (x, y): (u64, u64) = (self.place)(position);
        camera.screen_to_canvas(&self.measures, x, y, 0, 0)
    }

    /// Where a camera shows the first `count` points, or what is wrong with the
    /// first one of them that it does not show.
    pub open spec fn projected(
        self,
        camera: CameraView,
        points: Seq<PointView>,
        count: int,
    ) -> Result<Seq<Position>, FillDifferenceError>
        decreases count,
    {
        if count <= 0 {
            Ok(Seq::empty())
        } else {
            match self.projected(camera, points, count - 1) {
                Err(error) => Err(error),
                Ok(before) => match self.shown(camera, points[count - 1]) {
                    None => Err(FillDifferenceError::PointNotRepresentable),
                    Some(position) => if is_somewhere(position) {
                        Ok(before.push(position))
                    } else {
                        Err(FillDifferenceError::PointNotFinite)
                    },
                },
            }
        }
    }

    fn project_all(&self, camera: &CameraAddress, points: &Vec<CanvasPoint>) -> (result: Result<
        Vec<Position>,
        FillDifferenceError,
    >)
        requires
            self.wf(),
        ensures
            match (result, self.projected(camera@, point_views(points@), points@.len() as int)) {
                (Ok(positions), Ok(expected)) => positions@ == expected,
                (Err(error), Err(expected)) => error == expected,
                _ => false,
            },
    {
        let ghost views = point_views(points@);
        let mut positions: Vec<Position> = Vec::new();
        let mut i: usize = 0;
        while i < points.len()
            invariant
                self.wf(),
                i <= points@.len(),
                views == point_views(points@),
                self.projected(camera@, views, i as int) == Ok::<_, FillDifferenceError>(
                    positions@,
                ),
            decreases points@.len() - i,
        {
            assert(views[i as int] == points@[i as int]@);
            match self.show(camera, &points[i]) {
                None => {
                    proof {
                        self.lemma_first_error_stays(
                            camera@,
                            views,
                            i + 1,
                            points@.len() as int,
                            FillDifferenceError::PointNotRepresentable,
                        );
                    }
                    return Err(FillDifferenceError::PointNotRepresentable);
                },
                Some(position) => {
                    if !position_is_finite(position) {
                        proof {
                            self.lemma_first_error_stays(
                                camera@,
                                views,
                                i + 1,
                                points@.len() as int,
                                FillDifferenceError::PointNotFinite,
                            );
                        }
                        return Err(FillDifferenceError::PointNotFinite);
                    }
                    positions.push(position);
                },
            }
            i = i + 1;
        }
        Ok(positions)
    }

    proof fn lemma_first_error_stays(
        self,
        camera: CameraView,
        points: Seq<PointView>,
        from: int,
        count: int,
        error: FillDifferenceError,
    )
        requires
            0 <= from <= count,
            self.projected(camera, points, from) == Err::<Seq<Position>, _>(error),
        ensures
            self.projected(camera, points, count) == Err::<Seq<Position>, _>(error),
        decreases count - from,
    {
        if from < count {
            self.lemma_first_error_stays(camera, points, from, count - 1, error);
        }
    }

    /// The polygon that a camera shows for a list of points.
    pub open spec fn outline(self, camera: CameraView, points: Seq<PointView>) -> Result<
        Seq<Position>,
        FillDifferenceError,
    > {
        match self.projected(camera, points, points.len() as int) {
            Ok(positions) => Ok(self.plane.normalized(positions)),
            Err(error) => Err(error),
        }
    }

    fn project_polygon(&self, camera: &CameraAddress, points: &Vec<CanvasPoint>) -> (result: Result<
        Vec<Position>,
        FillDifferenceError,
    >)
        requires
            self.wf(),
        ensures
            match (result, self.outline(camera@, point_views(points@))) {
                (Ok(polygon), Ok(expected)) => polygon@ == expected,
                (Err(error), Err(expected)) => error == expected,
                _ => false,
            },
    {
        assert(point_views(points@).len() == points@.len());
        match self.project_all(camera, points) {
            Ok(positions) => Ok(self.plane.normalized_pos_polygon(&positions)),
            Err(error) => Err(error),
        }
    }

    /// Those of the first `count` triangles that have an inside.
    pub open spec fn solid(self, triangles: Seq<Seq<Position>>, count: int) -> Seq<Seq<Position>>
        decreases count,
    {
        if count <= 0 {
            Seq::empty()
        } else {
            let before = self.solid(triangles, count - 1);
            if less_than(
                MIN_FILL_GEOMETRY_AREA_TWICE,
                magnitude(self.plane.area_of(triangles[count - 1])),
            ) {
                before.push(triangles[count - 1])
            } else {
                before
            }
        }
    }

    /// The triangles that make up a polygon.
    pub open spec fn cut_up(self, polygon: Seq<Position>) -> Result<
        Seq<Seq<Position>>,
        FillDifferenceError,
    > {
        let all = self.plane.triangles(self.plane.normalized(polygon));
        let triangles = self.solid(all, all.len() as int);
        if !self.plane.has_inside(polygon) {
            Err(FillDifferenceError::DegenerateMask)
        } else if !self.covered(polygon, triangles) {
            Err(FillDifferenceError::UntriangulatedMask)
        } else {
            Ok(triangles)
        }
    }

    /// The triangles that make up a polygon.
    pub fn triangulate_fill_polygon(&self, polygon: &Vec<Position>) -> (result: Result<
        Vec<Vec<Position>>,
        FillDifferenceError,
    >)
        requires
            self.wf(),
        ensures
            match (result, self.cut_up(polygon@)) {
                (Ok(triangles), Ok(expected)) => figures(triangles@) == expected,
                (Err(error), Err(expected)) => error == expected,
                _ => false,
            },
    {
        if !self.plane.fill_polygon_is_nondegenerate(polygon) {
            return Err(FillDifferenceError::DegenerateMask);
        }
        let all: Vec<Vec<Position>> = self.plane.triangulate_pos_polygon(polygon);
        let ghost whole = figures(all@);
        let mut triangles: Vec<Vec<Position>> = Vec::new();
        assert(figures(triangles@) =~= Seq::<Seq<Position>>::empty());
        let mut i: usize = 0;
        while i < all.len()
            invariant
                self.wf(),
                i <= all@.len(),
                whole == figures(all@),
                figures(triangles@) == self.solid(whole, i as int),
            decreases all@.len() - i,
        {
            let ghost before = triangles@;
            let triangle: &Vec<Position> = &all[i];
            assert(whole[i as int] == triangle@);
            if self.plane.is_larger_than(triangle, MIN_FILL_GEOMETRY_AREA_TWICE) {
                triangles.push(crate::plane::copied(triangle));
                assert(figures(triangles@) =~= figures(before).push(triangle@));
            }
            i = i + 1;
        }
        assert(whole.len() == all@.len());
        if self.triangles_cover(polygon, &triangles) {
            Ok(triangles)
        } else {
            Err(FillDifferenceError::UntriangulatedMask)
        }
    }

    /// The polygons of the first `count` masks, or what is wrong with the first
    /// one of them that is not shown.
    pub open spec fn outlines(
        self,
        camera: CameraView,
        masks: Seq<Seq<PointView>>,
        count: int,
    ) -> Result<Seq<Seq<Position>>, FillDifferenceError>
        decreases count,
    {
        if count <= 0 {
            Ok(Seq::empty())
        } else {
            match self.outlines(camera, masks, count - 1) {
                Err(error) => Err(error),
                Ok(before) => match self.outline(camera, masks[count - 1]) {
                    Err(error) => Err(error),
                    Ok(polygon) => Ok(before.push(polygon)),
                },
            }
        }
    }

    /// Whether a polygon lies in a mask, with all of its corners and edges.
    pub open spec fn lies_under(self, polygon: Seq<Position>, mask: Seq<Position>) -> bool {
        &&& self.plane.all_in(polygon, mask)
        &&& forall|i: int|
            0 <= i < edges(polygon).len() ==> self.hidden(
                (#[trigger] edges(polygon)[i]).0,
                edges(polygon)[i].1,
                mask,
            )
    }

    /// Whether one of the masks covers a polygon.
    pub open spec fn is_under_one(
        self,
        polygon: Seq<Position>,
        masks: Seq<Seq<Position>>,
    ) -> bool {
        polygon.len() > 0 && exists|i: int|
            0 <= i < masks.len() && self.lies_under(polygon, #[trigger] masks[i])
    }

    fn covers_all_of(&self, mask: &Vec<Position>, polygon: &Vec<Position>) -> (result: bool)
        requires
            self.wf(),
        ensures
            result == self.lies_under(polygon@, mask@),
    {
        if !self.plane.points_lie_in(polygon, mask) {
            return false;
        }
        let lines: Vec<(Position, Position)> = polygon_edges_pos(polygon);
        let mut i: usize = 0;
        while i < lines.len()
            invariant
                self.wf(),
                i <= lines@.len(),
                lines@ == edges(polygon@),
                forall|k: int|
                    0 <= k < i ==> self.hidden((#[trigger] lines@[k]).0, lines@[k].1, mask@),
            decreases lines@.len() - i,
        {
            assert(lines@[i as int] == edges(polygon@)[i as int]);
            if !self.line_is_hidden(lines[i].0, lines[i].1, mask) {
                return false;
            }
            i = i + 1;
        }
        true
    }

    fn project_masks(&self, camera: &CameraAddress, masks: &Vec<Vec<CanvasPoint>>) -> (result:
        Result<Vec<Vec<Position>>, FillDifferenceError>)
        requires
            self.wf(),
        ensures
            match (
                result,
                self.outlines(camera@, lists_of_points(masks@), masks@.len() as int),
            ) {
                (Ok(polygons), Ok(expected)) => figures(polygons@) == expected,
                (Err(error), Err(expected)) => error == expected,
                _ => false,
            },
    {
        let ghost views = lists_of_points(masks@);
        let mut polygons: Vec<Vec<Position>> = Vec::new();
        assert(figures(polygons@) =~= Seq::<Seq<Position>>::empty());
        let mut i: usize = 0;
        while i < masks.len()
            invariant
                self.wf(),
                i <= masks@.len(),
                views == lists_of_points(masks@),
                self.outlines(camera@, views, i as int) == Ok::<_, FillDifferenceError>(
                    figures(polygons@),
                ),
            decreases masks@.len() - i,
        {
            assert(views[i as int] == point_views(masks@[i as int]@));
            match self.project_polygon(camera, &masks[i]) {
                Ok(polygon) => {
                    let ghost before = polygons@;
                    polygons.push(polygon);
                    assert(figures(polygons@) =~= figures(before).push(polygon@));
                },
                Err(error) => {
                    proof {
                        self.lemma_first_bad_mask_stays(
                            camera@,
                            views,
                            i + 1,
                            masks@.len() as int,
                            error,
                        );
                    }
                    return Err(error);
                },
            }
            i = i + 1;
        }
        Ok(polygons)
    }

    proof fn lemma_first_bad_mask_stays(
        self,
        camera: CameraView,
        masks: Seq<Seq<PointView>>,
        from: int,
        count: int,
        error: FillDifferenceError,
    )
        requires
            0 <= from <= count,
            self.outlines(camera, masks, from) == Err::<Seq<Seq<Position>>, _>(error),
        ensures
            self.outlines(camera, masks, count) == Err::<Seq<Seq<Position>>, _>(error),
        decreases count - from,
    {
        if from < count {
            self.lemma_first_bad_mask_stays(camera, masks, from, count - 1, error);
        }
    }

    fn one_covers(&self, masks: &Vec<Vec<Position>>, polygon: &Vec<Position>) -> (result: bool)
        requires
            self.wf(),
        ensures
            result == self.is_under_one(polygon@, figures(masks@)),
    {
        if polygon.len() == 0 {
            return false;
        }
        let ghost all = figures(masks@);
        let mut i: usize = 0;
        while i < masks.len()
            invariant
                self.wf(),
                polygon@.len() > 0,
                i <= masks@.len(),
                all == figures(masks@),
                forall|k: int| 0 <= k < i ==> !self.lies_under(polygon@, #[trigger] all[k]),
            decreases masks@.len() - i,
        {
            assert(all[i as int] == masks@[i as int]@);
            if self.covers_all_of(&masks[i], polygon) {
                return true;
            }
            i = i + 1;
        }
        false
    }

    /// The triangles of the first `count` masks, or what is wrong with the first
    /// one of them that cannot be cut up.
    pub open spec fn mask_triangles(
        self,
        camera: CameraView,
        masks: Seq<Seq<PointView>>,
        count: int,
    ) -> Result<Seq<Seq<Position>>, FillDifferenceError>
        decreases count,
    {
        if count <= 0 {
            Ok(Seq::empty())
        } else {
            match self.mask_triangles(camera, masks, count - 1) {
                Err(error) => Err(error),
                Ok(before) => match self.outline(camera, masks[count - 1]) {
                    Err(error) => Err(error),
                    Ok(polygon) => match self.cut_up(polygon) {
                        Err(error) => Err(error),
                        Ok(triangles) => Ok(before + triangles),
                    },
                },
            }
        }
    }

    fn triangulate_masks(&self, camera: &CameraAddress, masks: &Vec<Vec<CanvasPoint>>) -> (result:
        Result<Vec<Vec<Position>>, FillDifferenceError>)
        requires
            self.wf(),
        ensures
            match (
                result,
                self.mask_triangles(camera@, lists_of_points(masks@), masks@.len() as int),
            ) {
                (Ok(triangles), Ok(expected)) => figures(triangles@) == expected,
                (Err(error), Err(expected)) => error == expected,
                _ => false,
            },
    {
        let ghost views = lists_of_points(masks@);
        let mut result: Vec<Vec<Position>> = Vec::new();
        assert(figures(result@) =~= Seq::<Seq<Position>>::empty());
        let mut i: usize = 0;
        while i < masks.len()
            invariant
                self.wf(),
                i <= masks@.len(),
                views == lists_of_points(masks@),
                self.mask_triangles(camera@, views, i as int) == Ok::<_, FillDifferenceError>(
                    figures(result@),
                ),
            decreases masks@.len() - i,
        {
            assert(views[i as int] == point_views(masks@[i as int]@));
            let failure: Option<FillDifferenceError> = match self.project_polygon(
                camera,
                &masks[i],
            ) {
                Err(error) => Some(error),
                Ok(polygon) => match self.triangulate_fill_polygon(&polygon) {
                    Err(error) => Some(error),
                    Ok(mut triangles) => {
                        let ghost before = result@;
                        let ghost added = triangles@;
                        result.append(&mut triangles);
                        assert(figures(result@) =~= figures(before) + figures(added));
                        None
                    },
                },
            };
            if let Some(error) = failure {
                proof {
                    self.lemma_first_uncut_mask_stays(
                        camera@,
                        views,
                        i + 1,
                        masks@.len() as int,
                        error,
                    );
                }
                return Err(error);
            }
            i = i + 1;
        }
        Ok(result)
    }

    proof fn lemma_first_uncut_mask_stays(
        self,
        camera: CameraView,
        masks: Seq<Seq<PointView>>,
        from: int,
        count: int,
        error: FillDifferenceError,
    )
        requires
            0 <= from <= count,
            self.mask_triangles(camera, masks, from) == Err::<Seq<Seq<Position>>, _>(error),
        ensures
            self.mask_triangles(camera, masks, count) == Err::<Seq<Seq<Position>>, _>(error),
        decreases count - from,
    {
        if from < count {
            self.lemma_first_uncut_mask_stays(camera, masks, from, count - 1, error);
        }
    }

    /// Whether one of the triangles has something in common with one of those of
    /// the masks.
    pub open spec fn overlap(
        self,
        triangles: Seq<Seq<Position>>,
        masks: Seq<Seq<Position>>,
    ) -> bool {
        exists|i: int, k: int|
            0 <= i < triangles.len() && 0 <= k < masks.len() && self.plane.has_inside(
                self.plane.within_convex(#[trigger] triangles[i], #[trigger] masks[k]),
            )
    }

    fn some_overlap(&self, triangles: &Vec<Vec<Position>>, masks: &Vec<Vec<Position>>) -> (result:
        bool)
        requires
            self.wf(),
        ensures
            result == self.overlap(figures(triangles@), figures(masks@)),
    {
        let ghost parts = figures(triangles@);
        let ghost covers = figures(masks@);
        let mut i: usize = 0;
        while i < triangles.len()
            invariant
                self.wf(),
                i <= triangles@.len(),
                parts == figures(triangles@),
                covers == figures(masks@),
                forall|a: int, b: int|
                    0 <= a < i && 0 <= b < covers.len() ==> !self.plane.has_inside(
                        self.plane.within_convex(#[trigger] parts[a], #[trigger] covers[b]),
                    ),
            decreases triangles@.len() - i,
        {
            let mut k: usize = 0;
            while k < masks.len()
                invariant
                    self.wf(),
                    i < triangles@.len(),
                    k <= masks@.len(),
                    parts == figures(triangles@),
                    covers == figures(masks@),
                    forall|b: int|
                        0 <= b < k ==> !self.plane.has_inside(
                            self.plane.within_convex(parts[i as int], #[trigger] covers[b]),
                        ),
                decreases masks@.len() - k,
            {
                assert(parts[i as int] == triangles@[i as int]@);
                assert(covers[k as int] == masks@[k as int]@);
                let common: Vec<Position> = self.plane.clip_polygon_to_convex_pos_polygon(
                    &triangles[i],
                    &masks[k],
                );
                if self.plane.fill_polygon_is_nondegenerate(&common) {
                    return true;
                }
                k = k + 1;
            }
            i = i + 1;
        }
        false
    }

    /// What a mask leaves of the first `count` pieces.
    pub open spec fn left_by(
        self,
        pieces: Seq<Seq<Position>>,
        mask: Seq<Position>,
        count: int,
    ) -> Seq<Seq<Position>>
        decreases count,
    {
        if count <= 0 {
            Seq::empty()
        } else {
            self.left_by(pieces, mask, count - 1) + self.plane.without_convex(
                pieces[count - 1],
                mask,
            )
        }
    }

    /// What the first `count` masks leave of the pieces, one after another; none
    /// where that is at some time more pieces than allowed.
    pub open spec fn left_by_all(
        self,
        pieces: Seq<Seq<Position>>,
        masks: Seq<Seq<Position>>,
        limit: int,
        count: int,
    ) -> Option<Seq<Seq<Position>>>
        decreases count,
    {
        if count <= 0 {
            Some(pieces)
        } else {
            match self.left_by_all(pieces, masks, limit, count - 1) {
                None => None,
                Some(before) => {
                    let next = self.left_by(before, masks[count - 1], before.len() as int);
                    if next.len() > limit {
                        None
                    } else {
                        Some(next)
                    }
                },
            }
        }
    }

    proof fn lemma_more_pieces_are_left(
        self,
        pieces: Seq<Seq<Position>>,
        mask: Seq<Position>,
        from: int,
        count: int,
    )
        requires
            0 <= from <= count,
        ensures
            self.left_by(pieces, mask, from).len() <= self.left_by(pieces, mask, count).len(),
        decreases count - from,
    {
        if from < count {
            self.lemma_more_pieces_are_left(pieces, mask, from, count - 1);
        }
    }

    fn take_off(&self, pieces: &Vec<Vec<Position>>, mask: &Vec<Position>, limit: usize) -> (result:
        Option<Vec<Vec<Position>>>)
        requires
            self.wf(),
        ensures
            ({
                let left = self.left_by(figures(pieces@), mask@, pieces@.len() as int);
                match result {
                    Some(result) => figures(result@) == left && left.len() <= limit,
                    None => left.len() > limit,
                }
            }),
    {
        let ghost parts = figures(pieces@);
        let mut result: Vec<Vec<Position>> = Vec::new();
        assert(figures(result@) =~= Seq::<Seq<Position>>::empty());
        let mut i: usize = 0;
        while i < pieces.len()
            invariant
                self.wf(),
                i <= pieces@.len(),
                parts == figures(pieces@),
                result@.len() <= limit,
                figures(result@) == self.left_by(parts, mask@, i as int),
            decreases pieces@.len() - i,
        {
            let ghost before = result@;
            assert(parts[i as int] == pieces@[i as int]@);
            let mut left: Vec<Vec<Position>> = self.plane.subtract_convex_pos_polygon(
                &pieces[i],
                mask,
            );
            let ghost added = left@;
            result.append(&mut left);
            assert(figures(result@) =~= figures(before) + figures(added));
            if result.len() > limit {
                proof {
                    self.lemma_more_pieces_are_left(parts, mask@, i + 1, pieces@.len() as int);
                }
                return None;
            }
            i = i + 1;
        }
        Some(result)
    }

    proof fn lemma_too_many_stay_too_many(
        self,
        pieces: Seq<Seq<Position>>,
        masks: Seq<Seq<Position>>,
        limit: int,
        from: int,
        count: int,
    )
        requires
            0 <= from <= count,
            self.left_by_all(pieces, masks, limit, from) is None,
        ensures
            self.left_by_all(pieces, masks, limit, count) is None,
        decreases count - from,
    {
        if from < count {
            self.lemma_too_many_stay_too_many(pieces, masks, limit, from, count - 1);
        }
    }

    fn take_off_all(
        &self,
        pieces: Vec<Vec<Position>>,
        masks: &Vec<Vec<Position>>,
        limit: usize,
    ) -> (result: Option<Vec<Vec<Position>>>)
        requires
            self.wf(),
        ensures
            match (
                result,
                self.left_by_all(
                    figures(pieces@),
                    figures(masks@),
                    limit as int,
                    masks@.len() as int,
                ),
            ) {
                (Some(result), Some(expected)) => figures(result@) == expected,
                (None, None) => true,
                _ => false,
            },
    {
        let ghost parts = figures(pieces@);
        let ghost covers = figures(masks@);
        let mut result: Vec<Vec<Position>> = pieces;
        let mut i: usize = 0;
        while i < masks.len()
            invariant
                self.wf(),
                i <= masks@.len(),
                parts == figures(pieces@),
                covers == figures(masks@),
                self.left_by_all(parts, covers, limit as int, i as int) == Some(figures(result@)),
            decreases masks@.len() - i,
        {
            assert(covers[i as int] == masks@[i as int]@);
            assert(figures(result@).len() == result@.len());
            match self.take_off(&result, &masks[i], limit) {
                Some(next) => {
                    result = next;
                },
                None => {
                    proof {
                        self.lemma_too_many_stay_too_many(
                            parts,
                            covers,
                            limit as int,
                            i + 1,
                            masks@.len() as int,
                        );
                    }
                    return None;
                },
            }
            i = i + 1;
        }
        Some(result)
    }

    /// The points of a piece: where its corners are, and the first one again.
    pub open spec fn closed_piece(self, camera: CameraView, piece: Seq<Position>) -> Seq<
        PointView,
    > {
        let corners = piece.map_values(|position: Position| self.point_at(camera, position));
        if corners.len() > 0 {
            corners.push(corners[0])
        } else {
            corners
        }
    }

    fn place_piece(&self, camera: &CameraAddress, piece: &Vec<Position>) -> (points: Vec<
        CanvasPoint,
    >)
        requires
            self.wf(),
        ensures
            point_views(points@) == self.closed_piece(camera@, piece@),
            are_at_depth(point_views(points@), camera.depth as int),
    {
        let ghost corners = piece@.map_values(
            |position: Position| self.point_at(camera@, position),
        );
        let mut points: Vec<CanvasPoint> = Vec::new();
        let mut i: usize = 0;
        assert(point_views(points@) =~= corners.take(0));
        while i < piece.len()
            invariant
                self.wf(),
                i <= piece@.len(),
                corners == piece@.map_values(
                    |position: Position| self.point_at(camera@, position),
                ),
                points@.len() == i,
                point_views(points@) == corners.take(i as int),
                are_at_depth(point_views(points@), camera.depth as int),
            decreases piece@.len() - i,
        {
            let ghost before = points@;
            let point: CanvasPoint = self.take_place(camera, piece[i]);
            points.push(point);
            assert(point_views(points@) =~= point_views(before).push(point@));
            assert(corners.take(i + 1) =~= corners.take(i as int).push(corners[i as int]));
            i = i + 1;
        }
        assert(corners.take(i as int) =~= corners);
        if points.len() > 0 {
            let ghost before = points@;
            let first: CanvasPoint = points[0].clone();
            points.push(first);
            assert(point_views(before)[0] == before[0]@);
            assert(point_views(points@) =~= point_views(before).push(first@));
        }
        points
    }

    /// What masks leave of a polygon, as a camera sees both.
    pub open spec fn difference(
        self,
        source: Seq<PointView>,
        masks: Seq<Seq<PointView>>,
        camera: CameraView,
        limit: usize,
    ) -> Result<Seq<Seq<PointView>>, FillDifferenceError> {
        let depth = source[0].depth as i64;
        let levels = (camera.depth - depth) as i32;
        if source.len() == 0 {
            Err(FillDifferenceError::EmptySource)
        } else if limit == 0 {
            Err(FillDifferenceError::NoFragments)
        } else if !spans_representable_levels(camera.depth, source[0].depth)
            || !is_positive_double(self.zoom_at(camera.zoom, levels)) {
            Err(FillDifferenceError::DepthSpan)
        } else {
            match self.outline(camera, source) {
                Err(error) => Err(error),
                Ok(polygon) => match self.cut_up(polygon) {
                    Err(_) => self.uncut_difference(source, masks, camera, polygon),
                    Ok(triangles) => self.cut_difference(
                        source,
                        masks,
                        camera,
                        limit,
                        triangles,
                    ),
                },
            }
        }
    }

    /// What masks leave of a polygon that cannot be cut up: nothing where one of
    /// them covers it, and all of it otherwise.
    pub open spec fn uncut_difference(
        self,
        source: Seq<PointView>,
        masks: Seq<Seq<PointView>>,
        camera: CameraView,
        polygon: Seq<Position>,
    ) -> Result<Seq<Seq<PointView>>, FillDifferenceError> {
        match self.outlines(camera, masks, masks.len() as int) {
            Err(error) => Err(error),
            Ok(outlines) => if self.is_under_one(polygon, outlines) {
                Ok(Seq::empty())
            } else {
                Ok(seq![source])
            },
        }
    }

    /// What masks leave of a polygon that is cut up.
    pub open spec fn cut_difference(
        self,
        source: Seq<PointView>,
        masks: Seq<Seq<PointView>>,
        camera: CameraView,
        limit: usize,
        triangles: Seq<Seq<Position>>,
    ) -> Result<Seq<Seq<PointView>>, FillDifferenceError> {
        if triangles.len() > limit {
            Err(FillDifferenceError::TooManyFragments(limit))
        } else {
            match self.mask_triangles(camera, masks, masks.len() as int) {
                Err(error) => Err(error),
                Ok(covers) => if !self.overlap(triangles, covers) {
                    Ok(seq![source])
                } else {
                    match self.left_by_all(
                        triangles,
                        covers,
                        limit as int,
                        covers.len() as int,
                    ) {
                        None => Err(FillDifferenceError::TooManyFragments(limit)),
                        Some(pieces) => Ok(
                            pieces.map_values(
                                |piece: Seq<Position>|
                                    self.closed_piece(
                                        self.camera_in(camera, source[0].depth as i64),
                                        piece,
                                    ),
                            ),
                        ),
                    }
                },
            }
        }
    }

    fn unchanged(&self, source: &Vec<CanvasPoint>) -> (result: Vec<Vec<CanvasPoint>>)
        ensures
            result@.len() == 1,
            lists_of_points(result@) == seq![point_views(source@)],
    {
        let mut result: Vec<Vec<CanvasPoint>> = Vec::new();
        result.push(clone_points(source));
        assert(lists_of_points(result@) =~= seq![point_views(source@)]);
        result
    }

    fn place_pieces(&self, camera: &CameraAddress, depth: i64, pieces: &Vec<Vec<Position>>) -> (
    result: Vec<Vec<CanvasPoint>>)
        requires
            self.wf(),
            spans_representable_levels(camera.depth as int, depth as int),
        ensures
            lists_of_points(result@) == figures(pieces@).map_values(
                |piece: Seq<Position>|
                    self.closed_piece(self.camera_in(camera@, depth), piece),
            ),
            forall|k: int|
                0 <= k < result@.len() ==> are_at_depth(
                    #[trigger] lists_of_points(result@)[k],
                    depth as int,
                ),
    {
        let ghost expected = figures(pieces@).map_values(
            |piece: Seq<Position>|
                    self.closed_piece(self.camera_in(camera@, depth), piece),
        );
        let output: CameraAddress = self.camera_at_depth(camera, depth);
        let mut result: Vec<Vec<CanvasPoint>> = Vec::new();
        let mut i: usize = 0;
        assert(lists_of_points(result@) =~= expected.take(0));
        while i < pieces.len()
            invariant
                self.wf(),
                output@ == self.camera_in(camera@, depth),
                i <= pieces@.len(),
                expected == figures(pieces@).map_values(
                    |piece: Seq<Position>|
                    self.closed_piece(self.camera_in(camera@, depth), piece),
                ),
                lists_of_points(result@) == expected.take(i as int),
                forall|k: int|
                    0 <= k < result@.len() ==> are_at_depth(
                        #[trigger] lists_of_points(result@)[k],
                        depth as int,
                    ),
            decreases pieces@.len() - i,
        {
            let ghost before = result@;
            let points: Vec<CanvasPoint> = self.place_piece(&output, &pieces[i]);
            result.push(points);
            assert(lists_of_points(result@) =~= lists_of_points(before).push(
                point_views(points@),
            ));
            assert(expected.take(i + 1) =~= expected.take(i as int).push(expected[i as int]));
            i = i + 1;
        }
        assert(expected.take(i as int) =~= expected);
        result
    }

    fn subtract_from_uncut(
        &self,
        source: &Vec<CanvasPoint>,
        masks: &Vec<Vec<CanvasPoint>>,
        camera: &CameraAddress,
        polygon: &Vec<Position>,
    ) -> (result: Result<Vec<Vec<CanvasPoint>>, FillDifferenceError>)
        requires
            self.wf(),
        ensures
            is_result(
                result,
                self.uncut_difference(
                    point_views(source@),
                    lists_of_points(masks@),
                    camera@,
                    polygon@,
                ),
            ),
            pieces_keep_depth(result, point_views(source@)),
    {
        assert(lists_of_points(masks@).len() == masks@.len());
        match self.project_masks(camera, masks) {
            Err(error) => Err(error),
            Ok(outlines) => {
                if self.one_covers(&outlines, polygon) {
                    let nothing: Vec<Vec<CanvasPoint>> = Vec::new();
                    assert(lists_of_points(nothing@) =~= Seq::<Seq<PointView>>::empty());
                    Ok(nothing)
                } else {
                    Ok(self.unchanged(source))
                }
            },
        }
    }

    fn subtract_from_cut(
        &self,
        source: &Vec<CanvasPoint>,
        masks: &Vec<Vec<CanvasPoint>>,
        camera: &CameraAddress,
        limit: usize,
        triangles: Vec<Vec<Position>>,
    ) -> (result: Result<Vec<Vec<CanvasPoint>>, FillDifferenceError>)
        requires
            self.wf(),
            source@.len() > 0,
            spans_representable_levels(camera.depth as int, source@[0].depth as int),
        ensures
            is_result(
                result,
                self.cut_difference(
                    point_views(source@),
                    lists_of_points(masks@),
                    camera@,
                    limit,
                    figures(triangles@),
                ),
            ),
            pieces_keep_depth(result, point_views(source@)),
    {
        assert(lists_of_points(masks@).len() == masks@.len());
        assert(figures(triangles@).len() == triangles@.len());
        assert(point_views(source@)[0] == source@[0]@);
        if triangles.len() > limit {
            return Err(FillDifferenceError::TooManyFragments(limit));
        }
        match self.triangulate_masks(camera, masks) {
            Err(error) => Err(error),
            Ok(covers) => {
                assert(figures(covers@).len() == covers@.len());
                if !self.some_overlap(&triangles, &covers) {
                    return Ok(self.unchanged(source));
                }
                match self.take_off_all(triangles, &covers, limit) {
                    None => Err(FillDifferenceError::TooManyFragments(limit)),
                    Some(pieces) => Ok(self.place_pieces(camera, source[0].depth, &pieces)),
                }
            },
        }
    }

    proof fn lemma_few_pieces_are_left(
        self,
        pieces: Seq<Seq<Position>>,
        masks: Seq<Seq<Position>>,
        limit: int,
        count: int,
    )
        requires
            pieces.len() <= limit,
        ensures
            self.left_by_all(pieces, masks, limit, count) matches Some(left) ==> left.len() <= limit,
        decreases count,
    {
        if count > 0 {
            self.lemma_few_pieces_are_left(pieces, masks, limit, count - 1);
        }
    }

    /// Masks leave no more pieces than allowed, and each piece either is the
    /// polygon as it was or ends where it starts.
    pub proof fn law_pieces_are_few_and_closed(
        self,
        source: Seq<PointView>,
        masks: Seq<Seq<PointView>>,
        camera: CameraView,
        limit: usize,
    )
        ensures
            self.difference(source, masks, camera, limit) matches Ok(pieces) ==> {
                &&& pieces.len() <= limit
                &&& forall|i: int|
                    0 <= i < pieces.len() && pieces[i] != source && (#[trigger] pieces[i]).len() > 0
                        ==> pieces[i].first() == pieces[i].last()
            },
    {
        if let Ok(pieces) = self.difference(source, masks, camera, limit) {
            if let Ok(polygon) = self.outline(camera, source) {
                if let Ok(triangles) = self.cut_up(polygon) {
                    if let Ok(covers) = self.mask_triangles(camera, masks, masks.len() as int) {
                        if triangles.len() <= limit {
                            self.lemma_few_pieces_are_left(
                                triangles,
                                covers,
                                limit as int,
                                covers.len() as int,
                            );
                        }
                    }
                }
            }
        }
    }

    /// Masks that cover nothing of a polygon leave it as it is.
    pub proof fn law_masks_beside_it_leave_the_polygon(
        self,
        source: Seq<PointView>,
        masks: Seq<Seq<PointView>>,
        camera: CameraView,
        limit: usize,
    )
        requires
            ({
                let polygon = self.outline(camera, source);
                &&& self.difference(source, masks, camera, limit) is Ok
                &&& polygon is Ok
                &&& self.cut_up(polygon->Ok_0) is Ok
                &&& self.mask_triangles(camera, masks, masks.len() as int) is Ok
                &&& !self.overlap(
                    self.cut_up(polygon->Ok_0)->Ok_0,
                    self.mask_triangles(camera, masks, masks.len() as int)->Ok_0,
                )
            }),
        ensures
            self.difference(source, masks, camera, limit)->Ok_0 == seq![source],
    {
    }

    proof fn lemma_projected(self, camera: CameraView, points: Seq<PointView>, count: int)
        requires
            0 <= count <= points.len(),
        ensures
            match self.projected(camera, points, count) {
                Ok(positions) => positions.len() == count && forall|i: int|
                    0 <= i < count ==> self.shown(camera, #[trigger] points[i]) == Some(
                        positions[i],
                    ) && is_somewhere(positions[i]),
                Err(error) => exists|i: int|
                    0 <= i < count && match self.shown(camera, #[trigger] points[i]) {
                        None => error == FillDifferenceError::PointNotRepresentable,
                        Some(position) => !is_somewhere(position) && error
                            == FillDifferenceError::PointNotFinite,
                    },
            },
        decreases count,
    {
        if count > 0 {
            self.lemma_projected(camera, points, count - 1);
            let last = points[count - 1];
            assert(self.shown(camera, last) == self.shown(camera, points[count - 1]));
        }
    }

    /// Points are shown one by one: where there is a list of positions, the i-th
    /// is where the i-th point is, and all of them are finite; else there is a
    /// point that is nowhere, as the error says.
    pub proof fn law_points_are_shown_in_order(self, camera: CameraView, points: Seq<PointView>)
        ensures
            match self.projected(camera, points, points.len() as int) {
                Ok(positions) => positions.len() == points.len() && forall|i: int|
                    0 <= i < points.len() ==> self.shown(camera, #[trigger] points[i]) == Some(
                        positions[i],
                    ) && is_somewhere(positions[i]),
                Err(error) => exists|i: int|
                    0 <= i < points.len() && match self.shown(camera, #[trigger] points[i]) {
                        None => error == FillDifferenceError::PointNotRepresentable,
                        Some(position) => !is_somewhere(position) && error
                            == FillDifferenceError::PointNotFinite,
                    },
            },
    {
        self.lemma_projected(camera, points, points.len() as int);
    }

    proof fn lemma_solid(self, triangles: Seq<Seq<Position>>, count: int)
        requires
            0 <= count <= triangles.len(),
        ensures
            ({
                let all = self.solid(triangles, count);
                &&& forall|i: int|
                    0 <= i < count && less_than(
                        MIN_FILL_GEOMETRY_AREA_TWICE,
                        magnitude(self.plane.area_of(#[trigger] triangles[i])),
                    ) ==> all.contains(triangles[i])
                &&& forall|k: int|
                    0 <= k < all.len() ==> triangles.contains(#[trigger] all[k]) && less_than(
                        MIN_FILL_GEOMETRY_AREA_TWICE,
                        magnitude(self.plane.area_of(all[k])),
                    )
            }),
        decreases count,
    {
        if count > 0 {
            self.lemma_solid(triangles, count - 1);
            let all = self.solid(triangles, count);
            let before = self.solid(triangles, count - 1);
            let last = triangles[count - 1];
            assert(triangles.contains(last));
            assert forall|i: int|
                0 <= i < count && less_than(
                    MIN_FILL_GEOMETRY_AREA_TWICE,
                    magnitude(self.plane.area_of(#[trigger] triangles[i])),
                ) implies all.contains(triangles[i]) by {
                if i < count - 1 {
                    assert(all[before.index_of(triangles[i])] == triangles[i]);
                } else {
                    assert(all[all.len() - 1] == triangles[i]);
                }
            }
            assert forall|k: int| 0 <= k < all.len() implies triangles.contains(#[trigger] all[k])
                && less_than(
                MIN_FILL_GEOMETRY_AREA_TWICE,
                magnitude(self.plane.area_of(all[k])),
            ) by {
                if k < before.len() {
                    assert(all[k] == before[k]);
                }
            }
        }
    }

    /// A polygon is cut up into all of its triangles that have an area, and no
    /// other figures.
    pub proof fn law_only_flat_triangles_are_dropped(
        self,
        polygon: Seq<Position>,
        triangle: Seq<Position>,
    )
        requires
            self.cut_up(polygon) is Ok,
        ensures
            self.cut_up(polygon)->Ok_0.contains(triangle) <==> self.plane.triangles(
                self.plane.normalized(polygon),
            ).contains(triangle) && less_than(
                MIN_FILL_GEOMETRY_AREA_TWICE,
                magnitude(self.plane.area_of(triangle)),
            ),
            self.plane.has_inside(polygon),
    {
        let all = self.plane.triangles(self.plane.normalized(polygon));
        self.lemma_solid(all, all.len() as int);
    }

    proof fn lemma_outlines(self, camera: CameraView, masks: Seq<Seq<PointView>>, count: int)
        requires
            0 <= count <= masks.len(),
        ensures
            match self.outlines(camera, masks, count) {
                Ok(list) => list.len() == count && forall|i: int|
                    0 <= i < count ==> self.outline(camera, #[trigger] masks[i]) == Ok::<
                        Seq<Position>,
                        FillDifferenceError,
                    >(list[i]),
                Err(error) => exists|i: int|
                    0 <= i < count && self.outline(camera, #[trigger] masks[i]) == Err::<
                        Seq<Position>,
                        FillDifferenceError,
                    >(error),
            },
        decreases count,
    {
        if count > 0 {
            self.lemma_outlines(camera, masks, count - 1);
            let last = masks[count - 1];
            assert(self.outline(camera, last) == self.outline(camera, masks[count - 1]));
        }
    }

    proof fn lemma_mask_triangles(
        self,
        camera: CameraView,
        masks: Seq<Seq<PointView>>,
        count: int,
    )
        requires
            0 <= count <= masks.len(),
            self.mask_triangles(camera, masks, count) is Ok,
        ensures
            ({
                let all = self.mask_triangles(camera, masks, count)->Ok_0;
                &&& forall|i: int|
                    0 <= i < count ==> self.outline(camera, #[trigger] masks[i]) is Ok
                        && self.cut_up(self.outline(camera, masks[i])->Ok_0) is Ok
                &&& forall|i: int, triangle: Seq<Position>|
                    0 <= i < count && #[trigger] self.cut_up(
                        self.outline(camera, masks[i])->Ok_0,
                    )->Ok_0.contains(triangle) ==> all.contains(triangle)
                &&& forall|k: int|
                    0 <= k < all.len() ==> exists|i: int|
                        0 <= i < count && self.cut_up(
                            self.outline(camera, #[trigger] masks[i])->Ok_0,
                        )->Ok_0.contains(#[trigger] all[k])
            }),
        decreases count,
    {
        if count > 0 {
            self.lemma_mask_triangles(camera, masks, count - 1);
            let before = self.mask_triangles(camera, masks, count - 1)->Ok_0;
            let own = self.cut_up(self.outline(camera, masks[count - 1])->Ok_0)->Ok_0;
            let all = self.mask_triangles(camera, masks, count)->Ok_0;
            assert(all == before + own);
            assert forall|i: int, triangle: Seq<Position>|
                0 <= i < count && #[trigger] self.cut_up(
                    self.outline(camera, masks[i])->Ok_0,
                )->Ok_0.contains(triangle) implies all.contains(triangle) by {
                if i < count - 1 {
                    assert(all[before.index_of(triangle)] == triangle);
                } else {
                    assert(all[before.len() + own.index_of(triangle)] == triangle);
                }
            }
            assert forall|k: int| 0 <= k < all.len() implies exists|i: int|
                0 <= i < count && self.cut_up(
                    self.outline(camera, #[trigger] masks[i])->Ok_0,
                )->Ok_0.contains(#[trigger] all[k]) by {
                if k < before.len() {
                    assert(all[k] == before[k]);
                    let i = choose|i: int|
                        0 <= i < count - 1 && self.cut_up(
                            self.outline(camera, #[trigger] masks[i])->Ok_0,
                        )->Ok_0.contains(before[k]);
                    assert(self.cut_up(self.outline(camera, masks[i])->Ok_0)->Ok_0.contains(
                        all[k],
                    ));
                } else {
                    assert(own[k - before.len()] == all[k]);
                    assert(self.cut_up(
                        self.outline(camera, masks[count - 1])->Ok_0,
                    )->Ok_0.contains(all[k]));
                }
            }
        }
    }

    /// Every mask counts: what is taken off are the triangles of all masks, and no
    /// others, and a mask that cannot be cut up is an error.
    pub proof fn law_every_mask_is_taken_off(
        self,
        camera: CameraView,
        masks: Seq<Seq<PointView>>,
        triangle: Seq<Position>,
    )
        requires
            self.mask_triangles(camera, masks, masks.len() as int) is Ok,
        ensures
            self.mask_triangles(camera, masks, masks.len() as int)->Ok_0.contains(triangle)
                <==> exists|i: int|
                0 <= i < masks.len() && self.cut_up(
                    self.outline(camera, #[trigger] masks[i])->Ok_0,
                )->Ok_0.contains(triangle),
            forall|i: int|
                0 <= i < masks.len() ==> self.outline(camera, #[trigger] masks[i]) is Ok
                    && self.cut_up(self.outline(camera, masks[i])->Ok_0) is Ok,
    {
        self.lemma_mask_triangles(camera, masks, masks.len() as int);
        let all = self.mask_triangles(camera, masks, masks.len() as int)->Ok_0;
        if all.contains(triangle) {
            let k = all.index_of(triangle);
            assert(all[k] == triangle);
        }
    }

    proof fn lemma_left_by(
        self,
        pieces: Seq<Seq<Position>>,
        mask: Seq<Position>,
        count: int,
        part: Seq<Position>,
    )
        requires
            0 <= count <= pieces.len(),
        ensures
            self.left_by(pieces, mask, count).contains(part) <==> exists|i: int|
                0 <= i < count && self.plane.without_convex(
                    #[trigger] pieces[i],
                    mask,
                ).contains(part),
        decreases count,
    {
        if count > 0 {
            self.lemma_left_by(pieces, mask, count - 1, part);
            let before = self.left_by(pieces, mask, count - 1);
            let own = self.plane.without_convex(pieces[count - 1], mask);
            let all = self.left_by(pieces, mask, count);
            assert(all == before + own);
            if all.contains(part) {
                let k = all.index_of(part);
                if k < before.len() {
                    assert(before[k] == part);
                    assert(before.contains(part));
                    let i = choose|i: int|
                        0 <= i < count - 1 && self.plane.without_convex(
                            #[trigger] pieces[i],
                            mask,
                        ).contains(part);
                    assert(self.plane.without_convex(pieces[i], mask).contains(part));
                } else {
                    assert(own[k - before.len()] == part);
                    assert(self.plane.without_convex(pieces[count - 1], mask).contains(part));
                }
            }
            if exists|i: int|
                0 <= i < count && self.plane.without_convex(
                    #[trigger] pieces[i],
                    mask,
                ).contains(part) {
                let i = choose|i: int|
                    0 <= i < count && self.plane.without_convex(
                        #[trigger] pieces[i],
                        mask,
                    ).contains(part);
                if i < count - 1 {
                    assert(before.contains(part));
                    assert(all[before.index_of(part)] == part);
                } else {
                    assert(all[before.len() + own.index_of(part)] == part);
                }
            }
        }
    }

    /// A mask is taken off every piece: what it leaves of the pieces is what it
    /// leaves of each of them, and nothing else.
    pub proof fn law_a_mask_is_taken_off_every_piece(
        self,
        pieces: Seq<Seq<Position>>,
        mask: Seq<Position>,
        part: Seq<Position>,
    )
        ensures
            self.left_by(pieces, mask, pieces.len() as int).contains(part) <==> exists|i: int|
                0 <= i < pieces.len() && self.plane.without_convex(
                    #[trigger] pieces[i],
                    mask,
                ).contains(part),
    {
        self.lemma_left_by(pieces, mask, pieces.len() as int, part);
    }

    /// Masks are taken off one after the other: with no more masks the pieces are
    /// left as they are, and the last mask is taken off what all masks before it
    /// leave. Where that are too many pieces, there are none.
    pub proof fn law_masks_are_taken_off_one_after_the_other(
        self,
        pieces: Seq<Seq<Position>>,
        masks: Seq<Seq<Position>>,
        limit: int,
        last: Seq<Position>,
    )
        ensures
            self.left_by_all(pieces, Seq::empty(), limit, 0) == Some(pieces),
            ({
                let all = masks.push(last);
                let before = self.left_by_all(pieces, masks, limit, masks.len() as int);
                let after = self.left_by_all(pieces, all, limit, all.len() as int);
                &&& before is None ==> after is None
                &&& before is Some ==> {
                    let left = self.left_by(before->0, last, (before->0).len() as int);
                    after == if left.len() > limit {
                        None
                    } else {
                        Some(left)
                    }
                }
            }),
    {
        let all = masks.push(last);
        self.lemma_other_masks(pieces, masks, all, limit, masks.len() as int);
    }

    proof fn lemma_other_masks(
        self,
        pieces: Seq<Seq<Position>>,
        masks: Seq<Seq<Position>>,
        others: Seq<Seq<Position>>,
        limit: int,
        count: int,
    )
        requires
            0 <= count <= masks.len(),
            count <= others.len(),
            forall|i: int| 0 <= i < count ==> #[trigger] masks[i] == others[i],
        ensures
            self.left_by_all(pieces, masks, limit, count) == self.left_by_all(
                pieces,
                others,
                limit,
                count,
            ),
        decreases count,
    {
        if count > 0 {
            self.lemma_other_masks(pieces, masks, others, limit, count - 1);
            assert(masks[count - 1] == others[count - 1]);
        }
    }

    /// A polygon that cannot be cut up vanishes if and only if one of the masks
    /// covers it altogether: all of its corners and all of the lines between
    /// them. Else it is left as it is.
    pub proof fn law_uncut_polygons_vanish_only_under_one_mask(
        self,
        source: Seq<PointView>,
        masks: Seq<Seq<PointView>>,
        camera: CameraView,
        polygon: Seq<Position>,
        outlines: Seq<Seq<Position>>,
    )
        requires
            polygon.len() > 0,
            self.outlines(camera, masks, masks.len() as int) == Ok::<
                Seq<Seq<Position>>,
                FillDifferenceError,
            >(outlines),
        ensures
            outlines.len() == masks.len(),
            forall|i: int|
                0 <= i < masks.len() ==> self.outline(camera, #[trigger] masks[i]) == Ok::<
                    Seq<Position>,
                    FillDifferenceError,
                >(outlines[i]),
            ({
                let covered = exists|i: int|
                    0 <= i < outlines.len() && (forall|k: int|
                        0 <= k < polygon.len() ==> self.plane.inside.has(
                            #[trigger] polygon[k],
                            #[trigger] outlines[i],
                        )) && (forall|k: int|
                        0 <= k < edges(polygon).len() ==> self.hides.hidden(
                            (#[trigger] edges(polygon)[k]).0,
                            edges(polygon)[k].1,
                            outlines[i],
                        ));
                self.uncut_difference(source, masks, camera, polygon) == Ok::<
                    Seq<Seq<PointView>>,
                    FillDifferenceError,
                >(
                    if covered {
                        Seq::empty()
                    } else {
                        seq![source]
                    },
                )
            }),
    {
        self.lemma_outlines(camera, masks, masks.len() as int);
        assert forall|i: int| 0 <= i < outlines.len() implies self.lies_under(
            polygon,
            #[trigger] outlines[i],
        ) == ((forall|k: int|
            0 <= k < polygon.len() ==> self.plane.inside.has(
                #[trigger] polygon[k],
                outlines[i],
            )) && (forall|k: int|
            0 <= k < edges(polygon).len() ==> self.hides.hidden(
                (#[trigger] edges(polygon)[k]).0,
                edges(polygon)[k].1,
                outlines[i],
            ))) by {
            if self.lies_under(polygon, outlines[i]) {
                assert forall|k: int| 0 <= k < polygon.len() implies self.plane.inside.has(
                    #[trigger] polygon[k],
                    outlines[i],
                ) by {
                    assert(self.plane.is_in(polygon[k], outlines[i]));
                }
                assert forall|k: int| 0 <= k < edges(polygon).len() implies self.hides.hidden(
                    (#[trigger] edges(polygon)[k]).0,
                    edges(polygon)[k].1,
                    outlines[i],
                ) by {
                    assert(self.hidden(edges(polygon)[k].0, edges(polygon)[k].1, outlines[i]));
                }
            }
        }
    }

    /// Pieces are placed corner by corner and closed by their first corner.
    pub proof fn law_pieces_are_placed_and_closed(self, camera: CameraView, piece: Seq<Position>)
        requires
            piece.len() > 0,
        ensures
            self.closed_piece(camera, piece).len() == piece.len() + 1,
            forall|i: int|
                0 <= i < piece.len() ==> #[trigger] self.closed_piece(camera, piece)[i]
                    == self.point_at(camera, piece[i]),
            self.closed_piece(camera, piece).last() == self.point_at(camera, piece[0]),
    {
    }

    /// Masks that have no area in common with any triangle of a polygon leave it
    /// as it is; else it is cut, whichever of the triangles and masks it is that
    /// overlap.
    pub proof fn law_any_overlap_cuts(
        self,
        source: Seq<PointView>,
        masks: Seq<Seq<PointView>>,
        camera: CameraView,
        limit: usize,
        triangles: Seq<Seq<Position>>,
        i: int,
        k: int,
    )
        requires
            self.cut_difference(source, masks, camera, limit, triangles) is Ok,
            self.mask_triangles(camera, masks, masks.len() as int) is Ok,
            0 <= i < triangles.len(),
            0 <= k < self.mask_triangles(camera, masks, masks.len() as int)->Ok_0.len(),
            self.plane.has_inside(
                self.plane.within_convex(
                    triangles[i],
                    self.mask_triangles(camera, masks, masks.len() as int)->Ok_0[k],
                ),
            ),
        ensures
            ({
                let covers = self.mask_triangles(camera, masks, masks.len() as int)->Ok_0;
                let left = self.left_by_all(
                    triangles,
                    covers,
                    limit as int,
                    covers.len() as int,
                );
                let placed = self.cut_difference(source, masks, camera, limit, triangles)->Ok_0;
                &&& left is Some
                &&& placed.len() == (left->0).len()
                &&& forall|p: int|
                    0 <= p < placed.len() ==> #[trigger] placed[p] == self.closed_piece(
                        self.camera_in(camera, source[0].depth as i64),
                        (left->0)[p],
                    )
            }),
    {
        let covers = self.mask_triangles(camera, masks, masks.len() as int)->Ok_0;
        assert(self.overlap(triangles, covers)) by {
            assert(self.plane.has_inside(self.plane.within_convex(triangles[i], covers[k])));
        }
    }

    /// What masks leave of a polygon, as a camera sees both: pieces, at most so
    /// many of them, or the polygon as it is where they do not touch it.
    pub fn subtract_fill_polygon_at_camera_with_limit(
        &self,
        source: &Vec<CanvasPoint>,
        masks: &Vec<Vec<CanvasPoint>>,
        projection_camera: &CameraAddress,
        max_fragments: usize,
    ) -> (result: Result<Vec<Vec<CanvasPoint>>, FillDifferenceError>)
        requires
            self.wf(),
        ensures
            is_result(
                result,
                self.difference(
                    point_views(source@),
                    lists_of_points(masks@),
                    projection_camera@,
                    max_fragments,
                ),
            ),
            pieces_keep_depth(result, point_views(source@)),
    {
        assert(point_views(source@).len() == source@.len());
        if source.len() == 0 {
            return Err(FillDifferenceError::EmptySource);
        }
        assert(point_views(source@)[0] == source@[0]@);
        if max_fragments == 0 {
            return Err(FillDifferenceError::NoFragments);
        }
        let span: i128 = projection_camera.depth as i128 - source[0].depth as i128;
        if span < i32::MIN as i128 || span > i32::MAX as i128 {
            return Err(FillDifferenceError::DepthSpan);
        }
        if !positive_double(self.shallower_zoom(projection_camera.zoom, span as i32)) {
            return Err(FillDifferenceError::DepthSpan);
        }
        match self.project_polygon(projection_camera, source) {
            Err(error) => Err(error),
            Ok(polygon) => match self.triangulate_fill_polygon(&polygon) {
                Err(_) => self.subtract_from_uncut(source, masks, projection_camera, &polygon),
                Ok(triangles) => self.subtract_from_cut(
                    source,
                    masks,
                    projection_camera,
                    max_fragments,
                    triangles,
                ),
            },
        }
    }

    /// What masks leave of a polygon, as a camera sees both.
    pub fn subtract_fill_polygon_at_camera(
        &self,
        source: &Vec<CanvasPoint>,
        masks: &Vec<Vec<CanvasPoint>>,
        projection_camera: &CameraAddress,
    ) -> (result: Result<Vec<Vec<CanvasPoint>>, FillDifferenceError>)
        requires
            self.wf(),
        ensures
            is_result(
                result,
                self.difference(
                    point_views(source@),
                    lists_of_points(masks@),
                    projection_camera@,
                    MAX_FILL_DIFFERENCE_FRAGMENTS,
                ),
            ),
            pieces_keep_depth(result, point_views(source@)),
    {
        self.subtract_fill_polygon_at_camera_with_limit(
            source,
            masks,
            projection_camera,
            MAX_FILL_DIFFERENCE_FRAGMENTS,
        )
    }

    /// What masks leave of a polygon, seen from its first point.
    pub fn subtract_fill_polygon_with_limit(
        &self,
        source: &Vec<CanvasPoint>,
        masks: &Vec<Vec<CanvasPoint>>,
        max_fragments: usize,
    ) -> (result: Result<Vec<Vec<CanvasPoint>>, FillDifferenceError>)
        requires
            self.wf(),
        ensures
            is_result(
                result,
                self.difference(
                    point_views(source@),
                    lists_of_points(masks@),
                    camera_at(point_views(source@)[0]),
                    max_fragments,
                ),
            ),
            pieces_keep_depth(result, point_views(source@)),
    {
        assert(point_views(source@).len() == source@.len());
        if source.len() == 0 {
            return Err(FillDifferenceError::EmptySource);
        }
        assert(point_views(source@)[0] == source@[0]@);
        let anchor: &CanvasPoint = &source[0];
        let camera = CameraAddress {
            depth: anchor.depth,
            tile_x: anchor.tile_x.clone(),
            tile_y: anchor.tile_y.clone(),
            local_x: anchor.local_x,
            local_y: anchor.local_y,
            zoom: ONE_DOUBLE,
        };
        self.subtract_fill_polygon_at_camera_with_limit(source, masks, &camera, max_fragments)
    }

    /// What masks leave of a polygon, seen from its first point.
    pub fn subtract_fill_polygon(
        &self,
        source: &Vec<CanvasPoint>,
        masks: &Vec<Vec<CanvasPoint>>,
    ) -> (result: Result<Vec<Vec<CanvasPoint>>, FillDifferenceError>)
        requires
            self.wf(),
        ensures
            is_result(
                result,
                self.difference(
                    point_views(source@),
                    lists_of_points(masks@),
                    camera_at(point_views(source@)[0]),
                    MAX_FILL_DIFFERENCE_FRAGMENTS,
                ),
            ),
            pieces_keep_depth(result, point_views(source@)),
    {
        self.subtract_fill_polygon_with_limit(source, masks, MAX_FILL_DIFFERENCE_FRAGMENTS)
    }
}

/// A camera that looks at a point as closely as it was drawn.
pub open spec fn camera_at(point: PointView) -> CameraView {
    CameraView {
        depth: point.depth,
        tile_x: point.tile_x,
        tile_y: point.tile_y,
        local_x: point.local_x,
        local_y: point.local_y,
        zoom: ONE_DOUBLE,
    }
}

/// Whether all points are at the depth.
pub open spec fn are_at_depth(points: Seq<PointView>, depth: int) -> bool {
    forall|k: int| 0 <= k < points.len() ==> (#[trigger] points[k]).depth == depth
}

/// Whether every piece is the polygon as it was, or lies at the depth of the
/// polygon's first point.
pub open spec fn pieces_keep_depth(
    result: Result<Vec<Vec<CanvasPoint>>, FillDifferenceError>,
    source: Seq<PointView>,
) -> bool {
    result matches Ok(lists) ==> forall|k: int|
        0 <= k < lists@.len() ==> {
            let piece = #[trigger] lists_of_points(lists@)[k];
            piece == source || are_at_depth(piece, source[0].depth)
        }
}

/// Whether lists of points, or an error, are what is expected.
pub open spec fn is_result(
    result: Result<Vec<Vec<CanvasPoint>>, FillDifferenceError>,
    expected: Result<Seq<Seq<PointView>>, FillDifferenceError>,
) -> bool {
    match (result, expected) {
        (Ok(lists), Ok(expected)) => lists_of_points(lists@) == expected,
        (Err(error), Err(expected)) => error == expected,
        _ => false,
    }
}

} // verus!
