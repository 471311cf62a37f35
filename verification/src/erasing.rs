//! Carrying out an erasing: where its masks are, and what they leave of a
//! stroke one after the other.

use crate::eraser::Asked;
use crate::masks::{outlines, EraserPath};
use crate::model::{
    clone_points, point_views, same_operation, CanvasPoint, EditOperation, PointView,
};
use crate::plane::Plane;
use crate::regions::PolygonTest;
use crate::screen::Position;
use vstd::prelude::*;

verus! {

/// Where masks are on the screen, as far as arithmetic tells.
pub struct MaskView<P, W> {
    /// Where a point is on the screen; none where that is not representable.
    pub project: P,
    /// How wide an operation is on the screen.
    pub width: W,
}

/// Why a lasso erases nothing.
#[derive(Debug, Clone, Copy, PartialEq, Eq, Structural)]
pub enum LassoError {
    NotRepresentable,
    Degenerate,
}

impl LassoError {
    /// What the user is told.
    pub fn message(self) -> (message: &'static str)
        ensures
            message@ == match self {
                LassoError::NotRepresentable =>
                    "eraser lasso is not representable at the current camera"@,
                LassoError::Degenerate =>
                    "eraser lasso produced a degenerate polygon after Area selection clipping"@,
            },
    {
        match self {
            LassoError::NotRepresentable =>
                "eraser lasso is not representable at the current camera",
            LassoError::Degenerate =>
                "eraser lasso produced a degenerate polygon after Area selection clipping",
        }
    }
}

impl<P: Fn(&CanvasPoint) -> Option<Position>, W: Fn(&EditOperation) -> u32> MaskView<P, W> {
    /// `answer` may be where `point` is on the screen.
    pub open spec fn projects(self, point: PointView, answer: Option<Position>) -> bool {
        exists|at: CanvasPoint|
            at@ == point && #[trigger] call_ensures(self.project, (&at,), answer)
    }

    /// Everything can be asked, and a point is in one place.
    pub open spec fn wf(self) -> bool {
        &&& forall|at: CanvasPoint| #[trigger] call_requires(self.project, (&at,))
        &&& forall|operation: EditOperation| #[trigger] call_requires(self.width, (&operation,))
        &&& forall|point: PointView, one: Option<Position>, other: Option<Position>| #[trigger]
            self.projects(point, one) && #[trigger] self.projects(point, other) ==> one == other
    }

    /// Where a point is on the screen.
    pub open spec fn shown(self, point: PointView) -> Option<Position> {
        choose|answer: Option<Position>| self.projects(point, answer)
    }

    /// Whether all points are on the screen.
    pub open spec fn all_shown(self, points: Seq<PointView>) -> bool {
        forall|i: int| 0 <= i < points.len() ==> self.shown(#[trigger] points[i]) is Some
    }

    /// The positions of points.
    pub open spec fn positions(self, points: Seq<PointView>) -> Seq<Position> {
        points.map_values(|point: PointView| self.shown(point).unwrap())
    }

    /// The positions of points; none where one of them has none.
    pub fn project_all(&self, points: &Vec<CanvasPoint>) -> (result: Option<Vec<Position>>)
        requires
            self.wf(),
        ensures
            result is Some == self.all_shown(point_views(points@)),
            result matches Some(positions) ==> positions@ == self.positions(point_views(points@)),
    {
        let ghost views = point_views(points@);
        let mut positions: Vec<Position> = Vec::new();
        let mut i: usize = 0;
        while i < points.len()
            invariant
                self.wf(),
                views == point_views(points@),
                i <= points@.len() == views.len(),
                positions@ == self.positions(views.take(i as int)),
                self.all_shown(views.take(i as int)),
            decreases points@.len() - i,
        {
            let answer: Option<Position> = (self.project)(&points[i]);
            assert(self.projects(views[i as int], answer));
            match answer {
                Some(position) => {
                    positions.push(position);
                },
                None => {
                    assert(self.shown(views[i as int]) is None);
                    return None;
                },
            }
            assert(views.take(i + 1) =~= views.take(i as int).push(views[i as int]));
            assert(positions@ =~= self.positions(views.take(i + 1)));
            assert forall|k: int| 0 <= k < i + 1 implies self.shown(
                #[trigger] views.take(i + 1)[k],
            ) is Some by {
                if k < i {
                    assert(views.take(i + 1)[k] == views.take(i as int)[k]);
                }
            }
            i = i + 1;
        }
        assert(views.take(i as int) =~= views);
        Some(positions)
    }

    /// Whether the path is that of a mask.
    pub open spec fn is_path(self, mask: EditOperation, path: EraserPath) -> bool {
        &&& self.all_shown(point_views(mask.points@))
        &&& path.points@ == self.positions(point_views(mask.points@))
        &&& call_ensures(self.width, (&mask,), path.width)
    }

    /// The paths of an eraser on the screen, with their widths; an error where a
    /// point is not on the screen.
    pub fn eraser_paths(&self, masks: &Vec<EditOperation>) -> (result: Result<
        Vec<EraserPath>,
        &'static str,
    >)
        requires
            self.wf(),
        ensures
            match result {
                Ok(paths) => {
                    &&& paths@.len() == masks@.len()
                    &&& forall|i: int|
                        0 <= i < masks@.len() ==> self.is_path(#[trigger] masks@[i], paths@[i])
                },
                Err(error) => {
                    &&& exists|i: int|
                        0 <= i < masks@.len() && !self.all_shown(
                            point_views((#[trigger] masks@[i]).points@),
                        )
                    &&& error@ == "eraser mask is not representable at the current camera"@
                },
            },
    {
        let mut paths: Vec<EraserPath> = Vec::new();
        let mut i: usize = 0;
        while i < masks.len()
            invariant
                self.wf(),
                i <= masks@.len(),
                paths@.len() == i,
                forall|k: int| 0 <= k < i ==> self.is_path(#[trigger] masks@[k], paths@[k]),
            decreases masks@.len() - i,
        {
            match self.project_all(&masks[i].points) {
                Some(points) => {
                    let width: u32 = (self.width)(&masks[i]);
                    paths.push(EraserPath { points, width });
                },
                None => {
                    assert(!self.all_shown(point_views(masks@[i as int].points@)));
                    return Err("eraser mask is not representable at the current camera");
                },
            }
            i = i + 1;
        }
        Ok(paths)
    }

    /// The polygon of a lasso on the screen, or why there is none.
    pub open spec fn lasso<
        A: Fn(&Vec<Position>) -> u32,
        C: Fn(Position, Position, Position) -> u32,
        L: Fn(Position, Position, Position) -> bool,
        X: Fn(Position, Position, Position, Position) -> Option<Position>,
        I: PolygonTest,
    >(self, plane: Plane<A, C, L, X, I>, points: Seq<PointView>) -> Result<
        Seq<Position>,
        LassoError,
    > {
        if !self.all_shown(points) {
            Err(LassoError::NotRepresentable)
        } else if plane.normalized(self.positions(points)).len() < 3 {
            Err(LassoError::Degenerate)
        } else {
            Ok(plane.normalized(self.positions(points)))
        }
    }

    /// The polygons of the lassos of an eraser on the screen; the first that has
    /// none decides why.
    pub fn eraser_polygons<
        A: Fn(&Vec<Position>) -> u32,
        C: Fn(Position, Position, Position) -> u32,
        L: Fn(Position, Position, Position) -> bool,
        X: Fn(Position, Position, Position, Position) -> Option<Position>,
        I: PolygonTest,
    >(&self, plane: &Plane<A, C, L, X, I>, masks: &Vec<EditOperation>) -> (result: Result<
        Vec<Vec<Position>>,
        LassoError,
    >)
        requires
            self.wf(),
            plane.wf(),
        ensures
            match result {
                Ok(polygons) => {
                    &&& polygons@.len() == masks@.len()
                    &&& forall|i: int|
                        0 <= i < masks@.len() ==> self.lasso(
                            *plane,
                            point_views((#[trigger] masks@[i]).points@),
                        ) == Ok::<Seq<Position>, LassoError>(polygons@[i]@)
                },
                Err(error) => exists|i: int|
                    {
                        &&& 0 <= i < masks@.len()
                        &&& self.lasso(*plane, point_views((#[trigger] masks@[i]).points@)) == Err::<
                            Seq<Position>,
                            LassoError,
                        >(error)
                        &&& forall|k: int|
                            0 <= k < i ==> self.lasso(
                                *plane,
                                point_views((#[trigger] masks@[k]).points@),
                            ) is Ok
                    },
            },
    {
        let mut polygons: Vec<Vec<Position>> = Vec::new();
        let mut i: usize = 0;
        while i < masks.len()
            invariant
                self.wf(),
                plane.wf(),
                i <= masks@.len(),
                polygons@.len() == i,
                forall|k: int|
                    0 <= k < i ==> self.lasso(*plane, point_views((#[trigger] masks@[k]).points@))
                        == Ok::<Seq<Position>, LassoError>(polygons@[k]@),
            decreases masks@.len() - i,
        {
            match self.project_all(&masks[i].points) {
                Some(points) => {
                    let polygon: Vec<Position> = plane.normalized_pos_polygon(&points);
                    if polygon.len() < 3 {
                        assert(self.lasso(*plane, point_views(masks@[i as int].points@)) is Err);
                        return Err(LassoError::Degenerate);
                    }
                    polygons.push(polygon);
                },
                None => {
                    assert(self.lasso(*plane, point_views(masks@[i as int].points@)) is Err);
                    return Err(LassoError::NotRepresentable);
                },
            }
            i = i + 1;
        }
        Ok(polygons)
    }
}

/// Whether the operation is the source with these points.
pub open spec fn is_run(
    source: EditOperation,
    points: Seq<PointView>,
    run: EditOperation,
) -> bool {
    &&& point_views(run.points@) == points
    &&& same_operation(source, EditOperation { points: source.points, ..run })
}

/// What a mask leaves of a stroke.
pub trait RunCut<T> {
    /// Whether it can be asked.
    spec fn is_ready(&self) -> bool;

    /// `left` may be what the mask leaves of the stroke; none where that is not
    /// representable.
    spec fn may_cut(
        &self,
        run: EditOperation,
        mask: T,
        left: Option<Vec<Vec<CanvasPoint>>>,
    ) -> bool;

    fn cut_run(&self, run: &EditOperation, mask: &T) -> (left: Option<Vec<Vec<CanvasPoint>>>)
        requires
            self.is_ready(),
        ensures
            self.may_cut(*run, *mask, left),
    ;
}

impl<T, F: Fn(&EditOperation, &T) -> Option<Vec<Vec<CanvasPoint>>>> RunCut<T> for Asked<F> {
    open spec fn is_ready(&self) -> bool {
        forall|run: EditOperation, by: T| #[trigger] call_requires(self.ask, (&run, &by))
    }

    open spec fn may_cut(
        &self,
        run: EditOperation,
        mask: T,
        left: Option<Vec<Vec<CanvasPoint>>>,
    ) -> bool {
        call_ensures(self.ask, (&run, &mask), left)
    }

    fn cut_run(&self, run: &EditOperation, mask: &T) -> (left: Option<Vec<Vec<CanvasPoint>>>) {
        (self.ask)(run, mask)
    }
}

/// `answer` may be what a mask leaves of the part of the source with these
/// points.
pub open spec fn may_leave<T, C: RunCut<T>>(
    source: EditOperation,
    points: Seq<PointView>,
    mask: T,
    cut: C,
    answer: Option<Seq<Seq<PointView>>>,
) -> bool {
    exists|run: EditOperation, left: Option<Vec<Vec<CanvasPoint>>>|
        {
            &&& is_run(source, points, run)
            &&& #[trigger] cut.may_cut(run, mask, left)
            &&& answer == match left {
                Some(pieces) => Some(outlines(pieces@)),
                None => None,
            }
        }
}

/// Lists one after the other.
pub open spec fn joined_lists(lists: Seq<Seq<Seq<PointView>>>) -> Seq<Seq<PointView>>
    decreases lists.len(),
{
    if lists.len() == 0 {
        Seq::empty()
    } else {
        joined_lists(lists.drop_last()) + lists.last()
    }
}

/// Lists that are put together are all of them, one after the other.
pub proof fn law_no_list_is_left_out(lists: Seq<Seq<Seq<PointView>>>, at: int, k: int)
    requires
        0 <= at < lists.len(),
        0 <= k < lists[at].len(),
    ensures
        ({
            let first = joined_lists(lists.take(at)).len() as int;
            let all = joined_lists(lists);
            &&& first + lists[at].len() <= all.len()
            &&& all[first + k] == lists[at][k]
            &&& joined_lists(lists.take(at + 1)).len() == first + lists[at].len()
        }),
    decreases lists.len(),
{
    let rest = lists.drop_last();
    assert(lists.take(at + 1).drop_last() =~= lists.take(at));
    assert(lists.take(at + 1).last() == lists[at]);
    if at < lists.len() - 1 {
        law_no_list_is_left_out(rest, at, k);
        assert(rest.take(at) =~= lists.take(at));
        assert(rest[at] == lists[at]);
    } else {
        assert(rest =~= lists.take(at));
    }
}

/// Each of `left` may be what a mask leaves of that part of the source.
pub open spec fn may_leave_each<T, C: RunCut<T>>(
    source: EditOperation,
    parts: Seq<Seq<PointView>>,
    mask: T,
    cut: C,
    left: Seq<Seq<Seq<PointView>>>,
) -> bool {
    &&& left.len() == parts.len()
    &&& forall|i: int|
        0 <= i < parts.len() ==> may_leave(source, #[trigger] parts[i], mask, cut, Some(left[i]))
}

/// `left` may be what a mask leaves of parts of the source, one after the other.
pub open spec fn may_leave_all<T, C: RunCut<T>>(
    source: EditOperation,
    parts: Seq<Seq<PointView>>,
    mask: T,
    cut: C,
    left: Seq<Seq<PointView>>,
) -> bool {
    exists|lists: Seq<Seq<Seq<PointView>>>| #[trigger]
        may_leave_each(source, parts, mask, cut, lists) && left == joined_lists(lists)
}

/// The stages may be what is left of the source before the first mask and after
/// each of the first `count`, each of which is laid on what is left by then.
pub open spec fn may_be_stages<T, C: RunCut<T>>(
    source: EditOperation,
    masks: Seq<T>,
    count: int,
    cut: C,
    stages: Seq<Seq<Seq<PointView>>>,
) -> bool {
    &&& stages.len() == count + 1
    &&& stages[0] == seq![point_views(source.points@)]
    &&& forall|i: int|
        0 <= i < count ==> may_leave_all(
            source,
            stages[i],
            #[trigger] masks[i],
            cut,
            stages[i + 1],
        )
}

/// `left` may be what the first `count` masks leave of the source, each of what
/// those before it left.
pub open spec fn may_leave_by_each<T, C: RunCut<T>>(
    source: EditOperation,
    masks: Seq<T>,
    count: int,
    cut: C,
    left: Seq<Seq<PointView>>,
) -> bool {
    exists|stages: Seq<Seq<Seq<PointView>>>| #[trigger]
        may_be_stages(source, masks, count, cut, stages) && left == stages.last()
}

/// Whether the mask may leave something that cannot be told of a part of what
/// the masks before it left.
pub open spec fn may_stop_at<T, C: RunCut<T>>(
    source: EditOperation,
    masks: Seq<T>,
    at: int,
    cut: C,
) -> bool {
    exists|before: Seq<Seq<PointView>>, part: int|
        {
            &&& may_leave_by_each(source, masks, at, cut, before)
            &&& 0 <= part < before.len()
            &&& may_leave(source, #[trigger] before[part], masks[at], cut, None)
        }
}

fn run_of(source: &EditOperation, points: Vec<CanvasPoint>) -> (run: EditOperation)
    ensures
        is_run(*source, point_views(points@), run),
{
    let mut run = source.clone();
    let ghost copy = run;
    run.points = points;
    assert(EditOperation { points: source.points, ..run } == EditOperation {
        points: source.points,
        ..copy
    });
    assert(same_operation(*source, EditOperation { points: source.points, ..copy }));
    run
}

/// What one mask leaves of parts of a stroke, all together; none where that is
/// not representable for one of them.
fn cut_parts<T, C: RunCut<T>>(
    source: &EditOperation,
    parts: Vec<Vec<CanvasPoint>>,
    mask: &T,
    cut: &C,
) -> (result: Option<Vec<Vec<CanvasPoint>>>)
    requires
        cut.is_ready(),
    ensures
        match result {
            Some(left) => may_leave_all(*source, outlines(parts@), *mask, *cut, outlines(left@)),
            None => exists|part: int|
                0 <= part < parts@.len() && may_leave(
                    *source,
                    #[trigger] outlines(parts@)[part],
                    *mask,
                    *cut,
                    None,
                ),
        },
{
    let ghost views = outlines(parts@);
    let ghost mut lists: Seq<Seq<Seq<PointView>>> = Seq::empty();
    let mut left: Vec<Vec<CanvasPoint>> = Vec::new();
    let mut i: usize = 0;
    assert(outlines(left@) =~= joined_lists(lists));
    while i < parts.len()
        invariant
            cut.is_ready(),
            views == outlines(parts@),
            i <= parts@.len() == views.len(),
            lists.len() == i,
            forall|k: int|
                0 <= k < i ==> may_leave(
                    *source,
                    #[trigger] views[k],
                    *mask,
                    *cut,
                    Some(lists[k]),
                ),
            outlines(left@) == joined_lists(lists),
        decreases parts@.len() - i,
    {
        assert(views[i as int] == point_views(parts@[i as int]@));
        let run: EditOperation = run_of(source, clone_points(&parts[i]));
        let answer: Option<Vec<Vec<CanvasPoint>>> = cut.cut_run(&run, mask);
        assert(cut.may_cut(run, *mask, answer));
        match answer {
            Some(pieces) => {
                let ghost added = outlines(pieces@);
                assert(may_leave(*source, views[i as int], *mask, *cut, Some(added)));
                append_all(&mut left, pieces);
                proof {
                    assert(lists.push(added).drop_last() =~= lists);
                    lists = lists.push(added);
                }
            },
            None => {
                assert(may_leave(*source, views[i as int], *mask, *cut, None));
                return None;
            },
        }
        i = i + 1;
    }
    assert(may_leave_each(*source, views, *mask, *cut, lists));
    Some(left)
}

fn append_all(list: &mut Vec<Vec<CanvasPoint>>, mut added: Vec<Vec<CanvasPoint>>)
    ensures
        outlines(final(list)@) == outlines(old(list)@) + outlines(added@),
{
    let ghost before = list@;
    list.append(&mut added);
    assert(outlines(list@) =~= outlines(before) + outlines(list@.skip(before.len() as int)));
}

/// Every mask cuts every part that the masks before it leave: what so many masks
/// leave is, put together, what the last of them leaves of each part that the
/// others left. No mask leaves the stroke as it is.
pub proof fn law_every_mask_cuts_every_part<T, C: RunCut<T>>(
    source: EditOperation,
    masks: Seq<T>,
    count: int,
    cut: C,
    left: Seq<Seq<PointView>>,
)
    requires
        0 <= count <= masks.len(),
        may_leave_by_each(source, masks, count, cut, left),
    ensures
        count == 0 ==> left == seq![point_views(source.points@)],
        count > 0 ==> exists|before: Seq<Seq<PointView>>, lists: Seq<Seq<Seq<PointView>>>|
            {
                &&& #[trigger] may_leave_by_each(source, masks, count - 1, cut, before)
                &&& lists.len() == before.len()
                &&& forall|i: int|
                    0 <= i < before.len() ==> may_leave(
                        source,
                        #[trigger] before[i],
                        masks[count - 1],
                        cut,
                        Some(lists[i]),
                    )
                &&& left == #[trigger] joined_lists(lists)
            },
{
    let stages = choose|stages: Seq<Seq<Seq<PointView>>>| #[trigger]
        may_be_stages(source, masks, count, cut, stages) && left == stages.last();
    if count > 0 {
        let before = stages[count - 1];
        let earlier = stages.drop_last();
        assert forall|i: int| 0 <= i < count - 1 implies may_leave_all(
            source,
            earlier[i],
            #[trigger] masks[i],
            cut,
            earlier[i + 1],
        ) by {
            assert(earlier[i] == stages[i] && earlier[i + 1] == stages[i + 1]);
        }
        assert(may_be_stages(source, masks, count - 1, cut, earlier));
        assert(earlier.last() == before);
        assert(may_leave_by_each(source, masks, count - 1, cut, before));
        assert(may_leave_all(source, stages[count - 1], masks[count - 1], cut, stages[count]));
        let lists = choose|lists: Seq<Seq<Seq<PointView>>>| #[trigger]
            may_leave_each(source, before, masks[count - 1], cut, lists) && left == joined_lists(
                lists,
            );
        assert(left == joined_lists(lists));
    }
}

/// Without masks a stroke stays whole, and of a stroke that is erased masks leave
/// nothing.
pub proof fn law_what_is_erased_stays_erased<
    T,
    C: RunCut<T>,
>(source: EditOperation, masks: Seq<T>, at: int, cut: C, stages: Seq<Seq<Seq<PointView>>>)
    requires
        may_be_stages(source, masks, masks.len() as int, cut, stages),
        0 <= at <= masks.len(),
    ensures
        masks.len() == 0 ==> stages.last() == seq![point_views(source.points@)],
        stages[at].len() == 0 ==> stages.last().len() == 0,
    decreases masks.len() - at,
{
    if stages[at].len() == 0 && at < masks.len() {
        assert(may_leave_all(source, stages[at], masks[at], cut, stages[at + 1]));
        let lists = choose|lists: Seq<Seq<Seq<PointView>>>| #[trigger]
            may_leave_each(source, stages[at], masks[at], cut, lists) && stages[at + 1]
                == joined_lists(lists);
        assert(lists.len() == 0);
        law_what_is_erased_stays_erased(source, masks, at + 1, cut, stages);
    }
}

/// What masks leave of a stroke, each of what those before it left; an error
/// where that is not representable.
pub fn cut_by_each<T, C: RunCut<T>>(
    source: &EditOperation,
    masks: &Vec<T>,
    cut: &C,
) -> (result: Result<Vec<Vec<CanvasPoint>>, &'static str>)
    requires
        cut.is_ready(),
    ensures
        match result {
            Ok(left) => may_leave_by_each(
                *source,
                masks@,
                masks@.len() as int,
                *cut,
                outlines(left@),
            ),
            Err(error) => {
                &&& exists|at: int|
                    0 <= at < masks@.len() && #[trigger] may_stop_at(*source, masks@, at, *cut)
                &&& error@ == "paint subtraction is not representable at the current camera"@
            },
        },
{
    let mut runs: Vec<Vec<CanvasPoint>> = Vec::new();
    runs.push(clone_points(&source.points));
    assert(outlines(runs@) =~= seq![point_views(source.points@)]);
    let ghost mut stages: Seq<Seq<Seq<PointView>>> = seq![outlines(runs@)];
    let mut i: usize = 0;
    while i < masks.len()
        invariant
            cut.is_ready(),
            i <= masks@.len(),
            may_be_stages(*source, masks@, i as int, *cut, stages),
            stages.last() == outlines(runs@),
        decreases masks@.len() - i,
    {
        let ghost before = outlines(runs@);
        match cut_parts(source, runs, &masks[i], cut) {
            Some(next) => {
                runs = next;
                proof {
                    stages = stages.push(outlines(runs@));
                }
            },
            None => {
                assert(may_leave_by_each(*source, masks@, i as int, *cut, before));
                assert(may_stop_at(*source, masks@, i as int, *cut));
                return Err("paint subtraction is not representable at the current camera");
            },
        }
        i = i + 1;
    }
    Ok(runs)
}

/// A part of a source that is cut further has its own points, and in all else it
/// is the source.
pub proof fn law_parts_differ_by_their_points(
    source: EditOperation,
    points: Seq<PointView>,
    run: EditOperation,
)
    requires
        is_run(source, points, run),
    ensures
        run.points@.len() == points.len(),
        forall|i: int| 0 <= i < points.len() ==> (#[trigger] run.points@[i])@ == points[i],
        run.kind == source.kind,
        run.color == source.color,
        run.width_px == source.width_px,
        run.smooth_area == source.smooth_area,
        run.order() == source.order(),
        run.object() == source.object(),
        run.native_depth == source.native_depth,
        run.native_zoom == source.native_zoom,
{
    assert(point_views(run.points@).len() == points.len());
    assert forall|i: int| 0 <= i < points.len() implies (#[trigger] run.points@[i])@
        == points[i] by {
        assert(point_views(run.points@)[i] == run.points@[i]@);
    }
}

} // verus!
