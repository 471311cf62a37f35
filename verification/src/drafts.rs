//! Drafts: operations that are still being drawn.

use crate::model::{
    clone_points, is_same_point, point_views, same_operations, CanvasPoint, Color, EditKind, EditOperation,
    PointView,
};
use crate::screen::{less_than, number_less_than};
use uuid::Uuid;
use vstd::prelude::*;

verus! {

/// The bit pattern of the largest gap, in points of the screen, that a stroke
/// bridges in one step.
pub const MAX_BRUSH_INTERPOLATION_GAP_PX: u32 = 0x4100_0000;

/// The bit pattern of the largest gap that the outline of a fill bridges.
pub const MAX_FILL_INTERPOLATION_GAP_PX: u32 = 0x4080_0000;

/// How long a draft goes unsaved, in milliseconds.
pub const DRAFT_SAVE_INTERVAL_MS: u64 = 500;

/// The outline with its first point repeated at the end, where it has three
/// points or more and is not closed yet.
pub open spec fn closed_outline(points: Seq<PointView>) -> Seq<PointView> {
    if points.len() >= 3 && !is_same_point(points.first(), points.last()) {
        points.push(points.first())
    } else {
        points
    }
}

/// The points with which a draft is committed: a single dot of paint becomes a
/// stroke of two equal points, an outline is closed.
pub open spec fn committed_points(kind: EditKind, points: Seq<PointView>) -> Seq<PointView> {
    if kind == EditKind::Paint && points.len() == 1 {
        points.push(points.first())
    } else if kind == EditKind::Fill || kind == EditKind::EraseArea {
        closed_outline(points)
    } else {
        points
    }
}

/// Completes a draft before it is committed.
pub fn prepare_draft_for_commit(draft: &mut EditOperation)
    ensures
        point_views(final(draft).points@) == committed_points(
            old(draft).kind,
            point_views(old(draft).points@),
        ),
        *final(draft) == (EditOperation { points: final(draft).points, ..*old(draft) }),
{
    let ghost before = draft.points@;
    let ghost views = point_views(before);
    let count: usize = draft.points.len();
    if draft.kind == EditKind::Paint && count == 1 {
        let point = draft.points[0].clone();
        draft.points.push(point);
        assert(point_views(draft.points@) =~= views.push(views.first()));
    }
    if (draft.kind == EditKind::Fill || draft.kind == EditKind::EraseArea) && count >= 3 {
        assert(views.first() == before[0]@ && views.last() == before[count - 1]@);
        if draft.points[0] != draft.points[count - 1] {
            let point = draft.points[0].clone();
            draft.points.push(point);
            assert(point_views(draft.points@) =~= views.push(views.first()));
        }
    }
}

/// Whether a draft of so many points is worth committing.
pub open spec fn committable(kind: EditKind, count: int) -> bool {
    if kind == EditKind::Fill || kind == EditKind::EraseArea {
        count >= 4
    } else {
        count >= 2
    }
}

/// Whether the draft is worth committing.
pub fn draft_is_committable(draft: &EditOperation) -> (result: bool)
    ensures
        result == committable(draft.kind, draft.points@.len() as int),
{
    match draft.kind {
        EditKind::Fill | EditKind::EraseArea => draft.points.len() >= 4,
        _ => draft.points.len() >= 2,
    }
}

/// Whether the stroke is to be a straight line.
pub fn straight_line_requested(kind: EditKind, shift_down: bool) -> (requested: bool)
    ensures
        requested == (shift_down && (kind == EditKind::Paint || kind == EditKind::Erase)),
{
    shift_down && (kind == EditKind::Paint || kind == EditKind::Erase)
}

/// Lets the draft end at `endpoint`, with no point between it and the start.
pub fn set_straight_draft_endpoint(draft: &mut EditOperation, endpoint: CanvasPoint)
    ensures
        final(draft).points@ == if old(draft).points@.len() == 0 {
            seq![endpoint]
        } else {
            seq![old(draft).points@[0], endpoint]
        },
        *final(draft) == (EditOperation { points: final(draft).points, ..*old(draft) }),
{
    let ghost before = draft.points@;
    if draft.points.len() <= 1 {
        draft.points.push(endpoint);
    } else {
        draft.points.truncate(2);
        draft.points.set(1, endpoint);
    }
    assert(draft.points@ =~= if before.len() == 0 {
        seq![endpoint]
    } else {
        seq![before[0], endpoint]
    });
}

/// How the pointer's position extends a draft.
#[derive(Debug, Clone, Copy, PartialEq, Eq, Structural)]
pub enum PointAppendDecision {
    Append,
    Skip,
    Interpolate,
}

/// The smallest distance between two points of a draft.
pub fn input_spacing_px(kind: EditKind, fill_spacing: u32, brush_spacing: u32) -> (spacing: u32)
    ensures
        spacing == if kind == EditKind::Fill {
            fill_spacing
        } else {
            brush_spacing
        },
{
    if kind == EditKind::Fill {
        fill_spacing
    } else {
        brush_spacing
    }
}

/// The largest distance that a draft bridges in one step.
pub open spec fn interpolation_gap(kind: EditKind) -> u32 {
    if kind == EditKind::Fill {
        MAX_FILL_INTERPOLATION_GAP_PX
    } else {
        MAX_BRUSH_INTERPOLATION_GAP_PX
    }
}

/// The largest distance that a draft bridges in one step.
pub fn max_interpolation_gap_px(kind: EditKind) -> (gap: u32)
    ensures
        gap == interpolation_gap(kind),
{
    if kind == EditKind::Fill {
        MAX_FILL_INTERPOLATION_GAP_PX
    } else {
        MAX_BRUSH_INTERPOLATION_GAP_PX
    }
}

/// How a position at `distance` from the last point extends a draft: not at
/// all where it is too near, by steps between where it is too far (only
/// outlines of erased areas leave it out), and else directly.
pub fn point_append_decision(
    kind: EditKind,
    distance: u32,
    fill_spacing: u32,
    brush_spacing: u32,
) -> (decision: PointAppendDecision)
    ensures
        decision == if less_than(
            distance,
            if kind == EditKind::Fill {
                fill_spacing
            } else {
                brush_spacing
            },
        ) {
            PointAppendDecision::Skip
        } else if less_than(interpolation_gap(kind), distance) {
            if kind == EditKind::Paint || kind == EditKind::Erase || kind == EditKind::Fill {
                PointAppendDecision::Interpolate
            } else {
                PointAppendDecision::Skip
            }
        } else {
            PointAppendDecision::Append
        },
{
    if number_less_than(distance, input_spacing_px(kind, fill_spacing, brush_spacing)) {
        return PointAppendDecision::Skip;
    }
    if number_less_than(max_interpolation_gap_px(kind), distance) {
        match kind {
            EditKind::Paint | EditKind::Erase | EditKind::Fill => PointAppendDecision::Interpolate,
            EditKind::EraseArea | EditKind::CompactBlock => PointAppendDecision::Skip,
        }
    } else {
        PointAppendDecision::Append
    }
}

/// What to do to a draft for one position of the pointer.
#[derive(Debug, Clone, Copy, PartialEq, Eq, Structural)]
pub enum DraftExtension {
    SetEndpoint,
    Append,
    Interpolate,
    Nothing,
}

/// What to do to a draft for one position of the pointer: a straight line ends
/// there once it is long enough, and other drafts go as decided.
pub fn draft_extension(
    kind: EditKind,
    shift_down: bool,
    long_enough: bool,
    decision: PointAppendDecision,
) -> (extension: DraftExtension)
    ensures
        extension == if shift_down && (kind == EditKind::Paint || kind == EditKind::Erase) {
            if long_enough {
                DraftExtension::SetEndpoint
            } else {
                DraftExtension::Nothing
            }
        } else {
            match decision {
                PointAppendDecision::Append => DraftExtension::Append,
                PointAppendDecision::Skip => DraftExtension::Nothing,
                PointAppendDecision::Interpolate => DraftExtension::Interpolate,
            }
        },
{
    if straight_line_requested(kind, shift_down) {
        return if long_enough {
            DraftExtension::SetEndpoint
        } else {
            DraftExtension::Nothing
        };
    }
    match decision {
        PointAppendDecision::Append => DraftExtension::Append,
        PointAppendDecision::Skip => DraftExtension::Nothing,
        PointAppendDecision::Interpolate => DraftExtension::Interpolate,
    }
}

/// What to do to a draft for the position at which the button was released.
pub fn draft_ending(kind: EditKind, shift_down: bool, endpoint_is_new: bool) -> (extension:
    DraftExtension)
    ensures
        extension == if shift_down && (kind == EditKind::Paint || kind == EditKind::Erase) {
            DraftExtension::SetEndpoint
        } else if endpoint_is_new {
            DraftExtension::Interpolate
        } else {
            DraftExtension::Nothing
        },
{
    if straight_line_requested(kind, shift_down) {
        DraftExtension::SetEndpoint
    } else if endpoint_is_new {
        DraftExtension::Interpolate
    } else {
        DraftExtension::Nothing
    }
}

/// Whether a draft has to be saved again.
pub fn autosave_due(has_draft: bool, elapsed_ms: u64) -> (due: bool)
    ensures
        due == (has_draft && elapsed_ms >= 500),
{
    has_draft && elapsed_ms >= DRAFT_SAVE_INTERVAL_MS
}

/// What a finished draft leads to.
#[derive(Debug)]
pub enum FinishedDraft {
    /// There was no draft.
    Nothing,
    /// The draft is not worth committing.
    Discard(EditOperation),
    /// The draft erases from other operations.
    Erase(EditOperation),
    /// The draft becomes part of the drawing.
    Commit(EditOperation),
}

/// `finished` is `draft`, completed for committing.
pub open spec fn completed(draft: EditOperation, finished: EditOperation) -> bool {
    &&& point_views(finished.points@) == committed_points(draft.kind, point_views(draft.points@))
    &&& finished == (EditOperation { points: finished.points, ..draft })
}

/// What the end of a stroke makes of the draft.
pub fn finish_draft(draft: Option<EditOperation>) -> (finished: FinishedDraft)
    ensures
        match draft {
            None => finished is Nothing,
            Some(draft) => {
                let count = committed_points(draft.kind, point_views(draft.points@)).len();
                if !committable(draft.kind, count as int) {
                    finished matches FinishedDraft::Discard(result) && completed(draft, result)
                } else if draft.kind == EditKind::Erase {
                    finished matches FinishedDraft::Erase(result) && completed(draft, result)
                } else {
                    finished matches FinishedDraft::Commit(result) && completed(draft, result)
                }
            },
        },
{
    match draft {
        None => FinishedDraft::Nothing,
        Some(draft) => {
            let mut draft = draft;
            prepare_draft_for_commit(&mut draft);
            assert(point_views(draft.points@).len() == draft.points@.len());
            if !draft_is_committable(&draft) {
                FinishedDraft::Discard(draft)
            } else if draft.kind == EditKind::Erase {
                FinishedDraft::Erase(draft)
            } else {
                FinishedDraft::Commit(draft)
            }
        },
    }
}

/// How the pieces of a draft enter the drawing.
#[derive(Debug, Clone, Copy, PartialEq, Eq, Structural)]
pub enum CommitPlan {
    /// Nothing is left of the draft.
    Nothing,
    /// The one piece is committed.
    Single { discard_draft: bool },
    /// The pieces are committed together.
    Group,
}

/// How the pieces of the draft `draft_id` enter the drawing. The stored draft
/// is discarded where the drawing gets pieces of other identities.
pub fn commit_plan(draft_id: u128, operations: &Vec<EditOperation>) -> (plan: CommitPlan)
    ensures
        plan == if operations@.len() == 0 {
            CommitPlan::Nothing
        } else if operations@.len() == 1 {
            CommitPlan::Single { discard_draft: operations@[0].id != draft_id }
        } else {
            CommitPlan::Group
        },
{
    if operations.len() == 0 {
        CommitPlan::Nothing
    } else if operations.len() == 1 {
        CommitPlan::Single { discard_draft: operations[0].id != draft_id }
    } else {
        CommitPlan::Group
    }
}

/// What clipping a draft to the selected area gave.
#[derive(Debug)]
pub enum AreaClip {
    /// There is no area, or it cannot be shown: the draft stays as it is.
    Unlimited,
    /// The draft lies within the area.
    Unchanged,
    /// The parts of the draft within the area.
    Pieces(Vec<Vec<CanvasPoint>>),
}

/// What the points of a piece become.
pub open spec fn piece_points(kind: EditKind, points: Seq<PointView>) -> Seq<PointView> {
    if kind == EditKind::Fill || kind == EditKind::EraseArea {
        closed_outline(points)
    } else {
        points
    }
}

/// `piece` is the part of `draft` with the given points and identity, as drawn
/// anew at the camera's depth and zoom.
pub open spec fn is_piece(
    piece: EditOperation,
    draft: EditOperation,
    points: Seq<PointView>,
    id: u128,
    transaction_id: u128,
    depth: i64,
    zoom: u64,
) -> bool {
    &&& piece.id == id
    &&& piece.transaction_id == transaction_id
    &&& piece.sequence == 0
    &&& piece.paint_order.is_none()
    &&& piece.affects_before_sequence.is_none()
    &&& piece.native_depth == depth
    &&& piece.native_zoom == zoom
    &&& point_views(piece.points@) == piece_points(draft.kind, points)
    &&& piece.smooth_area == (draft.smooth_area && draft.kind != EditKind::Fill && draft.kind
        != EditKind::EraseArea)
    &&& piece.kind == draft.kind
    &&& piece.layer_id == draft.layer_id
    &&& piece.color == draft.color
    &&& piece.width_px == draft.width_px
    &&& piece.fill_group_id == draft.fill_group_id
    &&& same_operations(draft.compact_sources@, piece.compact_sources@)
}

/// Whether the piece with these points is worth keeping.
pub open spec fn piece_kept(kind: EditKind, points: Seq<PointView>) -> bool {
    committable(kind, piece_points(kind, points).len() as int)
}

/// The places of the pieces worth keeping among the first `count`.
pub open spec fn kept_pieces(
    kind: EditKind,
    pieces: Seq<Vec<CanvasPoint>>,
    count: int,
) -> Seq<int>
    decreases count,
{
    if count <= 0 {
        seq![]
    } else if piece_kept(kind, point_views(pieces[count - 1]@)) {
        kept_pieces(kind, pieces, count - 1).push(count - 1)
    } else {
        kept_pieces(kind, pieces, count - 1)
    }
}

fn piece_operation(
    draft: &EditOperation,
    points: &Vec<CanvasPoint>,
    id: u128,
    transaction_id: u128,
    depth: i64,
    zoom: u64,
) -> (piece: EditOperation)
    ensures
        is_piece(piece, *draft, point_views(points@), id, transaction_id, depth, zoom),
{
    let mut piece = draft.clone();
    assert(same_operations(draft.compact_sources@, piece.compact_sources@));
    piece.id = id;
    piece.sequence = 0;
    piece.paint_order = None;
    piece.transaction_id = transaction_id;
    piece.native_depth = depth;
    piece.native_zoom = zoom;
    piece.affects_before_sequence = None;
    piece.points = clone_points(points);
    if piece.kind == EditKind::Fill || piece.kind == EditKind::EraseArea {
        piece.smooth_area = false;
        prepare_draft_for_commit(&mut piece);
    }
    piece
}

/// The pieces of `draft`, one for each kept outline, with the identities
/// `ids` gives to the outlines.
pub fn drawn_pieces(
    draft: &EditOperation,
    pieces: &Vec<Vec<CanvasPoint>>,
    ids: &Vec<u128>,
    transaction_id: u128,
    depth: i64,
    zoom: u64,
) -> (operations: Vec<EditOperation>)
    requires
        ids.len() == pieces.len(),
    ensures
        ({
            let kept = kept_pieces(draft.kind, pieces@, pieces.len() as int);
            &&& operations@.len() == kept.len()
            &&& forall|k: int|
                0 <= k < kept.len() ==> is_piece(
                    #[trigger] operations@[k],
                    *draft,
                    point_views(pieces@[kept[k]]@),
                    ids@[kept[k]],
                    transaction_id,
                    depth,
                    zoom,
                )
        }),
{
    let mut operations: Vec<EditOperation> = Vec::new();
    let mut i: usize = 0;
    while i < pieces.len()
        invariant
            i <= pieces.len(),
            ids.len() == pieces.len(),
            operations@.len() == kept_pieces(draft.kind, pieces@, i as int).len(),
            forall|k: int|
                0 <= k < operations@.len() ==> is_piece(
                    #[trigger] operations@[k],
                    *draft,
                    point_views(pieces@[kept_pieces(draft.kind, pieces@, i as int)[k]]@),
                    ids@[kept_pieces(draft.kind, pieces@, i as int)[k]],
                    transaction_id,
                    depth,
                    zoom,
                ),
        decreases pieces.len() - i,
    {
        let piece = piece_operation(draft, &pieces[i], ids[i], transaction_id, depth, zoom);
        assert(point_views(piece.points@).len() == piece.points@.len());
        if draft_is_committable(&piece) {
            operations.push(piece);
        }
        i = i + 1;
    }
    operations
}

/// Whether the identifier, as a number, has the version bits of a random UUID
/// and the variant bits of the standard.
pub open spec fn is_random_id(id: u128) -> bool {
    &&& (id >> 76) & 0xf == 4
    &&& (id >> 62) & 3 == 2
}

/// `Uuid::new_v4` of the uuid crate makes a random UUID; as a number it has the
/// version bits of four and the variant bits of the standard. Which UUID it is
/// rests on chance, and nothing is said of it.
#[verifier::external_body]
pub(crate) fn new_id() -> (id: u128)
    ensures
        is_random_id(id),
{
    Uuid::new_v4().as_u128()
}

/// A new operation with the points, on no layer yet.
pub fn draft(
    kind: EditKind,
    depth: i64,
    zoom: u64,
    points: Vec<CanvasPoint>,
    color: Color,
    width_px: u32,
) -> (operation: EditOperation)
    ensures
        operation == (EditOperation {
            id: operation.id,
            layer_id: 0,
            transaction_id: operation.transaction_id,
            sequence: 0,
            kind,
            points,
            color,
            width_px,
            native_depth: depth,
            native_zoom: zoom,
            smooth_area: false,
            fill_group_id: None,
            paint_order: None,
            affects_before_sequence: None,
            compact_sources: operation.compact_sources,
        }),
        operation.compact_sources@.len() == 0,
        is_random_id(operation.id),
        is_random_id(operation.transaction_id),
{
    EditOperation {
        id: new_id(),
        layer_id: 0,
        transaction_id: new_id(),
        sequence: 0,
        kind,
        points,
        color,
        width_px,
        native_depth: depth,
        native_zoom: zoom,
        smooth_area: false,
        fill_group_id: None,
        paint_order: None,
        affects_before_sequence: None,
        compact_sources: Vec::new(),
    }
}

/// The draft that a press at a point begins on a layer; an outline is smoothed.
pub fn begin_draft(
    kind: EditKind,
    depth: i64,
    zoom: u64,
    point: CanvasPoint,
    color: Color,
    width_px: u32,
    layer_id: u128,
) -> (operation: EditOperation)
    ensures
        operation == (EditOperation {
            id: operation.id,
            layer_id,
            transaction_id: operation.transaction_id,
            sequence: 0,
            kind,
            points: operation.points,
            color,
            width_px,
            native_depth: depth,
            native_zoom: zoom,
            smooth_area: kind == EditKind::Fill,
            fill_group_id: None,
            paint_order: None,
            affects_before_sequence: None,
            compact_sources: operation.compact_sources,
        }),
        operation.points@ == seq![point],
        operation.compact_sources@.len() == 0,
        is_random_id(operation.id),
        is_random_id(operation.transaction_id),
{
    let mut points: Vec<CanvasPoint> = Vec::new();
    points.push(point);
    let mut operation: EditOperation = draft(kind, depth, zoom, points, color, width_px);
    operation.smooth_area = kind == EditKind::Fill;
    operation.layer_id = layer_id;
    operation
}

/// Whether all of the identifiers are random ones.
pub open spec fn are_random_ids(ids: Seq<u128>) -> bool {
    forall|k: int| 0 <= k < ids.len() ==> is_random_id(#[trigger] ids[k])
}

/// A list of new identities.
pub(crate) fn new_ids(count: usize) -> (ids: Vec<u128>)
    ensures
        ids@.len() == count,
        are_random_ids(ids@),
{
    let mut ids: Vec<u128> = Vec::new();
    while ids.len() < count
        invariant
            ids@.len() <= count,
            are_random_ids(ids@),
        decreases count - ids.len(),
    {
        ids.push(new_id());
    }
    ids
}

/// The operations that are left of a draft within the selected area: the draft
/// itself where the area does not limit it, and else its pieces, drawn anew
/// with new identities in one transaction.
pub fn clip_draft_to_area_selection(draft: EditOperation, clip: AreaClip, depth: i64, zoom: u64) -> (
operations: Vec<EditOperation>)
    ensures
        draft.kind == EditKind::CompactBlock || !(clip is Pieces) ==> operations@ == seq![draft],
        draft.kind != EditKind::CompactBlock ==> (clip matches AreaClip::Pieces(pieces) ==> exists|
            ids: Seq<u128>,
            transaction_id: u128,
        |
            ids.len() == pieces@.len() && are_random_ids(ids) && is_random_id(transaction_id)
                && #[trigger] are_pieces(
                operations@,
                draft,
                pieces@,
                ids,
                transaction_id,
                depth,
                zoom,
            )),
{
    if draft.kind == EditKind::CompactBlock {
        let operations: Vec<EditOperation> = vec![draft];
        return operations;
    }
    match clip {
        AreaClip::Unlimited | AreaClip::Unchanged => {
            let operations: Vec<EditOperation> = vec![draft];
            operations
        },
        AreaClip::Pieces(pieces) => {
            let transaction_id: u128 = new_id();
            let ids: Vec<u128> = new_ids(pieces.len());
            let operations: Vec<EditOperation> = drawn_pieces(
                &draft,
                &pieces,
                &ids,
                transaction_id,
                depth,
                zoom,
            );
            assert(are_pieces(
                operations@,
                draft,
                pieces@,
                ids@,
                transaction_id,
                depth,
                zoom,
            ));
            operations
        },
    }
}

/// The operations are the kept pieces of the draft, in order.
pub open spec fn are_pieces(
    operations: Seq<EditOperation>,
    draft: EditOperation,
    pieces: Seq<Vec<CanvasPoint>>,
    ids: Seq<u128>,
    transaction_id: u128,
    depth: i64,
    zoom: u64,
) -> bool {
    let kept = kept_pieces(draft.kind, pieces, pieces.len() as int);
    &&& operations.len() == kept.len()
    &&& forall|k: int|
        0 <= k < kept.len() ==> is_piece(
            #[trigger] operations[k],
            draft,
            point_views(pieces[kept[k]]@),
            ids[kept[k]],
            transaction_id,
            depth,
            zoom,
        )
}

/// Committing a draft keeps all its points, in order, and adds at most one: the
/// outline of an area ends where it begins, a dot of paint becomes a stroke that
/// ends where it begins, and anything else stays as it is.
pub proof fn law_committing_closes_outlines_and_dots(kind: EditKind, points: Seq<PointView>)
    requires
        points.len() > 0,
    ensures
        ({
            let after = committed_points(kind, points);
            &&& points.is_prefix_of(after)
            &&& after.len() <= points.len() + 1
            &&& after.len() > points.len() ==> after.last() == points.first()
            &&& (kind == EditKind::Fill || kind == EditKind::EraseArea) && points.len() >= 3
                && is_same_point(points.first(), points.first()) ==> is_same_point(
                after.first(),
                after.last(),
            )
            &&& (kind == EditKind::Fill || kind == EditKind::EraseArea) && points.len() >= 3
                && is_same_point(points.first(), points.last()) ==> after == points
            &&& kind == EditKind::Paint && points.len() == 1 ==> after == seq![
                points[0],
                points[0],
            ]
            &&& kind == EditKind::Paint && points.len() != 1 || kind == EditKind::Erase || kind
                == EditKind::CompactBlock ==> after == points
        }),
{
    assert(seq![points[0]].push(points[0]) =~= seq![points[0], points[0]]);
    if points.len() == 1 {
        assert(points =~= seq![points[0]]);
    }
}

/// A stroke is worth committing with two points, and an area with three: an outline
/// of three points that is not closed yet has four once it is.
pub proof fn law_drafts_are_worth_committing_with_enough_points(
    kind: EditKind,
    points: Seq<PointView>,
)
    requires
        points.len() > 0,
        points.len() >= 3 ==> !is_same_point(points.first(), points.last()),
    ensures
        ({
            let count = committed_points(kind, points).len() as int;
            &&& kind == EditKind::Fill || kind == EditKind::EraseArea ==> (committable(kind, count)
                <==> points.len() >= 3)
            &&& kind == EditKind::Paint ==> committable(kind, count)
            &&& kind == EditKind::Erase ==> (committable(kind, count) <==> points.len() >= 2)
        }),
{
}

/// Of the pieces of a draft those are kept, in order and each once, that are worth
/// committing; no others.
pub proof fn law_pieces_worth_committing_are_kept(
    kind: EditKind,
    pieces: Seq<Vec<CanvasPoint>>,
    count: int,
)
    requires
        0 <= count <= pieces.len(),
    ensures
        ({
            let kept = kept_pieces(kind, pieces, count);
            &&& forall|k: int|
                0 <= k < kept.len() ==> 0 <= #[trigger] kept[k] < count && committable(
                    kind,
                    piece_points(kind, point_views(pieces[kept[k]]@)).len() as int,
                )
            &&& forall|k: int, l: int|
                0 <= k < l < kept.len() ==> #[trigger] kept[k] < #[trigger] kept[l]
            &&& forall|at: int|
                0 <= at < count && committable(
                    kind,
                    piece_points(kind, point_views((#[trigger] pieces[at])@)).len() as int,
                ) ==> kept.contains(at)
        }),
    decreases count,
{
    if count > 0 {
        law_pieces_worth_committing_are_kept(kind, pieces, count - 1);
        let kept = kept_pieces(kind, pieces, count);
        let before = kept_pieces(kind, pieces, count - 1);
        assert forall|at: int|
            0 <= at < count && committable(
                kind,
                piece_points(kind, point_views((#[trigger] pieces[at])@)).len() as int,
            ) implies kept.contains(at) by {
            if at < count - 1 {
                assert(kept[before.index_of(at)] == at);
            } else {
                assert(kept[before.len() as int] == at);
            }
        }
    }
}

/// A piece of an area is closed as the area is, and a piece of a stroke has just
/// the points that it has.
pub proof fn law_pieces_of_areas_are_closed(kind: EditKind, points: Seq<PointView>)
    requires
        points.len() > 0,
        is_same_point(points.first(), points.first()),
    ensures
        points.is_prefix_of(piece_points(kind, points)),
        (kind == EditKind::Fill || kind == EditKind::EraseArea) && points.len() >= 3
            ==> is_same_point(piece_points(kind, points).first(), piece_points(kind, points).last()),
        kind == EditKind::Paint || kind == EditKind::Erase ==> piece_points(kind, points) == points,
{
}

} // verus!
