//! Which tiles are rendered anew, and when.

use crate::model::{same_operations, EditKind, EditOperation};
use crate::tile_view::TileKey;
use vstd::prelude::*;

verus! {

/// At most so many tiles are asked for in one frame.
pub const MAX_TILE_JOBS_QUEUED_PER_FRAME: usize = 4;

/// How often, in nanoseconds, to look for tiles that are being rendered.
pub const TILE_POLL_REPAINT_INTERVAL: u64 = 50_000_000;

/// What is drawn over the tiles.
#[derive(Debug, Clone, Copy, PartialEq, Eq, Structural)]
pub enum TileFallbackMode {
    /// Nothing: the tiles show everything.
    Current,
    /// The operations after a sequence number.
    OverlayAfter(i64),
    /// All operations.
    Full,
}

/// What kind of operations a view shows.
#[derive(Debug, Clone, Copy, PartialEq, Eq, Structural)]
pub enum VisibleDepthMode {
    Empty,
    Near,
    Distant,
}

/// How a view is rendered.
#[derive(Debug, Clone, Copy, PartialEq, Eq, Structural)]
pub enum DepthRenderMode {
    Empty,
    VectorsNear,
    DistantTile,
}

/// Whether no tiles are to be rendered.
pub fn tile_generation_is_paused(manual_pause: bool, drawing_pause: bool) -> (paused: bool)
    ensures
        paused == (manual_pause || drawing_pause),
{
    manual_pause || drawing_pause
}

/// The name of a mode.
pub fn tile_fallback_mode_label(mode: TileFallbackMode) -> (label: &'static str)
    ensures
        label@ == match mode {
            TileFallbackMode::Current => "current"@,
            TileFallbackMode::OverlayAfter(_) => "overlay_after"@,
            TileFallbackMode::Full => "full"@,
        },
{
    match mode {
        TileFallbackMode::Current => "current",
        TileFallbackMode::OverlayAfter(_) => "overlay_after",
        TileFallbackMode::Full => "full",
    }
}

/// How a view is rendered: from tiles only where all it shows is distant, and
/// distant tiles are switched on.
pub open spec fn depth_mode(
    visible_mode: VisibleDepthMode,
    distant_tiles_enabled: bool,
) -> DepthRenderMode {
    match visible_mode {
        VisibleDepthMode::Empty => DepthRenderMode::Empty,
        VisibleDepthMode::Near => DepthRenderMode::VectorsNear,
        VisibleDepthMode::Distant => if distant_tiles_enabled {
            DepthRenderMode::DistantTile
        } else {
            DepthRenderMode::VectorsNear
        },
    }
}

/// How a view is rendered.
pub fn depth_render_mode(visible_mode: VisibleDepthMode, distant_tiles_enabled: bool) -> (mode:
    DepthRenderMode)
    ensures
        mode == depth_mode(visible_mode, distant_tiles_enabled),
{
    match visible_mode {
        VisibleDepthMode::Empty => DepthRenderMode::Empty,
        VisibleDepthMode::Distant => if distant_tiles_enabled {
            DepthRenderMode::DistantTile
        } else {
            DepthRenderMode::VectorsNear
        },
        VisibleDepthMode::Near => DepthRenderMode::VectorsNear,
    }
}

/// The name of a mode.
pub fn depth_render_mode_label(mode: DepthRenderMode) -> (label: &'static str)
    ensures
        label@ == match mode {
            DepthRenderMode::Empty => "empty"@,
            DepthRenderMode::VectorsNear => "vectors_near"@,
            DepthRenderMode::DistantTile => "distant_tile"@,
        },
{
    match mode {
        DepthRenderMode::Empty => "empty",
        DepthRenderMode::VectorsNear => "vectors_near",
        DepthRenderMode::DistantTile => "distant_tile",
    }
}

/// Whether less than `interval` has passed since `last`; where `last` is later
/// than `now`, no time has passed.
pub open spec fn within(last: Option<u64>, now: u64, interval: u64) -> bool {
    match last {
        Some(last) => if now >= last {
            now - last < interval
        } else {
            interval > 0
        },
        None => false,
    }
}

/// Whether a change of zoom is still settling. Times are in nanoseconds.
pub fn zoom_tile_requests_deferred_since(
    last_zoom_change: Option<u64>,
    now: u64,
    settle_interval: u64,
) -> (deferred: bool)
    ensures
        deferred == within(last_zoom_change, now, settle_interval),
{
    match last_zoom_change {
        Some(last) => now.saturating_sub(last) < settle_interval,
        None => false,
    }
}

/// Whether the last interaction is still recent. Times are in nanoseconds.
pub fn tile_rebuild_deferred_since(last_interaction: Option<u64>, now: u64, idle_interval: u64) -> (
deferred: bool)
    ensures
        deferred == within(last_interaction, now, idle_interval),
{
    match last_interaction {
        Some(last) => now.saturating_sub(last) < idle_interval,
        None => false,
    }
}

/// How soon to draw the next frame; none where nothing is going on. Times are
/// in nanoseconds.
pub fn repaint_interval_for_work(
    has_draft: bool,
    has_pending_tiles: bool,
    zoom_requests_deferred: bool,
    rebuild_requests_deferred: bool,
    preview_interval: u64,
) -> (interval: Option<u64>)
    ensures
        interval == if has_draft || zoom_requests_deferred || rebuild_requests_deferred {
            Some(preview_interval)
        } else if has_pending_tiles {
            Some(
                if preview_interval >= 50_000_000 {
                    preview_interval
                } else {
                    50_000_000
                },
            )
        } else {
            None
        },
{
    if has_draft || zoom_requests_deferred || rebuild_requests_deferred {
        Some(preview_interval)
    } else if has_pending_tiles {
        Some(
            if preview_interval >= TILE_POLL_REPAINT_INTERVAL {
                preview_interval
            } else {
                TILE_POLL_REPAINT_INTERVAL
            },
        )
    } else {
        None
    }
}

/// The tiles to ask for in this frame: the first few that are missing.
pub fn tile_request_batch(missing: Vec<TileKey>) -> (batch: Vec<TileKey>)
    ensures
        batch@ == if missing@.len() <= 4 {
            missing@
        } else {
            missing@.take(4)
        },
{
    let mut batch: Vec<TileKey> = missing;
    batch.truncate(MAX_TILE_JOBS_QUEUED_PER_FRAME);
    batch
}

/// Whether a tile cannot be shown: it is not there, or it is of a later
/// revision than the drawing.
pub open spec fn unusable(current_revision: u64, snapshot: Option<(u64, i64)>) -> bool {
    match snapshot {
        None => true,
        Some((revision, _)) => revision > current_revision,
    }
}

/// Whether a tile is of an earlier revision than the drawing.
pub open spec fn outdated(current_revision: u64, snapshot: Option<(u64, i64)>) -> bool {
    match snapshot {
        None => false,
        Some((revision, _)) => revision < current_revision,
    }
}

/// What has to be drawn over the tiles in view, of which `snapshots` holds the
/// revision and the last sequence number they show: everything where a tile
/// cannot be shown, the operations after the oldest outdated tile where there
/// are outdated ones, and else nothing.
pub fn tile_fallback_mode(current_revision: u64, snapshots: &Vec<Option<(u64, i64)>>) -> (mode:
    TileFallbackMode)
    ensures
        match mode {
            TileFallbackMode::Full => exists|i: int|
                0 <= i < snapshots@.len() && unusable(current_revision, #[trigger] snapshots@[i]),
            TileFallbackMode::OverlayAfter(sequence) => {
                &&& forall|i: int|
                    0 <= i < snapshots@.len() ==> !unusable(
                        current_revision,
                        #[trigger] snapshots@[i],
                    )
                &&& exists|i: int|
                    0 <= i < snapshots@.len() && outdated(
                        current_revision,
                        #[trigger] snapshots@[i],
                    ) && snapshots@[i].unwrap().1 == sequence
                &&& forall|i: int|
                    0 <= i < snapshots@.len() && outdated(
                        current_revision,
                        #[trigger] snapshots@[i],
                    ) ==> snapshots@[i].unwrap().1 >= sequence
            },
            TileFallbackMode::Current => forall|i: int|
                0 <= i < snapshots@.len() ==> !unusable(current_revision, #[trigger] snapshots@[i])
                    && !outdated(current_revision, snapshots@[i]),
        },
{
    let mut oldest: Option<i64> = None;
    let mut i: usize = 0;
    while i < snapshots.len()
        invariant
            i <= snapshots.len(),
            forall|k: int| 0 <= k < i ==> !unusable(current_revision, #[trigger] snapshots@[k]),
            match oldest {
                Some(sequence) => {
                    &&& exists|k: int|
                        0 <= k < i && outdated(current_revision, #[trigger] snapshots@[k])
                            && snapshots@[k].unwrap().1 == sequence
                    &&& forall|k: int|
                        0 <= k < i && outdated(current_revision, #[trigger] snapshots@[k])
                            ==> snapshots@[k].unwrap().1 >= sequence
                },
                None => forall|k: int|
                    0 <= k < i ==> !outdated(current_revision, #[trigger] snapshots@[k]),
            },
        decreases snapshots.len() - i,
    {
        match snapshots[i] {
            None => {
                assert(unusable(current_revision, snapshots@[i as int]));
                return TileFallbackMode::Full;
            },
            Some((revision, sequence)) => {
                if revision > current_revision {
                    assert(unusable(current_revision, snapshots@[i as int]));
                    return TileFallbackMode::Full;
                }
                if revision < current_revision {
                    assert(outdated(current_revision, snapshots@[i as int]));
                    let ghost before = oldest;
                    oldest = match oldest {
                        Some(known) => Some(
                            if known <= sequence {
                                known
                            } else {
                                sequence
                            },
                        ),
                        None => Some(sequence),
                    };
                }
            },
        }
        i = i + 1;
    }
    match oldest {
        Some(sequence) => TileFallbackMode::OverlayAfter(sequence),
        None => TileFallbackMode::Current,
    }
}

/// The place of the first operation after a sequence number, from `from` on;
/// the number of operations where there is none.
pub open spec fn first_newer(
    operations: Seq<EditOperation>,
    snapshot_sequence: i64,
    from: int,
) -> int
    decreases operations.len() - from,
{
    if from >= operations.len() {
        operations.len() as int
    } else if operations[from].sequence > snapshot_sequence {
        from
    } else {
        first_newer(operations, snapshot_sequence, from + 1)
    }
}

/// Whether an operation can be painted over a finished tile.
pub open spec fn paints_over(operation: EditOperation, snapshot_sequence: i64) -> bool {
    operation.sequence > snapshot_sequence && operation.kind == EditKind::Paint
        && operation.color.a == 255
}

/// The operations to paint over a tile that shows those up to
/// `snapshot_sequence`: those from the first later one on, where all of them
/// are later and paint opaquely. None where the tile has to be made anew.
pub fn incremental_paint_operations(snapshot_sequence: i64, operations: &Vec<EditOperation>) -> (
result: Option<Vec<EditOperation>>)
    ensures
        ({
            let first = first_newer(operations@, snapshot_sequence, 0);
            &&& result.is_some() <==> forall|i: int|
                first <= i < operations@.len() ==> paints_over(
                    #[trigger] operations@[i],
                    snapshot_sequence,
                )
            &&& result.is_some() ==> same_operations(operations@.skip(first), result.unwrap()@)
        }),
{
    let mut first: usize = 0;
    while first < operations.len() && operations[first].sequence <= snapshot_sequence
        invariant
            first <= operations.len(),
            first_newer(operations@, snapshot_sequence, 0) == first_newer(
                operations@,
                snapshot_sequence,
                first as int,
            ),
        decreases operations.len() - first,
    {
        first = first + 1;
    }
    let mut newer: Vec<EditOperation> = Vec::new();
    let mut i: usize = first;
    while i < operations.len()
        invariant
            first <= i <= operations.len(),
            first == first_newer(operations@, snapshot_sequence, 0),
            newer@.len() == i - first,
            forall|k: int|
                first <= k < i ==> paints_over(#[trigger] operations@[k], snapshot_sequence),
            same_operations(operations@.subrange(first as int, i as int), newer@),
        decreases operations.len() - i,
    {
        let operation = &operations[i];
        if operation.sequence <= snapshot_sequence || operation.kind != EditKind::Paint
            || !operation.color.is_opaque() {
            assert(!paints_over(operations@[i as int], snapshot_sequence));
            return None;
        }
        newer.push(operation.clone());
        i = i + 1;
    }
    assert(operations@.subrange(first as int, i as int) =~= operations@.skip(first as int));
    Some(newer)
}

/// What is newer than a snapshot begins at the first operation with a later
/// sequence number.
pub proof fn law_newer_operations_begin_after_the_snapshot(
    operations: Seq<EditOperation>,
    snapshot_sequence: i64,
    from: int,
)
    requires
        0 <= from <= operations.len(),
    ensures
        ({
            let first = first_newer(operations, snapshot_sequence, from);
            &&& from <= first <= operations.len()
            &&& first < operations.len() ==> operations[first].sequence > snapshot_sequence
            &&& forall|k: int|
                from <= k < first ==> (#[trigger] operations[k]).sequence <= snapshot_sequence
        }),
    decreases operations.len() - from,
{
    if from < operations.len() && operations[from].sequence <= snapshot_sequence {
        law_newer_operations_begin_after_the_snapshot(operations, snapshot_sequence, from + 1);
    }
}

/// Something is waited for until the interval since it is over, and not at all
/// where it never happened or there is no interval.
pub proof fn law_waiting_ends_with_the_interval(last: u64, now: u64, interval: u64)
    ensures
        !within(None, now, interval),
        !within(Some(last), now, 0),
        last <= now && now < last + interval ==> within(Some(last), now, interval),
        last + interval <= now ==> !within(Some(last), now, interval),
        now < last && interval > 0 ==> within(Some(last), now, interval),
{
}

/// Only what is seen from afar is shown in tiles, and only where that is wanted;
/// what is near is drawn itself, and nothing is drawn where there is nothing.
pub proof fn law_only_distant_views_show_tiles(
    visible_mode: VisibleDepthMode,
    distant_tiles_enabled: bool,
)
    ensures
        depth_mode(visible_mode, distant_tiles_enabled) == DepthRenderMode::DistantTile
            <==> visible_mode == VisibleDepthMode::Distant && distant_tiles_enabled,
        depth_mode(visible_mode, distant_tiles_enabled) == DepthRenderMode::Empty <==> visible_mode
            == VisibleDepthMode::Empty,
{
}

/// A snapshot can be used if and only if there is one and it is not of a later
/// revision; one that can is outdated where it is of an earlier one.
pub proof fn law_snapshots_are_of_no_later_revision(current_revision: u64, revision: u64, sequence: i64)
    ensures
        unusable(current_revision, None),
        unusable(current_revision, Some((revision, sequence))) <==> revision > current_revision,
        outdated(current_revision, Some((revision, sequence))) <==> revision < current_revision,
        !outdated(current_revision, None),
        !(unusable(current_revision, Some((revision, sequence))) && outdated(
            current_revision,
            Some((revision, sequence)),
        )),
{
}

/// Only opaque paint that is newer than a snapshot can be painted over it.
pub proof fn law_only_newer_opaque_paint_is_painted_over(
    operation: EditOperation,
    snapshot_sequence: i64,
)
    ensures
        paints_over(operation, snapshot_sequence) <==> operation.sequence > snapshot_sequence
            && operation.kind == EditKind::Paint && operation.color.a == 255,
{
}

} // verus!
