//! When tiles are rendered: only for views of distant objects that have come to
//! rest.

use crate::tile_requests::{depth_mode, within, DepthRenderMode, VisibleDepthMode};
use crate::tile_state::TileState;
use crate::tile_view::{key_views, KeyView, TileKey};
use vstd::prelude::*;

verus! {

/// What decides in a frame whether tiles are rendered.
#[derive(Debug, Clone, Copy)]
pub struct TileConditions {
    pub mode: DepthRenderMode,
    /// Whether the camera has moved just now.
    pub settling: bool,
    /// Whether the user has paused the rendering.
    pub manual_pause: bool,
    /// The time, in nanoseconds.
    pub now: u64,
    /// How long the drawing has to be left alone before tiles are rendered.
    pub idle_interval: Option<u64>,
}

impl TileState {
    /// Whether tiles are rendered.
    pub open spec fn renders(self, conditions: TileConditions) -> bool {
        &&& conditions.mode == DepthRenderMode::DistantTile
        &&& !conditions.settling
        &&& !conditions.manual_pause
        &&& !self.drawing_pause
        &&& !(conditions.idle_interval is Some && within(
            self.last_rebuild_interaction,
            conditions.now,
            conditions.idle_interval->0,
        ))
    }

    /// The tiles that are rendered: the first of those that are missing.
    pub open spec fn rendered(
        self,
        conditions: TileConditions,
        requested: Seq<KeyView>,
        revision: u64,
    ) -> Seq<KeyView> {
        let missing = requested.filter(|key: KeyView| self.is_missing(key, revision));
        if !self.renders(conditions) {
            seq![]
        } else if missing.len() <= 4 {
            missing
        } else {
            missing.take(4)
        }
    }

    /// The tiles to render now, of those that the view asks for.
    pub fn tiles_to_render(
        &self,
        conditions: &TileConditions,
        requested: &Vec<TileKey>,
        revision: u64,
    ) -> (keys: Vec<TileKey>)
        ensures
            key_views(keys@) == self.rendered(*conditions, key_views(requested@), revision),
    {
        let rests: bool = conditions.mode == DepthRenderMode::DistantTile && !conditions.settling;
        if rests && self.may_request(
            conditions.manual_pause,
            conditions.now,
            conditions.idle_interval,
        ) {
            return self.tiles_to_request(requested, revision);
        }
        let none: Vec<TileKey> = Vec::new();
        assert(key_views(none@) =~= Seq::<KeyView>::empty());
        none
    }
}

/// A view of near objects, or of none, is drawn without rendering a tile, and
/// so is every view where distant tiles are switched off.
pub proof fn law_only_distant_views_render_tiles(
    state: TileState,
    conditions: TileConditions,
    visible_mode: VisibleDepthMode,
    distant_tiles_enabled: bool,
    requested: Seq<KeyView>,
    revision: u64,
)
    requires
        conditions.mode == depth_mode(visible_mode, distant_tiles_enabled),
        visible_mode != VisibleDepthMode::Distant || !distant_tiles_enabled,
    ensures
        state.rendered(conditions, requested, revision) == Seq::<KeyView>::empty(),
{
}

/// While the rendering is paused, by the user or while drawing, no tile is
/// rendered.
pub proof fn law_paused_tiles_are_not_rendered(
    state: TileState,
    conditions: TileConditions,
    requested: Seq<KeyView>,
    revision: u64,
)
    requires
        conditions.manual_pause || state.drawing_pause,
    ensures
        state.rendered(conditions, requested, revision) == Seq::<KeyView>::empty(),
{
}

/// A tile is rendered only where the view asks for it and it is not there yet.
pub proof fn law_only_missing_tiles_are_rendered(
    state: TileState,
    conditions: TileConditions,
    requested: Seq<KeyView>,
    revision: u64,
    key: KeyView,
)
    requires
        state.rendered(conditions, requested, revision).contains(key),
    ensures
        requested.contains(key),
        state.is_missing(key, revision),
{
    let missing = requested.filter(|wanted: KeyView| state.is_missing(wanted, revision));
    let rendered = state.rendered(conditions, requested, revision);
    let at = choose|at: int| 0 <= at < rendered.len() && rendered[at] == key;
    assert(missing[at] == key);
    assert(missing.contains(key));
    requested.lemma_filter_contains_rev(
        |wanted: KeyView| state.is_missing(wanted, revision),
        key,
    );
}

/// In a distant view that rests, where nothing is paused, the first missing tiles
/// are rendered in the order in which they are asked for: all of them up to four,
/// and never more.
pub proof fn law_missing_tiles_are_rendered_in_order(
    state: TileState,
    conditions: TileConditions,
    requested: Seq<KeyView>,
    revision: u64,
)
    requires
        conditions.mode == DepthRenderMode::DistantTile,
        !conditions.settling,
        !conditions.manual_pause,
        !state.drawing_pause,
        conditions.idle_interval is None || !within(
            state.last_rebuild_interaction,
            conditions.now,
            conditions.idle_interval->0,
        ),
    ensures
        ({
            let missing = requested.filter(|key: KeyView| state.is_missing(key, revision));
            let rendered = state.rendered(conditions, requested, revision);
            &&& rendered.is_prefix_of(missing)
            &&& rendered.len() <= 4
            &&& missing.len() <= 4 ==> rendered == missing
            &&& missing.len() > 4 ==> rendered.len() == 4
        }),
{
}

/// While the camera moves, or the drawing is not left alone for long enough, no
/// tile is rendered.
pub proof fn law_tiles_wait_until_all_rests(
    state: TileState,
    conditions: TileConditions,
    requested: Seq<KeyView>,
    revision: u64,
    last: u64,
    interval: u64,
)
    requires
        conditions.settling || (conditions.idle_interval == Some(interval)
            && state.last_rebuild_interaction == Some(last) && last <= conditions.now
            && conditions.now < last + interval),
    ensures
        state.rendered(conditions, requested, revision).len() == 0,
{
}

} // verus!
