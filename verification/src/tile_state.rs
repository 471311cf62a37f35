//! The tiles on the screen and those on the way.

use crate::model::{same_operations, EditOperation};
use crate::tile_requests::{
    first_newer, incremental_paint_operations, paints_over, tile_generation_is_paused,
    tile_rebuild_deferred_since, tile_request_batch, within,
};
use crate::tile_view::{key_views, KeyView, TileKey};
use vstd::prelude::*;

verus! {

/// A tile that is being rendered.
#[derive(Debug)]
pub struct PendingTile {
    pub key: TileKey,
    pub revision: u64,
}

/// A tile that can be shown, with the revision of the drawing it shows and the
/// last sequence number in it.
#[derive(Debug)]
pub struct LoadedTile {
    pub key: TileKey,
    pub revision: u64,
    pub snapshot_sequence: i64,
}

/// What a tile that can be shown is, mathematically.
pub struct LoadedView {
    pub key: KeyView,
    pub revision: u64,
    pub sequence: i64,
}

/// What tiles being rendered are, mathematically.
pub open spec fn pending_views(pending: Seq<PendingTile>) -> Seq<(KeyView, u64)> {
    pending.map_values(|tile: PendingTile| (tile.key@, tile.revision))
}

/// What tiles that can be shown are, mathematically.
pub open spec fn loaded_views(loaded: Seq<LoadedTile>) -> Seq<LoadedView> {
    loaded.map_values(
        |tile: LoadedTile|
            LoadedView { key: tile.key@, revision: tile.revision, sequence: tile.snapshot_sequence },
    )
}

/// The revision and last sequence number of the tile with the given key.
pub open spec fn lookup(loaded: Seq<LoadedView>, key: KeyView) -> Option<(u64, i64)>
    decreases loaded.len(),
{
    if loaded.len() == 0 {
        None
    } else if loaded.last().key == key {
        Some((loaded.last().revision, loaded.last().sequence))
    } else {
        lookup(loaded.drop_last(), key)
    }
}

/// The next generation; the last one has no next.
pub open spec fn next_generation(generation: u64) -> u64 {
    if generation == u64::MAX {
        u64::MAX
    } else {
        (generation + 1) as u64
    }
}

fn following_generation(generation: u64) -> (next: u64)
    ensures
        next == next_generation(generation),
{
    if generation == u64::MAX {
        generation
    } else {
        generation + 1
    }
}

fn holds_key(keys: &Vec<TileKey>, key: &TileKey) -> (held: bool)
    ensures
        held == key_views(keys@).contains(key@),
{
    let mut i: usize = 0;
    while i < keys.len()
        invariant
            i <= keys.len(),
            forall|k: int| 0 <= k < i ==> (#[trigger] keys@[k])@ != key@,
        decreases keys.len() - i,
    {
        if keys[i] == *key {
            assert(key_views(keys@)[i as int] == key@);
            return true;
        }
        i = i + 1;
    }
    assert forall|k: int| 0 <= k < key_views(keys@).len() implies key_views(keys@)[k] != key@ by {
        assert(key_views(keys@)[k] == keys@[k]@);
    }
    false
}

fn holds_all_keys(keys: &Vec<TileKey>, others: &Vec<TileKey>) -> (all: bool)
    ensures
        all == key_views(others@).to_set().subset_of(key_views(keys@).to_set()),
{
    let mut i: usize = 0;
    while i < others.len()
        invariant
            i <= others.len(),
            forall|k: int|
                0 <= k < i ==> key_views(keys@).contains((#[trigger] others@[k])@),
        decreases others.len() - i,
    {
        if !holds_key(keys, &others[i]) {
            assert(key_views(others@)[i as int] == others@[i as int]@);
            assert(key_views(others@).to_set().contains(others@[i as int]@));
            return false;
        }
        i = i + 1;
    }
    assert forall|key: KeyView| key_views(others@).to_set().contains(key) implies key_views(
        keys@,
    ).to_set().contains(key) by {
        let k = choose|k: int| 0 <= k < key_views(others@).len() && key_views(others@)[k] == key;
        assert(others@[k]@ == key);
    }
    true
}

pub(crate) fn cloned_keys(keys: &Vec<TileKey>) -> (result: Vec<TileKey>)
    ensures
        key_views(result@) == key_views(keys@),
{
    let mut result: Vec<TileKey> = Vec::new();
    let mut i: usize = 0;
    while i < keys.len()
        invariant
            i <= keys.len(),
            result@.len() == i,
            forall|k: int| 0 <= k < i ==> (#[trigger] result@[k])@ == keys@[k]@,
        decreases keys.len() - i,
    {
        result.push(keys[i].clone());
        i = i + 1;
    }
    assert(key_views(result@) =~= key_views(keys@));
    result
}

/// Tells the tiles being rendered that are of the revision and, where keys are
/// given, among them.
pub open spec fn stays_pending(revision: u64, among: Option<Seq<KeyView>>) -> spec_fn(
    (KeyView, u64),
) -> bool {
    |tile: (KeyView, u64)|
        tile.1 == revision && match among {
            Some(keys) => keys.contains(tile.0),
            None => true,
        }
}

/// The tiles being rendered that are of the revision and, where keys are
/// given, among them.
pub open spec fn kept_pending(
    pending: Seq<(KeyView, u64)>,
    revision: u64,
    among: Option<Seq<KeyView>>,
) -> Seq<(KeyView, u64)> {
    pending.filter(stays_pending(revision, among))
}

fn retain_pending(pending: &Vec<PendingTile>, revision: u64, among: Option<&Vec<TileKey>>) -> (
kept: Vec<PendingTile>)
    ensures
        pending_views(kept@) == kept_pending(
            pending_views(pending@),
            revision,
            match among {
                Some(keys) => Some(key_views(keys@)),
                None => None,
            },
        ),
{
    let ghost keys = match among {
        Some(keys) => Some(key_views(keys@)),
        None => None,
    };
    let ghost keep = stays_pending(revision, keys);
    let mut kept: Vec<PendingTile> = Vec::new();
    let mut i: usize = 0;
    proof {
        reveal(Seq::filter);
        assert(pending_views(pending@).take(0).filter(keep) =~= pending_views(kept@));
    }
    while i < pending.len()
        invariant
            i <= pending.len(),
            keys == match among {
                Some(keys) => Some(key_views(keys@)),
                None => None,
            },
            keep == stays_pending(revision, keys),
            pending_views(kept@) == pending_views(pending@).take(i as int).filter(keep),
        decreases pending.len() - i,
    {
        let ghost views = pending_views(pending@);
        proof {
            views.take(i as int).lemma_filter_push(views[i as int], keep);
            assert(views.take(i + 1) =~= views.take(i as int).push(views[i as int]));
        }
        let wanted: bool = pending[i].revision == revision && match among {
            Some(keys) => holds_key(keys, &pending[i].key),
            None => true,
        };
        if wanted {
            let ghost before = kept@;
            kept.push(PendingTile { key: pending[i].key.clone(), revision: pending[i].revision });
            assert(pending_views(kept@) =~= pending_views(before).push(views[i as int]));
        }
        i = i + 1;
    }
    assert(pending_views(pending@).take(i as int) =~= pending_views(pending@));
    kept
}

/// Where the rendering of tiles stands. Times are in nanoseconds.
#[derive(Debug)]
pub struct TileState {
    pub loaded: Vec<LoadedTile>,
    pub pending: Vec<PendingTile>,
    pub visible: Vec<TileKey>,
    /// Tiles asked for in an earlier generation are not wanted any more.
    pub generation: u64,
    pub last_zoom_change: Option<u64>,
    pub last_rebuild_interaction: Option<u64>,
    pub drawing_pause: bool,
}

/// What became of a tile that was rendered.
#[derive(Debug, Clone, Copy, PartialEq, Eq, Structural)]
pub enum TileResult {
    /// It is not wanted any more.
    Stale,
    /// It could not be rendered.
    Failed,
    /// A later revision of it is shown already.
    Outdated,
    /// It is to be shown.
    Shown,
}

/// What a change of the pause came to.
#[derive(Debug, Clone, Copy, PartialEq, Eq, Structural)]
pub enum PauseNotice {
    Paused,
    PausedWhileDrawing,
    Resumed,
}

impl PauseNotice {
    /// What to tell the user.
    pub fn message(self) -> (message: &'static str)
        ensures
            message@ == match self {
                PauseNotice::Paused => "Tile generation paused"@,
                PauseNotice::PausedWhileDrawing => "Tile generation paused while drawing"@,
                PauseNotice::Resumed => "Tile generation resumed"@,
            },
    {
        match self {
            PauseNotice::Paused => "Tile generation paused",
            PauseNotice::PausedWhileDrawing => "Tile generation paused while drawing",
            PauseNotice::Resumed => "Tile generation resumed",
        }
    }
}

impl TileState {
    /// What is being rendered.
    pub open spec fn pending_view(self) -> Seq<(KeyView, u64)> {
        pending_views(self.pending@)
    }

    /// What can be shown.
    pub open spec fn loaded_view(self) -> Seq<LoadedView> {
        loaded_views(self.loaded@)
    }

    /// What was in view, with the tiles around it.
    pub open spec fn visible_view(self) -> Seq<KeyView> {
        key_views(self.visible@)
    }

    /// No tile is shown or being rendered twice.
    pub open spec fn wf(self) -> bool {
        &&& distinct_keys(self.loaded_view())
        &&& self.pending_view().no_duplicates()
    }

    /// No tiles.
    pub fn new() -> (state: Self)
        ensures
            state.wf(),
            state.loaded_view() == Seq::<LoadedView>::empty(),
            state.pending_view() == Seq::<(KeyView, u64)>::empty(),
            state.visible_view() == Seq::<KeyView>::empty(),
            state.generation == 0,
            state.last_zoom_change.is_none(),
            state.last_rebuild_interaction.is_none(),
            !state.drawing_pause,
    {
        let state = TileState {
            loaded: Vec::new(),
            pending: Vec::new(),
            visible: Vec::new(),
            generation: 0,
            last_zoom_change: None,
            last_rebuild_interaction: None,
            drawing_pause: false,
        };
        assert(state.loaded_view() =~= Seq::<LoadedView>::empty());
        assert(state.pending_view() =~= Seq::<(KeyView, u64)>::empty());
        assert(state.visible_view() =~= Seq::<KeyView>::empty());
        state
    }

    /// Forgets the tiles being rendered for other revisions.
    pub fn begin_frame(&mut self, revision: u64)
        requires
            old(self).wf(),
        ensures
            final(self).wf(),
            final(self).pending_view() == kept_pending(old(self).pending_view(), revision, None),
            *final(self) == (TileState { pending: final(self).pending, ..*old(self) }),
    {
        let ghost before = self.pending_view();
        let ghost loaded = self.loaded_view();
        self.pending = retain_pending(&self.pending, revision, None);
        proof {
            lemma_filter_keeps_no_duplicates(before, stays_pending(revision, None));
            assert(self.loaded_view() == loaded);
        }
    }

    /// Whether the tile has to be rendered for the revision.
    pub open spec fn is_missing(self, key: KeyView, revision: u64) -> bool {
        &&& match lookup(self.loaded_view(), key) {
            Some((loaded, _)) => loaded != revision,
            None => true,
        }
        &&& !self.pending_view().contains((key, revision))
    }

    /// When the view last changed and whether rendering is paused are as before.
    pub open spec fn same_timing(self, before: TileState) -> bool {
        &&& self.last_zoom_change == before.last_zoom_change
        &&& self.last_rebuild_interaction == before.last_rebuild_interaction
        &&& self.drawing_pause == before.drawing_pause
    }

    /// The revision and last sequence number of a tile that can be shown.
    pub fn loaded_snapshot(&self, key: &TileKey) -> (snapshot: Option<(u64, i64)>)
        ensures
            snapshot == lookup(self.loaded_view(), key@),
    {
        let ghost views = self.loaded_view();
        let mut i: usize = self.loaded.len();
        assert(views.take(i as int) =~= views);
        while i > 0
            invariant
                i <= self.loaded.len(),
                views == self.loaded_view(),
                lookup(views, key@) == lookup(views.take(i as int), key@),
            decreases i,
        {
            assert(views.take(i as int).last() == views[i - 1]);
            assert(views.take(i as int).drop_last() =~= views.take(i - 1));
            let tile = &self.loaded[i - 1];
            if tile.key == *key {
                return Some((tile.revision, tile.snapshot_sequence));
            }
            i = i - 1;
        }
        None
    }

    fn is_pending(&self, key: &TileKey, revision: u64) -> (pending: bool)
        ensures
            pending == self.pending_view().contains((key@, revision)),
    {
        let mut i: usize = 0;
        while i < self.pending.len()
            invariant
                i <= self.pending.len(),
                forall|k: int|
                    0 <= k < i ==> #[trigger] self.pending_view()[k] != (key@, revision),
            decreases self.pending.len() - i,
        {
            assert(self.pending_view()[i as int] == (
                self.pending@[i as int].key@,
                self.pending@[i as int].revision,
            ));
            if self.pending[i].revision == revision && self.pending[i].key == *key {
                return true;
            }
            i = i + 1;
        }
        false
    }

    /// The tiles to ask for in this frame: the first few of the requested ones
    /// that are missing.
    pub fn tiles_to_request(&self, requested: &Vec<TileKey>, revision: u64) -> (keys: Vec<TileKey>)
        ensures
            ({
                let missing = key_views(requested@).filter(
                    |key: KeyView| self.is_missing(key, revision),
                );
                key_views(keys@) == if missing.len() <= 4 {
                    missing
                } else {
                    missing.take(4)
                }
            }),
    {
        let ghost wanted = |key: KeyView| self.is_missing(key, revision);
        let ghost views = key_views(requested@);
        let mut missing: Vec<TileKey> = Vec::new();
        let mut i: usize = 0;
        proof {
            reveal(Seq::filter);
            assert(views.take(0).filter(wanted) =~= key_views(missing@));
        }
        while i < requested.len()
            invariant
                i <= requested.len(),
                views == key_views(requested@),
                wanted == |key: KeyView| self.is_missing(key, revision),
                key_views(missing@) == views.take(i as int).filter(wanted),
            decreases requested.len() - i,
        {
            proof {
                views.take(i as int).lemma_filter_push(views[i as int], wanted);
                assert(views.take(i + 1) =~= views.take(i as int).push(views[i as int]));
            }
            let current: bool = match self.loaded_snapshot(&requested[i]) {
                Some((loaded, _)) => loaded == revision,
                None => false,
            };
            if !current && !self.is_pending(&requested[i], revision) {
                let ghost before = missing@;
                missing.push(requested[i].clone());
                assert(key_views(missing@) =~= key_views(before).push(views[i as int]));
            }
            i = i + 1;
        }
        assert(views.take(i as int) =~= views);
        let ghost all = missing@;
        let batch: Vec<TileKey> = tile_request_batch(missing);
        proof {
            if all.len() > 4 {
                assert(key_views(all.take(4)) =~= key_views(all).take(4));
            }
        }
        batch
    }

    /// How a tile that is asked for can be made from the one that is shown: by
    /// painting the later ones of its operations over it. None where it has to be
    /// made anew.
    pub fn incremental_update(
        &self,
        key: &TileKey,
        revision: u64,
        operations: &Vec<EditOperation>,
    ) -> (update: Option<(u64, Vec<EditOperation>)>)
        ensures
            match lookup(self.loaded_view(), key@) {
                Some((base, sequence)) if base < revision => {
                    let first = first_newer(operations@, sequence, 0);
                    &&& update is Some <==> forall|i: int|
                        first <= i < operations@.len() ==> paints_over(
                            #[trigger] operations@[i],
                            sequence,
                        )
                    &&& update is Some ==> {
                        &&& update.unwrap().0 == base
                        &&& same_operations(operations@.skip(first), update.unwrap().1@)
                    }
                },
                _ => update is None,
            },
    {
        match self.loaded_snapshot(key) {
            Some((base, sequence)) => {
                if base >= revision {
                    return None;
                }
                match incremental_paint_operations(sequence, operations) {
                    Some(newer) => Some((base, newer)),
                    None => None,
                }
            },
            None => None,
        }
    }

    /// Whether tiles may be asked for now: their rendering is neither paused nor
    /// put off.
    pub fn may_request(&self, manual_pause: bool, now: u64, idle_interval: Option<u64>) -> (may:
        bool)
        ensures
            may == (!manual_pause && !self.drawing_pause && !(idle_interval.is_some() && within(
                self.last_rebuild_interaction,
                now,
                idle_interval.unwrap(),
            ))),
    {
        !tile_generation_is_paused(manual_pause, self.drawing_pause) && !self.rebuild_is_deferred(
            now,
            idle_interval,
        )
    }

    /// Takes note that a tile is being rendered.
    pub fn note_requested(&mut self, key: &TileKey, revision: u64)
        requires
            old(self).wf(),
        ensures
            final(self).wf(),
            final(self).pending_view() == if old(self).pending_view().contains((key@, revision)) {
                old(self).pending_view()
            } else {
                old(self).pending_view().push((key@, revision))
            },
            *final(self) == (TileState { pending: final(self).pending, ..*old(self) }),
    {
        let ghost before = self.pending_view();
        let ghost loaded = self.loaded_view();
        if !self.is_pending(key, revision) {
            self.pending.push(PendingTile { key: key.clone(), revision });
            assert(self.pending_view() =~= before.push((key@, revision)));
            assert(self.loaded_view() == loaded);
        }
    }

    /// What the tiles in view show.
    pub fn snapshots(&self, visible: &Vec<TileKey>) -> (snapshots: Vec<Option<(u64, i64)>>)
        ensures
            snapshots@ == key_views(visible@).map_values(
                |key: KeyView| lookup(self.loaded_view(), key),
            ),
    {
        let mut snapshots: Vec<Option<(u64, i64)>> = Vec::new();
        let mut i: usize = 0;
        while i < visible.len()
            invariant
                i <= visible.len(),
                snapshots@.len() == i,
                forall|k: int|
                    0 <= k < i ==> snapshots@[k] == lookup(
                        self.loaded_view(),
                        (#[trigger] visible@[k])@,
                    ),
            decreases visible.len() - i,
        {
            snapshots.push(self.loaded_snapshot(&visible[i]));
            i = i + 1;
        }
        assert(snapshots@ =~= key_views(visible@).map_values(
            |key: KeyView| lookup(self.loaded_view(), key),
        ));
        snapshots
    }
}

/// The tiles that can be shown and are among the keys.
pub open spec fn kept_loaded(loaded: Seq<LoadedView>, keys: Seq<KeyView>) -> Seq<LoadedView> {
    loaded.filter(stays_loaded(keys))
}

/// Tells the tiles whose keys are among the given ones.
pub open spec fn stays_loaded(keys: Seq<KeyView>) -> spec_fn(LoadedView) -> bool {
    |tile: LoadedView| keys.contains(tile.key)
}

/// The tiles that can be shown after one more came: it takes the place of the
/// one with its key.
pub open spec fn with_loaded(loaded: Seq<LoadedView>, tile: LoadedView) -> Seq<LoadedView> {
    loaded.filter(has_other_key(tile.key)).push(tile)
}

/// Tells the tiles with another key.
pub open spec fn has_other_key(key: KeyView) -> spec_fn(LoadedView) -> bool {
    |tile: LoadedView| tile.key != key
}

/// Tells the tiles being rendered other than the given one.
pub open spec fn is_other_pending(key: KeyView, revision: u64) -> spec_fn((KeyView, u64)) -> bool {
    |tile: (KeyView, u64)| tile != (key, revision)
}

/// No two tiles have the same key.
pub open spec fn distinct_keys(loaded: Seq<LoadedView>) -> bool {
    forall|i: int, j: int|
        0 <= i < j < loaded.len() ==> (#[trigger] loaded[i]).key != (#[trigger] loaded[j]).key
}

proof fn lemma_filter_keeps_distinct_keys(loaded: Seq<LoadedView>, keep: spec_fn(LoadedView) -> bool)
    requires
        distinct_keys(loaded),
    ensures
        distinct_keys(loaded.filter(keep)),
        forall|i: int|
            0 <= i < loaded.filter(keep).len() ==> keep(#[trigger] loaded.filter(keep)[i])
                && loaded.contains(loaded.filter(keep)[i]),
    decreases loaded.len(),
{
    reveal(Seq::filter);
    if loaded.len() > 0 {
        let shorter = loaded.drop_last();
        let kept = shorter.filter(keep);
        lemma_filter_keeps_distinct_keys(shorter, keep);
        let all = loaded.filter(keep);
        assert forall|i: int| 0 <= i < all.len() implies keep(#[trigger] all[i])
            && loaded.contains(all[i]) by {
            if i < kept.len() {
                assert(all[i] == kept[i]);
                let k = choose|k: int| 0 <= k < shorter.len() && shorter[k] == kept[i];
                assert(loaded[k] == all[i]);
            } else {
                assert(loaded[loaded.len() - 1] == all[i]);
            }
        }
        assert forall|i: int, j: int| 0 <= i < j < all.len() implies (#[trigger] all[i]).key != (
        #[trigger] all[j]).key by {
            assert(all[i] == kept[i]);
            if j == kept.len() {
                let k = choose|k: int| 0 <= k < shorter.len() && shorter[k] == kept[i];
                assert(loaded[k].key != loaded[loaded.len() - 1].key);
            } else {
                assert(all[j] == kept[j]);
            }
        }
    }
}

/// The tile that was loaded last is the one found under its key, and every
/// other tile is found as before.
pub proof fn law_loaded_tile_is_found(loaded: Seq<LoadedView>, tile: LoadedView, key: KeyView)
    ensures
        lookup(with_loaded(loaded, tile), key) == if key == tile.key {
            Some((tile.revision, tile.sequence))
        } else {
            lookup(loaded, key)
        },
{
    let kept = loaded.filter(has_other_key(tile.key));
    assert(with_loaded(loaded, tile).drop_last() =~= kept);
    if key != tile.key {
        lemma_lookup_in_filter(loaded, tile.key, key);
    }
}

proof fn lemma_lookup_in_filter(loaded: Seq<LoadedView>, dropped: KeyView, key: KeyView)
    requires
        key != dropped,
    ensures
        lookup(loaded.filter(has_other_key(dropped)), key) == lookup(loaded, key),
    decreases loaded.len(),
{
    reveal(Seq::filter);
    if loaded.len() > 0 {
        let shorter = loaded.drop_last();
        lemma_lookup_in_filter(shorter, dropped, key);
        let kept = shorter.filter(has_other_key(dropped));
        if loaded.last().key != dropped {
            assert(kept.push(loaded.last()).drop_last() =~= kept);
        }
    }
}

fn retain_loaded(loaded: &Vec<LoadedTile>, keys: &Vec<TileKey>) -> (kept: Vec<LoadedTile>)
    ensures
        loaded_views(kept@) == kept_loaded(loaded_views(loaded@), key_views(keys@)),
{
    let ghost keep = stays_loaded(key_views(keys@));
    let ghost views = loaded_views(loaded@);
    let mut kept: Vec<LoadedTile> = Vec::new();
    let mut i: usize = 0;
    proof {
        reveal(Seq::filter);
        assert(views.take(0).filter(keep) =~= loaded_views(kept@));
    }
    while i < loaded.len()
        invariant
            i <= loaded.len(),
            keep == stays_loaded(key_views(keys@)),
            views == loaded_views(loaded@),
            loaded_views(kept@) == views.take(i as int).filter(keep),
        decreases loaded.len() - i,
    {
        proof {
            views.take(i as int).lemma_filter_push(views[i as int], keep);
            assert(views.take(i + 1) =~= views.take(i as int).push(views[i as int]));
        }
        if holds_key(keys, &loaded[i].key) {
            let ghost before = kept@;
            kept.push(
                LoadedTile {
                    key: loaded[i].key.clone(),
                    revision: loaded[i].revision,
                    snapshot_sequence: loaded[i].snapshot_sequence,
                },
            );
            assert(loaded_views(kept@) =~= loaded_views(before).push(views[i as int]));
        }
        i = i + 1;
    }
    assert(views.take(i as int) =~= views);
    kept
}

fn insert_loaded(loaded: &Vec<LoadedTile>, tile: LoadedTile) -> (result: Vec<LoadedTile>)
    ensures
        loaded_views(result@) == with_loaded(
            loaded_views(loaded@),
            LoadedView { key: tile.key@, revision: tile.revision, sequence: tile.snapshot_sequence },
        ),
{
    let ghost keep = has_other_key(tile.key@);
    let ghost views = loaded_views(loaded@);
    let mut result: Vec<LoadedTile> = Vec::new();
    let mut i: usize = 0;
    proof {
        reveal(Seq::filter);
        assert(views.take(0).filter(keep) =~= loaded_views(result@));
    }
    while i < loaded.len()
        invariant
            i <= loaded.len(),
            keep == has_other_key(tile.key@),
            views == loaded_views(loaded@),
            loaded_views(result@) == views.take(i as int).filter(keep),
        decreases loaded.len() - i,
    {
        proof {
            views.take(i as int).lemma_filter_push(views[i as int], keep);
            assert(views.take(i + 1) =~= views.take(i as int).push(views[i as int]));
        }
        if loaded[i].key != tile.key {
            let ghost before = result@;
            result.push(
                LoadedTile {
                    key: loaded[i].key.clone(),
                    revision: loaded[i].revision,
                    snapshot_sequence: loaded[i].snapshot_sequence,
                },
            );
            assert(loaded_views(result@) =~= loaded_views(before).push(views[i as int]));
        }
        i = i + 1;
    }
    assert(views.take(i as int) =~= views);
    let ghost before = result@;
    let ghost view = LoadedView {
        key: tile.key@,
        revision: tile.revision,
        sequence: tile.snapshot_sequence,
    };
    result.push(tile);
    assert(loaded_views(result@) =~= loaded_views(before).push(view));
    result
}

fn without_pending(pending: &Vec<PendingTile>, key: &TileKey, revision: u64) -> (kept: Vec<
    PendingTile,
>)
    ensures
        pending_views(kept@) == pending_views(pending@).filter(is_other_pending(key@, revision)),
{
    let ghost keep = is_other_pending(key@, revision);
    let ghost views = pending_views(pending@);
    let mut kept: Vec<PendingTile> = Vec::new();
    let mut i: usize = 0;
    proof {
        reveal(Seq::filter);
        assert(views.take(0).filter(keep) =~= pending_views(kept@));
    }
    while i < pending.len()
        invariant
            i <= pending.len(),
            keep == is_other_pending(key@, revision),
            views == pending_views(pending@),
            pending_views(kept@) == views.take(i as int).filter(keep),
        decreases pending.len() - i,
    {
        proof {
            views.take(i as int).lemma_filter_push(views[i as int], keep);
            assert(views.take(i + 1) =~= views.take(i as int).push(views[i as int]));
        }
        if pending[i].revision != revision || pending[i].key != *key {
            let ghost before = kept@;
            kept.push(PendingTile { key: pending[i].key.clone(), revision: pending[i].revision });
            assert(pending_views(kept@) =~= pending_views(before).push(views[i as int]));
        }
        i = i + 1;
    }
    assert(views.take(i as int) =~= views);
    kept
}

impl TileState {
    /// Takes note of the tiles that a frame wants. Others are not shown any
    /// more; and where the wanted tiles are not those of the last frame, a new
    /// generation begins, and others are not rendered any more. Returns
    /// whether that is so.
    pub fn set_requested(&mut self, requested: &Vec<TileKey>, revision: u64) -> (changed: bool)
        requires
            old(self).wf(),
        ensures
            final(self).wf(),
            changed == (key_views(requested@).to_set() != old(self).visible_view().to_set()),
            final(self).loaded_view() == kept_loaded(
                old(self).loaded_view(),
                key_views(requested@),
            ),
            final(self).visible_view() == if changed {
                key_views(requested@)
            } else {
                old(self).visible_view()
            },
            final(self).generation == if changed {
                next_generation(old(self).generation)
            } else {
                old(self).generation
            },
            final(self).pending_view() == if changed {
                kept_pending(old(self).pending_view(), revision, Some(key_views(requested@)))
            } else {
                old(self).pending_view()
            },
            final(self).last_zoom_change == old(self).last_zoom_change,
            final(self).last_rebuild_interaction == old(self).last_rebuild_interaction,
            final(self).drawing_pause == old(self).drawing_pause,
    {
        let ghost loaded = self.loaded_view();
        let ghost pending = self.pending_view();
        proof {
            assert(distinct_keys(loaded));
            lemma_filter_keeps_distinct_keys(loaded, stays_loaded(key_views(requested@)));
        }
        self.loaded = retain_loaded(&self.loaded, requested);
        assert(self.pending_view() == pending);
        assert(distinct_keys(self.loaded_view()));
        let unchanged: bool = holds_all_keys(&self.visible, requested) && holds_all_keys(
            requested,
            &self.visible,
        );
        proof {
            let wanted = key_views(requested@).to_set();
            let shown = self.visible_view().to_set();
            if unchanged {
                assert(wanted =~= shown);
            }
        }
        if unchanged {
            return false;
        }
        self.generation = following_generation(self.generation);
        self.visible = cloned_keys(requested);
        proof {
            lemma_filter_keeps_no_duplicates(
                pending,
                stays_pending(revision, Some(key_views(requested@))),
            );
        }
        self.pending = retain_pending(&self.pending, revision, Some(requested));
        true
    }

    /// Takes a tile that was rendered in some generation; `rendered` tells
    /// whether that went well.
    pub fn accept_result(
        &mut self,
        key: TileKey,
        revision: u64,
        generation: u64,
        snapshot_sequence: i64,
        rendered: bool,
    ) -> (result: TileResult)
        requires
            old(self).wf(),
        ensures
            final(self).wf(),
            result == if generation != old(self).generation {
                TileResult::Stale
            } else if !rendered {
                TileResult::Failed
            } else {
                match lookup(old(self).loaded_view(), key@) {
                    Some((loaded, _)) => if loaded <= revision {
                        TileResult::Shown
                    } else {
                        TileResult::Outdated
                    },
                    None => TileResult::Shown,
                }
            },
            final(self).pending_view() == if result == TileResult::Stale {
                old(self).pending_view()
            } else {
                old(self).pending_view().filter(is_other_pending(key@, revision))
            },
            final(self).loaded_view() == if result == TileResult::Shown {
                with_loaded(
                    old(self).loaded_view(),
                    LoadedView { key: key@, revision, sequence: snapshot_sequence },
                )
            } else {
                old(self).loaded_view()
            },
            final(self).visible_view() == old(self).visible_view(),
            final(self).generation == old(self).generation,
            final(self).last_zoom_change == old(self).last_zoom_change,
            final(self).last_rebuild_interaction == old(self).last_rebuild_interaction,
            final(self).drawing_pause == old(self).drawing_pause,
    {
        if generation != self.generation {
            return TileResult::Stale;
        }
        let ghost loaded = self.loaded_view();
        proof {
            lemma_filter_keeps_no_duplicates(
                self.pending_view(),
                is_other_pending(key@, revision),
            );
            assert(distinct_keys(loaded));
            lemma_filter_keeps_distinct_keys(loaded, has_other_key(key@));
        }
        self.pending = without_pending(&self.pending, &key, revision);
        assert(self.loaded_view() == loaded);
        if !rendered {
            return TileResult::Failed;
        }
        let replaces: bool = match self.loaded_snapshot(&key) {
            Some((loaded, _)) => loaded <= revision,
            None => true,
        };
        if !replaces {
            return TileResult::Outdated;
        }
        let ghost pending = self.pending_view();
        let ghost view = LoadedView { key: key@, revision, sequence: snapshot_sequence };
        self.loaded = insert_loaded(&self.loaded, LoadedTile { key, revision, snapshot_sequence });
        proof {
            assert(self.pending_view() == pending);
            let kept = loaded.filter(has_other_key(view.key));
            assert(self.loaded_view() == kept.push(view));
            assert(distinct_keys(self.loaded_view())) by {
                assert forall|i: int, j: int| 0 <= i < j < kept.push(view).len() implies (
                #[trigger] kept.push(view)[i]).key != (#[trigger] kept.push(view)[j]).key by {
                    assert(kept.push(view)[i] == kept[i]);
                    if j < kept.len() {
                        assert(kept.push(view)[j] == kept[j]);
                    }
                }
            }
        }
        TileResult::Shown
    }

    /// Whether nothing is being rendered.
    pub open spec fn rests(self) -> bool {
        self.pending_view() == Seq::<(KeyView, u64)>::empty()
    }

    fn restart(&mut self)
        requires
            old(self).wf(),
        ensures
            final(self).wf(),
            final(self).rests(),
            *final(self) == (TileState {
                pending: final(self).pending,
                generation: next_generation(old(self).generation),
                ..*old(self)
            }),
    {
        let ghost loaded = self.loaded_view();
        self.pending = Vec::new();
        self.generation = following_generation(self.generation);
        assert(self.pending_view() =~= Seq::<(KeyView, u64)>::empty());
        assert(self.loaded_view() == loaded);
    }

    fn forget_visible(&mut self)
        requires
            old(self).wf(),
        ensures
            final(self).wf(),
            final(self).visible_view() == Seq::<KeyView>::empty(),
            *final(self) == (TileState { visible: final(self).visible, ..*old(self) }),
    {
        let ghost loaded = self.loaded_view();
        let ghost pending = self.pending_view();
        self.visible = Vec::new();
        assert(self.visible_view() =~= Seq::<KeyView>::empty());
        assert(self.loaded_view() == loaded && self.pending_view() == pending);
    }

    /// Begins a new revision of the drawing: the tiles shown stay until others
    /// come.
    pub fn begin_new_document_revision(&mut self)
        requires
            old(self).wf(),
        ensures
            final(self).wf(),
            final(self).rests(),
            *final(self) == (TileState {
                pending: final(self).pending,
                generation: next_generation(old(self).generation),
                ..*old(self)
            }),
    {
        self.restart();
    }

    /// Asks for all tiles anew; those shown stay until others come.
    pub fn reset_tile_requests(&mut self)
        requires
            old(self).wf(),
        ensures
            final(self).wf(),
            final(self).rests(),
            final(self).visible_view() == Seq::<KeyView>::empty(),
            *final(self) == (TileState {
                pending: final(self).pending,
                visible: final(self).visible,
                generation: next_generation(old(self).generation),
                ..*old(self)
            }),
    {
        self.restart();
        self.forget_visible();
    }

    /// Drops all tiles.
    pub fn invalidate_tile_rendering(&mut self)
        requires
            old(self).wf(),
        ensures
            final(self).wf(),
            final(self).rests(),
            final(self).loaded_view() == Seq::<LoadedView>::empty(),
            final(self).visible_view() == Seq::<KeyView>::empty(),
            *final(self) == (TileState {
                loaded: final(self).loaded,
                pending: final(self).pending,
                visible: final(self).visible,
                generation: next_generation(old(self).generation),
                ..*old(self)
            }),
    {
        self.reset_tile_requests();
        let ghost pending = self.pending_view();
        self.loaded = Vec::new();
        assert(self.loaded_view() =~= Seq::<LoadedView>::empty());
        assert(self.pending_view() == pending);
    }

    /// Follows a change of a layer: where it is the top one, the tiles shown
    /// stay until others come.
    pub fn begin_new_document_revision_for_layer(&mut self, is_top_layer: bool)
        requires
            old(self).wf(),
        ensures
            final(self).wf(),
            final(self).rests(),
            final(self).generation == next_generation(old(self).generation),
            final(self).loaded_view() == if is_top_layer {
                old(self).loaded_view()
            } else {
                Seq::<LoadedView>::empty()
            },
            final(self).visible_view() == if is_top_layer {
                old(self).visible_view()
            } else {
                Seq::<KeyView>::empty()
            },
            final(self).last_zoom_change == old(self).last_zoom_change,
            final(self).last_rebuild_interaction == old(self).last_rebuild_interaction,
            final(self).drawing_pause == old(self).drawing_pause,
    {
        if is_top_layer {
            self.begin_new_document_revision();
        } else {
            self.invalidate_tile_rendering();
        }
    }

    /// Follows the opening of another document.
    pub fn document_opened(&mut self)
        requires
            old(self).wf(),
        ensures
            final(self).wf(),
            final(self).rests(),
            final(self).loaded_view() == Seq::<LoadedView>::empty(),
            final(self).visible_view() == Seq::<KeyView>::empty(),
            final(self).generation == next_generation(old(self).generation),
            final(self).last_zoom_change.is_none(),
            final(self).last_rebuild_interaction.is_none(),
            final(self).drawing_pause == old(self).drawing_pause,
    {
        self.invalidate_tile_rendering();
        let ghost before = *self;
        self.last_zoom_change = None;
        self.last_rebuild_interaction = None;
        assert(self.loaded_view() == before.loaded_view());
        assert(self.pending_view() == before.pending_view());
    }

    /// Follows a change of zoom.
    pub fn zoom_changed(&mut self, now: u64)
        requires
            old(self).wf(),
        ensures
            final(self).wf(),
            final(self).rests(),
            *final(self) == (TileState {
                pending: final(self).pending,
                generation: next_generation(old(self).generation),
                last_zoom_change: Some(now),
                ..*old(self)
            }),
    {
        self.restart();
        let ghost before = *self;
        self.last_zoom_change = Some(now);
        assert(self.loaded_view() == before.loaded_view());
        assert(self.pending_view() == before.pending_view());
    }

    /// Follows a change of the settings that say which tiles are wanted.
    pub fn apply_tile_request_settings(&mut self)
        requires
            old(self).wf(),
        ensures
            final(self).wf(),
            final(self).rests(),
            final(self).visible_view() == Seq::<KeyView>::empty(),
            *final(self) == (TileState {
                pending: final(self).pending,
                visible: final(self).visible,
                generation: next_generation(old(self).generation),
                last_rebuild_interaction: None,
                ..*old(self)
            }),
    {
        self.reset_tile_requests();
        let ghost before = *self;
        self.last_rebuild_interaction = None;
        assert(self.loaded_view() == before.loaded_view());
        assert(self.pending_view() == before.pending_view());
    }

    /// Follows a change of the pause that the user sets.
    pub fn apply_tile_generation_pause(&mut self, manual_pause: bool) -> (notice: PauseNotice)
        requires
            old(self).wf(),
        ensures
            final(self).wf(),
            final(self).rests(),
            notice == if manual_pause {
                PauseNotice::Paused
            } else if old(self).drawing_pause {
                PauseNotice::PausedWhileDrawing
            } else {
                PauseNotice::Resumed
            },
            final(self).visible_view() == if notice == PauseNotice::Resumed {
                Seq::<KeyView>::empty()
            } else {
                old(self).visible_view()
            },
            *final(self) == (TileState {
                pending: final(self).pending,
                visible: final(self).visible,
                generation: next_generation(old(self).generation),
                ..*old(self)
            }),
    {
        self.restart();
        if manual_pause {
            PauseNotice::Paused
        } else if self.drawing_pause {
            PauseNotice::PausedWhileDrawing
        } else {
            self.forget_visible();
            PauseNotice::Resumed
        }
    }

    /// Pauses while something is drawn, where the settings say so. Returns
    /// whether the pause began.
    pub fn begin_drawing_tile_pause(&mut self, enabled: bool) -> (began: bool)
        requires
            old(self).wf(),
        ensures
            final(self).wf(),
            began == (enabled && !old(self).drawing_pause),
            !began ==> *final(self) == *old(self),
            began ==> final(self).rests() && *final(self) == (TileState {
                pending: final(self).pending,
                generation: next_generation(old(self).generation),
                drawing_pause: true,
                ..*old(self)
            }),
    {
        if !enabled || self.drawing_pause {
            return false;
        }
        self.restart();
        let ghost before = *self;
        self.drawing_pause = true;
        assert(self.loaded_view() == before.loaded_view());
        assert(self.pending_view() == before.pending_view());
        true
    }

    /// Ends the pause while something is drawn. Returns whether there was one.
    pub fn end_drawing_tile_pause(&mut self) -> (ended: bool)
        requires
            old(self).wf(),
        ensures
            final(self).wf(),
            ended == old(self).drawing_pause,
            !ended ==> *final(self) == *old(self),
            ended ==> final(self).visible_view() == Seq::<KeyView>::empty() && *final(self) == (
            TileState { visible: final(self).visible, drawing_pause: false, ..*old(self) }),
    {
        if !self.drawing_pause {
            return false;
        }
        self.forget_visible();
        let ghost before = *self;
        self.drawing_pause = false;
        assert(self.loaded_view() == before.loaded_view());
        assert(self.pending_view() == before.pending_view());
        true
    }

    /// Follows a change of the setting that pauses while something is drawn.
    pub fn apply_pause_while_drawing_setting(&mut self, enabled: bool, has_draft: bool)
        requires
            old(self).wf(),
        ensures
            final(self).wf(),
            final(self).drawing_pause == (enabled && has_draft),
            final(self).loaded_view() == old(self).loaded_view(),
            final(self).last_zoom_change == old(self).last_zoom_change,
            final(self).last_rebuild_interaction == old(self).last_rebuild_interaction,
            (enabled && has_draft) == old(self).drawing_pause ==> *final(self) == *old(self),
            enabled && has_draft && !old(self).drawing_pause ==> final(self).rests()
                && final(self).visible_view() == old(self).visible_view()
                && final(self).generation == next_generation(old(self).generation),
            !(enabled && has_draft) && old(self).drawing_pause ==> final(self).pending_view()
                == old(self).pending_view() && final(self).visible_view() == Seq::<
                KeyView,
            >::empty() && final(self).generation == old(self).generation,
    {
        if enabled && has_draft {
            self.begin_drawing_tile_pause(true);
        } else {
            self.end_drawing_tile_pause();
        }
    }

    /// Whether a recent interaction puts off the rendering of tiles, where the
    /// settings say for how long.
    pub fn rebuild_is_deferred(&self, now: u64, idle_interval: Option<u64>) -> (deferred: bool)
        ensures
            deferred == (idle_interval.is_some() && within(
                self.last_rebuild_interaction,
                now,
                idle_interval.unwrap(),
            )),
    {
        match idle_interval {
            Some(interval) => tile_rebuild_deferred_since(
                self.last_rebuild_interaction,
                now,
                interval,
            ),
            None => false,
        }
    }

    /// Takes note of whether the user is interacting: an interaction that
    /// begins after a rest stops what is being rendered.
    pub fn update_rebuild_interaction(
        &mut self,
        interaction_active: bool,
        now: u64,
        idle_interval: Option<u64>,
    )
        requires
            old(self).wf(),
        ensures
            final(self).wf(),
            ({
                let deferred = idle_interval.is_some() && within(
                    old(self).last_rebuild_interaction,
                    now,
                    idle_interval.unwrap(),
                );
                let begins = idle_interval.is_some() && interaction_active && !deferred;
                &&& final(self).last_rebuild_interaction == if idle_interval.is_none() {
                    None
                } else if interaction_active {
                    Some(now)
                } else if deferred {
                    old(self).last_rebuild_interaction
                } else {
                    None
                }
                &&& final(self).generation == if begins {
                    next_generation(old(self).generation)
                } else {
                    old(self).generation
                }
                &&& final(self).pending_view() == if begins {
                    Seq::<(KeyView, u64)>::empty()
                } else {
                    old(self).pending_view()
                }
                &&& final(self).loaded_view() == old(self).loaded_view()
                &&& final(self).visible_view() == old(self).visible_view()
                &&& final(self).last_zoom_change == old(self).last_zoom_change
                &&& final(self).drawing_pause == old(self).drawing_pause
            }),
    {
        let ghost start = *self;
        let interval: u64 = match idle_interval {
            Some(interval) => interval,
            None => {
                self.last_rebuild_interaction = None;
                assert(self.loaded_view() == start.loaded_view());
                assert(self.pending_view() == start.pending_view());
                assert(self.visible_view() == start.visible_view());
                return ;
            },
        };
        let deferred: bool = tile_rebuild_deferred_since(
            self.last_rebuild_interaction,
            now,
            interval,
        );
        if interaction_active {
            if !deferred {
                self.restart();
            }
            let ghost before = *self;
            self.last_rebuild_interaction = Some(now);
            assert(self.loaded_view() == before.loaded_view());
            assert(self.pending_view() == before.pending_view());
            assert(self.visible_view() == before.visible_view());
        } else if !deferred {
            self.last_rebuild_interaction = None;
            assert(self.loaded_view() == start.loaded_view());
            assert(self.pending_view() == start.pending_view());
            assert(self.visible_view() == start.visible_view());
        }
    }
}

proof fn lemma_filter_keeps_no_duplicates<A>(items: Seq<A>, keep: spec_fn(A) -> bool)
    requires
        items.no_duplicates(),
    ensures
        items.filter(keep).no_duplicates(),
        forall|a: A| #[trigger] items.filter(keep).contains(a) <==> items.contains(a) && keep(a),
    decreases items.len(),
{
    reveal(Seq::filter);
    if items.len() > 0 {
        let shorter = items.drop_last();
        lemma_filter_keeps_no_duplicates(shorter, keep);
        assert(items =~= shorter.push(items.last()));
        assert forall|a: A| items.contains(a) <==> shorter.contains(a) || a == items.last() by {
            if shorter.contains(a) {
                let k = choose|k: int| 0 <= k < shorter.len() && shorter[k] == a;
                assert(items[k] == a);
            }
            if items.contains(a) && a != items.last() {
                let k = choose|k: int| 0 <= k < items.len() && items[k] == a;
                assert(shorter[k] == a);
            }
            assert(items[items.len() - 1] == items.last());
        }
        assert(!shorter.contains(items.last()));
        let kept = shorter.filter(keep);
        if keep(items.last()) {
            assert(items.filter(keep) == kept.push(items.last()));
            assert forall|a: A| #[trigger] items.filter(keep).contains(a) <==> items.contains(a)
                && keep(a) by {
                if kept.contains(a) {
                    let k = choose|k: int| 0 <= k < kept.len() && kept[k] == a;
                    assert(items.filter(keep)[k] == a);
                }
                if items.filter(keep).contains(a) && a != items.last() {
                    let k = choose|k: int|
                        0 <= k < items.filter(keep).len() && items.filter(keep)[k] == a;
                    assert(kept[k] == a);
                }
                assert(items.filter(keep)[kept.len() as int] == items.last());
            }
            assert(!kept.contains(items.last()));
        }
    }
}

/// What is asked for stays pending while it is of the revision shown and, where
/// only some tiles are wanted, among them; in order, and nothing else does.
pub proof fn law_wanted_tiles_stay_pending(
    pending: Seq<(KeyView, u64)>,
    revision: u64,
    keys: Seq<KeyView>,
    tile: (KeyView, u64),
)
    ensures
        kept_pending(pending, revision, None).contains(tile) <==> pending.contains(tile) && tile.1
            == revision,
        kept_pending(pending, revision, Some(keys)).contains(tile) <==> pending.contains(tile)
            && tile.1 == revision && keys.contains(tile.0),
{
    lemma_filtered(pending, stays_pending(revision, None), tile);
    lemma_filtered(pending, stays_pending(revision, Some(keys)), tile);
}

proof fn lemma_filtered<T>(list: Seq<T>, keeps: spec_fn(T) -> bool, item: T)
    ensures
        list.filter(keeps).contains(item) <==> list.contains(item) && keeps(item),
{
    broadcast use vstd::seq_lib::group_filter_ensures;

    if list.filter(keeps).contains(item) {
        let i = list.filter(keeps).index_of(item);
        assert(keeps(list.filter(keeps)[i]));
        list.lemma_filter_contains_rev(keeps, item);
    }
    if list.contains(item) && keeps(item) {
        let i = list.index_of(item);
        assert(list.filter(keeps).contains(list[i]));
    }
}

/// A loaded tile stays while it is among those wanted.
pub proof fn law_wanted_tiles_stay_loaded(
    loaded: Seq<LoadedView>,
    keys: Seq<KeyView>,
    tile: LoadedView,
)
    ensures
        kept_loaded(loaded, keys).contains(tile) <==> loaded.contains(tile) && keys.contains(
            tile.key,
        ),
{
    lemma_filtered(loaded, stays_loaded(keys), tile);
}

/// What has been answered is not pending any more, and everything else still is.
pub proof fn law_only_the_answered_tile_is_settled(
    pending: Seq<(KeyView, u64)>,
    key: KeyView,
    revision: u64,
    tile: (KeyView, u64),
)
    ensures
        pending.filter(is_other_pending(key, revision)).contains(tile) <==> pending.contains(tile)
            && (tile.0 != key || tile.1 != revision),
{
    lemma_filtered(pending, is_other_pending(key, revision), tile);
}

/// A tile is missing if and only if it is neither loaded in the revision shown nor
/// asked for in it.
pub proof fn law_missing_tiles_are_neither_loaded_nor_pending(
    state: TileState,
    key: KeyView,
    revision: u64,
)
    requires
        state.wf(),
    ensures
        state.is_missing(key, revision) <==> (forall|i: int|
            0 <= i < state.loaded_view().len() && (#[trigger] state.loaded_view()[i]).key == key
                ==> state.loaded_view()[i].revision != revision) && !state.pending_view().contains(
            (key, revision),
        ),
{
    let loaded = state.loaded_view();
    lemma_lookup(loaded, key);
    if let Some((found, sequence)) = lookup(loaded, key) {
        let at = choose|at: int|
            0 <= at < loaded.len() && (#[trigger] loaded[at]).key == key && loaded[at].revision
                == found && loaded[at].sequence == sequence;
        assert forall|i: int|
            0 <= i < loaded.len() && (#[trigger] loaded[i]).key == key implies i == at by {
            if i < at {
                assert(loaded[i].key != loaded[at].key);
            }
            if at < i {
                assert(loaded[at].key != loaded[i].key);
            }
        }
    }
}

proof fn lemma_lookup(loaded: Seq<LoadedView>, key: KeyView)
    ensures
        match lookup(loaded, key) {
            Some((revision, sequence)) => exists|at: int|
                0 <= at < loaded.len() && (#[trigger] loaded[at]).key == key && loaded[at].revision
                    == revision && loaded[at].sequence == sequence,
            None => forall|i: int| 0 <= i < loaded.len() ==> (#[trigger] loaded[i]).key != key,
        },
    decreases loaded.len(),
{
    if loaded.len() > 0 {
        let rest = loaded.drop_last();
        let last = loaded.len() - 1;
        assert(loaded[last] == loaded.last());
        if loaded.last().key != key {
            lemma_lookup(rest, key);
            if let Some((revision, sequence)) = lookup(rest, key) {
                let at = choose|at: int|
                    0 <= at < rest.len() && (#[trigger] rest[at]).key == key && rest[at].revision
                        == revision && rest[at].sequence == sequence;
                assert(loaded[at] == rest[at]);
            } else {
                assert forall|i: int| 0 <= i < loaded.len() implies (#[trigger] loaded[i]).key
                    != key by {
                    if i < rest.len() {
                        assert(rest[i] == loaded[i]);
                    }
                }
            }
        }
    }
}

/// Each generation is later than the one before, as long as they can be counted.
pub proof fn law_generations_go_on(generation: u64)
    ensures
        generation < u64::MAX ==> next_generation(generation) == generation + 1,
        next_generation(u64::MAX) == u64::MAX,
{
}

} // verus!
