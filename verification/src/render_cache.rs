//! What is kept between frames of drawing operations directly.

use crate::camera::{same_camera, CameraAddress};
use crate::fallback::{
    render_variant, saved_fallback_render_variant, StrokeFallbackJoinMode,
};
use crate::model::EditOperation;
use crate::screen::{Position, ScreenRect};
use std::collections::HashMap;
use vstd::prelude::*;

verus! {

broadcast use vstd::std_specs::hash::group_hash_axioms;

/// What the kept points of a frame depend on.
pub struct SavedFallbackRenderFrameKey {
    pub camera: CameraAddress,
    /// The canvas on the screen, compared pattern by pattern.
    pub rect: ScreenRect,
    /// The place of the chosen smoothing among all.
    pub smoothing: u8,
    pub stroke_fallback_joins: StrokeFallbackJoinMode,
    pub fill_fallback_max_points: usize,
}

/// Whether what was kept for one frame serves the other.
pub open spec fn same_frame(
    left: SavedFallbackRenderFrameKey,
    right: SavedFallbackRenderFrameKey,
) -> bool {
    &&& same_camera(left.camera, right.camera)
    &&& left.rect == right.rect
    &&& left.smoothing == right.smoothing
    &&& left.stroke_fallback_joins == right.stroke_fallback_joins
    &&& left.fill_fallback_max_points == right.fill_fallback_max_points
}

impl SavedFallbackRenderFrameKey {
    /// Whether what was kept for one frame serves the other.
    pub fn same_as(&self, other: &SavedFallbackRenderFrameKey) -> (same: bool)
        ensures
            same == same_frame(*self, *other),
    {
        self.camera.same_as(&other.camera) && self.rect.min.x == other.rect.min.x
            && self.rect.min.y == other.rect.min.y && self.rect.max.x == other.rect.max.x
            && self.rect.max.y == other.rect.max.y && self.smoothing
            == other.smoothing && self.stroke_fallback_joins == other.stroke_fallback_joins
            && self.fill_fallback_max_points == other.fill_fallback_max_points
    }
}

/// Whose points are kept, and how they were derived.
#[derive(Debug, Clone, Copy, PartialEq, Eq, Structural)]
pub struct SavedFallbackRenderOperationKey {
    /// The operation itself, or the block it is part of.
    pub scope_id: u128,
    pub operation_id: u128,
    pub sequence: i64,
    pub render_variant: u8,
}

/// How operations are drawn in a frame.
#[derive(Debug, Clone, Copy, PartialEq, Eq, Structural)]
pub struct RenderStyle {
    pub stroke_fallback_joins: StrokeFallbackJoinMode,
    pub auto_fast_stroke_fallback: bool,
    pub smoothing_passes: u8,
}

/// Under which key the points of an operation are kept.
pub open spec fn operation_key(
    scope_id: u128,
    operation: EditOperation,
    style: RenderStyle,
) -> SavedFallbackRenderOperationKey {
    SavedFallbackRenderOperationKey {
        scope_id,
        operation_id: operation.id,
        sequence: operation.sequence,
        render_variant: render_variant(
            operation,
            style.stroke_fallback_joins,
            style.auto_fast_stroke_fallback,
            style.smoothing_passes,
        ) as u8,
    }
}

/// Under which key the points of an operation are kept.
pub fn saved_fallback_operation_key(
    scope_id: u128,
    operation: &EditOperation,
    style: RenderStyle,
) -> (key: SavedFallbackRenderOperationKey)
    ensures
        key == operation_key(scope_id, *operation, style),
{
    SavedFallbackRenderOperationKey {
        scope_id,
        operation_id: operation.id,
        sequence: operation.sequence,
        render_variant: saved_fallback_render_variant(
            operation,
            style.stroke_fallback_joins,
            style.auto_fast_stroke_fallback,
            style.smoothing_passes,
        ),
    }
}

/// Values by the keys of operations.
pub struct RenderStore<V> {
    entries: Vec<(SavedFallbackRenderOperationKey, V)>,
}

spec fn entries_map<V>(entries: Seq<(SavedFallbackRenderOperationKey, V)>) -> Map<
    SavedFallbackRenderOperationKey,
    V,
>
    decreases entries.len(),
{
    if entries.len() == 0 {
        Map::empty()
    } else {
        entries_map(entries.drop_last()).insert(entries.last().0, entries.last().1)
    }
}

spec fn keys_differ<V>(entries: Seq<(SavedFallbackRenderOperationKey, V)>) -> bool {
    forall|i: int, j: int|
        0 <= i < j < entries.len() ==> (#[trigger] entries[i]).0 != (#[trigger] entries[j]).0
}

proof fn lemma_entries<V>(
    entries: Seq<(SavedFallbackRenderOperationKey, V)>,
    key: SavedFallbackRenderOperationKey,
)
    requires
        keys_differ(entries),
    ensures
        entries_map(entries).contains_key(key) ==> exists|i: int|
            0 <= i < entries.len() && (#[trigger] entries[i]).0 == key,
        forall|i: int|
            0 <= i < entries.len() && (#[trigger] entries[i]).0 == key ==> entries_map(
                entries,
            ).contains_key(key) && entries_map(entries)[key] == entries[i].1,
        entries_map(entries).dom().finite(),
        entries_map(entries).dom().len() == entries.len(),
    decreases entries.len(),
{
    if entries.len() > 0 {
        let front = entries.drop_last();
        lemma_entries(front, key);
        lemma_entries(front, entries.last().0);
        assert forall|i: int| 0 <= i < entries.len() && (#[trigger] entries[i]).0
            == key implies entries_map(entries).contains_key(key) && entries_map(entries)[key]
            == entries[i].1 by {
            if i < front.len() {
                assert(front[i] == entries[i]);
                assert(entries[i].0 != entries[entries.len() - 1].0);
            }
        }
        if entries_map(entries).contains_key(key) {
            if key == entries.last().0 {
                assert(entries[entries.len() - 1].0 == key);
            } else {
                let i = choose|i: int| 0 <= i < front.len() && (#[trigger] front[i]).0 == key;
                assert(entries[i].0 == key);
            }
        }
        if entries_map(front).contains_key(entries.last().0) {
            let i = choose|i: int|
                0 <= i < front.len() && (#[trigger] front[i]).0 == entries.last().0;
            assert(entries[i].0 == entries[entries.len() - 1].0);
        }
        assert(entries_map(entries).dom() =~= entries_map(front).dom().insert(entries.last().0));
    }
}

proof fn lemma_entries_replaced<V>(
    entries: Seq<(SavedFallbackRenderOperationKey, V)>,
    at: int,
    value: V,
)
    requires
        keys_differ(entries),
        0 <= at < entries.len(),
    ensures
        entries_map(entries.update(at, (entries[at].0, value))) == entries_map(entries).insert(
            entries[at].0,
            value,
        ),
        keys_differ(entries.update(at, (entries[at].0, value))),
    decreases entries.len(),
{
    let front = entries.drop_last();
    let changed = entries.update(at, (entries[at].0, value));
    assert forall|i: int, j: int| 0 <= i < j < changed.len() implies (#[trigger] changed[i]).0 != (
    #[trigger] changed[j]).0 by {
        assert(changed[i].0 == entries[i].0);
        assert(changed[j].0 == entries[j].0);
    }
    if at == entries.len() - 1 {
        assert(changed.drop_last() =~= front);
        assert(entries_map(changed) =~= entries_map(entries).insert(entries[at].0, value));
    } else {
        lemma_entries_replaced(front, at, value);
        assert(changed.drop_last() =~= front.update(at, (front[at].0, value)));
        assert(changed.last() == entries.last());
        assert(entries[at].0 != entries[entries.len() - 1].0);
        assert(entries_map(changed) =~= entries_map(entries).insert(entries[at].0, value));
    }
}

impl<V> View for RenderStore<V> {
    type V = Map<SavedFallbackRenderOperationKey, V>;

    closed spec fn view(&self) -> Map<SavedFallbackRenderOperationKey, V> {
        entries_map(self.entries@)
    }
}

impl<V> RenderStore<V> {
    /// No key is there twice.
    pub closed spec fn wf(self) -> bool {
        keys_differ(self.entries@)
    }

    /// An empty store.
    pub fn new() -> (store: Self)
        ensures
            store.wf(),
            store@ == Map::<SavedFallbackRenderOperationKey, V>::empty(),
    {
        RenderStore { entries: Vec::new() }
    }

    /// How many values are kept.
    pub fn len(&self) -> (count: usize)
        requires
            self.wf(),
        ensures
            self@.dom().finite(),
            count == self@.dom().len(),
    {
        proof {
            lemma_entries(
                self.entries@,
                SavedFallbackRenderOperationKey {
                    scope_id: 0,
                    operation_id: 0,
                    sequence: 0,
                    render_variant: 0,
                },
            );
        }
        self.entries.len()
    }

    fn find(&self, key: SavedFallbackRenderOperationKey) -> (at: Option<usize>)
        requires
            self.wf(),
        ensures
            at is Some == self@.contains_key(key),
            at is Some ==> at->0 < self.entries@.len() && self.entries@[at->0 as int].0 == key
                && self@[key] == self.entries@[at->0 as int].1,
    {
        proof {
            lemma_entries(self.entries@, key);
        }
        let mut i: usize = 0;
        while i < self.entries.len()
            invariant
                i <= self.entries@.len(),
                forall|k: int| 0 <= k < i ==> (#[trigger] self.entries@[k]).0 != key,
                forall|k: int|
                    0 <= k < self.entries@.len() && (#[trigger] self.entries@[k]).0 == key
                        ==> self@.contains_key(key) && self@[key] == self.entries@[k].1,
            decreases self.entries@.len() - i,
        {
            if self.entries[i].0 == key {
                return Some(i);
            }
            i = i + 1;
        }
        None
    }

    /// What is kept under the key.
    pub fn get(&self, key: SavedFallbackRenderOperationKey) -> (value: Option<&V>)
        requires
            self.wf(),
        ensures
            value == if self@.contains_key(key) {
                Some(&self@[key])
            } else {
                None
            },
    {
        match self.find(key) {
            Some(at) => Some(&self.entries[at].1),
            None => None,
        }
    }

    /// Keeps a value under the key, in place of what was there.
    pub fn insert(&mut self, key: SavedFallbackRenderOperationKey, value: V)
        requires
            old(self).wf(),
        ensures
            final(self).wf(),
            final(self)@ == old(self)@.insert(key, value),
    {
        match self.find(key) {
            Some(at) => {
                proof {
                    lemma_entries_replaced(self.entries@, at as int, value);
                }
                self.entries.set(at, (key, value));
            },
            None => {
                let ghost before = self.entries@;
                proof {
                    lemma_entries(before, key);
                }
                self.entries.push((key, value));
                assert(self.entries@.drop_last() =~= before);
            },
        }
    }

    /// Drops everything.
    pub fn clear(&mut self)
        ensures
            final(self).wf(),
            final(self)@ == Map::<SavedFallbackRenderOperationKey, V>::empty(),
    {
        self.entries.clear();
    }
}

/// The points derived for a frame, and what clipping left of them.
pub struct SavedFallbackRenderCache {
    pub frame_key: Option<SavedFallbackRenderFrameKey>,
    pub points: RenderStore<Vec<Position>>,
    pub clipped_stroke_runs: RenderStore<Vec<Vec<Position>>>,
    pub clipped_area_polygons: RenderStore<Vec<Position>>,
}

/// Whether each point of the one path is the other's, transformed.
pub open spec fn transformed_by<F: Fn(Position) -> Position>(
    transform: F,
    source: Seq<Position>,
    target: Seq<Position>,
) -> bool {
    &&& target.len() == source.len()
    &&& forall|i: int|
        0 <= i < source.len() ==> call_ensures(transform, (source[i],), #[trigger] target[i])
}

impl SavedFallbackRenderCache {
    /// No key is there twice.
    pub open spec fn wf(self) -> bool {
        self.points.wf() && self.clipped_stroke_runs.wf() && self.clipped_area_polygons.wf()
    }

    /// Nothing is kept, for no frame.
    pub open spec fn is_clear(self) -> bool {
        &&& self.frame_key is None
        &&& self.holds_nothing()
    }

    /// Nothing is kept.
    pub open spec fn holds_nothing(self) -> bool {
        &&& self.points@ == Map::<SavedFallbackRenderOperationKey, Vec<Position>>::empty()
        &&& self.clipped_stroke_runs@ == Map::<
            SavedFallbackRenderOperationKey,
            Vec<Vec<Position>>,
        >::empty()
        &&& self.clipped_area_polygons@ == Map::<
            SavedFallbackRenderOperationKey,
            Vec<Position>,
        >::empty()
    }

    /// Nothing.
    pub fn new() -> (cache: Self)
        ensures
            cache.wf(),
            cache.is_clear(),
    {
        SavedFallbackRenderCache {
            frame_key: None,
            points: RenderStore::new(),
            clipped_stroke_runs: RenderStore::new(),
            clipped_area_polygons: RenderStore::new(),
        }
    }

    /// Keeps everything while the frames stay the same, and starts over with
    /// another one.
    pub fn begin_frame(&mut self, frame_key: SavedFallbackRenderFrameKey)
        requires
            old(self).wf(),
        ensures
            final(self).wf(),
            old(self).frame_key is Some && same_frame(old(self).frame_key->0, frame_key)
                ==> *final(self) == *old(self),
            !(old(self).frame_key is Some && same_frame(old(self).frame_key->0, frame_key))
                ==> final(self).frame_key == Some(frame_key) && final(self).holds_nothing(),
    {
        let same: bool = match &self.frame_key {
            Some(key) => key.same_as(&frame_key),
            None => false,
        };
        if !same {
            self.frame_key = Some(frame_key);
            self.points.clear();
            self.clipped_stroke_runs.clear();
            self.clipped_area_polygons.clear();
        }
    }

    /// The points kept for an operation.
    pub fn get(&self, key: SavedFallbackRenderOperationKey) -> (points: Option<&Vec<Position>>)
        requires
            self.wf(),
        ensures
            points == if self.points@.contains_key(key) {
                Some(&self.points@[key])
            } else {
                None
            },
    {
        self.points.get(key)
    }

    /// Keeps the points derived for an operation.
    pub fn insert(&mut self, key: SavedFallbackRenderOperationKey, points: Vec<Position>)
        requires
            old(self).wf(),
        ensures
            final(self).wf(),
            final(self).points@ == old(self).points@.insert(key, points),
            final(self).frame_key == old(self).frame_key,
            final(self).clipped_stroke_runs == old(self).clipped_stroke_runs,
            final(self).clipped_area_polygons == old(self).clipped_area_polygons,
    {
        self.points.insert(key, points);
    }

    /// Keeps for the target the transformed points of the source, where those
    /// are kept. Returns whether they were.
    pub fn insert_transformed_from<F: Fn(Position) -> Position>(
        &mut self,
        source_key: SavedFallbackRenderOperationKey,
        target_key: SavedFallbackRenderOperationKey,
        transform: &F,
    ) -> (inserted: bool)
        requires
            old(self).wf(),
            forall|position: Position| #[trigger] call_requires(*transform, (position,)),
        ensures
            final(self).wf(),
            inserted == old(self).points@.contains_key(source_key),
            !inserted ==> *final(self) == *old(self),
            inserted ==> final(self).points@.contains_key(target_key) && final(self).points@
                == old(self).points@.insert(target_key, final(self).points@[target_key])
                && transformed_by(
                *transform,
                old(self).points@[source_key]@,
                final(self).points@[target_key]@,
            ),
            final(self).frame_key == old(self).frame_key,
            final(self).clipped_stroke_runs == old(self).clipped_stroke_runs,
            final(self).clipped_area_polygons == old(self).clipped_area_polygons,
    {
        let mut transformed: Vec<Position> = Vec::new();
        match self.points.get(source_key) {
            Some(points) => {
                let mut i: usize = 0;
                while i < points.len()
                    invariant
                        i <= points.len(),
                        transformed_by(*transform, points@.take(i as int), transformed@),
                        forall|position: Position| #[trigger]
                            call_requires(*transform, (position,)),
                    decreases points.len() - i,
                {
                    let position: Position = (*transform)(points[i]);
                    transformed.push(position);
                    i = i + 1;
                    assert forall|k: int| 0 <= k < i implies call_ensures(
                        *transform,
                        (points@.take(i as int)[k],),
                        #[trigger] transformed@[k],
                    ) by {
                        if k < i - 1 {
                            assert(points@.take(i - 1)[k] == points@[k]);
                        }
                    }
                }
                assert(points@.take(i as int) =~= points@);
            },
            None => {
                return false;
            },
        }
        self.insert(target_key, transformed);
        true
    }

    /// The parts kept for a stroke.
    pub fn get_clipped_stroke_runs(&self, key: SavedFallbackRenderOperationKey) -> (runs: Option<
        &Vec<Vec<Position>>,
    >)
        requires
            self.wf(),
        ensures
            runs == if self.clipped_stroke_runs@.contains_key(key) {
                Some(&self.clipped_stroke_runs@[key])
            } else {
                None
            },
    {
        self.clipped_stroke_runs.get(key)
    }

    /// Keeps the parts of a stroke.
    pub fn insert_clipped_stroke_runs(
        &mut self,
        key: SavedFallbackRenderOperationKey,
        runs: Vec<Vec<Position>>,
    )
        requires
            old(self).wf(),
        ensures
            final(self).wf(),
            final(self).clipped_stroke_runs@ == old(self).clipped_stroke_runs@.insert(key, runs),
            final(self).frame_key == old(self).frame_key,
            final(self).points == old(self).points,
            final(self).clipped_area_polygons == old(self).clipped_area_polygons,
    {
        self.clipped_stroke_runs.insert(key, runs);
    }

    /// The part kept for an area.
    pub fn get_clipped_area_polygon(&self, key: SavedFallbackRenderOperationKey) -> (polygon:
        Option<&Vec<Position>>)
        requires
            self.wf(),
        ensures
            polygon == if self.clipped_area_polygons@.contains_key(key) {
                Some(&self.clipped_area_polygons@[key])
            } else {
                None
            },
    {
        self.clipped_area_polygons.get(key)
    }

    /// Keeps the part of an area.
    pub fn insert_clipped_area_polygon(
        &mut self,
        key: SavedFallbackRenderOperationKey,
        polygon: Vec<Position>,
    )
        requires
            old(self).wf(),
        ensures
            final(self).wf(),
            final(self).clipped_area_polygons@ == old(self).clipped_area_polygons@.insert(
                key,
                polygon,
            ),
            final(self).frame_key == old(self).frame_key,
            final(self).points == old(self).points,
            final(self).clipped_stroke_runs == old(self).clipped_stroke_runs,
    {
        self.clipped_area_polygons.insert(key, polygon);
    }

    /// Drops everything.
    pub fn clear(&mut self)
        ensures
            final(self).wf(),
            final(self).is_clear(),
    {
        self.frame_key = None;
        self.points.clear();
        self.clipped_stroke_runs.clear();
        self.clipped_area_polygons.clear();
    }

    /// For how many operations points are kept.
    pub fn cached_operation_count(&self) -> (count: usize)
        requires
            self.wf(),
        ensures
            self.points@.dom().finite(),
            count == self.points@.dom().len(),
    {
        self.points.len()
    }
}

/// Whether the bounds of an operation were known, and whether they may lie on
/// the screen.
#[derive(Debug, Clone, Copy, PartialEq, Eq, Structural)]
pub struct OperationBoundsLookup {
    pub cache_hit: bool,
    pub may_intersect: bool,
}

/// The bounds of operations, where they have any.
pub struct OperationBoundsCache<B> {
    entries: HashMap<u128, Option<B>>,
}

impl<B> View for OperationBoundsCache<B> {
    type V = Map<u128, Option<B>>;

    closed spec fn view(&self) -> Map<u128, Option<B>> {
        self.entries@
    }
}

/// Whether the answer is right for the bounds: an operation without bounds is
/// nowhere on the screen.
pub open spec fn may_intersect<B, G: Fn(&EditOperation, &B) -> bool>(
    intersects: G,
    operation: EditOperation,
    bounds: Option<B>,
    answer: bool,
) -> bool {
    match bounds {
        Some(bounds) => call_ensures(intersects, (&operation, &bounds), answer),
        None => !answer,
    }
}

impl<B> OperationBoundsCache<B> {
    /// No bounds.
    pub fn new() -> (cache: Self)
        ensures
            cache@ == Map::<u128, Option<B>>::empty(),
    {
        OperationBoundsCache { entries: HashMap::new() }
    }

    /// Whether the operation may lie on the screen. Its bounds are computed
    /// once.
    pub fn operation_may_intersect_screen_rect<
        F: Fn(&EditOperation) -> Option<B>,
        G: Fn(&EditOperation, &B) -> bool,
    >(&mut self, operation: &EditOperation, bounds_of: &F, intersects: &G) -> (lookup:
        OperationBoundsLookup)
        requires
            call_requires(*bounds_of, (operation,)),
            forall|operation: EditOperation, bounds: B| #[trigger]
                call_requires(*intersects, (&operation, &bounds)),
        ensures
            lookup.cache_hit == old(self)@.contains_key(operation.id),
            final(self)@.contains_key(operation.id),
            lookup.cache_hit ==> final(self)@ == old(self)@,
            !lookup.cache_hit ==> final(self)@ == old(self)@.insert(
                operation.id,
                final(self)@[operation.id],
            ) && call_ensures(*bounds_of, (operation,), final(self)@[operation.id]),
            may_intersect(*intersects, *operation, final(self)@[operation.id], lookup.may_intersect),
    {
        let cache_hit: bool = self.entries.contains_key(&operation.id);
        if !cache_hit {
            let bounds: Option<B> = (*bounds_of)(operation);
            self.entries.insert(operation.id, bounds);
        }
        let may_intersect: bool = match self.entries.get(&operation.id) {
            Some(known) => match known {
                Some(bounds) => (*intersects)(operation, bounds),
                None => false,
            },
            None => false,
        };
        OperationBoundsLookup { cache_hit, may_intersect }
    }

    /// For how many operations the bounds are known.
    pub fn len(&self) -> (count: usize)
        ensures
            count == self@.dom().len(),
    {
        self.entries.len()
    }

    /// Forgets all bounds.
    pub fn clear(&mut self)
        ensures
            final(self)@ == Map::<u128, Option<B>>::empty(),
    {
        self.entries.clear();
    }
}

/// What is kept of a frame can be used again only if nothing about it has changed:
/// not the camera, the canvas, the smoothing, the joins or how fine fills are.
pub proof fn law_frames_are_the_same_in_everything(
    left: SavedFallbackRenderFrameKey,
    right: SavedFallbackRenderFrameKey,
)
    ensures
        left.rect != right.rect || left.smoothing != right.smoothing || left.stroke_fallback_joins
            != right.stroke_fallback_joins || left.fill_fallback_max_points
            != right.fill_fallback_max_points || !same_camera(left.camera, right.camera)
            ==> !same_frame(left, right),
        same_camera(left.camera, left.camera) ==> same_frame(left, left),
{
}

/// Two operations, or one in two scopes or of two sequence numbers, are kept apart.
pub proof fn law_operations_are_kept_apart(
    scope: u128,
    other_scope: u128,
    operation: EditOperation,
    other: EditOperation,
    style: RenderStyle,
)
    ensures
        scope != other_scope || operation.id != other.id || operation.sequence != other.sequence
            ==> operation_key(scope, operation, style) != operation_key(other_scope, other, style),
{
}

/// A path is transformed point by point: each point to where the transform takes
/// it, so that one path comes to one other.
pub proof fn law_paths_are_transformed_point_by_point<F: Fn(Position) -> Position>(
    transform: F,
    source: Seq<Position>,
    target: Seq<Position>,
    expected: Seq<Position>,
)
    requires
        transformed_by(transform, source, target),
        expected.len() == source.len(),
        forall|i: int, to: Position|
            0 <= i < source.len() && #[trigger] call_ensures(transform, (source[i],), to) ==> to
                == expected[i],
    ensures
        target == expected,
{
    assert forall|i: int| 0 <= i < target.len() implies target[i] == expected[i] by {
        assert(call_ensures(transform, (source[i],), target[i]));
    }
    assert(target =~= expected);
}

/// Where nothing is kept, no operation has points, lines or an area.
pub proof fn law_nothing_is_kept_for_any_operation(
    cache: SavedFallbackRenderCache,
    key: SavedFallbackRenderOperationKey,
)
    requires
        cache.holds_nothing(),
    ensures
        !cache.points@.contains_key(key),
        !cache.clipped_stroke_runs@.contains_key(key),
        !cache.clipped_area_polygons@.contains_key(key),
{
}

} // verus!
