//! Which operations are drawn directly in a frame, and in what groups.

use crate::fallback::{
    consume_segmented_fallback_budget, fallback_operation_skip_count, segmented_shapes,
    skip_count, stroke_fallback_shapes, stroke_shapes, stroke_stats, FallbackFrameStats,
    StrokeShape,
};
use crate::model::EditOperation;
use crate::render_cache::{
    may_intersect, operation_key, saved_fallback_operation_key, OperationBoundsCache,
    OperationBoundsLookup, RenderStyle, SavedFallbackRenderCache,
};
use vstd::prelude::*;

verus! {

/// The places, among the first `count`, of the operations after a sequence.
pub open spec fn eligible(
    operations: Seq<EditOperation>,
    after_sequence: Option<i64>,
    count: int,
) -> Seq<usize>
    decreases count,
{
    if count <= 0 {
        seq![]
    } else if after_sequence is None || operations[count - 1].sequence > after_sequence->0 {
        eligible(operations, after_sequence, count - 1).push((count - 1) as usize)
    } else {
        eligible(operations, after_sequence, count - 1)
    }
}

/// Whether the operation at a place in the list belongs to the fill group of
/// the one before.
pub open spec fn continues_group(
    operations: Seq<EditOperation>,
    indices: Seq<usize>,
    at: int,
) -> bool {
    operations[indices[at] as int].shares_fill_group(operations[indices[at - 1] as int])
}

/// The last place up to `at` at which no fill group is split.
pub open spec fn group_boundary(
    operations: Seq<EditOperation>,
    indices: Seq<usize>,
    at: int,
) -> int
    decreases at,
{
    if 0 < at < indices.len() && continues_group(operations, indices, at) {
        group_boundary(operations, indices, at - 1)
    } else {
        at
    }
}

/// How many of the oldest operations are left out: those beyond the limit, but
/// no part of a fill group of which another part is drawn.
pub open spec fn left_out(
    operations: Seq<EditOperation>,
    indices: Seq<usize>,
    operation_limit: Option<usize>,
) -> int {
    group_boundary(operations, indices, skip_count(indices.len() as int, operation_limit))
}

proof fn lemma_eligible(operations: Seq<EditOperation>, after_sequence: Option<i64>, count: int)
    requires
        0 <= count <= operations.len(),
        operations.len() <= usize::MAX,
    ensures
        eligible(operations, after_sequence, count).len() <= count,
        forall|i: int|
            0 <= i < eligible(operations, after_sequence, count).len() ==> (#[trigger] eligible(
                operations,
                after_sequence,
                count,
            )[i]) < count,
    decreases count,
{
    if count > 0 {
        lemma_eligible(operations, after_sequence, count - 1);
    }
}

proof fn lemma_group_boundary(operations: Seq<EditOperation>, indices: Seq<usize>, at: int)
    requires
        0 <= at <= indices.len(),
    ensures
        0 <= group_boundary(operations, indices, at) <= at,
        0 < group_boundary(operations, indices, at) < indices.len() ==> !continues_group(
            operations,
            indices,
            group_boundary(operations, indices, at),
        ),
    decreases at,
{
    if 0 < at < indices.len() && continues_group(operations, indices, at) {
        lemma_group_boundary(operations, indices, at - 1);
    }
}

/// No more operations are left out than the limit asks for, and no fill group
/// is drawn in part: the first one drawn does not share its group with the last
/// one left out.
pub proof fn law_left_out_operations_split_no_group(
    operations: Seq<EditOperation>,
    indices: Seq<usize>,
    operation_limit: Option<usize>,
)
    ensures
        0 <= left_out(operations, indices, operation_limit) <= skip_count(
            indices.len() as int,
            operation_limit,
        ),
        0 < left_out(operations, indices, operation_limit) < indices.len() ==> !continues_group(
            operations,
            indices,
            left_out(operations, indices, operation_limit),
        ),
{
    lemma_group_boundary(
        operations,
        indices,
        skip_count(indices.len() as int, operation_limit),
    );
}

/// How the points of an operation are had.
#[derive(Debug, Clone, Copy, PartialEq, Eq, Structural)]
pub enum OperationLookup {
    /// It is a block, whose parts are looked up one by one.
    Block,
    /// They are kept from an earlier frame.
    Cached,
    /// They have to be projected, unless the bounds lie off the screen.
    Bounds(OperationBoundsLookup),
}

/// What a lookup counts as.
pub open spec fn lookup_stats(lookup: OperationLookup) -> FallbackFrameStats {
    match lookup {
        OperationLookup::Block => FallbackFrameStats::nothing(),
        OperationLookup::Cached => FallbackFrameStats {
            fallback_cache_hits: 1,
            ..FallbackFrameStats::nothing()
        },
        OperationLookup::Bounds(bounds) => FallbackFrameStats {
            fallback_bounds_cache_hits: if bounds.cache_hit {
                1
            } else {
                0
            },
            fallback_bounds_cache_misses: if bounds.cache_hit {
                0
            } else {
                1
            },
            skipped_operations: if bounds.may_intersect {
                0
            } else {
                1
            },
            projected_operations: if bounds.may_intersect {
                1
            } else {
                0
            },
            ..FallbackFrameStats::nothing()
        },
    }
}

/// What a lookup counts as.
pub fn count_lookup(lookup: OperationLookup) -> (stats: FallbackFrameStats)
    ensures
        stats == lookup_stats(lookup),
{
    let mut stats = FallbackFrameStats::new();
    match lookup {
        OperationLookup::Block => {},
        OperationLookup::Cached => {
            stats.fallback_cache_hits = 1;
        },
        OperationLookup::Bounds(bounds) => {
            if bounds.cache_hit {
                stats.fallback_bounds_cache_hits = 1;
            } else {
                stats.fallback_bounds_cache_misses = 1;
            }
            if bounds.may_intersect {
                stats.projected_operations = 1;
            } else {
                stats.skipped_operations = 1;
            }
        },
    }
    stats
}

/// What the lookups count as together.
pub open spec fn lookups_stats(lookups: Seq<OperationLookup>) -> FallbackFrameStats
    decreases lookups.len(),
{
    if lookups.len() == 0 {
        FallbackFrameStats::nothing()
    } else {
        lookups_stats(lookups.drop_last()).plus(lookup_stats(lookups.last()))
    }
}

/// An operation that is drawn, by its place in the list of operations.
#[derive(Debug, Clone, Copy, PartialEq, Eq, Structural)]
pub enum FallbackPaintOperation {
    /// From projected points; a block has none of its own.
    Projected { operation_index: usize },
    /// From the points that are kept.
    CachedDerived { operation_index: usize },
}

impl FallbackPaintOperation {
    /// Where the operation stands in the list.
    pub open spec fn index(self) -> usize {
        match self {
            FallbackPaintOperation::Projected { operation_index } => operation_index,
            FallbackPaintOperation::CachedDerived { operation_index } => operation_index,
        }
    }

    /// Where the operation stands in the list.
    pub fn operation_index(&self) -> (index: usize)
        ensures
            index == self.index(),
    {
        match self {
            FallbackPaintOperation::Projected { operation_index } => *operation_index,
            FallbackPaintOperation::CachedDerived { operation_index } => *operation_index,
        }
    }
}

/// The operations that are drawn, after their lookups.
pub open spec fn drawn_items(indices: Seq<usize>, lookups: Seq<OperationLookup>) -> Seq<
    FallbackPaintOperation,
>
    decreases lookups.len(),
{
    if lookups.len() == 0 {
        seq![]
    } else {
        let before = drawn_items(indices, lookups.drop_last());
        let operation_index = indices[lookups.len() - 1];
        match lookups.last() {
            OperationLookup::Block => before.push(
                FallbackPaintOperation::Projected { operation_index },
            ),
            OperationLookup::Cached => before.push(
                FallbackPaintOperation::CachedDerived { operation_index },
            ),
            OperationLookup::Bounds(bounds) => if bounds.may_intersect {
                before.push(FallbackPaintOperation::Projected { operation_index })
            } else {
                before
            },
        }
    }
}

/// Whether the lookup is of the right kind: blocks are taken apart, and bounds
/// are asked for only where no points are kept.
pub open spec fn lookup_fits(
    cache: SavedFallbackRenderCache,
    operation: EditOperation,
    style: RenderStyle,
    lookup: OperationLookup,
) -> bool {
    if operation.is_block() {
        lookup is Block
    } else if cache.points@.contains_key(operation_key(operation.id, operation, style)) {
        lookup is Cached
    } else {
        lookup is Bounds
    }
}

/// Whether the bounds of the operation were asked for among the first `count`
/// lookups.
pub open spec fn asked_before(
    operations: Seq<EditOperation>,
    indices: Seq<usize>,
    lookups: Seq<OperationLookup>,
    id: u128,
    count: int,
) -> bool {
    exists|k: int|
        0 <= k < count && #[trigger] lookups[k] is Bounds && operations[indices[k] as int].id == id
}

/// Whether the lookups were made one after the other: all earlier bounds stay,
/// those asked for the first time were computed, and each answer is right for
/// the bounds.
pub open spec fn lookups_made<
    B,
    F: Fn(&EditOperation) -> Option<B>,
    G: Fn(&EditOperation, &B) -> bool,
>(
    operations: Seq<EditOperation>,
    indices: Seq<usize>,
    lookups: Seq<OperationLookup>,
    before: Map<u128, Option<B>>,
    after: Map<u128, Option<B>>,
    bounds_of: F,
    intersects: G,
) -> bool {
    &&& forall|id: u128| #[trigger]
        before.contains_key(id) ==> after.contains_key(id) && after[id] == before[id]
    &&& forall|id: u128| #[trigger]
        after.contains_key(id) <==> before.contains_key(id) || asked_before(
            operations,
            indices,
            lookups,
            id,
            lookups.len() as int,
        )
    &&& forall|k: int|
        0 <= k < lookups.len() && (#[trigger] lookups[k]) is Bounds ==> {
            let operation = operations[indices[k] as int];
            let lookup = lookups[k]->Bounds_0;
            &&& may_intersect(intersects, operation, after[operation.id], lookup.may_intersect)
            &&& lookup.cache_hit == (before.contains_key(operation.id) || asked_before(
                operations,
                indices,
                lookups,
                operation.id,
                k,
            ))
            &&& !lookup.cache_hit ==> call_ensures(bounds_of, (&operation,), after[operation.id])
        }
}

/// Looks up the operations at the given places.
pub fn look_up_operations<B, F: Fn(&EditOperation) -> Option<B>, G: Fn(&EditOperation, &B) -> bool>(
    operations: &Vec<EditOperation>,
    indices: &Vec<usize>,
    style: RenderStyle,
    cache: &SavedFallbackRenderCache,
    bounds_cache: &mut OperationBoundsCache<B>,
    bounds_of: &F,
    intersects: &G,
) -> (lookups: Vec<OperationLookup>)
    requires
        cache.wf(),
        forall|k: int| 0 <= k < indices@.len() ==> (#[trigger] indices@[k]) < operations@.len(),
        forall|operation: EditOperation| #[trigger] call_requires(*bounds_of, (&operation,)),
        forall|operation: EditOperation, bounds: B| #[trigger]
            call_requires(*intersects, (&operation, &bounds)),
    ensures
        lookups@.len() == indices@.len(),
        forall|k: int|
            0 <= k < lookups@.len() ==> lookup_fits(
                *cache,
                operations@[indices@[k] as int],
                style,
                #[trigger] lookups@[k],
            ),
        lookups_made(
            operations@,
            indices@,
            lookups@,
            old(bounds_cache)@,
            final(bounds_cache)@,
            *bounds_of,
            *intersects,
        ),
{
    let mut lookups: Vec<OperationLookup> = Vec::new();
    let mut k: usize = 0;
    let ghost before = bounds_cache@;
    while k < indices.len()
        invariant
            k <= indices@.len(),
            lookups@.len() == k,
            cache.wf(),
            forall|k: int| 0 <= k < indices@.len() ==> (#[trigger] indices@[k]) < operations@.len(),
            forall|operation: EditOperation| #[trigger] call_requires(*bounds_of, (&operation,)),
            forall|operation: EditOperation, bounds: B| #[trigger]
                call_requires(*intersects, (&operation, &bounds)),
            forall|i: int|
                0 <= i < lookups@.len() ==> lookup_fits(
                    *cache,
                    operations@[indices@[i] as int],
                    style,
                    #[trigger] lookups@[i],
                ),
            lookups_made(
                operations@,
                indices@,
                lookups@,
                before,
                bounds_cache@,
                *bounds_of,
                *intersects,
            ),
        decreases indices@.len() - k,
    {
        let operation = &operations[indices[k]];
        let ghost earlier = lookups@;
        let ghost middle = bounds_cache@;
        let key = saved_fallback_operation_key(operation.id, operation, style);
        let lookup: OperationLookup = if operation.is_compact_block() {
            OperationLookup::Block
        } else if cache.get(key).is_some() {
            OperationLookup::Cached
        } else {
            OperationLookup::Bounds(
                bounds_cache.operation_may_intersect_screen_rect(operation, bounds_of, intersects),
            )
        };
        lookups.push(lookup);
        k = k + 1;
        proof {
            lemma_one_more_lookup(
                operations@,
                indices@,
                earlier,
                lookup,
                before,
                middle,
                bounds_cache@,
                *bounds_of,
                *intersects,
            );
            assert(lookups@ == earlier.push(lookup));
        }
    }
    lookups
}

proof fn lemma_one_more_lookup<B, F: Fn(&EditOperation) -> Option<B>, G: Fn(&EditOperation, &B) -> bool>(
    operations: Seq<EditOperation>,
    indices: Seq<usize>,
    earlier: Seq<OperationLookup>,
    lookup: OperationLookup,
    before: Map<u128, Option<B>>,
    middle: Map<u128, Option<B>>,
    after: Map<u128, Option<B>>,
    bounds_of: F,
    intersects: G,
)
    requires
        earlier.len() < indices.len(),
        lookups_made(operations, indices, earlier, before, middle, bounds_of, intersects),
        !(lookup is Bounds) ==> after == middle,
        lookup is Bounds ==> {
            let operation = operations[indices[earlier.len() as int] as int];
            &&& lookup->Bounds_0.cache_hit == middle.contains_key(operation.id)
            &&& after.contains_key(operation.id)
            &&& lookup->Bounds_0.cache_hit ==> after == middle
            &&& !lookup->Bounds_0.cache_hit ==> after == middle.insert(
                operation.id,
                after[operation.id],
            ) && call_ensures(bounds_of, (&operation,), after[operation.id])
            &&& may_intersect(intersects, operation, after[operation.id], lookup->Bounds_0.may_intersect)
        },
    ensures
        lookups_made(
            operations,
            indices,
            earlier.push(lookup),
            before,
            after,
            bounds_of,
            intersects,
        ),
{
    let all = earlier.push(lookup);
    let last = earlier.len() as int;
    assert forall|id: u128, count: int| 0 <= count <= last implies #[trigger] asked_before(
        operations,
        indices,
        all,
        id,
        count,
    ) == asked_before(operations, indices, earlier, id, count) by {
        if asked_before(operations, indices, all, id, count) {
            let k = choose|k: int|
                0 <= k < count && #[trigger] all[k] is Bounds && operations[indices[k] as int].id
                    == id;
            assert(earlier[k] is Bounds);
        }
        if asked_before(operations, indices, earlier, id, count) {
            let k = choose|k: int|
                0 <= k < count && #[trigger] earlier[k] is Bounds && operations[indices[k] as int].id
                    == id;
            assert(all[k] is Bounds);
        }
    }
    assert forall|id: u128| #[trigger]
        after.contains_key(id) <==> before.contains_key(id) || asked_before(
            operations,
            indices,
            all,
            id,
            all.len() as int,
        ) by {
        if asked_before(operations, indices, all, id, all.len() as int) {
            let k = choose|k: int|
                0 <= k < all.len() && #[trigger] all[k] is Bounds && operations[indices[k] as int].id
                    == id;
            if k < last {
                assert(earlier[k] is Bounds);
                assert(asked_before(operations, indices, earlier, id, last));
            }
            assert(middle.contains_key(id) || after.contains_key(id));
        }
        if asked_before(operations, indices, earlier, id, last) {
            let k = choose|k: int|
                0 <= k < last && #[trigger] earlier[k] is Bounds && operations[indices[k] as int].id
                    == id;
            assert(all[k] is Bounds);
        }
        if after.contains_key(id) && !middle.contains_key(id) {
            assert(all[last] is Bounds);
        }
    }
    assert forall|k: int| 0 <= k < all.len() && (#[trigger] all[k]) is Bounds implies {
        let operation = operations[indices[k] as int];
        let answer = all[k]->Bounds_0;
        &&& may_intersect(intersects, operation, after[operation.id], answer.may_intersect)
        &&& answer.cache_hit == (before.contains_key(operation.id) || asked_before(
            operations,
            indices,
            all,
            operation.id,
            k,
        ))
        &&& !answer.cache_hit ==> call_ensures(bounds_of, (&operation,), after[operation.id])
    } by {
        let id = operations[indices[k] as int].id;
        assert(asked_before(operations, indices, all, id, k) == asked_before(
            operations,
            indices,
            earlier,
            id,
            k,
        ));
        if k < last {
            assert(earlier[k] is Bounds);
            assert(asked_before(operations, indices, earlier, id, last));
            assert(middle.contains_key(id));
        }
    }
}

/// What is drawn directly in a frame.
pub struct Projection {
    /// The places of the operations looked up, oldest first.
    pub indices: Vec<usize>,
    pub lookups: Vec<OperationLookup>,
    pub items: Vec<FallbackPaintOperation>,
    /// How many of the oldest operations were left out.
    pub skipped: usize,
    pub stats: FallbackFrameStats,
}

/// Decides which operations are drawn: those after a sequence, the latest ones
/// up to the limit, and of those the ones that may lie on the screen. Where the
/// frame cannot be projected at all, none is looked up.
pub fn project_operations<B, F: Fn(&EditOperation) -> Option<B>, G: Fn(&EditOperation, &B) -> bool>(
    operations: &Vec<EditOperation>,
    after_sequence: Option<i64>,
    operation_limit: Option<usize>,
    frame_is_projectable: bool,
    style: RenderStyle,
    cache: &SavedFallbackRenderCache,
    bounds_cache: &mut OperationBoundsCache<B>,
    bounds_of: &F,
    intersects: &G,
) -> (projection: Projection)
    requires
        cache.wf(),
        forall|operation: EditOperation| #[trigger] call_requires(*bounds_of, (&operation,)),
        forall|operation: EditOperation, bounds: B| #[trigger]
            call_requires(*intersects, (&operation, &bounds)),
    ensures
        ({
            let all = eligible(operations@, after_sequence, operations@.len() as int);
            let skipped = left_out(operations@, all, operation_limit);
            &&& projection.skipped == skipped
            &&& projection.indices@ == if frame_is_projectable {
                all.skip(skipped)
            } else {
                seq![]
            }
        }),
        projection.lookups@.len() == projection.indices@.len(),
        forall|k: int|
            0 <= k < projection.lookups@.len() ==> lookup_fits(
                *cache,
                operations@[projection.indices@[k] as int],
                style,
                #[trigger] projection.lookups@[k],
            ),
        lookups_made(
            operations@,
            projection.indices@,
            projection.lookups@,
            old(bounds_cache)@,
            final(bounds_cache)@,
            *bounds_of,
            *intersects,
        ),
        projection.items@ == drawn_items(projection.indices@, projection.lookups@),
        projection.stats == lookups_stats(projection.lookups@),
{
    let mut all: Vec<usize> = Vec::new();
    let mut i: usize = 0;
    while i < operations.len()
        invariant
            i <= operations@.len(),
            all@ == eligible(operations@, after_sequence, i as int),
        decreases operations@.len() - i,
    {
        let is_eligible: bool = match after_sequence {
            Some(sequence) => operations[i].sequence > sequence,
            None => true,
        };
        if is_eligible {
            all.push(i);
        }
        i = i + 1;
    }
    proof {
        lemma_eligible(operations@, after_sequence, operations@.len() as int);
    }
    let mut skipped: usize = fallback_operation_skip_count(all.len(), operation_limit);
    let ghost target = left_out(operations@, all@, operation_limit);
    while 0 < skipped && skipped < all.len() && operations[all[skipped]].shares_fill_group_with(
        &operations[all[skipped - 1]],
    )
        invariant
            skipped <= all@.len(),
            group_boundary(operations@, all@, skipped as int) == target,
            forall|k: int| 0 <= k < all@.len() ==> (#[trigger] all@[k]) < operations@.len(),
        decreases skipped,
    {
        skipped = skipped - 1;
    }
    let mut indices: Vec<usize> = Vec::new();
    if frame_is_projectable {
        let mut k: usize = skipped;
        while k < all.len()
            invariant
                skipped <= k <= all@.len(),
                indices@ == all@.subrange(skipped as int, k as int),
            decreases all@.len() - k,
        {
            indices.push(all[k]);
            k = k + 1;
            assert(indices@ =~= all@.subrange(skipped as int, k as int));
        }
        assert(indices@ =~= all@.skip(skipped as int));
    }
    let lookups = look_up_operations(
        operations,
        &indices,
        style,
        cache,
        bounds_cache,
        bounds_of,
        intersects,
    );
    let mut items: Vec<FallbackPaintOperation> = Vec::new();
    let mut stats = FallbackFrameStats::new();
    let mut j: usize = 0;
    while j < lookups.len()
        invariant
            j <= lookups@.len() == indices@.len(),
            items@ == drawn_items(indices@, lookups@.take(j as int)),
            stats == lookups_stats(lookups@.take(j as int)),
        decreases lookups@.len() - j,
    {
        let operation_index: usize = indices[j];
        match lookups[j] {
            OperationLookup::Block => {
                items.push(FallbackPaintOperation::Projected { operation_index });
            },
            OperationLookup::Cached => {
                items.push(FallbackPaintOperation::CachedDerived { operation_index });
            },
            OperationLookup::Bounds(bounds) => {
                if bounds.may_intersect {
                    items.push(FallbackPaintOperation::Projected { operation_index });
                }
            },
        }
        stats.add(count_lookup(lookups[j]));
        j = j + 1;
        assert(lookups@.take(j as int).drop_last() =~= lookups@.take(j - 1));
    }
    assert(lookups@.take(j as int) =~= lookups@);
    Projection { indices, lookups, items, skipped, stats }
}

/// Whether two items are operations of the list in one fill group.
pub open spec fn are_of_one_group(
    operations: Seq<EditOperation>,
    first: FallbackPaintOperation,
    second: FallbackPaintOperation,
) -> bool {
    &&& first.index() < operations.len()
    &&& second.index() < operations.len()
    &&& operations[first.index() as int].shares_fill_group(operations[second.index() as int])
}

/// Where the group that starts at `start` ends: before the next item that is
/// not in the fill group of the first.
pub open spec fn group_end(
    operations: Seq<EditOperation>,
    items: Seq<FallbackPaintOperation>,
    start: int,
    end: int,
) -> int
    decreases items.len() - end,
{
    if end < items.len() && are_of_one_group(operations, items[start], items[end]) {
        group_end(operations, items, start, end + 1)
    } else {
        end
    }
}

pub(crate) proof fn lemma_group_end(
    operations: Seq<EditOperation>,
    items: Seq<FallbackPaintOperation>,
    start: int,
    end: int,
)
    requires
        0 <= start < end <= items.len(),
    ensures
        end <= group_end(operations, items, start, end) <= items.len(),
        forall|k: int|
            end <= k < group_end(operations, items, start, end)
                ==> are_of_one_group(operations, items[start], #[trigger] items[k]),
        group_end(operations, items, start, end) < items.len() ==> !are_of_one_group(
            operations,
            items[start],
            items[group_end(operations, items, start, end)],
        ),
    decreases items.len() - end,
{
    if end < items.len() && are_of_one_group(operations, items[start], items[end]) {
        lemma_group_end(operations, items, start, end + 1);
    }
}

/// The sizes of the groups in which the items from `start` on are drawn.
pub open spec fn group_sizes(
    operations: Seq<EditOperation>,
    items: Seq<FallbackPaintOperation>,
    start: int,
) -> Seq<usize>
    decreases items.len() - start,
{
    if start >= items.len() || start < 0 {
        seq![]
    } else {
        let end = group_end(operations, items, start, start + 1);
        if end <= start || end > items.len() {
            seq![]
        } else {
            seq![(end - start) as usize] + group_sizes(operations, items, end)
        }
    }
}

fn share_a_group(
    operations: &Vec<EditOperation>,
    first: FallbackPaintOperation,
    second: FallbackPaintOperation,
) -> (shared: bool)
    ensures
        shared == are_of_one_group(operations@, first, second),
{
    let left: usize = first.operation_index();
    let right: usize = second.operation_index();
    left < operations.len() && right < operations.len()
        && operations[left].shares_fill_group_with(&operations[right])
}

/// In what groups the items are drawn: neighbours of one fill group together,
/// and every other item by itself, also one that is not in the list.
pub fn paint_groups(operations: &Vec<EditOperation>, items: &Vec<FallbackPaintOperation>) -> (sizes:
    Vec<usize>)
    ensures
        sizes@ == group_sizes(operations@, items@, 0),
{
    let mut sizes: Vec<usize> = Vec::new();
    let mut start: usize = 0;
    assert(group_sizes(operations@, items@, 0) =~= sizes@ + group_sizes(operations@, items@, 0));
    while start < items.len()
        invariant
            start <= items@.len(),
            group_sizes(operations@, items@, 0) == sizes@ + group_sizes(
                operations@,
                items@,
                start as int,
            ),
        decreases items@.len() - start,
    {
        let mut end: usize = start + 1;
        let ghost target = group_end(operations@, items@, start as int, start + 1);
        proof {
            lemma_group_end(operations@, items@, start as int, start + 1);
        }
        while end < items.len() && share_a_group(operations, items[start], items[end])
            invariant
                start < end <= items@.len(),
                group_end(operations@, items@, start as int, end as int) == target,
            decreases items@.len() - end,
        {
            end = end + 1;
        }
        let ghost earlier = sizes@;
        sizes.push(end - start);
        assert(sizes@ + group_sizes(operations@, items@, end as int) =~= earlier + group_sizes(
            operations@,
            items@,
            start as int,
        ));
        start = end;
    }
    assert(sizes@ + group_sizes(operations@, items@, start as int) =~= sizes@);
    sizes
}

/// The sum of the sizes.
pub open spec fn total(sizes: Seq<usize>) -> int
    decreases sizes.len(),
{
    if sizes.len() == 0 {
        0
    } else {
        sizes[0] + total(sizes.skip(1))
    }
}

/// Every item is drawn in exactly one group: the groups take all items, and
/// none is empty.
pub proof fn law_groups_take_every_item(
    operations: Seq<EditOperation>,
    items: Seq<FallbackPaintOperation>,
    start: int,
)
    requires
        0 <= start <= items.len() <= usize::MAX,
    ensures
        total(group_sizes(operations, items, start)) == items.len() - start,
        forall|g: int|
            0 <= g < group_sizes(operations, items, start).len() ==> (#[trigger] group_sizes(
                operations,
                items,
                start,
            )[g]) >= 1,
    decreases items.len() - start,
{
    if start < items.len() {
        let end = group_end(operations, items, start, start + 1);
        lemma_group_end(operations, items, start, start + 1);
        law_groups_take_every_item(operations, items, end);
        let sizes = group_sizes(operations, items, start);
        let rest = group_sizes(operations, items, end);
        assert(sizes.skip(1) =~= rest);
        assert forall|g: int| 0 <= g < sizes.len() implies (#[trigger] sizes[g]) >= 1 by {
            if g > 0 {
                assert(sizes[g] == rest[g - 1]);
            }
        }
    }
}

/// A run of a stroke on the screen: the distances between neighbours.
pub struct StrokeRun {
    pub point_count: usize,
    pub distances: Vec<u32>,
}

/// A run of a stroke, by its numbers.
pub struct RunView {
    pub point_count: usize,
    pub distances: Seq<u32>,
}

impl View for StrokeRun {
    type V = RunView;

    open spec fn view(&self) -> RunView {
        RunView { point_count: self.point_count, distances: self.distances@ }
    }
}

/// The runs of a stroke, by their numbers.
pub open spec fn run_views(runs: Seq<StrokeRun>) -> Seq<RunView> {
    runs.map_values(|run: StrokeRun| run@)
}

impl StrokeRun {
    /// There is a distance between any two neighbours.
    pub open spec fn wf(self) -> bool {
        self.point_count >= 1 ==> self.distances@.len() == self.point_count - 1
    }
}

/// Whether a line can be drawn through the points of a run.
pub open spec fn has_line(runs: Seq<RunView>) -> bool {
    exists|k: int| 0 <= k < runs.len() && (#[trigger] runs[k]).point_count >= 2
}

/// What is left of the budget after the first `count` runs.
pub open spec fn budget_after(
    runs: Seq<RunView>,
    segmented_point_limit: Option<usize>,
    budget: usize,
    count: int,
) -> int
    decreases count,
{
    if count <= 0 {
        budget as int
    } else {
        let left = budget_after(runs, segmented_point_limit, budget, count - 1);
        let run = runs[count - 1];
        if takes_budget(run, segmented_point_limit) && segmented_shapes(run.point_count) <= left {
            left - segmented_shapes(run.point_count)
        } else {
            left
        }
    }
}

/// Whether the run is to be drawn segment by segment.
pub open spec fn takes_budget(run: RunView, segmented_point_limit: Option<usize>) -> bool {
    segmented_point_limit is Some && run.point_count <= segmented_point_limit->0
}

/// Whether the budget does not allow the run at a place to be drawn segment by
/// segment.
pub open spec fn over_budget(
    runs: Seq<RunView>,
    segmented_point_limit: Option<usize>,
    budget: usize,
    at: int,
) -> bool {
    takes_budget(runs[at], segmented_point_limit) && segmented_shapes(runs[at].point_count)
        > budget_after(runs, segmented_point_limit, budget, at)
}

/// The limit by which the run at a place is drawn.
pub open spec fn run_limit(
    runs: Seq<RunView>,
    segmented_point_limit: Option<usize>,
    budget: usize,
    at: int,
) -> Option<usize> {
    if over_budget(runs, segmented_point_limit, budget, at) {
        None
    } else {
        segmented_point_limit
    }
}

/// What the first `count` runs count as.
pub open spec fn runs_stats(
    runs: Seq<RunView>,
    segmented_point_limit: Option<usize>,
    fast_endpoint_caps: bool,
    budget: usize,
    count: int,
) -> FallbackFrameStats
    decreases count,
{
    if count <= 0 {
        FallbackFrameStats::nothing()
    } else {
        let run = runs[count - 1];
        runs_stats(
            runs,
            segmented_point_limit,
            fast_endpoint_caps,
            budget,
            count - 1,
        ).plus(
            FallbackFrameStats {
                segmented_budget_fallbacks: if over_budget(
                    runs,
                    segmented_point_limit,
                    budget,
                    count - 1,
                ) {
                    1
                } else {
                    0
                },
                ..FallbackFrameStats::nothing()
            },
        ).plus(
            stroke_stats(
                run.point_count,
                run.distances,
                run_limit(runs, segmented_point_limit, budget, count - 1),
                fast_endpoint_caps,
            ),
        )
    }
}

/// Draws one run of a stroke.
fn paint_stroke_run(
    run: &StrokeRun,
    segmented_point_limit: Option<usize>,
    fast_endpoint_caps: bool,
    remaining_shape_budget: &mut usize,
    stats: &mut FallbackFrameStats,
) -> (shapes: Vec<StrokeShape>)
    requires
        run.wf(),
    ensures
        ({
            let takes = takes_budget(run@, segmented_point_limit);
            let over = takes && segmented_shapes(run.point_count) > *old(remaining_shape_budget);
            let limit = if over {
                None
            } else {
                segmented_point_limit
            };
            &&& *final(remaining_shape_budget) == if takes && !over {
                *old(remaining_shape_budget) - segmented_shapes(run.point_count)
            } else {
                *old(remaining_shape_budget) as int
            }
            &&& shapes@ == stroke_shapes(
                run.point_count,
                run.distances@,
                limit,
                fast_endpoint_caps,
            )
            &&& *final(stats) == old(stats).plus(
                FallbackFrameStats {
                    segmented_budget_fallbacks: if over {
                        1
                    } else {
                        0
                    },
                    ..FallbackFrameStats::nothing()
                },
            ).plus(stroke_stats(run.point_count, run.distances@, limit, fast_endpoint_caps))
            &&& (final(stats).fast_strokes > 0 || final(stats).segmented_strokes > 0) == (
            old(stats).fast_strokes > 0 || old(stats).segmented_strokes > 0 || run.point_count >= 2)
            &&& final(stats).painted_operations == old(stats).painted_operations
        }),
{
    let (limit, budget_fallback) = consume_segmented_fallback_budget(
        run.point_count,
        segmented_point_limit,
        remaining_shape_budget,
    );
    let mut more = FallbackFrameStats::new();
    if budget_fallback {
        more.segmented_budget_fallbacks = 1;
    }
    stats.add(more);
    let (shapes, run_stats) = stroke_fallback_shapes(
        run.point_count,
        &run.distances,
        limit,
        fast_endpoint_caps,
    );
    stats.add(run_stats);
    shapes
}

/// Draws the runs of a stroke: each segment by segment while the budget of the
/// frame lasts, and as one line else.
pub fn paint_stroke_runs(
    runs: &Vec<StrokeRun>,
    segmented_point_limit: Option<usize>,
    fast_endpoint_caps: bool,
    remaining_shape_budget: &mut usize,
) -> (result: (Vec<Vec<StrokeShape>>, FallbackFrameStats))
    requires
        forall|k: int| 0 <= k < runs@.len() ==> (#[trigger] runs@[k]).wf(),
    ensures
        *final(remaining_shape_budget) == budget_after(
            run_views(runs@),
            segmented_point_limit,
            *old(remaining_shape_budget),
            runs@.len() as int,
        ),
        result.0@.len() == runs@.len(),
        forall|k: int|
            0 <= k < runs@.len() ==> (#[trigger] result.0@[k])@ == stroke_shapes(
                runs@[k].point_count,
                runs@[k].distances@,
                run_limit(run_views(runs@), segmented_point_limit, *old(remaining_shape_budget), k),
                fast_endpoint_caps,
            ),
        result.1 == (FallbackFrameStats {
            painted_operations: if has_line(run_views(runs@)) {
                1
            } else {
                0
            },
            ..runs_stats(
                run_views(runs@),
                segmented_point_limit,
                fast_endpoint_caps,
                *old(remaining_shape_budget),
                runs@.len() as int,
            )
        }),
{
    let mut shapes: Vec<Vec<StrokeShape>> = Vec::new();
    let mut stats = FallbackFrameStats::new();
    let ghost budget = *remaining_shape_budget;
    let mut k: usize = 0;
    while k < runs.len()
        invariant
            k <= runs@.len(),
            forall|k: int| 0 <= k < runs@.len() ==> (#[trigger] runs@[k]).wf(),
            shapes@.len() == k,
            *remaining_shape_budget == budget_after(
                run_views(runs@),
                segmented_point_limit,
                budget,
                k as int,
            ),
            forall|i: int|
                0 <= i < k ==> (#[trigger] shapes@[i])@ == stroke_shapes(
                    runs@[i].point_count,
                    runs@[i].distances@,
                    run_limit(run_views(runs@), segmented_point_limit, budget, i),
                    fast_endpoint_caps,
                ),
            stats == runs_stats(
                run_views(runs@),
                segmented_point_limit,
                fast_endpoint_caps,
                budget,
                k as int,
            ),
            stats.painted_operations == 0,
            stats.fast_strokes > 0 || stats.segmented_strokes > 0 <==> exists|i: int|
                0 <= i < k && (#[trigger] runs@[i]).point_count >= 2,
        decreases runs@.len() - k,
    {
        let ghost drawn = stats.fast_strokes > 0 || stats.segmented_strokes > 0;
        let run_shapes = paint_stroke_run(
            &runs[k],
            segmented_point_limit,
            fast_endpoint_caps,
            remaining_shape_budget,
            &mut stats,
        );
        shapes.push(run_shapes);
        k = k + 1;
        assert((stats.fast_strokes > 0 || stats.segmented_strokes > 0) == (drawn
            || runs@[k - 1].point_count >= 2));
        assert((exists|i: int| 0 <= i < k && (#[trigger] runs@[i]).point_count >= 2) == (drawn
            || runs@[k - 1].point_count >= 2)) by {
            if drawn {
                let i = choose|i: int| 0 <= i < k - 1 && (#[trigger] runs@[i]).point_count >= 2;
                assert(runs@[i].point_count >= 2);
            }
        }
    }
    proof {
        let views = run_views(runs@);
        if has_line(views) {
            let i = choose|i: int| 0 <= i < views.len() && (#[trigger] views[i]).point_count >= 2;
            assert(runs@[i].point_count >= 2);
        }
        if exists|i: int| 0 <= i < runs@.len() && (#[trigger] runs@[i]).point_count >= 2 {
            let i = choose|i: int| 0 <= i < runs@.len() && (#[trigger] runs@[i]).point_count >= 2;
            assert(views[i].point_count >= 2);
        }
    }
    if stats.fast_strokes > 0 || stats.segmented_strokes > 0 {
        stats.painted_operations = stats.painted_operations.saturating_add(1);
    }
    (shapes, stats)
}

/// What a frame counts as so far: the lookups, what was left out, and whether
/// the visible operations were known.
pub fn projection_stats(projection: &Projection, visible_cache_hit: bool) -> (stats:
    FallbackFrameStats)
    ensures
        stats == (FallbackFrameStats {
            fallback_visible_cache_hits: if visible_cache_hit {
                1
            } else {
                projection.stats.fallback_visible_cache_hits
            },
            fallback_visible_cache_misses: if visible_cache_hit {
                projection.stats.fallback_visible_cache_misses
            } else {
                1
            },
            ..projection.stats
        }).plus(
            FallbackFrameStats {
                skipped_operations: projection.skipped,
                ..FallbackFrameStats::nothing()
            },
        ),
{
    let mut stats = projection.stats;
    if visible_cache_hit {
        stats.fallback_visible_cache_hits = 1;
    } else {
        stats.fallback_visible_cache_misses = 1;
    }
    let mut left_out = FallbackFrameStats::new();
    left_out.skipped_operations = projection.skipped;
    stats.add(left_out);
    stats
}

proof fn lemma_all_eligible(operations: Seq<EditOperation>, after_sequence: Option<i64>, count: int)
    requires
        0 <= count <= operations.len() <= usize::MAX,
    ensures
        ({
            let places = eligible(operations, after_sequence, count);
            &&& forall|k: int|
                0 <= k < places.len() ==> 0 <= #[trigger] places[k] < count && (after_sequence
                    matches Some(after) ==> operations[places[k] as int].sequence > after)
            &&& forall|k: int, l: int|
                0 <= k < l < places.len() ==> #[trigger] places[k] < #[trigger] places[l]
            &&& forall|at: usize|
                at < count && (after_sequence is None || (
                #[trigger] operations[at as int]).sequence > after_sequence->0)
                    ==> places.contains(at)
        }),
    decreases count,
{
    if count > 0 {
        lemma_all_eligible(operations, after_sequence, count - 1);
        let places = eligible(operations, after_sequence, count);
        let before = eligible(operations, after_sequence, count - 1);
        assert forall|at: usize|
            at < count && (after_sequence is None || (#[trigger] operations[at as int]).sequence
                > after_sequence->0) implies places.contains(at) by {
            if at < count - 1 {
                assert(places[before.index_of(at)] == at);
            } else {
                assert(places[before.len() as int] == at);
            }
        }
    }
}

/// All operations that are newer than the tiles are drawn over them, in order, and
/// no others; without tiles all operations are.
pub proof fn law_all_newer_operations_are_drawn(
    operations: Seq<EditOperation>,
    after_sequence: Option<i64>,
    at: usize,
)
    requires
        at < operations.len() <= usize::MAX,
    ensures
        ({
            let places = eligible(operations, after_sequence, operations.len() as int);
            &&& places.contains(at) <==> (after_sequence matches Some(after)
                ==> operations[at as int].sequence > after)
            &&& forall|k: int, l: int|
                0 <= k < l < places.len() ==> #[trigger] places[k] < #[trigger] places[l]
        }),
{
    lemma_all_eligible(operations, after_sequence, operations.len() as int);
    let places = eligible(operations, after_sequence, operations.len() as int);
    if places.contains(at) {
        assert(places[places.index_of(at)] == at);
    }
    if after_sequence is None || operations[at as int].sequence > after_sequence->0 {
        assert(places.contains(at));
    }
}

proof fn lemma_group_goes_on(operations: Seq<EditOperation>, indices: Seq<usize>, at: int)
    requires
        0 <= at < indices.len(),
    ensures
        ({
            let boundary = group_boundary(operations, indices, at);
            &&& 0 <= boundary <= at
            &&& forall|k: int|
                boundary < k <= at ==> #[trigger] continues_group(operations, indices, k)
        }),
    decreases at,
{
    if at > 0 && continues_group(operations, indices, at) {
        lemma_group_goes_on(operations, indices, at - 1);
    }
}

/// Where only so many operations are drawn, the newest ones are: as many as the
/// limit says, and more only to keep a group of fills together.
pub proof fn law_the_newest_operations_are_drawn(
    operations: Seq<EditOperation>,
    indices: Seq<usize>,
    limit: usize,
)
    requires
        0 < limit,
    ensures
        ({
            let skipped = left_out(operations, indices, Some(limit));
            &&& left_out(operations, indices, None) == 0
            &&& indices.len() <= limit ==> skipped == 0
            &&& indices.len() > limit ==> 0 <= skipped <= indices.len() - limit && forall|k: int|
                skipped < k <= indices.len() - limit ==> #[trigger] continues_group(
                    operations,
                    indices,
                    k,
                )
        }),
{
    if indices.len() > limit {
        lemma_group_goes_on(operations, indices, indices.len() - limit);
    }
}

/// Whatever may be on the screen is drawn, in order, from the points that are kept
/// where there are any; only what lies off the screen is not.
pub proof fn law_all_that_may_be_seen_is_drawn(
    indices: Seq<usize>,
    lookups: Seq<OperationLookup>,
    at: int,
)
    requires
        0 <= at < lookups.len(),
    ensures
        ({
            let place = drawn_items(indices, lookups.take(at)).len() as int;
            let next = drawn_items(indices, lookups.take(at + 1)).len() as int;
            let all = drawn_items(indices, lookups);
            let hidden = lookups[at] matches OperationLookup::Bounds(bounds)
                && !bounds.may_intersect;
            &&& hidden ==> next == place
            &&& !hidden ==> next == place + 1 && next <= all.len()
            &&& !hidden ==> all[place] == if lookups[at] is Cached {
                FallbackPaintOperation::CachedDerived { operation_index: indices[at] }
            } else {
                FallbackPaintOperation::Projected { operation_index: indices[at] }
            }
        }),
    decreases lookups.len(),
{
    let rest = lookups.drop_last();
    assert(lookups.take(at + 1).drop_last() =~= lookups.take(at));
    assert(lookups.take(at + 1).last() == lookups[at]);
    if at < lookups.len() - 1 {
        law_all_that_may_be_seen_is_drawn(indices, rest, at);
        assert(rest.take(at) =~= lookups.take(at));
        assert(rest.take(at + 1) =~= lookups.take(at + 1));
        assert(rest[at] == lookups[at]);
    } else {
        assert(lookups.take(at + 1) =~= lookups);
    }
}

/// Every lookup is counted as what it is: points that are kept as a hit, and bounds
/// as found or not, and as projected or left out.
pub proof fn law_lookups_are_counted(lookups: Seq<OperationLookup>)
    requires
        lookups.len() <= usize::MAX,
    ensures
        ({
            let stats = lookups_stats(lookups);
            &&& stats.fallback_cache_hits == lookups.filter(
                |lookup: OperationLookup| lookup is Cached,
            ).len()
            &&& stats.fallback_bounds_cache_hits == lookups.filter(
                |lookup: OperationLookup|
                    lookup matches OperationLookup::Bounds(bounds) && bounds.cache_hit,
            ).len()
            &&& stats.fallback_bounds_cache_misses == lookups.filter(
                |lookup: OperationLookup|
                    lookup matches OperationLookup::Bounds(bounds) && !bounds.cache_hit,
            ).len()
            &&& stats.projected_operations == lookups.filter(
                |lookup: OperationLookup|
                    lookup matches OperationLookup::Bounds(bounds) && bounds.may_intersect,
            ).len()
            &&& stats.skipped_operations == lookups.filter(
                |lookup: OperationLookup|
                    lookup matches OperationLookup::Bounds(bounds) && !bounds.may_intersect,
            ).len()
            &&& stats.painted_operations == 0
            &&& stats.stroke_shape_count == 0
        }),
    decreases lookups.len(),
{
    broadcast use vstd::seq_lib::group_filter_ensures;

    reveal(Seq::filter);
    if lookups.len() > 0 {
        law_lookups_are_counted(lookups.drop_last());
    }
}

proof fn lemma_group_is_whole(
    operations: Seq<EditOperation>,
    items: Seq<FallbackPaintOperation>,
    start: int,
    end: int,
)
    requires
        0 <= start < end <= items.len(),
    ensures
        ({
            let last = group_end(operations, items, start, end);
            &&& end <= last <= items.len()
            &&& forall|k: int|
                end <= k < last ==> are_of_one_group(operations, items[start], #[trigger] items[k])
            &&& last < items.len() ==> !are_of_one_group(operations, items[start], items[last])
        }),
    decreases items.len() - end,
{
    if end < items.len() && are_of_one_group(operations, items[start], items[end]) {
        lemma_group_is_whole(operations, items, start, end + 1);
    }
}

/// The first of the groups that are drawn together is as large as it can be: all of
/// its items belong with the first one, and the next item does not. The other
/// groups are those of the items behind it.
pub proof fn law_groups_hold_what_belongs_together(
    operations: Seq<EditOperation>,
    items: Seq<FallbackPaintOperation>,
    start: int,
)
    requires
        0 <= start < items.len() <= usize::MAX,
    ensures
        ({
            let sizes = group_sizes(operations, items, start);
            let end = start + sizes[0];
            &&& sizes.len() > 0
            &&& start < end <= items.len()
            &&& forall|k: int|
                start < k < end ==> are_of_one_group(
                    operations,
                    items[start],
                    #[trigger] items[k],
                )
            &&& end < items.len() ==> !are_of_one_group(operations, items[start], items[end])
            &&& sizes.skip(1) == group_sizes(operations, items, end)
        }),
{
    lemma_group_is_whole(operations, items, start, start + 1);
    let end = group_end(operations, items, start, start + 1);
    let sizes = group_sizes(operations, items, start);
    assert(sizes[0] == end - start);
    assert(sizes.skip(1) =~= group_sizes(operations, items, end));
}

/// A run that is drawn in segments takes its shapes from what is left of the
/// budget, where they fit; a run that is not, or for which they do not fit, takes
/// nothing and is drawn as one line.
pub proof fn law_runs_take_their_shapes_from_the_budget(
    runs: Seq<RunView>,
    segmented_point_limit: Option<usize>,
    budget: usize,
    at: int,
)
    requires
        0 <= at < runs.len(),
    ensures
        ({
            let left = budget_after(runs, segmented_point_limit, budget, at);
            let next = budget_after(runs, segmented_point_limit, budget, at + 1);
            let wants = segmented_point_limit matches Some(limit) && runs[at].point_count <= limit;
            let needs = segmented_shapes(runs[at].point_count);
            &&& budget_after(runs, segmented_point_limit, budget, 0) == budget
            &&& 0 <= next <= left
            &&& wants && needs <= left ==> left - next == needs && run_limit(
                runs,
                segmented_point_limit,
                budget,
                at,
            ) == segmented_point_limit
            &&& wants && needs > left ==> next == left && run_limit(
                runs,
                segmented_point_limit,
                budget,
                at,
            ) is None
            &&& !wants ==> next == left
        }),
    decreases at,
{
    if at > 0 {
        law_runs_take_their_shapes_from_the_budget(runs, segmented_point_limit, budget, at - 1);
    }
}

/// Two points are enough for a line, and a single one is not.
pub proof fn law_two_points_make_a_line(runs: Seq<RunView>, k: int)
    requires
        0 <= k < runs.len(),
    ensures
        runs[k].point_count > 1 ==> has_line(runs),
        (forall|i: int| 0 <= i < runs.len() ==> (#[trigger] runs[i]).point_count <= 1) ==> !has_line(
            runs,
        ),
{
}

} // verus!
