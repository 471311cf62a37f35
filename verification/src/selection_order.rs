//! The selected operations in their orders, and what takes their place.

use crate::model::{same_operation, EditKind, EditOperation};
use crate::render_cache::{
    operation_key, saved_fallback_operation_key, transformed_by, RenderStyle,
    SavedFallbackRenderCache, SavedFallbackRenderOperationKey,
};
use crate::screen::Position;
use crate::sorting::{is_stable_sort_of, stable_sort, Ranked};
use std::collections::HashSet;
use vstd::prelude::*;

verus! {

broadcast use vstd::std_specs::hash::group_hash_axioms;

/// Where an operation stands: its index in the document, and what orders it.
#[derive(Debug, Clone, Copy, PartialEq, Eq, Structural)]
pub struct PaintPlace {
    pub index: usize,
    pub order: i64,
    pub sequence: i64,
    pub id: u128,
}

impl Ranked for PaintPlace {
    /// By the order of painting, then by sequence, then by identifier.
    open spec fn precedes(self, other: Self) -> bool {
        if self.order != other.order {
            self.order < other.order
        } else if self.sequence != other.sequence {
            self.sequence < other.sequence
        } else {
            self.id < other.id
        }
    }

    proof fn precedence_is_asymmetric(left: Self, right: Self) {
    }

    proof fn precedence_is_weak(left: Self, middle: Self, right: Self) {
    }

    fn stands_before(&self, other: &Self) -> (before: bool) {
        if self.order != other.order {
            self.order < other.order
        } else if self.sequence != other.sequence {
            self.sequence < other.sequence
        } else {
            self.id < other.id
        }
    }
}

/// Where an operation stands in the order of painting alone.
#[derive(Debug, Clone, Copy, PartialEq, Eq, Structural)]
pub struct OrderPlace {
    pub index: usize,
    pub order: i64,
}

impl Ranked for OrderPlace {
    open spec fn precedes(self, other: Self) -> bool {
        self.order < other.order
    }

    proof fn precedence_is_asymmetric(left: Self, right: Self) {
    }

    proof fn precedence_is_weak(left: Self, middle: Self, right: Self) {
    }

    fn stands_before(&self, other: &Self) -> (before: bool) {
        self.order < other.order
    }
}

/// Whether the operation is selected, and on the layer where one is given.
pub open spec fn is_chosen(
    operation: EditOperation,
    selected: Set<u128>,
    layer_id: Option<u128>,
) -> bool {
    selected.contains(operation.id) && (layer_id is None || operation.layer_id == layer_id->0)
}

/// The places of the chosen ones among the first `count` operations.
pub open spec fn chosen(
    operations: Seq<EditOperation>,
    selected: Set<u128>,
    layer_id: Option<u128>,
    count: int,
) -> Seq<usize>
    decreases count,
{
    if count <= 0 {
        seq![]
    } else if is_chosen(operations[count - 1], selected, layer_id) {
        chosen(operations, selected, layer_id, count - 1).push((count - 1) as usize)
    } else {
        chosen(operations, selected, layer_id, count - 1)
    }
}

fn choose_indices(
    operations: &Vec<EditOperation>,
    selected: &HashSet<u128>,
    layer_id: Option<u128>,
) -> (indices: Vec<usize>)
    ensures
        indices@ == chosen(operations@, selected@, layer_id, operations@.len() as int),
        forall|k: int| 0 <= k < indices@.len() ==> (#[trigger] indices@[k]) < operations@.len(),
{
    let mut indices: Vec<usize> = Vec::new();
    let mut i: usize = 0;
    while i < operations.len()
        invariant
            i <= operations@.len(),
            indices@ == chosen(operations@, selected@, layer_id, i as int),
            forall|k: int| 0 <= k < indices@.len() ==> (#[trigger] indices@[k]) < i,
        decreases operations@.len() - i,
    {
        let on_layer: bool = match layer_id {
            Some(layer_id) => operations[i].layer_id == layer_id,
            None => true,
        };
        if selected.contains(&operations[i].id) && on_layer {
            indices.push(i);
        }
        i = i + 1;
    }
    indices
}

/// Whether the list holds copies of the operations at the places.
pub open spec fn copies_of(
    copies: Seq<EditOperation>,
    operations: Seq<EditOperation>,
    indices: Seq<usize>,
) -> bool {
    &&& copies.len() == indices.len()
    &&& forall|k: int|
        0 <= k < indices.len() ==> same_operation(
            operations[indices[k] as int],
            #[trigger] copies[k],
        )
}

fn copy_operations(operations: &Vec<EditOperation>, indices: &Vec<usize>) -> (copies: Vec<
    EditOperation,
>)
    requires
        forall|k: int| 0 <= k < indices@.len() ==> (#[trigger] indices@[k]) < operations@.len(),
    ensures
        copies_of(copies@, operations@, indices@),
{
    let mut copies: Vec<EditOperation> = Vec::new();
    let mut i: usize = 0;
    while i < indices.len()
        invariant
            i <= indices@.len(),
            forall|k: int| 0 <= k < indices@.len() ==> (#[trigger] indices@[k]) < operations@.len(),
            copies@.len() == i,
            forall|k: int|
                0 <= k < i ==> same_operation(
                    operations@[indices@[k] as int],
                    #[trigger] copies@[k],
                ),
        decreases indices@.len() - i,
    {
        copies.push(operations[indices[i]].clone());
        i = i + 1;
    }
    copies
}

/// The selected operations in the order of the document.
pub fn selected_operations_in_document_order(
    operations: &Vec<EditOperation>,
    selected: &HashSet<u128>,
) -> (result: Vec<EditOperation>)
    ensures
        copies_of(
            result@,
            operations@,
            chosen(operations@, selected@, None, operations@.len() as int),
        ),
{
    let indices: Vec<usize> = choose_indices(operations, selected, None);
    copy_operations(operations, &indices)
}

/// Where the chosen operations stand in the order of painting.
pub open spec fn order_places(operations: Seq<EditOperation>, indices: Seq<usize>) -> Seq<
    OrderPlace,
> {
    indices.map_values(
        |index: usize| OrderPlace { index, order: operations[index as int].order() },
    )
}

/// Where the chosen operations stand.
pub open spec fn paint_places(operations: Seq<EditOperation>, indices: Seq<usize>) -> Seq<
    PaintPlace,
> {
    indices.map_values(
        |index: usize|
            PaintPlace {
                index,
                order: operations[index as int].order(),
                sequence: operations[index as int].sequence,
                id: operations[index as int].id,
            },
    )
}

/// The places in the document of sorted places.
pub open spec fn sorted_indices(places: Seq<OrderPlace>) -> Seq<usize> {
    places.map_values(|place: OrderPlace| place.index)
}

/// The places in the document of sorted places.
pub open spec fn snapshot_indices(places: Seq<PaintPlace>) -> Seq<usize> {
    places.map_values(|place: PaintPlace| place.index)
}

proof fn lemma_sorted_index<T: Ranked>(sorted: Seq<T>, items: Seq<T>, at: int)
    requires
        is_stable_sort_of(sorted, items),
        0 <= at < sorted.len(),
    ensures
        exists|k: int| 0 <= k < items.len() && #[trigger] items[k] == sorted[at],
{
    let item = sorted[at];
    let is_tied = |other: T| crate::sorting::tied(item, other);
    T::precedence_is_asymmetric(item, item);
    assert(is_tied(sorted[at]));
    sorted.lemma_filter_contains(is_tied, at);
    assert(crate::sorting::ties_of(sorted, item) == crate::sorting::ties_of(items, item));
    items.lemma_filter_contains_rev(is_tied, item);
}

/// The selected operations of a layer in the order of painting; those of equal
/// order stay in the order of the document.
pub fn selected_operations_in_paint_order(
    operations: &Vec<EditOperation>,
    selected: &HashSet<u128>,
    layer_id: u128,
) -> (result: Vec<EditOperation>)
    ensures
        exists|places: Seq<OrderPlace>| #[trigger]
            is_stable_sort_of(
                places,
                order_places(
                    operations@,
                    chosen(operations@, selected@, Some(layer_id), operations@.len() as int),
                ),
            ) && copies_of(result@, operations@, sorted_indices(places)),
{
    let indices: Vec<usize> = choose_indices(operations, selected, Some(layer_id));
    let ghost expected = order_places(operations@, indices@);
    let mut places: Vec<OrderPlace> = Vec::new();
    let mut i: usize = 0;
    while i < indices.len()
        invariant
            i <= indices@.len(),
            forall|k: int| 0 <= k < indices@.len() ==> (#[trigger] indices@[k]) < operations@.len(),
            expected == order_places(operations@, indices@),
            places@ == expected.take(i as int),
        decreases indices@.len() - i,
    {
        places.push(
            OrderPlace { index: indices[i], order: operations[indices[i]].effective_paint_order() },
        );
        i = i + 1;
        assert(places@ =~= expected.take(i as int));
    }
    assert(places@ =~= expected);
    let sorted: Vec<OrderPlace> = stable_sort(places);
    let mut ordered: Vec<usize> = Vec::new();
    let mut j: usize = 0;
    while j < sorted.len()
        invariant
            j <= sorted@.len(),
            is_stable_sort_of(sorted@, expected),
            expected == order_places(operations@, indices@),
            forall|k: int| 0 <= k < indices@.len() ==> (#[trigger] indices@[k]) < operations@.len(),
            ordered@ == sorted_indices(sorted@).take(j as int),
            forall|k: int| 0 <= k < ordered@.len() ==> (#[trigger] ordered@[k]) < operations@.len(),
        decreases sorted@.len() - j,
    {
        proof {
            lemma_sorted_index(sorted@, expected, j as int);
            let k = choose|k: int|
                0 <= k < expected.len() && #[trigger] expected[k] == sorted@[j as int];
            assert(expected[k].index == indices@[k]);
        }
        ordered.push(sorted[j].index);
        j = j + 1;
        assert(ordered@ =~= sorted_indices(sorted@).take(j as int));
    }
    assert(ordered@ =~= sorted_indices(sorted@));
    copy_operations(operations, &ordered)
}

/// The selected operations as they are copied: by the order of painting, then
/// by sequence, then by identifier.
pub fn selected_operation_snapshots(
    operations: &Vec<EditOperation>,
    selected: &HashSet<u128>,
) -> (result: Vec<EditOperation>)
    ensures
        exists|places: Seq<PaintPlace>| #[trigger]
            is_stable_sort_of(
                places,
                paint_places(
                    operations@,
                    chosen(operations@, selected@, None, operations@.len() as int),
                ),
            ) && copies_of(result@, operations@, snapshot_indices(places)),
{
    let indices: Vec<usize> = choose_indices(operations, selected, None);
    let ghost expected = paint_places(operations@, indices@);
    let mut places: Vec<PaintPlace> = Vec::new();
    let mut i: usize = 0;
    while i < indices.len()
        invariant
            i <= indices@.len(),
            forall|k: int| 0 <= k < indices@.len() ==> (#[trigger] indices@[k]) < operations@.len(),
            expected == paint_places(operations@, indices@),
            places@ == expected.take(i as int),
        decreases indices@.len() - i,
    {
        let operation = &operations[indices[i]];
        places.push(
            PaintPlace {
                index: indices[i],
                order: operation.effective_paint_order(),
                sequence: operation.sequence,
                id: operation.id,
            },
        );
        i = i + 1;
        assert(places@ =~= expected.take(i as int));
    }
    assert(places@ =~= expected);
    let sorted: Vec<PaintPlace> = stable_sort(places);
    let mut ordered: Vec<usize> = Vec::new();
    let mut j: usize = 0;
    while j < sorted.len()
        invariant
            j <= sorted@.len(),
            is_stable_sort_of(sorted@, expected),
            expected == paint_places(operations@, indices@),
            forall|k: int| 0 <= k < indices@.len() ==> (#[trigger] indices@[k]) < operations@.len(),
            ordered@ == snapshot_indices(sorted@).take(j as int),
            forall|k: int| 0 <= k < ordered@.len() ==> (#[trigger] ordered@[k]) < operations@.len(),
        decreases sorted@.len() - j,
    {
        proof {
            lemma_sorted_index(sorted@, expected, j as int);
            let k = choose|k: int|
                0 <= k < expected.len() && #[trigger] expected[k] == sorted@[j as int];
            assert(expected[k].index == indices@[k]);
        }
        ordered.push(sorted[j].index);
        j = j + 1;
        assert(ordered@ =~= snapshot_indices(sorted@).take(j as int));
    }
    assert(ordered@ =~= snapshot_indices(sorted@));
    copy_operations(operations, &ordered)
}

/// Whether an operation of this kind is recolored.
pub open spec fn is_recolored(kind: EditKind) -> bool {
    kind == EditKind::Paint || kind == EditKind::Fill
}

/// Those operations that are recolored, in their order.
pub open spec fn recolored(operations: Seq<EditOperation>) -> Seq<EditOperation>
    decreases operations.len(),
{
    if operations.len() == 0 {
        seq![]
    } else if is_recolored(operations.last().kind) {
        recolored(operations.drop_last()).push(operations.last())
    } else {
        recolored(operations.drop_last())
    }
}

/// Leaves only those operations that are recolored.
pub fn retain_recolored(operations: &mut Vec<EditOperation>)
    ensures
        final(operations)@ == recolored(old(operations)@),
{
    let ghost all = operations@;
    let ghost mut done: int = 0;
    let mut i: usize = 0;
    assert(all.take(0) =~= seq![]);
    assert(operations@ =~= recolored(all.take(0)) + all.skip(0));
    while i < operations.len()
        invariant
            0 <= done <= all.len(),
            i == recolored(all.take(done)).len(),
            operations@ == recolored(all.take(done)) + all.skip(done),
        decreases all.len() - done,
    {
        let ghost front = recolored(all.take(done));
        assert(done < all.len());
        assert(operations@[i as int] == all[done]);
        assert(all.take(done + 1).drop_last() =~= all.take(done));
        let kept: bool = match operations[i].kind {
            EditKind::Paint | EditKind::Fill => true,
            EditKind::Erase | EditKind::EraseArea | EditKind::CompactBlock => false,
        };
        if kept {
            i = i + 1;
            assert(operations@ =~= front.push(all[done]) + all.skip(done + 1));
        } else {
            operations.remove(i);
            assert(operations@ =~= front + all.skip(done + 1));
        }
        proof {
            done = done + 1;
        }
    }
    assert(all.take(done) =~= all);
    assert(operations@ =~= recolored(all));
}

/// Whether an eraser takes something away from an operation of this kind.
pub open spec fn is_erasable(kind: EditKind) -> bool {
    kind == EditKind::Paint || kind == EditKind::Fill || kind == EditKind::CompactBlock
}

/// The identifiers of the operations that an eraser would touch: the editable
/// ones that leave something to take away.
pub fn erasable_ids(operations: &Vec<EditOperation>, editable: &HashSet<u128>) -> (ids: HashSet<
    u128,
>)
    ensures
        forall|id: u128| #[trigger]
            ids@.contains(id) <==> exists|i: int|
                0 <= i < operations@.len() && (#[trigger] operations@[i]).id == id && is_erasable(
                    operations@[i].kind,
                ) && editable@.contains(id),
{
    let mut ids: HashSet<u128> = HashSet::new();
    let mut i: usize = 0;
    while i < operations.len()
        invariant
            i <= operations@.len(),
            forall|id: u128| #[trigger]
                ids@.contains(id) <==> exists|k: int|
                    0 <= k < i && (#[trigger] operations@[k]).id == id && is_erasable(
                        operations@[k].kind,
                    ) && editable@.contains(id),
        decreases operations@.len() - i,
    {
        let operation = &operations[i];
        let ghost before = ids@;
        let erasable: bool = match operation.kind {
            EditKind::Paint | EditKind::Fill | EditKind::CompactBlock => true,
            EditKind::Erase | EditKind::EraseArea => false,
        };
        let added: bool = erasable && editable.contains(&operation.id);
        if added {
            ids.insert(operation.id);
        }
        assert forall|id: u128| #[trigger]
            ids@.contains(id) <==> exists|k: int|
                0 <= k < i + 1 && (#[trigger] operations@[k]).id == id && is_erasable(
                    operations@[k].kind,
                ) && editable@.contains(id) by {
            if ids@.contains(id) {
                if before.contains(id) {
                    let k = choose|k: int|
                        0 <= k < i && (#[trigger] operations@[k]).id == id && is_erasable(
                            operations@[k].kind,
                        ) && editable@.contains(id);
                    assert(operations@[k].id == id);
                } else {
                    assert(operations@[i as int].id == id);
                }
            }
        }
        i = i + 1;
    }
    ids
}

/// The targets of an eraser are not all there any more.
#[derive(Debug, Clone, Copy, PartialEq, Eq, Structural)]
pub struct StaleTargets;

/// The operations that an eraser touches, as they are now; none of them may
/// have gone since the eraser was put down.
pub fn snapshotted_eraser_sources(
    operations: &Vec<EditOperation>,
    target_ids: &HashSet<u128>,
) -> (sources: Result<Vec<EditOperation>, StaleTargets>)
    ensures
        ({
            let indices = chosen(operations@, target_ids@, None, operations@.len() as int);
            match sources {
                Ok(sources) => indices.len() == target_ids@.len() && copies_of(
                    sources@,
                    operations@,
                    indices,
                ),
                Err(StaleTargets) => indices.len() != target_ids@.len(),
            }
        }),
{
    let indices: Vec<usize> = choose_indices(operations, target_ids, None);
    if indices.len() != target_ids.len() {
        return Err(StaleTargets);
    }
    Ok(copy_operations(operations, &indices))
}

/// What took the place of an identifier: itself where nothing did.
pub open spec fn replaced(replacements: Seq<(u128, u128)>, id: u128) -> u128
    decreases replacements.len(),
{
    if replacements.len() == 0 {
        id
    } else if replacements.last().0 == id {
        replacements.last().1
    } else {
        replaced(replacements.drop_last(), id)
    }
}

/// The selection after operations were replaced, each by another one.
pub fn replaced_selection(selected: &HashSet<u128>, replacements: &Vec<(u128, u128)>) -> (result:
    HashSet<u128>)
    ensures
        forall|id: u128| #[trigger]
            result@.contains(id) <==> exists|source: u128| #[trigger]
                selected@.contains(source) && replaced(replacements@, source) == id,
{
    let list: Vec<u128> = crate::ids::listed(selected);
    let mut result: HashSet<u128> = HashSet::new();
    let mut i: usize = 0;
    while i < list.len()
        invariant
            i <= list@.len(),
            forall|id: u128| #[trigger]
                result@.contains(id) <==> exists|k: int|
                    0 <= k < i && replaced(replacements@, #[trigger] list@[k]) == id,
        decreases list@.len() - i,
    {
        let ghost before = result@;
        let id: u128 = replacement_of(replacements, list[i]);
        result.insert(id);
        assert forall|other: u128| #[trigger]
            result@.contains(other) <==> exists|k: int|
                0 <= k < i + 1 && replaced(replacements@, #[trigger] list@[k]) == other by {
            if result@.contains(other) {
                if before.contains(other) {
                    let k = choose|k: int|
                        0 <= k < i && replaced(replacements@, #[trigger] list@[k]) == other;
                    assert(replaced(replacements@, list@[k]) == other);
                } else {
                    assert(replaced(replacements@, list@[i as int]) == other);
                }
            }
        }
        i = i + 1;
    }
    assert forall|id: u128| #[trigger]
        result@.contains(id) <==> exists|source: u128| #[trigger]
            selected@.contains(source) && replaced(replacements@, source) == id by {
        if result@.contains(id) {
            let k = choose|k: int|
                0 <= k < list@.len() && replaced(replacements@, #[trigger] list@[k]) == id;
            assert(list@.contains(list@[k]));
            assert(list@.to_set().contains(list@[k]));
            assert(selected@.contains(list@[k]));
        }
        if exists|source: u128| #[trigger]
            selected@.contains(source) && replaced(replacements@, source) == id {
            let source = choose|source: u128| #[trigger]
                selected@.contains(source) && replaced(replacements@, source) == id;
            assert(list@.to_set().contains(source));
            let k = choose|k: int| 0 <= k < list@.len() && list@[k] == source;
            assert(replaced(replacements@, list@[k]) == id);
        }
    }
    result
}

fn replacement_of(replacements: &Vec<(u128, u128)>, id: u128) -> (result: u128)
    ensures
        result == replaced(replacements@, id),
{
    let mut i: usize = replacements.len();
    assert(replacements@.take(i as int) =~= replacements@);
    while i > 0
        invariant
            i <= replacements@.len(),
            replaced(replacements@, id) == replaced(replacements@.take(i as int), id),
        decreases i,
    {
        assert(replacements@.take(i as int).drop_last() =~= replacements@.take(i - 1));
        if replacements[i - 1].0 == id {
            return replacements[i - 1].1;
        }
        i = i - 1;
    }
    id
}

/// The keys of a source and of what took its place, for the first `count`
/// pairs; none where the replacement is not in the document.
pub open spec fn key_pairs(
    operations: Seq<EditOperation>,
    sources: Seq<EditOperation>,
    replacement_ids: Seq<u128>,
    style: RenderStyle,
    count: int,
) -> Seq<(SavedFallbackRenderOperationKey, SavedFallbackRenderOperationKey)>
    decreases count,
{
    if count <= 0 {
        seq![]
    } else {
        let before = key_pairs(operations, sources, replacement_ids, style, count - 1);
        let place = last_with_id(operations, replacement_ids[count - 1], operations.len() as int);
        if place < 0 {
            before
        } else {
            before.push(
                (
                    operation_key(sources[count - 1].id, sources[count - 1], style),
                    operation_key(operations[place].id, operations[place], style),
                ),
            )
        }
    }
}

/// The place of the last one with the identifier among the first `count`
/// operations, or minus one.
pub open spec fn last_with_id(operations: Seq<EditOperation>, id: u128, count: int) -> int
    decreases count,
{
    if count <= 0 {
        -1
    } else if operations[count - 1].id == id {
        count - 1
    } else {
        last_with_id(operations, id, count - 1)
    }
}

fn find_last_with_id(operations: &Vec<EditOperation>, id: u128) -> (place: Option<usize>)
    ensures
        match place {
            Some(place) => place < operations@.len() && last_with_id(
                operations@,
                id,
                operations@.len() as int,
            ) == place,
            None => last_with_id(operations@, id, operations@.len() as int) == -1,
        },
{
    let mut i: usize = operations.len();
    while i > 0
        invariant
            i <= operations@.len(),
            last_with_id(operations@, id, operations@.len() as int) == last_with_id(
                operations@,
                id,
                i as int,
            ),
        decreases i,
    {
        if operations[i - 1].id == id {
            return Some(i - 1);
        }
        i = i - 1;
    }
    None
}

/// The keys under which points are kept after the first `count` pairs.
pub open spec fn warmed_keys(
    known: Set<SavedFallbackRenderOperationKey>,
    pairs: Seq<(SavedFallbackRenderOperationKey, SavedFallbackRenderOperationKey)>,
    count: int,
) -> Set<SavedFallbackRenderOperationKey>
    decreases count,
{
    if count <= 0 {
        known
    } else {
        let before = warmed_keys(known, pairs, count - 1);
        if before.contains(pairs[count - 1].0) {
            before.insert(pairs[count - 1].1)
        } else {
            before
        }
    }
}

/// For how many of the first `count` pairs points were carried over.
pub open spec fn warmed_count(
    known: Set<SavedFallbackRenderOperationKey>,
    pairs: Seq<(SavedFallbackRenderOperationKey, SavedFallbackRenderOperationKey)>,
    count: int,
) -> int
    decreases count,
{
    if count <= 0 {
        0
    } else {
        warmed_count(known, pairs, count - 1) + if warmed_keys(known, pairs, count - 1).contains(
            pairs[count - 1].0,
        ) {
            1int
        } else {
            0
        }
    }
}

/// Whether the kept points of a pair's source, where there are any, were carried
/// over to its replacement, and all other points stayed.
pub open spec fn is_carried<F: Fn(Position) -> Position>(
    transform: F,
    before: Map<SavedFallbackRenderOperationKey, Vec<Position>>,
    after: Map<SavedFallbackRenderOperationKey, Vec<Position>>,
    pair: (SavedFallbackRenderOperationKey, SavedFallbackRenderOperationKey),
) -> bool {
    if before.contains_key(pair.0) {
        &&& after.contains_key(pair.1)
        &&& after == before.insert(pair.1, after[pair.1])
        &&& transformed_by(transform, before[pair.0]@, after[pair.1]@)
    } else {
        after == before
    }
}

/// Whether the stages are what is kept before the first pair and after each.
pub open spec fn are_carried_stages<F: Fn(Position) -> Position>(
    transform: F,
    pairs: Seq<(SavedFallbackRenderOperationKey, SavedFallbackRenderOperationKey)>,
    stages: Seq<Map<SavedFallbackRenderOperationKey, Vec<Position>>>,
) -> bool {
    &&& stages.len() == pairs.len() + 1
    &&& forall|k: int|
        0 <= k < pairs.len() ==> is_carried(
            transform,
            stages[k],
            stages[k + 1],
            #[trigger] pairs[k],
        )
}

/// Whether the pairs were carried over, one after the other.
pub open spec fn carried_over<F: Fn(Position) -> Position>(
    transform: F,
    before: Map<SavedFallbackRenderOperationKey, Vec<Position>>,
    after: Map<SavedFallbackRenderOperationKey, Vec<Position>>,
    pairs: Seq<(SavedFallbackRenderOperationKey, SavedFallbackRenderOperationKey)>,
) -> bool {
    exists|stages: Seq<Map<SavedFallbackRenderOperationKey, Vec<Position>>>| #[trigger]
        are_carried_stages(transform, pairs, stages) && stages.first() == before && stages.last()
            == after
}

/// Carries the kept points of operations over to those that took their place,
/// so that these need not be derived anew. Returns for how many it could.
pub fn warm_replacement_fallback_cache<F: Fn(Position) -> Position>(
    cache: &mut SavedFallbackRenderCache,
    operations: &Vec<EditOperation>,
    sources: &Vec<EditOperation>,
    replacement_ids: &Vec<u128>,
    style: RenderStyle,
    transform: &F,
) -> (warmed: usize)
    requires
        old(cache).wf(),
        forall|position: Position| #[trigger] call_requires(*transform, (position,)),
    ensures
        final(cache).wf(),
        final(cache).frame_key == old(cache).frame_key,
        final(cache).clipped_stroke_runs == old(cache).clipped_stroke_runs,
        final(cache).clipped_area_polygons == old(cache).clipped_area_polygons,
        sources@.len() != replacement_ids@.len() ==> *final(cache) == *old(cache) && warmed == 0,
        sources@.len() == replacement_ids@.len() ==> {
            let pairs = key_pairs(
                operations@,
                sources@,
                replacement_ids@,
                style,
                sources@.len() as int,
            );
            &&& final(cache).points@.dom() == warmed_keys(
                old(cache).points@.dom(),
                pairs,
                pairs.len() as int,
            )
            &&& warmed == warmed_count(old(cache).points@.dom(), pairs, pairs.len() as int)
            &&& forall|key: SavedFallbackRenderOperationKey|
                old(cache).points@.contains_key(key) && (forall|k: int|
                    0 <= k < pairs.len() ==> (#[trigger] pairs[k]).1 != key)
                    ==> #[trigger] final(cache).points@[key] == old(cache).points@[key]
            &&& carried_over(*transform, old(cache).points@, final(cache).points@, pairs)
        },
{
    if sources.len() == 0 || sources.len() != replacement_ids.len() {
        proof {
            if sources.len() == replacement_ids.len() {
                let pairs = key_pairs(operations@, sources@, replacement_ids@, style, 0);
                assert(pairs =~= seq![]);
                lemma_nothing_carried(*transform, cache.points@);
            }
        }
        return 0;
    }
    let ghost known = cache.points@;
    let ghost mut pairs: Seq<(SavedFallbackRenderOperationKey, SavedFallbackRenderOperationKey)> =
        seq![];
    let mut warmed: usize = 0;
    let mut i: usize = 0;
    proof {
        lemma_nothing_carried(*transform, cache.points@);
    }
    while i < sources.len()
        invariant
            i <= sources@.len() == replacement_ids@.len(),
            cache.wf(),
            cache.frame_key == old(cache).frame_key,
            cache.clipped_stroke_runs == old(cache).clipped_stroke_runs,
            cache.clipped_area_polygons == old(cache).clipped_area_polygons,
            forall|position: Position| #[trigger] call_requires(*transform, (position,)),
            known == old(cache).points@,
            pairs == key_pairs(operations@, sources@, replacement_ids@, style, i as int),
            pairs.len() <= i,
            cache.points@.dom() == warmed_keys(known.dom(), pairs, pairs.len() as int),
            warmed == warmed_count(known.dom(), pairs, pairs.len() as int),
            warmed <= pairs.len(),
            forall|key: SavedFallbackRenderOperationKey|
                known.contains_key(key) && (forall|k: int|
                    0 <= k < pairs.len() ==> (#[trigger] pairs[k]).1 != key)
                    ==> #[trigger] cache.points@[key] == known[key],
            carried_over(*transform, known, cache.points@, pairs),
        decreases sources@.len() - i,
    {
        match find_last_with_id(operations, replacement_ids[i]) {
            Some(place) => {
                let source = &sources[i];
                let replacement = &operations[place];
                let source_key = saved_fallback_operation_key(source.id, source, style);
                let replacement_key = saved_fallback_operation_key(
                    replacement.id,
                    replacement,
                    style,
                );
                let ghost before = cache.points@;
                let ghost earlier = pairs;
                let inserted: bool = cache.insert_transformed_from(
                    source_key,
                    replacement_key,
                    transform,
                );
                if inserted {
                    warmed = warmed.saturating_add(1);
                }
                proof {
                    pairs = earlier.push((source_key, replacement_key));
                    lemma_one_more_pair(
                        *transform,
                        known,
                        before,
                        cache.points@,
                        earlier,
                        (source_key, replacement_key),
                        inserted,
                    );
                }
            },
            None => {},
        }
        i = i + 1;
    }
    warmed
}

proof fn lemma_nothing_carried<F: Fn(Position) -> Position>(
    transform: F,
    known: Map<SavedFallbackRenderOperationKey, Vec<Position>>,
)
    ensures
        carried_over(transform, known, known, seq![]),
{
    assert(are_carried_stages(transform, seq![], seq![known]));
}

proof fn lemma_prefix_is_warmed_alike(
    known: Set<SavedFallbackRenderOperationKey>,
    pairs: Seq<(SavedFallbackRenderOperationKey, SavedFallbackRenderOperationKey)>,
    more: (SavedFallbackRenderOperationKey, SavedFallbackRenderOperationKey),
    count: int,
)
    requires
        0 <= count <= pairs.len(),
    ensures
        warmed_keys(known, pairs.push(more), count) == warmed_keys(known, pairs, count),
        warmed_count(known, pairs.push(more), count) == warmed_count(known, pairs, count),
    decreases count,
{
    if count > 0 {
        lemma_prefix_is_warmed_alike(known, pairs, more, count - 1);
        assert(pairs.push(more)[count - 1] == pairs[count - 1]);
    }
}

proof fn lemma_one_more_pair<F: Fn(Position) -> Position>(
    transform: F,
    known: Map<SavedFallbackRenderOperationKey, Vec<Position>>,
    before: Map<SavedFallbackRenderOperationKey, Vec<Position>>,
    after: Map<SavedFallbackRenderOperationKey, Vec<Position>>,
    earlier: Seq<(SavedFallbackRenderOperationKey, SavedFallbackRenderOperationKey)>,
    pair: (SavedFallbackRenderOperationKey, SavedFallbackRenderOperationKey),
    inserted: bool,
)
    requires
        before.dom() == warmed_keys(known.dom(), earlier, earlier.len() as int),
        inserted == before.contains_key(pair.0),
        !inserted ==> after == before,
        inserted ==> after.contains_key(pair.1) && after == before.insert(pair.1, after[pair.1])
            && transformed_by(transform, before[pair.0]@, after[pair.1]@),
        forall|key: SavedFallbackRenderOperationKey|
            known.contains_key(key) && (forall|k: int|
                0 <= k < earlier.len() ==> (#[trigger] earlier[k]).1 != key)
                ==> #[trigger] before[key] == known[key],
        carried_over(transform, known, before, earlier),
    ensures
        after.dom() == warmed_keys(known.dom(), earlier.push(pair), (earlier.len() + 1) as int),
        warmed_count(known.dom(), earlier.push(pair), (earlier.len() + 1) as int) == warmed_count(
            known.dom(),
            earlier,
            earlier.len() as int,
        ) + if inserted {
            1int
        } else {
            0
        },
        forall|key: SavedFallbackRenderOperationKey|
            known.contains_key(key) && (forall|k: int|
                0 <= k < earlier.push(pair).len() ==> (#[trigger] earlier.push(pair)[k]).1 != key)
                ==> #[trigger] after[key] == known[key],
        carried_over(transform, known, after, earlier.push(pair)),
{
    let pairs = earlier.push(pair);
    let last = earlier.len() as int;
    lemma_prefix_is_warmed_alike(known.dom(), earlier, pair, last);
    assert(pairs[last] == pair);
    assert(after.dom() =~= warmed_keys(known.dom(), pairs, last + 1));
    assert forall|key: SavedFallbackRenderOperationKey|
        known.contains_key(key) && (forall|k: int|
            0 <= k < pairs.len() ==> (#[trigger] pairs[k]).1 != key) implies #[trigger] after[key]
        == known[key] by {
        assert(pairs[last].1 != key);
        assert forall|k: int| 0 <= k < earlier.len() implies (#[trigger] earlier[k]).1 != key by {
            assert(pairs[k] == earlier[k]);
        }
        assert(before[key] == known[key]);
    }
    let stages = choose|stages: Seq<Map<SavedFallbackRenderOperationKey, Vec<Position>>>| #[trigger]
        are_carried_stages(transform, earlier, stages) && stages.first() == known && stages.last()
            == before;
    let more = stages.push(after);
    assert forall|k: int| 0 <= k < pairs.len() implies is_carried(
        transform,
        more[k],
        more[k + 1],
        #[trigger] pairs[k],
    ) by {
        if k < last {
            assert(pairs[k] == earlier[k]);
            assert(more[k] == stages[k] && more[k + 1] == stages[k + 1]);
        } else {
            assert(more[k] == stages.last());
        }
    }
    assert(are_carried_stages(transform, pairs, more));
    assert(more.first() == known && more.last() == after);
}

proof fn lemma_chosen(
    operations: Seq<EditOperation>,
    selected: Set<u128>,
    layer_id: Option<u128>,
    count: int,
)
    requires
        0 <= count <= operations.len() <= usize::MAX,
    ensures
        ({
            let places = chosen(operations, selected, layer_id, count);
            &&& forall|k: int|
                0 <= k < places.len() ==> 0 <= #[trigger] places[k] < count && is_chosen(
                    operations[places[k] as int],
                    selected,
                    layer_id,
                )
            &&& forall|k: int, l: int|
                0 <= k < l < places.len() ==> #[trigger] places[k] < #[trigger] places[l]
            &&& forall|at: usize|
                at < count && is_chosen(#[trigger] operations[at as int], selected, layer_id)
                    ==> places.contains(at)
        }),
    decreases count,
{
    if count > 0 {
        lemma_chosen(operations, selected, layer_id, count - 1);
        let places = chosen(operations, selected, layer_id, count);
        let before = chosen(operations, selected, layer_id, count - 1);
        assert forall|at: usize|
            at < count && is_chosen(
                #[trigger] operations[at as int],
                selected,
                layer_id,
            ) implies places.contains(at) by {
            if at < count - 1 {
                assert(places[before.index_of(at)] == at);
            } else {
                assert(places[before.len() as int] == at);
            }
        }
    }
}

/// What is chosen are, in the order of the document and each once, all operations
/// that are selected, on the layer where one is given; no others.
pub proof fn law_all_that_is_selected_is_chosen_in_order(
    operations: Seq<EditOperation>,
    selected: Set<u128>,
    layer_id: Option<u128>,
    at: usize,
)
    requires
        at < operations.len() <= usize::MAX,
    ensures
        ({
            let places = chosen(operations, selected, layer_id, operations.len() as int);
            &&& places.contains(at) <==> selected.contains(operations[at as int].id) && (layer_id
                matches Some(layer) ==> operations[at as int].layer_id == layer)
            &&& forall|k: int, l: int|
                0 <= k < l < places.len() ==> #[trigger] places[k] < #[trigger] places[l]
        }),
{
    lemma_chosen(operations, selected, layer_id, operations.len() as int);
    let places = chosen(operations, selected, layer_id, operations.len() as int);
    if places.contains(at) {
        assert(places[places.index_of(at)] == at);
    }
    if is_chosen(operations[at as int], selected, layer_id) {
        assert(places.contains(at));
    }
}

/// What was painted earlier stands first; of what was painted as one, what has the
/// lesser sequence, and then the lesser identity.
pub proof fn law_earlier_paint_stands_first(one: PaintPlace, other: PaintPlace)
    ensures
        one.order < other.order ==> one.precedes(other) && !other.precedes(one),
        one.order == other.order && one.sequence < other.sequence ==> one.precedes(other)
            && !other.precedes(one),
        one.order == other.order && one.sequence == other.sequence && one.id < other.id
            ==> one.precedes(other) && !other.precedes(one),
        !one.precedes(one),
{
}

/// What is in front in the order of painting stands later.
pub proof fn law_lower_orders_stand_first(one: OrderPlace, other: OrderPlace)
    ensures
        one.precedes(other) <==> one.order < other.order,
{
}

/// Recoloring is about paint and fills alone, and keeps their order.
pub proof fn law_only_paint_and_fills_are_recolored(operations: Seq<EditOperation>)
    ensures
        recolored(operations) == operations.filter(
            |operation: EditOperation|
                operation.kind == EditKind::Paint || operation.kind == EditKind::Fill,
        ),
    decreases operations.len(),
{
    reveal(Seq::filter);
    if operations.len() > 0 {
        law_only_paint_and_fills_are_recolored(operations.drop_last());
    }
}

/// Of several replacements for an identity the last one counts; one without a
/// replacement stays.
pub proof fn law_the_last_replacement_counts(replacements: Seq<(u128, u128)>, id: u128, at: int)
    requires
        0 <= at < replacements.len(),
        replacements[at].0 == id,
        forall|k: int| at < k < replacements.len() ==> (#[trigger] replacements[k]).0 != id,
    ensures
        replaced(replacements, id) == replacements[at].1,
    decreases replacements.len(),
{
    if at < replacements.len() - 1 {
        let last = replacements.len() - 1;
        assert(replacements[last].0 != id);
        assert(replacements.last() == replacements[last]);
        law_the_last_replacement_counts(replacements.drop_last(), id, at);
    }
}

/// What is not replaced stays as it is.
pub proof fn law_what_is_not_replaced_stays(replacements: Seq<(u128, u128)>, id: u128)
    requires
        forall|k: int| 0 <= k < replacements.len() ==> (#[trigger] replacements[k]).0 != id,
    ensures
        replaced(replacements, id) == id,
    decreases replacements.len(),
{
    if replacements.len() > 0 {
        assert(replacements.last() == replacements[replacements.len() - 1]);
        law_what_is_not_replaced_stays(replacements.drop_last(), id);
    }
}

/// The last operation with an identity is found: it has the identity and none
/// after it has; there is none only where no operation has it.
pub proof fn law_the_last_with_an_identity_is_found(
    operations: Seq<EditOperation>,
    id: u128,
    count: int,
)
    requires
        0 <= count <= operations.len(),
    ensures
        ({
            let place = last_with_id(operations, id, count);
            &&& -1 <= place < count
            &&& place >= 0 ==> operations[place].id == id
            &&& forall|k: int| place < k < count ==> (#[trigger] operations[k]).id != id
        }),
    decreases count,
{
    if count > 0 {
        law_the_last_with_an_identity_is_found(operations, id, count - 1);
    }
}

/// Every source whose replacement is in the document has its keys paired: its own
/// and that of the replacement.
pub proof fn law_every_source_is_paired(
    operations: Seq<EditOperation>,
    sources: Seq<EditOperation>,
    replacement_ids: Seq<u128>,
    style: RenderStyle,
    count: int,
    at: int,
    place: int,
)
    requires
        0 <= at < count <= sources.len(),
        sources.len() == replacement_ids.len(),
        0 <= place < operations.len(),
        operations[place].id == replacement_ids[at],
        forall|k: int|
            place < k < operations.len() ==> (#[trigger] operations[k]).id != replacement_ids[at],
    ensures
        key_pairs(operations, sources, replacement_ids, style, count).contains(
            (
                operation_key(sources[at].id, sources[at], style),
                operation_key(operations[place].id, operations[place], style),
            ),
        ),
    decreases count,
{
    let all = key_pairs(operations, sources, replacement_ids, style, count);
    let before = key_pairs(operations, sources, replacement_ids, style, count - 1);
    let pair = (
        operation_key(sources[at].id, sources[at], style),
        operation_key(operations[place].id, operations[place], style),
    );
    if at < count - 1 {
        law_every_source_is_paired(
            operations,
            sources,
            replacement_ids,
            style,
            count - 1,
            at,
            place,
        );
        assert(all[before.index_of(pair)] == pair);
    } else {
        let found = last_with_id(operations, replacement_ids[at], operations.len() as int);
        law_the_last_with_an_identity_is_found(
            operations,
            replacement_ids[at],
            operations.len() as int,
        );
        assert(found == place) by {
            if found < place {
                assert(operations[place].id != replacement_ids[at]);
            }
            if place < found {
                assert(operations[found].id != replacement_ids[at]);
            }
        }
        assert(all[before.len() as int] == pair);
    }
}

/// Warming forgets no key, and adds the second key of every pair whose first was
/// known.
pub proof fn law_warming_carries_known_keys_over(
    known: Set<SavedFallbackRenderOperationKey>,
    pairs: Seq<(SavedFallbackRenderOperationKey, SavedFallbackRenderOperationKey)>,
    count: int,
    at: int,
    key: SavedFallbackRenderOperationKey,
)
    requires
        0 <= at < count <= pairs.len(),
    ensures
        known.contains(key) ==> warmed_keys(known, pairs, count).contains(key),
        known.contains(pairs[at].0) ==> warmed_keys(known, pairs, count).contains(pairs[at].1),
        warmed_keys(known, pairs, count).contains(key) && !known.contains(key) ==> exists|i: int|
            0 <= i < count && (#[trigger] pairs[i]).1 == key,
    decreases count,
{
    lemma_warmed(known, pairs, count, key);
    lemma_warmed(known, pairs, count - 1, pairs[at].0);
    if at < count - 1 {
        law_warming_carries_known_keys_over(known, pairs, count - 1, at, key);
    }
}

proof fn lemma_warmed(
    known: Set<SavedFallbackRenderOperationKey>,
    pairs: Seq<(SavedFallbackRenderOperationKey, SavedFallbackRenderOperationKey)>,
    count: int,
    key: SavedFallbackRenderOperationKey,
)
    requires
        0 <= count <= pairs.len(),
    ensures
        known.contains(key) ==> warmed_keys(known, pairs, count).contains(key),
        warmed_keys(known, pairs, count).contains(key) && !known.contains(key) ==> exists|i: int|
            0 <= i < count && (#[trigger] pairs[i]).1 == key,
    decreases count,
{
    if count > 0 {
        lemma_warmed(known, pairs, count - 1, key);
        if warmed_keys(known, pairs, count).contains(key) && !known.contains(key) {
            if warmed_keys(known, pairs, count - 1).contains(key) {
                let i = choose|i: int| 0 <= i < count - 1 && (#[trigger] pairs[i]).1 == key;
                assert(0 <= i < count && pairs[i].1 == key);
            } else {
                assert(pairs[count - 1].1 == key);
            }
        }
    }
}

} // verus!
