//! Which objects are selected.

use crate::ids::{add_listed, holds_all, id_set, listed, remove_listed};
use crate::model::EditOperation;
use crate::sorting::{is_stable_sort_of, stable_sort, Ranked};
use std::collections::HashSet;
use vstd::arithmetic::div_mod::{lemma_fundamental_div_mod, lemma_fundamental_div_mod_converse};
use vstd::prelude::*;

verus! {

/// Which objects a selection rectangle takes.
#[derive(Debug, Clone, Copy, PartialEq, Eq, Structural)]
pub enum RectangleSelectionMode {
    Inside,
    Crossing,
}

/// What the selection tool selects.
#[derive(Debug, Clone, Copy, PartialEq, Eq, Structural)]
pub enum SelectionTargetMode {
    Object,
    Area,
}

/// How an area is drawn.
#[derive(Debug, Clone, Copy, PartialEq, Eq, Structural)]
pub enum AreaSelectionShape {
    Rectangle,
    Lasso,
}

/// The other rectangle mode.
pub fn rectangle_selection_mode_cycle(current: RectangleSelectionMode) -> (next:
    RectangleSelectionMode)
    ensures
        next == match current {
            RectangleSelectionMode::Inside => RectangleSelectionMode::Crossing,
            RectangleSelectionMode::Crossing => RectangleSelectionMode::Inside,
        },
{
    match current {
        RectangleSelectionMode::Inside => RectangleSelectionMode::Crossing,
        RectangleSelectionMode::Crossing => RectangleSelectionMode::Inside,
    }
}

/// The other target mode.
pub fn selection_target_cycle(current: SelectionTargetMode) -> (next: SelectionTargetMode)
    ensures
        next == match current {
            SelectionTargetMode::Object => SelectionTargetMode::Area,
            SelectionTargetMode::Area => SelectionTargetMode::Object,
        },
{
    match current {
        SelectionTargetMode::Object => SelectionTargetMode::Area,
        SelectionTargetMode::Area => SelectionTargetMode::Object,
    }
}

/// The place `step` places after `current` in a cycle of `length` places.
pub fn wrapped_cycle_index(current: usize, length: usize, step: isize) -> (index: usize)
    requires
        0 < length <= isize::MAX,
        current <= isize::MAX,
        isize::MIN <= current + step <= isize::MAX,
    ensures
        index == (current + step) % (length as int),
        index < length,
{
    let sum: isize = current as isize + step;
    if sum >= 0 {
        (sum as usize) % length
    } else {
        let below: usize = (-(sum + 1)) as usize;
        let rest: usize = below % length;
        proof {
            lemma_fundamental_div_mod(below as int, length as int);
            let turns = below as int / length as int;
            assert(sum == -(length * turns + rest + 1));
            assert(-(length * turns + rest + 1) == (-turns - 1) * length + (length - 1 - rest))
                by (nonlinear_arith);
            lemma_fundamental_div_mod_converse(
                sum as int,
                length as int,
                -turns - 1,
                length - 1 - rest,
            );
        }
        length - 1 - rest
    }
}

/// Going on in a cycle and back the same number of steps ends where it began.
pub proof fn law_cycle_steps_are_undone(current: int, length: int, step: int)
    requires
        0 <= current < length,
    ensures
        ((current + step) % length - step) % length == current,
{
    lemma_fundamental_div_mod(current + step, length);
    let turns = (current + step) / length;
    assert((current + step) % length - step == (-turns) * length + current) by (nonlinear_arith)
        requires
            current + step == length * turns + (current + step) % length,
    ;
    lemma_fundamental_div_mod_converse(
        (current + step) % length - step,
        length,
        -turns,
        current,
    );
}

/// Where a double-precision number stands in the total order of all patterns:
/// below negative infinity and above infinity stand those that are no number,
/// and negative zero stands right below zero.
pub open spec fn total_rank(bits: u64) -> int {
    if bits >= 0x8000_0000_0000_0000 {
        -(bits - 0x8000_0000_0000_0000) - 1
    } else {
        bits as int
    }
}

fn total_rank_of(bits: u64) -> (rank: i64)
    ensures
        rank == total_rank(bits),
{
    if bits >= 0x8000_0000_0000_0000 {
        -((bits - 0x8000_0000_0000_0000) as i64) - 1
    } else {
        bits as i64
    }
}

/// How well an object matches a click; distance and area are the patterns of
/// double-precision numbers.
#[derive(Debug, Clone, Copy, PartialEq, Eq, Structural)]
pub struct ClickScore {
    pub distance: u64,
    pub area: u64,
}

/// An object under the pointer.
#[derive(Debug, Clone, Copy, PartialEq, Eq, Structural)]
pub struct SelectionCandidate {
    pub id: u128,
    pub effective_distance: u64,
    pub bounds_area: u64,
    pub layer_order: i64,
    pub paint_order: i64,
    pub is_eraser: bool,
}

impl Ranked for SelectionCandidate {
    /// Nearer ones come first, then smaller ones, then those that do not
    /// erase, then those of higher layers, then those painted later.
    open spec fn precedes(self, other: Self) -> bool {
        if total_rank(self.effective_distance) != total_rank(other.effective_distance) {
            total_rank(self.effective_distance) < total_rank(other.effective_distance)
        } else if total_rank(self.bounds_area) != total_rank(other.bounds_area) {
            total_rank(self.bounds_area) < total_rank(other.bounds_area)
        } else if self.is_eraser != other.is_eraser {
            other.is_eraser
        } else if self.layer_order != other.layer_order {
            self.layer_order > other.layer_order
        } else {
            self.paint_order > other.paint_order
        }
    }

    proof fn precedence_is_asymmetric(left: Self, right: Self) {
    }

    proof fn precedence_is_weak(left: Self, middle: Self, right: Self) {
    }

    fn stands_before(&self, other: &Self) -> (before: bool) {
        let distance: i64 = total_rank_of(self.effective_distance);
        let other_distance: i64 = total_rank_of(other.effective_distance);
        if distance != other_distance {
            return distance < other_distance;
        }
        let area: i64 = total_rank_of(self.bounds_area);
        let other_area: i64 = total_rank_of(other.bounds_area);
        if area != other_area {
            return area < other_area;
        }
        if self.is_eraser != other.is_eraser {
            return other.is_eraser;
        }
        if self.layer_order != other.layer_order {
            return self.layer_order > other.layer_order;
        }
        self.paint_order > other.paint_order
    }
}

/// Whether the operation at `index` may be picked and matches the click.
pub open spec fn offered(
    operations: Seq<EditOperation>,
    pickable: Set<u128>,
    scores: Seq<Option<ClickScore>>,
    index: int,
) -> bool {
    pickable.contains(operations[index].id) && scores[index].is_some()
}

/// The operations among the first `count` that stand for their objects: the
/// first one of each object that is offered.
pub open spec fn candidates_among(
    operations: Seq<EditOperation>,
    pickable: Set<u128>,
    scores: Seq<Option<ClickScore>>,
    layer_orders: Seq<i64>,
    count: int,
) -> Seq<SelectionCandidate>
    decreases count,
{
    if count <= 0 {
        seq![]
    } else {
        let before = candidates_among(operations, pickable, scores, layer_orders, count - 1);
        let operation = operations[count - 1];
        if offered(operations, pickable, scores, count - 1) && forall|k: int|
            0 <= k < count - 1 && #[trigger] offered(operations, pickable, scores, k)
                ==> operations[k].object() != operation.object() {
            before.push(
                SelectionCandidate {
                    id: operation.id,
                    effective_distance: scores[count - 1].unwrap().distance,
                    bounds_area: scores[count - 1].unwrap().area,
                    layer_order: layer_orders[count - 1],
                    paint_order: operation.order(),
                    is_eraser: operation.kind.erases(),
                },
            )
        } else {
            before
        }
    }
}

/// The objects under the pointer, the one to pick first at the front.
/// `scores` and `layer_orders` hold, for each operation, how well it matches
/// the click and the place of its layer.
pub fn selection_candidates(
    operations: &Vec<EditOperation>,
    pickable: &HashSet<u128>,
    scores: &Vec<Option<ClickScore>>,
    layer_orders: &Vec<i64>,
) -> (candidates: Vec<SelectionCandidate>)
    requires
        scores.len() == operations.len(),
        layer_orders.len() == operations.len(),
    ensures
        is_stable_sort_of(
            candidates@,
            candidates_among(
                operations@,
                pickable@,
                scores@,
                layer_orders@,
                operations.len() as int,
            ),
        ),
{
    let mut seen: HashSet<u128> = HashSet::new();
    let mut candidates: Vec<SelectionCandidate> = Vec::new();
    let mut i: usize = 0;
    while i < operations.len()
        invariant
            i <= operations.len(),
            scores.len() == operations.len(),
            layer_orders.len() == operations.len(),
            candidates@ == candidates_among(
                operations@,
                pickable@,
                scores@,
                layer_orders@,
                i as int,
            ),
            forall|k: int|
                0 <= k < i && #[trigger] offered(operations@, pickable@, scores@, k)
                    ==> seen@.contains(operations@[k].object()),
            forall|object: u128| #[trigger]
                seen@.contains(object) ==> exists|k: int|
                    0 <= k < i && #[trigger] offered(operations@, pickable@, scores@, k)
                        && operations@[k].object() == object,
        decreases operations.len() - i,
    {
        let operation = &operations[i];
        if pickable.contains(&operation.id) {
            if let Some(score) = scores[i] {
                assert(offered(operations@, pickable@, scores@, i as int));
                if seen.insert(operation.object_group_id()) {
                    candidates.push(
                        SelectionCandidate {
                            id: operation.id,
                            effective_distance: score.distance,
                            bounds_area: score.area,
                            layer_order: layer_orders[i],
                            paint_order: operation.effective_paint_order(),
                            is_eraser: operation.kind.is_erase(),
                        },
                    );
                }
            }
        }
        i = i + 1;
    }
    stable_sort(candidates)
}

/// What the selection is after `matches` were picked: with the control key
/// they are taken out where all of them were selected and else added, with the
/// shift key they are added, and without either they replace the selection.
pub open spec fn applied_selection(
    selected: Set<u128>,
    matches: Set<u128>,
    shift: bool,
    ctrl: bool,
) -> Set<u128> {
    if ctrl && matches.subset_of(selected) {
        selected.difference(matches)
    } else if ctrl || shift {
        selected.union(matches)
    } else {
        matches
    }
}

/// Picks `matches`, all operations of the picked objects.
pub fn apply_selection_ids(
    selected: &mut HashSet<u128>,
    matches: &HashSet<u128>,
    shift: bool,
    ctrl: bool,
)
    ensures
        final(selected)@ == applied_selection(old(selected)@, matches@, shift, ctrl),
{
    let list: Vec<u128> = listed(matches);
    if ctrl {
        if holds_all(selected, &list) {
            remove_listed(selected, &list);
        } else {
            add_listed(selected, &list);
        }
    } else if shift {
        add_listed(selected, &list);
    } else {
        *selected = id_set(&list);
    }
}

/// Picking the same objects twice with the control key leaves the selection as
/// it was, where none of them or all of them were selected.
pub proof fn law_control_picks_toggle(selected: Set<u128>, matches: Set<u128>)
    requires
        matches.subset_of(selected) || matches.disjoint(selected),
    ensures
        applied_selection(
            applied_selection(selected, matches, false, true),
            matches,
            false,
            true,
        ) == selected,
{
    let once = applied_selection(selected, matches, false, true);
    let twice = applied_selection(once, matches, false, true);
    if matches.subset_of(selected) {
        if matches.subset_of(once) {
            assert forall|id: u128| !matches.contains(id) by {
                if matches.contains(id) {
                    assert(once.contains(id));
                }
            }
        }
        assert(twice =~= selected);
    } else {
        assert(matches.subset_of(once));
        assert(twice =~= selected);
    }
}

/// The objects of the selected operations among the first `count`.
pub open spec fn selected_objects(
    operations: Seq<EditOperation>,
    selected: Set<u128>,
    count: int,
) -> Set<u128>
    decreases count,
{
    if count <= 0 {
        Set::empty()
    } else if selected.contains(operations[count - 1].id) {
        selected_objects(operations, selected, count - 1).insert(operations[count - 1].object())
    } else {
        selected_objects(operations, selected, count - 1)
    }
}

/// How many objects are selected.
pub fn selected_object_count(operations: &Vec<EditOperation>, selected: &HashSet<u128>) -> (count:
    usize)
    ensures
        count == selected_objects(operations@, selected@, operations.len() as int).len(),
{
    let mut objects: HashSet<u128> = HashSet::new();
    let mut i: usize = 0;
    while i < operations.len()
        invariant
            i <= operations.len(),
            objects@ == selected_objects(operations@, selected@, i as int),
        decreases operations.len() - i,
    {
        if selected.contains(&operations[i].id) {
            objects.insert(operations[i].object_group_id());
        }
        i = i + 1;
    }
    objects.len()
}

/// Whether every operation of the layer that belongs to the object is
/// contained.
pub open spec fn object_is_contained(
    operations: Seq<EditOperation>,
    contained: Set<u128>,
    layer_id: u128,
    object: u128,
) -> bool {
    forall|k: int|
        0 <= k < operations.len() && (#[trigger] operations[k]).layer_id == layer_id
            && operations[k].object() == object ==> contained.contains(operations[k].id)
}

/// The operations of the layer whose objects lie inside with all their
/// operations of that layer.
pub open spec fn fully_contained(
    operations: Seq<EditOperation>,
    contained: Set<u128>,
    layer_id: u128,
    id: u128,
) -> bool {
    exists|i: int|
        0 <= i < operations.len() && (#[trigger] operations[i]).id == id && operations[i].layer_id
            == layer_id && object_is_contained(
            operations,
            contained,
            layer_id,
            operations[i].object(),
        )
}

/// The operations of the layer whose objects lie inside completely.
pub fn fully_contained_object_operation_ids(
    operations: &Vec<EditOperation>,
    contained_operation_ids: &HashSet<u128>,
    layer_id: u128,
) -> (ids: HashSet<u128>)
    ensures
        forall|id: u128| #[trigger]
            ids@.contains(id) <==> fully_contained(
                operations@,
                contained_operation_ids@,
                layer_id,
                id,
            ),
{
    let ghost contained = contained_operation_ids@;
    let mut cut: HashSet<u128> = HashSet::new();
    let mut i: usize = 0;
    while i < operations.len()
        invariant
            i <= operations.len(),
            contained == contained_operation_ids@,
            forall|k: int|
                0 <= k < i && (#[trigger] operations@[k]).layer_id == layer_id
                    && !contained.contains(operations@[k].id) ==> cut@.contains(
                    operations@[k].object(),
                ),
            forall|object: u128| #[trigger]
                cut@.contains(object) ==> !object_is_contained(
                    operations@,
                    contained,
                    layer_id,
                    object,
                ),
        decreases operations.len() - i,
    {
        let operation = &operations[i];
        if operation.layer_id == layer_id && !contained_operation_ids.contains(&operation.id) {
            cut.insert(operation.object_group_id());
            assert(!object_is_contained(
                operations@,
                contained,
                layer_id,
                operations@[i as int].object(),
            ));
        }
        i = i + 1;
    }
    let mut ids: HashSet<u128> = HashSet::new();
    let mut j: usize = 0;
    while j < operations.len()
        invariant
            j <= operations.len(),
            forall|object: u128|
                cut@.contains(object) <==> exists|k: int|
                    0 <= k < operations@.len() && (#[trigger] operations@[k]).layer_id == layer_id
                        && !contained.contains(operations@[k].id) && operations@[k].object()
                        == object,
            forall|id: u128| #[trigger]
                ids@.contains(id) ==> fully_contained(operations@, contained, layer_id, id),
            forall|k: int|
                0 <= k < j && (#[trigger] operations@[k]).layer_id == layer_id
                    && object_is_contained(
                    operations@,
                    contained,
                    layer_id,
                    operations@[k].object(),
                ) ==> ids@.contains(operations@[k].id),
        decreases operations.len() - j,
    {
        let operation = &operations[j];
        if operation.layer_id == layer_id && !cut.contains(&operation.object_group_id()) {
            ids.insert(operation.id);
            assert(object_is_contained(
                operations@,
                contained,
                layer_id,
                operations@[j as int].object(),
            ));
            assert(fully_contained(operations@, contained, layer_id, operations@[j as int].id));
        }
        j = j + 1;
    }
    ids
}

/// A digest of a set of identifiers, the same for every order of them.
#[derive(Debug, Clone, Copy, PartialEq, Eq, Structural)]
pub struct SelectionBoundsSignature {
    pub len: usize,
    pub xor: u128,
    pub sum: u128,
}

/// The exclusive or of the identifiers.
pub open spec fn xor_of(ids: Seq<u128>) -> u128
    decreases ids.len(),
{
    if ids.len() == 0 {
        0
    } else {
        xor_of(ids.drop_last()) ^ ids.last()
    }
}

/// The sum of the identifiers.
pub open spec fn sum_of(ids: Seq<u128>) -> int
    decreases ids.len(),
{
    if ids.len() == 0 {
        0
    } else {
        sum_of(ids.drop_last()) + ids.last()
    }
}

/// The digest of identifiers listed in some order: their number, their
/// exclusive or, and their sum modulo two to the power of 128.
pub open spec fn signature_of(ids: Seq<u128>) -> SelectionBoundsSignature {
    SelectionBoundsSignature {
        len: ids.len() as usize,
        xor: xor_of(ids),
        sum: (sum_of(ids) % (u128::MAX + 1)) as u128,
    }
}

proof fn lemma_digest_without(ids: Seq<u128>, at: int)
    requires
        0 <= at < ids.len(),
    ensures
        xor_of(ids) == xor_of(ids.remove(at)) ^ ids[at],
        sum_of(ids) == sum_of(ids.remove(at)) + ids[at],
    decreases ids.len(),
{
    if at == ids.len() - 1 {
        assert(ids.remove(at) =~= ids.drop_last());
    } else {
        let shorter = ids.drop_last();
        lemma_digest_without(shorter, at);
        assert(ids.remove(at).drop_last() =~= shorter.remove(at));
        assert(ids.remove(at).last() == ids.last());
        let rest = xor_of(shorter.remove(at));
        let held = ids[at];
        let last = ids.last();
        assert((rest ^ held) ^ last == (rest ^ last) ^ held) by (bit_vector);
    }
}

/// The digest of a selection is the same in whatever order its identifiers are
/// listed.
pub proof fn law_signature_ignores_order(left: Seq<u128>, right: Seq<u128>)
    requires
        left.no_duplicates(),
        right.no_duplicates(),
        left.to_set() == right.to_set(),
    ensures
        signature_of(left) == signature_of(right),
{
    lemma_digest_ignores_order(left, right);
}

proof fn lemma_digest_ignores_order(left: Seq<u128>, right: Seq<u128>)
    requires
        left.no_duplicates(),
        right.no_duplicates(),
        left.to_set() == right.to_set(),
    ensures
        left.len() == right.len(),
        xor_of(left) == xor_of(right),
        sum_of(left) == sum_of(right),
    decreases left.len(),
{
    if left.len() == 0 {
        if right.len() > 0 {
            assert(right.to_set().contains(right[0]));
            assert(left.contains(right[0]));
        }
    } else {
        let id = left.last();
        assert(left.to_set().contains(id));
        assert(right.contains(id));
        let at = choose|at: int| 0 <= at < right.len() && right[at] == id;
        let shorter = left.drop_last();
        let rest = right.remove(at);
        assert forall|other: u128| shorter.to_set().contains(other) <==> rest.to_set().contains(
            other,
        ) by {
            if shorter.contains(other) {
                let k = choose|k: int| 0 <= k < shorter.len() && shorter[k] == other;
                assert(left[k] == other);
                assert(left.to_set().contains(other));
                assert(right.contains(other));
                let m = choose|m: int| 0 <= m < right.len() && right[m] == other;
                assert(m != at);
                assert(rest[if m < at { m } else { m - 1 }] == other);
            }
            if rest.contains(other) {
                let m = choose|m: int| 0 <= m < rest.len() && rest[m] == other;
                let n = if m < at { m } else { m + 1 };
                assert(right[n] == other);
                assert(right.to_set().contains(other));
                assert(left.contains(other));
                let k = choose|k: int| 0 <= k < left.len() && left[k] == other;
                assert(k != left.len() - 1);
                assert(shorter[k] == other);
            }
        }
        assert(shorter.to_set() =~= rest.to_set());
        assert(rest.no_duplicates()) by {
            assert forall|i: int, j: int| 0 <= i < j < rest.len() implies rest[i] != rest[j] by {
                assert(rest[i] == right[if i < at { i } else { i + 1 }]);
                assert(rest[j] == right[if j < at { j } else { j + 1 }]);
            }
        }
        lemma_digest_ignores_order(shorter, rest);
        lemma_digest_without(right, at);
    }
}

/// The digest of a selection.
pub fn selection_bounds_signature(selected: &HashSet<u128>) -> (signature: SelectionBoundsSignature)
    ensures
        forall|ids: Seq<u128>|
            ids.no_duplicates() && #[trigger] ids.to_set() == selected@ ==> signature
                == signature_of(ids),
        signature.len == selected@.len(),
{
    let list: Vec<u128> = listed(selected);
    let mut xor: u128 = 0;
    let mut sum: u128 = 0;
    let mut i: usize = 0;
    while i < list.len()
        invariant
            i <= list.len(),
            xor == xor_of(list@.take(i as int)),
            sum == sum_of(list@.take(i as int)) % (u128::MAX + 1),
        decreases list.len() - i,
    {
        let ghost taken = list@.take(i + 1);
        assert(taken.drop_last() =~= list@.take(i as int));
        assert(taken.last() == list@[i as int]);
        xor = xor ^ list[i];
        proof {
            let total = sum_of(list@.take(i as int));
            let modulus = u128::MAX + 1;
            lemma_fundamental_div_mod(total, modulus);
            let wrapped = total % modulus + list@[i as int];
            if wrapped >= modulus {
                lemma_fundamental_div_mod_converse(
                    total + list@[i as int],
                    modulus,
                    total / modulus + 1,
                    wrapped - modulus,
                );
            } else {
                lemma_fundamental_div_mod_converse(
                    total + list@[i as int],
                    modulus,
                    total / modulus,
                    wrapped,
                );
            }
        }
        sum = sum.wrapping_add(list[i]);
        i = i + 1;
    }
    assert(list@.take(i as int) =~= list@);
    proof {
        assert forall|ids: Seq<u128>|
            ids.no_duplicates() && #[trigger] ids.to_set() == selected@ implies (
        SelectionBoundsSignature { len: list.len(), xor, sum }) == signature_of(ids) by {
            lemma_digest_ignores_order(list@, ids);
        }
    }
    SelectionBoundsSignature { len: selected.len(), xor, sum }
}

/// Of two candidates the nearer one stands first; of those as near the one that
/// covers less; of those that cover as much what paints comes before what erases;
/// then the one on the higher layer, and on the same one the one painted later.
pub proof fn law_nearer_and_smaller_candidates_stand_first(
    one: SelectionCandidate,
    other: SelectionCandidate,
)
    ensures
        total_rank(one.effective_distance) < total_rank(other.effective_distance)
            ==> one.precedes(other) && !other.precedes(one),
        one.effective_distance == other.effective_distance && total_rank(one.bounds_area)
            < total_rank(other.bounds_area) ==> one.precedes(other) && !other.precedes(one),
        one.effective_distance == other.effective_distance && one.bounds_area == other.bounds_area
            && !one.is_eraser && other.is_eraser ==> one.precedes(other) && !other.precedes(one),
        one.effective_distance == other.effective_distance && one.bounds_area == other.bounds_area
            && one.is_eraser == other.is_eraser && one.layer_order > other.layer_order
            ==> one.precedes(other) && !other.precedes(one),
        one.effective_distance == other.effective_distance && one.bounds_area == other.bounds_area
            && one.is_eraser == other.is_eraser && one.layer_order == other.layer_order
            && one.paint_order > other.paint_order ==> one.precedes(other) && !other.precedes(one),
        !one.precedes(one),
{
}

proof fn lemma_object_is_offered(
    operations: Seq<EditOperation>,
    pickable: Set<u128>,
    scores: Seq<Option<ClickScore>>,
    layer_orders: Seq<i64>,
    count: int,
    i: int,
) -> (found: (int, int))
    requires
        0 <= i < count <= operations.len(),
        offered(operations, pickable, scores, i),
    ensures
        ({
            let all = candidates_among(operations, pickable, scores, layer_orders, count);
            let (j, k) = found;
            &&& 0 <= j <= i
            &&& 0 <= k < all.len()
            &&& operations[j].object() == operations[i].object()
            &&& is_candidate_of(operations, scores, layer_orders, j, all[k])
        }),
    decreases count,
{
    let all = candidates_among(operations, pickable, scores, layer_orders, count);
    let before = candidates_among(operations, pickable, scores, layer_orders, count - 1);
    let last = count - 1;
    if i < last {
        let (j, k) = lemma_object_is_offered(
            operations,
            pickable,
            scores,
            layer_orders,
            last,
            i,
        );
        assert(all[k] == before[k]);
        (j, k)
    } else if forall|k: int|
        0 <= k < last && #[trigger] offered(operations, pickable, scores, k)
            ==> operations[k].object() != operations[last].object() {
        assert(all.last() == all[before.len() as int]);
        (last, before.len() as int)
    } else {
        let m = choose|k: int|
            0 <= k < last && #[trigger] offered(operations, pickable, scores, k)
                && operations[k].object() == operations[last].object();
        lemma_object_is_offered(operations, pickable, scores, layer_orders, last, m)
    }
}

proof fn lemma_candidate_is_of_one(
    operations: Seq<EditOperation>,
    pickable: Set<u128>,
    scores: Seq<Option<ClickScore>>,
    layer_orders: Seq<i64>,
    count: int,
    k: int,
) -> (j: int)
    requires
        0 <= count <= operations.len(),
        0 <= k < candidates_among(operations, pickable, scores, layer_orders, count).len(),
    ensures
        0 <= j < count,
        offered(operations, pickable, scores, j),
        is_candidate_of(
            operations,
            scores,
            layer_orders,
            j,
            candidates_among(operations, pickable, scores, layer_orders, count)[k],
        ),
        forall|i: int|
            0 <= i < j && #[trigger] offered(operations, pickable, scores, i)
                ==> operations[i].object() != operations[j].object(),
    decreases count,
{
    let all = candidates_among(operations, pickable, scores, layer_orders, count);
    let before = candidates_among(operations, pickable, scores, layer_orders, count - 1);
    if k < before.len() {
        assert(all[k] == before[k]);
        lemma_candidate_is_of_one(operations, pickable, scores, layer_orders, count - 1, k)
    } else {
        count - 1
    }
}

/// Whether a candidate stands for an operation, with its score and its layer.
pub open spec fn is_candidate_of(
    operations: Seq<EditOperation>,
    scores: Seq<Option<ClickScore>>,
    layer_orders: Seq<i64>,
    at: int,
    candidate: SelectionCandidate,
) -> bool {
    &&& candidate.id == operations[at].id
    &&& scores[at] == Some(
        ClickScore { distance: candidate.effective_distance, area: candidate.bounds_area },
    )
    &&& candidate.layer_order == layer_orders[at]
    &&& candidate.paint_order == operations[at].order()
    &&& candidate.is_eraser == operations[at].kind.erases()
}

/// Every object that a click hits and that may be picked is offered: by an
/// operation of it that is no later than the one that is hit.
pub proof fn law_every_object_that_is_hit_is_offered(
    operations: Seq<EditOperation>,
    pickable: Set<u128>,
    scores: Seq<Option<ClickScore>>,
    layer_orders: Seq<i64>,
    i: int,
)
    requires
        0 <= i < operations.len(),
        pickable.contains(operations[i].id),
        scores[i] is Some,
    ensures
        ({
            let all = candidates_among(
                operations,
                pickable,
                scores,
                layer_orders,
                operations.len() as int,
            );
            exists|j: int, k: int|
                0 <= j <= i && 0 <= k < all.len() && operations[j].object()
                    == operations[i].object() && #[trigger] is_candidate_of(
                    operations,
                    scores,
                    layer_orders,
                    j,
                    all[k],
                )
        }),
{
    let (j, k) = lemma_object_is_offered(
        operations,
        pickable,
        scores,
        layer_orders,
        operations.len() as int,
        i,
    );
    let all = candidates_among(
        operations,
        pickable,
        scores,
        layer_orders,
        operations.len() as int,
    );
    assert(is_candidate_of(operations, scores, layer_orders, j, all[k]));
}

/// What is offered is an operation that is hit and may be picked, the first one of
/// its object.
pub proof fn law_objects_are_offered_once(
    operations: Seq<EditOperation>,
    pickable: Set<u128>,
    scores: Seq<Option<ClickScore>>,
    layer_orders: Seq<i64>,
    k: int,
)
    requires
        0 <= k < candidates_among(
            operations,
            pickable,
            scores,
            layer_orders,
            operations.len() as int,
        ).len(),
    ensures
        exists|j: int|
            {
                &&& 0 <= j < operations.len()
                &&& pickable.contains(operations[j].id)
                &&& #[trigger] is_candidate_of(
                    operations,
                    scores,
                    layer_orders,
                    j,
                    candidates_among(
                        operations,
                        pickable,
                        scores,
                        layer_orders,
                        operations.len() as int,
                    )[k],
                )
                &&& forall|i: int|
                    0 <= i < j && pickable.contains((#[trigger] operations[i]).id) && scores[i]
                        is Some ==> operations[i].object() != operations[j].object()
            },
{
    let all = candidates_among(
        operations,
        pickable,
        scores,
        layer_orders,
        operations.len() as int,
    );
    let j = lemma_candidate_is_of_one(
        operations,
        pickable,
        scores,
        layer_orders,
        operations.len() as int,
        k,
    );
    assert(is_candidate_of(operations, scores, layer_orders, j, all[k]));
    assert forall|i: int|
        0 <= i < j && pickable.contains((#[trigger] operations[i]).id) && scores[i]
            is Some implies operations[i].object() != operations[j].object() by {
        assert(offered(operations, pickable, scores, i));
    }
}

/// Picking without a key replaces the selection; with the shift key it adds to it;
/// with the control key it adds what is not selected yet, and takes away what was
/// picked only where all of it was selected.
pub proof fn law_keys_say_how_picks_are_applied(
    selected: Set<u128>,
    matches: Set<u128>,
    shift: bool,
    id: u128,
)
    ensures
        applied_selection(selected, matches, false, false) == matches,
        applied_selection(selected, matches, true, false).contains(id) <==> selected.contains(id)
            || matches.contains(id),
        (exists|other: u128| #[trigger] matches.contains(other) && !selected.contains(other))
            ==> (applied_selection(selected, matches, shift, true).contains(id)
            <==> selected.contains(id) || matches.contains(id)),
        (forall|other: u128| #[trigger] matches.contains(other) ==> selected.contains(other))
            ==> (applied_selection(selected, matches, shift, true).contains(id)
            <==> selected.contains(id) && !matches.contains(id)),
{
    if forall|other: u128| #[trigger] matches.contains(other) ==> selected.contains(other) {
        assert(matches.subset_of(selected));
    }
}

/// An object is selected if and only if one of its operations is.
pub proof fn law_objects_are_selected_by_any_operation(
    operations: Seq<EditOperation>,
    selected: Set<u128>,
    count: int,
    object: u128,
)
    requires
        0 <= count <= operations.len(),
    ensures
        selected_objects(operations, selected, count).contains(object) <==> exists|i: int|
            0 <= i < count && selected.contains((#[trigger] operations[i]).id)
                && operations[i].object() == object,
    decreases count,
{
    if count > 0 {
        law_objects_are_selected_by_any_operation(operations, selected, count - 1, object);
        let last = operations[count - 1];
        assert(last == operations[count - 1]);
        if exists|i: int|
            0 <= i < count - 1 && selected.contains((#[trigger] operations[i]).id)
                && operations[i].object() == object {
            let i = choose|i: int|
                0 <= i < count - 1 && selected.contains((#[trigger] operations[i]).id)
                    && operations[i].object() == object;
            assert(0 <= i < count && selected.contains(operations[i].id));
        }
    }
}

/// An operation is taken for a selection of whole objects if and only if all
/// operations of its object on the layer are contained, itself among them.
pub proof fn law_objects_are_taken_whole(
    operations: Seq<EditOperation>,
    contained: Set<u128>,
    layer_id: u128,
    at: int,
)
    requires
        0 <= at < operations.len(),
        operations[at].layer_id == layer_id,
        fully_contained(operations, contained, layer_id, operations[at].id),
        forall|i: int, j: int|
            0 <= i < operations.len() && 0 <= j < operations.len() && (#[trigger] operations[i]).id
                == (#[trigger] operations[j]).id ==> i == j,
    ensures
        contained.contains(operations[at].id),
        forall|k: int|
            0 <= k < operations.len() && (#[trigger] operations[k]).layer_id == layer_id
                && operations[k].object() == operations[at].object() ==> contained.contains(
                operations[k].id,
            ) && fully_contained(operations, contained, layer_id, operations[k].id),
{
    let i = choose|i: int|
        0 <= i < operations.len() && (#[trigger] operations[i]).id == operations[at].id
            && operations[i].layer_id == layer_id && object_is_contained(
            operations,
            contained,
            layer_id,
            operations[i].object(),
        );
    assert(operations[i].id == operations[at].id);
    assert(i == at);
    assert forall|k: int|
        0 <= k < operations.len() && (#[trigger] operations[k]).layer_id == layer_id
            && operations[k].object() == operations[at].object() implies contained.contains(
        operations[k].id,
    ) && fully_contained(operations, contained, layer_id, operations[k].id) by {
        assert(object_is_contained(
            operations,
            contained,
            layer_id,
            operations[k].object(),
        ));
    }
}

} // verus!
