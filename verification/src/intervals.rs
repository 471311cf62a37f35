//! Numbers in order, and the parts of a line between them.

use crate::camera::{double_rank, DOUBLE_SIGN_BIT, ONE_DOUBLE};
use crate::screen::{rank, SIGN_BIT};
use vstd::prelude::*;

verus! {

/// Numbers that stand in a line.
pub trait Placed: Copy {
    /// Where the number stands.
    spec fn place(self) -> int;

    /// Whether this number stands before the other one.
    fn stands_before(self, other: Self) -> (before: bool)
        ensures
            before == (self.place() < other.place()),
    ;
}

/// The bit pattern of a single-precision number.
#[derive(Debug, Clone, Copy, PartialEq, Eq, Structural)]
pub struct Single {
    pub bits: u32,
}

/// The bit pattern of a double-precision number.
#[derive(Debug, Clone, Copy, PartialEq, Eq, Structural)]
pub struct Double {
    pub bits: u64,
}

impl Placed for Single {
    /// The zero with a sign stands before the one without, and patterns that are
    /// no numbers stand at the ends.
    open spec fn place(self) -> int {
        if self.bits >= SIGN_BIT {
            -(self.bits - SIGN_BIT) - 1
        } else {
            self.bits as int
        }
    }

    fn stands_before(self, other: Self) -> (before: bool) {
        if self.bits >= SIGN_BIT {
            other.bits < SIGN_BIT || self.bits > other.bits
        } else {
            other.bits < SIGN_BIT && self.bits < other.bits
        }
    }
}

impl Placed for Double {
    /// The zero with a sign stands before the one without, and patterns that are
    /// no numbers stand at the ends.
    open spec fn place(self) -> int {
        if self.bits >= DOUBLE_SIGN_BIT {
            -(self.bits - DOUBLE_SIGN_BIT) - 1
        } else {
            self.bits as int
        }
    }

    fn stands_before(self, other: Self) -> (before: bool) {
        if self.bits >= DOUBLE_SIGN_BIT {
            other.bits < DOUBLE_SIGN_BIT || self.bits > other.bits
        } else {
            other.bits < DOUBLE_SIGN_BIT && self.bits < other.bits
        }
    }
}

/// The numbers in order, with one more put in behind those that do not stand
/// after it.
pub open spec fn inserted<T: Placed>(numbers: Seq<T>, number: T) -> Seq<T>
    decreases numbers.len(),
{
    if numbers.len() == 0 || numbers.last().place() <= number.place() {
        numbers.push(number)
    } else {
        inserted(numbers.drop_last(), number).push(numbers.last())
    }
}

/// The numbers in the order in which they stand.
pub open spec fn ordered<T: Placed>(numbers: Seq<T>) -> Seq<T>
    decreases numbers.len(),
{
    if numbers.len() == 0 {
        Seq::empty()
    } else {
        inserted(ordered(numbers.drop_last()), numbers.last())
    }
}

proof fn lemma_inserted<T: Placed>(numbers: Seq<T>, number: T, at: int)
    requires
        0 <= at <= numbers.len(),
        at == 0 || numbers[at - 1].place() <= number.place(),
        forall|i: int| at <= i < numbers.len() ==> number.place() < (#[trigger] numbers[i]).place(),
    ensures
        inserted(numbers, number) == numbers.insert(at, number),
    decreases numbers.len(),
{
    if at == numbers.len() {
        assert(inserted(numbers, number) =~= numbers.insert(at, number));
    } else {
        lemma_inserted(numbers.drop_last(), number, at);
        assert(inserted(numbers, number) =~= numbers.insert(at, number));
    }
}

/// Puts a number in behind those that do not stand after it.
fn insert_number<T: Placed>(numbers: &mut Vec<T>, number: T)
    ensures
        final(numbers)@ == inserted(old(numbers)@, number),
{
    let mut at: usize = numbers.len();
    while at > 0 && number.stands_before(numbers[at - 1])
        invariant
            at <= numbers@.len(),
            forall|i: int|
                at <= i < numbers@.len() ==> number.place() < (#[trigger] numbers@[i]).place(),
        decreases at,
    {
        at = at - 1;
    }
    proof {
        lemma_inserted(numbers@, number, at as int);
    }
    numbers.insert(at, number);
}

/// The numbers in the order in which they stand.
pub fn sorted_numbers<T: Placed>(numbers: &Vec<T>) -> (sorted: Vec<T>)
    ensures
        sorted@ == ordered(numbers@),
{
    let mut sorted: Vec<T> = Vec::new();
    let mut i: usize = 0;
    assert(numbers@.take(0) =~= Seq::<T>::empty());
    while i < numbers.len()
        invariant
            i <= numbers@.len(),
            sorted@ == ordered(numbers@.take(i as int)),
        decreases numbers@.len() - i,
    {
        insert_number(&mut sorted, numbers[i]);
        assert(numbers@.take(i + 1).drop_last() =~= numbers@.take(i as int));
        i = i + 1;
    }
    assert(numbers@.take(i as int) =~= numbers@);
    sorted
}

proof fn lemma_insertion_keeps_order<T: Placed>(numbers: Seq<T>, number: T)
    requires
        forall|i: int, j: int|
            0 <= i < j < numbers.len() ==> (#[trigger] numbers[i]).place() <= (
            #[trigger] numbers[j]).place(),
    ensures
        ({
            let all = inserted(numbers, number);
            &&& all.to_multiset() == numbers.to_multiset().insert(number)
            &&& all.len() == numbers.len() + 1
            &&& forall|i: int, j: int|
                0 <= i < j < all.len() ==> (#[trigger] all[i]).place() <= (
                #[trigger] all[j]).place()
            &&& forall|i: int|
                0 <= i < all.len() ==> (#[trigger] all[i]).place() <= number.place() || (
                numbers.len() > 0 && all[i].place() <= numbers.last().place())
        }),
    decreases numbers.len(),
{
    broadcast use vstd::seq_lib::group_to_multiset_ensures;

    if numbers.len() > 0 && number.place() < numbers.last().place() {
        let rest = numbers.drop_last();
        lemma_insertion_keeps_order(rest, number);
        assert(numbers =~= rest.push(numbers.last()));
        assert(inserted(numbers, number) == inserted(rest, number).push(numbers.last()));
        assert(numbers.to_multiset().insert(number) =~= rest.to_multiset().insert(number).insert(
            numbers.last(),
        ));
    }
}

/// Ordered numbers are the same numbers, none of them before an earlier one.
pub proof fn law_ordered_numbers_are_the_same<T: Placed>(numbers: Seq<T>)
    ensures
        ordered(numbers).to_multiset() == numbers.to_multiset(),
        forall|i: int, j: int|
            0 <= i < j < numbers.len() ==> (#[trigger] ordered(numbers)[i]).place() <= (
            #[trigger] ordered(numbers)[j]).place(),
    decreases numbers.len(),
{
    broadcast use vstd::seq_lib::group_to_multiset_ensures;

    if numbers.len() > 0 {
        law_ordered_numbers_are_the_same(numbers.drop_last());
        assert(ordered(numbers.drop_last()).len() == numbers.len() - 1) by {
            assert(ordered(numbers.drop_last()).to_multiset().len() == numbers.len() - 1);
        }
        lemma_insertion_keeps_order(ordered(numbers.drop_last()), numbers.last());
        assert(numbers =~= numbers.drop_last().push(numbers.last()));
        assert(ordered(numbers).to_multiset().len() == numbers.len());
    }
}

/// The bit pattern of how far beside the ends of a line a break may lie.
pub const BREAK_TOLERANCE: u64 = 0x3e11_2e0b_e826_d695;

/// The bit pattern of the last place of a break, beyond the end of a line.
pub const LAST_BREAK: u64 = 0x3ff0_0000_0044_b830;

/// A break of a line, moved to its nearer end where it lies beside it; none
/// where it lies too far beside it.
pub open spec fn unit_break(value: Double) -> Option<Double> {
    let place = double_rank(value.bits);
    if place < -BREAK_TOLERANCE || place > LAST_BREAK {
        None
    } else if place < 0 {
        Some(Double { bits: 0 })
    } else if place > ONE_DOUBLE {
        Some(Double { bits: ONE_DOUBLE })
    } else {
        Some(value)
    }
}

/// Adds a break of a line, unless it lies too far beside it.
pub fn push_unit_break(breaks: &mut Vec<Double>, value: Double)
    ensures
        final(breaks)@ == match unit_break(value) {
            Some(place) => old(breaks)@.push(place),
            None => old(breaks)@,
        },
{
    if value.bits >= DOUBLE_SIGN_BIT {
        let below: u64 = value.bits - DOUBLE_SIGN_BIT;
        if below == 0 {
            breaks.push(value);
        } else if below <= BREAK_TOLERANCE {
            breaks.push(Double { bits: 0 });
        }
    } else if value.bits <= ONE_DOUBLE {
        breaks.push(value);
    } else if value.bits <= LAST_BREAK {
        breaks.push(Double { bits: ONE_DOUBLE });
    }
}

/// The bit pattern of how far beside the ends of a screen line a break may lie.
pub const SCREEN_BREAK_TOLERANCE: u32 = 0x38d1_b717;

/// The bit pattern of the last place of a break, beyond the end of a screen
/// line.
pub const LAST_SCREEN_BREAK: u32 = 0x3f80_0347;

/// The bit pattern of one.
pub const ONE_SINGLE: u32 = 0x3f80_0000;

/// A break of a screen line, moved to its nearer end where it lies beside it;
/// none where it lies too far beside it.
pub open spec fn screen_break(value: Single) -> Option<Single> {
    let place = rank(value.bits);
    if place < -SCREEN_BREAK_TOLERANCE || place > LAST_SCREEN_BREAK {
        None
    } else if place < 0 {
        Some(Single { bits: 0 })
    } else if place > ONE_SINGLE {
        Some(Single { bits: ONE_SINGLE })
    } else {
        Some(value)
    }
}

/// Adds a break of a screen line, unless it lies too far beside it.
pub fn push_screen_break(breaks: &mut Vec<Single>, value: Single)
    ensures
        final(breaks)@ == match screen_break(value) {
            Some(place) => old(breaks)@.push(place),
            None => old(breaks)@,
        },
{
    if value.bits >= SIGN_BIT {
        let below: u32 = value.bits - SIGN_BIT;
        if below == 0 {
            breaks.push(value);
        } else if below <= SCREEN_BREAK_TOLERANCE {
            breaks.push(Single { bits: 0 });
        }
    } else if value.bits <= ONE_SINGLE {
        breaks.push(value);
    } else if value.bits <= LAST_SCREEN_BREAK {
        breaks.push(Single { bits: ONE_SINGLE });
    }
}

/// Any two numbers can be asked about, and asking twice gives the same answer.
pub open spec fn answers<T, F: Fn(T, T) -> bool>(question: F) -> bool {
    &&& forall|a: T, b: T| #[trigger] call_requires(question, (a, b))
    &&& forall|a: T, b: T, one: bool, other: bool| #[trigger]
        call_ensures(question, (a, b), one) && #[trigger] call_ensures(question, (a, b), other)
            ==> one == other
}

/// Whether the answer about two numbers is that it is so.
pub open spec fn is_so<T, F: Fn(T, T) -> bool>(question: F, a: T, b: T) -> bool {
    call_ensures(question, (a, b), true)
}

fn ask<T, F: Fn(T, T) -> bool>(question: &F, a: T, b: T) -> (answer: bool)
    requires
        answers(*question),
    ensures
        answer == is_so(*question, a, b),
{
    question(a, b)
}

/// The first `count` numbers without those that are near the one before.
pub open spec fn apart<T, N: Fn(T, T) -> bool>(near: N, numbers: Seq<T>, count: int) -> Seq<T>
    decreases count,
{
    if count <= 0 {
        Seq::empty()
    } else {
        let before = apart(near, numbers, count - 1);
        if before.len() > 0 && is_so(near, numbers[count - 1], before.last()) {
            before
        } else {
            before.push(numbers[count - 1])
        }
    }
}

/// Whether `places` are, in order, those of the first `count` numbers that are
/// kept: each kept number is the one at its place, and every number from a place
/// up to the next one is near the kept one.
pub open spec fn are_kept<T, N: Fn(T, T) -> bool>(
    near: N,
    numbers: Seq<T>,
    count: int,
    kept: Seq<T>,
    places: Seq<int>,
) -> bool {
    &&& places.len() == kept.len()
    &&& count > 0 ==> kept.len() > 0 && places[0] == 0
    &&& forall|k: int|
        0 <= k < kept.len() ==> 0 <= #[trigger] places[k] < count && kept[k] == numbers[places[k]]
    &&& forall|k: int, l: int|
        0 <= k < l < kept.len() ==> #[trigger] places[k] < #[trigger] places[l]
    &&& forall|k: int, i: int|
        0 <= k < kept.len() && places[k] < i < (if k + 1 < kept.len() {
            places[k + 1]
        } else {
            count
        }) ==> is_so(near, #[trigger] numbers[i], #[trigger] kept[k])
    &&& forall|k: int|
        0 < k < kept.len() ==> !is_so(near, #[trigger] kept[k], kept[k - 1])
}

proof fn lemma_kept<T, N: Fn(T, T) -> bool>(near: N, numbers: Seq<T>, count: int) -> (places: Seq<
    int,
>)
    requires
        0 <= count <= numbers.len(),
    ensures
        are_kept(near, numbers, count, apart(near, numbers, count), places),
    decreases count,
{
    if count == 0 {
        Seq::empty()
    } else {
        let before = lemma_kept(near, numbers, count - 1);
        let earlier = apart(near, numbers, count - 1);
        if earlier.len() > 0 && is_so(near, numbers[count - 1], earlier.last()) {
            before
        } else {
            let places = before.push(count - 1);
            let kept = apart(near, numbers, count);
            assert forall|k: int, i: int|
                0 <= k < kept.len() && places[k] < i < (if k + 1 < kept.len() {
                    places[k + 1]
                } else {
                    count
                }) implies is_so(near, #[trigger] numbers[i], #[trigger] kept[k]) by {
                assert(k < earlier.len());
                assert(kept[k] == earlier[k]);
                assert(places[k] == before[k]);
                if k + 1 < earlier.len() {
                    assert(places[k + 1] == before[k + 1]);
                }
            }
            places
        }
    }
}

/// Without neighbours, every number is still there or near one that is, in the
/// same order, the first one is kept, and no kept one is near the kept one before.
pub proof fn law_only_neighbours_are_dropped<T, N: Fn(T, T) -> bool>(near: N, numbers: Seq<T>)
    ensures
        exists|places: Seq<int>| #[trigger]
            are_kept(
                near,
                numbers,
                numbers.len() as int,
                apart(near, numbers, numbers.len() as int),
                places,
            ),
        forall|i: int|
            0 <= i < numbers.len() ==> exists|k: int|
                0 <= k < apart(near, numbers, numbers.len() as int).len() && (#[trigger] apart(
                    near,
                    numbers,
                    numbers.len() as int,
                )[k] == numbers[i] || is_so(
                    near,
                    #[trigger] numbers[i],
                    apart(near, numbers, numbers.len() as int)[k],
                )),
{
    let count = numbers.len() as int;
    let kept = apart(near, numbers, count);
    let places = lemma_kept(near, numbers, count);
    assert forall|i: int| 0 <= i < count implies exists|k: int|
        0 <= k < kept.len() && (#[trigger] kept[k] == numbers[i] || is_so(
            near,
            #[trigger] numbers[i],
            kept[k],
        )) by {
        let k = lemma_place_before(places, i, places.len() as int);
        assert(kept[k] == numbers[places[k]]);
        if places[k] < i {
            assert(is_so(near, numbers[i], kept[k]));
        }
    }
}

proof fn lemma_place_before(places: Seq<int>, i: int, count: int) -> (k: int)
    requires
        0 < count <= places.len(),
        places[0] <= i,
        count == places.len() || i < places[count],
    ensures
        0 <= k < count,
        places[k] <= i,
        k + 1 == places.len() || i < places[k + 1],
    decreases count,
{
    if places[count - 1] <= i {
        count - 1
    } else {
        lemma_place_before(places, i, count - 1)
    }
}

/// The numbers without those that are near the one before.
pub fn without_neighbours<T: Copy, N: Fn(T, T) -> bool>(numbers: &Vec<T>, near: &N) -> (result: Vec<
    T,
>)
    requires
        answers(*near),
    ensures
        result@ == apart(*near, numbers@, numbers@.len() as int),
{
    let mut result: Vec<T> = Vec::new();
    let mut i: usize = 0;
    while i < numbers.len()
        invariant
            answers(*near),
            i <= numbers@.len(),
            result@ == apart(*near, numbers@, i as int),
        decreases numbers@.len() - i,
    {
        if !(result.len() > 0 && ask(near, numbers[i], result[result.len() - 1])) {
            result.push(numbers[i]);
        }
        i = i + 1;
    }
    result
}

/// Put in order and without neighbours, numbers stay in order, and every number
/// that was there is kept or near one that is.
pub proof fn law_kept_numbers_stay_in_order<T: Placed, N: Fn(T, T) -> bool>(
    near: N,
    numbers: Seq<T>,
)
    ensures
        ({
            let sorted = ordered(numbers);
            let kept = apart(near, sorted, sorted.len() as int);
            &&& forall|number: T| #[trigger]
                numbers.contains(number) ==> exists|k: int|
                    0 <= k < kept.len() && (#[trigger] kept[k] == number || is_so(
                        near,
                        number,
                        kept[k],
                    ))
            &&& forall|k: int| 0 <= k < kept.len() ==> numbers.contains(#[trigger] kept[k])
            &&& forall|k: int, l: int|
                0 <= k < l < kept.len() ==> (#[trigger] kept[k]).place() <= (
                #[trigger] kept[l]).place()
            &&& forall|k: int| 0 < k < kept.len() ==> !is_so(near, #[trigger] kept[k], kept[k - 1])
        }),
{
    broadcast use vstd::seq_lib::group_to_multiset_ensures;

    let sorted = ordered(numbers);
    let kept = apart(near, sorted, sorted.len() as int);
    law_ordered_numbers_are_the_same(numbers);
    assert(sorted.to_multiset().len() == numbers.to_multiset().len());
    assert(sorted.len() == numbers.len());
    let places = lemma_kept(near, sorted, sorted.len() as int);
    law_only_neighbours_are_dropped(near, sorted);
    assert forall|number: T| #[trigger] numbers.contains(number) implies exists|k: int|
        0 <= k < kept.len() && (#[trigger] kept[k] == number || is_so(near, number, kept[k])) by {
        assert(numbers.to_multiset().count(number) > 0);
        assert(sorted.contains(number));
        let i = sorted.index_of(number);
        assert(sorted[i] == number);
    }
    assert forall|k: int| 0 <= k < kept.len() implies numbers.contains(#[trigger] kept[k]) by {
        assert(kept[k] == sorted[places[k]]);
        assert(sorted.contains(kept[k]));
        assert(sorted.to_multiset().count(kept[k]) > 0);
    }
    assert forall|k: int, l: int| 0 <= k < l < kept.len() implies (#[trigger] kept[k]).place() <= (
    #[trigger] kept[l]).place() by {
        assert(places[k] < places[l]);
        assert(sorted[places[k]].place() <= sorted[places[l]].place());
    }
}

/// The first `count` parts, with one that starts near where the last one ends
/// taken together with it.
pub open spec fn joined<T, N: Fn(T, T) -> bool>(near: N, list: Seq<(T, T)>, count: int) -> Seq<
    (T, T),
>
    decreases count,
{
    if count <= 0 {
        Seq::empty()
    } else {
        let before = joined(near, list, count - 1);
        let part = list[count - 1];
        if before.len() > 0 && is_so(near, before.last().1, part.0) {
            before.drop_last().push((before.last().0, part.1))
        } else {
            before.push(part)
        }
    }
}

/// The parts, with one that starts near where the last one ends taken together
/// with it.
pub fn join_parts<T: Copy, N: Fn(T, T) -> bool>(list: &Vec<(T, T)>, near: &N) -> (result: Vec<
    (T, T),
>)
    requires
        answers(*near),
    ensures
        result@ == joined(*near, list@, list@.len() as int),
{
    let mut result: Vec<(T, T)> = Vec::new();
    let mut i: usize = 0;
    while i < list.len()
        invariant
            answers(*near),
            i <= list@.len(),
            result@ == joined(*near, list@, i as int),
        decreases list@.len() - i,
    {
        let part: (T, T) = list[i];
        let ghost before = result@;
        if result.len() > 0 && ask(near, result[result.len() - 1].1, part.0) {
            let last: usize = result.len() - 1;
            let start: T = result[last].0;
            result.set(last, (start, part.1));
            assert(result@ =~= before.drop_last().push((before.last().0, part.1)));
        } else {
            result.push(part);
        }
        i = i + 1;
    }
    result
}

/// Whether the parts from `first` up to `last` are taken together: they go from
/// the start of the first to the end of the last one, and each of them starts
/// near where the one before ends.
pub open spec fn is_taken_together<T, N: Fn(T, T) -> bool>(
    near: N,
    list: Seq<(T, T)>,
    first: int,
    last: int,
    whole: (T, T),
) -> bool {
    &&& 0 <= first <= last < list.len()
    &&& whole.0 == list[first].0
    &&& whole.1 == list[last].1
    &&& forall|i: int|
        first < i <= last ==> is_so(near, list[i - 1].1, (#[trigger] list[i]).0)
}

/// Whether `starts` and `ends` say which parts are taken together: all of them
/// are, in order, and what is not taken together is not near each other.
pub open spec fn are_taken_together<T, N: Fn(T, T) -> bool>(
    near: N,
    list: Seq<(T, T)>,
    count: int,
    whole: Seq<(T, T)>,
    starts: Seq<int>,
    ends: Seq<int>,
) -> bool {
    &&& starts.len() == whole.len()
    &&& ends.len() == whole.len()
    &&& forall|k: int|
        0 <= k < whole.len() ==> is_taken_together(
            near,
            list,
            starts[k],
            ends[k],
            #[trigger] whole[k],
        )
    &&& count > 0 ==> whole.len() > 0 && starts[0] == 0 && ends.last() == count - 1
    &&& count <= 0 ==> whole.len() == 0
    &&& forall|k: int|
        0 < k < whole.len() ==> #[trigger] starts[k] == ends[k - 1] + 1 && !is_so(
            near,
            whole[k - 1].1,
            whole[k].0,
        )
}

proof fn lemma_taken_together<T, N: Fn(T, T) -> bool>(
    near: N,
    list: Seq<(T, T)>,
    count: int,
) -> (found: (Seq<int>, Seq<int>))
    requires
        0 <= count <= list.len(),
    ensures
        are_taken_together(near, list, count, joined(near, list, count), found.0, found.1),
    decreases count,
{
    let whole = joined(near, list, count);
    if count == 0 {
        (Seq::empty(), Seq::empty())
    } else {
        let (starts, ends) = lemma_taken_together(near, list, count - 1);
        let before = joined(near, list, count - 1);
        let part = list[count - 1];
        if before.len() > 0 && is_so(near, before.last().1, part.0) {
            let at = before.len() - 1;
            assert(is_taken_together(near, list, starts[at], ends[at], before[at]));
            let later = ends.drop_last().push(count - 1);
            assert forall|k: int| 0 <= k < whole.len() implies is_taken_together(
                near,
                list,
                starts[k],
                later[k],
                #[trigger] whole[k],
            ) by {
                if k < at {
                    assert(whole[k] == before[k]);
                    assert(is_taken_together(near, list, starts[k], ends[k], before[k]));
                }
            }
            assert forall|k: int| 0 < k < whole.len() implies #[trigger] starts[k] == later[k - 1]
                + 1 && !is_so(near, whole[k - 1].1, whole[k].0) by {
                assert(whole[k - 1] == before[k - 1]);
                assert(whole[k].0 == before[k].0);
                assert(later[k - 1] == ends[k - 1]);
            }
            (starts, later)
        } else {
            let first = starts.push(count - 1);
            let last = ends.push(count - 1);
            assert forall|k: int| 0 <= k < whole.len() implies is_taken_together(
                near,
                list,
                first[k],
                last[k],
                #[trigger] whole[k],
            ) by {
                if k < before.len() {
                    assert(whole[k] == before[k]);
                    assert(is_taken_together(near, list, starts[k], ends[k], before[k]));
                }
            }
            assert forall|k: int| 0 < k < whole.len() implies #[trigger] first[k] == last[k - 1] + 1
                && !is_so(near, whole[k - 1].1, whole[k].0) by {
                if k < before.len() {
                    assert(first[k] == starts[k]);
                } else {
                    assert(whole[k - 1] == before.last());
                }
            }
            (first, last)
        }
    }
}

/// Joining leaves no part out and cuts none off: the parts that are left are, in
/// order, made of all parts that were there, and two of them next to each other
/// are joined if and only if the second starts near where the first ends.
pub proof fn law_joined_parts_are_made_of_all_parts<T, N: Fn(T, T) -> bool>(
    near: N,
    list: Seq<(T, T)>,
)
    ensures
        exists|starts: Seq<int>, ends: Seq<int>| #[trigger]
            are_taken_together(
                near,
                list,
                list.len() as int,
                joined(near, list, list.len() as int),
                starts,
                ends,
            ),
{
    let (starts, ends) = lemma_taken_together(near, list, list.len() as int);
    assert(are_taken_together(
        near,
        list,
        list.len() as int,
        joined(near, list, list.len() as int),
        starts,
        ends,
    ));
}

/// Each part is in one of those that are taken together.
pub(crate) proof fn lemma_part_is_in_one<T, N: Fn(T, T) -> bool>(
    near: N,
    list: Seq<(T, T)>,
    whole: Seq<(T, T)>,
    starts: Seq<int>,
    ends: Seq<int>,
    i: int,
) -> (k: int)
    requires
        are_taken_together(near, list, list.len() as int, whole, starts, ends),
        0 <= i < list.len(),
    ensures
        0 <= k < whole.len(),
        starts[k] <= i <= ends[k],
        is_taken_together(near, list, starts[k], ends[k], whole[k]),
{
    let k = lemma_place_before(starts, i, starts.len() as int);
    assert(is_taken_together(near, list, starts[k], ends[k], whole[k]));
    if k + 1 < whole.len() {
        assert(starts[k + 1] == ends[k] + 1);
    }
    k
}

/// A break is moved only to the end of the line that it lies beside, and is left
/// out only where it lies beside both: what is kept is on the line.
pub proof fn law_breaks_are_on_the_line(value: Double)
    ensures
        match unit_break(value) {
            None => double_rank(value.bits) < -BREAK_TOLERANCE || double_rank(value.bits)
                > LAST_BREAK,
            Some(place) => {
                &&& 0 <= double_rank(place.bits) <= ONE_DOUBLE
                &&& 0 <= double_rank(value.bits) <= ONE_DOUBLE ==> place == value
                &&& double_rank(value.bits) < 0 ==> double_rank(place.bits) == 0
                &&& double_rank(value.bits) > ONE_DOUBLE ==> place.bits == ONE_DOUBLE
                &&& -BREAK_TOLERANCE <= double_rank(value.bits) <= LAST_BREAK
            },
        },
{
}

/// A break of a screen line is moved only to the end of the line that it lies
/// beside, and is left out only where it lies beside both: what is kept is on the
/// line.
pub proof fn law_screen_breaks_are_on_the_line(value: Single)
    ensures
        match screen_break(value) {
            None => rank(value.bits) < -SCREEN_BREAK_TOLERANCE || rank(value.bits)
                > LAST_SCREEN_BREAK,
            Some(place) => {
                &&& 0 <= rank(place.bits) <= ONE_SINGLE
                &&& 0 <= rank(value.bits) <= ONE_SINGLE ==> place == value
                &&& rank(value.bits) < 0 ==> rank(place.bits) == 0
                &&& rank(value.bits) > ONE_SINGLE ==> place.bits == ONE_SINGLE
                &&& -SCREEN_BREAK_TOLERANCE <= rank(value.bits) <= LAST_SCREEN_BREAK
            },
        },
{
}

} // verus!
