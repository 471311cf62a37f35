//! The fields of entries of the session log.

use crate::coordinates::characters;
use crate::tile_requests::{
    depth_render_mode_label, tile_fallback_mode_label, DepthRenderMode, TileFallbackMode,
};
use vstd::prelude::*;

verus! {

/// A value of a log entry: an object with named members, or anything else.
pub enum Json<L> {
    Leaf(L),
    Object(Vec<(String, Json<L>)>),
}

/// The place of the first member with the name, from `from` on.
pub open spec fn member_place<L>(
    members: Seq<(String, Json<L>)>,
    name: Seq<char>,
    from: int,
) -> Option<int>
    decreases members.len() - from,
{
    if from < 0 || from >= members.len() {
        None
    } else if members[from].0@ == name {
        Some(from)
    } else {
        member_place(members, name, from + 1)
    }
}

/// Whether no two members have the same name.
pub open spec fn names_differ<L>(members: Seq<(String, Json<L>)>) -> bool {
    forall|i: int, j: int|
        0 <= i < j < members.len() ==> (#[trigger] members[i]).0@ != (#[trigger] members[j]).0@
}

/// Whether no object holds a name twice.
pub open spec fn well_formed<L>(value: Json<L>) -> bool
    decreases value,
{
    match value {
        Json::Leaf(_) => true,
        Json::Object(members) => {
            &&& names_differ(members@)
            &&& forall|i: int|
                0 <= i < members@.len() ==> well_formed((#[trigger] members@[i]).1)
        },
    }
}

/// Whether the result is the base with the extra value laid over it: objects
/// are merged member by member, and anything else is replaced.
pub open spec fn is_merged<L>(base: Json<L>, extra: Json<L>, result: Json<L>) -> bool
    decreases extra,
{
    match (base, extra) {
        (Json::Object(under), Json::Object(over)) => {
            &&& result matches Json::Object(members)
            &&& forall|name: Seq<char>| #[trigger]
                member_place(members@, name, 0) is Some <==> member_place(under@, name, 0) is Some
                    || member_place(over@, name, 0) is Some
            &&& forall|r: int, j: int|
                0 <= r < members@.len() && 0 <= j < over@.len() && (#[trigger] members@[r]).0@
                    == (#[trigger] over@[j]).0@ ==> (match member_place(
                    under@,
                    over@[j].0@,
                    0,
                ) {
                    Some(i) => is_merged(under@[i].1, over@[j].1, members@[r].1),
                    None => members@[r].1 == over@[j].1,
                })
            &&& forall|r: int, i: int|
                0 <= r < members@.len() && 0 <= i < under@.len() && (#[trigger] members@[r]).0@
                    == (#[trigger] under@[i]).0@ && member_place(over@, under@[i].0@, 0) is None
                    ==> members@[r].1 == under@[i].1
        },
        _ => result == extra,
    }
}

proof fn lemma_member_place<L>(members: Seq<(String, Json<L>)>, name: Seq<char>, from: int)
    requires
        0 <= from <= members.len(),
    ensures
        match member_place(members, name, from) {
            Some(place) => from <= place < members.len() && members[place].0@ == name,
            None => forall|i: int|
                from <= i < members.len() ==> (#[trigger] members[i]).0@ != name,
        },
    decreases members.len() - from,
{
    if from < members.len() && members[from].0@ != name {
        lemma_member_place(members, name, from + 1);
    }
}

proof fn lemma_member_found<L>(members: Seq<(String, Json<L>)>, at: int)
    requires
        0 <= at < members.len(),
        names_differ(members),
    ensures
        member_place(members, members[at].0@, 0) == Some(at),
{
    let name = members[at].0@;
    lemma_member_place(members, name, 0);
    match member_place(members, name, 0) {
        Some(place) => {
            if place < at {
                assert(members[place].0@ != members[at].0@);
            } else if place > at {
                assert(members[at].0@ != members[place].0@);
            }
        },
        None => {},
    }
}

fn same_text(left: &String, right: &String) -> (same: bool)
    ensures
        same == (left@ == right@),
{
    let first: Vec<char> = characters(left.as_str());
    let second: Vec<char> = characters(right.as_str());
    if first.len() != second.len() {
        return false;
    }
    let mut i: usize = 0;
    while i < first.len()
        invariant
            i <= first@.len() == second@.len(),
            first@ == left@,
            second@ == right@,
            forall|k: int| 0 <= k < i ==> first@[k] == second@[k],
        decreases first@.len() - i,
    {
        if first[i] != second[i] {
            return false;
        }
        i = i + 1;
    }
    assert(first@ =~= second@);
    true
}

fn find_member<L>(members: &Vec<(String, Json<L>)>, name: &String) -> (place: Option<usize>)
    ensures
        match place {
            Some(place) => place < members@.len() && member_place(members@, name@, 0) == Some(
                place as int,
            ),
            None => member_place(members@, name@, 0) is None,
        },
{
    let mut i: usize = 0;
    while i < members.len()
        invariant
            i <= members@.len(),
            member_place(members@, name@, 0) == member_place(members@, name@, i as int),
        decreases members@.len() - i,
    {
        if same_text(&members[i].0, name) {
            return Some(i);
        }
        i = i + 1;
    }
    None
}

/// Whether the members are the base with the first `count` of the extra members
/// laid over it.
spec fn merged_so_far<L>(
    under: Seq<(String, Json<L>)>,
    over: Seq<(String, Json<L>)>,
    count: int,
    members: Seq<(String, Json<L>)>,
) -> bool {
    &&& forall|r: int|
        0 <= r < members.len() ==> from_either(
            under,
            over,
            count,
            #[trigger] members[r],
        )
    &&& forall|i: int|
        0 <= i < under.len() ==> has_name(members, #[trigger] under[i].0@)
    &&& forall|j: int| 0 <= j < count ==> has_name(members, #[trigger] over[j].0@)
}

spec fn has_name<L>(members: Seq<(String, Json<L>)>, name: Seq<char>) -> bool {
    exists|r: int| 0 <= r < members.len() && (#[trigger] members[r]).0@ == name
}

spec fn has_name_before<L>(
    members: Seq<(String, Json<L>)>,
    count: int,
    name: Seq<char>,
) -> bool {
    exists|r: int| 0 <= r < count && (#[trigger] members[r]).0@ == name
}

spec fn from_either<L>(
    under: Seq<(String, Json<L>)>,
    over: Seq<(String, Json<L>)>,
    count: int,
    member: (String, Json<L>),
) -> bool {
    ||| exists|i: int|
        0 <= i < under.len() && (#[trigger] under[i]).0@ == member.0@ && !has_name_before(
            over,
            count,
            member.0@,
        ) && member.1 == under[i].1
    ||| exists|j: int|
        0 <= j < count && (#[trigger] over[j]).0@ == member.0@ && !has_name(under, member.0@)
            && member.1 == over[j].1
    ||| exists|i: int, j: int|
        0 <= i < under.len() && 0 <= j < count && (#[trigger] under[i]).0@ == member.0@ && (
        #[trigger] over[j]).0@ == member.0@ && is_merged(under[i].1, over[j].1, member.1)
}

/// Lays the extra value over the base: objects are merged member by member, and
/// anything else is replaced.
pub fn merge_json_objects<L>(base: Json<L>, extra: Json<L>) -> (result: Json<L>)
    requires
        well_formed(base),
        well_formed(extra),
    ensures
        is_merged(base, extra, result),
        well_formed(result),
    decreases extra,
{
    match (base, extra) {
        (Json::Object(under), Json::Object(over)) => {
            let ghost lower = under@;
            let ghost upper = over@;
            let mut members: Vec<(String, Json<L>)> = under;
            let mut rest: Vec<(String, Json<L>)> = over;
            let ghost mut done: int = 0;
            assert(upper.skip(0) =~= upper);
            proof {
                assert forall|r: int| 0 <= r < members@.len() implies from_either(
                    lower,
                    upper,
                    0,
                    #[trigger] members@[r],
                ) by {
                    assert(lower[r].0@ == members@[r].0@);
                }
                assert forall|i: int| 0 <= i < lower.len() implies has_name(
                    members@,
                    #[trigger] lower[i].0@,
                ) by {
                    assert(members@[i].0@ == lower[i].0@);
                }
            }
            while rest.len() > 0
                invariant
                    0 <= done <= upper.len(),
                    rest@ == upper.skip(done),
                    names_differ(lower),
                    names_differ(upper),
                    names_differ(members@),
                    forall|i: int| 0 <= i < upper.len() ==> well_formed((#[trigger] upper[i]).1),
                    forall|i: int|
                        0 <= i < members@.len() ==> well_formed((#[trigger] members@[i]).1),
                    merged_so_far(lower, upper, done, members@),
                    over@ == upper,
                    extra == Json::<L>::Object(over),
                decreases rest@.len(),
            {
                let (name, value) = rest.remove(0);
                let ghost before = members@;
                assert(upper[done] == (name, value));
                assert(rest@ =~= upper.skip(done + 1));
                match find_member(&members, &name) {
                    Some(place) => {
                        let (_, known) = members.remove(place);
                        proof {
                            lemma_member_place(before, name@, 0);
                        }
                        assert(decreases_to!(extra => upper[done].1)) by {
                            assert(decreases_to!(extra => extra->Object_0));
                            assert(decreases_to!(over@ => over@[done]));
                            assert(decreases_to!(over@[done] => over@[done].1));
                        }
                        let merged: Json<L> = merge_json_objects(known, value);
                        members.push((name, merged));
                        proof {
                            lemma_laid_over(
                                lower,
                                upper,
                                done,
                                before,
                                place as int,
                                merged,
                                members@,
                            );
                        }
                    },
                    None => {
                        proof {
                            lemma_member_place(before, name@, 0);
                        }
                        members.push((name, value));
                        proof {
                            lemma_added(lower, upper, done, before, members@);
                        }
                    },
                }
                proof {
                    done = done + 1;
                }
            }
            proof {
                assert(done == upper.len());
                lemma_merged(lower, upper, members@);
            }
            Json::Object(members)
        },
        (_, extra) => extra,
    }
}

proof fn lemma_added<L>(
    under: Seq<(String, Json<L>)>,
    over: Seq<(String, Json<L>)>,
    done: int,
    before: Seq<(String, Json<L>)>,
    after: Seq<(String, Json<L>)>,
)
    requires
        0 <= done < over.len(),
        names_differ(under),
        names_differ(over),
        names_differ(before),
        merged_so_far(under, over, done, before),
        forall|r: int| 0 <= r < before.len() ==> (#[trigger] before[r]).0@ != over[done].0@,
        after == before.push(over[done]),
    ensures
        names_differ(after),
        merged_so_far(under, over, done + 1, after),
{
    let name = over[done].0@;
    assert(!has_name(under, name)) by {
        if has_name(under, name) {
            let i = choose|i: int| 0 <= i < under.len() && (#[trigger] under[i]).0@ == name;
            assert(has_name(before, under[i].0@));
            let r = choose|r: int| 0 <= r < before.len() && (#[trigger] before[r]).0@ == name;
            assert(before[r].0@ != name);
        }
    }
    assert(after[before.len() as int] == over[done]);
    assert forall|r: int| 0 <= r < after.len() implies from_either(
        under,
        over,
        done + 1,
        #[trigger] after[r],
    ) by {
        if r < before.len() {
            assert(after[r] == before[r]);
            assert(before[r].0@ != name);
            lemma_stays_from_either(under, over, done, before[r]);
        } else {
            assert(over[done].0@ == after[r].0@);
        }
    }
    assert forall|r: int| 0 <= r < before.len() implies has_name(
        after,
        (#[trigger] before[r]).0@,
    ) by {
        assert(after[r].0@ == before[r].0@);
    }
    lemma_names_stay(under, over, done, before, after);
}

proof fn lemma_stays_from_either<L>(
    under: Seq<(String, Json<L>)>,
    over: Seq<(String, Json<L>)>,
    done: int,
    member: (String, Json<L>),
)
    requires
        0 <= done < over.len(),
        from_either(under, over, done, member),
        member.0@ != over[done].0@,
    ensures
        from_either(under, over, done + 1, member),
{
    assert(has_name_before(over, done + 1, member.0@) ==> has_name_before(over, done, member.0@))
        by {
        if has_name_before(over, done + 1, member.0@) {
            let r = choose|r: int| 0 <= r < done + 1 && (#[trigger] over[r]).0@ == member.0@;
            assert(r < done);
            assert(over[r].0@ == member.0@);
        }
    }
    if exists|i: int|
        0 <= i < under.len() && (#[trigger] under[i]).0@ == member.0@ && !has_name_before(
            over,
            done,
            member.0@,
        ) && member.1 == under[i].1 {
        let i = choose|i: int|
            0 <= i < under.len() && (#[trigger] under[i]).0@ == member.0@ && !has_name_before(
                over,
                done,
                member.0@,
            ) && member.1 == under[i].1;
        assert(under[i].0@ == member.0@);
    } else if exists|j: int|
        0 <= j < done && (#[trigger] over[j]).0@ == member.0@ && !has_name(under, member.0@)
            && member.1 == over[j].1 {
        let j = choose|j: int|
            0 <= j < done && (#[trigger] over[j]).0@ == member.0@ && !has_name(under, member.0@)
                && member.1 == over[j].1;
        assert(over[j].0@ == member.0@);
    } else {
        let (i, j) = choose|i: int, j: int|
            0 <= i < under.len() && 0 <= j < done && (#[trigger] under[i]).0@ == member.0@ && (
            #[trigger] over[j]).0@ == member.0@ && is_merged(under[i].1, over[j].1, member.1);
        assert(under[i].0@ == member.0@);
        assert(over[j].0@ == member.0@);
    }
}

proof fn lemma_names_stay<L>(
    under: Seq<(String, Json<L>)>,
    over: Seq<(String, Json<L>)>,
    done: int,
    before: Seq<(String, Json<L>)>,
    after: Seq<(String, Json<L>)>,
)
    requires
        0 <= done < over.len(),
        merged_so_far(under, over, done, before),
        after.len() > 0,
        after.last().0@ == over[done].0@,
        forall|r: int|
            0 <= r < before.len() ==> has_name(after, (#[trigger] before[r]).0@),
    ensures
        forall|i: int| 0 <= i < under.len() ==> has_name(after, #[trigger] under[i].0@),
        forall|j: int| 0 <= j < done + 1 ==> has_name(after, #[trigger] over[j].0@),
{
    assert forall|i: int| 0 <= i < under.len() implies has_name(
        after,
        #[trigger] under[i].0@,
    ) by {
        assert(has_name(before, under[i].0@));
        let r = choose|r: int| 0 <= r < before.len() && (#[trigger] before[r]).0@ == under[i].0@;
        assert(has_name(after, before[r].0@));
    }
    assert forall|j: int| 0 <= j < done + 1 implies has_name(after, #[trigger] over[j].0@) by {
        if j < done {
            assert(has_name(before, over[j].0@));
            let r = choose|r: int| 0 <= r < before.len() && (#[trigger] before[r]).0@ == over[j].0@;
            assert(has_name(after, before[r].0@));
        } else {
            assert(after[after.len() - 1].0@ == over[j].0@);
        }
    }
}

proof fn lemma_laid_over<L>(
    under: Seq<(String, Json<L>)>,
    over: Seq<(String, Json<L>)>,
    done: int,
    before: Seq<(String, Json<L>)>,
    place: int,
    merged: Json<L>,
    after: Seq<(String, Json<L>)>,
)
    requires
        0 <= done < over.len(),
        names_differ(under),
        names_differ(over),
        names_differ(before),
        merged_so_far(under, over, done, before),
        0 <= place < before.len(),
        before[place].0@ == over[done].0@,
        is_merged(before[place].1, over[done].1, merged),
        after == before.remove(place).push((over[done].0, merged)),
    ensures
        names_differ(after),
        merged_so_far(under, over, done + 1, after),
{
    let name = over[done].0@;
    let last = before.len() - 1;
    assert forall|r: int| 0 <= r < last implies (#[trigger] after[r]) == before[if r < place {
        r
    } else {
        r + 1
    }] by {}
    assert(after[last as int] == (over[done].0, merged));
    assert(!has_name_before(over, done, name)) by {
        if has_name_before(over, done, name) {
            let r = choose|r: int| 0 <= r < done && (#[trigger] over[r]).0@ == name;
            assert(over[r].0@ != over[done].0@);
        }
    }
    assert(from_either(under, over, done, before[place]));
    assert(exists|i: int|
        0 <= i < under.len() && (#[trigger] under[i]).0@ == name && before[place].1 == under[i].1);
    let i = choose|i: int|
        0 <= i < under.len() && (#[trigger] under[i]).0@ == name && before[place].1 == under[i].1;
    assert forall|r: int| 0 <= r < after.len() implies from_either(
        under,
        over,
        done + 1,
        #[trigger] after[r],
    ) by {
        if r < last {
            let q = if r < place {
                r
            } else {
                r + 1
            };
            assert(after[r] == before[q]);
            assert(before[q].0@ != name) by {
                if q < place {
                    assert(before[q].0@ != before[place].0@);
                } else {
                    assert(before[place].0@ != before[q].0@);
                }
            }
            lemma_stays_from_either(under, over, done, before[q]);
        } else {
            assert(under[i].0@ == after[r].0@);
            assert(over[done].0@ == after[r].0@);
            assert(is_merged(under[i].1, over[done].1, after[r].1));
        }
    }
    assert forall|j: int, k: int| 0 <= j < k < after.len() implies (#[trigger] after[j]).0@ != (
    #[trigger] after[k]).0@ by {
        let q = if j < place {
            j
        } else {
            j + 1
        };
        assert(after[j] == before[q]);
        if k < last {
            let s = if k < place {
                k
            } else {
                k + 1
            };
            assert(after[k] == before[s]);
            assert(before[q].0@ != before[s].0@);
        } else {
            if q < place {
                assert(before[q].0@ != before[place].0@);
            } else {
                assert(before[place].0@ != before[q].0@);
            }
        }
    }
    assert forall|r: int| 0 <= r < before.len() implies has_name(
        after,
        (#[trigger] before[r]).0@,
    ) by {
        if r < place {
            assert(after[r].0@ == before[r].0@);
        } else if r == place {
            assert(after[last as int].0@ == before[r].0@);
        } else {
            assert(after[r - 1].0@ == before[r].0@);
        }
    }
    lemma_names_stay(under, over, done, before, after);
}

proof fn lemma_has_name<L>(members: Seq<(String, Json<L>)>, name: Seq<char>)
    ensures
        has_name(members, name) == (member_place(members, name, 0) is Some),
{
    lemma_member_place(members, name, 0);
    if has_name(members, name) {
        let r = choose|r: int| 0 <= r < members.len() && (#[trigger] members[r]).0@ == name;
        assert(members[r].0@ == name);
    }
    match member_place(members, name, 0) {
        Some(place) => {
            assert(members[place].0@ == name);
        },
        None => {},
    }
}

proof fn lemma_merged<L>(
    under: Seq<(String, Json<L>)>,
    over: Seq<(String, Json<L>)>,
    members: Seq<(String, Json<L>)>,
)
    requires
        names_differ(under),
        names_differ(over),
        names_differ(members),
        merged_so_far(under, over, over.len() as int, members),
    ensures
        forall|name: Seq<char>| #[trigger]
            member_place(members, name, 0) is Some <==> member_place(under, name, 0) is Some
                || member_place(over, name, 0) is Some,
        forall|r: int, j: int|
            0 <= r < members.len() && 0 <= j < over.len() && (#[trigger] members[r]).0@ == (
            #[trigger] over[j]).0@ ==> (match member_place(under, over[j].0@, 0) {
                Some(i) => is_merged(under[i].1, over[j].1, members[r].1),
                None => members[r].1 == over[j].1,
            }),
        forall|r: int, i: int|
            0 <= r < members.len() && 0 <= i < under.len() && (#[trigger] members[r]).0@ == (
            #[trigger] under[i]).0@ && member_place(over, under[i].0@, 0) is None
                ==> members[r].1 == under[i].1,
{
    let count = over.len() as int;
    assert forall|name: Seq<char>| #[trigger]
        member_place(members, name, 0) is Some <==> member_place(under, name, 0) is Some
            || member_place(over, name, 0) is Some by {
        lemma_has_name(members, name);
        lemma_has_name(under, name);
        lemma_has_name(over, name);
        if has_name(members, name) {
            let r = choose|r: int| 0 <= r < members.len() && (#[trigger] members[r]).0@ == name;
            assert(from_either(under, over, count, members[r]));
            if exists|i: int| 0 <= i < under.len() && (#[trigger] under[i]).0@ == name {
                assert(has_name(under, name));
            } else {
                assert(exists|j: int| 0 <= j < over.len() && (#[trigger] over[j]).0@ == name);
                assert(has_name(over, name));
            }
        }
        if has_name(under, name) {
            let i = choose|i: int| 0 <= i < under.len() && (#[trigger] under[i]).0@ == name;
            assert(has_name(members, under[i].0@));
        }
        if has_name(over, name) {
            let j = choose|j: int| 0 <= j < over.len() && (#[trigger] over[j]).0@ == name;
            assert(has_name(members, over[j].0@));
        }
    }
    assert forall|r: int, j: int|
        0 <= r < members.len() && 0 <= j < over.len() && (#[trigger] members[r]).0@ == (
        #[trigger] over[j]).0@ implies (match member_place(under, over[j].0@, 0) {
        Some(i) => is_merged(under[i].1, over[j].1, members[r].1),
        None => members[r].1 == over[j].1,
    }) by {
        let name = members[r].0@;
        assert(from_either(under, over, count, members[r]));
        lemma_has_name(under, name);
        lemma_member_place(under, name, 0);
        assert(has_name_before(over, count, name)) by {
            assert(over[j].0@ == name);
        }
        if exists|k: int|
            0 <= k < count && (#[trigger] over[k]).0@ == name && !has_name(under, name)
                && members[r].1 == over[k].1 {
            let k = choose|k: int|
                0 <= k < count && (#[trigger] over[k]).0@ == name && !has_name(under, name)
                    && members[r].1 == over[k].1;
            lemma_member_found(over, k);
            lemma_member_found(over, j);
        } else {
            let (i, k) = choose|i: int, k: int|
                0 <= i < under.len() && 0 <= k < count && (#[trigger] under[i]).0@ == name && (
                #[trigger] over[k]).0@ == name && is_merged(
                    under[i].1,
                    over[k].1,
                    members[r].1,
                );
            lemma_member_found(over, k);
            lemma_member_found(over, j);
            lemma_member_found(under, i);
        }
    }
    assert forall|r: int, i: int|
        0 <= r < members.len() && 0 <= i < under.len() && (#[trigger] members[r]).0@ == (
        #[trigger] under[i]).0@ && member_place(over, under[i].0@, 0) is None implies members[r].1
        == under[i].1 by {
        let name = members[r].0@;
        assert(from_either(under, over, count, members[r]));
        lemma_has_name(over, name);
        lemma_member_found(under, i);
        assert(!has_name(over, name));
        assert(exists|k: int|
            0 <= k < under.len() && (#[trigger] under[k]).0@ == name && members[r].1
                == under[k].1) by {
            if exists|j: int| 0 <= j < count && (#[trigger] over[j]).0@ == name {
                assert(has_name(over, name));
            }
        }
        let k = choose|k: int|
            0 <= k < under.len() && (#[trigger] under[k]).0@ == name && members[r].1 == under[k].1;
        lemma_member_found(under, k);
    }
}

/// What the tiles leave to be drawn directly, as the log writes it: the given
/// mode, or else the last one.
pub fn logged_fallback_mode(
    mode: Option<TileFallbackMode>,
    last: Option<TileFallbackMode>,
) -> (label: &'static str)
    ensures
        label@ == match (if mode is Some {
            mode
        } else {
            last
        }) {
            Some(TileFallbackMode::Current) => "current"@,
            Some(TileFallbackMode::OverlayAfter(_)) => "overlay_after"@,
            Some(TileFallbackMode::Full) => "full"@,
            None => "unknown"@,
        },
{
    match (mode, last) {
        (Some(mode), _) => tile_fallback_mode_label(mode),
        (None, Some(last)) => tile_fallback_mode_label(last),
        (None, None) => "unknown",
    }
}

/// How the canvas is drawn, as the log writes it.
pub fn logged_depth_mode(mode: Option<DepthRenderMode>) -> (label: &'static str)
    ensures
        label@ == match mode {
            Some(DepthRenderMode::Empty) => "empty"@,
            Some(DepthRenderMode::VectorsNear) => "vectors_near"@,
            Some(DepthRenderMode::DistantTile) => "distant_tile"@,
            None => "unknown"@,
        },
{
    match mode {
        Some(mode) => depth_render_mode_label(mode),
        None => "unknown",
    }
}

} // verus!
