//! Places to come back to.

use crate::camera::CameraAddress;
use crate::coordinates::{characters, trim, trimmed};
use crate::text::{joined, natural_text, text_of, with_number};
use std::collections::HashMap;
use vstd::prelude::*;

verus! {

broadcast use vstd::std_specs::hash::group_hash_axioms;

/// A camera under a name.
pub struct Bookmark {
    pub id: u128,
    pub name: String,
    pub camera: CameraAddress,
}

/// The bookmarks, their names as they are edited, and the name of the next one.
pub struct BookmarkList {
    pub bookmarks: Vec<Bookmark>,
    pub edits: HashMap<u128, String>,
    pub new_name: String,
}

/// The name that the next bookmark gets by itself, where there are so many.
pub open spec fn default_name(count: int) -> Seq<char> {
    "Bookmark "@ + natural_text(count + 1)
}

/// The name that the next bookmark gets by itself, where there are so many.
pub fn default_bookmark_name(count: usize) -> (name: String)
    requires
        count < usize::MAX,
    ensures
        name@ == default_name(count as int),
{
    let name = with_number("Bookmark ", (count + 1) as u64, "");
    proof {
        reveal_strlit("");
        assert(name@ =~= default_name(count as int));
    }
    name
}

/// The place of the first bookmark with the id.
pub open spec fn first_with_id(bookmarks: Seq<Bookmark>, id: u128) -> int
    decreases bookmarks.len(),
{
    if bookmarks.len() == 0 {
        0
    } else if bookmarks[0].id == id {
        0
    } else {
        1 + first_with_id(bookmarks.skip(1), id)
    }
}

/// The bookmarks with another id.
pub open spec fn without(bookmarks: Seq<Bookmark>, id: u128) -> Seq<Bookmark>
    decreases bookmarks.len(),
{
    if bookmarks.len() == 0 {
        seq![]
    } else if bookmarks.last().id == id {
        without(bookmarks.drop_last(), id)
    } else {
        without(bookmarks.drop_last(), id).push(bookmarks.last())
    }
}

impl BookmarkList {
    /// Exactly the bookmarks have a name to edit, which is their own; where several
    /// have one id, that of the last one.
    pub open spec fn edits_names_of(self, bookmarks: Seq<Bookmark>) -> bool {
        &&& forall|id: u128| #[trigger]
            self.edits@.contains_key(id) <==> exists|i: int|
                0 <= i < bookmarks.len() && (#[trigger] bookmarks[i]).id == id
        &&& forall|i: int|
            0 <= i < bookmarks.len() && (forall|j: int|
                i < j < bookmarks.len() ==> (#[trigger] bookmarks[j]).id != bookmarks[i].id)
                ==> self.edits@[(#[trigger] bookmarks[i]).id]@ == bookmarks[i].name@
    }

    /// The bookmarks, each with its own name to edit.
    pub fn new(bookmarks: Vec<Bookmark>) -> (list: Self)
        requires
            bookmarks@.len() < usize::MAX,
        ensures
            list.bookmarks == bookmarks,
            list.new_name@ == default_name(bookmarks@.len() as int),
            list.edits_names_of(bookmarks@),
    {
        let mut edits: HashMap<u128, String> = HashMap::new();
        let mut i: usize = 0;
        while i < bookmarks.len()
            invariant
                i <= bookmarks@.len(),
                forall|id: u128| #[trigger]
                    edits@.contains_key(id) <==> exists|k: int|
                        0 <= k < i && (#[trigger] bookmarks@[k]).id == id,
                forall|k: int|
                    0 <= k < i && (forall|j: int|
                        k < j < i ==> (#[trigger] bookmarks@[j]).id != bookmarks@[k].id)
                        ==> edits@[(#[trigger] bookmarks@[k]).id]@ == bookmarks@[k].name@,
            decreases bookmarks@.len() - i,
        {
            let ghost before = edits@;
            let id: u128 = bookmarks[i].id;
            edits.insert(id, String::from_str(bookmarks[i].name.as_str()));
            assert forall|other: u128| #[trigger]
                edits@.contains_key(other) <==> exists|k: int|
                    0 <= k < i + 1 && (#[trigger] bookmarks@[k]).id == other by {
                if edits@.contains_key(other) {
                    if other == id {
                        assert(bookmarks@[i as int].id == other);
                    } else {
                        assert(before.contains_key(other));
                        let k = choose|k: int|
                            0 <= k < i && (#[trigger] bookmarks@[k]).id == other;
                        assert(bookmarks@[k].id == other);
                    }
                }
                if exists|k: int| 0 <= k < i + 1 && (#[trigger] bookmarks@[k]).id == other {
                    let k = choose|k: int|
                        0 <= k < i + 1 && (#[trigger] bookmarks@[k]).id == other;
                    if k < i {
                        assert(before.contains_key(other));
                    }
                }
            }
            assert forall|k: int|
                0 <= k < i + 1 && (forall|j: int|
                    k < j < i + 1 ==> (#[trigger] bookmarks@[j]).id
                        != bookmarks@[k].id) implies edits@[(#[trigger] bookmarks@[k]).id]@
                == bookmarks@[k].name@ by {
                if k < i {
                    assert(bookmarks@[i as int].id != bookmarks@[k].id);
                }
            }
            i = i + 1;
        }
        let new_name: String = default_bookmark_name(bookmarks.len());
        BookmarkList { bookmarks, edits, new_name }
    }

    /// The name under which the current place is kept: the one entered, or else
    /// the one that it gets by itself.
    pub fn name_to_add(&self) -> (name: String)
        requires
            self.bookmarks@.len() < usize::MAX,
        ensures
            name@ == if trimmed(self.new_name@).len() == 0 {
                default_name(self.bookmarks@.len() as int)
            } else {
                trimmed(self.new_name@)
            },
    {
        let entered: Vec<char> = trim(self.new_name.as_str());
        if entered.len() == 0 {
            default_bookmark_name(self.bookmarks.len())
        } else {
            text_of(&entered)
        }
    }

    /// Ends the adding of a bookmark. Returns what to tell the user.
    pub fn finish_add(&mut self, added: Result<Bookmark, String>) -> (message: String)
        requires
            old(self).bookmarks@.len() < usize::MAX - 1,
        ensures
            match added {
                Ok(bookmark) => {
                    &&& final(self).bookmarks@ == old(self).bookmarks@.push(bookmark)
                    &&& final(self).edits@.contains_key(bookmark.id)
                    &&& final(self).edits@[bookmark.id]@ == bookmark.name@
                    &&& final(self).edits@ == old(self).edits@.insert(
                        bookmark.id,
                        final(self).edits@[bookmark.id],
                    )
                    &&& final(self).new_name@ == default_name(
                        (old(self).bookmarks@.len() + 1) as int,
                    )
                    &&& message@ == "Bookmark saved"@
                },
                Err(error) => *final(self) == *old(self) && message@ == "Bookmark failed: "@
                    + error@,
            },
    {
        match added {
            Ok(bookmark) => {
                self.edits.insert(bookmark.id, String::from_str(bookmark.name.as_str()));
                self.bookmarks.push(bookmark);
                self.new_name = default_bookmark_name(self.bookmarks.len());
                String::from_str("Bookmark saved")
            },
            Err(error) => joined("Bookmark failed: ", error.as_str()),
        }
    }

    /// The name as it is edited, without white space at both ends; that of the
    /// bookmark itself where it is not edited.
    pub fn edited_name(&self, bookmark: &Bookmark) -> (name: String)
        ensures
            name@ == trimmed(
                if self.edits@.contains_key(bookmark.id) {
                    self.edits@[bookmark.id]@
                } else {
                    bookmark.name@
                },
            ),
    {
        match self.edits.get(&bookmark.id) {
            Some(edit) => text_of(&trim(edit.as_str())),
            None => text_of(&trim(bookmark.name.as_str())),
        }
    }

    /// Why a bookmark cannot be renamed: the name is empty.
    pub fn rename_refusal(name: &str) -> (refusal: Option<&'static str>)
        ensures
            refusal is None == (name@.len() > 0),
            refusal is Some ==> refusal.unwrap()@ == "Bookmark name is empty"@,
    {
        if characters(name).len() == 0 {
            Some("Bookmark name is empty")
        } else {
            None
        }
    }

    /// Ends the renaming of a bookmark; `Ok` tells whether it was found. Returns
    /// what to tell the user.
    pub fn finish_rename(&mut self, id: u128, name: String, renamed: Result<bool, String>) -> (
    message: String)
        ensures
            final(self).new_name == old(self).new_name,
            final(self).bookmarks@.len() == old(self).bookmarks@.len(),
            forall|i: int|
                0 <= i < old(self).bookmarks@.len() ==> {
                    let before = old(self).bookmarks@[i];
                    let after = #[trigger] final(self).bookmarks@[i];
                    if renamed == Ok::<bool, String>(true) && i == first_with_id(
                        old(self).bookmarks@,
                        id,
                    ) {
                        after.id == before.id && after.camera == before.camera && after.name@
                            == name@
                    } else {
                        after == before
                    }
                },
            match renamed {
                Ok(true) => {
                    &&& final(self).edits@ == old(self).edits@.insert(id, name)
                    &&& message@ == "Bookmark renamed"@
                },
                Ok(false) => final(self).edits == old(self).edits && message@
                    == "Bookmark not found"@,
                Err(error) => final(self).edits == old(self).edits && message@
                    == "Rename failed: "@ + error@,
            },
    {
        match renamed {
            Ok(true) => {
                let mut i: usize = 0;
                assert(self.bookmarks@.skip(0) =~= self.bookmarks@);
                while i < self.bookmarks.len() && self.bookmarks[i].id != id
                    invariant
                        i <= self.bookmarks@.len(),
                        self.bookmarks == old(self).bookmarks,
                        self.edits == old(self).edits,
                        self.new_name == old(self).new_name,
                        first_with_id(old(self).bookmarks@, id) == i + first_with_id(
                            old(self).bookmarks@.skip(i as int),
                            id,
                        ),
                    decreases self.bookmarks@.len() - i,
                {
                    assert(old(self).bookmarks@.skip(i as int).skip(1) =~= old(self).bookmarks@.skip(i + 1));
                    i = i + 1;
                }
                if i < self.bookmarks.len() {
                    self.bookmarks[i].name = String::from_str(name.as_str());
                }
                self.edits.insert(id, name);
                String::from_str("Bookmark renamed")
            },
            Ok(false) => String::from_str("Bookmark not found"),
            Err(error) => joined("Rename failed: ", error.as_str()),
        }
    }

    /// Ends the deletion of a bookmark; `Ok` tells whether it was found. Returns
    /// what to tell the user.
    pub fn finish_delete(&mut self, id: u128, deleted: Result<bool, String>) -> (message: String)
        ensures
            final(self).new_name == old(self).new_name,
            match deleted {
                Ok(true) => {
                    &&& final(self).bookmarks@ == without(old(self).bookmarks@, id)
                    &&& final(self).edits@ == old(self).edits@.remove(id)
                    &&& message@ == "Bookmark deleted"@
                },
                Ok(false) => *final(self) == *old(self) && message@ == "Bookmark not found"@,
                Err(error) => *final(self) == *old(self) && message@ == "Delete failed: "@ + error@,
            },
    {
        match deleted {
            Ok(true) => {
                let ghost all = self.bookmarks@;
                let ghost mut done: int = 0;
                let mut i: usize = 0;
                assert(all.take(0) =~= seq![]);
                assert(self.bookmarks@ =~= without(all.take(0), id) + all.skip(0));
                while i < self.bookmarks.len()
                    invariant
                        0 <= done <= all.len(),
                        i == without(all.take(done), id).len(),
                        self.bookmarks@ == without(all.take(done), id) + all.skip(done),
                        self.edits == old(self).edits,
                        self.new_name == old(self).new_name,
                    decreases all.len() - done,
                {
                    let ghost front = without(all.take(done), id);
                    assert(done < all.len());
                    assert(self.bookmarks@[i as int] == all[done]);
                    assert(all.take(done + 1).drop_last() =~= all.take(done));
                    if self.bookmarks[i].id == id {
                        self.bookmarks.remove(i);
                        assert(self.bookmarks@ =~= front + all.skip(done + 1));
                    } else {
                        i = i + 1;
                        assert(self.bookmarks@ =~= front.push(all[done]) + all.skip(done + 1));
                    }
                    proof {
                        done = done + 1;
                    }
                }
                assert(all.take(done) =~= all);
                assert(self.bookmarks@ =~= without(all, id));
                self.edits.remove(&id);
                String::from_str("Bookmark deleted")
            },
            Ok(false) => String::from_str("Bookmark not found"),
            Err(error) => joined("Delete failed: ", error.as_str()),
        }
    }
}

/// A deleted bookmark is gone, and the others stay in their order.
pub proof fn law_deleted_bookmarks_are_gone(bookmarks: Seq<Bookmark>, id: u128)
    ensures
        forall|i: int|
            0 <= i < without(bookmarks, id).len() ==> (#[trigger] without(bookmarks, id)[i]).id
                != id,
        without(bookmarks, id) == bookmarks.filter(|bookmark: Bookmark| bookmark.id != id),
    decreases bookmarks.len(),
{
    reveal(Seq::filter);
    if bookmarks.len() > 0 {
        law_deleted_bookmarks_are_gone(bookmarks.drop_last(), id);
    }
}

/// What was asked for in the window of bookmarks.
pub struct BookmarkRequests {
    pub add: bool,
    /// The bookmark to go to.
    pub open: Option<u128>,
    /// The bookmark to rename, and its new name.
    pub rename: Option<(u128, String)>,
    /// The bookmark to delete.
    pub delete: Option<u128>,
    pub close: bool,
}

/// Something to do for the window of bookmarks.
#[derive(Debug)]
pub enum BookmarkAction {
    Add,
    Open(u128),
    Rename(u128, String),
    Delete(u128),
    Close,
}

impl BookmarkRequests {
    /// What to do, in order: add, go, rename, delete, close.
    pub open spec fn wanted(self) -> Seq<BookmarkAction> {
        (if self.add {
            seq![BookmarkAction::Add]
        } else {
            seq![]
        }) + (match self.open {
            Some(id) => seq![BookmarkAction::Open(id)],
            None => seq![],
        }) + (match self.rename {
            Some(rename) => seq![BookmarkAction::Rename(rename.0, rename.1)],
            None => seq![],
        }) + (match self.delete {
            Some(id) => seq![BookmarkAction::Delete(id)],
            None => seq![],
        }) + (if self.close {
            seq![BookmarkAction::Close]
        } else {
            seq![]
        })
    }

    /// What to do, in order: add, go, rename, delete, close.
    pub fn actions(self) -> (actions: Vec<BookmarkAction>)
        ensures
            actions@ == self.wanted(),
    {
        let ghost wanted = self.wanted();
        let mut actions: Vec<BookmarkAction> = Vec::new();
        if self.add {
            actions.push(BookmarkAction::Add);
        }
        if let Some(id) = self.open {
            actions.push(BookmarkAction::Open(id));
        }
        if let Some((id, name)) = self.rename {
            actions.push(BookmarkAction::Rename(id, name));
        }
        if let Some(id) = self.delete {
            actions.push(BookmarkAction::Delete(id));
        }
        if self.close {
            actions.push(BookmarkAction::Close);
        }
        assert(actions@ =~= wanted);
        actions
    }
}

/// The first bookmark with an identity is found: none before it has the identity;
/// where no bookmark has it, the place is behind all of them.
pub proof fn law_the_first_bookmark_is_found(bookmarks: Seq<Bookmark>, id: u128)
    ensures
        ({
            let place = first_with_id(bookmarks, id);
            &&& 0 <= place <= bookmarks.len()
            &&& place < bookmarks.len() ==> bookmarks[place].id == id
            &&& forall|k: int| 0 <= k < place ==> (#[trigger] bookmarks[k]).id != id
        }),
    decreases bookmarks.len(),
{
    if bookmarks.len() > 0 && bookmarks[0].id != id {
        let rest = bookmarks.skip(1);
        law_the_first_bookmark_is_found(rest, id);
        let place = first_with_id(rest, id);
        assert forall|k: int| 0 <= k < 1 + place implies (#[trigger] bookmarks[k]).id != id by {
            if k > 0 {
                assert(rest[k - 1] == bookmarks[k]);
            }
        }
        if place < rest.len() {
            assert(rest[place] == bookmarks[place + 1]);
        }
    }
}

/// All that is asked for of the bookmarks is done, and nothing else.
pub proof fn law_all_requests_are_met(requests: BookmarkRequests, action: BookmarkAction)
    ensures
        requests.wanted().contains(action) <==> match action {
            BookmarkAction::Add => requests.add,
            BookmarkAction::Open(id) => requests.open == Some(id),
            BookmarkAction::Rename(id, name) => requests.rename == Some((id, name)),
            BookmarkAction::Delete(id) => requests.delete == Some(id),
            BookmarkAction::Close => requests.close,
        },
        requests.wanted().len() == (if requests.add {
            1int
        } else {
            0
        }) + (if requests.open is Some {
            1int
        } else {
            0
        }) + (if requests.rename is Some {
            1int
        } else {
            0
        }) + (if requests.delete is Some {
            1int
        } else {
            0
        }) + (if requests.close {
            1int
        } else {
            0
        }),
        requests.close ==> requests.wanted().last() == BookmarkAction::Close,
        requests.add ==> requests.wanted().first() == BookmarkAction::Add,
{
    let add = if requests.add {
        seq![BookmarkAction::Add]
    } else {
        seq![]
    };
    let open = match requests.open {
        Some(id) => seq![BookmarkAction::Open(id)],
        None => seq![],
    };
    let rename = match requests.rename {
        Some(rename) => seq![BookmarkAction::Rename(rename.0, rename.1)],
        None => seq![],
    };
    let delete = match requests.delete {
        Some(id) => seq![BookmarkAction::Delete(id)],
        None => seq![],
    };
    let close = if requests.close {
        seq![BookmarkAction::Close]
    } else {
        seq![]
    };
    crate::plan::lemma_contained_in_either(add, open, action);
    crate::plan::lemma_contained_in_either(add + open, rename, action);
    crate::plan::lemma_contained_in_either(add + open + rename, delete, action);
    crate::plan::lemma_contained_in_either(add + open + rename + delete, close, action);
    assert(requests.wanted() == add + open + rename + delete + close);
    if requests.add {
        assert(add[0] == BookmarkAction::Add);
    }
    if requests.open is Some {
        assert(open[0] == BookmarkAction::Open(requests.open->0));
    }
    if requests.rename is Some {
        assert(rename[0] is Rename);
    }
    if requests.delete is Some {
        assert(delete[0] == BookmarkAction::Delete(requests.delete->0));
    }
    if requests.close {
        assert(close[0] == BookmarkAction::Close);
    }
}

} // verus!
