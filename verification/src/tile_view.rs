//! Which tiles a view shows.

use crate::plan::{lemma_contained_in_either, lemma_no_repetition};
use crate::tile_index::TileIndex;
use vstd::prelude::*;

verus! {

/// A tile of the canvas at one depth, in one resolution.
#[derive(Debug)]
pub struct TileKey {
    pub depth: i64,
    pub x: TileIndex,
    pub y: TileIndex,
    pub lod: u8,
}

/// What a tile is, mathematically.
pub struct KeyView {
    pub depth: int,
    pub x: int,
    pub y: int,
    pub lod: u8,
}

impl View for TileKey {
    type V = KeyView;

    open spec fn view(&self) -> KeyView {
        KeyView { depth: self.depth as int, x: self.x@, y: self.y@, lod: self.lod }
    }
}

impl Clone for TileKey {
    fn clone(&self) -> (key: Self)
        ensures
            key@ == self@,
    {
        TileKey { depth: self.depth, x: self.x.clone(), y: self.y.clone(), lod: self.lod }
    }
}

impl PartialEq for TileKey {
    fn eq(&self, other: &Self) -> (same: bool) {
        self.depth == other.depth && self.x.same_as(&other.x) && self.y.same_as(&other.y)
            && self.lod == other.lod
    }
}

impl vstd::std_specs::cmp::PartialEqSpecImpl for TileKey {
    open spec fn obeys_eq_spec() -> bool {
        true
    }

    open spec fn eq_spec(&self, other: &Self) -> bool {
        self@ == other@
    }
}

/// What the tiles of a list are, mathematically.
pub open spec fn key_views(keys: Seq<TileKey>) -> Seq<KeyView> {
    keys.map_values(|key: TileKey| key@)
}

/// A rectangle of tiles, counted from the tile of the camera; both ends belong
/// to it.
#[derive(Debug, Clone, Copy, PartialEq, Eq, Structural)]
pub struct TileWindow {
    pub min_x: i64,
    pub max_x: i64,
    pub min_y: i64,
    pub max_y: i64,
}

/// A number that is at least the least `i64`.
pub open spec fn at_least_min(value: int) -> int {
    if value < i64::MIN {
        i64::MIN as int
    } else {
        value
    }
}

/// A number that is at most the greatest `i64`.
pub open spec fn at_most_max(value: int) -> int {
    if value > i64::MAX {
        i64::MAX as int
    } else {
        value
    }
}

impl TileWindow {
    /// The window with `ring` more tiles on each side, as far as there are
    /// numbers for them.
    pub open spec fn grown(self, ring: int) -> TileWindow {
        TileWindow {
            min_x: at_least_min(self.min_x - ring) as i64,
            max_x: at_most_max(self.max_x + ring) as i64,
            min_y: at_least_min(self.min_y - ring) as i64,
            max_y: at_most_max(self.max_y + ring) as i64,
        }
    }

    /// Whether the tile lies in the window.
    pub open spec fn covers(self, x: int, y: int) -> bool {
        self.min_x <= x <= self.max_x && self.min_y <= y <= self.max_y
    }

    /// Whether a row or a column of the window's edge goes through the tile.
    pub open spec fn edge(self, x: int, y: int) -> bool {
        x == self.min_x || x == self.max_x || y == self.min_y || y == self.max_y
    }

    /// The tiles of a row from `x` on, left to right; only those of the edge
    /// where the window is a ring around another.
    pub open spec fn row(self, only_edge: bool, x: int, y: int) -> Seq<(int, int)>
        decreases self.max_x - x + 1,
    {
        if x > self.max_x {
            seq![]
        } else if only_edge && !self.edge(x, y) {
            self.row(only_edge, x + 1, y)
        } else {
            seq![(x, y)] + self.row(only_edge, x + 1, y)
        }
    }

    /// The tiles of the rows from `y` on, row by row.
    pub open spec fn rows(self, only_edge: bool, y: int) -> Seq<(int, int)>
        decreases self.max_y - y + 1,
    {
        if y > self.max_y {
            seq![]
        } else {
            self.row(only_edge, self.min_x as int, y) + self.rows(only_edge, y + 1)
        }
    }

    /// The tiles of one ring around the window; ring zero is the window.
    pub open spec fn ring(self, ring: int) -> Seq<(int, int)> {
        self.grown(ring).rows(ring > 0, self.grown(ring).min_y as int)
    }

    /// The tiles of the rings before `count`, ring by ring.
    pub open spec fn rings(self, count: int) -> Seq<(int, int)>
        decreases count,
    {
        if count <= 0 {
            seq![]
        } else {
            self.rings(count - 1) + self.ring(count - 1)
        }
    }

    fn grow(&self, ring: i64) -> (window: TileWindow)
        requires
            0 <= ring <= 255,
        ensures
            window == self.grown(ring as int),
    {
        TileWindow {
            min_x: if self.min_x < i64::MIN + ring {
                i64::MIN
            } else {
                self.min_x - ring
            },
            max_x: if self.max_x > i64::MAX - ring {
                i64::MAX
            } else {
                self.max_x + ring
            },
            min_y: if self.min_y < i64::MIN + ring {
                i64::MIN
            } else {
                self.min_y - ring
            },
            max_y: if self.max_y > i64::MAX - ring {
                i64::MAX
            } else {
                self.max_y + ring
            },
        }
    }
}

/// The tiles at the given places around a camera's tile.
pub open spec fn keys_at(
    places: Seq<(int, int)>,
    depth: int,
    tile_x: int,
    tile_y: int,
    lod: u8,
) -> Seq<KeyView> {
    places.map_values(
        |place: (int, int)| KeyView { depth, x: tile_x + place.0, y: tile_y + place.1, lod },
    )
}

/// The camera's place, and the resolution that is asked for.
#[derive(Debug)]
pub struct TileOrigin {
    pub depth: i64,
    pub tile_x: TileIndex,
    pub tile_y: TileIndex,
    pub lod: u8,
}

impl TileOrigin {
    /// The tiles at the given places around the camera's tile.
    pub open spec fn keys(self, places: Seq<(int, int)>) -> Seq<KeyView> {
        keys_at(places, self.depth as int, self.tile_x@, self.tile_y@, self.lod)
    }

    fn push_row(&self, keys: &mut Vec<TileKey>, window: &TileWindow, only_edge: bool, y: i64)
        ensures
            key_views(final(keys)@) == key_views(old(keys)@) + self.keys(
                window.row(only_edge, window.min_x as int, y as int),
            ),
    {
        let ghost start = key_views(keys@);
        let ghost all = window.row(only_edge, window.min_x as int, y as int);
        let ghost mut done: Seq<(int, int)> = seq![];
        let mut x: i64 = window.min_x;
        let mut more: bool = window.min_x <= window.max_x;
        proof {
            assert(key_views(keys@) =~= start + self.keys(done));
            assert(all =~= done + all);
        }
        while more
            invariant
                more ==> window.min_x <= x <= window.max_x,
                more ==> all == done + window.row(only_edge, x as int, y as int),
                !more ==> all == done,
                key_views(keys@) == start + self.keys(done),
            decreases
                window.max_x - x + if more {
                    1int
                } else {
                    0int
                },
        {
            let edge: bool = x == window.min_x || x == window.max_x || y == window.min_y || y
                == window.max_y;
            let ghost rest = window.row(only_edge, x + 1, y as int);
            if !only_edge || edge {
                let ghost before = keys@;
                let key = TileKey {
                    depth: self.depth,
                    x: self.tile_x.shifted(x),
                    y: self.tile_y.shifted(y),
                    lod: self.lod,
                };
                keys.push(key);
                proof {
                    let place = (x as int, y as int);
                    assert(done + (seq![place] + rest) =~= done.push(place) + rest);
                    assert(self.keys(done.push(place)) =~= self.keys(done).push(key@));
                    assert(key_views(keys@) =~= key_views(before).push(key@));
                    done = done.push(place);
                    assert(key_views(keys@) =~= start + self.keys(done));
                }
            }
            if x == window.max_x {
                more = false;
                assert(rest =~= seq![]);
                assert(all =~= done);
            } else {
                x = x + 1;
            }
        }
    }

    fn push_rows(&self, keys: &mut Vec<TileKey>, window: &TileWindow, only_edge: bool)
        ensures
            key_views(final(keys)@) == key_views(old(keys)@) + self.keys(
                window.rows(only_edge, window.min_y as int),
            ),
    {
        let ghost start = key_views(keys@);
        let ghost all = window.rows(only_edge, window.min_y as int);
        let ghost mut done: Seq<(int, int)> = seq![];
        let mut y: i64 = window.min_y;
        let mut more: bool = window.min_y <= window.max_y;
        proof {
            assert(key_views(keys@) =~= start + self.keys(done));
            assert(all =~= done + all);
        }
        while more
            invariant
                more ==> window.min_y <= y <= window.max_y,
                more ==> all == done + window.rows(only_edge, y as int),
                !more ==> all == done,
                key_views(keys@) == start + self.keys(done),
            decreases
                window.max_y - y + if more {
                    1int
                } else {
                    0int
                },
        {
            self.push_row(keys, window, only_edge, y);
            proof {
                let row = window.row(only_edge, window.min_x as int, y as int);
                let rest = window.rows(only_edge, y + 1);
                assert(done + (row + rest) =~= (done + row) + rest);
                assert(self.keys(done + row) =~= self.keys(done) + self.keys(row));
                assert((start + self.keys(done)) + self.keys(row) =~= start + self.keys(
                    done + row,
                ));
                done = done + row;
            }
            if y == window.max_y {
                more = false;
                assert(window.rows(only_edge, y + 1) =~= seq![]);
                assert(all =~= done);
            } else {
                y = y + 1;
            }
        }
    }

    /// The tiles of a window around the camera, then those of the rings around
    /// the window, as many as are to be prefetched; at most `radius_limit`.
    pub fn tile_keys_for_view(
        &self,
        window: &TileWindow,
        prefetch_radius: u8,
        radius_limit: u8,
    ) -> (keys: Vec<TileKey>)
        ensures
            key_views(keys@) == self.keys(
                window.rings(
                    1 + if prefetch_radius <= radius_limit {
                        prefetch_radius as int
                    } else {
                        radius_limit as int
                    },
                ),
            ),
    {
        let radius: i64 = if prefetch_radius <= radius_limit {
            prefetch_radius as i64
        } else {
            radius_limit as i64
        };
        let mut keys: Vec<TileKey> = Vec::new();
        let mut ring: i64 = 0;
        assert(key_views(keys@) =~= self.keys(window.rings(0)));
        while ring <= radius
            invariant
                0 <= ring <= radius + 1,
                radius <= 255,
                key_views(keys@) == self.keys(window.rings(ring as int)),
            decreases radius + 1 - ring,
        {
            let grown: TileWindow = window.grow(ring);
            self.push_rows(&mut keys, &grown, ring > 0);
            proof {
                let before = window.rings(ring as int);
                let added = window.ring(ring as int);
                assert(window.rings(ring + 1) == before + added);
                assert(self.keys(before + added) =~= self.keys(before) + self.keys(added));
            }
            ring = ring + 1;
        }
        keys
    }
}

proof fn lemma_row(window: TileWindow, only_edge: bool, x: int, y: int)
    ensures
        window.row(only_edge, x, y).no_duplicates(),
        forall|place: (int, int)| #[trigger]
            window.row(only_edge, x, y).contains(place) <==> place.1 == y && x <= place.0
                <= window.max_x && (!only_edge || window.edge(place.0, y)),
    decreases window.max_x - x + 1,
{
    let row = window.row(only_edge, x, y);
    if x <= window.max_x {
        lemma_row(window, only_edge, x + 1, y);
        let rest = window.row(only_edge, x + 1, y);
        if !only_edge || window.edge(x, y) {
            let head = seq![(x, y)];
            assert forall|place: (int, int)| #[trigger] row.contains(place) <==> place.1 == y && x
                <= place.0 <= window.max_x && (!only_edge || window.edge(place.0, y)) by {
                lemma_contained_in_either(head, rest, place);
                assert(head.contains(place) <==> place == (x, y)) by {
                    assert(head[0] == (x, y));
                }
            }
            assert forall|place: (int, int)| #[trigger]
                head.contains(place) implies !rest.contains(place) by {}
            lemma_no_repetition(head, rest);
        }
    }
}

proof fn lemma_rows(window: TileWindow, only_edge: bool, y: int)
    ensures
        window.rows(only_edge, y).no_duplicates(),
        forall|place: (int, int)| #[trigger]
            window.rows(only_edge, y).contains(place) <==> y <= place.1 <= window.max_y
                && window.min_x <= place.0 <= window.max_x && (!only_edge || window.edge(
                place.0,
                place.1,
            )),
    decreases window.max_y - y + 1,
{
    let rows = window.rows(only_edge, y);
    if y <= window.max_y {
        let row = window.row(only_edge, window.min_x as int, y);
        let rest = window.rows(only_edge, y + 1);
        lemma_row(window, only_edge, window.min_x as int, y);
        lemma_rows(window, only_edge, y + 1);
        assert forall|place: (int, int)| #[trigger] rows.contains(place) <==> y <= place.1
            <= window.max_y && window.min_x <= place.0 <= window.max_x && (!only_edge
            || window.edge(place.0, place.1)) by {
            lemma_contained_in_either(row, rest, place);
        }
        lemma_no_repetition(row, rest);
    }
}

impl TileWindow {
    /// The window holds at least one tile, and there are numbers for `ring`
    /// more on each side.
    pub open spec fn has_room(self, ring: int) -> bool {
        &&& self.min_x <= self.max_x
        &&& self.min_y <= self.max_y
        &&& i64::MIN + ring <= self.min_x
        &&& self.max_x <= i64::MAX - ring
        &&& i64::MIN + ring <= self.min_y
        &&& self.max_y <= i64::MAX - ring
    }
}

/// The tiles of a view and of the rings around it are exactly those of the
/// view grown by the rings, each once, where there are numbers for all of them.
pub proof fn law_view_tiles_are_each_once(window: TileWindow, radius: int)
    requires
        0 <= radius,
        window.has_room(radius),
    ensures
        window.rings(1 + radius).no_duplicates(),
        forall|place: (int, int)| #[trigger]
            window.rings(1 + radius).contains(place) <==> window.grown(radius).covers(
                place.0,
                place.1,
            ),
    decreases radius,
{
    let ring = window.ring(radius);
    lemma_rows(window.grown(radius), radius > 0, window.grown(radius).min_y as int);
    if radius > 0 {
        law_view_tiles_are_each_once(window, radius - 1);
        let before = window.rings(radius);
        assert(window.rings(1 + radius) == before + ring);
        assert forall|place: (int, int)| #[trigger]
            window.rings(1 + radius).contains(place) <==> window.grown(radius).covers(
                place.0,
                place.1,
            ) by {
            lemma_contained_in_either(before, ring, place);
        }
        lemma_no_repetition(before, ring);
    } else {
        assert(window.rings(0) + ring =~= ring);
        assert(window.rings(1) == window.rings(0) + ring);
    }
}

/// The tiles in view come before those that are only prefetched, and in the
/// same order as without prefetching.
pub proof fn law_visible_tiles_come_first(window: TileWindow, radius: int)
    requires
        0 <= radius,
    ensures
        window.rings(1).is_prefix_of(window.rings(1 + radius)),
    decreases radius,
{
    if radius > 0 {
        law_visible_tiles_come_first(window, radius - 1);
        let first = window.rings(1);
        let before = window.rings(radius);
        assert(window.rings(1 + radius) == before + window.ring(radius));
        assert(first =~= window.rings(1 + radius).take(first.len() as int));
    } else {
        assert(window.rings(1) =~= window.rings(1).take(window.rings(1).len() as int));
    }
}

/// Tiles are asked for at the origin of the view: each at its place beside the
/// origin's tile, at the depth and the level of detail of the view.
pub proof fn law_tiles_are_at_their_places(origin: TileOrigin, places: Seq<(int, int)>)
    ensures
        origin.keys(places).len() == places.len(),
        forall|i: int|
            0 <= i < places.len() ==> {
                let key = #[trigger] origin.keys(places)[i];
                &&& key.depth == origin.depth
                &&& key.lod == origin.lod
                &&& key.x - origin.tile_x@ == places[i].0
                &&& key.y - origin.tile_y@ == places[i].1
            },
{
}

/// A window with room around it grows by as much on each side.
pub proof fn law_windows_grow_on_every_side(window: TileWindow, ring: int, x: int, y: int)
    requires
        0 <= ring,
        window.has_room(ring),
    ensures
        window.grown(ring).covers(x, y) <==> exists|a: int, b: int| #[trigger]
            window.covers(a, b) && a - ring <= x <= a + ring && b - ring <= y <= b + ring,
{
    if window.grown(ring).covers(x, y) {
        let a = if x < window.min_x {
            window.min_x as int
        } else if x > window.max_x {
            window.max_x as int
        } else {
            x
        };
        let b = if y < window.min_y {
            window.min_y as int
        } else if y > window.max_y {
            window.max_y as int
        } else {
            y
        };
        assert(window.covers(a, b));
    }
}

} // verus!
