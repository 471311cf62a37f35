//! Jumps of the camera to another depth or another tile.

use crate::bookmarks::Bookmark;
use crate::camera::{CameraAddress, CameraView};
use crate::coordinates::{
    coordinate_value, depth_jump, lateral_jump, reachable_depth, trimmed, DepthJump, LateralJump,
    MAX_QUICK_DEPTH, MIN_QUICK_DEPTH,
};
use crate::editor::Editor;
use crate::optics::{jumped_camera, CanvasMeasures, HALF_DOUBLE};
use crate::text::decimal_text;
use crate::tile_index::TileIndex;
use vstd::prelude::*;

verus! {

/// Whether the bookmark at a place is the first one with the id.
pub open spec fn is_first_with_id(bookmarks: Seq<Bookmark>, id: u128, place: int) -> bool {
    &&& 0 <= place < bookmarks.len()
    &&& bookmarks[place].id == id
    &&& forall|k: int| 0 <= k < place ==> (#[trigger] bookmarks[k]).id != id
}

impl Editor {
    /// Jumps to the depth that was asked for, at the same place. Returns what to
    /// tell the user.
    pub fn jump_to_target_depth<M: CanvasMeasures>(
        &mut self,
        camera: &mut CameraAddress,
        measures: &M,
        now: u64,
    ) -> (message: String)
        requires
            old(self).wf(),
            measures.wf(),
        ensures
            final(self).wf(),
            ({
                let target = reachable_depth(old(self).depth_jump_target);
                if target == old(camera).depth {
                    &&& *final(camera) == *old(camera)
                    &&& *final(self) == (Editor { depth_jump_target: target, ..*old(self) })
                    &&& message@ == "Already at depth "@ + decimal_text(target as int)
                } else {
                    &&& final(camera)@ == jumped_camera(measures, old(camera)@, target as int)
                    &&& final(self).follows_camera(*old(self), target, now)
                    &&& message@ == "Depth "@ + decimal_text(target as int)
                }
            }),
    {
        let jump: DepthJump = depth_jump(self.depth_jump_target, camera.depth);
        self.depth_jump_target = jump.target;
        if jump.moves {
            camera.jump_to_depth(measures, jump.target);
            self.mark_zoom_changed(camera.depth, now);
        }
        jump.message
    }

    /// Goes to where a bookmark is. Returns what to tell the user, none where
    /// there is no such bookmark.
    pub fn open_bookmark(&mut self, camera: &mut CameraAddress, id: u128, now: u64) -> (message:
        Option<&'static str>)
        requires
            old(self).wf(),
        ensures
            final(self).wf(),
            forall|i: int|
                is_first_with_id(old(self).bookmarks.bookmarks@, id, i) ==> {
                    let target = (#[trigger] old(self).bookmarks.bookmarks@[i]).camera;
                    &&& final(camera)@ == target@
                    &&& final(self).follows_camera(*old(self), target.depth, now)
                    &&& message is Some
                    &&& message->0@ == "Bookmark opened"@
                },
            (forall|i: int| !is_first_with_id(old(self).bookmarks.bookmarks@, id, i)) ==> {
                &&& *final(camera) == *old(camera)
                &&& *final(self) == *old(self)
                &&& message is None
            },
    {
        let ghost list = self.bookmarks.bookmarks@;
        let mut i: usize = 0;
        while i < self.bookmarks.bookmarks.len()
            invariant
                *self == *old(self),
                *camera == *old(camera),
                self.wf(),
                list == self.bookmarks.bookmarks@,
                i <= list.len(),
                forall|k: int| 0 <= k < i ==> (#[trigger] list[k]).id != id,
            decreases list.len() - i,
        {
            if self.bookmarks.bookmarks[i].id == id {
                assert(is_first_with_id(list, id, i as int));
                *camera = self.bookmarks.bookmarks[i].camera.clone();
                self.mark_zoom_changed(camera.depth, now);
                return Some("Bookmark opened");
            }
            i = i + 1;
        }
        None
    }

    /// Jumps to the tile that was asked for, to the same place in it. Returns
    /// what to tell the user, and whether the camera moved.
    pub fn jump_to_lateral_target(&mut self, camera: &mut CameraAddress, now: u64) -> (result: (
        &'static str,
        bool,
    ))
        requires
            old(self).wf(),
        ensures
            final(self).wf(),
            match (
                coordinate_value(trimmed(old(self).lateral_jump_x@)),
                coordinate_value(trimmed(old(self).lateral_jump_y@)),
            ) {
                (Some(x), Some(y)) => {
                    &&& result.0@ == "Tile position updated"@
                    &&& result.1
                    &&& final(camera)@ == (CameraView { tile_x: x, tile_y: y, ..old(camera)@ })
                    &&& final(self).follows_camera(*old(self), old(camera).depth, now)
                },
                (x, _) => {
                    &&& result.0@ == if x is None {
                        "Invalid Tile X"@
                    } else {
                        "Invalid Tile Y"@
                    }
                    &&& !result.1
                    &&& *final(camera) == *old(camera)
                    &&& *final(self) == *old(self)
                },
            },
    {
        let jump = lateral_jump(self.lateral_jump_x.as_str(), self.lateral_jump_y.as_str());
        let message = jump.message();
        match jump {
            LateralJump::To(tile_x, tile_y) => {
                camera.tile_x = tile_x;
                camera.tile_y = tile_y;
                self.mark_zoom_changed(camera.depth, now);
                (message, true)
            },
            _ => (message, false),
        }
    }

    /// Jumps to the middle of the first tile, at the same depth. Returns what to
    /// tell the user.
    pub fn jump_to_lateral_origin(&mut self, camera: &mut CameraAddress, now: u64) -> (message:
        &'static str)
        requires
            old(self).wf(),
        ensures
            final(self).wf(),
            message@ == "Tile origin"@,
            final(camera)@ == (CameraView {
                tile_x: 0,
                tile_y: 0,
                local_x: HALF_DOUBLE,
                local_y: HALF_DOUBLE,
                ..old(camera)@
            }),
            final(self).lateral_jump_x@ == "0"@,
            final(self).lateral_jump_y@ == "0"@,
            final(self).follows_camera(
                (Editor {
                    lateral_jump_x: final(self).lateral_jump_x,
                    lateral_jump_y: final(self).lateral_jump_y,
                    ..*old(self)
                }),
                old(camera).depth,
                now,
            ),
    {
        camera.tile_x = TileIndex::from_number(0);
        camera.tile_y = TileIndex::from_number(0);
        camera.local_x = HALF_DOUBLE;
        camera.local_y = HALF_DOUBLE;
        self.lateral_jump_x = String::from_str("0");
        self.lateral_jump_y = String::from_str("0");
        self.mark_zoom_changed(camera.depth, now);
        "Tile origin"
    }
}

/// A jump leads to the depth that was asked for wherever that can be jumped
/// to, and a jump to where a jump has led stays there.
pub proof fn law_one_jump_is_enough(depth: i64)
    ensures
        reachable_depth(reachable_depth(depth)) == reachable_depth(depth),
        MIN_QUICK_DEPTH <= depth <= MAX_QUICK_DEPTH ==> reachable_depth(depth) == depth,
{
}

} // verus!
