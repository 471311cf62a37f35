//! Tiles of different depths.

use crate::tile_index::TileIndex;
use vstd::arithmetic::power::pow;
use vstd::prelude::*;

verus! {

/// How many tiles of the next deeper level one tile holds along an axis.
pub const DEPTH_RATIO: i64 = 8;

/// The bit pattern of the width of a tile on the screen where the zoom is one.
pub const TILE_PIXELS: u64 = 0x4080_0000_0000_0000;

/// The largest number of levels across which a projection is representable.
pub const MAX_PROJECTED_LEVELS: u64 = 340;

impl TileIndex {
    /// The tile that lies `by` tiles further.
    pub fn shifted(&self, by: i64) -> (index: Self)
        ensures
            index@ == self@ + by,
    {
        self.sum(&TileIndex::from_number(by))
    }
}

/// The number of tiles along an axis across so many levels; none where there are
/// too many levels for it to be held.
pub fn checked_pow_bigint(exponent: u64) -> (tiles: Option<TileIndex>)
    ensures
        match tiles {
            Some(tiles) => exponent <= u32::MAX && tiles@ == pow(8, exponent as nat),
            None => exponent > u32::MAX,
        },
{
    if exponent > u32::MAX as u64 {
        return None;
    }
    Some(TileIndex::from_number(DEPTH_RATIO).power(exponent as u32))
}

/// A point as the camera sees it along an axis: so many whole tiles of the
/// deeper one of both levels away, and so many levels off.
pub struct RelativeTile {
    pub offset: TileIndex,
    pub levels: u64,
    /// Whether the camera is at the deeper level, or at the same one.
    pub camera_is_deeper: bool,
}

/// The levels from the point to the camera, as far as they can be counted.
pub open spec fn levels_to_camera(camera_depth: i64, point_depth: i64) -> int {
    let delta = camera_depth - point_depth;
    if delta > i64::MAX {
        i64::MAX as int
    } else if delta < i64::MIN {
        i64::MIN as int
    } else {
        delta
    }
}

/// How far a tile is from that of the camera, counted at the deeper one of both
/// levels; none where they are too many levels apart for a projection.
pub fn relative_tile(
    point_depth: i64,
    point_tile: &TileIndex,
    camera_depth: i64,
    camera_tile: &TileIndex,
) -> (relative: Option<RelativeTile>)
    ensures
        ({
            let delta = levels_to_camera(camera_depth, point_depth);
            match relative {
                Some(relative) => {
                    &&& -340 <= delta <= 340
                    &&& relative.camera_is_deeper == (delta >= 0)
                    &&& relative.levels == if delta >= 0 {
                        delta
                    } else {
                        -delta
                    }
                    &&& relative.offset@ == if delta >= 0 {
                        point_tile@ * pow(8, delta as nat) - camera_tile@
                    } else {
                        point_tile@ - camera_tile@ * pow(8, (-delta) as nat)
                    }
                },
                None => delta < -340 || delta > 340,
            }
        }),
{
    let delta: i128 = camera_depth as i128 - point_depth as i128;
    let levels: u64 = if delta < -(MAX_PROJECTED_LEVELS as i128) || delta
        > MAX_PROJECTED_LEVELS as i128 {
        return None;
    } else if delta < 0 {
        (-delta) as u64
    } else {
        delta as u64
    };
    match checked_pow_bigint(levels) {
        Some(factor) => if delta >= 0 {
            Some(
                RelativeTile {
                    offset: point_tile.product(&factor).difference(camera_tile),
                    levels,
                    camera_is_deeper: true,
                },
            )
        } else {
            Some(
                RelativeTile {
                    offset: point_tile.difference(&camera_tile.product(&factor)),
                    levels,
                    camera_is_deeper: false,
                },
            )
        },
        None => None,
    }
}

/// By how many levels a move on the screen is scaled for a point, and whether it
/// is scaled up; none where the levels cannot be counted or are too many.
pub fn screen_delta_levels(point_depth: i64, camera_depth: i64) -> (levels: Option<(u64, bool)>)
    ensures
        ({
            let delta = point_depth - camera_depth;
            match levels {
                Some((levels, scales_up)) => {
                    &&& -340 <= delta <= 340
                    &&& scales_up == (delta >= 0)
                    &&& levels == if delta >= 0 {
                        delta
                    } else {
                        -delta
                    }
                },
                None => delta < -340 || delta > 340,
            }
        }),
{
    let delta: i128 = point_depth as i128 - camera_depth as i128;
    if delta < -(MAX_PROJECTED_LEVELS as i128) || delta > MAX_PROJECTED_LEVELS as i128 {
        None
    } else if delta < 0 {
        Some(((-delta) as u64, false))
    } else {
        Some((delta as u64, true))
    }
}

} // verus!
