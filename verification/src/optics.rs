//! How a camera shows the canvas, and how it moves over it and through its
//! depths.

use crate::camera::{
    double_at_most, double_less_than, doubles_match, equal_doubles, is_at_most, is_less_double,
    is_positive_double, law_settled_zoom_shows_the_same_size, positive_double, settle_zoom, settled,
    CameraAddress, CameraView, INFINITE_DOUBLE, ONE_DOUBLE,
};
use crate::coords::{
    levels_to_camera, relative_tile, screen_delta_levels, RelativeTile, DEPTH_RATIO,
};
use crate::model::{is_same_point, within_tile, CanvasPoint, PointView};
use crate::precision::{
    are_near, is_between_levels, is_countable, is_difference, is_floor_step, is_located,
    is_move, is_next_zoom, is_offset, is_on_a_screen, is_panned, is_scaled_down, is_scaled_up,
    is_shown_at, lemma_one, lemma_within_tile, one_unit, signed_units,
};
use crate::tile_index::TileIndex;
use vstd::arithmetic::div_mod::{lemma_fundamental_div_mod, lemma_fundamental_div_mod_converse};
use vstd::arithmetic::power::{lemma_pow0, lemma_pow1, lemma_pow_adds, lemma_pow_positive, pow};
use vstd::prelude::*;

verus! {

/// What showing the canvas rests on that comes from floating-point arithmetic.
/// Local positions, zooms and lengths are bit patterns of double-precision
/// numbers.
pub trait CanvasMeasures {
    /// Everything can be measured.
    spec fn wf(&self) -> bool;

    /// The greatest whole number that is at most the number.
    spec fn floored(&self, number: u64) -> u64;

    /// A whole number as an integer; none where there is no room for it.
    spec fn counted(&self, number: u64) -> Option<i64>;

    /// The sum of two numbers.
    spec fn plus(&self, left: u64, right: u64) -> u64;

    /// A local position, in tiles of the next deeper level.
    spec fn scaled_up(&self, local: u64) -> u64;

    /// A local position in the tile `remainder` of those that a tile of the next
    /// shallower level holds, in that tile.
    spec fn scaled_down(&self, remainder: int, local: u64) -> u64;

    /// A zoom by a factor.
    spec fn multiplied(&self, zoom: u64, factor: u64) -> u64;

    /// The local position of a place on the screen.
    spec fn located(&self, local: u64, screen: u64, extent: u64, zoom: u64) -> u64;

    /// How far a point is from the camera, so many whole tiles and levels off.
    spec fn offset_of(
        &self,
        tiles: int,
        levels: int,
        camera_is_deeper: bool,
        point_local: u64,
        camera_local: u64,
    ) -> Option<u64>;

    /// The place on the screen at an offset from the camera.
    spec fn on_screen(&self, offset: u64, extent: u64, zoom: u64) -> u64;

    /// A local position after the canvas moved under it.
    spec fn panned(&self, local: u64, delta: u64, zoom: u64) -> u64;

    /// The difference of two numbers.
    spec fn less(&self, left: u64, right: u64) -> u64;

    /// Whole tiles and the rest of a local position that moves with the screen;
    /// none where that is not representable.
    spec fn translated(
        &self,
        local: u64,
        delta: u64,
        zoom: u64,
        levels: int,
        scales_up: bool,
    ) -> Option<(int, u64)>;

    /// By how much a transformation moves a place on the screen.
    spec fn moved_by(&self, affine: ScreenAffine, x: u64, y: u64) -> (u64, u64);

    fn floor(&self, number: u64) -> (result: u64)
        requires
            self.wf(),
        ensures
            result == self.floored(number),
    ;

    fn count(&self, number: u64) -> (result: Option<i64>)
        requires
            self.wf(),
        ensures
            result == self.counted(number),
    ;

    fn join(&self, left: u64, right: u64) -> (result: u64)
        requires
            self.wf(),
        ensures
            result == self.plus(left, right),
    ;

    fn scale_up(&self, local: u64) -> (result: u64)
        requires
            self.wf(),
        ensures
            result == self.scaled_up(local),
    ;

    fn scale_down(&self, remainder: i64, local: u64) -> (result: u64)
        requires
            self.wf(),
            0 <= remainder < DEPTH_RATIO,
        ensures
            result == self.scaled_down(remainder as int, local),
    ;

    fn multiply(&self, zoom: u64, factor: u64) -> (result: u64)
        requires
            self.wf(),
        ensures
            result == self.multiplied(zoom, factor),
    ;

    fn locate(&self, local: u64, screen: u64, extent: u64, zoom: u64) -> (result: u64)
        requires
            self.wf(),
        ensures
            result == self.located(local, screen, extent, zoom),
    ;

    fn offset(&self, relative: &RelativeTile, point_local: u64, camera_local: u64) -> (result:
        Option<u64>)
        requires
            self.wf(),
        ensures
            result == self.offset_of(
                relative.offset@,
                relative.levels as int,
                relative.camera_is_deeper,
                point_local,
                camera_local,
            ),
    ;

    fn onto_screen(&self, offset: u64, extent: u64, zoom: u64) -> (result: u64)
        requires
            self.wf(),
        ensures
            result == self.on_screen(offset, extent, zoom),
    ;

    fn pan(&self, local: u64, delta: u64, zoom: u64) -> (result: u64)
        requires
            self.wf(),
        ensures
            result == self.panned(local, delta, zoom),
    ;

    fn subtract(&self, left: u64, right: u64) -> (result: u64)
        requires
            self.wf(),
        ensures
            result == self.less(left, right),
    ;

    fn translate(&self, local: u64, delta: u64, zoom: u64, levels: u64, scales_up: bool) -> (result:
        Option<(TileIndex, u64)>)
        requires
            self.wf(),
        ensures
            parts_view(result) == self.translated(local, delta, zoom, levels as int, scales_up),
    ;

    fn move_by(&self, affine: ScreenAffine, x: u64, y: u64) -> (result: (u64, u64))
        requires
            self.wf(),
        ensures
            result == self.moved_by(affine, x, y),
    ;

    /// How exact taking the whole part off a local position is.
    proof fn lemma_floor(&self, local: u64)
        requires
            self.wf(),
        ensures
            is_floor_step(
                local,
                self.floored(local),
                self.counted(self.floored(local)),
                self.less(local, self.floored(local)),
            ),
            self.less(ONE_DOUBLE, ONE_DOUBLE) == 0,
    ;

    /// How exact a local position is one level deeper.
    proof fn lemma_scale_up(&self, local: u64)
        requires
            self.wf(),
        ensures
            is_scaled_up(local, self.scaled_up(local)),
    ;

    /// How exact a local position is one level shallower.
    proof fn lemma_scale_down(&self, remainder: int, local: u64, exact: u64)
        requires
            self.wf(),
        ensures
            is_scaled_down(remainder, local, exact, self.scaled_down(remainder, local)),
    ;

    /// How far a zoom goes that changes by at most one level.
    proof fn lemma_multiply(&self, zoom: u64, factor: u64)
        requires
            self.wf(),
        ensures
            is_next_zoom(zoom, factor, self.multiplied(zoom, factor)),
    ;

    /// How exact the local position of a place on the screen is.
    proof fn lemma_locate(&self, local: u64, screen: u64, extent: u64, zoom: u64)
        requires
            self.wf(),
        ensures
            is_located(local, screen, extent, zoom, self.located(local, screen, extent, zoom)),
    ;

    /// How exact the offset of a point is that is at most one level away.
    proof fn lemma_offset(
        &self,
        tiles: int,
        levels: int,
        camera_is_deeper: bool,
        point_local: u64,
        camera_local: u64,
    )
        requires
            self.wf(),
        ensures
            is_offset(
                tiles,
                levels,
                camera_is_deeper,
                point_local,
                camera_local,
                self.offset_of(tiles, levels, camera_is_deeper, point_local, camera_local),
            ),
    ;

    /// How exact the place of an offset on the screen is.
    proof fn lemma_onto_screen(&self, offset: u64, extent: u64, zoom: u64)
        requires
            self.wf(),
        ensures
            is_shown_at(offset, extent, zoom, self.on_screen(offset, extent, zoom)),
    ;

    /// How exact a local position is after the canvas moved under it.
    proof fn lemma_pan(&self, local: u64, delta: u64, zoom: u64)
        requires
            self.wf(),
        ensures
            is_panned(local, delta, zoom, self.panned(local, delta, zoom)),
    ;

    /// How exact the difference of two places is.
    proof fn lemma_subtract(&self, left: u64, right: u64)
        requires
            self.wf(),
        ensures
            is_difference(left, right, self.less(left, right)),
    ;

    /// How exact a local position is that moved with the screen.
    proof fn lemma_translate(&self, local: u64, delta: u64, zoom: u64, levels: int, scales_up: bool)
        requires
            self.wf(),
        ensures
            is_move(
                local,
                delta,
                zoom,
                levels,
                scales_up,
                self.translated(local, delta, zoom, levels, scales_up),
            ),
    ;
}

/// What whole tiles and a rest are, mathematically.
pub open spec fn parts_view(parts: Option<(TileIndex, u64)>) -> Option<(int, u64)> {
    match parts {
        Some((whole, rest)) => Some((whole@, rest)),
        None => None,
    }
}

/// A transformation of the screen that keeps a pivot in place: bit patterns of
/// the pivot and of a matrix.
#[derive(Debug, Clone, Copy, PartialEq, Eq, Structural)]
pub struct ScreenAffine {
    pub pivot_x: u64,
    pub pivot_y: u64,
    pub m11: u64,
    pub m12: u64,
    pub m21: u64,
    pub m22: u64,
}

/// Whether a pattern is a finite number.
pub open spec fn is_finite_double(bits: u64) -> bool {
    -INFINITE_DOUBLE < crate::camera::double_rank(bits) < INFINITE_DOUBLE
}

/// Whether a pattern is a finite number.
pub fn finite_double(bits: u64) -> (result: bool)
    ensures
        result == is_finite_double(bits),
{
    if bits >= crate::camera::DOUBLE_SIGN_BIT {
        bits - crate::camera::DOUBLE_SIGN_BIT < INFINITE_DOUBLE
    } else {
        bits < INFINITE_DOUBLE
    }
}

impl ScreenAffine {
    /// Scaling around a pivot; none where the pivot is nowhere, or the scale is
    /// not a finite number greater than zero.
    pub fn uniform_scale(pivot_x: u64, pivot_y: u64, scale: u64) -> (affine: Option<Self>)
        ensures
            affine == if is_finite_double(pivot_x) && is_finite_double(pivot_y)
                && is_positive_double(scale) {
                Some(
                    ScreenAffine { pivot_x, pivot_y, m11: scale, m12: 0, m21: 0, m22: scale },
                )
            } else {
                None
            },
    {
        if !finite_double(pivot_x) || !finite_double(pivot_y) || !positive_double(scale) {
            return None;
        }
        Some(ScreenAffine { pivot_x, pivot_y, m11: scale, m12: 0, m21: 0, m22: scale })
    }
}

/// A position along one axis: a tile, and where in that tile.
pub struct AxisPlace {
    pub tile: int,
    pub local: u64,
}

/// A local position apart: whole tiles, and what is left. What is no finite number
/// is at the start of its tile.
pub open spec fn parted<M: CanvasMeasures>(measures: &M, local: u64) -> (int, u64) {
    let floor = measures.floored(local);
    let split = !equal_doubles(floor, 0) && measures.counted(floor) is Some;
    let tiles = if split {
        measures.counted(floor)->0 as int
    } else {
        0
    };
    let rest = if split {
        measures.less(local, floor)
    } else {
        local
    };
    if !is_finite_double(local) {
        (0, 0)
    } else if is_less_double(rest, 0) {
        (tiles - 1, measures.plus(rest, ONE_DOUBLE))
    } else if is_at_most(ONE_DOUBLE, rest) {
        (tiles + 1, measures.less(rest, ONE_DOUBLE))
    } else {
        (tiles, rest)
    }
}

/// A position with its whole tiles in the tile number.
pub open spec fn normal<M: CanvasMeasures>(measures: &M, place: AxisPlace) -> AxisPlace {
    AxisPlace {
        tile: place.tile + parted(measures, place.local).0,
        local: parted(measures, place.local).1,
    }
}

/// The point at a position along each axis, with its whole tiles in the tile
/// numbers.
pub open spec fn normal_point<M: CanvasMeasures>(
    measures: &M,
    depth: int,
    x: AxisPlace,
    y: AxisPlace,
) -> PointView {
    let along_x = normal(measures, x);
    let along_y = normal(measures, y);
    PointView {
        depth,
        tile_x: along_x.tile,
        tile_y: along_y.tile,
        local_x: along_x.local,
        local_y: along_y.local,
    }
}

/// Whether a local position leads into a tile: one that tiles can be counted by,
/// or none at all.
pub open spec fn leads_into_a_tile(local: u64) -> bool {
    is_countable(local) || !is_finite_double(local)
}

/// The same position, addressed one level deeper.
pub open spec fn deeper<M: CanvasMeasures>(measures: &M, place: AxisPlace) -> AxisPlace {
    normal(
        measures,
        AxisPlace { tile: place.tile * 8, local: measures.scaled_up(place.local) },
    )
}

/// The same position, addressed one level shallower.
pub open spec fn shallower<M: CanvasMeasures>(measures: &M, place: AxisPlace) -> AxisPlace {
    normal(
        measures,
        AxisPlace {
            tile: place.tile / 8,
            local: measures.scaled_down(place.tile % 8, place.local),
        },
    )
}

/// The same position, so many levels deeper.
pub open spec fn descended<M: CanvasMeasures>(
    measures: &M,
    place: AxisPlace,
    levels: nat,
) -> AxisPlace
    decreases levels,
{
    if levels == 0 {
        place
    } else {
        deeper(measures, descended(measures, place, (levels - 1) as nat))
    }
}

/// The same position, so many levels shallower.
pub open spec fn ascended<M: CanvasMeasures>(
    measures: &M,
    place: AxisPlace,
    levels: nat,
) -> AxisPlace
    decreases levels,
{
    if levels == 0 {
        place
    } else {
        shallower(measures, ascended(measures, place, (levels - 1) as nat))
    }
}

/// Where a move by so many levels takes a position: one level after another, and
/// a last look at whole tiles.
pub open spec fn jumped<M: CanvasMeasures>(
    measures: &M,
    place: AxisPlace,
    levels: int,
) -> AxisPlace {
    normal(
        measures,
        if levels >= 0 {
            descended(measures, place, levels as nat)
        } else {
            ascended(measures, place, (-levels) as nat)
        },
    )
}

fn normalize_axis<M: CanvasMeasures>(measures: &M, tile: &mut TileIndex, local: &mut u64)
    requires
        measures.wf(),
    ensures
        (AxisPlace { tile: final(tile)@, local: *final(local) }) == normal(
            measures,
            AxisPlace { tile: old(tile)@, local: *old(local) },
        ),
{
    if !finite_double(*local) {
        *local = 0;
        return;
    }
    let floor: u64 = measures.floor(*local);
    if !doubles_match(floor, 0) {
        if let Some(count) = measures.count(floor) {
            *tile = tile.shifted(count);
            *local = measures.subtract(*local, floor);
        }
    }
    if double_less_than(*local, 0) {
        *tile = tile.shifted(-1);
        *local = measures.join(*local, ONE_DOUBLE);
    } else if double_at_most(ONE_DOUBLE, *local) {
        *tile = tile.shifted(1);
        *local = measures.subtract(*local, ONE_DOUBLE);
    }
}

fn promote_axis<M: CanvasMeasures>(measures: &M, tile: &mut TileIndex, local: &mut u64)
    requires
        measures.wf(),
    ensures
        (AxisPlace { tile: final(tile)@, local: *final(local) }) == deeper(
            measures,
            AxisPlace { tile: old(tile)@, local: *old(local) },
        ),
{
    *tile = tile.product(&TileIndex::from_number(DEPTH_RATIO));
    *local = measures.scale_up(*local);
    normalize_axis(measures, tile, local);
}

fn demote_axis<M: CanvasMeasures>(measures: &M, tile: &mut TileIndex, local: &mut u64)
    requires
        measures.wf(),
    ensures
        (AxisPlace { tile: final(tile)@, local: *final(local) }) == shallower(
            measures,
            AxisPlace { tile: old(tile)@, local: *old(local) },
        ),
{
    let ratio: TileIndex = TileIndex::from_number(DEPTH_RATIO);
    let remainder: i64 = match tile.remainder(&ratio).to_i64() {
        Some(remainder) => remainder,
        None => 0,
    };
    *tile = tile.quotient(&ratio);
    *local = measures.scale_down(remainder, *local);
    normalize_axis(measures, tile, local);
}

impl CameraView {
    /// The position of a camera along the horizontal axis.
    pub open spec fn x(self) -> AxisPlace {
        AxisPlace { tile: self.tile_x, local: self.local_x }
    }

    /// The position of a camera along the vertical axis.
    pub open spec fn y(self) -> AxisPlace {
        AxisPlace { tile: self.tile_y, local: self.local_y }
    }

    /// Both local positions lie within the tile.
    pub open spec fn is_within_its_tile(self) -> bool {
        within_tile(self.local_x) && within_tile(self.local_y)
    }

    /// The camera at another place.
    pub open spec fn at(self, depth: int, x: AxisPlace, y: AxisPlace, zoom: u64) -> CameraView {
        CameraView {
            depth,
            tile_x: x.tile,
            tile_y: y.tile,
            local_x: x.local,
            local_y: y.local,
            zoom,
        }
    }
}

/// A depth so many levels on, as far as depths go.
pub open spec fn depth_after(depth: int, levels: int) -> int {
    if depth + levels > i64::MAX {
        i64::MAX as int
    } else if depth + levels < i64::MIN {
        i64::MIN as int
    } else {
        depth + levels
    }
}

/// The point that a camera shows at a place on the screen.
pub open spec fn pointed<M: CanvasMeasures>(
    measures: &M,
    camera: CameraView,
    screen_x: u64,
    screen_y: u64,
    width: u64,
    height: u64,
) -> PointView {
    normal_point(
        measures,
        camera.depth,
        AxisPlace {
            tile: camera.tile_x,
            local: measures.located(camera.local_x, screen_x, width, camera.zoom),
        },
        AxisPlace {
            tile: camera.tile_y,
            local: measures.located(camera.local_y, screen_y, height, camera.zoom),
        },
    )
}

/// How far a position is from that of the camera along an axis; none where it is
/// too many levels off, or not representable.
pub open spec fn axis_offset<M: CanvasMeasures>(
    measures: &M,
    point_depth: i64,
    point: AxisPlace,
    camera_depth: i64,
    camera: AxisPlace,
) -> Option<u64> {
    let delta = levels_to_camera(camera_depth, point_depth);
    if delta < -340 || delta > 340 {
        None
    } else if delta >= 0 {
        measures.offset_of(
            point.tile * pow(8, delta as nat) - camera.tile,
            delta,
            true,
            point.local,
            camera.local,
        )
    } else {
        measures.offset_of(
            point.tile - camera.tile * pow(8, (-delta) as nat),
            -delta,
            false,
            point.local,
            camera.local,
        )
    }
}

/// Where a camera shows a point.
pub open spec fn projected<M: CanvasMeasures>(
    measures: &M,
    camera: CameraView,
    point: PointView,
    width: u64,
    height: u64,
) -> Option<(u64, u64)> {
    let dx = axis_offset(
        measures,
        point.depth as i64,
        AxisPlace { tile: point.tile_x, local: point.local_x },
        camera.depth as i64,
        camera.x(),
    );
    let dy = axis_offset(
        measures,
        point.depth as i64,
        AxisPlace { tile: point.tile_y, local: point.local_y },
        camera.depth as i64,
        camera.y(),
    );
    if dx is None || dy is None {
        None
    } else {
        Some(
            (
                measures.on_screen(dx->0, width, camera.zoom),
                measures.on_screen(dy->0, height, camera.zoom),
            ),
        )
    }
}

/// A camera after the canvas moved under it.
pub open spec fn panned_by<M: CanvasMeasures>(
    measures: &M,
    camera: CameraView,
    delta_x: u64,
    delta_y: u64,
) -> CameraView {
    camera.at(
        camera.depth,
        normal(
            measures,
            AxisPlace {
                tile: camera.tile_x,
                local: measures.panned(camera.local_x, delta_x, camera.zoom),
            },
        ),
        normal(
            measures,
            AxisPlace {
                tile: camera.tile_y,
                local: measures.panned(camera.local_y, delta_y, camera.zoom),
            },
        ),
        camera.zoom,
    )
}

/// A camera whose zoom was carried over to the depth.
pub open spec fn zoom_settled<M: CanvasMeasures>(measures: &M, camera: CameraView) -> CameraView {
    let (levels, zoom) = settled(camera.zoom);
    camera.at(
        depth_after(camera.depth, levels),
        jumped(measures, camera.x(), levels),
        jumped(measures, camera.y(), levels),
        zoom,
    )
}

/// A camera that zoomed by a factor around a place on the screen, which goes on
/// showing the same point as far as that is representable.
pub open spec fn zoomed_at<M: CanvasMeasures>(
    measures: &M,
    camera: CameraView,
    factor: u64,
    cursor_x: u64,
    cursor_y: u64,
    width: u64,
    height: u64,
) -> CameraView {
    if !is_positive_double(factor) {
        camera
    } else {
        let anchor = pointed(measures, camera, cursor_x, cursor_y, width, height);
        let closer = zoom_settled(
            measures,
            CameraView { zoom: measures.multiplied(camera.zoom, factor), ..camera },
        );
        match projected(measures, closer, anchor, width, height) {
            None => closer,
            Some((x, y)) => panned_by(
                measures,
                closer,
                measures.less(cursor_x, x),
                measures.less(cursor_y, y),
            ),
        }
    }
}

fn relative_axis<M: CanvasMeasures>(
    measures: &M,
    point_depth: i64,
    point_tile: &TileIndex,
    point_local: u64,
    camera_depth: i64,
    camera_tile: &TileIndex,
    camera_local: u64,
) -> (offset: Option<u64>)
    requires
        measures.wf(),
    ensures
        offset == axis_offset(
            measures,
            point_depth,
            AxisPlace { tile: point_tile@, local: point_local },
            camera_depth,
            AxisPlace { tile: camera_tile@, local: camera_local },
        ),
{
    match relative_tile(point_depth, point_tile, camera_depth, camera_tile) {
        Some(relative) => measures.offset(&relative, point_local, camera_local),
        None => None,
    }
}

impl CameraAddress {
    fn normalize_position<M: CanvasMeasures>(&mut self, measures: &M)
        requires
            measures.wf(),
        ensures
            final(self)@ == old(self)@.at(
                old(self)@.depth,
                normal(measures, old(self)@.x()),
                normal(measures, old(self)@.y()),
                old(self)@.zoom,
            ),
    {
        normalize_axis(measures, &mut self.tile_x, &mut self.local_x);
        normalize_axis(measures, &mut self.tile_y, &mut self.local_y);
    }

    fn descend<M: CanvasMeasures>(&mut self, measures: &M, levels: u64)
        requires
            measures.wf(),
        ensures
            final(self)@ == old(self)@.at(
                old(self)@.depth,
                descended(measures, old(self)@.x(), levels as nat),
                descended(measures, old(self)@.y(), levels as nat),
                old(self)@.zoom,
            ),
    {
        let ghost start = self@;
        let mut i: u64 = 0;
        while i < levels
            invariant
                measures.wf(),
                i <= levels,
                start == old(self)@,
                self@ == start.at(
                    start.depth,
                    descended(measures, start.x(), i as nat),
                    descended(measures, start.y(), i as nat),
                    start.zoom,
                ),
            decreases levels - i,
        {
            promote_axis(measures, &mut self.tile_x, &mut self.local_x);
            promote_axis(measures, &mut self.tile_y, &mut self.local_y);
            i = i + 1;
        }
    }

    fn ascend<M: CanvasMeasures>(&mut self, measures: &M, levels: u64)
        requires
            measures.wf(),
        ensures
            final(self)@ == old(self)@.at(
                old(self)@.depth,
                ascended(measures, old(self)@.x(), levels as nat),
                ascended(measures, old(self)@.y(), levels as nat),
                old(self)@.zoom,
            ),
    {
        let ghost start = self@;
        let mut i: u64 = 0;
        while i < levels
            invariant
                measures.wf(),
                i <= levels,
                start == old(self)@,
                self@ == start.at(
                    start.depth,
                    ascended(measures, start.x(), i as nat),
                    ascended(measures, start.y(), i as nat),
                    start.zoom,
                ),
            decreases levels - i,
        {
            demote_axis(measures, &mut self.tile_x, &mut self.local_x);
            demote_axis(measures, &mut self.tile_y, &mut self.local_y);
            i = i + 1;
        }
    }

    fn move_levels<M: CanvasMeasures>(&mut self, measures: &M, levels: i128)
        requires
            measures.wf(),
            -u64::MAX <= levels <= u64::MAX,
        ensures
            final(self)@ == old(self)@.at(
                old(self)@.depth,
                jumped(measures, old(self)@.x(), levels as int),
                jumped(measures, old(self)@.y(), levels as int),
                old(self)@.zoom,
            ),
    {
        if levels >= 0 {
            self.descend(measures, levels as u64);
        } else {
            self.ascend(measures, (-levels) as u64);
        }
        self.normalize_position(measures);
    }

    /// A camera at the middle of the first tile, as close as it was drawn.
    pub fn start() -> (camera: Self)
        ensures
            camera@ == (CameraView {
                depth: 0,
                tile_x: 0,
                tile_y: 0,
                local_x: HALF_DOUBLE,
                local_y: HALF_DOUBLE,
                zoom: ONE_DOUBLE,
            }),
    {
        CameraAddress {
            depth: 0,
            tile_x: TileIndex::from_number(0),
            tile_y: TileIndex::from_number(0),
            local_x: HALF_DOUBLE,
            local_y: HALF_DOUBLE,
            zoom: ONE_DOUBLE,
        }
    }

    /// Goes to another depth at the same place, level by level.
    pub fn jump_to_depth<M: CanvasMeasures>(&mut self, measures: &M, target_depth: i64)
        requires
            measures.wf(),
        ensures
            final(self)@ == jumped_camera(measures, old(self)@, target_depth as int),
            old(self)@.is_within_its_tile() ==> final(self)@.is_within_its_tile(),
    {
        proof {
            if self@.is_within_its_tile() {
                law_jumps_end_within_a_tile(measures, self@.x(), target_depth - self.depth);
                law_jumps_end_within_a_tile(measures, self@.y(), target_depth - self.depth);
            }
        }
        let levels: i128 = target_depth as i128 - self.depth as i128;
        self.move_levels(measures, levels);
        self.depth = target_depth;
    }

    /// Carries the zoom over to the depth, until it lies between one and eight.
    pub fn normalize_zoom<M: CanvasMeasures>(&mut self, measures: &M)
        requires
            measures.wf(),
            is_positive_double(old(self)@.zoom),
        ensures
            final(self)@ == zoom_settled(measures, old(self)@),
            is_between_levels(final(self).zoom),
            old(self)@.is_within_its_tile() ==> final(self)@.is_within_its_tile(),
    {
        let (levels, zoom): (i64, u64) = settle_zoom(self.zoom);
        proof {
            law_settled_zoom_shows_the_same_size(self.zoom);
            if self@.is_within_its_tile() {
                law_jumps_end_within_a_tile(measures, self@.x(), levels as int);
                law_jumps_end_within_a_tile(measures, self@.y(), levels as int);
            }
        }
        self.move_levels(measures, levels as i128);
        self.zoom = zoom;
        let depth: i128 = self.depth as i128 + levels as i128;
        self.depth = if depth > i64::MAX as i128 {
            i64::MAX
        } else if depth < i64::MIN as i128 {
            i64::MIN
        } else {
            depth as i64
        };
    }

    /// The point that the camera looks at.
    pub fn center_point<M: CanvasMeasures>(&self, measures: &M) -> (point: CanvasPoint)
        requires
            measures.wf(),
        ensures
            point@ == normal_point(measures, self@.depth, self@.x(), self@.y()),
            leads_into_a_tile(self.local_x) && leads_into_a_tile(self.local_y) ==> point.wf(),
            self@.is_within_its_tile() ==> point@ == (PointView {
                depth: self@.depth,
                tile_x: self@.tile_x,
                tile_y: self@.tile_y,
                local_x: self@.local_x,
                local_y: self@.local_y,
            }),
    {
        CanvasPoint::new(
            measures,
            self.depth,
            &self.tile_x,
            &self.tile_y,
            self.local_x,
            self.local_y,
        )
    }

    /// The point that the camera shows at a place on the screen.
    pub fn screen_to_canvas<M: CanvasMeasures>(
        &self,
        measures: &M,
        screen_x: u64,
        screen_y: u64,
        viewport_width: u64,
        viewport_height: u64,
    ) -> (point: CanvasPoint)
        requires
            measures.wf(),
        ensures
            point@ == pointed(
                measures,
                self@,
                screen_x,
                screen_y,
                viewport_width,
                viewport_height,
            ),
            self@.is_within_its_tile() && is_between_levels(self.zoom) && is_on_a_screen(screen_x)
                && is_on_a_screen(screen_y) && is_on_a_screen(viewport_width) && is_on_a_screen(
                viewport_height,
            ) ==> point.wf(),
    {
        let local_x: u64 = measures.locate(self.local_x, screen_x, viewport_width, self.zoom);
        let local_y: u64 = measures.locate(self.local_y, screen_y, viewport_height, self.zoom);
        proof {
            measures.lemma_locate(self.local_x, screen_x, viewport_width, self.zoom);
            measures.lemma_locate(self.local_y, screen_y, viewport_height, self.zoom);
        }
        CanvasPoint::new(measures, self.depth, &self.tile_x, &self.tile_y, local_x, local_y)
    }

    /// Where the camera shows a point; none where that is not representable.
    pub fn canvas_to_screen<M: CanvasMeasures>(
        &self,
        measures: &M,
        point: &CanvasPoint,
        viewport_width: u64,
        viewport_height: u64,
    ) -> (place: Option<(u64, u64)>)
        requires
            measures.wf(),
        ensures
            place == projected(measures, self@, point@, viewport_width, viewport_height),
    {
        let dx: Option<u64> = relative_axis(
            measures,
            point.depth,
            &point.tile_x,
            point.local_x,
            self.depth,
            &self.tile_x,
            self.local_x,
        );
        let dy: Option<u64> = relative_axis(
            measures,
            point.depth,
            &point.tile_y,
            point.local_y,
            self.depth,
            &self.tile_y,
            self.local_y,
        );
        match (dx, dy) {
            (Some(dx), Some(dy)) => Some(
                (
                    measures.onto_screen(dx, viewport_width, self.zoom),
                    measures.onto_screen(dy, viewport_height, self.zoom),
                ),
            ),
            _ => None,
        }
    }

    /// Moves the canvas under the camera.
    pub fn pan_content_by<M: CanvasMeasures>(&mut self, measures: &M, delta_x: u64, delta_y: u64)
        requires
            measures.wf(),
        ensures
            final(self)@ == panned_by(measures, old(self)@, delta_x, delta_y),
    {
        self.local_x = measures.pan(self.local_x, delta_x, self.zoom);
        self.local_y = measures.pan(self.local_y, delta_y, self.zoom);
        self.normalize_position(measures);
    }

    /// Zooms by a factor around a place on the screen, which goes on showing the
    /// same point as far as that is representable. A factor that is not a finite
    /// number greater than zero changes nothing.
    pub fn zoom_at<M: CanvasMeasures>(
        &mut self,
        measures: &M,
        factor: u64,
        cursor_x: u64,
        cursor_y: u64,
        viewport_width: u64,
        viewport_height: u64,
    )
        requires
            measures.wf(),
            is_positive_double(factor) ==> is_positive_double(
                measures.multiplied(old(self)@.zoom, factor),
            ),
        ensures
            final(self)@ == zoomed_at(
                measures,
                old(self)@,
                factor,
                cursor_x,
                cursor_y,
                viewport_width,
                viewport_height,
            ),
    {
        if !positive_double(factor) {
            return;
        }
        let anchor: CanvasPoint = self.screen_to_canvas(
            measures,
            cursor_x,
            cursor_y,
            viewport_width,
            viewport_height,
        );
        self.zoom = measures.multiply(self.zoom, factor);
        self.normalize_zoom(measures);
        if let Some((x, y)) = self.canvas_to_screen(
            measures,
            &anchor,
            viewport_width,
            viewport_height,
        ) {
            let delta_x: u64 = measures.subtract(cursor_x, x);
            let delta_y: u64 = measures.subtract(cursor_y, y);
            self.pan_content_by(measures, delta_x, delta_y);
        }
    }
}

/// The bit pattern of a half.
pub const HALF_DOUBLE: u64 = 0x3fe0_0000_0000_0000;

/// Where a point goes that moves with the screen; none where the move is nowhere,
/// too many levels off or not representable, or too small to be one.
pub open spec fn translated_point<M: CanvasMeasures>(
    measures: &M,
    point: PointView,
    camera_depth: i64,
    camera_zoom: u64,
    delta_x: u64,
    delta_y: u64,
) -> Option<PointView> {
    let delta = point.depth - camera_depth;
    let levels = if delta >= 0 {
        delta
    } else {
        -delta
    };
    let along_x = measures.translated(point.local_x, delta_x, camera_zoom, levels, delta >= 0);
    let along_y = measures.translated(point.local_y, delta_y, camera_zoom, levels, delta >= 0);
    if !is_positive_double(camera_zoom) || !is_finite_double(delta_x) || !is_finite_double(delta_y)
        || levels > 340 || along_x is None || along_y is None {
        None
    } else {
        let (whole_x, rest_x) = along_x->0;
        let (whole_y, rest_y) = along_y->0;
        let moved = normal_point(
            measures,
            point.depth,
            AxisPlace { tile: point.tile_x + whole_x, local: rest_x },
            AxisPlace { tile: point.tile_y + whole_y, local: rest_y },
        );
        let asked = !equal_doubles(delta_x, 0) || !equal_doubles(delta_y, 0);
        if asked && is_same_point(moved, point) {
            None
        } else {
            Some(moved)
        }
    }
}

/// What an optional point is, mathematically.
pub open spec fn point_view(point: Option<CanvasPoint>) -> Option<PointView> {
    match point {
        Some(point) => Some(point@),
        None => None,
    }
}

impl CanvasPoint {
    /// The point at local coordinates that may lie outside of the tile: whole tiles
    /// count for the tile, and what is no finite number is at its start.
    pub fn new<M: CanvasMeasures>(
        measures: &M,
        depth: i64,
        tile_x: &TileIndex,
        tile_y: &TileIndex,
        local_x: u64,
        local_y: u64,
    ) -> (point: Self)
        requires
            measures.wf(),
        ensures
            point@ == normal_point(
                measures,
                depth as int,
                AxisPlace { tile: tile_x@, local: local_x },
                AxisPlace { tile: tile_y@, local: local_y },
            ),
            leads_into_a_tile(local_x) && leads_into_a_tile(local_y) ==> point.wf(),
            within_tile(local_x) && within_tile(local_y) ==> point@ == (PointView {
                depth: depth as int,
                tile_x: tile_x@,
                tile_y: tile_y@,
                local_x,
                local_y,
            }),
    {
        let mut point = CanvasPoint::in_tile(depth, tile_x, tile_y, local_x, local_y);
        normalize_axis(measures, &mut point.tile_x, &mut point.local_x);
        normalize_axis(measures, &mut point.tile_y, &mut point.local_y);
        proof {
            lemma_parted(measures, local_x);
            lemma_parted(measures, local_y);
        }
        point
    }

    /// Where the point goes when it moves with the screen.
    pub fn translated_by_screen_delta<M: CanvasMeasures>(
        &self,
        measures: &M,
        camera_depth: i64,
        camera_zoom: u64,
        delta_x: u64,
        delta_y: u64,
    ) -> (point: Option<CanvasPoint>)
        requires
            measures.wf(),
        ensures
            point_view(point) == translated_point(
                measures,
                self@,
                camera_depth,
                camera_zoom,
                delta_x,
                delta_y,
            ),
            point matches Some(point) ==> point.wf(),
    {
        if !positive_double(camera_zoom) || !finite_double(delta_x) || !finite_double(delta_y) {
            return None;
        }
        let (levels, scales_up): (u64, bool) = match screen_delta_levels(self.depth, camera_depth) {
            Some(levels) => levels,
            None => {
                return None;
            },
        };
        let along_x: Option<(TileIndex, u64)> = measures.translate(
            self.local_x,
            delta_x,
            camera_zoom,
            levels,
            scales_up,
        );
        let along_y: Option<(TileIndex, u64)> = measures.translate(
            self.local_y,
            delta_y,
            camera_zoom,
            levels,
            scales_up,
        );
        proof {
            let depth_levels = levels as int;
            measures.lemma_translate(self.local_x, delta_x, camera_zoom, depth_levels, scales_up);
            measures.lemma_translate(self.local_y, delta_y, camera_zoom, depth_levels, scales_up);
        }
        match (along_x, along_y) {
            (Some((whole_x, rest_x)), Some((whole_y, rest_y))) => {
                let tile_x: TileIndex = self.tile_x.sum(&whole_x);
                let tile_y: TileIndex = self.tile_y.sum(&whole_y);
                let moved = CanvasPoint::new(
                    measures,
                    self.depth,
                    &tile_x,
                    &tile_y,
                    rest_x,
                    rest_y,
                );
                let asked: bool = !doubles_match(delta_x, 0) || !doubles_match(delta_y, 0);
                if asked && moved == *self {
                    None
                } else {
                    Some(moved)
                }
            },
            _ => None,
        }
    }
}

impl ScreenAffine {
    /// Where a point goes when a camera's view of it is transformed; none where
    /// there is no view, or that is not representable.
    pub fn transform_canvas_point<M: CanvasMeasures>(
        self,
        measures: &M,
        point: &CanvasPoint,
        camera: &CameraAddress,
        viewport_width: u64,
        viewport_height: u64,
    ) -> (result: Option<CanvasPoint>)
        requires
            measures.wf(),
        ensures
            point_view(result) == if !is_positive_double(viewport_width) || !is_positive_double(
                viewport_height,
            ) {
                None
            } else {
                match projected(measures, camera@, point@, viewport_width, viewport_height) {
                    None => None,
                    Some((x, y)) => translated_point(
                        measures,
                        point@,
                        camera.depth,
                        camera.zoom,
                        measures.moved_by(self, x, y).0,
                        measures.moved_by(self, x, y).1,
                    ),
                }
            },
    {
        if !positive_double(viewport_width) || !positive_double(viewport_height) {
            return None;
        }
        match camera.canvas_to_screen(measures, point, viewport_width, viewport_height) {
            None => None,
            Some((x, y)) => {
                let (delta_x, delta_y): (u64, u64) = measures.move_by(self, x, y);
                point.translated_by_screen_delta(
                    measures,
                    camera.depth,
                    camera.zoom,
                    delta_x,
                    delta_y,
                )
            },
        }
    }
}

/// Whether both are the same position.
pub open spec fn same_place(left: AxisPlace, right: AxisPlace) -> bool {
    left.tile == right.tile && equal_doubles(left.local, right.local)
}

/// Where a position along an axis is, in units of the least number there is.
pub open spec fn place_units(place: AxisPlace) -> int {
    place.tile * one_unit() + signed_units(place.local)
}

/// A local position that can be counted by tiles, or is no finite number, comes
/// apart into whole tiles and a position within a tile, and hardly anything is
/// lost: nothing where it is not negative.
pub(crate) proof fn lemma_parted<M: CanvasMeasures>(measures: &M, local: u64)
    requires
        measures.wf(),
    ensures
        ({
            let (tiles, rest) = parted(measures, local);
            &&& !is_finite_double(local) ==> (tiles, rest) == (0int, 0u64)
            &&& is_countable(local) || !is_finite_double(local) ==> within_tile(rest)
            &&& is_countable(local) ==> are_near(
                signed_units(rest) + tiles * one_unit(),
                signed_units(local),
                0x40_0000_0000_0000,
                one_unit(),
            )
            &&& is_countable(local) && is_at_most(0, local) ==> signed_units(rest) + tiles
                * one_unit() == signed_units(local)
            &&& within_tile(local) ==> (tiles, rest) == (0int, local)
        }),
{
    measures.lemma_floor(local);
    lemma_one();
    let floor = measures.floored(local);
    if is_countable(local) && !within_tile(local) {
        let count = measures.counted(floor)->0 as int;
        let rest = measures.less(local, floor);
        let unit = one_unit();
        assert((count + 1) * unit == count * unit + unit) by (nonlinear_arith);
        if is_at_most(ONE_DOUBLE, rest) {
            assert(rest == ONE_DOUBLE);
            assert(parted(measures, local) == (count + 1, 0u64));
        } else {
            assert(parted(measures, local) == (count, rest));
        }
    } else if within_tile(local) {
        assert(parted(measures, local) == (0int, local));
        assert(0 * one_unit() == 0);
    }
}

proof fn lemma_normal<M: CanvasMeasures>(measures: &M, place: AxisPlace)
    requires
        measures.wf(),
        within_tile(place.local),
    ensures
        normal(measures, place) == place,
{
    lemma_parted(measures, place.local);
}

pub(crate) proof fn lemma_deeper<M: CanvasMeasures>(measures: &M, place: AxisPlace)
    requires
        measures.wf(),
        within_tile(place.local),
    ensures
        ({
            let below = deeper(measures, place);
            &&& within_tile(below.local)
            &&& 8 * place.tile <= below.tile < 8 * place.tile + 8
            &&& place_units(below) == 8 * place_units(place)
        }),
{
    let up = measures.scaled_up(place.local);
    let below = deeper(measures, place);
    let unit = one_unit();
    let whole = parted(measures, up).0;
    measures.lemma_scale_up(place.local);
    lemma_parted(measures, up);
    lemma_one();
    lemma_within_tile(place.local);
    lemma_within_tile(below.local);
    assert(0 <= whole < 8) by (nonlinear_arith)
        requires
            -unit < whole * unit < 8 * unit,
            unit > 0,
    ;
    assert((place.tile * 8 + whole) * unit == 8 * (place.tile * unit) + whole * unit)
        by (nonlinear_arith);
}

pub(crate) proof fn lemma_shallower<M: CanvasMeasures>(measures: &M, place: AxisPlace)
    requires
        measures.wf(),
        within_tile(place.local),
    ensures
        ({
            let above = shallower(measures, place);
            &&& within_tile(above.local)
            &&& are_near(
                8 * place_units(above),
                place_units(place),
                0x4_0000_0000_0000,
                one_unit(),
            )
        }),
{
    let unit = one_unit();
    let remainder = place.tile % 8;
    let quotient = place.tile / 8;
    let down = measures.scaled_down(remainder, place.local);
    measures.lemma_scale_down(remainder, place.local, 0);
    lemma_parted(measures, down);
    lemma_one();
    let whole = parted(measures, down).0;
    assert((quotient + whole) * unit == quotient * unit + whole * unit) by (nonlinear_arith);
    assert(place.tile * unit == 8 * (quotient * unit) + remainder * unit) by (nonlinear_arith)
        requires
            place.tile == 8 * quotient + remainder,
    ;
}

proof fn lemma_descended<M: CanvasMeasures>(measures: &M, place: AxisPlace, levels: nat)
    requires
        measures.wf(),
        within_tile(place.local),
    ensures
        ({
            let end = descended(measures, place, levels);
            &&& within_tile(end.local)
            &&& pow(8, levels) * place.tile <= end.tile < pow(8, levels) * (place.tile + 1)
        }),
    decreases levels,
{
    if levels == 0 {
        lemma_pow0(8);
    } else {
        let less = (levels - 1) as nat;
        lemma_descended(measures, place, less);
        lemma_deeper(measures, descended(measures, place, less));
        lemma_pow1(8);
        lemma_pow_adds(8, 1, less);
        let below = pow(8, less);
        assert(pow(8, levels) == 8 * below);
        assert(8 * below * place.tile == 8 * (below * place.tile)) by (nonlinear_arith);
        assert(8 * below * (place.tile + 1) == 8 * (below * (place.tile + 1)))
            by (nonlinear_arith);
    }
}

proof fn lemma_quotient_of_quotient(number: int, first: int, second: int)
    requires
        first > 0,
        second > 0,
    ensures
        (number / first) / second == number / (first * second),
{
    let once = number / first;
    let twice = once / second;
    let rest = first * (once % second) + number % first;
    lemma_fundamental_div_mod(number, first);
    lemma_fundamental_div_mod(once, second);
    assert(first * (second * twice + once % second) == twice * (first * second) + first * (once
        % second)) by (nonlinear_arith);
    assert(0 <= rest < first * second) by (nonlinear_arith)
        requires
            rest == first * (once % second) + number % first,
            0 <= once % second < second,
            0 <= number % first < first,
    ;
    assert(first * second > 0) by (nonlinear_arith)
        requires
            first > 0,
            second > 0,
    ;
    lemma_fundamental_div_mod_converse(number, first * second, twice, rest);
}

/// Whether every step to a shallower level, up to so many, stays within the tile
/// that holds the one before: none is rounded over its edge.
pub open spec fn climbs_inside<M: CanvasMeasures>(
    measures: &M,
    place: AxisPlace,
    levels: nat,
) -> bool {
    forall|step: nat|
        step < levels ==> {
            let below = #[trigger] ascended(measures, place, step);
            within_tile(measures.scaled_down(below.tile % 8, below.local))
        }
}

proof fn lemma_ascended<M: CanvasMeasures>(measures: &M, place: AxisPlace, levels: nat)
    requires
        measures.wf(),
        within_tile(place.local),
    ensures
        ({
            let end = ascended(measures, place, levels);
            &&& within_tile(end.local)
            &&& climbs_inside(measures, place, levels) ==> end.tile == place.tile / pow(8, levels)
        }),
    decreases levels,
{
    if levels == 0 {
        lemma_pow0(8);
    } else {
        let less = (levels - 1) as nat;
        lemma_ascended(measures, place, less);
        let below = ascended(measures, place, less);
        lemma_shallower(measures, below);
        lemma_parted(measures, measures.scaled_down(below.tile % 8, below.local));
        lemma_pow1(8);
        lemma_pow_adds(8, less, 1);
        lemma_pow_positive(8, less);
        lemma_quotient_of_quotient(place.tile, pow(8, less), 8);
        assert(pow(8, levels) == pow(8, less) * 8);
    }
}

/// However far a camera jumps, it stays within its tile along each axis.
pub proof fn law_jumps_end_within_a_tile<M: CanvasMeasures>(
    measures: &M,
    place: AxisPlace,
    levels: int,
)
    requires
        measures.wf(),
        within_tile(place.local),
    ensures
        within_tile(jumped(measures, place, levels).local),
{
    if levels >= 0 {
        lemma_descended(measures, place, levels as nat);
        lemma_normal(measures, descended(measures, place, levels as nat));
    } else {
        lemma_ascended(measures, place, (-levels) as nat);
        lemma_normal(measures, ascended(measures, place, (-levels) as nat));
    }
}

/// Where a jump by at most one level ends, in units.
pub(crate) proof fn lemma_jumped_by_a_level<M: CanvasMeasures>(
    measures: &M,
    place: AxisPlace,
    levels: int,
)
    requires
        measures.wf(),
        within_tile(place.local),
        -1 <= levels <= 1,
    ensures
        ({
            let end = jumped(measures, place, levels);
            &&& within_tile(end.local)
            &&& levels == 0 ==> end == place
            &&& levels == 1 ==> place_units(end) == 8 * place_units(place)
            &&& levels == -1 ==> are_near(
                8 * place_units(end),
                place_units(place),
                0x4_0000_0000_0000,
                one_unit(),
            )
        }),
{
    reveal_with_fuel(descended, 2);
    reveal_with_fuel(ascended, 2);
    law_jumps_end_within_a_tile(measures, place, levels);
    if levels == 0 {
        lemma_normal(measures, place);
    } else if levels == 1 {
        lemma_deeper(measures, place);
        lemma_normal(measures, deeper(measures, place));
    } else {
        lemma_shallower(measures, place);
        lemma_normal(measures, shallower(measures, place));
    }
}

/// A jump to a deeper level ends in one of the tiles that the starting tile
/// holds there.
pub proof fn law_jump_deeper_stays_in_its_tile<M: CanvasMeasures>(
    measures: &M,
    place: AxisPlace,
    levels: nat,
)
    requires
        measures.wf(),
        within_tile(place.local),
    ensures
        jumped(measures, place, levels as int).tile / pow(8, levels) == place.tile,
{
    let end = jumped(measures, place, levels as int);
    lemma_descended(measures, place, levels);
    lemma_normal(measures, descended(measures, place, levels));
    lemma_pow_positive(8, levels);
    let size = pow(8, levels);
    assert(size * (place.tile + 1) == size * place.tile + size) by (nonlinear_arith);
    assert(size * place.tile == place.tile * size) by (nonlinear_arith);
    lemma_fundamental_div_mod_converse(end.tile, size, place.tile, end.tile - place.tile * size);
}

/// A jump to a shallower level ends in the tile that holds the starting one,
/// where no step on the way is rounded over an edge.
pub proof fn law_jump_shallower_ends_in_the_tile_around<M: CanvasMeasures>(
    measures: &M,
    place: AxisPlace,
    levels: nat,
)
    requires
        measures.wf(),
        within_tile(place.local),
        climbs_inside(measures, place, levels),
    ensures
        jumped(measures, place, -levels).tile == place.tile / pow(8, levels),
{
    lemma_ascended(measures, place, levels);
    lemma_normal(measures, ascended(measures, place, levels));
}

proof fn lemma_ascended_from<M: CanvasMeasures>(measures: &M, place: AxisPlace, levels: nat)
    ensures
        ascended(measures, place, levels + 1) == ascended(
            measures,
            shallower(measures, place),
            levels,
        ),
    decreases levels,
{
    reveal_with_fuel(ascended, 2);
    if levels > 0 {
        lemma_ascended_from(measures, place, (levels - 1) as nat);
    }
}

proof fn lemma_step_back<M: CanvasMeasures>(measures: &M, start: AxisPlace, below: AxisPlace)
    requires
        measures.wf(),
        within_tile(start.local),
        within_tile(below.local),
        same_place(below, deeper(measures, start)),
    ensures
        within_tile(shallower(measures, below).local),
        same_place(shallower(measures, below), start),
{
    let reached = deeper(measures, start);
    let unit = one_unit();
    let remainder = below.tile % 8;
    let whole = reached.tile - 8 * start.tile;
    lemma_deeper(measures, start);
    assert(below.tile / 8 == start.tile && remainder == whole);
    assert(signed_units(below.local) == signed_units(reached.local)) by {
        assert(below.local == reached.local || (signed_units(below.local) == 0 && signed_units(
            reached.local,
        ) == 0)) by {
            lemma_one();
        }
    }
    assert((8 * start.tile + whole) * unit == 8 * (start.tile * unit) + whole * unit)
        by (nonlinear_arith);
    measures.lemma_scale_down(remainder, below.local, start.local);
    let down = measures.scaled_down(remainder, below.local);
    assert(within_tile(down));
    lemma_parted(measures, down);
}

proof fn lemma_way_back<M: CanvasMeasures>(
    measures: &M,
    start: AxisPlace,
    below: AxisPlace,
    levels: nat,
)
    requires
        measures.wf(),
        within_tile(start.local),
        within_tile(below.local),
        same_place(below, descended(measures, start, levels)),
    ensures
        within_tile(ascended(measures, below, levels).local),
        same_place(ascended(measures, below, levels), start),
    decreases levels,
{
    if levels > 0 {
        let less = (levels - 1) as nat;
        lemma_descended(measures, start, less);
        lemma_step_back(measures, descended(measures, start, less), below);
        lemma_way_back(measures, start, shallower(measures, below), less);
        lemma_ascended_from(measures, below, less);
    }
}

/// A jump to a deeper level and back ends where it started: in the same tile, at
/// the same place in it.
pub proof fn law_jump_deeper_and_back<M: CanvasMeasures>(
    measures: &M,
    place: AxisPlace,
    levels: nat,
)
    requires
        measures.wf(),
        within_tile(place.local),
    ensures
        same_place(jumped(measures, jumped(measures, place, levels as int), -levels), place),
{
    let reached = descended(measures, place, levels);
    lemma_descended(measures, place, levels);
    lemma_normal(measures, reached);
    if levels > 0 {
        lemma_way_back(measures, place, reached, levels);
        lemma_normal(measures, ascended(measures, reached, levels));
    }
}

/// Where a jump to another depth takes a camera.
pub open spec fn jumped_camera<M: CanvasMeasures>(
    measures: &M,
    camera: CameraView,
    target_depth: int,
) -> CameraView {
    camera.at(
        target_depth,
        jumped(measures, camera.x(), target_depth - camera.depth),
        jumped(measures, camera.y(), target_depth - camera.depth),
        camera.zoom,
    )
}

/// A camera that jumps to a deeper level and back shows what it showed: the same
/// place, at the same depth, as closely.
pub proof fn law_camera_jump_deeper_and_back<M: CanvasMeasures>(
    measures: &M,
    camera: CameraView,
    levels: nat,
)
    requires
        measures.wf(),
        camera.is_within_its_tile(),
    ensures
        ({
            let away = jumped_camera(measures, camera, camera.depth + levels);
            let back = jumped_camera(measures, away, camera.depth);
            &&& away.depth == camera.depth + levels
            &&& away.zoom == camera.zoom
            &&& away.is_within_its_tile()
            &&& back.depth == camera.depth
            &&& same_place(back.x(), camera.x())
            &&& same_place(back.y(), camera.y())
            &&& back.zoom == camera.zoom
        }),
{
    law_jumps_end_within_a_tile(measures, camera.x(), levels as int);
    law_jumps_end_within_a_tile(measures, camera.y(), levels as int);
    law_jump_deeper_and_back(measures, camera.x(), levels);
    law_jump_deeper_and_back(measures, camera.y(), levels);
}

/// Measures that come from functions.
pub struct CanvasFunctions<S, K, E, U, D, T, Q, O, J, P, N, V, W> {
    pub floor: S,
    pub count: K,
    pub join: E,
    pub scale_up: U,
    pub scale_down: D,
    pub multiply: T,
    pub locate: Q,
    pub offset: O,
    pub onto_screen: J,
    pub pan: P,
    pub subtract: N,
    pub translate: V,
    pub move_by: W,
}

impl<S, K, E, U, D, T, Q, O, J, P, N, V, W> CanvasFunctions<
    S,
    K,
    E,
    U,
    D,
    T,
    Q,
    O,
    J,
    P,
    N,
    V,
    W,
> where
    O: Fn(&RelativeTile, u64, u64) -> Option<u64>,
    V: Fn(u64, u64, u64, u64, bool) -> Option<(TileIndex, u64)>,
 {
    /// `answer` may be how far a point is from the camera.
    pub open spec fn offsets(
        self,
        tiles: int,
        levels: int,
        camera_is_deeper: bool,
        point_local: u64,
        camera_local: u64,
        answer: Option<u64>,
    ) -> bool {
        exists|relative: RelativeTile|
            relative.offset@ == tiles && relative.levels == levels && relative.camera_is_deeper
                == camera_is_deeper && #[trigger] call_ensures(
                self.offset,
                (&relative, point_local, camera_local),
                answer,
            )
    }

    /// `answer` may be where a local position moves.
    pub open spec fn translates(
        self,
        local: u64,
        delta: u64,
        zoom: u64,
        levels: int,
        scales_up: bool,
        answer: Option<(int, u64)>,
    ) -> bool {
        exists|parts: Option<(TileIndex, u64)>|
            parts_view(parts) == answer && 0 <= levels <= u64::MAX && #[trigger] call_ensures(
                self.translate,
                (local, delta, zoom, levels as u64, scales_up),
                parts,
            )
    }
}

impl<S, K, E, U, D, T, Q, O, J, P, N, V, W> CanvasMeasures for CanvasFunctions<
    S,
    K,
    E,
    U,
    D,
    T,
    Q,
    O,
    J,
    P,
    N,
    V,
    W,
> where
    S: Fn(u64) -> u64,
    K: Fn(u64) -> Option<i64>,
    E: Fn(u64, u64) -> u64,
    U: Fn(u64) -> u64,
    D: Fn(i64, u64) -> u64,
    T: Fn(u64, u64) -> u64,
    Q: Fn(u64, u64, u64, u64) -> u64,
    O: Fn(&RelativeTile, u64, u64) -> Option<u64>,
    J: Fn(u64, u64, u64) -> u64,
    P: Fn(u64, u64, u64) -> u64,
    N: Fn(u64, u64) -> u64,
    V: Fn(u64, u64, u64, u64, bool) -> Option<(TileIndex, u64)>,
    W: Fn(ScreenAffine, u64, u64) -> (u64, u64),
 {
    /// Everything can be asked, asking twice gives the same answer, and the answers
    /// are as precise as those of arithmetic that rounds to the nearest number.
    open spec fn wf(&self) -> bool {
        &&& forall|a: u64| #[trigger] call_requires(self.floor, (a,))
        &&& forall|a: u64| #[trigger] call_requires(self.count, (a,))
        &&& forall|a: u64, b: u64| #[trigger] call_requires(self.join, (a, b))
        &&& forall|a: u64| #[trigger] call_requires(self.scale_up, (a,))
        &&& forall|r: i64, a: u64|
            0 <= r < DEPTH_RATIO ==> #[trigger] call_requires(self.scale_down, (r, a))
        &&& forall|a: u64, b: u64| #[trigger] call_requires(self.multiply, (a, b))
        &&& forall|a: u64, b: u64, c: u64, d: u64| #[trigger]
            call_requires(self.locate, (a, b, c, d))
        &&& forall|r: RelativeTile, a: u64, b: u64| #[trigger]
            call_requires(self.offset, (&r, a, b))
        &&& forall|a: u64, b: u64, c: u64| #[trigger] call_requires(self.onto_screen, (a, b, c))
        &&& forall|a: u64, b: u64, c: u64| #[trigger] call_requires(self.pan, (a, b, c))
        &&& forall|a: u64, b: u64| #[trigger] call_requires(self.subtract, (a, b))
        &&& forall|a: u64, b: u64, c: u64, d: u64, e: bool| #[trigger]
            call_requires(self.translate, (a, b, c, d, e))
        &&& forall|f: ScreenAffine, a: u64, b: u64| #[trigger]
            call_requires(self.move_by, (f, a, b))
        &&& forall|a: u64, one: u64, other: u64| #[trigger]
            call_ensures(self.floor, (a,), one) && #[trigger] call_ensures(self.floor, (a,), other)
                ==> one == other
        &&& forall|a: u64, one: Option<i64>, other: Option<i64>| #[trigger]
            call_ensures(self.count, (a,), one) && #[trigger] call_ensures(self.count, (a,), other)
                ==> one == other
        &&& forall|a: u64, b: u64, one: u64, other: u64| #[trigger]
            call_ensures(self.join, (a, b), one) && #[trigger] call_ensures(
                self.join,
                (a, b),
                other,
            ) ==> one == other
        &&& forall|a: u64, one: u64, other: u64| #[trigger]
            call_ensures(self.scale_up, (a,), one) && #[trigger] call_ensures(
                self.scale_up,
                (a,),
                other,
            ) ==> one == other
        &&& forall|r: i64, a: u64, one: u64, other: u64| #[trigger]
            call_ensures(self.scale_down, (r, a), one) && #[trigger] call_ensures(
                self.scale_down,
                (r, a),
                other,
            ) ==> one == other
        &&& forall|a: u64, b: u64, one: u64, other: u64| #[trigger]
            call_ensures(self.multiply, (a, b), one) && #[trigger] call_ensures(
                self.multiply,
                (a, b),
                other,
            ) ==> one == other
        &&& forall|a: u64, b: u64, c: u64, d: u64, one: u64, other: u64| #[trigger]
            call_ensures(self.locate, (a, b, c, d), one) && #[trigger] call_ensures(
                self.locate,
                (a, b, c, d),
                other,
            ) ==> one == other
        &&& forall|
            t: int,
            l: int,
            d: bool,
            a: u64,
            b: u64,
            one: Option<u64>,
            other: Option<u64>,
        | #[trigger]
            self.offsets(t, l, d, a, b, one) && #[trigger] self.offsets(t, l, d, a, b, other)
                ==> one == other
        &&& forall|a: u64, b: u64, c: u64, one: u64, other: u64| #[trigger]
            call_ensures(self.onto_screen, (a, b, c), one) && #[trigger] call_ensures(
                self.onto_screen,
                (a, b, c),
                other,
            ) ==> one == other
        &&& forall|a: u64, b: u64, c: u64, one: u64, other: u64| #[trigger]
            call_ensures(self.pan, (a, b, c), one) && #[trigger] call_ensures(
                self.pan,
                (a, b, c),
                other,
            ) ==> one == other
        &&& forall|a: u64, b: u64, one: u64, other: u64| #[trigger]
            call_ensures(self.subtract, (a, b), one) && #[trigger] call_ensures(
                self.subtract,
                (a, b),
                other,
            ) ==> one == other
        &&& forall|
            a: u64,
            b: u64,
            c: u64,
            l: int,
            s: bool,
            one: Option<(int, u64)>,
            other: Option<(int, u64)>,
        | #[trigger]
            self.translates(a, b, c, l, s, one) && #[trigger] self.translates(a, b, c, l, s, other)
                ==> one == other
        &&& forall|f: ScreenAffine, a: u64, b: u64, one: (u64, u64), other: (u64, u64)| #[trigger]
            call_ensures(self.move_by, (f, a, b), one) && #[trigger] call_ensures(
                self.move_by,
                (f, a, b),
                other,
            ) ==> one == other
        &&& forall|a: u64| #[trigger]
            is_floor_step(
                a,
                self.floored(a),
                self.counted(self.floored(a)),
                self.less(a, self.floored(a)),
            )
        &&& self.less(ONE_DOUBLE, ONE_DOUBLE) == 0
        &&& forall|a: u64| #[trigger] is_scaled_up(a, self.scaled_up(a))
        &&& forall|r: int, a: u64, x: u64| #[trigger]
            is_scaled_down(r, a, x, self.scaled_down(r, a))
        &&& forall|a: u64, b: u64| #[trigger] is_next_zoom(a, b, self.multiplied(a, b))
        &&& forall|a: u64, b: u64, c: u64, d: u64| #[trigger]
            is_located(a, b, c, d, self.located(a, b, c, d))
        &&& forall|t: int, l: int, d: bool, a: u64, b: u64| #[trigger]
            is_offset(t, l, d, a, b, self.offset_of(t, l, d, a, b))
        &&& forall|a: u64, b: u64, c: u64| #[trigger]
            is_shown_at(a, b, c, self.on_screen(a, b, c))
        &&& forall|a: u64, b: u64, c: u64| #[trigger] is_panned(a, b, c, self.panned(a, b, c))
        &&& forall|a: u64, b: u64| #[trigger] is_difference(a, b, self.less(a, b))
        &&& forall|a: u64, b: u64, c: u64, l: int, s: bool| #[trigger]
            is_move(a, b, c, l, s, self.translated(a, b, c, l, s))
    }

    open spec fn floored(&self, number: u64) -> u64 {
        choose|answer: u64| call_ensures(self.floor, (number,), answer)
    }

    open spec fn counted(&self, number: u64) -> Option<i64> {
        choose|answer: Option<i64>| call_ensures(self.count, (number,), answer)
    }

    open spec fn plus(&self, left: u64, right: u64) -> u64 {
        choose|answer: u64| call_ensures(self.join, (left, right), answer)
    }

    open spec fn scaled_up(&self, local: u64) -> u64 {
        choose|answer: u64| call_ensures(self.scale_up, (local,), answer)
    }

    open spec fn scaled_down(&self, remainder: int, local: u64) -> u64 {
        let place = remainder as i64;
        choose|answer: u64| call_ensures(self.scale_down, (place, local), answer)
    }

    open spec fn multiplied(&self, zoom: u64, factor: u64) -> u64 {
        choose|answer: u64| call_ensures(self.multiply, (zoom, factor), answer)
    }

    open spec fn located(&self, local: u64, screen: u64, extent: u64, zoom: u64) -> u64 {
        choose|answer: u64| call_ensures(self.locate, (local, screen, extent, zoom), answer)
    }

    open spec fn offset_of(
        &self,
        tiles: int,
        levels: int,
        camera_is_deeper: bool,
        point_local: u64,
        camera_local: u64,
    ) -> Option<u64> {
        choose|answer: Option<u64>|
            self.offsets(tiles, levels, camera_is_deeper, point_local, camera_local, answer)
    }

    open spec fn on_screen(&self, offset: u64, extent: u64, zoom: u64) -> u64 {
        choose|answer: u64| call_ensures(self.onto_screen, (offset, extent, zoom), answer)
    }

    open spec fn panned(&self, local: u64, delta: u64, zoom: u64) -> u64 {
        choose|answer: u64| call_ensures(self.pan, (local, delta, zoom), answer)
    }

    open spec fn less(&self, left: u64, right: u64) -> u64 {
        choose|answer: u64| call_ensures(self.subtract, (left, right), answer)
    }

    open spec fn translated(
        &self,
        local: u64,
        delta: u64,
        zoom: u64,
        levels: int,
        scales_up: bool,
    ) -> Option<(int, u64)> {
        choose|answer: Option<(int, u64)>|
            self.translates(local, delta, zoom, levels, scales_up, answer)
    }

    open spec fn moved_by(&self, affine: ScreenAffine, x: u64, y: u64) -> (u64, u64) {
        choose|answer: (u64, u64)| call_ensures(self.move_by, (affine, x, y), answer)
    }

    fn floor(&self, number: u64) -> (result: u64) {
        (self.floor)(number)
    }

    fn count(&self, number: u64) -> (result: Option<i64>) {
        (self.count)(number)
    }

    fn join(&self, left: u64, right: u64) -> (result: u64) {
        (self.join)(left, right)
    }

    fn scale_up(&self, local: u64) -> (result: u64) {
        (self.scale_up)(local)
    }

    fn scale_down(&self, remainder: i64, local: u64) -> (result: u64) {
        (self.scale_down)(remainder, local)
    }

    fn multiply(&self, zoom: u64, factor: u64) -> (result: u64) {
        (self.multiply)(zoom, factor)
    }

    fn locate(&self, local: u64, screen: u64, extent: u64, zoom: u64) -> (result: u64) {
        (self.locate)(local, screen, extent, zoom)
    }

    fn offset(&self, relative: &RelativeTile, point_local: u64, camera_local: u64) -> (result:
        Option<u64>) {
        let result: Option<u64> = (self.offset)(relative, point_local, camera_local);
        assert(self.offsets(
            relative.offset@,
            relative.levels as int,
            relative.camera_is_deeper,
            point_local,
            camera_local,
            result,
        ));
        result
    }

    fn onto_screen(&self, offset: u64, extent: u64, zoom: u64) -> (result: u64) {
        (self.onto_screen)(offset, extent, zoom)
    }

    fn pan(&self, local: u64, delta: u64, zoom: u64) -> (result: u64) {
        (self.pan)(local, delta, zoom)
    }

    fn subtract(&self, left: u64, right: u64) -> (result: u64) {
        (self.subtract)(left, right)
    }

    fn translate(&self, local: u64, delta: u64, zoom: u64, levels: u64, scales_up: bool) -> (result:
        Option<(TileIndex, u64)>) {
        let result: Option<(TileIndex, u64)> = (self.translate)(
            local,
            delta,
            zoom,
            levels,
            scales_up,
        );
        assert(self.translates(
            local,
            delta,
            zoom,
            levels as int,
            scales_up,
            parts_view(result),
        ));
        result
    }

    fn move_by(&self, affine: ScreenAffine, x: u64, y: u64) -> (result: (u64, u64)) {
        (self.move_by)(affine, x, y)
    }

    proof fn lemma_floor(&self, local: u64) {
        assert(is_floor_step(
            local,
            self.floored(local),
            self.counted(self.floored(local)),
            self.less(local, self.floored(local)),
        ));
    }

    proof fn lemma_scale_up(&self, local: u64) {
        assert(is_scaled_up(local, self.scaled_up(local)));
    }

    proof fn lemma_scale_down(&self, remainder: int, local: u64, exact: u64) {
        assert(is_scaled_down(remainder, local, exact, self.scaled_down(remainder, local)));
    }

    proof fn lemma_multiply(&self, zoom: u64, factor: u64) {
        assert(is_next_zoom(zoom, factor, self.multiplied(zoom, factor)));
    }

    proof fn lemma_locate(&self, local: u64, screen: u64, extent: u64, zoom: u64) {
        assert(is_located(local, screen, extent, zoom, self.located(local, screen, extent, zoom)));
    }

    proof fn lemma_offset(
        &self,
        tiles: int,
        levels: int,
        camera_is_deeper: bool,
        point_local: u64,
        camera_local: u64,
    ) {
        assert(is_offset(
            tiles,
            levels,
            camera_is_deeper,
            point_local,
            camera_local,
            self.offset_of(tiles, levels, camera_is_deeper, point_local, camera_local),
        ));
    }

    proof fn lemma_onto_screen(&self, offset: u64, extent: u64, zoom: u64) {
        assert(is_shown_at(offset, extent, zoom, self.on_screen(offset, extent, zoom)));
    }

    proof fn lemma_pan(&self, local: u64, delta: u64, zoom: u64) {
        assert(is_panned(local, delta, zoom, self.panned(local, delta, zoom)));
    }

    proof fn lemma_subtract(&self, left: u64, right: u64) {
        assert(is_difference(left, right, self.less(left, right)));
    }

    proof fn lemma_translate(
        &self,
        local: u64,
        delta: u64,
        zoom: u64,
        levels: int,
        scales_up: bool,
    ) {
        assert(is_move(
            local,
            delta,
            zoom,
            levels,
            scales_up,
            self.translated(local, delta, zoom, levels, scales_up),
        ));
    }
}

} // verus!
