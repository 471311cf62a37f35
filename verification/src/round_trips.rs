//! What a camera shows where: a place on the screen leads to a point of the canvas
//! and back, zooming keeps the point under the pointer where it is, and what is
//! moved by so much is shown that much farther.

use crate::camera::{lemma_settled_within_a_level, settled, units, CameraView, EIGHT_DOUBLE};
use crate::coords::levels_to_camera;
use crate::model::{within_tile, PointView};
use crate::optics::{
    axis_offset, jumped, lemma_jumped_by_a_level, lemma_parted, normal, panned_by, parted,
    place_units, pointed, projected, translated_point, zoom_settled, zoomed_at, AxisPlace,
    CanvasMeasures,
};
use crate::precision::{
    is_between_levels, is_on_a_screen, is_within, lemma_between_levels, lemma_one,
    lemma_within, lemma_within_tile, move_scale, one_unit, signed_units, EIGHTH_DOUBLE,
};
use vstd::arithmetic::power::{lemma_pow0, lemma_pow1, pow};
use vstd::prelude::*;

verus! {

/// Whether a place on the screen is less than a thousandth of a point off another.
pub open spec fn are_at_one_place(left: u64, right: u64) -> bool {
    -one_unit() < 1000 * (signed_units(left) - signed_units(right)) < one_unit()
}

/// A distance on the canvas that takes at most so much of the screen is at most
/// that many tiles.
proof fn lemma_few_tiles(unit: int, zoom: int, distance: int, reach: int, tiles: int)
    requires
        unit > 0,
        tiles > 0,
        unit <= zoom < 8 * unit,
        -1024 * ((tiles - 1) * unit) <= reach <= 1024 * ((tiles - 1) * unit),
        -8 * (unit * unit) <= 0x10_0000 * (1024 * (distance * zoom) - reach * unit) <= 8 * (unit
            * unit),
    ensures
        -(tiles * unit) <= distance <= tiles * unit,
{
    let square = unit * unit;
    let least = tiles * unit;
    assert(square > 0) by (nonlinear_arith)
        requires
            square == unit * unit,
            unit > 0,
    ;
    assert(least * unit == tiles * square && (tiles - 1) * unit * unit == tiles * square - square)
        by (nonlinear_arith)
        requires
            least == tiles * unit,
            square == unit * unit,
    ;
    let most = (tiles - 1) * unit;
    assert(-1024 * (most * unit) <= reach * unit <= 1024 * (most * unit)) by (nonlinear_arith)
        requires
            -1024 * most <= reach <= 1024 * most,
            unit > 0,
    ;
    assert(least * zoom >= least * unit) by (nonlinear_arith)
        requires
            zoom >= unit,
            least == tiles * unit,
            tiles > 0,
            unit > 0,
    ;
    if distance > least {
        assert(distance * zoom >= least * zoom) by (nonlinear_arith)
            requires
                distance > least,
                zoom > 0,
        ;
    }
    if distance < -least {
        assert(distance * zoom <= -(least * zoom)) by (nonlinear_arith)
            requires
                distance < -least,
                zoom > 0,
        ;
    }
}

/// Distances that are nearly the same take nearly the same of the screen.
proof fn lemma_near_products(unit: int, zoom: int, left: int, right: int)
    requires
        unit > 0,
        unit <= zoom < 8 * unit,
        -unit <= 0x2_0000_0000 * (left - right) <= unit,
    ensures
        -(unit * unit) <= 0x10_0000 * (1024 * (left * zoom) - 1024 * (right * zoom)) <= unit
            * unit,
{
    let square = unit * unit;
    let apart = left - right;
    assert(-8 * square <= 0x2_0000_0000 * (apart * zoom) <= 8 * square) by (nonlinear_arith)
        requires
            -unit <= 0x2_0000_0000 * apart <= unit,
            unit <= zoom < 8 * unit,
            unit > 0,
            square == unit * unit,
    ;
    assert(apart * zoom == left * zoom - right * zoom) by (nonlinear_arith)
        requires
            apart == left - right,
    ;
}

/// Places whose products are near are at one place.
proof fn lemma_one_place(unit: int, left: int, right: int)
    requires
        unit > 0,
        -8 * (unit * unit) <= 0x10_0000 * (2 * (left * unit) - 2 * (right * unit)) <= 8 * (unit
            * unit),
    ensures
        -unit < 1000 * (left - right) < unit,
{
    let square = unit * unit;
    let apart = left - right;
    assert(square > 0) by (nonlinear_arith)
        requires
            square == unit * unit,
            unit > 0,
    ;
    assert(apart * unit == left * unit - right * unit) by (nonlinear_arith)
        requires
            apart == left - right,
    ;
    if 1000 * apart >= unit {
        assert(1000 * (apart * unit) >= square) by (nonlinear_arith)
            requires
                1000 * apart >= unit,
                unit > 0,
                square == unit * unit,
        ;
    }
    if 1000 * apart <= -unit {
        assert(1000 * (apart * unit) <= -square) by (nonlinear_arith)
            requires
                1000 * apart <= -unit,
                unit > 0,
                square == unit * unit,
        ;
    }
}

/// The position along an axis that a camera shows at a place on the screen.
pub open spec fn located_on_axis<M: CanvasMeasures>(
    measures: &M,
    camera: AxisPlace,
    screen: u64,
    extent: u64,
    zoom: u64,
) -> AxisPlace {
    normal(
        measures,
        AxisPlace {
            tile: camera.tile,
            local: measures.located(camera.local, screen, extent, zoom),
        },
    )
}

/// What a camera shows on a screen is at most so many tiles off.
proof fn lemma_located<M: CanvasMeasures>(
    measures: &M,
    camera: AxisPlace,
    screen: u64,
    extent: u64,
    zoom: u64,
)
    requires
        measures.wf(),
        within_tile(camera.local),
        is_on_a_screen(screen),
        is_on_a_screen(extent),
        is_between_levels(zoom),
    ensures
        ({
            let place = located_on_axis(measures, camera, screen, extent, zoom);
            let local = measures.located(camera.local, screen, extent, zoom);
            let unit = one_unit();
            let apart = place_units(place) - place_units(camera);
            let distance = signed_units(local) - signed_units(camera.local);
            &&& within_tile(place.local)
            &&& -unit <= 0x40_0000_0000_0000 * (apart - distance) <= unit
            &&& -194 * unit <= apart <= 194 * unit
            &&& -(unit * unit) <= 0x10_0000 * (1024 * (distance * units(zoom)) - (2 * signed_units(
                screen,
            ) - signed_units(extent)) * unit) <= unit * unit
        }),
{
    let unit = one_unit();
    let local = measures.located(camera.local, screen, extent, zoom);
    let distance = signed_units(local) - signed_units(camera.local);
    let (tiles, rest) = parted(measures, local);
    lemma_one();
    measures.lemma_locate(camera.local, screen, extent, zoom);
    lemma_parted(measures, local);
    lemma_between_levels(zoom);
    lemma_few_tiles(
        unit,
        units(zoom) as int,
        distance,
        2 * signed_units(screen) - signed_units(extent),
        193,
    );
    assert((camera.tile + tiles) * unit == camera.tile * unit + tiles * unit) by (nonlinear_arith);
}

/// A place on the screen leads to a position along an axis and back.
proof fn lemma_axis_round_trip<M: CanvasMeasures>(
    measures: &M,
    depth: i64,
    camera: AxisPlace,
    screen: u64,
    extent: u64,
    zoom: u64,
)
    requires
        measures.wf(),
        within_tile(camera.local),
        is_on_a_screen(screen),
        is_on_a_screen(extent),
        is_between_levels(zoom),
    ensures
        ({
            let place = located_on_axis(measures, camera, screen, extent, zoom);
            let offset = axis_offset(measures, depth, place, depth, camera);
            &&& offset is Some
            &&& are_at_one_place(measures.on_screen(offset->0, extent, zoom), screen)
        }),
{
    let unit = one_unit();
    let place = located_on_axis(measures, camera, screen, extent, zoom);
    let local = measures.located(camera.local, screen, extent, zoom);
    let distance = signed_units(local) - signed_units(camera.local);
    let tiles = place.tile - camera.tile;
    lemma_one();
    lemma_located(measures, camera, screen, extent, zoom);
    lemma_within_tile(place.local);
    lemma_within_tile(camera.local);
    lemma_between_levels(zoom);
    lemma_pow0(8);
    assert(place.tile * pow(8, 0) == place.tile);
    assert(tiles * unit == place.tile * unit - camera.tile * unit) by (nonlinear_arith)
        requires
            tiles == place.tile - camera.tile,
    ;
    assert(-65536 <= tiles <= 65536) by (nonlinear_arith)
        requires
            -200 * unit <= tiles * unit <= 200 * unit,
            unit > 0,
    ;
    measures.lemma_offset(tiles, 0, true, place.local, camera.local);
    let offset = axis_offset(measures, depth, place, depth, camera);
    assert(offset == measures.offset_of(tiles, 0, true, place.local, camera.local));
    let shown = measures.on_screen(offset->0, extent, zoom);
    measures.lemma_onto_screen(offset->0, extent, zoom);
    lemma_near_products(unit, units(zoom) as int, signed_units(offset->0), distance);
    let doubled = 2 * signed_units(screen) - signed_units(extent);
    assert(doubled * unit == 2 * (signed_units(screen) * unit) - signed_units(extent) * unit)
        by (nonlinear_arith)
        requires
            doubled == 2 * signed_units(screen) - signed_units(extent),
    ;
    assert(unit * unit > 0) by (nonlinear_arith)
        requires
            unit > 0,
    ;
    lemma_one_place(unit, signed_units(shown), signed_units(screen));
}

/// A point of the canvas that a camera shows at a place on the screen is shown
/// there: less than a thousandth of a point off, wherever the camera is.
pub proof fn law_screen_round_trip<M: CanvasMeasures>(
    measures: &M,
    camera: CameraView,
    screen_x: u64,
    screen_y: u64,
    width: u64,
    height: u64,
)
    requires
        measures.wf(),
        i64::MIN <= camera.depth <= i64::MAX,
        camera.is_within_its_tile(),
        is_between_levels(camera.zoom),
        is_on_a_screen(screen_x),
        is_on_a_screen(screen_y),
        is_on_a_screen(width),
        is_on_a_screen(height),
    ensures
        ({
            let point = pointed(measures, camera, screen_x, screen_y, width, height);
            match projected(measures, camera, point, width, height) {
                Some((x, y)) => are_at_one_place(x, screen_x) && are_at_one_place(y, screen_y),
                None => false,
            }
        }),
{
    lemma_axis_round_trip(measures, camera.depth as i64, camera.x(), screen_x, width, camera.zoom);
    lemma_axis_round_trip(measures, camera.depth as i64, camera.y(), screen_y, height, camera.zoom);
}

/// A camera shows no point that is more levels away than a projection can bridge.
pub proof fn law_far_levels_are_not_shown<M: CanvasMeasures>(
    measures: &M,
    camera: CameraView,
    point: PointView,
    width: u64,
    height: u64,
)
    requires
        i64::MIN <= camera.depth <= i64::MAX,
        i64::MIN <= point.depth <= i64::MAX,
        camera.depth - point.depth > 340 || camera.depth - point.depth < -340,
    ensures
        projected(measures, camera, point, width, height) is None,
{
}

/// What tells a camera from a point at most one level away, in units of the deeper
/// one of them.
pub open spec fn units_apart(point: AxisPlace, camera: AxisPlace, levels: int) -> int {
    if levels == 0 {
        place_units(point) - place_units(camera)
    } else if levels == 1 {
        8 * place_units(point) - place_units(camera)
    } else {
        place_units(point) - 8 * place_units(camera)
    }
}

/// How far a camera sees a point that is at most one level away.
proof fn lemma_offset_over_a_level<M: CanvasMeasures>(
    measures: &M,
    depth: int,
    point: AxisPlace,
    camera: AxisPlace,
    levels: int,
)
    requires
        measures.wf(),
        i64::MIN <= depth <= i64::MAX,
        i64::MIN <= depth + levels <= i64::MAX,
        -1 <= levels <= 1,
        within_tile(point.local),
        within_tile(camera.local),
        -60000 * one_unit() <= units_apart(point, camera, levels) <= 60000 * one_unit(),
    ensures
        ({
            let offset = axis_offset(
                measures,
                depth as i64,
                point,
                (depth + levels) as i64,
                camera,
            );
            let scale: int = if levels == -1 {
                8
            } else {
                1
            };
            &&& offset is Some
            &&& is_within(offset->0, 60001)
            &&& -one_unit() <= 0x4_0000_0000 * (scale * signed_units(offset->0) - units_apart(
                point,
                camera,
                levels,
            )) <= one_unit()
        }),
{
    let unit = one_unit();
    lemma_one();
    lemma_within_tile(point.local);
    lemma_within_tile(camera.local);
    lemma_pow0(8);
    lemma_pow1(8);
    let tiles = if levels == 0 {
        point.tile - camera.tile
    } else if levels == 1 {
        point.tile * 8 - camera.tile
    } else {
        point.tile - camera.tile * 8
    };
    assert(levels_to_camera((depth + levels) as i64, depth as i64) == levels);
    assert(point.tile * pow(8, 0) == point.tile);
    let apart = units_apart(point, camera, levels);
    let locals = apart - tiles * unit;
    assert(locals == if levels == 0 {
        signed_units(point.local) - signed_units(camera.local)
    } else if levels == 1 {
        8 * signed_units(point.local) - signed_units(camera.local)
    } else {
        signed_units(point.local) - 8 * signed_units(camera.local)
    }) by {
        assert((point.tile - camera.tile) * unit == point.tile * unit - camera.tile * unit)
            by (nonlinear_arith);
        assert((point.tile * 8 - camera.tile) * unit == 8 * (point.tile * unit) - camera.tile
            * unit) by (nonlinear_arith);
        assert((point.tile - camera.tile * 8) * unit == point.tile * unit - 8 * (camera.tile
            * unit)) by (nonlinear_arith);
    }
    assert(-65536 <= tiles <= 65536) by (nonlinear_arith)
        requires
            -60008 * unit <= tiles * unit <= 60008 * unit,
            unit > 0,
    ;
    let offset = axis_offset(measures, depth as i64, point, (depth + levels) as i64, camera)->0;
    let seen = signed_units(offset);
    if levels >= 0 {
        measures.lemma_offset(tiles, levels, true, point.local, camera.local);
        assert(1 * seen == seen);
        assert(-60001 * unit <= seen <= 60001 * unit);
    } else {
        measures.lemma_offset(tiles, 1, false, point.local, camera.local);
        assert(-60001 * unit <= 8 * seen <= 60001 * unit);
        assert(-60001 * unit <= seen <= 60001 * unit);
    }
}

/// The position of a camera along an axis after the canvas moved under it.
pub open spec fn panned_on_axis<M: CanvasMeasures>(
    measures: &M,
    camera: AxisPlace,
    delta: u64,
    zoom: u64,
) -> AxisPlace {
    normal(
        measures,
        AxisPlace {
            tile: camera.tile,
            local: measures.panned(camera.local, delta, zoom),
        },
    )
}

/// Moving the canvas by what a point is off brings the point to its place.
proof fn lemma_pan_to_place<M: CanvasMeasures>(
    measures: &M,
    depth: int,
    point: AxisPlace,
    camera: AxisPlace,
    levels: int,
    screen: u64,
    extent: u64,
    zoom: u64,
)
    requires
        measures.wf(),
        i64::MIN <= depth <= i64::MAX,
        i64::MIN <= depth + levels <= i64::MAX,
        -1 <= levels <= 1,
        within_tile(point.local),
        within_tile(camera.local),
        -1600 * one_unit() <= units_apart(point, camera, levels) <= 1600 * one_unit(),
        is_on_a_screen(screen),
        is_on_a_screen(extent),
        is_between_levels(zoom),
    ensures
        ({
            let first = axis_offset(measures, depth as i64, point, (depth + levels) as i64, camera);
            let shown = measures.on_screen(first->0, extent, zoom);
            let moved = panned_on_axis(measures, camera, measures.less(screen, shown), zoom);
            let second = axis_offset(measures, depth as i64, point, (depth + levels) as i64, moved);
            &&& first is Some
            &&& second is Some
            &&& within_tile(moved.local)
            &&& are_at_one_place(measures.on_screen(second->0, extent, zoom), screen)
        }),
{
    let unit = one_unit();
    let square = unit * unit;
    let wide = units(zoom) as int;
    lemma_one();
    lemma_between_levels(zoom);
    lemma_offset_over_a_level(measures, depth, point, camera, levels);
    let first = axis_offset(measures, depth as i64, point, (depth + levels) as i64, camera)->0;
    let shown = measures.on_screen(first, extent, zoom);
    measures.lemma_onto_screen(first, extent, zoom);
    let seen = signed_units(first);
    assert(-13_200_000 * square <= 1024 * (seen * wide) <= 13_200_000 * square) by (nonlinear_arith)
        requires
            -1601 * unit <= seen <= 1601 * unit,
            unit <= wide < 8 * unit,
            unit > 0,
            square == unit * unit,
    ;
    let reached = signed_units(shown);
    let length = signed_units(extent);
    assert(-65536 * square <= length * unit <= 65536 * square) by (nonlinear_arith)
        requires
            -65536 * unit <= length <= 65536 * unit,
            unit > 0,
            square == unit * unit,
    ;
    assert(square > 0) by (nonlinear_arith)
        requires
            square == unit * unit,
            unit > 0,
    ;
    assert(-14_000_000 * unit <= reached <= 14_000_000 * unit) by (nonlinear_arith)
        requires
            -14_000_000 * square <= reached * unit <= 14_000_000 * square,
            unit > 0,
            square == unit * unit,
    ;
    measures.lemma_subtract(screen, shown);
    let delta = measures.less(screen, shown);
    let shift = signed_units(delta);
    let target = signed_units(screen);
    measures.lemma_pan(camera.local, delta, zoom);
    let local = measures.panned(camera.local, delta, zoom);
    lemma_parted(measures, local);
    let moved = panned_on_axis(measures, camera, delta, zoom);
    let tiles = parted(measures, local).0;
    assert((camera.tile + tiles) * unit == camera.tile * unit + tiles * unit) by (nonlinear_arith);
    let step = place_units(moved) - place_units(camera);
    let exact_step = signed_units(local) - signed_units(camera.local);
    lemma_near_products(unit, wide, step, exact_step);
    assert(shift * unit == (shift - (target - reached)) * unit + target * unit - reached * unit)
        by (nonlinear_arith);
    let rounding = shift - (target - reached);
    assert(-square <= 0x10_0000 * (rounding * unit) <= square) by (nonlinear_arith)
        requires
            -unit <= 0x10_0000 * rounding <= unit,
            unit > 0,
            square == unit * unit,
    ;
    let left = seen - step;
    assert(left * wide == seen * wide - step * wide) by (nonlinear_arith)
        requires
            left == seen - step,
    ;
    let middle = 2 * target - length;
    assert(middle * unit == 2 * (target * unit) - length * unit) by (nonlinear_arith)
        requires
            middle == 2 * target - length,
    ;
    lemma_few_tiles(unit, wide, left, middle, 193);
    lemma_offset_over_a_level(measures, depth, point, moved, levels);
    let second = axis_offset(measures, depth as i64, point, (depth + levels) as i64, moved)->0;
    measures.lemma_onto_screen(second, extent, zoom);
    lemma_near_products(unit, wide, signed_units(second), left);
    lemma_one_place(unit, signed_units(measures.on_screen(second, extent, zoom)), target);
}

proof fn lemma_zoom_on_axis<M: CanvasMeasures>(
    measures: &M,
    depth: int,
    camera: AxisPlace,
    levels: int,
    screen: u64,
    extent: u64,
    zoom: u64,
    next_zoom: u64,
)
    requires
        measures.wf(),
        i64::MIN <= depth <= i64::MAX,
        i64::MIN <= depth + levels <= i64::MAX,
        -1 <= levels <= 1,
        within_tile(camera.local),
        is_on_a_screen(screen),
        is_on_a_screen(extent),
        is_between_levels(zoom),
        is_between_levels(next_zoom),
    ensures
        ({
            let point = located_on_axis(measures, camera, screen, extent, zoom);
            let closer = jumped(measures, camera, levels);
            let first = axis_offset(measures, depth as i64, point, (depth + levels) as i64, closer);
            let shown = measures.on_screen(first->0, extent, next_zoom);
            let moved = panned_on_axis(measures, closer, measures.less(screen, shown), next_zoom);
            let second = axis_offset(measures, depth as i64, point, (depth + levels) as i64, moved);
            &&& first is Some
            &&& second is Some
            &&& within_tile(moved.local)
            &&& are_at_one_place(measures.on_screen(second->0, extent, next_zoom), screen)
        }),
{
    let point = located_on_axis(measures, camera, screen, extent, zoom);
    let closer = jumped(measures, camera, levels);
    lemma_one();
    lemma_located(measures, camera, screen, extent, zoom);
    lemma_jumped_by_a_level(measures, camera, levels);
    lemma_pan_to_place(measures, depth, point, closer, levels, screen, extent, next_zoom);
}

/// A camera that zooms around a place on the screen goes on showing there what it
/// showed there: less than a thousandth of a point off, for every change of the
/// zoom by at most one level, wherever the camera is. Its zoom stays between two
/// levels, and its position within a tile.
pub proof fn law_zoom_keeps_the_anchor<M: CanvasMeasures>(
    measures: &M,
    camera: CameraView,
    factor: u64,
    cursor_x: u64,
    cursor_y: u64,
    width: u64,
    height: u64,
)
    requires
        measures.wf(),
        i64::MIN < camera.depth < i64::MAX,
        camera.is_within_its_tile(),
        is_between_levels(camera.zoom),
        EIGHTH_DOUBLE <= factor <= EIGHT_DOUBLE,
        is_on_a_screen(cursor_x),
        is_on_a_screen(cursor_y),
        is_on_a_screen(width),
        is_on_a_screen(height),
    ensures
        ({
            let anchor = pointed(measures, camera, cursor_x, cursor_y, width, height);
            let after = zoomed_at(measures, camera, factor, cursor_x, cursor_y, width, height);
            &&& is_between_levels(after.zoom)
            &&& after.is_within_its_tile()
            &&& match projected(measures, after, anchor, width, height) {
                Some((x, y)) => are_at_one_place(x, cursor_x) && are_at_one_place(y, cursor_y),
                None => false,
            }
        }),
{
    let product = measures.multiplied(camera.zoom, factor);
    measures.lemma_multiply(camera.zoom, factor);
    lemma_settled_within_a_level(product);
    let (levels, zoom) = settled(product);
    lemma_zoom_on_axis(
        measures,
        camera.depth,
        camera.x(),
        levels,
        cursor_x,
        width,
        camera.zoom,
        zoom,
    );
    lemma_zoom_on_axis(
        measures,
        camera.depth,
        camera.y(),
        levels,
        cursor_y,
        height,
        camera.zoom,
        zoom,
    );
    let closer = zoom_settled(measures, CameraView { zoom: product, ..camera });
    assert(closer.x() == jumped(measures, camera.x(), levels));
    assert(closer.y() == jumped(measures, camera.y(), levels));
    assert(closer.depth == camera.depth + levels);
}

/// Whether one place on the screen is so far from another, but for less than a
/// thousandth of a point.
pub open spec fn is_so_far(from: u64, to: u64, delta: u64) -> bool {
    -one_unit() < 1000 * (signed_units(to) - signed_units(from) - signed_units(delta))
        < one_unit()
}

/// What lies farther off by what takes so much of the screen is shown that much
/// farther.
proof fn lemma_shown_farther<M: CanvasMeasures>(
    measures: &M,
    first: u64,
    second: u64,
    extent: u64,
    zoom: u64,
    delta: u64,
)
    requires
        measures.wf(),
        is_within(first, 131072),
        is_within(second, 131072),
        is_on_a_screen(extent),
        is_between_levels(zoom),
        -4 * (one_unit() * one_unit()) <= 0x10_0000 * (1024 * ((signed_units(second) - signed_units(
            first,
        )) * units(zoom)) - 2 * (signed_units(delta) * one_unit())) <= 4 * (one_unit()
            * one_unit()),
    ensures
        is_so_far(
            measures.on_screen(first, extent, zoom),
            measures.on_screen(second, extent, zoom),
            delta,
        ),
{
    let unit = one_unit();
    let wide = units(zoom) as int;
    lemma_one();
    measures.lemma_onto_screen(first, extent, zoom);
    measures.lemma_onto_screen(second, extent, zoom);
    let before = signed_units(measures.on_screen(first, extent, zoom));
    let after = signed_units(measures.on_screen(second, extent, zoom));
    let one = signed_units(first);
    let other = signed_units(second);
    let target = before + signed_units(delta);
    assert((other - one) * wide == other * wide - one * wide) by (nonlinear_arith);
    assert(target * unit == before * unit + signed_units(delta) * unit) by (nonlinear_arith)
        requires
            target == before + signed_units(delta),
    ;
    assert(unit * unit > 0) by (nonlinear_arith)
        requires
            unit > 0,
    ;
    lemma_one_place(unit, after, target);
}

/// A point that comes closer to a camera, or goes away from it, by a step that
/// takes so much of the screen, is shown that much farther.
proof fn lemma_step_is_shown<M: CanvasMeasures>(
    measures: &M,
    depth: int,
    point: AxisPlace,
    camera: AxisPlace,
    next_point: AxisPlace,
    next_camera: AxisPlace,
    levels: int,
    extent: u64,
    zoom: u64,
    delta: u64,
)
    requires
        measures.wf(),
        i64::MIN <= depth <= i64::MAX,
        i64::MIN <= depth + levels <= i64::MAX,
        -1 <= levels <= 1,
        within_tile(point.local),
        within_tile(camera.local),
        within_tile(next_point.local),
        within_tile(next_camera.local),
        -50000 * one_unit() <= units_apart(point, camera, levels) <= 50000 * one_unit(),
        -60000 * one_unit() <= units_apart(next_point, next_camera, levels) <= 60000
            * one_unit(),
        is_on_a_screen(extent),
        is_between_levels(zoom),
        ({
            let step = units_apart(next_point, next_camera, levels) - units_apart(
                point,
                camera,
                levels,
            );
            let scale = camera_scale(levels);
            let square = one_unit() * one_unit();
            -2 * (scale * square) <= 0x10_0000 * (1024 * (step * units(zoom)) - 2 * (scale * (
            signed_units(delta) * one_unit()))) <= 2 * (scale * square)
        }),
    ensures
        ({
            let first = axis_offset(measures, depth as i64, point, (depth + levels) as i64, camera);
            let second = axis_offset(
                measures,
                depth as i64,
                next_point,
                (depth + levels) as i64,
                next_camera,
            );
            &&& first is Some
            &&& second is Some
            &&& is_so_far(
                measures.on_screen(first->0, extent, zoom),
                measures.on_screen(second->0, extent, zoom),
                delta,
            )
        }),
{
    let unit = one_unit();
    let wide = units(zoom) as int;
    let scale = camera_scale(levels);
    lemma_one();
    lemma_between_levels(zoom);
    lemma_offset_over_a_level(measures, depth, point, camera, levels);
    lemma_offset_over_a_level(measures, depth, next_point, next_camera, levels);
    let first = axis_offset(measures, depth as i64, point, (depth + levels) as i64, camera)->0;
    let second = axis_offset(
        measures,
        depth as i64,
        next_point,
        (depth + levels) as i64,
        next_camera,
    )->0;
    let step = units_apart(next_point, next_camera, levels) - units_apart(point, camera, levels);
    let apart = signed_units(second) - signed_units(first);
    lemma_within(first, 60001, 131072);
    lemma_within(second, 60001, 131072);
    if levels == -1 {
        assert(scale == 8);
        assert(8 * apart == 8 * signed_units(second) - 8 * signed_units(first));
        lemma_near_products(unit, wide, 8 * apart, step);
        assert((8 * apart) * wide == 8 * (apart * wide)) by (nonlinear_arith);
    } else {
        assert(scale == 1);
        assert(1 * signed_units(first) == signed_units(first));
        assert(1 * signed_units(second) == signed_units(second));
        lemma_near_products(unit, wide, apart, step);
    }
    assert(unit * unit > 0) by (nonlinear_arith)
        requires
            unit > 0,
    ;
    lemma_shown_farther(measures, first, second, extent, zoom, delta);
}

/// How many times as wide a tile of the camera is as one of the deeper one of the
/// point and the camera.
spec fn camera_scale(levels: int) -> int {
    if levels == -1 {
        8
    } else {
        1
    }
}

proof fn lemma_pan_on_axis<M: CanvasMeasures>(
    measures: &M,
    depth: int,
    point: AxisPlace,
    camera: AxisPlace,
    levels: int,
    extent: u64,
    zoom: u64,
    delta: u64,
)
    requires
        measures.wf(),
        i64::MIN <= depth <= i64::MAX,
        i64::MIN <= depth + levels <= i64::MAX,
        -1 <= levels <= 1,
        within_tile(point.local),
        within_tile(camera.local),
        -50000 * one_unit() <= units_apart(point, camera, levels) <= 50000 * one_unit(),
        is_on_a_screen(extent),
        is_between_levels(zoom),
        is_on_a_screen(delta),
    ensures
        ({
            let moved = panned_on_axis(measures, camera, delta, zoom);
            let first = axis_offset(measures, depth as i64, point, (depth + levels) as i64, camera);
            let second = axis_offset(measures, depth as i64, point, (depth + levels) as i64, moved);
            &&& within_tile(moved.local)
            &&& first is Some
            &&& second is Some
            &&& is_so_far(
                measures.on_screen(first->0, extent, zoom),
                measures.on_screen(second->0, extent, zoom),
                delta,
            )
        }),
{
    let unit = one_unit();
    let wide = units(zoom) as int;
    let scale = camera_scale(levels);
    let local = measures.panned(camera.local, delta, zoom);
    let moved = panned_on_axis(measures, camera, delta, zoom);
    let tiles = parted(measures, local).0;
    let shift = signed_units(delta);
    lemma_one();
    lemma_between_levels(zoom);
    measures.lemma_pan(camera.local, delta, zoom);
    lemma_parted(measures, local);
    assert((camera.tile + tiles) * unit == camera.tile * unit + tiles * unit) by (nonlinear_arith);
    let step = place_units(moved) - place_units(camera);
    let exact_step = signed_units(local) - signed_units(camera.local);
    lemma_near_products(unit, wide, step, exact_step);
    assert((-2 * shift) * unit == -2 * (shift * unit)) by (nonlinear_arith);
    assert(unit * unit > 0) by (nonlinear_arith)
        requires
            unit > 0,
    ;
    lemma_few_tiles(unit, wide, step, -2 * shift, 193);
    let apart = units_apart(point, moved, levels) - units_apart(point, camera, levels);
    if levels == -1 {
        assert(scale == 8);
        assert(apart == -8 * step);
        assert((-8 * step) * wide == -8 * (step * wide)) by (nonlinear_arith);
    } else {
        assert(scale == 1);
        assert(apart == -step);
        assert((-step) * wide == -(step * wide)) by (nonlinear_arith);
    }
    lemma_step_is_shown(
        measures,
        depth,
        point,
        camera,
        point,
        moved,
        levels,
        extent,
        zoom,
        delta,
    );
}

/// Whether a point is at most one level away from a camera, and not too far off to
/// be counted by whole tiles.
pub open spec fn is_in_reach(camera: CameraView, point: PointView) -> bool {
    let levels = camera.depth - point.depth;
    let x = AxisPlace { tile: point.tile_x, local: point.local_x };
    let y = AxisPlace { tile: point.tile_y, local: point.local_y };
    &&& i64::MIN <= camera.depth <= i64::MAX
    &&& i64::MIN <= point.depth <= i64::MAX
    &&& -1 <= levels <= 1
    &&& within_tile(point.local_x) && within_tile(point.local_y)
    &&& -50000 * one_unit() <= units_apart(x, camera.x(), levels) <= 50000 * one_unit()
    &&& -50000 * one_unit() <= units_apart(y, camera.y(), levels) <= 50000 * one_unit()
}

/// A camera under which the canvas moves shows every point as much farther: less
/// than a thousandth of a point off, wherever the camera is.
pub proof fn law_panning_moves_what_is_shown<M: CanvasMeasures>(
    measures: &M,
    camera: CameraView,
    point: PointView,
    delta_x: u64,
    delta_y: u64,
    width: u64,
    height: u64,
)
    requires
        measures.wf(),
        camera.is_within_its_tile(),
        is_between_levels(camera.zoom),
        is_in_reach(camera, point),
        is_on_a_screen(delta_x),
        is_on_a_screen(delta_y),
        is_on_a_screen(width),
        is_on_a_screen(height),
    ensures
        ({
            let after = panned_by(measures, camera, delta_x, delta_y);
            &&& after.is_within_its_tile()
            &&& match (
                projected(measures, camera, point, width, height),
                projected(measures, after, point, width, height),
            ) {
                (Some((x, y)), Some((next_x, next_y))) => {
                    is_so_far(x, next_x, delta_x) && is_so_far(y, next_y, delta_y)
                },
                _ => false,
            }
        }),
{
    let levels = camera.depth - point.depth;
    lemma_pan_on_axis(
        measures,
        point.depth,
        AxisPlace { tile: point.tile_x, local: point.local_x },
        camera.x(),
        levels,
        width,
        camera.zoom,
        delta_x,
    );
    lemma_pan_on_axis(
        measures,
        point.depth,
        AxisPlace { tile: point.tile_y, local: point.local_y },
        camera.y(),
        levels,
        height,
        camera.zoom,
        delta_y,
    );
}

proof fn lemma_move_on_axis<M: CanvasMeasures>(
    measures: &M,
    depth: int,
    point: AxisPlace,
    camera: AxisPlace,
    levels: int,
    extent: u64,
    zoom: u64,
    delta: u64,
)
    requires
        measures.wf(),
        i64::MIN <= depth <= i64::MAX,
        i64::MIN <= depth + levels <= i64::MAX,
        -1 <= levels <= 1,
        within_tile(point.local),
        within_tile(camera.local),
        -50000 * one_unit() <= units_apart(point, camera, levels) <= 50000 * one_unit(),
        is_on_a_screen(extent),
        is_between_levels(zoom),
        is_on_a_screen(delta),
    ensures
        ({
            let parts = measures.translated(
                point.local,
                delta,
                zoom,
                if levels == 0 {
                    0
                } else {
                    1
                },
                levels <= 0,
            );
            let (whole, rest) = parts->0;
            let moved = normal(measures, AxisPlace { tile: point.tile + whole, local: rest });
            let first = axis_offset(measures, depth as i64, point, (depth + levels) as i64, camera);
            let second = axis_offset(measures, depth as i64, moved, (depth + levels) as i64, camera);
            &&& parts is Some
            &&& first is Some
            &&& second is Some
            &&& is_so_far(
                measures.on_screen(first->0, extent, zoom),
                measures.on_screen(second->0, extent, zoom),
                delta,
            )
        }),
{
    let unit = one_unit();
    let wide = units(zoom) as int;
    let shift = signed_units(delta);
    let apart: int = if levels == 0 {
        0
    } else {
        1
    };
    let parts = measures.translated(point.local, delta, zoom, apart, levels <= 0);
    measures.lemma_translate(point.local, delta, zoom, apart, levels <= 0);
    lemma_one();
    lemma_between_levels(zoom);
    let (whole, rest) = parts->0;
    let moved = normal(measures, AxisPlace { tile: point.tile + whole, local: rest });
    lemma_parted(measures, rest);
    let tiles = parted(measures, rest).0;
    assert((point.tile + whole + tiles) * unit == point.tile * unit + whole * unit + tiles * unit)
        by (nonlinear_arith);
    let step = place_units(moved) - place_units(point);
    assert(step == signed_units(rest) + whole * unit - signed_units(point.local));
    assert(unit * unit > 0) by (nonlinear_arith)
        requires
            unit > 0,
    ;
    assert((2 * shift) * unit == 2 * (shift * unit)) by (nonlinear_arith);
    assert((16 * shift) * unit == 16 * (shift * unit)) by (nonlinear_arith);
    assert((8 * step) * wide == 8 * (step * wide)) by (nonlinear_arith);
    let across = step * wide;
    let along = shift * unit;
    let up = move_scale(apart, levels <= 0);
    let down = move_scale(apart, levels > 0);
    assert(1024 * up * across == 1024 * (up * across)) by (nonlinear_arith);
    assert(2 * down * along == 2 * (down * along)) by (nonlinear_arith);
    if levels == 0 {
        assert(up == 1 && down == 1);
        lemma_few_tiles(unit, wide, step, 2 * shift, 193);
    } else if levels == 1 {
        assert(up == 8 && down == 1);
        assert(up * across == 8 * across);
        assert(down * along == along);
        lemma_few_tiles(unit, wide, 8 * step, 2 * shift, 193);
    } else {
        assert(up == 1 && down == 8);
        assert(up * across == across);
        assert(down * along == 8 * along);
        lemma_few_tiles(unit, wide, step, 16 * shift, 1025);
    }
    let scale = camera_scale(levels);
    let square = unit * unit;
    assert(scale * square == if levels == -1 {
        8 * square
    } else {
        square
    });
    assert(scale * along == if levels == -1 {
        8 * along
    } else {
        along
    });
    lemma_step_is_shown(
        measures,
        depth,
        point,
        camera,
        moved,
        camera,
        levels,
        extent,
        zoom,
        delta,
    );
}

/// A point that moves with the screen is shown as much farther: less than a
/// thousandth of a point off, wherever it is.
pub proof fn law_moved_points_follow_the_screen<M: CanvasMeasures>(
    measures: &M,
    camera: CameraView,
    point: PointView,
    delta_x: u64,
    delta_y: u64,
    width: u64,
    height: u64,
)
    requires
        measures.wf(),
        camera.is_within_its_tile(),
        is_between_levels(camera.zoom),
        is_in_reach(camera, point),
        is_on_a_screen(delta_x),
        is_on_a_screen(delta_y),
        is_on_a_screen(width),
        is_on_a_screen(height),
    ensures
        translated_point(
            measures,
            point,
            camera.depth as i64,
            camera.zoom,
            delta_x,
            delta_y,
        ) matches Some(moved) ==> match (
            projected(measures, camera, point, width, height),
            projected(measures, camera, moved, width, height),
        ) {
            (Some((x, y)), Some((next_x, next_y))) => {
                is_so_far(x, next_x, delta_x) && is_so_far(y, next_y, delta_y)
            },
            _ => false,
        },
{
    let levels = camera.depth - point.depth;
    lemma_move_on_axis(
        measures,
        point.depth,
        AxisPlace { tile: point.tile_x, local: point.local_x },
        camera.x(),
        levels,
        width,
        camera.zoom,
        delta_x,
    );
    lemma_move_on_axis(
        measures,
        point.depth,
        AxisPlace { tile: point.tile_y, local: point.local_y },
        camera.y(),
        levels,
        height,
        camera.zoom,
        delta_y,
    );
}

/// A camera that is so many tiles farther on.
pub open spec fn camera_farther(camera: CameraView, tiles_x: int, tiles_y: int) -> CameraView {
    CameraView { tile_x: camera.tile_x + tiles_x, tile_y: camera.tile_y + tiles_y, ..camera }
}

/// A point that is so many tiles farther on.
pub open spec fn point_farther(point: PointView, tiles_x: int, tiles_y: int) -> PointView {
    PointView { tile_x: point.tile_x + tiles_x, tile_y: point.tile_y + tiles_y, ..point }
}

/// How many tiles of a camera and of a point are as wide as one of the shallower of
/// both, where the camera is so many levels deeper.
pub open spec fn tiles_across(levels: int) -> (int, int) {
    if levels >= 0 {
        (pow(8, levels as nat), 1)
    } else {
        (1, pow(8, (-levels) as nat))
    }
}

/// No place of the canvas differs from another: however many tiles farther on, a
/// camera shows there what it showed here, and points at it.
pub proof fn law_every_place_of_the_canvas_is_alike<M: CanvasMeasures>(
    measures: &M,
    camera: CameraView,
    point: PointView,
    tiles_x: int,
    tiles_y: int,
    screen_x: u64,
    screen_y: u64,
    width: u64,
    height: u64,
)
    requires
        i64::MIN <= camera.depth <= i64::MAX,
        i64::MIN <= point.depth <= i64::MAX,
    ensures
        ({
            let (camera_tiles, point_tiles) = tiles_across(camera.depth - point.depth);
            projected(
                measures,
                camera_farther(camera, tiles_x * camera_tiles, tiles_y * camera_tiles),
                point_farther(point, tiles_x * point_tiles, tiles_y * point_tiles),
                width,
                height,
            ) == projected(measures, camera, point, width, height)
        }),
        pointed(
            measures,
            camera_farther(camera, tiles_x, tiles_y),
            screen_x,
            screen_y,
            width,
            height,
        ) == point_farther(
            pointed(measures, camera, screen_x, screen_y, width, height),
            tiles_x,
            tiles_y,
        ),
{
    let (camera_tiles, point_tiles) = tiles_across(camera.depth - point.depth);
    let (camera_x, camera_y) = (camera.tile_x, camera.tile_y);
    let (point_x, point_y) = (point.tile_x, point.tile_y);
    lemma_pow0(8);
    assert((point_x + tiles_x * 1) * camera_tiles - (camera_x + tiles_x * camera_tiles) == point_x
        * camera_tiles - camera_x) by (nonlinear_arith);
    assert((point_y + tiles_y * 1) * camera_tiles - (camera_y + tiles_y * camera_tiles) == point_y
        * camera_tiles - camera_y) by (nonlinear_arith);
    assert((point_x + tiles_x * point_tiles) - (camera_x + tiles_x * 1) * point_tiles == point_x
        - camera_x * point_tiles) by (nonlinear_arith);
    assert((point_y + tiles_y * point_tiles) - (camera_y + tiles_y * 1) * point_tiles == point_y
        - camera_y * point_tiles) by (nonlinear_arith);
}

} // verus!
