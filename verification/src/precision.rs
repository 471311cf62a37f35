//! How precise double-precision arithmetic is, as far as places on the canvas
//! and on the screen rest on it.
//!
//! Each predicate tells what an operation gives, in units of the least number
//! greater than zero. Arithmetic that rounds to the nearest number satisfies all
//! of them.

use crate::camera::{
    equal_doubles, is_at_most, units, DOUBLE_SIGN_BIT, EIGHT_DOUBLE, INFINITE_DOUBLE, ONE_DOUBLE,
};
use crate::coords::DEPTH_RATIO;
use crate::model::within_tile;
use vstd::arithmetic::power2::{
    lemma2_to64, lemma2_to64_rest, lemma_pow2_adds, lemma_pow2_pos,
    lemma_pow2_strictly_increases, pow2,
};
use vstd::prelude::*;

verus! {

/// The bit pattern of the first number that is too great to count tiles by.
pub const COUNT_END: u64 = 0x43e0_0000_0000_0000;

/// The bit pattern of an eighth.
pub const EIGHTH_DOUBLE: u64 = 0x3fc0_0000_0000_0000;

/// The bit pattern of sixty-four.
pub const SIXTY_FOUR_DOUBLE: u64 = 0x4050_0000_0000_0000;

/// A finite number, in units of the least one greater than zero.
pub open spec fn signed_units(bits: u64) -> int {
    if bits >= DOUBLE_SIGN_BIT {
        -(units((bits - DOUBLE_SIGN_BIT) as u64) as int)
    } else {
        units(bits) as int
    }
}

/// How many units one is.
pub open spec fn one_unit() -> int {
    pow2(1074) as int
}

/// Whether a number is finite and tiles can be counted by its whole part.
pub open spec fn is_countable(bits: u64) -> bool {
    bits < COUNT_END || DOUBLE_SIGN_BIT <= bits < DOUBLE_SIGN_BIT + COUNT_END
}

/// Whether two amounts are at most one part of a limit apart, where the limit has
/// so many parts.
pub open spec fn are_near(left: int, right: int, parts: int, limit: int) -> bool {
    -limit <= parts * (left - right) <= limit
}

/// What taking the whole part off a local position gives: the floor is zero just
/// within a tile; elsewhere it counts whole tiles, and what is left lies between
/// zero and one. Nothing is lost of a position that is not negative, and hardly
/// anything of any other.
pub open spec fn is_floor_step(local: u64, floor: u64, count: Option<i64>, rest: u64) -> bool {
    is_countable(local) ==> {
        &&& within_tile(local) == equal_doubles(floor, 0)
        &&& !within_tile(local) ==> {
            &&& count is Some
            &&& is_at_most(0, rest)
            &&& is_at_most(rest, ONE_DOUBLE)
            &&& are_near(
                signed_units(rest) + count->0 * one_unit(),
                signed_units(local),
                0x40_0000_0000_0000,
                one_unit(),
            )
            &&& is_at_most(0, local) ==> within_tile(rest) && signed_units(rest) + count->0
                * one_unit() == signed_units(local)
        }
    }
}

/// What eight times a local position within a tile is.
pub open spec fn is_scaled_up(local: u64, up: u64) -> bool {
    within_tile(local) ==> {
        &&& is_countable(up)
        &&& is_at_most(0, up)
        &&& signed_units(up) == 8 * signed_units(local)
    }
}

/// What a local position in one of eight tiles is in all of them: it lies between
/// zero and one, and where it is a number itself, it is that number.
pub open spec fn is_scaled_down(remainder: int, local: u64, exact: u64, down: u64) -> bool {
    within_tile(local) && 0 <= remainder < DEPTH_RATIO ==> {
        &&& is_at_most(0, down)
        &&& is_at_most(down, ONE_DOUBLE)
        &&& are_near(
            8 * signed_units(down),
            remainder * one_unit() + signed_units(local),
            0x4_0000_0000_0000,
            one_unit(),
        )
        &&& within_tile(exact) && 8 * signed_units(exact) == remainder * one_unit()
            + signed_units(local) ==> equal_doubles(down, exact)
    }
}

/// Whether a place or an extent is that of a screen: a finite number of at most
/// 65536 points.
pub open spec fn is_on_a_screen(bits: u64) -> bool {
    is_within(bits, 65536)
}

/// Whether a number is finite, and its size at most so many.
pub open spec fn is_within(bits: u64, limit: int) -> bool {
    &&& bits < INFINITE_DOUBLE || DOUBLE_SIGN_BIT <= bits < DOUBLE_SIGN_BIT + INFINITE_DOUBLE
    &&& -limit * one_unit() <= signed_units(bits) <= limit * one_unit()
}

/// Whether a zoom is one between two levels.
pub open spec fn is_between_levels(zoom: u64) -> bool {
    ONE_DOUBLE <= zoom < EIGHT_DOUBLE
}

/// What the local position of a place on the screen is: from that of the camera as
/// many tiles off as the place is from the middle of the screen.
pub open spec fn is_located(local: u64, screen: u64, extent: u64, zoom: u64, place: u64) -> bool {
    within_tile(local) && is_on_a_screen(screen) && is_on_a_screen(extent) && is_between_levels(
        zoom,
    ) ==> {
        &&& is_countable(place)
        &&& are_near(
            1024 * ((signed_units(place) - signed_units(local)) * units(zoom)),
            (2 * signed_units(screen) - signed_units(extent)) * one_unit(),
            0x10_0000,
            one_unit() * one_unit(),
        )
    }
}

/// How many times wider the tiles are by which an offset over so many levels is
/// counted, if the camera is not the deeper one.
pub open spec fn offset_scale(levels: int, camera_is_deeper: bool) -> int {
    if levels == 0 || camera_is_deeper {
        1
    } else {
        8
    }
}

/// How many units a point is off, in the tiles of the deeper one of the point and
/// the camera, where they are at most one level apart.
pub open spec fn exact_offset(
    tiles: int,
    levels: int,
    camera_is_deeper: bool,
    point_local: u64,
    camera_local: u64,
) -> int {
    let point = signed_units(point_local);
    let camera = signed_units(camera_local);
    tiles * one_unit() + if levels == 0 {
        point - camera
    } else if camera_is_deeper {
        8 * point - camera
    } else {
        point - 8 * camera
    }
}

/// How far a point is from the camera, where they are at most one level apart.
pub open spec fn is_offset(
    tiles: int,
    levels: int,
    camera_is_deeper: bool,
    point_local: u64,
    camera_local: u64,
    offset: Option<u64>,
) -> bool {
    -65536 <= tiles <= 65536 && 0 <= levels <= 1 && within_tile(point_local) && within_tile(
        camera_local,
    ) ==> {
        &&& offset is Some
        &&& offset->0 < INFINITE_DOUBLE || DOUBLE_SIGN_BIT <= offset->0 < DOUBLE_SIGN_BIT
            + INFINITE_DOUBLE
        &&& are_near(
            offset_scale(levels, camera_is_deeper) * signed_units(offset->0),
            exact_offset(tiles, levels, camera_is_deeper, point_local, camera_local),
            0x4_0000_0000,
            one_unit(),
        )
    }
}

/// Where on the screen an offset from the camera is.
pub open spec fn is_shown_at(offset: u64, extent: u64, zoom: u64, place: u64) -> bool {
    is_within(offset, 131072) && is_on_a_screen(extent) && is_between_levels(zoom) ==> {
        &&& place < INFINITE_DOUBLE || DOUBLE_SIGN_BIT <= place < DOUBLE_SIGN_BIT
            + INFINITE_DOUBLE
        &&& are_near(
            2 * (signed_units(place) * one_unit()),
            1024 * (signed_units(offset) * units(zoom)) + signed_units(extent) * one_unit(),
            0x10_0000,
            one_unit() * one_unit(),
        )
    }
}

/// What the difference of two places is.
pub open spec fn is_difference(left: u64, right: u64, difference: u64) -> bool {
    is_on_a_screen(left) && is_within(right, 0x4000_0000) ==> {
        &&& difference < INFINITE_DOUBLE || DOUBLE_SIGN_BIT <= difference < DOUBLE_SIGN_BIT
            + INFINITE_DOUBLE
        &&& are_near(
            signed_units(difference),
            signed_units(left) - signed_units(right),
            0x10_0000,
            one_unit(),
        )
    }
}

/// What a local position is after the canvas moved under it.
pub open spec fn is_panned(local: u64, delta: u64, zoom: u64, place: u64) -> bool {
    within_tile(local) && is_within(delta, 0x400_0000) && is_between_levels(zoom) ==> {
        &&& is_countable(place)
        &&& are_near(
            1024 * ((signed_units(place) - signed_units(local)) * units(zoom)),
            -2 * (signed_units(delta) * one_unit()),
            0x10_0000,
            one_unit() * one_unit(),
        )
    }
}

/// What a zoom between two levels is after it changed by at most one level.
pub open spec fn is_next_zoom(zoom: u64, factor: u64, product: u64) -> bool {
    is_between_levels(zoom) && EIGHTH_DOUBLE <= factor <= EIGHT_DOUBLE ==> EIGHTH_DOUBLE <= product
        < SIXTY_FOUR_DOUBLE
}

/// What a move on the screen makes of a local position: whole tiles, and a rest
/// between zero and one. A position at most one level away from the camera moves
/// as far as the screen did.
pub open spec fn is_move(
    local: u64,
    delta: u64,
    zoom: u64,
    levels: int,
    scales_up: bool,
    parts: Option<(int, u64)>,
) -> bool {
    &&& parts matches Some((whole, rest)) ==> is_at_most(0, rest) && is_at_most(rest, ONE_DOUBLE)
    &&& within_tile(local) && is_on_a_screen(delta) && is_between_levels(zoom) && 0 <= levels <= 1
        ==> {
        let (whole, rest) = parts->0;
        let step = signed_units(rest) + whole * one_unit() - signed_units(local);
        &&& parts is Some
        &&& are_near(
            1024 * move_scale(levels, scales_up) * (step * units(zoom)),
            2 * move_scale(levels, !scales_up) * (signed_units(delta) * one_unit()),
            0x10_0000,
            one_unit() * one_unit(),
        )
    }
}

/// How many times as wide a tile of a point is as one of the camera.
pub open spec fn move_scale(levels: int, scales_up: bool) -> int {
    if levels == 0 || scales_up {
        1
    } else {
        8
    }
}

/// A number within a limit lies within every greater one.
pub proof fn lemma_within(bits: u64, limit: int, greater: int)
    requires
        is_within(bits, limit),
        limit <= greater,
    ensures
        is_within(bits, greater),
{
    lemma_one();
    let unit = one_unit();
    assert(limit * unit <= greater * unit && -greater * unit <= -limit * unit)
        by (nonlinear_arith)
        requires
            limit <= greater,
            unit > 0,
    ;
}

/// One is as many units as its name says.
pub proof fn lemma_one()
    ensures
        signed_units(ONE_DOUBLE) == one_unit(),
        signed_units(0) == 0,
        one_unit() > 0,
{
    lemma2_to64();
    lemma2_to64_rest();
    lemma_pow2_adds(52, 1022);
    lemma_pow2_pos(1074);
    assert(ONE_DOUBLE == 1023 * 0x0010_0000_0000_0000);
}

/// A local position within a tile is less than one, and not negative.
pub proof fn lemma_within_tile(local: u64)
    requires
        within_tile(local),
    ensures
        0 <= signed_units(local) < one_unit(),
        is_countable(local),
{
    lemma2_to64();
    lemma2_to64_rest();
    let step: int = 0x0010_0000_0000_0000;
    if local == DOUBLE_SIGN_BIT {
        lemma_pow2_pos(1074);
    } else if local < step {
        lemma_pow2_strictly_increases(52, 1074);
    } else {
        let exponent = local as int / step;
        let low = local as int % step;
        assert(1 <= exponent <= 1022 && 0 <= low < step) by (nonlinear_arith)
            requires
                step <= local < 1023 * step,
                exponent == local as int / step,
                low == local as int % step,
                step == 0x0010_0000_0000_0000,
        ;
        let power = pow2((exponent - 1) as nat);
        lemma_pow2_pos((exponent - 1) as nat);
        lemma_power_at_most((exponent - 1) as nat, 1021);
        lemma_pow2_adds(53, 1021);
        assert(0 <= (step + low) * power < 2 * step * pow2(1021)) by (nonlinear_arith)
            requires
                0 < power <= pow2(1021),
                0 <= low < step,
                step > 0,
        ;
    }
}

proof fn lemma_power_at_most(first: nat, second: nat)
    requires
        first <= second,
    ensures
        pow2(first) <= pow2(second),
{
    if first < second {
        lemma_pow2_strictly_increases(first, second);
    }
}

/// A zoom between two levels is at least one and less than eight.
pub proof fn lemma_between_levels(zoom: u64)
    requires
        is_between_levels(zoom),
    ensures
        one_unit() <= units(zoom) < 8 * one_unit(),
{
    lemma2_to64();
    lemma2_to64_rest();
    let step: int = 0x0010_0000_0000_0000;
    let exponent = zoom as int / step;
    let low = zoom as int % step;
    assert(1023 <= exponent <= 1025 && 0 <= low < step) by (nonlinear_arith)
        requires
            1023 * step <= zoom < 1026 * step,
            exponent == zoom as int / step,
            low == zoom as int % step,
            step == 0x0010_0000_0000_0000,
    ;
    let power = pow2((exponent - 1) as nat);
    lemma_power_at_most(1022, (exponent - 1) as nat);
    lemma_power_at_most((exponent - 1) as nat, 1024);
    lemma_pow2_adds(52, 1022);
    lemma_pow2_adds(53, 1024);
    lemma_pow2_adds(3, 1074);
    lemma_pow2_pos(1024);
    assert(step * pow2(1022) <= (step + low) * power < 2 * step * pow2(1024))
        by (nonlinear_arith)
        requires
            0 <= pow2(1022) <= power <= pow2(1024),
            pow2(1024) > 0,
            0 <= low < step,
            step > 0,
    ;
}

} // verus!
