//! Made-up operations for measuring how the index of operations scales.

use crate::drafts::draft;
use crate::model::{point_views, CanvasPoint, Color, EditKind, EditOperation, PointView};
use crate::tile_index::TileIndex;
use crate::tile_view::{key_views, KeyView, TileKey};
use vstd::arithmetic::div_mod::{lemma_mul_mod_noop_left, lemma_mul_mod_noop_right, lemma_small_mod};
use vstd::prelude::*;

verus! {

/// The lower bits of the product.
pub open spec fn wrapped_product(left: u64, right: u64) -> u64 {
    ((left * right) % 0x1_0000_0000_0000_0000) as u64
}

/// A number with its bits shuffled.
pub open spec fn mixed(value: u64) -> u64 {
    let first = wrapped_product(value ^ (value >> 30), 0xbf58_476d_1ce4_e5b9);
    let second = wrapped_product(first ^ (first >> 27), 0x94d0_49bb_1331_11eb);
    second ^ (second >> 31)
}

fn multiply_wrapping(left: u64, right: u64) -> (product: u64)
    ensures
        product == wrapped_product(left, right),
{
    proof {
        assert(left as u128 * right as u128 <= u128::MAX) by (nonlinear_arith)
            requires
                0 <= left <= u64::MAX,
                0 <= right <= u64::MAX,
        ;
    }
    let wide: u128 = left as u128 * right as u128;
    (wide % 0x1_0000_0000_0000_0000) as u64
}

/// Shuffles the bits of a number.
pub fn mix(value: u64) -> (result: u64)
    ensures
        result == mixed(value),
{
    let first: u64 = multiply_wrapping(value ^ (value >> 30), 0xbf58_476d_1ce4_e5b9);
    let second: u64 = multiply_wrapping(first ^ (first >> 27), 0x94d0_49bb_1331_11eb);
    second ^ (second >> 31)
}

proof fn lemma_product_keeps_numbers_apart(left: u64, right: u64, factor: u64, inverse: u64)
    requires
        wrapped_product(left, factor) == wrapped_product(right, factor),
        (factor * inverse) % 0x1_0000_0000_0000_0000 == 1,
    ensures
        left == right,
{
    lemma_product_is_undone(left, factor, inverse);
    lemma_product_is_undone(right, factor, inverse);
}

proof fn lemma_product_is_undone(value: u64, factor: u64, inverse: u64)
    requires
        (factor * inverse) % 0x1_0000_0000_0000_0000 == 1,
    ensures
        wrapped_product(wrapped_product(value, factor), inverse) == value,
{
    let modulus = 0x1_0000_0000_0000_0000int;
    let v = value as int;
    let f = factor as int;
    let i = inverse as int;
    lemma_mul_mod_noop_left(v * f, i, modulus);
    assert(v * f * i == v * (f * i)) by (nonlinear_arith);
    lemma_mul_mod_noop_right(v, f * i, modulus);
    assert(v * 1 == v);
    lemma_small_mod(value as nat, modulus as nat);
}

/// Different numbers are mixed to different ones.
pub proof fn law_mixing_keeps_numbers_apart(left: u64, right: u64)
    requires
        mixed(left) == mixed(right),
    ensures
        left == right,
{
    let first_left = wrapped_product(left ^ (left >> 30), 0xbf58_476d_1ce4_e5b9);
    let first_right = wrapped_product(right ^ (right >> 30), 0xbf58_476d_1ce4_e5b9);
    let second_left = wrapped_product(first_left ^ (first_left >> 27), 0x94d0_49bb_1331_11eb);
    let second_right = wrapped_product(first_right ^ (first_right >> 27), 0x94d0_49bb_1331_11eb);
    assert(second_left == second_right) by (bit_vector)
        requires
            second_left ^ (second_left >> 31) == second_right ^ (second_right >> 31),
    ;
    assert((0x94d0_49bb_1331_11ebu64 * 0x3196_42b2_d24d_8ec3u64) % 0x1_0000_0000_0000_0000 == 1)
        by (nonlinear_arith);
    lemma_product_keeps_numbers_apart(
        first_left ^ (first_left >> 27),
        first_right ^ (first_right >> 27),
        0x94d0_49bb_1331_11eb,
        0x3196_42b2_d24d_8ec3,
    );
    assert(first_left == first_right) by (bit_vector)
        requires
            first_left ^ (first_left >> 27) == first_right ^ (first_right >> 27),
    ;
    assert((0xbf58_476d_1ce4_e5b9u64 * 0x96de_1b17_3f11_9089u64) % 0x1_0000_0000_0000_0000 == 1)
        by (nonlinear_arith);
    lemma_product_keeps_numbers_apart(
        left ^ (left >> 30),
        right ^ (right >> 30),
        0xbf58_476d_1ce4_e5b9,
        0x96de_1b17_3f11_9089,
    );
    assert(left == right) by (bit_vector)
        requires
            left ^ (left >> 30) == right ^ (right >> 30),
    ;
}

/// The remainder with the sign of the dividend.
pub open spec fn signed_remainder(value: int, divisor: int) -> int {
    if value >= 0 {
        value % divisor
    } else {
        -((-value) % divisor)
    }
}

/// The number that has the same bits as a signed one.
pub open spec fn signed(value: u64) -> int {
    if value >= 0x8000_0000_0000_0000 {
        value - 0x1_0000_0000_0000_0000
    } else {
        value as int
    }
}

/// The tile in which a number places an operation: one of twenty thousand
/// around the origin and more.
pub open spec fn scattered(value: u64) -> int {
    signed_remainder(signed(mixed(value)), 20_000) - 10_000
}

fn scatter(value: u64) -> (tile: i64)
    ensures
        tile == scattered(value),
{
    let bits: u64 = mix(value);
    if bits >= 0x8000_0000_0000_0000 {
        let distance: u64 = (u64::MAX - bits) + 1;
        let remainder: u64 = distance % 20_000;
        assert(distance == -signed(bits));
        -(remainder as i64) - 10_000
    } else {
        (bits % 20_000) as i64 - 10_000
    }
}

/// The depths over which operations are spread, for a radius around the
/// surface.
pub fn depth_band_count(depth_radius: i64) -> (count: u64)
    requires
        0 <= depth_radius <= 10_000,
    ensures
        count == 2 * depth_radius + 1,
{
    (depth_radius as u64) * 2 + 1
}

/// The radius of depths that is measured: none below zero and none too great.
pub fn clamp_depth_radius(requested: i64) -> (radius: i64)
    ensures
        radius == if requested < 0 {
            0
        } else if requested > 10_000 {
            10_000
        } else {
            requested as int
        },
{
    if requested < 0 {
        0
    } else if requested > 10_000 {
        10_000
    } else {
        requested
    }
}

/// The bit pattern of one tenth.
pub const ONE_TENTH: u64 = 0x3fb9_9999_9999_999a;

/// The bit pattern of one fifth.
pub const ONE_FIFTH: u64 = 0x3fc9_9999_9999_999a;

/// The bit pattern of three tenths.
pub const THREE_TENTHS: u64 = 0x3fd3_3333_3333_3333;

/// The bit pattern of one.
pub const NATIVE_ZOOM: u64 = 0x3ff0_0000_0000_0000;

/// The bit pattern of five.
pub const STROKE_WIDTH: u32 = 0x40a0_0000;

/// A short black stroke at the depth and in the tile that the number gives.
pub fn synthetic_operation(index: u64, depth_radius: i64) -> (operation: EditOperation)
    requires
        0 <= depth_radius <= 10_000,
    ensures
        ({
            let depth = index as int % (2 * depth_radius + 1) - depth_radius;
            let tile_x = scattered(index);
            let tile_y = scattered(index ^ 0x9e37_79b9_7f4a_7c15);
            &&& operation.kind == EditKind::Paint
            &&& operation.native_depth == depth
            &&& operation.native_zoom == NATIVE_ZOOM
            &&& operation.width_px == STROKE_WIDTH
            &&& operation.color == (Color { r: 0, g: 0, b: 0, a: 255 })
            &&& operation.layer_id == 0
            &&& operation.sequence == 0
            &&& !operation.smooth_area
            &&& operation.fill_group_id is None
            &&& operation.paint_order is None
            &&& operation.affects_before_sequence is None
            &&& operation.compact_sources@.len() == 0
            &&& point_views(operation.points@) == seq![
                PointView { depth, tile_x, tile_y, local_x: ONE_TENTH, local_y: ONE_FIFTH },
                PointView { depth, tile_x, tile_y, local_x: ONE_FIFTH, local_y: THREE_TENTHS },
            ]
        }),
{
    let bands: u64 = depth_band_count(depth_radius);
    let depth: i64 = (index % bands) as i64 - depth_radius;
    let tile_x = TileIndex::from_number(scatter(index));
    let tile_y = TileIndex::from_number(scatter(index ^ 0x9e37_79b9_7f4a_7c15));
    let mut points: Vec<CanvasPoint> = Vec::new();
    points.push(CanvasPoint::in_tile(depth, &tile_x, &tile_y, ONE_TENTH, ONE_FIFTH));
    points.push(CanvasPoint::in_tile(depth, &tile_x, &tile_y, ONE_FIFTH, THREE_TENTHS));
    assert(point_views(points@) =~= seq![
        PointView {
            depth: depth as int,
            tile_x: tile_x@,
            tile_y: tile_y@,
            local_x: ONE_TENTH,
            local_y: ONE_FIFTH,
        },
        PointView {
            depth: depth as int,
            tile_x: tile_x@,
            tile_y: tile_y@,
            local_x: ONE_FIFTH,
            local_y: THREE_TENTHS,
        },
    ]);
    draft(EditKind::Paint, depth, NATIVE_ZOOM, points, Color::rgba(0, 0, 0, 255), STROKE_WIDTH)
}

/// The tiles around the origin at a depth, row by row: three to each side.
pub open spec fn viewport(depth: int) -> Seq<KeyView> {
    Seq::new(
        49,
        |i: int| KeyView { depth, x: i % 7 - 3, y: i / 7 - 3, lod: 0 },
    )
}

/// The tiles around the origin at a depth, row by row.
pub fn viewport_keys(depth: i64) -> (keys: Vec<TileKey>)
    ensures
        key_views(keys@) == viewport(depth as int),
{
    let mut keys: Vec<TileKey> = Vec::new();
    let mut i: i64 = 0;
    while i < 49
        invariant
            0 <= i <= 49,
            keys@.len() == i,
            forall|k: int| 0 <= k < i ==> (#[trigger] keys@[k])@ == viewport(depth as int)[k],
        decreases 49 - i,
    {
        keys.push(
            TileKey {
                depth,
                x: TileIndex::from_number(i % 7 - 3),
                y: TileIndex::from_number(i / 7 - 3),
                lod: 0,
            },
        );
        i = i + 1;
    }
    assert(key_views(keys@) =~= viewport(depth as int));
    keys
}

/// The tiles that are asked for: those around the origin at the uppermost depth,
/// at the surface, and at the lowermost depth.
pub fn query_groups(depth_radius: i64) -> (groups: Vec<Vec<TileKey>>)
    requires
        0 <= depth_radius <= 10_000,
    ensures
        groups@.len() == 3,
        key_views(groups@[0]@) == viewport(-depth_radius),
        key_views(groups@[1]@) == viewport(0),
        key_views(groups@[2]@) == viewport(depth_radius as int),
{
    let mut groups: Vec<Vec<TileKey>> = Vec::new();
    groups.push(viewport_keys(-depth_radius));
    groups.push(viewport_keys(0));
    groups.push(viewport_keys(depth_radius));
    groups
}

/// A viewport is a square of seven by seven tiles around the origin, each of them
/// once.
pub proof fn law_viewports_lie_around_the_origin(depth: int, x: int, y: int)
    requires
        -3 <= x <= 3,
        -3 <= y <= 3,
    ensures
        viewport(depth).len() == 49,
        viewport(depth)[(y + 3) * 7 + (x + 3)] == (KeyView { depth, x, y, lod: 0 }),
        forall|i: int|
            0 <= i < 49 ==> -3 <= (#[trigger] viewport(depth)[i]).x <= 3 && -3 <= viewport(
                depth,
            )[i].y <= 3 && viewport(depth)[i].depth == depth && viewport(depth)[i].lod == 0,
{
    let i = (y + 3) * 7 + (x + 3);
    assert(i % 7 == x + 3 && i / 7 == y + 3);
}

/// Tiles are scattered within bounds.
pub proof fn law_tiles_are_scattered_within_bounds(value: u64)
    ensures
        -30_000 < scattered(value) < 10_000,
{
}

} // verus!
