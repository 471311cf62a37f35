//! The camera, held by bit patterns of double-precision numbers.

use crate::tile_index::TileIndex;
use crate::precision::{EIGHTH_DOUBLE, SIXTY_FOUR_DOUBLE};
use vstd::arithmetic::power::{lemma_pow0, lemma_pow1, lemma_pow_adds, pow};
use vstd::arithmetic::power2::{lemma2_to64, lemma_pow2_unfold, pow2};
use vstd::prelude::*;

verus! {

/// The bit pattern of the double-precision infinity.
pub const INFINITE_DOUBLE: u64 = 0x7ff0_0000_0000_0000;

/// The bit that holds the sign of a double-precision number.
pub const DOUBLE_SIGN_BIT: u64 = 0x8000_0000_0000_0000;

/// The bit pattern of one.
pub const ONE_DOUBLE: u64 = 0x3ff0_0000_0000_0000;

/// Whether a pattern is a finite number greater than zero.
pub open spec fn is_positive_double(bits: u64) -> bool {
    0 < bits < INFINITE_DOUBLE
}

/// Whether a pattern is a finite number greater than zero.
pub fn positive_double(bits: u64) -> (result: bool)
    ensures
        result == is_positive_double(bits),
{
    0 < bits && bits < INFINITE_DOUBLE
}

/// Where a double-precision number stands among the numbers.
pub open spec fn double_rank(bits: u64) -> int {
    if bits >= DOUBLE_SIGN_BIT {
        -(bits - DOUBLE_SIGN_BIT)
    } else {
        bits as int
    }
}

/// Whether both patterns are equal double-precision numbers.
pub open spec fn equal_doubles(left: u64, right: u64) -> bool {
    &&& -INFINITE_DOUBLE <= double_rank(left) <= INFINITE_DOUBLE
    &&& double_rank(left) == double_rank(right)
}

fn rank_of_double(bits: u64) -> (result: i128)
    ensures
        result == double_rank(bits),
{
    if bits >= DOUBLE_SIGN_BIT {
        -((bits - DOUBLE_SIGN_BIT) as i128)
    } else {
        bits as i128
    }
}

/// Whether both are numbers and the left one is at most the right one.
pub open spec fn is_at_most(left: u64, right: u64) -> bool {
    &&& -INFINITE_DOUBLE <= double_rank(left) <= double_rank(right)
    &&& double_rank(right) <= INFINITE_DOUBLE
}

/// Whether both are numbers and the left one is at most the right one.
pub fn double_at_most(left: u64, right: u64) -> (result: bool)
    ensures
        result == is_at_most(left, right),
{
    let limit: i128 = INFINITE_DOUBLE as i128;
    let first: i128 = rank_of_double(left);
    let second: i128 = rank_of_double(right);
    -limit <= first && first <= second && second <= limit
}

/// Whether both are numbers and the left one is less than the right one.
pub open spec fn is_less_double(left: u64, right: u64) -> bool {
    &&& -INFINITE_DOUBLE <= double_rank(left) < double_rank(right)
    &&& double_rank(right) <= INFINITE_DOUBLE
}

/// Whether both are numbers and the left one is less than the right one.
pub fn double_less_than(left: u64, right: u64) -> (result: bool)
    ensures
        result == is_less_double(left, right),
{
    let limit: i128 = INFINITE_DOUBLE as i128;
    let first: i128 = rank_of_double(left);
    let second: i128 = rank_of_double(right);
    -limit <= first && first < second && second <= limit
}

/// Whether both patterns are equal double-precision numbers.
pub fn doubles_match(left: u64, right: u64) -> (same: bool)
    ensures
        same == equal_doubles(left, right),
{
    let place: i128 = rank_of_double(left);
    let limit: i128 = INFINITE_DOUBLE as i128;
    -limit <= place && place <= limit && place == rank_of_double(right)
}

/// A camera: the place it looks at and how close.
pub struct CameraAddress {
    pub depth: i64,
    pub tile_x: TileIndex,
    pub tile_y: TileIndex,
    pub local_x: u64,
    pub local_y: u64,
    pub zoom: u64,
}

/// What a camera is, mathematically.
pub struct CameraView {
    pub depth: int,
    pub tile_x: int,
    pub tile_y: int,
    pub local_x: u64,
    pub local_y: u64,
    pub zoom: u64,
}

impl View for CameraAddress {
    type V = CameraView;

    open spec fn view(&self) -> CameraView {
        CameraView {
            depth: self.depth as int,
            tile_x: self.tile_x@,
            tile_y: self.tile_y@,
            local_x: self.local_x,
            local_y: self.local_y,
            zoom: self.zoom,
        }
    }
}

/// Whether both cameras look at the same place as closely.
pub open spec fn same_camera(left: CameraAddress, right: CameraAddress) -> bool {
    &&& left.depth == right.depth
    &&& left.tile_x@ == right.tile_x@
    &&& left.tile_y@ == right.tile_y@
    &&& equal_doubles(left.local_x, right.local_x)
    &&& equal_doubles(left.local_y, right.local_y)
    &&& equal_doubles(left.zoom, right.zoom)
}

impl CameraAddress {
    /// Whether both cameras look at the same place as closely.
    pub fn same_as(&self, other: &CameraAddress) -> (same: bool)
        ensures
            same == same_camera(*self, *other),
    {
        self.depth == other.depth && self.tile_x.same_as(&other.tile_x) && self.tile_y.same_as(
            &other.tile_y,
        ) && doubles_match(self.local_x, other.local_x) && doubles_match(
            self.local_y,
            other.local_y,
        ) && doubles_match(self.zoom, other.zoom)
    }
}

impl Clone for CameraAddress {
    fn clone(&self) -> (copy: Self)
        ensures
            copy@ == self@,
    {
        CameraAddress {
            depth: self.depth,
            tile_x: self.tile_x.clone(),
            tile_y: self.tile_y.clone(),
            local_x: self.local_x,
            local_y: self.local_y,
            zoom: self.zoom,
        }
    }
}

/// The bit pattern of eight.
pub const EIGHT_DOUBLE: u64 = 0x4020_0000_0000_0000;

/// How far apart the patterns of a number and of its double are.
pub const DOUBLING_STEP: u64 = 0x0010_0000_0000_0000;

/// A finite number that is not negative, in units of the least one there is.
pub open spec fn units(bits: u64) -> nat {
    if bits < DOUBLING_STEP {
        bits as nat
    } else {
        ((DOUBLING_STEP + bits % DOUBLING_STEP) * pow2(((bits / DOUBLING_STEP) - 1) as nat)) as nat
    }
}

/// The double of a number.
pub open spec fn doubled(bits: u64) -> u64 {
    if bits < DOUBLING_STEP {
        (bits * 2) as u64
    } else {
        (bits + DOUBLING_STEP) as u64
    }
}

/// Eight times a number.
pub open spec fn times_eight(bits: u64) -> u64 {
    doubled(doubled(doubled(bits)))
}

fn double(bits: u64) -> (result: u64)
    requires
        bits < EIGHT_DOUBLE,
    ensures
        result == doubled(bits),
        result <= bits + DOUBLING_STEP,
        bits > 0 ==> result > bits,
{
    if bits < DOUBLING_STEP {
        bits * 2
    } else {
        bits + DOUBLING_STEP
    }
}

proof fn lemma_doubled(bits: u64)
    requires
        bits < INFINITE_DOUBLE,
    ensures
        units(doubled(bits)) == 2 * units(bits),
        doubled(bits) <= bits + DOUBLING_STEP,
        bits > 0 ==> doubled(bits) > bits,
{
    let next = doubled(bits);
    lemma2_to64();
    if bits < DOUBLING_STEP {
        assert(next == bits * 2);
        if next >= DOUBLING_STEP {
            assert(next / DOUBLING_STEP == 1 && next % DOUBLING_STEP == next - DOUBLING_STEP)
                by (nonlinear_arith)
                requires
                    DOUBLING_STEP <= next < 2 * DOUBLING_STEP,
                    DOUBLING_STEP == 0x0010_0000_0000_0000,
            ;
            assert(units(next) == next * pow2(0));
        }
    } else {
        let exponent = bits / DOUBLING_STEP;
        assert(next == bits + DOUBLING_STEP);
        assert(next / DOUBLING_STEP == exponent + 1 && next % DOUBLING_STEP == bits % DOUBLING_STEP)
            by (nonlinear_arith)
            requires
                next == bits + DOUBLING_STEP,
                exponent == bits / DOUBLING_STEP,
                DOUBLING_STEP == 0x0010_0000_0000_0000,
        ;
        assert(exponent >= 1) by (nonlinear_arith)
            requires
                exponent == bits / DOUBLING_STEP,
                bits >= DOUBLING_STEP,
                DOUBLING_STEP == 0x0010_0000_0000_0000,
        ;
        lemma_pow2_unfold(exponent as nat);
        let low = DOUBLING_STEP + bits % DOUBLING_STEP;
        let power = pow2((exponent - 1) as nat);
        assert(low * power >= 0) by (nonlinear_arith)
            requires
                low >= 0,
                power >= 0,
        ;
        assert(units(bits) == low * power);
        assert(pow2(exponent as nat) == 2 * power);
        assert(low * (2 * power) == 2 * (low * power)) by (nonlinear_arith);
        assert(units(next) == low * (2 * power));
    }
}

/// A zoom of at least eight, brought below eight by going so many levels deeper.
pub open spec fn lowered(zoom: u64) -> (int, u64)
    decreases zoom,
{
    if zoom < EIGHT_DOUBLE {
        (0, zoom)
    } else {
        let rest = lowered((zoom - 3 * DOUBLING_STEP) as u64);
        (rest.0 + 1, rest.1)
    }
}

/// A zoom below one, brought up to one by going so many levels shallower.
pub open spec fn raised(zoom: u64) -> (int, u64)
    decreases EIGHT_DOUBLE - zoom,
{
    if zoom == 0 || zoom >= ONE_DOUBLE {
        (0, zoom)
    } else {
        let rest = raised(times_eight(zoom));
        (rest.0 - 1, rest.1)
    }
}

/// How many levels deeper a zoom is, and what is left of it there.
pub open spec fn settled(zoom: u64) -> (int, u64) {
    if zoom >= EIGHT_DOUBLE {
        lowered(zoom)
    } else {
        raised(zoom)
    }
}

proof fn lemma_times_eight(zoom: u64)
    requires
        zoom < EIGHT_DOUBLE,
    ensures
        units(times_eight(zoom)) == 8 * units(zoom),
        times_eight(zoom) <= zoom + 3 * DOUBLING_STEP,
        zoom > 0 ==> times_eight(zoom) > zoom,
{
    lemma_doubled(zoom);
    lemma_doubled(doubled(zoom));
    lemma_doubled(doubled(doubled(zoom)));
}

/// A zoom that is at most one level off settles within a level.
pub(crate) proof fn lemma_settled_within_a_level(zoom: u64)
    requires
        EIGHTH_DOUBLE <= zoom < SIXTY_FOUR_DOUBLE,
    ensures
        ({
            let (levels, rest) = settled(zoom);
            &&& -1 <= levels <= 1
            &&& ONE_DOUBLE <= rest < EIGHT_DOUBLE
        }),
{
    reveal_with_fuel(lowered, 2);
    reveal_with_fuel(raised, 2);
    if zoom < ONE_DOUBLE {
        assert(times_eight(zoom) == zoom + 3 * DOUBLING_STEP);
    }
}

proof fn lemma_lowered(zoom: u64)
    requires
        ONE_DOUBLE <= zoom < INFINITE_DOUBLE,
    ensures
        ({
            let (levels, rest) = lowered(zoom);
            &&& 0 <= levels <= zoom
            &&& ONE_DOUBLE <= rest < EIGHT_DOUBLE
            &&& units(rest) * pow(8, levels as nat) == units(zoom)
        }),
    decreases zoom,
{
    let (levels, rest) = lowered(zoom);
    if zoom < EIGHT_DOUBLE {
        lemma_pow0(8);
    } else {
        let below = (zoom - 3 * DOUBLING_STEP) as u64;
        lemma_lowered(below);
        lemma_doubled(below);
        lemma_doubled((below + DOUBLING_STEP) as u64);
        lemma_doubled((below + 2 * DOUBLING_STEP) as u64);
        assert(units(zoom) == 8 * units(below));
        lemma_pow1(8);
        lemma_pow_adds(8, 1, (levels - 1) as nat);
        assert(units(rest) * (8 * pow(8, (levels - 1) as nat)) == 8 * (units(rest) * pow(
            8,
            (levels - 1) as nat,
        ))) by (nonlinear_arith);
    }
}

proof fn lemma_raised(zoom: u64)
    requires
        0 < zoom < EIGHT_DOUBLE,
    ensures
        ({
            let (levels, rest) = raised(zoom);
            &&& -ONE_DOUBLE <= levels <= 0
            &&& -levels <= ONE_DOUBLE - zoom || levels == 0
            &&& ONE_DOUBLE <= rest < EIGHT_DOUBLE
            &&& units(rest) == units(zoom) * pow(8, (-levels) as nat)
        }),
    decreases EIGHT_DOUBLE - zoom,
{
    let (levels, rest) = raised(zoom);
    if zoom >= ONE_DOUBLE {
        lemma_pow0(8);
    } else {
        lemma_times_eight(zoom);
        lemma_raised(times_eight(zoom));
        let inner = -levels - 1;
        lemma_pow1(8);
        lemma_pow_adds(8, 1, inner as nat);
        assert(units(zoom) * (8 * pow(8, inner as nat)) == (8 * units(zoom)) * pow(8, inner as nat))
            by (nonlinear_arith);
    }
}

/// However far a zoom is carried over to the depth, it shows everything at the
/// same size, and ends between one and eight.
pub proof fn law_settled_zoom_shows_the_same_size(zoom: u64)
    requires
        is_positive_double(zoom),
    ensures
        ({
            let (levels, rest) = settled(zoom);
            &&& ONE_DOUBLE <= rest < EIGHT_DOUBLE
            &&& i64::MIN <= levels <= i64::MAX
            &&& levels >= 0 ==> units(rest) * pow(8, levels as nat) == units(zoom)
            &&& levels <= 0 ==> units(rest) == units(zoom) * pow(8, (-levels) as nat)
        }),
{
    if zoom >= EIGHT_DOUBLE {
        lemma_lowered(zoom);
        if settled(zoom).0 == 0 {
            lemma_pow0(8);
        }
    } else {
        lemma_raised(zoom);
        if settled(zoom).0 == 0 {
            lemma_pow0(8);
        }
    }
}

/// How many levels deeper a zoom is, and what is left of it there.
pub fn settle_zoom(zoom: u64) -> (result: (i64, u64))
    requires
        is_positive_double(zoom),
    ensures
        result.0 == settled(zoom).0,
        result.1 == settled(zoom).1,
{
    let mut levels: i64 = 0;
    let mut rest: u64 = zoom;
    if zoom >= EIGHT_DOUBLE {
        while rest >= EIGHT_DOUBLE
            invariant
                ONE_DOUBLE <= rest <= zoom < INFINITE_DOUBLE,
                0 <= levels,
                levels + rest <= zoom,
                lowered(zoom).0 == levels + lowered(rest).0,
                lowered(zoom).1 == lowered(rest).1,
            decreases rest,
        {
            rest = rest - 3 * DOUBLING_STEP;
            levels = levels + 1;
        }
    } else {
        while rest < ONE_DOUBLE
            invariant
                0 < rest < EIGHT_DOUBLE,
                zoom < EIGHT_DOUBLE,
                levels <= 0,
                -levels <= rest,
                raised(zoom).0 == levels + raised(rest).0,
                raised(zoom).1 == raised(rest).1,
            decreases EIGHT_DOUBLE - rest,
        {
            proof {
                lemma_times_eight(rest);
            }
            rest = double(double(double(rest)));
            levels = levels - 1;
        }
    }
    (levels, rest)
}

} // verus!
