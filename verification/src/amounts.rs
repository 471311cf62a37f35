//! Amounts taken from drags, kept within their limits.

use crate::camera::{double_less_than, is_less_double};
use crate::screen::{
    at_most, is_number, less_than, magnitude, number_less_than, without_sign, Position,
};
use vstd::prelude::*;

verus! {

/// The bit pattern of the least size of the brush.
pub const MIN_BRUSH_SIZE: u32 = 0x3f80_0000;

/// The bit pattern of the greatest size of the brush.
pub const MAX_BRUSH_SIZE: u32 = 0x42c8_0000;

/// The bit pattern of the least factor of a zoom by dragging.
pub const MIN_ZOOM_DRAG_FACTOR: u64 = 0x3fe0_0000_0000_0000;

/// The bit pattern of the greatest factor of a zoom by dragging.
pub const MAX_ZOOM_DRAG_FACTOR: u64 = 0x4000_0000_0000_0000;

/// The bit pattern of the distance of a step to the next object.
pub const ALT_SELECTION_DRAG_STEP_PX: u32 = 0x41e0_0000;

/// The number, or the limit that it is beyond. What is no number stays as it is.
pub open spec fn clamped(bits: u32, low: u32, high: u32) -> u32 {
    if less_than(bits, low) {
        low
    } else if less_than(high, bits) {
        high
    } else {
        bits
    }
}

/// A number that is kept within limits lies between them, and one that lies between
/// them stays as it is.
pub proof fn law_clamped_numbers_lie_between(bits: u32, low: u32, high: u32)
    requires
        at_most(low, high),
        is_number(bits),
    ensures
        at_most(low, clamped(bits, low, high)),
        at_most(clamped(bits, low, high), high),
        at_most(low, bits) && at_most(bits, high) ==> clamped(bits, low, high) == bits,
{
}

/// The number, or the limit that it is beyond.
pub fn clamp_number(bits: u32, low: u32, high: u32) -> (result: u32)
    ensures
        result == clamped(bits, low, high),
{
    if number_less_than(bits, low) {
        low
    } else if number_less_than(high, bits) {
        high
    } else {
        bits
    }
}

/// The double-precision number, or the limit that it is beyond. What is no number
/// stays as it is.
pub open spec fn clamped_double(bits: u64, low: u64, high: u64) -> u64 {
    if is_less_double(bits, low) {
        low
    } else if is_less_double(high, bits) {
        high
    } else {
        bits
    }
}

/// The size of the brush after a drag: the sum that `total` gives, within the
/// limits.
pub fn adjusted_brush_size<A: Fn(u32, u32) -> u32>(current: u32, delta: u32, total: &A) -> (size: u32)
    requires
        call_requires(*total, (current, delta)),
    ensures
        exists|sum: u32| #[trigger]
            call_ensures(*total, (current, delta), sum) && size == clamped(
                sum,
                MIN_BRUSH_SIZE,
                MAX_BRUSH_SIZE,
            ),
{
    let sum: u32 = (*total)(current, delta);
    assert(call_ensures(*total, (current, delta), sum));
    clamp_number(sum, MIN_BRUSH_SIZE, MAX_BRUSH_SIZE)
}

/// The factor of a zoom by dragging: what `grow` makes of the drag, within the
/// limits.
pub fn z_drag_zoom_factor<G: Fn(u32) -> u64>(delta_y: u32, grow: &G) -> (factor: u64)
    requires
        call_requires(*grow, (delta_y,)),
    ensures
        exists|growth: u64| #[trigger]
            call_ensures(*grow, (delta_y,), growth) && factor == clamped_double(
                growth,
                MIN_ZOOM_DRAG_FACTOR,
                MAX_ZOOM_DRAG_FACTOR,
            ),
{
    let growth: u64 = (*grow)(delta_y);
    assert(call_ensures(*grow, (delta_y,), growth));
    if double_less_than(growth, MIN_ZOOM_DRAG_FACTOR) {
        MIN_ZOOM_DRAG_FACTOR
    } else if double_less_than(MAX_ZOOM_DRAG_FACTOR, growth) {
        MAX_ZOOM_DRAG_FACTOR
    } else {
        growth
    }
}

/// How many objects a drag with the alt key goes on, backwards for a drag up:
/// none before the first step, and then as many as `steps` counts in the height
/// that `rise` measures.
pub fn alt_vertical_drag_cycle_steps<R: Fn(Position, Position) -> u32, C: Fn(u32) -> isize>(
    start: Position,
    current: Position,
    rise: &R,
    steps: &C,
) -> (result: isize)
    requires
        call_requires(*rise, (start, current)),
        forall|height: u32| #[trigger] call_requires(*steps, (height,)),
        forall|height: u32, count: isize| #[trigger]
            call_ensures(*steps, (height,), count) ==> count >= 0,
    ensures
        exists|delta: u32| #[trigger]
            call_ensures(*rise, (start, current), delta) && if less_than(
                magnitude(delta),
                ALT_SELECTION_DRAG_STEP_PX,
            ) {
                result == 0
            } else {
                exists|count: isize| #[trigger]
                    call_ensures(*steps, (magnitude(delta),), count) && result == if less_than(
                        0,
                        delta,
                    ) {
                        count as int
                    } else {
                        -count
                    }
            },
{
    let delta: u32 = (*rise)(start, current);
    assert(call_ensures(*rise, (start, current), delta));
    let height: u32 = without_sign(delta);
    if number_less_than(height, ALT_SELECTION_DRAG_STEP_PX) {
        return 0;
    }
    let count: isize = (*steps)(height);
    assert(call_ensures(*steps, (magnitude(delta),), count));
    if number_less_than(0, delta) {
        count
    } else {
        -count
    }
}

} // verus!
