//! Dragged handles, and amounts that are dragged or turned.

use endless_sketch::amounts::{
    adjusted_brush_size, alt_vertical_drag_cycle_steps, clamp_number, z_drag_zoom_factor,
    ALT_SELECTION_DRAG_STEP_PX, MAX_BRUSH_SIZE, MAX_ZOOM_DRAG_FACTOR, MIN_BRUSH_SIZE,
    MIN_ZOOM_DRAG_FACTOR,
};
use endless_sketch::gestures::{
    SelectionRotateGesture, SelectionScaleGesture, SelectionScaleHandle,
};
use endless_sketch::input::{InputEvent, Modifiers, TouchPhase, WheelEvent, WheelUnit};
use endless_sketch::screen::{Position, ScreenRect};
use endless_sketch::scrolls::{ScrollMeasures, LINE_BACKWARD, LINE_FORWARD, NOTHING_LEFT};
use endless_sketch::transforms::{
    selection_rotate_handle_at, selection_scale_handle_at, RotateMeasures, ScaleMeasures,
    MAX_SELECTION_SCALE, MIN_SELECTION_SCALE, NO_DISTANCE, SAME_DIRECTION, SAME_SIZE,
};
use endless_sketch::wheel::wheel_zoom_scrolls;

fn at(x: f32, y: f32) -> Position {
    Position { x: x.to_bits(), y: y.to_bits() }
}

fn x(position: Position) -> f32 {
    f32::from_bits(position.x)
}

fn y(position: Position) -> f32 {
    f32::from_bits(position.y)
}

fn between(min: (f32, f32), max: (f32, f32)) -> ScreenRect {
    ScreenRect { min: at(min.0, min.1), max: at(max.0, max.1) }
}

fn center(rect: ScreenRect) -> Position {
    at((x(rect.min) + x(rect.max)) * 0.5, (y(rect.min) + y(rect.max)) * 0.5)
}

fn width(rect: ScreenRect) -> f32 {
    x(rect.max) - x(rect.min)
}

fn height(rect: ScreenRect) -> f32 {
    y(rect.max) - y(rect.min)
}

fn distance(a: Position, b: Position) -> f32 {
    (x(b) - x(a)).hypot(y(b) - y(a))
}

type Carry = fn(Position, Position, Position) -> Position;
type Square = fn(Position, Position) -> u32;
type Compare = fn(Position, Position, Position) -> u32;
type Place = fn(Position, Position, u32) -> Position;
type Middle = fn(ScreenRect) -> Position;
type Snap = fn(u32) -> u32;

fn scaling() -> ScaleMeasures<Carry, Square, Compare, Place> {
    ScaleMeasures {
        carry: |corner: Position, start: Position, current: Position| {
            at(x(corner) + x(current) - x(start), y(corner) + y(current) - y(start))
        },
        square: |pivot: Position, corner: Position| {
            let (dx, dy) = (x(corner) - x(pivot), y(corner) - y(pivot));
            (dx * dx + dy * dy).to_bits()
        },
        share: |pivot: Position, corner: Position, dragged: Position| {
            let (dx, dy) = (x(corner) - x(pivot), y(corner) - y(pivot));
            let (cx, cy) = (x(dragged) - x(pivot), y(dragged) - y(pivot));
            ((cx * dx + cy * dy) / (dx * dx + dy * dy)).to_bits()
        },
        grow: |pivot: Position, place: Position, scale: u32| {
            let scale = f32::from_bits(scale);
            at(
                x(pivot) + (x(place) - x(pivot)) * scale,
                y(pivot) + (y(place) - y(pivot)) * scale,
            )
        },
    }
}

fn rotating() -> RotateMeasures<Middle, Compare, Compare, Snap, Place> {
    RotateMeasures {
        middle: center,
        spread: |center: Position, start: Position, current: Position| {
            (distance(center, start) * distance(center, current)).to_bits()
        },
        turn: |center: Position, start: Position, current: Position| {
            let angle = |place: Position| (y(place) - y(center)).atan2(x(place) - x(center));
            (angle(current) - angle(start)).to_bits()
        },
        snap: |angle: u32| {
            let step = std::f32::consts::PI / 12.0;
            ((f32::from_bits(angle) / step).round() * step).to_bits()
        },
        spin: |center: Position, place: Position, angle: u32| {
            let (sin, cos) = f32::from_bits(angle).sin_cos();
            let (dx, dy) = (x(place) - x(center), y(place) - y(center));
            at(x(center) + dx * cos - dy * sin, y(center) + dx * sin + dy * cos)
        },
    }
}

fn scale_handle_at(bounds: ScreenRect, position: Position) -> Option<SelectionScaleHandle> {
    selection_scale_handle_at(&bounds, position, &|corner: Position, position: Position| {
        distance(corner, position) <= 9.0
    })
}

fn rotate_handle_position(bounds: ScreenRect) -> Position {
    at(x(center(bounds)), y(bounds.min) - 30.0)
}

fn rotate_handle_at(bounds: ScreenRect, position: Position) -> bool {
    selection_rotate_handle_at(
        &bounds,
        position,
        &rotate_handle_position,
        &|handle: Position, position: Position| distance(handle, position) <= 10.0,
    )
}

#[test]
fn selection_scale_handles_hit_corners_and_preserve_click_offset() {
    let bounds = between((10.0, 20.0), (110.0, 70.0));
    assert_eq!(
        scale_handle_at(bounds, at(114.0, 74.0)),
        Some(SelectionScaleHandle::BottomRight)
    );
    assert_eq!(scale_handle_at(bounds, center(bounds)), None);

    let gesture = SelectionScaleGesture {
        handle: SelectionScaleHandle::BottomRight,
        bounds,
        pointer_start: at(114.0, 74.0),
        current: at(114.0, 74.0),
    };
    assert!((f32::from_bits(scaling().scale(&gesture)) - 1.0).abs() < f32::EPSILON);
}

#[test]
fn the_first_of_the_handles_that_are_near_is_taken() {
    let dot = between((10.0, 10.0), (12.0, 12.0));
    assert_eq!(scale_handle_at(dot, at(11.0, 11.0)), Some(SelectionScaleHandle::TopLeft));
    let wide = between((0.0, 0.0), (100.0, 4.0));
    assert_eq!(scale_handle_at(wide, at(99.0, 4.0)), Some(SelectionScaleHandle::TopRight));
    let tall = between((0.0, 0.0), (100.0, 100.0));
    assert_eq!(scale_handle_at(tall, at(3.0, 96.0)), Some(SelectionScaleHandle::BottomLeft));
}

#[test]
fn selection_corner_scale_is_uniform_and_clamped_above_zero() {
    let bounds = between((0.0, 0.0), (100.0, 50.0));
    let factor = |handle: SelectionScaleHandle, dragged: Position| {
        f32::from_bits(scaling().selection_scale_factor(&bounds, handle, dragged))
    };
    assert!(
        (factor(SelectionScaleHandle::BottomRight, at(200.0, 100.0)) - 2.0).abs() < f32::EPSILON
    );
    assert!((factor(SelectionScaleHandle::TopLeft, at(-100.0, -50.0)) - 2.0).abs() < f32::EPSILON);
    assert_eq!(
        factor(SelectionScaleHandle::BottomRight, at(-10.0, -10.0)),
        f32::from_bits(MIN_SELECTION_SCALE)
    );
}

#[test]
fn sizes_stay_within_their_limits() {
    assert_eq!(f32::from_bits(MIN_SELECTION_SCALE), 0.05);
    assert_eq!(f32::from_bits(MAX_SELECTION_SCALE), 64.0);
    assert_eq!(f32::from_bits(SAME_SIZE), 1.0);
    assert_eq!(f32::from_bits(SAME_DIRECTION), 0.0);
    assert_eq!(f32::from_bits(NO_DISTANCE), f32::EPSILON);

    let corner = SelectionScaleHandle::BottomRight;
    let small = between((0.0, 0.0), (1.0, 1.0));
    assert_eq!(
        scaling().selection_scale_factor(&small, corner, at(1000.0, 1000.0)),
        MAX_SELECTION_SCALE
    );
    let dot = between((5.0, 5.0), (5.0, 5.0));
    assert_eq!(scaling().selection_scale_factor(&dot, corner, at(90.0, 90.0)), SAME_SIZE);
}

#[test]
fn dragged_corners_move_away_from_the_opposite_ones() {
    let gesture = SelectionScaleGesture {
        handle: SelectionScaleHandle::BottomRight,
        bounds: between((10.0, 20.0), (110.0, 70.0)),
        pointer_start: at(112.0, 71.0),
        current: at(212.0, 121.0),
    };
    assert_eq!(f32::from_bits(scaling().scale(&gesture)), 2.0);
    let moved = scaling().transform_position(&gesture, at(60.0, 45.0));
    assert_eq!((x(moved), y(moved)), (110.0, 70.0));
    let bounds = scaling().transformed_bounds(&gesture);
    assert_eq!((x(bounds.min), y(bounds.min)), (10.0, 20.0));
    assert_eq!((x(bounds.max), y(bounds.max)), (210.0, 120.0));
}

#[test]
fn selection_rotate_handle_tracks_angle_snap_and_bounds() {
    let bounds = between((100.0, 100.0), (200.0, 160.0));
    let handle = rotate_handle_position(bounds);
    assert!(rotate_handle_at(bounds, at(x(handle) + 2.0, y(handle) - 1.0)));
    assert!(!rotate_handle_at(bounds, center(bounds)));

    let free = SelectionRotateGesture {
        bounds,
        pointer_start: handle,
        current: at(x(center(bounds)) + 60.0, y(center(bounds))),
        snap: false,
    };
    let angle = |gesture: &SelectionRotateGesture| f32::from_bits(rotating().angle(gesture));
    assert!((angle(&free) - std::f32::consts::FRAC_PI_2).abs() < 0.001);
    let rotated = rotating().transform_position(&free, at(200.0, 130.0));
    assert!((x(rotated) - 150.0).abs() < 0.001);
    assert!((y(rotated) - 180.0).abs() < 0.001);
    let transformed_bounds = rotating().transformed_bounds(&free);
    assert!((width(transformed_bounds) - height(bounds)).abs() < 0.001);
    assert!((height(transformed_bounds) - width(bounds)).abs() < 0.001);

    let snapped = SelectionRotateGesture {
        current: at(x(center(bounds)) + 60.0, y(center(bounds)) + 3.0),
        snap: true,
        ..free
    };
    assert!((angle(&snapped) - std::f32::consts::FRAC_PI_2).abs() < 0.001);
}

#[test]
fn a_pointer_at_the_center_rotates_nothing() {
    let bounds = between((100.0, 100.0), (200.0, 160.0));
    let gesture = SelectionRotateGesture {
        bounds,
        pointer_start: rotate_handle_position(bounds),
        current: center(bounds),
        snap: true,
    };
    assert_eq!(rotating().angle(&gesture), SAME_DIRECTION);
}

#[test]
fn alt_vertical_drag_cycles_by_threshold_and_direction() {
    let steps = |current: Position| {
        alt_vertical_drag_cycle_steps(
            at(100.0, 100.0),
            current,
            &|start: Position, current: Position| (y(current) - y(start)).to_bits(),
            &|height: u32| {
                (f32::from_bits(height) / f32::from_bits(ALT_SELECTION_DRAG_STEP_PX)).floor()
                    as isize
            },
        )
    };

    assert_eq!(f32::from_bits(ALT_SELECTION_DRAG_STEP_PX), 28.0);
    assert_eq!(steps(at(100.0, 127.0)), 0);
    assert_eq!(steps(at(100.0, 128.0)), 1);
    assert_eq!(steps(at(100.0, 160.0)), 2);
    assert_eq!(steps(at(100.0, 72.0)), -1);
}

const NO_KEYS: Modifiers =
    Modifiers { alt: false, ctrl: false, shift: false, mac_cmd: false, command: false };

fn turn(unit: WheelUnit, delta_y: f32, phase: TouchPhase) -> InputEvent {
    InputEvent::Wheel(WheelEvent {
        unit,
        phase,
        delta_x: 0.0f32.to_bits(),
        delta_y: delta_y.to_bits(),
        detents: delta_y.abs().round() as u64,
        modifiers: NO_KEYS,
    })
}

fn scrolled(event: InputEvent, remainder: &mut u32, page: f32) -> Vec<f32> {
    let number = f32::from_bits;
    let measures = ScrollMeasures {
        total: |left: u32, right: u32| (number(left) + number(right)).to_bits(),
        whole: |points: u32| number(points).trunc().to_bits(),
        rest: |points: u32, whole: u32| (number(points) - number(whole)).to_bits(),
        pages: |count: u32| (number(count) * page).to_bits(),
    };
    measures
        .scroll_points(&wheel_zoom_scrolls(&vec![event]), remainder)
        .into_iter()
        .map(number)
        .collect()
}

#[test]
fn wheel_zoom_accumulates_fractional_point_scroll() {
    let point = |delta_y: f32, phase: TouchPhase| turn(WheelUnit::Point, delta_y, phase);
    let mut remainder = NOTHING_LEFT;

    assert_eq!(
        scrolled(point(0.4, TouchPhase::Move), &mut remainder, 720.0),
        Vec::<f32>::new()
    );
    assert!((f32::from_bits(remainder) - 0.4).abs() <= f32::EPSILON);
    assert_eq!(scrolled(point(0.7, TouchPhase::Move), &mut remainder, 720.0), vec![1.0]);
    assert!((f32::from_bits(remainder) - 0.1).abs() <= f32::EPSILON);
    assert_eq!(
        scrolled(point(0.0, TouchPhase::End), &mut remainder, 720.0),
        Vec::<f32>::new()
    );
    assert_eq!(f32::from_bits(remainder), 0.0);
}

#[test]
fn lines_and_pages_scroll_by_their_own_lengths() {
    assert_eq!(f32::from_bits(LINE_FORWARD), 40.0);
    assert_eq!(f32::from_bits(LINE_BACKWARD), -40.0);

    let mut remainder = 0.25f32.to_bits();
    let lines = turn(WheelUnit::Line, -2.0, TouchPhase::Move);
    assert_eq!(scrolled(lines, &mut remainder, 720.0), vec![-40.0, -40.0]);
    assert_eq!(f32::from_bits(remainder), 0.25);

    let page = turn(WheelUnit::Page, 1.5, TouchPhase::Move);
    assert_eq!(scrolled(page, &mut remainder, 720.0), vec![1080.0]);
}

fn brush_size(current: f32, delta: f32) -> f32 {
    f32::from_bits(adjusted_brush_size(
        current.to_bits(),
        delta.to_bits(),
        &|current: u32, delta: u32| (f32::from_bits(current) + f32::from_bits(delta)).to_bits(),
    ))
}

#[test]
fn brush_size_adjustment_is_clamped_to_toolbar_range() {
    assert_eq!(f32::from_bits(MIN_BRUSH_SIZE), 1.0);
    assert_eq!(f32::from_bits(MAX_BRUSH_SIZE), 100.0);
    assert_eq!(brush_size(10.0, 5.0), 15.0);
    assert_eq!(brush_size(10.0, -20.0), f32::from_bits(MIN_BRUSH_SIZE));
    assert_eq!(brush_size(99.0, 20.0), f32::from_bits(MAX_BRUSH_SIZE));
}

#[test]
fn z_zoom_drag_direction_is_stable() {
    let factor = |delta_y: f32| {
        f64::from_bits(z_drag_zoom_factor(delta_y.to_bits(), &|delta_y: u32| {
            (-f64::from(f32::from_bits(delta_y)) * 0.01).exp().to_bits()
        }))
    };
    assert_eq!(f64::from_bits(MIN_ZOOM_DRAG_FACTOR), 0.5);
    assert_eq!(f64::from_bits(MAX_ZOOM_DRAG_FACTOR), 2.0);
    assert!(factor(-10.0) > 1.0);
    assert!(factor(10.0) < 1.0);
    assert_eq!(factor(0.0), 1.0);
    assert_eq!(factor(-10_000.0), 2.0);
    assert_eq!(factor(10_000.0), 0.5);
}

#[test]
fn numbers_are_clamped_between_limits() {
    let clamp = |number: f32| {
        f32::from_bits(clamp_number(number.to_bits(), (-1.0f32).to_bits(), 2.0f32.to_bits()))
    };
    assert_eq!(clamp(-3.0), -1.0);
    assert_eq!(clamp(0.5), 0.5);
    assert_eq!(clamp(7.0), 2.0);
    assert!(clamp(f32::NAN).is_nan());
}
