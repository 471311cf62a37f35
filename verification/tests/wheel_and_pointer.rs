use endless_sketch::input::{
    paint_order_wheel_steps, primary_pointer_positions, raw_wheel_input_present,
    selection_wheel_steps, wheel_zoom_gesture_ended, InputEvent, Modifiers, TouchPhase,
    WheelEvent, WheelUnit,
};
use endless_sketch::navigation::{
    drag_navigation, navigation_actions, wheel_navigation, DragNavigation, NavigationAction,
    NavigationInput, NavigationRequests, WheelNavigation,
};
use endless_sketch::screen::Position;
use endless_sketch::wheel::{
    touch_phase_label, wheel_unit_label, wheel_zoom_input_diagnostics, wheel_zoom_scrolls,
    ScrollDirection, ScrollStep, WheelZoomDirectionLatch, WheelZoomLatchResult, WHEEL_ZOOM_DIRECTION_LATCH_TIMEOUT,
};

const MILLISECOND: u64 = 1_000_000;
const NO_KEYS: Modifiers =
    Modifiers { alt: false, ctrl: false, shift: false, mac_cmd: false, command: false };
const ALT: Modifiers = Modifiers { alt: true, ..NO_KEYS };
const CTRL: Modifiers = Modifiers { ctrl: true, ..NO_KEYS };

fn at(x: f32, y: f32) -> Position {
    Position { x: x.to_bits(), y: y.to_bits() }
}

fn place(position: Position) -> (f32, f32) {
    (f32::from_bits(position.x), f32::from_bits(position.y))
}

fn wheel(delta_y: f32, unit: WheelUnit, phase: TouchPhase, modifiers: Modifiers) -> InputEvent {
    InputEvent::Wheel(WheelEvent {
        unit,
        phase,
        delta_x: 0.0f32.to_bits(),
        delta_y: delta_y.to_bits(),
        detents: delta_y.abs().round() as u64,
        modifiers,
    })
}

fn line(delta_y: f32, modifiers: Modifiers) -> InputEvent {
    wheel(delta_y, WheelUnit::Line, TouchPhase::Move, modifiers)
}

fn bits(numbers: &[f32]) -> Vec<u32> {
    numbers.iter().map(|number| number.to_bits()).collect()
}

fn apply(
    latch: &mut WheelZoomDirectionLatch,
    scrolls: &[f32],
    ended: bool,
    now: u64,
) -> WheelZoomLatchResult {
    let total: f32 = scrolls.iter().sum();
    latch.apply(&bits(scrolls), total.to_bits(), ended, now)
}

fn still() -> NavigationInput {
    NavigationInput {
        hovered: true,
        hover_position: Some(at(3.0, 4.0)),
        selects_objects: false,
        alt: false,
        space_down: false,
        z_down: false,
        primary_down: false,
        middle_down: false,
        delta_x: 0.0f32.to_bits(),
        delta_y: 0.0f32.to_bits(),
    }
}

#[test]
fn wheel_cycle_counts_each_raw_detent_once_even_in_one_frame() {
    let events = vec![line(-1.0, ALT), line(-2.0, ALT), line(1.0, ALT)];

    assert_eq!(selection_wheel_steps(&events), vec![1, 1, 1, -1]);
}

#[test]
fn paint_order_wheel_counts_ctrl_detents_and_ignores_other_modifiers() {
    let events = vec![
        line(1.0, CTRL),
        line(-2.0, CTRL),
        line(1.0, ALT),
        line(1.0, Modifiers { ctrl: true, alt: true, ..NO_KEYS }),
        line(1.0, NO_KEYS),
    ];

    assert_eq!(paint_order_wheel_steps(&events), vec![1, -1, -1]);
}

#[test]
fn wheel_zoom_counts_line_detents_in_event_order() {
    let steps = wheel_zoom_scrolls(&vec![
        line(1.0, NO_KEYS),
        line(-2.0, NO_KEYS),
        line(1.0, NO_KEYS),
    ]);

    // The scrolls of the steps in turn: each line turned gives one scroll.
    let mut scrolls: Vec<ScrollDirection> = vec![];
    for step in steps {
        match step {
            ScrollStep::DropRemainder => {}
            ScrollStep::Lines { direction, count } => {
                for _ in 0..count {
                    scrolls.push(direction);
                }
            }
            _ => panic!("only lines were turned"),
        }
    }
    assert_eq!(
        scrolls,
        vec![
            ScrollDirection::Forward,
            ScrollDirection::Backward,
            ScrollDirection::Backward,
            ScrollDirection::Forward,
        ]
    );
}

#[test]
fn wheel_zoom_direction_latch_suppresses_short_opposite_impulses() {
    let now = 1_000 * MILLISECOND;
    let mut latch = WheelZoomDirectionLatch::new();
    let back = Some(ScrollDirection::Backward);

    let initial = apply(&mut latch, &[-40.0; 14], false, now);
    assert_eq!(initial.applied_scrolls, bits(&[-40.0; 14]));
    assert_eq!(initial.suppressed_scroll_count, 0);
    assert_eq!(initial.direction_used, back);

    let chatter = apply(&mut latch, &[40.0], false, now + 100 * MILLISECOND);
    assert!(chatter.applied_scrolls.is_empty());
    assert_eq!(chatter.suppressed_scroll_count, 1);
    assert_eq!(chatter.direction_before, back);
    assert_eq!(chatter.direction_after, back);

    let continued = apply(&mut latch, &[-40.0], false, now + 150 * MILLISECOND);
    assert_eq!(continued.applied_scrolls, bits(&[-40.0]));
}

#[test]
fn wheel_zoom_direction_latch_accepts_a_new_direction_after_quiet() {
    let now = 1_000 * MILLISECOND;
    let mut latch = WheelZoomDirectionLatch::new();
    assert_eq!(
        apply(&mut latch, &[40.0], false, now).applied_scrolls,
        bits(&[40.0])
    );

    let changed = apply(&mut latch, &[-40.0], false, now + WHEEL_ZOOM_DIRECTION_LATCH_TIMEOUT);
    assert_eq!(changed.applied_scrolls, bits(&[-40.0]));
    assert_eq!(changed.direction_before, None);
    assert_eq!(changed.direction_used, Some(ScrollDirection::Backward));
}

#[test]
fn wheel_zoom_direction_latch_uses_batch_majority_and_resets_on_end() {
    let now = 1_000 * MILLISECOND;
    let mut latch = WheelZoomDirectionLatch::new();

    let mixed = apply(&mut latch, &[-40.0, -40.0, 40.0], false, now);
    assert_eq!(mixed.applied_scrolls, bits(&[-40.0, -40.0]));
    assert_eq!(mixed.suppressed_scroll_count, 1);

    let ended = apply(&mut latch, &[], true, now + MILLISECOND);
    assert_eq!(ended.direction_before, Some(ScrollDirection::Backward));
    assert_eq!(ended.direction_after, None);

    let opposite = apply(&mut latch, &[40.0], false, now + 2 * MILLISECOND);
    assert_eq!(opposite.applied_scrolls, bits(&[40.0]));

    let end_event = wheel(0.0, WheelUnit::Point, TouchPhase::End, NO_KEYS);
    assert!(wheel_zoom_gesture_ended(&vec![end_event]));
}

#[test]
fn a_batch_that_adds_up_to_nothing_gives_no_direction() {
    let mut latch = WheelZoomDirectionLatch::new();

    let level = apply(&mut latch, &[40.0, -40.0], false, 0);
    assert_eq!(level.direction_used, None);
    assert_eq!(level.suppressed_scroll_count, 2);
    let unclear = apply(&mut latch, &[f32::NAN, 40.0], false, 1);
    assert_eq!(unclear.direction_used, None);
    assert_eq!(unclear.suppressed_scroll_count, 2);
}

#[test]
fn a_turn_that_is_no_number_steps_back_once_unless_it_counts_lines() {
    for delta in [f32::NAN, -f32::NAN] {
        let points = wheel(delta, WheelUnit::Point, TouchPhase::Move, ALT);
        assert_eq!(selection_wheel_steps(&vec![points]), vec![-1]);
        assert_eq!(selection_wheel_steps(&vec![line(delta, ALT)]), vec![]);
        let pages = wheel(delta, WheelUnit::Page, TouchPhase::Move, CTRL);
        assert_eq!(paint_order_wheel_steps(&vec![pages]), vec![-1]);
        assert_eq!(paint_order_wheel_steps(&vec![line(delta, CTRL)]), vec![]);
        assert!(!raw_wheel_input_present(&vec![points]));

        let steps = wheel_zoom_scrolls(&vec![points, pages]);
        assert_eq!(
            steps,
            vec![ScrollStep::Points(delta.to_bits()), ScrollStep::Pages(delta.to_bits())]
        );
    }
    let infinite = line(f32::INFINITY, CTRL);
    assert_eq!(paint_order_wheel_steps(&vec![infinite]), vec![1; 64]);
}

#[test]
fn primary_pointer_positions_preserve_all_drag_events_in_order() {
    let events = vec![
        InputEvent::PointerMoved(at(0.0, 0.0)),
        InputEvent::PointerButton { position: at(1.0, 1.0), primary: true, pressed: true },
        InputEvent::PointerMoved(at(2.0, 2.0)),
        InputEvent::PointerMoved(at(3.0, 3.0)),
        InputEvent::PointerButton { position: at(4.0, 4.0), primary: true, pressed: false },
        InputEvent::PointerMoved(at(5.0, 5.0)),
    ];

    let result = primary_pointer_positions(&events, false);

    assert_eq!(result.press.map(place), Some((1.0, 1.0)));
    assert!(!result.touch);
    assert_eq!(
        result.drags.into_iter().map(place).collect::<Vec<_>>(),
        vec![(2.0, 2.0), (3.0, 3.0), (4.0, 4.0)]
    );
}

#[test]
fn primary_pointer_positions_restore_down_state_from_release_event() {
    let events = vec![
        InputEvent::PointerMoved(at(6.0, 6.0)),
        InputEvent::PointerButton { position: at(7.0, 7.0), primary: true, pressed: false },
    ];

    let result = primary_pointer_positions(&events, false);

    assert!(result.press.is_none());
    assert!(!result.touch);
    assert_eq!(
        result.drags.into_iter().map(place).collect::<Vec<_>>(),
        vec![(6.0, 6.0), (7.0, 7.0)]
    );
}

#[test]
fn primary_pointer_positions_prefer_ordered_pen_touch_history() {
    let touch = |phase, x: f32| InputEvent::Touch { id: 7, phase, position: at(x, x) };
    let events = vec![
        touch(TouchPhase::Start, 1.0),
        InputEvent::PointerButton { position: at(1.0, 1.0), primary: true, pressed: true },
        touch(TouchPhase::Move, 2.0),
        InputEvent::PointerMoved(at(2.0, 2.0)),
        touch(TouchPhase::Move, 3.0),
        InputEvent::PointerMoved(at(3.0, 3.0)),
        touch(TouchPhase::End, 4.0),
        InputEvent::PointerButton { position: at(3.0, 3.0), primary: true, pressed: false },
    ];

    let result = primary_pointer_positions(&events, false);

    assert_eq!(result.press.map(place), Some((1.0, 1.0)));
    assert_eq!(
        result.drags.into_iter().map(place).collect::<Vec<_>>(),
        vec![(2.0, 2.0), (3.0, 3.0), (4.0, 4.0)]
    );
    assert!(result.touch);
}

#[test]
fn wheel_events_have_labels_in_any_unit_and_phase() {
    assert_eq!(wheel_unit_label(WheelUnit::Line), "line");
    assert_eq!(wheel_unit_label(WheelUnit::Point), "point");
    assert_eq!(wheel_unit_label(WheelUnit::Page), "page");
    assert_eq!(touch_phase_label(TouchPhase::Start), "start");
    assert_eq!(touch_phase_label(TouchPhase::Move), "move");
    assert_eq!(touch_phase_label(TouchPhase::End), "end");
    assert_eq!(touch_phase_label(TouchPhase::Cancel), "cancel");
}

#[test]
fn wheel_zoom_diagnostics_preserve_raw_order_sign_unit_and_phase() {
    let turn = |unit: WheelUnit, delta: (f32, f32), phase: TouchPhase, modifiers: Modifiers| {
        InputEvent::Wheel(WheelEvent {
            unit,
            phase,
            delta_x: delta.0.to_bits(),
            delta_y: delta.1.to_bits(),
            detents: delta.1.abs().round() as u64,
            modifiers,
        })
    };
    let shift = Modifiers { shift: true, ..NO_KEYS };
    let events = vec![
        turn(WheelUnit::Line, (0.0, 1.0), TouchPhase::Start, NO_KEYS),
        turn(WheelUnit::Point, (0.25, -0.75), TouchPhase::Move, shift),
        InputEvent::Other,
        turn(WheelUnit::Page, (0.0, 0.0), TouchPhase::End, CTRL),
    ];

    let diagnostics = wheel_zoom_input_diagnostics(&events);

    assert_eq!(diagnostics.len(), 3);
    assert_eq!(diagnostics[0].unit, "line");
    assert_eq!(f32::from_bits(diagnostics[0].delta_y), 1.0);
    assert_eq!(diagnostics[0].phase, "start");
    assert_eq!(diagnostics[1].unit, "point");
    assert_eq!(f32::from_bits(diagnostics[1].delta_x), 0.25);
    assert_eq!(f32::from_bits(diagnostics[1].delta_y), -0.75);
    assert_eq!(diagnostics[1].phase, "move");
    assert!(diagnostics[1].modifiers.shift);
    assert_eq!(diagnostics[2].unit, "page");
    assert_eq!(diagnostics[2].phase, "end");
    assert!(diagnostics[2].modifiers.ctrl);
}

#[test]
fn raw_wheel_presence_ignores_zero_delta_events() {
    assert!(!raw_wheel_input_present(&vec![wheel(
        0.0,
        WheelUnit::Point,
        TouchPhase::Move,
        NO_KEYS
    )]));
    assert!(raw_wheel_input_present(&vec![wheel(
        0.5,
        WheelUnit::Point,
        TouchPhase::Move,
        NO_KEYS
    )]));
    assert!(!raw_wheel_input_present(&vec![InputEvent::Other]));
}

#[test]
fn the_wheel_zooms_and_drags_pan() {
    let turned = wheel_navigation(&still(), &vec![line(1.0, NO_KEYS)]);
    assert!(matches!(turned, WheelNavigation::Zoom { .. }));
    let mut input = still();
    input.space_down = true;
    input.primary_down = true;
    input.delta_x = 2.0f32.to_bits();
    let drag = drag_navigation(&input);
    assert!(matches!(drag, DragNavigation::SpacePan));
    assert!(matches!(drag_navigation(&still()), DragNavigation::Nothing));
}

#[test]
fn navigation_requests_are_answered_in_order() {
    let all = NavigationRequests {
        depth_jump: true,
        lateral_jump: true,
        origin: true,
        bookmarks: true,
    };
    let actions = navigation_actions(&all);
    assert!(actions.contains(&NavigationAction::JumpToDepth));
    let none = NavigationRequests {
        depth_jump: false,
        lateral_jump: false,
        origin: false,
        bookmarks: false,
    };
    assert!(navigation_actions(&none).is_empty());
}
