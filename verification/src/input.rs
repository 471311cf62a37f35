//! What the events of a frame mean.

use crate::screen::{
    at_most, is_number, less_than, magnitude, number_at_most, number_less_than, pattern_is_number,
    without_sign, Position,
};
use vstd::prelude::*;

verus! {

/// The stage of a touch or of a turn of the wheel.
#[derive(Debug, Clone, Copy, PartialEq, Eq, Structural)]
pub enum TouchPhase {
    Start,
    Move,
    End,
    Cancel,
}

/// What a turn of the wheel is measured in.
#[derive(Debug, Clone, Copy, PartialEq, Eq, Structural)]
pub enum WheelUnit {
    Line,
    Point,
    Page,
}

/// The modifier keys.
#[derive(Debug, Clone, Copy, PartialEq, Eq, Structural)]
pub struct Modifiers {
    pub alt: bool,
    pub ctrl: bool,
    pub shift: bool,
    pub mac_cmd: bool,
    pub command: bool,
}

/// A turn of the wheel. The distances are the bit patterns of
/// single-precision numbers; `detents` is the vertical one without its sign,
/// rounded to a whole number, where it is a number.
#[derive(Debug, Clone, Copy, PartialEq, Eq, Structural)]
pub struct WheelEvent {
    pub unit: WheelUnit,
    pub phase: TouchPhase,
    pub delta_x: u32,
    pub delta_y: u32,
    pub detents: u64,
    pub modifiers: Modifiers,
}

/// An event of the window.
#[derive(Debug, Clone, Copy)]
pub enum InputEvent {
    PointerMoved(Position),
    PointerButton { position: Position, primary: bool, pressed: bool },
    Touch { id: u64, phase: TouchPhase, position: Position },
    Wheel(WheelEvent),
    Copy,
    Cut,
    Paste,
    Other,
}

/// What following the events of one pointer has found.
pub struct PointerTrack {
    pub down: bool,
    pub press: Option<Position>,
    pub drags: Seq<Position>,
}

/// The events of the primary button tell whether it was down before a frame:
/// it was up where the first of them presses it, and down where the first
/// releases it.
pub open spec fn button_down_before(events: Seq<InputEvent>, down_after: bool) -> bool
    decreases events.len(),
{
    if events.len() == 0 {
        down_after
    } else {
        match events.first() {
            InputEvent::PointerButton { primary: true, pressed, .. } => !pressed,
            _ => button_down_before(events.drop_first(), down_after),
        }
    }
}

/// What following the primary button through the first `count` events finds.
pub open spec fn button_track(
    events: Seq<InputEvent>,
    down_before: bool,
    count: int,
) -> PointerTrack
    decreases count,
{
    if count <= 0 {
        PointerTrack { down: down_before, press: None, drags: seq![] }
    } else {
        let track = button_track(events, down_before, count - 1);
        match events[count - 1] {
            InputEvent::PointerMoved(position) if track.down => PointerTrack {
                drags: track.drags.push(position),
                ..track
            },
            InputEvent::PointerButton { position, primary: true, pressed } => if pressed {
                PointerTrack { down: true, press: Some(position), drags: track.drags }
            } else {
                PointerTrack {
                    down: false,
                    press: track.press,
                    drags: if track.down {
                        track.drags.push(position)
                    } else {
                        track.drags
                    },
                }
            },
            _ => track,
        }
    }
}

/// The touch that comes first among the events.
pub open spec fn first_touch(events: Seq<InputEvent>) -> Option<u64>
    decreases events.len(),
{
    if events.len() == 0 {
        None
    } else {
        match events.first() {
            InputEvent::Touch { id, .. } => Some(id),
            _ => first_touch(events.drop_first()),
        }
    }
}

/// Whether a touch was down before a frame, told by its first event other than
/// a move.
pub open spec fn touch_down_before(events: Seq<InputEvent>, touch: u64, down_after: bool) -> bool
    decreases events.len(),
{
    if events.len() == 0 {
        down_after
    } else {
        match events.first() {
            InputEvent::Touch { id, phase, .. } if id == touch && phase
                != TouchPhase::Move => phase != TouchPhase::Start,
            _ => touch_down_before(events.drop_first(), touch, down_after),
        }
    }
}

/// What following one touch through the first `count` events finds.
pub open spec fn touch_track(
    events: Seq<InputEvent>,
    touch: u64,
    down_before: bool,
    count: int,
) -> PointerTrack
    decreases count,
{
    if count <= 0 {
        PointerTrack { down: down_before, press: None, drags: seq![] }
    } else {
        let track = touch_track(events, touch, down_before, count - 1);
        match events[count - 1] {
            InputEvent::Touch { id, phase, position } if id == touch => match phase {
                TouchPhase::Start => PointerTrack {
                    down: true,
                    press: Some(position),
                    drags: track.drags,
                },
                TouchPhase::Move => if track.down {
                    PointerTrack { drags: track.drags.push(position), ..track }
                } else {
                    track
                },
                TouchPhase::End => PointerTrack {
                    down: false,
                    press: track.press,
                    drags: if track.down {
                        track.drags.push(position)
                    } else {
                        track.drags
                    },
                },
                TouchPhase::Cancel => PointerTrack { down: false, ..track },
            },
            _ => track,
        }
    }
}

/// Where the primary pointer was pressed, and where it was while down.
#[derive(Debug)]
pub struct PointerPositions {
    pub press: Option<Position>,
    pub drags: Vec<Position>,
    /// Whether the positions come from a touch.
    pub touch: bool,
}

fn find_first_touch(events: &Vec<InputEvent>) -> (found: Option<u64>)
    ensures
        found == first_touch(events@),
{
    let mut i: usize = 0;
    assert(events@.skip(0) =~= events@);
    while i < events.len()
        invariant
            i <= events.len(),
            first_touch(events@) == first_touch(events@.skip(i as int)),
        decreases events.len() - i,
    {
        assert(events@.skip(i as int).drop_first() =~= events@.skip(i + 1));
        if let InputEvent::Touch { id, .. } = events[i] {
            return Some(id);
        }
        i = i + 1;
    }
    None
}

/// Where a touch was pressed, and where it was while down: that of the touch
/// which comes first, where there is any.
pub fn primary_touch_positions(events: &Vec<InputEvent>, primary_down_after_events: bool) -> (
result: Option<(Option<Position>, Vec<Position>)>)
    ensures
        match (first_touch(events@), result) {
            (None, None) => true,
            (Some(touch), Some((press, drags))) => {
                let track = touch_track(
                    events@,
                    touch,
                    touch_down_before(events@, touch, primary_down_after_events),
                    events@.len() as int,
                );
                press == track.press && drags@ == track.drags
            },
            _ => false,
        },
{
    let touch: u64 = match find_first_touch(events) {
        Some(touch) => touch,
        None => return None,
    };
    let mut down: bool = primary_down_after_events;
    let mut i: usize = 0;
    assert(events@.skip(0) =~= events@);
    let mut settled: bool = false;
    while i < events.len() && !settled
        invariant
            i <= events.len(),
            settled ==> down == touch_down_before(events@, touch, primary_down_after_events),
            !settled ==> down == primary_down_after_events && touch_down_before(
                events@,
                touch,
                primary_down_after_events,
            ) == touch_down_before(events@.skip(i as int), touch, primary_down_after_events),
        decreases events.len() - i,
    {
        assert(events@.skip(i as int).drop_first() =~= events@.skip(i + 1));
        if let InputEvent::Touch { id, phase, .. } = events[i] {
            if id == touch && phase != TouchPhase::Move {
                down = phase != TouchPhase::Start;
                settled = true;
            }
        }
        i = i + 1;
    }
    let ghost before = down;
    let mut press: Option<Position> = None;
    let mut drags: Vec<Position> = Vec::new();
    let mut k: usize = 0;
    while k < events.len()
        invariant
            k <= events.len(),
            (PointerTrack { down, press, drags: drags@ }) == touch_track(
                events@,
                touch,
                before,
                k as int,
            ),
        decreases events.len() - k,
    {
        if let InputEvent::Touch { id, phase, position } = events[k] {
            if id == touch {
                match phase {
                    TouchPhase::Start => {
                        press = Some(position);
                        down = true;
                    },
                    TouchPhase::Move => {
                        if down {
                            drags.push(position);
                        }
                    },
                    TouchPhase::End => {
                        if down {
                            drags.push(position);
                        }
                        down = false;
                    },
                    TouchPhase::Cancel => {
                        down = false;
                    },
                }
            }
        }
        k = k + 1;
    }
    Some((press, drags))
}

/// Where the primary pointer was pressed, and where it was while down: a touch
/// where the events hold one, and else the primary button.
pub fn primary_pointer_positions(
    events: &Vec<InputEvent>,
    primary_down_after_events: bool,
) -> (positions: PointerPositions)
    ensures
        positions.touch == first_touch(events@).is_some(),
        ({
            let track = match first_touch(events@) {
                Some(touch) => touch_track(
                    events@,
                    touch,
                    touch_down_before(events@, touch, primary_down_after_events),
                    events@.len() as int,
                ),
                None => button_track(
                    events@,
                    button_down_before(events@, primary_down_after_events),
                    events@.len() as int,
                ),
            };
            positions.press == track.press && positions.drags@ == track.drags
        }),
{
    if let Some((press, drags)) = primary_touch_positions(events, primary_down_after_events) {
        return PointerPositions { press, drags, touch: true };
    }
    let mut down: bool = primary_down_after_events;
    let mut i: usize = 0;
    let mut settled: bool = false;
    assert(events@.skip(0) =~= events@);
    while i < events.len() && !settled
        invariant
            i <= events.len(),
            settled ==> down == button_down_before(events@, primary_down_after_events),
            !settled ==> down == primary_down_after_events && button_down_before(
                events@,
                primary_down_after_events,
            ) == button_down_before(events@.skip(i as int), primary_down_after_events),
        decreases events.len() - i,
    {
        assert(events@.skip(i as int).drop_first() =~= events@.skip(i + 1));
        if let InputEvent::PointerButton { primary, pressed, .. } = events[i] {
            if primary {
                down = !pressed;
                settled = true;
            }
        }
        i = i + 1;
    }
    let ghost before = down;
    let mut press: Option<Position> = None;
    let mut drags: Vec<Position> = Vec::new();
    let mut k: usize = 0;
    while k < events.len()
        invariant
            k <= events.len(),
            (PointerTrack { down, press, drags: drags@ }) == button_track(
                events@,
                before,
                k as int,
            ),
        decreases events.len() - k,
    {
        match events[k] {
            InputEvent::PointerMoved(position) => {
                if down {
                    drags.push(position);
                }
            },
            InputEvent::PointerButton { position, primary, pressed } => {
                if primary {
                    if pressed {
                        press = Some(position);
                    } else if down {
                        drags.push(position);
                    }
                    down = pressed;
                }
            },
            _ => {},
        }
        k = k + 1;
    }
    PointerPositions { press, drags, touch: false }
}

/// The bit pattern of the distance up to which nothing has moved.
pub const STILL_DISTANCE: u32 = 0x3400_0000;

/// Whether the distance is a number other than about zero.
pub open spec fn moved(bits: u32) -> bool {
    is_number(bits) && magnitude(bits) > STILL_DISTANCE
}

/// Whether the distance is a number other than about zero.
pub fn has_moved(bits: u32) -> (result: bool)
    ensures
        result == moved(bits),
{
    let size: u32 = without_sign(bits);
    pattern_is_number(bits) && size > STILL_DISTANCE
}

/// Whether the wheel turned by that distance: only a number of about zero is no
/// turn, so what is no number is one.
pub open spec fn turned(bits: u32) -> bool {
    !at_most(magnitude(bits), STILL_DISTANCE)
}

/// Whether the wheel turned by that distance.
pub fn has_turned(bits: u32) -> (result: bool)
    ensures
        result == turned(bits),
{
    !number_at_most(without_sign(bits), STILL_DISTANCE)
}

/// Whether the wheel turned.
pub fn raw_wheel_input_present(events: &Vec<InputEvent>) -> (present: bool)
    ensures
        present == exists|i: int|
            0 <= i < events@.len() && (#[trigger] events@[i] matches InputEvent::Wheel(wheel) && (
            moved(wheel.delta_x) || moved(wheel.delta_y))),
{
    let mut i: usize = 0;
    while i < events.len()
        invariant
            i <= events.len(),
            forall|k: int|
                0 <= k < i ==> !(#[trigger] events@[k] matches InputEvent::Wheel(wheel) && (moved(
                    wheel.delta_x,
                ) || moved(wheel.delta_y))),
        decreases events.len() - i,
    {
        if let InputEvent::Wheel(wheel) = events[i] {
            if has_moved(wheel.delta_x) || has_moved(wheel.delta_y) {
                return true;
            }
        }
        i = i + 1;
    }
    false
}

/// Whether a turn of the wheel ended.
pub fn wheel_zoom_gesture_ended(events: &Vec<InputEvent>) -> (ended: bool)
    ensures
        ended == exists|i: int|
            0 <= i < events@.len() && (#[trigger] events@[i] matches InputEvent::Wheel(wheel) && (
            wheel.phase == TouchPhase::End || wheel.phase == TouchPhase::Cancel)),
{
    let mut i: usize = 0;
    while i < events.len()
        invariant
            i <= events.len(),
            forall|k: int|
                0 <= k < i ==> !(#[trigger] events@[k] matches InputEvent::Wheel(wheel) && (
                wheel.phase == TouchPhase::End || wheel.phase == TouchPhase::Cancel)),
        decreases events.len() - i,
    {
        if let InputEvent::Wheel(wheel) = events[i] {
            if wheel.phase == TouchPhase::End || wheel.phase == TouchPhase::Cancel {
                return true;
            }
        }
        i = i + 1;
    }
    false
}

/// How many steps one turn of the wheel is worth: lines count one by one, from
/// one to 64, but not at all where their number is none, and any other turn
/// counts once.
pub open spec fn wheel_detents(wheel: WheelEvent) -> int {
    if wheel.unit != WheelUnit::Line {
        1
    } else if !is_number(wheel.delta_y) {
        0
    } else if wheel.detents < 1 {
        1
    } else if wheel.detents > 64 {
        64
    } else {
        wheel.detents as int
    }
}

/// How many steps one turn of the wheel is worth.
pub fn count_detents(wheel: &WheelEvent) -> (count: usize)
    ensures
        count == wheel_detents(*wheel),
{
    if wheel.unit != WheelUnit::Line {
        1
    } else if !pattern_is_number(wheel.delta_y) {
        0
    } else if wheel.detents < 1 {
        1
    } else if wheel.detents > 64 {
        64
    } else {
        wheel.detents as usize
    }
}

/// `step` repeated `count` times.
pub open spec fn repeated(step: isize, count: int) -> Seq<isize> {
    Seq::new(count as nat, |i: int| step)
}

fn push_repeated(steps: &mut Vec<isize>, step: isize, count: usize)
    ensures
        final(steps)@ == old(steps)@ + repeated(step, count as int),
{
    let ghost before = steps@;
    let mut i: usize = 0;
    while i < count
        invariant
            i <= count,
            steps@ == before + repeated(step, i as int),
        decreases count - i,
    {
        steps.push(step);
        i = i + 1;
        assert(steps@ =~= before + repeated(step, i as int));
    }
    assert(steps@ =~= before + repeated(step, count as int));
}

/// The steps of a walk through the objects under the pointer that an event is
/// worth: turning the wheel down with the alt key goes on, any other turn goes
/// back.
pub open spec fn selection_steps(event: InputEvent) -> Seq<isize> {
    match event {
        InputEvent::Wheel(wheel) if wheel.modifiers.alt && turned(wheel.delta_y) => repeated(
            if less_than(wheel.delta_y, 0) {
                1
            } else {
                (-1int) as isize
            },
            wheel_detents(wheel),
        ),
        _ => seq![],
    }
}

/// The steps in the order of painting that an event is worth: turning the
/// wheel up with the control key brings forward, any other turn sends back.
pub open spec fn paint_order_steps(event: InputEvent) -> Seq<isize> {
    match event {
        InputEvent::Wheel(wheel) if wheel.modifiers.ctrl && !wheel.modifiers.alt && turned(
            wheel.delta_y,
        ) => repeated(
            if less_than(0, wheel.delta_y) {
                1
            } else {
                (-1int) as isize
            },
            wheel_detents(wheel),
        ),
        _ => seq![],
    }
}

/// What the first `count` events are worth, one after the other.
pub open spec fn steps_of(
    events: Seq<InputEvent>,
    worth: spec_fn(InputEvent) -> Seq<isize>,
    count: int,
) -> Seq<isize>
    decreases count,
{
    if count <= 0 {
        seq![]
    } else {
        steps_of(events, worth, count - 1) + worth(events[count - 1])
    }
}

/// The steps of a walk through the objects under the pointer that the events
/// ask for.
pub fn selection_wheel_steps(events: &Vec<InputEvent>) -> (steps: Vec<isize>)
    ensures
        steps@ == steps_of(
            events@,
            |event: InputEvent| selection_steps(event),
            events@.len() as int,
        ),
{
    let mut steps: Vec<isize> = Vec::new();
    let mut i: usize = 0;
    while i < events.len()
        invariant
            i <= events.len(),
            steps@ == steps_of(events@, |event: InputEvent| selection_steps(event), i as int),
        decreases events.len() - i,
    {
        let ghost before = steps@;
        if let InputEvent::Wheel(wheel) = events[i] {
            if wheel.modifiers.alt && has_turned(wheel.delta_y) {
                let step: isize = if number_less_than(wheel.delta_y, 0) {
                    1
                } else {
                    -1
                };
                push_repeated(&mut steps, step, count_detents(&wheel));
            }
        }
        assert(steps@ =~= before + selection_steps(events@[i as int]));
        i = i + 1;
    }
    steps
}

/// The steps in the order of painting that the events ask for.
pub fn paint_order_wheel_steps(events: &Vec<InputEvent>) -> (steps: Vec<isize>)
    ensures
        steps@ == steps_of(
            events@,
            |event: InputEvent| paint_order_steps(event),
            events@.len() as int,
        ),
{
    let mut steps: Vec<isize> = Vec::new();
    let mut i: usize = 0;
    while i < events.len()
        invariant
            i <= events.len(),
            steps@ == steps_of(events@, |event: InputEvent| paint_order_steps(event), i as int),
        decreases events.len() - i,
    {
        let ghost before = steps@;
        if let InputEvent::Wheel(wheel) = events[i] {
            if wheel.modifiers.ctrl && !wheel.modifiers.alt && has_turned(wheel.delta_y) {
                let step: isize = if number_less_than(0, wheel.delta_y) {
                    1
                } else {
                    -1
                };
                push_repeated(&mut steps, step, count_detents(&wheel));
            }
        }
        assert(steps@ =~= before + paint_order_steps(events@[i as int]));
        i = i + 1;
    }
    steps
}

/// No turn of the wheel both walks through objects and changes the order of
/// painting.
pub proof fn law_wheel_steps_exclude_each_other(event: InputEvent)
    ensures
        selection_steps(event).len() == 0 || paint_order_steps(event).len() == 0,
{
}

/// While the button is down and no button event comes, every move of the
/// pointer is kept, in order.
pub proof fn law_held_button_keeps_every_move(events: Seq<InputEvent>)
    requires
        forall|i: int| 0 <= i < events.len() ==> #[trigger] events[i] is PointerMoved,
    ensures
        button_track(
            events,
            button_down_before(events, true),
            events.len() as int,
        ).drags == events.map_values(|event: InputEvent| event->PointerMoved_0),
{
    lemma_moves_tell_nothing_of_the_button(events, true);
    lemma_held_button_keeps_moves(events, events.len() as int);
    assert(events.take(events.len() as int) =~= events);
}

proof fn lemma_moves_tell_nothing_of_the_button(events: Seq<InputEvent>, down_after: bool)
    requires
        forall|i: int| 0 <= i < events.len() ==> #[trigger] events[i] is PointerMoved,
    ensures
        button_down_before(events, down_after) == down_after,
    decreases events.len(),
{
    if events.len() > 0 {
        assert(events[0] is PointerMoved);
        assert forall|i: int| 0 <= i < events.drop_first().len() implies #[trigger]
            events.drop_first()[i] is PointerMoved by {
            assert(events.drop_first()[i] == events[i + 1]);
        }
        lemma_moves_tell_nothing_of_the_button(events.drop_first(), down_after);
    }
}

proof fn lemma_held_button_keeps_moves(events: Seq<InputEvent>, count: int)
    requires
        0 <= count <= events.len(),
        forall|i: int| 0 <= i < events.len() ==> #[trigger] events[i] is PointerMoved,
    ensures
        button_track(events, true, count).down,
        button_track(events, true, count).drags == events.take(count).map_values(
            |event: InputEvent| event->PointerMoved_0,
        ),
    decreases count,
{
    if count > 0 {
        lemma_held_button_keeps_moves(events, count - 1);
        assert(events[count - 1] is PointerMoved);
        assert(button_track(events, true, count).drags =~= events.take(count).map_values(
            |event: InputEvent| event->PointerMoved_0,
        ));
    } else {
        assert(button_track(events, true, count).drags =~= events.take(count).map_values(
            |event: InputEvent| event->PointerMoved_0,
        ));
    }
}

/// Whether an event is about the primary button.
pub open spec fn is_primary_button(event: InputEvent) -> bool {
    event matches InputEvent::PointerButton { primary, .. } && primary
}

/// Whether an event is about a touch.
pub open spec fn is_of_touch(event: InputEvent, touch: u64) -> bool {
    event matches InputEvent::Touch { id, .. } && id == touch
}

/// The first touch of a frame is the one that counts.
pub proof fn law_the_first_touch_counts(events: Seq<InputEvent>, at: int)
    requires
        0 <= at < events.len(),
        events[at] is Touch,
        forall|k: int| 0 <= k < at ==> !(#[trigger] events[k] is Touch),
    ensures
        first_touch(events) == Some(events[at]->Touch_id),
    decreases events.len(),
{
    if at > 0 {
        assert(!(events[0] is Touch));
        let rest = events.drop_first();
        assert forall|k: int| 0 <= k < at - 1 implies !(#[trigger] rest[k] is Touch) by {
            assert(rest[k] == events[k + 1]);
        }
        law_the_first_touch_counts(rest, at - 1);
    }
}

/// Where there is no touch, the pointer counts.
pub proof fn law_without_touches_none_counts(events: Seq<InputEvent>)
    requires
        forall|k: int| 0 <= k < events.len() ==> !(#[trigger] events[k] is Touch),
    ensures
        first_touch(events) is None,
    decreases events.len(),
{
    if events.len() > 0 {
        assert(!(events[0] is Touch));
        let rest = events.drop_first();
        assert forall|k: int| 0 <= k < rest.len() implies !(#[trigger] rest[k] is Touch) by {
            assert(rest[k] == events[k + 1]);
        }
        law_without_touches_none_counts(rest);
    }
}

/// Before a frame the button was the opposite of what its first change in the
/// frame makes of it.
pub proof fn law_the_first_change_tells_what_was_before(
    events: Seq<InputEvent>,
    down_after: bool,
    at: int,
)
    requires
        0 <= at < events.len(),
        is_primary_button(events[at]),
        forall|k: int| 0 <= k < at ==> !is_primary_button(#[trigger] events[k]),
    ensures
        button_down_before(events, down_after) == !events[at]->PointerButton_pressed,
    decreases events.len(),
{
    if at > 0 {
        assert(!is_primary_button(events[0]));
        let rest = events.drop_first();
        assert forall|k: int| 0 <= k < at - 1 implies !is_primary_button(#[trigger] rest[k]) by {
            assert(rest[k] == events[k + 1]);
        }
        law_the_first_change_tells_what_was_before(rest, down_after, at - 1);
    }
}

/// A button that does not change in a frame was before what it is after.
pub proof fn law_an_unchanged_button_stays(events: Seq<InputEvent>, down_after: bool)
    requires
        forall|k: int| 0 <= k < events.len() ==> !is_primary_button(#[trigger] events[k]),
    ensures
        button_down_before(events, down_after) == down_after,
    decreases events.len(),
{
    if events.len() > 0 {
        assert(!is_primary_button(events[0]));
        let rest = events.drop_first();
        assert forall|k: int| 0 <= k < rest.len() implies !is_primary_button(
            #[trigger] rest[k],
        ) by {
            assert(rest[k] == events[k + 1]);
        }
        law_an_unchanged_button_stays(rest, down_after);
    }
}

/// The button is as its last change left it, and a press is where the last one
/// was.
pub proof fn law_the_last_change_of_the_button_counts(
    events: Seq<InputEvent>,
    down_before: bool,
    count: int,
    at: int,
)
    requires
        0 <= at < count <= events.len(),
        is_primary_button(events[at]),
        forall|k: int| at < k < count ==> !is_primary_button(#[trigger] events[k]),
    ensures
        ({
            let track = button_track(events, down_before, count);
            &&& track.down == events[at]->PointerButton_pressed
            &&& events[at]->PointerButton_pressed ==> track.press == Some(
                events[at]->PointerButton_position,
            )
            &&& !events[at]->PointerButton_pressed ==> track.press == button_track(
                events,
                down_before,
                at,
            ).press
        }),
    decreases count,
{
    if at < count - 1 {
        assert(!is_primary_button(events[count - 1]));
        law_the_last_change_of_the_button_counts(events, down_before, count - 1, at);
    }
}

/// A drag goes through every position at which the pointer is moved or released
/// while the button is down, in order, and through no others.
pub proof fn law_drags_go_through_every_move(
    events: Seq<InputEvent>,
    down_before: bool,
    at: int,
    count: int,
)
    requires
        0 <= at < count <= events.len(),
    ensures
        ({
            let before = button_track(events, down_before, at);
            let next = button_track(events, down_before, at + 1);
            let after = button_track(events, down_before, count);
            let place = before.drags.len() as int;
            &&& button_track(events, down_before, 0).drags.len() == 0
            &&& before.drags.is_prefix_of(after.drags)
            &&& before.down && events[at] is PointerMoved ==> next.drags.len() == place + 1
                && after.drags[place] == events[at]->PointerMoved_0
            &&& before.down && is_primary_button(events[at])
                && !events[at]->PointerButton_pressed ==> next.drags.len() == place + 1
                && after.drags[place] == events[at]->PointerButton_position
            &&& !before.down || !(events[at] is PointerMoved) && !(is_primary_button(events[at])
                && !events[at]->PointerButton_pressed) ==> next.drags == before.drags
        }),
    decreases count,
{
    if at < count - 1 {
        law_drags_go_through_every_move(events, down_before, at, count - 1);
        let earlier = button_track(events, down_before, count - 1);
        let after = button_track(events, down_before, count);
        assert(earlier.drags.is_prefix_of(after.drags));
        let next = button_track(events, down_before, at + 1);
        if at + 1 < count - 1 {
            law_drags_go_through_every_move(events, down_before, at + 1, count - 1);
        }
        assert(next.drags.len() <= earlier.drags.len());
    }
}

/// A touch is on the screen as its last start or end left it; other touches do not
/// matter.
pub proof fn law_the_last_change_of_a_touch_counts(
    events: Seq<InputEvent>,
    touch: u64,
    down_before: bool,
    count: int,
    at: int,
)
    requires
        0 <= at < count <= events.len(),
        is_of_touch(events[at], touch),
        events[at]->Touch_phase != TouchPhase::Move,
        forall|k: int|
            at < k < count && is_of_touch(#[trigger] events[k], touch) ==> events[k]->Touch_phase
                == TouchPhase::Move,
    ensures
        ({
            let track = touch_track(events, touch, down_before, count);
            let starts = events[at]->Touch_phase == TouchPhase::Start;
            &&& track.down == starts
            &&& starts ==> track.press == Some(events[at]->Touch_position)
        }),
    decreases count,
{
    if at < count - 1 {
        assert(is_of_touch(events[count - 1], touch) ==> events[count - 1]->Touch_phase
            == TouchPhase::Move);
        law_the_last_change_of_a_touch_counts(events, touch, down_before, count - 1, at);
    }
}

/// A drag with a touch goes through every position at which that touch moves or
/// ends while it is on the screen, in order, and through no others; a touch that is
/// cancelled adds none.
pub proof fn law_touch_drags_go_through_every_move(
    events: Seq<InputEvent>,
    touch: u64,
    down_before: bool,
    at: int,
    count: int,
)
    requires
        0 <= at < count <= events.len(),
    ensures
        ({
            let before = touch_track(events, touch, down_before, at);
            let next = touch_track(events, touch, down_before, at + 1);
            let after = touch_track(events, touch, down_before, count);
            let place = before.drags.len() as int;
            let adds = before.down && is_of_touch(events[at], touch) && (events[at]->Touch_phase
                == TouchPhase::Move || events[at]->Touch_phase == TouchPhase::End);
            &&& touch_track(events, touch, down_before, 0).drags.len() == 0
            &&& before.drags.is_prefix_of(after.drags)
            &&& adds ==> next.drags.len() == place + 1 && after.drags[place]
                == events[at]->Touch_position
            &&& !adds ==> next.drags == before.drags
            &&& !is_of_touch(events[at], touch) ==> next == before
        }),
    decreases count,
{
    if at < count - 1 {
        law_touch_drags_go_through_every_move(events, touch, down_before, at, count - 1);
        let earlier = touch_track(events, touch, down_before, count - 1);
        let after = touch_track(events, touch, down_before, count);
        assert(earlier.drags.is_prefix_of(after.drags));
        let next = touch_track(events, touch, down_before, at + 1);
        if at + 1 < count - 1 {
            law_touch_drags_go_through_every_move(events, touch, down_before, at + 1, count - 1);
        }
        assert(next.drags.len() <= earlier.drags.len());
    }
}

/// Every event counts for as many steps as it is worth, in order.
pub proof fn law_every_event_counts(
    events: Seq<InputEvent>,
    worth: spec_fn(InputEvent) -> Seq<isize>,
    count: int,
    at: int,
    k: int,
)
    requires
        0 <= at < count <= events.len(),
        0 <= k < worth(events[at]).len(),
    ensures
        steps_of(events, worth, at + 1).len() == steps_of(events, worth, at).len() + worth(
            events[at],
        ).len(),
        steps_of(events, worth, at + 1).len() <= steps_of(events, worth, count).len(),
        steps_of(events, worth, count)[steps_of(events, worth, at).len() + k] == worth(
            events[at],
        )[k],
    decreases count,
{
    if at < count - 1 {
        law_every_event_counts(events, worth, count - 1, at, k);
    }
}

/// A wheel that is turned with the alternate key walks through the selection: by a
/// step for each detent, forwards when it is turned down and backwards when it is
/// turned up. With the control key alone it moves what is selected the other way
/// round. Without these keys, or where it is not turned, it does neither.
pub proof fn law_wheels_step_by_their_detents(wheel: WheelEvent, i: int)
    requires
        is_number(wheel.delta_y),
        magnitude(wheel.delta_y) > STILL_DISTANCE,
    ensures
        ({
            let event = InputEvent::Wheel(wheel);
            let down = less_than(wheel.delta_y, 0);
            &&& 1 <= wheel_detents(wheel) <= 64
            &&& wheel.unit == WheelUnit::Line && 1 <= wheel.detents <= 64 ==> wheel_detents(wheel)
                == wheel.detents
            &&& wheel.unit != WheelUnit::Line ==> wheel_detents(wheel) == 1
            &&& wheel.modifiers.alt ==> selection_steps(event).len() == wheel_detents(wheel)
            &&& wheel.modifiers.alt && 0 <= i < wheel_detents(wheel) ==> selection_steps(event)[i]
                == if down {
                1int
            } else {
                -1
            }
            &&& !wheel.modifiers.alt ==> selection_steps(event).len() == 0
            &&& wheel.modifiers.ctrl && !wheel.modifiers.alt ==> paint_order_steps(event).len()
                == wheel_detents(wheel)
            &&& wheel.modifiers.ctrl && !wheel.modifiers.alt && 0 <= i < wheel_detents(wheel)
                ==> paint_order_steps(event)[i] == if down {
                -1int
            } else {
                1
            }
            &&& !wheel.modifiers.ctrl || wheel.modifiers.alt ==> paint_order_steps(event).len() == 0
        }),
{
}

} // verus!
