//! Zooming with the wheel.

use crate::input::{
    count_detents, has_moved, has_turned, moved, turned, wheel_detents, InputEvent, Modifiers,
    TouchPhase, WheelEvent, WheelUnit,
};
use crate::screen::{is_number, less_than, pattern_is_number, SIGN_BIT};
use vstd::prelude::*;

verus! {

/// How long, in nanoseconds, a direction of zooming is held on to without
/// further turns.
pub const WHEEL_ZOOM_DIRECTION_LATCH_TIMEOUT: u64 = 250_000_000;

/// The direction of a scroll.
#[derive(Debug, Clone, Copy, PartialEq, Eq, Structural)]
pub enum ScrollDirection {
    Forward,
    Backward,
}

/// The direction of a scroll whose distance has the given bit pattern; one
/// that is no number has none.
pub open spec fn scroll_direction(bits: u32) -> Option<ScrollDirection> {
    if !is_number(bits) {
        None
    } else if bits >= SIGN_BIT {
        Some(ScrollDirection::Backward)
    } else {
        Some(ScrollDirection::Forward)
    }
}

fn direction_of(bits: u32) -> (direction: Option<ScrollDirection>)
    ensures
        direction == scroll_direction(bits),
{
    if !pattern_is_number(bits) {
        None
    } else if bits >= SIGN_BIT {
        Some(ScrollDirection::Backward)
    } else {
        Some(ScrollDirection::Forward)
    }
}

/// The direction of scrolls that add up to the given distance; none where this
/// is about zero or no number.
pub open spec fn batch_direction(total: u32) -> Option<ScrollDirection> {
    if moved(total) {
        scroll_direction(total)
    } else {
        None
    }
}

/// Something to do for a turn of the wheel.
#[derive(Debug, Clone, Copy, PartialEq, Eq, Structural)]
pub enum ScrollStep {
    /// Forget the part of a point that was left over.
    DropRemainder,
    /// Scroll so many lines.
    Lines { direction: ScrollDirection, count: usize },
    /// Scroll by points, whole ones only; what is left over is kept.
    Points(u32),
    /// Scroll by pages.
    Pages(u32),
}

/// What to do for an event.
pub open spec fn scroll_steps(event: InputEvent) -> Seq<ScrollStep> {
    match event {
        InputEvent::Wheel(wheel) => if wheel.phase == TouchPhase::End || wheel.phase
            == TouchPhase::Cancel {
            seq![ScrollStep::DropRemainder]
        } else if !turned(wheel.delta_y) {
            seq![]
        } else {
            match wheel.unit {
                WheelUnit::Line => seq![
                    ScrollStep::Lines {
                        direction: if wheel.delta_y >= SIGN_BIT {
                            ScrollDirection::Backward
                        } else {
                            ScrollDirection::Forward
                        },
                        count: wheel_detents(wheel) as usize,
                    },
                ],
                WheelUnit::Point => seq![ScrollStep::Points(wheel.delta_y)],
                WheelUnit::Page => seq![ScrollStep::Pages(wheel.delta_y)],
            }
        },
        _ => seq![],
    }
}

/// What to do for the first `count` events, one after the other.
pub open spec fn scroll_plan(events: Seq<InputEvent>, count: int) -> Seq<ScrollStep>
    decreases count,
{
    if count <= 0 {
        seq![]
    } else {
        scroll_plan(events, count - 1) + scroll_steps(events[count - 1])
    }
}

/// What the turns of the wheel among the events ask for, in order.
pub fn wheel_zoom_scrolls(events: &Vec<InputEvent>) -> (steps: Vec<ScrollStep>)
    ensures
        steps@ == scroll_plan(events@, events@.len() as int),
{
    let mut steps: Vec<ScrollStep> = Vec::new();
    let mut i: usize = 0;
    while i < events.len()
        invariant
            i <= events.len(),
            steps@ == scroll_plan(events@, i as int),
        decreases events.len() - i,
    {
        let ghost before = steps@;
        if let InputEvent::Wheel(wheel) = events[i] {
            if wheel.phase == TouchPhase::End || wheel.phase == TouchPhase::Cancel {
                steps.push(ScrollStep::DropRemainder);
            } else if has_turned(wheel.delta_y) {
                steps.push(
                    match wheel.unit {
                        WheelUnit::Line => ScrollStep::Lines {
                            direction: if wheel.delta_y >= SIGN_BIT {
                                ScrollDirection::Backward
                            } else {
                                ScrollDirection::Forward
                            },
                            count: count_detents(&wheel),
                        },
                        WheelUnit::Point => ScrollStep::Points(wheel.delta_y),
                        WheelUnit::Page => ScrollStep::Pages(wheel.delta_y),
                    },
                );
            }
        }
        assert(steps@ =~= before + scroll_steps(events@[i as int]));
        i = i + 1;
    }
    steps
}

/// The direction in which the wheel zooms until it rests: scrolls against it
/// are jitter and are left out. Times are in nanoseconds.
#[derive(Debug, Clone, Copy)]
pub struct WheelZoomDirectionLatch {
    pub direction: Option<ScrollDirection>,
    pub last_input_at: Option<u64>,
}

/// What became of the scrolls of a frame.
#[derive(Debug)]
pub struct WheelZoomLatchResult {
    pub applied_scrolls: Vec<u32>,
    pub suppressed_scroll_count: usize,
    pub direction_before: Option<ScrollDirection>,
    pub direction_used: Option<ScrollDirection>,
    pub direction_after: Option<ScrollDirection>,
}

/// The scrolls in the direction, in order.
pub open spec fn scrolls_along(scrolls: Seq<u32>, direction: Option<ScrollDirection>) -> Seq<u32> {
    scrolls.filter(|scroll: u32| direction.is_some() && scroll_direction(scroll) == direction)
}

impl WheelZoomDirectionLatch {
    /// No direction.
    pub fn new() -> (latch: Self)
        ensures
            latch == (WheelZoomDirectionLatch { direction: None, last_input_at: None }),
    {
        WheelZoomDirectionLatch { direction: None, last_input_at: None }
    }

    /// Lets go of the direction.
    pub fn reset(&mut self)
        ensures
            *final(self) == (WheelZoomDirectionLatch { direction: None, last_input_at: None }),
    {
        self.direction = None;
        self.last_input_at = None;
    }

    /// Whether the wheel has rested for so long that its direction counts no
    /// more.
    pub open spec fn expired(self, now: u64) -> bool {
        self.last_input_at.is_some() && now - self.last_input_at.unwrap() >= 250_000_000
    }

    /// The direction held on to when a frame begins.
    pub open spec fn held(self, now: u64) -> Option<ScrollDirection> {
        if self.expired(now) {
            None
        } else {
            self.direction
        }
    }

    /// Takes the scrolls of a frame. `batch_total` is the bit pattern of their
    /// sum, whose direction is held on to where no direction is.
    pub fn apply(
        &mut self,
        scrolls: &Vec<u32>,
        batch_total: u32,
        gesture_ended: bool,
        now: u64,
    ) -> (result: WheelZoomLatchResult)
        ensures
            ({
                let used = if old(self).held(now).is_some() {
                    old(self).held(now)
                } else {
                    batch_direction(batch_total)
                };
                &&& result.direction_before == old(self).held(now)
                &&& result.direction_used == used
                &&& result.applied_scrolls@ == scrolls_along(scrolls@, used)
                &&& result.suppressed_scroll_count == scrolls@.len()
                    - result.applied_scrolls@.len()
                &&& final(self).direction == if gesture_ended {
                    None
                } else {
                    used
                }
                &&& final(self).last_input_at == if gesture_ended {
                    None
                } else if scrolls@.len() > 0 {
                    Some(now)
                } else if old(self).expired(now) {
                    None
                } else {
                    old(self).last_input_at
                }
                &&& result.direction_after == final(self).direction
            }),
    {
        if let Some(last_input_at) = self.last_input_at {
            if now >= last_input_at && now - last_input_at >= WHEEL_ZOOM_DIRECTION_LATCH_TIMEOUT {
                self.reset();
            }
        }
        let direction_before: Option<ScrollDirection> = self.direction;
        if self.direction.is_none() {
            self.direction = if has_moved(batch_total) {
                direction_of(batch_total)
            } else {
                None
            };
        }
        let direction_used: Option<ScrollDirection> = self.direction;
        let ghost along = |scroll: u32|
            direction_used.is_some() && scroll_direction(scroll) == direction_used;
        let mut applied_scrolls: Vec<u32> = Vec::new();
        let mut suppressed_scroll_count: usize = 0;
        let mut i: usize = 0;
        proof {
            reveal(Seq::filter);
            assert(scrolls@.take(0).filter(along) =~= seq![]);
        }
        while i < scrolls.len()
            invariant
                i <= scrolls.len(),
                along == |scroll: u32|
                    direction_used.is_some() && scroll_direction(scroll) == direction_used,
                applied_scrolls@ == scrolls@.take(i as int).filter(along),
                suppressed_scroll_count + applied_scrolls@.len() == i,
            decreases scrolls.len() - i,
        {
            proof {
                scrolls@.take(i as int).lemma_filter_push(scrolls@[i as int], along);
                assert(scrolls@.take(i + 1) =~= scrolls@.take(i as int).push(scrolls@[i as int]));
            }
            let matches_direction: bool = match (direction_used, direction_of(scrolls[i])) {
                (Some(used), Some(direction)) => used == direction,
                _ => false,
            };
            if matches_direction {
                applied_scrolls.push(scrolls[i]);
            } else {
                suppressed_scroll_count = suppressed_scroll_count + 1;
            }
            i = i + 1;
        }
        assert(scrolls@.take(i as int) =~= scrolls@);
        if scrolls.len() > 0 {
            self.last_input_at = Some(now);
        }
        if gesture_ended {
            self.reset();
        }
        WheelZoomLatchResult {
            applied_scrolls,
            suppressed_scroll_count,
            direction_before,
            direction_used,
            direction_after: self.direction,
        }
    }
}

/// All scrolls that are applied in one frame go in one direction.
pub proof fn law_applied_scrolls_agree(
    scrolls: Seq<u32>,
    direction: Option<ScrollDirection>,
    i: int,
)
    requires
        0 <= i < scrolls_along(scrolls, direction).len(),
    ensures
        direction.is_some(),
        scroll_direction(scrolls_along(scrolls, direction)[i]) == direction,
{
    scrolls.lemma_filter_pred(
        |scroll: u32| direction.is_some() && scroll_direction(scroll) == direction,
        i,
    );
}

/// The name of a unit of the wheel.
pub open spec fn unit_name(unit: WheelUnit) -> Seq<char> {
    match unit {
        WheelUnit::Line => "line"@,
        WheelUnit::Point => "point"@,
        WheelUnit::Page => "page"@,
    }
}

/// The name of a unit of the wheel.
pub fn wheel_unit_label(unit: WheelUnit) -> (label: &'static str)
    ensures
        label@ == unit_name(unit),
{
    match unit {
        WheelUnit::Line => "line",
        WheelUnit::Point => "point",
        WheelUnit::Page => "page",
    }
}

/// The name of a stage.
pub open spec fn phase_name(phase: TouchPhase) -> Seq<char> {
    match phase {
        TouchPhase::Start => "start"@,
        TouchPhase::Move => "move"@,
        TouchPhase::End => "end"@,
        TouchPhase::Cancel => "cancel"@,
    }
}

/// The name of a stage.
pub fn touch_phase_label(phase: TouchPhase) -> (label: &'static str)
    ensures
        label@ == phase_name(phase),
{
    match phase {
        TouchPhase::Start => "start",
        TouchPhase::Move => "move",
        TouchPhase::End => "end",
        TouchPhase::Cancel => "cancel",
    }
}

/// A turn of the wheel as it is logged.
#[derive(Debug, Clone, Copy)]
pub struct WheelRecord {
    pub unit: &'static str,
    pub delta_x: u32,
    pub delta_y: u32,
    pub phase: &'static str,
    pub modifiers: Modifiers,
}

impl WheelRecord {
    /// Whether this records a turn of the wheel.
    pub open spec fn is_of(self, wheel: WheelEvent) -> bool {
        &&& self.unit@ == unit_name(wheel.unit)
        &&& self.delta_x == wheel.delta_x
        &&& self.delta_y == wheel.delta_y
        &&& self.phase@ == phase_name(wheel.phase)
        &&& self.modifiers == wheel.modifiers
    }
}

/// The turns of the wheel among the events, in order.
pub open spec fn wheel_turns(events: Seq<InputEvent>) -> Seq<WheelEvent>
    decreases events.len(),
{
    if events.len() == 0 {
        seq![]
    } else {
        match events.last() {
            InputEvent::Wheel(wheel) => wheel_turns(events.drop_last()).push(wheel),
            _ => wheel_turns(events.drop_last()),
        }
    }
}

/// The records of all turns of the wheel among the events, in order.
pub fn wheel_zoom_input_diagnostics(events: &Vec<InputEvent>) -> (records: Vec<WheelRecord>)
    ensures
        records@.len() == wheel_turns(events@).len(),
        forall|i: int|
            0 <= i < records@.len() ==> (#[trigger] records@[i]).is_of(wheel_turns(events@)[i]),
{
    let mut records: Vec<WheelRecord> = Vec::new();
    let mut i: usize = 0;
    while i < events.len()
        invariant
            i <= events@.len(),
            records@.len() == wheel_turns(events@.take(i as int)).len(),
            forall|k: int|
                0 <= k < records@.len() ==> (#[trigger] records@[k]).is_of(
                    wheel_turns(events@.take(i as int))[k],
                ),
        decreases events@.len() - i,
    {
        assert(events@.take(i + 1).drop_last() =~= events@.take(i as int));
        if let InputEvent::Wheel(wheel) = events[i] {
            records.push(
                WheelRecord {
                    unit: wheel_unit_label(wheel.unit),
                    delta_x: wheel.delta_x,
                    delta_y: wheel.delta_y,
                    phase: touch_phase_label(wheel.phase),
                    modifiers: wheel.modifiers,
                },
            );
        }
        i = i + 1;
    }
    assert(events@.take(i as int) =~= events@);
    records
}

/// Every event counts for the steps that it is worth, in order.
pub proof fn law_every_event_scrolls(events: Seq<InputEvent>, count: int, at: int, k: int)
    requires
        0 <= at < count <= events.len(),
        0 <= k < scroll_steps(events[at]).len(),
    ensures
        scroll_plan(events, at + 1).len() == scroll_plan(events, at).len() + scroll_steps(
            events[at],
        ).len(),
        scroll_plan(events, at + 1).len() <= scroll_plan(events, count).len(),
        scroll_plan(events, count)[scroll_plan(events, at).len() + k] == scroll_steps(
            events[at],
        )[k],
    decreases count,
{
    if at < count - 1 {
        law_every_event_scrolls(events, count - 1, at, k);
    }
}

/// Turning a wheel scrolls by what it is turned, in the direction in which it is:
/// lines by its detents, points and pages by its distance. Where a gesture ends,
/// what is left of a point is dropped instead, and where nothing is turned, nothing
/// happens.
pub proof fn law_wheels_scroll_by_what_they_are_turned(wheel: WheelEvent)
    ensures
        ({
            let steps = scroll_steps(InputEvent::Wheel(wheel));
            let ends = wheel.phase == TouchPhase::End || wheel.phase == TouchPhase::Cancel;
            &&& ends ==> steps == seq![ScrollStep::DropRemainder]
            &&& !ends && !turned(wheel.delta_y) ==> steps.len() == 0
            &&& !ends && turned(wheel.delta_y) ==> steps.len() == 1
            &&& !ends && turned(wheel.delta_y) && wheel.unit == WheelUnit::Point ==> steps[0]
                == ScrollStep::Points(wheel.delta_y)
            &&& !ends && turned(wheel.delta_y) && wheel.unit == WheelUnit::Page ==> steps[0]
                == ScrollStep::Pages(wheel.delta_y)
            &&& !ends && turned(wheel.delta_y) && wheel.unit == WheelUnit::Line ==> {
                &&& steps[0] is Lines
                &&& steps[0]->count == wheel_detents(wheel)
                &&& less_than(wheel.delta_y, 0) ==> steps[0]->direction
                    == ScrollDirection::Backward
                &&& less_than(0, wheel.delta_y) ==> steps[0]->direction == ScrollDirection::Forward
            }
        }),
{
}

/// A scroll goes forward above zero and backward below it, and has no direction
/// where it is no number.
pub proof fn law_scrolls_go_by_their_sign(bits: u32)
    ensures
        less_than(0, bits) ==> scroll_direction(bits) == Some(ScrollDirection::Forward),
        less_than(bits, 0) ==> scroll_direction(bits) == Some(ScrollDirection::Backward),
        scroll_direction(bits) is None <==> !is_number(bits),
        batch_direction(bits) is Some ==> batch_direction(bits) == scroll_direction(bits),
        batch_direction(bits) is Some <==> moved(bits),
{
}

/// Every scroll in the direction is applied, in order, and no other one is.
pub proof fn law_scrolls_along_are_applied(
    scrolls: Seq<u32>,
    direction: ScrollDirection,
    scroll: u32,
)
    ensures
        scrolls_along(scrolls, Some(direction)).contains(scroll) <==> scrolls.contains(scroll)
            && scroll_direction(scroll) == Some(direction),
        scrolls_along(scrolls, None).len() == 0,
{
    broadcast use vstd::seq_lib::group_filter_ensures;

    let keeps = |scroll: u32|
        Some(direction).is_some() && scroll_direction(scroll) == Some(direction);
    assert(scrolls_along(scrolls, Some(direction)) == scrolls.filter(keeps));
    if scrolls.filter(keeps).contains(scroll) {
        let i = scrolls.filter(keeps).index_of(scroll);
        assert(keeps(scrolls.filter(keeps)[i]));
        scrolls.lemma_filter_contains_rev(keeps, scroll);
    }
    if scrolls.contains(scroll) && keeps(scroll) {
        let i = scrolls.index_of(scroll);
        assert(scrolls.filter(keeps).contains(scrolls[i]));
    }
    let none: Option<ScrollDirection> = None;
    let keeps_none = |scroll: u32| none.is_some() && scroll_direction(scroll) == none;
    assert(scrolls_along(scrolls, none) == scrolls.filter(keeps_none));
    if scrolls.filter(keeps_none).len() > 0 {
        assert(keeps_none(scrolls.filter(keeps_none)[0]));
    }
}

/// A direction is held for a quarter of a second after the last turn and forgotten
/// then.
pub proof fn law_directions_are_held_for_a_while(latch: WheelZoomDirectionLatch, last: u64, now: u64)
    requires
        latch.last_input_at == Some(last),
    ensures
        now < last + 250_000_000 ==> latch.held(now) == latch.direction,
        now >= last + 250_000_000 ==> latch.held(now) is None,
{
}

/// The turns of a wheel are all of them, in order.
pub proof fn law_every_turn_is_told(events: Seq<InputEvent>, at: int)
    requires
        0 <= at < events.len(),
        events[at] is Wheel,
    ensures
        ({
            let place = wheel_turns(events.take(at)).len() as int;
            &&& place < wheel_turns(events).len()
            &&& wheel_turns(events)[place] == events[at]->Wheel_0
            &&& wheel_turns(events.take(at + 1)).len() == place + 1
        }),
    decreases events.len(),
{
    let rest = events.drop_last();
    assert(events.take(at + 1).drop_last() =~= events.take(at));
    assert(events.take(at + 1).last() == events[at]);
    if at < events.len() - 1 {
        law_every_turn_is_told(rest, at);
        assert(rest.take(at) =~= events.take(at));
        assert(rest[at] == events[at]);
    } else {
        assert(rest =~= events.take(at));
    }
}

} // verus!
