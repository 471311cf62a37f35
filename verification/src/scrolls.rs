//! How far the wheel scrolls, in points.

use crate::screen::{at_most, magnitude, number_at_most, without_sign};
use crate::wheel::{ScrollDirection, ScrollStep};
use vstd::prelude::*;

verus! {

/// The bit pattern of the height of a line.
pub const LINE_FORWARD: u32 = 0x4220_0000;

/// The bit pattern of the height of a line, going back.
pub const LINE_BACKWARD: u32 = 0xc220_0000;

/// The bit pattern of a whole point.
pub const WHOLE_POINT: u32 = 0x3f80_0000;

/// The bit pattern of nothing left over.
pub const NOTHING_LEFT: u32 = 0;

/// What scrolling rests on that comes from floating-point arithmetic.
pub struct ScrollMeasures<A, W, R, P> {
    /// The sum of two distances.
    pub total: A,
    /// A distance without the part of a point.
    pub whole: W,
    /// What is left of the first distance without the second.
    pub rest: R,
    /// So many pages, in points.
    pub pages: P,
}

/// How far the wheel scrolled, and what part of a point is left over.
pub struct Scrolled {
    pub scrolls: Seq<u32>,
    pub remainder: u32,
}

impl<
    A: Fn(u32, u32) -> u32,
    W: Fn(u32) -> u32,
    R: Fn(u32, u32) -> u32,
    P: Fn(u32) -> u32,
> ScrollMeasures<A, W, R, P> {
    /// Everything can be asked, and the same question has one answer.
    pub open spec fn wf(self) -> bool {
        &&& forall|a: u32, b: u32| #[trigger] call_requires(self.total, (a, b))
        &&& forall|a: u32| #[trigger] call_requires(self.whole, (a,))
        &&& forall|a: u32, b: u32| #[trigger] call_requires(self.rest, (a, b))
        &&& forall|a: u32| #[trigger] call_requires(self.pages, (a,))
        &&& forall|a: u32, b: u32, one: u32, other: u32| #[trigger]
            call_ensures(self.total, (a, b), one) && #[trigger] call_ensures(
                self.total,
                (a, b),
                other,
            ) ==> one == other
        &&& forall|a: u32, one: u32, other: u32| #[trigger]
            call_ensures(self.whole, (a,), one) && #[trigger] call_ensures(self.whole, (a,), other)
                ==> one == other
        &&& forall|a: u32, b: u32, one: u32, other: u32| #[trigger]
            call_ensures(self.rest, (a, b), one) && #[trigger] call_ensures(
                self.rest,
                (a, b),
                other,
            ) ==> one == other
        &&& forall|a: u32, one: u32, other: u32| #[trigger]
            call_ensures(self.pages, (a,), one) && #[trigger] call_ensures(self.pages, (a,), other)
                ==> one == other
    }

    /// The sum of two distances.
    pub open spec fn sum_of(self, a: u32, b: u32) -> u32 {
        choose|answer: u32| call_ensures(self.total, (a, b), answer)
    }

    /// A distance without the part of a point.
    pub open spec fn whole_of(self, a: u32) -> u32 {
        choose|answer: u32| call_ensures(self.whole, (a,), answer)
    }

    /// What is left of the first distance without the second.
    pub open spec fn rest_of(self, a: u32, b: u32) -> u32 {
        choose|answer: u32| call_ensures(self.rest, (a, b), answer)
    }

    /// So many pages, in points.
    pub open spec fn pages_of(self, a: u32) -> u32 {
        choose|answer: u32| call_ensures(self.pages, (a,), answer)
    }

    /// What a step makes of what was scrolled: lines and pages scroll at once,
    /// points as soon as they are whole.
    pub open spec fn after(self, before: Scrolled, step: ScrollStep) -> Scrolled {
        match step {
            ScrollStep::DropRemainder => Scrolled { remainder: NOTHING_LEFT, ..before },
            ScrollStep::Lines { direction, count } => Scrolled {
                scrolls: before.scrolls + Seq::new(
                    count as nat,
                    |i: int|
                        match direction {
                            ScrollDirection::Forward => LINE_FORWARD,
                            ScrollDirection::Backward => LINE_BACKWARD,
                        },
                ),
                ..before
            },
            ScrollStep::Points(bits) => {
                let sum = self.sum_of(before.remainder, bits);
                let whole = self.whole_of(sum);
                if at_most(WHOLE_POINT, magnitude(whole)) {
                    Scrolled {
                        scrolls: before.scrolls.push(whole),
                        remainder: self.rest_of(sum, whole),
                    }
                } else {
                    Scrolled { remainder: sum, ..before }
                }
            },
            ScrollStep::Pages(bits) => Scrolled {
                scrolls: before.scrolls.push(self.pages_of(bits)),
                ..before
            },
        }
    }

    /// What the first `count` steps scroll, with so much left over before.
    pub open spec fn scrolled(self, steps: Seq<ScrollStep>, count: int, remainder: u32) -> Scrolled
        decreases count,
    {
        if count <= 0 {
            Scrolled { scrolls: Seq::empty(), remainder }
        } else {
            self.after(self.scrolled(steps, count - 1, remainder), steps[count - 1])
        }
    }

    /// How far the steps scroll, in points; `remainder` is the part of a point
    /// that is left over from one frame to the next.
    pub fn scroll_points(&self, steps: &Vec<ScrollStep>, remainder: &mut u32) -> (scrolls: Vec<u32>)
        requires
            self.wf(),
        ensures
            (Scrolled { scrolls: scrolls@, remainder: *final(remainder) }) == self.scrolled(
                steps@,
                steps@.len() as int,
                *old(remainder),
            ),
    {
        let ghost start = *remainder;
        let mut left: u32 = *remainder;
        let mut scrolls: Vec<u32> = Vec::new();
        let mut i: usize = 0;
        assert(scrolls@ =~= Seq::<u32>::empty());
        while i < steps.len()
            invariant
                self.wf(),
                i <= steps@.len(),
                (Scrolled { scrolls: scrolls@, remainder: left }) == self.scrolled(
                    steps@,
                    i as int,
                    start,
                ),
            decreases steps@.len() - i,
        {
            let ghost before = Scrolled { scrolls: scrolls@, remainder: left };
            match steps[i] {
                ScrollStep::DropRemainder => {
                    left = NOTHING_LEFT;
                },
                ScrollStep::Lines { direction, count } => {
                    let line: u32 = match direction {
                        ScrollDirection::Forward => LINE_FORWARD,
                        ScrollDirection::Backward => LINE_BACKWARD,
                    };
                    push_copies(&mut scrolls, line, count);
                    assert(scrolls@ =~= self.after(before, steps@[i as int]).scrolls);
                },
                ScrollStep::Points(bits) => {
                    let sum: u32 = (self.total)(left, bits);
                    assert(call_ensures(self.total, (before.remainder, bits), sum));
                    let whole: u32 = (self.whole)(sum);
                    assert(call_ensures(self.whole, (sum,), whole));
                    if number_at_most(WHOLE_POINT, without_sign(whole)) {
                        scrolls.push(whole);
                        left = (self.rest)(sum, whole);
                        assert(call_ensures(self.rest, (sum, whole), left));
                    } else {
                        left = sum;
                    }
                },
                ScrollStep::Pages(bits) => {
                    let scroll: u32 = (self.pages)(bits);
                    assert(call_ensures(self.pages, (bits,), scroll));
                    scrolls.push(scroll);
                },
            }
            i = i + 1;
        }
        *remainder = left;
        scrolls
    }
}

fn push_copies(list: &mut Vec<u32>, value: u32, count: usize)
    ensures
        final(list)@ == old(list)@ + Seq::new(count as nat, |i: int| value),
{
    let ghost before = list@;
    let mut i: usize = 0;
    while i < count
        invariant
            i <= count,
            list@ == before + Seq::new(i as nat, |k: int| value),
        decreases count - i,
    {
        list.push(value);
        i = i + 1;
        assert(list@ =~= before + Seq::new(i as nat, |k: int| value));
    }
    assert(list@ =~= before + Seq::new(count as nat, |k: int| value));
}

impl<
    A: Fn(u32, u32) -> u32,
    W: Fn(u32) -> u32,
    R: Fn(u32, u32) -> u32,
    P: Fn(u32) -> u32,
> ScrollMeasures<A, W, R, P> {
    /// What was scrolled stays, and each step adds its own: a line scrolls one unit
    /// for each detent, in its direction; pages scroll by their size; and points
    /// are added to what is left of the ones before, scroll by the whole ones among
    /// these once there is one, and keep the rest.
    pub proof fn law_each_step_adds_its_scrolls(
        self,
        steps: Seq<ScrollStep>,
        remainder: u32,
        at: int,
        sum: u32,
        whole: u32,
        rest: u32,
    )
        requires
            self.wf(),
            0 <= at < steps.len(),
            steps[at] matches ScrollStep::Points(bits) ==> call_ensures(
                self.total,
                (self.scrolled(steps, at, remainder).remainder, bits),
                sum,
            ) && call_ensures(self.whole, (sum,), whole) && call_ensures(
                self.rest,
                (sum, whole),
                rest,
            ),
            steps[at] matches ScrollStep::Pages(bits) ==> call_ensures(self.pages, (bits,), whole),
        ensures
            ({
                let before = self.scrolled(steps, at, remainder);
                let after = self.scrolled(steps, at + 1, remainder);
                let added = after.scrolls.len() - before.scrolls.len();
                &&& self.scrolled(steps, 0, remainder).remainder == remainder
                &&& self.scrolled(steps, 0, remainder).scrolls.len() == 0
                &&& before.scrolls.is_prefix_of(after.scrolls)
                &&& match steps[at] {
                    ScrollStep::DropRemainder => added == 0 && after.remainder == NOTHING_LEFT,
                    ScrollStep::Lines { direction, count } => {
                        &&& added == count
                        &&& after.remainder == before.remainder
                        &&& forall|k: int|
                            before.scrolls.len() <= k < after.scrolls.len()
                                ==> #[trigger] after.scrolls[k] == if direction
                                == ScrollDirection::Forward {
                                LINE_FORWARD
                            } else {
                                LINE_BACKWARD
                            }
                    },
                    ScrollStep::Points(_) => if at_most(WHOLE_POINT, magnitude(whole)) {
                        added == 1 && after.scrolls.last() == whole && after.remainder == rest
                    } else {
                        added == 0 && after.remainder == sum
                    },
                    ScrollStep::Pages(_) => added == 1 && after.scrolls.last() == whole
                        && after.remainder == before.remainder,
                }
            }),
    {
        let before = self.scrolled(steps, at, remainder);
        if let ScrollStep::Points(bits) = steps[at] {
            assert(self.sum_of(before.remainder, bits) == sum);
            assert(self.whole_of(sum) == whole);
            assert(self.rest_of(sum, whole) == rest);
        }
        if let ScrollStep::Pages(bits) = steps[at] {
            assert(self.pages_of(bits) == whole);
        }
    }
}

} // verus!
