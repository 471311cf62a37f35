//! How fast frames follow one another. Times and rates are bit patterns of
//! single-precision numbers.

use crate::screen::{at_most, less_than, number_at_most, number_less_than};
use vstd::prelude::*;

verus! {

/// The longest time between two frames, in seconds, that still counts as one of
/// a series.
pub const MAX_MEASURED_FRAME_TIME: u32 = 0x3e80_0000;

/// The bit pattern of the time up to which two frames are not apart.
pub const NO_FRAME_TIME: u32 = 0x3400_0000;

/// Whether the time between two frames counts: it is more than nothing and at most
/// the longest one.
pub open spec fn is_measured(frame_time: u32) -> bool {
    less_than(NO_FRAME_TIME, frame_time) && at_most(frame_time, MAX_MEASURED_FRAME_TIME)
}

/// What measuring frames rests on that comes from floating-point arithmetic.
pub struct FrameMeasures<B, M, R> {
    /// An average with one more time in it.
    pub blend: B,
    /// A time in milliseconds.
    pub milliseconds: M,
    /// How many frames a second there are of so long a time.
    pub rate: R,
}

impl<B: Fn(u32, u32) -> u32, M: Fn(u32) -> u32, R: Fn(u32) -> u32> FrameMeasures<B, M, R> {
    /// Everything can be asked, and the same question has one answer.
    pub open spec fn wf(self) -> bool {
        &&& forall|average: u32, time: u32| #[trigger]
            call_requires(self.blend, (average, time))
        &&& forall|time: u32| #[trigger] call_requires(self.milliseconds, (time,))
        &&& forall|time: u32| #[trigger] call_requires(self.rate, (time,))
        &&& forall|average: u32, time: u32, one: u32, other: u32| #[trigger]
            call_ensures(self.blend, (average, time), one) && #[trigger] call_ensures(
                self.blend,
                (average, time),
                other,
            ) ==> one == other
        &&& forall|time: u32, one: u32, other: u32| #[trigger]
            call_ensures(self.milliseconds, (time,), one) && #[trigger] call_ensures(
                self.milliseconds,
                (time,),
                other,
            ) ==> one == other
        &&& forall|time: u32, one: u32, other: u32| #[trigger]
            call_ensures(self.rate, (time,), one) && #[trigger] call_ensures(
                self.rate,
                (time,),
                other,
            ) ==> one == other
    }

    /// An average with one more time in it.
    pub open spec fn blended(self, average: u32, time: u32) -> u32 {
        choose|answer: u32| call_ensures(self.blend, (average, time), answer)
    }

    /// A time in milliseconds.
    pub open spec fn in_milliseconds(self, time: u32) -> u32 {
        choose|answer: u32| call_ensures(self.milliseconds, (time,), answer)
    }

    /// How many frames a second there are of so long a time.
    pub open spec fn rate_of(self, time: u32) -> u32 {
        choose|answer: u32| call_ensures(self.rate, (time,), answer)
    }
}

/// The average time between the frames of an interaction.
#[derive(Debug, Clone, Copy, PartialEq, Eq, Structural)]
pub struct FrameRateTracker {
    pub average_frame_time: Option<u32>,
    pub interaction_active_last_frame: bool,
}

impl FrameRateTracker {
    /// Nothing measured.
    pub fn new() -> (tracker: Self)
        ensures
            tracker == (FrameRateTracker {
                average_frame_time: None,
                interaction_active_last_frame: false,
            }),
    {
        FrameRateTracker { average_frame_time: None, interaction_active_last_frame: false }
    }

    /// The average with a frame of an interaction that counts: the first one after
    /// a rest begins anew, any other one is averaged in.
    pub open spec fn average_with<
        B: Fn(u32, u32) -> u32,
        M: Fn(u32) -> u32,
        R: Fn(u32) -> u32,
    >(self, frame_time: u32, measures: FrameMeasures<B, M, R>) -> u32 {
        match self.average_frame_time {
            Some(average) if self.interaction_active_last_frame => measures.blended(
                average,
                frame_time,
            ),
            _ => frame_time,
        }
    }

    /// Takes note of a frame. Frames count during an interaction, where they are
    /// not too far apart. Returns how long the frame was, in milliseconds.
    pub fn update<B: Fn(u32, u32) -> u32, M: Fn(u32) -> u32, R: Fn(u32) -> u32>(
        &mut self,
        frame_time: u32,
        interaction_active: bool,
        measures: &FrameMeasures<B, M, R>,
    ) -> (measured: Option<u32>)
        requires
            measures.wf(),
        ensures
            if !interaction_active {
                &&& measured is None
                &&& *final(self) == (FrameRateTracker {
                    interaction_active_last_frame: false,
                    ..*old(self)
                })
            } else if !is_measured(frame_time) {
                &&& measured is None
                &&& *final(self) == *old(self)
            } else {
                &&& measured == Some(measures.in_milliseconds(frame_time))
                &&& *final(self) == (FrameRateTracker {
                    average_frame_time: Some(old(self).average_with(frame_time, *measures)),
                    interaction_active_last_frame: true,
                })
            },
    {
        if !interaction_active {
            self.interaction_active_last_frame = false;
            return None;
        }
        if !number_less_than(NO_FRAME_TIME, frame_time) || !number_at_most(
            frame_time,
            MAX_MEASURED_FRAME_TIME,
        ) {
            return None;
        }
        let average: u32 = match self.average_frame_time {
            Some(average) => if self.interaction_active_last_frame {
                (measures.blend)(average, frame_time)
            } else {
                frame_time
            },
            None => frame_time,
        };
        self.average_frame_time = Some(average);
        self.interaction_active_last_frame = true;
        let measured: u32 = (measures.milliseconds)(frame_time);
        assert(call_ensures(measures.milliseconds, (frame_time,), measured));
        Some(measured)
    }

    /// How many frames a second there are, and how long a frame is in milliseconds;
    /// none where nothing was measured.
    pub fn metrics<B: Fn(u32, u32) -> u32, M: Fn(u32) -> u32, R: Fn(u32) -> u32>(
        &self,
        measures: &FrameMeasures<B, M, R>,
    ) -> (metrics: Option<(u32, u32)>)
        requires
            measures.wf(),
        ensures
            metrics == match self.average_frame_time {
                Some(average) => Some(
                    (measures.rate_of(average), measures.in_milliseconds(average)),
                ),
                None => None,
            },
    {
        match self.average_frame_time {
            Some(average) => {
                let rate: u32 = (measures.rate)(average);
                assert(call_ensures(measures.rate, (average,), rate));
                let milliseconds: u32 = (measures.milliseconds)(average);
                assert(call_ensures(measures.milliseconds, (average,), milliseconds));
                Some((rate, milliseconds))
            },
            None => None,
        }
    }
}

/// Whether a frame is so slow that it is logged: it took too long itself, or there
/// are too few frames a second. A frame that was not measured is not.
pub fn frame_is_slow(
    frame_ms: Option<u32>,
    fps: Option<u32>,
    slow_frame_ms: u32,
    low_fps: u32,
) -> (slow: bool)
    ensures
        slow == (frame_ms is Some && (at_most(slow_frame_ms, frame_ms.unwrap()) || (fps is Some
            && less_than(fps.unwrap(), low_fps)))),
{
    match frame_ms {
        Some(frame_ms) => number_at_most(slow_frame_ms, frame_ms) || match fps {
            Some(fps) => number_less_than(fps, low_fps),
            None => false,
        },
        None => false,
    }
}

/// What a rest leaves behind does not count for the average after it: a frame that
/// counts begins it anew.
pub proof fn law_average_begins_anew_after_a_rest<
    B: Fn(u32, u32) -> u32,
    M: Fn(u32) -> u32,
    R: Fn(u32) -> u32,
>(tracker: FrameRateTracker, frame_time: u32, measures: FrameMeasures<B, M, R>)
    ensures
        (FrameRateTracker { interaction_active_last_frame: false, ..tracker }).average_with(
            frame_time,
            measures,
        ) == frame_time,
{
}

} // verus!
