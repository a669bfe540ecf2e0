use vstd::prelude::*;

pub mod motionSniffer;
pub mod windowSniffer;

verus! {

/// A timestamp in milliseconds, as the X server reports it.
pub type Time = u64;

/// Pause, in milliseconds, after which a pointer motion counts as a new movement.
pub const MOTION_PAUSE: u64 = 200;

/// Counts the distinct pointer movements of a session: a motion event starts a new
/// movement when it comes more than `MOTION_PAUSE` ms after the previous one, or when
/// no motion has been seen yet (`last_event_time == 0`).
#[derive(Clone, Copy, Debug)]
pub struct MotionSniffer {
    pub last_event_time: Time,
    pub motion_count: u64,
}

impl MotionSniffer {
    /// True when a motion at `time` starts a new movement.
    pub open spec fn starts_movement(self, time: Time) -> bool {
        time - self.last_event_time > MOTION_PAUSE || self.last_event_time == 0
    }

    /// The sniffer after it has seen a motion at `time`.
    pub open spec fn after_motion(self, time: Time) -> MotionSniffer {
        MotionSniffer {
            last_event_time: time,
            motion_count: if self.starts_movement(time) {
                (self.motion_count + 1) as u64
            } else {
                self.motion_count
            },
        }
    }

    /// A motion at `time` can be recorded: time does not run backwards and the count
    /// has room for one more movement.
    pub open spec fn accepts_motion(self, time: Time) -> bool {
        &&& self.last_event_time <= time
        &&& self.starts_movement(time) ==> self.motion_count < u64::MAX
    }

    /// Records a motion event at `time`.
    pub fn processEvent(&mut self, time: Time)
        requires
            old(self).accepts_motion(time),
        ensures
            *final(self) == old(self).after_motion(time),
            final(self).last_event_time == time,
            final(self).motion_count == old(self).motion_count + if time - old(self).last_event_time
                > 200 || old(self).last_event_time == 0 {
                1int
            } else {
                0int
            },
    {
        let delta = time - self.last_event_time;
        if delta > MOTION_PAUSE || self.last_event_time == 0 {
            self.motion_count += 1;
        }
        self.last_event_time = time;
    }
}

/// A motion never lowers the movement count and raises it by exactly one when it comes
/// more than 200 ms after the previous motion or is the first one, however long the pause;
/// the sniffer then remembers the motion's time.
pub proof fn lemma_motion_counting(m: MotionSniffer, time: Time)
    requires
        m.accepts_motion(time),
    ensures
        m.after_motion(time).last_event_time == time,
        m.after_motion(time).motion_count == m.motion_count + if time - m.last_event_time > 200
            || m.last_event_time == 0 {
            1int
        } else {
            0int
        },
        m.after_motion(time).motion_count >= m.motion_count,
{
}

} // verus!
