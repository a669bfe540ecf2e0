use vstd::prelude::*;

verus! {

/// Pause, in milliseconds, after which a pointer motion counts as a new movement.
pub const MOTION_PAUSE: u64 = 200;

/// Counts the pointer movements seen in one window: a motion event starts a new
/// movement when it comes more than `MOTION_PAUSE` ms after the previous one.
#[derive(Clone, Copy, Debug, PartialEq, Eq, Structural)]
pub struct MotionSniffer {
    pub last_event_time: u64,
    pub motion_count: u64,
}

impl MotionSniffer {
    /// A sniffer that has seen nothing.
    pub open spec fn fresh() -> MotionSniffer {
        MotionSniffer { last_event_time: 0, motion_count: 0 }
    }

    /// True when a motion at `time` starts a new movement.
    pub open spec fn starts_movement(self, time: u64) -> bool {
        time - self.last_event_time > MOTION_PAUSE
    }

    /// The sniffer after it has seen a motion at `time`.
    pub open spec fn after_motion(self, time: u64) -> MotionSniffer {
        MotionSniffer {
            last_event_time: time,
            motion_count: if self.starts_movement(time) {
                (self.motion_count + 1) as u64
            } else {
                self.motion_count
            },
        }
    }

    /// A motion at `time` can be recorded: time does not run backwards and the count
    /// has room for one more movement.
    pub open spec fn accepts_motion(self, time: u64) -> bool {
        &&& self.last_event_time <= time
        &&& self.starts_movement(time) ==> self.motion_count < u64::MAX
    }

    /// Records a motion event at `time`.
    pub fn processEvent(&mut self, time: u64)
        requires
            old(self).accepts_motion(time),
        ensures
            *final(self) == old(self).after_motion(time),
            final(self).last_event_time == time,
            final(self).motion_count == old(self).motion_count + if time - old(self).last_event_time
                > 200 {
                1int
            } else {
                0int
            },
    {
        let delta = time - self.last_event_time;
        if delta > MOTION_PAUSE {
            self.motion_count += 1;
        }
        self.last_event_time = time;
    }
}

/// A motion never lowers the movement count and raises it by exactly one when it comes
/// more than 200 ms after the previous motion, however long the pause; the sniffer then
/// remembers the motion's time.
pub proof fn lemma_motion_counting(m: MotionSniffer, time: u64)
    requires
        m.accepts_motion(time),
    ensures
        m.after_motion(time).last_event_time == time,
        m.after_motion(time).motion_count == m.motion_count + if time - m.last_event_time > 200 {
            1int
        } else {
            0int
        },
        m.after_motion(time).motion_count >= m.motion_count,
{
}

} // verus!
