use vstd::prelude::*;
use crate::selftop::windowSniffer::UserEvent;

verus! {

/// Core protocol code of a key press.
pub const KEY_PRESS: u8 = 2;

/// Core protocol code of a button press.
pub const BUTTON_PRESS: u8 = 4;

/// Core protocol code of a pointer motion.
pub const MOTION_NOTIFY: u8 = 6;

/// Milliseconds of server time between two redraws of the screen.
pub const REDRAW_INTERVAL: u64 = 1000;

/// The user event that a recorded protocol event stands for, if any.
pub open spec fn event_of_record(xtype: u8, server_time: u64) -> Option<UserEvent> {
    if xtype == KEY_PRESS {
        Some(UserEvent::KeyEvent { time: server_time, keycode: 1 })
    } else if xtype == BUTTON_PRESS {
        Some(UserEvent::ClickEvent { time: server_time, buttoncode: 1 })
    } else if xtype == MOTION_NOTIFY {
        Some(UserEvent::MotionEvent { time: server_time })
    } else {
        None
    }
}

/// Classifies a recorded protocol event of type `xtype` at `server_time`: key presses,
/// button presses and pointer motions become user events, anything else is ignored.
pub fn user_event_from_record(xtype: u8, server_time: u64) -> (res: Option<UserEvent>)
    ensures
        res == event_of_record(xtype, server_time),
        res is Some <==> (xtype == KEY_PRESS || xtype == BUTTON_PRESS || xtype == MOTION_NOTIFY),
        xtype == KEY_PRESS ==> res == Some(UserEvent::KeyEvent { keycode: 1, time: server_time }),
        xtype == BUTTON_PRESS ==> res == Some(
            UserEvent::ClickEvent { buttoncode: 1, time: server_time },
        ),
        xtype == MOTION_NOTIFY ==> res == Some(UserEvent::MotionEvent { time: server_time }),
{
    if xtype == KEY_PRESS {
        Some(UserEvent::KeyEvent { time: server_time, keycode: 1 })
    } else if xtype == BUTTON_PRESS {
        Some(UserEvent::ClickEvent { time: server_time, buttoncode: 1 })
    } else if xtype == MOTION_NOTIFY {
        Some(UserEvent::MotionEvent { time: server_time })
    } else {
        None
    }
}

/// Only key presses, button presses and pointer motions count, each as the matching
/// event at the record's time; every other protocol event, such as a key or button
/// release, is ignored, so each press is counted once.
pub proof fn lemma_records_counted_once(xtype: u8, server_time: u64)
    ensures
        event_of_record(xtype, server_time) is Some <==> (xtype == KEY_PRESS || xtype
            == BUTTON_PRESS || xtype == MOTION_NOTIFY),
        xtype == KEY_PRESS ==> event_of_record(xtype, server_time) == Some(
            UserEvent::KeyEvent { keycode: 1, time: server_time },
        ),
        xtype == BUTTON_PRESS ==> event_of_record(xtype, server_time) == Some(
            UserEvent::ClickEvent { buttoncode: 1, time: server_time },
        ),
        xtype == MOTION_NOTIFY ==> event_of_record(xtype, server_time) == Some(
            UserEvent::MotionEvent { time: server_time },
        ),
        xtype == BUTTON_PRESS + 1 ==> event_of_record(xtype, server_time) is None,
        xtype == KEY_PRESS + 1 ==> event_of_record(xtype, server_time) is None,
{
}

/// Decides when the screen is redrawn: at the first event more than `REDRAW_INTERVAL` ms
/// after the last redraw.
pub struct RedrawClock {
    pub prev_time: u64,
}

impl RedrawClock {
    /// A clock that has never redrawn.
    pub fn new() -> (res: RedrawClock)
        ensures
            res.prev_time == 0,
    {
        RedrawClock { prev_time: 0 }
    }

    /// Notes an event at `server_time`; true when the screen is due for a redraw, which
    /// then counts as done at `server_time`.
    pub fn tick(&mut self, server_time: u64) -> (redraw: bool)
        requires
            old(self).prev_time <= server_time,
        ensures
            redraw == (server_time - old(self).prev_time > REDRAW_INTERVAL),
            final(self).prev_time == if redraw {
                server_time
            } else {
                old(self).prev_time
            },
    {
        if server_time - self.prev_time > REDRAW_INTERVAL {
            self.prev_time = server_time;
            true
        } else {
            false
        }
    }
}

} // verus!
