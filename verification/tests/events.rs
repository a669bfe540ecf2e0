use selftop::focus::{FocusStep, FocusWalk};
use selftop::record::{user_event_from_record, RedrawClock, BUTTON_PRESS, KEY_PRESS, MOTION_NOTIFY};
use selftop::selftop::windowSniffer::UserEvent;

#[test]
fn records_become_user_events() {
    assert_eq!(user_event_from_record(KEY_PRESS, 5), Some(UserEvent::KeyEvent { keycode: 1, time: 5 }));
    assert_eq!(user_event_from_record(BUTTON_PRESS, 6), Some(UserEvent::ClickEvent { buttoncode: 1, time: 6 }));
    assert_eq!(user_event_from_record(MOTION_NOTIFY, 7), Some(UserEvent::MotionEvent { time: 7 }));
    assert_eq!(user_event_from_record(3, 8), None);
    assert_eq!(user_event_from_record(7, 8), None);
}

#[test]
fn redraw_after_a_second() {
    let mut c = RedrawClock::new();
    assert!(!c.tick(1000));
    assert_eq!(c.prev_time, 0);
    assert!(c.tick(1001));
    assert_eq!(c.prev_time, 1001);
    assert!(!c.tick(2001));
    assert!(c.tick(2002));
    assert_eq!(c.prev_time, 2002);
}

#[test]
fn focus_walk_stops_at_named_window() {
    let mut w = FocusWalk::new(500);
    assert_eq!(w.next_step(), FocusStep::Inspect(500));
    assert!(FocusWalk::wants_parent(&None));
    assert!(FocusWalk::wants_parent(&Some("FocusProxy".to_string())));
    assert!(!FocusWalk::wants_parent(&Some("Editor".to_string())));
    w.climb(Some(400));
    assert_eq!(w.next_step(), FocusStep::Inspect(400));
    w.climb(None);
    assert_eq!(w.current, 400);
    assert_eq!(w.steps, 2);
}

#[test]
fn focus_walk_stops_at_root_and_after_ten_moves() {
    let mut w = FocusWalk::new(9);
    w.climb(Some(1));
    assert_eq!(w.next_step(), FocusStep::Done(1));
    assert_eq!(FocusWalk::new(0).next_step(), FocusStep::Done(0));
    let mut w = FocusWalk::new(50);
    for _ in 0..10 {
        assert_eq!(w.next_step(), FocusStep::Inspect(50));
        w.climb(None);
    }
    assert_eq!(w.next_step(), FocusStep::Done(50));
}
