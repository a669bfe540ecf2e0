use selftop::selftop::MotionSniffer as SessionMotionSniffer;
use selftop::selftop::motionSniffer::MotionSniffer;
use selftop::selftop::windowSniffer::{Counter, UserEvent, Window, WindowSniffer};

fn named(name: &str) -> Window {
    Window { wm_name: Some(name.to_string()), class: Some(vec!["term".to_string()]), pid: Some(7) }
}

fn counter_of<'a>(s: &'a WindowSniffer, name: &str) -> &'a Counter {
    &s.windows.iter().find(|(w, _)| w.wm_name.as_deref() == Some(name)).unwrap().1
}

#[test]
fn window_motion_counts_only_after_pause() {
    let mut m = MotionSniffer { last_event_time: 0, motion_count: 0 };
    m.processEvent(100);
    assert_eq!(m.motion_count, 0);
    m.processEvent(301);
    assert_eq!(m.motion_count, 1);
    m.processEvent(501);
    assert_eq!(m.motion_count, 1);
    assert_eq!(m.last_event_time, 501);
}

#[test]
fn session_motion_counts_first_motion() {
    let mut m = SessionMotionSniffer { last_event_time: 0, motion_count: 0 };
    m.processEvent(100);
    assert_eq!(m.motion_count, 1);
    m.processEvent(250);
    assert_eq!(m.motion_count, 1);
    m.processEvent(451);
    assert_eq!(m.motion_count, 2);
    assert_eq!(m.last_event_time, 451);
}

#[test]
fn new_sniffer_is_empty() {
    let s = WindowSniffer::new();
    assert!(s.current_window.is_none());
    assert!(s.prev_window.is_none());
    assert!(s.windows.is_empty());
}

#[test]
fn events_are_counted_per_window() {
    let mut s = WindowSniffer::new();
    s.processEvent(named("a"), UserEvent::KeyEvent { keycode: 1, time: 1000 });
    s.processEvent(named("a"), UserEvent::KeyEvent { keycode: 1, time: 1100 });
    s.processEvent(named("a"), UserEvent::ClickEvent { buttoncode: 1, time: 1200 });
    s.processEvent(named("a"), UserEvent::MotionEvent { time: 1500 });
    let c = counter_of(&s, "a");
    assert_eq!(c.keys, 2);
    assert_eq!(c.clicks, 1);
    assert_eq!(c.motionSniffer.motion_count, 1);
    assert_eq!(c.motionSniffer.last_event_time, 1500);
    assert_eq!(s.windows.len(), 1);
    assert_eq!(s.current_window.as_ref().unwrap().wm_name.as_deref(), Some("a"));
    assert_eq!(s.prev_window.as_ref().unwrap().wm_name.as_deref(), Some("a"));
}

#[test]
fn windows_are_the_same_by_name() {
    let mut s = WindowSniffer::new();
    s.processEvent(named("a"), UserEvent::KeyEvent { keycode: 1, time: 10 });
    let other = Window { wm_name: Some("a".to_string()), class: None, pid: Some(99) };
    assert!(other == named("a"));
    assert!(named("a") != named("b"));
    s.processEvent(other, UserEvent::KeyEvent { keycode: 1, time: 20 });
    assert_eq!(s.windows.len(), 1);
    assert_eq!(s.windows[0].0.pid, Some(7));
    assert_eq!(counter_of(&s, "a").keys, 2);
}

#[test]
fn switching_windows_times_the_visits() {
    let mut s = WindowSniffer::new();
    s.processEvent(named("a"), UserEvent::KeyEvent { keycode: 1, time: 1000 });
    assert_eq!(counter_of(&s, "a").enter_time, 1000);
    s.processEvent(named("b"), UserEvent::KeyEvent { keycode: 1, time: 3000 });
    assert_eq!(counter_of(&s, "a").timer, 2000);
    assert_eq!(counter_of(&s, "b").enter_time, 3000);
    s.processEvent(named("b"), UserEvent::KeyEvent { keycode: 1, time: 3500 });
    assert_eq!(counter_of(&s, "b").timer, 0);
    s.processEvent(named("a"), UserEvent::ClickEvent { buttoncode: 1, time: 4000 });
    assert_eq!(counter_of(&s, "b").timer, 1000);
    assert_eq!(counter_of(&s, "a").timer, 2000);
    assert_eq!(counter_of(&s, "a").enter_time, 4000);
    assert_eq!(s.windows.len(), 2);
    assert_eq!(s.windows[0].0.wm_name.as_deref(), Some("a"));
    assert_eq!(s.windows[1].0.wm_name.as_deref(), Some("b"));
}

#[test]
fn untimed_visit_starts_when_left() {
    let mut s = WindowSniffer::new();
    s.processEvent(named("a"), UserEvent::KeyEvent { keycode: 1, time: 0 });
    s.processEvent(named("b"), UserEvent::KeyEvent { keycode: 1, time: 500 });
    let a = counter_of(&s, "a");
    assert_eq!(a.timer, 0);
    assert_eq!(a.enter_time, 500);
}

#[test]
fn unnamed_windows_share_one_entry() {
    let mut s = WindowSniffer::new();
    let w = Window { wm_name: None, class: None, pid: None };
    s.processEvent(w.duplicate(), UserEvent::KeyEvent { keycode: 1, time: 5 });
    s.processEvent(w, UserEvent::KeyEvent { keycode: 1, time: 6 });
    assert_eq!(s.windows.len(), 1);
    assert_eq!(s.windows[0].1.keys, 2);
}

#[test]
fn switch_timer_without_change_does_nothing() {
    let mut s = WindowSniffer::new();
    s.processEvent(named("a"), UserEvent::KeyEvent { keycode: 1, time: 100 });
    let before = *counter_of(&s, "a");
    s.switchTimer(900);
    assert_eq!(*counter_of(&s, "a"), before);
}

#[test]
fn switch_timer_enters_current_window() {
    let mut s = WindowSniffer::new();
    s.processEvent(named("a"), UserEvent::KeyEvent { keycode: 1, time: 100 });
    s.prev_window = None;
    s.switchTimer(700);
    assert_eq!(counter_of(&s, "a").enter_time, 700);
    assert_eq!(counter_of(&s, "a").timer, 0);
}

#[test]
fn full_counter_refuses_event() {
    let mut s = WindowSniffer::new();
    s.processEvent(named("a"), UserEvent::KeyEvent { keycode: 1, time: 100 });
    s.windows[0].1.keys = u64::MAX;
    assert!(!s.accepts_event(&named("a"), &UserEvent::KeyEvent { keycode: 1, time: 200 }));
    assert!(s.accepts_event(&named("a"), &UserEvent::ClickEvent { buttoncode: 1, time: 200 }));
}

#[test]
fn time_running_backwards_is_refused() {
    let mut s = WindowSniffer::new();
    s.processEvent(named("a"), UserEvent::MotionEvent { time: 1000 });
    assert!(!s.accepts_event(&named("a"), &UserEvent::MotionEvent { time: 900 }));
    assert!(!s.accepts_event(&named("b"), &UserEvent::KeyEvent { keycode: 1, time: 900 }));
    assert!(s.accepts_event(&named("b"), &UserEvent::KeyEvent { keycode: 1, time: 1000 }));
}

#[test]
fn duplicate_keeps_every_field() {
    let w = Window { wm_name: Some("x".to_string()), class: Some(vec!["a".to_string(), "b".to_string()]), pid: Some(3) };
    let d = w.duplicate();
    assert_eq!(d.wm_name, w.wm_name);
    assert_eq!(d.class, w.class);
    assert_eq!(d.pid, w.pid);
}
