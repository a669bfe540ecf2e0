use vstd::prelude::*;
use crate::selftop::motionSniffer::MotionSniffer;

verus! {

/// A top-level window as the tracker knows it. Two windows are the same window when
/// their `wm_name` is the same; the class and pid only travel along.
#[derive(Clone, Debug)]
pub struct Window {
    pub wm_name: Option<String>,
    pub class: Option<Vec<String>>,
    pub pid: Option<u32>,
}

/// The mathematical value of a `Window`.
pub struct WindowView {
    pub wm_name: Option<Seq<char>>,
    pub class: Option<Seq<Seq<char>>>,
    pub pid: Option<u32>,
}

/// The text of an optional string.
pub open spec fn name_view(name: Option<String>) -> Option<Seq<char>> {
    match name {
        Some(s) => Some(s@),
        None => None,
    }
}

/// The texts of a list of strings.
pub open spec fn strings_view(v: Seq<String>) -> Seq<Seq<char>> {
    v.map_values(|s: String| s@)
}

impl View for Window {
    type V = WindowView;

    open spec fn view(&self) -> WindowView {
        WindowView {
            wm_name: name_view(self.wm_name),
            class: match self.class {
                Some(v) => Some(strings_view(v@)),
                None => None,
            },
            pid: self.pid,
        }
    }
}

impl PartialEq for Window {
    fn eq(&self, other: &Window) -> (res: bool) {
        same_name(&self.wm_name, &other.wm_name)
    }
}

impl vstd::std_specs::cmp::PartialEqSpecImpl for Window {
    open spec fn obeys_eq_spec() -> bool {
        true
    }

    open spec fn eq_spec(&self, other: &Window) -> bool {
        name_view(self.wm_name) == name_view(other.wm_name)
    }
}

impl Eq for Window {}

/// Compares two optional names by their text.
pub fn same_name(a: &Option<String>, b: &Option<String>) -> (res: bool)
    ensures
        res == (name_view(*a) == name_view(*b)),
{
    match (a, b) {
        (Some(x), Some(y)) => x.eq(y),
        (None, None) => true,
        _ => false,
    }
}

impl Window {
    /// A copy of this window.
    pub fn duplicate(&self) -> (res: Window)
        ensures
            res@ == self@,
    {
        let wm_name = match &self.wm_name {
            Some(s) => Some(s.clone()),
            None => None,
        };
        let class = match &self.class {
            Some(v) => {
                let c = v.clone();
                assert(strings_view(c@) =~= strings_view(v@));
                Some(c)
            },
            None => None,
        };
        Window { wm_name, class, pid: self.pid }
    }
}

/// What the tracker counts for one window.
#[derive(Clone, Copy, Debug, PartialEq, Eq, Structural)]
pub struct Counter {
    pub keys: u64,
    pub clicks: u64,
    pub motionSniffer: MotionSniffer,
    /// Milliseconds spent in the window, summed over the visits that have ended.
    pub timer: u64,
    /// When the current visit began; 0 while no visit has been timed.
    pub enter_time: u64,
}

/// An input event seen by the tracker, with the server time at which it happened.
#[derive(Clone, Copy, Debug, PartialEq, Eq, Structural)]
pub enum UserEvent {
    MotionEvent { time: u64 },
    KeyEvent { keycode: u8, time: u64 },
    ClickEvent { buttoncode: u8, time: u64 },
}

impl UserEvent {
    /// The server time at which the event happened.
    pub open spec fn time(self) -> u64 {
        match self {
            UserEvent::MotionEvent { time } => time,
            UserEvent::KeyEvent { time, .. } => time,
            UserEvent::ClickEvent { time, .. } => time,
        }
    }
}

impl Counter {
    /// The counter of a window seen for the first time.
    pub open spec fn fresh() -> Counter {
        Counter { keys: 0, clicks: 0, motionSniffer: MotionSniffer::fresh(), timer: 0, enter_time: 0 }
    }

    /// The event can be counted without running past the counters' range or back in time.
    pub open spec fn accepts(self, e: UserEvent) -> bool {
        match e {
            UserEvent::MotionEvent { time } => self.motionSniffer.accepts_motion(time),
            UserEvent::KeyEvent { .. } => self.keys < u64::MAX,
            UserEvent::ClickEvent { .. } => self.clicks < u64::MAX,
        }
    }

    /// The counter after the event has been counted.
    pub open spec fn counted(self, e: UserEvent) -> Counter {
        match e {
            UserEvent::MotionEvent { time } => Counter {
                motionSniffer: self.motionSniffer.after_motion(time),
                ..self
            },
            UserEvent::KeyEvent { .. } => Counter { keys: (self.keys + 1) as u64, ..self },
            UserEvent::ClickEvent { .. } => Counter { clicks: (self.clicks + 1) as u64, ..self },
        }
    }

    /// The visit can be closed at `time` without time running backwards or the timer
    /// overflowing.
    pub open spec fn can_leave(self, time: u64) -> bool {
        self.enter_time == 0 || (self.enter_time <= time && self.timer + (time - self.enter_time)
            <= u64::MAX)
    }

    /// The counter after its window was left at `time`: the visit's length is added to
    /// the timer; a window whose visit was never timed starts one at `time` instead.
    pub open spec fn left(self, time: u64) -> Counter {
        if self.enter_time == 0 {
            Counter { enter_time: time, ..self }
        } else {
            Counter { timer: (self.timer + (time - self.enter_time)) as u64, ..self }
        }
    }

    /// The counter after its window was entered at `time`.
    pub open spec fn entered(self, time: u64) -> Counter {
        Counter { enter_time: time, ..self }
    }
}

/// The table of windows: each known window with its counter, in the order of first sight.
pub type Entries = Seq<(WindowView, Counter)>;

/// Some entry is for the window named `k`.
pub open spec fn has_key(s: Entries, k: Option<Seq<char>>) -> bool {
    exists|i: int| 0 <= i < s.len() && #[trigger] s[i].0.wm_name == k
}

/// The position of the entry for the window named `k`.
pub open spec fn index_of_key(s: Entries, k: Option<Seq<char>>) -> int {
    choose|i: int| 0 <= i < s.len() && #[trigger] s[i].0.wm_name == k
}

/// The counter of the window named `k`.
pub open spec fn counter_of(s: Entries, k: Option<Seq<char>>) -> Counter {
    s[index_of_key(s, k)].1
}

/// No two entries are for the same window.
pub open spec fn keys_unique(s: Entries) -> bool {
    forall|i: int, j: int|
        0 <= i < s.len() && 0 <= j < s.len() && i != j ==> #[trigger] s[i].0.wm_name
            != #[trigger] s[j].0.wm_name
}

/// The table with the counter of the window named `k` replaced by `c`.
pub open spec fn with_counter(s: Entries, k: Option<Seq<char>>, c: Counter) -> Entries {
    s.map_values(|e: (WindowView, Counter)| if e.0.wm_name == k { (e.0, c) } else { e })
}

/// The table after `w` has been looked up: unchanged when `w` is known, else `w`
/// appended with a fresh counter.
pub open spec fn registered(s: Entries, w: WindowView) -> Entries {
    if has_key(s, w.wm_name) {
        s
    } else {
        s.push((w, Counter::fresh()))
    }
}

/// The two optional windows are equal as windows (by name).
pub open spec fn same_window(a: Option<WindowView>, b: Option<WindowView>) -> bool {
    match (a, b) {
        (Some(x), Some(y)) => x.wm_name == y.wm_name,
        (None, None) => true,
        _ => false,
    }
}

/// The mathematical value of a `WindowSniffer`.
pub struct SnifferView {
    pub current: Option<WindowView>,
    pub prev: Option<WindowView>,
    pub windows: Entries,
}

pub open spec fn opt_window_view(w: Option<Window>) -> Option<WindowView> {
    match w {
        Some(x) => Some(x@),
        None => None,
    }
}

pub open spec fn entries_view(v: Seq<(Window, Counter)>) -> Entries {
    v.map_values(|e: (Window, Counter)| (e.0@, e.1))
}

impl SnifferView {
    /// The table holds each window once, and holds the current and previous windows.
    pub open spec fn wf(self) -> bool {
        &&& keys_unique(self.windows)
        &&& (self.current matches Some(w) ==> has_key(self.windows, w.wm_name))
        &&& (self.prev matches Some(w) ==> has_key(self.windows, w.wm_name))
    }

    /// A switch of windows at `time` can be timed.
    pub open spec fn can_switch(self, time: u64) -> bool {
        !same_window(self.current, self.prev) ==> (self.prev matches Some(p) ==> counter_of(
            self.windows,
            p.wm_name,
        ).can_leave(time))
    }

    /// The state after the timers were switched at `time`: when the current window is
    /// not the previous one, the previous window is left and the current one entered.
    pub open spec fn switched(self, time: u64) -> SnifferView {
        if same_window(self.current, self.prev) {
            self
        } else {
            let s1 = match self.prev {
                Some(p) => with_counter(
                    self.windows,
                    p.wm_name,
                    counter_of(self.windows, p.wm_name).left(time),
                ),
                None => self.windows,
            };
            let s2 = match self.current {
                Some(c) => with_counter(s1, c.wm_name, counter_of(s1, c.wm_name).entered(time)),
                None => s1,
            };
            SnifferView { windows: s2, ..self }
        }
    }

    /// The state after the event was counted for `w`, before the timers are switched.
    pub open spec fn counted(self, w: WindowView, e: UserEvent) -> SnifferView {
        let s1 = registered(self.windows, w);
        SnifferView {
            current: Some(w),
            prev: self.prev,
            windows: with_counter(s1, w.wm_name, counter_of(s1, w.wm_name).counted(e)),
        }
    }

    /// The event for `w` can be processed without overflow and without time running
    /// backwards.
    pub open spec fn accepts(self, w: WindowView, e: UserEvent) -> bool {
        let s1 = registered(self.windows, w);
        &&& counter_of(s1, w.wm_name).accepts(e)
        &&& self.counted(w, e).can_switch(e.time())
    }

    /// The state after the event was processed for `w`.
    pub open spec fn after_event(self, w: WindowView, e: UserEvent) -> SnifferView {
        SnifferView { prev: Some(w), ..self.counted(w, e).switched(e.time()) }
    }
}

/// Tracks, per window, the keys pressed, the clicks, the pointer movements and the time
/// spent in it.
pub struct WindowSniffer {
    pub current_window: Option<Window>,
    pub prev_window: Option<Window>,
    pub windows: Vec<(Window, Counter)>,
}

impl View for WindowSniffer {
    type V = SnifferView;

    open spec fn view(&self) -> SnifferView {
        SnifferView {
            current: opt_window_view(self.current_window),
            prev: opt_window_view(self.prev_window),
            windows: entries_view(self.windows@),
        }
    }
}

/// With unique keys, the entry at `i` is the one found for its key.
pub proof fn lemma_index_of_key(s: Entries, i: int)
    requires
        keys_unique(s),
        0 <= i < s.len(),
    ensures
        has_key(s, s[i].0.wm_name),
        index_of_key(s, s[i].0.wm_name) == i,
        counter_of(s, s[i].0.wm_name) == s[i].1,
{
    assert(has_key(s, s[i].0.wm_name));
}

/// Replacing the counter of a known window keeps the table's shape and changes only
/// that window's counter.
pub proof fn lemma_with_counter(s: Entries, k: Option<Seq<char>>, c: Counter)
    requires
        keys_unique(s),
        has_key(s, k),
    ensures
        with_counter(s, k, c).len() == s.len(),
        forall|j: int| 0 <= j < s.len() ==> #[trigger] with_counter(s, k, c)[j].0 == s[j].0,
        keys_unique(with_counter(s, k, c)),
        forall|k2: Option<Seq<char>>| #[trigger]
            has_key(with_counter(s, k, c), k2) == has_key(s, k2),
        index_of_key(with_counter(s, k, c), k) == index_of_key(s, k),
        counter_of(with_counter(s, k, c), k) == c,
        forall|k2: Option<Seq<char>>|
            k2 != k && has_key(s, k2) ==> #[trigger] counter_of(with_counter(s, k, c), k2)
                == counter_of(s, k2),
{
    let t = with_counter(s, k, c);
    assert forall|k2: Option<Seq<char>>| #[trigger] has_key(t, k2) == has_key(s, k2) by {
        if has_key(s, k2) {
            let i = choose|i: int| 0 <= i < s.len() && #[trigger] s[i].0.wm_name == k2;
            assert(t[i].0.wm_name == k2);
        }
        if has_key(t, k2) {
            let i = choose|i: int| 0 <= i < t.len() && #[trigger] t[i].0.wm_name == k2;
            assert(s[i].0.wm_name == k2);
        }
    }
    let i = index_of_key(s, k);
    lemma_index_of_key(s, i);
    lemma_index_of_key(t, i);
    assert forall|k2: Option<Seq<char>>|
        k2 != k && has_key(s, k2) implies #[trigger] counter_of(t, k2) == counter_of(s, k2) by {
        let j = index_of_key(s, k2);
        lemma_index_of_key(s, j);
        lemma_index_of_key(t, j);
    }
}

/// Looks up the window named `name` in the table.
fn lookup(entries: &Vec<(Window, Counter)>, name: &Option<String>) -> (res: Option<usize>)
    ensures
        match res {
            Some(i) => i < entries@.len() && entries_view(entries@)[i as int].0.wm_name
                == name_view(*name),
            None => !has_key(entries_view(entries@), name_view(*name)),
        },
{
    let ghost s = entries_view(entries@);
    let mut i: usize = 0;
    while i < entries.len()
        invariant
            i <= entries@.len(),
            s == entries_view(entries@),
            forall|j: int| 0 <= j < i ==> #[trigger] s[j].0.wm_name != name_view(*name),
        decreases entries@.len() - i,
    {
        if same_name(&entries[i].0.wm_name, name) {
            return Some(i);
        }
        i += 1;
    }
    proof {
        if has_key(s, name_view(*name)) {
            let j = choose|j: int| 0 <= j < s.len() && #[trigger] s[j].0.wm_name == name_view(*name);
            assert(s[j].0.wm_name != name_view(*name));
        }
    }
    None
}

/// The position of the window named `name`, which the table holds.
fn position_of(entries: &Vec<(Window, Counter)>, name: &Option<String>) -> (i: usize)
    requires
        keys_unique(entries_view(entries@)),
        has_key(entries_view(entries@), name_view(*name)),
    ensures
        i < entries@.len(),
        i == index_of_key(entries_view(entries@), name_view(*name)),
{
    match lookup(entries, name) {
        Some(i) => {
            proof {
                lemma_index_of_key(entries_view(entries@), i as int);
            }
            i
        },
        None => {
            proof {
                assert(false);
            }
            0
        },
    }
}

/// Stores `c` as the counter of the entry at `i`.
fn set_counter(entries: &mut Vec<(Window, Counter)>, i: usize, c: Counter)
    requires
        i < old(entries)@.len(),
        keys_unique(entries_view(old(entries)@)),
    ensures
        entries_view(final(entries)@) == with_counter(
            entries_view(old(entries)@),
            entries_view(old(entries)@)[i as int].0.wm_name,
            c,
        ),
{
    let ghost s = entries_view(entries@);
    entries[i].1 = c;
    proof {
        let k = s[i as int].0.wm_name;
        let t = entries_view(entries@);
        assert forall|j: int| 0 <= j < s.len() implies #[trigger] t[j] == with_counter(s, k, c)[j] by {
            if j != i {
                assert(s[j].0.wm_name != k);
            }
        }
        assert(t =~= with_counter(s, k, c));
    }
}

/// Finds the entry of `window`, adding it with a fresh counter when it is new.
fn register(entries: &mut Vec<(Window, Counter)>, window: &Window) -> (i: usize)
    requires
        keys_unique(entries_view(old(entries)@)),
    ensures
        entries_view(final(entries)@) == registered(entries_view(old(entries)@), window@),
        keys_unique(entries_view(final(entries)@)),
        forall|k: Option<Seq<char>>|
            has_key(entries_view(old(entries)@), k) ==> #[trigger] has_key(
                entries_view(final(entries)@),
                k,
            ),
        i < final(entries)@.len(),
        entries_view(final(entries)@)[i as int].0.wm_name == window@.wm_name,
{
    let ghost s = entries_view(entries@);
    match lookup(entries, &window.wm_name) {
        Some(i) => {
            proof {
                assert(has_key(s, window@.wm_name));
            }
            i
        },
        None => {
            let fresh = Counter {
                keys: 0,
                clicks: 0,
                motionSniffer: MotionSniffer { last_event_time: 0, motion_count: 0 },
                timer: 0,
                enter_time: 0,
            };
            entries.push((window.duplicate(), fresh));
            proof {
                let t = entries_view(entries@);
                assert(t =~= s.push((window@, Counter::fresh())));
                assert forall|k: Option<Seq<char>>| has_key(s, k) implies #[trigger] has_key(t, k) by {
                    let j = choose|j: int| 0 <= j < s.len() && #[trigger] s[j].0.wm_name == k;
                    assert(t[j].0.wm_name == k);
                }
                assert forall|a: int, b: int|
                    0 <= a < t.len() && 0 <= b < t.len() && a != b implies #[trigger] t[a].0.wm_name
                    != #[trigger] t[b].0.wm_name by {
                    if a == s.len() {
                        assert(s[b].0.wm_name != window@.wm_name);
                    } else if b == s.len() {
                        assert(s[a].0.wm_name != window@.wm_name);
                    }
                }
            }
            entries.len() - 1
        },
    }
}

impl WindowSniffer {
    /// A tracker that has seen nothing.
    pub fn new() -> (res: WindowSniffer)
        ensures
            res@.current is None,
            res@.prev is None,
            res@.windows == Seq::<(WindowView, Counter)>::empty(),
            res@.wf(),
    {
        let res = WindowSniffer { current_window: None, prev_window: None, windows: Vec::new() };
        assert(entries_view(res.windows@) =~= Seq::<(WindowView, Counter)>::empty());
        res
    }

    /// Counts `event` for `window`, registering the window when it is new, and times the
    /// switch when the focus moved from another window.
    pub fn processEvent(&mut self, window: Window, event: UserEvent)
        requires
            old(self)@.wf(),
            old(self)@.accepts(window@, event),
        ensures
            final(self)@ == old(self)@.after_event(window@, event),
            final(self)@.wf(),
    {
        let ghost old_view = self@;
        let i = register(&mut self.windows, &window);
        self.current_window = Some(window.duplicate());
        let ghost s1 = entries_view(self.windows@);
        proof {
            lemma_index_of_key(s1, i as int);
        }
        let mut c = self.windows[i].1;
        let mut current_time: u64 = 0;
        match event {
            UserEvent::MotionEvent { time } => {
                c.motionSniffer.processEvent(time);
                current_time = time;
            },
            UserEvent::KeyEvent { time, .. } => {
                c.keys += 1;
                current_time = time;
            },
            UserEvent::ClickEvent { time, .. } => {
                c.clicks += 1;
                current_time = time;
            },
        }
        set_counter(&mut self.windows, i, c);
        proof {
            lemma_with_counter(s1, window@.wm_name, c);
            assert(self@ == old_view.counted(window@, event));
            if let Some(p) = old_view.prev {
                assert(has_key(s1, p.wm_name));
            }
        }
        self.switchTimer(current_time);
        self.prev_window = Some(window);
    }

    /// When the focus has moved to another window, ends the previous window's visit at
    /// `time` and starts the current window's.
    pub fn switchTimer(&mut self, time: u64)
        requires
            old(self)@.wf(),
            old(self)@.can_switch(time),
        ensures
            final(self)@ == old(self)@.switched(time),
            final(self)@.wf(),
    {
        let ghost s0 = self@.windows;
        if !same_optional_window(&self.current_window, &self.prev_window) {
            match &self.prev_window {
                Some(w) => {
                    let i = position_of(&self.windows, &w.wm_name);
                    proof {
                        lemma_index_of_key(s0, i as int);
                    }
                    let mut c = self.windows[i].1;
                    if c.enter_time == 0 {
                        c.enter_time = time;
                    } else {
                        c.timer += time - c.enter_time;
                    }
                    set_counter(&mut self.windows, i, c);
                    proof {
                        lemma_with_counter(s0, w@.wm_name, c);
                    }
                },
                None => {},
            }
            let ghost s1 = self@.windows;
            match &self.current_window {
                Some(w) => {
                    let i = position_of(&self.windows, &w.wm_name);
                    proof {
                        lemma_index_of_key(s1, i as int);
                    }
                    let mut c = self.windows[i].1;
                    c.enter_time = time;
                    set_counter(&mut self.windows, i, c);
                    proof {
                        lemma_with_counter(s1, w@.wm_name, c);
                    }
                },
                None => {},
            }
            assert(self@.windows == old(self)@.switched(time).windows);
        }
    }
}

impl Counter {
    /// Whether the counter can take `event`.
    pub fn accepts_event(&self, event: &UserEvent) -> (res: bool)
        ensures
            res == self.accepts(*event),
    {
        match event {
            UserEvent::MotionEvent { time } => {
                let m = self.motionSniffer;
                m.last_event_time <= *time && (*time - m.last_event_time <= 200 || m.motion_count
                    < u64::MAX)
            },
            UserEvent::KeyEvent { .. } => self.keys < u64::MAX,
            UserEvent::ClickEvent { .. } => self.clicks < u64::MAX,
        }
    }

    /// Whether the current visit can be closed at `time`.
    pub fn can_leave_at(&self, time: u64) -> (res: bool)
        ensures
            res == self.can_leave(time),
    {
        self.enter_time == 0 || (self.enter_time <= time && self.timer <= u64::MAX - (time
            - self.enter_time))
    }
}

impl WindowSniffer {
    /// Whether `processEvent(window, event)` can run: no counter would overflow and time
    /// would not run backwards for any counter it touches.
    pub fn accepts_event(&self, window: &Window, event: &UserEvent) -> (res: bool)
        requires
            self@.wf(),
        ensures
            res == self@.accepts(window@, *event),
    {
        let ghost s0 = self@.windows;
        proof {
            lemma_registered(s0, window@);
        }
        let ghost s1 = registered(s0, window@);
        let c = match lookup(&self.windows, &window.wm_name) {
            Some(i) => {
                proof {
                    lemma_index_of_key(s0, i as int);
                }
                self.windows[i].1
            },
            None => {
                proof {
                    lemma_index_of_key(s1, s0.len() as int);
                }
                Counter {
                    keys: 0,
                    clicks: 0,
                    motionSniffer: MotionSniffer { last_event_time: 0, motion_count: 0 },
                    timer: 0,
                    enter_time: 0,
                }
            },
        };
        assert(c == counter_of(s1, window@.wm_name));
        if !c.accepts_event(event) {
            return false;
        }
        let ghost t = event.time();
        let ghost c2 = c.counted(*event);
        proof {
            lemma_with_counter(s1, window@.wm_name, c2);
        }
        let time = match event {
            UserEvent::MotionEvent { time } => *time,
            UserEvent::KeyEvent { time, .. } => *time,
            UserEvent::ClickEvent { time, .. } => *time,
        };
        match &self.prev_window {
            None => true,
            Some(p) => {
                if same_name(&p.wm_name, &window.wm_name) {
                    true
                } else {
                    let j = position_of(&self.windows, &p.wm_name);
                    proof {
                        lemma_index_of_key(s0, j as int);
                    }
                    self.windows[j].1.can_leave_at(time)
                }
            },
        }
    }
}

/// Compares two optional windows as windows, by name.
pub fn same_optional_window(a: &Option<Window>, b: &Option<Window>) -> (res: bool)
    ensures
        res == same_window(opt_window_view(*a), opt_window_view(*b)),
{
    match (a, b) {
        (Some(x), Some(y)) => same_name(&x.wm_name, &y.wm_name),
        (None, None) => true,
        _ => false,
    }
}

/// Looking a window up keeps every known window and its counter, and afterwards the
/// window is known; a new window gets a fresh counter at the end of the table.
pub proof fn lemma_registered(s: Entries, w: WindowView)
    requires
        keys_unique(s),
    ensures
        keys_unique(registered(s, w)),
        has_key(registered(s, w), w.wm_name),
        registered(s, w).len() == s.len() || registered(s, w).len() == s.len() + 1,
        forall|j: int| 0 <= j < s.len() ==> #[trigger] registered(s, w)[j] == s[j],
        forall|k: Option<Seq<char>>| has_key(s, k) ==> #[trigger] has_key(registered(s, w), k),
        forall|k: Option<Seq<char>>|
            has_key(s, k) ==> #[trigger] counter_of(registered(s, w), k) == counter_of(s, k),
        !has_key(s, w.wm_name) ==> counter_of(registered(s, w), w.wm_name) == Counter::fresh(),
{
    let t = registered(s, w);
    if !has_key(s, w.wm_name) {
        assert forall|a: int, b: int|
            0 <= a < t.len() && 0 <= b < t.len() && a != b implies #[trigger] t[a].0.wm_name
            != #[trigger] t[b].0.wm_name by {
            if a == s.len() {
                assert(s[b].0.wm_name != w.wm_name);
            } else if b == s.len() {
                assert(s[a].0.wm_name != w.wm_name);
            }
        }
        lemma_index_of_key(t, s.len() as int);
    }
    assert forall|k: Option<Seq<char>>| has_key(s, k) implies #[trigger] has_key(t, k)
        && counter_of(t, k) == counter_of(s, k) by {
        let j = index_of_key(s, k);
        lemma_index_of_key(s, j);
        assert(t[j] == s[j]);
        lemma_index_of_key(t, j);
    }
    assert forall|k: Option<Seq<char>>| has_key(s, k) implies #[trigger] counter_of(t, k)
        == counter_of(s, k) by {
        assert(has_key(t, k));
    }
}

/// After an event, its window is known and is both the current and the previous window,
/// every window known before is still known, and the table still holds each window once.
pub proof fn lemma_event_registers_window(v: SnifferView, w: WindowView, e: UserEvent)
    requires
        v.wf(),
        v.accepts(w, e),
    ensures
        v.after_event(w, e).wf(),
        has_key(v.after_event(w, e).windows, w.wm_name),
        v.after_event(w, e).current == Some(w),
        v.after_event(w, e).prev == Some(w),
        forall|k: Option<Seq<char>>|
            has_key(v.windows, k) ==> #[trigger] has_key(v.after_event(w, e).windows, k),
        forall|j: int|
            0 <= j < v.windows.len() ==> #[trigger] v.after_event(w, e).windows[j].0
                == v.windows[j].0,
        v.after_event(w, e).windows.len() == v.windows.len() || v.after_event(w, e).windows.len()
            == v.windows.len() + 1,
{
    lemma_event_effect(v, w, e);
    lemma_registered(v.windows, w);
    let after = v.after_event(w, e).windows;
    let s1 = registered(v.windows, w);
    assert forall|k: Option<Seq<char>>| has_key(v.windows, k) implies #[trigger] has_key(after, k) by {
        assert(has_key(s1, k));
    }
    assert forall|j: int| 0 <= j < v.windows.len() implies #[trigger] after[j].0 == v.windows[j].0 by {
        assert(s1[j] == v.windows[j]);
    }
}

/// What an event does to the counters. The event's window counts it; no other window's
/// key, click or motion counts change; no timer ever goes down; and when the focus came
/// from another window, that window's visit is closed at the event's time and the
/// event's window starts a visit then.
pub proof fn lemma_event_effect(v: SnifferView, w: WindowView, e: UserEvent)
    requires
        v.wf(),
        v.accepts(w, e),
    ensures
        ({
            let after = v.after_event(w, e).windows;
            let s1 = registered(v.windows, w);
            let c = counter_of(s1, w.wm_name).counted(e);
            &&& v.after_event(w, e).wf()
            &&& has_key(after, w.wm_name)
            &&& v.after_event(w, e).current == Some(w)
            &&& v.after_event(w, e).prev == Some(w)
            &&& after.len() == s1.len()
            &&& forall|j: int| 0 <= j < s1.len() ==> #[trigger] after[j].0 == s1[j].0
            &&& forall|k: Option<Seq<char>>| #[trigger] has_key(after, k) == has_key(s1, k)
            &&& counter_of(after, w.wm_name).keys == c.keys
            &&& counter_of(after, w.wm_name).clicks == c.clicks
            &&& counter_of(after, w.wm_name).motionSniffer == c.motionSniffer
            &&& counter_of(after, w.wm_name).timer == c.timer
            &&& counter_of(after, w.wm_name).enter_time == if same_window(v.prev, Some(w)) {
                c.enter_time
            } else {
                e.time()
            }
            &&& forall|k: Option<Seq<char>>|
                has_key(v.windows, k) && k != w.wm_name ==> {
                    &&& #[trigger] counter_of(after, k).keys == counter_of(v.windows, k).keys
                    &&& counter_of(after, k).clicks == counter_of(v.windows, k).clicks
                    &&& counter_of(after, k).motionSniffer == counter_of(
                        v.windows,
                        k,
                    ).motionSniffer
                    &&& counter_of(after, k).timer >= counter_of(v.windows, k).timer
                    &&& (!(v.prev matches Some(p) && p.wm_name == k) ==> counter_of(after, k)
                        == counter_of(v.windows, k))
                    &&& (v.prev matches Some(p) && p.wm_name == k ==> counter_of(after, k)
                        == counter_of(v.windows, k).left(e.time()))
                }
        }),
{
    let s0 = v.windows;
    let s1 = registered(s0, w);
    let k = w.wm_name;
    lemma_registered(s0, w);
    let c = counter_of(s1, k).counted(e);
    let s2 = with_counter(s1, k, c);
    lemma_with_counter(s1, k, c);
    let m = v.counted(w, e);
    assert(m.windows == s2);
    let t = e.time();
    if let Some(p) = v.prev {
        assert(has_key(s1, p.wm_name));
    }
    if !same_window(m.current, m.prev) {
        let s3 = match m.prev {
            Some(p) => with_counter(s2, p.wm_name, counter_of(s2, p.wm_name).left(t)),
            None => s2,
        };
        if let Some(p) = m.prev {
            lemma_with_counter(s2, p.wm_name, counter_of(s2, p.wm_name).left(t));
        }
        let s4 = with_counter(s3, k, counter_of(s3, k).entered(t));
        lemma_with_counter(s3, k, counter_of(s3, k).entered(t));
        assert(m.switched(t).windows == s4);
    }
}

/// How an event changes the counts of its own window. Let `o` be the window's counter
/// before the event (all zero for a window seen for the first time): a key press adds one
/// key, a click adds one click, and a pointer motion at `t` adds one movement exactly when
/// `t` is more than 200 ms after the window's previous motion, however long the pause, and
/// makes `t` the window's last motion time; every other count stays.
pub proof fn lemma_event_counts(v: SnifferView, w: WindowView, e: UserEvent)
    requires
        v.wf(),
        v.accepts(w, e),
    ensures
        ({
            let k = w.wm_name;
            let n = counter_of(v.after_event(w, e).windows, k);
            let known = has_key(v.windows, k);
            let keys: int = if known { counter_of(v.windows, k).keys as int } else { 0 };
            let clicks: int = if known { counter_of(v.windows, k).clicks as int } else { 0 };
            let moves: int = if known {
                counter_of(v.windows, k).motionSniffer.motion_count as int
            } else {
                0
            };
            let last: int = if known {
                counter_of(v.windows, k).motionSniffer.last_event_time as int
            } else {
                0
            };
            match e {
                UserEvent::KeyEvent { .. } => {
                    &&& n.keys == keys + 1
                    &&& n.clicks == clicks
                    &&& n.motionSniffer.motion_count == moves
                    &&& n.motionSniffer.last_event_time == last
                },
                UserEvent::ClickEvent { .. } => {
                    &&& n.keys == keys
                    &&& n.clicks == clicks + 1
                    &&& n.motionSniffer.motion_count == moves
                    &&& n.motionSniffer.last_event_time == last
                },
                UserEvent::MotionEvent { time } => {
                    &&& n.keys == keys
                    &&& n.clicks == clicks
                    &&& n.motionSniffer.last_event_time == time
                    &&& n.motionSniffer.motion_count == moves + if time - last > 200 {
                        1int
                    } else {
                        0int
                    }
                },
            }
        }),
{
    lemma_event_effect(v, w, e);
    lemma_registered(v.windows, w);
}

/// How an event accounts time. When the event's window `w` is not the previous window
/// `p`, the visit to `p` ends at the event's time `t`: `p`'s timer grows by exactly
/// `t - enter_time` when its visit was timed (`enter_time != 0`) and stays otherwise, and
/// `w`'s visit starts at `t`. When `w` is the previous window, no timer and no visit start
/// changes. Visits are summed: the timer is never reset.
pub proof fn lemma_event_times_visits(v: SnifferView, w: WindowView, e: UserEvent)
    requires
        v.wf(),
        v.accepts(w, e),
    ensures
        ({
            let after = v.after_event(w, e).windows;
            let t = e.time();
            let k = w.wm_name;
            &&& v.prev matches Some(p) ==> (p.wm_name != k ==> {
                let o = counter_of(v.windows, p.wm_name);
                let n = counter_of(after, p.wm_name);
                &&& n.timer == if o.enter_time == 0 {
                    o.timer as int
                } else {
                    o.timer + (t - o.enter_time)
                }
                &&& n.keys == o.keys
                &&& n.clicks == o.clicks
                &&& n.motionSniffer == o.motionSniffer
            })
            &&& !(v.prev matches Some(p) && p.wm_name == k) ==> counter_of(after, k).enter_time == t
            &&& v.prev matches Some(p) ==> (p.wm_name == k ==> forall|k2: Option<Seq<char>>|
                has_key(v.windows, k2) ==> {
                    &&& #[trigger] counter_of(after, k2).timer == counter_of(v.windows, k2).timer
                    &&& counter_of(after, k2).enter_time == counter_of(v.windows, k2).enter_time
                })
            &&& has_key(v.windows, k) ==> counter_of(after, k).timer == counter_of(
                v.windows,
                k,
            ).timer
        }),
{
    lemma_event_effect(v, w, e);
    lemma_registered(v.windows, w);
    let k = w.wm_name;
    let s1 = registered(v.windows, w);
    let c0 = counter_of(s1, k);
    let c = c0.counted(e);
    assert(c.timer == c0.timer && c.enter_time == c0.enter_time);
    let after = v.after_event(w, e).windows;
    if let Some(p) = v.prev {
        if p.wm_name == k {
            assert forall|k2: Option<Seq<char>>| has_key(v.windows, k2) implies {
                &&& #[trigger] counter_of(after, k2).timer == counter_of(v.windows, k2).timer
                &&& counter_of(after, k2).enter_time == counter_of(v.windows, k2).enter_time
            } by {
                if k2 != k {
                    assert(counter_of(after, k2).keys == counter_of(v.windows, k2).keys);
                    assert(counter_of(after, k2) == counter_of(v.windows, k2));
                }
            }
        }
    }
    let t = e.time();
    if let Some(p) = v.prev {
        if p.wm_name != k {
            let o = counter_of(v.windows, p.wm_name);
            assert(counter_of(after, p.wm_name).keys == o.keys);
            assert(counter_of(after, p.wm_name) == o.left(t));
            lemma_with_counter(s1, k, c);
            assert(has_key(s1, p.wm_name));
            assert(counter_of(v.counted(w, e).windows, p.wm_name) == o);
            assert(o.can_leave(t));
        }
    }
    assert(!(v.prev matches Some(p) && p.wm_name == k) ==> counter_of(after, k).enter_time == t);
    assert(has_key(v.windows, k) ==> counter_of(after, k).timer == counter_of(v.windows, k).timer);
}

/// A switch of timers at `t` away from the previous window `p`: `p`'s timer grows by
/// exactly `t - enter_time` when its visit was timed and otherwise its visit starts at
/// `t`; the current window's visit starts at `t` with its timer unchanged; all counts
/// stay.
pub proof fn lemma_switch_times_visits(v: SnifferView, t: u64)
    requires
        v.wf(),
        v.can_switch(t),
        !same_window(v.current, v.prev),
    ensures
        ({
            let after = v.switched(t).windows;
            &&& v.prev matches Some(p) ==> {
                let o = counter_of(v.windows, p.wm_name);
                let n = counter_of(after, p.wm_name);
                &&& n.timer == if o.enter_time == 0 {
                    o.timer as int
                } else {
                    o.timer + (t - o.enter_time)
                }
                &&& n.enter_time == t || (n.enter_time == o.enter_time && o.enter_time != 0)
                &&& n.keys == o.keys
                &&& n.clicks == o.clicks
                &&& n.motionSniffer == o.motionSniffer
            }
            &&& v.current matches Some(c) ==> {
                let o = counter_of(v.windows, c.wm_name);
                let n = counter_of(after, c.wm_name);
                &&& n.enter_time == t
                &&& n.timer == o.timer
                &&& n.keys == o.keys
                &&& n.clicks == o.clicks
                &&& n.motionSniffer == o.motionSniffer
            }
        }),
{
    let s0 = v.windows;
    let s1 = match v.prev {
        Some(p) => with_counter(s0, p.wm_name, counter_of(s0, p.wm_name).left(t)),
        None => s0,
    };
    if let Some(p) = v.prev {
        lemma_with_counter(s0, p.wm_name, counter_of(s0, p.wm_name).left(t));
    }
    if let Some(c) = v.current {
        lemma_with_counter(s1, c.wm_name, counter_of(s1, c.wm_name).entered(t));
    }
}

} // verus!
