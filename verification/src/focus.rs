use vstd::prelude::*;

verus! {

/// How many times the walk may move up to a parent window.
pub const MAX_CLIMB: u64 = 10;

/// The search for the window that holds the input focus: starting from the focus window,
/// it moves up the window tree while the window it stands on has no usable name.
pub struct FocusWalk {
    pub current: u64,
    pub steps: u64,
}

/// What the walk asks for next.
#[derive(Clone, Copy, Debug, PartialEq, Eq, Structural)]
pub enum FocusStep {
    /// Look up the name of this window.
    Inspect(u64),
    /// The search is over; this is the window.
    Done(u64),
}

/// The name that marks a focus proxy rather than a real window.
pub open spec fn proxy_name() -> Seq<char> {
    seq!['F', 'o', 'c', 'u', 's', 'P', 'r', 'o', 'x', 'y']
}

/// A window with this name is not the one the user works in: it has no name, or is a
/// focus proxy.
pub open spec fn needs_parent(wm_name: Option<Seq<char>>) -> bool {
    match wm_name {
        None => true,
        Some(n) => n == proxy_name(),
    }
}

impl FocusWalk {
    /// A walk that starts at the focus window `focus`.
    pub fn new(focus: u64) -> (res: FocusWalk)
        ensures
            res.current == focus,
            res.steps == 0,
    {
        FocusWalk { current: focus, steps: 0 }
    }

    /// The walk stops at the root-like windows 0 and 1 and after `MAX_CLIMB` moves.
    pub open spec fn finished(self) -> bool {
        self.steps >= MAX_CLIMB || self.current == 0 || self.current == 1
    }

    /// The next step: inspect the current window, or stop at it.
    pub fn next_step(&self) -> (res: FocusStep)
        ensures
            res == if self.finished() {
                FocusStep::Done(self.current)
            } else {
                FocusStep::Inspect(self.current)
            },
    {
        if self.steps >= MAX_CLIMB || self.current == 0 || self.current == 1 {
            FocusStep::Done(self.current)
        } else {
            FocusStep::Inspect(self.current)
        }
    }

    /// True when a window named `wm_name` is to be passed over for its parent.
    pub fn wants_parent(wm_name: &Option<String>) -> (res: bool)
        ensures
            res == needs_parent(match wm_name {
                Some(s) => Some(s@),
                None => None,
            }),
    {
        match wm_name {
            None => true,
            Some(name) => {
                proof {
                    reveal_strlit("FocusProxy");
                }
                let proxy = String::from_str("FocusProxy");
                assert(proxy@ =~= proxy_name());
                name.eq(&proxy)
            },
        }
    }

    /// Moves up to `parent`, or stays when the parent is unknown; either way one move is
    /// spent.
    pub fn climb(&mut self, parent: Option<u64>)
        requires
            !old(self).finished(),
        ensures
            final(self).current == match parent {
                Some(p) => p,
                None => old(self).current,
            },
            final(self).steps == old(self).steps + 1,
    {
        self.current = match parent {
            Some(p) => p,
            None => self.current,
        };
        self.steps += 1;
    }
}

} // verus!
