use vstd::prelude::*;
use crate::x11wrapper::window::Window;

verus! {

/// A connection to an X server, held as the address of the client library's handle.
pub struct Display {
    pub display: usize,
}

impl Display {
    /// The window `xid` on this connection.
    pub fn window(&self, xid: u64) -> (w: Window)
        ensures
            w.id == xid,
            w.display == self.display,
    {
        Window { id: xid, display: self.display }
    }
}

} // verus!
