//! Window identity, allocated from an explicit counter.

use vstd::prelude::*;

verus! {

/// An opaque handle naming one window.
#[derive(Clone, Copy, PartialEq, Eq, PartialOrd, Ord, Hash, Debug, Structural)]
pub struct WindowId(pub(crate) usize);

impl WindowId {
    /// The number behind this handle.
    pub closed spec fn spec_id(self) -> int {
        self.0 as int
    }

    /// Draw the next window id from the caller's counter; there is no
    /// process-wide state.
    pub fn new(last_id: &mut usize) -> (id: WindowId)
        requires
            *old(last_id) < usize::MAX,
        ensures
            id.spec_id() == *old(last_id) as int,
            *final(last_id) == *old(last_id) + 1,
    {
        let id = WindowId(*last_id);
        *last_id = *last_id + 1;
        id
    }
}

impl Default for WindowId {
    fn default() -> (id: WindowId)
        ensures
            id.spec_id() == 0,
    {
        WindowId(0)
    }
}

} // verus!
