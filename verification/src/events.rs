//! Events delivered to the document model, and per-node event handlers.
//!
//! A handler is an opaque callback owned by the embedding application; the
//! tree stores only its [`CallbackId`] handle.

use vstd::prelude::*;

use crate::geometry::Size;
use crate::paint::CallbackId;

verus! {

/// An event delivered to the document model as a whole.
#[derive(Clone, Copy, Debug, PartialEq, Eq, Structural)]
pub enum Event {
    /// Broadcast to every node.
    Update,
    /// The bounding region changed; layout must run again.
    Resize(Size),
}

/// A handler a node registers for an event kind.
#[derive(Clone, Copy, Debug, PartialEq, Eq, Structural)]
pub enum EventHandler {
    /// Runs on the `Update` broadcast; the handle names a callback kept by
    /// the embedding application.
    Update(CallbackId),
}

} // verus!
