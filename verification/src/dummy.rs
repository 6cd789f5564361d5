//! A root view that draws nothing and skips every event.

use vstd::prelude::*;

verus! {

/// A view that ignores every event and renders nothing.
pub struct DummyView;

} // verus!
