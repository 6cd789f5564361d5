//! The text context handed to the layout engine.
//!
//! Text shaping is an external service; the context currently carries no
//! state, and measurement falls back to the empty extent.

use vstd::prelude::*;

verus! {

/// The font context used when measuring text.
pub struct SimpleText {}

impl SimpleText {
    pub fn new() -> (t: SimpleText) {
        SimpleText {  }
    }
}

} // verus!
