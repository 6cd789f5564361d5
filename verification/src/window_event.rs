//! Plain event data shared with the windowing layer.

use vstd::prelude::*;

verus! {

/// Whether a button is down.
#[derive(Debug, Clone, Copy, Hash, PartialEq, Eq, Structural)]
pub enum ButtonState {
    Pressed,
    Released,
}

/// A mouse button.
#[derive(Debug, Clone, Copy, Hash, PartialEq, Eq, Structural)]
pub enum MouseButton {
    Left,
    Right,
    Middle,
    Back,
    Forward,
}

} // verus!
