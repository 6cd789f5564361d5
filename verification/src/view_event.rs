//! Plain event data shared with the embedding user-interface layer.

use vstd::prelude::*;

verus! {

/// What a view made of an event handed to it.
#[derive(Clone, Copy, Debug, PartialEq, Eq, Structural)]
pub enum ViewResponce {
    Skipped,
    Handled,
}

/// Whether a button is down.
#[derive(Debug, Clone, Copy, Hash, PartialEq, Eq, Structural)]
pub enum ButtonState {
    Pressed,
    Released,
}

/// A mouse button.
#[derive(Debug, Clone, Copy, Hash, PartialEq, Eq, Structural)]
pub enum MouseButton {
    Left,
    Right,
    Middle,
    Back,
    Forward,
}

} // verus!
