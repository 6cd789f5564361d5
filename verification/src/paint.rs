//! Plain-data paint values.
//!
//! The layout core never inspects paint: these types carry colours and image
//! handles through the tree as data for a renderer to consume.

use vstd::prelude::*;

verus! {

/// An RGBA colour with 8-bit channels.
#[derive(Clone, Copy, Debug, PartialEq, Eq, Structural)]
pub struct Color {
    pub r: u8,
    pub g: u8,
    pub b: u8,
    pub a: u8,
}

impl Default for Color {
    fn default() -> (c: Color)
        ensures
            c == (Color { r: 0u8, g: 0u8, b: 0u8, a: 0u8 }),
    {
        Color { r: 0, g: 0, b: 0, a: 0 }
    }
}

/// What to fill a shape with.
#[derive(Clone, Copy, Debug, PartialEq, Eq, Structural)]
pub enum Brush {
    Solid(Color),
}

impl Default for Brush {
    fn default() -> (b: Brush)
        ensures
            b == Brush::Solid(Color { r: 0u8, g: 0u8, b: 0u8, a: 0u8 }),
    {
        Brush::Solid(Color { r: 0, g: 0, b: 0, a: 0 })
    }
}

/// A bitmap's dimensions together with a handle into the image store kept by
/// the embedding application.
#[derive(Clone, Copy, Debug, PartialEq, Eq, Structural)]
pub struct Image {
    pub width: u32,
    pub height: u32,
    pub data: usize,
}

/// A handle into the callback table kept by the embedding application; the
/// layout core treats a callback as an opaque value.
#[derive(Clone, Copy, Debug, PartialEq, Eq, Structural, Hash, PartialOrd, Ord)]
pub struct CallbackId(pub usize);

} // verus!
