//! A retained-mode UI tree with a two-pass constraint layout engine.
//!
//! An [`arena::Arena`] owns the tree of view nodes; each node carries an
//! entity payload describing its kind and a record of style data. Layout runs
//! in two passes: a bottom-up pass that derives a minimum/maximum size
//! constraint pair for every node, and a top-down pass that resolves a
//! concrete rectangle for every node from an available bounding region,
//! distributing space among stacked children under their constraints.

pub mod arena;
pub mod arith;
pub mod dummy;
pub mod events;
pub mod geometry;
pub mod laws;
pub mod nodes;
pub mod paint;
pub mod regions;
pub mod styles;
pub mod text;
pub mod view;
pub mod view_event;
pub mod window;
pub mod window_event;

use vstd::prelude::*;

verus! {

/// Entry point of the library proper; the event loop drives the document
/// model from outside, so there is no work to do here.
pub fn run() {
}

} // verus!
