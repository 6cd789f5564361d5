//! The builder interface by which callers grow the tree.

use vstd::prelude::*;

use crate::arena::{Arena, ViewId};

verus! {

/// Something that can build itself into the arena, returning the id of the
/// node it created.
pub trait View {
    fn build(self, arena: &mut Arena) -> ViewId;
}

} // verus!
