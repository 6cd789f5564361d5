//! View nodes: the entity payload of each node kind, per-node text styles,
//! and the mapping from locally scoped handler ids to event handlers.

use vstd::prelude::*;

use crate::arena::ViewId;
use crate::events::EventHandler;
use crate::geometry::Vec2;
use crate::paint::{Brush, CallbackId, Color, Image};
use crate::styles::{Styles, VAlign};

verus! {

/// A handler id, scoped to the node that issued it.
#[derive(Debug, Clone, Copy, Hash, PartialEq, Eq, PartialOrd, Ord, Structural)]
pub struct EHId(pub(crate) usize);

impl EHId {
    /// The slot this id names in its node's handler table.
    pub closed spec fn spec_index(self) -> int {
        self.0 as int
    }
}

/// Draw the next handler id from an explicit counter; the caller owns the
/// counter, there is no process-wide state.
pub fn get_new_eh_id(last_id: &mut usize) -> (id: EHId)
    requires
        *old(last_id) < usize::MAX,
    ensures
        id.spec_index() == *old(last_id) as int,
        *final(last_id) == *old(last_id) + 1,
{
    let id = EHId(*last_id);
    *last_id = *last_id + 1;
    id
}

/// One view node: its entity payload, its style record, and its table of
/// event handlers keyed by [`EHId`].
pub struct UiNode {
    pub entity: Entity,
    pub styles: Styles,
    pub event_handlers: Vec<Option<EventHandler>>,
}

impl UiNode {
    /// The handler table: slot `i` holds the handler assigned under the id
    /// with index `i`, or nothing.
    pub open spec fn handlers(self) -> Seq<Option<EventHandler>> {
        self.event_handlers@
    }

    pub fn new(entity: Entity, styles: Styles) -> (n: UiNode)
        ensures
            n.entity == entity,
            n.styles == styles,
            n.handlers() == Seq::<Option<EventHandler>>::empty(),
    {
        let n = UiNode { entity, styles, event_handlers: Vec::new() };
        proof {
            assert(n.handlers() =~= Seq::<Option<EventHandler>>::empty());
        }
        n
    }

    /// Store a handler under a fresh or recycled id: the lowest free slot is
    /// reused, otherwise a new slot is appended.
    pub fn assign_event_handler(&mut self, handler: EventHandler) -> (id: EHId)
        requires
            old(self).handlers().len() < usize::MAX,
        ensures
            final(self).entity == old(self).entity,
            final(self).styles == old(self).styles,
            0 <= id.spec_index() < final(self).handlers().len(),
            (id.spec_index() < old(self).handlers().len() && old(self).handlers()[id.spec_index()] is None
                && final(self).handlers() == old(self).handlers().update(id.spec_index(), Some(handler)))
            || (id.spec_index() == old(self).handlers().len()
                && final(self).handlers() == old(self).handlers().push(Some(handler))),
    {
        let n = self.event_handlers.len();
        let mut i: usize = 0;
        while i < n
            invariant
                i <= n,
                n == self.event_handlers@.len(),
                *self == *old(self),
                forall|j: int| 0 <= j < i ==> self.event_handlers@[j] is Some,
            decreases n - i,
        {
            if self.event_handlers[i].is_none() {
                let slot = &mut self.event_handlers[i];
                *slot = Some(handler);
                return EHId(i);
            }
            i = i + 1;
        }
        let mut next: usize = n;
        let id = get_new_eh_id(&mut next);
        self.event_handlers.push(Some(handler));
        id
    }

    /// Look a handler up; absent ids and freed slots give nothing.
    pub fn get_event_handler(&self, id: EHId) -> (r: Option<&EventHandler>)
        ensures
            match r {
                Some(h) => 0 <= id.spec_index() < self.handlers().len()
                    && self.handlers()[id.spec_index()] == Some(*h),
                None => !(0 <= id.spec_index() < self.handlers().len()
                    && self.handlers()[id.spec_index()] is Some),
            },
    {
        if id.0 < self.event_handlers.len() {
            match &self.event_handlers[id.0] {
                Some(h) => Some(h),
                None => None,
            }
        } else {
            None
        }
    }

    /// Remove and return a handler, freeing its slot for reuse.
    pub fn take_event_handler(&mut self, id: EHId) -> (r: Option<EventHandler>)
        ensures
            final(self).entity == old(self).entity,
            final(self).styles == old(self).styles,
            match r {
                Some(h) => 0 <= id.spec_index() < old(self).handlers().len()
                    && old(self).handlers()[id.spec_index()] == Some(h)
                    && final(self).handlers()
                        == old(self).handlers().update(id.spec_index(), None::<EventHandler>),
                None => !(0 <= id.spec_index() < old(self).handlers().len()
                    && old(self).handlers()[id.spec_index()] is Some)
                    && final(self).handlers() == old(self).handlers(),
            },
    {
        if id.0 < self.event_handlers.len() {
            let existing = self.event_handlers[id.0];
            match existing {
                Some(h) => {
                    let slot = &mut self.event_handlers[id.0];
                    *slot = None;
                    Some(h)
                },
                None => None,
            }
        } else {
            None
        }
    }
}

/// The payload of a node: its kind and kind-specific data.
pub enum Entity {
    Box(BoxEntity),
    Stack(StackEntity),
    Scroll(ScrollEntity),
    Switch(SwitchEntity),
    Scale(ScaleEntity),
    Image(ImageEntity),
    Rect(RectEntity),
    Text(TextEntity),
    Paragraph(ParagraphEntity),
    Canvas(CanvasEntity),
}

/// One child shown through a movable viewport; the offset shifts the child's
/// coordinates, clipping is the renderer's concern.
pub struct ScrollEntity {
    pub inner: ViewId,
    pub offset: Vec2,
    pub v_enabled: bool,
    pub h_enabled: bool,
    /// When false, the child's measured minimum does not inflate this node:
    /// content may overflow and scroll instead.
    pub enable_inner_min_size: bool,
}

/// One child drawn under a compositing scale; `scale` is in thousandths.
pub struct ScaleEntity {
    pub inner: ViewId,
    pub scale: i64,
}

/// Exactly one child filling the content region.
pub struct BoxEntity {
    pub inner: ViewId,
}

/// Ordered children laid out along one axis; `padding` is the inter-item
/// gap declared by the caller.
pub struct StackEntity {
    pub direction: StackDirection,
    pub inner: Vec<ViewId>,
    pub padding: i64,
}

/// The axis a stack distributes space along; `Z` lays children over each
/// other.
#[derive(Clone, Copy, Debug, PartialEq, Eq, Structural)]
pub enum StackDirection {
    X,
    Y,
    Z,
}

/// Ordered children of which only the one at index `mode` is active.
pub struct SwitchEntity {
    pub mode: usize,
    pub inner: Vec<ViewId>,
}

/// A filled, optionally corner-rounded rectangle.
pub struct RectEntity {
    pub paint: Brush,
    pub radii: RoundedRectRadii,
}

/// Per-corner radii of a rounded rectangle.
#[derive(Clone, Copy, Debug, PartialEq, Eq, Structural)]
pub struct RoundedRectRadii {
    pub top_left: i64,
    pub top_right: i64,
    pub bottom_right: i64,
    pub bottom_left: i64,
}

/// A bitmap image.
pub struct ImageEntity {
    pub image: Image,
}

/// A single unwrapped run of text.
pub struct TextEntity {
    pub text: String,
    pub styles: TextStyles,
}

/// A block of text wrapped to the width the layout resolves.
pub struct ParagraphEntity {
    pub text: String,
    pub styles: TextStyles,
    pub extended_styles: ParagraphStyles,
}

/// Style data shared by text and paragraph nodes.
#[derive(Clone)]
pub struct TextStyles {
    pub color: Color,
    pub font_family: String,
    pub size: i64,
}

/// Extra style data of paragraph nodes.
#[derive(Clone, Copy, Debug, PartialEq, Eq, Structural)]
pub struct ParagraphStyles {
    pub offset: i64,
    pub align: TextAlign,
    pub v_align: VAlign,
}

/// Horizontal alignment of wrapped text lines.
#[derive(Clone, Copy, Debug, PartialEq, Eq, Structural)]
pub enum TextAlign {
    Left,
    Right,
    Center,
    Justify,
}

/// Free-form drawing within the resolved region; the handle names a draw
/// callback kept by the embedding application.
pub struct CanvasEntity {
    pub draw: CallbackId,
}

} // verus!
