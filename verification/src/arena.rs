//! The arena that owns every view node, keyed by [`ViewId`].
//!
//! Nodes live in a dense slot vector; ids are slot indices. A freed slot's id
//! goes onto a free list and is handed out again by a later push, so an id is
//! never reused while its node is live. Beside the node itself each slot
//! caches the regions of the last layout passes and a dirty flag.

use vstd::prelude::*;

use crate::geometry::Region;
use crate::nodes::{Entity, UiNode};

verus! {

/// An opaque handle naming one node in the arena.
#[derive(Debug, Clone, Copy, Hash, PartialEq, Eq, PartialOrd, Ord, Structural)]
pub struct ViewId(pub usize);

impl ViewId {
    /// The slot this id names.
    pub open spec fn spec_index(self) -> int {
        self.0 as int
    }
}

/// One slot's contents: the node and its cached layout state.
pub struct ViewData {
    view: UiNode,
    relative_region: Region,
    real_region: Region,
    prev_region: Region,
    is_dirty: bool,
}

impl ViewData {
    pub closed spec fn spec_node(self) -> UiNode {
        self.view
    }

    pub closed spec fn spec_relative(self) -> Region {
        self.relative_region
    }

    pub closed spec fn spec_real(self) -> Region {
        self.real_region
    }

    pub closed spec fn spec_prev(self) -> Region {
        self.prev_region
    }

    pub closed spec fn spec_dirty(self) -> bool {
        self.is_dirty
    }
}

/// The ids an entity hands its layout children by, in order. Every child
/// bearing kind is covered, the single-child wrappers included, so that
/// recursive removal can never leak a wrapped subtree.
pub open spec fn child_ids(e: Entity) -> Seq<ViewId> {
    match e {
        Entity::Box(b) => seq![b.inner],
        Entity::Scroll(s) => seq![s.inner],
        Entity::Scale(s) => seq![s.inner],
        Entity::Stack(s) => s.inner@,
        Entity::Switch(s) => s.inner@,
        _ => Seq::<ViewId>::empty(),
    }
}

/// Whether some pair of `removed` carries the id with slot index `j`.
pub open spec fn removed_contains_index(removed: Seq<(ViewId, ViewData)>, j: int) -> bool {
    exists|k: int| 0 <= k < removed.len() && (#[trigger] removed[k]).0.spec_index() == j
}

/// Whether some pair of `removed` carries the id `vid`.
pub open spec fn removed_contains(removed: Seq<(ViewId, ViewData)>, vid: ViewId) -> bool {
    removed_contains_index(removed, vid.spec_index())
}

spec fn count_live(v: Seq<Option<ViewData>>) -> nat
    decreases v.len(),
{
    if v.len() == 0 {
        0
    } else {
        count_live(v.drop_last()) + if v.last() is Some {
            1nat
        } else {
            0nat
        }
    }
}

proof fn lemma_count_live_update_none(v: Seq<Option<ViewData>>, i: int)
    requires
        0 <= i < v.len(),
        v[i] is Some,
    ensures
        count_live(v.update(i, None)) + 1 == count_live(v),
    decreases v.len(),
{
    let u = v.update(i, None);
    assert(u.len() == v.len());
    if i == v.len() - 1 {
        assert(u.drop_last() =~= v.drop_last());
        assert(u.last() is None);
    } else {
        assert(u.drop_last() =~= v.drop_last().update(i, None));
        assert(u.last() == v.last());
        lemma_count_live_update_none(v.drop_last(), i);
    }
}

proof fn lemma_count_live_update_live(v: Seq<Option<ViewData>>, i: int, d: ViewData)
    requires
        0 <= i < v.len(),
        v[i] is Some,
    ensures
        count_live(v.update(i, Some(d))) == count_live(v),
    decreases v.len(),
{
    let u = v.update(i, Some(d));
    if i == v.len() - 1 {
        assert(u.drop_last() =~= v.drop_last());
    } else {
        assert(u.drop_last() =~= v.drop_last().update(i, Some(d)));
        assert(u.last() == v.last());
        lemma_count_live_update_live(v.drop_last(), i, d);
    }
}

proof fn lemma_count_live_update_fresh(v: Seq<Option<ViewData>>, i: int, d: ViewData)
    requires
        0 <= i < v.len(),
        v[i] is None,
    ensures
        count_live(v.update(i, Some(d))) == count_live(v) + 1,
    decreases v.len(),
{
    let u = v.update(i, Some(d));
    if i == v.len() - 1 {
        assert(u.drop_last() =~= v.drop_last());
    } else {
        assert(u.drop_last() =~= v.drop_last().update(i, Some(d)));
        assert(u.last() == v.last());
        lemma_count_live_update_fresh(v.drop_last(), i, d);
    }
}

proof fn lemma_count_live_push(v: Seq<Option<ViewData>>, d: ViewData)
    ensures
        count_live(v.push(Some(d))) == count_live(v) + 1,
{
    assert(v.push(Some(d)).drop_last() =~= v);
    assert(v.push(Some(d)).last() == Some(d));
}

/// A slot index outside the arena holds nothing.
pub broadcast proof fn lemma_arena_out_of_range(a: Arena, i: int)
    requires
        !(0 <= i < a.n_slots()),
    ensures
        #[trigger] a.data_at(i) is None,
{
}

/// The arena of view nodes.
pub struct Arena {
    last_view_id: usize,
    views: Vec<Option<ViewData>>,
    free_ids: Vec<ViewId>,
}

impl Arena {
    /// The contents of slot `i`; out-of-range indices hold nothing.
    pub closed spec fn data_at(self, i: int) -> Option<ViewData> {
        if 0 <= i < self.views@.len() {
            self.views@[i]
        } else {
            None
        }
    }

    /// How many slots exist (live or free).
    pub closed spec fn n_slots(self) -> nat {
        self.views@.len()
    }

    /// The ids waiting for reuse, oldest first; a push takes the last.
    pub closed spec fn free_list(self) -> Seq<ViewId> {
        self.free_ids@
    }

    /// How many nodes are live.
    pub closed spec fn live_count(self) -> nat {
        count_live(self.views@)
    }

    /// Internal consistency: the id counter matches the slot count and the
    /// free list names distinct, in-range, empty slots.
    pub closed spec fn wf(self) -> bool {
        &&& self.last_view_id == self.views@.len()
        &&& forall|k: int|
            0 <= k < self.free_ids@.len() ==> (#[trigger] self.free_ids@[k]).0 < self.views@.len()
                && self.views@[self.free_ids@[k].0 as int] is None
        &&& forall|k1: int, k2: int|
            0 <= k1 < k2 < self.free_ids@.len() ==> self.free_ids@[k1] != self.free_ids@[k2]
    }

    /// The node in slot `i`, if the slot is live.
    pub open spec fn node_at(self, i: int) -> Option<UiNode> {
        match self.data_at(i) {
            Some(d) => Some(d.spec_node()),
            None => None,
        }
    }

    /// The cached relative region of slot `i`, if the slot is live.
    pub open spec fn rel_at(self, i: int) -> Option<Region> {
        match self.data_at(i) {
            Some(d) => Some(d.spec_relative()),
            None => None,
        }
    }

    pub open spec fn real_at(self, i: int) -> Option<Region> {
        match self.data_at(i) {
            Some(d) => Some(d.spec_real()),
            None => None,
        }
    }

    pub open spec fn prev_at(self, i: int) -> Option<Region> {
        match self.data_at(i) {
            Some(d) => Some(d.spec_prev()),
            None => None,
        }
    }

    pub open spec fn dirty_at(self, i: int) -> Option<bool> {
        match self.data_at(i) {
            Some(d) => Some(d.spec_dirty()),
            None => None,
        }
    }

    /// The node of every slot, as one sequence.
    pub open spec fn node_seq(self) -> Seq<Option<UiNode>> {
        Seq::new(self.n_slots(), |i: int| self.node_at(i))
    }

    /// The relative region of every slot, as one sequence.
    pub open spec fn rel_seq(self) -> Seq<Option<Region>> {
        Seq::new(self.n_slots(), |i: int| self.rel_at(i))
    }

    /// How many slots the arena holds, live or free.
    pub fn slot_count(&self) -> (n: usize)
        ensures
            n == self.n_slots(),
    {
        self.views.len()
    }

    fn new_view_id(&mut self) -> (id: ViewId)
        requires
            old(self).last_view_id < usize::MAX,
        ensures
            id.0 == old(self).last_view_id,
            final(self).last_view_id == old(self).last_view_id + 1,
            final(self).views == old(self).views,
            final(self).free_ids == old(self).free_ids,
    {
        let id = self.last_view_id;
        self.last_view_id = self.last_view_id + 1;
        ViewId(id)
    }

    pub fn get_view(&self, id: ViewId) -> (r: Option<&UiNode>)
        ensures
            match r {
                Some(n) => self.node_at(id.spec_index()) == Some(*n),
                None => self.node_at(id.spec_index()) is None,
            },
    {
        if id.0 < self.views.len() {
            match &self.views[id.0] {
                Some(d) => Some(&d.view),
                None => None,
            }
        } else {
            None
        }
    }

    pub fn get_previuos_region(&self, id: ViewId) -> (r: Option<Region>)
        ensures
            r == self.prev_at(id.spec_index()),
    {
        if id.0 < self.views.len() {
            match &self.views[id.0] {
                Some(d) => Some(d.prev_region),
                None => None,
            }
        } else {
            None
        }
    }

    pub fn get_relative_region(&self, id: ViewId) -> (r: Option<Region>)
        ensures
            r == self.rel_at(id.spec_index()),
    {
        if id.0 < self.views.len() {
            match &self.views[id.0] {
                Some(d) => Some(d.relative_region),
                None => None,
            }
        } else {
            None
        }
    }

    pub fn get_real_region(&self, id: ViewId) -> (r: Option<Region>)
        ensures
            r == self.real_at(id.spec_index()),
    {
        if id.0 < self.views.len() {
            match &self.views[id.0] {
                Some(d) => Some(d.real_region),
                None => None,
            }
        } else {
            None
        }
    }

    pub fn get_dirty(&self, id: ViewId) -> (r: Option<bool>)
        ensures
            r == self.dirty_at(id.spec_index()),
    {
        if id.0 < self.views.len() {
            match &self.views[id.0] {
                Some(d) => Some(d.is_dirty),
                None => None,
            }
        } else {
            None
        }
    }

    pub fn get_view_mut(&mut self, id: ViewId) -> (r: Option<&mut UiNode>)
        ensures
            match r {
                Some(n) => {
                    &&& old(self).node_at(id.spec_index()) == Some(*n)
                    &&& final(self).n_slots() == old(self).n_slots()
                    &&& final(self).free_list() == old(self).free_list()
                    &&& final(self).node_at(id.spec_index()) == Some(*final(n))
                    &&& forall|j: int|
                        j != id.spec_index() ==> final(self).data_at(j) == old(self).data_at(j)
                    &&& final(self).rel_at(id.spec_index()) == old(self).rel_at(id.spec_index())
                    &&& final(self).real_at(id.spec_index()) == old(self).real_at(id.spec_index())
                    &&& final(self).prev_at(id.spec_index()) == old(self).prev_at(id.spec_index())
                    &&& final(self).dirty_at(id.spec_index()) == old(self).dirty_at(
                        id.spec_index(),
                    )
                    &&& (old(self).wf() ==> final(self).wf())
                },
                None => {
                    &&& old(self).node_at(id.spec_index()) is None
                    &&& final(self).n_slots() == old(self).n_slots()
                    &&& final(self).free_list() == old(self).free_list()
                    &&& forall|j: int| final(self).data_at(j) == old(self).data_at(j)
                    &&& (old(self).wf() ==> final(self).wf())
                },
            },
    {
        if id.0 < self.views.len() {
            match &mut self.views[id.0] {
                Some(d) => Some(&mut d.view),
                None => None,
            }
        } else {
            None
        }
    }

    pub fn set_previuos_region(&mut self, id: ViewId, region: Region)
        ensures
            final(self).n_slots() == old(self).n_slots(),
            final(self).free_list() == old(self).free_list(),
            final(self).live_count() == old(self).live_count(),
            forall|j: int| final(self).node_at(j) == old(self).node_at(j),
            forall|j: int| final(self).rel_at(j) == old(self).rel_at(j),
            forall|j: int| final(self).real_at(j) == old(self).real_at(j),
            forall|j: int| final(self).dirty_at(j) == old(self).dirty_at(j),
            forall|j: int|
                j != id.spec_index() ==> final(self).prev_at(j) == old(self).prev_at(j),
            old(self).data_at(id.spec_index()) is Some ==> final(self).prev_at(id.spec_index())
                == Some(region),
            old(self).data_at(id.spec_index()) is None ==> final(self).data_at(id.spec_index())
                == old(self).data_at(id.spec_index()),
            old(self).wf() ==> final(self).wf(),
    {
        if id.0 < self.views.len() {
            let ghost pre = *self;
            match &mut self.views[id.0] {
                Some(d) => {
                    d.prev_region = region;
                },
                None => {},
            }
            proof {
                if pre.views@[id.spec_index()] is Some {
                    lemma_count_live_update_live(
                        pre.views@,
                        id.spec_index(),
                        self.views@[id.spec_index()]->Some_0,
                    );
                    assert(self.views@ =~= pre.views@.update(
                        id.spec_index(),
                        self.views@[id.spec_index()],
                    ));
                } else {
                    assert(self.views@ =~= pre.views@);
                }
            }
        }
    }

    pub fn set_relative_region(&mut self, id: ViewId, region: Region)
        ensures
            final(self).n_slots() == old(self).n_slots(),
            final(self).free_list() == old(self).free_list(),
            final(self).live_count() == old(self).live_count(),
            forall|j: int| final(self).node_at(j) == old(self).node_at(j),
            forall|j: int| final(self).real_at(j) == old(self).real_at(j),
            forall|j: int| final(self).prev_at(j) == old(self).prev_at(j),
            forall|j: int| final(self).dirty_at(j) == old(self).dirty_at(j),
            forall|j: int| j != id.spec_index() ==> final(self).rel_at(j) == old(self).rel_at(j),
            old(self).data_at(id.spec_index()) is Some ==> final(self).rel_at(id.spec_index())
                == Some(region),
            old(self).data_at(id.spec_index()) is None ==> final(self).data_at(id.spec_index())
                == old(self).data_at(id.spec_index()),
            old(self).wf() ==> final(self).wf(),
    {
        if id.0 < self.views.len() {
            let ghost pre = *self;
            match &mut self.views[id.0] {
                Some(d) => {
                    d.relative_region = region;
                },
                None => {},
            }
            proof {
                if pre.views@[id.spec_index()] is Some {
                    lemma_count_live_update_live(
                        pre.views@,
                        id.spec_index(),
                        self.views@[id.spec_index()]->Some_0,
                    );
                    assert(self.views@ =~= pre.views@.update(
                        id.spec_index(),
                        self.views@[id.spec_index()],
                    ));
                } else {
                    assert(self.views@ =~= pre.views@);
                }
            }
        }
    }

    pub fn set_real_region(&mut self, id: ViewId, region: Region)
        ensures
            final(self).n_slots() == old(self).n_slots(),
            final(self).free_list() == old(self).free_list(),
            final(self).live_count() == old(self).live_count(),
            forall|j: int| final(self).node_at(j) == old(self).node_at(j),
            forall|j: int| final(self).rel_at(j) == old(self).rel_at(j),
            forall|j: int| final(self).prev_at(j) == old(self).prev_at(j),
            forall|j: int| final(self).dirty_at(j) == old(self).dirty_at(j),
            forall|j: int| j != id.spec_index() ==> final(self).real_at(j) == old(self).real_at(j),
            old(self).data_at(id.spec_index()) is Some ==> final(self).real_at(id.spec_index())
                == Some(region),
            old(self).data_at(id.spec_index()) is None ==> final(self).data_at(id.spec_index())
                == old(self).data_at(id.spec_index()),
            old(self).wf() ==> final(self).wf(),
    {
        if id.0 < self.views.len() {
            let ghost pre = *self;
            match &mut self.views[id.0] {
                Some(d) => {
                    d.real_region = region;
                },
                None => {},
            }
            proof {
                if pre.views@[id.spec_index()] is Some {
                    lemma_count_live_update_live(
                        pre.views@,
                        id.spec_index(),
                        self.views@[id.spec_index()]->Some_0,
                    );
                    assert(self.views@ =~= pre.views@.update(
                        id.spec_index(),
                        self.views@[id.spec_index()],
                    ));
                } else {
                    assert(self.views@ =~= pre.views@);
                }
            }
        }
    }

    pub fn set_dirty(&mut self, id: ViewId, dirty: bool)
        ensures
            final(self).n_slots() == old(self).n_slots(),
            final(self).free_list() == old(self).free_list(),
            final(self).live_count() == old(self).live_count(),
            forall|j: int| final(self).node_at(j) == old(self).node_at(j),
            forall|j: int| final(self).rel_at(j) == old(self).rel_at(j),
            forall|j: int| final(self).real_at(j) == old(self).real_at(j),
            forall|j: int| final(self).prev_at(j) == old(self).prev_at(j),
            forall|j: int| j != id.spec_index() ==> final(self).dirty_at(j) == old(self).dirty_at(j),
            old(self).data_at(id.spec_index()) is Some ==> final(self).dirty_at(id.spec_index())
                == Some(dirty),
            old(self).data_at(id.spec_index()) is None ==> final(self).data_at(id.spec_index())
                == old(self).data_at(id.spec_index()),
            old(self).wf() ==> final(self).wf(),
    {
        if id.0 < self.views.len() {
            let ghost pre = *self;
            match &mut self.views[id.0] {
                Some(d) => {
                    d.is_dirty = dirty;
                },
                None => {},
            }
            proof {
                if pre.views@[id.spec_index()] is Some {
                    lemma_count_live_update_live(
                        pre.views@,
                        id.spec_index(),
                        self.views@[id.spec_index()]->Some_0,
                    );
                    assert(self.views@ =~= pre.views@.update(
                        id.spec_index(),
                        self.views@[id.spec_index()],
                    ));
                } else {
                    assert(self.views@ =~= pre.views@);
                }
            }
        }
    }

    /// Store a node under a fresh or recycled id. The slot starts with zero
    /// regions and the dirty flag set.
    pub fn push_view(&mut self, view: UiNode) -> (id: ViewId)
        requires
            old(self).wf(),
            old(self).n_slots() < usize::MAX,
        ensures
            final(self).wf(),
            final(self).live_count() == old(self).live_count() + 1,
            0 <= id.spec_index() < final(self).n_slots(),
            old(self).data_at(id.spec_index()) is None,
            final(self).node_at(id.spec_index()) == Some(view),
            final(self).rel_at(id.spec_index()) == Some(Region::spec_zero()),
            final(self).real_at(id.spec_index()) == Some(Region::spec_zero()),
            final(self).prev_at(id.spec_index()) == Some(Region::spec_zero()),
            final(self).dirty_at(id.spec_index()) == Some(true),
            forall|j: int| j != id.spec_index() ==> final(self).data_at(j) == old(self).data_at(j),
            if old(self).free_list().len() > 0 {
                id == old(self).free_list().last() && final(self).n_slots() == old(self).n_slots()
                    && final(self).free_list() == old(self).free_list().drop_last()
            } else {
                id.spec_index() == old(self).n_slots() as int && final(self).n_slots() == old(
                    self,
                ).n_slots() + 1 && final(self).free_list() == old(self).free_list()
            },
    {
        let data = ViewData {
            view,
            is_dirty: true,
            relative_region: Region::zero(),
            real_region: Region::zero(),
            prev_region: Region::zero(),
        };
        let ghost pre = *self;
        match self.free_ids.pop() {
            Some(id) => {
                proof {
                    assert(pre.free_ids@[pre.free_ids@.len() - 1] == id);
                    assert(id.0 < self.views.len());
                }
                let slot = &mut self.views[id.0];
                *slot = Some(data);
                proof {
                    lemma_count_live_update_fresh(
                        pre.views@,
                        id.spec_index(),
                        self.views@[id.spec_index()]->Some_0,
                    );
                    assert forall|k: int|
                        0 <= k < self.free_ids@.len() implies (#[trigger] self.free_ids@[k]).0
                        < self.views@.len() && self.views@[self.free_ids@[k].0 as int] is None by {
                        assert(self.free_ids@[k] == pre.free_ids@[k]);
                        assert(pre.free_ids@[k] != pre.free_ids@[pre.free_ids@.len() - 1]);
                    }
                }
                id
            },
            None => {
                let id = self.new_view_id();
                self.views.push(Some(data));
                proof {
                    lemma_count_live_push(pre.views@, self.views@[id.spec_index()]->Some_0);
                }
                id
            },
        }
    }

    /// Remove a node, returning its slot data and reclaiming its id.
    pub fn remove_view(&mut self, id: ViewId) -> (r: Option<ViewData>)
        requires
            old(self).wf(),
        ensures
            final(self).wf(),
            final(self).n_slots() == old(self).n_slots(),
            r == old(self).data_at(id.spec_index()),
            match r {
                Some(_) => {
                    &&& final(self).data_at(id.spec_index()) is None
                    &&& forall|j: int|
                        j != id.spec_index() ==> final(self).data_at(j) == old(self).data_at(j)
                    &&& final(self).free_list() == old(self).free_list().push(id)
                    &&& final(self).live_count() + 1 == old(self).live_count()
                },
                None => {
                    &&& final(self).free_list() == old(self).free_list()
                    &&& final(self).live_count() == old(self).live_count()
                    &&& forall|j: int| final(self).data_at(j) == old(self).data_at(j)
                },
            },
    {
        if id.0 < self.views.len() {
            let ghost pre = *self;
            let mut taken: Option<ViewData> = None;
            let slot = &mut self.views[id.0];
            core::mem::swap(slot, &mut taken);
            match taken {
                Some(data) => {
                    proof {
                        lemma_count_live_update_none(pre.views@, id.spec_index());
                        assert forall|k1: int, k2: int|
                            0 <= k1 < k2 < self.free_ids@.len() + 1 implies pre.free_ids@.push(
                            id,
                        )[k1] != pre.free_ids@.push(id)[k2] by {
                            if k2 == pre.free_ids@.len() {
                                assert(pre.views@[pre.free_ids@[k1].0 as int] is None);
                            }
                        }
                    }
                    self.free_ids.push(id);
                    Some(data)
                },
                None => {
                    proof {
                        assert(self.views@ =~= pre.views@);
                    }
                    None
                },
            }
        } else {
            None
        }
    }
}

/// The state change and harvest of one removal call: `s1` is `s0` with
/// exactly the slots of `removed` cleared, every removed pair holds the data
/// the slot held, the ids are distinct, and each one joined the free list.
pub open spec fn removal_shape(s0: Arena, s1: Arena, removed: Seq<(ViewId, ViewData)>) -> bool {
    &&& s1.wf()
    &&& s1.n_slots() == s0.n_slots()
    &&& s1.live_count() + removed.len() == s0.live_count()
    &&& forall|k: int|
        0 <= k < removed.len() ==> s0.data_at((#[trigger] removed[k]).0.spec_index()) == Some(
            removed[k].1,
        )
    &&& forall|k1: int, k2: int|
        0 <= k1 < k2 < removed.len() ==> (#[trigger] removed[k1]).0 != (#[trigger] removed[k2]).0
    &&& forall|j: int|
        #![trigger s1.data_at(j)]
        s1.data_at(j) == if removed_contains_index(removed, j) {
            None::<ViewData>
        } else {
            s0.data_at(j)
        }
    &&& s1.free_list().len() == s0.free_list().len() + removed.len()
    &&& forall|vid: ViewId|
        #[trigger] s1.free_list().contains(vid) <==> (s0.free_list().contains(vid)
            || removed_contains(removed, vid))
}

/// No removed node has a child that stayed behind: each child id of a
/// removed entity is itself removed, or named no live node to begin with.
pub open spec fn removal_closed(s0: Arena, removed: Seq<(ViewId, ViewData)>) -> bool {
    forall|k: int, c: int|
        #![trigger child_ids(removed[k].1.spec_node().entity)[c]]
        0 <= k < removed.len() && 0 <= c < child_ids(removed[k].1.spec_node().entity).len() ==> {
            let ch = child_ids(removed[k].1.spec_node().entity)[c];
            removed_contains(removed, ch) || s0.data_at(ch.spec_index()) is None
        }
}

/// Every root id that named a live node is in the harvest.
pub open spec fn roots_covered(s0: Arena, removed: Seq<(ViewId, ViewData)>, roots: Seq<ViewId>) -> bool {
    forall|c: int|
        0 <= c < roots.len() ==> removed_contains(removed, #[trigger] roots[c]) || s0.data_at(
            roots[c].spec_index(),
        ) is None
}

/// Entry `k` of the harvest names a child of an entry removed later in the
/// list.
pub open spec fn has_later_parent(removed: Seq<(ViewId, ViewData)>, k: int) -> bool {
    exists|k2: int, c: int|
        #![trigger child_ids(removed[k2].1.spec_node().entity)[c]]
        k < k2 < removed.len() && 0 <= c < child_ids(removed[k2].1.spec_node().entity).len()
            && child_ids(removed[k2].1.spec_node().entity)[c] == removed[k].0
}

/// Nothing unreachable is harvested: every removed node is a root, or a
/// child of a node removed later in the list, so that witness chains end at
/// a root.
pub open spec fn removal_rooted(removed: Seq<(ViewId, ViewData)>, roots: Seq<ViewId>) -> bool {
    forall|k: int|
        0 <= k < removed.len() ==> has_later_parent(removed, k) || roots.contains(
            (#[trigger] removed[k]).0,
        )
}

proof fn lemma_vid_inj()
    ensures
        forall|a: ViewId, b: ViewId| a.spec_index() == b.spec_index() ==> a == b,
{
}

proof fn lemma_concat_contains(a: Seq<(ViewId, ViewData)>, b: Seq<(ViewId, ViewData)>)
    ensures
        forall|j: int|
            #[trigger] removed_contains_index(a + b, j) <==> (removed_contains_index(a, j)
                || removed_contains_index(b, j)),
{
    let ab = a + b;
    assert forall|j: int| #[trigger] removed_contains_index(ab, j) implies (
    removed_contains_index(a, j) || removed_contains_index(b, j)) by {
        let k = choose|k: int| 0 <= k < ab.len() && (#[trigger] ab[k]).0.spec_index() == j;
        if k < a.len() {
            assert(a[k].0.spec_index() == j);
        } else {
            assert(b[k - a.len()].0.spec_index() == j);
        }
    }
    assert forall|j: int| (removed_contains_index(a, j) || removed_contains_index(b, j)) implies
        #[trigger] removed_contains_index(ab, j) by {
        if removed_contains_index(a, j) {
            let k = choose|k: int| 0 <= k < a.len() && (#[trigger] a[k]).0.spec_index() == j;
            assert(ab[k].0.spec_index() == j);
        } else {
            let k = choose|k: int| 0 <= k < b.len() && (#[trigger] b[k]).0.spec_index() == j;
            assert(ab[a.len() + k].0.spec_index() == j);
        }
    }
}

#[verifier::spinoff_prover]
proof fn lemma_compose_shape(
    s0: Arena,
    s1: Arena,
    s2: Arena,
    a: Seq<(ViewId, ViewData)>,
    b: Seq<(ViewId, ViewData)>,
)
    requires
        removal_shape(s0, s1, a),
        removal_shape(s1, s2, b),
    ensures
        removal_shape(s0, s2, a + b),
{
    lemma_vid_inj();
    lemma_concat_contains(a, b);
    let ab = a + b;
    assert forall|k: int| 0 <= k < b.len() implies !removed_contains_index(
        a,
        (#[trigger] b[k]).0.spec_index(),
    ) by {
        assert(s1.data_at(b[k].0.spec_index()) == Some(b[k].1));
    }
    assert forall|k: int| 0 <= k < ab.len() implies s0.data_at(
        (#[trigger] ab[k]).0.spec_index(),
    ) == Some(ab[k].1) by {
        if k < a.len() {
            assert(ab[k] == a[k]);
        } else {
            let e = b[k - a.len()];
            assert(ab[k] == e);
            assert(s1.data_at(e.0.spec_index()) == Some(e.1));
            assert(!removed_contains_index(a, e.0.spec_index()));
        }
    }
    assert forall|k1: int, k2: int| 0 <= k1 < k2 < ab.len() implies (#[trigger] ab[k1]).0 != (
    #[trigger] ab[k2]).0 by {
        if k1 < a.len() && k2 >= a.len() {
            let e = b[k2 - a.len()];
            assert(ab[k2] == e);
            assert(ab[k1] == a[k1]);
            if a[k1].0 == e.0 {
                assert(a[k1].0.spec_index() == e.0.spec_index());
                assert(removed_contains_index(a, e.0.spec_index()));
            }
        } else if k2 < a.len() {
            assert(ab[k1] == a[k1] && ab[k2] == a[k2]);
        } else {
            assert(ab[k1] == b[k1 - a.len()] && ab[k2] == b[k2 - a.len()]);
        }
    }
    assert forall|j: int| #![trigger s2.data_at(j)] s2.data_at(j) == (
    if removed_contains_index(ab, j) {
        None::<ViewData>
    } else {
        s0.data_at(j)
    }) by {
        if removed_contains_index(ab, j) {
            if removed_contains_index(b, j) {
            } else {
                assert(removed_contains_index(a, j));
                assert(s1.data_at(j) is None);
                assert(s2.data_at(j) == s1.data_at(j));
            }
        } else {
            assert(!removed_contains_index(a, j));
            assert(!removed_contains_index(b, j));
        }
    }
    assert forall|vid: ViewId| #[trigger] s2.free_list().contains(vid) <==> (s0.free_list().contains(
        vid,
    ) || removed_contains(ab, vid)) by {
        assert(s1.free_list().contains(vid) <==> (s0.free_list().contains(vid)
            || removed_contains(a, vid)));
        assert(removed_contains_index(ab, vid.spec_index()) <==> (removed_contains_index(
            a,
            vid.spec_index(),
        ) || removed_contains_index(b, vid.spec_index())));
    }
}

#[verifier::spinoff_prover]
proof fn lemma_compose_closed(
    s0: Arena,
    s1: Arena,
    s2: Arena,
    a: Seq<(ViewId, ViewData)>,
    b: Seq<(ViewId, ViewData)>,
)
    requires
        removal_shape(s0, s1, a),
        removal_shape(s1, s2, b),
        removal_closed(s0, a),
        removal_closed(s1, b),
    ensures
        removal_closed(s0, a + b),
{
    lemma_vid_inj();
    lemma_concat_contains(a, b);
    let ab = a + b;
    assert forall|k: int, c: int|
        #![trigger child_ids(ab[k].1.spec_node().entity)[c]]
        0 <= k < ab.len() && 0 <= c < child_ids(ab[k].1.spec_node().entity).len() implies {
        let ch = child_ids(ab[k].1.spec_node().entity)[c];
        removed_contains(ab, ch) || s0.data_at(ch.spec_index()) is None
    } by {
        if k < a.len() {
            assert(ab[k] == a[k]);
            let ch = child_ids(a[k].1.spec_node().entity)[c];
            assert(removed_contains(a, ch) || s0.data_at(ch.spec_index()) is None);
        } else {
            let e = b[k - a.len()];
            assert(ab[k] == e);
            let ch = child_ids(e.1.spec_node().entity)[c];
            assert(removed_contains(b, ch) || s1.data_at(ch.spec_index()) is None);
            if !removed_contains(b, ch) && s0.data_at(ch.spec_index()) is Some {
                assert(s1.data_at(ch.spec_index()) is None);
                assert(removed_contains_index(a, ch.spec_index()));
            }
        }
    }
}

#[verifier::spinoff_prover]
proof fn lemma_compose_rooted(
    a: Seq<(ViewId, ViewData)>,
    b: Seq<(ViewId, ViewData)>,
    roots: Seq<ViewId>,
    roots_b: Seq<ViewId>,
)
    requires
        removal_rooted(a, roots),
        removal_rooted(b, roots_b),
        forall|x: ViewId| roots_b.contains(x) ==> roots.contains(x),
    ensures
        removal_rooted(a + b, roots),
{
    let ab = a + b;
    assert forall|k: int| 0 <= k < ab.len() implies has_later_parent(ab, k) || roots.contains(
        (#[trigger] ab[k]).0,
    ) by {
        if k < a.len() {
            assert(ab[k] == a[k]);
            if has_later_parent(a, k) {
                let (k2, c) = choose|k2: int, c: int|
                    #![trigger child_ids(a[k2].1.spec_node().entity)[c]]
                    k < k2 < a.len() && 0 <= c < child_ids(a[k2].1.spec_node().entity).len()
                        && child_ids(a[k2].1.spec_node().entity)[c] == a[k].0;
                assert(ab[k2] == a[k2]);
                assert(child_ids(ab[k2].1.spec_node().entity)[c] == ab[k].0);
                assert(has_later_parent(ab, k));
            } else {
                assert(roots.contains(a[k].0));
            }
        } else {
            let kb = k - a.len();
            assert(ab[k] == b[kb]);
            if has_later_parent(b, kb) {
                let (k2, c) = choose|k2: int, c: int|
                    #![trigger child_ids(b[k2].1.spec_node().entity)[c]]
                    kb < k2 < b.len() && 0 <= c < child_ids(b[k2].1.spec_node().entity).len()
                        && child_ids(b[k2].1.spec_node().entity)[c] == b[kb].0;
                assert(ab[a.len() + k2] == b[k2]);
                assert(child_ids(ab[a.len() + k2].1.spec_node().entity)[c] == ab[k].0);
                assert(has_later_parent(ab, k));
            } else {
                assert(roots_b.contains(b[kb].0));
            }
        }
    }
}

#[verifier::spinoff_prover]
#[verifier::rlimit(60)]
proof fn lemma_removal_root(
    s0: Arena,
    s1: Arena,
    s2: Arena,
    id: ViewId,
    data: ViewData,
    ch: Seq<(ViewId, ViewData)>,
)
    requires
        s0.data_at(id.spec_index()) == Some(data),
        s1.n_slots() == s0.n_slots(),
        s1.data_at(id.spec_index()) is None,
        forall|j: int| j != id.spec_index() ==> s1.data_at(j) == s0.data_at(j),
        s1.free_list() == s0.free_list().push(id),
        s1.live_count() + 1 == s0.live_count(),
        removal_shape(s1, s2, ch),
        removal_closed(s1, ch),
        roots_covered(s1, ch, child_ids(data.spec_node().entity)),
        removal_rooted(ch, child_ids(data.spec_node().entity)),
    ensures
        removal_shape(s0, s2, ch.push((id, data))),
        removal_closed(s0, ch.push((id, data))),
        roots_covered(s0, ch.push((id, data)), seq![id]),
        removal_rooted(ch.push((id, data)), seq![id]),
{
    lemma_vid_inj();
    let h = ch.push((id, data));
    // membership in the extended harvest
    assert forall|j: int| #[trigger] removed_contains_index(h, j) <==> (removed_contains_index(
        ch,
        j,
    ) || j == id.spec_index()) by {
        if removed_contains_index(h, j) {
            let k = choose|k: int| 0 <= k < h.len() && (#[trigger] h[k]).0.spec_index() == j;
            if k < ch.len() {
                assert(ch[k].0.spec_index() == j);
            } else {
                assert(h[k] == (id, data));
            }
        }
        if removed_contains_index(ch, j) {
            let k = choose|k: int| 0 <= k < ch.len() && (#[trigger] ch[k]).0.spec_index() == j;
            assert(h[k].0.spec_index() == j);
        }
        if j == id.spec_index() {
            assert(h[ch.len() as int].0.spec_index() == j);
        }
    }
    // no child entry names the root's slot: those slots were empty in s1
    assert forall|k: int| 0 <= k < ch.len() implies (#[trigger] ch[k]).0.spec_index()
        != id.spec_index() by {
        assert(s1.data_at(ch[k].0.spec_index()) == Some(ch[k].1));
    }
    // soundness
    assert forall|k: int| 0 <= k < h.len() implies s0.data_at(
        (#[trigger] h[k]).0.spec_index(),
    ) == Some(h[k].1) by {
        if k < ch.len() {
            assert(h[k] == ch[k]);
            assert(s1.data_at(ch[k].0.spec_index()) == Some(ch[k].1));
        } else {
            assert(h[k] == (id, data));
        }
    }
    // distinctness
    assert forall|k1: int, k2: int| 0 <= k1 < k2 < h.len() implies (#[trigger] h[k1]).0 != (
    #[trigger] h[k2]).0 by {
        if k2 == ch.len() {
            assert(h[k1] == ch[k1]);
            assert(h[k2] == (id, data));
            assert(ch[k1].0.spec_index() != id.spec_index());
        } else {
            assert(h[k1] == ch[k1] && h[k2] == ch[k2]);
        }
    }
    // slots
    assert forall|j: int| #![trigger s2.data_at(j)] s2.data_at(j) == (if removed_contains_index(
        h,
        j,
    ) {
        None::<ViewData>
    } else {
        s0.data_at(j)
    }) by {
        if removed_contains_index(h, j) {
            if removed_contains_index(ch, j) {
            } else {
                assert(j == id.spec_index());
                assert(s2.data_at(j) == s1.data_at(j));
            }
        } else {
            assert(!removed_contains_index(ch, j));
            assert(j != id.spec_index());
        }
    }
    // free list membership
    assert forall|vid: ViewId| #[trigger] s2.free_list().contains(vid) <==> (
    s0.free_list().contains(vid) || removed_contains(h, vid)) by {
        assert(s1.free_list().contains(vid) <==> (s0.free_list().contains(vid) || vid == id)) by {
            if s1.free_list().contains(vid) {
                let k = choose|k: int|
                    0 <= k < s1.free_list().len() && s1.free_list()[k] == vid;
                if k < s0.free_list().len() {
                    assert(s0.free_list()[k] == vid);
                } else {
                    assert(vid == id);
                }
            }
            if s0.free_list().contains(vid) {
                let k = choose|k: int|
                    0 <= k < s0.free_list().len() && s0.free_list()[k] == vid;
                assert(s1.free_list()[k] == vid);
            }
            if vid == id {
                assert(s1.free_list()[s0.free_list().len() as int] == vid);
            }
        }
        if vid == id {
            assert(removed_contains_index(h, id.spec_index()));
        }
    }
    // closure
    assert forall|k: int, c: int|
        #![trigger child_ids(h[k].1.spec_node().entity)[c]]
        0 <= k < h.len() && 0 <= c < child_ids(h[k].1.spec_node().entity).len() implies {
        let chd = child_ids(h[k].1.spec_node().entity)[c];
        removed_contains(h, chd) || s0.data_at(chd.spec_index()) is None
    } by {
        let chd = child_ids(h[k].1.spec_node().entity)[c];
        if k < ch.len() {
            assert(h[k] == ch[k]);
            assert(removed_contains(ch, chd) || s1.data_at(chd.spec_index()) is None);
            if !removed_contains(ch, chd) && s0.data_at(chd.spec_index()) is Some {
                assert(s1.data_at(chd.spec_index()) is None);
                assert(chd.spec_index() == id.spec_index());
            }
        } else {
            assert(h[k] == (id, data));
            assert(child_ids(data.spec_node().entity)[c] == chd);
            assert(removed_contains(ch, chd) || s1.data_at(chd.spec_index()) is None);
            if !removed_contains(ch, chd) && s0.data_at(chd.spec_index()) is Some {
                assert(chd.spec_index() == id.spec_index());
            }
        }
    }
    // the root is covered
    assert(h[ch.len() as int].0.spec_index() == id.spec_index());
    assert(removed_contains(h, id));
    // rootedness
    assert forall|k: int| 0 <= k < h.len() implies has_later_parent(h, k) || seq![id].contains(
        (#[trigger] h[k]).0,
    ) by {
        if k < ch.len() {
            assert(h[k] == ch[k]);
            if has_later_parent(ch, k) {
                let (k2, c) = choose|k2: int, c: int|
                    #![trigger child_ids(ch[k2].1.spec_node().entity)[c]]
                    k < k2 < ch.len() && 0 <= c < child_ids(ch[k2].1.spec_node().entity).len()
                        && child_ids(ch[k2].1.spec_node().entity)[c] == ch[k].0;
                assert(h[k2] == ch[k2]);
                assert(child_ids(h[k2].1.spec_node().entity)[c] == h[k].0);
                assert(has_later_parent(h, k));
            } else {
                assert(child_ids(data.spec_node().entity).contains(ch[k].0));
                let c = choose|c: int|
                    0 <= c < child_ids(data.spec_node().entity).len() && child_ids(
                        data.spec_node().entity,
                    )[c] == ch[k].0;
                assert(h[ch.len() as int] == (id, data));
                assert(child_ids(h[ch.len() as int].1.spec_node().entity)[c] == h[k].0);
                assert(has_later_parent(h, k));
            }
        } else {
            assert(h[k].0 == id);
            assert(seq![id][0] == id);
        }
    }
}

impl Arena {
    /// The child ids of an entity, as the removal pass walks them.
    fn collect_child_ids(e: &Entity) -> (r: Vec<ViewId>)
        ensures
            r@ == child_ids(*e),
    {
        let mut r: Vec<ViewId> = Vec::new();
        match e {
            Entity::Box(b) => {
                r.push(b.inner);
                proof {
                    assert(r@ =~= child_ids(*e));
                }
            },
            Entity::Scroll(sc) => {
                r.push(sc.inner);
                proof {
                    assert(r@ =~= child_ids(*e));
                }
            },
            Entity::Scale(sc) => {
                r.push(sc.inner);
                proof {
                    assert(r@ =~= child_ids(*e));
                }
            },
            Entity::Stack(st) => {
                let mut t: usize = 0;
                while t < st.inner.len()
                    invariant
                        t <= st.inner@.len(),
                        r@ =~= st.inner@.take(t as int),
                    decreases st.inner@.len() - t,
                {
                    r.push(st.inner[t]);
                    proof {
                        assert(r@ =~= st.inner@.take(t as int + 1));
                    }
                    t = t + 1;
                }
                proof {
                    assert(st.inner@.take(st.inner@.len() as int) =~= st.inner@);
                    assert(r@ =~= child_ids(*e));
                }
            },
            Entity::Switch(sw) => {
                let mut t: usize = 0;
                while t < sw.inner.len()
                    invariant
                        t <= sw.inner@.len(),
                        r@ =~= sw.inner@.take(t as int),
                    decreases sw.inner@.len() - t,
                {
                    r.push(sw.inner[t]);
                    proof {
                        assert(r@ =~= sw.inner@.take(t as int + 1));
                    }
                    t = t + 1;
                }
                proof {
                    assert(sw.inner@.take(sw.inner@.len() as int) =~= sw.inner@);
                    assert(r@ =~= child_ids(*e));
                }
            },
            _ => {
                proof {
                    assert(r@ =~= child_ids(*e));
                }
            },
        }
        r
    }

    /// Remove, in order, the whole subtree rooted at each id of `kids`.
    fn remove_children(&mut self, kids: &Vec<ViewId>) -> (removed: Vec<(ViewId, ViewData)>)
        requires
            old(self).wf(),
        ensures
            removal_shape(*old(self), *final(self), removed@),
            removal_closed(*old(self), removed@),
            roots_covered(*old(self), removed@, kids@),
            removal_rooted(removed@, kids@),
        decreases old(self).live_count(), 1int,
    {
        let ghost s0 = *self;
        let mut removed: Vec<(ViewId, ViewData)> = Vec::new();
        proof {
            assert(removed@ =~= Seq::<(ViewId, ViewData)>::empty());
        }
        let mut c: usize = 0;
        while c < kids.len()
            invariant
                old(self).wf(),
                s0 == *old(self),
                c <= kids@.len(),
                removal_shape(s0, *self, removed@),
                removal_closed(s0, removed@),
                roots_covered(s0, removed@, kids@.take(c as int)),
                removal_rooted(removed@, kids@),
            decreases kids@.len() - c,
        {
            let ghost s1 = *self;
            let ghost acc = removed@;
            let kid = kids[c];
            let mut sub = self.remove_view_verbose(kid);
            proof {
                lemma_compose_shape(s0, s1, *self, acc, sub@);
                lemma_compose_closed(s0, s1, *self, acc, sub@);
                assert forall|x: ViewId| seq![kid].contains(x) implies kids@.contains(x) by {
                    assert(seq![kid][0] == kid);
                    assert(kids@[c as int] == kid);
                }
                lemma_compose_rooted(acc, sub@, kids@, seq![kid]);
                // the kid just handled is covered by the grown harvest
                if s1.data_at(kid.spec_index()) is Some {
                    assert(seq![kid][0] == kid);
                    assert(removed_contains(sub@, kid));
                    let k = choose|k: int|
                        0 <= k < sub@.len() && (#[trigger] sub@[k]).0.spec_index()
                            == kid.spec_index();
                    assert((acc + sub@)[acc.len() + k].0.spec_index() == kid.spec_index());
                }
            }
            removed.append(&mut sub);
            proof {
                assert forall|cc: int| 0 <= cc < c as int + 1 implies removed_contains(
                    removed@,
                    #[trigger] kids@.take(c as int + 1)[cc],
                ) || s0.data_at(kids@.take(c as int + 1)[cc].spec_index()) is None by {
                    let x = kids@.take(c as int + 1)[cc];
                    assert(x == kids@[cc]);
                    if cc < c as int {
                        assert(kids@.take(c as int)[cc] == x);
                        assert(removed_contains(acc, x) || s0.data_at(x.spec_index()) is None);
                        if removed_contains(acc, x) {
                            let k = choose|k: int|
                                0 <= k < acc.len() && (#[trigger] acc[k]).0.spec_index()
                                    == x.spec_index();
                            assert(removed@[k].0.spec_index() == x.spec_index());
                        }
                    } else {
                        if s1.data_at(x.spec_index()) is None {
                            assert(s1.data_at(x.spec_index()) == (
                            if removed_contains_index(acc, x.spec_index()) {
                                None::<ViewData>
                            } else {
                                s0.data_at(x.spec_index())
                            }));
                            if removed_contains_index(acc, x.spec_index()) {
                                let k = choose|k: int|
                                    0 <= k < acc.len() && (#[trigger] acc[k]).0.spec_index()
                                        == x.spec_index();
                                assert(removed@[k].0.spec_index() == x.spec_index());
                            }
                        }
                    }
                }
            }
            c = c + 1;
        }
        proof {
            assert(kids@.take(kids@.len() as int) =~= kids@);
        }
        removed
    }

    /// Remove the node and, recursively, every subtree a child id of its
    /// entity names; the removed nodes come back keyed by id, the node
    /// itself last, and every freed id becomes available for reuse.
    pub fn remove_view_verbose(&mut self, id: ViewId) -> (removed: Vec<(ViewId, ViewData)>)
        requires
            old(self).wf(),
        ensures
            removal_shape(*old(self), *final(self), removed@),
            removal_closed(*old(self), removed@),
            roots_covered(*old(self), removed@, seq![id]),
            removal_rooted(removed@, seq![id]),
            old(self).data_at(id.spec_index()) is None ==> removed@.len() == 0,
            removed@.len() > 0 ==> removed@[removed@.len() - 1].0 == id,
        decreases old(self).live_count(), 0int,
    {
        let ghost s0 = *self;
        let data = match self.remove_view(id) {
            Some(d) => d,
            None => {
                let r: Vec<(ViewId, ViewData)> = Vec::new();
                proof {
                    assert(r@ =~= Seq::<(ViewId, ViewData)>::empty());
                    assert(seq![id][0] == id);
                }
                return r;
            },
        };
        let ghost s1 = *self;
        let kids = Self::collect_child_ids(&data.view.entity);
        let mut removed = self.remove_children(&kids);
        proof {
            lemma_removal_root(s0, s1, *self, id, data, removed@);
        }
        removed.push((id, data));
        removed
    }
}

impl Default for Arena {
    fn default() -> (a: Arena)
        ensures
            a.wf(),
            a.n_slots() == 0,
            a.free_list() == Seq::<ViewId>::empty(),
            a.live_count() == 0,
    {
        let a = Arena { last_view_id: 0, views: Vec::new(), free_ids: Vec::new() };
        proof {
            assert(a.free_ids@ =~= Seq::<ViewId>::empty());
        }
        a
    }
}

} // verus!
