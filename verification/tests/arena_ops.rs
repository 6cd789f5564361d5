use dome::arena::{Arena, ViewId};
use dome::geometry::Region;
use dome::nodes::{
    BoxEntity, CanvasEntity, Entity, ScaleEntity, ScrollEntity, StackDirection, StackEntity,
    SwitchEntity, UiNode,
};
use dome::geometry::Vec2;
use dome::paint::CallbackId;
use dome::styles::Styles;

fn canvas() -> UiNode {
    UiNode::new(Entity::Canvas(CanvasEntity { draw: CallbackId(0) }), Styles::default())
}

#[test]
fn push_and_get_round_trip() {
    let mut arena = Arena::default();
    let id = arena.push_view(canvas());
    assert!(arena.get_view(id).is_some());
    assert_eq!(arena.get_relative_region(id), Some(Region { x0: 0, y0: 0, x1: 0, y1: 0 }));
    assert_eq!(arena.get_real_region(id), Some(Region { x0: 0, y0: 0, x1: 0, y1: 0 }));
    assert_eq!(arena.get_previuos_region(id), Some(Region { x0: 0, y0: 0, x1: 0, y1: 0 }));
    assert_eq!(arena.get_dirty(id), Some(true));
}

#[test]
fn region_caches_are_independent() {
    let mut arena = Arena::default();
    let id = arena.push_view(canvas());
    let r1 = Region { x0: 1, y0: 2, x1: 3, y1: 4 };
    let r2 = Region { x0: 5, y0: 6, x1: 7, y1: 8 };
    let r3 = Region { x0: 9, y0: 10, x1: 11, y1: 12 };
    arena.set_relative_region(id, r1);
    arena.set_real_region(id, r2);
    arena.set_previuos_region(id, r3);
    arena.set_dirty(id, false);
    assert_eq!(arena.get_relative_region(id), Some(r1));
    assert_eq!(arena.get_real_region(id), Some(r2));
    assert_eq!(arena.get_previuos_region(id), Some(r3));
    assert_eq!(arena.get_dirty(id), Some(false));
}

#[test]
fn setters_ignore_unknown_ids() {
    let mut arena = Arena::default();
    let id = arena.push_view(canvas());
    arena.remove_view(id);
    arena.set_dirty(id, false);
    assert_eq!(arena.get_dirty(id), None);
    assert_eq!(arena.get_relative_region(id), None);
    assert!(arena.get_view(id).is_none());
}

#[test]
fn remove_returns_node_and_recycles_id() {
    let mut arena = Arena::default();
    let a = arena.push_view(canvas());
    let b = arena.push_view(canvas());
    assert!(arena.remove_view(a).is_some());
    assert!(arena.remove_view(a).is_none());
    // the freed id is reused by the next push, so the slot stays dense
    let c = arena.push_view(canvas());
    assert_eq!(a, c);
    assert_ne!(b, c);
}

#[test]
fn get_view_mut_edits_in_place() {
    let mut arena = Arena::default();
    let id = arena.push_view(canvas());
    {
        let node = arena.get_view_mut(id).unwrap();
        node.styles.padding.left = 42;
    }
    assert_eq!(arena.get_view(id).unwrap().styles.padding.left, 42);
}

#[test]
fn subtree_removal_returns_every_descendant() {
    // Removing a stack removes the stack node and every descendant that an
    // entity's child ids reach, and every returned id becomes available
    // for reuse by later pushes.
    let mut arena = Arena::default();
    let leaf1 = arena.push_view(canvas());
    let leaf2 = arena.push_view(canvas());
    let boxed = arena.push_view(UiNode::new(
        Entity::Box(BoxEntity { inner: leaf1 }),
        Styles::default(),
    ));
    let switched = arena.push_view(UiNode::new(
        Entity::Switch(SwitchEntity { mode: 0, inner: vec![leaf2] }),
        Styles::default(),
    ));
    let bystander = arena.push_view(canvas());
    let root = arena.push_view(UiNode::new(
        Entity::Stack(StackEntity {
            direction: StackDirection::X,
            inner: vec![boxed, switched],
            padding: 0,
        }),
        Styles::default(),
    ));
    let removed = arena.remove_view_verbose(root);
    let mut ids: Vec<ViewId> = removed.iter().map(|p| p.0).collect();
    ids.sort();
    let mut expected = vec![root, boxed, switched, leaf1, leaf2];
    expected.sort();
    assert_eq!(ids, expected);
    // the root comes last in the harvest
    assert_eq!(removed.last().unwrap().0, root);
    // the bystander is untouched
    assert!(arena.get_view(bystander).is_some());
    // every removed id is gone and available again
    for id in &ids {
        assert!(arena.get_view(*id).is_none());
    }
    let mut reused = Vec::new();
    for _ in 0..ids.len() {
        reused.push(arena.push_view(canvas()));
    }
    reused.sort();
    assert_eq!(reused, ids);
}

#[test]
fn subtree_removal_descends_through_scroll_and_scale() {
    // The single-child viewport wrappers also release their subtree: no id
    // leaks when a scroll or scale node is removed.
    let mut arena = Arena::default();
    let deep = arena.push_view(canvas());
    let scaled = arena.push_view(UiNode::new(
        Entity::Scale(ScaleEntity { inner: deep, scale: 1000 }),
        Styles::default(),
    ));
    let root = arena.push_view(UiNode::new(
        Entity::Scroll(ScrollEntity {
            inner: scaled,
            offset: Vec2 { x: 0, y: 0 },
            v_enabled: true,
            h_enabled: false,
            enable_inner_min_size: true,
        }),
        Styles::default(),
    ));
    let removed = arena.remove_view_verbose(root);
    assert_eq!(removed.len(), 3);
    assert!(arena.get_view(deep).is_none());
    assert!(arena.get_view(scaled).is_none());
    assert!(arena.get_view(root).is_none());
}

#[test]
fn removing_a_missing_id_harvests_nothing() {
    let mut arena = Arena::default();
    let id = arena.push_view(canvas());
    arena.remove_view(id);
    let removed = arena.remove_view_verbose(id);
    assert!(removed.is_empty());
}
