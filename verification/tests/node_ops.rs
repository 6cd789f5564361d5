use dome::events::EventHandler;
use dome::nodes::{get_new_eh_id, CanvasEntity, Entity, UiNode};
use dome::paint::CallbackId;
use dome::styles::Styles;
use dome::window::WindowId;

#[test]
fn handler_ids_come_from_an_explicit_counter() {
    let mut last: usize = 0;
    let a = get_new_eh_id(&mut last);
    let b = get_new_eh_id(&mut last);
    assert_eq!(last, 2);
    assert_ne!(a, b);
}

#[test]
fn assign_get_take_handler_round_trip() {
    let mut node = UiNode::new(
        Entity::Canvas(CanvasEntity { draw: CallbackId(7) }),
        Styles::default(),
    );
    let id = node.assign_event_handler(EventHandler::Update(CallbackId(1)));
    assert_eq!(node.get_event_handler(id), Some(&EventHandler::Update(CallbackId(1))));
    assert_eq!(node.take_event_handler(id), Some(EventHandler::Update(CallbackId(1))));
    assert_eq!(node.get_event_handler(id), None);
    assert_eq!(node.take_event_handler(id), None);
}

#[test]
fn freed_handler_slots_are_reused() {
    let mut node = UiNode::new(
        Entity::Canvas(CanvasEntity { draw: CallbackId(0) }),
        Styles::default(),
    );
    let a = node.assign_event_handler(EventHandler::Update(CallbackId(1)));
    let b = node.assign_event_handler(EventHandler::Update(CallbackId(2)));
    node.take_event_handler(a);
    let c = node.assign_event_handler(EventHandler::Update(CallbackId(3)));
    assert_eq!(a, c);
    assert_ne!(b, c);
    assert_eq!(node.get_event_handler(c), Some(&EventHandler::Update(CallbackId(3))));
    assert_eq!(node.get_event_handler(b), Some(&EventHandler::Update(CallbackId(2))));
}

#[test]
fn window_ids_count_up_from_the_callers_counter() {
    let mut last: usize = 0;
    let a = WindowId::new(&mut last);
    let b = WindowId::new(&mut last);
    assert_ne!(a, b);
    assert_eq!(last, 2);
}
