use logic_gate_simulator::circuit::Wire;
use logic_gate_simulator::editing::{
    delete_dragged_item, drag_items, handle_wire_drawing, DragInput, DraggedItem, PendingWire,
    WireEvent,
};
use logic_gate_simulator::keys::{
    handle_double_click, key_label_text, keycode_label, ClickOutcome, InputGate, LastClick,
};
use logic_gate_simulator::menu::{
    hover_item_slot, manage_preview, MenuItems, PreviewAction, SelectedItem, SlotInteraction,
};
use logic_gate_simulator::minimap::minimap_viewport_x;

#[test]
fn two_clicks_on_distinct_nodes_make_a_wire() {
    let mut p = PendingWire(None);
    assert_eq!(handle_wire_drawing(&mut p, WireEvent::ClickNode(4)), None);
    assert_eq!(p.0, Some(4));
    assert_eq!(handle_wire_drawing(&mut p, WireEvent::Idle), None);
    assert_eq!(p.0, Some(4));
    assert_eq!(handle_wire_drawing(&mut p, WireEvent::ClickNode(9)), Some(Wire { a: 4, b: 9 }));
    assert_eq!(p.0, None);
}

#[test]
fn clicking_the_same_node_twice_abandons_the_wire() {
    let mut p = PendingWire(Some(4));
    assert_eq!(handle_wire_drawing(&mut p, WireEvent::ClickNode(4)), None);
    assert_eq!(p.0, None);
}

#[test]
fn right_click_or_empty_click_abandons_the_wire() {
    let mut p = PendingWire(Some(4));
    assert_eq!(handle_wire_drawing(&mut p, WireEvent::Cancel), None);
    assert_eq!(p.0, None);
    let mut p = PendingWire(Some(4));
    assert_eq!(handle_wire_drawing(&mut p, WireEvent::ClickEmpty), None);
    assert_eq!(p.0, None);
}

fn input(just_pressed: bool, pressed: bool, just_released: bool, hit: Option<(u64, i32)>) -> DragInput<i32> {
    DragInput { just_pressed, pressed, just_released, on_node: false, hit }
}

#[test]
fn drag_grab_move_release() {
    let mut d: DraggedItem<i32> = DraggedItem(None);
    let out = drag_items(&mut d, input(true, true, false, Some((7, 3))));
    assert_eq!(d.0, Some((7, 3)));
    assert_eq!(out.move_item, Some((7, 3)));
    assert_eq!(out.panning, Some(false));
    let out = drag_items(&mut d, input(false, true, false, None));
    assert_eq!(out.move_item, Some((7, 3)));
    assert_eq!(out.panning, None);
    let out = drag_items(&mut d, input(false, false, true, None));
    assert_eq!(d.0, None);
    assert_eq!(out.move_item, None);
    assert_eq!(out.panning, Some(true));
}

#[test]
fn press_on_a_node_grabs_nothing() {
    let mut d: DraggedItem<i32> = DraggedItem(None);
    let mut i = input(true, true, false, Some((7, 3)));
    i.on_node = true;
    let out = drag_items(&mut d, i);
    assert_eq!(d.0, None);
    assert_eq!(out.move_item, None);
    assert_eq!(out.panning, None);
}

#[test]
fn delete_removes_item_nodes_and_touching_wires() {
    let mut d: DraggedItem<i32> = DraggedItem(Some((100, 0)));
    let mut p = PendingWire(Some(101));
    let wires = vec![(200, Wire { a: 101, b: 5 }), (201, Wire { a: 6, b: 7 }), (202, Wire { a: 8, b: 102 })];
    let del = delete_dragged_item(true, &mut d, &mut p, &vec![101, 102], &wires).unwrap();
    assert_eq!(del.item, 100);
    assert_eq!(del.nodes, vec![101, 102]);
    assert_eq!(del.wires, vec![200, 202]);
    assert_eq!(d.0, None);
    assert_eq!(p.0, None);
}

#[test]
fn delete_keeps_an_unrelated_pending_wire() {
    let mut d: DraggedItem<i32> = DraggedItem(Some((100, 0)));
    let mut p = PendingWire(Some(55));
    let del = delete_dragged_item(true, &mut d, &mut p, &vec![101], &vec![]).unwrap();
    assert_eq!(del.wires, Vec::<u64>::new());
    assert_eq!(p.0, Some(55));
}

#[test]
fn delete_without_key_or_item_does_nothing() {
    let mut d: DraggedItem<i32> = DraggedItem(Some((100, 0)));
    let mut p = PendingWire(Some(101));
    assert!(delete_dragged_item(false, &mut d, &mut p, &vec![101], &vec![]).is_none());
    assert_eq!(d.0, Some((100, 0)));
    assert_eq!(p.0, Some(101));
    let mut none: DraggedItem<i32> = DraggedItem(None);
    assert!(delete_dragged_item(true, &mut none, &mut p, &vec![101], &vec![]).is_none());
    assert_eq!(p.0, Some(101));
}

#[test]
fn double_click_binds_a_key() {
    let mut last = LastClick { entity: None, at: 0u32 };
    let mut gate: InputGate<char> = InputGate::new();
    let o = handle_double_click(&mut last, Some(3), false, 10, 0);
    assert_eq!(o, ClickOutcome::Remember(3));
    assert_eq!((last.entity, last.at), (Some(3), 10));
    gate.apply_click(3, o);
    assert!(!gate.editing);
    let o = handle_double_click(&mut last, Some(3), true, 12, 0);
    assert_eq!(o, ClickOutcome::StartEditing(3));
    assert_eq!((last.entity, last.at), (None, 0));
    gate.apply_click(3, o);
    assert!(gate.editing);
    gate.capture_key_binding(None);
    assert!(gate.editing);
    gate.capture_key_binding(Some('q'));
    assert_eq!(gate.bound_key, Some('q'));
    assert!(!gate.editing);
}

#[test]
fn slow_second_click_or_other_gate_is_not_a_double_click() {
    let mut last = LastClick { entity: Some(3), at: 0u32 };
    assert_eq!(handle_double_click(&mut last, Some(3), false, 5, 0), ClickOutcome::Remember(3));
    assert_eq!(handle_double_click(&mut last, Some(4), true, 6, 0), ClickOutcome::Remember(4));
    assert_eq!(last.entity, Some(4));
}

#[test]
fn click_elsewhere_stops_editing() {
    let mut last = LastClick { entity: Some(3), at: 7u32 };
    let o = handle_double_click(&mut last, None, true, 9, 0);
    assert_eq!(o, ClickOutcome::StopEditing);
    assert_eq!((last.entity, last.at), (Some(3), 7));
    let mut gate: InputGate<char> = InputGate { bound_key: Some('a'), editing: true };
    gate.apply_click(1, o);
    assert!(!gate.editing);
    assert_eq!(gate.bound_key, Some('a'));
}

#[test]
fn key_labels() {
    assert_eq!(keycode_label("KeyA"), "A");
    assert_eq!(keycode_label("Digit7"), "7");
    assert_eq!(keycode_label("Space"), "SPC");
    assert_eq!(keycode_label("Enter"), "ENT");
    assert_eq!(keycode_label("Backspace"), "BSP");
    assert_eq!(keycode_label("ArrowUp"), "\u{2191}");
    assert_eq!(keycode_label("ArrowDown"), "\u{2193}");
    assert_eq!(keycode_label("ArrowLeft"), "\u{2190}");
    assert_eq!(keycode_label("ArrowRight"), "\u{2192}");
    assert_eq!(keycode_label("ShiftRight"), "SHF");
    assert_eq!(keycode_label("ControlLeft"), "CTL");
    assert_eq!(keycode_label("AltRight"), "ALT");
    assert_eq!(keycode_label("Escape"), "Esc");
    assert_eq!(keycode_label("F12"), "F12");
    assert_eq!(keycode_label("NumpadEnter"), "Num");
    assert_eq!(keycode_label("KeKeyy"), "Key");
    assert_eq!(keycode_label(""), "");
}

#[test]
fn key_label_text_shows_state() {
    assert_eq!(key_label_text(true, Some("KeyA")), "_");
    assert_eq!(key_label_text(false, Some("KeyA")), "A");
    assert_eq!(key_label_text(false, None), "?");
}

#[test]
fn menu_registry_holds_items_by_id() {
    let mut items = MenuItems::new();
    items.insert(4, "AND", "gates/AND.png");
    items.insert(9, "NOT", "gates/NOT.png");
    assert_eq!(items.get(4).unwrap().name(), "AND");
    assert_eq!(items.get(4).unwrap().icon(), "gates/AND.png");
    assert_eq!(items.get(9).unwrap().icon(), "gates/NOT.png");
    assert!(items.get(2).is_none());
    assert_eq!(items.items().len(), 2);
}

#[test]
fn menu_registry_knows_used_ids() {
    let mut items = MenuItems::new();
    assert!(!items.contains(1));
    items.insert(1, "AND", "gates/AND.png");
    assert!(items.contains(1));
    assert!(!items.contains(0));
}

#[test]
fn pressing_then_releasing_a_slot_drops_its_item() {
    let mut sel = SelectedItem(None);
    let r = hover_item_slot(&mut sel, SlotInteraction::Hovered, 2);
    assert!(r.highlighted);
    assert_eq!(r.dropped, None);
    let r = hover_item_slot(&mut sel, SlotInteraction::Pressed, 2);
    assert!(r.highlighted);
    assert_eq!(r.dropped, None);
    assert_eq!(sel.0, Some(2));
    let r = hover_item_slot(&mut sel, SlotInteraction::Away, 5);
    assert!(!r.highlighted);
    assert_eq!(r.dropped, Some(2));
    assert_eq!(sel.0, None);
}

#[test]
fn preview_follows_the_selection() {
    assert_eq!(manage_preview(false, Some(1), 1), PreviewAction::Keep);
    assert_eq!(manage_preview(true, Some(1), 1), PreviewAction::Spawn);
    assert_eq!(manage_preview(true, Some(2), 1), PreviewAction::Despawn);
    assert_eq!(manage_preview(true, None, 1), PreviewAction::Despawn);
}

#[test]
fn minimap_keeps_its_margin_and_stays_on_screen() {
    assert_eq!(minimap_viewport_x(1500, 210, 10), 1280);
    assert_eq!(minimap_viewport_x(100, 210, 10), 0);
    assert_eq!(minimap_viewport_x(220, 210, 10), 0);
}
