use logic_gate_simulator::circuit::{wire_is_lit, CircuitNode, Node, NodeKind, Wire};
use logic_gate_simulator::gates::{
    and_gate_logic, apply_gate_logic, compute_and_gate, compute_not_gate, not_gate_logic,
    update_output_light,
};
use logic_gate_simulator::menu::{hover_item_slot, SelectedItem, SlotInteraction};
use logic_gate_simulator::signals::{propagate_wires, update_signals, InputSource};

fn node(entity: u64, kind: NodeKind, active: bool) -> CircuitNode {
    CircuitNode { entity, kind, node: Node { active } }
}

fn level(nodes: &Vec<CircuitNode>, entity: u64) -> bool {
    nodes.iter().find(|n| n.entity == entity).unwrap().node.active
}

fn and_gate(a: bool, b: bool) -> Vec<CircuitNode> {
    vec![
        node(1, NodeKind::Input, a),
        node(2, NodeKind::Input, b),
        node(3, NodeKind::Output, !(a && b)),
    ]
}

#[test]
fn and_gate_active_only_when_all_inputs_are() {
    for (a, b) in [(false, false), (false, true), (true, false), (true, true)] {
        let mut nodes = and_gate(a, b);
        apply_gate_logic(&vec![1, 2, 3], &mut nodes, and_gate_logic);
        assert_eq!(level(&nodes, 3), a && b);
        assert_eq!(level(&nodes, 1), a);
        assert_eq!(level(&nodes, 2), b);
    }
}

#[test]
fn not_gate_inverts_its_input() {
    for a in [false, true] {
        let mut nodes = vec![node(10, NodeKind::Input, a), node(11, NodeKind::Output, a)];
        compute_not_gate(&vec![vec![10, 11]], &mut nodes);
        assert_eq!(level(&nodes, 11), !a);
    }
}

#[test]
fn gate_logic_formulas() {
    assert!(and_gate_logic(2, 2));
    assert!(!and_gate_logic(1, 2));
    assert!(and_gate_logic(0, 0));
    assert!(not_gate_logic(0, 1));
    assert!(!not_gate_logic(1, 1));
}

#[test]
fn gate_without_output_changes_nothing() {
    let mut nodes = vec![node(1, NodeKind::Input, true), node(2, NodeKind::Input, false)];
    let before = nodes.clone();
    apply_gate_logic(&vec![1, 2], &mut nodes, |_, _| -> bool { panic!("no output to set") });
    assert_eq!(nodes, before);
}

#[test]
fn gate_children_that_are_not_nodes_are_ignored() {
    let mut nodes = vec![node(1, NodeKind::Input, true), node(3, NodeKind::Output, false)];
    apply_gate_logic(&vec![99, 1, 3], &mut nodes, and_gate_logic);
    assert!(level(&nodes, 3));
}

#[test]
fn several_and_gates_in_turn() {
    let mut nodes = vec![
        node(1, NodeKind::Input, true),
        node(2, NodeKind::Output, false),
        node(3, NodeKind::Input, false),
        node(4, NodeKind::Output, true),
    ];
    compute_and_gate(&vec![vec![1, 2], vec![3, 4]], &mut nodes);
    assert!(level(&nodes, 2));
    assert!(!level(&nodes, 4));
}

#[test]
fn wire_carries_output_to_input_whatever_its_orientation() {
    for w in [Wire { a: 1, b: 2 }, Wire { a: 2, b: 1 }] {
        let mut nodes = vec![node(1, NodeKind::Output, true), node(2, NodeKind::Input, false)];
        propagate_wires(&vec![w], &mut nodes);
        assert!(level(&nodes, 2));
        assert!(level(&nodes, 1));
    }
}

#[test]
fn wire_never_lowers_and_never_touches_outputs() {
    let mut nodes = vec![
        node(1, NodeKind::Output, false),
        node(2, NodeKind::Input, true),
        node(3, NodeKind::Output, true),
        node(4, NodeKind::Output, false),
    ];
    propagate_wires(&vec![Wire { a: 1, b: 2 }, Wire { a: 3, b: 4 }], &mut nodes);
    assert!(level(&nodes, 2));
    assert!(!level(&nodes, 4));
    assert!(!level(&nodes, 1));
}

#[test]
fn wire_between_two_inputs_carries_nothing() {
    let mut nodes = vec![node(1, NodeKind::Input, true), node(2, NodeKind::Input, false)];
    propagate_wires(&vec![Wire { a: 1, b: 2 }], &mut nodes);
    assert!(!level(&nodes, 2));
}

#[test]
fn second_pass_changes_nothing() {
    let mut nodes = vec![
        node(1, NodeKind::Output, true),
        node(2, NodeKind::Input, false),
        node(3, NodeKind::Input, false),
    ];
    let wires = vec![Wire { a: 1, b: 2 }, Wire { a: 3, b: 1 }];
    propagate_wires(&wires, &mut nodes);
    let once = nodes.clone();
    propagate_wires(&wires, &mut nodes);
    assert_eq!(nodes, once);
    assert!(level(&nodes, 3));
}

#[test]
fn update_signals_resets_drives_and_propagates() {
    let mut nodes = vec![
        node(1, NodeKind::Output, false),
        node(2, NodeKind::Input, true),
        node(3, NodeKind::Input, true),
        node(5, NodeKind::Output, true),
    ];
    let sources = vec![
        InputSource { active: true, children: vec![1] },
        InputSource { active: false, children: vec![5] },
    ];
    let wires = vec![Wire { a: 2, b: 1 }];
    update_signals(&sources, &wires, &mut nodes);
    assert!(level(&nodes, 1));
    assert!(level(&nodes, 2));
    assert!(!level(&nodes, 3));
    assert!(!level(&nodes, 5));
}

#[test]
fn released_key_leaves_downstream_input_low() {
    let mut nodes = vec![node(1, NodeKind::Output, true), node(2, NodeKind::Input, true)];
    let sources = vec![InputSource { active: false, children: vec![1] }];
    update_signals(&sources, &vec![Wire { a: 1, b: 2 }], &mut nodes);
    assert!(!level(&nodes, 1));
    assert!(!level(&nodes, 2));
}

#[test]
fn last_source_listing_a_node_wins() {
    let mut nodes = vec![node(1, NodeKind::Output, false)];
    let sources = vec![
        InputSource { active: true, children: vec![1] },
        InputSource { active: false, children: vec![1] },
    ];
    update_signals(&sources, &vec![], &mut nodes);
    assert!(!level(&nodes, 1));
}

#[test]
fn light_shines_when_its_input_is_active() {
    let nodes = vec![node(1, NodeKind::Input, true), node(2, NodeKind::Input, false)];
    assert!(update_output_light(&vec![7, 1], &nodes));
    assert!(!update_output_light(&vec![2], &nodes));
    assert!(!update_output_light(&vec![], &nodes));
    let outputs = vec![node(3, NodeKind::Output, true)];
    assert!(!update_output_light(&vec![3], &outputs));
}

#[test]
fn wire_glows_when_either_end_is_active() {
    let nodes = vec![node(1, NodeKind::Output, false), node(2, NodeKind::Input, true)];
    assert_eq!(wire_is_lit(Wire { a: 1, b: 2 }, &nodes), Some(true));
    let dark = vec![node(1, NodeKind::Output, false), node(2, NodeKind::Input, false)];
    assert_eq!(wire_is_lit(Wire { a: 1, b: 2 }, &dark), Some(false));
    assert_eq!(wire_is_lit(Wire { a: 1, b: 9 }, &nodes), None);
}

#[test]
fn gate_logic_receives_active_and_total_inputs() {
    let mut nodes = vec![
        node(1, NodeKind::Input, true),
        node(2, NodeKind::Input, false),
        node(3, NodeKind::Input, true),
        node(4, NodeKind::Output, false),
    ];
    apply_gate_logic(&vec![1, 2, 3, 4], &mut nodes, |active, total| active == 2 && total == 3);
    assert!(level(&nodes, 4));
    // A closure that is active when some input is.
    let mut nodes = vec![node(1, NodeKind::Input, false), node(4, NodeKind::Output, true)];
    apply_gate_logic(&vec![1, 4], &mut nodes, |active, _| active > 0);
    assert!(!level(&nodes, 4));
}

#[test]
fn wires_to_no_node_or_between_outputs_change_nothing() {
    let mut nodes = vec![
        node(1, NodeKind::Output, true),
        node(2, NodeKind::Output, false),
        node(3, NodeKind::Input, false),
    ];
    let before = nodes.clone();
    propagate_wires(&vec![Wire { a: 1, b: 2 }, Wire { a: 1, b: 77 }, Wire { a: 88, b: 3 }], &mut nodes);
    assert_eq!(nodes, before);
}

#[test]
fn selection_sequence_drops_each_press_once() {
    let mut sel = SelectedItem(None);
    let events = [
        (SlotInteraction::Hovered, 1),
        (SlotInteraction::Pressed, 1),
        (SlotInteraction::Hovered, 1),
        (SlotInteraction::Away, 1),
        (SlotInteraction::Pressed, 3),
        (SlotInteraction::Pressed, 4),
        (SlotInteraction::Away, 4),
    ];
    let drops: Vec<Option<usize>> =
        events.iter().map(|(i, s)| hover_item_slot(&mut sel, *i, *s).dropped).collect();
    assert_eq!(drops, vec![None, None, Some(1), None, None, None, Some(4)]);
}
