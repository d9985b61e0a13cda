//! Properties of signal propagation and gate logic that span several
//! operations or hold of every circuit.
use vstd::prelude::*;

use crate::editing::{touching_wires, wire_step, WireEvent};
use crate::keys::{click_outcome, key_label, special_label, without, ClickOutcome};
use crate::menu::{slot_step, SlotInteraction};
use crate::circuit::{
    distinct_entities, has_kind, is_active, is_node, same_layout, set_active, with_active,
    CircuitNode, NodeKind, Wire,
};
use crate::gates::{
    active_input_count, gate_applied, gate_output, gates_applied, input_count, output_of, GateKind,
};
use crate::signals::{
    inputs_reset, propagated, receives_signal, signals_updated, source_value, sources_applied,
    wire_signal, InputSource,
};

verus! {

/// The wire with its two ends swapped.
pub open spec fn reversed(w: Wire) -> Wire {
    Wire { a: w.b, b: w.a }
}

/// A wire carries the same signal whichever of its ends was connected first.
pub proof fn lemma_wire_orientation(nodes: Seq<CircuitNode>, w: Wire)
    ensures
        wire_signal(nodes, w) == wire_signal(nodes, reversed(w)),
{
}

/// Propagation does not depend on the order in which the ends of each wire
/// were connected: signals always flow from output to input.
pub proof fn lemma_propagation_ignores_orientation(
    nodes: Seq<CircuitNode>,
    wires: Seq<Wire>,
    other: Seq<Wire>,
)
    requires
        other.len() == wires.len(),
        forall|j: int|
            0 <= j < wires.len() ==> #[trigger] other[j] == wires[j] || other[j] == reversed(
                wires[j],
            ),
    ensures
        propagated(nodes, wires) == propagated(nodes, other),
{
    assert forall|e: u64| receives_signal(nodes, wires, e) == receives_signal(nodes, other, e) by {
        if receives_signal(nodes, wires, e) {
            let j = choose|j: int|
                0 <= j < wires.len() && #[trigger] wire_signal(nodes, wires[j]) == Some((e, true));
            lemma_wire_orientation(nodes, wires[j]);
            assert(wire_signal(nodes, other[j]) == Some((e, true)));
        }
        if receives_signal(nodes, other, e) {
            let j = choose|j: int|
                0 <= j < other.len() && #[trigger] wire_signal(nodes, other[j]) == Some((e, true));
            lemma_wire_orientation(nodes, wires[j]);
            assert(wire_signal(nodes, wires[j]) == Some((e, true)));
        }
    }
    assert(propagated(nodes, wires) =~= propagated(nodes, other));
}

/// Propagation never lowers a node, and never changes an output node:
/// signals only ever reach the non-output end of a wire.
pub proof fn lemma_propagation_keeps_outputs(nodes: Seq<CircuitNode>, wires: Seq<Wire>)
    ensures
        propagated(nodes, wires).len() == nodes.len(),
        forall|i: int|
            0 <= i < nodes.len() && nodes[i].node.active ==> #[trigger] propagated(
                nodes,
                wires,
            )[i].node.active,
        forall|i: int|
            0 <= i < nodes.len() && nodes[i].kind == NodeKind::Output ==> #[trigger] propagated(
                nodes,
                wires,
            )[i] == nodes[i],
{
    assert forall|i: int|
        0 <= i < nodes.len() && nodes[i].kind == NodeKind::Output implies #[trigger] propagated(
        nodes,
        wires,
    )[i] == nodes[i] by {
        let e = nodes[i].entity;
        assert(has_kind(nodes, e, NodeKind::Output));
        if receives_signal(nodes, wires, e) {
            let j = choose|j: int|
                0 <= j < wires.len() && #[trigger] wire_signal(nodes, wires[j]) == Some((e, true));
        }
    }
}

/// A second pass of propagation along the same wires changes nothing.
pub proof fn lemma_propagation_idempotent(nodes: Seq<CircuitNode>, wires: Seq<Wire>)
    requires
        distinct_entities(nodes),
    ensures
        propagated(propagated(nodes, wires), wires) == propagated(nodes, wires),
{
    let p = propagated(nodes, wires);
    lemma_propagation_keeps_outputs(nodes, wires);
    assert forall|e: u64, k: NodeKind| has_kind(p, e, k) == has_kind(nodes, e, k) by {
        if has_kind(p, e, k) {
            let i = choose|i: int| 0 <= i < p.len() && #[trigger] p[i].entity == e && p[i].kind == k;
            assert(nodes[i].entity == e);
        }
        if has_kind(nodes, e, k) {
            let i = choose|i: int|
                0 <= i < nodes.len() && #[trigger] nodes[i].entity == e && nodes[i].kind == k;
            assert(p[i].entity == e);
        }
    }
    assert forall|e: u64|
        has_kind(nodes, e, NodeKind::Output) implies is_active(p, e) == is_active(nodes, e) by {
        let i = choose|i: int|
            0 <= i < nodes.len() && #[trigger] nodes[i].entity == e && nodes[i].kind
                == NodeKind::Output;
        assert(p[i] == nodes[i]);
        if is_active(p, e) {
            let m = choose|m: int| 0 <= m < p.len() && #[trigger] p[m].entity == e && p[m].node.active;
            assert(nodes[m].entity == e);
            assert(m == i);
        }
        if is_active(nodes, e) {
            let m = choose|m: int|
                0 <= m < nodes.len() && #[trigger] nodes[m].entity == e && nodes[m].node.active;
            assert(m == i);
        }
    }
    assert forall|w: Wire| #[trigger] wire_signal(p, w) == wire_signal(nodes, w) by {}
    assert forall|e: u64| receives_signal(p, wires, e) == receives_signal(nodes, wires, e) by {
        if receives_signal(p, wires, e) {
            let j = choose|j: int|
                0 <= j < wires.len() && #[trigger] wire_signal(p, wires[j]) == Some((e, true));
            assert(wire_signal(nodes, wires[j]) == Some((e, true)));
        }
        if receives_signal(nodes, wires, e) {
            let j = choose|j: int|
                0 <= j < wires.len() && #[trigger] wire_signal(nodes, wires[j]) == Some((e, true));
            assert(wire_signal(p, wires[j]) == Some((e, true)));
        }
    }
    assert(propagated(p, wires) =~= p);
}

/// At each frame the inputs start low: an input node that no source drives
/// and that no wire feeds ends the first pass low.
pub proof fn lemma_undriven_input_is_low(
    nodes: Seq<CircuitNode>,
    sources: Seq<InputSource>,
    wires: Seq<Wire>,
    i: int,
)
    requires
        0 <= i < nodes.len(),
        nodes[i].kind == NodeKind::Input,
        source_value(sources, nodes[i].entity) is None,
        !receives_signal(sources_applied(inputs_reset(nodes), sources), wires, nodes[i].entity),
    ensures
        !signals_updated(nodes, sources, wires)[i].node.active,
{
}

/// All the children that are input nodes are active.
pub open spec fn all_inputs_active(nodes: Seq<CircuitNode>, children: Seq<u64>) -> bool {
    forall|k: int|
        0 <= k < children.len() && has_kind(nodes, #[trigger] children[k], NodeKind::Input)
            ==> is_active(nodes, children[k])
}

/// None of the children that are input nodes is active.
pub open spec fn no_input_active(nodes: Seq<CircuitNode>, children: Seq<u64>) -> bool {
    forall|k: int|
        0 <= k < children.len() && has_kind(nodes, #[trigger] children[k], NodeKind::Input)
            ==> !is_active(nodes, children[k])
}

proof fn lemma_count_all(nodes: Seq<CircuitNode>, children: Seq<u64>)
    ensures
        (active_input_count(nodes, children) == input_count(nodes, children)) == all_inputs_active(
            nodes,
            children,
        ),
        (active_input_count(nodes, children) == 0) == no_input_active(nodes, children),
    decreases children.len(),
{
    if children.len() > 0 {
        let init = children.drop_last();
        lemma_count_all(nodes, init);
        crate::gates::lemma_counts_bounded(nodes, init);
        assert forall|k: int| 0 <= k < init.len() implies #[trigger] init[k] == children[k] by {}
        if all_inputs_active(nodes, children) {
            assert forall|k: int|
                0 <= k < init.len() && has_kind(nodes, #[trigger] init[k], NodeKind::Input)
                    implies is_active(nodes, init[k]) by {
                assert(children[k] == init[k]);
            }
            assert(has_kind(nodes, children[children.len() - 1], NodeKind::Input) ==> is_active(
                nodes,
                children[children.len() - 1],
            ));
        }
        if all_inputs_active(nodes, init) && (has_kind(nodes, children.last(), NodeKind::Input)
            ==> is_active(nodes, children.last())) {
            assert forall|k: int|
                0 <= k < children.len() && has_kind(nodes, #[trigger] children[k], NodeKind::Input)
                    implies is_active(nodes, children[k]) by {
                if k < init.len() {
                    assert(init[k] == children[k]);
                }
            }
        }
        if no_input_active(nodes, children) {
            assert forall|k: int|
                0 <= k < init.len() && has_kind(nodes, #[trigger] init[k], NodeKind::Input)
                    implies !is_active(nodes, init[k]) by {
                assert(children[k] == init[k]);
            }
            assert(has_kind(nodes, children[children.len() - 1], NodeKind::Input) ==> !is_active(
                nodes,
                children[children.len() - 1],
            ));
        }
        if no_input_active(nodes, init) && !(has_kind(nodes, children.last(), NodeKind::Input)
            && is_active(nodes, children.last())) {
            assert forall|k: int|
                0 <= k < children.len() && has_kind(nodes, #[trigger] children[k], NodeKind::Input)
                    implies !is_active(nodes, children[k]) by {
                if k < init.len() {
                    assert(init[k] == children[k]);
                }
            }
        }
    }
}

/// An AND gate's output is active exactly when every one of its inputs is
/// active; no node but its output changes.
pub proof fn lemma_and_gate(nodes: Seq<CircuitNode>, children: Seq<u64>, i: int)
    requires
        0 <= i < nodes.len(),
        output_of(nodes, children) == Some(nodes[i].entity),
    ensures
        gate_applied(nodes, children, GateKind::And)[i] == with_active(
            nodes[i],
            all_inputs_active(nodes, children),
        ),
        forall|m: int|
            0 <= m < nodes.len() && nodes[m].entity != nodes[i].entity ==> #[trigger] gate_applied(
                nodes,
                children,
                GateKind::And,
            )[m] == nodes[m],
{
    lemma_count_all(nodes, children);
}

/// A NOT gate's output is active exactly when none of its inputs is active;
/// no node but its output changes.
pub proof fn lemma_not_gate(nodes: Seq<CircuitNode>, children: Seq<u64>, i: int)
    requires
        0 <= i < nodes.len(),
        output_of(nodes, children) == Some(nodes[i].entity),
    ensures
        gate_applied(nodes, children, GateKind::Not)[i] == with_active(
            nodes[i],
            no_input_active(nodes, children),
        ),
        forall|m: int|
            0 <= m < nodes.len() && nodes[m].entity != nodes[i].entity ==> #[trigger] gate_applied(
                nodes,
                children,
                GateKind::Not,
            )[m] == nodes[m],
{
    lemma_count_all(nodes, children);
}

/// A wire that is created never connects a node to itself, and creating it
/// ends the drawing.
pub proof fn lemma_wire_never_loops(pending: Option<u64>, event: WireEvent)
    ensures
        wire_step(pending, event).1 matches Some(w) ==> w.a != w.b && pending == Some(w.a)
            && wire_step(pending, event).0 is None,
{
}

/// Clicking a node and then another creates the wire from the first to the
/// second, and ends the drawing.
pub proof fn lemma_two_clicks_make_wire(a: u64, b: u64)
    requires
        a != b,
    ensures
        wire_step(wire_step(None, WireEvent::ClickNode(a)).0, WireEvent::ClickNode(b)) == (
            None::<u64>,
            Some(Wire { a, b }),
        ),
{
}

/// A right click abandons the wire being drawn and creates none.
pub proof fn lemma_cancel_abandons(pending: Option<u64>)
    ensures
        wire_step(pending, WireEvent::Cancel) == (None::<u64>, None::<Wire>),
{
}

/// Deleting an item removes exactly the wires that touch one of its nodes.
pub proof fn lemma_touching_wires_exact(wires: Seq<(u64, Wire)>, nodes: Seq<u64>, e: u64)
    ensures
        touching_wires(wires, nodes).contains(e) <==> exists|j: int|
            0 <= j < wires.len() && #[trigger] wires[j].0 == e && (nodes.contains(wires[j].1.a)
                || nodes.contains(wires[j].1.b)),
    decreases wires.len(),
{
    if wires.len() > 0 {
        let init = wires.drop_last();
        lemma_touching_wires_exact(init, nodes, e);
        let rest = touching_wires(init, nodes);
        let (l, w) = wires.last();
        let last = wires.len() - 1;
        if exists|j: int|
            0 <= j < wires.len() && #[trigger] wires[j].0 == e && (nodes.contains(wires[j].1.a)
                || nodes.contains(wires[j].1.b)) {
            let j = choose|j: int|
                0 <= j < wires.len() && #[trigger] wires[j].0 == e && (nodes.contains(wires[j].1.a)
                    || nodes.contains(wires[j].1.b));
            if j < last {
                assert(init[j] == wires[j]);
                assert(rest.contains(e));
                if nodes.contains(w.a) || nodes.contains(w.b) {
                    assert(rest.push(l)[rest.index_of(e)] == e);
                }
            } else {
                assert(rest.push(l)[rest.len() as int] == e);
            }
        }
        if touching_wires(wires, nodes).contains(e) {
            if rest.contains(e) {
                let j = choose|j: int|
                    0 <= j < init.len() && #[trigger] init[j].0 == e && (nodes.contains(init[j].1.a)
                        || nodes.contains(init[j].1.b));
                assert(wires[j] == init[j]);
            } else {
                let t = touching_wires(wires, nodes);
                let k = choose|k: int| 0 <= k < t.len() && t[k] == e;
                if k < rest.len() {
                    assert(t[k] == rest[k]);
                }
                assert(wires[last].0 == e);
            }
        }
    }
}

/// Pressing the slot of an item and then releasing the pointer (or leaving
/// the slot) drops that item on the scene and clears the selection.
pub proof fn lemma_press_then_release_drops(
    selected: Option<usize>,
    slot: usize,
    next: SlotInteraction,
    other: usize,
)
    requires
        next != SlotInteraction::Pressed,
    ensures
        slot_step(slot_step(selected, SlotInteraction::Pressed, slot).0, next, other) == (
            None::<usize>,
            Some(slot),
        ),
{
}

/// Two clicks on the same input gate, the second soon enough after the first,
/// make it wait for a key; a click elsewhere never does.
pub proof fn lemma_double_click(last: Option<u64>, e: u64)
    ensures
        click_outcome(last, Some(e), false) == ClickOutcome::Remember(e),
        click_outcome(Some(e), Some(e), true) == ClickOutcome::StartEditing(e),
        click_outcome(last, None, true) == ClickOutcome::StopEditing,
{
}

/// An input gate emits its level while its key is held: each of its output
/// nodes carries, after the first pass, the level of the last source that
/// lists it.
pub proof fn lemma_source_drives_its_nodes(
    nodes: Seq<CircuitNode>,
    sources: Seq<InputSource>,
    wires: Seq<Wire>,
    i: int,
)
    requires
        0 <= i < nodes.len(),
        nodes[i].kind == NodeKind::Output,
        source_value(sources, nodes[i].entity) is Some,
    ensures
        signals_updated(nodes, sources, wires)[i].node.active == source_value(
            sources,
            nodes[i].entity,
        )->0,
{
    let s = sources_applied(inputs_reset(nodes), sources);
    lemma_propagation_keeps_outputs(s, wires);
    assert(s[i].kind == NodeKind::Output);
}

/// A key's label is at most three characters long.
pub proof fn lemma_key_label_short(name: Seq<char>)
    ensures
        key_label(name).len() <= 3,
{
    match special_label(name) {
        Some(_) => {},
        None => {},
    }
}

/// A wire that joins two output nodes, or two nodes of which neither is an
/// output, or that has an end which is no node, changes nothing.
pub proof fn lemma_inert_wire(nodes: Seq<CircuitNode>, wires: Seq<Wire>, w: Wire)
    requires
        (has_kind(nodes, w.a, NodeKind::Output) && has_kind(nodes, w.b, NodeKind::Output)) || (
        !has_kind(nodes, w.a, NodeKind::Output) && !has_kind(nodes, w.b, NodeKind::Output))
            || !is_node(nodes, w.a) || !is_node(nodes, w.b),
    ensures
        propagated(nodes, wires.push(w)) == propagated(nodes, wires),
{
    let more = wires.push(w);
    assert forall|i: int| 0 <= i < nodes.len() implies receives_signal(
        nodes,
        more,
        nodes[i].entity,
    ) == receives_signal(nodes, wires, nodes[i].entity) by {
        let e = nodes[i].entity;
        assert(is_node(nodes, e));
        if !is_node(nodes, w.a) {
            assert(!has_kind(nodes, w.a, NodeKind::Output));
        }
        if !is_node(nodes, w.b) {
            assert(!has_kind(nodes, w.b, NodeKind::Output));
        }
        assert(wire_signal(nodes, w) != Some((e, true)));
        if receives_signal(nodes, more, e) {
            let j = choose|j: int|
                0 <= j < more.len() && #[trigger] wire_signal(nodes, more[j]) == Some((e, true));
            assert(j < wires.len());
            assert(more[j] == wires[j]);
        }
        if receives_signal(nodes, wires, e) {
            let j = choose|j: int|
                0 <= j < wires.len() && #[trigger] wire_signal(nodes, wires[j]) == Some((e, true));
            assert(more[j] == wires[j]);
        }
    }
    assert(propagated(nodes, more) =~= propagated(nodes, wires));
}

/// The selection of the menu after the first `n` changes of interaction of
/// `events` (each a new interaction and the slot's item), starting with none.
pub open spec fn selection_after(events: Seq<(SlotInteraction, usize)>, n: nat) -> Option<usize>
    decreases n,
{
    if n == 0 {
        None
    } else {
        slot_step(selection_after(events, (n - 1) as nat), events[n - 1].0, events[n - 1].1).0
    }
}

/// The item dropped on the scene at the `k`-th change of interaction.
pub open spec fn drop_at(events: Seq<(SlotInteraction, usize)>, k: int) -> Option<usize> {
    slot_step(selection_after(events, k as nat), events[k].0, events[k].1).1
}

proof fn lemma_selection_after(events: Seq<(SlotInteraction, usize)>, n: nat)
    requires
        n <= events.len(),
    ensures
        selection_after(events, n) == (if n > 0 && events[n - 1].0 == SlotInteraction::Pressed {
            Some(events[n - 1].1)
        } else {
            None
        }),
{
}

/// Over any run of the menu that starts with nothing selected, an item is
/// dropped exactly when the pointer leaves or releases a slot right after
/// pressing the slot of that item.
pub proof fn lemma_drop_follows_its_press(events: Seq<(SlotInteraction, usize)>, k: int, id: usize)
    requires
        0 <= k < events.len(),
    ensures
        drop_at(events, k) == Some(id) <==> (k > 0 && events[k - 1] == (SlotInteraction::Pressed, id)
            && events[k].0 != SlotInteraction::Pressed),
{
    lemma_selection_after(events, k as nat);
}

/// Each press yields at most one drop: between two drops there is always a
/// new press.
pub proof fn lemma_one_drop_per_press(events: Seq<(SlotInteraction, usize)>, k1: int, k2: int)
    requires
        0 <= k1 < k2 < events.len(),
        drop_at(events, k1) is Some,
        drop_at(events, k2) is Some,
    ensures
        exists|p: int| k1 < p < k2 && #[trigger] events[p].0 == SlotInteraction::Pressed,
{
    lemma_drop_follows_its_press(events, k1, drop_at(events, k1)->0);
    lemma_drop_follows_its_press(events, k2, drop_at(events, k2)->0);
    assert(events[k2 - 1].0 == SlotInteraction::Pressed);
}

/// A key's label is never empty, unless the key's name is made only of the
/// words `Key` and `Digit`.
pub proof fn lemma_key_label_nonempty(name: Seq<char>)
    requires
        special_label(name) is Some || without(
            without(name, seq!['K', 'e', 'y']),
            seq!['D', 'i', 'g', 'i', 't'],
        ).len() > 0,
    ensures
        key_label(name).len() >= 1,
{
}

/// The first pass of a frame resets only input nodes: an output node that no
/// source drives comes out of it unchanged, so a gate's output computed at
/// the previous frame still feeds the gates downstream.
pub proof fn lemma_first_pass_keeps_outputs(
    nodes: Seq<CircuitNode>,
    sources: Seq<InputSource>,
    wires: Seq<Wire>,
    i: int,
)
    requires
        0 <= i < nodes.len(),
        nodes[i].kind == NodeKind::Output,
        source_value(sources, nodes[i].entity) is None,
    ensures
        signals_updated(nodes, sources, wires)[i] == nodes[i],
{
    let s = sources_applied(inputs_reset(nodes), sources);
    lemma_propagation_keeps_outputs(s, wires);
    assert(s[i] == nodes[i]);
}

/// In the first pass, an input node wired to an active output node that no
/// source drives becomes active, whichever way the wire was drawn.
pub proof fn lemma_first_pass_feeds_inputs(
    nodes: Seq<CircuitNode>,
    sources: Seq<InputSource>,
    wires: Seq<Wire>,
    o: int,
    k: int,
    j: int,
)
    requires
        distinct_entities(nodes),
        0 <= o < nodes.len(),
        0 <= k < nodes.len(),
        0 <= j < wires.len(),
        nodes[o].kind == NodeKind::Output,
        nodes[o].node.active,
        source_value(sources, nodes[o].entity) is None,
        nodes[k].kind == NodeKind::Input,
        wires[j] == (Wire { a: nodes[o].entity, b: nodes[k].entity }) || wires[j] == (Wire {
            a: nodes[k].entity,
            b: nodes[o].entity,
        }),
    ensures
        signals_updated(nodes, sources, wires)[k].node.active,
{
    let s = sources_applied(inputs_reset(nodes), sources);
    let eo = nodes[o].entity;
    let ek = nodes[k].entity;
    assert(s[o] == nodes[o]);
    assert(s[k].entity == ek && s[k].kind == NodeKind::Input);
    assert(has_kind(s, eo, NodeKind::Output));
    assert(is_active(s, eo));
    assert(o != k);
    if has_kind(s, ek, NodeKind::Output) {
        let m = choose|m: int|
            0 <= m < s.len() && #[trigger] s[m].entity == ek && s[m].kind == NodeKind::Output;
        assert(s[m].entity == nodes[m].entity);
        assert(m == k);
    }
    assert(wire_signal(s, wires[j]) == Some((ek, true)));
    assert(receives_signal(s, wires, ek));
}

/// A click on no input gate always makes every gate stop waiting for a key,
/// however long ago the last click was.
pub proof fn lemma_click_elsewhere_stops_editing(last: Option<u64>, recent: bool)
    ensures
        click_outcome(last, None, recent) == ClickOutcome::StopEditing,
{
}

/// No two gates of the list share a node.
pub open spec fn disjoint_gates(gates: Seq<Seq<u64>>) -> bool {
    forall|j: int, k: int, c: u64|
        0 <= j < gates.len() && 0 <= k < gates.len() && j != k && #[trigger] gates[j].contains(c)
            ==> !#[trigger] gates[k].contains(c)
}

proof fn lemma_output_in_children(nodes: Seq<CircuitNode>, children: Seq<u64>)
    ensures
        output_of(nodes, children) matches Some(o) ==> children.contains(o),
    decreases children.len(),
{
    if children.len() > 0 {
        lemma_output_in_children(nodes, children.drop_last());
        if let Some(o) = output_of(nodes, children.drop_last()) {
            if !has_kind(nodes, children.last(), NodeKind::Output) {
                let m = choose|m: int|
                    0 <= m < children.drop_last().len() && children.drop_last()[m] == o;
                assert(children[m] == o);
            }
        }
        if has_kind(nodes, children.last(), NodeKind::Output) {
            assert(children[children.len() - 1] == children.last());
        }
    }
}

/// A gate's counts and output depend only on the kinds of the nodes and on
/// the levels of its own children.
proof fn lemma_gate_reads_only_children(n1: Seq<CircuitNode>, n2: Seq<CircuitNode>, children: Seq<u64>)
    requires
        forall|e: u64, k: NodeKind| has_kind(n1, e, k) == has_kind(n2, e, k),
        forall|c: u64| children.contains(c) ==> is_active(n1, c) == is_active(n2, c),
    ensures
        output_of(n1, children) == output_of(n2, children),
        input_count(n1, children) == input_count(n2, children),
        active_input_count(n1, children) == active_input_count(n2, children),
    decreases children.len(),
{
    if children.len() > 0 {
        let init = children.drop_last();
        assert forall|c: u64| init.contains(c) implies is_active(n1, c) == is_active(n2, c) by {
            let m = choose|m: int| 0 <= m < init.len() && init[m] == c;
            assert(children[m] == c);
        }
        lemma_gate_reads_only_children(n1, n2, init);
        assert(children[children.len() - 1] == children.last());
        assert(children.contains(children.last()));
    }
}

proof fn lemma_same_layout_kinds(n1: Seq<CircuitNode>, n2: Seq<CircuitNode>)
    requires
        same_layout(n1, n2),
    ensures
        forall|e: u64, k: NodeKind| has_kind(n1, e, k) == has_kind(n2, e, k),
{
    assert forall|e: u64, k: NodeKind| has_kind(n1, e, k) == has_kind(n2, e, k) by {
        if has_kind(n1, e, k) {
            let i = choose|i: int| 0 <= i < n1.len() && #[trigger] n1[i].entity == e && n1[i].kind == k;
            assert(n2[i].entity == e);
        }
        if has_kind(n2, e, k) {
            let i = choose|i: int| 0 <= i < n2.len() && #[trigger] n2[i].entity == e && n2[i].kind == k;
            assert(n1[i].entity == e);
        }
    }
}

/// The gates of a list with no shared node, applied in turn: every node that
/// belongs to no gate keeps its level, and the output of every gate takes
/// the level its logic gives from the levels before the call.
proof fn lemma_gates_applied_each(nodes: Seq<CircuitNode>, gates: Seq<Seq<u64>>, kind: GateKind)
    requires
        distinct_entities(nodes),
        disjoint_gates(gates),
    ensures
        same_layout(nodes, gates_applied(nodes, gates, kind)),
        forall|i: int|
            0 <= i < nodes.len() && (forall|j: int|
                0 <= j < gates.len() ==> !(#[trigger] gates[j]).contains(nodes[i].entity))
                ==> #[trigger] gates_applied(nodes, gates, kind)[i] == nodes[i],
        forall|i: int, j: int|
            0 <= i < nodes.len() && 0 <= j < gates.len() && output_of(nodes, #[trigger] gates[j])
                == Some(nodes[i].entity) ==> #[trigger] gates_applied(nodes, gates, kind)[i]
                == with_active(
                nodes[i],
                gate_output(
                    kind,
                    active_input_count(nodes, gates[j]),
                    input_count(nodes, gates[j]),
                ),
            ),
    decreases gates.len(),
{
    if gates.len() > 0 {
        let init = gates.drop_last();
        let last = gates.last();
        let lj = gates.len() - 1;
        assert(last == gates[lj]);
        assert forall|j: int, k: int, c: u64|
            0 <= j < init.len() && 0 <= k < init.len() && j != k && #[trigger] init[j].contains(c)
                implies !#[trigger] init[k].contains(c) by {
            assert(init[j] == gates[j] && init[k] == gates[k]);
        }
        lemma_gates_applied_each(nodes, init, kind);
        let r = gates_applied(nodes, init, kind);
        let res = gates_applied(nodes, gates, kind);
        assert(res == gate_applied(r, last, kind));
        lemma_same_layout_kinds(nodes, r);
        // The last gate reads the same levels in `r` as in `nodes`.
        assert forall|c: u64| last.contains(c) implies is_active(r, c) == is_active(nodes, c) by {
            if is_active(r, c) {
                let m = choose|m: int| 0 <= m < r.len() && #[trigger] r[m].entity == c && r[m].node.active;
                assert(nodes[m].entity == c);
                assert forall|j: int| 0 <= j < init.len() implies !(#[trigger] init[j]).contains(
                    nodes[m].entity,
                ) by {
                    assert(init[j] == gates[j]);
                }
                assert(r[m] == nodes[m]);
            }
            if is_active(nodes, c) {
                let m = choose|m: int|
                    0 <= m < nodes.len() && #[trigger] nodes[m].entity == c && nodes[m].node.active;
                assert forall|j: int| 0 <= j < init.len() implies !(#[trigger] init[j]).contains(
                    nodes[m].entity,
                ) by {
                    assert(init[j] == gates[j]);
                }
                assert(r[m] == nodes[m]);
                assert(r[m].entity == c);
            }
        }
        lemma_gate_reads_only_children(r, nodes, last);
        lemma_output_in_children(nodes, last);
        let v = gate_output(kind, active_input_count(nodes, last), input_count(nodes, last));
        assert(same_layout(nodes, res)) by {
            assert forall|i: int| 0 <= i < nodes.len() implies #[trigger] res[i].entity
                == nodes[i].entity && res[i].kind == nodes[i].kind by {
                assert(r[i].entity == nodes[i].entity);
            }
        }
        assert forall|i: int|
            0 <= i < nodes.len() && (forall|j: int|
                0 <= j < gates.len() ==> !(#[trigger] gates[j]).contains(nodes[i].entity))
                implies #[trigger] res[i] == nodes[i] by {
            assert(!gates[lj].contains(nodes[i].entity));
            assert forall|j: int| 0 <= j < init.len() implies !(#[trigger] init[j]).contains(
                nodes[i].entity,
            ) by {
                assert(init[j] == gates[j]);
            }
            assert(r[i] == nodes[i]);
        }
        assert forall|i: int, j: int|
            0 <= i < nodes.len() && 0 <= j < gates.len() && output_of(nodes, #[trigger] gates[j])
                == Some(nodes[i].entity) implies #[trigger] res[i] == with_active(
            nodes[i],
            gate_output(kind, active_input_count(nodes, gates[j]), input_count(nodes, gates[j])),
        ) by {
            lemma_output_in_children(nodes, gates[j]);
            if j == lj {
                assert(res[i] == with_active(r[i], v));
                assert(r[i].entity == nodes[i].entity);
            } else {
                assert(init[j] == gates[j]);
                assert(r[i] == with_active(
                    nodes[i],
                    gate_output(kind, active_input_count(nodes, init[j]), input_count(nodes, init[j])),
                ));
                assert(gates[j].contains(nodes[i].entity));
                assert(!last.contains(nodes[i].entity));
                if output_of(r, last) is Some {
                    let o = output_of(r, last)->0;
                    assert(last.contains(o));
                    assert(r[i].entity != o);
                }
            }
        }
    }
}

/// Every AND gate of the list is computed, whatever its place in the list:
/// when no two gates share a node, the output of each is active exactly when
/// all its inputs were active before the call.
pub proof fn lemma_every_and_gate_computed(
    nodes: Seq<CircuitNode>,
    gates: Seq<Seq<u64>>,
    j: int,
    i: int,
)
    requires
        distinct_entities(nodes),
        disjoint_gates(gates),
        0 <= j < gates.len(),
        0 <= i < nodes.len(),
        output_of(nodes, gates[j]) == Some(nodes[i].entity),
    ensures
        gates_applied(nodes, gates, GateKind::And)[i] == with_active(
            nodes[i],
            all_inputs_active(nodes, gates[j]),
        ),
{
    lemma_gates_applied_each(nodes, gates, GateKind::And);
    lemma_count_all(nodes, gates[j]);
}

/// Every NOT gate of the list is computed, whatever its place in the list:
/// when no two gates share a node, the output of each is active exactly when
/// none of its inputs was active before the call.
pub proof fn lemma_every_not_gate_computed(
    nodes: Seq<CircuitNode>,
    gates: Seq<Seq<u64>>,
    j: int,
    i: int,
)
    requires
        distinct_entities(nodes),
        disjoint_gates(gates),
        0 <= j < gates.len(),
        0 <= i < nodes.len(),
        output_of(nodes, gates[j]) == Some(nodes[i].entity),
    ensures
        gates_applied(nodes, gates, GateKind::Not)[i] == with_active(
            nodes[i],
            no_input_active(nodes, gates[j]),
        ),
{
    lemma_gates_applied_each(nodes, gates, GateKind::Not);
    lemma_count_all(nodes, gates[j]);
}

/// Each key of the fixed table gets its fixed label; the left and right
/// variants of Shift, Control and Alt share one.
pub proof fn lemma_fixed_key_labels()
    ensures
        key_label(seq!['S', 'p', 'a', 'c', 'e']) == seq!['S', 'P', 'C'],
        key_label(seq!['E', 'n', 't', 'e', 'r']) == seq!['E', 'N', 'T'],
        key_label(seq!['B', 'a', 'c', 'k', 's', 'p', 'a', 'c', 'e']) == seq!['B', 'S', 'P'],
        key_label(seq!['A', 'r', 'r', 'o', 'w', 'U', 'p']) == seq!['\u{2191}'],
        key_label(seq!['A', 'r', 'r', 'o', 'w', 'D', 'o', 'w', 'n']) == seq!['\u{2193}'],
        key_label(seq!['A', 'r', 'r', 'o', 'w', 'L', 'e', 'f', 't']) == seq!['\u{2190}'],
        key_label(seq!['A', 'r', 'r', 'o', 'w', 'R', 'i', 'g', 'h', 't']) == seq!['\u{2192}'],
        key_label(seq!['S', 'h', 'i', 'f', 't', 'L', 'e', 'f', 't']) == seq!['S', 'H', 'F'],
        key_label(seq!['S', 'h', 'i', 'f', 't', 'R', 'i', 'g', 'h', 't']) == seq!['S', 'H', 'F'],
        key_label(seq!['C', 'o', 'n', 't', 'r', 'o', 'l', 'L', 'e', 'f', 't']) == seq!['C', 'T', 'L'],
        key_label(seq!['C', 'o', 'n', 't', 'r', 'o', 'l', 'R', 'i', 'g', 'h', 't']) == seq!['C', 'T', 'L'],
        key_label(seq!['A', 'l', 't', 'L', 'e', 'f', 't']) == seq!['A', 'L', 'T'],
        key_label(seq!['A', 'l', 't', 'R', 'i', 'g', 'h', 't']) == seq!['A', 'L', 'T'],
{
}

} // verus!
