//! Boolean logic of the gates, applied to their connection nodes.
use vstd::prelude::*;

use crate::circuit::{
    distinct_entities, has_kind, is_active, lemma_same_layout_distinct, node_has_kind,
    node_is_active, same_layout, set_active, set_node_active, CircuitNode, NodeKind,
};

verus! {

/// The gates whose logic the circuit knows.
#[derive(Clone, Copy, Debug, PartialEq, Eq, Structural)]
pub enum GateKind {
    /// Output active only when every input is active.
    And,
    /// Inverter: output active when its input is not.
    Not,
}

/// A gate's output level, from the number of its active inputs and the
/// number of its inputs.
pub open spec fn gate_output(kind: GateKind, active: nat, total: nat) -> bool {
    match kind {
        GateKind::And => active == total,
        GateKind::Not => active == 0,
    }
}

/// Number of the children that are input nodes.
pub open spec fn input_count(nodes: Seq<CircuitNode>, children: Seq<u64>) -> nat
    decreases children.len(),
{
    if children.len() == 0 {
        0
    } else {
        input_count(nodes, children.drop_last()) + if has_kind(
            nodes,
            children.last(),
            NodeKind::Input,
        ) {
            1nat
        } else {
            0nat
        }
    }
}

/// Number of the children that are active input nodes.
pub open spec fn active_input_count(nodes: Seq<CircuitNode>, children: Seq<u64>) -> nat
    decreases children.len(),
{
    if children.len() == 0 {
        0
    } else {
        active_input_count(nodes, children.drop_last()) + if has_kind(
            nodes,
            children.last(),
            NodeKind::Input,
        ) && is_active(nodes, children.last()) {
            1nat
        } else {
            0nat
        }
    }
}

/// The last child that is an output node.
pub open spec fn output_of(nodes: Seq<CircuitNode>, children: Seq<u64>) -> Option<u64>
    decreases children.len(),
{
    if children.len() == 0 {
        None
    } else if has_kind(nodes, children.last(), NodeKind::Output) {
        Some(children.last())
    } else {
        output_of(nodes, children.drop_last())
    }
}

/// The nodes after a gate of kind `kind` with children `children` has set
/// its output; when it has no output node nothing changes.
pub open spec fn gate_applied(nodes: Seq<CircuitNode>, children: Seq<u64>, kind: GateKind) -> Seq<
    CircuitNode,
> {
    match output_of(nodes, children) {
        None => nodes,
        Some(out) => set_active(
            nodes,
            out,
            gate_output(kind, active_input_count(nodes, children), input_count(nodes, children)),
        ),
    }
}

/// The gates of kind `kind`, taken in order, each applied to the levels the
/// previous ones left.
pub open spec fn gates_applied(nodes: Seq<CircuitNode>, gates: Seq<Seq<u64>>, kind: GateKind) -> Seq<
    CircuitNode,
>
    decreases gates.len(),
{
    if gates.len() == 0 {
        nodes
    } else {
        gate_applied(gates_applied(nodes, gates.drop_last(), kind), gates.last(), kind)
    }
}

/// Logic of an AND gate: active when every input is.
pub fn and_gate_logic(active: usize, total: usize) -> (r: bool)
    ensures
        r == gate_output(GateKind::And, active as nat, total as nat),
{
    active == total
}

/// Logic of a NOT gate: active when no input is.
pub fn not_gate_logic(active: usize, total: usize) -> (r: bool)
    ensures
        r == gate_output(GateKind::Not, active as nat, total as nat),
{
    active == 0
}

pub proof fn lemma_counts_bounded(nodes: Seq<CircuitNode>, children: Seq<u64>)
    ensures
        active_input_count(nodes, children) <= input_count(nodes, children),
        input_count(nodes, children) <= children.len(),
    decreases children.len(),
{
    if children.len() > 0 {
        lemma_counts_bounded(nodes, children.drop_last());
    }
}

/// Applies the logic of a gate to its children: counts its input nodes and
/// the active ones among them, and sets its output node to what `logic`
/// answers for `(active inputs, inputs)`.  `logic` is called only when the
/// gate has an output node.
pub fn apply_gate_logic<F: Fn(usize, usize) -> bool>(
    children: &Vec<u64>,
    nodes: &mut Vec<CircuitNode>,
    logic: F,
)
    requires
        distinct_entities(old(nodes)@),
        forall|active: usize, total: usize| #[trigger] logic.requires((active, total)),
    ensures
        output_of(old(nodes)@, children@) is None ==> final(nodes)@ == old(nodes)@,
        output_of(old(nodes)@, children@) matches Some(out) ==> exists|v: bool|
            #[trigger] logic.ensures(
                (
                    active_input_count(old(nodes)@, children@) as usize,
                    input_count(old(nodes)@, children@) as usize,
                ),
                v,
            ) && final(nodes)@ == set_active(old(nodes)@, out, v),
{
    let ghost pre = nodes@;
    let mut inputs: usize = 0;
    let mut active: usize = 0;
    let mut output: Option<u64> = None;
    let mut i: usize = 0;
    while i < children.len()
        invariant
            distinct_entities(nodes@),
            i <= children.len(),
            inputs == input_count(nodes@, children@.take(i as int)),
            active == active_input_count(nodes@, children@.take(i as int)),
            output == output_of(nodes@, children@.take(i as int)),
        decreases children.len() - i,
    {
        proof {
            lemma_counts_bounded(nodes@, children@.take(i as int));
            assert(children@.take(i + 1).drop_last() =~= children@.take(i as int));
        }
        let c = children[i];
        if node_has_kind(nodes, c, NodeKind::Input) {
            inputs = inputs + 1;
            if node_is_active(nodes, c) {
                active = active + 1;
            }
        } else if node_has_kind(nodes, c, NodeKind::Output) {
            output = Some(c);
        }
        proof {
            if has_kind(nodes@, c, NodeKind::Input) && has_kind(nodes@, c, NodeKind::Output) {
                let a = choose|a: int|
                    0 <= a < nodes@.len() && #[trigger] nodes@[a].entity == c && nodes@[a].kind
                        == NodeKind::Input;
                let b = choose|b: int|
                    0 <= b < nodes@.len() && #[trigger] nodes@[b].entity == c && nodes@[b].kind
                        == NodeKind::Output;
                assert(a != b);
            }
        }
        i = i + 1;
    }
    assert(children@.take(children.len() as int) =~= children@);
    match output {
        Some(out) => {
            let v = logic(active, inputs);
            set_node_active(nodes, out, v);
            assert(logic.ensures(
                (active_input_count(pre, children@) as usize, input_count(pre, children@) as usize),
                v,
            ));
        },
        None => {},
    }
}

/// Applies the logic of every gate of kind `kind`, one after the other.
pub fn compute_gates(gates: &Vec<Vec<u64>>, nodes: &mut Vec<CircuitNode>, kind: GateKind)
    requires
        distinct_entities(old(nodes)@),
    ensures
        final(nodes)@ == gates_applied(old(nodes)@, gates.deep_view(), kind),
{
    let ghost pre = nodes@;
    let mut j: usize = 0;
    while j < gates.len()
        invariant
            distinct_entities(pre),
            j <= gates.len(),
            nodes@ == gates_applied(pre, gates.deep_view().take(j as int), kind),
            same_layout(pre, nodes@),
        decreases gates.len() - j,
    {
        proof {
            lemma_same_layout_distinct(pre, nodes@);
        }
        let ghost before = nodes@;
        match kind {
            GateKind::And => apply_gate_logic(&gates[j], nodes, and_gate_logic),
            GateKind::Not => apply_gate_logic(&gates[j], nodes, not_gate_logic),
        }
        proof {
            let g = gates@[j as int]@;
            lemma_counts_bounded(before, g);
            let a = active_input_count(before, g);
            let t = input_count(before, g);
            assert(g.len() == gates@[j as int].len());
            assert(a <= t <= usize::MAX);
            assert((a as usize) as nat == a && (t as usize) as nat == t);
            if let Some(out) = output_of(before, g) {
                match kind {
                    GateKind::And => {
                        let v = choose|v: bool|
                            #[trigger] and_gate_logic.ensures((a as usize, t as usize), v)
                                && nodes@ == set_active(before, out, v);
                        assert(v == gate_output(kind, a, t));
                    },
                    GateKind::Not => {
                        let v = choose|v: bool|
                            #[trigger] not_gate_logic.ensures((a as usize, t as usize), v)
                                && nodes@ == set_active(before, out, v);
                        assert(v == gate_output(kind, a, t));
                    },
                }
            }
            assert(gates.deep_view().take(j + 1).drop_last() =~= gates.deep_view().take(j as int));
            assert(gates.deep_view()[j as int] == gates@[j as int]@);
            assert(nodes@ =~= gates_applied(pre, gates.deep_view().take(j + 1), kind));
        }
        j = j + 1;
    }
    assert(gates.deep_view().take(gates.len() as int) =~= gates.deep_view());
}

/// Computes the output of every AND gate: active when all its inputs are.
pub fn compute_and_gate(gates: &Vec<Vec<u64>>, nodes: &mut Vec<CircuitNode>)
    requires
        distinct_entities(old(nodes)@),
    ensures
        final(nodes)@ == gates_applied(old(nodes)@, gates.deep_view(), GateKind::And),
{
    compute_gates(gates, nodes, GateKind::And);
}

/// Computes the output of every NOT gate: active when its single input is not.
pub fn compute_not_gate(gates: &Vec<Vec<u64>>, nodes: &mut Vec<CircuitNode>)
    requires
        distinct_entities(old(nodes)@),
    ensures
        final(nodes)@ == gates_applied(old(nodes)@, gates.deep_view(), GateKind::Not),
{
    compute_gates(gates, nodes, GateKind::Not);
}

/// Whether an output light shines: some input node among its children is
/// active.
pub fn update_output_light(children: &Vec<u64>, nodes: &Vec<CircuitNode>) -> (r: bool)
    requires
        distinct_entities(nodes@),
    ensures
        r == exists|k: int|
            0 <= k < children.len() && has_kind(nodes@, #[trigger] children@[k], NodeKind::Input)
                && is_active(nodes@, children@[k]),
{
    let mut i: usize = 0;
    while i < children.len()
        invariant
            distinct_entities(nodes@),
            i <= children.len(),
            forall|k: int|
                0 <= k < i ==> !(has_kind(nodes@, #[trigger] children@[k], NodeKind::Input)
                    && is_active(nodes@, children@[k])),
        decreases children.len() - i,
    {
        let c = children[i];
        if node_has_kind(nodes, c, NodeKind::Input) && node_is_active(nodes, c) {
            return true;
        }
        i = i + 1;
    }
    false
}

} // verus!
