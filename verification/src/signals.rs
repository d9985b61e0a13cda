//! Signal propagation along wires and the per-frame update of input levels.
use vstd::prelude::*;

use crate::circuit::{
    distinct_entities, has_kind, is_active, lemma_same_layout_distinct, node_has_kind,
    node_is_active, same_layout, set_node_active, with_active, CircuitNode, Node, NodeKind, Wire,
};

verus! {

/// What a wire transmits: the level of its output end, towards its other end.
/// A wire whose ends are both outputs, or neither, transmits nothing.
pub open spec fn wire_signal(nodes: Seq<CircuitNode>, w: Wire) -> Option<(u64, bool)> {
    let a_out = has_kind(nodes, w.a, NodeKind::Output);
    let b_out = has_kind(nodes, w.b, NodeKind::Output);
    if a_out && !b_out {
        Some((w.b, is_active(nodes, w.a)))
    } else if !a_out && b_out {
        Some((w.a, is_active(nodes, w.b)))
    } else {
        None
    }
}

/// Some wire brings an active signal to `e`.
pub open spec fn receives_signal(nodes: Seq<CircuitNode>, wires: Seq<Wire>, e: u64) -> bool {
    exists|j: int| 0 <= j < wires.len() && #[trigger] wire_signal(nodes, wires[j]) == Some((e, true))
}

/// One pass of propagation: every node that some wire feeds with an active
/// signal becomes active; every other node keeps its level.
pub open spec fn propagated(nodes: Seq<CircuitNode>, wires: Seq<Wire>) -> Seq<CircuitNode> {
    Seq::new(
        nodes.len(),
        |i: int|
            with_active(nodes[i], nodes[i].node.active || receives_signal(nodes, wires, nodes[i].entity)),
    )
}

/// The level that the last source listing `e` among its children gives it.
pub open spec fn source_value(sources: Seq<InputSource>, e: u64) -> Option<bool>
    decreases sources.len(),
{
    if sources.len() == 0 {
        None
    } else if sources.last().children@.contains(e) {
        Some(sources.last().active)
    } else {
        source_value(sources.drop_last(), e)
    }
}

/// Every input node set low; other nodes unchanged.
pub open spec fn inputs_reset(nodes: Seq<CircuitNode>) -> Seq<CircuitNode> {
    Seq::new(
        nodes.len(),
        |i: int|
            if nodes[i].kind == NodeKind::Input {
                with_active(nodes[i], false)
            } else {
                nodes[i]
            },
    )
}

/// Every node that some source lists takes that source's level.
pub open spec fn sources_applied(nodes: Seq<CircuitNode>, sources: Seq<InputSource>) -> Seq<
    CircuitNode,
> {
    Seq::new(
        nodes.len(),
        |i: int|
            match source_value(sources, nodes[i].entity) {
                Some(v) => with_active(nodes[i], v),
                None => nodes[i],
            },
    )
}

/// The levels after one frame's first pass: inputs reset, sources applied,
/// then one pass of propagation along the wires.
pub open spec fn signals_updated(
    nodes: Seq<CircuitNode>,
    sources: Seq<InputSource>,
    wires: Seq<Wire>,
) -> Seq<CircuitNode> {
    propagated(sources_applied(inputs_reset(nodes), sources), wires)
}

/// A signal source (a keyboard input gate): its level this frame, and the
/// nodes it drives.
pub struct InputSource {
    /// `true` while the key bound to the source is held.
    pub active: bool,
    /// The source's own connection nodes.
    pub children: Vec<u64>,
}

/// The signal of one wire, read from the current levels.
fn compute_wire_signal(nodes: &Vec<CircuitNode>, w: Wire) -> (r: Option<(u64, bool)>)
    requires
        distinct_entities(nodes@),
    ensures
        r == wire_signal(nodes@, w),
{
    let a_is_out = node_has_kind(nodes, w.a, NodeKind::Output);
    let b_is_out = node_has_kind(nodes, w.b, NodeKind::Output);
    if a_is_out && !b_is_out {
        let active = node_is_active(nodes, w.a);
        Some((w.b, active))
    } else if !a_is_out && b_is_out {
        let active = node_is_active(nodes, w.b);
        Some((w.a, active))
    } else {
        None
    }
}

/// Propagates the signals of output nodes to the input nodes wired to them.
/// The direction is always output towards input, whatever the order in which
/// the wire's ends were connected.  All signals are read before any is
/// written.
pub fn apply_wire_signals(wires: &Vec<Wire>, nodes: &mut Vec<CircuitNode>)
    requires
        distinct_entities(old(nodes)@),
    ensures
        final(nodes)@ == propagated(old(nodes)@, wires@),
{
    let ghost pre = nodes@;
    let mut signals: Vec<Option<(u64, bool)>> = Vec::new();
    let mut j: usize = 0;
    while j < wires.len()
        invariant
            nodes@ == pre,
            distinct_entities(pre),
            j <= wires.len(),
            signals.len() == j,
            forall|k: int| 0 <= k < j ==> #[trigger] signals@[k] == wire_signal(pre, wires@[k]),
        decreases wires.len() - j,
    {
        let s = compute_wire_signal(nodes, wires[j]);
        signals.push(s);
        j = j + 1;
    }
    let mut j: usize = 0;
    while j < signals.len()
        invariant
            distinct_entities(pre),
            signals.len() == wires.len(),
            forall|k: int| 0 <= k < wires.len() ==> #[trigger] signals@[k] == wire_signal(pre, wires@[k]),
            j <= signals.len(),
            same_layout(pre, nodes@),
            forall|i: int|
                0 <= i < pre.len() ==> #[trigger] nodes@[i].node.active == (pre[i].node.active
                    || exists|k: int| 0 <= k < j && #[trigger] signals@[k] == Some((pre[i].entity, true))),
        decreases signals.len() - j,
    {
        proof {
            lemma_same_layout_distinct(pre, nodes@);
        }
        let ghost before = nodes@;
        match signals[j] {
            Some((target, true)) => {
                set_node_active(nodes, target, true);
            },
            _ => {},
        }
        assert forall|i: int| 0 <= i < pre.len() implies #[trigger] nodes@[i].node.active == (
        pre[i].node.active || exists|k: int|
            0 <= k < j + 1 && #[trigger] signals@[k] == Some((pre[i].entity, true))) by {
            if signals@[j as int] == Some((pre[i].entity, true)) {
                assert(nodes@[i].node.active);
            } else {
                assert(nodes@[i].node.active == before[i].node.active);
                if exists|k: int| 0 <= k < j + 1 && #[trigger] signals@[k] == Some((pre[i].entity, true)) {
                    let k = choose|k: int|
                        0 <= k < j + 1 && #[trigger] signals@[k] == Some((pre[i].entity, true));
                    assert(k < j);
                }
            }
        }
        j = j + 1;
    }
    assert forall|i: int| 0 <= i < pre.len() implies #[trigger] nodes@[i] == propagated(
        pre,
        wires@,
    )[i] by {
        let e = pre[i].entity;
        if receives_signal(pre, wires@, e) {
            let k = choose|k: int|
                0 <= k < wires@.len() && #[trigger] wire_signal(pre, wires@[k]) == Some((e, true));
            assert(signals@[k] == Some((e, true)));
        }
        if exists|k: int| 0 <= k < j && #[trigger] signals@[k] == Some((e, true)) {
            let k = choose|k: int| 0 <= k < j && #[trigger] signals@[k] == Some((e, true));
            assert(wire_signal(pre, wires@[k]) == Some((e, true)));
        }
        assert(nodes@[i].node.active == (pre[i].node.active || receives_signal(pre, wires@, e)));
        assert(nodes@[i].entity == pre[i].entity);
        assert(nodes@[i].kind == pre[i].kind);
    }
    assert(nodes@ =~= propagated(pre, wires@));
}

/// Second pass of propagation, after the gates have computed their outputs,
/// so that the new outputs reach the inputs downstream.
pub fn propagate_wires(wires: &Vec<Wire>, nodes: &mut Vec<CircuitNode>)
    requires
        distinct_entities(old(nodes)@),
    ensures
        final(nodes)@ == propagated(old(nodes)@, wires@),
{
    apply_wire_signals(wires, nodes);
}

/// Resets every input node, applies the levels of the signal sources to their
/// nodes, then runs the first pass of propagation along the wires.
pub fn update_signals(sources: &Vec<InputSource>, wires: &Vec<Wire>, nodes: &mut Vec<CircuitNode>)
    requires
        distinct_entities(old(nodes)@),
    ensures
        final(nodes)@ == signals_updated(old(nodes)@, sources@, wires@),
{
    let ghost pre = nodes@;
    let mut i: usize = 0;
    while i < nodes.len()
        invariant
            same_layout(pre, nodes@),
            i <= nodes.len(),
            forall|k: int|
                0 <= k < pre.len() ==> #[trigger] nodes@[k] == (if k < i {
                    inputs_reset(pre)[k]
                } else {
                    pre[k]
                }),
        decreases nodes.len() - i,
    {
        let n = nodes[i];
        match n.kind {
            NodeKind::Input => {
                nodes.set(i, CircuitNode { entity: n.entity, kind: n.kind, node: Node { active: false } });
            },
            NodeKind::Output => {},
        }
        i = i + 1;
    }
    let ghost reset = nodes@;
    assert(reset =~= inputs_reset(pre));
    proof {
        lemma_same_layout_distinct(pre, reset);
    }
    let mut j: usize = 0;
    while j < sources.len()
        invariant
            reset == inputs_reset(pre),
            distinct_entities(reset),
            j <= sources.len(),
            nodes@ == sources_applied(reset, sources@.take(j as int)),
        decreases sources.len() - j,
    {
        let ghost outer = nodes@;
        let src = &sources[j];
        let mut k: usize = 0;
        while k < src.children.len()
            invariant
                distinct_entities(reset),
                outer == sources_applied(reset, sources@.take(j as int)),
                src == sources@[j as int],
                j < sources.len(),
                k <= src.children.len(),
                same_layout(reset, nodes@),
                forall|i: int|
                    0 <= i < reset.len() ==> #[trigger] nodes@[i] == (if src.children@.take(
                        k as int,
                    ).contains(reset[i].entity) {
                        with_active(reset[i], src.active)
                    } else {
                        outer[i]
                    }),
            decreases src.children.len() - k,
        {
            proof {
                lemma_same_layout_distinct(reset, nodes@);
            }
            let c = src.children[k];
            set_node_active(nodes, c, src.active);
            let ghost t0 = src.children@.take(k as int);
            let ghost t1 = src.children@.take(k + 1);
            assert(t1 =~= t0.push(c));
            assert forall|i: int| 0 <= i < reset.len() implies #[trigger] nodes@[i] == (
            if t1.contains(reset[i].entity) {
                with_active(reset[i], src.active)
            } else {
                outer[i]
            }) by {
                if t0.contains(reset[i].entity) {
                    let m = choose|m: int| 0 <= m < t0.len() && t0[m] == reset[i].entity;
                    assert(t1[m] == reset[i].entity);
                }
                if reset[i].entity == c {
                    assert(t1[k as int] == c);
                }
                if t1.contains(reset[i].entity) && reset[i].entity != c {
                    let m = choose|m: int| 0 <= m < t1.len() && t1[m] == reset[i].entity;
                    assert(t0[m] == reset[i].entity);
                }
            }
            k = k + 1;
        }
        assert(src.children@.take(src.children.len() as int) =~= src.children@);
        assert(sources@.take(j + 1).drop_last() =~= sources@.take(j as int));
        assert(nodes@ =~= sources_applied(reset, sources@.take(j + 1)));
        j = j + 1;
    }
    assert(sources@.take(sources.len() as int) =~= sources@);
    proof {
        lemma_same_layout_distinct(pre, reset);
        assert(same_layout(reset, nodes@));
        lemma_same_layout_distinct(reset, nodes@);
    }
    apply_wire_signals(wires, nodes);
}

} // verus!
