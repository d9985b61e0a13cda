//! The circuit as plain data: connection nodes, their kinds and levels, and
//! the wires between them.  Entities are identified by their 64-bit ids.
use vstd::prelude::*;

verus! {

/// Kind of a connection node.
#[derive(Clone, Copy, Debug, PartialEq, Eq, Structural)]
pub enum NodeKind {
    /// Receives a signal from another gate through a wire.
    Input,
    /// Emits the signal computed by its gate.
    Output,
}

/// Level of a connection node.
#[derive(Clone, Copy, Debug, PartialEq, Eq, Structural)]
pub struct Node {
    /// `true` when the node carries an active (high) signal.
    pub active: bool,
}

/// Electrical connection between two nodes.
#[derive(Clone, Copy, Debug, PartialEq, Eq, Structural)]
pub struct Wire {
    /// First end of the wire.
    pub a: u64,
    /// Second end of the wire.
    pub b: u64,
}

/// A connection node together with the entity that carries it and its kind.
#[derive(Clone, Copy, Debug, PartialEq, Eq, Structural)]
pub struct CircuitNode {
    pub entity: u64,
    pub kind: NodeKind,
    pub node: Node,
}

/// No two nodes share an entity.
pub open spec fn distinct_entities(nodes: Seq<CircuitNode>) -> bool {
    forall|i: int, j: int|
        0 <= i < nodes.len() && 0 <= j < nodes.len() && i != j ==> #[trigger] nodes[i].entity
            != #[trigger] nodes[j].entity
}

/// The entity `e` is a node of kind `kind`.
pub open spec fn has_kind(nodes: Seq<CircuitNode>, e: u64, kind: NodeKind) -> bool {
    exists|i: int| 0 <= i < nodes.len() && #[trigger] nodes[i].entity == e && nodes[i].kind == kind
}

/// The entity `e` is a node that carries an active signal.
pub open spec fn is_active(nodes: Seq<CircuitNode>, e: u64) -> bool {
    exists|i: int| 0 <= i < nodes.len() && #[trigger] nodes[i].entity == e && nodes[i].node.active
}

/// The node `n` with its level replaced by `active`.
pub open spec fn with_active(n: CircuitNode, active: bool) -> CircuitNode {
    CircuitNode { entity: n.entity, kind: n.kind, node: Node { active } }
}

/// `after` holds the same nodes as `before`, in the same order and with the
/// same kinds; only levels may differ.
pub open spec fn same_layout(before: Seq<CircuitNode>, after: Seq<CircuitNode>) -> bool {
    &&& after.len() == before.len()
    &&& forall|i: int|
        0 <= i < before.len() ==> #[trigger] after[i].entity == before[i].entity && after[i].kind
            == before[i].kind
}

/// Every node whose entity is `e` set to level `v`; the others unchanged.
pub open spec fn set_active(nodes: Seq<CircuitNode>, e: u64, v: bool) -> Seq<CircuitNode> {
    Seq::new(
        nodes.len(),
        |i: int|
            if nodes[i].entity == e {
                with_active(nodes[i], v)
            } else {
                nodes[i]
            },
    )
}

pub proof fn lemma_same_layout_distinct(before: Seq<CircuitNode>, after: Seq<CircuitNode>)
    requires
        distinct_entities(before),
        same_layout(before, after),
    ensures
        distinct_entities(after),
{
    assert forall|i: int, j: int|
        0 <= i < after.len() && 0 <= j < after.len() && i != j implies #[trigger] after[i].entity
        != #[trigger] after[j].entity by {
        assert(after[i].entity == before[i].entity);
        assert(after[j].entity == before[j].entity);
    }
}

/// Index of the first node carried by `entity`, if there is one.
pub fn find_node(nodes: &Vec<CircuitNode>, entity: u64) -> (r: Option<usize>)
    ensures
        match r {
            Some(i) => i < nodes.len() && nodes@[i as int].entity == entity && forall|k: int|
                0 <= k < i ==> #[trigger] nodes@[k].entity != entity,
            None => forall|i: int| 0 <= i < nodes.len() ==> #[trigger] nodes@[i].entity != entity,
        },
{
    let mut i: usize = 0;
    while i < nodes.len()
        invariant
            i <= nodes.len(),
            forall|k: int| 0 <= k < i ==> #[trigger] nodes@[k].entity != entity,
        decreases nodes.len() - i,
    {
        if nodes[i].entity == entity {
            return Some(i);
        }
        i = i + 1;
    }
    None
}

/// Whether `entity` is a node of kind `kind`.
pub fn node_has_kind(nodes: &Vec<CircuitNode>, entity: u64, kind: NodeKind) -> (r: bool)
    requires
        distinct_entities(nodes@),
    ensures
        r == has_kind(nodes@, entity, kind),
{
    match find_node(nodes, entity) {
        Some(i) => {
            let k = nodes[i].kind;
            let r = match (k, kind) {
                (NodeKind::Input, NodeKind::Input) => true,
                (NodeKind::Output, NodeKind::Output) => true,
                _ => false,
            };
            proof {
                if has_kind(nodes@, entity, kind) {
                    let j = choose|j: int|
                        0 <= j < nodes@.len() && #[trigger] nodes@[j].entity == entity
                            && nodes@[j].kind == kind;
                    assert(j == i);
                }
            }
            r
        },
        None => false,
    }
}

/// Whether `entity` is a node carrying an active signal.
pub fn node_is_active(nodes: &Vec<CircuitNode>, entity: u64) -> (r: bool)
    requires
        distinct_entities(nodes@),
    ensures
        r == is_active(nodes@, entity),
{
    match find_node(nodes, entity) {
        Some(i) => {
            let r = nodes[i].node.active;
            proof {
                if is_active(nodes@, entity) {
                    let j = choose|j: int|
                        0 <= j < nodes@.len() && #[trigger] nodes@[j].entity == entity
                            && nodes@[j].node.active;
                    assert(j == i);
                }
            }
            r
        },
        None => false,
    }
}

/// Sets the level of the node carried by `entity`, when there is one.
pub fn set_node_active(nodes: &mut Vec<CircuitNode>, entity: u64, active: bool)
    requires
        distinct_entities(old(nodes)@),
    ensures
        final(nodes)@ == set_active(old(nodes)@, entity, active),
{
    match find_node(nodes, entity) {
        Some(i) => {
            let n = nodes[i];
            nodes.set(i, CircuitNode { entity: n.entity, kind: n.kind, node: Node { active } });
        },
        None => {},
    }
    assert(nodes@ =~= set_active(old(nodes)@, entity, active));
}

/// Some node is carried by `e`.
pub open spec fn is_node(nodes: Seq<CircuitNode>, e: u64) -> bool {
    exists|i: int| 0 <= i < nodes.len() && #[trigger] nodes[i].entity == e
}

/// How a wire is drawn: `None` when one of its ends is not a node (it is not
/// drawn), else whether it glows, which it does when either end is active.
pub fn wire_is_lit(w: Wire, nodes: &Vec<CircuitNode>) -> (r: Option<bool>)
    requires
        distinct_entities(nodes@),
    ensures
        r == (if is_node(nodes@, w.a) && is_node(nodes@, w.b) {
            Some(is_active(nodes@, w.a) || is_active(nodes@, w.b))
        } else {
            None
        }),
{
    match (find_node(nodes, w.a), find_node(nodes, w.b)) {
        (Some(_), Some(_)) => {
            let a = node_is_active(nodes, w.a);
            let b = node_is_active(nodes, w.b);
            Some(a || b)
        },
        _ => None,
    }
}

} // verus!
