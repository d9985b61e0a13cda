//! Decisions taken on mouse input while editing the circuit: drawing wires,
//! dragging and deleting items.
use vstd::prelude::*;

use crate::circuit::Wire;

verus! {

/// The node where a wire being drawn starts, if a wire is being drawn.
pub struct PendingWire(pub Option<u64>);

/// What the mouse did this frame, as far as wire drawing is concerned.
pub enum WireEvent {
    /// No click that concerns wire drawing.
    Idle,
    /// Right click: abandon the wire being drawn.
    Cancel,
    /// Left click on no node.
    ClickEmpty,
    /// Left click on the given node.
    ClickNode(u64),
}

/// The wire-drawing state after `event`, and the wire to create, if any.
pub open spec fn wire_step(pending: Option<u64>, event: WireEvent) -> (Option<u64>, Option<Wire>) {
    match event {
        WireEvent::Idle => (pending, None),
        WireEvent::Cancel => (None, None),
        WireEvent::ClickEmpty => (None, None),
        WireEvent::ClickNode(clicked) => match pending {
            None => (Some(clicked), None),
            Some(start) => if start != clicked {
                (None, Some(Wire { a: start, b: clicked }))
            } else {
                (None, None)
            },
        },
    }
}

/// Draws wires between nodes: a first click on a node starts a wire, a click
/// on another node completes it, a click on the same node, on no node, or a
/// right click abandons it.  Returns the wire to create.
pub fn handle_wire_drawing(pending: &mut PendingWire, event: WireEvent) -> (r: Option<Wire>)
    ensures
        (final(pending).0, r) == wire_step(old(pending).0, event),
{
    match event {
        WireEvent::Idle => None,
        WireEvent::Cancel => {
            pending.0 = None;
            None
        },
        WireEvent::ClickEmpty => {
            pending.0 = None;
            None
        },
        WireEvent::ClickNode(clicked) => match pending.0 {
            None => {
                pending.0 = Some(clicked);
                None
            },
            Some(start) => {
                pending.0 = None;
                if start != clicked {
                    Some(Wire { a: start, b: clicked })
                } else {
                    None
                }
            },
        },
    }
}

/// The item being dragged and the offset between the cursor and the item
/// when it was grabbed.
pub struct DraggedItem<O>(pub Option<(u64, O)>);

/// What the mouse did this frame, as far as dragging is concerned.
pub struct DragInput<O> {
    /// The left button went down this frame.
    pub just_pressed: bool,
    /// The left button is held.
    pub pressed: bool,
    /// The left button went up this frame.
    pub just_released: bool,
    /// The cursor is over a connection node.
    pub on_node: bool,
    /// The first item under the cursor, with the offset from the item to the
    /// cursor.
    pub hit: Option<(u64, O)>,
}

/// What dragging asks of the scene this frame.
pub struct DragOutcome<O> {
    /// Move this item so that it keeps this offset to the cursor.
    pub move_item: Option<(u64, O)>,
    /// New state of camera panning: `Some(false)` to disable it while an item
    /// is held, `Some(true)` to enable it again.
    pub panning: Option<bool>,
}

/// The item held after the button press of `input`.
pub open spec fn grabbed<O>(dragged: Option<(u64, O)>, input: DragInput<O>) -> Option<(u64, O)> {
    if input.just_pressed && !input.on_node && input.hit is Some {
        input.hit
    } else {
        dragged
    }
}

/// Drags items with the left button: a press over an item (not over one of
/// its nodes) grabs it and stops camera panning, holding the button moves it,
/// releasing it drops it and lets the camera pan again.
pub fn drag_items<O: Copy>(dragged: &mut DraggedItem<O>, input: DragInput<O>) -> (r: DragOutcome<O>)
    ensures
        final(dragged).0 == (if input.just_released {
            None
        } else {
            grabbed(old(dragged).0, input)
        }),
        r.move_item == (if input.pressed {
            grabbed(old(dragged).0, input)
        } else {
            None
        }),
        r.panning == (if input.just_released && grabbed(old(dragged).0, input) is Some {
            Some(true)
        } else if input.just_pressed && !input.on_node && input.hit is Some {
            Some(false)
        } else {
            None
        }),
{
    let mut panning: Option<bool> = None;
    if input.just_pressed && !input.on_node {
        match input.hit {
            Some(h) => {
                dragged.0 = Some(h);
                panning = Some(false);
            },
            None => {},
        }
    }
    let move_item = if input.pressed {
        dragged.0
    } else {
        None
    };
    if input.just_released {
        let held = dragged.0;
        dragged.0 = None;
        if held.is_some() {
            panning = Some(true);
        }
    }
    DragOutcome { move_item, panning }
}

/// What deleting the dragged item removes from the scene.  Camera panning is
/// to be enabled again.
pub struct Deletion {
    /// The deleted item.
    pub item: u64,
    /// The wires that touch one of the item's nodes.
    pub wires: Vec<u64>,
    /// The item's nodes.
    pub nodes: Vec<u64>,
}

/// The wires, among `wires` (each with the entity that carries it), that
/// touch one of `nodes`, in order.
pub open spec fn touching_wires(wires: Seq<(u64, Wire)>, nodes: Seq<u64>) -> Seq<u64>
    decreases wires.len(),
{
    if wires.len() == 0 {
        Seq::empty()
    } else {
        let rest = touching_wires(wires.drop_last(), nodes);
        let (e, w) = wires.last();
        if nodes.contains(w.a) || nodes.contains(w.b) {
            rest.push(e)
        } else {
            rest
        }
    }
}

fn contains_entity(v: &Vec<u64>, e: u64) -> (r: bool)
    ensures
        r == v@.contains(e),
{
    let mut i: usize = 0;
    while i < v.len()
        invariant
            i <= v.len(),
            forall|k: int| 0 <= k < i ==> v@[k] != e,
        decreases v.len() - i,
    {
        if v[i] == e {
            return true;
        }
        i = i + 1;
    }
    false
}

/// Deletes the item being dragged when the delete key is pressed: the item,
/// its nodes (`children`) and every wire touching them go, and a wire being
/// drawn from one of its nodes is abandoned.
pub fn delete_dragged_item<O: Copy>(
    delete_pressed: bool,
    dragged: &mut DraggedItem<O>,
    pending: &mut PendingWire,
    children: &Vec<u64>,
    wires: &Vec<(u64, Wire)>,
) -> (r: Option<Deletion>)
    ensures
        !delete_pressed || old(dragged).0 is None ==> r is None && final(dragged).0 == old(
            dragged,
        ).0 && final(pending).0 == old(pending).0,
        delete_pressed && old(dragged).0 is Some ==> {
            &&& final(dragged).0 is None
            &&& r matches Some(d) && d.item == old(dragged).0.unwrap().0 && d.nodes@ == children@
                && d.wires@ == touching_wires(wires@, children@)
            &&& final(pending).0 == (match old(pending).0 {
                Some(start) => if children@.contains(start) {
                    None
                } else {
                    Some(start)
                },
                None => None,
            })
        },
{
    if !delete_pressed {
        return None;
    }
    let item = match dragged.0 {
        Some((item, _)) => item,
        None => {
            return None;
        },
    };
    dragged.0 = None;
    match pending.0 {
        Some(start) => {
            if contains_entity(children, start) {
                pending.0 = None;
            }
        },
        None => {},
    }
    let mut doomed: Vec<u64> = Vec::new();
    let mut j: usize = 0;
    while j < wires.len()
        invariant
            j <= wires.len(),
            doomed@ == touching_wires(wires@.take(j as int), children@),
        decreases wires.len() - j,
    {
        proof {
            assert(wires@.take(j + 1).drop_last() =~= wires@.take(j as int));
        }
        let (e, w) = wires[j];
        if contains_entity(children, w.a) || contains_entity(children, w.b) {
            doomed.push(e);
        }
        j = j + 1;
    }
    assert(wires@.take(wires.len() as int) =~= wires@);
    let mut nodes: Vec<u64> = Vec::new();
    let mut k: usize = 0;
    while k < children.len()
        invariant
            k <= children.len(),
            nodes@ == children@.take(k as int),
        decreases children.len() - k,
    {
        nodes.push(children[k]);
        k = k + 1;
        assert(nodes@ =~= children@.take(k as int));
    }
    assert(children@.take(children.len() as int) =~= children@);
    Some(Deletion { item, wires: doomed, nodes })
}

} // verus!
