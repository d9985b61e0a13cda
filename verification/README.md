# logic_gate_simulator

A logic-gate circuit editor. The library (`src/`) holds the circuit's logic,
verified with Verus; `app/` is the Bevy program around it (windows, cameras,
menus, rendering and the floating-point geometry of the scene).

Library modules:

- `circuit`: nodes, their kinds and levels, wires; lookups by entity.
- `signals`: propagation of signals along wires (always from an output node
  to the other end), and the per-frame update of the inputs from the keyboard
  sources.
- `gates`: a gate's logic (any `Fn(active, total) -> bool`, AND and NOT given) applied to its nodes; output lights.
- `editing`: wire drawing, dragging and deleting items.
- `keys`: binding keys to input gates by double click; key labels.
- `menu`: the registry of placeable items, selection and drop.
- `minimap`: placement of the minimap viewport.
- `laws`: properties proved of these functions (orientation of wires, idempotent
  propagation, gate truth tables, wire drawing, deletion, menu selection).

Entities are handed to the library by their 64-bit ids (`Entity::to_bits`).
