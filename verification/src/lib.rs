//! Verified logic of a logic-gate circuit editor: signal propagation through
//! gates and wires, and the decisions taken on user input.

pub mod circuit;
pub mod signals;
pub mod gates;
pub mod laws;
pub mod editing;
pub mod keys;
pub mod menu;
pub mod minimap;
