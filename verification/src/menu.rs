//! The menu of placeable items: its registry, the selection of an item by
//! pressing its slot and the drop of the selected item on the scene.
use vstd::prelude::*;
use std::collections::HashMap;

verus! {

broadcast use vstd::std_specs::hash::group_hash_axioms;

/// Display data of a menu item.
pub struct MenuItem {
    icon: String,
    name: String,
}

impl MenuItem {
    /// Path of the item's picture.
    pub fn icon(&self) -> (r: &str)
        ensures
            r@ == self.icon_view(),
    {
        self.icon.as_str()
    }

    /// Name shown under the item's picture.
    pub fn name(&self) -> (r: &str)
        ensures
            r@ == self.name_view(),
    {
        self.name.as_str()
    }

    pub closed spec fn icon_view(&self) -> Seq<char> {
        self.icon@
    }

    pub closed spec fn name_view(&self) -> Seq<char> {
        self.name@
    }
}

/// Registry of every item the menu offers, by identifier.  Identifiers are
/// handed out by the caller, from one counter for the whole program.
pub struct MenuItems {
    items: HashMap<usize, MenuItem>,
}

impl MenuItems {
    /// The items, by identifier.
    pub closed spec fn entries(&self) -> Map<usize, MenuItem> {
        self.items@
    }

    /// An empty registry.
    pub fn new() -> (r: Self)
        ensures
            r.entries() == Map::<usize, MenuItem>::empty(),
    {
        MenuItems { items: HashMap::new() }
    }

    /// Adds the item `name`, pictured by `icon`, under the identifier `id`,
    /// which no item of the registry uses yet.
    pub fn insert(&mut self, id: usize, name: &str, icon: &str)
        requires
            !old(self).entries().contains_key(id),
        ensures
            !old(self).entries().contains_key(id),
            final(self).entries().dom() == old(self).entries().dom().insert(id),
            final(self).entries()[id].icon_view() == icon@,
            final(self).entries()[id].name_view() == name@,
            forall|k: usize|
                k != id && old(self).entries().contains_key(k) ==> #[trigger] final(self).entries()[k]
                    == old(self).entries()[k],
    {
        let item = MenuItem { icon: String::from_str(icon), name: String::from_str(name) };
        self.items.insert(id, item);
    }

    /// Whether some item uses the identifier `id`.
    pub fn contains(&self, id: usize) -> (r: bool)
        ensures
            r == self.entries().contains_key(id),
    {
        self.items.contains_key(&id)
    }

    /// The item with identifier `id`, if there is one.
    pub fn get(&self, id: usize) -> (r: Option<&MenuItem>)
        ensures
            match r {
                Some(item) => self.entries().contains_key(id) && *item == self.entries()[id],
                None => !self.entries().contains_key(id),
            },
    {
        self.items.get(&id)
    }

    /// The items, by identifier.
    pub fn items(&self) -> (r: &HashMap<usize, MenuItem>)
        ensures
            r@ == self.entries(),
    {
        &self.items
    }
}

/// Identifier of the item currently selected in the menu.
pub struct SelectedItem(pub Option<usize>);

/// State of the pointer over a menu slot.
#[derive(Clone, Copy, Debug, PartialEq, Eq, Structural)]
pub enum SlotInteraction {
    Pressed,
    Hovered,
    /// The pointer is not over the slot.
    Away,
}

/// What a change of interaction on a slot asks of the scene.
pub struct SlotResponse {
    /// Draw the slot with the highlight colors.
    pub highlighted: bool,
    /// The item dropped on the scene, if one was.
    pub dropped: Option<usize>,
}

/// The selection after a change of interaction on the slot of item `slot`,
/// and the item dropped on the scene, if any.
pub open spec fn slot_step(selected: Option<usize>, interaction: SlotInteraction, slot: usize) -> (
    Option<usize>,
    Option<usize>,
) {
    if interaction == SlotInteraction::Pressed {
        (Some(slot), None)
    } else {
        (None, selected)
    }
}

/// Handles a change of interaction on the slot of item `slot`: pressing it
/// selects its item; when the pointer is released (or leaves), the selected
/// item is dropped on the scene and the selection cleared.
pub fn hover_item_slot(selected: &mut SelectedItem, interaction: SlotInteraction, slot: usize) -> (r:
    SlotResponse)
    ensures
        r.highlighted == (interaction != SlotInteraction::Away),
        (final(selected).0, r.dropped) == slot_step(old(selected).0, interaction, slot),
{
    let highlighted = match interaction {
        SlotInteraction::Pressed => true,
        SlotInteraction::Hovered => true,
        SlotInteraction::Away => false,
    };
    match interaction {
        SlotInteraction::Pressed => {
            selected.0 = Some(slot);
            SlotResponse { highlighted, dropped: None }
        },
        _ => {
            let dropped = selected.0;
            selected.0 = None;
            SlotResponse { highlighted, dropped }
        },
    }
}

/// What an item does with the preview that follows the cursor.
#[derive(Clone, Copy, Debug, PartialEq, Eq, Structural)]
pub enum PreviewAction {
    /// The selection did not change: leave the preview as it is.
    Keep,
    /// This item was selected: show its preview.
    Spawn,
    /// Another item, or none, is selected: remove the previews.
    Despawn,
}

/// Decides, for the item `item_id`, what to do with the preview when the
/// selection may have changed.
pub fn manage_preview(changed: bool, selected: Option<usize>, item_id: usize) -> (r: PreviewAction)
    ensures
        r == (if !changed {
            PreviewAction::Keep
        } else if selected == Some(item_id) {
            PreviewAction::Spawn
        } else {
            PreviewAction::Despawn
        }),
{
    if !changed {
        return PreviewAction::Keep;
    }
    match selected {
        Some(id) => if id == item_id {
            PreviewAction::Spawn
        } else {
            PreviewAction::Despawn
        },
        None => PreviewAction::Despawn,
    }
}

} // verus!
