//! The loadout record stored in the host's loadout table.

use vstd::prelude::*;

use crate::structs::cvec::CVec;
use crate::structs::estring::EscadraString;

verus! {

/// One munition entry of a loadout: an item name and how many a plane
/// carries.
pub struct ItemMunition {
    /// Name of the item.
    pub name: EscadraString,
    /// How many of this item a plane can carry.
    pub count: u32,
}

/// A loadout record, as the host lays it out in its loadout table.
pub struct Loadout {
    /// Key of this loadout for a concrete plane.
    pub plane_loadout: EscadraString,
    /// The generic loadout this one derives from.
    pub generic_loadout: EscadraString,
    /// The munitions of this loadout.
    pub items: CVec<ItemMunition>,
    /// Weight at launch.
    pub launch_loadout_weight: u32,
    /// Whether the loadout mounts the 37 mm gun.
    pub has_gun37mm: bool,
}

} // verus!
