//! The crosshair that is shown for rifles with a scope.

use vstd::prelude::*;

verus! {

/// The crosshair for rifles with a scope.
#[derive(Clone, Copy, Debug)]
pub struct SniperCrosshair;

impl SniperCrosshair {
    /// The weapon with the given item number is a rifle with a scope: one
    /// of the four with the numbers 9, 11, 38 and 40.
    pub open spec fn sniper_item(weapon_id: u16) -> bool {
        weapon_id == 9 || weapon_id == 11 || weapon_id == 38 || weapon_id == 40
    }

    pub fn new() -> (out: SniperCrosshair) {
        SniperCrosshair
    }

    /// Whether the weapon with the given item number is a rifle with a
    /// scope.
    pub fn is_sniper_weapon(&self, weapon_id: u16) -> (yes: bool)
        ensures
            yes == SniperCrosshair::sniper_item(weapon_id),
    {
        weapon_id == 9 || weapon_id == 11 || weapon_id == 38 || weapon_id == 40
    }
}

} // verus!
