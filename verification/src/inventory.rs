//! The player's inventory: a stock of dirt the pointer can draw with.

use vstd::prelude::*;

verus! {

/// The dirt the player starts with.
pub const DIRT_AMOUNT: u32 = 64;

/// The player's stock of drawable material.
#[derive(Debug)]
pub struct Inventory {
    pub dirt: u32,
}

impl Inventory {
    /// A fresh inventory with the full starting stock.
    pub fn new() -> (r: Inventory)
        ensures
            r.dirt == DIRT_AMOUNT,
    {
        Inventory { dirt: DIRT_AMOUNT }
    }
}

} // verus!
