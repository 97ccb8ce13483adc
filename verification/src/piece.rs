//! The two small vocabularies the fight reads off the component catalogue:
//! which slot a piece is worn in, and which pool it banks.

use vstd::prelude::*;

verus! {

/// The five worn frames.
#[derive(Copy, Clone, PartialEq, Eq, Hash, Debug, Structural)]
pub enum SlotKind {
    Helmet,
    Chest,
    Gloves,
    Greaves,
    Weapon,
}

/// A banked pool.
#[derive(Copy, Clone, PartialEq, Eq, Hash, Debug, Structural)]
pub enum Resource {
    Mana,
    Rage,
    Faith,
    Nature,
    /// The fused pools: worth both parents, and spendable by nothing.
    DruidicMight,
    Communion,
    Zealotry,
    /// The mind lane's fuel.
    Insight,
}

} // verus!
