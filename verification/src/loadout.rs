//! What an assembled board hands the rest of the game: one profile per item,
//! and the handful of whole-board figures a county toll measures.

use vstd::prelude::*;

use crate::county::Lane;
use crate::piece::SlotKind;
use crate::stats::Stats;

verus! {

/// One assembled item, reduced to what a fight reads off it.
#[derive(Clone, Debug)]
pub struct ItemProfile {
    pub name: String,
    pub slot: SlotKind,
    /// Effectiveness on the shared scale.
    pub rating: i32,
    pub cooldown_ms: u32,
    /// What the item deals, banks and grants each time it fires.
    pub stats: Stats,
    pub power: i32,
    pub power_bonus: i32,
    /// Standing on a Lightning Rod.
    pub attracts_curses: bool,
    pub steady: bool,
    pub overtakes: bool,
    pub fragile: bool,
    pub spins: bool,
    pub enched: bool,
    /// The board's crest that trades every other lane for the mind.
    pub wrong_sense: bool,
    /// How many orientations the item cycles through where it stands.
    pub turn_cycle_len: usize,
    /// How many reactions the item carries.
    pub triggers: usize,
    pub adjacent_assembled_same_slot: usize,
    pub open_cells: usize,
    pub adjacent_items: Vec<usize>,
    pub aligned_items: Vec<usize>,
    pub diagonal_items: Vec<usize>,
    pub sigil_seed: u64,
}

/// Whole-board figures, in integers: milli-units a second.
#[derive(Copy, Clone, Debug, PartialEq, Eq, Structural)]
pub struct Figures {
    /// Milli-mana a second across the assembled board.
    pub flow: i64,
    /// Milli-damage a second, per lane.
    pub physical_ps: i64,
    pub magic_ps: i64,
    /// Milli-armour a second.
    pub armour_ps: i64,
    /// The fastest assembled item, if anything is assembled at all.
    pub fastest_ms: Option<u32>,
    /// Summed curse resistance.
    pub curse_resist: i32,
}

impl Figures {
    /// Milli-damage a second in one lane.
    pub fn dps(&self, lane: Lane) -> (r: i64)
        ensures
            r == (match lane {
                Lane::Physical => self.physical_ps,
                Lane::Magic => self.magic_ps,
            }),
    {
        match lane {
            Lane::Physical => self.physical_ps,
            Lane::Magic => self.magic_ps,
        }
    }
}

} // verus!
