//! A stat block: the numbers a character or a creature carries into a fight.

use vstd::prelude::*;

verus! {

/// The most any resistance lane shuts out, in percent. At a hundred a lane
/// would shut out completely; at this cap a twentieth always gets through.
pub const LANE_CAP: i32 = 95;

/// A resistance as a lane reads it: capped at `LANE_CAP`.
pub open spec fn spec_lane(resist: i32) -> i32 {
    if resist > LANE_CAP {
        LANE_CAP
    } else {
        resist
    }
}

#[derive(Copy, Clone, Debug, PartialEq, Eq, Structural)]
pub struct Stats {
    pub health: i32,
    pub strength: i32,
    /// What gear multiplies its own damage by, in hundredths.
    pub power: i32,
    pub regen: i32,
    pub mind_resist: i32,
    pub curse_resist: i32,
    pub physical_resist: i32,
    pub physical_pierce: i32,
    pub physical_harden: i32,
    pub magic_resist: i32,
    pub magic_pierce: i32,
    pub magic_harden: i32,
    pub reflect: i32,
    pub physical_damage: i32,
    pub magic_damage: i32,
    pub mind: i32,
    pub armor: i32,
    pub mana: i32,
    pub rage: i32,
    pub faith: i32,
    pub nature: i32,
}

impl Stats {
    /// Every figure zero.
    pub open spec fn spec_zero() -> Stats {
        Stats {
            health: 0,
            strength: 0,
            power: 0,
            regen: 0,
            mind_resist: 0,
            curse_resist: 0,
            physical_resist: 0,
            physical_pierce: 0,
            physical_harden: 0,
            magic_resist: 0,
            magic_pierce: 0,
            magic_harden: 0,
            reflect: 0,
            physical_damage: 0,
            magic_damage: 0,
            mind: 0,
            armor: 0,
            mana: 0,
            rage: 0,
            faith: 0,
            nature: 0,
        }
    }

    /// Every figure zero.
    pub fn zero() -> (r: Stats)
        ensures
            r == Stats::spec_zero(),
    {
        Stats {
            health: 0,
            strength: 0,
            power: 0,
            regen: 0,
            mind_resist: 0,
            curse_resist: 0,
            physical_resist: 0,
            physical_pierce: 0,
            physical_harden: 0,
            magic_resist: 0,
            magic_pierce: 0,
            magic_harden: 0,
            reflect: 0,
            physical_damage: 0,
            magic_damage: 0,
            mind: 0,
            armor: 0,
            mana: 0,
            rage: 0,
            faith: 0,
            nature: 0,
        }
    }
}

} // verus!

verus! {

/// Integer division as Rust does it: the quotient truncated toward zero.
pub open spec fn tdiv(a: int, b: int) -> int {
    if a >= 0 {
        a / b
    } else {
        -((-a) / b)
    }
}

/// A value that fits in an `i32`.
pub open spec fn fits_i32(v: int) -> bool {
    i32::MIN <= v <= i32::MAX
}

/// `v` held between `lo` and `hi`.
pub open spec fn clamp(v: int, lo: int, hi: int) -> int {
    if v < lo {
        lo
    } else if v > hi {
        hi
    } else {
        v
    }
}

} // verus!
