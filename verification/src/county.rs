//! THE HUNDRED: seven by seven tiles under the road, generated from a seed.
//!
//! A place you walk into from a town, walk five tiles of, and walk out of,
//! and which remembers what you cleared for the rest of the run. It is
//! derived, never stored: `generate` is a pure function of a seed.

use vstd::prelude::*;

use crate::combat::Difficulty;
use crate::loadout::Figures;
use crate::stats::{fits_i32, tdiv};
use crate::text::{
    digit_str, int_text, push_char, push_pad2, push_pad3, spec_digit, spec_digits, spec_int_text,
    spec_pad2, spec_pad3,
};

verus! {

/// Columns A to G, west to east.
pub const W: u8 = 7;
/// Rows 1 to 7, north to south.
pub const H: u8 = 7;
/// Forty-nine.
pub const TILES: usize = 49;
/// How many times `generate` re-derives before it hands back the fallback.
pub const ATTEMPTS: u8 = 32;
/// Five moves a trip, and arriving on the mouth's own tile is free.
pub const MOVES_A_TRIP: u8 = 5;
/// Event tiles the generator arranges from the pool. The pale is the twelfth.
pub const ARRANGED: usize = 11;

// --------------------------------------------------------------- the vocabulary

/// Rows 1-2, 3-5, 6-7.
#[derive(Copy, Clone, Debug, PartialEq, Eq, Hash, Structural)]
pub enum Region {
    North,
    Middle,
    South,
}

impl Region {
    pub fn all() -> (r: [Region; 3])
        ensures
            r@ == seq![Region::North, Region::Middle, Region::South],
    {
        [Region::North, Region::Middle, Region::South]
    }

    /// The canonical word.
    pub fn name(self) -> (r: &'static str)
        ensures
            r@ == (match self {
                Region::North => "north"@,
                Region::Middle => "middle"@,
                Region::South => "south"@,
            }),
    {
        match self {
            Region::North => "north",
            Region::Middle => "middle",
            Region::South => "south",
        }
    }

    pub open spec fn spec_of_row(y: u8) -> Region {
        if y <= 1 {
            Region::North
        } else if y <= 4 {
            Region::Middle
        } else {
            Region::South
        }
    }

    /// North is fourteen tiles, Middle twenty-one, South fourteen.
    pub fn of_row(y: u8) -> (r: Region)
        ensures
            r == Region::spec_of_row(y),
    {
        if y <= 1 {
            Region::North
        } else if y <= 4 {
            Region::Middle
        } else {
            Region::South
        }
    }
}

/// The three claims on the same county.
#[derive(Copy, Clone, Debug, PartialEq, Eq, Hash, Structural)]
pub enum Chain {
    /// Triangulate.
    Ordnance,
    /// Pursue.
    Drove,
    /// Unseal.
    Enclosure,
}

impl Chain {
    pub fn all() -> (r: [Chain; 3])
        ensures
            r@ == seq![Chain::Ordnance, Chain::Drove, Chain::Enclosure],
    {
        [Chain::Ordnance, Chain::Drove, Chain::Enclosure]
    }

    /// A stable key. Never shown raw.
    pub fn key(self) -> (r: &'static str)
        ensures
            r@ == (match self {
                Chain::Ordnance => "the-ordnance"@,
                Chain::Drove => "the-drove-roads"@,
                Chain::Enclosure => "the-enclosure"@,
            }),
    {
        match self {
            Chain::Ordnance => "the-ordnance",
            Chain::Drove => "the-drove-roads",
            Chain::Enclosure => "the-enclosure",
        }
    }

    /// What it calls itself.
    pub fn name(self) -> (r: &'static str)
        ensures
            r@ == (match self {
                Chain::Ordnance => "THE ORDNANCE"@,
                Chain::Drove => "THE DROVE ROADS"@,
                Chain::Enclosure => "THE ENCLOSURE"@,
            }),
    {
        match self {
            Chain::Ordnance => "THE ORDNANCE",
            Chain::Drove => "THE DROVE ROADS",
            Chain::Enclosure => "THE ENCLOSURE",
        }
    }
}

/// What finishing a chain hands over.
pub fn chain_pays(chain: Chain) -> (r: &'static [&'static str])
    ensures
        r@.len() == (match chain {
            Chain::Enclosure => 1nat,
            _ => 2nat,
        }),
        match chain {
            Chain::Ordnance => r@[0]@ == "Trig Pillar"@ && r@[1]@ == "Surveyor's Orb"@,
            Chain::Drove => r@[0]@ == "Drove Way"@ && r@[1]@ == "Drover's Orb"@,
            Chain::Enclosure => r@[0]@ == "The Common Ground"@,
        },
{
    match chain {
        Chain::Ordnance => &["Trig Pillar", "Surveyor's Orb"],
        Chain::Drove => &["Drove Way", "Drover's Orb"],
        Chain::Enclosure => &["The Common Ground"],
    }
}

/// The creature standing at a chain's end.
pub fn pinnacle_creature(chain: Chain) -> (r: &'static str)
    ensures
        r@ == (match chain {
            Chain::Ordnance => "THE SURVEYOR"@,
            Chain::Drove => "THE DROVER"@,
            Chain::Enclosure => "THE COMMISSIONER"@,
        }),
{
    match chain {
        Chain::Ordnance => "THE SURVEYOR",
        Chain::Drove => "THE DROVER",
        Chain::Enclosure => "THE COMMISSIONER",
    }
}

/// Everything that comes to a chain's ending.
pub fn pinnacle_party(chain: Chain) -> (r: &'static [&'static str])
    ensures
        r@.len() == (match chain {
            Chain::Drove => 2nat,
            _ => 1nat,
        }),
        match chain {
            Chain::Ordnance => r@[0]@ == "THE SURVEYOR"@,
            Chain::Drove => r@[0]@ == "THE DROVER"@ && r@[1]@ == "THE DRIVEN"@,
            Chain::Enclosure => r@[0]@ == "THE COMMISSIONER"@,
        },
{
    match chain {
        Chain::Ordnance => &["THE SURVEYOR"],
        Chain::Drove => &["THE DROVER", "THE DRIVEN"],
        Chain::Enclosure => &["THE COMMISSIONER"],
    }
}

/// Which damage lane a ford asks for.
#[derive(Copy, Clone, Debug, PartialEq, Eq, Structural)]
pub enum Lane {
    Physical,
    Magic,
}

/// What a Feature tile asks of a board before it will let you across.
#[derive(Copy, Clone, Debug, PartialEq, Eq, Structural)]
pub enum Toll {
    /// Milli-mana a second across the assembled board.
    River { milli_per_s: u32 },
    /// Milli-damage a second in one lane.
    Ford { lane: Lane, milli_per_s: u32 },
    /// Milli-armour a second.
    Scarp { milli_per_s: u32 },
    /// The fastest assembled item, in milliseconds. Lower is harder.
    Drift { fastest_ms: u32 },
    /// Summed `curse_resist`.
    Hedge { curse_resist: i32 },
    /// Gold, in multiples of the rung's bounty. Crossing **spends** it.
    Gate { bounties: u32 },
}

/// A milli-unit figure, said the way a person reads it: 2000 is `2`, 2500 is
/// `2.5`, 2050 is `2.05`, 2005 is `2.005`. The whole part is the quotient
/// truncated toward zero and the fraction drops its sign.
pub open spec fn spec_milli(n: i64) -> Seq<char> {
    let whole = tdiv(n as int, 1000);
    let r: int = if n >= 0 { n as int % 1000 } else { (-n) % 1000 };
    spec_int_text(whole) + if r == 0 {
        Seq::<char>::empty()
    } else if r % 100 == 0 {
        seq!['.'] + spec_digits((r / 100) as nat)
    } else if r % 10 == 0 {
        seq!['.'] + spec_pad2(r / 10)
    } else {
        seq!['.'] + spec_pad3(r)
    }
}

/// A milli-unit figure, said the way a person reads it. Integer arithmetic
/// all the way down; the decimal point is printing.
pub fn milli(n: i64) -> (r: String)
    ensures
        r@ == spec_milli(n),
{
    let whole = n / 1000;
    let rem = n % 1000;
    let r: u64 = if rem < 0 { (-rem) as u64 } else { rem as u64 };
    assert(r == if n >= 0 { n as int % 1000 } else { (-n) % 1000 });
    let mut s = int_text(whole);
    proof {
        reveal_strlit(".");
    }
    if r == 0 {
    } else if r % 100 == 0 {
        s.append(".");
        s.append(digit_str(r / 100));
    } else if r % 10 == 0 {
        s.append(".");
        push_pad2(&mut s, r / 10);
    } else {
        s.append(".");
        push_pad3(&mut s, r);
    }
    s
}

impl Toll {
    pub open spec fn spec_gate_price(bounties: u32, bounty: i32) -> int {
        (bounties as i32) * bounty
    }

    /// Whether a board clears this toll; gold is read for a `Gate` alone.
    pub fn met(&self, f: &Figures, gold: i32, bounty: i32) -> (r: bool)
        requires
            *self matches Toll::Gate { bounties } ==> fits_i32(Toll::spec_gate_price(bounties, bounty)),
        ensures
            r == (match *self {
                Toll::River { milli_per_s } => f.flow >= milli_per_s,
                Toll::Ford { lane, milli_per_s } => (match lane {
                    Lane::Physical => f.physical_ps,
                    Lane::Magic => f.magic_ps,
                }) >= milli_per_s,
                Toll::Scarp { milli_per_s } => f.armour_ps >= milli_per_s,
                Toll::Drift { fastest_ms } => (f.fastest_ms matches Some(ms) && ms <= fastest_ms),
                Toll::Hedge { curse_resist } => f.curse_resist >= curse_resist,
                Toll::Gate { bounties } => gold >= Toll::spec_gate_price(bounties, bounty),
            }),
    {
        match *self {
            Toll::River { milli_per_s } => f.flow >= milli_per_s as i64,
            Toll::Ford { lane, milli_per_s } => f.dps(lane) >= milli_per_s as i64,
            Toll::Scarp { milli_per_s } => f.armour_ps >= milli_per_s as i64,
            Toll::Drift { fastest_ms } => match f.fastest_ms {
                Some(ms) => ms <= fastest_ms,
                None => false,
            },
            Toll::Hedge { curse_resist } => f.curse_resist >= curse_resist,
            Toll::Gate { bounties } => gold >= bounties as i32 * bounty,
        }
    }

    /// The gold a crossing takes: zero but for a `Gate`.
    pub fn toll_in_gold(&self, bounty: i32) -> (r: i32)
        requires
            *self matches Toll::Gate { bounties } ==> fits_i32(Toll::spec_gate_price(bounties, bounty)),
        ensures
            r == (match *self {
                Toll::Gate { bounties } => Toll::spec_gate_price(bounties, bounty),
                _ => 0,
            }),
    {
        match *self {
            Toll::Gate { bounties } => bounties as i32 * bounty,
            _ => 0,
        }
    }

    /// The figure this toll reads, and the figure it wants.
    pub open spec fn spec_shortfall(self, f: Figures, gold: i32, bounty: i32) -> Seq<char> {
        match self {
            Toll::River { milli_per_s } => "mana a second "@ + spec_milli(f.flow) + " against "@
                + spec_milli(milli_per_s as i64),
            Toll::Ford { lane, milli_per_s } => (match lane {
                Lane::Physical => "physical"@,
                Lane::Magic => "magic"@,
            }) + " damage a second "@ + spec_milli(
                match lane {
                    Lane::Physical => f.physical_ps,
                    Lane::Magic => f.magic_ps,
                },
            ) + " against "@ + spec_milli(milli_per_s as i64),
            Toll::Scarp { milli_per_s } => "armour a second "@ + spec_milli(f.armour_ps)
                + " against "@ + spec_milli(milli_per_s as i64),
            Toll::Drift { fastest_ms } => "fastest item "@ + (match f.fastest_ms {
                Some(m) => spec_int_text(m as int) + " ms"@,
                None => "nothing assembled"@,
            }) + " against "@ + spec_int_text(fastest_ms as int) + " ms"@,
            Toll::Hedge { curse_resist } => "curse resistance "@ + spec_int_text(
                f.curse_resist as int,
            ) + " against "@ + spec_int_text(curse_resist as int),
            Toll::Gate { bounties } => spec_int_text(gold as int) + "g against "@ + spec_int_text(
                Toll::spec_gate_price(bounties, bounty),
            ) + "g"@,
        }
    }

    /// The figure this toll reads, and the figure it wants, for a receipt that
    /// says how far short a board fell.
    pub fn shortfall(&self, f: &Figures, gold: i32, bounty: i32) -> (r: String)
        requires
            *self matches Toll::Gate { bounties } ==> fits_i32(Toll::spec_gate_price(bounties, bounty)),
        ensures
            r@ == self.spec_shortfall(*f, gold, bounty),
    {
        proof {
            reveal_strlit("mana a second ");
            reveal_strlit(" against ");
            reveal_strlit("physical");
            reveal_strlit("magic");
            reveal_strlit(" damage a second ");
            reveal_strlit("armour a second ");
            reveal_strlit("fastest item ");
            reveal_strlit(" ms");
            reveal_strlit("nothing assembled");
            reveal_strlit("curse resistance ");
            reveal_strlit("g against ");
            reveal_strlit("g");
        }
        match *self {
            Toll::River { milli_per_s } => {
                let mut s = String::from_str("mana a second ");
                s.append(milli(f.flow).as_str());
                s.append(" against ");
                s.append(milli(milli_per_s as i64).as_str());
                s
            },
            Toll::Ford { lane, milli_per_s } => {
                let mut s = match lane {
                    Lane::Physical => String::from_str("physical"),
                    Lane::Magic => String::from_str("magic"),
                };
                s.append(" damage a second ");
                s.append(milli(f.dps(lane)).as_str());
                s.append(" against ");
                s.append(milli(milli_per_s as i64).as_str());
                s
            },
            Toll::Scarp { milli_per_s } => {
                let mut s = String::from_str("armour a second ");
                s.append(milli(f.armour_ps).as_str());
                s.append(" against ");
                s.append(milli(milli_per_s as i64).as_str());
                s
            },
            Toll::Drift { fastest_ms } => {
                let mut s = String::from_str("fastest item ");
                match f.fastest_ms {
                    Some(m) => {
                        s.append(int_text(m as i64).as_str());
                        s.append(" ms");
                    },
                    None => s.append("nothing assembled"),
                }
                s.append(" against ");
                s.append(int_text(fastest_ms as i64).as_str());
                s.append(" ms");
                s
            },
            Toll::Hedge { curse_resist } => {
                let mut s = String::from_str("curse resistance ");
                s.append(int_text(f.curse_resist as i64).as_str());
                s.append(" against ");
                s.append(int_text(curse_resist as i64).as_str());
                s
            },
            Toll::Gate { bounties } => {
                let mut s = int_text(gold as i64);
                s.append("g against ");
                s.append(int_text((bounties as i32 * bounty) as i64).as_str());
                s.append("g");
                s
            },
        }
    }

    /// What the tile says it wants, when a player is close enough to read it.
    pub open spec fn spec_threshold(self) -> Seq<char> {
        match self {
            Toll::River { milli_per_s } => "~R"@ + spec_milli(milli_per_s as i64),
            Toll::Ford { lane, milli_per_s } => "~F"@ + spec_milli(milli_per_s as i64) + (
            match lane {
                Lane::Physical => "p"@,
                Lane::Magic => "m"@,
            }),
            Toll::Scarp { milli_per_s } => "^S"@ + spec_milli(milli_per_s as i64),
            Toll::Drift { fastest_ms } => "^D"@ + spec_milli(fastest_ms as i64),
            Toll::Hedge { curse_resist } => "#H"@ + spec_int_text(curse_resist as int),
            Toll::Gate { bounties } => "#G"@ + spec_int_text(bounties as int) + "x"@,
        }
    }

    pub fn threshold(&self) -> (r: String)
        ensures
            r@ == self.spec_threshold(),
    {
        match *self {
            Toll::River { milli_per_s } => {
                let mut s = String::from_str("~R");
                s.append(milli(milli_per_s as i64).as_str());
                s
            },
            Toll::Ford { lane, milli_per_s } => {
                let mut s = String::from_str("~F");
                s.append(milli(milli_per_s as i64).as_str());
                match lane {
                    Lane::Physical => s.append("p"),
                    Lane::Magic => s.append("m"),
                }
                s
            },
            Toll::Scarp { milli_per_s } => {
                let mut s = String::from_str("^S");
                s.append(milli(milli_per_s as i64).as_str());
                s
            },
            Toll::Drift { fastest_ms } => {
                let mut s = String::from_str("^D");
                s.append(milli(fastest_ms as i64).as_str());
                s
            },
            Toll::Hedge { curse_resist } => {
                let mut s = String::from_str("#H");
                s.append(int_text(curse_resist as i64).as_str());
                s
            },
            Toll::Gate { bounties } => {
                let mut s = String::from_str("#G");
                s.append(int_text(bounties as i64).as_str());
                s.append("x");
                s
            },
        }
    }

    /// The glyph the map draws.
    pub fn glyph(&self) -> (r: char)
        ensures
            r == (match *self {
                Toll::River { .. } | Toll::Ford { .. } => '~',
                Toll::Scarp { .. } | Toll::Drift { .. } => '^',
                Toll::Hedge { .. } | Toll::Gate { .. } => '#',
            }),
    {
        match self {
            Toll::River { .. } => '~',
            Toll::Ford { .. } => '~',
            Toll::Scarp { .. } => '^',
            Toll::Drift { .. } => '^',
            Toll::Hedge { .. } => '#',
            Toll::Gate { .. } => '#',
        }
    }

    /// One letter, so a seven-wide grid can name six tolls in three
    /// characters.
    pub fn letter(&self) -> (r: char)
        ensures
            r == (match *self {
                Toll::River { .. } => 'R',
                Toll::Ford { .. } => 'F',
                Toll::Scarp { .. } => 'S',
                Toll::Drift { .. } => 'D',
                Toll::Hedge { .. } => 'H',
                Toll::Gate { .. } => 'G',
            }),
    {
        match self {
            Toll::River { .. } => 'R',
            Toll::Ford { .. } => 'F',
            Toll::Scarp { .. } => 'S',
            Toll::Drift { .. } => 'D',
            Toll::Hedge { .. } => 'H',
            Toll::Gate { .. } => 'G',
        }
    }
}

/// The id every unarranged event tile carries until the pool is written.
pub const UNARRANGED: &'static str = "county-event-unarranged";
/// The pale's own tile is an event, and it is one of the twelve.
pub const PALE: &'static str = "the-pale";
/// The flag the Ordnance's sheet sets: every threshold visible from anywhere.
pub const THE_SHEET: &'static str = "the-surveyors-sheet";
/// The flag the pale's own choice sets, and the far corner reads.
pub const PALE_OPEN: &'static str = "the-pale-is-open";

/// The flag a chain's on-ramp sets: you have been told what to look for.
pub fn chain_known(chain: Chain) -> (r: &'static str)
    ensures
        r@ == (match chain {
            Chain::Ordnance => "knows-the-ordnance"@,
            Chain::Drove => "knows-the-drove-roads"@,
            Chain::Enclosure => "knows-the-enclosure"@,
        }),
{
    match chain {
        Chain::Ordnance => "knows-the-ordnance",
        Chain::Drove => "knows-the-drove-roads",
        Chain::Enclosure => "knows-the-enclosure",
    }
}

/// The flag a chain sets when its pinnacle goes down.
pub fn chain_done(chain: Chain) -> (r: &'static str)
    ensures
        r@ == (match chain {
            Chain::Ordnance => "the-ordnance-is-done"@,
            Chain::Drove => "the-drove-roads-are-done"@,
            Chain::Enclosure => "the-enclosure-is-done"@,
        }),
{
    match chain {
        Chain::Ordnance => "the-ordnance-is-done",
        Chain::Drove => "the-drove-roads-are-done",
        Chain::Enclosure => "the-enclosure-is-done",
    }
}

#[derive(Copy, Clone, Debug, PartialEq, Eq)]
pub enum TileKind {
    /// An id into the county's event pool.
    Event(&'static str),
    Feature(Toll),
    Empty,
    Objective { chain: Chain, nth: u8 },
    Pinnacle { chain: Chain },
    Gaol,
}

impl TileKind {
    /// What the tile is, in canonical words.
    pub fn what(&self) -> (r: &'static str)
        ensures
            r@ == (match *self {
                TileKind::Event(_) => "a question"@,
                TileKind::Feature(Toll::River { .. }) => "a river"@,
                TileKind::Feature(Toll::Ford { .. }) => "a ford"@,
                TileKind::Feature(Toll::Scarp { .. }) => "a scarp"@,
                TileKind::Feature(Toll::Drift { .. }) => "a drift"@,
                TileKind::Feature(Toll::Hedge { .. }) => "a hedge"@,
                TileKind::Feature(Toll::Gate { .. }) => "a toll gate"@,
                TileKind::Empty => "open ground"@,
                TileKind::Objective { chain: Chain::Ordnance, .. } => "a trig point"@,
                TileKind::Objective { chain: Chain::Drove, .. } => "a sign"@,
                TileKind::Objective { chain: Chain::Enclosure, .. } => "a boundary stone"@,
                TileKind::Pinnacle { .. } => "the end of a chain"@,
                TileKind::Gaol => "the gaol"@,
            }),
    {
        match self {
            TileKind::Event(_) => "a question",
            TileKind::Feature(Toll::River { .. }) => "a river",
            TileKind::Feature(Toll::Ford { .. }) => "a ford",
            TileKind::Feature(Toll::Scarp { .. }) => "a scarp",
            TileKind::Feature(Toll::Drift { .. }) => "a drift",
            TileKind::Feature(Toll::Hedge { .. }) => "a hedge",
            TileKind::Feature(Toll::Gate { .. }) => "a toll gate",
            TileKind::Empty => "open ground",
            TileKind::Objective { chain: Chain::Ordnance, .. } => "a trig point",
            TileKind::Objective { chain: Chain::Drove, .. } => "a sign",
            TileKind::Objective { chain: Chain::Enclosure, .. } => "a boundary stone",
            TileKind::Pinnacle { .. } => "the end of a chain",
            TileKind::Gaol => "the gaol",
        }
    }
}

#[derive(Copy, Clone, Debug, PartialEq, Eq)]
pub struct Tile {
    pub kind: TileKind,
    pub at: (u8, u8),
    pub region: Region,
}

// ------------------------------------------------------------------- geography

/// Where each town lets you down into the county, in town order.
pub open spec fn spec_mouths() -> Seq<(u8, u8)> {
    seq![(0u8, 5u8), (2, 0), (6, 2), (0, 1), (5, 0), (4, 6)]
}

/// The towns whose mouths those are, in the same order.
pub fn mouths() -> (r: [(&'static str, (u8, u8)); 6])
    ensures
        forall|i: int| 0 <= i < 6 ==> #[trigger] r@[i].1 == spec_mouths()[i],
        r@[0].0@ == "sump-bottom"@,
        r@[1].0@ == "kettleworks"@,
        r@[2].0@ == "high-wick"@,
        r@[3].0@ == "extra-large"@,
        r@[4].0@ == "the-manse"@,
        r@[5].0@ == "the-slagworks"@,
{
    let r = [
        ("sump-bottom", (0u8, 5u8)),
        ("kettleworks", (2, 0)),
        ("high-wick", (6, 2)),
        ("extra-large", (0, 1)),
        ("the-manse", (5, 0)),
        ("the-slagworks", (4, 6)),
    ];
    proof {
        reveal_strlit("sump-bottom");
        reveal_strlit("kettleworks");
        reveal_strlit("high-wick");
        reveal_strlit("extra-large");
        reveal_strlit("the-manse");
        reveal_strlit("the-slagworks");
    }
    r
}

/// The ring of the inner five by five, clockwise from B2.
pub open spec fn spec_circuit() -> Seq<(u8, u8)> {
    seq![
        (1u8, 1u8),
        (2, 1),
        (3, 1),
        (4, 1),
        (5, 1),
        (5, 2),
        (5, 3),
        (5, 4),
        (5, 5),
        (4, 5),
        (3, 5),
        (2, 5),
        (1, 5),
        (1, 4),
        (1, 3),
        (1, 2),
    ]
}

pub fn circuit() -> (r: [(u8, u8); 16])
    ensures
        r@ == spec_circuit(),
{
    [
        (1, 1),
        (2, 1),
        (3, 1),
        (4, 1),
        (5, 1),
        (5, 2),
        (5, 3),
        (5, 4),
        (5, 5),
        (4, 5),
        (3, 5),
        (2, 5),
        (1, 5),
        (1, 4),
        (1, 3),
        (1, 2),
    ]
}

/// A coordinate read as a signed byte, the way the grid arithmetic reads it.
pub open spec fn spec_i8(x: u8) -> int {
    if x < 128 {
        x as int
    } else {
        x - 256
    }
}

pub open spec fn spec_in_bounds(p: (int, int)) -> bool {
    0 <= p.0 < 7 && 0 <= p.1 < 7
}

pub fn in_bounds(p: (i8, i8)) -> (r: bool)
    ensures
        r == spec_in_bounds((p.0 as int, p.1 as int)),
{
    p.0 >= 0 && p.1 >= 0 && p.0 < 7 && p.1 < 7
}

pub open spec fn spec_on_edge(p: (u8, u8)) -> bool {
    p.0 == 0 || p.1 == 0 || p.0 == 6 || p.1 == 6
}

pub fn on_edge(p: (u8, u8)) -> (r: bool)
    ensures
        r == spec_on_edge(p),
{
    p.0 == 0 || p.1 == 0 || p.0 == W - 1 || p.1 == H - 1
}

pub open spec fn spec_manhattan(a: (u8, u8), b: (u8, u8)) -> int {
    (if a.0 > b.0 { a.0 - b.0 } else { b.0 - a.0 }) + (if a.1 > b.1 { a.1 - b.1 } else { b.1 - a.1 })
}

/// Steps between two tiles, walking orthogonally.
pub fn manhattan(a: (u8, u8), b: (u8, u8)) -> (r: u8)
    requires
        spec_manhattan(a, b) <= 255,
    ensures
        r == spec_manhattan(a, b),
{
    let dx = if a.0 > b.0 { a.0 - b.0 } else { b.0 - a.0 };
    let dy = if a.1 > b.1 { a.1 - b.1 } else { b.1 - a.1 };
    dx + dy
}

/// The same distance, counted wide enough for any two points.
fn manhattan_wide(a: (u8, u8), b: (u8, u8)) -> (r: u16)
    ensures
        r == spec_manhattan(a, b),
{
    let dx = if a.0 > b.0 { a.0 - b.0 } else { b.0 - a.0 };
    let dy = if a.1 > b.1 { a.1 - b.1 } else { b.1 - a.1 };
    dx as u16 + dy as u16
}

pub fn on_circuit(p: (u8, u8)) -> (r: bool)
    ensures
        r == spec_circuit().contains(p),
{
    let c = circuit();
    let mut i: usize = 0;
    while i < 16
        invariant
            0 <= i <= 16,
            c@ == spec_circuit(),
            forall|j: int| 0 <= j < i ==> c@[j] != p,
        decreases 16 - i,
    {
        if c[i].0 == p.0 && c[i].1 == p.1 {
            assert(spec_circuit()[i as int] == p);
            return true;
        }
        i = i + 1;
    }
    false
}

pub fn is_mouth(p: (u8, u8)) -> (r: bool)
    ensures
        r == spec_mouths().contains(p),
{
    let m = mouths();
    let mut i: usize = 0;
    while i < 6
        invariant
            0 <= i <= 6,
            forall|j: int| 0 <= j < 6 ==> #[trigger] m@[j].1 == spec_mouths()[j],
            forall|j: int| 0 <= j < i ==> spec_mouths()[j] != p,
        decreases 6 - i,
    {
        if m[i].1.0 == p.0 && m[i].1.1 == p.1 {
            assert(spec_mouths()[i as int] == p);
            return true;
        }
        i = i + 1;
    }
    false
}

/// How many answered doors the Drover gains a point of strength for.
pub const DROVER_STRENGTH_PER: u32 = 8;
/// The fifth edge tile a perambulation reaches is where THE PARISH stands.
pub const PARISH_AT: u8 = 5;

/// The `i`th tile of the boundary walked clockwise from A1.
pub open spec fn spec_boundary_at(i: int) -> (u8, u8) {
    if i < 7 {
        (i as u8, 0u8)
    } else if i < 12 {
        (6u8, (i - 6) as u8)
    } else if i < 19 {
        ((18 - i) as u8, 6u8)
    } else {
        (0u8, (24 - i) as u8)
    }
}

/// The county's boundary, walked: every edge tile once, clockwise from A1.
pub open spec fn spec_boundary() -> Seq<(u8, u8)> {
    Seq::new(24, |i: int| spec_boundary_at(i))
}

pub fn boundary() -> (r: Vec<(u8, u8)>)
    ensures
        r@ == spec_boundary(),
{
    let mut out: Vec<(u8, u8)> = Vec::with_capacity(24);
    let mut x: u8 = 0;
    while x < W
        invariant
            0 <= x <= 7,
            out@ =~= Seq::new(x as nat, |i: int| spec_boundary_at(i)),
        decreases 7 - x,
    {
        out.push((x, 0));
        x = x + 1;
    }
    let mut y: u8 = 1;
    while y < H - 1
        invariant
            1 <= y <= 6,
            out@ =~= Seq::new((y + 6) as nat, |i: int| spec_boundary_at(i)),
        decreases 6 - y,
    {
        out.push((W - 1, y));
        y = y + 1;
    }
    let mut k: u8 = 0;
    while k < W
        invariant
            0 <= k <= 7,
            out@ =~= Seq::new((12 + k) as nat, |i: int| spec_boundary_at(i)),
        decreases 7 - k,
    {
        out.push((W - 1 - k, H - 1));
        k = k + 1;
    }
    let mut j: u8 = 0;
    while j < H - 2
        invariant
            0 <= j <= 5,
            out@ =~= Seq::new((19 + j) as nat, |i: int| spec_boundary_at(i)),
        decreases 5 - j,
    {
        out.push((0, H - 2 - j));
        j = j + 1;
    }
    out
}

/// Where `p` stands on the boundary, if it stands on it at all.
pub open spec fn spec_ring_index(p: (u8, u8)) -> Option<int> {
    if exists|i: int| 0 <= i < 24 && spec_boundary_at(i) == p {
        Some(choose|i: int| 0 <= i < 24 && spec_boundary_at(i) == p)
    } else {
        None
    }
}

/// The next tile round the boundary from `p`, one way or the other.
pub open spec fn spec_next_round(p: (u8, u8), clockwise: bool) -> Option<(u8, u8)> {
    match spec_ring_index(p) {
        Some(i) => Some(
            if clockwise {
                spec_boundary_at((i + 1) % 24)
            } else {
                spec_boundary_at((i + 23) % 24)
            },
        ),
        None => None,
    }
}

/// The boundary holds each of its tiles once.
pub proof fn lemma_boundary_distinct(i: int, j: int)
    requires
        0 <= i < 24,
        0 <= j < 24,
        spec_boundary_at(i) == spec_boundary_at(j),
    ensures
        i == j,
{
}

/// The next tile round the boundary from `p`; `None` when `p` is not on it.
pub fn next_round(p: (u8, u8), clockwise: bool) -> (r: Option<(u8, u8)>)
    ensures
        r == spec_next_round(p, clockwise),
{
    let ring = boundary();
    let mut i: usize = 0;
    while i < 24
        invariant
            0 <= i <= 24,
            ring@ == spec_boundary(),
            forall|j: int| 0 <= j < i ==> spec_boundary_at(j) != p,
        decreases 24 - i,
    {
        if ring[i].0 == p.0 && ring[i].1 == p.1 {
            proof {
                assert(spec_boundary_at(i as int) == p);
                let c = choose|c: int| 0 <= c < 24 && spec_boundary_at(c) == p;
                lemma_boundary_distinct(c, i as int);
            }
            let n: usize = 24;
            return Some(if clockwise { ring[(i + 1) % n] } else { ring[(i + n - 1) % n] });
        }
        i = i + 1;
    }
    None
}

/// What a step from `p` by `(dx, dy)` lands on in signed grid arithmetic.
pub open spec fn spec_shift(p: (u8, u8), dx: int, dy: int) -> (int, int) {
    (spec_i8(p.0) + dx, spec_i8(p.1) + dy)
}

/// A step of `(dx, dy)` that does not overflow a signed byte.
pub open spec fn spec_can_shift(p: (u8, u8), dx: int, dy: int) -> bool {
    &&& (dx == 1 ==> p.0 != 127)
    &&& (dx == -1 ==> p.0 != 128)
    &&& (dy == 1 ==> p.1 != 127)
    &&& (dy == -1 ==> p.1 != 128)
}

/// A coordinate that one step either way cannot overflow as a signed byte.
pub open spec fn spec_steppable(p: (u8, u8)) -> bool {
    p.0 != 127 && p.0 != 128 && p.1 != 127 && p.1 != 128
}

/// The in-bounds tiles among the four one step away, in N, S, W, E order.
pub open spec fn spec_neighbours(p: (u8, u8)) -> Seq<(u8, u8)> {
    let n = spec_shift(p, 0, -1);
    let s = spec_shift(p, 0, 1);
    let w = spec_shift(p, -1, 0);
    let e = spec_shift(p, 1, 0);
    (if spec_in_bounds(n) { seq![(n.0 as u8, n.1 as u8)] } else { Seq::empty() })
        + (if spec_in_bounds(s) { seq![(s.0 as u8, s.1 as u8)] } else { Seq::empty() })
        + (if spec_in_bounds(w) { seq![(w.0 as u8, w.1 as u8)] } else { Seq::empty() })
        + (if spec_in_bounds(e) { seq![(e.0 as u8, e.1 as u8)] } else { Seq::empty() })
}

proof fn lemma_as_i8(a: u8)
    ensures
        (a as i8) as int == spec_i8(a),
{
    if a < 128 {
        assert(a < 128 ==> (a as i8) as u8 == a && (a as i8) >= 0) by (bit_vector);
    } else {
        assert(a >= 128 ==> (a as i8) < 0 && ((a as i8) as u8) == a) by (bit_vector);
        assert(a >= 128 ==> (a as i8) + 256 == a as int) by (bit_vector);
    }
}

fn shifted(p: (u8, u8), dx: i8, dy: i8) -> (r: Option<(u8, u8)>)
    requires
        spec_can_shift(p, dx as int, dy as int),
        -1 <= dx <= 1,
        -1 <= dy <= 1,
    ensures
        r == if spec_in_bounds(spec_shift(p, dx as int, dy as int)) {
            Some(
                (
                    spec_shift(p, dx as int, dy as int).0 as u8,
                    spec_shift(p, dx as int, dy as int).1 as u8,
                ),
            )
        } else {
            None
        },
{
    let x = p.0 as i8;
    let y = p.1 as i8;
    proof {
        lemma_as_i8(p.0);
        lemma_as_i8(p.1);
    }
    let q = (x + dx, y + dy);
    if in_bounds(q) {
        Some((q.0 as u8, q.1 as u8))
    } else {
        None
    }
}

/// N, S, E, W: movement is orthogonal and there is no diagonal anything.
pub fn neighbours(p: (u8, u8)) -> (r: Vec<(u8, u8)>)
    requires
        spec_steppable(p),
    ensures
        r@ == spec_neighbours(p),
{
    let mut out: Vec<(u8, u8)> = Vec::with_capacity(4);
    let ghost mut acc: Seq<(u8, u8)> = Seq::empty();
    match shifted(p, 0, -1) {
        Some(q) => out.push(q),
        None => {},
    }
    let ghost a = out@;
    match shifted(p, 0, 1) {
        Some(q) => out.push(q),
        None => {},
    }
    let ghost b = out@;
    match shifted(p, -1, 0) {
        Some(q) => out.push(q),
        None => {},
    }
    let ghost c = out@;
    match shifted(p, 1, 0) {
        Some(q) => out.push(q),
        None => {},
    }
    proof {
        let n = spec_shift(p, 0, -1);
        let s = spec_shift(p, 0, 1);
        let w = spec_shift(p, -1, 0);
        let e = spec_shift(p, 1, 0);
        let sa = if spec_in_bounds(n) { seq![(n.0 as u8, n.1 as u8)] } else { Seq::<(u8, u8)>::empty() };
        let sb = if spec_in_bounds(s) { seq![(s.0 as u8, s.1 as u8)] } else { Seq::<(u8, u8)>::empty() };
        let sc = if spec_in_bounds(w) { seq![(w.0 as u8, w.1 as u8)] } else { Seq::<(u8, u8)>::empty() };
        let sd = if spec_in_bounds(e) { seq![(e.0 as u8, e.1 as u8)] } else { Seq::<(u8, u8)>::empty() };
        assert(a =~= sa);
        assert(b =~= sa + sb);
        assert(c =~= sa + sb + sc);
        assert(out@ =~= sa + sb + sc + sd);
    }
    out
}

/// The corner tile and its two neighbours along the edges: three tiles.
pub open spec fn spec_corner_l(corner: (u8, u8)) -> Seq<(u8, u8)> {
    let inx: u8 = if corner.0 == 0 { 1 } else { 5 };
    let iny: u8 = if corner.1 == 0 { 1 } else { 5 };
    seq![corner, (inx, corner.1), (corner.0, iny)]
}

pub fn corner_l(corner: (u8, u8)) -> (r: [(u8, u8); 3])
    ensures
        r@ == spec_corner_l(corner),
{
    let inx = if corner.0 == 0 { 1 } else { W - 2 };
    let iny = if corner.1 == 0 { 1 } else { H - 2 };
    [corner, (inx, corner.1), (corner.0, iny)]
}

/// The four corners; a tie for the far one goes to the one written last.
pub open spec fn spec_corners() -> Seq<(u8, u8)> {
    seq![(0u8, 0u8), (6, 0), (0, 6), (6, 6)]
}

pub fn corners() -> (r: [(u8, u8); 4])
    ensures
        r@ == spec_corners(),
{
    [(0, 0), (W - 1, 0), (0, H - 1), (W - 1, H - 1)]
}

/// A corner whose L holds no mouth.
pub open spec fn spec_corner_free(c: (u8, u8)) -> bool {
    forall|k: int| 0 <= k < 3 ==> !spec_mouths().contains(#[trigger] spec_corner_l(c)[k])
}

/// The furthest mouth-free corner among the first `n`, the last of equals.
pub open spec fn spec_far_upto(pale: (u8, u8), n: int) -> Option<(u8, u8)>
    decreases n,
{
    if n <= 0 {
        None
    } else {
        let prev = spec_far_upto(pale, n - 1);
        let c = spec_corners()[n - 1];
        if !spec_corner_free(c) {
            prev
        } else {
            match prev {
                None => Some(c),
                Some(b) => if spec_manhattan(b, pale) <= spec_manhattan(c, pale) {
                    Some(c)
                } else {
                    prev
                },
            }
        }
    }
}

/// The corner the pale opens: the one furthest from it, holding no mouth.
pub fn far_corner(pale: (u8, u8)) -> (r: Option<(u8, u8)>)
    requires
        forall|i: int| 0 <= i < 4 && spec_corner_free(#[trigger] spec_corners()[i]) ==> spec_manhattan(spec_corners()[i], pale) <= 255,
    ensures
        r == spec_far_upto(pale, 4),
{
    let cs = corners();
    let mut best: Option<(u8, u8)> = None;
    let mut i: usize = 0;
    while i < 4
        invariant
            0 <= i <= 4,
            cs@ == spec_corners(),
            forall|j: int| 0 <= j < 4 && spec_corner_free(#[trigger] spec_corners()[j]) ==> spec_manhattan(spec_corners()[j], pale) <= 255,
            best == spec_far_upto(pale, i as int),
            best matches Some(b) ==> spec_manhattan(b, pale) <= 255,
        decreases 4 - i,
    {
        let c = cs[i];
        let l = corner_l(c);
        let free = !is_mouth(l[0]) && !is_mouth(l[1]) && !is_mouth(l[2]);
        proof {
            assert(free == spec_corner_free(c)) by {
                if !free {
                } else {
                    assert forall|k: int| 0 <= k < 3 implies !spec_mouths().contains(
                        #[trigger] spec_corner_l(c)[k],
                    ) by {
                        assert(l@[k] == spec_corner_l(c)[k]);
                    }
                }
            }
        }
        if free {
            best = match best {
                None => Some(c),
                Some(b) => if manhattan(b, pale) <= manhattan(c, pale) {
                    Some(c)
                } else {
                    Some(b)
                },
            };
        }
        i = i + 1;
    }
    best
}

/// The county's seed, derived from the run's and never drawn from it: the
/// run's seed with the mode's number parked at bit 40 and the difficulty's at
/// bit 44.
pub fn seed_for(run_seed: u64, mode: u64, difficulty: Difficulty) -> (r: u64)
    ensures
        r == run_seed ^ ((mode << 40u64) as u64) ^ ((
        match difficulty {
            Difficulty::Easy => 0u64,
            Difficulty::Medium => 1u64,
            Difficulty::Hard => 2u64,
            Difficulty::Insane => 3u64,
        } << 44u64) as u64),
{
    let d: u64 = match difficulty {
        Difficulty::Easy => 0,
        Difficulty::Medium => 1,
        Difficulty::Hard => 2,
        Difficulty::Insane => 3,
    };
    run_seed ^ (mode << 40) ^ (d << 44)
}


/// A grid reference: `A1` to `G7`, the way the map's own edges are labelled.
pub fn reference(p: (u8, u8)) -> (r: String)
    requires
        p.0 <= 190,
        p.1 <= 254,
    ensures
        r@ == seq![((p.0 + 65) as u8) as char] + spec_digits((p.1 + 1) as nat),
{
    let mut s = String::new();
    push_char(&mut s, (65u8 + p.0) as char);
    crate::text::push_digits(&mut s, (p.1 as u64) + 1);
    s
}

/// Which way a step goes. Orthogonal only.
#[derive(Copy, Clone, Debug, PartialEq, Eq, Structural)]
pub enum Step {
    North,
    South,
    East,
    West,
}

/// White space as `char::is_whitespace` documents it: the characters with
/// Unicode's `White_Space` property.
pub open spec fn spec_white(c: char) -> bool {
    let u = c as u32;
    ||| 0x9 <= u <= 0xD
    ||| u == 0x20 || u == 0x85 || u == 0xA0 || u == 0x1680
    ||| 0x2000 <= u <= 0x200A
    ||| u == 0x2028 || u == 0x2029 || u == 0x202F || u == 0x205F || u == 0x3000
}

/// A word without its leading white space.
pub open spec fn spec_trim_start(s: Seq<char>) -> Seq<char>
    decreases s.len(),
{
    if s.len() > 0 && spec_white(s[0]) {
        spec_trim_start(s.drop_first())
    } else {
        s
    }
}

/// A word without its trailing white space.
pub open spec fn spec_trim_end(s: Seq<char>) -> Seq<char>
    decreases s.len(),
{
    if s.len() > 0 && spec_white(s.last()) {
        spec_trim_end(s.drop_last())
    } else {
        s
    }
}

/// `str::trim`'s answer for a word: the word without its leading and
/// trailing white space.
pub open spec fn spec_trimmed(s: Seq<char>) -> Seq<char> {
    spec_trim_end(spec_trim_start(s))
}

/// `str::to_lowercase`'s answer for a word: its lowercase mapping.
pub uninterp spec fn spec_lowercased(s: Seq<char>) -> Seq<char>;

/// Calls `str::trim`. Claimed of it, as std documents: the result is the
/// input with leading and trailing white space removed, white space being
/// what `char::is_whitespace` accepts.
#[verifier::external_body]
fn trim_str(s: &str) -> (r: &str)
    ensures
        r@ == spec_trimmed(s@),
{
    s.trim()
}

/// Calls `str::to_lowercase`. Claimed of it: the result's characters are
/// `spec_lowercased` of the input's, a name for the lowercase mapping; the
/// Unicode mapping itself is not spelled out.
#[verifier::external_body]
fn lowercase_str(s: &str) -> (r: String)
    ensures
        r@ == spec_lowercased(s@),
{
    s.to_lowercase()
}

impl Step {
    pub fn all() -> (r: [Step; 4])
        ensures
            r@ == seq![Step::North, Step::South, Step::East, Step::West],
    {
        [Step::North, Step::South, Step::East, Step::West]
    }

    pub open spec fn spec_key(self) -> Seq<char> {
        match self {
            Step::North => "n"@,
            Step::South => "s"@,
            Step::East => "e"@,
            Step::West => "w"@,
        }
    }

    pub fn key(self) -> (r: &'static str)
        ensures
            r@ == self.spec_key(),
    {
        match self {
            Step::North => "n",
            Step::South => "s",
            Step::East => "e",
            Step::West => "w",
        }
    }

    /// The step a typed word names: the word trimmed and lowercased, matched
    /// against the four keys in N, S, E, W order.
    pub fn parse(word: &str) -> (r: Option<Step>)
        ensures
            ({
                let w = spec_lowercased(spec_trimmed(word@));
                r == if w == "n"@ {
                    Some(Step::North)
                } else if w == "s"@ {
                    Some(Step::South)
                } else if w == "e"@ {
                    Some(Step::East)
                } else if w == "w"@ {
                    Some(Step::West)
                } else {
                    None
                }
            }),
    {
        proof {
            reveal_strlit("n");
            reveal_strlit("s");
            reveal_strlit("e");
            reveal_strlit("w");
        }
        let w = lowercase_str(trim_str(word));
        let all = Step::all();
        let mut i: usize = 0;
        while i < 4
            invariant
                0 <= i <= 4,
                all@ == seq![Step::North, Step::South, Step::East, Step::West],
                forall|j: int| 0 <= j < i ==> all@[j].spec_key() != w@,
                w@ == spec_lowercased(spec_trimmed(word@)),
            decreases 4 - i,
        {
            let key = String::from_str(all[i].key());
            if key == w {
                proof {
                    reveal_strlit("n");
                    reveal_strlit("s");
                    reveal_strlit("e");
                    reveal_strlit("w");
                }
                return Some(all[i]);
            }
            i = i + 1;
        }
        None
    }

    pub open spec fn spec_delta(self) -> (int, int) {
        match self {
            Step::North => (0, -1),
            Step::South => (0, 1),
            Step::East => (1, 0),
            Step::West => (-1, 0),
        }
    }

    /// The tile this step lands on, or `None` at the county's edge.
    pub fn from(self, p: (u8, u8)) -> (r: Option<(u8, u8)>)
        requires
            spec_can_shift(p, self.spec_delta().0, self.spec_delta().1),
        ensures
            r == if spec_in_bounds(spec_shift(p, self.spec_delta().0, self.spec_delta().1)) {
                Some(
                    (
                        spec_shift(p, self.spec_delta().0, self.spec_delta().1).0 as u8,
                        spec_shift(p, self.spec_delta().0, self.spec_delta().1).1 as u8,
                    ),
                )
            } else {
                None
            },
    {
        match self {
            Step::North => shifted(p, 0, -1),
            Step::South => shifted(p, 0, 1),
            Step::East => shifted(p, 1, 0),
            Step::West => shifted(p, -1, 0),
        }
    }
}

// ------------------------------------------------------------------ the county

/// A line through the hill: one of the four a tile can sit on.
#[derive(Copy, Clone, Debug, PartialEq, Eq, Structural)]
pub enum Bearing {
    Row,
    Column,
    /// North-west to south-east: `x - y` is constant.
    Falling,
    /// North-east to south-west: `x + y` is constant.
    Rising,
}

impl Bearing {
    pub fn all() -> (r: [Bearing; 4])
        ensures
            r@ == seq![Bearing::Row, Bearing::Column, Bearing::Falling, Bearing::Rising],
    {
        [Bearing::Row, Bearing::Column, Bearing::Falling, Bearing::Rising]
    }

    pub open spec fn spec_holds(self, hill: (u8, u8), p: (u8, u8)) -> bool {
        match self {
            Bearing::Row => p.1 == hill.1,
            Bearing::Column => p.0 == hill.0,
            Bearing::Falling => spec_i8(p.0) - spec_i8(p.1) == spec_i8(hill.0) - spec_i8(hill.1),
            Bearing::Rising => p.0 + p.1 == hill.0 + hill.1,
        }
    }

    /// Whether `p` sits on this line drawn through `hill`.
    pub fn holds(&self, hill: (u8, u8), p: (u8, u8)) -> (r: bool)
        requires
            *self == Bearing::Falling ==> -128 <= spec_i8(p.0) - spec_i8(p.1) <= 127 && -128 <= spec_i8(hill.0)
                - spec_i8(hill.1) <= 127,
            *self == Bearing::Rising ==> p.0 + p.1 <= 255 && hill.0 + hill.1 <= 255,
        ensures
            r == self.spec_holds(hill, p),
    {
        match self {
            Bearing::Row => p.1 == hill.1,
            Bearing::Column => p.0 == hill.0,
            Bearing::Falling => {
                proof {
                    lemma_as_i8(p.0);
                    lemma_as_i8(p.1);
                    lemma_as_i8(hill.0);
                    lemma_as_i8(hill.1);
                }
                p.0 as i8 - p.1 as i8 == hill.0 as i8 - hill.1 as i8
            },
            Bearing::Rising => p.0 + p.1 == hill.0 + hill.1,
        }
    }
}

/// A hill a line can be drawn through without its arithmetic overflowing a
/// byte.
pub open spec fn spec_hill_sightable(b: Bearing, hill: (u8, u8)) -> bool {
    &&& b == Bearing::Falling ==> -128 <= spec_i8(hill.0) - spec_i8(hill.1) <= 127
    &&& b == Bearing::Rising ==> hill.0 + hill.1 <= 255
}

/// The tile index of a grid position, row-major.
pub open spec fn spec_index(p: (u8, u8)) -> int {
    p.1 * 7 + p.0
}

/// The position of a tile index, row-major.
pub open spec fn spec_pos(i: int) -> (u8, u8) {
    ((i % 7) as u8, (i / 7) as u8)
}

#[derive(Copy, Clone, Debug, PartialEq, Eq)]
pub struct County {
    tiles: [Tile; TILES],
    /// Where the three bearing lines cross, and where THE SURVEYOR stands.
    hill: (u8, u8),
    /// Which three of the four lines carry a trig point.
    bearings: [Bearing; 3],
    /// The sealed tile the Enclosure's checklist is read at.
    pale: (u8, u8),
    /// The far corner the pale opens.
    sealed: [(u8, u8); 3],
    /// How many seeds `generate` got through.
    attempts: u8,
}

impl County {
    pub closed spec fn spec_tiles(&self) -> Seq<Tile> {
        self.tiles@
    }

    pub closed spec fn spec_hill(&self) -> (u8, u8) {
        self.hill
    }

    pub closed spec fn spec_bearings(&self) -> Seq<Bearing> {
        self.bearings@
    }

    pub closed spec fn spec_pale(&self) -> (u8, u8) {
        self.pale
    }

    pub closed spec fn spec_sealed(&self) -> Seq<(u8, u8)> {
        self.sealed@
    }

    pub closed spec fn spec_attempts(&self) -> u8 {
        self.attempts
    }

    /// The county with a different attempts count and nothing else changed.
    pub closed spec fn spec_with_attempts(&self, n: u8) -> County {
        County { attempts: n, ..*self }
    }

    /// The same county, carrying `n` as its attempts count.
    fn with_attempts(self, n: u8) -> (r: County)
        ensures
            r == self.spec_with_attempts(n),
    {
        proof {
            use_type_invariant(&self);
        }
        County { attempts: n, ..self }
    }

    /// Every tile says where it is and which region that is.
    #[verifier::type_invariant]
    pub closed spec fn spec_wf(&self) -> bool {
        &&& self.tiles@.len() == 49
        &&& forall|i: int| 0 <= i < 49 ==> (#[trigger] self.tiles@[i]).at == spec_pos(i)
            && self.tiles@[i].region == Region::spec_of_row(spec_pos(i).1)
    }

    /// Assemble a county from forty-nine kinds in row-major order.
    pub fn of(
        kinds: [TileKind; TILES],
        hill: (u8, u8),
        bearings: [Bearing; 3],
        pale: (u8, u8),
        sealed: [(u8, u8); 3],
        attempts: u8,
    ) -> (r: County)
        ensures
            r.spec_wf(),
            r.spec_tiles().len() == 49,
            forall|i: int| 0 <= i < 49 ==> (#[trigger] r.spec_tiles()[i]).kind == kinds@[i],
            forall|i: int| 0 <= i < 49 ==> (#[trigger] r.spec_tiles()[i]).at == spec_pos(i)
                && r.spec_tiles()[i].region == Region::spec_of_row(spec_pos(i).1),
            r.spec_hill() == hill,
            r.spec_bearings() == bearings@,
            r.spec_pale() == pale,
            r.spec_sealed() == sealed@,
            r.spec_attempts() == attempts,
    {
        let blank = Tile { kind: TileKind::Empty, at: (0, 0), region: Region::North };
        let mut tiles = [blank; TILES];
        let mut i: usize = 0;
        while i < TILES
            invariant
                0 <= i <= 49,
                tiles@.len() == 49,
                forall|j: int| 0 <= j < i ==> (#[trigger] tiles@[j]).at == spec_pos(j) && tiles@[j].kind
                    == kinds@[j] && tiles@[j].region == Region::spec_of_row(spec_pos(j).1),
            decreases 49 - i,
        {
            let x = (i % 7) as u8;
            let y = (i / 7) as u8;
            tiles.set(i, Tile { kind: kinds[i], at: (x, y), region: Region::of_row(y) });
            i = i + 1;
        }
        County { tiles, hill, bearings, pale, sealed, attempts }
    }

    /// The county as a run sees it: the hill drawn as open ground until the
    /// third sighting is taken.
    pub fn as_seen(&self, sightings: usize) -> (r: County)
        requires
            sightings < 3 ==> spec_index(self.spec_hill()) < 49,
        ensures
            sightings >= 3 ==> r == *self,
            sightings < 3 ==> r.spec_tiles() == self.spec_tiles().update(
                spec_index(self.spec_hill()),
                Tile { kind: TileKind::Empty, ..self.spec_tiles()[spec_index(self.spec_hill())] },
            ),
            sightings < 3 ==> r.spec_hill() == self.spec_hill() && r.spec_bearings()
                == self.spec_bearings() && r.spec_pale() == self.spec_pale() && r.spec_sealed()
                == self.spec_sealed() && r.spec_attempts() == self.spec_attempts(),
    {
        proof {
            use_type_invariant(self);
        }
        if sightings >= 3 {
            return *self;
        }
        let i = self.hill.1 as usize * 7 + self.hill.0 as usize;
        let mut tiles = self.tiles;
        let t = tiles[i];
        tiles.set(i, Tile { kind: TileKind::Empty, ..t });
        County {
            tiles,
            hill: self.hill,
            bearings: self.bearings,
            pale: self.pale,
            sealed: self.sealed,
            attempts: self.attempts,
        }
    }

    /// The full line through the hill that the `nth` trig point draws, in
    /// reading order; empty past the third.
    pub fn sighting(&self, nth: u8) -> (r: Vec<(u8, u8)>)
        requires
            nth >= 1,
            nth <= 3 ==> spec_hill_sightable(self.spec_bearings()[nth - 1], self.spec_hill()),
        ensures
            r@ == if nth <= 3 {
                spec_line(self.spec_bearings()[nth - 1], self.spec_hill(), 49)
            } else {
                Seq::empty()
            },
    {
        let k = nth as usize - 1;
        if k >= 3 {
            return Vec::new();
        }
        let b = self.bearings[k];
        let mut out: Vec<(u8, u8)> = Vec::new();
        let mut i: usize = 0;
        while i < 49
            invariant
                0 <= i <= 49,
                b == self.bearings@[k as int],
                spec_hill_sightable(b, self.hill),
                out@ == spec_line(b, self.hill, i as int),
            decreases 49 - i,
        {
            let p = ((i % 7) as u8, (i / 7) as u8);
            if b.holds(self.hill, p) {
                out.push(p);
            }
            i = i + 1;
        }
        out
    }

    pub fn at(&self, p: (u8, u8)) -> (r: &Tile)
        requires
            spec_index(p) < 49,
        ensures
            *r == self.spec_tiles()[spec_index(p)],
            spec_on_grid(p) ==> r.at == p && r.region == Region::spec_of_row(p.1),
    {
        proof {
            use_type_invariant(self);
            if spec_on_grid(p) {
                lemma_index_pos(p);
            }
        }
        &self.tiles[p.1 as usize * 7 + p.0 as usize]
    }

    pub fn tiles(&self) -> (r: &[Tile; TILES])
        ensures
            r@ == self.spec_tiles(),
            forall|i: int| 0 <= i < 49 ==> (#[trigger] r@[i]).at == spec_pos(i)
                && r@[i].region == Region::spec_of_row(spec_pos(i).1),
    {
        proof {
            use_type_invariant(self);
        }
        &self.tiles
    }

    pub fn hill(&self) -> (r: (u8, u8))
        ensures
            r == self.spec_hill(),
    {
        self.hill
    }

    pub fn bearings(&self) -> (r: &[Bearing; 3])
        ensures
            r@ == self.spec_bearings(),
    {
        &self.bearings
    }

    pub fn pale(&self) -> (r: (u8, u8))
        ensures
            r == self.spec_pale(),
    {
        self.pale
    }

    pub fn sealed(&self) -> (r: &[(u8, u8); 3])
        ensures
            r@ == self.spec_sealed(),
    {
        &self.sealed
    }

    pub fn attempts(&self) -> (r: u8)
        ensures
            r == self.spec_attempts(),
    {
        self.attempts
    }

    /// True when every seed in the retry window was refused and this is the
    /// authored county rather than a derived one.
    pub fn is_fallback(&self) -> (r: bool)
        ensures
            r == (self.spec_attempts() == ATTEMPTS),
    {
        self.attempts == ATTEMPTS
    }

    pub fn is_sealed(&self, p: (u8, u8)) -> (r: bool)
        ensures
            r == self.spec_sealed().contains(p),
    {
        let mut i: usize = 0;
        while i < 3
            invariant
                0 <= i <= 3,
                forall|j: int| 0 <= j < i ==> self.sealed@[j] != p,
            decreases 3 - i,
        {
            if self.sealed[i].0 == p.0 && self.sealed[i].1 == p.1 {
                return true;
            }
            i = i + 1;
        }
        false
    }

    /// The tiles a chain's objectives stand on, in `nth` order (ties by
    /// column, then row).
    pub fn objectives(&self, chain: Chain) -> (r: Vec<(u8, u8)>)
        ensures
            r@ == spec_objectives(self.spec_tiles(), chain, 12544),
    {
        let mut out: Vec<(u8, u8)> = Vec::new();
        let mut n: usize = 0;
        while n < 256 * 49
            invariant
                0 <= n <= 256 * 49,
                self.tiles@.len() == 49,
                out@ == spec_objectives(self.tiles@, chain, n as int),
            decreases 256 * 49 - n,
        {
            let nth = (n / 49) as u8;
            let x = ((n % 49) / 7) as u8;
            let y = (n % 7) as u8;
            match self.tiles[y as usize * 7 + x as usize].kind {
                TileKind::Objective { chain: c, nth: k } => {
                    if c == chain && k == nth {
                        out.push((x, y));
                    }
                },
                _ => {},
            }
            n = n + 1;
        }
        out
    }

    pub fn pinnacle(&self, chain: Chain) -> (r: Option<(u8, u8)>)
        ensures
            r == (match spec_first_tile(self.spec_tiles(), |k: TileKind| k == TileKind::Pinnacle { chain }, 49) {
                Some(i) => Some(self.spec_tiles()[i].at),
                None => None::<(u8, u8)>,
            }),
    {
        let mut i: usize = 0;
        while i < 49
            invariant
                0 <= i <= 49,
                self.tiles@.len() == 49,
                spec_first_tile(self.tiles@, |k: TileKind| k == TileKind::Pinnacle { chain }, i as int) is None,
            decreases 49 - i,
        {
            proof {
                lemma_first_tile_step(self.tiles@, |k: TileKind| k == TileKind::Pinnacle { chain }, i as int);
            }
            match self.tiles[i].kind {
                TileKind::Pinnacle { chain: c } => {
                    if c == chain {
                        proof {
                            lemma_first_tile_rest(self.tiles@, |k: TileKind| k == TileKind::Pinnacle { chain }, i as int + 1);
                        }
                        return Some(self.tiles[i].at);
                    }
                },
                _ => {},
            }
            i = i + 1;
        }
        None
    }

    /// Where the gaol is, if the county has one.
    pub fn gaol(&self) -> (r: Option<(u8, u8)>)
        ensures
            r == (match spec_first_tile(self.spec_tiles(), |k: TileKind| k == TileKind::Gaol, 49) {
                Some(i) => Some(self.spec_tiles()[i].at),
                None => None::<(u8, u8)>,
            }),
    {
        let mut i: usize = 0;
        while i < 49
            invariant
                0 <= i <= 49,
                self.tiles@.len() == 49,
                spec_first_tile(self.tiles@, |k: TileKind| k == TileKind::Gaol, i as int) is None,
            decreases 49 - i,
        {
            proof {
                lemma_first_tile_step(self.tiles@, |k: TileKind| k == TileKind::Gaol, i as int);
            }
            match self.tiles[i].kind {
                TileKind::Gaol => {
                    proof {
                        lemma_first_tile_rest(self.tiles@, |k: TileKind| k == TileKind::Gaol, i as int + 1);
                    }
                    return Some(self.tiles[i].at);
                },
                _ => {},
            }
            i = i + 1;
        }
        None
    }

    /// How many tiles have a kind `want` says yes to.
    pub fn count(&self, want: impl Fn(&TileKind) -> bool) -> (r: usize)
        requires
            forall|k: TileKind| want.requires((&k,)),
        ensures
            r <= 49,
            exists|chosen: Seq<bool>| chosen.len() == 49
                && (forall|i: int| 0 <= i < 49 ==> call_ensures(want, (&self.spec_tiles()[i].kind,), #[trigger] chosen[i]))
                && r == spec_count_true(chosen, 49),
    {
        let ghost mut chosen: Seq<bool> = Seq::empty();
        let mut c: usize = 0;
        let mut i: usize = 0;
        while i < 49
            invariant
                0 <= i <= 49,
                self.tiles@.len() == 49,
                forall|k: TileKind| want.requires((&k,)),
                chosen.len() == i,
                forall|j: int| 0 <= j < i ==> call_ensures(want, (&self.tiles@[j].kind,), #[trigger] chosen[j]),
                c == spec_count_true(chosen, i as int),
                c <= i,
            decreases 49 - i,
        {
            let yes = want(&self.tiles[i].kind);
            proof {
                let ghost before = chosen;
                chosen = chosen.push(yes);
                assert(chosen.drop_last() =~= before);
                lemma_count_true_prefix(chosen, i as int);
            }
            if yes {
                c = c + 1;
            }
            i = i + 1;
        }
        c
    }
}

/// How many of the first `n` flags are set.
pub open spec fn spec_count_true(s: Seq<bool>, n: int) -> int
    decreases n,
{
    if n <= 0 {
        0
    } else {
        spec_count_true(s, n - 1) + if s[n - 1] { 1int } else { 0int }
    }
}

proof fn lemma_count_true_prefix(s: Seq<bool>, n: int)
    requires
        0 <= n < s.len(),
    ensures
        spec_count_true(s, n) == spec_count_true(s.drop_last(), n),
    decreases n,
{
    if n > 0 {
        lemma_count_true_prefix(s, n - 1);
    }
}

/// The points among the first `n` of the grid, in reading order, that sit on
/// bearing `b` through `hill`.
pub open spec fn spec_line(b: Bearing, hill: (u8, u8), n: int) -> Seq<(u8, u8)>
    decreases n,
{
    if n <= 0 {
        Seq::empty()
    } else if b.spec_holds(hill, spec_pos(n - 1)) {
        spec_line(b, hill, n - 1).push(spec_pos(n - 1))
    } else {
        spec_line(b, hill, n - 1)
    }
}

/// A chain's objectives among the first `n` keys of the order
/// (`nth`, column, row): key `k` is `nth = k / 49`, column `(k % 49) / 7`,
/// row `k % 7`.
pub open spec fn spec_objectives(tiles: Seq<Tile>, chain: Chain, n: int) -> Seq<(u8, u8)>
    decreases n,
{
    if n <= 0 {
        Seq::empty()
    } else {
        let k = n - 1;
        let nth = (k / 49) as u8;
        let x = ((k % 49) / 7) as u8;
        let y = (k % 7) as u8;
        let rest = spec_objectives(tiles, chain, n - 1);
        if tiles[y * 7 + x].kind == (TileKind::Objective { chain, nth }) {
            rest.push((x, y))
        } else {
            rest
        }
    }
}

/// The first of the first `n` tiles whose kind satisfies `pred`.
pub open spec fn spec_first_tile(tiles: Seq<Tile>, pred: spec_fn(TileKind) -> bool, n: int) -> Option<int>
    decreases n,
{
    if n <= 0 {
        None
    } else {
        match spec_first_tile(tiles, pred, n - 1) {
            Some(i) => Some(i),
            None => if pred(tiles[n - 1].kind) {
                Some(n - 1)
            } else {
                None
            },
        }
    }
}

proof fn lemma_first_tile_step(tiles: Seq<Tile>, pred: spec_fn(TileKind) -> bool, i: int)
    requires
        0 <= i,
        spec_first_tile(tiles, pred, i) is None,
    ensures
        spec_first_tile(tiles, pred, i + 1) == if pred(tiles[i].kind) {
            Some(i)
        } else {
            None::<int>
        },
{
}

proof fn lemma_first_tile_rest(tiles: Seq<Tile>, pred: spec_fn(TileKind) -> bool, n: int)
    requires
        1 <= n <= 49,
        spec_first_tile(tiles, pred, n) is Some,
    ensures
        spec_first_tile(tiles, pred, 49) == spec_first_tile(tiles, pred, n),
    decreases 49 - n,
{
    if n < 49 {
        lemma_first_tile_rest(tiles, pred, n + 1);
    }
}


// ------------------------------------------------------------------ the checks

/// How far a trip reaches, and how many tolls it may cross getting there.
pub const REACH: u8 = 5;
pub const TOLL_BUDGET: u8 = 1;

/// An exec slot read as a number of tolls.
pub open spec fn spec_slot(o: Option<u8>) -> Option<int> {
    match o {
        Some(t) => Some(t as int),
        None => None,
    }
}

/// The smaller of two toll counts, where `None` is "not reached".
pub open spec fn spec_omin(a: Option<int>, b: Option<int>) -> Option<int> {
    match (a, b) {
        (Some(x), Some(y)) => Some(if x <= y { x } else { y }),
        (Some(x), None) => Some(x),
        (None, _) => b,
    }
}

pub open spec fn spec_on_grid(p: (u8, u8)) -> bool {
    p.0 < 7 && p.1 < 7
}

/// One if stepping onto `p` crosses a toll.
pub open spec fn spec_toll_at(tiles: Seq<Tile>, p: (u8, u8)) -> int {
    if tiles[spec_index(p)].kind is Feature {
        1
    } else {
        0
    }
}

/// The fewest tolls crossed on any walk of at most `k` moves from one of
/// `src` to `p` that never crosses more than `budget`; `None` when there is no
/// such walk. Arriving on a source is free.
pub open spec fn spec_reach(tiles: Seq<Tile>, src: Seq<(u8, u8)>, budget: int, k: nat, p: (u8, u8)) -> Option<int>
    decreases k, 5nat,
{
    if !spec_on_grid(p) {
        None
    } else if k == 0 {
        if src.contains(p) {
            Some(0)
        } else {
            None
        }
    } else {
        spec_omin(
            spec_reach(tiles, src, budget, (k - 1) as nat, p),
            spec_via(tiles, src, budget, k, p, spec_neighbours(p).len()),
        )
    }
}

/// The best arrival at `p` in move `k` through the first `n` of its
/// neighbours, each reached in at most `k - 1` moves.
pub open spec fn spec_via(tiles: Seq<Tile>, src: Seq<(u8, u8)>, budget: int, k: nat, p: (u8, u8), n: nat) -> Option<int>
    decreases k, n,
{
    if k == 0 || n == 0 || n > 4 {
        None
    } else {
        let rest = spec_via(tiles, src, budget, k, p, (n - 1) as nat);
        let q = spec_neighbours(p)[n - 1];
        match spec_reach(tiles, src, budget, (k - 1) as nat, q) {
            Some(t) => if t + spec_toll_at(tiles, p) <= budget {
                spec_omin(rest, Some(t + spec_toll_at(tiles, p)))
            } else {
                rest
            },
            None => rest,
        }
    }
}

proof fn lemma_pos_index(i: int)
    requires
        0 <= i < 49,
    ensures
        spec_on_grid(spec_pos(i)),
        spec_index(spec_pos(i)) == i,
{
}

proof fn lemma_index_pos(p: (u8, u8))
    requires
        spec_on_grid(p),
    ensures
        0 <= spec_index(p) < 49,
        spec_pos(spec_index(p)) == p,
{
}

proof fn lemma_neighbours_on_grid(p: (u8, u8))
    requires
        spec_on_grid(p),
    ensures
        spec_neighbours(p).len() <= 4,
        forall|j: int| 0 <= j < spec_neighbours(p).len() ==> spec_on_grid(#[trigger] spec_neighbours(p)[j]),
{
}

/// Whether `src` holds `p`.
fn holds_point(src: &Vec<(u8, u8)>, p: (u8, u8)) -> (r: bool)
    ensures
        r == src@.contains(p),
{
    let mut i: usize = 0;
    while i < src.len()
        invariant
            0 <= i <= src.len(),
            forall|j: int| 0 <= j < i ==> src@[j] != p,
        decreases src.len() - i,
    {
        if src[i].0 == p.0 && src[i].1 == p.1 {
            proof {
                assert(src@[i as int] == p);
            }
            return true;
        }
        i = i + 1;
    }
    false
}

/// The next layer of the reach table: every tile's best after one more move.
#[verifier::spinoff_prover]
fn relax(c: &County, src: &Vec<(u8, u8)>, budget: u8, k: u8, prev: &Vec<Option<u8>>) -> (r: Vec<Option<u8>>)
    requires
        prev.len() == 49,
        forall|i: int| 0 <= i < 49 ==> spec_slot(#[trigger] prev@[i]) == spec_reach(c.spec_tiles(), src@, budget as int, k as nat, spec_pos(i)),
        k < 255,
    ensures
        r.len() == 49,
        forall|i: int| 0 <= i < 49 ==> spec_slot(#[trigger] r@[i]) == spec_reach(c.spec_tiles(), src@, budget as int, (k + 1) as nat, spec_pos(i)),
{
    let ghost tiles = c.spec_tiles();
    let mut next: Vec<Option<u8>> = Vec::with_capacity(49);
    let mut i: usize = 0;
    while i < 49
        invariant
            0 <= i <= 49,
            next.len() == i,
            prev.len() == 49,
            tiles == c.spec_tiles(),
            k < 255,
            forall|j: int| 0 <= j < 49 ==> spec_slot(#[trigger] prev@[j]) == spec_reach(tiles, src@, budget as int, k as nat, spec_pos(j)),
            forall|j: int| 0 <= j < i ==> spec_slot(#[trigger] next@[j]) == spec_reach(tiles, src@, budget as int, (k + 1) as nat, spec_pos(j)),
        decreases 49 - i,
    {
        let p: (u8, u8) = ((i % 7) as u8, (i / 7) as u8);
        proof {
            lemma_pos_index(i as int);
            lemma_neighbours_on_grid(p);
        }
        let cost: u16 = match c.tiles[i].kind {
            TileKind::Feature(_) => 1,
            _ => 0,
        };
        let ns = neighbours(p);
        let mut acc: Option<u8> = prev[i];
        let mut via: Option<u8> = None;
        let mut j: usize = 0;
        while j < ns.len()
            invariant
                0 <= j <= ns.len(),
                ns@ == spec_neighbours(p),
                ns.len() <= 4,
                spec_on_grid(p),
                spec_index(p) == i,
                i < 49,
                prev.len() == 49,
                tiles == c.spec_tiles(),
                cost == spec_toll_at(tiles, p),
                forall|m: int| 0 <= m < ns.len() ==> spec_on_grid(#[trigger] ns@[m]),
                forall|m: int| 0 <= m < 49 ==> spec_slot(#[trigger] prev@[m]) == spec_reach(tiles, src@, budget as int, k as nat, spec_pos(m)),
                spec_slot(via) == spec_via(tiles, src@, budget as int, (k + 1) as nat, p, j as nat),
            decreases ns.len() - j,
        {
            let q = ns[j];
            proof {
                lemma_index_pos(q);
            }
            let qi = q.1 as usize * 7 + q.0 as usize;
            match prev[qi] {
                Some(t) => {
                    if (t as u16) + cost <= budget as u16 {
                        let cand: u8 = t + (cost as u8);
                        via = match via {
                            Some(v) => if v <= cand { Some(v) } else { Some(cand) },
                            None => Some(cand),
                        };
                    }
                },
                None => {},
            }
            j = j + 1;
        }
        acc = match (acc, via) {
            (Some(a), Some(v)) => if a <= v { Some(a) } else { Some(v) },
            (Some(a), None) => Some(a),
            (None, _) => via,
        };
        next.push(acc);
        i = i + 1;
    }
    next
}

/// The reach table from `src`: slot `y * 7 + x` holds the fewest tolls on any
/// walk of at most `moves` moves crossing at most `budget`.
fn reach_from(c: &County, src: &Vec<(u8, u8)>, moves: u8, budget: u8) -> (r: Vec<Option<u8>>)
    ensures
        r.len() == 49,
        forall|i: int| 0 <= i < 49 ==> spec_slot(#[trigger] r@[i]) == spec_reach(c.spec_tiles(), src@, budget as int, moves as nat, spec_pos(i)),
{
    let mut layer: Vec<Option<u8>> = Vec::with_capacity(49);
    let mut i: usize = 0;
    while i < 49
        invariant
            0 <= i <= 49,
            layer.len() == i,
            forall|j: int| 0 <= j < i ==> spec_slot(#[trigger] layer@[j]) == spec_reach(c.spec_tiles(), src@, budget as int, 0, spec_pos(j)),
        decreases 49 - i,
    {
        let p: (u8, u8) = ((i % 7) as u8, (i / 7) as u8);
        proof {
            lemma_pos_index(i as int);
        }
        if holds_point(src, p) {
            layer.push(Some(0));
        } else {
            layer.push(None);
        }
        i = i + 1;
    }
    let mut k: u8 = 0;
    while k < moves
        invariant
            0 <= k <= moves,
            layer.len() == 49,
            forall|j: int| 0 <= j < 49 ==> spec_slot(#[trigger] layer@[j]) == spec_reach(c.spec_tiles(), src@, budget as int, k as nat, spec_pos(j)),
        decreases moves - k,
    {
        layer = relax(c, src, budget, k, &layer);
        k = k + 1;
    }
    layer
}

/// The mouths' own tiles, in town order.
fn mouth_points() -> (r: Vec<(u8, u8)>)
    ensures
        r@ == spec_mouths(),
{
    let ms = mouths();
    let mut out: Vec<(u8, u8)> = Vec::new();
    let mut i: usize = 0;
    while i < 6
        invariant
            0 <= i <= 6,
            forall|j: int| 0 <= j < 6 ==> #[trigger] ms@[j].1 == spec_mouths()[j],
            out@ == spec_mouths().take(i as int),
        decreases 6 - i,
    {
        out.push(ms[i].1);
        proof {
            assert(spec_mouths().take(i as int + 1) =~= spec_mouths().take(i as int).push(spec_mouths()[i as int]));
        }
        i = i + 1;
    }
    proof {
        assert(spec_mouths().take(6) =~= spec_mouths());
    }
    out
}

/// Every tile reachable from some mouth in `moves` moves crossing at most
/// `budget` tolls, with the pale treated as open: slot `y * 7 + x` holds the
/// fewest tolls crossed getting there.
fn reachable_within(c: &County, moves: u8, budget: u8) -> (r: Vec<Option<u8>>)
    ensures
        r.len() == 49,
        forall|i: int| 0 <= i < 49 ==> spec_slot(#[trigger] r@[i]) == spec_reach(c.spec_tiles(), spec_mouths(), budget as int, moves as nat, spec_pos(i)),
{
    let src = mouth_points();
    reach_from(c, &src, moves, budget)
}


/// The towns' names for their mouths, in town order.
pub open spec fn spec_mouth_ids() -> Seq<Seq<char>> {
    seq!["sump-bottom"@, "kettleworks"@, "high-wick"@, "extra-large"@, "the-manse"@, "the-slagworks"@]
}

/// Whether one trip from mouth `m` reaches `p`.
pub open spec fn spec_trip_reaches(tiles: Seq<Tile>, m: (u8, u8), p: (u8, u8)) -> bool {
    spec_reach(tiles, seq![m], TOLL_BUDGET as int, REACH as nat, p) is Some
}

/// The mouths, among the first `n`, that one trip from reaches `p`, by
/// their place in town order.
pub open spec fn spec_mouth_set(tiles: Seq<Tile>, p: (u8, u8), n: int) -> Seq<int>
    decreases n,
{
    if n <= 0 {
        Seq::empty()
    } else if spec_trip_reaches(tiles, spec_mouths()[n - 1], p) {
        spec_mouth_set(tiles, p, n - 1).push(n - 1)
    } else {
        spec_mouth_set(tiles, p, n - 1)
    }
}

proof fn lemma_mouth_set_bounds(tiles: Seq<Tile>, p: (u8, u8), n: int)
    requires
        0 <= n <= 6,
    ensures
        forall|i: int| 0 <= i < spec_mouth_set(tiles, p, n).len() ==> 0 <= #[trigger] spec_mouth_set(tiles, p, n)[i] < n,
    decreases n,
{
    if n > 0 {
        lemma_mouth_set_bounds(tiles, p, n - 1);
        let prev = spec_mouth_set(tiles, p, n - 1);
        let s = spec_mouth_set(tiles, p, n);
        assert forall|i: int| 0 <= i < s.len() implies 0 <= #[trigger] s[i] < n by {
            if i < prev.len() {
                assert(s[i] == prev[i]);
            }
        }
    }
}

/// Which mouths (by place in town order) reach `p` within one trip.
fn mouth_set(c: &County, p: (u8, u8)) -> (r: Vec<usize>)
    ensures
        r@.len() == spec_mouth_set(c.spec_tiles(), p, 6).len(),
        forall|i: int| 0 <= i < r@.len() ==> r@[i] as int == #[trigger] spec_mouth_set(c.spec_tiles(), p, 6)[i],
{
    let ms = mouths();
    let mut out: Vec<usize> = Vec::new();
    let mut i: usize = 0;
    while i < 6
        invariant
            0 <= i <= 6,
            forall|j: int| 0 <= j < 6 ==> #[trigger] ms@[j].1 == spec_mouths()[j],
            out@.len() == spec_mouth_set(c.spec_tiles(), p, i as int).len(),
            forall|j: int| 0 <= j < out@.len() ==> out@[j] as int == #[trigger] spec_mouth_set(c.spec_tiles(), p, i as int)[j],
        decreases 6 - i,
    {
        let src = vec![ms[i].1];
        let table = reach_from(c, &src, REACH, TOLL_BUDGET);
        let hit = if p.0 < 7 && p.1 < 7 {
            let pi = p.1 as usize * 7 + p.0 as usize;
            proof {
                lemma_index_pos(p);
                assert(src@ == seq![spec_mouths()[i as int]]);
            }
            table[pi].is_some()
        } else {
            false
        };
        proof {
            assert(src@ == seq![spec_mouths()[i as int]]);
        }
        if hit {
            out.push(i);
        }
        i = i + 1;
    }
    out
}

/// Which mouths each tile can be reached from, within the trip budget.
pub fn mouths_reaching(c: &County, p: (u8, u8)) -> (r: Vec<&'static str>)
    ensures
        r@.len() == spec_mouth_set(c.spec_tiles(), p, 6).len(),
        forall|i: int| 0 <= i < r@.len() ==> (#[trigger] r@[i])@ == spec_mouth_ids()[spec_mouth_set(c.spec_tiles(), p, 6)[i]],
{
    let ms = mouths();
    let set = mouth_set(c, p);
    proof {
        lemma_mouth_set_bounds(c.spec_tiles(), p, 6);
        reveal_strlit("sump-bottom");
        reveal_strlit("kettleworks");
        reveal_strlit("high-wick");
        reveal_strlit("extra-large");
        reveal_strlit("the-manse");
        reveal_strlit("the-slagworks");
    }
    let mut out: Vec<&'static str> = Vec::new();
    let mut i: usize = 0;
    while i < set.len()
        invariant
            0 <= i <= set.len(),
            set@.len() == spec_mouth_set(c.spec_tiles(), p, 6).len(),
            forall|j: int| 0 <= j < set@.len() ==> set@[j] as int == #[trigger] spec_mouth_set(c.spec_tiles(), p, 6)[j],
            forall|j: int| 0 <= j < set@.len() ==> 0 <= #[trigger] spec_mouth_set(c.spec_tiles(), p, 6)[j] < 6,
            ms@[0].0@ == "sump-bottom"@,
            ms@[1].0@ == "kettleworks"@,
            ms@[2].0@ == "high-wick"@,
            ms@[3].0@ == "extra-large"@,
            ms@[4].0@ == "the-manse"@,
            ms@[5].0@ == "the-slagworks"@,
            out@.len() == i,
            forall|j: int| 0 <= j < i ==> (#[trigger] out@[j])@ == spec_mouth_ids()[spec_mouth_set(c.spec_tiles(), p, 6)[j]],
        decreases set.len() - i,
    {
        let k = set[i];
        proof {
            assert(0 <= spec_mouth_set(c.spec_tiles(), p, 6)[i as int] < 6);
        }
        out.push(ms[k].0);
        i = i + 1;
    }
    out
}


// ------------------------------------------------------------- the refusals

/// The points of the first `n` tiles whose kinds `pred` picks, in tile order.
pub open spec fn spec_points(tiles: Seq<Tile>, pred: spec_fn(TileKind) -> bool, n: int) -> Seq<(u8, u8)>
    decreases n,
{
    if n <= 0 {
        Seq::empty()
    } else if pred(tiles[n - 1].kind) {
        spec_points(tiles, pred, n - 1).push(tiles[n - 1].at)
    } else {
        spec_points(tiles, pred, n - 1)
    }
}

pub open spec fn spec_is_chain_objective(chain: Chain) -> spec_fn(TileKind) -> bool {
    |k: TileKind| k matches TileKind::Objective { chain: c, .. } && c == chain
}

pub open spec fn spec_is_pinnacle() -> spec_fn(TileKind) -> bool {
    |k: TileKind| k is Pinnacle
}

pub open spec fn spec_matters() -> spec_fn(TileKind) -> bool {
    |k: TileKind| k is Objective || k is Pinnacle
}

/// The fewest tolls from the nearest mouth within `moves`, crossing at most
/// `budget`.
pub open spec fn spec_near(tiles: Seq<Tile>, moves: nat, budget: int, p: (u8, u8)) -> bool {
    spec_reach(tiles, spec_mouths(), budget, moves, p) is Some
}

/// The pale, the hill, and every objective and pinnacle are within `moves`
/// of some mouth crossing at most one toll.
pub open spec fn spec_all_that_matters_near(c: County, moves: nat) -> bool {
    &&& spec_near(c.spec_tiles(), moves, 1, c.spec_pale())
    &&& spec_near(c.spec_tiles(), moves, 1, c.spec_hill())
    &&& forall|i: int| 0 <= i < 49 && (spec_matters())(c.spec_tiles()[i].kind)
        ==> spec_near(c.spec_tiles(), moves, 1, #[trigger] c.spec_tiles()[i].at)
}

/// V1: everything that matters is one trip from a gate.
pub open spec fn spec_v1(c: County) -> bool {
    spec_all_that_matters_near(c, REACH as nat)
}

/// V2 for one chain: exactly three objectives, and three different mouths
/// that reach them one each.
pub open spec fn spec_v2_chain(c: County, chain: Chain) -> bool {
    let o = spec_points(c.spec_tiles(), spec_is_chain_objective(chain), 49);
    &&& o.len() == 3
    &&& exists|a: int, b: int, z: int|
        0 <= a < 6 && 0 <= b < 6 && 0 <= z < 6 && a != b && a != z && b != z
            && #[trigger] spec_trip_reaches(c.spec_tiles(), spec_mouths()[a], o[0])
            && #[trigger] spec_trip_reaches(c.spec_tiles(), spec_mouths()[b], o[1])
            && #[trigger] spec_trip_reaches(c.spec_tiles(), spec_mouths()[z], o[2])
}

/// V3 for one chain: no two of its objectives adjacent.
pub open spec fn spec_v3_chain(c: County, chain: Chain) -> bool {
    let o = spec_points(c.spec_tiles(), spec_is_chain_objective(chain), 49);
    forall|i: int, j: int| 0 <= i < j < o.len() ==> spec_manhattan(#[trigger] o[i], #[trigger] o[j]) > 1
}

/// Whether some point of `o` lies in region `r`.
pub open spec fn spec_in_region(o: Seq<(u8, u8)>, r: Region) -> bool {
    exists|i: int| 0 <= i < o.len() && Region::spec_of_row(#[trigger] o[i].1) == r
}

/// V4 for one chain: its objectives cover all three regions.
pub open spec fn spec_v4_chain(c: County, chain: Chain) -> bool {
    let o = spec_points(c.spec_tiles(), spec_is_chain_objective(chain), 49);
    &&& spec_in_region(o, Region::North)
    &&& spec_in_region(o, Region::Middle)
    &&& spec_in_region(o, Region::South)
}

/// V5: the pale is inland, off the circuit, two from every mouth, and the
/// sealed corner holds no mouth.
pub open spec fn spec_v5(c: County) -> bool {
    &&& !spec_on_edge(c.spec_pale())
    &&& !spec_circuit().contains(c.spec_pale())
    &&& forall|i: int| 0 <= i < 6 ==> spec_manhattan(c.spec_pale(), #[trigger] spec_mouths()[i]) >= 2
    &&& forall|i: int| 0 <= i < 3 ==> !spec_mouths().contains(#[trigger] c.spec_sealed()[i])
}

/// V6: the pinnacles are three apart, and none stands on or beside a mouth.
pub open spec fn spec_v6(c: County) -> bool {
    let pins = spec_points(c.spec_tiles(), spec_is_pinnacle(), 49);
    &&& forall|i: int, j: int| 0 <= i < j < pins.len() ==> spec_manhattan(#[trigger] pins[i], #[trigger] pins[j]) >= 3
    &&& forall|i: int| 0 <= i < pins.len() ==> !spec_mouths().contains(#[trigger] pins[i])
    &&& forall|i: int, j: int| 0 <= i < pins.len() && 0 <= j < spec_neighbours(pins[i]).len()
        ==> !spec_mouths().contains(#[trigger] spec_neighbours(#[trigger] pins[i])[j])
}

/// V7: every tile is within eight moves of some mouth.
pub open spec fn spec_v7(c: County) -> bool {
    forall|i: int| 0 <= i < 49 ==> spec_near(c.spec_tiles(), 8, 12, #[trigger] c.spec_tiles()[i].at)
}

/// V8: nothing that matters is walled in by two tolls.
pub open spec fn spec_v8(c: County) -> bool {
    spec_all_that_matters_near(c, 8)
}

/// V9: there is a gaol, within three of D4, and two from every mouth.
pub open spec fn spec_v9(c: County) -> bool {
    match spec_first_tile(c.spec_tiles(), |k: TileKind| k == TileKind::Gaol, 49) {
        None => false,
        Some(g) => {
            let at = c.spec_tiles()[g].at;
            &&& spec_manhattan(at, (3, 3)) <= 3
            &&& forall|i: int| 0 <= i < 6 ==> spec_manhattan(at, #[trigger] spec_mouths()[i]) >= 2
        },
    }
}

/// How many of the first `n` tiles `pred` picks.
pub open spec fn spec_kind_count(tiles: Seq<Tile>, pred: spec_fn(TileKind) -> bool, n: int) -> int
    decreases n,
{
    if n <= 0 {
        0
    } else {
        spec_kind_count(tiles, pred, n - 1) + if pred(tiles[n - 1].kind) { 1int } else { 0int }
    }
}

pub open spec fn spec_within_one(got: int, want: int) -> bool {
    want - 1 <= got <= want + 1
}

/// Which of the six kinds of tile a kind is, in the order V10 counts them:
/// objectives, pinnacles, gaols, events, features, empties.
pub open spec fn spec_class(k: TileKind) -> int {
    match k {
        TileKind::Objective { .. } => 0,
        TileKind::Pinnacle { .. } => 1,
        TileKind::Gaol => 2,
        TileKind::Event(_) => 3,
        TileKind::Feature(_) => 4,
        TileKind::Empty => 5,
    }
}

pub open spec fn spec_of_class(class: int) -> spec_fn(TileKind) -> bool {
    |k: TileKind| spec_class(k) == class
}

/// How many of each kind V10 wants: nine objectives, three pinnacles, one
/// gaol, and twelve each of events, features and empties.
pub open spec fn spec_wanted(class: int) -> int {
    if class == 0 {
        9
    } else if class == 1 {
        3
    } else if class == 2 {
        1
    } else {
        12
    }
}

/// V10: the composition, within one tile of the plan in each kind.
pub open spec fn spec_v10(c: County) -> bool {
    forall|class: int| 0 <= class < 6 ==> spec_within_one(
        spec_kind_count(c.spec_tiles(), #[trigger] spec_of_class(class), 49),
        spec_wanted(class),
    )
}

/// V11: the ring the Drover walks carries no toll.
pub open spec fn spec_v11(c: County) -> bool {
    forall|i: int| 0 <= i < 16 ==> !(c.spec_tiles()[spec_index(#[trigger] spec_circuit()[i])].kind is Feature)
}

/// Two bearings through the hill that are different lines and share no
/// other tile.
pub open spec fn spec_lines_apart(a: Bearing, b: Bearing, hill: (u8, u8)) -> bool {
    &&& a != b
    &&& forall|i: int| 0 <= i < 49 && spec_pos(i) != hill ==> !(a.spec_holds(hill, #[trigger] spec_pos(i)) && b.spec_holds(hill, spec_pos(i)))
}

/// Whether `t` is on one of the lines `bs` draws through `hill`.
pub open spec fn spec_on_a_line(bs: Seq<Bearing>, hill: (u8, u8), t: (u8, u8)) -> bool {
    exists|j: int| 0 <= j < bs.len() && #[trigger] bs[j].spec_holds(hill, t)
}

/// Whether line `b` through `hill` holds one of `ts`.
pub open spec fn spec_carries(b: Bearing, hill: (u8, u8), ts: Seq<(u8, u8)>) -> bool {
    exists|i: int| 0 <= i < ts.len() && b.spec_holds(hill, #[trigger] ts[i])
}

/// V12: the hill is inland, its three lines are apart, and when there are
/// three trig points each is on a line and each line carries one.
pub open spec fn spec_v12(c: County) -> bool {
    let bs = c.spec_bearings();
    let hill = c.spec_hill();
    let trigs = spec_objectives(c.spec_tiles(), Chain::Ordnance, 12544);
    &&& !spec_on_edge(hill)
    &&& forall|i: int, j: int| 0 <= i < j < 3 ==> spec_lines_apart(#[trigger] bs[i], #[trigger] bs[j], hill)
    &&& trigs.len() == 3 ==> (forall|i: int| 0 <= i < 3 ==> spec_on_a_line(bs, hill, #[trigger] trigs[i]))
    &&& trigs.len() == 3 ==> (forall|j: int| 0 <= j < 3 ==> spec_carries(#[trigger] bs[j], hill, trigs))
}

/// A county every check passes.
pub open spec fn spec_passes(c: County) -> bool {
    &&& spec_v1(c)
    &&& forall|chain: Chain| #[trigger] spec_v2_chain(c, chain)
    &&& forall|chain: Chain| #[trigger] spec_v3_chain(c, chain)
    &&& forall|chain: Chain| #[trigger] spec_v4_chain(c, chain)
    &&& spec_v5(c)
    &&& spec_v6(c)
    &&& spec_v7(c)
    &&& spec_v8(c)
    &&& spec_v9(c)
    &&& spec_v10(c)
    &&& spec_v11(c)
    &&& spec_v12(c)
}


/// The objectives of one chain, where they stand, in tile order.
fn chain_points(c: &County, chain: Chain) -> (r: Vec<(u8, u8)>)
    ensures
        r@ == spec_points(c.spec_tiles(), spec_is_chain_objective(chain), 49),
{
    let mut out: Vec<(u8, u8)> = Vec::new();
    let mut i: usize = 0;
    while i < 49
        invariant
            0 <= i <= 49,
            c.tiles@.len() == 49,
            out@ == spec_points(c.tiles@, spec_is_chain_objective(chain), i as int),
        decreases 49 - i,
    {
        match c.tiles[i].kind {
            TileKind::Objective { chain: k, .. } => {
                if k == chain {
                    out.push(c.tiles[i].at);
                }
            },
            _ => {},
        }
        i = i + 1;
    }
    out
}

/// Every pinnacle, where it stands, in tile order.
fn pinnacle_points(c: &County) -> (r: Vec<(u8, u8)>)
    ensures
        r@ == spec_points(c.spec_tiles(), spec_is_pinnacle(), 49),
{
    let mut out: Vec<(u8, u8)> = Vec::new();
    let mut i: usize = 0;
    while i < 49
        invariant
            0 <= i <= 49,
            c.tiles@.len() == 49,
            out@ == spec_points(c.tiles@, spec_is_pinnacle(), i as int),
        decreases 49 - i,
    {
        match c.tiles[i].kind {
            TileKind::Pinnacle { .. } => {
                out.push(c.tiles[i].at);
            },
            _ => {},
        }
        i = i + 1;
    }
    out
}

/// A point the way the checks print one: `(x, y)`.
pub open spec fn spec_point_text(p: (u8, u8)) -> Seq<char> {
    "("@ + spec_digits(p.0 as nat) + ", "@ + spec_digits(p.1 as nat) + ")"@
}

/// A point the way the checks print one: `(x, y)`.
fn push_point(s: &mut String, p: (u8, u8))
    ensures
        final(s)@ == old(s)@ + spec_point_text(p),
{
    let ghost s0 = s@;
    s.append("(");
    crate::text::push_digits(s, p.0 as u64);
    s.append(", ");
    crate::text::push_digits(s, p.1 as u64);
    s.append(")");
    proof {
        assert(s@ =~= s0 + spec_point_text(p));
    }
}

/// A chain's name the way the checks print one.
pub open spec fn spec_chain_label(chain: Chain) -> Seq<char> {
    match chain {
        Chain::Ordnance => "Ordnance"@,
        Chain::Drove => "Drove"@,
        Chain::Enclosure => "Enclosure"@,
    }
}

fn chain_label(chain: Chain) -> (r: &'static str)
    ensures
        r@ == spec_chain_label(chain),
{
    match chain {
        Chain::Ordnance => "Ordnance",
        Chain::Drove => "Drove",
        Chain::Enclosure => "Enclosure",
    }
}

/// A bearing's name the way the checks print one.
pub open spec fn spec_bearing_label(b: Bearing) -> Seq<char> {
    match b {
        Bearing::Row => "Row"@,
        Bearing::Column => "Column"@,
        Bearing::Falling => "Falling"@,
        Bearing::Rising => "Rising"@,
    }
}

fn bearing_label(b: Bearing) -> (r: &'static str)
    ensures
        r@ == spec_bearing_label(b),
{
    match b {
        Bearing::Row => "Row",
        Bearing::Column => "Column",
        Bearing::Falling => "Falling",
        Bearing::Rising => "Rising",
    }
}

/// The refusal for one thing that matters and is out of reach: V1's words
/// when `trip` is set, V8's otherwise.
pub open spec fn spec_out_of_reach(trip: bool, what: Seq<char>, at: (u8, u8)) -> Seq<char> {
    if trip {
        "V1: "@ + what + " at "@ + spec_point_text(at) + " is more than 5 moves or 1 toll from every mouth"@
    } else {
        "V8: every path to "@ + what + " at "@ + spec_point_text(at) + " crosses two tolls or more"@
    }
}

/// The refusal for one thing that matters and is out of reach: V1's words
/// when `trip` is set, V8's otherwise.
fn out_of_reach(trip: bool, what: &str, at: (u8, u8)) -> (r: String)
    ensures
        r@ == spec_out_of_reach(trip, what@, at),
{
    let mut m = String::new();
    if trip {
        m.append("V1: ");
        m.append(what);
        m.append(" at ");
        push_point(&mut m, at);
        m.append(" is more than 5 moves or 1 toll from every mouth");
        proof {
            assert(m@ =~= spec_out_of_reach(trip, what@, at));
        }
    } else {
        m.append("V8: every path to ");
        m.append(what);
        m.append(" at ");
        push_point(&mut m, at);
        m.append(" crosses two tolls or more");
        proof {
            assert(m@ =~= spec_out_of_reach(trip, what@, at));
        }
    }
    m
}

/// What a tile that matters is called in a refusal: `Drove objective 2`,
/// `Ordnance pinnacle`; nothing for any other kind.
pub open spec fn spec_matter_name(k: TileKind) -> Seq<char> {
    match k {
        TileKind::Objective { chain, nth } => spec_chain_label(chain) + " objective "@ + spec_digits(nth as nat),
        TileKind::Pinnacle { chain } => spec_chain_label(chain) + " pinnacle"@,
        _ => Seq::empty(),
    }
}

/// What a tile that matters is called in a refusal.
fn matter_name(k: TileKind) -> (r: String)
    ensures
        r@ == spec_matter_name(k),
{
    let mut m = String::new();
    match k {
        TileKind::Objective { chain, nth } => {
            m.append(chain_label(chain));
            m.append(" objective ");
            crate::text::push_digits(&mut m, nth as u64);
            proof {
                assert(m@ =~= spec_matter_name(k));
            }
        },
        TileKind::Pinnacle { chain } => {
            m.append(chain_label(chain));
            m.append(" pinnacle");
            proof {
                assert(m@ =~= spec_matter_name(k));
            }
        },
        _ => {},
    }
    m
}

/// The texts of a list of refusals.
pub open spec fn spec_texts(v: Seq<String>) -> Seq<Seq<char>> {
    v.map_values(|m: String| m@)
}

/// One refusal when `p` is out of reach, none otherwise.
pub open spec fn spec_reach_line(tiles: Seq<Tile>, moves: nat, trip: bool, what: Seq<char>, p: (u8, u8)) -> Seq<Seq<char>> {
    if spec_near(tiles, moves, 1, p) {
        Seq::empty()
    } else {
        seq![spec_out_of_reach(trip, what, p)]
    }
}

/// The refusals for the first `n` tiles of one kind - pinnacles when `pins`
/// is set, objectives otherwise - that are out of reach, in tile order.
pub open spec fn spec_kind_lines(tiles: Seq<Tile>, moves: nat, trip: bool, pins: bool, n: int) -> Seq<Seq<char>>
    decreases n,
{
    if n <= 0 {
        Seq::empty()
    } else {
        let t = tiles[n - 1];
        let picked = if pins { t.kind is Pinnacle } else { t.kind is Objective };
        spec_kind_lines(tiles, moves, trip, pins, n - 1) + if picked {
            spec_reach_line(tiles, moves, trip, spec_matter_name(t.kind), t.at)
        } else {
            Seq::empty()
        }
    }
}

/// V1's refusals (V8's when `trip` is unset): the pale, the hill, every
/// objective and then every pinnacle out of reach.
pub open spec fn spec_must_lines(c: County, moves: nat, trip: bool) -> Seq<Seq<char>> {
    spec_reach_line(c.spec_tiles(), moves, trip, "the pale"@, c.spec_pale())
        + spec_reach_line(c.spec_tiles(), moves, trip, "the hill"@, c.spec_hill())
        + spec_kind_lines(c.spec_tiles(), moves, trip, false, 49)
        + spec_kind_lines(c.spec_tiles(), moves, trip, true, 49)
}

/// V1 and V8: the pale, the hill, every objective and then every pinnacle
/// must be reachable; one refusal for each that is not.
#[verifier::spinoff_prover]
fn check_must(c: &County, near: &Vec<Option<u8>>, moves: u8, trip: bool, out: &mut Vec<String>)
    requires
        near.len() == 49,
        forall|i: int| 0 <= i < 49 ==> spec_slot(#[trigger] near@[i]) == spec_reach(c.spec_tiles(), spec_mouths(), 1, moves as nat, spec_pos(i)),
        spec_on_grid(c.spec_pale()),
        spec_on_grid(c.spec_hill()),
    ensures
        final(out)@.len() >= old(out)@.len(),
        (final(out)@.len() == old(out)@.len()) == spec_all_that_matters_near(*c, moves as nat),
        spec_texts(final(out)@) == spec_texts(old(out)@) + spec_must_lines(*c, moves as nat, trip),
{
    proof {
        use_type_invariant(c);
        lemma_index_pos(c.pale);
        lemma_index_pos(c.hill);
    }
    let ghost start = out@.len();
    let ghost o0 = spec_texts(out@);
    let ghost tiles = c.spec_tiles();
    let pi = c.pale.1 as usize * 7 + c.pale.0 as usize;
    let pale_ok = near[pi].is_some();
    if !pale_ok {
        let m = out_of_reach(trip, "the pale", c.pale);
        proof {
            reveal_strlit("the pale");
        }
        out.push(m);
    }
    let hi = c.hill.1 as usize * 7 + c.hill.0 as usize;
    let hill_ok = near[hi].is_some();
    if !hill_ok {
        let m = out_of_reach(trip, "the hill", c.hill);
        proof {
            reveal_strlit("the hill");
        }
        out.push(m);
    }
    let ghost head = spec_reach_line(tiles, moves as nat, trip, "the pale"@, c.spec_pale())
        + spec_reach_line(tiles, moves as nat, trip, "the hill"@, c.spec_hill());
    proof {
        assert(spec_texts(out@) =~= o0 + head);
        assert(head + spec_kind_lines(tiles, moves as nat, trip, false, 0) =~= head);
    }
    let mut i: usize = 0;
    while i < 49
        invariant
            0 <= i <= 49,
            tiles == c.spec_tiles(),
            c.spec_wf(),
            near.len() == 49,
            forall|j: int| 0 <= j < 49 ==> spec_slot(#[trigger] near@[j]) == spec_reach(tiles, spec_mouths(), 1, moves as nat, spec_pos(j)),
            out@.len() >= start,
            (out@.len() == start) == (pale_ok && hill_ok && forall|j: int| 0 <= j < i && tiles[j].kind is Objective ==> spec_near(tiles, moves as nat, 1, #[trigger] tiles[j].at)),
            pale_ok == spec_near(tiles, moves as nat, 1, c.spec_pale()),
            hill_ok == spec_near(tiles, moves as nat, 1, c.spec_hill()),
            spec_texts(out@) == o0 + head + spec_kind_lines(tiles, moves as nat, trip, false, i as int),
        decreases 49 - i,
    {
        let t = c.tiles[i];
        proof {
            lemma_pos_index(i as int);
        }
        let ghost before = spec_texts(out@);
        match t.kind {
            TileKind::Objective { .. } => {
                if near[i].is_none() {
                    let name = matter_name(t.kind);
                    let m = out_of_reach(trip, name.as_str(), t.at);
                    out.push(m);
                }
            },
            _ => {},
        }
        proof {
            assert(tiles[i as int] == t);
            assert(t.at == spec_pos(i as int));
            let step = if t.kind is Objective {
                spec_reach_line(tiles, moves as nat, trip, spec_matter_name(t.kind), t.at)
            } else {
                Seq::<Seq<char>>::empty()
            };
            assert(spec_kind_lines(tiles, moves as nat, trip, false, i as int + 1) == spec_kind_lines(tiles, moves as nat, trip, false, i as int) + step);
            assert(spec_texts(out@) =~= before + step);
            assert(spec_texts(out@) =~= o0 + head + spec_kind_lines(tiles, moves as nat, trip, false, i as int + 1));
        }
        i = i + 1;
    }
    let ghost mid = head + spec_kind_lines(tiles, moves as nat, trip, false, 49);
    proof {
        assert(mid + spec_kind_lines(tiles, moves as nat, trip, true, 0) =~= mid);
    }
    let ghost objectives_ok = forall|j: int| 0 <= j < 49 && tiles[j].kind is Objective ==> spec_near(tiles, moves as nat, 1, #[trigger] tiles[j].at);
    let mut i: usize = 0;
    while i < 49
        invariant
            0 <= i <= 49,
            tiles == c.spec_tiles(),
            c.spec_wf(),
            near.len() == 49,
            forall|j: int| 0 <= j < 49 ==> spec_slot(#[trigger] near@[j]) == spec_reach(tiles, spec_mouths(), 1, moves as nat, spec_pos(j)),
            out@.len() >= start,
            objectives_ok == forall|j: int| 0 <= j < 49 && tiles[j].kind is Objective ==> spec_near(tiles, moves as nat, 1, #[trigger] tiles[j].at),
            (out@.len() == start) == (pale_ok && hill_ok && objectives_ok && forall|j: int| 0 <= j < i && tiles[j].kind is Pinnacle ==> spec_near(tiles, moves as nat, 1, #[trigger] tiles[j].at)),
            pale_ok == spec_near(tiles, moves as nat, 1, c.spec_pale()),
            hill_ok == spec_near(tiles, moves as nat, 1, c.spec_hill()),
            spec_texts(out@) == o0 + mid + spec_kind_lines(tiles, moves as nat, trip, true, i as int),
        decreases 49 - i,
    {
        let t = c.tiles[i];
        proof {
            lemma_pos_index(i as int);
        }
        let ghost before = spec_texts(out@);
        match t.kind {
            TileKind::Pinnacle { .. } => {
                if near[i].is_none() {
                    let name = matter_name(t.kind);
                    let m = out_of_reach(trip, name.as_str(), t.at);
                    out.push(m);
                }
            },
            _ => {},
        }
        proof {
            assert(tiles[i as int] == t);
            assert(t.at == spec_pos(i as int));
            let step = if t.kind is Pinnacle {
                spec_reach_line(tiles, moves as nat, trip, spec_matter_name(t.kind), t.at)
            } else {
                Seq::<Seq<char>>::empty()
            };
            assert(spec_kind_lines(tiles, moves as nat, trip, true, i as int + 1) == spec_kind_lines(tiles, moves as nat, trip, true, i as int) + step);
            assert(spec_texts(out@) =~= before + step);
            assert(spec_texts(out@) =~= o0 + mid + spec_kind_lines(tiles, moves as nat, trip, true, i as int + 1));
        }
        i = i + 1;
    }
    proof {
        let all = forall|j: int| 0 <= j < 49 && (spec_matters())(tiles[j].kind) ==> spec_near(tiles, moves as nat, 1, #[trigger] tiles[j].at);
        let pins_ok = forall|j: int| 0 <= j < 49 && tiles[j].kind is Pinnacle ==> spec_near(tiles, moves as nat, 1, #[trigger] tiles[j].at);
        assert(all == (objectives_ok && pins_ok));
        assert(spec_texts(out@) =~= o0 + spec_must_lines(*c, moves as nat, trip));
    }
}


proof fn lemma_mouth_set_member(tiles: Seq<Tile>, p: (u8, u8), n: int, a: int)
    requires
        0 <= n <= 6,
    ensures
        spec_mouth_set(tiles, p, n).contains(a) == (0 <= a < n && spec_trip_reaches(tiles, spec_mouths()[a], p)),
    decreases n,
{
    if n > 0 {
        lemma_mouth_set_member(tiles, p, n - 1, a);
        lemma_mouth_set_bounds(tiles, p, n - 1);
        let prev = spec_mouth_set(tiles, p, n - 1);
        let cur = spec_mouth_set(tiles, p, n);
        if spec_trip_reaches(tiles, spec_mouths()[n - 1], p) {
            assert(cur == prev.push(n - 1));
            if prev.contains(a) {
                let k = choose|k: int| 0 <= k < prev.len() && prev[k] == a;
                assert(cur[k] == a);
            }
            if cur.contains(a) && a != n - 1 {
                let k = choose|k: int| 0 <= k < cur.len() && cur[k] == a;
                assert(k < prev.len());
                assert(prev[k] == a);
            }
            if a == n - 1 {
                assert(cur[prev.len() as int] == a);
            }
        }
    }
}

/// Whether three mouth sets admit a matching: one mouth from each, all three
/// different.
fn matched(s0: &Vec<usize>, s1: &Vec<usize>, s2: &Vec<usize>) -> (r: bool)
    ensures
        r == exists|i: int, j: int, k: int|
            0 <= i < s0.len() && 0 <= j < s1.len() && 0 <= k < s2.len()
                && #[trigger] s1@[j] != #[trigger] s0@[i] && #[trigger] s2@[k] != s0@[i] && s2@[k] != s1@[j],
{
    let mut i: usize = 0;
    while i < s0.len()
        invariant
            0 <= i <= s0.len(),
            forall|a: int, j: int, k: int|
                0 <= a < i && 0 <= j < s1.len() && 0 <= k < s2.len()
                    ==> !(#[trigger] s1@[j] != #[trigger] s0@[a] && #[trigger] s2@[k] != s0@[a] && s2@[k] != s1@[j]),
        decreases s0.len() - i,
    {
        let mut j: usize = 0;
        while j < s1.len()
            invariant
                0 <= i < s0.len(),
                0 <= j <= s1.len(),
                forall|a: int, b: int, k: int|
                    0 <= a < i && 0 <= b < s1.len() && 0 <= k < s2.len()
                        ==> !(#[trigger] s1@[b] != #[trigger] s0@[a] && #[trigger] s2@[k] != s0@[a] && s2@[k] != s1@[b]),
                forall|b: int, k: int|
                    0 <= b < j && 0 <= k < s2.len()
                        ==> !(#[trigger] s1@[b] != s0@[i as int] && #[trigger] s2@[k] != s0@[i as int] && s2@[k] != s1@[b]),
            decreases s1.len() - j,
        {
            if s1[j] != s0[i] {
                let mut k: usize = 0;
                while k < s2.len()
                    invariant
                        0 <= i < s0.len(),
                        0 <= j < s1.len(),
                        0 <= k <= s2.len(),
                        s1@[j as int] != s0@[i as int],
                        forall|z: int| 0 <= z < k ==> !(#[trigger] s2@[z] != s0@[i as int] && s2@[z] != s1@[j as int]),
                    decreases s2.len() - k,
                {
                    if s2[k] != s0[i] && s2[k] != s1[j] {
                        return true;
                    }
                    k = k + 1;
                }
            }
            j = j + 1;
        }
        i = i + 1;
    }
    false
}

/// The first `n` of `names`, each quoted, separated by `, `.
pub open spec fn spec_joined(names: Seq<Seq<char>>, n: int) -> Seq<char>
    decreases n,
{
    if n <= 0 {
        Seq::empty()
    } else {
        spec_joined(names, n - 1) + (if n - 1 > 0 { ", "@ } else { Seq::empty() }) + "\""@ + names[n - 1] + "\""@
    }
}

/// The views of a list of names.
pub open spec fn spec_name_views(names: Seq<&'static str>) -> Seq<Seq<char>> {
    names.map_values(|x: &'static str| x@)
}

/// A list of mouth names the way the checks print one: `["a", "b"]`.
fn push_names(s: &mut String, names: &Vec<&'static str>)
    ensures
        final(s)@ == old(s)@ + "["@ + spec_joined(spec_name_views(names@), names@.len() as int) + "]"@,
{
    let ghost s0 = s@;
    let ghost vs = spec_name_views(names@);
    s.append("[");
    let mut i: usize = 0;
    while i < names.len()
        invariant
            0 <= i <= names.len(),
            vs == spec_name_views(names@),
            s@ == s0 + "["@ + spec_joined(vs, i as int),
        decreases names.len() - i,
    {
        let ghost before = s@;
        if i > 0 {
            s.append(", ");
        }
        s.append("\"");
        s.append(names[i]);
        s.append("\"");
        proof {
            assert(vs[i as int] == names@[i as int]@);
            assert(s@ =~= s0 + "["@ + spec_joined(vs, i as int + 1));
        }
        i = i + 1;
    }
    s.append("]");
}

/// The mouths that reach `p` within one trip, by name, in town order.
pub open spec fn spec_mouth_names(tiles: Seq<Tile>, p: (u8, u8)) -> Seq<Seq<char>> {
    spec_mouth_set(tiles, p, 6).map_values(|k: int| spec_mouth_ids()[k])
}

/// The mouth lists of the first `n` points, each printed as a list and
/// separated by `, `.
pub open spec fn spec_sets_text(tiles: Seq<Tile>, o: Seq<(u8, u8)>, n: int) -> Seq<char>
    decreases n,
{
    if n <= 0 {
        Seq::empty()
    } else {
        spec_sets_text(tiles, o, n - 1) + (if n - 1 > 0 { ", "@ } else { Seq::empty() }) + "["@
            + spec_joined(spec_mouth_names(tiles, o[n - 1]), spec_mouth_names(tiles, o[n - 1]).len() as int) + "]"@
    }
}

/// V2's refusal for one chain, if it has one.
pub open spec fn spec_v2_lines(c: County, chain: Chain) -> Seq<Seq<char>> {
    let o = spec_points(c.spec_tiles(), spec_is_chain_objective(chain), 49);
    if spec_v2_chain(c, chain) {
        Seq::empty()
    } else {
        seq![
            "V2: "@ + spec_chain_label(chain)
                + "'s three objectives cannot be given three different mouths                  between them ("@
                + "["@ + spec_sets_text(c.spec_tiles(), o, o.len() as int) + "])"@,
        ]
    }
}

/// V2 for one chain.
#[verifier::spinoff_prover]
fn check_v2(c: &County, chain: Chain, out: &mut Vec<String>)
    ensures
        final(out)@.len() >= old(out)@.len(),
        (final(out)@.len() == old(out)@.len()) == spec_v2_chain(*c, chain),
        spec_texts(final(out)@) == spec_texts(old(out)@) + spec_v2_lines(*c, chain),
{
    let ghost o0 = out@;
    let o = chain_points(c, chain);
    let ghost tiles = c.spec_tiles();
    let mut sets: Vec<Vec<usize>> = Vec::new();
    let mut i: usize = 0;
    while i < o.len()
        invariant
            0 <= i <= o.len(),
            tiles == c.spec_tiles(),
            sets@.len() == i,
            forall|j: int| 0 <= j < i ==> (#[trigger] sets@[j])@.len() == spec_mouth_set(tiles, o@[j], 6).len()
                && forall|k: int| 0 <= k < sets@[j]@.len() ==> sets@[j]@[k] as int == #[trigger] spec_mouth_set(tiles, o@[j], 6)[k],
        decreases o.len() - i,
    {
        sets.push(mouth_set(c, o[i]));
        i = i + 1;
    }
    let ok = if o.len() == 3 {
        let r = matched(&sets[0], &sets[1], &sets[2]);
        proof {
            let m = spec_mouths();
            let s0 = sets@[0]@;
            let s1 = sets@[1]@;
            let s2 = sets@[2]@;
            if r {
                let (a, b, z) = choose|a: int, b: int, z: int|
                    0 <= a < s0.len() && 0 <= b < s1.len() && 0 <= z < s2.len()
                        && #[trigger] s1[b] != #[trigger] s0[a] && #[trigger] s2[z] != s0[a] && s2[z] != s1[b];
                let ma = s0[a] as int;
                let mb = s1[b] as int;
                let mz = s2[z] as int;
                lemma_mouth_set_member(tiles, o@[0], 6, ma);
                lemma_mouth_set_member(tiles, o@[1], 6, mb);
                lemma_mouth_set_member(tiles, o@[2], 6, mz);
                assert(spec_mouth_set(tiles, o@[0], 6)[a] == ma);
                assert(spec_mouth_set(tiles, o@[1], 6)[b] == mb);
                assert(spec_mouth_set(tiles, o@[2], 6)[z] == mz);
                assert(spec_trip_reaches(tiles, m[ma], o@[0]));
                assert(spec_trip_reaches(tiles, m[mb], o@[1]));
                assert(spec_trip_reaches(tiles, m[mz], o@[2]));
            } else {
                if spec_v2_chain(*c, chain) {
                    let (a, b, z) = choose|a: int, b: int, z: int|
                        0 <= a < 6 && 0 <= b < 6 && 0 <= z < 6 && a != b && a != z && b != z
                            && #[trigger] spec_trip_reaches(tiles, m[a], o@[0])
                            && #[trigger] spec_trip_reaches(tiles, m[b], o@[1])
                            && #[trigger] spec_trip_reaches(tiles, m[z], o@[2]);
                    lemma_mouth_set_member(tiles, o@[0], 6, a);
                    lemma_mouth_set_member(tiles, o@[1], 6, b);
                    lemma_mouth_set_member(tiles, o@[2], 6, z);
                    let ia = choose|k: int| 0 <= k < spec_mouth_set(tiles, o@[0], 6).len() && spec_mouth_set(tiles, o@[0], 6)[k] == a;
                    let ib = choose|k: int| 0 <= k < spec_mouth_set(tiles, o@[1], 6).len() && spec_mouth_set(tiles, o@[1], 6)[k] == b;
                    let iz = choose|k: int| 0 <= k < spec_mouth_set(tiles, o@[2], 6).len() && spec_mouth_set(tiles, o@[2], 6)[k] == z;
                    assert(s0[ia] as int == a);
                    assert(s1[ib] as int == b);
                    assert(s2[iz] as int == z);
                    assert(s1[ib] != s0[ia] && s2[iz] != s0[ia] && s2[iz] != s1[ib]);
                }
            }
        }
        r
    } else {
        false
    };
    proof {
        assert(ok == spec_v2_chain(*c, chain));
    }
    if !ok {
        let mut m = String::new();
        m.append("V2: ");
        m.append(chain_label(chain));
        m.append("'s three objectives cannot be given three different mouths                  between them (");
        m.append("[");
        let ghost m0 = m@;
        let mut i: usize = 0;
        while i < o.len()
            invariant
                0 <= i <= o.len(),
                tiles == c.spec_tiles(),
                m@ == m0 + spec_sets_text(tiles, o@, i as int),
            decreases o.len() - i,
        {
            let ghost before = m@;
            if i > 0 {
                m.append(", ");
            }
            let names = mouths_reaching(c, o[i]);
            proof {
                assert(spec_name_views(names@) =~= spec_mouth_names(tiles, o@[i as int]));
            }
            push_names(&mut m, &names);
            proof {
                assert(m@ =~= m0 + spec_sets_text(tiles, o@, i as int + 1));
            }
            i = i + 1;
        }
        m.append("])");
        proof {
            assert(m@ =~= spec_v2_lines(*c, chain)[0]);
        }
        out.push(m);
    }
    proof {
        assert(spec_texts(out@) =~= spec_texts(o0) + spec_v2_lines(*c, chain));
    }
}

/// V3's refusal for one pair of a chain's objectives.
pub open spec fn spec_v3_line(chain: Chain, a: (u8, u8), b: (u8, u8)) -> Seq<char> {
    "V3: "@ + spec_chain_label(chain) + " has "@ + spec_point_text(a) + " beside "@ + spec_point_text(b)
}

/// V3's refusals for objective `a` against those after it, up to `n`.
pub open spec fn spec_v3_row(o: Seq<(u8, u8)>, chain: Chain, a: int, n: int) -> Seq<Seq<char>>
    decreases n - a,
{
    if n <= a + 1 {
        Seq::empty()
    } else {
        spec_v3_row(o, chain, a, n - 1) + if spec_manhattan(o[a], o[n - 1]) <= 1 {
            seq![spec_v3_line(chain, o[a], o[n - 1])]
        } else {
            Seq::empty()
        }
    }
}

/// V3's refusals for the first `m` objectives, each against those after it.
pub open spec fn spec_v3_rows(o: Seq<(u8, u8)>, chain: Chain, m: int) -> Seq<Seq<char>>
    decreases m,
{
    if m <= 0 {
        Seq::empty()
    } else {
        spec_v3_rows(o, chain, m - 1) + spec_v3_row(o, chain, m - 1, o.len() as int)
    }
}

/// V3's refusals for one chain: every adjacent pair, in order.
pub open spec fn spec_v3_lines(c: County, chain: Chain) -> Seq<Seq<char>> {
    let o = spec_points(c.spec_tiles(), spec_is_chain_objective(chain), 49);
    spec_v3_rows(o, chain, o.len() as int)
}

/// V4's refusal for one chain, if it has one.
pub open spec fn spec_v4_lines(c: County, chain: Chain) -> Seq<Seq<char>> {
    let o = spec_points(c.spec_tiles(), spec_is_chain_objective(chain), 49);
    let n: int = (if spec_in_region(o, Region::North) { 1int } else { 0int }) + (if spec_in_region(o, Region::Middle) { 1int } else { 0int })
        + (if spec_in_region(o, Region::South) { 1int } else { 0int });
    if spec_v4_chain(c, chain) {
        Seq::empty()
    } else {
        seq!["V4: "@ + spec_chain_label(chain) + " covers "@ + spec_digits(n as nat) + " regions"@]
    }
}

/// V3 for one chain.
fn check_v3(c: &County, chain: Chain, out: &mut Vec<String>)
    ensures
        final(out)@.len() >= old(out)@.len(),
        (final(out)@.len() == old(out)@.len()) == spec_v3_chain(*c, chain),
        spec_texts(final(out)@) == spec_texts(old(out)@) + spec_v3_lines(*c, chain),
{
    let o = chain_points(c, chain);
    let ghost start = out@.len();
    let ghost o0 = spec_texts(out@);
    let mut i: usize = 0;
    while i < o.len()
        invariant
            0 <= i <= o.len(),
            out@.len() >= start,
            (out@.len() == start) == forall|a: int, b: int| 0 <= a < i && a < b < o@.len() ==> spec_manhattan(#[trigger] o@[a], #[trigger] o@[b]) > 1,
            spec_texts(out@) == o0 + spec_v3_rows(o@, chain, i as int),
        decreases o.len() - i,
    {
        let ghost row0 = spec_texts(out@);
        let mut j: usize = i + 1;
        while j < o.len()
            invariant
                0 <= i < o.len(),
                i + 1 <= j <= o.len(),
                out@.len() >= start,
                (out@.len() == start) == ((forall|a: int, b: int| 0 <= a < i && a < b < o@.len() ==> spec_manhattan(#[trigger] o@[a], #[trigger] o@[b]) > 1)
                    && forall|b: int| i < b < j ==> spec_manhattan(o@[i as int], #[trigger] o@[b]) > 1),
                spec_texts(out@) == row0 + spec_v3_row(o@, chain, i as int, j as int),
            decreases o.len() - j,
        {
            let ghost before = spec_texts(out@);
            if manhattan_wide(o[i], o[j]) <= 1 {
                let mut m = String::new();
                m.append("V3: ");
                m.append(chain_label(chain));
                m.append(" has ");
                push_point(&mut m, o[i]);
                m.append(" beside ");
                push_point(&mut m, o[j]);
                proof {
                    assert(m@ =~= spec_v3_line(chain, o@[i as int], o@[j as int]));
                }
                out.push(m);
            }
            proof {
                let step = if spec_manhattan(o@[i as int], o@[j as int]) <= 1 {
                    seq![spec_v3_line(chain, o@[i as int], o@[j as int])]
                } else {
                    Seq::<Seq<char>>::empty()
                };
                assert(spec_v3_row(o@, chain, i as int, j as int + 1) == spec_v3_row(o@, chain, i as int, j as int) + step);
                assert(spec_texts(out@) =~= before + step);
                assert(spec_texts(out@) =~= row0 + spec_v3_row(o@, chain, i as int, j as int + 1));
            }
            j = j + 1;
        }
        proof {
            assert(spec_texts(out@) =~= o0 + spec_v3_rows(o@, chain, i as int + 1));
        }
        i = i + 1;
    }
}

/// V4 for one chain.
fn check_v4(c: &County, chain: Chain, out: &mut Vec<String>)
    ensures
        final(out)@.len() >= old(out)@.len(),
        (final(out)@.len() == old(out)@.len()) == spec_v4_chain(*c, chain),
        spec_texts(final(out)@) == spec_texts(old(out)@) + spec_v4_lines(*c, chain),
{
    let ghost o0 = out@;
    let o = chain_points(c, chain);
    let mut north = false;
    let mut middle = false;
    let mut south = false;
    let mut i: usize = 0;
    while i < o.len()
        invariant
            0 <= i <= o.len(),
            north == spec_in_region(o@.take(i as int), Region::North),
            middle == spec_in_region(o@.take(i as int), Region::Middle),
            south == spec_in_region(o@.take(i as int), Region::South),
        decreases o.len() - i,
    {
        let r = Region::of_row(o[i].1);
        proof {
            let t = o@.take(i as int);
            let t1 = o@.take(i as int + 1);
            assert(t1[i as int] == o@[i as int]);
            assert forall|q: Region| spec_in_region(t1, q) == (spec_in_region(t, q) || Region::spec_of_row(o@[i as int].1) == q) by {
                if spec_in_region(t, q) {
                    let k = choose|k: int| 0 <= k < t.len() && Region::spec_of_row(#[trigger] t[k].1) == q;
                    assert(t1[k] == t[k]);
                }
                if spec_in_region(t1, q) {
                    let k = choose|k: int| 0 <= k < t1.len() && Region::spec_of_row(#[trigger] t1[k].1) == q;
                    if k < i {
                        assert(t[k] == t1[k]);
                    }
                }
            }
        }
        match r {
            Region::North => north = true,
            Region::Middle => middle = true,
            Region::South => south = true,
        }
        i = i + 1;
    }
    proof {
        assert(o@.take(o@.len() as int) =~= o@);
    }
    if !(north && middle && south) {
        let n: u64 = (if north { 1u64 } else { 0 }) + (if middle { 1u64 } else { 0 }) + (if south { 1u64 } else { 0 });
        let mut m = String::new();
        m.append("V4: ");
        m.append(chain_label(chain));
        m.append(" covers ");
        crate::text::push_digits(&mut m, n);
        m.append(" regions");
        proof {
            assert(m@ =~= spec_v4_lines(*c, chain)[0]);
        }
        out.push(m);
    }
    proof {
        assert(spec_texts(out@) =~= spec_texts(o0) + spec_v4_lines(*c, chain));
    }
}


proof fn lemma_points_on_grid(c: County, pred: spec_fn(TileKind) -> bool, n: int)
    requires
        c.spec_wf(),
        0 <= n <= 49,
    ensures
        forall|i: int| 0 <= i < spec_points(c.spec_tiles(), pred, n).len() ==> spec_on_grid(#[trigger] spec_points(c.spec_tiles(), pred, n)[i]),
    decreases n,
{
    if n > 0 {
        lemma_points_on_grid(c, pred, n - 1);
        lemma_pos_index(n - 1);
        let prev = spec_points(c.spec_tiles(), pred, n - 1);
        let cur = spec_points(c.spec_tiles(), pred, n);
        assert forall|i: int| 0 <= i < cur.len() implies spec_on_grid(#[trigger] cur[i]) by {
            if i < prev.len() {
                assert(cur[i] == prev[i]);
            }
        }
    }
}

proof fn lemma_objectives_on_grid(tiles: Seq<Tile>, chain: Chain, n: int)
    ensures
        forall|i: int| 0 <= i < spec_objectives(tiles, chain, n).len() ==> spec_on_grid(#[trigger] spec_objectives(tiles, chain, n)[i]),
    decreases n,
{
    if n > 0 {
        lemma_objectives_on_grid(tiles, chain, n - 1);
        let prev = spec_objectives(tiles, chain, n - 1);
        let cur = spec_objectives(tiles, chain, n);
        assert forall|i: int| 0 <= i < cur.len() implies spec_on_grid(#[trigger] cur[i]) by {
            if i < prev.len() {
                assert(cur[i] == prev[i]);
            }
        }
    }
}

/// V5's refusals for the first `n` mouths that stand within one of the pale.
pub open spec fn spec_v5_mouth_lines(pale: (u8, u8), n: int) -> Seq<Seq<char>>
    decreases n,
{
    if n <= 0 {
        Seq::empty()
    } else {
        spec_v5_mouth_lines(pale, n - 1) + if spec_manhattan(pale, spec_mouths()[n - 1]) < 2 {
            seq!["V5: the pale is "@ + spec_digits(spec_manhattan(pale, spec_mouths()[n - 1]) as nat) + " from "@ + spec_mouth_ids()[n - 1]]
        } else {
            Seq::empty()
        }
    }
}

/// V5's refusals: the pale on the edge, on the circuit, near a mouth, and a
/// mouth in the sealed corner.
pub open spec fn spec_v5_lines(c: County) -> Seq<Seq<char>> {
    let pale = c.spec_pale();
    (if spec_on_edge(pale) { seq!["V5: the pale is on the edge at "@ + spec_point_text(pale)] } else { Seq::empty() })
        + (if spec_circuit().contains(pale) { seq!["V5: the pale is on the circuit at "@ + spec_point_text(pale)] } else { Seq::empty() })
        + spec_v5_mouth_lines(pale, 6)
        + (if exists|j: int| 0 <= j < 3 && spec_mouths().contains(#[trigger] c.spec_sealed()[j]) {
            seq!["V5: the sealed corner holds a mouth"@]
        } else {
            Seq::empty()
        })
}

proof fn lemma_mouth_names(ms: Seq<(&'static str, (u8, u8))>)
    requires
        ms[0].0@ == "sump-bottom"@,
        ms[1].0@ == "kettleworks"@,
        ms[2].0@ == "high-wick"@,
        ms[3].0@ == "extra-large"@,
        ms[4].0@ == "the-manse"@,
        ms[5].0@ == "the-slagworks"@,
    ensures
        forall|j: int| 0 <= j < 6 ==> (#[trigger] ms[j]).0@ == spec_mouth_ids()[j],
{
    assert forall|j: int| 0 <= j < 6 implies (#[trigger] ms[j]).0@ == spec_mouth_ids()[j] by {
        if j == 0 {} else if j == 1 {} else if j == 2 {} else if j == 3 {} else if j == 4 {} else {}
    }
}

/// V5: the pale.
fn check_v5(c: &County, out: &mut Vec<String>)
    ensures
        final(out)@.len() >= old(out)@.len(),
        (final(out)@.len() == old(out)@.len()) == spec_v5(*c),
        spec_texts(final(out)@) == spec_texts(old(out)@) + spec_v5_lines(*c),
{
    let ghost start = out@.len();
    let ghost o0 = spec_texts(out@);
    let pale = c.pale;
    let edge = on_edge(pale);
    if edge {
        let mut m = String::new();
        m.append("V5: the pale is on the edge at ");
        push_point(&mut m, pale);
        out.push(m);
    }
    let ring = on_circuit(pale);
    if ring {
        let mut m = String::new();
        m.append("V5: the pale is on the circuit at ");
        push_point(&mut m, pale);
        out.push(m);
    }
    let ghost head = (if spec_on_edge(pale) { seq!["V5: the pale is on the edge at "@ + spec_point_text(pale)] } else { Seq::<Seq<char>>::empty() })
        + (if spec_circuit().contains(pale) { seq!["V5: the pale is on the circuit at "@ + spec_point_text(pale)] } else { Seq::<Seq<char>>::empty() });
    proof {
        assert(spec_texts(out@) =~= o0 + head + spec_v5_mouth_lines(pale, 0));
    }
    let ms = mouths();
    proof {
        lemma_mouth_names(ms@);
    }
    let mut i: usize = 0;
    while i < 6
        invariant
            0 <= i <= 6,
            pale == c.spec_pale(),
            forall|j: int| 0 <= j < 6 ==> #[trigger] ms@[j].1 == spec_mouths()[j],
            forall|j: int| 0 <= j < 6 ==> (#[trigger] ms@[j]).0@ == spec_mouth_ids()[j],
            out@.len() >= start,
            (out@.len() == start) == (!edge && !ring && forall|j: int| 0 <= j < i ==> spec_manhattan(pale, #[trigger] spec_mouths()[j]) >= 2),
            edge == spec_on_edge(pale),
            ring == spec_circuit().contains(pale),
            spec_texts(out@) == o0 + head + spec_v5_mouth_lines(pale, i as int),
        decreases 6 - i,
    {
        let ghost before = spec_texts(out@);
        let d = manhattan_wide(pale, ms[i].1);
        if d < 2 {
            let mut m = String::new();
            m.append("V5: the pale is ");
            crate::text::push_digits(&mut m, d as u64);
            m.append(" from ");
            m.append(ms[i].0);
            out.push(m);
        }
        proof {
            let step = if spec_manhattan(pale, spec_mouths()[i as int]) < 2 {
                seq!["V5: the pale is "@ + spec_digits(spec_manhattan(pale, spec_mouths()[i as int]) as nat) + " from "@ + spec_mouth_ids()[i as int]]
            } else {
                Seq::<Seq<char>>::empty()
            };
            assert(spec_v5_mouth_lines(pale, i as int + 1) == spec_v5_mouth_lines(pale, i as int) + step);
            assert(spec_texts(out@) =~= before + step);
            assert(spec_texts(out@) =~= o0 + head + spec_v5_mouth_lines(pale, i as int + 1));
        }
        i = i + 1;
    }
    let mut held = false;
    let mut k: usize = 0;
    while k < 3
        invariant
            0 <= k <= 3,
            held == exists|j: int| 0 <= j < k && spec_mouths().contains(#[trigger] c.spec_sealed()[j]),
            spec_texts(out@) == o0 + head + spec_v5_mouth_lines(pale, 6),
        decreases 3 - k,
    {
        let hit = is_mouth(c.sealed[k]);
        proof {
            assert(c.sealed@[k as int] == c.spec_sealed()[k as int]);
            if hit {
                assert(spec_mouths().contains(c.spec_sealed()[k as int]));
            }
        }
        if hit {
            held = true;
        }
        k = k + 1;
    }
    let ghost mid = spec_texts(out@);
    if held {
        let m = String::from_str("V5: the sealed corner holds a mouth");
        out.push(m);
    }
    proof {
        let tail = if held { seq!["V5: the sealed corner holds a mouth"@] } else { Seq::<Seq<char>>::empty() };
        assert(spec_texts(out@) =~= mid + tail);
        assert(spec_v5_lines(*c) =~= head + spec_v5_mouth_lines(pale, 6) + tail);
        assert(spec_texts(out@) =~= o0 + spec_v5_lines(*c));
    }
}

/// The chain whose pinnacle stands at `p`, for a refusal's words; the
/// Ordnance where no pinnacle stands there.
fn pinnacle_chain(c: &County, p: (u8, u8)) -> (r: Chain)
    requires
        spec_on_grid(p),
    ensures
        r == spec_pin_chain(c.spec_tiles(), p),
{
    proof {
        lemma_index_pos(p);
    }
    match c.tiles[p.1 as usize * 7 + p.0 as usize].kind {
        TileKind::Pinnacle { chain } => chain,
        _ => Chain::Ordnance,
    }
}

/// The chain of the pinnacle standing at `p`; the Ordnance where none does.
pub open spec fn spec_pin_chain(tiles: Seq<Tile>, p: (u8, u8)) -> Chain {
    match tiles[spec_index(p)].kind {
        TileKind::Pinnacle { chain } => chain,
        _ => Chain::Ordnance,
    }
}

/// V6's refusal for two pinnacles too close together.
pub open spec fn spec_v6_pair_line(tiles: Seq<Tile>, a: (u8, u8), b: (u8, u8)) -> Seq<char> {
    "V6: "@ + spec_chain_label(spec_pin_chain(tiles, a)) + " at "@ + spec_point_text(a) + " is "@
        + spec_digits(spec_manhattan(a, b) as nat) + " from "@ + spec_chain_label(spec_pin_chain(tiles, b))
}

/// V6's refusals for pinnacle `a` against those after it, up to `n`.
pub open spec fn spec_v6_row(tiles: Seq<Tile>, pins: Seq<(u8, u8)>, a: int, n: int) -> Seq<Seq<char>>
    decreases n - a,
{
    if n <= a + 1 {
        Seq::empty()
    } else {
        spec_v6_row(tiles, pins, a, n - 1) + if spec_manhattan(pins[a], pins[n - 1]) < 3 {
            seq![spec_v6_pair_line(tiles, pins[a], pins[n - 1])]
        } else {
            Seq::empty()
        }
    }
}

/// Whether a tile stands on or beside a mouth.
pub open spec fn spec_by_a_mouth(p: (u8, u8)) -> bool {
    spec_mouths().contains(p) || exists|x: int| 0 <= x < spec_neighbours(p).len() && spec_mouths().contains(#[trigger] spec_neighbours(p)[x])
}

/// V6's refusals for the first `m` pinnacles: each against those after it,
/// then whether it stands by a mouth.
pub open spec fn spec_v6_rows(tiles: Seq<Tile>, pins: Seq<(u8, u8)>, m: int) -> Seq<Seq<char>>
    decreases m,
{
    if m <= 0 {
        Seq::empty()
    } else {
        let a = pins[m - 1];
        spec_v6_rows(tiles, pins, m - 1) + spec_v6_row(tiles, pins, m - 1, pins.len() as int) + if spec_by_a_mouth(a) {
            seq!["V6: "@ + spec_chain_label(spec_pin_chain(tiles, a)) + "'s pinnacle at "@ + spec_point_text(a) + " is beside a mouth"@]
        } else {
            Seq::empty()
        }
    }
}

/// V6's refusals, pinnacle by pinnacle in tile order.
pub open spec fn spec_v6_lines(c: County) -> Seq<Seq<char>> {
    let pins = spec_points(c.spec_tiles(), spec_is_pinnacle(), 49);
    spec_v6_rows(c.spec_tiles(), pins, pins.len() as int)
}

/// V6: the pinnacles.
#[verifier::spinoff_prover]
fn check_v6(c: &County, out: &mut Vec<String>)
    ensures
        final(out)@.len() >= old(out)@.len(),
        (final(out)@.len() == old(out)@.len()) == spec_v6(*c),
        spec_texts(final(out)@) == spec_texts(old(out)@) + spec_v6_lines(*c),
{
    proof {
        use_type_invariant(c);
        lemma_points_on_grid(*c, spec_is_pinnacle(), 49);
    }
    let pins = pinnacle_points(c);
    let ghost start = out@.len();
    let ghost o0 = spec_texts(out@);
    let ghost tiles = c.spec_tiles();
    let mut i: usize = 0;
    while i < pins.len()
        invariant
            0 <= i <= pins.len(),
            tiles == c.spec_tiles(),
            spec_texts(out@) == o0 + spec_v6_rows(tiles, pins@, i as int),
            forall|j: int| 0 <= j < pins.len() ==> spec_on_grid(#[trigger] pins@[j]),
            out@.len() >= start,
            (out@.len() == start) == ((forall|a: int, b: int| 0 <= a < i && a < b < pins@.len() ==> spec_manhattan(#[trigger] pins@[a], #[trigger] pins@[b]) >= 3)
                && (forall|a: int| 0 <= a < i ==> !spec_mouths().contains(#[trigger] pins@[a]))
                && (forall|a: int, j: int| 0 <= a < i && 0 <= j < spec_neighbours(pins@[a]).len()
                    ==> !spec_mouths().contains(#[trigger] spec_neighbours(#[trigger] pins@[a])[j]))),
        decreases pins.len() - i,
    {
        let a = pins[i];
        let ghost before = out@.len();
        let ghost row0 = spec_texts(out@);
        let ghost earlier = (forall|x: int, b: int| 0 <= x < i && x < b < pins@.len() ==> spec_manhattan(#[trigger] pins@[x], #[trigger] pins@[b]) >= 3)
            && (forall|x: int| 0 <= x < i ==> !spec_mouths().contains(#[trigger] pins@[x]))
            && (forall|x: int, j: int| 0 <= x < i && 0 <= j < spec_neighbours(pins@[x]).len()
                ==> !spec_mouths().contains(#[trigger] spec_neighbours(#[trigger] pins@[x])[j]));
        let mut j: usize = i + 1;
        while j < pins.len()
            invariant
                0 <= i < pins.len(),
                i + 1 <= j <= pins.len(),
                a == pins@[i as int],
                forall|x: int| 0 <= x < pins.len() ==> spec_on_grid(#[trigger] pins@[x]),
                out@.len() >= before,
                (out@.len() == before) == forall|b: int| i < b < j ==> spec_manhattan(a, #[trigger] pins@[b]) >= 3,
                tiles == c.spec_tiles(),
                spec_texts(out@) == row0 + spec_v6_row(tiles, pins@, i as int, j as int),
            decreases pins.len() - j,
        {
            let ghost before_line = spec_texts(out@);
            let d = manhattan_wide(a, pins[j]);
            if d < 3 {
                let mut m = String::new();
                m.append("V6: ");
                m.append(chain_label(pinnacle_chain(c, a)));
                m.append(" at ");
                push_point(&mut m, a);
                m.append(" is ");
                crate::text::push_digits(&mut m, d as u64);
                m.append(" from ");
                m.append(chain_label(pinnacle_chain(c, pins[j])));
                proof {
                    assert(m@ =~= spec_v6_pair_line(tiles, a, pins@[j as int]));
                }
                out.push(m);
            }
            proof {
                let step = if spec_manhattan(pins@[i as int], pins@[j as int]) < 3 {
                    seq![spec_v6_pair_line(tiles, pins@[i as int], pins@[j as int])]
                } else {
                    Seq::<Seq<char>>::empty()
                };
                assert(spec_v6_row(tiles, pins@, i as int, j as int + 1) == spec_v6_row(tiles, pins@, i as int, j as int) + step);
                assert(spec_texts(out@) =~= before_line + step);
                assert(spec_texts(out@) =~= row0 + spec_v6_row(tiles, pins@, i as int, j as int + 1));
            }
            j = j + 1;
        }
        let ghost mid = out@.len();
        let ghost mid_texts = spec_texts(out@);
        let ns = neighbours(a);
        let mut beside = false;
        let mut k: usize = 0;
        while k < ns.len()
            invariant
                0 <= k <= ns.len(),
                ns@ == spec_neighbours(a),
                beside == exists|x: int| 0 <= x < k && spec_mouths().contains(#[trigger] ns@[x]),
            decreases ns.len() - k,
        {
            if is_mouth(ns[k]) {
                beside = true;
            }
            k = k + 1;
        }
        let on = is_mouth(a);
        if beside || on {
            let mut m = String::new();
            m.append("V6: ");
            m.append(chain_label(pinnacle_chain(c, a)));
            m.append("'s pinnacle at ");
            push_point(&mut m, a);
            m.append(" is beside a mouth");
            out.push(m);
        }
        proof {
            assert(beside || on <==> spec_by_a_mouth(a));
            let tail = if spec_by_a_mouth(a) {
                seq!["V6: "@ + spec_chain_label(spec_pin_chain(tiles, a)) + "'s pinnacle at "@ + spec_point_text(a) + " is beside a mouth"@]
            } else {
                Seq::<Seq<char>>::empty()
            };
            assert(spec_texts(out@) =~= mid_texts + tail);
            assert(spec_v6_rows(tiles, pins@, i as int + 1) == spec_v6_rows(tiles, pins@, i as int) + spec_v6_row(tiles, pins@, i as int, pins@.len() as int) + tail);
            assert(spec_texts(out@) =~= o0 + spec_v6_rows(tiles, pins@, i as int + 1));
        }
        proof {
            let now = (forall|x: int, b: int| 0 <= x < i + 1 && x < b < pins@.len() ==> spec_manhattan(#[trigger] pins@[x], #[trigger] pins@[b]) >= 3)
                && (forall|x: int| 0 <= x < i + 1 ==> !spec_mouths().contains(#[trigger] pins@[x]))
                && (forall|x: int, j: int| 0 <= x < i + 1 && 0 <= j < spec_neighbours(pins@[x]).len()
                    ==> !spec_mouths().contains(#[trigger] spec_neighbours(#[trigger] pins@[x])[j]));
            let pairs = forall|b: int| i < b < pins@.len() ==> spec_manhattan(a, #[trigger] pins@[b]) >= 3;
            let near_mouth = beside || on;
            assert(now == (earlier && pairs && !near_mouth));
        }
        i = i + 1;
    }
}

/// V7's refusals for the first `n` tiles more than eight moves from every
/// mouth.
pub open spec fn spec_v7_rows(tiles: Seq<Tile>, n: int) -> Seq<Seq<char>>
    decreases n,
{
    if n <= 0 {
        Seq::empty()
    } else {
        spec_v7_rows(tiles, n - 1) + if spec_near(tiles, 8, 12, tiles[n - 1].at) {
            Seq::empty()
        } else {
            seq!["V7: "@ + spec_point_text(tiles[n - 1].at) + " is more than 8 moves from every mouth"@]
        }
    }
}

/// V7's refusals, in tile order.
pub open spec fn spec_v7_lines(c: County) -> Seq<Seq<char>> {
    spec_v7_rows(c.spec_tiles(), 49)
}

/// V9's refusals for the first `n` mouths that stand within one of the gaol.
pub open spec fn spec_v9_mouth_lines(g: (u8, u8), n: int) -> Seq<Seq<char>>
    decreases n,
{
    if n <= 0 {
        Seq::empty()
    } else {
        spec_v9_mouth_lines(g, n - 1) + if spec_manhattan(g, spec_mouths()[n - 1]) < 2 {
            seq!["V9: the gaol at "@ + spec_point_text(g) + " is beside "@ + spec_mouth_ids()[n - 1] + "'s mouth"@]
        } else {
            Seq::empty()
        }
    }
}

/// V9's refusals: no gaol at all, or one too far from D4, or too near a mouth.
pub open spec fn spec_v9_lines(c: County) -> Seq<Seq<char>> {
    match spec_first_tile(c.spec_tiles(), |k: TileKind| k == TileKind::Gaol, 49) {
        None => seq!["V9: the county has no gaol"@],
        Some(i) => {
            let g = c.spec_tiles()[i].at;
            (if spec_manhattan(g, (3, 3)) > 3 {
                seq!["V9: the gaol at "@ + spec_point_text(g) + " is "@ + spec_digits(spec_manhattan(g, (3, 3)) as nat) + " from D4"@]
            } else {
                Seq::empty()
            }) + spec_v9_mouth_lines(g, 6)
        },
    }
}

/// What V10 calls each kind it counts.
pub open spec fn spec_class_names() -> Seq<Seq<char>> {
    seq!["objectives"@, "pinnacles"@, "gaols"@, "events"@, "features"@, "empties"@]
}

/// V10's refusals for the first `n` kinds that are more than one off.
pub open spec fn spec_v10_rows(tiles: Seq<Tile>, n: int) -> Seq<Seq<char>>
    decreases n,
{
    if n <= 0 {
        Seq::empty()
    } else {
        let got = spec_kind_count(tiles, spec_of_class(n - 1), 49);
        spec_v10_rows(tiles, n - 1) + if spec_within_one(got, spec_wanted(n - 1)) {
            Seq::empty()
        } else {
            seq!["V10: "@ + spec_digits(got as nat) + " "@ + spec_class_names()[n - 1] + ", wanted "@ + spec_digits(spec_wanted(n - 1) as nat)]
        }
    }
}

/// V10's refusals, kind by kind.
pub open spec fn spec_v10_lines(c: County) -> Seq<Seq<char>> {
    spec_v10_rows(c.spec_tiles(), 6)
}

/// V11's refusals for the first `n` circuit tiles that carry a toll.
pub open spec fn spec_v11_rows(tiles: Seq<Tile>, n: int) -> Seq<Seq<char>>
    decreases n,
{
    if n <= 0 {
        Seq::empty()
    } else {
        let p = spec_circuit()[n - 1];
        spec_v11_rows(tiles, n - 1) + if tiles[spec_index(p)].kind is Feature {
            seq!["V11: a toll stands on the circuit at "@ + spec_point_text(p)]
        } else {
            Seq::empty()
        }
    }
}

/// V11's refusals, round the circuit.
pub open spec fn spec_v11_lines(c: County) -> Seq<Seq<char>> {
    spec_v11_rows(c.spec_tiles(), 16)
}

/// V7: all of the county is walkable in eight.
fn check_v7(c: &County, out: &mut Vec<String>)
    ensures
        final(out)@.len() >= old(out)@.len(),
        (final(out)@.len() == old(out)@.len()) == spec_v7(*c),
        spec_texts(final(out)@) == spec_texts(old(out)@) + spec_v7_lines(*c),
{
    proof {
        use_type_invariant(c);
    }
    let far = reachable_within(c, 8, 12);
    let ghost start = out@.len();
    let ghost o0 = spec_texts(out@);
    let mut i: usize = 0;
    while i < 49
        invariant
            0 <= i <= 49,
            c.spec_wf(),
            far.len() == 49,
            forall|j: int| 0 <= j < 49 ==> spec_slot(#[trigger] far@[j]) == spec_reach(c.spec_tiles(), spec_mouths(), 12, 8, spec_pos(j)),
            out@.len() >= start,
            (out@.len() == start) == forall|j: int| 0 <= j < i ==> spec_near(c.spec_tiles(), 8, 12, #[trigger] c.spec_tiles()[j].at),
            spec_texts(out@) == o0 + spec_v7_rows(c.spec_tiles(), i as int),
        decreases 49 - i,
    {
        proof {
            lemma_pos_index(i as int);
        }
        let ghost before = spec_texts(out@);
        if far[i].is_none() {
            let mut m = String::new();
            m.append("V7: ");
            push_point(&mut m, c.tiles[i].at);
            m.append(" is more than 8 moves from every mouth");
            out.push(m);
        }
        proof {
            let t = c.spec_tiles()[i as int];
            assert(t.at == spec_pos(i as int));
            let step = if spec_near(c.spec_tiles(), 8, 12, t.at) {
                Seq::<Seq<char>>::empty()
            } else {
                seq!["V7: "@ + spec_point_text(t.at) + " is more than 8 moves from every mouth"@]
            };
            assert(spec_v7_rows(c.spec_tiles(), i as int + 1) == spec_v7_rows(c.spec_tiles(), i as int) + step);
            assert(spec_texts(out@) =~= before + step);
            assert(spec_texts(out@) =~= o0 + spec_v7_rows(c.spec_tiles(), i as int + 1));
        }
        i = i + 1;
    }
}

/// V9: the gaol.
fn check_v9(c: &County, out: &mut Vec<String>)
    ensures
        final(out)@.len() >= old(out)@.len(),
        (final(out)@.len() == old(out)@.len()) == spec_v9(*c),
        spec_texts(final(out)@) == spec_texts(old(out)@) + spec_v9_lines(*c),
{
    let ghost start = out@.len();
    let ghost o0 = spec_texts(out@);
    match c.gaol() {
        None => {
            let m = String::from_str("V9: the county has no gaol");
            out.push(m);
            proof {
                assert(spec_texts(out@) =~= o0 + spec_v9_lines(*c));
            }
        },
        Some(g) => {
            let d = manhattan_wide(g, (3, 3));
            if d > 3 {
                let mut m = String::new();
                m.append("V9: the gaol at ");
                push_point(&mut m, g);
                m.append(" is ");
                crate::text::push_digits(&mut m, d as u64);
                m.append(" from D4");
                out.push(m);
            }
            let ghost head = if spec_manhattan(g, (3, 3)) > 3 {
                seq!["V9: the gaol at "@ + spec_point_text(g) + " is "@ + spec_digits(spec_manhattan(g, (3, 3)) as nat) + " from D4"@]
            } else {
                Seq::<Seq<char>>::empty()
            };
            proof {
                assert(spec_texts(out@) =~= o0 + head + spec_v9_mouth_lines(g, 0));
            }
            let ms = mouths();
            proof {
                lemma_mouth_names(ms@);
            }
            let mut i: usize = 0;
            while i < 6
                invariant
                    0 <= i <= 6,
                    forall|j: int| 0 <= j < 6 ==> #[trigger] ms@[j].1 == spec_mouths()[j],
                    forall|j: int| 0 <= j < 6 ==> (#[trigger] ms@[j]).0@ == spec_mouth_ids()[j],
                    out@.len() >= start,
                    (out@.len() == start) == (d <= 3 && forall|j: int| 0 <= j < i ==> spec_manhattan(g, #[trigger] spec_mouths()[j]) >= 2),
                    d == spec_manhattan(g, (3, 3)),
                    spec_texts(out@) == o0 + head + spec_v9_mouth_lines(g, i as int),
                decreases 6 - i,
            {
                let ghost before = spec_texts(out@);
                if manhattan_wide(g, ms[i].1) < 2 {
                    let mut m = String::new();
                    m.append("V9: the gaol at ");
                    push_point(&mut m, g);
                    m.append(" is beside ");
                    m.append(ms[i].0);
                    m.append("'s mouth");
                    out.push(m);
                }
                proof {
                    let step = if spec_manhattan(g, spec_mouths()[i as int]) < 2 {
                        seq!["V9: the gaol at "@ + spec_point_text(g) + " is beside "@ + spec_mouth_ids()[i as int] + "'s mouth"@]
                    } else {
                        Seq::<Seq<char>>::empty()
                    };
                    assert(spec_v9_mouth_lines(g, i as int + 1) == spec_v9_mouth_lines(g, i as int) + step);
                    assert(spec_texts(out@) =~= before + step);
                    assert(spec_texts(out@) =~= o0 + head + spec_v9_mouth_lines(g, i as int + 1));
                }
                i = i + 1;
            }
            proof {
                assert(spec_texts(out@) =~= o0 + spec_v9_lines(*c));
            }
        },
    }
}

/// V10: the composition.
#[verifier::spinoff_prover]
fn check_v10(c: &County, out: &mut Vec<String>)
    ensures
        final(out)@.len() >= old(out)@.len(),
        (final(out)@.len() == old(out)@.len()) == spec_v10(*c),
        spec_texts(final(out)@) == spec_texts(old(out)@) + spec_v10_lines(*c),
{
    let ghost tiles = c.spec_tiles();
    let ghost o0 = spec_texts(out@);
    let mut counts: [u64; 6] = [0, 0, 0, 0, 0, 0];
    let mut i: usize = 0;
    while i < 49
        invariant
            0 <= i <= 49,
            tiles == c.spec_tiles(),
            tiles.len() == 49,
            forall|k: int| 0 <= k < 6 ==> #[trigger] counts@[k] == spec_kind_count(tiles, spec_of_class(k), i as int),
            forall|k: int| 0 <= k < 6 ==> #[trigger] counts@[k] <= i,
        decreases 49 - i,
    {
        let k: usize = match c.tiles[i].kind {
            TileKind::Objective { .. } => 0,
            TileKind::Pinnacle { .. } => 1,
            TileKind::Gaol => 2,
            TileKind::Event(_) => 3,
            TileKind::Feature(_) => 4,
            TileKind::Empty => 5,
        };
        proof {
            assert(k == spec_class(tiles[i as int].kind));
        }
        let v = counts[k];
        counts.set(k, v + 1);
        i = i + 1;
    }
    let ghost start = out@.len();
    let wanted: [u64; 6] = [9, 3, 1, 12, 12, 12];
    let names: [&'static str; 6] = ["objectives", "pinnacles", "gaols", "events", "features", "empties"];
    let mut k: usize = 0;
    while k < 6
        invariant
            0 <= k <= 6,
            wanted@ == seq![9u64, 3, 1, 12, 12, 12],
            forall|x: int| 0 <= x < 6 ==> #[trigger] counts@[x] == spec_kind_count(tiles, spec_of_class(x), 49),
            tiles == c.spec_tiles(),
            out@.len() >= start,
            (out@.len() == start) == forall|x: int| 0 <= x < k ==> spec_within_one(spec_kind_count(tiles, #[trigger] spec_of_class(x), 49), spec_wanted(x)),
            names@ == seq!["objectives", "pinnacles", "gaols", "events", "features", "empties"],
            spec_texts(out@) == o0 + spec_v10_rows(tiles, k as int),
        decreases 6 - k,
    {
        let ghost before = spec_texts(out@);
        let got = counts[k];
        let want = wanted[k];
        let off = if got > want { got - want > 1 } else { want - got > 1 };
        proof {
            assert(counts@[k as int] == spec_kind_count(tiles, spec_of_class(k as int), 49));
            assert(want == spec_wanted(k as int));
        }
        if off {
            let mut m = String::new();
            m.append("V10: ");
            crate::text::push_digits(&mut m, got);
            m.append(" ");
            m.append(names[k]);
            m.append(", wanted ");
            crate::text::push_digits(&mut m, want);
            proof {
                reveal_strlit("objectives");
                reveal_strlit("pinnacles");
                reveal_strlit("gaols");
                reveal_strlit("events");
                reveal_strlit("features");
                reveal_strlit("empties");
                assert(names[k as int]@ == spec_class_names()[k as int]);
            }
            out.push(m);
        }
        proof {
            let g = spec_kind_count(tiles, spec_of_class(k as int), 49);
            let step = if spec_within_one(g, spec_wanted(k as int)) {
                Seq::<Seq<char>>::empty()
            } else {
                seq!["V10: "@ + spec_digits(g as nat) + " "@ + spec_class_names()[k as int] + ", wanted "@ + spec_digits(spec_wanted(k as int) as nat)]
            };
            assert(spec_v10_rows(tiles, k as int + 1) == spec_v10_rows(tiles, k as int) + step);
            assert(spec_texts(out@) =~= before + step);
            assert(spec_texts(out@) =~= o0 + spec_v10_rows(tiles, k as int + 1));
        }
        k = k + 1;
    }
}

/// V11: no toll on the circuit.
fn check_v11(c: &County, out: &mut Vec<String>)
    ensures
        final(out)@.len() >= old(out)@.len(),
        (final(out)@.len() == old(out)@.len()) == spec_v11(*c),
        spec_texts(final(out)@) == spec_texts(old(out)@) + spec_v11_lines(*c),
{
    let ring = circuit();
    let ghost start = out@.len();
    let ghost o0 = spec_texts(out@);
    let mut i: usize = 0;
    while i < 16
        invariant
            0 <= i <= 16,
            ring@ == spec_circuit(),
            c.tiles@.len() == 49,
            out@.len() >= start,
            (out@.len() == start) == forall|j: int| 0 <= j < i ==> !(c.spec_tiles()[spec_index(#[trigger] spec_circuit()[j])].kind is Feature),
            spec_texts(out@) == o0 + spec_v11_rows(c.spec_tiles(), i as int),
        decreases 16 - i,
    {
        let ghost before = spec_texts(out@);
        let p = ring[i];
        let idx = p.1 as usize * 7 + p.0 as usize;
        match c.tiles[idx].kind {
            TileKind::Feature(_) => {
                let mut m = String::new();
                m.append("V11: a toll stands on the circuit at ");
                push_point(&mut m, p);
                out.push(m);
            },
            _ => {},
        }
        proof {
            let q = spec_circuit()[i as int];
            assert(q == p);
            assert(c.tiles@[idx as int] == c.spec_tiles()[spec_index(q)]);
            let step = if c.spec_tiles()[spec_index(q)].kind is Feature {
                seq!["V11: a toll stands on the circuit at "@ + spec_point_text(q)]
            } else {
                Seq::<Seq<char>>::empty()
            };
            assert(spec_v11_rows(c.spec_tiles(), i as int + 1) == spec_v11_rows(c.spec_tiles(), i as int) + step);
            assert(spec_texts(out@) =~= before + step);
            assert(spec_texts(out@) =~= o0 + spec_v11_rows(c.spec_tiles(), i as int + 1));
        }
        i = i + 1;
    }
}


/// V12's refusals for the first `n` tiles other than the hill that both
/// lines hold.
pub open spec fn spec_meet_rows(a: Bearing, b: Bearing, hill: (u8, u8), n: int) -> Seq<Seq<char>>
    decreases n,
{
    if n <= 0 {
        Seq::empty()
    } else {
        let p = spec_pos(n - 1);
        spec_meet_rows(a, b, hill, n - 1) + if p != hill && a.spec_holds(hill, p) && b.spec_holds(hill, p) {
            seq!["V12: "@ + spec_bearing_label(a) + " and "@ + spec_bearing_label(b) + " meet again at "@ + spec_point_text(p)]
        } else {
            Seq::empty()
        }
    }
}

/// V12's refusals for one pair of bearings.
pub open spec fn spec_pair_lines(a: Bearing, b: Bearing, hill: (u8, u8)) -> Seq<Seq<char>> {
    (if a == b { seq!["V12: two bearings are both "@ + spec_bearing_label(a)] } else { Seq::empty() })
        + spec_meet_rows(a, b, hill, 49)
}

/// V12's refusals for the first `n` trig points on no bearing.
pub open spec fn spec_trig_rows(bs: Seq<Bearing>, hill: (u8, u8), ts: Seq<(u8, u8)>, n: int) -> Seq<Seq<char>>
    decreases n,
{
    if n <= 0 {
        Seq::empty()
    } else {
        spec_trig_rows(bs, hill, ts, n - 1) + if spec_on_a_line(bs, hill, ts[n - 1]) {
            Seq::empty()
        } else {
            seq!["V12: trig point "@ + spec_digits(n as nat) + " at "@ + spec_point_text(ts[n - 1]) + " is on no bearing"@]
        }
    }
}

/// V12's refusals for the first `n` bearings that carry no trig point.
pub open spec fn spec_carry_rows(bs: Seq<Bearing>, hill: (u8, u8), ts: Seq<(u8, u8)>, n: int) -> Seq<Seq<char>>
    decreases n,
{
    if n <= 0 {
        Seq::empty()
    } else {
        spec_carry_rows(bs, hill, ts, n - 1) + if spec_carries(bs[n - 1], hill, ts) {
            Seq::empty()
        } else {
            seq!["V12: "@ + spec_bearing_label(bs[n - 1]) + " carries no trig point"@]
        }
    }
}

/// V12's refusals: the hill on the edge, each pair of bearings, and, when
/// there are three trig points, each one on no line and each line with none.
pub open spec fn spec_v12_lines(c: County) -> Seq<Seq<char>> {
    let bs = c.spec_bearings();
    let hill = c.spec_hill();
    let trigs = spec_objectives(c.spec_tiles(), Chain::Ordnance, 12544);
    spec_v12_head(bs, hill) + if trigs.len() == 3 {
        spec_trig_rows(bs, hill, trigs, 3) + spec_carry_rows(bs, hill, trigs, 3)
    } else {
        Seq::empty()
    }
}

/// V12 for one pair of bearings: they differ, and share no tile but the hill.
fn check_pair(hill: (u8, u8), a: Bearing, b: Bearing, out: &mut Vec<String>)
    requires
        spec_on_grid(hill),
    ensures
        final(out)@.len() >= old(out)@.len(),
        (final(out)@.len() == old(out)@.len()) == spec_lines_apart(a, b, hill),
        spec_texts(final(out)@) == spec_texts(old(out)@) + spec_pair_lines(a, b, hill),
{
    let ghost start = out@.len();
    let ghost o0 = spec_texts(out@);
    if a == b {
        let mut m = String::new();
        m.append("V12: two bearings are both ");
        m.append(bearing_label(a));
        out.push(m);
    }
    let ghost head = if a == b { seq!["V12: two bearings are both "@ + spec_bearing_label(a)] } else { Seq::<Seq<char>>::empty() };
    proof {
        assert(spec_texts(out@) =~= o0 + head + spec_meet_rows(a, b, hill, 0));
    }
    let mut i: usize = 0;
    while i < 49
        invariant
            0 <= i <= 49,
            spec_on_grid(hill),
            out@.len() >= start,
            (out@.len() == start) == (a != b && forall|j: int| 0 <= j < i && spec_pos(j) != hill
                ==> !(a.spec_holds(hill, #[trigger] spec_pos(j)) && b.spec_holds(hill, spec_pos(j)))),
            spec_texts(out@) == o0 + head + spec_meet_rows(a, b, hill, i as int),
        decreases 49 - i,
    {
        let ghost before = spec_texts(out@);
        let p: (u8, u8) = ((i % 7) as u8, (i / 7) as u8);
        proof {
            lemma_pos_index(i as int);
        }
        if !(p.0 == hill.0 && p.1 == hill.1) && a.holds(hill, p) && b.holds(hill, p) {
            let mut m = String::new();
            m.append("V12: ");
            m.append(bearing_label(a));
            m.append(" and ");
            m.append(bearing_label(b));
            m.append(" meet again at ");
            push_point(&mut m, p);
            out.push(m);
        }
        proof {
            let q = spec_pos(i as int);
            assert(q == p);
            let step = if q != hill && a.spec_holds(hill, q) && b.spec_holds(hill, q) {
                seq!["V12: "@ + spec_bearing_label(a) + " and "@ + spec_bearing_label(b) + " meet again at "@ + spec_point_text(q)]
            } else {
                Seq::<Seq<char>>::empty()
            };
            assert(spec_meet_rows(a, b, hill, i as int + 1) == spec_meet_rows(a, b, hill, i as int) + step);
            assert(spec_texts(out@) =~= before + step);
            assert(spec_texts(out@) =~= o0 + head + spec_meet_rows(a, b, hill, i as int + 1));
        }
        i = i + 1;
    }
}

/// V12's check of each of three trig points: it stands on some bearing.
fn check_trig_points(bs: &[Bearing; 3], hill: (u8, u8), trigs: &Vec<(u8, u8)>, out: &mut Vec<String>)
    requires
        trigs@.len() == 3,
        spec_on_grid(hill),
        forall|x: int| 0 <= x < 3 ==> spec_on_grid(#[trigger] trigs@[x]),
    ensures
        final(out)@.len() >= old(out)@.len(),
        (final(out)@.len() == old(out)@.len()) == forall|x: int| 0 <= x < 3 ==> spec_on_a_line(bs@, hill, #[trigger] trigs@[x]),
        spec_texts(final(out)@) == spec_texts(old(out)@) + spec_trig_rows(bs@, hill, trigs@, 3),
{
    let ghost start = out@.len();
    let ghost o0 = spec_texts(out@);
    proof {
        assert(spec_texts(out@) =~= o0 + spec_trig_rows(bs@, hill, trigs@, 0));
    }
    let mut i: usize = 0;
    while i < 3
        invariant
            0 <= i <= 3,
            trigs@.len() == 3,
            spec_on_grid(hill),
            forall|x: int| 0 <= x < 3 ==> spec_on_grid(#[trigger] trigs@[x]),
            out@.len() >= start,
            (out@.len() == start) == forall|x: int| 0 <= x < i ==> spec_on_a_line(bs@, hill, #[trigger] trigs@[x]),
            spec_texts(out@) == o0 + spec_trig_rows(bs@, hill, trigs@, i as int),
        decreases 3 - i,
    {
        let ghost before = spec_texts(out@);
        let t = trigs[i];
        let on = bs[0].holds(hill, t) || bs[1].holds(hill, t) || bs[2].holds(hill, t);
        proof {
            if on {
                if bs@[0].spec_holds(hill, t) {
                    assert(bs@[0].spec_holds(hill, t));
                } else if bs@[1].spec_holds(hill, t) {
                    assert(bs@[1].spec_holds(hill, t));
                } else {
                    assert(bs@[2].spec_holds(hill, t));
                }
            }
        }
        if !on {
            let mut m = String::new();
            m.append("V12: trig point ");
            crate::text::push_digits(&mut m, i as u64 + 1);
            m.append(" at ");
            push_point(&mut m, t);
            m.append(" is on no bearing");
            out.push(m);
        }
        proof {
            assert(t == trigs@[i as int]);
            assert(on == spec_on_a_line(bs@, hill, t)) by {
                if spec_on_a_line(bs@, hill, t) {
                    let w = choose|w: int| 0 <= w < bs@.len() && #[trigger] bs@[w].spec_holds(hill, t);
                    assert(w == 0 || w == 1 || w == 2);
                }
            }
            let step = if spec_on_a_line(bs@, hill, t) {
                Seq::<Seq<char>>::empty()
            } else {
                seq!["V12: trig point "@ + spec_digits((i + 1) as nat) + " at "@ + spec_point_text(t) + " is on no bearing"@]
            };
            assert(spec_trig_rows(bs@, hill, trigs@, i as int + 1) == spec_trig_rows(bs@, hill, trigs@, i as int) + step);
            assert(spec_texts(out@) =~= before + step);
            assert(spec_texts(out@) =~= o0 + spec_trig_rows(bs@, hill, trigs@, i as int + 1));
        }
        i = i + 1;
    }
}

/// V12's check of each bearing: it carries one of three trig points.
fn check_carriers(bs: &[Bearing; 3], hill: (u8, u8), trigs: &Vec<(u8, u8)>, out: &mut Vec<String>)
    requires
        trigs@.len() == 3,
        spec_on_grid(hill),
        forall|x: int| 0 <= x < 3 ==> spec_on_grid(#[trigger] trigs@[x]),
    ensures
        final(out)@.len() >= old(out)@.len(),
        (final(out)@.len() == old(out)@.len()) == forall|y: int| 0 <= y < 3 ==> spec_carries(#[trigger] bs@[y], hill, trigs@),
        spec_texts(final(out)@) == spec_texts(old(out)@) + spec_carry_rows(bs@, hill, trigs@, 3),
{
    let ghost start = out@.len();
    let ghost o0 = spec_texts(out@);
    proof {
        assert(spec_texts(out@) =~= o0 + spec_carry_rows(bs@, hill, trigs@, 0));
    }
    let mut j: usize = 0;
    while j < 3
        invariant
            0 <= j <= 3,
            trigs@.len() == 3,
            spec_on_grid(hill),
            forall|x: int| 0 <= x < 3 ==> spec_on_grid(#[trigger] trigs@[x]),
            out@.len() >= start,
            (out@.len() == start) == forall|y: int| 0 <= y < j ==> spec_carries(#[trigger] bs@[y], hill, trigs@),
            spec_texts(out@) == o0 + spec_carry_rows(bs@, hill, trigs@, j as int),
        decreases 3 - j,
    {
        let ghost before = spec_texts(out@);
        let b = bs[j];
        let carries = b.holds(hill, trigs[0]) || b.holds(hill, trigs[1]) || b.holds(hill, trigs[2]);
        proof {
            if carries {
                if b.spec_holds(hill, trigs@[0]) {
                    assert(b.spec_holds(hill, trigs@[0]));
                } else if b.spec_holds(hill, trigs@[1]) {
                    assert(b.spec_holds(hill, trigs@[1]));
                } else {
                    assert(b.spec_holds(hill, trigs@[2]));
                }
            }
        }
        if !carries {
            let mut m = String::new();
            m.append("V12: ");
            m.append(bearing_label(b));
            m.append(" carries no trig point");
            out.push(m);
        }
        proof {
            assert(b == bs@[j as int]);
            assert(carries == spec_carries(b, hill, trigs@)) by {
                if spec_carries(b, hill, trigs@) {
                    let w = choose|w: int| 0 <= w < trigs@.len() && b.spec_holds(hill, #[trigger] trigs@[w]);
                    assert(w == 0 || w == 1 || w == 2);
                }
            }
            let step = if spec_carries(b, hill, trigs@) {
                Seq::<Seq<char>>::empty()
            } else {
                seq!["V12: "@ + spec_bearing_label(b) + " carries no trig point"@]
            };
            assert(spec_carry_rows(bs@, hill, trigs@, j as int + 1) == spec_carry_rows(bs@, hill, trigs@, j as int) + step);
            assert(spec_texts(out@) =~= before + step);
            assert(spec_texts(out@) =~= o0 + spec_carry_rows(bs@, hill, trigs@, j as int + 1));
        }
        j = j + 1;
    }
}

/// V12's first refusals: the hill on the edge, then each pair of bearings.
pub open spec fn spec_v12_head(bs: Seq<Bearing>, hill: (u8, u8)) -> Seq<Seq<char>> {
    (if spec_on_edge(hill) { seq!["V12: the hill is on the edge at "@ + spec_point_text(hill)] } else { Seq::empty() })
        + spec_pair_lines(bs[0], bs[1], hill) + spec_pair_lines(bs[0], bs[2], hill) + spec_pair_lines(bs[1], bs[2], hill)
}

/// V12 on the hill and the bearings alone: the hill off the edge, and the
/// three bearings pairwise apart.
/// Three bearings are pairwise apart exactly when each of the three pairs is.
proof fn lemma_three_pairs(bs: Seq<Bearing>, hill: (u8, u8))
    ensures
        (forall|i: int, j: int| 0 <= i < j < 3 ==> spec_lines_apart(#[trigger] bs[i], #[trigger] bs[j], hill))
            == (spec_lines_apart(bs[0], bs[1], hill) && spec_lines_apart(bs[0], bs[2], hill) && spec_lines_apart(bs[1], bs[2], hill)),
{
    if spec_lines_apart(bs[0], bs[1], hill) && spec_lines_apart(bs[0], bs[2], hill) && spec_lines_apart(bs[1], bs[2], hill) {
        assert forall|i: int, j: int| 0 <= i < j < 3 implies spec_lines_apart(#[trigger] bs[i], #[trigger] bs[j], hill) by {
            if i == 0 && j == 1 {
            } else if i == 0 && j == 2 {
            } else {
            }
        }
    }
}

#[verifier::spinoff_prover]
#[verifier::rlimit(30)]
fn check_v12_head(bs: &[Bearing; 3], hill: (u8, u8), out: &mut Vec<String>)
    requires
        spec_on_grid(hill),
    ensures
        final(out)@.len() >= old(out)@.len(),
        (final(out)@.len() == old(out)@.len()) == (!spec_on_edge(hill)
            && forall|i: int, j: int| 0 <= i < j < 3 ==> spec_lines_apart(#[trigger] bs@[i], #[trigger] bs@[j], hill)),
        spec_texts(final(out)@) == spec_texts(old(out)@) + spec_v12_head(bs@, hill),
{
    let ghost start = out@.len();
    let ghost o0 = spec_texts(out@);
    let edge = on_edge(hill);
    if edge {
        let mut m = String::new();
        m.append("V12: the hill is on the edge at ");
        push_point(&mut m, hill);
        out.push(m);
    }
    let ghost before_pairs = out@.len();
    let ghost t0 = spec_texts(out@);
    let ghost e = if spec_on_edge(hill) { seq!["V12: the hill is on the edge at "@ + spec_point_text(hill)] } else { Seq::<Seq<char>>::empty() };
    proof {
        assert(t0 =~= o0 + e);
    }
    check_pair(hill, bs[0], bs[1], out);
    let ghost p01 = spec_lines_apart(bs@[0], bs@[1], hill);
    check_pair(hill, bs[0], bs[2], out);
    let ghost p02 = spec_lines_apart(bs@[0], bs@[2], hill);
    check_pair(hill, bs[1], bs[2], out);
    let ghost p12 = spec_lines_apart(bs@[1], bs@[2], hill);
    proof {
        let l01 = spec_pair_lines(bs@[0], bs@[1], hill);
        let l02 = spec_pair_lines(bs@[0], bs@[2], hill);
        let l12 = spec_pair_lines(bs@[1], bs@[2], hill);
        assert(spec_texts(out@) =~= o0 + (e + l01 + l02 + l12));
        lemma_three_pairs(bs@, hill);
        assert((before_pairs == start) == !edge);
    }
}

/// V12: the bearings.
#[verifier::spinoff_prover]
fn check_v12(c: &County, out: &mut Vec<String>)
    requires
        spec_on_grid(c.spec_hill()),
    ensures
        final(out)@.len() >= old(out)@.len(),
        (final(out)@.len() == old(out)@.len()) == spec_v12(*c),
        spec_texts(final(out)@) == spec_texts(old(out)@) + spec_v12_lines(*c),
{
    let ghost start = out@.len();
    let ghost o0 = spec_texts(out@);
    let hill = c.hill;
    let bs = c.bearings;
    check_v12_head(&bs, hill, out);
    let ghost after_head = out@.len();
    let ghost o1 = spec_texts(out@);
    let trigs = c.objectives(Chain::Ordnance);
    proof {
        lemma_objectives_on_grid(c.spec_tiles(), Chain::Ordnance, 12544);
    }
    if trigs.len() == 3 {
        check_trig_points(&bs, hill, &trigs, out);
        check_carriers(&bs, hill, &trigs, out);
        proof {
            assert(spec_texts(out@) =~= o1 + (spec_trig_rows(bs@, hill, trigs@, 3) + spec_carry_rows(bs@, hill, trigs@, 3)));
        }
    } else {
        proof {
            assert(spec_texts(out@) =~= o1 + Seq::<Seq<char>>::empty());
        }
    }
    proof {
        assert(hill == c.spec_hill());
        assert(bs@ == c.spec_bearings());
        assert(spec_objectives(c.spec_tiles(), Chain::Ordnance, 12544) == trigs@);
        assert(spec_texts(out@) =~= o0 + spec_v12_lines(*c));
    }
}

/// Every refusal a county draws, V1 to V12 in order, one line each.
pub open spec fn spec_refusal_lines(c: County) -> Seq<Seq<char>> {
    spec_must_lines(c, REACH as nat, true)
        + spec_v2_lines(c, Chain::Ordnance) + spec_v2_lines(c, Chain::Drove) + spec_v2_lines(c, Chain::Enclosure)
        + spec_v3_lines(c, Chain::Ordnance) + spec_v3_lines(c, Chain::Drove) + spec_v3_lines(c, Chain::Enclosure)
        + spec_v4_lines(c, Chain::Ordnance) + spec_v4_lines(c, Chain::Drove) + spec_v4_lines(c, Chain::Enclosure)
        + spec_v5_lines(c) + spec_v6_lines(c) + spec_v7_lines(c)
        + spec_must_lines(c, 8, false)
        + spec_v9_lines(c) + spec_v10_lines(c) + spec_v11_lines(c) + spec_v12_lines(c)
}

/// V1 to V12, in order, each returning the tiles that refused it: the list
/// is empty exactly when the county passes every check, and holds one line
/// for each refusal.
#[verifier::spinoff_prover]
#[verifier::rlimit(60)]
pub fn refusals(c: &County) -> (r: Vec<String>)
    requires
        spec_on_grid(c.spec_hill()),
        spec_on_grid(c.spec_pale()),
    ensures
        (r@.len() == 0) == spec_passes(*c),
        spec_texts(r@) == spec_refusal_lines(*c),
{
    let mut out: Vec<String> = Vec::new();
    proof {
        assert(spec_texts(out@) =~= Seq::<Seq<char>>::empty());
    }
    let near = reachable_within(c, REACH, TOLL_BUDGET);
    check_must(c, &near, REACH, true, &mut out);
    proof {
        assert(Seq::<Seq<char>>::empty() + spec_must_lines(*c, REACH as nat, true) =~= spec_must_lines(*c, REACH as nat, true));
    }
    let chains = Chain::all();
    check_v2(c, chains[0], &mut out);
    check_v2(c, chains[1], &mut out);
    check_v2(c, chains[2], &mut out);
    check_v3(c, chains[0], &mut out);
    check_v3(c, chains[1], &mut out);
    check_v3(c, chains[2], &mut out);
    check_v4(c, chains[0], &mut out);
    check_v4(c, chains[1], &mut out);
    check_v4(c, chains[2], &mut out);
    check_v5(c, &mut out);
    check_v6(c, &mut out);
    check_v7(c, &mut out);
    let two = reachable_within(c, 8, 1);
    check_must(c, &two, 8, false, &mut out);
    check_v9(c, &mut out);
    check_v10(c, &mut out);
    check_v11(c, &mut out);
    check_v12(c, &mut out);
    proof {
        lemma_every_chain(*c);
    }
    out
}

proof fn lemma_every_chain(c: County)
    ensures
        (forall|chain: Chain| #[trigger] spec_v2_chain(c, chain)) == (spec_v2_chain(c, Chain::Ordnance) && spec_v2_chain(c, Chain::Drove) && spec_v2_chain(c, Chain::Enclosure)),
        (forall|chain: Chain| #[trigger] spec_v3_chain(c, chain)) == (spec_v3_chain(c, Chain::Ordnance) && spec_v3_chain(c, Chain::Drove) && spec_v3_chain(c, Chain::Enclosure)),
        (forall|chain: Chain| #[trigger] spec_v4_chain(c, chain)) == (spec_v4_chain(c, Chain::Ordnance) && spec_v4_chain(c, Chain::Drove) && spec_v4_chain(c, Chain::Enclosure)),
{
    if spec_v2_chain(c, Chain::Ordnance) && spec_v2_chain(c, Chain::Drove) && spec_v2_chain(c, Chain::Enclosure) {
        assert forall|chain: Chain| #[trigger] spec_v2_chain(c, chain) by {
            match chain {
                Chain::Ordnance => {},
                Chain::Drove => {},
                Chain::Enclosure => {},
            }
        }
    }
    if spec_v3_chain(c, Chain::Ordnance) && spec_v3_chain(c, Chain::Drove) && spec_v3_chain(c, Chain::Enclosure) {
        assert forall|chain: Chain| #[trigger] spec_v3_chain(c, chain) by {
            match chain {
                Chain::Ordnance => {},
                Chain::Drove => {},
                Chain::Enclosure => {},
            }
        }
    }
    if spec_v4_chain(c, Chain::Ordnance) && spec_v4_chain(c, Chain::Drove) && spec_v4_chain(c, Chain::Enclosure) {
        assert forall|chain: Chain| #[trigger] spec_v4_chain(c, chain) by {
            match chain {
                Chain::Ordnance => {},
                Chain::Drove => {},
                Chain::Enclosure => {},
            }
        }
    }
}


/// The twelve tolls, in the order they are dealt.
pub open spec fn spec_tolls() -> Seq<Toll> {
    seq![
        Toll::River { milli_per_s: 3_000 },
        Toll::River { milli_per_s: 15_000 },
        Toll::Ford { lane: Lane::Physical, milli_per_s: 10_000 },
        Toll::Ford { lane: Lane::Magic, milli_per_s: 20_000 },
        Toll::Scarp { milli_per_s: 30_000 },
        Toll::Scarp { milli_per_s: 84_000 },
        Toll::Drift { fastest_ms: 2_000 },
        Toll::Drift { fastest_ms: 1_600 },
        Toll::Hedge { curse_resist: 12 },
        Toll::Hedge { curse_resist: 80 },
        Toll::Gate { bounties: 1 },
        Toll::Gate { bounties: 2 },
    ]
}

/// The twelve tolls a county carries: two of each of the six kinds, one a
/// formed board has and one it has to be built for.
pub fn tolls() -> (r: [Toll; 12])
    ensures
        r@ == spec_tolls(),
{
    [
        Toll::River { milli_per_s: 3_000 },
        Toll::River { milli_per_s: 15_000 },
        Toll::Ford { lane: Lane::Physical, milli_per_s: 10_000 },
        Toll::Ford { lane: Lane::Magic, milli_per_s: 20_000 },
        Toll::Scarp { milli_per_s: 30_000 },
        Toll::Scarp { milli_per_s: 84_000 },
        Toll::Drift { fastest_ms: 2_000 },
        Toll::Drift { fastest_ms: 1_600 },
        Toll::Hedge { curse_resist: 12 },
        Toll::Hedge { curse_resist: 80 },
        Toll::Gate { bounties: 1 },
        Toll::Gate { bounties: 2 },
    ]
}

/// The authored county, row by row: A1 to G1, then A2 to G2, and so on.
/// F7, G7 and G6 stand behind the pale at D3.
fn fallback_kinds() -> (r: [TileKind; TILES])
    ensures
        r@ == spec_fallback_kinds(),
{
    [
        // Row 1
        TileKind::Empty,
        TileKind::Feature(Toll::River { milli_per_s: 2000 }),
        TileKind::Empty,
        TileKind::Event(UNARRANGED),
        TileKind::Event(UNARRANGED),
        TileKind::Empty,
        TileKind::Feature(Toll::Scarp { milli_per_s: 2000 }),
        // Row 2
        TileKind::Empty,
        TileKind::Objective { chain: Chain::Enclosure, nth: 2 },
        TileKind::Event(UNARRANGED),
        TileKind::Objective { chain: Chain::Ordnance, nth: 2 },
        TileKind::Event(UNARRANGED),
        TileKind::Objective { chain: Chain::Drove, nth: 2 },
        TileKind::Feature(Toll::Ford { lane: Lane::Magic, milli_per_s: 5000 }),
        // Row 3
        TileKind::Feature(Toll::River { milli_per_s: 4000 }),
        TileKind::Event(UNARRANGED),
        TileKind::Objective { chain: Chain::Drove, nth: 1 },
        TileKind::Event(PALE),
        TileKind::Objective { chain: Chain::Enclosure, nth: 1 },
        TileKind::Event(UNARRANGED),
        TileKind::Empty,
        // Row 4
        TileKind::Feature(Toll::Hedge { curse_resist: 3 }),
        TileKind::Empty,
        TileKind::Feature(Toll::Drift { fastest_ms: 2500 }),
        TileKind::Gaol,
        TileKind::Feature(Toll::Scarp { milli_per_s: 4000 }),
        TileKind::Empty,
        TileKind::Feature(Toll::Ford { lane: Lane::Physical, milli_per_s: 3000 }),
        // Row 5
        TileKind::Feature(Toll::Gate { bounties: 1 }),
        TileKind::Objective { chain: Chain::Ordnance, nth: 1 },
        TileKind::Feature(Toll::Hedge { curse_resist: 5 }),
        TileKind::Pinnacle { chain: Chain::Ordnance },
        TileKind::Event(UNARRANGED),
        TileKind::Event(UNARRANGED),
        TileKind::Feature(Toll::Drift { fastest_ms: 2000 }),
        // Row 6
        TileKind::Empty,
        TileKind::Objective { chain: Chain::Drove, nth: 3 },
        TileKind::Objective { chain: Chain::Ordnance, nth: 3 },
        TileKind::Empty,
        TileKind::Event(UNARRANGED),
        TileKind::Empty,
        TileKind::Empty,
        // Row 7
        TileKind::Event(UNARRANGED),
        TileKind::Pinnacle { chain: Chain::Drove },
        TileKind::Feature(Toll::Gate { bounties: 1 }),
        TileKind::Event(UNARRANGED),
        TileKind::Empty,
        TileKind::Objective { chain: Chain::Enclosure, nth: 3 },
        TileKind::Pinnacle { chain: Chain::Enclosure },
    ]
}

pub open spec fn spec_fallback_kinds() -> Seq<TileKind> {
    seq![
        TileKind::Empty,
        TileKind::Feature(Toll::River { milli_per_s: 2000 }),
        TileKind::Empty,
        TileKind::Event(UNARRANGED),
        TileKind::Event(UNARRANGED),
        TileKind::Empty,
        TileKind::Feature(Toll::Scarp { milli_per_s: 2000 }),
        TileKind::Empty,
        TileKind::Objective { chain: Chain::Enclosure, nth: 2 },
        TileKind::Event(UNARRANGED),
        TileKind::Objective { chain: Chain::Ordnance, nth: 2 },
        TileKind::Event(UNARRANGED),
        TileKind::Objective { chain: Chain::Drove, nth: 2 },
        TileKind::Feature(Toll::Ford { lane: Lane::Magic, milli_per_s: 5000 }),
        TileKind::Feature(Toll::River { milli_per_s: 4000 }),
        TileKind::Event(UNARRANGED),
        TileKind::Objective { chain: Chain::Drove, nth: 1 },
        TileKind::Event(PALE),
        TileKind::Objective { chain: Chain::Enclosure, nth: 1 },
        TileKind::Event(UNARRANGED),
        TileKind::Empty,
        TileKind::Feature(Toll::Hedge { curse_resist: 3 }),
        TileKind::Empty,
        TileKind::Feature(Toll::Drift { fastest_ms: 2500 }),
        TileKind::Gaol,
        TileKind::Feature(Toll::Scarp { milli_per_s: 4000 }),
        TileKind::Empty,
        TileKind::Feature(Toll::Ford { lane: Lane::Physical, milli_per_s: 3000 }),
        TileKind::Feature(Toll::Gate { bounties: 1 }),
        TileKind::Objective { chain: Chain::Ordnance, nth: 1 },
        TileKind::Feature(Toll::Hedge { curse_resist: 5 }),
        TileKind::Pinnacle { chain: Chain::Ordnance },
        TileKind::Event(UNARRANGED),
        TileKind::Event(UNARRANGED),
        TileKind::Feature(Toll::Drift { fastest_ms: 2000 }),
        TileKind::Empty,
        TileKind::Objective { chain: Chain::Drove, nth: 3 },
        TileKind::Objective { chain: Chain::Ordnance, nth: 3 },
        TileKind::Empty,
        TileKind::Event(UNARRANGED),
        TileKind::Empty,
        TileKind::Empty,
        TileKind::Event(UNARRANGED),
        TileKind::Pinnacle { chain: Chain::Drove },
        TileKind::Feature(Toll::Gate { bounties: 1 }),
        TileKind::Event(UNARRANGED),
        TileKind::Empty,
        TileKind::Objective { chain: Chain::Enclosure, nth: 3 },
        TileKind::Pinnacle { chain: Chain::Enclosure },
    ]
}

/// The county handed back when every seed in the retry window is refused,
/// and the fixture the rest of the county is tested against: the hill at
/// D5 on the row, the column and the rising diagonal, the pale at D3, the
/// sealed corner G7.
pub fn fallback() -> (r: County)
    ensures
        forall|i: int| 0 <= i < 49 ==> (#[trigger] r.spec_tiles()[i]).kind == spec_fallback_kinds()[i],
        r.spec_hill() == (3u8, 4u8),
        r.spec_bearings() == seq![Bearing::Row, Bearing::Column, Bearing::Rising],
        r.spec_pale() == (3u8, 2u8),
        r.spec_sealed() == seq![(6u8, 6u8), (5u8, 6u8), (6u8, 5u8)],
        r.spec_attempts() == ATTEMPTS,
{
    County::of(
        fallback_kinds(),
        (3, 4),
        [Bearing::Row, Bearing::Column, Bearing::Rising],
        (3, 2),
        [(6, 6), (5, 6), (6, 5)],
        ATTEMPTS,
    )
}

/// The authored county, whatever attempts count it carries.
pub open spec fn spec_is_fallback(r: County) -> bool {
    &&& forall|i: int| 0 <= i < 49 ==> (#[trigger] r.spec_tiles()[i]).kind == spec_fallback_kinds()[i]
    &&& r.spec_hill() == (3u8, 4u8)
    &&& r.spec_bearings() == seq![Bearing::Row, Bearing::Column, Bearing::Rising]
    &&& r.spec_pale() == (3u8, 2u8)
    &&& r.spec_sealed() == seq![(6u8, 6u8), (5u8, 6u8), (6u8, 5u8)]
    &&& r.spec_attempts() == ATTEMPTS
}

proof fn lemma_passes_any_attempts(c: County, n: u8)
    requires
        spec_passes(c),
    ensures
        spec_passes(c.spec_with_attempts(n)),
        c.spec_with_attempts(n).spec_attempts() == n,
{
    let d = c.spec_with_attempts(n);
    assert(d.spec_tiles() == c.spec_tiles());
    assert(d.spec_hill() == c.spec_hill());
    assert(d.spec_bearings() == c.spec_bearings());
    assert(d.spec_pale() == c.spec_pale());
    assert(d.spec_sealed() == c.spec_sealed());
    lemma_every_chain(c);
    lemma_every_chain(d);
}

/// An arrangement `generate` passes over: none at all, one with its hill or
/// pale off the grid, or one the checks refuse.
pub open spec fn spec_refused(o: Option<County>) -> bool {
    match o {
        None => true,
        Some(c) => !(spec_on_grid(c.spec_hill()) && spec_on_grid(c.spec_pale()) && spec_passes(c)),
    }
}

/// Whether the `k`th seed after `seed` was laid out as something `generate`
/// passes over.
pub open spec fn spec_passed_over<F: Fn(u64) -> Option<County>>(arrange: F, seed: u64, k: int) -> bool {
    exists|o: Option<County>| call_ensures(arrange, (seed.wrapping_add(k as u64),), o) && spec_refused(o)
}

/// The retry loop, for any arrangement: up to `ATTEMPTS` seeds are tried in
/// order - `seed`, `seed + 1`, ... wrapping - each laid out by `arrange`, and
/// the first arrangement that satisfies every check in `refusals` is returned
/// with the number of seeds it took; if none does, the fallback is.
#[verifier::spinoff_prover]
pub fn generate_with(seed: u64, arrange: impl Fn(u64) -> Option<County>) -> (r: County)
    requires
        forall|s: u64| arrange.requires((s,)),
    ensures
        r.spec_attempts() < ATTEMPTS ==> spec_passes(r) && exists|c: County|
            call_ensures(arrange, (seed.wrapping_add(r.spec_attempts() as u64),), Some(c))
                && r == c.spec_with_attempts(r.spec_attempts()),
        r.spec_attempts() >= ATTEMPTS ==> spec_is_fallback(r),
        forall|k: int| 0 <= k < r.spec_attempts() && k < ATTEMPTS ==> #[trigger] spec_passed_over(arrange, seed, k),
{
    let mut n: u8 = 0;
    while n < ATTEMPTS
        invariant
            0 <= n <= ATTEMPTS,
            forall|s: u64| arrange.requires((s,)),
            forall|k: int| 0 <= k < n ==> #[trigger] spec_passed_over(arrange, seed, k),
        decreases ATTEMPTS - n,
    {
        let tried = arrange(seed.wrapping_add(n as u64));
        match tried {
            Some(c) => {
                if c.hill.0 < 7 && c.hill.1 < 7 && c.pale.0 < 7 && c.pale.1 < 7 {
                    if refusals(&c).len() == 0 {
                        proof {
                            lemma_passes_any_attempts(c, n);
                        }
                        return c.with_attempts(n);
                    }
                }
            },
            None => {},
        }
        proof {
            assert(spec_refused(tried));
            assert(spec_passed_over(arrange, seed, n as int));
        }
        n = n + 1;
    }
    fallback()
}

/// Whether the `k`th seed after `seed` drew no layout, or one the checks
/// refuse.
pub open spec fn spec_seed_refused(seed: u64, k: int) -> bool {
    exists|o: Option<County>| crate::layout::spec_arranged(o, seed.wrapping_add(k as u64)) && spec_refused(o)
}

/// Same seed, same county, for ever: the retry loop over the county's own
/// arrangement, a pure function of the seed. The seeds `seed`, `seed + 1`,
/// ... are laid out in turn, and the first layout that passes every check is
/// handed back carrying the number of seeds before it; each seed before it
/// drew no layout or one the checks refuse. When none of `ATTEMPTS` seeds
/// does, the fallback is handed back.
#[verifier::spinoff_prover]
#[verifier::rlimit(80)]
pub fn generate(seed: u64) -> (r: County)
    ensures
        r.spec_attempts() <= ATTEMPTS,
        r.spec_attempts() < ATTEMPTS ==> spec_passes(r) && (crate::layout::spec_arrange(
            seed.wrapping_add(r.spec_attempts() as u64),
        ) matches Some(l) && crate::layout::spec_is_layout(r, l, r.spec_attempts()))
            && crate::layout::spec_laid_out(r.spec_with_attempts(0)),
        r.spec_attempts() >= ATTEMPTS ==> spec_is_fallback(r),
        forall|k: int| 0 <= k < r.spec_attempts() && k < ATTEMPTS ==> #[trigger] spec_seed_refused(seed, k),
{
    let lay = |s: u64| -> (o: Option<County>)
        ensures
            crate::layout::spec_arranged(o, s),
    {
        crate::layout::arrange(s)
    };
    let r = generate_with(seed, lay);
    proof {
        if r.spec_attempts() < ATTEMPTS {
            let c = choose|c: County| call_ensures(lay, (seed.wrapping_add(r.spec_attempts() as u64),), Some(c))
                && r == c.spec_with_attempts(r.spec_attempts());
            assert(crate::layout::spec_arranged(Some(c), seed.wrapping_add(r.spec_attempts() as u64)));
            assert(r.spec_with_attempts(0) == c);
        }
        assert forall|k: int| 0 <= k < r.spec_attempts() && k < ATTEMPTS implies #[trigger] spec_seed_refused(seed, k) by {
            assert(spec_passed_over(lay, seed, k));
            let o = choose|o: Option<County>| call_ensures(lay, (seed.wrapping_add(k as u64),), o) && spec_refused(o);
            assert(crate::layout::spec_arranged(o, seed.wrapping_add(k as u64)));
        }
    }
    r
}


// ------------------------------------------------------------------ laws

/// The boundary is the county's edge: twenty-four tiles, each on the edge,
/// none twice.
pub proof fn the_boundary_is_the_edge()
    ensures
        spec_boundary().len() == 24,
        forall|i: int| 0 <= i < 24 ==> spec_on_edge(#[trigger] spec_boundary()[i]) && spec_on_grid(spec_boundary()[i]),
        forall|i: int, j: int| 0 <= i < 24 && 0 <= j < 24 && i != j ==> #[trigger] spec_boundary()[i] != #[trigger] spec_boundary()[j],
{
    assert forall|i: int, j: int| 0 <= i < 24 && 0 <= j < 24 && i != j implies #[trigger] spec_boundary()[i] != #[trigger] spec_boundary()[j] by {
        if spec_boundary()[i] == spec_boundary()[j] {
            lemma_boundary_distinct(i, j);
        }
    }
}

proof fn lemma_ring_index_at(j: int)
    requires
        0 <= j < 24,
    ensures
        spec_ring_index(spec_boundary_at(j)) == Some(j),
{
    let q = spec_boundary_at(j);
    assert(0 <= j < 24 && spec_boundary_at(j) == q);
    let k = choose|i: int| 0 <= i < 24 && spec_boundary_at(i) == q;
    lemma_boundary_distinct(k, j);
}

/// A step round the boundary and a step back the other way return to where
/// the walk started, and only a tile on the boundary has a next one.
#[verifier::spinoff_prover]
pub proof fn round_and_back(p: (u8, u8), clockwise: bool)
    ensures
        spec_next_round(p, clockwise) is Some == spec_ring_index(p) is Some,
        spec_next_round(p, clockwise) matches Some(q) ==> spec_next_round(q, !clockwise) == Some(p),
{
    match spec_ring_index(p) {
        Some(i) => {
            assert(0 <= i < 24 && spec_boundary_at(i) == p);
            let j = if clockwise { (i + 1) % 24 } else { (i + 23) % 24 };
            lemma_ring_index_at(j);
            if clockwise {
                assert((j + 23) % 24 == i);
            } else {
                assert((j + 1) % 24 == i);
            }
        },
        None => {},
    }
}

/// Movement is orthogonal: every neighbour of a tile on the grid is on the
/// grid, one step away, and there are between two and four of them.
pub proof fn neighbours_are_one_step_away(p: (u8, u8))
    requires
        spec_on_grid(p),
    ensures
        2 <= spec_neighbours(p).len() <= 4,
        forall|j: int| 0 <= j < spec_neighbours(p).len() ==> spec_on_grid(#[trigger] spec_neighbours(p)[j])
            && spec_manhattan(p, spec_neighbours(p)[j]) == 1,
{
}

/// Two different lines through the hill meet only at the hill, so two
/// sightings are knowledge: the tile both hold is the hill itself.
pub proof fn two_lines_meet_only_at_the_hill(a: Bearing, b: Bearing, hill: (u8, u8), p: (u8, u8))
    requires
        a != b,
        spec_on_grid(hill),
        spec_on_grid(p),
        a.spec_holds(hill, p),
        b.spec_holds(hill, p),
    ensures
        p == hill,
{
}

/// The pale opens a corner whose three sealed tiles hold no mouth, and of
/// the mouth-free corners it is the furthest from the pale.
pub proof fn the_far_corner_is_free_and_far(pale: (u8, u8))
    ensures
        spec_far_upto(pale, 4) matches Some(c) ==> spec_corners().contains(c) && spec_corner_free(c)
            && forall|i: int| 0 <= i < 4 && spec_corner_free(#[trigger] spec_corners()[i]) ==> spec_manhattan(spec_corners()[i], pale) <= spec_manhattan(c, pale),
        spec_far_upto(pale, 4) is None ==> forall|i: int| 0 <= i < 4 ==> !spec_corner_free(#[trigger] spec_corners()[i]),
{
    lemma_far_upto(pale, 4);
}

proof fn lemma_far_upto(pale: (u8, u8), n: int)
    requires
        0 <= n <= 4,
    ensures
        spec_far_upto(pale, n) matches Some(c) ==> (exists|k: int| 0 <= k < n && spec_corners()[k] == c) && spec_corner_free(c)
            && forall|i: int| 0 <= i < n && spec_corner_free(#[trigger] spec_corners()[i]) ==> spec_manhattan(spec_corners()[i], pale) <= spec_manhattan(c, pale),
        spec_far_upto(pale, n) is None ==> forall|i: int| 0 <= i < n ==> !spec_corner_free(#[trigger] spec_corners()[i]),
    decreases n,
{
    if n > 0 {
        lemma_far_upto(pale, n - 1);
        match spec_far_upto(pale, n) {
            Some(c) => {
                if c == spec_corners()[n - 1] {
                    assert(spec_corners()[n - 1] == c);
                }
            },
            None => {},
        }
    }
}

/// A step and the step back land where the walk started.
pub proof fn a_step_and_back(step: Step, p: (u8, u8))
    requires
        spec_on_grid(p),
        spec_in_bounds(spec_shift(p, step.spec_delta().0, step.spec_delta().1)),
    ensures
        ({
            let q = spec_shift(p, step.spec_delta().0, step.spec_delta().1);
            let back = match step {
                Step::North => Step::South,
                Step::South => Step::North,
                Step::East => Step::West,
                Step::West => Step::East,
            };
            spec_shift((q.0 as u8, q.1 as u8), back.spec_delta().0, back.spec_delta().1) == (p.0 as int, p.1 as int)
        }),
{
}


/// A longer trip never reaches less: whatever `k` moves reach from the
/// sources, `m >= k` moves reach too, crossing no more tolls.
pub proof fn a_longer_trip_reaches_at_least_as_far(tiles: Seq<Tile>, src: Seq<(u8, u8)>, budget: int, k: nat, m: nat, p: (u8, u8))
    requires
        k <= m,
    ensures
        spec_reach(tiles, src, budget, k, p) matches Some(t) ==> (spec_reach(tiles, src, budget, m, p) matches Some(u) && u <= t),
    decreases m - k,
{
    if k < m {
        a_longer_trip_reaches_at_least_as_far(tiles, src, budget, k, (m - 1) as nat, p);
    }
}

} // verus!
