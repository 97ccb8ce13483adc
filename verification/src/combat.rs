//! Combat: the fighters and their running items, how a creature stands up at
//! the bell, the round's decisions, and the log a fight writes.
//!
//! There are no turns. A fight is stepped in `TICK_MS` slices and each item
//! fills its own bar independently.

use vstd::prelude::*;
use vstd::string::StringSliceAdditionalSpecFns;

use crate::curse::{
    mind_damage_after_resist, spec_mind_after_resist, CurseKind, Curses, STUN_CAP_MS, STUN_MS,
    TICK_MS,
};
use crate::expert::ExpertPower;
use crate::loadout::ItemProfile;
use crate::piece::{Resource, SlotKind};
use crate::stats::{clamp, fits_i32, spec_lane, tdiv, Stats, LANE_CAP};

pub use crate::tally::{tally_items, Contribution, ItemTally};

verus! {

/// How often damage-over-time is summarised into the log.
pub const BURN_REPORT_MS: u32 = 1000;
/// How long slow time spreads a hit over.
pub const SLOW_TIME_MS: u32 = 5000;
pub const MAX_DURATION_MS: u32 = 60_000;
/// When a fight that will not end starts ending itself.
pub const SUDDEN_DEATH_MS: u32 = 30_000;
/// How much surrendered damage buys one step of the wrong sense.
pub const WRONG_SENSE_PER: i32 = 60;
/// What one step is worth, as a percentage added to mind damage.
pub const WRONG_SENSE_STEP: i32 = 10;
/// How many steps it may reach.
pub const WRONG_SENSE_CAP: i32 = 20;

#[derive(Copy, Clone, Eq, PartialEq, Debug, Structural)]
pub enum Side {
    Player,
    Enemy,
}

impl Side {
    pub open spec fn spec_other(self) -> Side {
        match self {
            Side::Player => Side::Enemy,
            Side::Enemy => Side::Player,
        }
    }

    pub fn other(self) -> (r: Side)
        ensures
            r == self.spec_other(),
    {
        match self {
            Side::Player => Side::Enemy,
            Side::Enemy => Side::Player,
        }
    }

    pub fn name(self) -> (r: &'static str)
        ensures
            r@ == (match self {
                Side::Player => "You"@,
                Side::Enemy => "Enemy"@,
            }),
    {
        match self {
            Side::Player => "You",
            Side::Enemy => "Enemy",
        }
    }
}

// ------------------------------------------------------------- monsters

/// One repeating attack belonging to a monster.
#[derive(Copy, Clone, Debug)]
pub struct MonsterAttack {
    pub name: &'static str,
    pub cooldown_ms: u32,
    pub damage: i32,
    pub mind: i32,
    pub armor: i32,
    /// Landed on the player each time this attack resolves.
    pub curse: Option<CurseKind>,
}

impl MonsterAttack {
    pub fn hit(name: &'static str, cooldown_ms: u32, damage: i32) -> (r: Self)
        ensures
            r.name == name && r.cooldown_ms == cooldown_ms && r.damage == damage && r.mind == 0
                && r.armor == 0 && r.curse is None,
    {
        MonsterAttack { name, cooldown_ms, damage, mind: 0, armor: 0, curse: None }
    }

    pub fn cursing(name: &'static str, cooldown_ms: u32, damage: i32, curse: CurseKind) -> (r: Self)
        ensures
            r.name == name && r.cooldown_ms == cooldown_ms && r.damage == damage && r.mind == 0
                && r.armor == 0 && r.curse == Some(curse),
    {
        MonsterAttack { name, cooldown_ms, damage, mind: 0, armor: 0, curse: Some(curse) }
    }

    pub fn mind(name: &'static str, cooldown_ms: u32, mind: i32) -> (r: Self)
        ensures
            r.name == name && r.cooldown_ms == cooldown_ms && r.damage == 0 && r.mind == mind
                && r.armor == 0 && r.curse is None,
    {
        MonsterAttack { name, cooldown_ms, damage: 0, mind, armor: 0, curse: None }
    }

    pub fn shielding(name: &'static str, cooldown_ms: u32, armor: i32) -> (r: Self)
        ensures
            r.name == name && r.cooldown_ms == cooldown_ms && r.damage == 0 && r.mind == 0
                && r.armor == armor && r.curse is None,
    {
        MonsterAttack { name, cooldown_ms, damage: 0, mind: 0, armor, curse: None }
    }
}

/// Which silhouette to draw for a monster.
#[derive(Copy, Clone, Eq, PartialEq, Debug, Structural)]
pub enum MonsterSprite {
    Rat,
    Warden,
    Gearwright,
    Toad,
    Archer,
    Golem,
    Wisp,
    Hound,
    Sentinel,
    Wraith,
    Idol,
    Fiend,
    King,
    Francis,
    Marshal,
    Null,
    Lantern,
    Choir,
    Silence,
    Hourglass,
    Tallow,
    Weeping,
    Wedding,
    Twin,
    Mirror,
    Sootmother,
    Ashes,
    Crown,
    Drowned,
    Anvil,
    Parliament,
    Abbot,
    Gilt,
    Vermin,
    Behemoth,
    Cantor,
    Ember,
    Curator,
    Idiot,
    Rimefather,
    Slag,
    Obsidian,
    Gallows,
    CogPriest,
    RuinHound,
    Salt,
    Verdigris,
    March,
    Bells,
    Colossus,
}

/// One entry in a monster's loadout: `(component, slot, x, y, quarter turns)`.
pub type GearPlacement = (&'static str, SlotKind, u8, u8, u8);

/// What kind of fight this is.
#[derive(Copy, Clone, Eq, PartialEq, Debug, Structural)]
pub enum Rank {
    Ordinary,
    Mini,
    Boss,
}

impl Default for Rank {
    fn default() -> (r: Rank)
        ensures
            r == Rank::Ordinary,
    {
        Rank::Ordinary
    }
}

impl Rank {
    pub open spec fn spec_min_items_per_slot(self) -> usize {
        match self {
            Rank::Ordinary => 0,
            Rank::Mini => 2,
            Rank::Boss => 3,
        }
    }

    /// How many assembled items each slot this creature *uses* must hold.
    pub fn min_items_per_slot(self) -> (r: usize)
        ensures
            r == self.spec_min_items_per_slot(),
    {
        match self {
            Rank::Ordinary => 0,
            Rank::Mini => 2,
            Rank::Boss => 3,
        }
    }

    /// The same, for one slot: the weapon is one item whatever the rank.
    pub fn min_items_in(self, slot: SlotKind) -> (r: usize)
        ensures
            r == if slot == SlotKind::Weapon {
                if self.spec_min_items_per_slot() < 1 {
                    self.spec_min_items_per_slot()
                } else {
                    1
                }
            } else {
                self.spec_min_items_per_slot()
            },
    {
        let per = self.min_items_per_slot();
        match slot {
            SlotKind::Weapon => if per < 1 { per } else { 1 },
            _ => per,
        }
    }

    /// How many slots a named creature has to turn up wearing.
    pub fn min_slots(self) -> (r: usize)
        ensures
            r == (match self {
                Rank::Ordinary => 0usize,
                Rank::Mini => 2,
                Rank::Boss => 3,
            }),
    {
        match self {
            Rank::Ordinary => 0,
            Rank::Mini => 2,
            Rank::Boss => 3,
        }
    }

    pub fn is_named(self) -> (r: bool)
        ensures
            r == (self != Rank::Ordinary),
    {
        match self {
            Rank::Ordinary => false,
            _ => true,
        }
    }
}

#[derive(Copy, Clone, Debug)]
pub struct MonsterSpec {
    pub name: &'static str,
    /// Innate stats before gear: mostly just how much health it has.
    pub health: i32,
    /// Innate strength, which its weapons then scale.
    pub strength: i32,
    pub regen: i32,
    pub mind_resist: i32,
    pub curse_resist: i32,
    pub physical_resist: i32,
    pub magic_resist: i32,
    /// Innate attacks — a rat's teeth, not equipment.
    pub attacks: &'static [MonsterAttack],
    /// Real components in real slots, assembled by the same rules the player
    /// plays by.
    pub gear: &'static [GearPlacement],
    /// Steps this monster's gear up or down its own kinds.
    pub gear_offset: i32,
    /// Gold awarded for beating it.
    pub bounty: i32,
    pub sprite: MonsterSprite,
    pub rank: Rank,
    /// Components only this creature carries, and only it can drop.
    pub drops: &'static [&'static str],
    /// How many pieces of `gear`, in order, make up each item.
    pub items: &'static [usize],
    /// Enchs bolted to this creature's gear: the ench's id, and the index into
    /// `gear` of the component it is on.
    pub enchs: &'static [(&'static str, usize)],
}

/// How many times the man at the top may double before the numbers stop
/// meaning anything.
pub const MOST_DOUBLINGS: u32 = 12;

/// Two to the `k`.
pub open spec fn spec_pow2(k: nat) -> int
    decreases k,
{
    if k == 0 {
        1
    } else {
        2 * spec_pow2((k - 1) as nat)
    }
}

/// A doubled figure: `v` times `m`, clipped at the top of an `i32` and then
/// narrowed to one.
pub open spec fn spec_scaled(v: i32, m: int) -> i32 {
    let p: int = v * m;
    (if p < i32::MAX { p } else { i32::MAX as int }) as i32
}

impl MonsterSpec {
    /// The multiplier `n` doublings buy: `2^n`, and no more than `2^12`.
    pub open spec fn spec_doubling(n: u32) -> int {
        spec_pow2(if n < MOST_DOUBLINGS { n as nat } else { MOST_DOUBLINGS as nat })
    }

    /// This creature, `n` doublings harder: health, strength and bounty
    /// double; the resistances do not.
    pub fn doubled(&self, n: u32) -> (r: MonsterSpec)
        ensures
            n == 0 ==> r == *self,
            n > 0 ==> r == (MonsterSpec {
                health: spec_scaled(self.health, MonsterSpec::spec_doubling(n)),
                strength: spec_scaled(self.strength, MonsterSpec::spec_doubling(n)),
                bounty: spec_scaled(self.bounty, MonsterSpec::spec_doubling(n)),
                ..*self
            }),
    {
        let mut out = *self;
        if n == 0 {
            return out;
        }
        let k: u32 = if n < MOST_DOUBLINGS { n } else { MOST_DOUBLINGS };
        let mut m: i64 = 1;
        let mut i: u32 = 0;
        while i < k
            invariant
                0 <= i <= k <= MOST_DOUBLINGS,
                m == spec_pow2(i as nat),
                1 <= m <= 4096,
            decreases k - i,
        {
            proof {
                lemma_pow2_bound(i as nat);
            }
            m = m * 2;
            i = i + 1;
        }
        out.health = scale_doubled(self.health, m);
        out.strength = scale_doubled(self.strength, m);
        out.bounty = scale_doubled(self.bounty, m);
        out
    }
}

proof fn lemma_pow2_bound(k: nat)
    requires
        k < MOST_DOUBLINGS,
    ensures
        spec_pow2(k) * 2 <= 4096,
        spec_pow2(k) >= 1,
{
    lemma_pow2_mono(k + 1, MOST_DOUBLINGS as nat);
    lemma_pow2_mono(0, k);
    reveal_with_fuel(spec_pow2, 13);
    assert(spec_pow2(12) == 4096);
}

proof fn lemma_pow2_mono(a: nat, b: nat)
    requires
        a <= b,
    ensures
        spec_pow2(a) <= spec_pow2(b),
        spec_pow2(a) >= 1,
    decreases b,
{
    if b > a {
        lemma_pow2_mono(a, (b - 1) as nat);
    } else if a > 0 {
        lemma_pow2_mono(0, (a - 1) as nat);
    }
}

fn scale_doubled(v: i32, m: i64) -> (r: i32)
    requires
        1 <= m <= 4096,
    ensures
        r == spec_scaled(v, m as int),
{
    let v64 = v as i64;
    assert(-(i32::MAX + 1) * 4096 <= v64 * m <= i32::MAX * 4096) by (nonlinear_arith)
        requires
            -(i32::MAX + 1) <= v64 <= i32::MAX,
            1 <= m <= 4096,
    ;
    let p = v64 * m;
    let c = if p < i32::MAX as i64 { p } else { i32::MAX as i64 };
    c as i32
}

/// How much harder than a baseline run this is.
#[derive(Copy, Clone, Eq, PartialEq, Debug, Structural)]
pub enum Difficulty {
    Easy,
    Medium,
    Hard,
    Insane,
}

impl Difficulty {
    /// The last rung that fights the same at every setting above Easy.
    pub const SAME_AS_MEDIUM_THROUGH: usize = 14;

    /// The line under the heading on the screen where a setting is picked.
    pub fn what_the_choice_is() -> (r: &'static str)
        ensures
            r@ == "Set once, for the whole run. It steps the gear the opposition wears before it touches any of its numbers."@,
    {
        "Set once, for the whole run. It steps the gear the opposition wears before it touches any of its numbers."
    }

    /// All four, easiest first.
    pub fn all() -> (r: [Difficulty; 4])
        ensures
            r@ == seq![Difficulty::Easy, Difficulty::Medium, Difficulty::Hard, Difficulty::Insane],
    {
        [Difficulty::Easy, Difficulty::Medium, Difficulty::Hard, Difficulty::Insane]
    }

    pub fn name(self) -> (r: &'static str)
        ensures
            r@ == (match self {
                Difficulty::Easy => "EASY"@,
                Difficulty::Medium => "MEDIUM"@,
                Difficulty::Hard => "HARD"@,
                Difficulty::Insane => "INSANE"@,
            }),
    {
        match self {
            Difficulty::Easy => "EASY",
            Difficulty::Medium => "MEDIUM",
            Difficulty::Hard => "HARD",
            Difficulty::Insane => "INSANE",
        }
    }

    /// The advertised multiple, as the picker prints it: a whole number is
    /// printed whole, a half as a half.
    pub fn label(self) -> (r: String)
        ensures
            r@ == (match self {
                Difficulty::Easy => "0.5x"@,
                Difficulty::Medium => "1x"@,
                Difficulty::Hard => "3x"@,
                Difficulty::Insane => "9x"@,
            }),
    {
        match self {
            Difficulty::Easy => String::from_str("0.5x"),
            Difficulty::Medium => String::from_str("1x"),
            Difficulty::Hard => String::from_str("3x"),
            Difficulty::Insane => String::from_str("9x"),
        }
    }

    /// Medium is the way the game is meant to be played.
    pub fn is_default(self) -> (r: bool)
        ensures
            r == (self == Difficulty::Medium),
    {
        match self {
            Difficulty::Medium => true,
            _ => false,
        }
    }

    pub open spec fn spec_gear_step(self) -> i32 {
        match self {
            Difficulty::Easy => -1i32,
            Difficulty::Medium => 0,
            Difficulty::Hard => 1,
            Difficulty::Insane => 2,
        }
    }

    /// How far up its own kind each of a monster's components is swapped.
    pub fn gear_step(self) -> (r: i32)
        ensures
            r == self.spec_gear_step(),
    {
        match self {
            Difficulty::Easy => -1,
            Difficulty::Medium => 0,
            Difficulty::Hard => 1,
            Difficulty::Insane => 2,
        }
    }

    /// Standing bonuses the opposition gets on top of the raw scaling:
    /// nothing on Easy, `Hardened` everywhere else.
    pub fn passives(self) -> (r: Vec<Passive>)
        ensures
            r@ == (match self {
                Difficulty::Easy => Seq::<Passive>::empty(),
                _ => seq![Passive::Hardened],
            }),
    {
        match self {
            Difficulty::Easy => Vec::new(),
            _ => {
                let mut v = Vec::new();
                v.push(Passive::Hardened);
                v
            },
        }
    }
}

/// What kind of harm an attack is, so the matching defences apply.
#[derive(Copy, Clone, Eq, PartialEq, Debug, Structural)]
pub enum DamageType {
    Physical,
    Magic,
}

impl Default for DamageType {
    fn default() -> (r: DamageType)
        ensures
            r == DamageType::Physical,
    {
        DamageType::Physical
    }
}

impl DamageType {
    pub fn name(self) -> (r: &'static str)
        ensures
            r@ == (match self {
                DamageType::Physical => "physical damage"@,
                DamageType::Magic => "magic damage"@,
            }),
    {
        match self {
            DamageType::Physical => "physical damage",
            DamageType::Magic => "magic damage",
        }
    }
}

/// A standing rule that edits a combatant before the fight starts.
#[derive(Copy, Clone, Eq, PartialEq, Debug, Structural)]
pub enum Passive {
    /// Knits itself back together: regeneration every second.
    Hardened,
    /// Turns aside the mind and the curse alike.
    Warded,
    /// Never stops coming: everything it does lands sooner.
    Relentless,
}

impl Passive {
    pub fn name(self) -> (r: &'static str)
        ensures
            r@ == (match self {
                Passive::Hardened => "Hardened"@,
                Passive::Warded => "Warded"@,
                Passive::Relentless => "Relentless"@,
            }),
    {
        match self {
            Passive::Hardened => "Hardened",
            Passive::Warded => "Warded",
            Passive::Relentless => "Relentless",
        }
    }

    pub fn describe(self) -> (r: &'static str)
        ensures
            r@ == (match self {
                Passive::Hardened => "heals 4 a second"@,
                Passive::Warded => "shrugs off 40% of mind and curses, 20% of blows and spells"@,
                Passive::Relentless => "all its gear comes round a quarter sooner"@,
            }),
    {
        match self {
            Passive::Hardened => "heals 4 a second",
            Passive::Warded => "shrugs off 40% of mind and curses, 20% of blows and spells",
            Passive::Relentless => "all its gear comes round a quarter sooner",
        }
    }
}

/// What a spell costs to cast at full strength.
pub const SPELL_MANA_COST: i32 = 3;
/// What one turn of the spin banks, in hundredths of power.
pub const SPIN_PCT_PER_TURN: i32 = 10;
/// How long one turn takes.
pub const SPIN_EVERY_MS: u32 = 1_000;
pub const WEAK_CAST_PCT: i32 = 45;
/// What a paid cast lands for.
pub const EMPOWERED_CAST_PCT: i32 = 200;
/// How many of its spells a crystal ball casts each time it comes round.
pub const BALL_VOICES: u32 = 2;
/// What one stack of Spellblade adds to a physical hit, in power-hundredths.
pub const SPELLBLADE_POWER: i32 = 50;
/// What one stack of Deflection turns off an incoming physical hit.
pub const DEFLECTION_FLAT: i32 = 10;
/// What a stack of Dread divides the Insight it stands on by.
pub const DREAD_DIVISOR: i32 = 2;
/// The rung past which everything on the road pierces, and past which it also
/// hardens.
pub const PIERCE_FROM: usize = 30;
pub const HARDEN_FROM: usize = 40;

// ----------------------------------------------------------- combatants

/// An item mid-fight: its profile plus how far its cooldown has filled.
#[derive(Clone, Debug)]
pub struct RunningItem {
    pub name: String,
    pub rating: i32,
    pub slot: Option<SlotKind>,
    pub cooldown_ms: u32,
    pub progress_ms: u32,
    pub stun_ms: u32,
    pub owed_ms: u32,
    pub gold_spent: i32,
    pub gold_paid: u32,
    pub attracts_curses: bool,
    pub steady: bool,
    pub overtakes: bool,
    pub has_fired: bool,
    pub spins: bool,
    pub fragile: bool,
    pub enched: bool,
    pub fires: u32,
    pub base_cooldown_ms: u32,
    pub slowed_pct: u32,
    pub broken: bool,
    pub spin_stacks: u32,
    pub turn_index: u32,
    pub turn_cycle_len: u32,
    pub spin_ms: u32,
    pub unshakable: bool,
    pub power: i32,
    pub physical_damage: i32,
    pub magic_damage: i32,
    pub mind: i32,
    pub armor: i32,
    pub mana: i32,
    pub rage: i32,
    pub faith: i32,
    pub nature: i32,
    pub adjacent_assembled_same_slot: usize,
    pub open_cells: usize,
    pub adjacent_items: Vec<usize>,
    pub aligned_items: Vec<usize>,
    pub diagonal_items: Vec<usize>,
    pub watched: Vec<u32>,
    pub watch_paid: Vec<bool>,
    pub curse: Option<CurseKind>,
    pub sigil_seed: u64,
    pub power_bonus: i32,
    pub cast_index: usize,
}

/// A blank item: every count zero, every flag off, every list empty.
pub open spec fn spec_blank_item(r: RunningItem) -> bool {
    &&& r.name@.len() == 0
    &&& r.rating == 0
    &&& r.slot is None
    &&& r.cooldown_ms == 0
    &&& r.progress_ms == 0
    &&& r.stun_ms == 0
    &&& r.owed_ms == 0
    &&& r.gold_spent == 0
    &&& r.gold_paid == 0
    &&& r.attracts_curses == false
    &&& r.steady == false
    &&& r.overtakes == false
    &&& r.has_fired == false
    &&& r.spins == false
    &&& r.fragile == false
    &&& r.enched == false
    &&& r.fires == 0
    &&& r.base_cooldown_ms == 0
    &&& r.slowed_pct == 0
    &&& r.broken == false
    &&& r.spin_stacks == 0
    &&& r.turn_index == 0
    &&& r.turn_cycle_len == 0
    &&& r.spin_ms == 0
    &&& r.unshakable == false
    &&& r.power == 0
    &&& r.physical_damage == 0
    &&& r.magic_damage == 0
    &&& r.mind == 0
    &&& r.armor == 0
    &&& r.mana == 0
    &&& r.rage == 0
    &&& r.faith == 0
    &&& r.nature == 0
    &&& r.adjacent_assembled_same_slot == 0
    &&& r.open_cells == 0
    &&& r.adjacent_items@.len() == 0
    &&& r.aligned_items@.len() == 0
    &&& r.diagonal_items@.len() == 0
    &&& r.watched@.len() == 0
    &&& r.watch_paid@.len() == 0
    &&& r.curse is None
    &&& r.sigil_seed == 0
    &&& r.power_bonus == 0
    &&& r.cast_index == 0
}

impl Default for RunningItem {
    fn default() -> (r: Self)
        ensures
            spec_blank_item(r),
    {
        RunningItem {
            name: String::new(),
            rating: 0,
            slot: None,
            cooldown_ms: 0,
            progress_ms: 0,
            stun_ms: 0,
            owed_ms: 0,
            gold_spent: 0,
            gold_paid: 0,
            attracts_curses: false,
            steady: false,
            overtakes: false,
            has_fired: false,
            spins: false,
            fragile: false,
            enched: false,
            fires: 0,
            base_cooldown_ms: 0,
            slowed_pct: 0,
            broken: false,
            spin_stacks: 0,
            turn_index: 0,
            turn_cycle_len: 0,
            spin_ms: 0,
            unshakable: false,
            power: 0,
            physical_damage: 0,
            magic_damage: 0,
            mind: 0,
            armor: 0,
            mana: 0,
            rage: 0,
            faith: 0,
            nature: 0,
            adjacent_assembled_same_slot: 0,
            open_cells: 0,
            adjacent_items: Vec::new(),
            aligned_items: Vec::new(),
            diagonal_items: Vec::new(),
            watched: Vec::new(),
            watch_paid: Vec::new(),
            curse: None,
            sigil_seed: 0,
            power_bonus: 0,
            cast_index: 0,
        }
    }
}

#[derive(Clone, Debug)]
pub struct Combatant {
    pub name: String,
    /// The expert power the fighter holds, if any; read as the fight runs.
    pub expert: Option<ExpertPower>,
    pub max_health: i32,
    pub health: i32,
    pub armor: i32,
    pub mana: i32,
    pub strength: i32,
    pub power: i32,
    pub regen: i32,
    pub mind_resist: i32,
    pub curse_resist: i32,
    pub physical_resist: i32,
    pub physical_pierce: i32,
    pub physical_harden: i32,
    pub magic_resist: i32,
    pub magic_pierce: i32,
    pub magic_harden: i32,
    pub reflect: i32,
    pub rage: i32,
    pub faith: i32,
    pub nature: i32,
    pub druidic_might: i32,
    pub communion: i32,
    pub zealotry: i32,
    pub purse: i32,
    pub aim: usize,
    pub no_regen: bool,
    pub slower_pct: i32,
    pub armour_pct: i32,
    pub haste_per_s: i32,
    pub warded_every: u32,
    pub warded_count: u32,
    pub curses: Curses,
    pub empowerment: u32,
    pub burn_stacks: u32,
    pub shield: u32,
    pub insight: i32,
    pub dread: u32,
    pub first_blood: bool,
    pub mind_pierce: i32,
    pub spellblade: u32,
    pub wrong_sense: bool,
    pub surrendered: i64,
    pub deflection: u32,
    pub forking: u32,
    pub items: Vec<RunningItem>,
    pub slow_time: u32,
    pub overflowing: i32,
    pub leech: i32,
    pub echo_every: u32,
    pub bastion: i32,
    pub contagion: u32,
    pub reprisal: i32,
    pub riposte: u32,
    pub momentum: i32,
    pub resonance: u32,
    pub transmute: i32,
    pub adaptable: i32,
    pub untimely: u32,
    pub cascade: u32,
    pub consecrate: i32,
    pub misfire_count: u32,
    pub stun_count: u32,
    pub untimely_count: u32,
    pub bloodscent: i32,
    pub confluence: i32,
    pub productivity: Option<(u32, u32)>,
    pub loud_bought: i32,
    pub loud_free_left: i32,
    pub loud_owed: i32,
    pub facts_standing: u32,
    pub reqs_left: i32,
    pub reqs_done: u32,
    pub opening_until_ms: u32,
    pub opening_encores: i32,
    pub opening_banked: bool,
    pub overwound_ms: u32,
    pub overwound_stacks: i32,
    pub burn_ms: u32,
    pub burn_every_ms: u32,
    pub burn_per_stack: i32,
    pub burn_keeps_pct: i32,
    pub fired_left: i32,
    pub silent_left: i32,
    pub silent_owed: i32,
    pub told_per_curse: i32,
    pub told_cap: i32,
    pub said: i32,
    pub boiler_tenths: i32,
    pub burned: [i32; 3],
    pub unmade_at: Option<i32>,
    pub empty_frames: u32,
    pub spin_extra: u32,
    pub spin_keep: u32,
    pub spin_every_ms: u32,
    pub curse_on_activate: Vec<(SlotKind, CurseKind)>,
}

/// An item as `from_profile` starts it: the profile's figures, a cold bar.
pub open spec fn spec_item_from_profile(r: RunningItem, p: ItemProfile) -> bool {
    &&& r.name@ == p.name@
    &&& r.slot == Some(p.slot)
    &&& r.rating == p.rating
    &&& r.attracts_curses == p.attracts_curses
    &&& r.steady == p.steady
    &&& r.overtakes == p.overtakes
    &&& !r.has_fired
    &&& r.fragile == p.fragile
    &&& !r.broken
    &&& !r.unshakable
    &&& r.cooldown_ms == p.cooldown_ms
    &&& r.progress_ms == 0
    &&& r.stun_ms == 0
    &&& r.spins == (p.spins && p.turn_cycle_len > 1)
    &&& r.enched == p.enched
    &&& r.fires == 0
    &&& r.slowed_pct == 0
    &&& r.base_cooldown_ms == p.cooldown_ms
    &&& r.spin_stacks == 0
    &&& r.spin_ms == 0
    &&& r.turn_index == 0
    &&& r.turn_cycle_len == (if p.turn_cycle_len < 1 { 1 } else { p.turn_cycle_len }) as u32
    &&& r.owed_ms == 0
    &&& r.gold_spent == 0
    &&& r.gold_paid == 0
    &&& r.physical_damage == p.stats.physical_damage
    &&& r.magic_damage == p.stats.magic_damage
    &&& r.rage == p.stats.rage
    &&& r.faith == p.stats.faith
    &&& r.nature == p.stats.nature
    &&& r.mind == p.stats.mind
    &&& r.armor == p.stats.armor
    &&& r.mana == p.stats.mana
    &&& r.adjacent_assembled_same_slot == p.adjacent_assembled_same_slot
    &&& r.open_cells == p.open_cells
    &&& r.power == p.power
    &&& r.adjacent_items@ == p.adjacent_items@
    &&& r.aligned_items@ == p.aligned_items@
    &&& r.diagonal_items@ == p.diagonal_items@
    &&& r.watched@ == Seq::new(p.triggers as nat, |i: int| 0u32)
    &&& r.watch_paid@ == Seq::new(p.triggers as nat, |i: int| false)
    &&& r.curse is None
    &&& r.sigil_seed == p.sigil_seed
    &&& r.power_bonus == p.power_bonus
    &&& r.cast_index == 0
}

impl RunningItem {
    pub fn from_profile(p: &ItemProfile) -> (r: Self)
        ensures
            spec_item_from_profile(r, *p),
    {
        let adjacent_items = p.adjacent_items.clone();
        let aligned_items = p.aligned_items.clone();
        let diagonal_items = p.diagonal_items.clone();
        proof {
            assert(adjacent_items@ =~= p.adjacent_items@);
            assert(aligned_items@ =~= p.aligned_items@);
            assert(diagonal_items@ =~= p.diagonal_items@);
        }
        let watched: Vec<u32> = vec![0u32; p.triggers];
        let watch_paid: Vec<bool> = vec![false; p.triggers];
        proof {
            assert(watched@ =~= Seq::new(p.triggers as nat, |i: int| 0u32));
            assert(watch_paid@ =~= Seq::new(p.triggers as nat, |i: int| false));
        }
        let cycle: usize = if p.turn_cycle_len < 1 { 1 } else { p.turn_cycle_len };
        RunningItem {
            name: p.name.clone(),
            slot: Some(p.slot),
            attracts_curses: p.attracts_curses,
            steady: p.steady,
            overtakes: p.overtakes,
            has_fired: false,
            fragile: p.fragile,
            broken: false,
            unshakable: false,
            cooldown_ms: p.cooldown_ms,
            progress_ms: 0,
            stun_ms: 0,
            spins: p.spins && p.turn_cycle_len > 1,
            enched: p.enched,
            fires: 0,
            slowed_pct: 0,
            base_cooldown_ms: p.cooldown_ms,
            spin_stacks: 0,
            spin_ms: 0,
            turn_index: 0,
            turn_cycle_len: cycle as u32,
            owed_ms: 0,
            gold_spent: 0,
            gold_paid: 0,
            physical_damage: p.stats.physical_damage,
            magic_damage: p.stats.magic_damage,
            rage: p.stats.rage,
            faith: p.stats.faith,
            nature: p.stats.nature,
            mind: p.stats.mind,
            armor: p.stats.armor,
            mana: p.stats.mana,
            adjacent_assembled_same_slot: p.adjacent_assembled_same_slot,
            open_cells: p.open_cells,
            power: p.power,
            adjacent_items,
            aligned_items,
            diagonal_items,
            watched,
            watch_paid,
            curse: None,
            sigil_seed: p.sigil_seed,
            rating: p.rating,
            power_bonus: p.power_bonus,
            cast_index: 0,
        }
    }
}

impl Combatant {
    /// The player at the bell: the stat block's figures, nothing banked, and
    /// one running item per profile, in order.
    pub fn player(stats: Stats, profiles: &[ItemProfile]) -> (r: Self)
        ensures
            r.name@ == "You"@,
            r.expert is None,
            r.curses@ == Seq::<crate::curse::Curse>::empty(),
            r.curse_on_activate@.len() == 0,
            r.wrong_sense == exists|i: int| 0 <= i < profiles@.len() && #[trigger] profiles@[i].wrong_sense,
            r.items@.len() == profiles@.len(),
            forall|i: int| 0 <= i < profiles@.len() ==> spec_item_from_profile(#[trigger] r.items@[i], profiles@[i]),
            r.max_health == stats.health,
            r.health == stats.health,
            r.armor == 0,
            r.mana == 0,
            r.strength == stats.strength,
            r.power == stats.power,
            r.regen == stats.regen,
            r.mind_resist == stats.mind_resist,
            r.curse_resist == stats.curse_resist,
            r.physical_resist == stats.physical_resist,
            r.physical_pierce == stats.physical_pierce,
            r.physical_harden == stats.physical_harden,
            r.magic_resist == stats.magic_resist,
            r.magic_pierce == stats.magic_pierce,
            r.magic_harden == stats.magic_harden,
            r.reflect == stats.reflect,
            r.rage == 0,
            r.faith == 0,
            r.nature == 0,
            r.druidic_might == 0,
            r.communion == 0,
            r.zealotry == 0,
            r.purse == 0,
            r.aim == 0,
            r.no_regen == false,
            r.slower_pct == 0,
            r.armour_pct == 100,
            r.haste_per_s == 0,
            r.warded_every == 0,
            r.warded_count == 0,
            r.empowerment == 0,
            r.burn_stacks == 0,
            r.shield == 0,
            r.insight == 0,
            r.dread == 0,
            r.first_blood == false,
            r.mind_pierce == 0,
            r.spellblade == 0,
            r.surrendered == 0,
            r.deflection == 0,
            r.forking == 0,
            r.slow_time == 0,
            r.overflowing == 1,
            r.leech == 0,
            r.echo_every == 0,
            r.bastion == 0,
            r.contagion == 0,
            r.reprisal == 0,
            r.riposte == 0,
            r.momentum == 0,
            r.resonance == 1,
            r.transmute == 0,
            r.adaptable == 0,
            r.untimely == 0,
            r.cascade == 0,
            r.consecrate == 0,
            r.misfire_count == 0,
            r.stun_count == 0,
            r.untimely_count == 0,
            r.bloodscent == 0,
            r.confluence == 0,
            r.productivity is None,
            r.loud_bought == 0,
            r.loud_free_left == 0,
            r.loud_owed == 0,
            r.facts_standing == 0,
            r.reqs_left == 0,
            r.reqs_done == 0,
            r.opening_until_ms == 0,
            r.opening_encores == 0,
            r.opening_banked == false,
            r.overwound_ms == 0,
            r.overwound_stacks == 0,
            r.burn_ms == 0,
            r.burn_every_ms == 0,
            r.burn_per_stack == 0,
            r.burn_keeps_pct == 0,
            r.fired_left == 0,
            r.silent_left == 0,
            r.silent_owed == 0,
            r.told_per_curse == 0,
            r.told_cap == 0,
            r.said == 0,
            r.boiler_tenths == 0,
            r.burned@ == seq![0i32, 0, 0],
            r.unmade_at is None,
            r.empty_frames == 0,
            r.spin_extra == 0,
            r.spin_keep == 0,
            r.spin_every_ms == SPIN_EVERY_MS,
    {
        let mut items: Vec<RunningItem> = Vec::new();
        let mut wrong_sense = false;
        let mut i: usize = 0;
        while i < profiles.len()
            invariant
                0 <= i <= profiles@.len(),
                items@.len() == i,
                forall|j: int| 0 <= j < i ==> spec_item_from_profile(#[trigger] items@[j], profiles@[j]),
                wrong_sense == exists|j: int| 0 <= j < i && #[trigger] profiles@[j].wrong_sense,
            decreases profiles@.len() - i,
        {
            let it = RunningItem::from_profile(&profiles[i]);
            items.push(it);
            if profiles[i].wrong_sense {
                wrong_sense = true;
            }
            i = i + 1;
        }
        proof {
            reveal_strlit("You");
        }
        Combatant {
            name: String::from_str("You"),
            expert: None,
            max_health: stats.health,
            health: stats.health,
            armor: 0,
            mana: 0,
            strength: stats.strength,
            power: stats.power,
            regen: stats.regen,
            mind_resist: stats.mind_resist,
            curse_resist: stats.curse_resist,
            physical_resist: stats.physical_resist,
            physical_pierce: stats.physical_pierce,
            physical_harden: stats.physical_harden,
            magic_resist: stats.magic_resist,
            magic_pierce: stats.magic_pierce,
            magic_harden: stats.magic_harden,
            reflect: stats.reflect,
            rage: 0,
            faith: 0,
            nature: 0,
            druidic_might: 0,
            communion: 0,
            zealotry: 0,
            purse: 0,
            aim: 0,
            no_regen: false,
            slower_pct: 0,
            armour_pct: 100,
            haste_per_s: 0,
            warded_every: 0,
            warded_count: 0,
            curses: Curses::new(),
            empowerment: 0,
            burn_stacks: 0,
            shield: 0,
            insight: 0,
            dread: 0,
            first_blood: false,
            mind_pierce: 0,
            spellblade: 0,
            wrong_sense,
            surrendered: 0,
            deflection: 0,
            forking: 0,
            items,
            slow_time: 0,
            overflowing: 1,
            leech: 0,
            echo_every: 0,
            bastion: 0,
            contagion: 0,
            reprisal: 0,
            riposte: 0,
            momentum: 0,
            resonance: 1,
            transmute: 0,
            adaptable: 0,
            untimely: 0,
            cascade: 0,
            consecrate: 0,
            misfire_count: 0,
            stun_count: 0,
            untimely_count: 0,
            bloodscent: 0,
            confluence: 0,
            productivity: None,
            loud_bought: 0,
            loud_free_left: 0,
            loud_owed: 0,
            facts_standing: 0,
            reqs_left: 0,
            reqs_done: 0,
            opening_until_ms: 0,
            opening_encores: 0,
            opening_banked: false,
            overwound_ms: 0,
            overwound_stacks: 0,
            burn_ms: 0,
            burn_every_ms: 0,
            burn_per_stack: 0,
            burn_keeps_pct: 0,
            fired_left: 0,
            silent_left: 0,
            silent_owed: 0,
            told_per_curse: 0,
            told_cap: 0,
            said: 0,
            boiler_tenths: 0,
            burned: [0i32, 0, 0],
            unmade_at: None,
            empty_frames: 0,
            spin_extra: 0,
            spin_keep: 0,
            spin_every_ms: SPIN_EVERY_MS,
            curse_on_activate: Vec::new(),
        }
    }
}


/// What one held point of each pool pays, given the fighter's multiplier
/// and what the furnace keeps paying: the four figures `held_bonus` reports.
pub open spec fn spec_kept(c: Combatant, i: int) -> int {
    tdiv(c.burned@[i] * clamp(c.burn_keeps_pct as int, 0, 100), 100)
}

pub open spec fn spec_mult(c: Combatant) -> int {
    if c.overflowing < 1 {
        1
    } else {
        c.overflowing as int
    }
}

pub open spec fn spec_held_rage(c: Combatant) -> int {
    (c.rage + spec_kept(c, 0)) * spec_mult(c)
}

pub open spec fn spec_held_faith(c: Combatant) -> int {
    (c.faith + spec_kept(c, 1)) * spec_mult(c)
}

pub open spec fn spec_held_nature(c: Combatant) -> int {
    (c.nature + spec_kept(c, 2)) * spec_mult(c)
}

/// Every intermediate figure of `held_bonus` fits in an `i32`.
pub open spec fn spec_held_fits(c: Combatant) -> bool {
    let m = spec_mult(c);
    let pct = clamp(c.burn_keeps_pct as int, 0, 100);
    &&& fits_i32(c.burned@[0] * pct)
    &&& fits_i32(c.burned@[1] * pct)
    &&& fits_i32(c.burned@[2] * pct)
    &&& fits_i32(c.rage + spec_kept(c, 0))
    &&& fits_i32(c.faith + spec_kept(c, 1))
    &&& fits_i32(c.nature + spec_kept(c, 2))
    &&& fits_i32(spec_held_rage(c))
    &&& fits_i32(spec_held_faith(c))
    &&& fits_i32(spec_held_nature(c))
    &&& fits_i32(c.druidic_might * m)
    &&& fits_i32(c.communion * m)
    &&& fits_i32(c.zealotry * m)
    &&& fits_i32(c.druidic_might * m * 2)
    &&& fits_i32(c.communion * m * 2)
    &&& fits_i32(c.zealotry * m * 2)
    &&& fits_i32(c.communion * m * 4)
    &&& fits_i32(c.zealotry * m * 4)
    &&& fits_i32(spec_held_faith(c) * 2)
    &&& fits_i32(spec_held_rage(c) + c.druidic_might * m * 2)
    &&& fits_i32(spec_held_rage(c) + c.druidic_might * m * 2 + c.zealotry * m * 2)
    &&& fits_i32(spec_held_faith(c) * 2 + c.communion * m * 4)
    &&& fits_i32(spec_held_faith(c) * 2 + c.communion * m * 4 + c.zealotry * m * 4)
    &&& fits_i32(spec_held_nature(c) + c.druidic_might * m * 2)
    &&& fits_i32(spec_held_nature(c) + c.druidic_might * m * 2 + c.communion * m * 2)
}

/// What the pools this fighter is holding are worth, as a stat block: fury
/// sharpens the blade, conviction turns both kinds of harm, growth heals,
/// and a fusion pays both its parents at double rate.
pub open spec fn spec_held_bonus(c: Combatant) -> Stats {
    let m = spec_mult(c);
    Stats {
        physical_damage: (spec_held_rage(c) + c.druidic_might * m * 2 + c.zealotry * m * 2) as i32,
        physical_resist: (spec_held_faith(c) * 2 + c.communion * m * 4 + c.zealotry * m * 4) as i32,
        magic_resist: (spec_held_faith(c) * 2 + c.communion * m * 4 + c.zealotry * m * 4) as i32,
        regen: (spec_held_nature(c) + c.druidic_might * m * 2 + c.communion * m * 2) as i32,
        ..Stats::spec_zero()
    }
}

/// The pool a resource names.
pub open spec fn spec_pool(c: Combatant, what: Resource) -> i32 {
    match what {
        Resource::Mana => c.mana,
        Resource::Rage => c.rage,
        Resource::Faith => c.faith,
        Resource::Nature => c.nature,
        Resource::DruidicMight => c.druidic_might,
        Resource::Communion => c.communion,
        Resource::Zealotry => c.zealotry,
        Resource::Insight => c.insight,
    }
}

/// The fighter with one pool set to `v` and nothing else touched.
pub open spec fn spec_with_pool(c: Combatant, what: Resource, v: i32) -> Combatant {
    match what {
        Resource::Mana => Combatant { mana: v, ..c },
        Resource::Rage => Combatant { rage: v, ..c },
        Resource::Faith => Combatant { faith: v, ..c },
        Resource::Nature => Combatant { nature: v, ..c },
        Resource::DruidicMight => Combatant { druidic_might: v, ..c },
        Resource::Communion => Combatant { communion: v, ..c },
        Resource::Zealotry => Combatant { zealotry: v, ..c },
        Resource::Insight => Combatant { insight: v, ..c },
    }
}

/// How far a mind hit pierces: the resistance left once `pierce` percent of
/// it is walked through.
pub open spec fn spec_mind_left(resist: i32, pierce: i32) -> int {
    resist - tdiv(resist * clamp(pierce as int, 0, 100), 100)
}

/// What a mind hit of `raw` with `pierce` does to a fighter: the maximum
/// falls by what gets through (never below zero), health follows it down,
/// and a Whisperer's threshold - raised by every curse standing on it - can
/// unmake the fighter outright.
pub open spec fn spec_after_mind(c: Combatant, dealt: int) -> Combatant {
    let max = if c.max_health - dealt < 0 { 0 } else { c.max_health - dealt };
    let health = if c.health > max { max } else { c.health as int };
    let unmade = match c.unmade_at {
        Some(floor) => {
            let prod = c.told_per_curse * crate::curse::spec_stack_sum(c.curses@);
            let pts = if prod < c.told_cap { prod } else { c.told_cap as int };
            max <= floor + tdiv(max * pts, 100)
        },
        None => false,
    };
    Combatant {
        max_health: max as i32,
        health: if unmade { 0 } else { health as i32 },
        ..c
    }
}

/// Nothing in a Whisperer's threshold arithmetic overflows.
pub open spec fn spec_unmaking_fits(c: Combatant, dealt: int) -> bool {
    let max = if c.max_health - dealt < 0 { 0 } else { c.max_health - dealt };
    let prod = c.told_per_curse * crate::curse::spec_stack_sum(c.curses@);
    let pts = if prod < c.told_cap { prod } else { c.told_cap as int };
    match c.unmade_at {
        Some(floor) => {
            &&& fits_i32(crate::curse::spec_stack_sum(c.curses@))
            &&& forall|i: int| 0 <= i < c.curses@.len() ==> #[trigger] c.curses@[i].stacks <= i32::MAX
            &&& fits_i32(prod)
            &&& fits_i32(max * pts)
            &&& fits_i32(floor + tdiv(max * pts, 100))
        },
        None => true,
    }
}

impl Combatant {
    pub fn is_down(&self) -> (r: bool)
        ensures
            r == (self.health <= 0 || self.max_health <= 0),
    {
        self.health <= 0 || self.max_health <= 0
    }

    /// Take on armour, counting whatever Trundle makes a point worth.
    pub fn gain_armor(&mut self, n: i32) -> (r: i32)
        requires
            fits_i32(tdiv(n * old(self).armour_pct, 100)),
            fits_i32(old(self).armor + tdiv(n * old(self).armour_pct, 100)),
        ensures
            r == tdiv(n * old(self).armour_pct, 100),
            *final(self) == (Combatant { armor: (old(self).armor + r) as i32, ..*old(self) }),
    {
        let pct = self.armour_pct as i64;
        let n64 = n as i64;
        assert(-(i32::MAX + 1) * (i32::MAX + 1) <= n64 * pct <= (i32::MAX + 1) * (i32::MAX + 1))
            by (nonlinear_arith)
            requires
                -(i32::MAX + 1) <= n64 <= i32::MAX,
                -(i32::MAX + 1) <= pct <= i32::MAX,
        ;
        let prod = n64 * pct;
        let got = (prod / 100) as i32;
        self.armor = self.armor + got;
        got
    }

    /// One of the eight banked pools, by name.
    pub fn pool(&self, what: Resource) -> (r: i32)
        ensures
            r == spec_pool(*self, what),
    {
        match what {
            Resource::Mana => self.mana,
            Resource::Rage => self.rage,
            Resource::Faith => self.faith,
            Resource::Nature => self.nature,
            Resource::DruidicMight => self.druidic_might,
            Resource::Communion => self.communion,
            Resource::Zealotry => self.zealotry,
            Resource::Insight => self.insight,
        }
    }

    pub fn set_pool(&mut self, what: Resource, v: i32)
        ensures
            *final(self) == spec_with_pool(*old(self), what, v),
    {
        match what {
            Resource::Mana => self.mana = v,
            Resource::Rage => self.rage = v,
            Resource::Faith => self.faith = v,
            Resource::Nature => self.nature = v,
            Resource::DruidicMight => self.druidic_might = v,
            Resource::Communion => self.communion = v,
            Resource::Zealotry => self.zealotry = v,
            Resource::Insight => self.insight = v,
        }
    }

    /// What one point of a pool pays, while it is held: an empty fighter
    /// holding that point and nothing else.
    pub fn pool_pays(what: Resource) -> (r: Stats)
        ensures
            r == (match what {
                Resource::Rage => Stats { physical_damage: 1, ..Stats::spec_zero() },
                Resource::Faith => Stats { physical_resist: 2, magic_resist: 2, ..Stats::spec_zero() },
                Resource::Nature => Stats { regen: 1, ..Stats::spec_zero() },
                Resource::DruidicMight => Stats { physical_damage: 2, regen: 2, ..Stats::spec_zero() },
                Resource::Communion => Stats {
                    physical_resist: 4,
                    magic_resist: 4,
                    regen: 2,
                    ..Stats::spec_zero()
                },
                Resource::Zealotry => Stats {
                    physical_damage: 2,
                    physical_resist: 4,
                    magic_resist: 4,
                    ..Stats::spec_zero()
                },
                Resource::Mana | Resource::Insight => Stats::spec_zero(),
            }),
    {
        let empty: Vec<ItemProfile> = Vec::new();
        let mut probe = Combatant::player(Stats::zero(), empty.as_slice());
        probe.set_pool(what, 1);
        proof {
            assert(probe.overflowing == 1);
            assert(probe.burn_keeps_pct == 0);
            assert(probe.burned@ == seq![0i32, 0, 0]);
            assert(spec_mult(probe) == 1);
            assert(probe.burned@[0] == 0 && probe.burned@[1] == 0 && probe.burned@[2] == 0);
            assert(spec_kept(probe, 0) == 0);
            assert(spec_kept(probe, 1) == 0);
            assert(spec_kept(probe, 2) == 0);
            assert(spec_held_fits(probe));
        }
        probe.held_bonus()
    }

    pub fn held_bonus(&self) -> (r: Stats)
        requires
            spec_held_fits(*self),
        ensures
            r == spec_held_bonus(*self),
    {
        let m: i32 = if self.overflowing < 1 { 1 } else { self.overflowing };
        let pct: i32 = if self.burn_keeps_pct < 0 {
            0
        } else if self.burn_keeps_pct > 100 {
            100
        } else {
            self.burn_keeps_pct
        };
        let k0 = self.burned[0] * pct / 100;
        let k1 = self.burned[1] * pct / 100;
        let k2 = self.burned[2] * pct / 100;
        proof {
            assert(k0 == spec_kept(*self, 0));
            assert(k1 == spec_kept(*self, 1));
            assert(k2 == spec_kept(*self, 2));
        }
        let rage = (self.rage + k0) * m;
        let faith = (self.faith + k1) * m;
        let nature = (self.nature + k2) * m;
        let might = self.druidic_might * m;
        let comm = self.communion * m;
        let zeal = self.zealotry * m;
        let mut out = Stats::zero();
        out.physical_damage = rage + might * 2 + zeal * 2;
        out.physical_resist = faith * 2 + comm * 4 + zeal * 4;
        out.magic_resist = faith * 2 + comm * 4 + zeal * 4;
        out.regen = nature + might * 2 + comm * 2;
        out
    }

    /// Regeneration a second, pools included.
    pub fn effective_regen(&self) -> (r: i32)
        requires
            spec_held_fits(*self),
            fits_i32(self.regen + spec_held_bonus(*self).regen),
        ensures
            r == self.regen + spec_held_bonus(*self).regen,
    {
        self.regen + self.held_bonus().regen
    }

    pub fn effective_physical_resist(&self) -> (r: i32)
        requires
            spec_held_fits(*self),
            fits_i32(self.physical_resist + spec_held_bonus(*self).physical_resist),
        ensures
            r == self.physical_resist + spec_held_bonus(*self).physical_resist,
    {
        self.physical_resist + self.held_bonus().physical_resist
    }

    pub fn effective_magic_resist(&self) -> (r: i32)
        requires
            spec_held_fits(*self),
            fits_i32(self.magic_resist + spec_held_bonus(*self).magic_resist),
        ensures
            r == self.magic_resist + spec_held_bonus(*self).magic_resist,
    {
        self.magic_resist + self.held_bonus().magic_resist
    }

    pub open spec fn spec_magic_empower(&self) -> int {
        self.empowerment * 5 * (if self.mana < 0 { 0 } else { self.mana as int })
    }

    pub open spec fn spec_physical_empower(&self) -> int {
        self.spellblade * SPELLBLADE_POWER + self.burn_stacks * 5 * (if self.mana < 0 {
            0
        } else {
            self.mana as int
        })
    }

    /// Weapon power on a **magic** hit: 0.05x per stack per point of mana.
    pub fn effective_power(&self) -> (r: i32)
        requires
            fits_i32(self.spec_magic_empower()),
            fits_i32(self.power + self.spec_magic_empower()),
        ensures
            r == self.power + self.spec_magic_empower(),
    {
        self.power + self.magic_empower()
    }

    /// Weapon power on a **physical** hit: 0.50x flat per Spellblade stack,
    /// plus what the furnace bought.
    pub fn effective_physical_power(&self) -> (r: i32)
        requires
            fits_i32(self.spellblade * SPELLBLADE_POWER),
            fits_i32(self.burn_stacks * 5 * (if self.mana < 0 { 0 } else { self.mana as int })),
            fits_i32(self.spec_physical_empower()),
            fits_i32(self.power + self.spec_physical_empower()),
        ensures
            r == self.power + self.spec_physical_empower(),
    {
        self.power + self.physical_empower()
    }

    /// What empowerment adds to a magic hit, in power-hundredths.
    pub fn magic_empower(&self) -> (r: i32)
        requires
            fits_i32(self.spec_magic_empower()),
        ensures
            r == self.spec_magic_empower(),
    {
        let mana: i32 = if self.mana < 0 { 0 } else { self.mana };
        let e = self.empowerment as i64;
        assert(0 <= e * 5 * mana) by (nonlinear_arith)
            requires
                e >= 0,
                mana >= 0,
        ;
        assert(e * 5 <= e * 5 * mana || mana == 0) by (nonlinear_arith)
            requires
                e >= 0,
                mana >= 0,
        ;
        assert(e <= e * 5 * mana || mana == 0) by (nonlinear_arith)
            requires
                e >= 0,
                mana >= 0,
        ;
        if mana == 0 {
            assert(e * 5 * mana == 0) by (nonlinear_arith)
                requires
                    mana == 0,
            ;
            return 0;
        }
        let x = (e * 5) as i32;
        x * mana
    }

    /// What Spellblade and the furnace add to a physical hit.
    pub fn physical_empower(&self) -> (r: i32)
        requires
            fits_i32(self.spellblade * SPELLBLADE_POWER),
            fits_i32(self.burn_stacks * 5 * (if self.mana < 0 { 0 } else { self.mana as int })),
            fits_i32(self.spec_physical_empower()),
        ensures
            r == self.spec_physical_empower(),
    {
        let mana: i32 = if self.mana < 0 { 0 } else { self.mana };
        let blade = (self.spellblade as i64 * 50) as i32;
        let b = self.burn_stacks as i64;
        assert(0 <= b * 5 * mana) by (nonlinear_arith)
            requires
                b >= 0,
                mana >= 0,
        ;
        let furnace = (b * 5 * mana as i64) as i32;
        blade + furnace
    }

    /// Flat reduction the mana shield applies to an incoming **magic** hit.
    pub fn damage_reduction(&self) -> (r: i32)
        requires
            fits_i32(self.shield * (if self.mana < 0 { 0 } else { self.mana as int })),
        ensures
            r == self.shield * (if self.mana < 0 { 0 } else { self.mana as int }),
    {
        let mana: i32 = if self.mana < 0 { 0 } else { self.mana };
        (self.shield as i64 * mana as i64) as i32
    }

    /// Flat reduction Deflection applies to an incoming **physical** hit.
    pub fn physical_reduction(&self) -> (r: i32)
        requires
            fits_i32(self.deflection * DEFLECTION_FLAT),
        ensures
            r == self.deflection * DEFLECTION_FLAT,
    {
        (self.deflection as i64 * 10) as i32
    }

    /// How many steps of the wrong sense this fighter has earned: one per
    /// `WRONG_SENSE_PER` surrendered, up to the cap.
    pub open spec fn spec_wrong_steps(&self) -> int {
        let s = tdiv(self.surrendered as int, WRONG_SENSE_PER as int);
        if s < WRONG_SENSE_CAP { s } else { WRONG_SENSE_CAP as int }
    }

    /// What the wrong sense makes of one point of mind damage: without the
    /// crest it is the identity.
    pub fn wrong_sense_multiplied(&self, mind: i32) -> (r: i32)
        requires
            self.wrong_sense && mind > 0 ==> i64::MIN <= mind * (100 + self.spec_wrong_steps()
                * WRONG_SENSE_STEP) <= i64::MAX,
        ensures
            r == if !self.wrong_sense || mind <= 0 {
                mind as int
            } else {
                let v = tdiv(mind * (100 + self.spec_wrong_steps() * WRONG_SENSE_STEP), 100);
                (if v < 0 { 0 } else { v }) as i32 as int
            },
    {
        if !self.wrong_sense || mind <= 0 {
            return mind;
        }
        let q = self.surrendered / 60;
        let steps: i64 = if q < 20 { q } else { 20 };
        assert(steps == self.spec_wrong_steps());
        let v = (mind as i64) * (100 + steps * 10) / 100;
        let w = if v < 0 { 0 } else { v };
        w as i32
    }

    /// What Dread adds to every point of mind damage this fighter deals.
    pub fn mind_bonus(&self) -> (r: i32)
        requires
            fits_i32(self.dread * (if self.insight < 0 { 0 } else { self.insight as int })),
        ensures
            r == self.dread * (if self.insight < 0 { 0 } else { self.insight as int }) / (DREAD_DIVISOR as int),
    {
        let insight: i32 = if self.insight < 0 { 0 } else { self.insight };
        let p = (self.dread as i64 * insight as i64) as i32;
        p / 2
    }

    /// Mind damage eats maximum health, so it can never be healed back off.
    pub fn take_mind(&mut self, raw: i32) -> (r: i32)
        requires
            spec_unmaking_fits(*old(self), spec_mind_after_resist(raw, old(self).mind_resist)),
        ensures
            r == (if spec_mind_after_resist(raw, old(self).mind_resist) <= 0 {
                0
            } else {
                spec_mind_after_resist(raw, old(self).mind_resist)
            }),
            r > 0 ==> *final(self) == spec_after_mind(*old(self), r as int),
            r <= 0 ==> *final(self) == *old(self),
    {
        proof {
            let mr = old(self).mind_resist;
            assert(clamp(0, 0, 100) == 0);
            assert(mr * 0 == 0);
            assert(tdiv(0, 100) == 0);
            assert(spec_mind_left(mr, 0) == mr);
        }
        self.take_mind_pierced(raw, 0)
    }

    /// The same, with a share of the resistance walked straight through.
    pub fn take_mind_pierced(&mut self, raw: i32, pierce: i32) -> (r: i32)
        requires
            fits_i32(old(self).mind_resist * clamp(pierce as int, 0, 100)),
            spec_unmaking_fits(
                *old(self),
                spec_mind_after_resist(raw, spec_mind_left(old(self).mind_resist, pierce) as i32),
            ),
        ensures
            ({
                let dealt = spec_mind_after_resist(
                    raw,
                    spec_mind_left(old(self).mind_resist, pierce) as i32,
                );
                &&& r == (if dealt <= 0 { 0 } else { dealt })
                &&& dealt > 0 ==> *final(self) == spec_after_mind(*old(self), dealt)
                &&& dealt <= 0 ==> *final(self) == *old(self)
            }),
    {
        let p: i32 = if pierce < 0 { 0 } else if pierce > 100 { 100 } else { pierce };
        let mr = self.mind_resist;
        assert(mr >= 0 ==> 0 <= mr * p <= mr * 100) by (nonlinear_arith)
            requires
                0 <= p <= 100,
        ;
        assert(mr < 0 ==> mr * 100 <= mr * p <= 0) by (nonlinear_arith)
            requires
                0 <= p <= 100,
        ;
        let prod = mr * p;
        let left = mr - prod / 100;
        proof {
            assert(left == spec_mind_left(old(self).mind_resist, pierce));
        }
        let dealt = mind_damage_after_resist(raw, left);
        if dealt <= 0 {
            return 0;
        }
        let ghost before = *self;
        let max = self.max_health as i64 - dealt as i64;
        self.max_health = if max < 0 { 0 } else { max as i32 };
        if self.health > self.max_health {
            self.health = self.max_health;
        }
        match self.unmade_at {
            Some(floor) => {
                let standing = self.curses.stacks_total();
                let prod = self.told_per_curse as i64 * standing;
                let pts: i64 = if prod < self.told_cap as i64 { prod } else { self.told_cap as i64 };
                let raised = floor as i64 + (self.max_health as i64 * pts) / 100;
                if self.max_health as i64 <= raised {
                    self.health = 0;
                }
            },
            None => {},
        }
        proof {
            assert(*self == spec_after_mind(before, dealt as int));
        }
        dealt
    }
}


// ----------------------------------------------------------------- stuns

/// Which item a stun takes out.
#[derive(Copy, Clone, Eq, PartialEq, Debug, Structural)]
pub enum StunAim {
    /// Whichever one it happens to catch.
    Unaimed,
    /// The best thing they own, by the effectiveness rating.
    Strongest,
}

/// An item the Lightning Rod pulls a stun onto.
pub open spec fn spec_rod_item(it: RunningItem) -> bool {
    it.attracts_curses && !it.unshakable
}

/// An item that is neither stopped nor broken.
pub open spec fn spec_live(it: RunningItem) -> bool {
    it.stun_ms == 0 && !it.broken
}

/// The first rod among the first `n` items.
pub open spec fn spec_rod_upto(items: Seq<RunningItem>, n: int) -> Option<int>
    decreases n,
{
    if n <= 0 {
        None
    } else {
        match spec_rod_upto(items, n - 1) {
            Some(i) => Some(i),
            None => if spec_rod_item(items[n - 1]) {
                Some(n - 1)
            } else {
                None
            },
        }
    }
}

/// The indices, in order, of the first `n` items a stun may land on.
pub open spec fn spec_takers(items: Seq<RunningItem>, n: int) -> Seq<int>
    decreases n,
{
    if n <= 0 {
        Seq::empty()
    } else if !items[n - 1].unshakable {
        spec_takers(items, n - 1).push(n - 1)
    } else {
        spec_takers(items, n - 1)
    }
}

/// The aimed stun's order: a whole item before a broken one, then the
/// rating, then a running item before a stopped one.
pub open spec fn spec_key_le(a: RunningItem, b: RunningItem) -> bool {
    let ka = if a.broken { 0int } else { 1int };
    let kb = if b.broken { 0int } else { 1int };
    let la = if a.stun_ms == 0 { 1int } else { 0int };
    let lb = if b.stun_ms == 0 { 1int } else { 0int };
    ka < kb || (ka == kb && (a.rating < b.rating || (a.rating == b.rating && la <= lb)))
}

/// The strongest stoppable item among the first `n`; of equals, the last.
pub open spec fn spec_strongest_upto(items: Seq<RunningItem>, n: int) -> Option<int>
    decreases n,
{
    if n <= 0 {
        None
    } else {
        let prev = spec_strongest_upto(items, n - 1);
        if items[n - 1].unshakable {
            prev
        } else {
            match prev {
                None => Some(n - 1),
                Some(p) => if spec_key_le(items[p], items[n - 1]) {
                    Some(n - 1)
                } else {
                    prev
                },
            }
        }
    }
}

/// The hash an unaimed stun starts its walk from: the time and the count of
/// stuns taken, mixed with two odd constants in 64-bit arithmetic.
#[verifier::opaque]
pub open spec fn spec_stun_mix(at_ms: u32, count: u32) -> int {
    ((at_ms * 0x9E37_79B9_7F4A_7C15int) % 0x1_0000_0000_0000_0000int + (count
        * 0x2545_F491_4F6C_DD1Dint) % 0x1_0000_0000_0000_0000int) % 0x1_0000_0000_0000_0000int
}

/// The first step `k >= from` of the walk round `t` from `start` that lands
/// on a live item.
pub open spec fn spec_live_from(items: Seq<RunningItem>, t: Seq<int>, start: int, from: int) -> Option<int>
    decreases t.len() - from,
{
    if from >= t.len() || from < 0 {
        None
    } else if spec_live(items[t[(start + from) % (t.len() as int)]]) {
        Some(from)
    } else {
        spec_live_from(items, t, start, from + 1)
    }
}

/// Where an unaimed stun lands: the walk from the hash's starting point to
/// the first live item, or the starting point itself if nothing is live.
pub open spec fn spec_unaimed_pick(items: Seq<RunningItem>, at_ms: u32, count: u32) -> int {
    let t = spec_takers(items, items.len() as int);
    let n = t.len() as int;
    let start = (spec_stun_mix(at_ms, count) / 0x2_0000_0000int) % n;
    match spec_live_from(items, t, start, 0) {
        Some(k) => t[(start + k) % n],
        None => t[start],
    }
}

/// Which item a stun lands on, once one is landing at all.
pub open spec fn spec_stun_target(items: Seq<RunningItem>, aim: StunAim, at_ms: u32, count: u32) -> Option<int> {
    match spec_rod_upto(items, items.len() as int) {
        Some(i) => Some(i),
        None => if spec_takers(items, items.len() as int).len() == 0 {
            None
        } else {
            match aim {
                StunAim::Strongest => spec_strongest_upto(items, items.len() as int),
                StunAim::Unaimed => Some(spec_unaimed_pick(items, at_ms, count)),
            }
        },
    }
}

/// What landing a stun does: nothing at all when it is fully resisted or
/// there is nothing to hit; otherwise the count of stuns taken goes up by one
/// and, if anything can take it, that item's clock gains the stun's duration,
/// capped. `r` is the item and its new clock.
pub open spec fn spec_land_stun(
    before: Combatant,
    after: Combatant,
    aim: StunAim,
    at_ms: u32,
    r: Option<(usize, u32)>,
) -> bool {
    let d = CurseKind::Stun.spec_landing_ms(spec_lane(before.curse_resist));
    let items = before.items@;
    let count = if before.stun_count == u32::MAX { 0 } else { (before.stun_count + 1) as u32 };
    if d == 0 || items.len() == 0 {
        r is None && after == before
    } else {
        match spec_stun_target(items, aim, at_ms, count) {
            None => r is None && after == (Combatant { stun_count: count, ..before }),
            Some(i) => {
                let total = items[i].stun_ms + d;
                let ms = (if total < STUN_CAP_MS { total } else { STUN_CAP_MS as int }) as u32;
                &&& r == Some((i as usize, ms))
                &&& after.items@ == items.update(i, RunningItem { stun_ms: ms, ..items[i] })
                &&& after == (Combatant { stun_count: count, items: after.items, ..before })
            },
        }
    }
}

proof fn lemma_takers_bounds(items: Seq<RunningItem>, n: int)
    requires
        0 <= n <= items.len(),
    ensures
        spec_takers(items, n).len() <= n,
        forall|j: int| 0 <= j < spec_takers(items, n).len() ==> 0 <= #[trigger] spec_takers(items, n)[j] < n
            && !items[spec_takers(items, n)[j]].unshakable,
    decreases n,
{
    if n > 0 {
        lemma_takers_bounds(items, n - 1);
    }
}

proof fn lemma_strongest_bounds(items: Seq<RunningItem>, n: int)
    requires
        0 <= n <= items.len(),
    ensures
        spec_strongest_upto(items, n) matches Some(i) ==> 0 <= i < n,
        spec_strongest_upto(items, n) is None <==> spec_takers(items, n).len() == 0,
    decreases n,
{
    if n > 0 {
        lemma_strongest_bounds(items, n - 1);
    }
}

proof fn lemma_rod_bounds(items: Seq<RunningItem>, n: int)
    requires
        0 <= n <= items.len(),
    ensures
        spec_rod_upto(items, n) matches Some(i) ==> 0 <= i < n && spec_rod_item(items[i]),
    decreases n,
{
    if n > 0 {
        lemma_rod_bounds(items, n - 1);
    }
}

fn unaimed_start(at_ms: u32, count: u32, n: usize) -> (r: usize)
    requires
        n > 0,
    ensures
        r == (spec_stun_mix(at_ms, count) / 0x2_0000_0000int) % (n as int),
{
    let a = (at_ms as u64).wrapping_mul(0x9E37_79B9_7F4A_7C15);
    let b = (count as u64).wrapping_mul(0x2545_F491_4F6C_DD1D);
    let mix = a.wrapping_add(b);
    assert(mix == spec_stun_mix(at_ms, count)) by {
        reveal(spec_stun_mix);
    }
    assert(mix >> 33u64 == mix / 0x2_0000_0000u64) by (bit_vector);
    let hi = mix >> 33;
    (hi as usize) % n
}

/// The first rod on the board, if any.
fn find_rod(items: &Vec<RunningItem>) -> (r: Option<usize>)
    ensures
        r == (match spec_rod_upto(items@, items@.len() as int) {
            Some(j) => Some(j as usize),
            None => None::<usize>,
        }),
        r matches Some(j) ==> j < items@.len(),
{
    let n = items.len();
    let mut rod: Option<usize> = None;
    let mut i: usize = 0;
    while i < n
        invariant
            n == items@.len(),
            0 <= i <= n,
            rod == (match spec_rod_upto(items@, i as int) {
                Some(j) => Some(j as usize),
                None => None::<usize>,
            }),
            rod matches Some(j) ==> j < i,
        decreases n - i,
    {
        if rod.is_none() && items[i].attracts_curses && !items[i].unshakable {
            rod = Some(i);
        }
        i = i + 1;
    }
    rod
}

/// Every item a stun may land on, in order.
fn collect_takers(items: &Vec<RunningItem>) -> (r: Vec<usize>)
    ensures
        r@.len() == spec_takers(items@, items@.len() as int).len(),
        forall|j: int| 0 <= j < r@.len() ==> r@[j] as int == #[trigger] spec_takers(items@, items@.len() as int)[j],
        forall|j: int| 0 <= j < r@.len() ==> #[trigger] r@[j] < items@.len(),
{
    let n = items.len();
    let mut takers: Vec<usize> = Vec::new();
    let mut i: usize = 0;
    while i < n
        invariant
            n == items@.len(),
            0 <= i <= n,
            takers@.len() == spec_takers(items@, i as int).len(),
            forall|j: int| 0 <= j < takers@.len() ==> takers@[j] as int == #[trigger] spec_takers(items@, i as int)[j],
        decreases n - i,
    {
        if !items[i].unshakable {
            takers.push(i);
        }
        i = i + 1;
    }
    proof {
        lemma_takers_bounds(items@, n as int);
        assert forall|j: int| 0 <= j < takers@.len() implies #[trigger] takers@[j] < items@.len() by {
            assert(takers@[j] as int == spec_takers(items@, n as int)[j]);
        }
    }
    takers
}

/// The aimed pick: the strongest stoppable item, the last of equals.
fn pick_strongest(items: &Vec<RunningItem>) -> (r: usize)
    requires
        spec_takers(items@, items@.len() as int).len() > 0,
    ensures
        spec_strongest_upto(items@, items@.len() as int) == Some(r as int),
        r < items@.len(),
{
    let n = items.len();
    let mut best: usize = 0;
    let mut seen = false;
    let mut i: usize = 0;
    while i < n
        invariant
            n == items@.len(),
            0 <= i <= n,
            seen == spec_strongest_upto(items@, i as int) is Some,
            seen ==> spec_strongest_upto(items@, i as int) == Some(best as int),
            seen ==> best < i,
        decreases n - i,
    {
        proof {
            lemma_strongest_bounds(items@, i as int);
        }
        if !items[i].unshakable {
            if !seen {
                best = i;
                seen = true;
            } else {
                let a = &items[best];
                let b = &items[i];
                let ka: u8 = if a.broken { 0 } else { 1 };
                let kb: u8 = if b.broken { 0 } else { 1 };
                let la: u8 = if a.stun_ms == 0 { 1 } else { 0 };
                let lb: u8 = if b.stun_ms == 0 { 1 } else { 0 };
                if ka < kb || (ka == kb && (a.rating < b.rating || (a.rating == b.rating && la
                    <= lb))) {
                    best = i;
                }
            }
        }
        i = i + 1;
    }
    proof {
        lemma_strongest_bounds(items@, n as int);
    }
    best
}

/// The unaimed pick: walk from the hash to the first live item.
fn pick_unaimed(items: &Vec<RunningItem>, takers: &Vec<usize>, at_ms: u32, count: u32) -> (r: usize)
    requires
        takers@.len() > 0,
        takers@.len() == spec_takers(items@, items@.len() as int).len(),
        forall|j: int| 0 <= j < takers@.len() ==> takers@[j] as int == #[trigger] spec_takers(items@, items@.len() as int)[j],
        forall|j: int| 0 <= j < takers@.len() ==> #[trigger] takers@[j] < items@.len(),
    ensures
        r as int == spec_unaimed_pick(items@, at_ms, count),
        r < items@.len(),
{
    let ghost t = spec_takers(items@, items@.len() as int);
    let m = takers.len();
    let start = unaimed_start(at_ms, count, m);
    let mut k: usize = 0;
    let mut found: Option<usize> = None;
    while k < m && found.is_none()
        invariant
            m == t.len(),
            0 < m,
            start < m,
            0 <= k <= m,
            takers@.len() == m,
            forall|j: int| 0 <= j < m ==> takers@[j] as int == #[trigger] t[j],
            forall|j: int| 0 <= j < m ==> #[trigger] takers@[j] < items@.len(),
            found is None ==> spec_live_from(items@, t, start as int, 0) == spec_live_from(
                items@,
                t,
                start as int,
                k as int,
            ),
            found matches Some(kk) ==> kk < m && spec_live_from(items@, t, start as int, 0) == Some(
                kk as int,
            ),
        decreases m - k,
    {
        let pos = if k < m - start { start + k } else { k - (m - start) };
        proof {
            lemma_wrap_index(start as int, k as int, m as int, pos as int);
        }
        let it = &items[takers[pos]];
        if it.stun_ms == 0 && !it.broken {
            found = Some(k);
        }
        k = k + 1;
    }
    let at = match found {
        Some(kk) => if kk < m - start { start + kk } else { kk - (m - start) },
        None => start,
    };
    proof {
        if let Some(kk) = found {
            lemma_wrap_index(start as int, kk as int, m as int, at as int);
        } else {
            assert(spec_live_from(items@, t, start as int, m as int) is None);
        }
    }
    takers[at]
}

proof fn lemma_wrap_index(start: int, k: int, m: int, pos: int)
    requires
        0 <= start < m,
        0 <= k < m,
        pos == if k < m - start { start + k } else { k - (m - start) },
    ensures
        pos == (start + k) % m,
        0 <= pos < m,
{
    if k < m - start {
        vstd::arithmetic::div_mod::lemma_small_mod((start + k) as nat, m as nat);
    } else {
        vstd::arithmetic::div_mod::lemma_mod_sub_multiples_vanish(start + k, m);
        vstd::arithmetic::div_mod::lemma_small_mod((start + k - m) as nat, m as nat);
    }
}

/// Which item a landing stun takes, given the count of stuns taken.
fn stun_target(items: &Vec<RunningItem>, aim: StunAim, at_ms: u32, count: u32) -> (r: Option<usize>)
    ensures
        r == (match spec_stun_target(items@, aim, at_ms, count) {
            Some(i) => Some(i as usize),
            None => None::<usize>,
        }),
        r matches Some(i) ==> i < items@.len(),
        spec_stun_target(items@, aim, at_ms, count) matches Some(i) ==> 0 <= i < items@.len(),
{
    proof {
        lemma_rod_bounds(items@, items@.len() as int);
        lemma_strongest_bounds(items@, items@.len() as int);
    }
    match find_rod(items) {
        Some(j) => Some(j),
        None => {
            let takers = collect_takers(items);
            if takers.len() == 0 {
                None
            } else {
                match aim {
                    StunAim::Strongest => Some(pick_strongest(items)),
                    StunAim::Unaimed => Some(pick_unaimed(items, &takers, at_ms, count)),
                }
            }
        },
    }
}

/// The same list with one item's clock stopped for `duration` more, capped.
fn stun_one(items: Vec<RunningItem>, idx: usize, duration: u32) -> (r: (Vec<RunningItem>, u32))
    requires
        idx < items@.len(),
        items@[idx as int].stun_ms + duration <= u32::MAX,
    ensures
        r.1 == (if items@[idx as int].stun_ms + duration < STUN_CAP_MS {
            items@[idx as int].stun_ms + duration
        } else {
            STUN_CAP_MS as int
        }),
        r.0@ == items@.update(idx as int, RunningItem { stun_ms: r.1, ..items@[idx as int] }),
{
    let ghost before = items@;
    let mut all = items;
    let mut it = all.remove(idx);
    let total = it.stun_ms + duration;
    it.stun_ms = if total < STUN_CAP_MS { total } else { STUN_CAP_MS };
    let ms = it.stun_ms;
    all.insert(idx, it);
    proof {
        assert(all@ =~= before.update(idx as int, RunningItem { stun_ms: ms, ..before[idx as int] }));
    }
    (all, ms)
}

fn land_stun(victim: &mut Combatant, aim: StunAim, at_ms: u32) -> (r: Option<(usize, u32)>)
    requires
        forall|i: int| 0 <= i < old(victim).items@.len() ==> #[trigger] old(victim).items@[i].stun_ms
            <= u32::MAX - STUN_MS,
    ensures
        spec_land_stun(*old(victim), *final(victim), aim, at_ms, r),
{
    // The curse lane never shuts out completely: the most resistant thing in
    // the game is still stunned, briefly.
    let resist = if victim.curse_resist > LANE_CAP { LANE_CAP } else { victim.curse_resist };
    let duration = CurseKind::Stun.landing_ms(resist);
    if duration == 0 || victim.items.len() == 0 {
        return None;
    }
    let ghost before = *victim;
    let count = victim.stun_count.wrapping_add(1);
    assert(count == if before.stun_count == u32::MAX { 0 } else { (before.stun_count + 1) as u32 });
    victim.stun_count = count;
    assert(*victim == Combatant { stun_count: count, ..before });
    match stun_target(&victim.items, aim, at_ms, count) {
        None => None,
        Some(idx) => {
            let mut all: Vec<RunningItem> = Vec::new();
            std::mem::swap(&mut all, &mut victim.items);
            let (all, ms) = stun_one(all, idx, duration);
            victim.items = all;
            assert(*victim == Combatant { stun_count: count, items: victim.items, ..before });
            Some((idx, ms))
        },
    }
}

/// `land_stun`, for a test that wants to put items in front of it and see
/// which one it picks.
pub fn land_stun_for_test(victim: &mut Combatant, aim: StunAim, at_ms: u32) -> (r: Option<(usize, u32)>)
    requires
        forall|i: int| 0 <= i < old(victim).items@.len() ==> #[trigger] old(victim).items@[i].stun_ms
            <= u32::MAX - STUN_MS,
    ensures
        spec_land_stun(*old(victim), *final(victim), aim, at_ms, r),
{
    land_stun(victim, aim, at_ms)
}


// ----------------------------------------------------------------- log

#[derive(Clone, Debug, PartialEq, Eq)]
pub enum Event {
    /// An item finished its cooldown. Always precedes that item's effects.
    /// `index` is the item's position in its owner's list, so two items with
    /// the same name stay distinguishable.
    Activate { side: Side, item: String, index: usize },
    /// Rage, faith or nature banked.
    GainResource { side: Side, what: &'static str, amount: i32, total: i32, accrued: bool },
    /// A pool taken off someone. `amount` is what was actually there to take.
    Drained { on: Side, what: &'static str, amount: i32, total: i32 },
    /// Run gold spent mid-fight. `remaining` is what is left in the purse,
    /// which is what you will arrive at the shop with.
    Spent { side: Side, amount: i32, remaining: i32 },
    /// The fight has gone on long enough and is now ending itself. `pct` is
    /// the share of maximum health both sides are losing this second.
    SuddenDeath { pct: i32 },
    /// A blow, and **which of the swinger's items threw it**.
    ///
    /// `damage` is the swing before any of the defender's answers, which is
    /// deliberate - see the note where it is pushed. `by_item` indexes the
    /// swinger's own item list, the same index `Activate` reports, so a screen
    /// can put the number beside the row that earned it. `None` is a blow no
    /// item owns.
    ///
    /// **What an item hits for moves during a fight, and carrying the index is
    /// what lets a screen say so.** Held fury is added to every swing and a
    /// spin lifts the item's own power, so the tenth second is not the
    /// first - and a row printing one figure for the whole fight was printing
    /// the opening estimate for ever.
    Hit {
        by: Side,
        by_item: Option<usize>,
        damage: i32,
        absorbed: i32,
        target_health: i32,
        target_armor: i32,
    },
    /// An item came round and nothing happened - a misfire ate it.
    Misfired { side: Side, item: String },
    /// An attack was warded off before it landed. Ticket to Ride.
    Warded { side: Side, item: String },
    /// A spell went off. `paid` says whether it was cast in full or weakly.
    Cast { side: Side, paid: bool, cost: i32, remaining: i32 },
    /// Maximum health grew mid-fight.
    /// `paid_armor` is what was spent to buy the growth, which is nonzero only
    /// for `Ballast`. A field rather than a second event, so every reader of
    /// `Grew` - `settle`'s growth banking among them - keeps working and the
    /// one that wants to know reads the field.
    Grew { side: Side, amount: i32, total: i32, paid_armor: i32 },
    MindHit { by: Side, amount: i32, target_max_health: i32 },
    GainArmor { side: Side, amount: i32, total: i32 },
    GainMana { side: Side, amount: i32, total: i32, accrued: bool },
    /// `paid` says which branch of a mana trigger ran.
    ManaCheck { side: Side, cost: i32, paid: bool, remaining: i32 },
    /// A spend against rage, faith or nature.
    ResourceCheck { side: Side, what: &'static str, cost: i32, paid: bool, remaining: i32 },
    /// `stacks` is the count *after* this one landed, so the interface can
    /// say "curse of searing x3" without keeping its own tally.
    Cursed { on: Side, kind: CurseKind, duration_ms: u32, stacks: u32 },
    /// An item fired for the last time and stopped.
    ///
    /// Its own event for the reason `Stunned` is one: the interface needs to
    /// know *which* item, because a bar that stops with nothing said about it
    /// reads as a bug in the playback rather than as the thing the player
    /// bought. `index` is that item's position in its owner's list.
    Broke { side: Side, index: usize, item: String },
    /// A stun stopped one item. Its own event rather than a `Cursed`, because
    /// a stun rides on an item and the interface needs to know which one:
    /// `index` is that item's position in its owner's list, and `duration_ms`
    /// is the whole time it is now stopped for.
    Stunned { on: Side, index: usize, item: String, duration_ms: u32, aimed: bool },
    /// Damage-over-time landing this tick.
    Burn { side: Side, damage: i32, health: i32 },
    Regen { side: Side, amount: i32, health: i32 },
    /// A reaction pushed an item's cooldown forward.
    Hastened { side: Side, item: String, by_ms: u32 },
    /// A spinning item turned where it stands. `to` indexes its turn cycle and
    /// `stacks` is the count *after* this turn, so the interface can draw the
    /// orientation and say what it is worth without keeping a tally.
    ///
    /// **Logged rather than left to the clock.** A frosted item turns slower
    /// for the same reason it fires slower, so a screen dividing the playback
    /// head by a second would draw an orientation the fight never had — the
    /// same class of mistake as subtracting damage from a health total.
    Turned { side: Side, index: usize, item: String, to: u32, stacks: u32 },
    /// A spinning item spent everything it had banked. `pct` is what it was
    /// worth on this one activation, in hundredths of power.
    Spun { side: Side, index: usize, item: String, stacks: u32, pct: i32 },
    /// Time moved from one bar to another on the same board.
    ///
    /// Both names, because the whole of what a shunt does is take from one and
    /// give to the other, and a log that says only where it landed reads as
    /// free haste.
    Shunted { side: Side, from: String, to: String, ms: u32 },
    /// The enemy's best item, caught at the top of its swing and set back.
    Derailed { side: Side, item: String, by_ms: u32 },
    /// Armour turned a blow back on whoever threw it.
    Reflected { side: Side, damage: i32 },
    /// Two pools became one of a fused pool. `total` is what is now held of
    /// it, and `from`/`and` are the parents with what each has left.
    ///
    /// The parents are named here rather than left implicit because two pools
    /// going down with no line to explain them is exactly the sort of thing a
    /// player notices and cannot account for. A fusion is the only action in
    /// the game that spends something it was not asked for.
    Fused {
        side: Side,
        what: &'static str,
        total: i32,
        from: FusedParent,
        and: FusedParent,
    },
    /// A watcher counted something. `seen` is where its counter stands
    /// afterwards, out of `count`, and `paid` is whether that sighting was the
    /// one that came round.
    ///
    /// Logged on **every** sighting rather than only on the payout, and that is
    /// the whole reason it carries numbers. A watcher runs on the board's clock
    /// rather than its own, so its counter is the only thing on the row that
    /// says when it will pay - and the interface replays a log rather than the
    /// fight, so a count the log does not record is a count the interface
    /// cannot draw. It read zero for the whole fight, because the combatant a
    /// log stores is the one from *before* it.
    /// `what` is the relation itself rather than a sentence about it. A log
    /// entry storing prose is a log entry that cannot be re-worded, themed, or
    /// pluralised by whoever is drawing it - and the wording is exactly what
    /// was wrong here.
    /// A mana buff gained stacks. `total` is the new stack count.
    Empowered { side: Side, total: u32, power_bonus: i32 },
    Shielded { side: Side, total: u32, reduction: i32 },
    /// The physical twins. Same shape as the pair above, because they are the
    /// same pair in the other lane.
    Whetted { side: Side, total: u32, power_bonus: i32 },
    /// The mind lane's stack. `mind_bonus` is what it currently works out to
    /// against the Insight held, which is nothing until there is some.
    Dreading { side: Side, total: u32, mind_bonus: i32 },
    Deflecting { side: Side, total: u32, reduction: i32 },
    /// Spell forking gained. Every cast lands once more per stack.
    Forking { side: Side, total: u32 },
    /// A Stoker's furnace took a shovelful. **The pool falling and the stacks
    /// rising on the same line**, so the replay can draw both on the tick they
    /// happened rather than inferring one from the other — which is the *page
    /// draws numbers core sent it* rule, stated for a number that moves twice.
    Burned { side: Side, what: &'static str, points: i32, left: i32, stacks: u32 },
    /// A creature whose maximum health went under a Whisperer's threshold.
    ///
    /// Its own event rather than a `Fell`, because *how* it ended is the whole
    /// of what the class bought — and `Fell` is still logged after it, since it
    /// is still down.
    ///
    /// **The maximum it is at and the line it went under**, which are the two
    /// numbers in the room. Neither is the maximum it *started* with, and that
    /// is deliberate: storing a starting maximum on every combatant to spell
    /// out a log line is a field the fight would not otherwise have.
    Unmade { side: Side, at: i32, under: i32 },
    Fell { side: Side },
    End { outcome: Outcome },
}


/// One parent of a fusion and what is left of it.
#[derive(Copy, Clone, Debug, PartialEq, Eq)]
pub struct FusedParent {
    pub what: &'static str,
    pub left: i32,
}

#[derive(Clone, Debug)]
pub struct LogEntry {
    pub at_ms: u32,
    pub event: Event,
    /// Which foe this entry is about, when the fight has more than one of
    /// them. Zero in a duel, and zero for anything the player did to himself.
    pub who: u8,
}

#[derive(Copy, Clone, Eq, PartialEq, Debug, Structural)]
pub enum Outcome {
    Victory,
    Defeat,
    Stalemate,
}

impl Outcome {
    pub fn label(self) -> (r: &'static str)
        ensures
            r@ == (match self {
                Outcome::Victory => "VICTORY"@,
                Outcome::Defeat => "DEFEAT"@,
                Outcome::Stalemate => "STALEMATE"@,
            }),
    {
        match self {
            Outcome::Victory => "VICTORY",
            Outcome::Defeat => "DEFEAT",
            Outcome::Stalemate => "STALEMATE",
        }
    }
}

#[derive(Clone, Debug)]
pub struct CombatLog {
    pub player: Combatant,
    /// Everything on the other side, in the order they were written.
    pub enemies: Vec<Combatant>,
    /// The monsters fought.
    pub specs: Vec<MonsterSpec>,
    pub entries: Vec<LogEntry>,
    pub outcome: Outcome,
    pub duration_ms: u32,
    /// Run gold the player spent during the fight.
    pub gold_spent: i32,
    /// What was standing on the other side when it went down.
    pub curse_bill: CurseBill,
}

/// Curses landed on the other side, and how they stood at the end.
#[derive(Clone, Debug, PartialEq, Eq)]
pub struct CurseBill {
    /// Stacks still running on the fallen when the fight ended.
    pub standing: u32,
    /// **Which** kinds were still running, each once.
    pub kinds: Vec<CurseKind>,
    /// Curses that landed on it and had burned off before the bell.
    pub expired: u32,
}

impl Default for CurseBill {
    fn default() -> (r: Self)
        ensures
            r.standing == 0 && r.kinds@.len() == 0 && r.expired == 0,
    {
        CurseBill { standing: 0, kinds: Vec::new(), expired: 0 }
    }
}

impl CombatLog {
    /// The creature you were fighting, when there was only the one.
    pub fn enemy(&self) -> (r: &Combatant)
        requires
            self.enemies@.len() > 0,
        ensures
            *r == self.enemies@[0],
    {
        &self.enemies[0]
    }

    pub fn spec(&self) -> (r: &MonsterSpec)
        requires
            self.specs@.len() > 0,
        ensures
            *r == self.specs@[0],
    {
        &self.specs[0]
    }

    /// Is this a fight with more than one thing in it?
    pub fn is_brawl(&self) -> (r: bool)
        ensures
            r == (self.enemies@.len() > 1),
    {
        self.enemies.len() > 1
    }

    pub fn len(&self) -> (r: usize)
        ensures
            r == self.entries@.len(),
    {
        self.entries.len()
    }

    pub fn is_empty(&self) -> (r: bool)
        ensures
            r == (self.entries@.len() == 0),
    {
        self.entries.len() == 0
    }
}

// ------------------------------------------------------------- the round

/// The first step `k >= from` of the walk round the foes from `cursor` that
/// lands on one still standing.
pub open spec fn spec_aim_from(foes: Seq<Combatant>, cursor: int, from: int) -> Option<int>
    decreases foes.len() - from,
{
    if from >= foes.len() || from < 0 {
        None
    } else if !(foes[(cursor + from) % (foes.len() as int)].health <= 0
        || foes[(cursor + from) % (foes.len() as int)].max_health <= 0) {
        Some(from)
    } else {
        spec_aim_from(foes, cursor, from + 1)
    }
}

/// Whoever the player's next single-target attack lands on: the first foe
/// still standing, walking round from `cursor`; the front if all are down.
pub fn aim_of(foes: &Vec<Combatant>, cursor: usize) -> (r: usize)
    requires
        cursor + foes@.len() <= usize::MAX,
    ensures
        r == (match spec_aim_from(foes@, cursor as int, 0) {
            Some(k) => (cursor + k) % (foes@.len() as int),
            None => 0,
        }),
{
    let n = foes.len();
    let mut k: usize = 0;
    while k < n
        invariant
            n == foes@.len(),
            cursor + n <= usize::MAX,
            0 <= k <= n,
            spec_aim_from(foes@, cursor as int, 0) == spec_aim_from(foes@, cursor as int, k as int),
        decreases n - k,
    {
        let i = (cursor + k) % n;
        if !foes[i].is_down() {
            return i;
        }
        k = k + 1;
    }
    0
}

/// How many quarters of its maximum a foe has lost, capped at three.
pub open spec fn spec_quarters(f: Combatant) -> int {
    let lost = if f.max_health - f.health < 0 { 0 } else { f.max_health - f.health };
    let q = lost * 4 / (f.max_health as int);
    if q < 3 { q } else { 3 }
}

/// Has anything opposite just lost another quarter of itself? Each foe's
/// count rises to the quarters it has lost, and never falls; foes with no
/// maximum are skipped.
pub fn the_fight_turned(foes: &Vec<Combatant>, turned: &mut Vec<u32>) -> (r: bool)
    requires
        old(turned)@.len() >= foes@.len(),
        forall|i: int| 0 <= i < foes@.len() ==> fits_i32(#[trigger] foes@[i].max_health - foes@[i].health),
    ensures
        final(turned)@.len() == old(turned)@.len(),
        forall|i: int| 0 <= i < old(turned)@.len() ==> #[trigger] final(turned)@[i] == if i < foes@.len()
            && foes@[i].max_health > 0 && old(turned)@[i] < spec_quarters(foes@[i]) {
            spec_quarters(foes@[i]) as u32
        } else {
            old(turned)@[i]
        },
        r == exists|i: int| 0 <= i < foes@.len() && foes@[i].max_health > 0 && old(turned)@[i]
            < #[trigger] spec_quarters(foes@[i]),
{
    let ghost before = turned@;
    let mut any = false;
    let mut i: usize = 0;
    while i < foes.len()
        invariant
            0 <= i <= foes@.len(),
            turned@.len() == before.len(),
            before.len() >= foes@.len(),
            forall|j: int| 0 <= j < foes@.len() ==> fits_i32(#[trigger] foes@[j].max_health - foes@[j].health),
            forall|j: int| 0 <= j < before.len() ==> #[trigger] turned@[j] == if j < i
                && foes@[j].max_health > 0 && before[j] < spec_quarters(foes@[j]) {
                spec_quarters(foes@[j]) as u32
            } else {
                before[j]
            },
            any == exists|j: int| 0 <= j < i && foes@[j].max_health > 0 && before[j]
                < #[trigger] spec_quarters(foes@[j]),
        decreases foes@.len() - i,
    {
        let f = &foes[i];
        if f.max_health > 0 {
            let diff = f.max_health - f.health;
            let lost: i64 = if diff < 0 { 0 } else { diff as i64 };
            let q = (lost * 4) / (f.max_health as i64);
            let quarters: u32 = if q < 3 { q as u32 } else { 3 };
            assert(quarters == spec_quarters(foes@[i as int]));
            if turned[i] < quarters {
                turned.set(i, quarters);
                any = true;
            }
        }
        i = i + 1;
    }
    any
}


/// Whether a fighter is down.
pub open spec fn spec_down(c: Combatant) -> bool {
    c.health <= 0 || c.max_health <= 0
}

/// The foes among the first `n` that are down and not yet reported, in order.
pub open spec fn spec_newly_fallen(foes: Seq<Combatant>, fallen: Seq<usize>, n: int) -> Seq<usize>
    decreases n,
{
    if n <= 0 {
        Seq::empty()
    } else if spec_down(foes[n - 1]) && !fallen.contains((n - 1) as usize) {
        spec_newly_fallen(foes, fallen, n - 1).push((n - 1) as usize)
    } else {
        spec_newly_fallen(foes, fallen, n - 1)
    }
}

/// What the log says of one foe going down: an unmaking first if that is how
/// it ended, then that it fell.
pub open spec fn spec_fall_lines(f: Combatant, i: int, t: u32) -> Seq<LogEntry> {
    let fell = LogEntry { who: i as u8, at_ms: t, event: Event::Fell { side: Side::Enemy } };
    match f.unmade_at {
        Some(floor) => if f.max_health <= floor && f.max_health > 0 {
            seq![
                LogEntry {
                    who: i as u8,
                    at_ms: t,
                    event: Event::Unmade { side: Side::Enemy, at: f.max_health, under: floor },
                },
                fell,
            ]
        } else {
            seq![fell]
        },
        None => seq![fell],
    }
}

/// The lines for every foe among the first `n` that has just gone down.
pub open spec fn spec_fall_log(foes: Seq<Combatant>, fallen: Seq<usize>, t: u32, n: int) -> Seq<LogEntry>
    decreases n,
{
    if n <= 0 {
        Seq::empty()
    } else if spec_down(foes[n - 1]) && !fallen.contains((n - 1) as usize) {
        spec_fall_log(foes, fallen, t, n - 1) + spec_fall_lines(foes[n - 1], n - 1, t)
    } else {
        spec_fall_log(foes, fallen, t, n - 1)
    }
}

/// The healthiest of the first `n` foes, or the floor of an `i32`.
pub open spec fn spec_best_health(foes: Seq<Combatant>, n: int) -> i32
    decreases n,
{
    if n <= 0 {
        i32::MIN
    } else {
        let prev = spec_best_health(foes, n - 1);
        if foes[n - 1].health > prev {
            foes[n - 1].health
        } else {
            prev
        }
    }
}

fn contains_index(v: &Vec<usize>, x: usize) -> (r: bool)
    ensures
        r == v@.contains(x),
{
    let mut i: usize = 0;
    while i < v.len()
        invariant
            0 <= i <= v@.len(),
            forall|j: int| 0 <= j < i ==> v@[j] != x,
        decreases v@.len() - i,
    {
        if v[i] == x {
            return true;
        }
        i = i + 1;
    }
    false
}

/// Report every foe that has just gone down, then the player if he has, and
/// say whether the fight is over and how it went: a dead heat goes to the
/// player when he is no further past zero than the best of them.
pub fn check_down(
    p: &Combatant,
    foes: &Vec<Combatant>,
    t: u32,
    log: &mut Vec<LogEntry>,
    outcome: &mut Outcome,
    fallen: &mut Vec<usize>,
) -> (r: bool)
    ensures
        final(fallen)@ == old(fallen)@ + spec_newly_fallen(foes@, old(fallen)@, foes@.len() as int),
        final(log)@ == old(log)@ + spec_fall_log(foes@, old(fallen)@, t, foes@.len() as int) + (
        if spec_down(*p) {
            seq![LogEntry { who: 0, at_ms: t, event: Event::Fell { side: Side::Player } }]
        } else {
            Seq::empty()
        }),
        ({
            let cleared = forall|i: int| 0 <= i < foes@.len() ==> spec_down(#[trigger] foes@[i]);
            let fell = spec_down(*p);
            &&& r == (cleared || fell)
            &&& *final(outcome) == if cleared && !fell {
                Outcome::Victory
            } else if !cleared && fell {
                Outcome::Defeat
            } else if cleared && fell {
                if p.health >= spec_best_health(foes@, foes@.len() as int) {
                    Outcome::Victory
                } else {
                    Outcome::Defeat
                }
            } else {
                *old(outcome)
            }
        }),
{
    let ghost fallen0 = fallen@;
    let ghost log0 = log@;
    let n = foes.len();
    let mut i: usize = 0;
    while i < n
        invariant
            n == foes@.len(),
            0 <= i <= n,
            fallen@ == fallen0 + spec_newly_fallen(foes@, fallen0, i as int),
            log@ == log0 + spec_fall_log(foes@, fallen0, t, i as int),
            forall|j: int| 0 <= j < spec_newly_fallen(foes@, fallen0, i as int).len()
                ==> #[trigger] spec_newly_fallen(foes@, fallen0, i as int)[j] < i,
        decreases n - i,
    {
        let f = &foes[i];
        let seen = contains_index(fallen, i);
        proof {
            // An index not reported before this call is not among those this
            // call has reported so far either: those are all below `i`.
            let fresh = spec_newly_fallen(foes@, fallen0, i as int);
            if seen && !fallen0.contains(i) {
                let k = choose|k: int| 0 <= k < fallen@.len() && fallen@[k] == i;
                assert(fallen@[k] == fresh[k - fallen0.len()]);
            }
            if fallen0.contains(i) {
                let k = choose|k: int| 0 <= k < fallen0.len() && fallen0[k] == i;
                assert(fallen@[k] == i);
            }
        }
        if f.is_down() && !seen {
            fallen.push(i);
            match f.unmade_at {
                Some(floor) => {
                    if f.max_health <= floor && f.max_health > 0 {
                        log.push(
                            LogEntry {
                                who: i as u8,
                                at_ms: t,
                                event: Event::Unmade { side: Side::Enemy, at: f.max_health, under: floor },
                            },
                        );
                    }
                },
                None => {},
            }
            log.push(LogEntry { who: i as u8, at_ms: t, event: Event::Fell { side: Side::Enemy } });
            proof {
                assert(log@ =~= log0 + spec_fall_log(foes@, fallen0, t, i as int + 1));
                assert(fallen@ =~= fallen0 + spec_newly_fallen(foes@, fallen0, i as int + 1));
            }
        }
        i = i + 1;
    }
    let mut cleared = true;
    let mut best: i32 = i32::MIN;
    let mut k: usize = 0;
    while k < n
        invariant
            n == foes@.len(),
            0 <= k <= n,
            cleared == forall|j: int| 0 <= j < k ==> spec_down(#[trigger] foes@[j]),
            best == spec_best_health(foes@, k as int),
        decreases n - k,
    {
        if !foes[k].is_down() {
            cleared = false;
        }
        if foes[k].health > best {
            best = foes[k].health;
        }
        k = k + 1;
    }
    let fell = p.is_down();
    if fell {
        log.push(LogEntry { who: 0, at_ms: t, event: Event::Fell { side: Side::Player } });
    }
    proof {
        if !fell {
            assert(log@ =~= log0 + spec_fall_log(foes@, fallen0, t, n as int) + Seq::<LogEntry>::empty());
        }
    }
    if cleared && !fell {
        *outcome = Outcome::Victory;
        true
    } else if !cleared && fell {
        *outcome = Outcome::Defeat;
        true
    } else if cleared && fell {
        *outcome = if p.health >= best { Outcome::Victory } else { Outcome::Defeat };
        true
    } else {
        false
    }
}



// ------------------------------------------------------------------ laws

/// The other side of the other side is the side you started on, and no side
/// is its own opponent.
pub proof fn the_other_side_of_the_other_side(s: Side)
    ensures
        s.spec_other().spec_other() == s,
        s.spec_other() != s,
{
}

/// A fighter with no items cannot be stunned: the stun changes nothing and
/// lands nowhere.
pub proof fn nothing_to_stop_means_no_stun(before: Combatant, after: Combatant, aim: StunAim, at_ms: u32, r: Option<(usize, u32)>)
    requires
        spec_land_stun(before, after, aim, at_ms, r),
        before.items@.len() == 0,
    ensures
        r is None,
        after == before,
{
}

/// The most resistant thing in the game is still stunned, briefly: a stun
/// always lasts at least one tick, and at the lane's cap or above it lasts
/// exactly one - a twentieth of its length, floored to the tick grid.
pub proof fn the_most_resistant_is_still_stunned_briefly(curse_resist: i32)
    ensures
        CurseKind::Stun.spec_landing_ms(spec_lane(curse_resist)) >= TICK_MS,
        curse_resist >= LANE_CAP ==> CurseKind::Stun.spec_landing_ms(spec_lane(curse_resist)) == TICK_MS,
{
    let r = spec_lane(curse_resist);
    let resist: int = if r < 0 {
        0
    } else if r > 100 {
        100
    } else {
        r as int
    };
    let scaled: int = 1200 * (100 - resist) / 100;
    assert(scaled >= 60) by (nonlinear_arith)
        requires
            0 <= resist <= 95,
            scaled == 1200 * (100 - resist) / 100,
    ;
    assert(scaled <= 1200) by (nonlinear_arith)
        requires
            0 <= resist <= 95,
            scaled == 1200 * (100 - resist) / 100,
    ;
    if curse_resist >= LANE_CAP {
        assert(scaled == 60);
    }
}

/// A stun chain is not a lock: stacking piles onto one clock and stops at
/// the cap, and only the item it landed on has its clock touched.
#[verifier::rlimit(60)]
pub proof fn stuns_stop_at_the_cap(before: Combatant, after: Combatant, aim: StunAim, at_ms: u32, i: usize, ms: u32)
    requires
        spec_land_stun(before, after, aim, at_ms, Some((i, ms))),
    ensures
        ms <= STUN_CAP_MS,
        (i as int) < before.items@.len(),
        after.items@.len() == before.items@.len(),
        after.items@[i as int].stun_ms == ms,
        before.items@[i as int].stun_ms <= STUN_CAP_MS ==> ms >= before.items@[i as int].stun_ms,
        forall|j: int| 0 <= j < before.items@.len() && j != i ==> after.items@[j] == before.items@[j],
{
    let items = before.items@;
    let count = if before.stun_count == u32::MAX { 0 } else { (before.stun_count + 1) as u32 };
    let d = CurseKind::Stun.spec_landing_ms(spec_lane(before.curse_resist));
    lemma_target_bounds(items, aim, at_ms, count);
    assert(d != 0 && items.len() != 0);
    let tgt = spec_stun_target(items, aim, at_ms, count);
    assert(tgt is Some);
    let k = tgt->0;
    assert(0 <= k < items.len());
    assert(items.len() == before.items.len());
    assert(k <= usize::MAX);
    let total = items[k].stun_ms + d;
    let capped = (if total < STUN_CAP_MS { total } else { STUN_CAP_MS as int }) as u32;
    assert(Some((i, ms)) == Some((k as usize, capped)));
    assert((k as usize) as int == k);
    assert(k == i as int);
    assert(ms == capped);
    assert(after.items@ == items.update(k, RunningItem { stun_ms: capped, ..items[k] }));
}

proof fn lemma_target_bounds(items: Seq<RunningItem>, aim: StunAim, at_ms: u32, count: u32)
    ensures
        spec_stun_target(items, aim, at_ms, count) matches Some(k) ==> 0 <= k < items.len(),
{
    lemma_rod_bounds(items, items.len() as int);
    lemma_takers_bounds(items, items.len() as int);
    lemma_strongest_bounds(items, items.len() as int);
    if spec_rod_upto(items, items.len() as int) is None && spec_takers(items, items.len() as int).len() > 0 {
        lemma_unaimed_pick_bounds(items, at_ms, count);
    }
}

proof fn lemma_unaimed_pick_bounds(items: Seq<RunningItem>, at_ms: u32, count: u32)
    requires
        spec_takers(items, items.len() as int).len() > 0,
    ensures
        0 <= spec_unaimed_pick(items, at_ms, count) < items.len(),
{
    let t = spec_takers(items, items.len() as int);
    let n = t.len() as int;
    lemma_takers_bounds(items, items.len() as int);
    let start = (spec_stun_mix(at_ms, count) / 0x2_0000_0000int) % n;
    match spec_live_from(items, t, start, 0) {
        Some(k) => {
            lemma_live_from_bounds(items, t, start, 0);
            assert(0 <= (start + k) % n < n);
        },
        None => {},
    }
}

proof fn lemma_live_from_bounds(items: Seq<RunningItem>, t: Seq<int>, start: int, from: int)
    ensures
        spec_live_from(items, t, start, from) matches Some(k) ==> 0 <= from <= k < t.len(),
    decreases t.len() - from,
{
    if from >= 0 && from < t.len() && !spec_live(items[t[(start + from) % (t.len() as int)]]) {
        lemma_live_from_bounds(items, t, start, from + 1);
    }
}

/// Where the walk stops, the item is live; where it never stops, no step
/// from `from` on lands on a live item.
proof fn lemma_live_from_stops(items: Seq<RunningItem>, t: Seq<int>, start: int, from: int)
    requires
        0 <= from,
    ensures
        spec_live_from(items, t, start, from) matches Some(k) ==> spec_live(
            items[t[(start + k) % (t.len() as int)]],
        ),
        spec_live_from(items, t, start, from) is None ==> forall|k: int|
            from <= k < t.len() ==> !spec_live(#[trigger] items[t[(start + k) % (t.len() as int)]]),
    decreases t.len() - from,
{
    if from < t.len() && !spec_live(items[t[(start + from) % (t.len() as int)]]) {
        lemma_live_from_stops(items, t, start, from + 1);
    }
}

/// Every stoppable item among the first `n` is one of the takers.
proof fn lemma_takers_has(items: Seq<RunningItem>, n: int, j: int)
    requires
        0 <= j < n <= items.len(),
        !items[j].unshakable,
    ensures
        exists|p: int| 0 <= p < spec_takers(items, n).len() && #[trigger] spec_takers(items, n)[p] == j,
    decreases n,
{
    if n - 1 > j {
        lemma_takers_has(items, n - 1, j);
        let p = choose|p: int| 0 <= p < spec_takers(items, n - 1).len() && #[trigger] spec_takers(items, n - 1)[p] == j;
        assert(spec_takers(items, n)[p] == j);
    } else {
        let p = spec_takers(items, n - 1).len() as int;
        assert(spec_takers(items, n)[p] == j);
    }
}

/// An unaimed stun is not wasted: with no Lightning Rod on the board and some
/// stoppable item neither stopped nor broken, the stun lands on a stoppable
/// item that is neither stopped nor broken.
pub proof fn an_unaimed_stun_lands_on_a_running_item(items: Seq<RunningItem>, at_ms: u32, count: u32)
    requires
        forall|j: int| 0 <= j < items.len() ==> !spec_rod_item(#[trigger] items[j]),
        exists|j: int|
            0 <= j < items.len() && !(#[trigger] items[j]).unshakable && items[j].stun_ms == 0 && !items[j].broken,
    ensures
        spec_stun_target(items, StunAim::Unaimed, at_ms, count) matches Some(i) && {
            &&& 0 <= i < items.len()
            &&& !items[i].unshakable
            &&& items[i].stun_ms == 0
            &&& !items[i].broken
        },
{
    let j = choose|j: int|
        0 <= j < items.len() && !(#[trigger] items[j]).unshakable && items[j].stun_ms == 0 && !items[j].broken;
    lemma_rod_none(items, items.len() as int);
    lemma_takers_bounds(items, items.len() as int);
    lemma_takers_has(items, items.len() as int, j);
    let t = spec_takers(items, items.len() as int);
    let n = t.len() as int;
    let p = choose|p: int| 0 <= p < t.len() && #[trigger] t[p] == j;
    assert(n > 0);
    let start = (spec_stun_mix(at_ms, count) / 0x2_0000_0000int) % n;
    assert(0 <= start < n);
    lemma_live_from_bounds(items, t, start, 0);
    lemma_live_from_stops(items, t, start, 0);
    let k = if p >= start { p - start } else { p - start + n };
    assert((start + k) % n == p) by {
        vstd::arithmetic::div_mod::lemma_small_mod(p as nat, n as nat);
        if p < start {
            vstd::arithmetic::div_mod::lemma_mod_add_multiples_vanish(p, n);
        }
    }
    assert(spec_live(items[t[(start + k) % n]]));
    assert(spec_live_from(items, t, start, 0) is Some);
    let kk = spec_live_from(items, t, start, 0)->0;
    assert(0 <= (start + kk) % n < n);
}

/// Landing an unaimed stun on a fighter with no Lightning Rod and some
/// stoppable item still running and whole always stops one such item: the
/// call reports an item, and before the stun it was stoppable, running and
/// not broken.
pub proof fn landing_an_unaimed_stun_stops_a_running_item(
    before: Combatant,
    after: Combatant,
    at_ms: u32,
    r: Option<(usize, u32)>,
)
    requires
        spec_land_stun(before, after, StunAim::Unaimed, at_ms, r),
        forall|j: int| 0 <= j < before.items@.len() ==> !spec_rod_item(#[trigger] before.items@[j]),
        exists|j: int|
            0 <= j < before.items@.len() && !(#[trigger] before.items@[j]).unshakable && before.items@[j].stun_ms
                == 0 && !before.items@[j].broken,
    ensures
        r matches Some((i, ms)) && {
            &&& (i as int) < before.items@.len()
            &&& !before.items@[i as int].unshakable
            &&& before.items@[i as int].stun_ms == 0
            &&& !before.items@[i as int].broken
            &&& after.items@[i as int].stun_ms == ms
            &&& ms > 0
        },
{
    let items = before.items@;
    let count = if before.stun_count == u32::MAX { 0 } else { (before.stun_count + 1) as u32 };
    the_most_resistant_is_still_stunned_briefly(before.curse_resist);
    an_unaimed_stun_lands_on_a_running_item(items, at_ms, count);
    let i = spec_stun_target(items, StunAim::Unaimed, at_ms, count)->0;
    assert(items.len() > 0);
    assert(0 <= i < items.len());
    assert(items.len() == before.items.len());
    assert(i <= usize::MAX);
    assert((i as usize) as int == i);
    let d = CurseKind::Stun.spec_landing_ms(spec_lane(before.curse_resist));
    assert(d > 0);
    assert(after.items@[i] == items.update(i, RunningItem { stun_ms: (r->0).1, ..items[i] })[i]);
}

/// The aimed stun's order is total and transitive, so "the strongest" is
/// well defined.
proof fn lemma_key_order(a: RunningItem, b: RunningItem, c: RunningItem)
    ensures
        spec_key_le(a, b) || spec_key_le(b, a),
        spec_key_le(a, b) && spec_key_le(b, c) ==> spec_key_le(a, c),
        spec_key_le(a, a),
{
}

proof fn lemma_strongest_is_best(items: Seq<RunningItem>, n: int)
    requires
        0 <= n <= items.len(),
    ensures
        spec_strongest_upto(items, n) matches Some(s) ==> 0 <= s < n && !items[s].unshakable && forall|j: int|
            0 <= j < n && !items[j].unshakable ==> spec_key_le(#[trigger] items[j], items[s]),
        spec_strongest_upto(items, n) is None ==> forall|j: int| 0 <= j < n ==> #[trigger] items[j].unshakable,
    decreases n,
{
    if n > 0 {
        lemma_strongest_is_best(items, n - 1);
        let prev = spec_strongest_upto(items, n - 1);
        match prev {
            Some(p) => {
                if !items[n - 1].unshakable {
                    if spec_key_le(items[p], items[n - 1]) {
                        assert forall|j: int| 0 <= j < n && !items[j].unshakable implies spec_key_le(#[trigger] items[j], items[n - 1]) by {
                            if j < n - 1 {
                                lemma_key_order(items[j], items[p], items[n - 1]);
                            } else {
                                lemma_key_order(items[j], items[j], items[j]);
                            }
                        }
                    } else {
                        lemma_key_order(items[p], items[n - 1], items[p]);
                    }
                }
            },
            None => {
                if !items[n - 1].unshakable {
                    lemma_key_order(items[n - 1], items[n - 1], items[n - 1]);
                }
            },
        }
    }
}

/// An aimed stun always takes the best item: with no Lightning Rod on the
/// board, it lands on a stoppable item that no other stoppable item outranks
/// - whole before broken, then by rating, then running before stopped.
pub proof fn an_aimed_stun_takes_the_best_item(items: Seq<RunningItem>, at_ms: u32, count: u32)
    requires
        forall|j: int| 0 <= j < items.len() ==> !spec_rod_item(#[trigger] items[j]),
    ensures
        spec_stun_target(items, StunAim::Strongest, at_ms, count) matches Some(i) ==> {
            &&& 0 <= i < items.len()
            &&& !items[i].unshakable
            &&& forall|j: int| 0 <= j < items.len() && !items[j].unshakable ==> spec_key_le(#[trigger] items[j], items[i])
        },
        (exists|j: int| 0 <= j < items.len() && !(#[trigger] items[j]).unshakable) ==> spec_stun_target(items, StunAim::Strongest, at_ms, count) is Some,
{
    lemma_rod_none(items, items.len() as int);
    lemma_strongest_is_best(items, items.len() as int);
    lemma_takers_bounds(items, items.len() as int);
    if exists|j: int| 0 <= j < items.len() && !(#[trigger] items[j]).unshakable {
        let j = choose|j: int| 0 <= j < items.len() && !(#[trigger] items[j]).unshakable;
        lemma_takers_hold(items, items.len() as int, j);
    }
}

proof fn lemma_takers_hold(items: Seq<RunningItem>, n: int, j: int)
    requires
        0 <= j < n <= items.len(),
        !items[j].unshakable,
    ensures
        spec_takers(items, n).len() > 0,
    decreases n,
{
    if n - 1 > j {
        lemma_takers_hold(items, n - 1, j);
    }
}

proof fn lemma_rod_none(items: Seq<RunningItem>, n: int)
    requires
        0 <= n <= items.len(),
        forall|j: int| 0 <= j < items.len() ==> !spec_rod_item(#[trigger] items[j]),
    ensures
        spec_rod_upto(items, n) is None,
    decreases n,
{
    if n > 0 {
        lemma_rod_none(items, n - 1);
    }
}

/// A Lightning Rod pulls every stun onto itself: when one is on the board,
/// the stun lands on the first of them, aimed or not.
pub proof fn a_rod_takes_the_stun(items: Seq<RunningItem>, aim: StunAim, at_ms: u32, count: u32, rod: int)
    requires
        0 <= rod < items.len(),
        spec_rod_item(items[rod]),
        forall|j: int| 0 <= j < rod ==> !spec_rod_item(#[trigger] items[j]),
    ensures
        spec_stun_target(items, aim, at_ms, count) == Some(rod),
{
    lemma_rod_first(items, rod, items.len() as int);
}

proof fn lemma_rod_first(items: Seq<RunningItem>, rod: int, n: int)
    requires
        0 <= rod < n <= items.len(),
        spec_rod_item(items[rod]),
        forall|j: int| 0 <= j < rod ==> !spec_rod_item(#[trigger] items[j]),
    ensures
        spec_rod_upto(items, n) == Some(rod),
    decreases n,
{
    if n > rod + 1 {
        lemma_rod_first(items, rod, n - 1);
    } else {
        lemma_rod_none_below(items, rod, rod);
    }
}

proof fn lemma_rod_none_below(items: Seq<RunningItem>, rod: int, n: int)
    requires
        0 <= n <= rod < items.len(),
        forall|j: int| 0 <= j < rod ==> !spec_rod_item(#[trigger] items[j]),
    ensures
        spec_rod_upto(items, n) is None,
    decreases n,
{
    if n > 0 {
        lemma_rod_none_below(items, rod, n - 1);
    }
}


/// The seed an innate attack's sigils are drawn from: its name's bytes
/// folded from a fixed start, each turning the last five bits to the left
/// and mixing itself in.
pub open spec fn spec_name_sigil(bytes: Seq<u8>) -> u64
    decreases bytes.len(),
{
    if bytes.len() == 0 {
        0x1234_5678u64
    } else {
        let h = spec_name_sigil(bytes.drop_last());
        ((h << 5u64) | (h >> 59u64)) ^ (bytes.last() as u64)
    }
}

fn name_sigil(name: &str) -> (r: u64)
    ensures
        r == spec_name_sigil(name.spec_bytes()),
{
    let bytes = name.as_bytes();
    let mut h: u64 = 0x1234_5678;
    let mut i: usize = 0;
    proof {
        assert(bytes@.take(0) =~= Seq::<u8>::empty());
    }
    while i < bytes.len()
        invariant
            0 <= i <= bytes@.len(),
            bytes@ == name.spec_bytes(),
            h == spec_name_sigil(bytes@.take(i as int)),
        decreases bytes@.len() - i,
    {
        proof {
            assert(bytes@.take(i as int + 1).drop_last() =~= bytes@.take(i as int));
            assert(bytes@.take(i as int + 1).last() == bytes@[i as int]);
        }
        h = ((h << 5u64) | (h >> 59u64)) ^ (bytes[i] as u64);
        i = i + 1;
    }
    proof {
        assert(bytes@.take(i as int) =~= bytes@);
    }
    h
}

/// A creature's own attack as a running item: it stands on no component,
/// nothing is bolted to it, and it never breaks.
pub open spec fn spec_item_from_attack(r: RunningItem, a: MonsterAttack) -> bool {
    let cd: u32 = if a.cooldown_ms < TICK_MS { TICK_MS } else { a.cooldown_ms };
    &&& r.name@ == a.name@
    &&& r.slot is None
    &&& !r.attracts_curses && !r.steady && !r.overtakes && !r.has_fired && !r.fragile && !r.broken
    &&& !r.unshakable && !r.enched && !r.spins
    &&& r.fires == 0 && r.slowed_pct == 0 && r.spin_stacks == 0 && r.spin_ms == 0
    &&& r.turn_index == 0 && r.turn_cycle_len == 1
    &&& r.base_cooldown_ms == cd && r.cooldown_ms == cd
    &&& r.progress_ms == 0 && r.stun_ms == 0 && r.owed_ms == 0 && r.gold_spent == 0 && r.gold_paid == 0
    &&& r.physical_damage == a.damage && r.magic_damage == 0 && r.mind == a.mind && r.armor == a.armor
    &&& r.mana == 0 && r.rage == 0 && r.faith == 0 && r.nature == 0
    &&& r.adjacent_assembled_same_slot == 0 && r.open_cells == 0 && r.power == 100
    &&& r.adjacent_items@.len() == 0 && r.aligned_items@.len() == 0 && r.diagonal_items@.len() == 0
    &&& r.watched@.len() == 0 && r.watch_paid@.len() == 0
    &&& r.curse == a.curse && r.rating == 0 && r.power_bonus == 0 && r.cast_index == 0
    &&& r.sigil_seed == spec_name_sigil(a.name.spec_bytes())
}

impl RunningItem {
    pub fn from_attack(a: &MonsterAttack) -> (r: Self)
        ensures
            spec_item_from_attack(r, *a),
    {
        let cd: u32 = if a.cooldown_ms < TICK_MS { TICK_MS } else { a.cooldown_ms };
        RunningItem {
            name: String::from_str(a.name),
            slot: None,
            attracts_curses: false,
            steady: false,
            overtakes: false,
            has_fired: false,
            fragile: false,
            broken: false,
            unshakable: false,
            enched: false,
            fires: 0,
            slowed_pct: 0,
            base_cooldown_ms: cd,
            spins: false,
            spin_stacks: 0,
            spin_ms: 0,
            turn_index: 0,
            turn_cycle_len: 1,
            cooldown_ms: cd,
            progress_ms: 0,
            stun_ms: 0,
            owed_ms: 0,
            gold_spent: 0,
            gold_paid: 0,
            physical_damage: a.damage,
            magic_damage: 0,
            rage: 0,
            faith: 0,
            nature: 0,
            mind: a.mind,
            armor: a.armor,
            mana: 0,
            adjacent_assembled_same_slot: 0,
            open_cells: 0,
            power: 100,
            adjacent_items: Vec::new(),
            aligned_items: Vec::new(),
            diagonal_items: Vec::new(),
            watched: Vec::new(),
            watch_paid: Vec::new(),
            curse: a.curse,
            rating: 0,
            power_bonus: 0,
            cast_index: 0,
            sigil_seed: name_sigil(a.name),
        }
    }
}

/// A creature's stat block once its setting's standing bonuses are on it:
/// nothing on Easy, and `Hardened`'s four regeneration everywhere else.
pub open spec fn spec_monster_stats(outfit: Stats, difficulty: Difficulty) -> Stats {
    if difficulty == Difficulty::Easy {
        outfit
    } else {
        Stats { regen: (outfit.regen + 4) as i32, ..outfit }
    }
}

impl Combatant {
    /// A creature as it stands at the bell, from what it wears at this
    /// setting: `outfit` is its stat block, health and strength already
    /// scaled each way, and `profiles` its assembled items. Its own attacks
    /// come first, then its gear; the setting's standing bonuses go on, and
    /// a creature is never an expert.
    pub fn monster_at(spec: &MonsterSpec, outfit: Stats, profiles: &[ItemProfile], difficulty: Difficulty) -> (r: Combatant)
        requires
            difficulty != Difficulty::Easy ==> outfit.regen + 4 <= i32::MAX,
            spec.attacks@.len() + profiles@.len() <= usize::MAX,
        ensures
            ({
                let ms = spec_monster_stats(outfit, difficulty);
                &&& r.name@ == spec.name@
                &&& r.wrong_sense == false
                &&& r.items@.len() == spec.attacks@.len() + profiles@.len()
                &&& forall|i: int| 0 <= i < spec.attacks@.len() ==> spec_item_from_attack(#[trigger] r.items@[i], spec.attacks@[i])
                &&& forall|j: int| 0 <= j < profiles@.len() ==> spec_item_from_profile(#[trigger] r.items@[spec.attacks@.len() + j], profiles@[j])
                &&& r.expert is None
                &&& r.curses@ == Seq::<crate::curse::Curse>::empty()
                &&& r.curse_on_activate@.len() == 0
                &&& r.max_health == ms.health
                &&& r.health == ms.health
                &&& r.armor == 0
                &&& r.mana == 0
                &&& r.strength == ms.strength
                &&& r.power == ms.power
                &&& r.regen == ms.regen
                &&& r.mind_resist == ms.mind_resist
                &&& r.curse_resist == ms.curse_resist
                &&& r.physical_resist == ms.physical_resist
                &&& r.physical_pierce == ms.physical_pierce
                &&& r.physical_harden == ms.physical_harden
                &&& r.magic_resist == ms.magic_resist
                &&& r.magic_pierce == ms.magic_pierce
                &&& r.magic_harden == ms.magic_harden
                &&& r.reflect == ms.reflect
                &&& r.rage == 0
                &&& r.faith == 0
                &&& r.nature == 0
                &&& r.druidic_might == 0
                &&& r.communion == 0
                &&& r.zealotry == 0
                &&& r.purse == 0
                &&& r.aim == 0
                &&& r.no_regen == false
                &&& r.slower_pct == 0
                &&& r.armour_pct == 100
                &&& r.haste_per_s == 0
                &&& r.warded_every == 0
                &&& r.warded_count == 0
                &&& r.empowerment == 0
                &&& r.burn_stacks == 0
                &&& r.shield == 0
                &&& r.insight == 0
                &&& r.dread == 0
                &&& r.first_blood == false
                &&& r.mind_pierce == 0
                &&& r.spellblade == 0
                &&& r.surrendered == 0
                &&& r.deflection == 0
                &&& r.forking == 0
                &&& r.slow_time == 0
                &&& r.overflowing == 1
                &&& r.leech == 0
                &&& r.echo_every == 0
                &&& r.bastion == 0
                &&& r.contagion == 0
                &&& r.reprisal == 0
                &&& r.riposte == 0
                &&& r.momentum == 0
                &&& r.resonance == 1
                &&& r.transmute == 0
                &&& r.adaptable == 0
                &&& r.untimely == 0
                &&& r.cascade == 0
                &&& r.consecrate == 0
                &&& r.misfire_count == 0
                &&& r.stun_count == 0
                &&& r.untimely_count == 0
                &&& r.bloodscent == 0
                &&& r.confluence == 0
                &&& r.productivity is None
                &&& r.loud_bought == 0
                &&& r.loud_free_left == 0
                &&& r.loud_owed == 0
                &&& r.facts_standing == 0
                &&& r.reqs_left == 0
                &&& r.reqs_done == 0
                &&& r.opening_until_ms == 0
                &&& r.opening_encores == 0
                &&& r.opening_banked == false
                &&& r.overwound_ms == 0
                &&& r.overwound_stacks == 0
                &&& r.burn_ms == 0
                &&& r.burn_every_ms == 0
                &&& r.burn_per_stack == 0
                &&& r.burn_keeps_pct == 0
                &&& r.fired_left == 0
                &&& r.silent_left == 0
                &&& r.silent_owed == 0
                &&& r.told_per_curse == 0
                &&& r.told_cap == 0
                &&& r.said == 0
                &&& r.boiler_tenths == 0
                &&& r.burned@ == seq![0i32, 0, 0]
                &&& r.unmade_at is None
                &&& r.empty_frames == 0
                &&& r.spin_extra == 0
                &&& r.spin_keep == 0
                &&& r.spin_every_ms == SPIN_EVERY_MS
            }),
    {
        let mut stats = outfit;
        let mut haste: u32 = 100;
        let ps = difficulty.passives();
        let mut k: usize = 0;
        while k < ps.len()
            invariant
                0 <= k <= ps@.len(),
                ps@ == (match difficulty {
                    Difficulty::Easy => Seq::<Passive>::empty(),
                    _ => seq![Passive::Hardened],
                }),
                difficulty != Difficulty::Easy ==> outfit.regen + 4 <= i32::MAX,
                haste == 100,
                stats == (if k == 0 { outfit } else { spec_monster_stats(outfit, difficulty) }),
            decreases ps@.len() - k,
        {
            match ps[k] {
                Passive::Hardened => stats.regen = stats.regen + 4,
                Passive::Warded => {
                    stats.mind_resist = stats.mind_resist + 40;
                    stats.curse_resist = stats.curse_resist + 40;
                    stats.physical_resist = stats.physical_resist + 20;
                    stats.magic_resist = stats.magic_resist + 20;
                },
                Passive::Relentless => haste = 125,
            }
            k = k + 1;
        }
        proof {
            assert(stats == spec_monster_stats(outfit, difficulty));
        }
        let mut items: Vec<RunningItem> = Vec::new();
        let mut i: usize = 0;
        while i < spec.attacks.len()
            invariant
                0 <= i <= spec.attacks@.len(),
                haste == 100,
                items@.len() == i,
                forall|x: int| 0 <= x < i ==> spec_item_from_attack(#[trigger] items@[x], spec.attacks@[x]),
            decreases spec.attacks@.len() - i,
        {
            let mut it = RunningItem::from_attack(&spec.attacks[i]);
            if haste != 100 {
                let slowed = (it.cooldown_ms as u64 * 100 / haste as u64) as u32;
                it.cooldown_ms = if slowed < TICK_MS { TICK_MS } else { slowed };
            }
            items.push(it);
            i = i + 1;
        }
        let mut j: usize = 0;
        while j < profiles.len()
            invariant
                0 <= j <= profiles@.len(),
                haste == 100,
                items@.len() == spec.attacks@.len() + j,
                spec.attacks@.len() + profiles@.len() <= usize::MAX,
                forall|x: int| 0 <= x < spec.attacks@.len() ==> spec_item_from_attack(#[trigger] items@[x], spec.attacks@[x]),
                forall|y: int| 0 <= y < j ==> spec_item_from_profile(#[trigger] items@[spec.attacks@.len() + y], profiles@[y]),
            decreases profiles@.len() - j,
        {
            let mut it = RunningItem::from_profile(&profiles[j]);
            if haste != 100 {
                let slowed = (it.cooldown_ms as u64 * 100 / haste as u64) as u32;
                it.cooldown_ms = if slowed < TICK_MS { TICK_MS } else { slowed };
            }
            let ghost before = items@;
            items.push(it);
            proof {
                assert(items@[spec.attacks@.len() + j] == it);
                assert forall|y: int| 0 <= y < j + 1 implies spec_item_from_profile(#[trigger] items@[spec.attacks@.len() + y], profiles@[y]) by {
                    if y < j {
                        assert(items@[spec.attacks@.len() + y] == before[spec.attacks@.len() + y]);
                    }
                }
            }
            j = j + 1;
        }
        let mut c = Combatant::player(stats, &[]);
        c.name = String::from_str(spec.name);
        c.items = items;
        c
    }
}


/// Quarters lost, counted: with `m > 0` and `lost >= 0`, the count
/// `min(3, 4 * lost / m)` reaches every `q <= 3` with `q * m <= 4 * lost`,
/// and never passes what was lost.
proof fn lemma_quarters(m: int, lost: int)
    requires
        m > 0,
        lost >= 0,
    ensures
        ({
            let q = lost * 4 / m;
            let k = if q < 3 { q } else { 3 };
            &&& 0 <= k <= 3
            &&& k * m <= 4 * lost
            &&& (m <= 4 * lost ==> k >= 1)
            &&& (2 * m <= 4 * lost ==> k >= 2)
            &&& (3 * m <= 4 * lost ==> k >= 3)
        }),
{
    let q = lost * 4 / m;
    assert(q * m <= lost * 4 && lost * 4 < (q + 1) * m && q >= 0) by (nonlinear_arith)
        requires
            m > 0,
            lost >= 0,
            q == lost * 4 / m;
    if m <= 4 * lost {
        assert(q >= 1) by (nonlinear_arith)
            requires
                m > 0,
                m <= 4 * lost,
                lost * 4 < (q + 1) * m;
    }
    if 2 * m <= 4 * lost {
        assert(q >= 2) by (nonlinear_arith)
            requires
                m > 0,
                2 * m <= 4 * lost,
                lost * 4 < (q + 1) * m;
    }
    if 3 * m <= 4 * lost {
        assert(q >= 3) by (nonlinear_arith)
            requires
                m > 0,
                3 * m <= 4 * lost,
                lost * 4 < (q + 1) * m;
    }
    if q >= 3 {
        assert(3 * m <= q * m) by (nonlinear_arith)
            requires
                m > 0,
                q >= 3;
    }
}

/// Every quarter of its maximum a foe has lost is a turn of the fight, the
/// third as much as the first: after the count is taken, a foe that has lost
/// at least a quarter, a half or three quarters of its maximum stands at
/// one, two or three at least; a count never falls, never rises past three,
/// and never rises past the quarters actually lost; foes with no maximum are
/// left alone; and the fight has turned exactly when some count rose.
pub proof fn every_quarter_lost_is_a_turn(foes: Seq<Combatant>, before: Seq<u32>, after: Seq<u32>, r: bool)
    requires
        before.len() >= foes.len(),
        after.len() == before.len(),
        forall|i: int| 0 <= i < before.len() ==> #[trigger] after[i] == if i < foes.len()
            && foes[i].max_health > 0 && before[i] < spec_quarters(foes[i]) {
            spec_quarters(foes[i]) as u32
        } else {
            before[i]
        },
        r == exists|i: int| 0 <= i < foes.len() && foes[i].max_health > 0 && before[i]
            < #[trigger] spec_quarters(foes[i]),
    ensures
        forall|i: int| 0 <= i < foes.len() && foes[i].max_health > 0 ==> {
            let m = foes[i].max_health as int;
            let lost = if m - foes[i].health < 0 { 0 } else { m - foes[i].health };
            &&& #[trigger] after[i] >= before[i]
            &&& (m <= 4 * lost ==> after[i] >= 1)
            &&& (2 * m <= 4 * lost ==> after[i] >= 2)
            &&& (3 * m <= 4 * lost ==> after[i] >= 3)
            &&& (after[i] == before[i] || (after[i] <= 3 && after[i] * m <= 4 * lost))
        },
        forall|i: int| 0 <= i < before.len() && (i >= foes.len() || foes[i].max_health <= 0) ==> #[trigger] after[i] == before[i],
        r == exists|i: int| 0 <= i < foes.len() && #[trigger] after[i] != before[i],
{
    assert forall|i: int| 0 <= i < foes.len() && foes[i].max_health > 0 implies {
        let m = foes[i].max_health as int;
        let lost = if m - foes[i].health < 0 { 0 } else { m - foes[i].health };
        &&& #[trigger] after[i] >= before[i]
        &&& (m <= 4 * lost ==> after[i] >= 1)
        &&& (2 * m <= 4 * lost ==> after[i] >= 2)
        &&& (3 * m <= 4 * lost ==> after[i] >= 3)
        &&& (after[i] == before[i] || (after[i] <= 3 && after[i] * m <= 4 * lost))
    } by {
        let m = foes[i].max_health as int;
        let lost = if m - foes[i].health < 0 { 0 } else { m - foes[i].health };
        lemma_quarters(m, lost);
    }
    if r {
        let i = choose|i: int| 0 <= i < foes.len() && foes[i].max_health > 0 && before[i] < #[trigger] spec_quarters(foes[i]);
        let m = foes[i].max_health as int;
        let lost = if m - foes[i].health < 0 { 0 } else { m - foes[i].health };
        lemma_quarters(m, lost);
        assert(after[i] != before[i]);
    }
    if exists|i: int| 0 <= i < foes.len() && #[trigger] after[i] != before[i] {
        let i = choose|i: int| 0 <= i < foes.len() && #[trigger] after[i] != before[i];
        assert(foes[i].max_health > 0 && before[i] < spec_quarters(foes[i]));
    }
}

} // verus!
