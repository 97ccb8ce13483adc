//! The account of what each item did in a fight, read off the log.
//!
//! A log is a flat transcript; a player's question is what *that* piece did.
//! The rule: `Event::Activate` precedes its own item's effects and carries the
//! item's index, so an effect belongs to whichever item on that side last
//! activated. Events belonging to nobody - sudden death, the ending - are
//! attributed to nobody rather than to whatever fired last.

use vstd::prelude::*;

use crate::combat::{CombatLog, Combatant, Event, LogEntry, RunningItem, Side};

verus! {

// ------------------------------------------------------------ the accounts

/// One line of an item's account: a series the graphs draw, and what this
/// item put into or took out of it.
#[derive(Clone, Debug, PartialEq, Eq)]
pub struct Contribution {
    pub what: &'static str,
    pub amount: i32,
}

/// Everything one item did in one fight.
#[derive(Clone, Debug)]
pub struct ItemTally {
    /// Position in its owner's item list, which is how `Activate` names it.
    pub index: usize,
    pub name: String,
    pub activations: u32,
    pub misfires: u32,
    /// Total time this one item spent stopped.
    pub stunned_ms: u32,
    /// Non-zero lines only, in a fixed order so two tallies read the same way.
    pub contributed: Vec<Contribution>,
    /// Indices into `CombatLog::entries` that belong to this item, including
    /// its own activations.
    pub entries: Vec<usize>,
}

/// The lines an account is kept in, in the order it is read.
pub open spec fn spec_line_names() -> Seq<Seq<char>> {
    seq!["damage"@, "mind"@, "health"@, "armour"@, "mana"@, "rage"@, "faith"@, "nature"@, "gold"@]
}

/// The line a pool's events belong to.
pub open spec fn spec_pool_line(what: Seq<char>) -> int {
    if what == "rage"@ {
        5
    } else if what == "faith"@ {
        6
    } else {
        7
    }
}

/// The graph a pool's events belong to.
fn pool_line(what: &str) -> (r: usize)
    ensures
        r == spec_pool_line(what@),
{
    proof {
        reveal_strlit("rage");
        reveal_strlit("faith");
    }
    let w = String::from_str(what);
    if w == String::from_str("rage") {
        5
    } else if w == String::from_str("faith") {
        6
    } else {
        7
    }
}

/// Whether an entry is about the tallied fighter: always for the player,
/// and for a foe when it names that foe.
pub open spec fn spec_mine(e: LogEntry, side: Side, who: u8) -> bool {
    side == Side::Player || e.who == who
}

/// The side whose item, if one stands acting, an event belongs to: the
/// swinger for a blow, the side named for most things, and the other side
/// for a curse or a drain, which are named for whoever they landed on.
pub open spec fn spec_owning_side(e: Event) -> Option<Side> {
    match e {
        Event::Hit { by, .. } => Some(by),
        Event::MindHit { by, .. } => Some(by),
        Event::GainResource { side, .. } => Some(side),
        Event::Spent { side, .. } => Some(side),
        Event::Cast { side, .. } => Some(side),
        Event::Grew { side, .. } => Some(side),
        Event::GainArmor { side, .. } => Some(side),
        Event::GainMana { side, .. } => Some(side),
        Event::ManaCheck { side, .. } => Some(side),
        Event::ResourceCheck { side, .. } => Some(side),
        Event::Burn { side, .. } => Some(side),
        Event::Regen { side, .. } => Some(side),
        Event::Hastened { side, .. } => Some(side),
        Event::Shunted { side, .. } => Some(side),
        Event::Derailed { side, .. } => Some(side),
        Event::Reflected { side, .. } => Some(side),
        Event::Fused { side, .. } => Some(side),
        Event::Empowered { side, .. } => Some(side),
        Event::Shielded { side, .. } => Some(side),
        Event::Whetted { side, .. } => Some(side),
        Event::Deflecting { side, .. } => Some(side),
        Event::Dreading { side, .. } => Some(side),
        Event::Forking { side, .. } => Some(side),
        Event::Warded { side, .. } => Some(side),
        Event::Fell { side } => Some(side),
        Event::Cursed { on, .. } => Some(on.spec_other()),
        Event::Drained { on, .. } => Some(on.spec_other()),
        _ => None,
    }
}

/// Whether an event, if an item stands acting, belongs to this side.
pub open spec fn spec_ours(e: Event, side: Side) -> bool {
    spec_owning_side(e) == Some(side)
}

/// What an event adds to its item's account: a line and an amount.
pub open spec fn spec_booked(e: Event) -> Option<(int, int)> {
    match e {
        Event::Hit { damage, .. } => Some((0, damage as int)),
        Event::MindHit { amount, .. } => Some((1, amount as int)),
        Event::Reflected { damage, .. } => Some((0, damage as int)),
        Event::Burn { damage, .. } => Some((0, damage as int)),
        Event::GainArmor { amount, .. } => Some((3, amount as int)),
        Event::GainMana { amount, .. } => Some((4, amount as int)),
        Event::ManaCheck { cost, paid, .. } => if paid {
            Some((4, -cost))
        } else {
            None
        },
        Event::Cast { paid, cost, .. } => if paid {
            Some((4, -cost))
        } else {
            None
        },
        Event::Regen { amount, .. } => Some((2, amount as int)),
        Event::Grew { amount, .. } => Some((2, amount as int)),
        Event::GainResource { what, amount, .. } => Some((spec_pool_line(what@), amount as int)),
        Event::ResourceCheck { what, cost, paid, .. } => if paid {
            Some((spec_pool_line(what@), -cost))
        } else {
            None
        },
        Event::Spent { amount, .. } => Some((8, amount as int)),
        _ => None,
    }
}

/// The first item among `names` called `name`.
pub open spec fn spec_first_named(names: Seq<Seq<char>>, name: Seq<char>, n: int) -> Option<int>
    decreases n,
{
    if n <= 0 {
        None
    } else {
        match spec_first_named(names, name, n - 1) {
            Some(i) => Some(i),
            None => if names[n - 1] == name {
                Some(n - 1)
            } else {
                None
            },
        }
    }
}

/// The accounts after some entries of a transcript.
pub struct TallyState {
    /// The item whose activation the following effects belong to.
    pub acting: Option<int>,
    pub activations: Seq<int>,
    pub misfires: Seq<int>,
    pub stunned: Seq<int>,
    /// `(item, entry)` for every entry an item owns, in log order.
    pub owned: Seq<(int, int)>,
    /// Each item's running total in each line.
    pub sums: Seq<Seq<int>>,
}

/// Nothing attributed yet, for `n` items.
pub open spec fn spec_tally_start(n: int) -> TallyState {
    TallyState {
        acting: None,
        activations: Seq::new(n as nat, |i: int| 0),
        misfires: Seq::new(n as nat, |i: int| 0),
        stunned: Seq::new(n as nat, |i: int| 0),
        owned: Seq::empty(),
        sums: Seq::new(n as nat, |i: int| Seq::new(9, |j: int| 0)),
    }
}

/// The attribution rule, one entry at a time. An activation of this side's
/// opens that item's account and closes the last; a misfire and a stun name
/// their own item; the clock and the ending belong to nobody; anything else
/// of this side's belongs to the item that last activated.
pub open spec fn spec_tally_step(names: Seq<Seq<char>>, st: TallyState, i: int, e: LogEntry, side: Side, who: u8) -> TallyState {
    let n = names.len() as int;
    let mine = spec_mine(e, side, who);
    match e.event {
        Event::Activate { side: s, index, .. } if s == side && mine => {
            if index < n {
                TallyState {
                    acting: Some(index as int),
                    activations: st.activations.update(index as int, st.activations[index as int] + 1),
                    owned: st.owned.push((index as int, i)),
                    ..st
                }
            } else {
                TallyState { acting: None, ..st }
            }
        },
        Event::Misfired { side: s, item } if s == side && mine => {
            match spec_first_named(names, item@, n) {
                Some(a) => TallyState {
                    misfires: st.misfires.update(a, st.misfires[a] + 1),
                    owned: st.owned.push((a, i)),
                    ..st
                },
                None => st,
            }
        },
        Event::Stunned { on, index, duration_ms, .. } if on == side && mine => {
            if index < n {
                TallyState {
                    stunned: st.stunned.update(index as int, st.stunned[index as int] + duration_ms),
                    owned: st.owned.push((index as int, i)),
                    ..st
                }
            } else {
                st
            }
        },
        Event::SuddenDeath { .. } => TallyState { acting: None, ..st },
        Event::End { .. } => TallyState { acting: None, ..st },
        _ => {
            if spec_ours(e.event, side) && mine && st.acting is Some {
                let a = st.acting->0;
                let owned = st.owned.push((a, i));
                match spec_booked(e.event) {
                    Some((line, amount)) => TallyState {
                        owned,
                        sums: st.sums.update(a, st.sums[a].update(line, st.sums[a][line] + amount)),
                        ..st
                    },
                    None => TallyState { owned, ..st },
                }
            } else {
                st
            }
        },
    }
}

/// The accounts after the first `k` entries.
pub open spec fn spec_tally(names: Seq<Seq<char>>, entries: Seq<LogEntry>, side: Side, who: u8, k: int) -> TallyState
    decreases k,
{
    if k <= 0 {
        spec_tally_start(names.len() as int)
    } else {
        spec_tally_step(names, spec_tally(names, entries, side, who, k - 1), k - 1, entries[k - 1], side, who)
    }
}

/// The entries item `t` owns, among the first `n` of `owned`.
pub open spec fn spec_owned_by(owned: Seq<(int, int)>, t: int, n: int) -> Seq<int>
    decreases n,
{
    if n <= 0 {
        Seq::empty()
    } else if owned[n - 1].0 == t {
        spec_owned_by(owned, t, n - 1).push(owned[n - 1].1)
    } else {
        spec_owned_by(owned, t, n - 1)
    }
}

/// The non-zero lines among the first `n`, in line order.
pub open spec fn spec_lines(sums: Seq<int>, n: int) -> Seq<(Seq<char>, int)>
    decreases n,
{
    if n <= 0 {
        Seq::empty()
    } else if sums[n - 1] != 0 {
        spec_lines(sums, n - 1).push((spec_line_names()[n - 1], sums[n - 1]))
    } else {
        spec_lines(sums, n - 1)
    }
}

/// What one item's tally says, against the accounts it was drawn from.
pub open spec fn spec_tally_says(t: ItemTally, index: int, name: Seq<char>, st: TallyState) -> bool {
    &&& t.index == index
    &&& t.name@ == name
    &&& t.activations == st.activations[index]
    &&& t.misfires == st.misfires[index]
    &&& t.stunned_ms == st.stunned[index]
    &&& t.entries@.len() == spec_owned_by(st.owned, index, st.owned.len() as int).len()
    &&& forall|k: int| 0 <= k < t.entries@.len() ==> t.entries@[k] as int == #[trigger] spec_owned_by(st.owned, index, st.owned.len() as int)[k]
    &&& t.contributed@.len() == spec_lines(st.sums[index], 9).len()
    &&& forall|k: int| 0 <= k < t.contributed@.len() ==> (#[trigger] t.contributed@[k]).what@ == spec_lines(st.sums[index], 9)[k].0
        && t.contributed@[k].amount == spec_lines(st.sums[index], 9)[k].1
}

/// The names of a fighter's items, in list order.
pub open spec fn spec_item_names(c: Combatant) -> Seq<Seq<char>> {
    c.items@.map_values(|it: RunningItem| it.name@)
}

/// The fighter a tally is of: the player, or the `who`th foe.
pub open spec fn spec_owner(log: CombatLog, side: Side, who: u8) -> Option<Combatant> {
    match side {
        Side::Player => Some(log.player),
        Side::Enemy => if (who as int) < log.enemies@.len() {
            Some(log.enemies@[who as int])
        } else {
            None
        },
    }
}


/// The side whose item, if one stands acting, an event belongs to.
fn owning_side(e: &Event) -> (r: Option<Side>)
    ensures
        r == spec_owning_side(*e),
{
    match e {
        Event::Hit { by, .. } => Some(*by),
        Event::MindHit { by, .. } => Some(*by),
        Event::GainResource { side, .. } => Some(*side),
        Event::Spent { side, .. } => Some(*side),
        Event::Cast { side, .. } => Some(*side),
        Event::Grew { side, .. } => Some(*side),
        Event::GainArmor { side, .. } => Some(*side),
        Event::GainMana { side, .. } => Some(*side),
        Event::ManaCheck { side, .. } => Some(*side),
        Event::ResourceCheck { side, .. } => Some(*side),
        Event::Burn { side, .. } => Some(*side),
        Event::Regen { side, .. } => Some(*side),
        Event::Hastened { side, .. } => Some(*side),
        Event::Shunted { side, .. } => Some(*side),
        Event::Derailed { side, .. } => Some(*side),
        Event::Reflected { side, .. } => Some(*side),
        Event::Fused { side, .. } => Some(*side),
        Event::Empowered { side, .. } => Some(*side),
        Event::Shielded { side, .. } => Some(*side),
        Event::Whetted { side, .. } => Some(*side),
        Event::Deflecting { side, .. } => Some(*side),
        Event::Dreading { side, .. } => Some(*side),
        Event::Forking { side, .. } => Some(*side),
        Event::Warded { side, .. } => Some(*side),
        Event::Fell { side } => Some(*side),
        Event::Cursed { on, .. } => Some(on.other()),
        Event::Drained { on, .. } => Some(on.other()),
        _ => None,
    }
}

/// What an event adds to its item's account.
fn booked(e: &Event) -> (r: Option<(usize, i64)>)
    ensures
        match r {
            Some((line, amount)) => spec_booked(*e) == Some((line as int, amount as int)) && line < 9,
            None => spec_booked(*e) is None,
        },
{
    match e {
        Event::Hit { damage, .. } => Some((0, *damage as i64)),
        Event::MindHit { amount, .. } => Some((1, *amount as i64)),
        Event::Reflected { damage, .. } => Some((0, *damage as i64)),
        Event::Burn { damage, .. } => Some((0, *damage as i64)),
        Event::GainArmor { amount, .. } => Some((3, *amount as i64)),
        Event::GainMana { amount, .. } => Some((4, *amount as i64)),
        Event::ManaCheck { cost, paid, .. } => if *paid {
            Some((4, -(*cost as i64)))
        } else {
            None
        },
        Event::Cast { paid, cost, .. } => if *paid {
            Some((4, -(*cost as i64)))
        } else {
            None
        },
        Event::Regen { amount, .. } => Some((2, *amount as i64)),
        Event::Grew { amount, .. } => Some((2, *amount as i64)),
        Event::GainResource { what, amount, .. } => Some((pool_line(what), *amount as i64)),
        Event::ResourceCheck { what, cost, paid, .. } => if *paid {
            Some((pool_line(what), -(*cost as i64)))
        } else {
            None
        },
        Event::Spent { amount, .. } => Some((8, *amount as i64)),
        _ => None,
    }
}

/// The first item called `name`.
fn first_named(items: &Vec<RunningItem>, name: &String) -> (r: Option<usize>)
    ensures
        match r {
            Some(a) => spec_first_named(items@.map_values(|it: RunningItem| it.name@), name@, items@.len() as int) == Some(a as int),
            None => spec_first_named(items@.map_values(|it: RunningItem| it.name@), name@, items@.len() as int) is None,
        },
{
    let ghost names = items@.map_values(|it: RunningItem| it.name@);
    let mut i: usize = 0;
    while i < items.len()
        invariant
            0 <= i <= items.len(),
            names == items@.map_values(|it: RunningItem| it.name@),
            spec_first_named(names, name@, i as int) is None,
        decreases items.len() - i,
    {
        if items[i].name == *name {
            proof {
                assert(names[i as int] == name@);
                lemma_first_named_stays(names, name@, i as int + 1, items@.len() as int);
            }
            return Some(i);
        }
        i = i + 1;
    }
    None
}

proof fn lemma_first_named_stays(names: Seq<Seq<char>>, name: Seq<char>, i: int, n: int)
    requires
        0 <= i <= n,
        spec_first_named(names, name, i) is Some,
    ensures
        spec_first_named(names, name, n) == spec_first_named(names, name, i),
    decreases n - i,
{
    if i < n {
        lemma_first_named_stays(names, name, i + 1, n);
    }
}

proof fn lemma_first_named_bounds(names: Seq<Seq<char>>, name: Seq<char>, n: int)
    ensures
        spec_first_named(names, name, n) matches Some(a) ==> 0 <= a < n,
    decreases n,
{
    if n > 0 {
        lemma_first_named_bounds(names, name, n - 1);
    }
}


impl ItemTally {
    /// One line's worth, or zero if this item never touched it.
    pub fn of(&self, what: &str) -> (r: i32)
        ensures
            r == (match spec_find_line(self.contributed@, what@, self.contributed@.len() as int) {
                Some(k) => self.contributed@[k].amount,
                None => 0,
            }),
    {
        let w = String::from_str(what);
        let mut k: usize = 0;
        while k < self.contributed.len()
            invariant
                0 <= k <= self.contributed.len(),
                w@ == what@,
                spec_find_line(self.contributed@, what@, k as int) is None,
            decreases self.contributed.len() - k,
        {
            if String::from_str(self.contributed[k].what) == w {
                proof {
                    lemma_find_line_stays(self.contributed@, what@, k as int + 1, self.contributed@.len() as int);
                }
                return self.contributed[k].amount;
            }
            k = k + 1;
        }
        0
    }
}

/// The first line among the first `n` called `what`.
pub open spec fn spec_find_line(lines: Seq<Contribution>, what: Seq<char>, n: int) -> Option<int>
    decreases n,
{
    if n <= 0 {
        None
    } else {
        match spec_find_line(lines, what, n - 1) {
            Some(k) => Some(k),
            None => if lines[n - 1].what@ == what {
                Some(n - 1)
            } else {
                None
            },
        }
    }
}

proof fn lemma_find_line_stays(lines: Seq<Contribution>, what: Seq<char>, i: int, n: int)
    requires
        0 <= i <= n,
        spec_find_line(lines, what, i) is Some,
    ensures
        spec_find_line(lines, what, n) == spec_find_line(lines, what, i),
    decreases n - i,
{
    if i < n {
        lemma_find_line_stays(lines, what, i + 1, n);
    }
}

/// A stun total never shrinks as the log goes on, nor does an activation or
/// misfire count, and every running total stays within what the entries so
/// far could have added.
proof fn lemma_tally_grows(names: Seq<Seq<char>>, entries: Seq<LogEntry>, side: Side, who: u8, k: int, m: int)
    requires
        0 <= k <= m,
        m <= entries.len(),
    ensures
        spec_tally(names, entries, side, who, k).stunned.len() == names.len(),
        spec_tally(names, entries, side, who, m).stunned.len() == names.len(),
        forall|t: int| 0 <= t < names.len() ==> #[trigger] spec_tally(names, entries, side, who, k).stunned[t]
            <= spec_tally(names, entries, side, who, m).stunned[t],
    decreases m - k,
{
    lemma_tally_shape(names, entries, side, who, k);
    lemma_tally_shape(names, entries, side, who, m);
    if k < m {
        lemma_tally_grows(names, entries, side, who, k, m - 1);
        lemma_tally_shape(names, entries, side, who, m - 1);
    }
}

/// The accounts keep one slot per item, nine lines each; counts never go
/// negative and stay below the number of entries read.
proof fn lemma_tally_shape(names: Seq<Seq<char>>, entries: Seq<LogEntry>, side: Side, who: u8, k: int)
    requires
        0 <= k,
    ensures
        ({
            let st = spec_tally(names, entries, side, who, k);
            &&& st.activations.len() == names.len()
            &&& st.misfires.len() == names.len()
            &&& st.stunned.len() == names.len()
            &&& st.sums.len() == names.len()
            &&& forall|t: int| 0 <= t < names.len() ==> (#[trigger] st.sums[t]).len() == 9
            &&& forall|t: int| 0 <= t < names.len() ==> 0 <= #[trigger] st.activations[t] <= k
            &&& forall|t: int| 0 <= t < names.len() ==> 0 <= #[trigger] st.misfires[t] <= k
            &&& forall|t: int| 0 <= t < names.len() ==> 0 <= #[trigger] st.stunned[t]
            &&& forall|t: int, l: int| 0 <= t < names.len() && 0 <= l < 9 ==> -(k * 2147483648) <= #[trigger] st.sums[t][l] <= k * 2147483648
            &&& st.acting matches Some(a) ==> 0 <= a < names.len()
            &&& st.owned.len() <= k
            &&& forall|j: int| 0 <= j < st.owned.len() ==> 0 <= (#[trigger] st.owned[j]).0 < names.len() && 0 <= st.owned[j].1 < k
        }),
    decreases k,
{
    if k > 0 {
        lemma_tally_shape(names, entries, side, who, k - 1);
        let prev = spec_tally(names, entries, side, who, k - 1);
        let e = entries[k - 1];
        match e.event {
            Event::Misfired { item, .. } => {
                lemma_first_named_bounds(names, item@, names.len() as int);
            },
            _ => {},
        }
        assert(forall|t: int, l: int| 0 <= t < names.len() && 0 <= l < 9 ==> -((k - 1) * 2147483648) <= #[trigger] prev.sums[t][l] <= (k - 1) * 2147483648);
    }
}


/// The line names, in the order an account is read.
fn line_name(l: usize) -> (r: &'static str)
    requires
        l < 9,
    ensures
        r@ == spec_line_names()[l as int],
{
    proof {
        reveal_strlit("damage");
        reveal_strlit("mind");
        reveal_strlit("health");
        reveal_strlit("armour");
        reveal_strlit("mana");
        reveal_strlit("rage");
        reveal_strlit("faith");
        reveal_strlit("nature");
        reveal_strlit("gold");
    }
    if l == 0 {
        "damage"
    } else if l == 1 {
        "mind"
    } else if l == 2 {
        "health"
    } else if l == 3 {
        "armour"
    } else if l == 4 {
        "mana"
    } else if l == 5 {
        "rage"
    } else if l == 6 {
        "faith"
    } else if l == 7 {
        "nature"
    } else {
        "gold"
    }
}

/// Whether every total in the accounts fits the field that reports it.
pub open spec fn spec_tally_fits(st: TallyState, n: int) -> bool {
    &&& forall|t: int| 0 <= t < n ==> #[trigger] st.stunned[t] <= u32::MAX
    &&& forall|t: int, l: int| 0 <= t < n && 0 <= l < 9 ==> i32::MIN <= #[trigger] st.sums[t][l] <= i32::MAX
}

/// The account for every item on one side of one fight. `who` selects the
/// foe in a party fight and is ignored for the player; a `who` with no foe
/// behind it gives no accounts.
#[verifier::spinoff_prover]
pub fn tally_items(log: &CombatLog, side: Side, who: u8) -> (r: Vec<ItemTally>)
    requires
        log.entries@.len() <= u32::MAX,
        spec_owner(*log, side, who) matches Some(c) ==> spec_tally_fits(
            spec_tally(spec_item_names(c), log.entries@, side, who, log.entries@.len() as int),
            c.items@.len() as int,
        ),
    ensures
        match spec_owner(*log, side, who) {
            None => r@.len() == 0,
            Some(c) => {
                &&& r@.len() == c.items@.len()
                &&& forall|t: int| 0 <= t < r@.len() ==> spec_tally_says(
                    #[trigger] r@[t],
                    t,
                    spec_item_names(c)[t],
                    spec_tally(spec_item_names(c), log.entries@, side, who, log.entries@.len() as int),
                )
            },
        },
{
    let owner: &Combatant = match side {
        Side::Player => &log.player,
        Side::Enemy => {
            if (who as usize) < log.enemies.len() {
                &log.enemies[who as usize]
            } else {
                return Vec::new();
            }
        },
    };
    let ghost names = spec_item_names(*owner);
    let ghost entries = log.entries@;
    let ghost total = entries.len() as int;
    let n = owner.items.len();
    let mut acting: Option<usize> = None;
    let mut act: Vec<u32> = Vec::new();
    let mut mis: Vec<u32> = Vec::new();
    let mut stun: Vec<u32> = Vec::new();
    let mut books: Vec<[i64; 9]> = Vec::new();
    let mut t: usize = 0;
    while t < n
        invariant
            0 <= t <= n,
            n == owner.items@.len(),
            act@.len() == t && mis@.len() == t && stun@.len() == t && books@.len() == t,
            forall|j: int| 0 <= j < t ==> #[trigger] act@[j] == 0,
            forall|j: int| 0 <= j < t ==> #[trigger] mis@[j] == 0,
            forall|j: int| 0 <= j < t ==> #[trigger] stun@[j] == 0,
            forall|j: int, l: int| 0 <= j < t && 0 <= l < 9 ==> #[trigger] books@[j]@[l] == 0,
        decreases n - t,
    {
        act.push(0);
        mis.push(0);
        stun.push(0);
        books.push([0i64, 0, 0, 0, 0, 0, 0, 0, 0]);
        t = t + 1;
    }
    let mut owned: Vec<(usize, usize)> = Vec::new();
    proof {
        lemma_tally_shape(names, entries, side, who, 0);
        assert(names.len() == n);
        let st0 = spec_tally(names, entries, side, who, 0);
        assert(st0 == spec_tally_start(n as int));
        assert(st0.acting is None);
        assert forall|j: int| 0 <= j < n implies #[trigger] act@[j] as int == st0.activations[j] by {}
        assert forall|j: int| 0 <= j < n implies #[trigger] mis@[j] as int == st0.misfires[j] by {}
        assert forall|j: int| 0 <= j < n implies #[trigger] stun@[j] as int == st0.stunned[j] by {}
        assert forall|j: int, l: int| 0 <= j < n && 0 <= l < 9 implies #[trigger] books@[j]@[l] as int == st0.sums[j][l] by {
            assert(books@[j]@[l] == 0);
        }
        assert(st0.owned.len() == 0);
    }
    let mut i: usize = 0;
    while i < log.entries.len()
        invariant
            0 <= i <= log.entries.len(),
            entries == log.entries@,
            total == entries.len(),
            total <= u32::MAX,
            names == spec_item_names(*owner),
            n == owner.items@.len(),
            names.len() == n,
            spec_tally_fits(spec_tally(names, entries, side, who, total), n as int),
            act@.len() == n && mis@.len() == n && stun@.len() == n && books@.len() == n,
            ({
                let st = spec_tally(names, entries, side, who, i as int);
                &&& (match acting {
                    Some(a) => st.acting == Some(a as int),
                    None => st.acting is None,
                })
                &&& forall|j: int| 0 <= j < n ==> #[trigger] act@[j] as int == st.activations[j]
                &&& forall|j: int| 0 <= j < n ==> #[trigger] mis@[j] as int == st.misfires[j]
                &&& forall|j: int| 0 <= j < n ==> #[trigger] stun@[j] as int == st.stunned[j]
                &&& forall|j: int, l: int| 0 <= j < n && 0 <= l < 9 ==> #[trigger] books@[j]@[l] as int == st.sums[j][l]
                &&& owned@.len() == st.owned.len()
                &&& forall|j: int| 0 <= j < owned@.len() ==> (#[trigger] owned@[j]).0 as int == st.owned[j].0 && owned@[j].1 as int == st.owned[j].1
            }),
        decreases log.entries.len() - i,
    {
        proof {
            lemma_tally_shape(names, entries, side, who, i as int);
            lemma_tally_shape(names, entries, side, who, i as int + 1);
            lemma_tally_grows(names, entries, side, who, i as int + 1, total);
        }
        let e = &log.entries[i];
        let mine = side == Side::Player || e.who == who;
        let ghost st = spec_tally(names, entries, side, who, i as int);
        let ghost nx = spec_tally(names, entries, side, who, i as int + 1);
        match &e.event {
            Event::Activate { side: s, index, .. } if *s == side && mine => {
                if *index < n {
                    acting = Some(*index);
                    let a = *index;
                    act.set(a, act[a] + 1);
                    owned.push((a, i));
                } else {
                    acting = None;
                }
            },
            Event::Misfired { side: s, item } if *s == side && mine => {
                match first_named(&owner.items, item) {
                    Some(a) => {
                        proof {
                            lemma_first_named_bounds(names, item@, n as int);
                            assert(owner.items@.map_values(|it: RunningItem| it.name@) == names);
                        }
                        mis.set(a, mis[a] + 1);
                        owned.push((a, i));
                    },
                    None => {
                        proof {
                            assert(owner.items@.map_values(|it: RunningItem| it.name@) == names);
                        }
                    },
                }
            },
            Event::Stunned { on, index, duration_ms, .. } if *on == side && mine => {
                if *index < n {
                    let a = *index;
                    proof {
                        assert(nx.stunned[a as int] <= u32::MAX);
                    }
                    stun.set(a, stun[a] + *duration_ms);
                    owned.push((a, i));
                }
            },
            Event::SuddenDeath { .. } => {
                acting = None;
            },
            Event::End { .. } => {
                acting = None;
            },
            _ => {
                let belongs = match owning_side(&e.event) {
                    Some(s) => s == side,
                    None => false,
                };
                if belongs && mine {
                    match acting {
                        Some(a) => {
                            owned.push((a, i));
                            match booked(&e.event) {
                                Some((line, amount)) => {
                                    let mut row = books[a];
                                    let v = row[line];
                                    proof {
                                        assert(-((i + 1) * 2147483648) <= nx.sums[a as int][line as int] <= (i + 1) * 2147483648);
                                    }
                                    row.set(line, v + amount);
                                    books.set(a, row);
                                },
                                None => {},
                            }
                        },
                        None => {},
                    }
                }
            },
        }
        proof {
            assert(nx == spec_tally_step(names, st, i as int, entries[i as int], side, who));
        }
        i = i + 1;
    }
    let ghost fin = spec_tally(names, entries, side, who, total);
    let mut out: Vec<ItemTally> = Vec::new();
    let mut t: usize = 0;
    while t < n
        invariant
            0 <= t <= n,
            i == log.entries@.len(),
            n == owner.items@.len(),
            names == spec_item_names(*owner),
            names.len() == n,
            fin == spec_tally(names, entries, side, who, total),
            spec_tally_fits(fin, n as int),
            act@.len() == n && mis@.len() == n && stun@.len() == n && books@.len() == n,
            forall|j: int| 0 <= j < n ==> #[trigger] act@[j] as int == fin.activations[j],
            forall|j: int| 0 <= j < n ==> #[trigger] mis@[j] as int == fin.misfires[j],
            forall|j: int| 0 <= j < n ==> #[trigger] stun@[j] as int == fin.stunned[j],
            forall|j: int, l: int| 0 <= j < n && 0 <= l < 9 ==> #[trigger] books@[j]@[l] as int == fin.sums[j][l],
            owned@.len() == fin.owned.len(),
            forall|j: int| 0 <= j < owned@.len() ==> (#[trigger] owned@[j]).0 as int == fin.owned[j].0 && owned@[j].1 as int == fin.owned[j].1,
            out@.len() == t,
            forall|j: int| 0 <= j < t ==> spec_tally_says(#[trigger] out@[j], j, names[j], fin),
        decreases n - t,
    {
        let mut mine: Vec<usize> = Vec::new();
        let mut k: usize = 0;
        while k < owned.len()
            invariant
                0 <= k <= owned.len(),
                owned@.len() == fin.owned.len(),
                forall|j: int| 0 <= j < owned@.len() ==> (#[trigger] owned@[j]).0 as int == fin.owned[j].0 && owned@[j].1 as int == fin.owned[j].1,
                mine@.len() == spec_owned_by(fin.owned, t as int, k as int).len(),
                forall|j: int| 0 <= j < mine@.len() ==> mine@[j] as int == #[trigger] spec_owned_by(fin.owned, t as int, k as int)[j],
            decreases owned.len() - k,
        {
            if owned[k].0 == t {
                mine.push(owned[k].1);
            }
            k = k + 1;
        }
        let row = books[t];
        let mut lines: Vec<Contribution> = Vec::new();
        let mut l: usize = 0;
        while l < 9
            invariant
                0 <= l <= 9,
                t < n,
                names.len() == n,
                spec_tally_fits(fin, n as int),
                forall|x: int| 0 <= x < 9 ==> #[trigger] row@[x] as int == fin.sums[t as int][x],
                lines@.len() == spec_lines(fin.sums[t as int], l as int).len(),
                forall|j: int| 0 <= j < lines@.len() ==> (#[trigger] lines@[j]).what@ == spec_lines(fin.sums[t as int], l as int)[j].0
                    && lines@[j].amount == spec_lines(fin.sums[t as int], l as int)[j].1,
            decreases 9 - l,
        {
            if row[l] != 0 {
                proof {
                    assert(i32::MIN <= fin.sums[t as int][l as int] <= i32::MAX);
                }
                lines.push(Contribution { what: line_name(l), amount: row[l] as i32 });
            }
            l = l + 1;
        }
        let tally = ItemTally {
            index: t,
            name: owner.items[t].name.clone(),
            activations: act[t],
            misfires: mis[t],
            stunned_ms: stun[t],
            contributed: lines,
            entries: mine,
        };
        out.push(tally);
        t = t + 1;
    }
    out
}


/// The clock and the ending belong to nobody, and what an item owns it owns
/// in log order: no sudden-death or end entry is ever in an account, and
/// every owned entry comes after the ones owned before it.
pub proof fn the_clock_and_the_ending_belong_to_nobody(names: Seq<Seq<char>>, entries: Seq<LogEntry>, side: Side, who: u8, k: int)
    requires
        0 <= k <= entries.len(),
    ensures
        forall|j: int| 0 <= j < spec_tally(names, entries, side, who, k).owned.len() ==> {
            let e = entries[(#[trigger] spec_tally(names, entries, side, who, k).owned[j]).1];
            &&& 0 <= spec_tally(names, entries, side, who, k).owned[j].1 < k
            &&& !(e.event is SuddenDeath)
            &&& !(e.event is End)
        },
        forall|a: int, b: int| 0 <= a < b < spec_tally(names, entries, side, who, k).owned.len() ==> (#[trigger] spec_tally(names, entries, side, who, k).owned[a]).1
            < (#[trigger] spec_tally(names, entries, side, who, k).owned[b]).1,
    decreases k,
{
    if k > 0 {
        the_clock_and_the_ending_belong_to_nobody(names, entries, side, who, k - 1);
        lemma_tally_shape(names, entries, side, who, k - 1);
        let prev = spec_tally(names, entries, side, who, k - 1);
        let cur = spec_tally(names, entries, side, who, k);
        assert(cur.owned == prev.owned || cur.owned == prev.owned.push((cur.owned.last().0, k - 1)));
        if cur.owned != prev.owned {
            assert(!(entries[k - 1].event is SuddenDeath) && !(entries[k - 1].event is End));
        }
    }
}


/// How many of the first `k` entries activate item `t` of this side.
pub open spec fn spec_own_activations(entries: Seq<LogEntry>, side: Side, who: u8, t: int, k: int) -> int
    decreases k,
{
    if k <= 0 {
        0
    } else {
        spec_own_activations(entries, side, who, t, k - 1) + match entries[k - 1].event {
            Event::Activate { side: s, index, .. } => if s == side && spec_mine(entries[k - 1], side, who) && index as int == t {
                1int
            } else {
                0int
            },
            _ => 0int,
        }
    }
}

/// The total time the first `k` entries stop item `t` of this side for.
pub open spec fn spec_own_stuns(entries: Seq<LogEntry>, side: Side, who: u8, t: int, k: int) -> int
    decreases k,
{
    if k <= 0 {
        0
    } else {
        spec_own_stuns(entries, side, who, t, k - 1) + match entries[k - 1].event {
            Event::Stunned { on, index, duration_ms, .. } => if on == side && spec_mine(entries[k - 1], side, who) && index as int == t {
                duration_ms as int
            } else {
                0int
            },
            _ => 0int,
        }
    }
}

/// An item is credited with exactly its own activations - those of its
/// side that carry its index - and with exactly the stun time its side's
/// `Stunned` entries name it for.
pub proof fn an_item_is_credited_with_its_own_activations(names: Seq<Seq<char>>, entries: Seq<LogEntry>, side: Side, who: u8, k: int, t: int)
    requires
        0 <= k <= entries.len(),
        0 <= t < names.len(),
    ensures
        spec_tally(names, entries, side, who, k).activations[t] == spec_own_activations(entries, side, who, t, k),
        spec_tally(names, entries, side, who, k).stunned[t] == spec_own_stuns(entries, side, who, t, k),
    decreases k,
{
    lemma_tally_shape(names, entries, side, who, k);
    if k > 0 {
        an_item_is_credited_with_its_own_activations(names, entries, side, who, k - 1, t);
        lemma_tally_shape(names, entries, side, who, k - 1);
        let e = entries[k - 1];
        match e.event {
            Event::Misfired { item, .. } => {
                lemma_first_named_bounds(names, item@, names.len() as int);
            },
            _ => {},
        }
    }
}


/// The entries of `owned`'s first `n` that item `t` owns keep the order of
/// `owned`, so an item's entries rise whenever `owned`'s do.
proof fn lemma_owned_by_rises(owned: Seq<(int, int)>, t: int, n: int, k: int)
    requires
        0 <= n <= owned.len(),
        forall|a: int, b: int| 0 <= a < b < owned.len() ==> (#[trigger] owned[a]).1 < (#[trigger] owned[b]).1,
        forall|j: int| 0 <= j < owned.len() ==> 0 <= (#[trigger] owned[j]).1 < k,
    ensures
        forall|a: int, b: int| 0 <= a < b < spec_owned_by(owned, t, n).len() ==> (#[trigger] spec_owned_by(owned, t, n)[a])
            < (#[trigger] spec_owned_by(owned, t, n)[b]),
        forall|a: int| 0 <= a < spec_owned_by(owned, t, n).len() ==> 0 <= #[trigger] spec_owned_by(owned, t, n)[a] < k,
        forall|a: int| 0 <= a < spec_owned_by(owned, t, n).len() && n > 0 ==> #[trigger] spec_owned_by(owned, t, n)[a] <= owned[n - 1].1,
    decreases n,
{
    if n > 0 {
        lemma_owned_by_rises(owned, t, n - 1, k);
        let prev = spec_owned_by(owned, t, n - 1);
        let cur = spec_owned_by(owned, t, n);
        if n > 1 {
            assert forall|a: int| 0 <= a < prev.len() implies #[trigger] prev[a] < owned[n - 1].1 by {
                assert(prev[a] <= owned[n - 2].1);
                assert(owned[n - 2].1 < owned[n - 1].1);
            }
        } else {
            assert(prev.len() == 0);
        }
    }
}

/// What an item owns in its tally it owns in log order: its entries strictly
/// increase, and each is the index of an entry of the log.
pub proof fn an_items_entries_rise_through_the_log(names: Seq<Seq<char>>, entries: Seq<LogEntry>, side: Side, who: u8, t: int)
    ensures
        ({
            let st = spec_tally(names, entries, side, who, entries.len() as int);
            let mine = spec_owned_by(st.owned, t, st.owned.len() as int);
            &&& forall|a: int, b: int| 0 <= a < b < mine.len() ==> (#[trigger] mine[a]) < (#[trigger] mine[b])
            &&& forall|a: int| 0 <= a < mine.len() ==> 0 <= #[trigger] mine[a] < entries.len()
        }),
{
    let k = entries.len() as int;
    the_clock_and_the_ending_belong_to_nobody(names, entries, side, who, k);
    let st = spec_tally(names, entries, side, who, k);
    lemma_owned_by_rises(st.owned, t, st.owned.len() as int, k);
}

/// Which of the first `n` lines are not zero, in line order.
pub open spec fn spec_line_indices(sums: Seq<int>, n: int) -> Seq<int>
    decreases n,
{
    if n <= 0 {
        Seq::empty()
    } else if sums[n - 1] != 0 {
        spec_line_indices(sums, n - 1).push(n - 1)
    } else {
        spec_line_indices(sums, n - 1)
    }
}

/// A tally's lines are the non-zero ones, each once and in the order damage,
/// mind, health, armour, mana, rage, faith, nature, gold: the `k`th line is
/// named for and carries the sum of a line whose place strictly rises with
/// `k`, and no line it shows is zero.
pub proof fn a_tallys_lines_are_the_non_zero_ones_in_order(sums: Seq<int>, n: int)
    requires
        0 <= n <= 9,
        sums.len() == 9,
    ensures
        spec_lines(sums, n).len() == spec_line_indices(sums, n).len(),
        forall|k: int| 0 <= k < spec_lines(sums, n).len() ==> {
            let i = #[trigger] spec_line_indices(sums, n)[k];
            &&& 0 <= i < n
            &&& spec_lines(sums, n)[k].0 == spec_line_names()[i]
            &&& spec_lines(sums, n)[k].1 == sums[i]
            &&& sums[i] != 0
        },
        forall|a: int, b: int| 0 <= a < b < spec_line_indices(sums, n).len() ==> (#[trigger] spec_line_indices(sums, n)[a])
            < (#[trigger] spec_line_indices(sums, n)[b]),
        forall|i: int| 0 <= i < n && sums[i] != 0 ==> spec_line_indices(sums, n).contains(i),
    decreases n,
{
    if n > 0 {
        a_tallys_lines_are_the_non_zero_ones_in_order(sums, n - 1);
        let prev = spec_line_indices(sums, n - 1);
        let cur = spec_line_indices(sums, n);
        if sums[n - 1] != 0 {
            assert(cur == prev.push(n - 1));
            assert forall|i: int| 0 <= i < n && sums[i] != 0 implies cur.contains(i) by {
                if i == n - 1 {
                    assert(cur[cur.len() - 1] == i);
                } else {
                    let w = choose|w: int| 0 <= w < prev.len() && prev[w] == i;
                    assert(cur[w] == i);
                }
            }
        }
    }
}

/// The armour an item is credited with among the first `k` entries: every
/// `GainArmor` of the tallied side, about the tallied fighter, made while
/// that item stood acting.
pub open spec fn spec_armour_gained(names: Seq<Seq<char>>, entries: Seq<LogEntry>, side: Side, who: u8, t: int, k: int) -> int
    decreases k,
{
    if k <= 0 {
        0
    } else {
        let e = entries[k - 1];
        let add = match e.event {
            Event::GainArmor { side: s, amount, .. } => if s == side && spec_mine(e, side, who) && spec_tally(
                names,
                entries,
                side,
                who,
                k - 1,
            ).acting == Some(t) {
                amount as int
            } else {
                0
            },
            _ => 0,
        };
        spec_armour_gained(names, entries, side, who, t, k - 1) + add
    }
}

/// Gaining armour is booked to the armour line and nowhere else: the item
/// standing acting has exactly `amount` added to its "armour" line, and every
/// other line and every other item's account is left as it was.
pub proof fn gaining_armour_books_only_the_armour_line(
    names: Seq<Seq<char>>,
    st: TallyState,
    i: int,
    e: LogEntry,
    side: Side,
    who: u8,
    amount: i32,
    total: i32,
)
    requires
        e.event == (Event::GainArmor { side, amount, total }),
        spec_mine(e, side, who),
        st.acting matches Some(a) && 0 <= a < st.sums.len() && st.sums[a].len() == 9,
    ensures
        spec_line_names()[3] == "armour"@,
        ({
            let a = st.acting->0;
            let after = spec_tally_step(names, st, i, e, side, who);
            &&& after.sums.len() == st.sums.len()
            &&& after.sums[a].len() == 9
            &&& after.sums[a][3] == st.sums[a][3] + amount
            &&& forall|l: int| 0 <= l < 9 && l != 3 ==> #[trigger] after.sums[a][l] == st.sums[a][l]
            &&& forall|b: int| 0 <= b < st.sums.len() && b != a ==> #[trigger] after.sums[b] == st.sums[b]
        }),
{
}

/// An item's "armour" line is the sum of the armour it gained: after any
/// number of entries, it equals the total of the `GainArmor` amounts
/// attributed to that item, and nothing else adds to it.
pub proof fn an_items_armour_line_is_the_armour_it_gained(
    names: Seq<Seq<char>>,
    entries: Seq<LogEntry>,
    side: Side,
    who: u8,
    t: int,
    k: int,
)
    requires
        0 <= t < names.len(),
        0 <= k <= entries.len(),
    ensures
        spec_line_names()[3] == "armour"@,
        spec_tally(names, entries, side, who, k).sums[t][3] == spec_armour_gained(names, entries, side, who, t, k),
    decreases k,
{
    if k > 0 {
        an_items_armour_line_is_the_armour_it_gained(names, entries, side, who, t, k - 1);
        lemma_tally_shape(names, entries, side, who, k - 1);
        let prev = spec_tally(names, entries, side, who, k - 1);
        let e = entries[k - 1];
        match e.event {
            Event::Misfired { item, .. } => {
                lemma_first_named_bounds(names, item@, names.len() as int);
            },
            _ => {},
        }
        assert(prev.sums[t].len() == 9);
    }
}

/// Whether an event books `amount` to the line called `name`.
pub open spec fn spec_books_to(e: Event, name: Seq<char>, amount: int) -> bool {
    spec_booked(e) matches Some((l, a)) && 0 <= l < 9 && spec_line_names()[l] == name && a == amount
}

/// Each kind of event goes to the line named for what it moved: a blow, a
/// turned-back blow and a burn to "damage", a mind blow to "mind", healing
/// and growth to "health", armour to "armour", mana gained to "mana" and mana
/// paid out of it, gold spent to "gold", and a pool's gains and payments to
/// the pool's own line ("rage", "faith", or "nature" for any other). An
/// unpaid check and everything else books nothing.
pub proof fn each_event_books_to_the_line_named_for_it(e: Event)
    ensures
        e matches Event::Hit { damage, .. } ==> spec_books_to(e, "damage"@, damage as int),
        e matches Event::Reflected { damage, .. } ==> spec_books_to(e, "damage"@, damage as int),
        e matches Event::Burn { damage, .. } ==> spec_books_to(e, "damage"@, damage as int),
        e matches Event::MindHit { amount, .. } ==> spec_books_to(e, "mind"@, amount as int),
        e matches Event::Regen { amount, .. } ==> spec_books_to(e, "health"@, amount as int),
        e matches Event::Grew { amount, .. } ==> spec_books_to(e, "health"@, amount as int),
        e matches Event::GainArmor { amount, .. } ==> spec_books_to(e, "armour"@, amount as int),
        e matches Event::GainMana { amount, .. } ==> spec_books_to(e, "mana"@, amount as int),
        e matches Event::ManaCheck { cost, paid, .. } ==> (paid ==> spec_books_to(e, "mana"@, -cost)) && (!paid
            ==> spec_booked(e) is None),
        e matches Event::Cast { cost, paid, .. } ==> (paid ==> spec_books_to(e, "mana"@, -cost)) && (!paid
            ==> spec_booked(e) is None),
        e matches Event::Spent { amount, .. } ==> spec_books_to(e, "gold"@, amount as int),
        e matches Event::GainResource { what, amount, .. } ==> spec_books_to(
            e,
            if what@ == "rage"@ || what@ == "faith"@ { what@ } else { "nature"@ },
            amount as int,
        ),
        e matches Event::ResourceCheck { what, cost, paid, .. } ==> (paid ==> spec_books_to(
            e,
            if what@ == "rage"@ || what@ == "faith"@ { what@ } else { "nature"@ },
            -cost,
        )) && (!paid ==> spec_booked(e) is None),
        e is Activate || e is Stunned || e is Misfired || e is Cursed || e is Drained || e is Fell
            ==> spec_booked(e) is None,
{
}

/// The nine line names differ from one another.
pub proof fn the_line_names_are_distinct()
    ensures
        forall|a: int, b: int| 0 <= a < b < 9 ==> #[trigger] spec_line_names()[a] != #[trigger] spec_line_names()[b],
{
    reveal_strlit("damage");
    reveal_strlit("mind");
    reveal_strlit("health");
    reveal_strlit("armour");
    reveal_strlit("mana");
    reveal_strlit("rage");
    reveal_strlit("faith");
    reveal_strlit("nature");
    reveal_strlit("gold");
    let ns = spec_line_names();
    assert forall|a: int, b: int| 0 <= a < b < 9 implies #[trigger] ns[a] != #[trigger] ns[b] by {
        assert(ns[a].len() != ns[b].len() || ns[a][0] != ns[b][0] || ns[a][1] != ns[b][1]);
    }
}

} // verus!
