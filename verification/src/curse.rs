//! Curses: timed damage-over-time and debuffs, applied to either combatant.
//!
//! A curse is always applied *to* someone. Both magnitude and duration are
//! cut by the target's curse resistance, so resistance is worth stacking
//! against either.

use vstd::prelude::*;

use crate::stats::Stats;

verus! {

/// Milliseconds per simulation tick. Every duration in the game is a multiple
/// of this, which is what keeps fights exactly reproducible.
pub const TICK_MS: u32 = 50;

pub const SEARING_DPS: i32 = 10;
pub const SEARING_MS: u32 = 10_000;
pub const FROST_SLOW_PCT: i32 = 50;
pub const FROST_MS: u32 = 1_000;
pub const STUN_MS: u32 = 1_200;
pub const MISFIRE_MS: u32 = 6_000;
pub const MISFIRE_EVERY: u32 = 3;

/// Frost never stops the gear outright: at the cap an item still fires.
pub const FROST_SLOW_CAP_PCT: i32 = 75;
/// What stops a chain of stuns from taking an item out of the fight.
pub const STUN_CAP_MS: u32 = 3_600;
/// However many misfire stacks land, one activation in two is the worst.
pub const MISFIRE_FLOOR: u32 = 2;

#[derive(Copy, Clone, PartialEq, Eq, Hash, Debug, Structural)]
pub enum CurseKind {
    /// Burns for `SEARING_DPS` damage a second while it lasts.
    Searing,
    /// Slows every one of the target's items by `FROST_SLOW_PCT`.
    Frost,
    /// Stops **one** of the target's items dead; see `StunAim` in `combat`.
    Stun,
    /// Every `MISFIRE_EVERY`th activation of theirs does nothing at all.
    Misfire,
}

/// How much slower gear runs under `stacks` of frost: fifty a stack, capped.
pub open spec fn spec_frost_slow_pct(stacks: u32) -> int {
    if FROST_SLOW_PCT * stacks < FROST_SLOW_CAP_PCT {
        FROST_SLOW_PCT * stacks
    } else {
        FROST_SLOW_CAP_PCT as int
    }
}

/// One activation in how many a misfire eats under `stacks`; zero for none.
pub open spec fn spec_misfire_interval(stacks: u32) -> u32 {
    if stacks == 0 {
        0
    } else {
        let tightened: int = MISFIRE_EVERY - (stacks - 1);
        if tightened < MISFIRE_FLOOR {
            MISFIRE_FLOOR
        } else {
            tightened as u32
        }
    }
}

/// How much slower gear runs under `stacks` of frost.
pub fn frost_slow_pct(stacks: u32) -> (r: i32)
    ensures
        r == spec_frost_slow_pct(stacks),
{
    if stacks >= 2 {
        FROST_SLOW_CAP_PCT
    } else {
        FROST_SLOW_PCT * stacks as i32
    }
}

/// One activation in how many a misfire eats under `stacks`. Zero for none.
pub fn misfire_interval(stacks: u32) -> (r: u32)
    ensures
        r == spec_misfire_interval(stacks),
{
    if stacks == 0 {
        0
    } else {
        let tightened = MISFIRE_EVERY.saturating_sub(stacks - 1);
        if tightened < MISFIRE_FLOOR {
            MISFIRE_FLOOR
        } else {
            tightened
        }
    }
}

impl CurseKind {
    pub open spec fn spec_base_duration_ms(self) -> u32 {
        match self {
            CurseKind::Searing => SEARING_MS,
            CurseKind::Frost => FROST_MS,
            CurseKind::Stun => STUN_MS,
            CurseKind::Misfire => MISFIRE_MS,
        }
    }

    /// The duration on a target with `curse_resist`: the base cut by the
    /// resistance (clamped to 0..=100) and rounded down to whole ticks.
    pub open spec fn spec_landing_ms(self, curse_resist: i32) -> u32 {
        let resist: int = if curse_resist < 0 {
            0
        } else if curse_resist > 100 {
            100
        } else {
            curse_resist as int
        };
        let scaled: int = self.spec_base_duration_ms() * (100 - resist) / 100;
        (scaled / TICK_MS as int * TICK_MS as int) as u32
    }

    /// All four, so anything that has to cover the set can be checked.
    pub fn all() -> (r: [CurseKind; 4])
        ensures
            r@ == seq![CurseKind::Searing, CurseKind::Frost, CurseKind::Stun, CurseKind::Misfire],
    {
        [CurseKind::Searing, CurseKind::Frost, CurseKind::Stun, CurseKind::Misfire]
    }

    pub fn name(self) -> (r: &'static str)
        ensures
            r@ == (match self {
                CurseKind::Searing => "searing"@,
                CurseKind::Frost => "frost"@,
                CurseKind::Stun => "stun"@,
                CurseKind::Misfire => "misfire"@,
            }),
    {
        match self {
            CurseKind::Searing => "searing",
            CurseKind::Frost => "frost",
            CurseKind::Stun => "stun",
            CurseKind::Misfire => "misfire",
        }
    }

    /// Base duration before the target's resistance is applied.
    pub fn base_duration_ms(self) -> (r: u32)
        ensures
            r == self.spec_base_duration_ms(),
    {
        match self {
            CurseKind::Searing => SEARING_MS,
            CurseKind::Frost => FROST_MS,
            CurseKind::Stun => STUN_MS,
            CurseKind::Misfire => MISFIRE_MS,
        }
    }

    pub fn describe(self) -> (r: &'static str)
        ensures
            r@ == (match self {
                CurseKind::Searing => "10 damage a second for 10 seconds, per stack"@,
                CurseKind::Frost =>
                    "all of the target's gear runs 50% slower for 1 second, per stack, up to 75%"@,
                CurseKind::Stun =>
                    "one of their items stops dead for 1.2 seconds, then carries on from where it stood; stacks add up to 3.6 seconds on that item"@,
                CurseKind::Misfire =>
                    "one activation in three does nothing, for 6 seconds; two stacks or more makes it one in two"@,
            }),
    {
        match self {
            CurseKind::Searing => "10 damage a second for 10 seconds, per stack",
            CurseKind::Frost => {
                "all of the target's gear runs 50% slower for 1 second, per stack, up to 75%"
            },
            CurseKind::Stun => {
                "one of their items stops dead for 1.2 seconds, then carries on from where it stood; stacks add up to 3.6 seconds on that item"
            },
            CurseKind::Misfire => {
                "one activation in three does nothing, for 6 seconds; two stacks or more makes it one in two"
            },
        }
    }

    /// What `stacks` of this curse currently work out to: "30/s", "-75%",
    /// "stopped", "1 in 2". Zero stacks reads as one.
    pub fn effect_at(self, stacks: u32) -> (r: String)
        requires
            self == CurseKind::Searing ==> i32::MIN <= SEARING_DPS * ((if stacks == 0 { 1 } else { stacks }) as i32) <= i32::MAX,
        ensures
            r@ == (match self {
                CurseKind::Searing => crate::text::spec_int_text(
                    SEARING_DPS * ((if stacks == 0 { 1 } else { stacks }) as i32),
                ) + "/s"@,
                CurseKind::Frost => "-"@ + crate::text::spec_int_text(
                    spec_frost_slow_pct(if stacks == 0 { 1 } else { stacks }),
                ) + "%"@,
                CurseKind::Stun => "stopped"@,
                CurseKind::Misfire => "1 in "@ + crate::text::spec_int_text(
                    spec_misfire_interval(if stacks == 0 { 1 } else { stacks }) as int,
                ),
            }),
    {
        let n = if stacks == 0 { 1 } else { stacks };
        match self {
            CurseKind::Searing => {
                let mut s = crate::text::int_text((SEARING_DPS * n as i32) as i64);
                s.append("/s");
                s
            },
            CurseKind::Frost => {
                let mut s = String::from_str("-");
                let v = crate::text::int_text(frost_slow_pct(n) as i64);
                s.append(v.as_str());
                s.append("%");
                s
            },
            CurseKind::Stun => String::from_str("stopped"),
            CurseKind::Misfire => {
                let mut s = String::from_str("1 in ");
                let v = crate::text::int_text(misfire_interval(n) as i64);
                s.append(v.as_str());
                s
            },
        }
    }

    /// How long this curse lands for on a target with `curse_resist`, rounded
    /// down to whole ticks so duration maths stays exact.
    pub fn landing_ms(self, curse_resist: i32) -> (r: u32)
        ensures
            r == self.spec_landing_ms(curse_resist),
            r % TICK_MS == 0,
            r <= self.spec_base_duration_ms(),
    {
        let resist: i64 = if curse_resist < 0 {
            0
        } else if curse_resist > 100 {
            100
        } else {
            curse_resist as i64
        };
        let base = self.base_duration_ms() as i64;
        assert(0 <= base <= 10_000);
        assert(0 <= base * (100 - resist) <= base * 100) by (nonlinear_arith)
            requires
                0 <= base <= 10_000,
                0 <= resist <= 100,
        ;
        let scaled = base * (100 - resist) / 100;
        let ticks = scaled / TICK_MS as i64;
        (ticks * TICK_MS as i64) as u32
    }
}

/// One active curse on one combatant.
#[derive(Copy, Clone, Debug, PartialEq, Eq, Structural)]
pub struct Curse {
    pub kind: CurseKind,
    pub remaining_ms: u32,
    pub stacks: u32,
}

/// The index of the first entry of `kind`, if any.
pub open spec fn spec_find(s: Seq<Curse>, kind: CurseKind) -> Option<int>
    decreases s.len(),
{
    if s.len() == 0 {
        None
    } else if s[0].kind == kind {
        Some(0int)
    } else {
        match spec_find(s.drop_first(), kind) {
            Some(i) => Some(i + 1),
            None => None,
        }
    }
}

/// Stacks of `kind` in a list of curses: its entry's count, or zero.
pub open spec fn spec_stacks_in(s: Seq<Curse>, kind: CurseKind) -> u32 {
    match spec_find(s, kind) {
        Some(i) => s[i].stacks,
        None => 0,
    }
}

/// One tick of every curse in `s`: each loses `TICK_MS` (never below zero)
/// and the ones that reach zero are dropped, order kept.
pub open spec fn spec_ticked(s: Seq<Curse>) -> Seq<Curse>
    decreases s.len(),
{
    if s.len() == 0 {
        s
    } else {
        let last = s.last();
        let rest = spec_ticked(s.drop_last());
        if last.remaining_ms > TICK_MS {
            rest.push(Curse { remaining_ms: (last.remaining_ms - TICK_MS) as u32, ..last })
        } else {
            rest
        }
    }
}

/// What `apply` leaves behind: the curses after `kind` lands for `duration`.
pub open spec fn spec_applied(s: Seq<Curse>, kind: CurseKind, duration: u32) -> Seq<Curse> {
    if duration == 0 {
        s
    } else {
        match spec_find(s, kind) {
            Some(i) => s.update(
                i,
                Curse {
                    kind,
                    stacks: (s[i].stacks + 1) as u32,
                    remaining_ms: if s[i].remaining_ms >= duration {
                        s[i].remaining_ms
                    } else {
                        duration
                    },
                },
            ),
            None => s.push(Curse { kind, remaining_ms: duration, stacks: 1 }),
        }
    }
}

/// Every entry names a different kind, none is a stun, every entry has at
/// least one stack and time left on it.
pub open spec fn spec_curses_wf(s: Seq<Curse>) -> bool {
    &&& forall|i: int, j: int| 0 <= i < j < s.len() ==> s[i].kind != s[j].kind
    &&& forall|i: int| 0 <= i < s.len() ==> #[trigger] s[i].stacks >= 1 && s[i].remaining_ms > 0
            && s[i].kind != CurseKind::Stun
}

/// Every curse currently riding on one combatant.
#[derive(Debug, PartialEq, Eq)]
pub struct Curses {
    active: Vec<Curse>,
}

impl View for Curses {
    type V = Seq<Curse>;

    closed spec fn view(&self) -> Seq<Curse> {
        self.active@
    }
}

pub proof fn lemma_find_some(s: Seq<Curse>, kind: CurseKind)
    ensures
        spec_find(s, kind) matches Some(i) ==> 0 <= i < s.len() && s[i].kind == kind
            && forall|j: int| 0 <= j < i ==> s[j].kind != kind,
        spec_find(s, kind) is None ==> forall|j: int| 0 <= j < s.len() ==> s[j].kind != kind,
    decreases s.len(),
{
    if s.len() > 0 {
        lemma_find_some(s.drop_first(), kind);
        assert forall|j: int| 1 <= j < s.len() implies s[j] == s.drop_first()[j - 1] by {}
    }
}

proof fn lemma_find_unique(s: Seq<Curse>, kind: CurseKind, i: int)
    requires
        spec_curses_wf(s),
        0 <= i < s.len(),
        s[i].kind == kind,
    ensures
        spec_find(s, kind) == Some(i),
{
    lemma_find_some(s, kind);
}

proof fn lemma_ticked_props(s: Seq<Curse>)
    ensures
        spec_ticked(s).len() <= s.len(),
        forall|i: int| 0 <= i < spec_ticked(s).len() ==> exists|j: int|
            0 <= j < s.len() && #[trigger] spec_ticked(s)[i].kind == s[j].kind
                && spec_ticked(s)[i].stacks == s[j].stacks,
        forall|i: int| 0 <= i < spec_ticked(s).len() ==> #[trigger] spec_ticked(s)[i].remaining_ms
            > 0,
    decreases s.len(),
{
    if s.len() > 0 {
        lemma_ticked_props(s.drop_last());
        let rest = spec_ticked(s.drop_last());
        assert forall|i: int| 0 <= i < spec_ticked(s).len() implies exists|j: int|
            0 <= j < s.len() && #[trigger] spec_ticked(s)[i].kind == s[j].kind
                && spec_ticked(s)[i].stacks == s[j].stacks by {
            if i < rest.len() {
                let j = choose|j: int|
                    0 <= j < s.drop_last().len() && rest[i].kind == s.drop_last()[j].kind
                        && rest[i].stacks == s.drop_last()[j].stacks;
                assert(s[j] == s.drop_last()[j]);
            } else {
                assert(spec_ticked(s)[i].kind == s[s.len() - 1].kind);
            }
        }
    }
}

impl Curses {
    #[verifier::type_invariant]
    spec fn wf(self) -> bool {
        spec_curses_wf(self.active@)
    }

    /// Stacks of `kind` currently on this combatant.
    pub closed spec fn spec_stacks_of(&self, kind: CurseKind) -> u32 {
        spec_stacks_in(self@, kind)
    }

    pub fn new() -> (r: Self)
        ensures
            r@ == Seq::<Curse>::empty(),
    {
        Curses { active: Vec::new() }
    }

    pub fn is_empty(&self) -> (r: bool)
        ensures
            r == (self@.len() == 0),
    {
        self.active.len() == 0
    }

    /// The curses in the order they first landed.
    pub fn iter(&self) -> (r: std::slice::Iter<'_, Curse>)
        ensures
            vstd::std_specs::slice::into_iter_elts(r) == self@,
    {
        self.active.as_slice().iter()
    }

    pub fn stacks_of(&self, kind: CurseKind) -> (r: u32)
        ensures
            r == spec_stacks_in(self@, kind),
    {
        let mut i: usize = 0;
        while i < self.active.len()
            invariant
                0 <= i <= self.active@.len(),
                forall|j: int| 0 <= j < i ==> self.active@[j].kind != kind,
            decreases self.active@.len() - i,
        {
            if self.active[i].kind == kind {
                proof {
                    lemma_find_some(self.active@, kind);
                }
                return self.active[i].stacks;
            }
            i = i + 1;
        }
        proof {
            lemma_find_some(self.active@, kind);
        }
        0
    }

    pub fn has(&self, kind: CurseKind) -> (r: bool)
        ensures
            r == (spec_stacks_in(self@, kind) > 0),
    {
        self.stacks_of(kind) > 0
    }

    /// Apply `kind` to a target with `curse_resist` percent resistance.
    ///
    /// Resistance shortens the curse; at 100 it lands for no time at all and
    /// is dropped entirely. Returns how long the curse will now run for - the
    /// *total* left on the clock, not the slice just added. Not for stun: a
    /// stun belongs to one item.
    pub fn apply(&mut self, kind: CurseKind, curse_resist: i32) -> (r: u32)
        requires
            kind != CurseKind::Stun,
            spec_stacks_in(old(self)@, kind) < u32::MAX,
        ensures
            final(self)@ == spec_applied(old(self)@, kind, kind.spec_landing_ms(curse_resist)),
            r == (if kind.spec_landing_ms(curse_resist) == 0 {
                0
            } else {
                match spec_find(final(self)@, kind) {
                    Some(i) => final(self)@[i].remaining_ms,
                    None => 0,
                }
            }),
    {
        proof {
            use_type_invariant(&*self);
        }
        let duration = kind.landing_ms(curse_resist);
        if duration == 0 {
            proof {
                lemma_find_some(self.active@, kind);
            }
            return 0;
        }
        let ghost s0 = self.active@;
        let mut i: usize = 0;
        while i < self.active.len()
            invariant
                self.active@ == s0,
                old(self)@ == s0,
                spec_curses_wf(s0),
                spec_stacks_in(s0, kind) < u32::MAX,
                duration == kind.spec_landing_ms(curse_resist),
                duration > 0,
                0 <= i <= self.active@.len(),
                forall|j: int| 0 <= j < i ==> self.active@[j].kind != kind,
            decreases self.active@.len() - i,
        {
            if self.active[i].kind == kind {
                proof {
                    lemma_find_unique(self.active@, kind, i as int);
                }
                let old_c = self.active[i];
                let left = if old_c.remaining_ms >= duration {
                    old_c.remaining_ms
                } else {
                    duration
                };
                let c = Curse { kind, remaining_ms: left, stacks: old_c.stacks + 1 };
                proof {
                    lemma_find_some(self.active@, kind);
                }
                let ghost before = self.active@;
                let mut v: Vec<Curse> = Vec::new();
                std::mem::swap(&mut v, &mut self.active);
                v.set(i, c);
                proof {
                    assert(v@ == before.update(i as int, c));
                    assert forall|a: int| 0 <= a < v@.len() implies #[trigger] v@[a].stacks >= 1
                        && v@[a].remaining_ms > 0 && v@[a].kind != CurseKind::Stun by {
                        if a != i {
                            assert(v@[a] == before[a]);
                        }
                    }
                    assert forall|a: int, b: int| 0 <= a < b < v@.len() implies v@[a].kind
                        != v@[b].kind by {
                        if a != i && b != i {
                            assert(v@[a] == before[a] && v@[b] == before[b]);
                        } else if a == i {
                            assert(v@[b] == before[b]);
                        } else {
                            assert(v@[a] == before[a]);
                        }
                    }
                }
                self.active = v;
                proof {
                    assert(self.active@ == before.update(i as int, c));
                    lemma_find_unique(self.active@, kind, i as int);
                    lemma_find_unique(s0, kind, i as int);
                    assert(spec_find(s0, kind) == Some(i as int));
                    assert(self.active@ == spec_applied(s0, kind, duration));
                }
                return left;
            }
            i = i + 1;
        }
        proof {
            lemma_find_some(self.active@, kind);
        }
        let c = Curse { kind, remaining_ms: duration, stacks: 1 };
        let ghost before = self.active@;
        let mut v: Vec<Curse> = Vec::new();
        std::mem::swap(&mut v, &mut self.active);
        v.push(c);
        proof {
            assert(v@ == before.push(c));
            assert forall|a: int| 0 <= a < v@.len() implies #[trigger] v@[a].stacks >= 1
                && v@[a].remaining_ms > 0 && v@[a].kind != CurseKind::Stun by {
                if a < before.len() {
                    assert(v@[a] == before[a]);
                }
            }
            assert forall|a: int, b: int| 0 <= a < b < v@.len() implies v@[a].kind
                != v@[b].kind by {
                assert(v@[a] == before[a]);
                if b < before.len() {
                    assert(v@[b] == before[b]);
                }
            }
        }
        self.active = v;
        proof {
            assert(self.active@ == before.push(c));
            lemma_find_unique(self.active@, kind, before.len() as int);
        }
        duration
    }

    /// Advance every curse by one tick and drop the expired ones.
    #[verifier::rlimit(40)]
    pub fn tick(&mut self)
        ensures
            final(self)@ == spec_ticked(old(self)@),
    {
        proof {
            use_type_invariant(&*self);
        }
        let ghost s = self.active@;
        let mut out: Vec<Curse> = Vec::new();
        let mut i: usize = 0;
        while i < self.active.len()
            invariant
                s == self.active@,
                spec_curses_wf(s),
                0 <= i <= s.len(),
                out@ == spec_ticked(s.take(i as int)),
            decreases s.len() - i,
        {
            let c = self.active[i];
            proof {
                assert(s.take(i as int + 1).drop_last() == s.take(i as int));
            }
            if c.remaining_ms > TICK_MS {
                out.push(Curse { remaining_ms: c.remaining_ms - TICK_MS, ..c });
            }
            i = i + 1;
        }
        proof {
            assert(s.take(s.len() as int) == s);
            lemma_ticked_props(s);
            let t = spec_ticked(s);
            assert forall|a: int, b: int| 0 <= a < b < t.len() implies t[a].kind != t[b].kind by {
                lemma_ticked_order(s, a, b);
            }
            assert forall|a: int| 0 <= a < t.len() implies #[trigger] t[a].stacks >= 1
                && t[a].remaining_ms > 0 && t[a].kind != CurseKind::Stun by {
                let j = choose|j: int|
                    0 <= j < s.len() && #[trigger] t[a].kind == s[j].kind && t[a].stacks
                        == s[j].stacks;
                assert(s[j].stacks >= 1);
            }
        }
        self.active = out;
    }

    /// Damage this tick from every damage-over-time curse, in milli-damage:
    /// searing's ten a second is five hundred a tick, per stack.
    pub fn dot_millidamage_per_tick(&self) -> (r: i32)
        requires
            SEARING_DPS * TICK_MS * spec_stacks_in(self@, CurseKind::Searing) <= i32::MAX,
        ensures
            r == SEARING_DPS * TICK_MS * spec_stacks_in(self@, CurseKind::Searing),
    {
        let n = self.stacks_of(CurseKind::Searing);
        assert(500 * n <= i32::MAX);
        let m: i32 = n as i32;
        500 * m
    }

    /// How much slower this combatant's items run, as a percentage.
    pub fn slow_pct(&self) -> (r: i32)
        ensures
            r == spec_frost_slow_pct(spec_stacks_in(self@, CurseKind::Frost)),
    {
        frost_slow_pct(self.stacks_of(CurseKind::Frost))
    }

    /// One activation in how many does a misfire eat? Zero when none is up.
    pub fn misfire_every(&self) -> (r: u32)
        ensures
            r == spec_misfire_interval(spec_stacks_in(self@, CurseKind::Misfire)),
    {
        misfire_interval(self.stacks_of(CurseKind::Misfire))
    }

    /// Is this activation one of the ones a misfire eats? Counted, not rolled.
    pub fn misfires(&self, activation: u32) -> (r: bool)
        ensures
            r == (spec_misfire_interval(spec_stacks_in(self@, CurseKind::Misfire)) != 0
                && activation % spec_misfire_interval(spec_stacks_in(self@, CurseKind::Misfire))
                == 0),
    {
        let every = self.misfire_every();
        if every == 0 {
            false
        } else {
            activation % every == 0
        }
    }


    /// Stacks across every curse standing here.
    pub fn stacks_total(&self) -> (r: i64)
        requires
            spec_stack_sum(self@) <= i64::MAX,
        ensures
            r == spec_stack_sum(self@),
    {
        let mut total: i64 = 0;
        let mut i: usize = 0;
        while i < self.active.len()
            invariant
                0 <= i <= self.active@.len(),
                total == spec_stack_sum(self.active@.take(i as int)),
                spec_stack_sum(self.active@) <= i64::MAX,
            decreases self.active@.len() - i,
        {
            proof {
                assert(self.active@.take(i as int + 1).drop_last() == self.active@.take(i as int));
                lemma_stack_sum_prefix(self.active@, i as int + 1);
            }
            total = total + self.active[i].stacks as i64;
            i = i + 1;
        }
        proof {
            assert(self.active@.take(self.active@.len() as int) == self.active@);
        }
        total
    }

    pub fn clear(&mut self)
        ensures
            final(self)@ == Seq::<Curse>::empty(),
    {
        self.active = Vec::new();
    }
}

proof fn lemma_ticked_order(s: Seq<Curse>, a: int, b: int)
    requires
        spec_curses_wf(s),
        0 <= a < b < spec_ticked(s).len(),
    ensures
        spec_ticked(s)[a].kind != spec_ticked(s)[b].kind,
    decreases s.len(),
{
    let rest = spec_ticked(s.drop_last());
    lemma_ticked_props(s.drop_last());
    assert(spec_curses_wf(s.drop_last())) by {
        assert forall|i: int| 0 <= i < s.drop_last().len() implies s.drop_last()[i] == s[i] by {}
    }
    if b < rest.len() {
        lemma_ticked_order(s.drop_last(), a, b);
    } else {
        let j = choose|j: int|
            0 <= j < s.drop_last().len() && #[trigger] rest[a].kind == s.drop_last()[j].kind
                && rest[a].stacks == s.drop_last()[j].stacks;
        assert(s.drop_last()[j] == s[j]);
        assert(spec_ticked(s)[b].kind == s[s.len() - 1].kind);
    }
}

impl Clone for Curses {
    fn clone(&self) -> (r: Self)
        ensures
            r@ == self@,
    {
        proof {
            use_type_invariant(self);
        }
        let v = self.active.clone();
        proof {
            assert(v@ =~= self.active@);
        }
        Curses { active: v }
    }
}

impl Default for Curses {
    fn default() -> (r: Self)
        ensures
            r@ == Seq::<Curse>::empty(),
    {
        Curses::new()
    }
}

/// Stacks across every curse in `s`.
pub open spec fn spec_stack_sum(s: Seq<Curse>) -> int
    decreases s.len(),
{
    if s.len() == 0 {
        0
    } else {
        spec_stack_sum(s.drop_last()) + s.last().stacks
    }
}

proof fn lemma_stack_sum_prefix(s: Seq<Curse>, n: int)
    requires
        0 <= n <= s.len(),
    ensures
        0 <= spec_stack_sum(s.take(n)) <= spec_stack_sum(s),
    decreases s.len(),
{
    if s.len() > 0 {
        if n == s.len() {
            assert(s.take(n) == s);
            lemma_stack_sum_prefix(s.drop_last(), n - 1);
            assert(s.drop_last().take(n - 1) == s.drop_last());
        } else {
            lemma_stack_sum_prefix(s.drop_last(), n);
            assert(s.drop_last().take(n) == s.take(n));
        }
    }
}

/// Mind damage after the target's mind resistance (clamped to 0..=100).
pub open spec fn spec_mind_after_resist(raw: i32, mind_resist: i32) -> int {
    let resist: int = if mind_resist < 0 {
        0
    } else if mind_resist > 100 {
        100
    } else {
        mind_resist as int
    };
    let prod: int = raw * (100 - resist);
    // Rust's division truncates toward zero.
    if prod >= 0 {
        prod / 100
    } else {
        -((-prod) / 100)
    }
}

/// Mind damage after the target's mind resistance. Mind damage eats *maximum*
/// health, so it can't be healed off — resistance is the only defence.
pub fn mind_damage_after_resist(raw: i32, mind_resist: i32) -> (r: i32)
    ensures
        r == spec_mind_after_resist(raw, mind_resist),
{
    let resist: i64 = if mind_resist < 0 {
        0
    } else if mind_resist > 100 {
        100
    } else {
        mind_resist as i64
    };
    let raw64 = raw as i64;
    assert(-(i32::MAX + 1) * 100 <= raw64 * (100 - resist) <= i32::MAX * 100) by (nonlinear_arith)
        requires
            -(i32::MAX + 1) <= raw64 <= i32::MAX,
            0 <= resist <= 100,
    ;
    let prod = raw64 * (100 - resist);
    let q = if prod >= 0 {
        prod / 100
    } else {
        -((-prod) / 100)
    };
    q as i32
}

/// Convenience: pull the two resistance figures out of a stat block.
pub fn resistances(stats: &Stats) -> (r: (i32, i32))
    ensures
        r == (stats.mind_resist, stats.curse_resist),
{
    (stats.mind_resist, stats.curse_resist)
}


// ------------------------------------------------------------------ laws

/// A fully resisted curse never lands: at a resistance of a hundred or more
/// the landing time is zero, and applying it leaves the curses as they were.
pub proof fn a_full_resist_never_lands(s: Seq<Curse>, kind: CurseKind, curse_resist: i32)
    requires
        curse_resist >= 100,
    ensures
        kind.spec_landing_ms(curse_resist) == 0,
        spec_applied(s, kind, kind.spec_landing_ms(curse_resist)) == s,
{
    let base = kind.spec_base_duration_ms() as int;
    assert(base * (100 - 100int) == 0);
}

/// Resistance only ever shortens a curse, never past nothing, and what lands
/// is a whole number of ticks.
pub proof fn resistance_shortens_in_whole_ticks(kind: CurseKind, curse_resist: i32)
    ensures
        kind.spec_landing_ms(curse_resist) <= kind.spec_base_duration_ms(),
        kind.spec_landing_ms(curse_resist) % TICK_MS == 0,
        curse_resist <= 0 ==> kind.spec_landing_ms(curse_resist) == kind.spec_base_duration_ms(),
{
    let resist: int = if curse_resist < 0 {
        0
    } else if curse_resist > 100 {
        100
    } else {
        curse_resist as int
    };
    let base = kind.spec_base_duration_ms() as int;
    let scaled: int = base * (100 - resist) / 100;
    assert(0 <= base * (100 - resist) <= base * 100) by (nonlinear_arith)
        requires
            0 <= resist <= 100,
            0 <= base,
    ;
    assert(0 <= scaled <= base) by (nonlinear_arith)
        requires
            scaled == base * (100 - resist) / 100,
            0 <= base * (100 - resist) <= base * 100,
            0 <= base,
    ;
    let landed: int = scaled / 50 * 50;
    assert(0 <= landed <= scaled && landed % 50 == 0) by (nonlinear_arith)
        requires
            landed == scaled / 50 * 50,
            0 <= scaled,
    ;
    assert(base % 50 == 0);
    if curse_resist <= 0 {
        assert(scaled == base) by (nonlinear_arith)
            requires
                scaled == base * (100 - resist) / 100,
                resist == 0,
        ;
        assert(landed == base) by (nonlinear_arith)
            requires
                landed == scaled / 50 * 50,
                scaled == base,
                base % 50 == 0,
        ;
    }
}

/// More resistance never makes a curse last longer.
pub proof fn more_resistance_never_lengthens(kind: CurseKind, a: i32, b: i32)
    requires
        a <= b,
    ensures
        kind.spec_landing_ms(b) <= kind.spec_landing_ms(a),
{
    let ra: int = if a < 0 {
        0
    } else if a > 100 {
        100
    } else {
        a as int
    };
    let rb: int = if b < 0 {
        0
    } else if b > 100 {
        100
    } else {
        b as int
    };
    let base = kind.spec_base_duration_ms() as int;
    let sa: int = base * (100 - ra) / 100;
    let sb: int = base * (100 - rb) / 100;
    assert(sb <= sa) by (nonlinear_arith)
        requires
            0 <= ra <= rb <= 100,
            0 <= base,
            sa == base * (100 - ra) / 100,
            sb == base * (100 - rb) / 100,
    ;
    assert(0 <= sb) by (nonlinear_arith)
        requires
            0 <= rb <= 100,
            0 <= base,
            sb == base * (100 - rb) / 100,
    ;
    assert(sa <= base) by (nonlinear_arith)
        requires
            0 <= ra <= 100,
            0 <= base,
            sa == base * (100 - ra) / 100,
    ;
    assert(0 <= sb / 50 * 50 <= sa / 50 * 50 <= sa) by (nonlinear_arith)
        requires
            0 <= sb <= sa,
    ;
    assert(base <= 10_000);
}

/// Frost stacks but never freezes gear solid: the slow is fifty for one
/// stack and never above its cap, so items always still fire.
pub proof fn frost_never_freezes_gear_solid(stacks: u32)
    ensures
        stacks == 0 ==> spec_frost_slow_pct(stacks) == 0,
        stacks == 1 ==> spec_frost_slow_pct(stacks) == FROST_SLOW_PCT,
        spec_frost_slow_pct(stacks) <= FROST_SLOW_CAP_PCT,
        FROST_SLOW_CAP_PCT < 100,
{
}

/// Misfire stacks tighten the interval but never past one in two: nothing
/// is eaten with no stacks, one in three with one, and never worse than one
/// in two however many stack, so an odd activation always gets through once
/// the floor is reached.
pub proof fn misfire_never_worse_than_one_in_two(stacks: u32, more: u32, activation: u32)
    requires
        stacks <= more,
    ensures
        (spec_misfire_interval(stacks) == 0) == (stacks == 0),
        stacks == 1 ==> spec_misfire_interval(stacks) == MISFIRE_EVERY,
        stacks > 0 ==> MISFIRE_FLOOR <= spec_misfire_interval(stacks) <= MISFIRE_EVERY,
        stacks > 0 ==> spec_misfire_interval(more) <= spec_misfire_interval(stacks),
        spec_misfire_interval(stacks) == MISFIRE_FLOOR && activation % 2 == 1 ==> activation
            % spec_misfire_interval(stacks) != 0,
{
}

/// Reapplying stacks and refreshes: a curse that lands on one already
/// running adds a stack and leaves the longer of the two clocks; one that
/// lands fresh starts at a single stack with the whole landing time.
pub proof fn reapplying_stacks_and_refreshes(s: Seq<Curse>, kind: CurseKind, duration: u32)
    requires
        spec_curses_wf(s),
        duration > 0,
        kind != CurseKind::Stun,
        spec_stacks_in(s, kind) < u32::MAX,
    ensures
        spec_stacks_in(spec_applied(s, kind, duration), kind) == spec_stacks_in(s, kind) + 1,
        spec_find(spec_applied(s, kind, duration), kind) matches Some(i) && spec_applied(s, kind, duration)[i].remaining_ms >= duration,
        spec_find(s, kind) is None ==> spec_applied(s, kind, duration).last() == (Curse { kind, remaining_ms: duration, stacks: 1 }),
{
    lemma_find_some(s, kind);
    let t = spec_applied(s, kind, duration);
    lemma_find_some(t, kind);
    match spec_find(s, kind) {
        Some(i) => {
            assert(t[i].kind == kind);
            lemma_find_some(t, kind);
            assert forall|j: int| 0 <= j < i implies t[j].kind != kind by {
                assert(t[j] == s[j]);
            }
            assert(spec_find(t, kind) == Some(i)) by {
                if spec_find(t, kind) != Some(i) {
                    match spec_find(t, kind) {
                        Some(k) => {
                            if k < i {
                                assert(t[k] == s[k]);
                            }
                        },
                        None => {},
                    }
                }
            }
        },
        None => {
            let k = s.len() as int;
            assert(t[k].kind == kind);
            assert forall|j: int| 0 <= j < k implies t[j].kind != kind by {
                assert(t[j] == s[j]);
            }
            assert(spec_find(t, kind) == Some(k)) by {
                match spec_find(t, kind) {
                    Some(m) => {
                        if m < k {
                            assert(t[m] == s[m]);
                        }
                    },
                    None => {},
                }
            }
        },
    }
}

/// Mind resistance scales mind damage: none takes all of it, full takes
/// none of it, and no resistance ever makes it larger.
pub proof fn mind_resistance_scales_mind_damage(raw: i32, mind_resist: i32)
    ensures
        mind_resist <= 0 ==> spec_mind_after_resist(raw, mind_resist) == raw,
        mind_resist >= 100 ==> spec_mind_after_resist(raw, mind_resist) == 0,
        raw >= 0 ==> 0 <= spec_mind_after_resist(raw, mind_resist) <= raw,
{
    let resist: int = if mind_resist < 0 {
        0
    } else if mind_resist > 100 {
        100
    } else {
        mind_resist as int
    };
    let prod: int = raw * (100 - resist);
    if raw >= 0 {
        assert(0 <= prod <= raw * 100) by (nonlinear_arith)
            requires
                prod == raw * (100 - resist),
                0 <= resist <= 100,
                raw >= 0,
        ;
    }
    if mind_resist <= 0 {
        assert(prod == raw * 100);
    }
    if mind_resist >= 100 {
        assert(raw * (100 - 100int) == 0);
    }
}


/// A tick only ever takes away: every curse still standing after it was
/// standing before it, with the same stacks and time still on its clock,
/// and there are never more of them than there were.
pub proof fn a_tick_only_takes_away(s: Seq<Curse>)
    ensures
        spec_ticked(s).len() <= s.len(),
        forall|i: int| 0 <= i < spec_ticked(s).len() ==> exists|j: int|
            0 <= j < s.len() && #[trigger] spec_ticked(s)[i].kind == s[j].kind
                && spec_ticked(s)[i].stacks == s[j].stacks,
        forall|i: int| 0 <= i < spec_ticked(s).len() ==> #[trigger] spec_ticked(s)[i].remaining_ms > 0,
{
    lemma_ticked_props(s);
}

} // verus!
