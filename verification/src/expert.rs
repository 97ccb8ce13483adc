//! The experts: tuned powers a class grows into, and what each one sets on
//! the player as the bell goes.
use vstd::prelude::*;

use crate::combat::{spec_pool, spec_with_pool, Combatant, Event, LogEntry, Side};
use crate::curse::TICK_MS;
use crate::piece::Resource;
use crate::stats::{clamp, fits_i32, tdiv};

verus! {

/// An expert power, with the figures the bell reads off it.
#[derive(Copy, Clone, Debug, PartialEq, Eq, Structural)]
pub enum ExpertPower {
    LoudCalculation { floor: i32 },
    StandingFact { worn: i32, carry: i32, bite: i32 },
    OverwoundArm,
    CurseRequisition { per_fight: i32 },
    PatentedFunnel { per_stack: i32, overflow: i32, bleed: i32 },
    OpeningNumber { window_ms: i32, encore: i32 },
    CursedLicence { stack: i32 },
    BareFurnace { per_frame: i32, every_ms: i32, cap: i32 },
    FiredFunnel { per_fight: i32, worth: i32 },
    ColdStoke { every_ms: i32, per_stack: i32, standing: i32 },
    PonkeyBoiler { keep: i32 },
    FlashPowder { all_at_once: i32 },
    LoudDoubt { third: i32, worn: i32, rate: i32 },
    RequisitionedSilence { per_fight: i32, third: i32 },
    LicensedRumour { third: i32, pct: i32 },
    AshAndWhisper { every_ms: i32, third: i32, rate: i32 },
    ShortProgramme,
    EleventhSeason,
    CurtainLine { third: i32 },
    FullBill,
    ToldOnce { per_curse: i32, cap: i32, standing: i32 },
}

/// Nought, or `v` when it is more.
pub open spec fn spec_floor0(v: i32) -> int {
    if v < 0 {
        0
    } else {
        v as int
    }
}

/// A furnace lit: a clock of four seconds unless one runs already, and at
/// least ten a stack.
pub open spec fn spec_lit(c: Combatant) -> Combatant {
    Combatant {
        burn_every_ms: if c.burn_every_ms == 0 { 4_000 } else { c.burn_every_ms },
        burn_per_stack: if c.burn_per_stack < 10 { 10 } else { c.burn_per_stack },
        ..c
    }
}

/// The furnace's clock, never faster than a tick.
pub open spec fn spec_clock(every_ms: i32) -> u32 {
    (if every_ms < TICK_MS as i32 { TICK_MS as int } else { every_ms as int }) as u32
}

/// What the flash takes of one pool: its share of what is held.
pub open spec fn spec_flash_took(c: Combatant, what: Resource, pct: int) -> int {
    tdiv(spec_pool(c, what) * pct, 100)
}

/// The flash on the `i`th of rage, faith and nature: the share is burned,
/// counted against that pool, and buys a tenth of itself, at least one, in
/// empowerment.
pub open spec fn spec_flash_one(c: Combatant, i: int, what: Resource, pct: int) -> Combatant {
    let took = spec_flash_took(c, what, pct);
    if took > 0 {
        let d = spec_with_pool(c, what, (spec_pool(c, what) - took) as i32);
        let b = d.burned;
        let nb: [i32; 3] = if i == 0 {
            [(b[0] + took) as i32, b[1], b[2]]
        } else if i == 1 {
            [b[0], (b[1] + took) as i32, b[2]]
        } else {
            [b[0], b[1], (b[2] + took) as i32]
        };
        let gain: int = if took / 10 < 1 { 1 } else { took / 10 };
        Combatant { burned: nb, empowerment: (d.empowerment + gain) as u32, ..d }
    } else {
        c
    }
}

/// The flash: everything held of rage, faith and nature, in that order.
pub open spec fn spec_flash(c: Combatant, all_at_once: i32) -> Combatant {
    let pct = clamp(all_at_once as int, 0, 100);
    let c0 = spec_lit(c);
    let c1 = spec_flash_one(c0, 0, Resource::Rage, pct);
    let c2 = spec_flash_one(c1, 1, Resource::Faith, pct);
    spec_flash_one(c2, 2, Resource::Nature, pct)
}

/// What a bare frame pays at the bell: a tenth of a stack a frame, capped.
pub open spec fn spec_bare_pay(c: Combatant, per_frame: i32, cap: i32) -> int {
    clamp(spec_floor0(per_frame) * (c.empty_frames as int) / 10, 0, spec_floor0(cap))
}

/// The fighter with expert `e` applied at the bell: the fight's powers are
/// held on it with the budgets they start with; the purse's and the board's
/// leave it as it was.
pub open spec fn spec_with_expert(c: Combatant, e: ExpertPower) -> Combatant {
    let held = Combatant { expert: Some(e), ..c };
    match e {
        ExpertPower::LoudCalculation { floor } => Combatant { loud_free_left: spec_floor0(floor) as i32, ..held },
        ExpertPower::CurseRequisition { per_fight } => Combatant { reqs_left: spec_floor0(per_fight) as i32, ..held },
        ExpertPower::OpeningNumber { window_ms, encore } => Combatant {
            opening_until_ms: spec_floor0(window_ms) as u32,
            opening_encores: spec_floor0(encore) as i32,
            ..held
        },
        ExpertPower::BareFurnace { per_frame, every_ms, cap } => {
            let paid = Combatant { empowerment: (c.empowerment + spec_bare_pay(c, per_frame, cap)) as u32, ..held };
            Combatant { burn_every_ms: spec_clock(every_ms), ..spec_lit(paid) }
        },
        ExpertPower::ColdStoke { every_ms, .. } => Combatant { burn_every_ms: spec_clock(every_ms), ..spec_lit(held) },
        ExpertPower::AshAndWhisper { every_ms, .. } => Combatant { burn_every_ms: spec_clock(every_ms), ..spec_lit(held) },
        ExpertPower::FiredFunnel { per_fight, .. } => spec_lit(Combatant { fired_left: spec_floor0(per_fight) as i32, ..held }),
        ExpertPower::PonkeyBoiler { keep } => spec_lit(Combatant { spin_keep: (c.spin_keep + spec_floor0(keep)) as u32, ..held }),
        ExpertPower::RequisitionedSilence { per_fight, .. } => Combatant { silent_left: spec_floor0(per_fight) as i32, ..held },
        ExpertPower::FlashPowder { all_at_once } => spec_flash(held, all_at_once),
        ExpertPower::StandingFact { .. } | ExpertPower::OverwoundArm | ExpertPower::PatentedFunnel { .. }
        | ExpertPower::CursedLicence { .. } | ExpertPower::LoudDoubt { .. } | ExpertPower::LicensedRumour { .. } => held,
        ExpertPower::ShortProgramme | ExpertPower::EleventhSeason | ExpertPower::CurtainLine { .. } | ExpertPower::FullBill
        | ExpertPower::ToldOnce { .. } => c,
    }
}

/// The flash's figures fit where they are kept.
pub open spec fn spec_flash_fits(c: Combatant, all_at_once: i32) -> bool {
    let pct = clamp(all_at_once as int, 0, 100);
    let c0 = spec_lit(c);
    let c1 = spec_flash_one(c0, 0, Resource::Rage, pct);
    let c2 = spec_flash_one(c1, 1, Resource::Faith, pct);
    &&& fits_i32(c.rage * pct) && fits_i32(c.faith * pct) && fits_i32(c.nature * pct)
    &&& fits_i32(c.burned@[0] + spec_flash_took(c0, Resource::Rage, pct))
    &&& fits_i32(c1.burned@[1] + spec_flash_took(c1, Resource::Faith, pct))
    &&& fits_i32(c2.burned@[2] + spec_flash_took(c2, Resource::Nature, pct))
    &&& c.empowerment + (spec_floor0(c.rage) / 10 + 1) + (spec_floor0(c.faith) / 10 + 1) + (spec_floor0(c.nature) / 10 + 1) <= u32::MAX
}

/// Every figure an expert writes on `c` fits where it is kept.
pub open spec fn spec_expert_fits(c: Combatant, e: ExpertPower) -> bool {
    match e {
        ExpertPower::BareFurnace { per_frame, cap, .. } => c.empty_frames <= i32::MAX && fits_i32(
            spec_floor0(per_frame) * (c.empty_frames as int),
        ) && c.empowerment + spec_floor0(cap) <= u32::MAX,
        ExpertPower::PonkeyBoiler { keep } => c.spin_keep + spec_floor0(keep) <= u32::MAX,
        ExpertPower::FlashPowder { all_at_once } => spec_flash_fits(Combatant { expert: Some(e), ..c }, all_at_once),
        _ => true,
    }
}

/// Light the furnace an expert's power runs on, whether or not a Stoker lit
/// one.
pub fn light_the_furnace(c: &mut Combatant)
    ensures
        *final(c) == spec_lit(*old(c)),
{
    if c.burn_every_ms == 0 {
        c.burn_every_ms = 4_000;
    }
    if c.burn_per_stack < 10 {
        c.burn_per_stack = 10;
    }
}

/// The flash never takes more than is held, nor buys more than a tenth of
/// what is held and one.
proof fn lemma_took_bounded(have: int, pct: int)
    requires
        0 <= pct <= 100,
    ensures
        tdiv(have * pct, 100) <= (if have < 0 { 0 } else { have }),
        tdiv(have * pct, 100) > 0 ==> tdiv(have * pct, 100) / 10 <= (if have < 0 { 0 } else { have }) / 10,
{
    if have >= 0 {
        assert(0 <= have * pct <= have * 100) by (nonlinear_arith)
            requires
                have >= 0,
                0 <= pct <= 100;
        assert((have * pct) / 100 <= have) by (nonlinear_arith)
            requires
                0 <= have * pct <= have * 100;
        assert(((have * pct) / 100) / 10 <= have / 10) by (nonlinear_arith)
            requires
                0 <= (have * pct) / 100 <= have;
    } else {
        assert(have * pct <= 0) by (nonlinear_arith)
            requires
                have < 0,
                0 <= pct <= 100;
        assert(-(have * pct) >= 0);
        assert(-((-(have * pct)) / 100) <= 0);
    }
}

/// One step of the flash, on the `i`th pool.
fn flash_one(c: &mut Combatant, i: usize, what: Resource, pct: i32)
    requires
        i < 3,
        0 <= pct <= 100,
        (i == 0) == (what == Resource::Rage),
        (i == 1) == (what == Resource::Faith),
        (i == 2) == (what == Resource::Nature),
        fits_i32(spec_pool(*old(c), what) * pct),
        fits_i32(old(c).burned@[i as int] + spec_flash_took(*old(c), what, pct as int)),
        old(c).empowerment + spec_floor0(spec_pool(*old(c), what)) / 10 + 1 <= u32::MAX,
    ensures
        *final(c) == spec_flash_one(*old(c), i as int, what, pct as int),
{
    let have = c.pool(what);
    let took = have * pct / 100;
    proof {
        lemma_took_bounded(have as int, pct as int);
    }
    if took > 0 {
        c.set_pool(what, have - took);
        let b = c.burned;
        if i == 0 {
            c.burned = [b[0] + took, b[1], b[2]];
        } else if i == 1 {
            c.burned = [b[0], b[1] + took, b[2]];
        } else {
            c.burned = [b[0], b[1], b[2] + took];
        }
        let gain: i32 = if took / 10 < 1 { 1 } else { took / 10 };
        c.empowerment = c.empowerment + gain as u32;
    }
}

/// Flash Powder at the bell: the furnace lit, then a share of each of rage,
/// faith and nature burned at once.
#[verifier::rlimit(60)]
fn flash(c: &mut Combatant, all_at_once: i32)
    requires
        spec_flash_fits(*old(c), all_at_once),
    ensures
        *final(c) == spec_flash(*old(c), all_at_once),
{
    let ghost c_in = *c;
    light_the_furnace(c);
    let pct: i32 = if all_at_once < 0 { 0 } else if all_at_once > 100 { 100 } else { all_at_once };
    let ghost c0 = *c;
    proof {
        lemma_took_bounded(c.rage as int, pct as int);
        assert(c0.rage == c_in.rage && c0.faith == c_in.faith && c0.nature == c_in.nature);
        assert(c0.empowerment == c_in.empowerment && c0.burned == c_in.burned);
    }
    flash_one(c, 0, Resource::Rage, pct);
    let ghost c1 = *c;
    proof {
        lemma_took_bounded(c.faith as int, pct as int);
        assert(c1.faith == c_in.faith);
    }
    flash_one(c, 1, Resource::Faith, pct);
    let ghost c2 = *c;
    proof {
        lemma_took_bounded(c.nature as int, pct as int);
        assert(c2.nature == c_in.nature);
    }
    flash_one(c, 2, Resource::Nature, pct);
}

/// Apply an expert at the bell. The fight's powers are held on the fighter
/// and seed the budgets they start with; the purse's and the board's are
/// settled elsewhere and leave it untouched.
#[verifier::rlimit(40)]
pub fn apply_expert(c: &mut Combatant, e: ExpertPower)
    requires
        spec_expert_fits(*old(c), e),
    ensures
        *final(c) == spec_with_expert(*old(c), e),
{
    match e {
        ExpertPower::ShortProgramme | ExpertPower::EleventhSeason | ExpertPower::CurtainLine { .. } | ExpertPower::FullBill
        | ExpertPower::ToldOnce { .. } => {},
        _ => {
            c.expert = Some(e);
            match e {
                ExpertPower::LoudCalculation { floor } => c.loud_free_left = if floor < 0 { 0 } else { floor },
                ExpertPower::CurseRequisition { per_fight } => c.reqs_left = if per_fight < 0 { 0 } else { per_fight },
                ExpertPower::OpeningNumber { window_ms, encore } => {
                    c.opening_until_ms = if window_ms < 0 { 0 } else { window_ms as u32 };
                    c.opening_encores = if encore < 0 { 0 } else { encore };
                },
                ExpertPower::BareFurnace { per_frame, every_ms, cap } => {
                    let per: i32 = if per_frame < 0 { 0 } else { per_frame };
                    let got = per * c.empty_frames as i32 / 10;
                    let top: i32 = if cap < 0 { 0 } else { cap };
                    let paid: i32 = if got < 0 { 0 } else if got > top { top } else { got };
                    c.empowerment = c.empowerment + paid as u32;
                    light_the_furnace(c);
                    c.burn_every_ms = if every_ms < TICK_MS as i32 { TICK_MS } else { every_ms as u32 };
                },
                ExpertPower::ColdStoke { every_ms, .. } | ExpertPower::AshAndWhisper { every_ms, .. } => {
                    light_the_furnace(c);
                    c.burn_every_ms = if every_ms < TICK_MS as i32 { TICK_MS } else { every_ms as u32 };
                },
                ExpertPower::FiredFunnel { per_fight, .. } => {
                    c.fired_left = if per_fight < 0 { 0 } else { per_fight };
                    light_the_furnace(c);
                },
                ExpertPower::PonkeyBoiler { keep } => {
                    c.spin_keep = c.spin_keep + if keep < 0 { 0 } else { keep as u32 };
                    light_the_furnace(c);
                },
                ExpertPower::RequisitionedSilence { per_fight, .. } => c.silent_left = if per_fight < 0 { 0 } else { per_fight },
                ExpertPower::FlashPowder { all_at_once } => flash(c, all_at_once),
                _ => {},
            }
        },
    }
}

/// The pool the furnace shovels from: the fullest of rage, faith and nature,
/// the first of them on a tie.
pub open spec fn spec_hopper(c: Combatant) -> int {
    if c.rage >= c.faith && c.rage >= c.nature {
        0
    } else if c.faith >= c.nature {
        1
    } else {
        2
    }
}

pub open spec fn spec_hopper_pool(at: int) -> Resource {
    if at == 0 {
        Resource::Rage
    } else if at == 1 {
        Resource::Faith
    } else {
        Resource::Nature
    }
}

pub open spec fn spec_hopper_name(at: int) -> &'static str {
    if at == 0 {
        "rage"
    } else if at == 1 {
        "faith"
    } else {
        "nature"
    }
}

/// One stack bought, from a fighter whose clock has already been wound back:
/// the fullest pool gives up to a stack's worth, that is burned and counted,
/// Fired Funnel turns the stack into mana while its budget lasts, and the log
/// says so. An empty hopper buys nothing.
pub open spec fn spec_stack(c: Combatant, who: u8, side: Side, t: u32, log: Seq<LogEntry>) -> (Combatant, Seq<LogEntry>) {
    let at = spec_hopper(c);
    let what = spec_hopper_pool(at);
    let have = spec_pool(c, what);
    if have <= 0 {
        (c, log)
    } else {
        let took: int = if have < c.burn_per_stack { have as int } else { c.burn_per_stack as int };
        let d = spec_with_pool(c, what, (have - took) as i32);
        let b = d.burned;
        let nb: [i32; 3] = if at == 0 {
            [(b[0] + took) as i32, b[1], b[2]]
        } else if at == 1 {
            [b[0], (b[1] + took) as i32, b[2]]
        } else {
            [b[0], b[1], (b[2] + took) as i32]
        };
        let e = Combatant { burned: nb, empowerment: (d.empowerment + 1) as u32, burn_stacks: (d.burn_stacks + 1) as u32, ..d };
        let f = match e.expert {
            Some(ExpertPower::FiredFunnel { worth, .. }) => if e.fired_left > 0 && worth > 0 {
                Combatant { fired_left: (e.fired_left - 1) as i32, mana: (e.mana + worth) as i32, ..e }
            } else {
                e
            },
            _ => e,
        };
        let entry = LogEntry {
            who,
            at_ms: t,
            event: Event::Burned { side, what: spec_hopper_name(at), points: took as i32, left: (have - took) as i32, stacks: f.empowerment },
        };
        (f, log.push(entry))
    }
}

/// Whether a stack bought from `c` fits where its figures are kept.
pub open spec fn spec_stack_fits(c: Combatant) -> bool {
    let at = spec_hopper(c);
    let have = spec_pool(c, spec_hopper_pool(at));
    have > 0 ==> {
        let took: int = if have < c.burn_per_stack { have as int } else { c.burn_per_stack as int };
        &&& fits_i32(c.burned@[at] + took)
        &&& fits_i32(have - took)
        &&& c.empowerment + 1 <= u32::MAX
        &&& c.burn_stacks + 1 <= u32::MAX
        &&& (c.expert matches Some(ExpertPower::FiredFunnel { worth, .. }) ==> fits_i32(c.mana + worth))
    }
}

/// The furnace's clock run down: a stack for every interval it holds.
pub open spec fn spec_furnace(c: Combatant, who: u8, side: Side, t: u32, log: Seq<LogEntry>) -> (Combatant, Seq<LogEntry>)
    decreases c.burn_ms,
{
    if c.burn_every_ms == 0 || c.burn_ms < c.burn_every_ms {
        (c, log)
    } else {
        let wound = Combatant { burn_ms: (c.burn_ms - c.burn_every_ms) as u32, ..c };
        let (d, l) = spec_stack(wound, who, side, t, log);
        if d.burn_ms < c.burn_ms {
            spec_furnace(d, who, side, t, l)
        } else {
            (d, l)
        }
    }
}

/// Whether every stack the furnace buys fits.
pub open spec fn spec_furnace_fits(c: Combatant, who: u8, side: Side, t: u32, log: Seq<LogEntry>) -> bool
    decreases c.burn_ms,
{
    if c.burn_every_ms == 0 || c.burn_ms < c.burn_every_ms {
        true
    } else {
        let wound = Combatant { burn_ms: (c.burn_ms - c.burn_every_ms) as u32, ..c };
        let (d, l) = spec_stack(wound, who, side, t, log);
        spec_stack_fits(wound) && if d.burn_ms < c.burn_ms {
            spec_furnace_fits(d, who, side, t, l)
        } else {
            true
        }
    }
}

/// A tick of the furnace: nothing unless one is lit; otherwise its clock
/// moves on a tick and it buys a stack for every interval that holds.
pub open spec fn spec_stoke(c: Combatant, who: u8, side: Side, t: u32, log: Seq<LogEntry>) -> (Combatant, Seq<LogEntry>) {
    if c.burn_every_ms == 0 || c.burn_per_stack <= 0 {
        (c, log)
    } else {
        spec_furnace(Combatant { burn_ms: (c.burn_ms + TICK_MS) as u32, ..c }, who, side, t, log)
    }
}

/// One stack bought.
fn buy_stack(c: &mut Combatant, who: u8, side: Side, t: u32, log: &mut Vec<LogEntry>)
    requires
        spec_stack_fits(*old(c)),
    ensures
        (*final(c), final(log)@) == spec_stack(*old(c), who, side, t, old(log)@),
{
    let at: usize = if c.rage >= c.faith && c.rage >= c.nature {
        0
    } else if c.faith >= c.nature {
        1
    } else {
        2
    };
    let (what, name) = if at == 0 {
        (Resource::Rage, "rage")
    } else if at == 1 {
        (Resource::Faith, "faith")
    } else {
        (Resource::Nature, "nature")
    };
    let have = c.pool(what);
    if have <= 0 {
        return;
    }
    let took = if have < c.burn_per_stack { have } else { c.burn_per_stack };
    c.set_pool(what, have - took);
    let b = c.burned;
    if at == 0 {
        c.burned = [b[0] + took, b[1], b[2]];
    } else if at == 1 {
        c.burned = [b[0], b[1] + took, b[2]];
    } else {
        c.burned = [b[0], b[1], b[2] + took];
    }
    c.empowerment = c.empowerment + 1;
    c.burn_stacks = c.burn_stacks + 1;
    match c.expert {
        Some(ExpertPower::FiredFunnel { worth, .. }) => {
            if c.fired_left > 0 && worth > 0 {
                c.fired_left = c.fired_left - 1;
                c.mana = c.mana + worth;
            }
        },
        _ => {},
    }
    log.push(LogEntry {
        who,
        at_ms: t,
        event: Event::Burned { side, what: name, points: took, left: have - took, stacks: c.empowerment },
    });
}

/// A tick of the furnace, as `spec_stoke` says: nothing unless a furnace is
/// lit; otherwise its clock moves on a tick and every interval it holds buys
/// a stack off the fullest of rage, faith and nature, logged as it burns.
pub fn stoke(c: &mut Combatant, who: u8, side: Side, t: u32, log: &mut Vec<LogEntry>)
    requires
        old(c).burn_every_ms != 0 && old(c).burn_per_stack > 0 ==> old(c).burn_ms + TICK_MS <= u32::MAX
            && spec_furnace_fits(Combatant { burn_ms: (old(c).burn_ms + TICK_MS) as u32, ..*old(c) }, who, side, t, old(log)@),
    ensures
        (*final(c), final(log)@) == spec_stoke(*old(c), who, side, t, old(log)@),
{
    if c.burn_every_ms == 0 || c.burn_per_stack <= 0 {
        return;
    }
    c.burn_ms = c.burn_ms + TICK_MS;
    let ghost target = spec_furnace(*c, who, side, t, log@);
    while c.burn_ms >= c.burn_every_ms
        invariant
            c.burn_every_ms != 0,
            spec_furnace(*c, who, side, t, log@) == target,
            spec_furnace_fits(*c, who, side, t, log@),
        decreases c.burn_ms,
    {
        let ghost before = *c;
        c.burn_ms = c.burn_ms - c.burn_every_ms;
        buy_stack(c, who, side, t, log);
        proof {
            assert(c.burn_ms < before.burn_ms);
        }
    }
}

/// What Cold Stoke makes of a curse its holder landed: `per_stack`
/// empowerment, times one more than `standing` when it went deep.
pub open spec fn spec_cold_stoke(c: Combatant, deep: bool) -> int {
    match c.expert {
        Some(ExpertPower::ColdStoke { per_stack, standing, .. }) => spec_floor0(per_stack) * (if deep {
            1 + spec_floor0(standing)
        } else {
            1
        }),
        _ => 0,
    }
}

/// Cold Stoke: a curse its holder landed is fuel, paid in empowerment.
pub fn stoke_on_curse(c: &mut Combatant, deep: bool)
    requires
        deep ==> (old(c).expert matches Some(ExpertPower::ColdStoke { standing, .. }) ==> standing < i32::MAX),
        fits_i32(spec_cold_stoke(*old(c), deep)),
        old(c).empowerment + spec_cold_stoke(*old(c), deep) <= u32::MAX,
    ensures
        *final(c) == (Combatant { empowerment: (old(c).empowerment + spec_cold_stoke(*old(c), deep)) as u32, ..*old(c) }),
{
    match c.expert {
        Some(ExpertPower::ColdStoke { per_stack, standing, .. }) => {
            let per: i32 = if per_stack < 0 { 0 } else { per_stack };
            let times: i32 = if deep {
                1 + if standing < 0 { 0 } else { standing }
            } else {
                1
            };
            proof {
                assert(per * times == spec_cold_stoke(*c, deep));
            }
            let n = per * times;
            c.empowerment = c.empowerment + n as u32;
        },
        _ => {},
    }
}

/// What the bell leaves on a fighter for each expert: the fight's budgets
/// start at the power's figures (never below nought), a furnace expert's
/// furnace is lit and ticks no faster than a tick, the flash and the bare
/// frame add to empowerment, the fight's powers are held, and the purse's
/// and the board's leave the fighter exactly as it was.
pub proof fn the_bell_seeds_each_experts_budget(c: Combatant, e: ExpertPower)
    ensures
        ({
            let d = spec_with_expert(c, e);
            &&& e matches ExpertPower::LoudCalculation { floor } ==> d.loud_free_left == (if floor < 0 { 0 } else { floor })
                && d.expert == Some(e)
            &&& e matches ExpertPower::CurseRequisition { per_fight } ==> d.reqs_left == (if per_fight < 0 { 0 } else { per_fight })
                && d.expert == Some(e)
            &&& e matches ExpertPower::OpeningNumber { window_ms, encore } ==> d.opening_encores == (if encore < 0 { 0 } else { encore })
                && d.opening_until_ms as int == (if window_ms < 0 { 0 } else { window_ms as int }) && d.expert == Some(e)
            &&& e matches ExpertPower::FiredFunnel { per_fight, .. } ==> d.fired_left == (if per_fight < 0 { 0 } else { per_fight })
                && d.burn_per_stack >= 10 && d.burn_every_ms > 0 && d.expert == Some(e)
            &&& e matches ExpertPower::RequisitionedSilence { per_fight, .. } ==> d.silent_left == (if per_fight < 0 { 0 } else { per_fight })
                && d.expert == Some(e)
            &&& e matches ExpertPower::PonkeyBoiler { keep } ==> (c.spin_keep + (if keep < 0 { 0 } else { keep as int }) <= u32::MAX
                ==> d.spin_keep as int == c.spin_keep + (if keep < 0 { 0 } else { keep as int }))
                && d.burn_per_stack >= 10 && d.burn_every_ms > 0 && d.expert == Some(e)
            &&& e matches ExpertPower::ColdStoke { every_ms, .. } ==> d.burn_every_ms as int == (if every_ms < 50 { 50 } else { every_ms as int })
                && d.burn_per_stack >= 10 && d.expert == Some(e)
            &&& e matches ExpertPower::AshAndWhisper { every_ms, .. } ==> d.burn_every_ms as int == (if every_ms < 50 { 50 } else { every_ms as int })
                && d.burn_per_stack >= 10 && d.expert == Some(e)
            &&& e matches ExpertPower::BareFurnace { per_frame, every_ms, cap } ==> d.burn_every_ms as int == (if every_ms < 50 { 50 } else { every_ms as int })
                && d.burn_per_stack >= 10 && d.expert == Some(e)
                && (c.empowerment + (if cap < 0 { 0 } else { cap as int }) <= u32::MAX ==> {
                    &&& c.empowerment <= d.empowerment
                    &&& d.empowerment <= c.empowerment + (if cap < 0 { 0 } else { cap as int })
                    &&& (per_frame > 0 && c.empty_frames > 0 && cap > 0 && per_frame * c.empty_frames >= 10 ==> d.empowerment > c.empowerment)
                })
            &&& e matches ExpertPower::FlashPowder { .. } ==> d.burn_per_stack >= 10 && d.burn_every_ms > 0 && d.expert == Some(e)
            &&& (e is ShortProgramme || e is EleventhSeason || e is CurtainLine || e is FullBill || e is ToldOnce) ==> d == c
            &&& (e is StandingFact || e is OverwoundArm || e is PatentedFunnel || e is CursedLicence || e is LoudDoubt
                || e is LicensedRumour) ==> d == (Combatant { expert: Some(e), ..c })
        }),
{
    match e {
        ExpertPower::BareFurnace { per_frame, every_ms, cap } => {
            let p: int = if per_frame < 0 { 0 } else { per_frame as int };
            let top: int = if cap < 0 { 0 } else { cap as int };
            if per_frame > 0 && c.empty_frames > 0 && cap > 0 && per_frame * c.empty_frames >= 10 {
                assert(p * (c.empty_frames as int) / 10 >= 1) by (nonlinear_arith)
                    requires
                        p * (c.empty_frames as int) >= 10;
            }
        },
        _ => {},
    }
}

} // verus!
