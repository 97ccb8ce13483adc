//! A fight log read out as plain text.
use vstd::prelude::*;

use crate::combat::{CombatLog, Event, LogEntry, Outcome, Side};
use crate::curse::CurseKind;
use crate::text::{int_text, push_digits, push_pad2, spec_digits, spec_int_text, spec_pad2};
use crate::stats::tdiv;

verus! {

/// Whose name a line is about: the player, or the first foe.
pub open spec fn spec_who(log: CombatLog, s: Side) -> Seq<char> {
    match s {
        Side::Player => log.player.name@,
        Side::Enemy => log.enemies@[0].name@,
    }
}

/// A curse's name as a line prints it.
pub open spec fn spec_curse_name(k: CurseKind) -> Seq<char> {
    match k {
        CurseKind::Searing => "searing"@,
        CurseKind::Frost => "frost"@,
        CurseKind::Stun => "stun"@,
        CurseKind::Misfire => "misfire"@,
    }
}

/// How a fight ended, as the last line prints it.
pub open spec fn spec_outcome_label(o: Outcome) -> Seq<char> {
    match o {
        Outcome::Victory => "VICTORY"@,
        Outcome::Defeat => "DEFEAT"@,
        Outcome::Stalemate => "STALEMATE"@,
    }
}

/// Hundredths as a line prints them: the whole part, a point, and the rest
/// as two digits, each taken the way integer division rounds toward zero.
pub open spec fn spec_hundredths(v: int) -> Seq<char> {
    let q = tdiv(v, 100);
    let r = v - q * 100;
    spec_int_text(q) + "."@ + if r >= 0 {
        spec_pad2(r)
    } else {
        "-"@ + spec_digits((-r) as nat)
    }
}

/// Whether a line names a foe, and so needs one to name.
pub open spec fn spec_speaks_of_a_foe(e: LogEntry) -> bool {
    match e.event {
        Event::Activate { side, .. } => side == Side::Enemy,
        Event::Burned { side, .. } => side == Side::Enemy,
        Event::Unmade { side, .. } => side == Side::Enemy,
        Event::Broke { side, .. } => side == Side::Enemy,
        Event::Grew { side, .. } => side == Side::Enemy,
        Event::Misfired { side, .. } => side == Side::Enemy,
        Event::Warded { side, .. } => side == Side::Enemy,
        Event::Cast { side, .. } => side == Side::Enemy,
        Event::ResourceCheck { side, .. } => side == Side::Enemy,
        Event::GainResource { side, .. } => side == Side::Enemy,
        Event::Reflected { side, .. } => side == Side::Enemy,
        Event::Fused { side, .. } => side == Side::Enemy,
        Event::Hit { .. } => true,
        Event::MindHit { by, .. } => by == Side::Enemy,
        Event::GainArmor { side, .. } => side == Side::Enemy,
        Event::GainMana { side, .. } => side == Side::Enemy,
        Event::ManaCheck { side, .. } => side == Side::Enemy,
        Event::Stunned { on, .. } => on == Side::Enemy,
        Event::SuddenDeath { .. } => false,
        Event::Spent { side, .. } => side == Side::Enemy,
        Event::Drained { on, .. } => on == Side::Enemy,
        Event::Cursed { on, .. } => on == Side::Enemy,
        Event::Burn { side, .. } => side == Side::Enemy,
        Event::Regen { side, .. } => side == Side::Enemy,
        Event::Shunted { side, .. } => side == Side::Enemy,
        Event::Derailed { side, .. } => side == Side::Enemy,
        Event::Turned { side, .. } => side == Side::Enemy,
        Event::Spun { side, .. } => side == Side::Enemy,
        Event::Hastened { side, .. } => side == Side::Enemy,
        Event::Empowered { side, .. } => side == Side::Enemy,
        Event::Dreading { side, .. } => side == Side::Enemy,
        Event::Whetted { side, .. } => side == Side::Enemy,
        Event::Forking { side, .. } => side == Side::Enemy,
        Event::Shielded { side, .. } => side == Side::Enemy,
        Event::Deflecting { side, .. } => side == Side::Enemy,
        Event::Fell { side } => side == Side::Enemy,
        Event::End { .. } => false,
    }
}

fn add_who(s: &mut String, log: &CombatLog, side: Side)
    requires
        side == Side::Enemy ==> log.enemies@.len() > 0,
    ensures
        final(s)@ == old(s)@ + spec_who(*log, side),
{
    match side {
        Side::Player => s.append(log.player.name.as_str()),
        Side::Enemy => s.append(log.enemies[0].name.as_str()),
    }
}

fn add_int(s: &mut String, v: i64)
    ensures
        final(s)@ == old(s)@ + spec_int_text(v as int),
{
    let t = int_text(v);
    s.append(t.as_str());
}

fn add_hundredths(s: &mut String, v: i32)
    ensures
        final(s)@ == old(s)@ + spec_hundredths(v as int),
{
    let ghost s0 = s@;
    let q = v / 100;
    let r = v % 100;
    add_int(s, q as i64);
    s.append(".");
    if r >= 0 {
        push_pad2(s, r as u64);
    } else {
        s.append("-");
        push_digits(s, (-r) as u64);
    }
    proof {
        assert(q == tdiv(v as int, 100));
        assert(r == v - q * 100);
        assert(s@ =~= s0 + spec_hundredths(v as int));
    }
}

/// One line of plain text for a log entry: `stamp` is the entry's time as
/// printed, and `secs` the duration it carries as printed, where it carries
/// one.
pub open spec fn spec_line(log: CombatLog, e: LogEntry, stamp: Seq<char>, secs: Seq<char>) -> Seq<char> {
    match e.event {
        Event::Activate { side, item, .. } => stamp + " "@ + spec_who(log, side) + " activates "@ + item@,
        Event::Burned { side, what, points, left, stacks } => stamp + " "@ + spec_who(log, side) + " shovels "@ + spec_int_text(points as int) + " "@ + what@ + " into the furnace ("@ + spec_int_text(left as int) + " left, "@ + spec_int_text(stacks as int) + " stacks)"@,
        Event::Unmade { side, at, under } => stamp + " "@ + spec_who(log, side) + " is unmade: "@ + spec_int_text(at as int) + " maximum health left, against the "@ + spec_int_text(under as int) + " it takes"@,
        Event::Broke { side, item, .. } => stamp + " "@ + spec_who(log, side) + "'s "@ + item@ + " comes apart and stops"@,
        Event::Grew { side, amount, total, paid_armor } => (if paid_armor > 0 { stamp + " "@ + spec_who(log, side) + " beds "@ + spec_int_text(paid_armor as int) + " of its armour down into "@ + spec_int_text(amount as int) + " more to lose ("@ + spec_int_text(total as int) + " max health)"@ } else { stamp + " "@ + spec_who(log, side) + " grows "@ + spec_int_text(amount as int) + " tougher ("@ + spec_int_text(total as int) + " max health)"@ }),
        Event::Misfired { side, item } => stamp + " "@ + spec_who(log, side) + "'s "@ + item@ + " misfires and does nothing"@,
        Event::Warded { side, item } => stamp + " "@ + spec_who(log, side) + "'s "@ + item@ + " misses entirely"@,
        Event::Cast { side, paid, cost, remaining } => (if paid { stamp + " "@ + spec_who(log, side) + " spends "@ + spec_int_text(cost as int) + " mana and casts in full ("@ + spec_int_text(remaining as int) + " left)"@ } else { stamp + " "@ + spec_who(log, side) + " has no mana - the spell lands weakly"@ }),
        Event::ResourceCheck { side, what, cost, paid, remaining } => stamp + " "@ + spec_who(log, side) + " "@ + (if paid { "spends"@ } else { "cannot pay"@ }) + " "@ + spec_int_text(cost as int) + " "@ + what@ + " ("@ + spec_int_text(remaining as int) + " left)"@,
        Event::GainResource { side, what, amount, total, accrued } => stamp + " "@ + spec_who(log, side) + " gains "@ + spec_int_text(amount as int) + " "@ + what@ + (if accrued { " on what it was holding"@ } else { Seq::<char>::empty() }) + " ("@ + spec_int_text(total as int) + ")"@,
        Event::Reflected { side, damage } => stamp + " "@ + spec_who(log, side) + " turns back "@ + spec_int_text(damage as int),
        Event::Fused { side, what, total, from, and } => stamp + " "@ + spec_who(log, side) + " fuses 1 "@ + what@ + " ("@ + spec_int_text(total as int) + ") - "@ + spec_int_text(from.left as int) + " "@ + from.what@ + " and "@ + spec_int_text(and.left as int) + " "@ + and.what@ + " left"@,
        Event::Hit { by, by_item: _, damage, absorbed, target_health, target_armor } => stamp + " "@ + spec_who(log, by) + " hits "@ + spec_who(log, by.spec_other()) + " for "@ + spec_int_text(damage as int) + (if absorbed > 0 { " ("@ + spec_int_text(absorbed as int) + " soaked, "@ + spec_int_text(target_armor as int) + " armor left)"@ } else { Seq::<char>::empty() }) + " -> "@ + spec_int_text((if target_health < 0 { 0 } else { target_health }) as int) + " hp"@,
        Event::MindHit { by, amount, target_max_health } => stamp + " "@ + spec_who(log, by) + " deals "@ + spec_int_text(amount as int) + " MIND damage -> max hp now "@ + spec_int_text(target_max_health as int),
        Event::GainArmor { side, amount, total } => stamp + " "@ + spec_who(log, side) + " gains "@ + spec_int_text(amount as int) + " armor ("@ + spec_int_text(total as int) + ")"@,
        Event::GainMana { side, amount, total, accrued } => stamp + " "@ + spec_who(log, side) + " gains "@ + spec_int_text(amount as int) + " mana"@ + (if accrued { " on what it was holding"@ } else { Seq::<char>::empty() }) + " ("@ + spec_int_text(total as int) + ")"@,
        Event::ManaCheck { side, cost, paid, remaining } => (if paid { stamp + " "@ + spec_who(log, side) + " spends "@ + spec_int_text(cost as int) + " mana ("@ + spec_int_text(remaining as int) + " left)"@ } else { stamp + " "@ + spec_who(log, side) + " cannot pay "@ + spec_int_text(cost as int) + " mana (has "@ + spec_int_text(remaining as int) + ")"@ }),
        Event::Stunned { on, item, aimed, .. } => stamp + " "@ + (if aimed { "picks out "@ } else { Seq::<char>::empty() }) + spec_who(log, on) + "'s "@ + item@ + " is stunned for "@ + secs + "s"@,
        Event::SuddenDeath { pct } => stamp + " the fight turns - "@ + spec_int_text(pct as int) + "% of everyone, and rising"@,
        Event::Spent { side, amount, remaining } => stamp + " "@ + spec_who(log, side) + " spends "@ + spec_int_text(amount as int) + " gold ("@ + spec_int_text(remaining as int) + " left)"@,
        Event::Drained { on, what, amount, total } => stamp + " "@ + spec_who(log, on) + " loses "@ + spec_int_text(amount as int) + " "@ + what@ + " ("@ + spec_int_text(total as int) + " left)"@,
        Event::Cursed { on, kind, stacks, .. } => stamp + " curse of "@ + spec_curse_name(kind) + (if stacks > 1 { " x"@ + spec_int_text(stacks as int) } else { Seq::<char>::empty() }) + " on "@ + spec_who(log, on) + " for "@ + secs + "s"@,
        Event::Burn { side, damage, health } => stamp + " "@ + spec_who(log, side) + " burns for "@ + spec_int_text(damage as int) + " -> "@ + spec_int_text((if health < 0 { 0 } else { health }) as int) + " hp"@,
        Event::Regen { side, amount, health } => stamp + " "@ + spec_who(log, side) + " regenerates "@ + spec_int_text(amount as int) + " -> "@ + spec_int_text(health as int) + " hp"@,
        Event::Shunted { side, from, to, .. } => stamp + " "@ + spec_who(log, side) + "'s "@ + from@ + " hands "@ + secs + "s to "@ + to@,
        Event::Derailed { side, item, .. } => stamp + " "@ + spec_who(log, side) + " catches "@ + item@ + " at the top of its swing and sets it back "@ + secs + "s"@,
        Event::Turned { side, item, to, stacks, .. } => stamp + " "@ + spec_who(log, side) + "'s "@ + item@ + " turns (position "@ + spec_int_text(to as int) + ", "@ + spec_int_text(stacks as int) + " banked)"@,
        Event::Spun { side, item, stacks, pct, .. } => stamp + " "@ + spec_who(log, side) + "'s "@ + item@ + " spends "@ + spec_int_text(stacks as int) + " turns (+"@ + spec_hundredths(pct as int) + "x power on this one)"@,
        Event::Hastened { side, item, .. } => stamp + " "@ + spec_who(log, side) + "'s "@ + item@ + " hastened by "@ + secs + "s"@,
        Event::Empowered { side, total, power_bonus } => stamp + " "@ + spec_who(log, side) + " empowered x"@ + spec_int_text(total as int) + " (+"@ + spec_hundredths(power_bonus as int) + "x power on magic)"@,
        Event::Dreading { side, total, mind_bonus } => stamp + " "@ + spec_who(log, side) + " dread x"@ + spec_int_text(total as int) + " (+"@ + spec_int_text(mind_bonus as int) + " per point of mind)"@,
        Event::Whetted { side, total, power_bonus } => stamp + " "@ + spec_who(log, side) + " spellblade x"@ + spec_int_text(total as int) + " (+"@ + spec_hundredths(power_bonus as int) + "x power on iron)"@,
        Event::Forking { side, total } => stamp + " "@ + spec_who(log, side) + " spell forking x"@ + spec_int_text(total as int) + " (every cast lands "@ + spec_int_text(total + 1 as int) + " times)"@,
        Event::Shielded { side, total, reduction } => stamp + " "@ + spec_who(log, side) + " mana shield x"@ + spec_int_text(total as int) + " (-"@ + spec_int_text(reduction as int) + " per magic hit)"@,
        Event::Deflecting { side, total, reduction } => stamp + " "@ + spec_who(log, side) + " deflection x"@ + spec_int_text(total as int) + " (-"@ + spec_int_text(reduction as int) + " per physical hit)"@,
        Event::Fell { side } => stamp + " "@ + spec_who(log, side) + " falls!"@,
        Event::End { outcome } => "-- "@ + spec_outcome_label(outcome) + " --"@,
    }
}

#[verifier::rlimit(60)]
fn line_part_0(log: &CombatLog, e: &LogEntry, stamp: &str, secs: &str) -> (r: String)
    requires
        e.event is Activate || e.event is Burned || e.event is Unmade || e.event is Broke || e.event is Grew || e.event is Misfired || e.event is Warded || e.event is Cast || e.event is ResourceCheck || e.event is GainResource,
        spec_speaks_of_a_foe(*e) ==> log.enemies@.len() > 0,
    ensures
        r@ == spec_line(*log, *e, stamp@, secs@),
{
    let mut s = String::new();
    match &e.event {
        Event::Activate { side, item, .. } => {
            let ghost s0 = s@;
            s.append(stamp);
            s.append(" ");
            add_who(&mut s, log, *side);
            s.append(" activates ");
            s.append(item.as_str());
            proof {
                assert(s@ =~= s0 + spec_line(*log, *e, stamp@, secs@));
            }
        },
        Event::Burned { side, what, points, left, stacks } => {
            let ghost s0 = s@;
            s.append(stamp);
            s.append(" ");
            add_who(&mut s, log, *side);
            s.append(" shovels ");
            add_int(&mut s, *points as i64);
            s.append(" ");
            s.append(*what);
            s.append(" into the furnace (");
            add_int(&mut s, *left as i64);
            s.append(" left, ");
            add_int(&mut s, *stacks as i64);
            s.append(" stacks)");
            proof {
                assert(s@ =~= s0 + spec_line(*log, *e, stamp@, secs@));
            }
        },
        Event::Unmade { side, at, under } => {
            let ghost s0 = s@;
            s.append(stamp);
            s.append(" ");
            add_who(&mut s, log, *side);
            s.append(" is unmade: ");
            add_int(&mut s, *at as i64);
            s.append(" maximum health left, against the ");
            add_int(&mut s, *under as i64);
            s.append(" it takes");
            proof {
                assert(s@ =~= s0 + spec_line(*log, *e, stamp@, secs@));
            }
        },
        Event::Broke { side, item, .. } => {
            let ghost s0 = s@;
            s.append(stamp);
            s.append(" ");
            add_who(&mut s, log, *side);
            s.append("'s ");
            s.append(item.as_str());
            s.append(" comes apart and stops");
            proof {
                assert(s@ =~= s0 + spec_line(*log, *e, stamp@, secs@));
            }
        },
        Event::Grew { side, amount, total, paid_armor } => {
            let ghost s0 = s@;
            if *paid_armor > 0 {
                s.append(stamp);
                s.append(" ");
                add_who(&mut s, log, *side);
                s.append(" beds ");
                add_int(&mut s, *paid_armor as i64);
                s.append(" of its armour down into ");
                add_int(&mut s, *amount as i64);
                s.append(" more to lose (");
                add_int(&mut s, *total as i64);
                s.append(" max health)");
            } else {
                s.append(stamp);
                s.append(" ");
                add_who(&mut s, log, *side);
                s.append(" grows ");
                add_int(&mut s, *amount as i64);
                s.append(" tougher (");
                add_int(&mut s, *total as i64);
                s.append(" max health)");
            }
            proof {
                assert(s@ =~= s0 + spec_line(*log, *e, stamp@, secs@));
            }
        },
        Event::Misfired { side, item } => {
            let ghost s0 = s@;
            s.append(stamp);
            s.append(" ");
            add_who(&mut s, log, *side);
            s.append("'s ");
            s.append(item.as_str());
            s.append(" misfires and does nothing");
            proof {
                assert(s@ =~= s0 + spec_line(*log, *e, stamp@, secs@));
            }
        },
        Event::Warded { side, item } => {
            let ghost s0 = s@;
            s.append(stamp);
            s.append(" ");
            add_who(&mut s, log, *side);
            s.append("'s ");
            s.append(item.as_str());
            s.append(" misses entirely");
            proof {
                assert(s@ =~= s0 + spec_line(*log, *e, stamp@, secs@));
            }
        },
        Event::Cast { side, paid, cost, remaining } => {
            let ghost s0 = s@;
            if *paid {
                s.append(stamp);
                s.append(" ");
                add_who(&mut s, log, *side);
                s.append(" spends ");
                add_int(&mut s, *cost as i64);
                s.append(" mana and casts in full (");
                add_int(&mut s, *remaining as i64);
                s.append(" left)");
            } else {
                s.append(stamp);
                s.append(" ");
                add_who(&mut s, log, *side);
                s.append(" has no mana - the spell lands weakly");
            }
            proof {
                assert(s@ =~= s0 + spec_line(*log, *e, stamp@, secs@));
            }
        },
        Event::ResourceCheck { side, what, cost, paid, remaining } => {
            let ghost s0 = s@;
            s.append(stamp);
            s.append(" ");
            add_who(&mut s, log, *side);
            s.append(" ");
            if *paid {
                s.append("spends");
            } else {
                s.append("cannot pay");
            }
            s.append(" ");
            add_int(&mut s, *cost as i64);
            s.append(" ");
            s.append(*what);
            s.append(" (");
            add_int(&mut s, *remaining as i64);
            s.append(" left)");
            proof {
                assert(s@ =~= s0 + spec_line(*log, *e, stamp@, secs@));
            }
        },
        Event::GainResource { side, what, amount, total, accrued } => {
            let ghost s0 = s@;
            s.append(stamp);
            s.append(" ");
            add_who(&mut s, log, *side);
            s.append(" gains ");
            add_int(&mut s, *amount as i64);
            s.append(" ");
            s.append(*what);
            if *accrued {
                s.append(" on what it was holding");
            } else {
            }
            s.append(" (");
            add_int(&mut s, *total as i64);
            s.append(")");
            proof {
                assert(s@ =~= s0 + spec_line(*log, *e, stamp@, secs@));
            }
        },
        _ => {},
    }
    s
}

#[verifier::rlimit(60)]
fn line_part_1(log: &CombatLog, e: &LogEntry, stamp: &str, secs: &str) -> (r: String)
    requires
        e.event is Reflected || e.event is Fused || e.event is Hit || e.event is MindHit || e.event is GainArmor || e.event is GainMana || e.event is ManaCheck || e.event is Stunned || e.event is SuddenDeath || e.event is Spent,
        spec_speaks_of_a_foe(*e) ==> log.enemies@.len() > 0,
    ensures
        r@ == spec_line(*log, *e, stamp@, secs@),
{
    let mut s = String::new();
    match &e.event {
        Event::Reflected { side, damage } => {
            let ghost s0 = s@;
            s.append(stamp);
            s.append(" ");
            add_who(&mut s, log, *side);
            s.append(" turns back ");
            add_int(&mut s, *damage as i64);
            proof {
                assert(s@ =~= s0 + spec_line(*log, *e, stamp@, secs@));
            }
        },
        Event::Fused { side, what, total, from, and } => {
            let ghost s0 = s@;
            s.append(stamp);
            s.append(" ");
            add_who(&mut s, log, *side);
            s.append(" fuses 1 ");
            s.append(*what);
            s.append(" (");
            add_int(&mut s, *total as i64);
            s.append(") - ");
            add_int(&mut s, from.left as i64);
            s.append(" ");
            s.append(from.what);
            s.append(" and ");
            add_int(&mut s, and.left as i64);
            s.append(" ");
            s.append(and.what);
            s.append(" left");
            proof {
                assert(s@ =~= s0 + spec_line(*log, *e, stamp@, secs@));
            }
        },
        Event::Hit { by, by_item: _, damage, absorbed, target_health, target_armor } => {
            let ghost s0 = s@;
            s.append(stamp);
            s.append(" ");
            add_who(&mut s, log, *by);
            s.append(" hits ");
            add_who(&mut s, log, by.other());
            s.append(" for ");
            add_int(&mut s, *damage as i64);
            if *absorbed > 0 {
                s.append(" (");
                add_int(&mut s, *absorbed as i64);
                s.append(" soaked, ");
                add_int(&mut s, *target_armor as i64);
                s.append(" armor left)");
            } else {
            }
            s.append(" -> ");
            add_int(&mut s, (if *target_health < 0 { 0 } else { *target_health }) as i64);
            s.append(" hp");
            proof {
                assert(s@ =~= s0 + spec_line(*log, *e, stamp@, secs@));
            }
        },
        Event::MindHit { by, amount, target_max_health } => {
            let ghost s0 = s@;
            s.append(stamp);
            s.append(" ");
            add_who(&mut s, log, *by);
            s.append(" deals ");
            add_int(&mut s, *amount as i64);
            s.append(" MIND damage -> max hp now ");
            add_int(&mut s, *target_max_health as i64);
            proof {
                assert(s@ =~= s0 + spec_line(*log, *e, stamp@, secs@));
            }
        },
        Event::GainArmor { side, amount, total } => {
            let ghost s0 = s@;
            s.append(stamp);
            s.append(" ");
            add_who(&mut s, log, *side);
            s.append(" gains ");
            add_int(&mut s, *amount as i64);
            s.append(" armor (");
            add_int(&mut s, *total as i64);
            s.append(")");
            proof {
                assert(s@ =~= s0 + spec_line(*log, *e, stamp@, secs@));
            }
        },
        Event::GainMana { side, amount, total, accrued } => {
            let ghost s0 = s@;
            s.append(stamp);
            s.append(" ");
            add_who(&mut s, log, *side);
            s.append(" gains ");
            add_int(&mut s, *amount as i64);
            s.append(" mana");
            if *accrued {
                s.append(" on what it was holding");
            } else {
            }
            s.append(" (");
            add_int(&mut s, *total as i64);
            s.append(")");
            proof {
                assert(s@ =~= s0 + spec_line(*log, *e, stamp@, secs@));
            }
        },
        Event::ManaCheck { side, cost, paid, remaining } => {
            let ghost s0 = s@;
            if *paid {
                s.append(stamp);
                s.append(" ");
                add_who(&mut s, log, *side);
                s.append(" spends ");
                add_int(&mut s, *cost as i64);
                s.append(" mana (");
                add_int(&mut s, *remaining as i64);
                s.append(" left)");
            } else {
                s.append(stamp);
                s.append(" ");
                add_who(&mut s, log, *side);
                s.append(" cannot pay ");
                add_int(&mut s, *cost as i64);
                s.append(" mana (has ");
                add_int(&mut s, *remaining as i64);
                s.append(")");
            }
            proof {
                assert(s@ =~= s0 + spec_line(*log, *e, stamp@, secs@));
            }
        },
        Event::Stunned { on, item, aimed, .. } => {
            let ghost s0 = s@;
            s.append(stamp);
            s.append(" ");
            if *aimed {
                s.append("picks out ");
            } else {
            }
            add_who(&mut s, log, *on);
            s.append("'s ");
            s.append(item.as_str());
            s.append(" is stunned for ");
            s.append(secs);
            s.append("s");
            proof {
                assert(s@ =~= s0 + spec_line(*log, *e, stamp@, secs@));
            }
        },
        Event::SuddenDeath { pct } => {
            let ghost s0 = s@;
            s.append(stamp);
            s.append(" the fight turns - ");
            add_int(&mut s, *pct as i64);
            s.append("% of everyone, and rising");
            proof {
                assert(s@ =~= s0 + spec_line(*log, *e, stamp@, secs@));
            }
        },
        Event::Spent { side, amount, remaining } => {
            let ghost s0 = s@;
            s.append(stamp);
            s.append(" ");
            add_who(&mut s, log, *side);
            s.append(" spends ");
            add_int(&mut s, *amount as i64);
            s.append(" gold (");
            add_int(&mut s, *remaining as i64);
            s.append(" left)");
            proof {
                assert(s@ =~= s0 + spec_line(*log, *e, stamp@, secs@));
            }
        },
        _ => {},
    }
    s
}

#[verifier::rlimit(60)]
fn line_part_2(log: &CombatLog, e: &LogEntry, stamp: &str, secs: &str) -> (r: String)
    requires
        e.event is Drained || e.event is Cursed || e.event is Burn || e.event is Regen || e.event is Shunted || e.event is Derailed || e.event is Turned || e.event is Spun || e.event is Hastened || e.event is Empowered,
        spec_speaks_of_a_foe(*e) ==> log.enemies@.len() > 0,
    ensures
        r@ == spec_line(*log, *e, stamp@, secs@),
{
    let mut s = String::new();
    match &e.event {
        Event::Drained { on, what, amount, total } => {
            let ghost s0 = s@;
            s.append(stamp);
            s.append(" ");
            add_who(&mut s, log, *on);
            s.append(" loses ");
            add_int(&mut s, *amount as i64);
            s.append(" ");
            s.append(*what);
            s.append(" (");
            add_int(&mut s, *total as i64);
            s.append(" left)");
            proof {
                assert(s@ =~= s0 + spec_line(*log, *e, stamp@, secs@));
            }
        },
        Event::Cursed { on, kind, stacks, .. } => {
            let ghost s0 = s@;
            s.append(stamp);
            s.append(" curse of ");
            s.append(kind.name());
            if *stacks > 1 {
                s.append(" x");
                add_int(&mut s, *stacks as i64);
            } else {
            }
            s.append(" on ");
            add_who(&mut s, log, *on);
            s.append(" for ");
            s.append(secs);
            s.append("s");
            proof {
                assert(s@ =~= s0 + spec_line(*log, *e, stamp@, secs@));
            }
        },
        Event::Burn { side, damage, health } => {
            let ghost s0 = s@;
            s.append(stamp);
            s.append(" ");
            add_who(&mut s, log, *side);
            s.append(" burns for ");
            add_int(&mut s, *damage as i64);
            s.append(" -> ");
            add_int(&mut s, (if *health < 0 { 0 } else { *health }) as i64);
            s.append(" hp");
            proof {
                assert(s@ =~= s0 + spec_line(*log, *e, stamp@, secs@));
            }
        },
        Event::Regen { side, amount, health } => {
            let ghost s0 = s@;
            s.append(stamp);
            s.append(" ");
            add_who(&mut s, log, *side);
            s.append(" regenerates ");
            add_int(&mut s, *amount as i64);
            s.append(" -> ");
            add_int(&mut s, *health as i64);
            s.append(" hp");
            proof {
                assert(s@ =~= s0 + spec_line(*log, *e, stamp@, secs@));
            }
        },
        Event::Shunted { side, from, to, .. } => {
            let ghost s0 = s@;
            s.append(stamp);
            s.append(" ");
            add_who(&mut s, log, *side);
            s.append("'s ");
            s.append(from.as_str());
            s.append(" hands ");
            s.append(secs);
            s.append("s to ");
            s.append(to.as_str());
            proof {
                assert(s@ =~= s0 + spec_line(*log, *e, stamp@, secs@));
            }
        },
        Event::Derailed { side, item, .. } => {
            let ghost s0 = s@;
            s.append(stamp);
            s.append(" ");
            add_who(&mut s, log, *side);
            s.append(" catches ");
            s.append(item.as_str());
            s.append(" at the top of its swing and sets it back ");
            s.append(secs);
            s.append("s");
            proof {
                assert(s@ =~= s0 + spec_line(*log, *e, stamp@, secs@));
            }
        },
        Event::Turned { side, item, to, stacks, .. } => {
            let ghost s0 = s@;
            s.append(stamp);
            s.append(" ");
            add_who(&mut s, log, *side);
            s.append("'s ");
            s.append(item.as_str());
            s.append(" turns (position ");
            add_int(&mut s, *to as i64);
            s.append(", ");
            add_int(&mut s, *stacks as i64);
            s.append(" banked)");
            proof {
                assert(s@ =~= s0 + spec_line(*log, *e, stamp@, secs@));
            }
        },
        Event::Spun { side, item, stacks, pct, .. } => {
            let ghost s0 = s@;
            s.append(stamp);
            s.append(" ");
            add_who(&mut s, log, *side);
            s.append("'s ");
            s.append(item.as_str());
            s.append(" spends ");
            add_int(&mut s, *stacks as i64);
            s.append(" turns (+");
            add_hundredths(&mut s, *pct);
            s.append("x power on this one)");
            proof {
                assert(s@ =~= s0 + spec_line(*log, *e, stamp@, secs@));
            }
        },
        Event::Hastened { side, item, .. } => {
            let ghost s0 = s@;
            s.append(stamp);
            s.append(" ");
            add_who(&mut s, log, *side);
            s.append("'s ");
            s.append(item.as_str());
            s.append(" hastened by ");
            s.append(secs);
            s.append("s");
            proof {
                assert(s@ =~= s0 + spec_line(*log, *e, stamp@, secs@));
            }
        },
        Event::Empowered { side, total, power_bonus } => {
            let ghost s0 = s@;
            s.append(stamp);
            s.append(" ");
            add_who(&mut s, log, *side);
            s.append(" empowered x");
            add_int(&mut s, *total as i64);
            s.append(" (+");
            add_hundredths(&mut s, *power_bonus);
            s.append("x power on magic)");
            proof {
                assert(s@ =~= s0 + spec_line(*log, *e, stamp@, secs@));
            }
        },
        _ => {},
    }
    s
}

#[verifier::rlimit(60)]
fn line_part_3(log: &CombatLog, e: &LogEntry, stamp: &str, secs: &str) -> (r: String)
    requires
        e.event is Dreading || e.event is Whetted || e.event is Forking || e.event is Shielded || e.event is Deflecting || e.event is Fell || e.event is End,
        spec_speaks_of_a_foe(*e) ==> log.enemies@.len() > 0,
    ensures
        r@ == spec_line(*log, *e, stamp@, secs@),
{
    let mut s = String::new();
    match &e.event {
        Event::Dreading { side, total, mind_bonus } => {
            let ghost s0 = s@;
            s.append(stamp);
            s.append(" ");
            add_who(&mut s, log, *side);
            s.append(" dread x");
            add_int(&mut s, *total as i64);
            s.append(" (+");
            add_int(&mut s, *mind_bonus as i64);
            s.append(" per point of mind)");
            proof {
                assert(s@ =~= s0 + spec_line(*log, *e, stamp@, secs@));
            }
        },
        Event::Whetted { side, total, power_bonus } => {
            let ghost s0 = s@;
            s.append(stamp);
            s.append(" ");
            add_who(&mut s, log, *side);
            s.append(" spellblade x");
            add_int(&mut s, *total as i64);
            s.append(" (+");
            add_hundredths(&mut s, *power_bonus);
            s.append("x power on iron)");
            proof {
                assert(s@ =~= s0 + spec_line(*log, *e, stamp@, secs@));
            }
        },
        Event::Forking { side, total } => {
            let ghost s0 = s@;
            s.append(stamp);
            s.append(" ");
            add_who(&mut s, log, *side);
            s.append(" spell forking x");
            add_int(&mut s, *total as i64);
            s.append(" (every cast lands ");
            add_int(&mut s, *total as i64 + 1 as i64);
            s.append(" times)");
            proof {
                assert(s@ =~= s0 + spec_line(*log, *e, stamp@, secs@));
            }
        },
        Event::Shielded { side, total, reduction } => {
            let ghost s0 = s@;
            s.append(stamp);
            s.append(" ");
            add_who(&mut s, log, *side);
            s.append(" mana shield x");
            add_int(&mut s, *total as i64);
            s.append(" (-");
            add_int(&mut s, *reduction as i64);
            s.append(" per magic hit)");
            proof {
                assert(s@ =~= s0 + spec_line(*log, *e, stamp@, secs@));
            }
        },
        Event::Deflecting { side, total, reduction } => {
            let ghost s0 = s@;
            s.append(stamp);
            s.append(" ");
            add_who(&mut s, log, *side);
            s.append(" deflection x");
            add_int(&mut s, *total as i64);
            s.append(" (-");
            add_int(&mut s, *reduction as i64);
            s.append(" per physical hit)");
            proof {
                assert(s@ =~= s0 + spec_line(*log, *e, stamp@, secs@));
            }
        },
        Event::Fell { side } => {
            let ghost s0 = s@;
            s.append(stamp);
            s.append(" ");
            add_who(&mut s, log, *side);
            s.append(" falls!");
            proof {
                assert(s@ =~= s0 + spec_line(*log, *e, stamp@, secs@));
            }
        },
        Event::End { outcome } => {
            let ghost s0 = s@;
            s.append("-- ");
            s.append(outcome.label());
            s.append(" --");
            proof {
                assert(s@ =~= s0 + spec_line(*log, *e, stamp@, secs@));
            }
        },
        _ => {},
    }
    s
}

/// One line of plain text for a log entry, for the CLI and the on-screen
/// log: `stamp` is the entry's time as printed, and `secs` the duration it
/// carries as printed, where it carries one.
pub fn line_text(log: &CombatLog, e: &LogEntry, stamp: &str, secs: &str) -> (r: String)
    requires
        spec_speaks_of_a_foe(*e) ==> log.enemies@.len() > 0,
    ensures
        r@ == spec_line(*log, *e, stamp@, secs@),
{
    if matches!(e.event, Event::Activate { .. } | Event::Burned { .. } | Event::Unmade { .. } | Event::Broke { .. } | Event::Grew { .. } | Event::Misfired { .. } | Event::Warded { .. } | Event::Cast { .. } | Event::ResourceCheck { .. } | Event::GainResource { .. }) {
        return line_part_0(log, e, stamp, secs);
    }
    if matches!(e.event, Event::Reflected { .. } | Event::Fused { .. } | Event::Hit { .. } | Event::MindHit { .. } | Event::GainArmor { .. } | Event::GainMana { .. } | Event::ManaCheck { .. } | Event::Stunned { .. } | Event::SuddenDeath { .. } | Event::Spent { .. }) {
        return line_part_1(log, e, stamp, secs);
    }
    if matches!(e.event, Event::Drained { .. } | Event::Cursed { .. } | Event::Burn { .. } | Event::Regen { .. } | Event::Shunted { .. } | Event::Derailed { .. } | Event::Turned { .. } | Event::Spun { .. } | Event::Hastened { .. } | Event::Empowered { .. }) {
        return line_part_2(log, e, stamp, secs);
    }
    line_part_3(log, e, stamp, secs)
}

/// A purse line says what was spent and then what is left: the stamp, who
/// spent it, " spends ", the amount, " gold (", what remains, " left)".
pub proof fn a_spent_line_names_the_amount_then_the_rest(log: CombatLog, e: LogEntry, stamp: Seq<char>, secs: Seq<char>)
    requires
        e.event is Spent,
    ensures
        ({
            let side = e.event->Spent_side;
            let amount = e.event->Spent_amount;
            let remaining = e.event->Spent_remaining;
            spec_line(log, e, stamp, secs) == stamp + " "@ + spec_who(log, side) + " spends "@ + spec_int_text(amount as int)
                + " gold ("@ + spec_int_text(remaining as int) + " left)"@
        }),
{
}

/// Every line that carries a change and a standing figure gives the change
/// first and the figure it leaves second: armour, mana and pools gained and
/// their totals, mana and pools spent and what is left, a drain and what is
/// left, a blow and the health it leaves, and so on.
pub proof fn each_line_gives_the_change_then_what_it_leaves(
    log: CombatLog,
    e: LogEntry,
    stamp: Seq<char>,
    secs: Seq<char>,
)
    ensures
        e.event matches Event::GainArmor { side, amount, total } ==> spec_line(log, e, stamp, secs) == stamp + " "@
            + spec_who(log, side) + " gains "@ + spec_int_text(amount as int) + " armor ("@ + spec_int_text(
            total as int,
        ) + ")"@,
        e.event matches Event::GainMana { side, amount, total, accrued } ==> !accrued ==> spec_line(log, e, stamp, secs)
            == stamp + " "@ + spec_who(log, side) + " gains "@ + spec_int_text(amount as int) + " mana"@ + " ("@
            + spec_int_text(total as int) + ")"@,
        e.event matches Event::ManaCheck { side, cost, paid, remaining } ==> paid ==> spec_line(log, e, stamp, secs)
            == stamp + " "@ + spec_who(log, side) + " spends "@ + spec_int_text(cost as int) + " mana ("@
            + spec_int_text(remaining as int) + " left)"@,
        e.event matches Event::ManaCheck { side, cost, paid, remaining } ==> !paid ==> spec_line(log, e, stamp, secs)
            == stamp + " "@ + spec_who(log, side) + " cannot pay "@ + spec_int_text(cost as int) + " mana (has "@
            + spec_int_text(remaining as int) + ")"@,
        e.event matches Event::Cast { side, paid, cost, remaining } ==> paid ==> spec_line(log, e, stamp, secs)
            == stamp + " "@ + spec_who(log, side) + " spends "@ + spec_int_text(cost as int)
            + " mana and casts in full ("@ + spec_int_text(remaining as int) + " left)"@,
        e.event matches Event::Drained { on, what, amount, total } ==> spec_line(log, e, stamp, secs) == stamp + " "@
            + spec_who(log, on) + " loses "@ + spec_int_text(amount as int) + " "@ + what@ + " ("@ + spec_int_text(
            total as int,
        ) + " left)"@,
        e.event matches Event::MindHit { by, amount, target_max_health } ==> spec_line(log, e, stamp, secs) == stamp
            + " "@ + spec_who(log, by) + " deals "@ + spec_int_text(amount as int) + " MIND damage -> max hp now "@
            + spec_int_text(target_max_health as int),
        e.event matches Event::Burn { side, damage, health } ==> health >= 0 ==> spec_line(log, e, stamp, secs) == stamp
            + " "@ + spec_who(log, side) + " burns for "@ + spec_int_text(damage as int) + " -> "@ + spec_int_text(
            health as int,
        ) + " hp"@,
        e.event matches Event::Regen { side, amount, health } ==> spec_line(log, e, stamp, secs) == stamp + " "@
            + spec_who(log, side) + " regenerates "@ + spec_int_text(amount as int) + " -> "@ + spec_int_text(
            health as int,
        ) + " hp"@,
        e.event matches Event::Hit { by, damage, absorbed, target_health, target_armor, .. } ==> absorbed > 0
            && target_health >= 0 ==> spec_line(log, e, stamp, secs) == stamp + " "@ + spec_who(log, by) + " hits "@
            + spec_who(log, by.spec_other()) + " for "@ + spec_int_text(damage as int) + " ("@ + spec_int_text(
            absorbed as int,
        ) + " soaked, "@ + spec_int_text(target_armor as int) + " armor left)"@ + " -> "@ + spec_int_text(
            target_health as int,
        ) + " hp"@,
        e.event matches Event::GainResource { side, what, amount, total, accrued } ==> !accrued ==> spec_line(
            log,
            e,
            stamp,
            secs,
        ) == stamp + " "@ + spec_who(log, side) + " gains "@ + spec_int_text(amount as int) + " "@ + what@ + " ("@
            + spec_int_text(total as int) + ")"@,
        e.event matches Event::ResourceCheck { side, what, cost, paid, remaining } ==> paid ==> spec_line(
            log,
            e,
            stamp,
            secs,
        ) == stamp + " "@ + spec_who(log, side) + " "@ + "spends"@ + " "@ + spec_int_text(cost as int) + " "@ + what@ + " ("@
            + spec_int_text(remaining as int) + " left)"@,
{
    match e.event {
        Event::GainMana { side, amount, .. } => {
            let a = stamp + " "@ + spec_who(log, side) + " gains "@ + spec_int_text(amount as int) + " mana"@;
            assert(a + Seq::<char>::empty() =~= a);
        },
        Event::GainResource { side, what, amount, .. } => {
            let a = stamp + " "@ + spec_who(log, side) + " gains "@ + spec_int_text(amount as int) + " "@ + what@;
            assert(a + Seq::<char>::empty() =~= a);
        },
        _ => {},
    }
}

} // verus!
