use gearcore::combat::{CombatLog, Combatant, CurseBill, Event, LogEntry, Outcome, Side};
use gearcore::curse::CurseKind;
use gearcore::line::line_text;
use gearcore::stats::Stats;

fn log() -> CombatLog {
    let mut rat = Combatant::player(Stats::zero(), &[]);
    rat.name = "Rat".to_string();
    CombatLog {
        player: Combatant::player(Stats::zero(), &[]),
        enemies: vec![rat],
        specs: vec![],
        entries: vec![],
        outcome: Outcome::Victory,
        duration_ms: 0,
        gold_spent: 0,
        curse_bill: CurseBill::default(),
    }
}

fn at(event: Event) -> LogEntry {
    LogEntry { at_ms: 1200, event, who: 0 }
}

#[test]
fn a_hit_reads_who_struck_whom() {
    let e = at(Event::Hit { by: Side::Enemy, by_item: None, damage: 7, absorbed: 2, target_health: -3, target_armor: 0 });
    assert_eq!(line_text(&log(), &e, "  1.2s", ""), "  1.2s Rat hits You for 7 (2 soaked, 0 armor left) -> 0 hp");
}

#[test]
fn a_curse_reads_its_name_stacks_and_time() {
    let e = at(Event::Cursed { on: Side::Player, kind: CurseKind::Frost, duration_ms: 2500, stacks: 3 });
    assert_eq!(line_text(&log(), &e, "  1.2s", "2.5"), "  1.2s curse of frost x3 on You for 2.5s");
}

#[test]
fn power_reads_in_hundredths() {
    let e = at(Event::Empowered { side: Side::Player, total: 4, power_bonus: 205 });
    assert_eq!(line_text(&log(), &e, "  1.2s", ""), "  1.2s You empowered x4 (+2.05x power on magic)");
}

#[test]
fn the_last_line_is_the_outcome() {
    let e = at(Event::End { outcome: Outcome::Defeat });
    assert_eq!(line_text(&log(), &e, "  1.2s", ""), "-- DEFEAT --");
}

#[test]
fn forking_counts_the_landings() {
    let e = at(Event::Forking { side: Side::Enemy, total: 2 });
    assert_eq!(line_text(&log(), &e, "  1.2s", ""), "  1.2s Rat spell forking x2 (every cast lands 3 times)");
}
