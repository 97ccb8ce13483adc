use gearcore::combat::{
    tally_items, CombatLog, Combatant, CurseBill, Event, LogEntry, Outcome, RunningItem, Side,
};
use gearcore::curse::CurseKind;
use gearcore::stats::Stats;

fn fighter(names: &[&str]) -> Combatant {
    let mut c = Combatant::player(Stats::zero(), &[]);
    c.items = names
        .iter()
        .map(|n| RunningItem { name: n.to_string(), cooldown_ms: 1000, ..Default::default() })
        .collect();
    c
}

fn at(t: u32, event: Event) -> LogEntry {
    LogEntry { at_ms: t, event, who: 0 }
}

fn log(entries: Vec<LogEntry>) -> CombatLog {
    CombatLog {
        player: fighter(&["Sword", "Wand", "Sword"]),
        enemies: vec![fighter(&["Claw"])],
        specs: Vec::new(),
        entries,
        outcome: Outcome::Victory,
        duration_ms: 0,
        gold_spent: 0,
        curse_bill: CurseBill::default(),
    }
}

fn activate(side: Side, index: usize) -> Event {
    Event::Activate { side, item: String::new(), index }
}

fn hit(by: Side, damage: i32) -> Event {
    Event::Hit { by, by_item: None, damage, absorbed: 0, target_health: 0, target_armor: 0 }
}

#[test]
fn a_hit_belongs_to_the_item_that_last_activated() {
    let l = log(vec![
        at(0, activate(Side::Player, 0)),
        at(0, hit(Side::Player, 12)),
        at(100, activate(Side::Player, 1)),
        at(100, hit(Side::Player, 5)),
        at(100, Event::GainMana { side: Side::Player, amount: 3, total: 3, accrued: false }),
        at(200, hit(Side::Enemy, 40)),
    ]);
    let t = tally_items(&l, Side::Player, 0);
    assert_eq!(t.len(), 3);
    assert_eq!(t[0].activations, 1);
    assert_eq!(t[0].of("damage"), 12);
    assert_eq!(t[0].entries, vec![0, 1]);
    assert_eq!(t[1].of("damage"), 5);
    assert_eq!(t[1].of("mana"), 3);
    assert_eq!(t[1].entries, vec![2, 3, 4]);
    assert_eq!(t[2].activations, 0);
    assert!(t[2].contributed.is_empty());
    assert_eq!(t[1].contributed[0].what, "damage");
    assert_eq!(t[1].contributed[1].what, "mana");
}

#[test]
fn sudden_death_and_the_end_belong_to_nobody() {
    let l = log(vec![
        at(0, activate(Side::Player, 0)),
        at(30_000, Event::SuddenDeath { pct: 5 }),
        at(30_000, hit(Side::Player, 9)),
        at(31_000, Event::End { outcome: Outcome::Victory }),
    ]);
    let t = tally_items(&l, Side::Player, 0);
    assert_eq!(t[0].entries, vec![0]);
    assert_eq!(t[0].of("damage"), 0);
}

#[test]
fn a_misfire_and_a_stun_name_their_own_item() {
    let l = log(vec![
        at(0, activate(Side::Player, 1)),
        at(50, Event::Misfired { side: Side::Player, item: "Sword".to_string() }),
        at(60, Event::Stunned {
            on: Side::Player,
            index: 2,
            item: "Sword".to_string(),
            duration_ms: 1200,
            aimed: true,
        }),
        at(70, Event::Stunned {
            on: Side::Player,
            index: 2,
            item: "Sword".to_string(),
            duration_ms: 600,
            aimed: false,
        }),
    ]);
    let t = tally_items(&l, Side::Player, 0);
    // The first item called Sword takes the misfire.
    assert_eq!(t[0].misfires, 1);
    assert_eq!(t[0].entries, vec![1]);
    assert_eq!(t[2].stunned_ms, 1800);
    assert_eq!(t[2].entries, vec![2, 3]);
    assert_eq!(t[1].entries, vec![0]);
}

#[test]
fn a_spend_is_booked_negative_and_cancelling_lines_are_left_out() {
    let l = log(vec![
        at(0, activate(Side::Player, 0)),
        at(0, Event::GainMana { side: Side::Player, amount: 4, total: 4, accrued: false }),
        at(0, Event::ManaCheck { side: Side::Player, cost: 4, paid: true, remaining: 0 }),
        at(0, Event::GainResource { side: Side::Player, what: "faith", amount: 2, total: 2, accrued: false }),
        at(0, Event::Cursed { on: Side::Enemy, kind: CurseKind::Frost, duration_ms: 1000, stacks: 1 }),
    ]);
    let t = tally_items(&l, Side::Player, 0);
    assert_eq!(t[0].of("mana"), 0);
    assert_eq!(t[0].of("faith"), 2);
    assert_eq!(t[0].contributed.len(), 1);
    assert_eq!(t[0].entries, vec![0, 1, 2, 3, 4]);
}

#[test]
fn a_foe_is_tallied_by_who_and_a_missing_foe_has_no_account() {
    let l = log(vec![
        at(0, activate(Side::Enemy, 0)),
        at(0, hit(Side::Enemy, 7)),
        at(0, hit(Side::Enemy, 100)),
    ]);
    let t = tally_items(&l, Side::Enemy, 0);
    assert_eq!(t.len(), 1);
    assert_eq!(t[0].of("damage"), 107);
    assert!(tally_items(&l, Side::Enemy, 3).is_empty());
    let mut other = l.clone();
    other.entries[2].who = 1;
    let t = tally_items(&other, Side::Enemy, 0);
    assert_eq!(t[0].of("damage"), 7);
}

