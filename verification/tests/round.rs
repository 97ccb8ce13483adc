use gearcore::combat::{aim_of, check_down, the_fight_turned, Combatant, Event, LogEntry, Outcome, Side};
use gearcore::stats::Stats;

fn fighter(health: i32, max_health: i32) -> Combatant {
    let mut c = Combatant::player(Stats::zero(), &[]);
    c.health = health;
    c.max_health = max_health;
    c
}

#[test]
fn the_aim_walks_past_the_fallen() {
    let foes = vec![fighter(10, 10), fighter(0, 10), fighter(5, 10)];
    assert_eq!(aim_of(&foes, 0), 0);
    assert_eq!(aim_of(&foes, 1), 2);
    assert_eq!(aim_of(&foes, 4), 2);
}

#[test]
fn with_everything_down_the_aim_is_the_front() {
    let foes = vec![fighter(0, 10), fighter(-3, 10)];
    assert_eq!(aim_of(&foes, 1), 0);
}

#[test]
fn a_quarter_lost_turns_the_fight_once() {
    let foes = vec![fighter(70, 100), fighter(100, 100)];
    let mut turned = vec![0u32, 0];
    assert!(the_fight_turned(&foes, &mut turned));
    assert_eq!(turned, vec![1, 0]);
    assert!(!the_fight_turned(&foes, &mut turned));
    assert_eq!(turned, vec![1, 0]);
}

#[test]
fn a_fallen_foe_is_reported_once_and_wins_the_fight() {
    let p = fighter(50, 100);
    let foes = vec![fighter(0, 100)];
    let mut log: Vec<LogEntry> = Vec::new();
    let mut outcome = Outcome::Stalemate;
    let mut fallen: Vec<usize> = Vec::new();
    assert!(check_down(&p, &foes, 1200, &mut log, &mut outcome, &mut fallen));
    assert_eq!(outcome, Outcome::Victory);
    assert_eq!(fallen, vec![0]);
    assert_eq!(log.len(), 1);
    assert_eq!(log[0].at_ms, 1200);
    assert!(matches!(log[0].event, Event::Fell { side: Side::Enemy }));
    assert!(check_down(&p, &foes, 1250, &mut log, &mut outcome, &mut fallen));
    assert_eq!(log.len(), 1);
}

#[test]
fn a_dead_heat_goes_to_the_player() {
    let p = fighter(-5, 100);
    let foes = vec![fighter(-5, 100), fighter(-9, 100)];
    let mut log: Vec<LogEntry> = Vec::new();
    let mut outcome = Outcome::Stalemate;
    let mut fallen: Vec<usize> = Vec::new();
    assert!(check_down(&p, &foes, 50, &mut log, &mut outcome, &mut fallen));
    assert_eq!(outcome, Outcome::Victory);
    assert_eq!(log.len(), 3);
    assert!(matches!(log[2].event, Event::Fell { side: Side::Player }));
}

#[test]
fn nobody_down_decides_nothing() {
    let p = fighter(40, 100);
    let foes = vec![fighter(1, 100)];
    let mut log: Vec<LogEntry> = Vec::new();
    let mut outcome = Outcome::Stalemate;
    let mut fallen: Vec<usize> = Vec::new();
    assert!(!check_down(&p, &foes, 50, &mut log, &mut outcome, &mut fallen));
    assert_eq!(outcome, Outcome::Stalemate);
    assert!(log.is_empty());
}
