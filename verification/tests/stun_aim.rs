use gearcore::combat::{land_stun_for_test, Combatant, RunningItem, StunAim};
use gearcore::curse::{CurseKind, STUN_CAP_MS};
use gearcore::stats::Stats;

/// A fighter carrying items that differ only in how good they are.
fn victim(ratings: &[i32]) -> Combatant {
    let mut c = Combatant::player(Stats::zero(), &[]);
    c.items = ratings
        .iter()
        .enumerate()
        .map(|(i, &rating)| RunningItem {
            name: format!("item {i}"),
            rating,
            cooldown_ms: 1000,
            ..Default::default()
        })
        .collect();
    c
}

#[test]
fn an_aimed_stun_always_takes_the_best_item() {
    let mut c = victim(&[10, 90, 40, 5]);
    for t in [0, 700, 1500, 2600] {
        let (idx, _) = land_stun_for_test(&mut c, StunAim::Strongest, t).expect("a stun landed");
        assert_eq!(idx, 1, "aimed at t={t} and missed the 90-rated item");
    }
}

#[test]
fn an_unaimed_stun_spreads_across_the_kit() {
    let mut c = victim(&[10, 90, 40, 5]);
    let mut seen: Vec<usize> = Vec::new();
    for (n, t) in [0u32, 5_000, 10_000, 15_000].into_iter().enumerate() {
        for item in &mut c.items {
            item.stun_ms = 0;
        }
        let (idx, _) = land_stun_for_test(&mut c, StunAim::Unaimed, t).expect("a stun landed");
        assert!(idx < 4, "picked item {idx} of four on stun {n}");
        if !seen.contains(&idx) {
            seen.push(idx);
        }
    }
    assert!(
        seen.len() >= 2,
        "four unaimed stuns all landed on item {seen:?} - it is meant to pick without \
         warning, not to be predictable"
    );
}

#[test]
fn an_unaimed_stun_prefers_an_item_that_is_still_running() {
    let mut c = victim(&[10, 20, 30]);
    c.items[0].stun_ms = 900;
    c.items[2].stun_ms = 900;
    for t in [0, 350, 900, 1250, 4000] {
        let (idx, _) = land_stun_for_test(&mut c, StunAim::Unaimed, t).expect("a stun landed");
        assert_eq!(idx, 1, "at t={t} it stunned something already stopped");
        c.items[1].stun_ms = 0;
    }
}

#[test]
fn stacking_piles_onto_one_clock_and_stops_at_the_cap() {
    let mut c = victim(&[10, 90]);
    let base = CurseKind::Stun.landing_ms(0);
    let (_, first) = land_stun_for_test(&mut c, StunAim::Strongest, 0).unwrap();
    assert_eq!(first, base);
    let (_, second) = land_stun_for_test(&mut c, StunAim::Strongest, 100).unwrap();
    assert_eq!(second, base * 2, "a second stun on the same item has to add to the clock");
    for t in 0..20 {
        land_stun_for_test(&mut c, StunAim::Strongest, t * 100);
    }
    assert_eq!(c.items[1].stun_ms, STUN_CAP_MS, "a stun chain is not a lock");
    assert_eq!(c.items[0].stun_ms, 0, "the aimed stun never wandered off its target");
}

#[test]
fn a_fighter_with_no_items_cannot_be_stunned() {
    let mut c = victim(&[]);
    assert!(land_stun_for_test(&mut c, StunAim::Unaimed, 0).is_none());
}

// ---------------------------------------------------------------- own cases

#[test]
fn the_rod_takes_the_stun_whatever_the_aim() {
    let mut c = victim(&[10, 90, 40]);
    c.items[2].attracts_curses = true;
    let (idx, ms) = land_stun_for_test(&mut c, StunAim::Strongest, 0).unwrap();
    assert_eq!((idx, ms), (2, 1200));
    assert_eq!(c.stun_count, 1);
}

#[test]
fn an_unshakable_board_takes_no_stun_but_counts_the_attempt() {
    let mut c = victim(&[10, 90]);
    c.items[0].unshakable = true;
    c.items[1].unshakable = true;
    assert!(land_stun_for_test(&mut c, StunAim::Strongest, 0).is_none());
    assert_eq!(c.stun_count, 1);
    assert_eq!(c.items[1].stun_ms, 0);
}

#[test]
fn a_fully_resistant_target_is_stunned_for_a_twentieth() {
    let mut c = victim(&[10, 90]);
    c.curse_resist = 400;
    let (item, ms) = land_stun_for_test(&mut c, StunAim::Strongest, 0).expect("a twentieth is not none");
    assert_eq!(item, 1, "the aimed stun lands on the strongest item");
    // One tick: a twentieth of 1200ms, floored to the 50ms grid.
    assert_eq!(ms, 50);
    assert_eq!(c.items[0].stun_ms, 0, "and not on the other one");
}

#[test]
fn a_resistance_under_the_cap_shortens_the_stun_as_a_curse() {
    let mut c = victim(&[10, 90]);
    c.curse_resist = 50;
    let (_, ms) = land_stun_for_test(&mut c, StunAim::Strongest, 0).unwrap();
    assert_eq!(ms, 600);
}

#[test]
fn the_aimed_stun_skips_a_broken_item_and_prefers_a_running_one_on_ties() {
    let mut c = victim(&[90, 90, 50]);
    c.items[0].broken = true;
    c.items[1].stun_ms = 500;
    // Item 1 is whole but stopped, item 0 is broken: whole beats rating.
    let (idx, ms) = land_stun_for_test(&mut c, StunAim::Strongest, 0).unwrap();
    assert_eq!((idx, ms), (1, 1700));
    let mut d = victim(&[70, 70]);
    // Equal keys: the last of equals.
    let (idx, _) = land_stun_for_test(&mut d, StunAim::Strongest, 0).unwrap();
    assert_eq!(idx, 1);
}
