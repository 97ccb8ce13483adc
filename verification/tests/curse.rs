use gearcore::curse::{
    mind_damage_after_resist, CurseKind, Curses, FROST_MS, FROST_SLOW_CAP_PCT, MISFIRE_EVERY,
    MISFIRE_FLOOR, SEARING_MS, STUN_MS, TICK_MS,
};

#[test]
fn searing_lasts_ten_seconds_and_burns_ten_a_second() {
    let mut c = Curses::new();
    assert_eq!(c.apply(CurseKind::Searing, 0), 10_000);
    // 10 dps expressed in milli-damage per 50ms tick.
    assert_eq!(c.dot_millidamage_per_tick(), 10 * 50);
    // Over a full second that is exactly 10 damage.
    assert_eq!(c.dot_millidamage_per_tick() * (1000 / TICK_MS as i32) / 1000, 10);
}

#[test]
fn curse_resistance_shortens_the_curse() {
    let mut half = Curses::new();
    assert_eq!(half.apply(CurseKind::Searing, 50), 5_000);
    let mut full = Curses::new();
    assert_eq!(full.apply(CurseKind::Searing, 100), 0, "fully resisted");
    assert!(full.is_empty(), "a fully resisted curse never lands");
}

#[test]
fn reapplying_stacks_and_refreshes() {
    let mut c = Curses::new();
    c.apply(CurseKind::Searing, 0);
    for _ in 0..40 {
        c.tick(); // 2 seconds gone
    }
    assert_eq!(c.stacks_of(CurseKind::Searing), 1);
    c.apply(CurseKind::Searing, 0);
    assert_eq!(c.stacks_of(CurseKind::Searing), 2);
    assert_eq!(c.iter().next().unwrap().remaining_ms, 10_000, "the timer refreshes to full");
    assert_eq!(c.dot_millidamage_per_tick(), 2 * 10 * 50, "two stacks burn twice as fast");
}

#[test]
fn a_curse_expires_on_schedule() {
    let mut c = Curses::new();
    c.apply(CurseKind::Frost, 0);
    assert_eq!(c.slow_pct(), 50);
    for _ in 0..(FROST_MS / TICK_MS) {
        c.tick();
    }
    assert!(c.is_empty(), "frost is gone after its second");
    assert_eq!(c.slow_pct(), 0);
}

#[test]
fn frost_stacks_but_never_freezes_gear_solid() {
    let mut c = Curses::new();
    assert_eq!(c.apply(CurseKind::Frost, 0), FROST_MS);
    assert_eq!(c.slow_pct(), 50, "one stack, half speed");
    c.apply(CurseKind::Frost, 0);
    assert_eq!(c.slow_pct(), 75, "two stacks reach the cap");
    for _ in 0..10 {
        c.apply(CurseKind::Frost, 0);
    }
    assert_eq!(c.slow_pct(), FROST_SLOW_CAP_PCT, "capped, so items always still fire");
}

#[test]
fn a_stun_answers_to_resistance_like_everything_else() {
    assert_eq!(CurseKind::Stun.landing_ms(0), STUN_MS);
    assert_eq!(CurseKind::Stun.landing_ms(50), STUN_MS / 2);
    assert_eq!(CurseKind::Stun.landing_ms(100), 0, "fully resisted, never lands");
}

#[test]
fn misfire_stacks_tighten_the_interval() {
    let mut c = Curses::new();
    assert_eq!(c.misfire_every(), 0, "nothing up, nothing eaten");
    c.apply(CurseKind::Misfire, 0);
    assert_eq!(c.misfire_every(), MISFIRE_EVERY, "one in three");
    c.apply(CurseKind::Misfire, 0);
    assert_eq!(c.misfire_every(), 2, "one in two");
    for _ in 0..10 {
        c.apply(CurseKind::Misfire, 0);
    }
    assert_eq!(c.misfire_every(), MISFIRE_FLOOR, "never worse than one in two");
    // Which is to say the gear always still does something.
    assert!(!c.misfires(1), "an odd activation always gets through");
}

#[test]
fn a_refreshed_curse_reports_what_is_left_not_what_was_added() {
    let mut c = Curses::new();
    c.apply(CurseKind::Searing, 0);
    for _ in 0..20 {
        c.tick(); // a second gone, nine left
    }
    assert_eq!(c.apply(CurseKind::Searing, 0), SEARING_MS);
}

#[test]
fn mind_resistance_scales_mind_damage() {
    assert_eq!(mind_damage_after_resist(10, 0), 10);
    assert_eq!(mind_damage_after_resist(10, 50), 5);
    assert_eq!(mind_damage_after_resist(10, 100), 0);
}

// ---------------------------------------------------------------- own cases

#[test]
fn effect_chips_read_the_same_constants_as_the_fight() {
    assert_eq!(CurseKind::Searing.effect_at(3), "30/s");
    assert_eq!(CurseKind::Searing.effect_at(0), "10/s");
    assert_eq!(CurseKind::Frost.effect_at(1), "-50%");
    assert_eq!(CurseKind::Frost.effect_at(4), "-75%");
    assert_eq!(CurseKind::Stun.effect_at(2), "stopped");
    assert_eq!(CurseKind::Misfire.effect_at(1), "1 in 3");
    assert_eq!(CurseKind::Misfire.effect_at(9), "1 in 2");
}

#[test]
fn landing_rounds_down_to_whole_ticks_and_clamps_resistance() {
    // 1200 * 0.67 = 804, down to the 50ms grid.
    assert_eq!(CurseKind::Stun.landing_ms(33), 800);
    assert_eq!(CurseKind::Searing.landing_ms(-20), SEARING_MS);
    assert_eq!(CurseKind::Misfire.landing_ms(250), 0);
}

#[test]
fn a_curse_that_expires_is_dropped_and_the_rest_keep_order() {
    let mut c = Curses::new();
    c.apply(CurseKind::Frost, 0);
    c.apply(CurseKind::Searing, 0);
    for _ in 0..(FROST_MS / TICK_MS) {
        c.tick();
    }
    assert_eq!(c.stacks_of(CurseKind::Frost), 0);
    assert!(c.has(CurseKind::Searing));
    assert_eq!(c.iter().next().unwrap().remaining_ms, SEARING_MS - FROST_MS);
    c.clear();
    assert!(c.is_empty());
}

#[test]
fn negative_mind_damage_truncates_toward_zero() {
    assert_eq!(mind_damage_after_resist(-15, 50), -7);
    assert_eq!(mind_damage_after_resist(7, -40), 7);
}

#[test]
fn misfires_only_on_multiples_of_the_interval() {
    let mut c = Curses::new();
    assert!(!c.misfires(3));
    c.apply(CurseKind::Misfire, 0);
    assert!(c.misfires(3));
    assert!(c.misfires(6));
    assert!(!c.misfires(4));
    assert_eq!(CurseKind::Frost.name(), "frost");
    assert_eq!(CurseKind::all().len(), 4);
}
