use gearcore::combat::{Combatant, Event, LogEntry, Side};
use gearcore::expert::{apply_expert, light_the_furnace, stoke, stoke_on_curse, ExpertPower};
use gearcore::stats::Stats;

fn you() -> Combatant {
    Combatant::player(Stats::zero(), &[])
}

#[test]
fn a_fight_expert_is_held_with_its_budget() {
    let mut c = you();
    apply_expert(&mut c, ExpertPower::CurseRequisition { per_fight: 3 });
    assert_eq!(c.expert, Some(ExpertPower::CurseRequisition { per_fight: 3 }));
    assert_eq!(c.reqs_left, 3);
    let mut d = you();
    apply_expert(&mut d, ExpertPower::LoudCalculation { floor: -4 });
    assert_eq!(d.loud_free_left, 0);
}

#[test]
fn a_purse_expert_leaves_the_fighter_alone() {
    let mut c = you();
    apply_expert(&mut c, ExpertPower::CurtainLine { third: 40 });
    assert_eq!(c.expert, None);
    assert_eq!(c.empowerment, 0);
}

#[test]
fn a_furnace_expert_lights_the_furnace() {
    let mut c = you();
    apply_expert(&mut c, ExpertPower::ColdStoke { every_ms: 10, per_stack: 5, standing: 0 });
    assert_eq!(c.burn_every_ms, 50);
    assert_eq!(c.burn_per_stack, 10);
    let mut d = you();
    d.burn_every_ms = 2_500;
    light_the_furnace(&mut d);
    assert_eq!(d.burn_every_ms, 2_500);
}

#[test]
fn a_bare_frame_pays_a_tenth_a_frame_up_to_the_cap() {
    let mut c = you();
    c.empty_frames = 4;
    apply_expert(&mut c, ExpertPower::BareFurnace { per_frame: 20, every_ms: 3_000, cap: 5 });
    assert_eq!(c.empowerment, 5);
    assert_eq!(c.burn_every_ms, 3_000);
    let mut d = you();
    d.empty_frames = 2;
    apply_expert(&mut d, ExpertPower::BareFurnace { per_frame: 20, every_ms: 3_000, cap: 50 });
    assert_eq!(d.empowerment, 4);
}

#[test]
fn the_flash_burns_a_share_of_each_pool() {
    let mut c = you();
    c.rage = 50;
    c.faith = 5;
    c.nature = 0;
    apply_expert(&mut c, ExpertPower::FlashPowder { all_at_once: 60 });
    assert_eq!(c.rage, 20);
    assert_eq!(c.faith, 2);
    assert_eq!(c.nature, 0);
    assert_eq!(c.burned, [30, 3, 0]);
    assert_eq!(c.empowerment, 3 + 1);
}

#[test]
fn a_lit_furnace_buys_a_stack_off_the_fullest_pool() {
    let mut c = you();
    c.burn_every_ms = 50;
    c.burn_per_stack = 10;
    c.rage = 25;
    c.faith = 25;
    let mut log: Vec<LogEntry> = Vec::new();
    stoke(&mut c, 0, Side::Player, 400, &mut log);
    assert_eq!(c.rage, 15);
    assert_eq!(c.faith, 25);
    assert_eq!(c.burned, [10, 0, 0]);
    assert_eq!(c.empowerment, 1);
    assert_eq!(c.burn_stacks, 1);
    assert_eq!(log.len(), 1);
    assert_eq!(
        log[0].event,
        Event::Burned { side: Side::Player, what: "rage", points: 10, left: 15, stacks: 1 }
    );
}

#[test]
fn an_unlit_or_slow_furnace_buys_nothing_yet() {
    let mut c = you();
    c.rage = 30;
    let mut log: Vec<LogEntry> = Vec::new();
    stoke(&mut c, 0, Side::Player, 50, &mut log);
    assert!(log.is_empty());
    c.burn_every_ms = 4_000;
    c.burn_per_stack = 10;
    stoke(&mut c, 0, Side::Player, 50, &mut log);
    assert!(log.is_empty());
    assert_eq!(c.burn_ms, 50);
}

#[test]
fn a_curse_landed_deep_stokes_harder() {
    let mut c = you();
    apply_expert(&mut c, ExpertPower::ColdStoke { every_ms: 3_000, per_stack: 2, standing: 3 });
    stoke_on_curse(&mut c, false);
    assert_eq!(c.empowerment, 2);
    stoke_on_curse(&mut c, true);
    assert_eq!(c.empowerment, 2 + 8);
    let mut d = you();
    stoke_on_curse(&mut d, true);
    assert_eq!(d.empowerment, 0);
}
