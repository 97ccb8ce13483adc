use gearcore::combat::{Combatant, Difficulty, MonsterAttack, MonsterSpec, MonsterSprite, Rank, RunningItem};
use gearcore::curse::CurseKind;
use gearcore::stats::Stats;

const TEETH: [MonsterAttack; 2] = [
    MonsterAttack { name: "Bite", cooldown_ms: 20, damage: 4, mind: 0, armor: 0, curse: None },
    MonsterAttack { name: "Gnaw", cooldown_ms: 1_500, damage: 2, mind: 1, armor: 3, curse: Some(CurseKind::Stun) },
];

fn rat() -> MonsterSpec {
    MonsterSpec {
        name: "Rat",
        health: 30,
        strength: 2,
        regen: 0,
        mind_resist: 0,
        curse_resist: 0,
        physical_resist: 0,
        magic_resist: 0,
        attacks: &TEETH,
        gear: &[],
        gear_offset: 0,
        bounty: 3,
        sprite: MonsterSprite::Rat,
        rank: Rank::Ordinary,
        drops: &[],
        items: &[],
        enchs: &[],
    }
}

fn outfit() -> Stats {
    let mut s = Stats::zero();
    s.health = 30;
    s.strength = 2;
    s.regen = 1;
    s
}

#[test]
fn a_creature_stands_up_with_its_own_attacks_first() {
    let c = Combatant::monster_at(&rat(), outfit(), &[], Difficulty::Easy);
    assert_eq!(c.name, "Rat");
    assert_eq!(c.health, 30);
    assert_eq!(c.max_health, 30);
    assert_eq!(c.items.len(), 2);
    assert_eq!(c.items[0].name, "Bite");
    assert_eq!(c.items[0].cooldown_ms, 50);
    assert_eq!(c.items[1].cooldown_ms, 1_500);
    assert_eq!(c.items[1].curse, Some(CurseKind::Stun));
    assert_eq!(c.expert, None);
    assert!(!c.wrong_sense);
}

#[test]
fn above_easy_a_creature_is_hardened() {
    let easy = Combatant::monster_at(&rat(), outfit(), &[], Difficulty::Easy);
    let hard = Combatant::monster_at(&rat(), outfit(), &[], Difficulty::Hard);
    assert_eq!(easy.regen, 1);
    assert_eq!(hard.regen, 5);
}

#[test]
fn an_attacks_sigil_is_seeded_off_its_name() {
    let a = RunningItem::from_attack(&TEETH[0]);
    let mut h: u64 = 0x1234_5678;
    for b in "Bite".bytes() {
        h = h.rotate_left(5) ^ b as u64;
    }
    assert_eq!(a.sigil_seed, h);
    assert_eq!(a.power, 100);
    assert_eq!(a.slot, None);
}
