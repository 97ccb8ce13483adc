use gearcore::combat::Difficulty;
use gearcore::county::{
    far_corner, fallback, generate, generate_with, milli, mouths_reaching, neighbours, next_round, reference,
    refusals, seed_for, tolls, Bearing, Chain, County, Lane, Step, TileKind, Toll, ATTEMPTS,
};
use gearcore::loadout::Figures;

fn kinds_of(c: &County) -> [TileKind; 49] {
    let mut out = [TileKind::Empty; 49];
    for (i, t) in c.tiles().iter().enumerate() {
        out[i] = t.kind;
    }
    out
}

fn figures() -> Figures {
    Figures {
        flow: 0,
        physical_ps: 0,
        magic_ps: 0,
        armour_ps: 0,
        fastest_ms: None,
        curse_resist: 0,
    }
}

#[test]
fn the_fallback_passes_every_check() {
    let c = fallback();
    let r = refusals(&c);
    assert!(r.is_empty(), "{r:?}");
    assert!(c.is_fallback());
    assert_eq!(c.attempts(), ATTEMPTS);
}

#[test]
fn the_fallback_is_laid_out_as_drawn() {
    let c = fallback();
    assert_eq!(c.hill(), (3, 4));
    assert_eq!(c.pale(), (3, 2));
    assert_eq!(c.bearings(), &[Bearing::Row, Bearing::Column, Bearing::Rising]);
    assert_eq!(c.sealed(), &[(6, 6), (5, 6), (6, 5)]);
    assert_eq!(c.objectives(Chain::Ordnance), vec![(1, 4), (3, 1), (2, 5)]);
    assert_eq!(c.objectives(Chain::Drove), vec![(2, 2), (5, 1), (1, 5)]);
    assert_eq!(c.pinnacle(Chain::Drove), Some((1, 6)));
    assert_eq!(c.pinnacle(Chain::Enclosure), Some((6, 6)));
    assert_eq!(c.gaol(), Some((3, 3)));
    assert_eq!(c.count(|k| matches!(k, TileKind::Feature(_))), 12);
    assert_eq!(c.count(|k| matches!(k, TileKind::Objective { .. })), 9);
    assert!(c.is_sealed((5, 6)));
    assert!(!c.is_sealed((3, 3)));
    assert_eq!(c.at((3, 2)).at, (3, 2));
}

#[test]
fn a_toll_on_the_circuit_is_refused() {
    let c = fallback();
    let mut kinds = kinds_of(&c);
    // B4 is on the Drover's circuit and open ground in the fallback.
    kinds[3 * 7 + 1] = TileKind::Feature(Toll::River { milli_per_s: 1000 });
    let bad = County::of(kinds, c.hill(), *c.bearings(), c.pale(), *c.sealed(), 0);
    let r = refusals(&bad);
    assert!(
        r.iter().any(|m| m == "V11: a toll stands on the circuit at (1, 3)"),
        "{r:?}"
    );
}

#[test]
fn a_county_without_a_gaol_is_refused() {
    let c = fallback();
    let mut kinds = kinds_of(&c);
    kinds[3 * 7 + 3] = TileKind::Empty;
    let bad = County::of(kinds, c.hill(), *c.bearings(), c.pale(), *c.sealed(), 0);
    let r = refusals(&bad);
    assert!(r.iter().any(|m| m == "V9: the county has no gaol"), "{r:?}");
    assert!(!r.iter().any(|m| m.starts_with("V10:")), "one short is within one: {r:?}");
}

#[test]
fn the_hill_on_the_edge_is_refused() {
    let c = fallback();
    let bad = County::of(kinds_of(&c), (0, 3), *c.bearings(), c.pale(), *c.sealed(), 0);
    let r = refusals(&bad);
    assert!(r.iter().any(|m| m == "V12: the hill is on the edge at (0, 3)"), "{r:?}");
}

#[test]
fn generate_takes_the_first_arrangement_that_passes() {
    let c = generate_with(9, |s| if s == 11 { Some(fallback()) } else { None });
    assert_eq!(c.attempts(), 2);
    assert!(!c.is_fallback());
    assert!(refusals(&c).is_empty());
    assert_eq!(c.hill(), (3, 4));
}

#[test]
fn generate_falls_back_when_every_seed_is_refused() {
    let c = generate_with(5, |_| None);
    assert!(c.is_fallback());
    assert_eq!(c.attempts(), ATTEMPTS);
}

#[test]
fn generate_skips_an_arrangement_the_checks_refuse() {
    let f = fallback();
    let broken = County::of(kinds_of(&f), (0, 3), *f.bearings(), f.pale(), *f.sealed(), 0);
    let c = generate_with(0, |s| if s == 0 { Some(broken.clone()) } else if s == 1 { Some(fallback()) } else { None });
    assert_eq!(c.attempts(), 1);
}

#[test]
fn the_seed_wraps_rather_than_overflowing() {
    let c = generate_with(u64::MAX, |s| if s == 0 { Some(fallback()) } else { None });
    assert_eq!(c.attempts(), 1);
}

#[test]
fn the_hill_is_hidden_until_the_third_sighting() {
    let c = fallback();
    assert_eq!(c.as_seen(0).at((3, 4)).kind, TileKind::Empty);
    assert_eq!(c.as_seen(2).at((3, 4)).kind, TileKind::Empty);
    assert_eq!(
        c.as_seen(3).at((3, 4)).kind,
        TileKind::Pinnacle { chain: Chain::Ordnance }
    );
    assert_eq!(c.as_seen(0).at((1, 4)).kind, c.at((1, 4)).kind);
}

#[test]
fn a_sighting_draws_the_whole_line() {
    let c = fallback();
    assert_eq!(c.sighting(1), (0..7).map(|x| (x, 4)).collect::<Vec<_>>());
    assert_eq!(c.sighting(2), (0..7).map(|y| (3, y)).collect::<Vec<_>>());
    assert_eq!(c.sighting(3), vec![(6, 1), (5, 2), (4, 3), (3, 4), (2, 5), (1, 6)]);
    assert!(c.sighting(4).is_empty());
}

#[test]
fn a_mouth_reaches_its_own_tile() {
    let c = fallback();
    assert!(mouths_reaching(&c, (0, 5)).contains(&"sump-bottom"));
    assert!(mouths_reaching(&c, (9, 9)).is_empty());
}

#[test]
fn the_walk_round_goes_both_ways() {
    assert_eq!(next_round((0, 0), true), Some((1, 0)));
    assert_eq!(next_round((0, 0), false), Some((0, 1)));
    assert_eq!(next_round((6, 6), true), Some((5, 6)));
    assert_eq!(next_round((3, 3), true), None);
    let q = next_round((4, 6), true).unwrap();
    assert_eq!(next_round(q, false), Some((4, 6)));
}

#[test]
fn neighbours_come_north_south_west_east() {
    assert_eq!(neighbours((0, 0)), vec![(0, 1), (1, 0)]);
    assert_eq!(neighbours((3, 3)), vec![(3, 2), (3, 4), (2, 3), (4, 3)]);
}

#[test]
fn the_pale_opens_the_far_free_corner() {
    assert_eq!(far_corner((3, 2)), Some((6, 6)));
}

#[test]
fn steps_parse_loosely_and_stop_at_the_edge() {
    assert_eq!(Step::parse(" N "), Some(Step::North));
    assert_eq!(Step::parse("w"), Some(Step::West));
    assert_eq!(Step::parse("north"), None);
    assert_eq!(Step::North.from((3, 0)), None);
    assert_eq!(Step::East.from((3, 0)), Some((4, 0)));
}

#[test]
fn references_read_like_the_map() {
    assert_eq!(reference((0, 0)), "A1");
    assert_eq!(reference((6, 6)), "G7");
    assert_eq!(reference((3, 2)), "D3");
}

#[test]
fn milli_figures_read_as_a_person_reads_them() {
    assert_eq!(milli(2000), "2");
    assert_eq!(milli(2500), "2.5");
    assert_eq!(milli(2050), "2.05");
    assert_eq!(milli(2005), "2.005");
    assert_eq!(milli(-1500), "-1.5");
}

#[test]
fn the_seed_parks_mode_and_difficulty_high() {
    assert_eq!(seed_for(0, 1, Difficulty::Medium), (1u64 << 40) ^ (1u64 << 44));
    assert_eq!(seed_for(7, 0, Difficulty::Easy), 7);
}

#[test]
fn tolls_measure_a_board_and_only_the_gate_spends() {
    let mut f = figures();
    f.flow = 3000;
    assert!(Toll::River { milli_per_s: 3000 }.met(&f, 0, 0));
    assert!(!Toll::River { milli_per_s: 3001 }.met(&f, 0, 0));
    assert!(Toll::Gate { bounties: 2 }.met(&f, 20, 10));
    assert!(!Toll::Gate { bounties: 2 }.met(&f, 19, 10));
    assert_eq!(Toll::Gate { bounties: 2 }.toll_in_gold(10), 20);
    assert_eq!(Toll::River { milli_per_s: 3000 }.toll_in_gold(10), 0);
    assert!(!Toll::Drift { fastest_ms: 2000 }.met(&f, 0, 0));
    f.fastest_ms = Some(1500);
    assert!(Toll::Drift { fastest_ms: 2000 }.met(&f, 0, 0));
}

#[test]
fn a_toll_says_what_it_wants_and_how_far_short_you_are() {
    let f = figures();
    assert_eq!(Toll::River { milli_per_s: 2500 }.threshold(), "~R2.5");
    assert_eq!(Toll::Ford { lane: Lane::Magic, milli_per_s: 5000 }.threshold(), "~F5m");
    assert_eq!(Toll::Hedge { curse_resist: 12 }.threshold(), "#H12");
    assert_eq!(Toll::Gate { bounties: 2 }.threshold(), "#G2x");
    assert_eq!(
        Toll::River { milli_per_s: 3000 }.shortfall(&f, 0, 0),
        "mana a second 0 against 3"
    );
    assert_eq!(
        Toll::Drift { fastest_ms: 2000 }.shortfall(&f, 0, 0),
        "fastest item nothing assembled against 2000 ms"
    );
    assert_eq!(Toll::Gate { bounties: 2 }.shortfall(&f, 7, 10), "7g against 20g");
}

#[test]
fn twelve_tolls_two_of_each_kind() {
    let t = tolls();
    assert_eq!(t.len(), 12);
    assert_eq!(t[0], Toll::River { milli_per_s: 3_000 });
    assert_eq!(t[11], Toll::Gate { bounties: 2 });
}
