use gearcore::drops::{fallen, fallen_with, roll, roll_with, DropDef, DropsData, FORMAT, MAX_PER_MILLE, VERSION};
use gearcore::rng::Rng;

fn def(creature: &str, piece: &str, per_mille: i32) -> DropDef {
    DropDef { creature: creature.to_string(), piece: piece.to_string(), per_mille }
}

fn data(drops: Vec<DropDef>) -> DropsData {
    DropsData { format: FORMAT.to_string(), version: VERSION, note: String::new(), drops }
}

fn names(v: &[&str]) -> Vec<String> {
    v.iter().map(|s| s.to_string()).collect()
}

#[test]
fn a_good_file_is_accepted_as_it_is() {
    let d = data(vec![def("Rat", "Tooth", 100), def("Bat", "Wing", 500)]);
    let ok = d.checked(&names(&["Rat", "Bat"]), &names(&["Tooth", "Wing"])).unwrap();
    assert_eq!(ok.drops.len(), 2);
    assert_eq!(ok.drops[1].per_mille, MAX_PER_MILLE);
}

#[test]
fn the_wrong_format_is_refused() {
    let mut d = data(vec![]);
    d.format = "nope".to_string();
    let e = d.checked(&names(&[]), &names(&[])).unwrap_err();
    assert_eq!(e, "expected a gm2d-drops file, got \"nope\"");
}

#[test]
fn a_file_from_the_future_is_refused() {
    let mut d = data(vec![]);
    d.version = 2;
    let e = d.checked(&names(&[]), &names(&[])).unwrap_err();
    assert_eq!(e, "these drops are version 2 and this build reads up to 1");
}

#[test]
fn an_unknown_creature_is_refused() {
    let d = data(vec![def("Rat", "Tooth", 100), def("Yeti", "Tooth", 100)]);
    let e = d.checked(&names(&["Rat"]), &names(&["Tooth"])).unwrap_err();
    assert_eq!(e, "nothing in the ladder is called \"Yeti\"");
}

#[test]
fn an_unknown_component_is_refused() {
    let d = data(vec![def("Rat", "Horn", 100)]);
    let e = d.checked(&names(&["Rat"]), &names(&["Tooth"])).unwrap_err();
    assert_eq!(e, "there is no component called \"Horn\"");
}

#[test]
fn a_rate_outside_the_range_is_refused() {
    let d = data(vec![def("Rat", "Tooth", 0)]);
    let e = d.checked(&names(&["Rat"]), &names(&["Tooth"])).unwrap_err();
    assert_eq!(e, "\"Rat\" drops \"Tooth\" at 0 per mille, which is outside 1..=500");
    let d = data(vec![def("Rat", "Tooth", 501)]);
    let e = d.checked(&names(&["Rat"]), &names(&["Tooth"])).unwrap_err();
    assert_eq!(e, "\"Rat\" drops \"Tooth\" at 501 per mille, which is outside 1..=500");
}

#[test]
fn the_first_bad_entry_is_the_one_reported() {
    let d = data(vec![def("Rat", "Tooth", 600), def("Yeti", "Tooth", 100)]);
    let e = d.checked(&names(&["Rat"]), &names(&["Tooth"])).unwrap_err();
    assert!(e.starts_with("\"Rat\" drops"), "{e}");
}

#[test]
fn a_creature_s_drops_come_in_file_order() {
    let d = data(vec![def("Rat", "Tooth", 100), def("Bat", "Wing", 100), def("Rat", "Tail", 50)]);
    let mine: Vec<&str> = d.of("Rat").iter().map(|x| x.piece.as_str()).collect();
    assert_eq!(mine, vec!["Tooth", "Tail"]);
    assert!(d.of("Yeti").is_empty());
}

#[test]
fn every_piece_is_sorted_and_said_once() {
    let d = data(vec![
        def("Rat", "b", 1),
        def("Bat", "a", 1),
        def("Cat", "b", 1),
        def("Dog", "ab", 1),
        def("Eel", "B", 1),
    ]);
    assert_eq!(d.every_piece(), vec!["B", "a", "ab", "b"]);
}

#[test]
fn a_draw_under_the_rate_drops_the_piece() {
    let d = data(vec![def("Rat", "Tooth", 100), def("Bat", "Wing", 100), def("Rat", "Tail", 500)]);
    assert_eq!(fallen(&d, &vec![99, 500], "Rat"), vec!["Tooth".to_string()]);
    assert_eq!(fallen(&d, &vec![100, 499], "Rat"), vec!["Tail".to_string()]);
    assert!(fallen(&d, &vec![999, 999], "Rat").is_empty());
}

#[test]
fn a_survey_moves_the_threshold_not_the_draws() {
    let d = data(vec![def("Rat", "Tooth", 100), def("Rat", "Tail", 500)]);
    let plain = fallen_with(&d, &vec![150, 550], "Rat", 0);
    let surveyed = fallen_with(&d, &vec![150, 550], "Rat", 60);
    assert!(plain.is_empty());
    assert_eq!(surveyed, vec!["Tooth".to_string(), "Tail".to_string()]);
}

#[test]
fn every_entry_takes_one_draw_whatever_the_bonus() {
    let d = data(vec![def("Rat", "Tooth", 100), def("Bat", "Wing", 100), def("Rat", "Tail", 500)]);
    let mut plain = Rng::new(5);
    let mut surveyed = Rng::new(5);
    let mut by_hand = Rng::new(5);
    let a = roll(&d, &mut plain, "Rat");
    let _ = roll_with(&d, &mut surveyed, "Rat", 400);
    let first = by_hand.below(1000) as u32;
    let second = by_hand.below(1000) as u32;
    assert_eq!(a, fallen(&d, &vec![first, second], "Rat"));
    assert_eq!(plain.next_u64(), by_hand.next_u64());
    let mut two = Rng::new(5);
    two.next_u64();
    two.next_u64();
    assert_eq!(surveyed.next_u64(), two.next_u64());
}
