use gearcore::county::{generate, refusals, Chain, TileKind, ATTEMPTS, PALE};
use gearcore::layout::arrange;
use gearcore::rng::Rng;

#[test]
fn the_same_seed_gives_the_same_county() {
    for seed in [0u64, 1, 42, 9_001, u64::MAX] {
        assert_eq!(generate(seed), generate(seed));
    }
}

#[test]
fn a_generated_county_passes_every_check_or_is_the_fallback() {
    for seed in 0u64..6 {
        let c = generate(seed);
        if c.attempts() < ATTEMPTS {
            assert!(refusals(&c).is_empty(), "seed {seed} handed back a refused county");
        } else {
            assert!(c.is_fallback());
        }
    }
}

#[test]
fn an_arrangement_places_the_pale_and_the_hill() {
    let mut laid = 0;
    for seed in 0u64..20 {
        if let Some(c) = arrange(seed) {
            laid += 1;
            assert_eq!(c.attempts(), 0);
            let (px, py) = c.pale();
            assert!((2..=4).contains(&px) && (2..=4).contains(&py));
            assert_eq!(c.at(c.pale()).kind, TileKind::Event(PALE));
            assert_eq!(c.at(c.hill()).kind, TileKind::Pinnacle { chain: Chain::Ordnance });
            let (hx, hy) = c.hill();
            assert!((1..=5).contains(&hx) && (1..=5).contains(&hy));
            let gaols: Vec<_> = c.tiles().iter().filter(|t| t.kind == TileKind::Gaol).collect();
            assert_eq!(gaols.len(), 1);
            let (gx, gy) = gaols[0].at;
            assert!((gx as i32 - 3).abs() + (gy as i32 - 3).abs() <= 3);
            for (i, b) in c.bearings().iter().enumerate() {
                let nth = i as u8 + 1;
                let trig = c
                    .tiles()
                    .iter()
                    .find(|t| t.kind == TileKind::Objective { chain: Chain::Ordnance, nth })
                    .expect("a trig point");
                assert!(b.holds(c.hill(), trig.at));
            }
        }
    }
    assert!(laid > 0, "no seed in twenty laid a county out");
}

#[test]
fn a_shuffle_keeps_every_item() {
    let mut rng = Rng::new(7);
    let mut v: Vec<u32> = (0..20).collect();
    rng.shuffle(&mut v);
    let mut sorted = v.clone();
    sorted.sort();
    assert_eq!(sorted, (0..20).collect::<Vec<u32>>());
}

#[test]
fn the_draws_follow_the_seed() {
    let mut a = Rng::new(3);
    let mut b = Rng::new(3);
    let mut c = Rng::new(4);
    let xs: Vec<u64> = (0..5).map(|_| a.next_u64()).collect();
    let ys: Vec<u64> = (0..5).map(|_| b.next_u64()).collect();
    let zs: Vec<u64> = (0..5).map(|_| c.next_u64()).collect();
    assert_eq!(xs, ys);
    assert_ne!(xs, zs);
    assert!(Rng::new(9).below(6) < 6);
}

#[test]
fn the_first_draw_from_seed_zero() {
    let mut r = Rng::new(0);
    assert_eq!(r.next_u64(), 0xE220_A839_7B1D_CDAF);
}

#[test]
fn a_generated_county_is_the_arrangement_of_the_seed_it_counts() {
    for seed in [3u64, 17, 250] {
        let c = generate(seed);
        if c.attempts() < ATTEMPTS {
            let a = arrange(seed.wrapping_add(c.attempts() as u64)).expect("the counted seed lays out");
            assert_eq!(a.tiles(), c.tiles());
            assert_eq!(a.hill(), c.hill());
            assert_eq!(a.pale(), c.pale());
            assert_eq!(a.bearings(), c.bearings());
            assert_eq!(a.sealed(), c.sealed());
            for k in 0..c.attempts() {
                if let Some(b) = arrange(seed.wrapping_add(k as u64)) {
                    assert!(!refusals(&b).is_empty());
                }
            }
        }
    }
}

#[test]
fn a_shuffle_follows_the_draws() {
    let mut a = Rng::new(11);
    let mut b = Rng::new(11);
    let mut v: Vec<u8> = (0..10).collect();
    let mut w = v.clone();
    a.shuffle(&mut v);
    b.shuffle(&mut w);
    assert_eq!(v, w);
    assert_eq!(a.next_u64(), b.next_u64());
}
