//! One attempt at laying a county out from a seed: the skeleton, then the
//! tolls, then the fill.
use vstd::prelude::*;
use vstd::seq_lib::to_multiset_contains;

use crate::county::{
    corner_l, far_corner, is_mouth, manhattan, mouths, neighbours, on_circuit, spec_corner_l,
    spec_circuit, spec_far_upto, spec_index, spec_manhattan, spec_mouths, spec_neighbours, spec_on_grid, spec_pos, spec_tolls,
    the_far_corner_is_free_and_far, tolls, Bearing, Chain, County, TileKind, ARRANGED, PALE, TILES,
    UNARRANGED,
};
use crate::rng::{spec_shuffled, Rng};

verus! {

/// Whether the tile at `p` already holds something.
pub open spec fn spec_taken(kinds: Seq<TileKind>, p: (u8, u8)) -> bool {
    !(kinds[spec_index(p)] is Empty)
}

fn taken(kinds: &[TileKind; TILES], p: (u8, u8)) -> (r: bool)
    requires
        spec_on_grid(p),
    ensures
        r == spec_taken(kinds@, p),
{
    match kinds[p.1 as usize * 7 + p.0 as usize] {
        TileKind::Empty => false,
        _ => true,
    }
}

fn put(kinds: &mut [TileKind; TILES], p: (u8, u8), k: TileKind)
    requires
        spec_on_grid(p),
    ensures
        final(kinds)@ == old(kinds)@.update(spec_index(p), k),
{
    kinds.set(p.1 as usize * 7 + p.0 as usize, k);
}

/// The tiles among the first `n`, row by row, that `keep` keeps.
pub open spec fn spec_scan(keep: spec_fn((u8, u8)) -> bool, n: int) -> Seq<(u8, u8)>
    decreases n,
{
    if n <= 0 {
        Seq::empty()
    } else if keep(spec_pos(n - 1)) {
        spec_scan(keep, n - 1).push(spec_pos(n - 1))
    } else {
        spec_scan(keep, n - 1)
    }
}

proof fn lemma_pos_of(x: u8, y: u8)
    requires
        x < 7,
        y < 7,
    ensures
        spec_pos(y * 7 + x) == (x, y),
{
    assert((y * 7 + x) % 7 == x && (y * 7 + x) / 7 == y) by (nonlinear_arith)
        requires
            x < 7,
            y < 7;
}

/// What a scan keeps is on the grid and kept.
proof fn lemma_scan_kept(keep: spec_fn((u8, u8)) -> bool, n: int)
    requires
        0 <= n <= 49,
    ensures
        forall|k: int| 0 <= k < spec_scan(keep, n).len() ==> spec_on_grid(#[trigger] spec_scan(keep, n)[k]) && keep(spec_scan(keep, n)[k]),
    decreases n,
{
    if n > 0 {
        lemma_scan_kept(keep, n - 1);
        let prev = spec_scan(keep, n - 1);
        let q = spec_pos(n - 1);
        assert(0 <= (n - 1) % 7 < 7 && 0 <= (n - 1) / 7 < 7);
        assert(spec_on_grid(q));
        if keep(q) {
            assert(spec_scan(keep, n) == prev.push(q));
            assert forall|k: int| 0 <= k < spec_scan(keep, n).len() implies spec_on_grid(#[trigger] spec_scan(keep, n)[k]) && keep(spec_scan(keep, n)[k]) by {
                if k < prev.len() {
                    assert(spec_scan(keep, n)[k] == prev[k]);
                }
            }
        }
    }
}

/// Every tile, row by row, that `keep` keeps; `keeps` says which.
fn scan<F: Fn((u8, u8)) -> bool>(keep: &F, Ghost(keeps): Ghost<spec_fn((u8, u8)) -> bool>) -> (r: Vec<(u8, u8)>)
    requires
        forall|p: (u8, u8)| spec_on_grid(p) ==> keep.requires((p,)),
        forall|p: (u8, u8), b: bool| spec_on_grid(p) && #[trigger] keep.ensures((p,), b) ==> b == keeps(p),
    ensures
        r@ == spec_scan(keeps, 49),
        forall|k: int| 0 <= k < r@.len() ==> spec_on_grid(#[trigger] r@[k]) && keeps(r@[k]),
{
    let mut out: Vec<(u8, u8)> = Vec::new();
    let mut y: u8 = 0;
    while y < 7
        invariant
            y <= 7,
            forall|p: (u8, u8)| spec_on_grid(p) ==> keep.requires((p,)),
            forall|p: (u8, u8), b: bool| spec_on_grid(p) && #[trigger] keep.ensures((p,), b) ==> b == keeps(p),
            out@ == spec_scan(keeps, y * 7),
        decreases 7 - y,
    {
        let mut x: u8 = 0;
        while x < 7
            invariant
                x <= 7,
                y < 7,
                forall|p: (u8, u8)| spec_on_grid(p) ==> keep.requires((p,)),
                forall|p: (u8, u8), b: bool| spec_on_grid(p) && #[trigger] keep.ensures((p,), b) ==> b == keeps(p),
                out@ == spec_scan(keeps, y * 7 + x),
            decreases 7 - x,
        {
            assert(spec_on_grid((x, y)));
            proof {
                lemma_pos_of(x, y);
            }
            if keep((x, y)) {
                out.push((x, y));
            }
            x = x + 1;
        }
        y = y + 1;
    }
    proof {
        lemma_scan_kept(keeps, 49);
    }
    out
}

/// What a shuffle keeps of every item it was handed, it keeps of every item
/// it hands back.
proof fn lemma_all_kept<T>(before: Seq<T>, after: Seq<T>, keeps: spec_fn(T) -> bool)
    requires
        after.to_multiset() == before.to_multiset(),
        forall|k: int| 0 <= k < before.len() ==> keeps(#[trigger] before[k]),
    ensures
        forall|k: int| 0 <= k < after.len() ==> keeps(#[trigger] after[k]),
{
    assert forall|k: int| 0 <= k < after.len() implies keeps(#[trigger] after[k]) by {
        to_multiset_contains(after, after[k]);
        to_multiset_contains(before, after[k]);
        assert(after.contains(after[k]));
        let w = choose|w: int| 0 <= w < before.len() && before[w] == after[k];
        assert(keeps(before[w]));
    }
}

/// Whether every mouth is at least `d` steps from `p`.
fn clear_of_mouths(p: (u8, u8), d: u8) -> (r: bool)
    requires
        spec_on_grid(p),
    ensures
        r == forall|j: int| 0 <= j < 6 ==> spec_manhattan(p, #[trigger] spec_mouths()[j]) >= d,
{
    let ms = mouths();
    let mut i: usize = 0;
    while i < 6
        invariant
            0 <= i <= 6,
            spec_on_grid(p),
            forall|j: int| 0 <= j < 6 ==> #[trigger] ms@[j].1 == spec_mouths()[j],
            forall|j: int| 0 <= j < i ==> spec_manhattan(p, #[trigger] spec_mouths()[j]) >= d,
        decreases 6 - i,
    {
        let m = ms[i].1;
        assert(ms@[i as int].1 == spec_mouths()[i as int]);
        if manhattan(p, m) < d {
            return false;
        }
        i = i + 1;
    }
    true
}

/// Whether a mouth stands one step from `p`.
fn beside_a_mouth(p: (u8, u8)) -> (r: bool)
    requires
        spec_on_grid(p),
    ensures
        r == exists|j: int| 0 <= j < spec_neighbours(p).len() && spec_mouths().contains(#[trigger] spec_neighbours(p)[j]),
{
    let ns = neighbours(p);
    let mut i: usize = 0;
    while i < ns.len()
        invariant
            0 <= i <= ns@.len(),
            ns@ == spec_neighbours(p),
            forall|j: int| 0 <= j < i ==> !spec_mouths().contains(#[trigger] spec_neighbours(p)[j]),
        decreases ns@.len() - i,
    {
        if is_mouth(ns[i]) {
            assert(spec_mouths().contains(spec_neighbours(p)[i as int]));
            return true;
        }
        i = i + 1;
    }
    false
}

fn one_of(s: &Vec<(u8, u8)>, p: (u8, u8)) -> (r: bool)
    ensures
        r == s@.contains(p),
{
    let mut i: usize = 0;
    while i < s.len()
        invariant
            0 <= i <= s@.len(),
            forall|j: int| 0 <= j < i ==> s@[j] != p,
        decreases s@.len() - i,
    {
        if s[i].0 == p.0 && s[i].1 == p.1 {
            assert(s@[i as int] == p);
            return true;
        }
        i = i + 1;
    }
    false
}

/// Which of the three regions a row is in, as a number.
pub open spec fn spec_row_region(y: u8) -> u8 {
    if y <= 1 {
        0
    } else if y <= 4 {
        1
    } else {
        2
    }
}

/// Which of the three regions a row is in, as a number.
fn region_of(y: u8) -> (r: u8)
    ensures
        r == spec_row_region(y),
{
    if y <= 1 {
        0
    } else if y <= 4 {
        1
    } else {
        2
    }
}

/// Whether `p` is more than one step from each of `mine`, and in a region
/// none of them is in.
fn apart_from(mine: &Vec<(u8, u8)>, p: (u8, u8)) -> (r: bool)
    requires
        spec_on_grid(p),
        forall|k: int| 0 <= k < mine@.len() ==> spec_on_grid(#[trigger] mine@[k]),
    ensures
        r == forall|k: int| 0 <= k < mine@.len() ==> spec_manhattan(#[trigger] mine@[k], p) > 1
            && spec_row_region(mine@[k].1) != spec_row_region(p.1),
{
    let mut i: usize = 0;
    while i < mine.len()
        invariant
            0 <= i <= mine@.len(),
            spec_on_grid(p),
            forall|k: int| 0 <= k < mine@.len() ==> spec_on_grid(#[trigger] mine@[k]),
            forall|k: int| 0 <= k < i ==> spec_manhattan(#[trigger] mine@[k], p) > 1
                && spec_row_region(mine@[k].1) != spec_row_region(p.1),
        decreases mine@.len() - i,
    {
        let c = mine[i];
        assert(spec_on_grid(mine@[i as int]));
        if manhattan(c, p) <= 1 || region_of(c.1) == region_of(p.1) {
            return false;
        }
        i = i + 1;
    }
    true
}

/// Whether `p` is at least three steps from each of `others`.
fn three_from(others: &Vec<(u8, u8)>, p: (u8, u8)) -> (r: bool)
    requires
        spec_on_grid(p),
        forall|k: int| 0 <= k < others@.len() ==> spec_on_grid(#[trigger] others@[k]),
    ensures
        r == forall|k: int| 0 <= k < others@.len() ==> spec_manhattan(#[trigger] others@[k], p) >= 3,
{
    let mut i: usize = 0;
    while i < others.len()
        invariant
            0 <= i <= others@.len(),
            spec_on_grid(p),
            forall|k: int| 0 <= k < others@.len() ==> spec_on_grid(#[trigger] others@[k]),
            forall|k: int| 0 <= k < i ==> spec_manhattan(#[trigger] others@[k], p) >= 3,
        decreases others@.len() - i,
    {
        let c = others[i];
        assert(spec_on_grid(others@[i as int]));
        if manhattan(c, p) < 3 {
            return false;
        }
        i = i + 1;
    }
    true
}

/// What an arrangement has settled by the time it is handed back: the pale
/// in the inner three by three with its event on it and the far corner's L
/// sealed behind it, the hill off the edge carrying the Ordnance's
/// pinnacle and, on each of its three bearings, that bearing's trig point,
/// a gaol within three of the middle, and no seeds counted yet.
#[verifier::opaque]
pub open spec fn spec_laid_out(c: County) -> bool {
    let pale = c.spec_pale();
    let hill = c.spec_hill();
    &&& c.spec_attempts() == 0
    &&& 2 <= pale.0 <= 4 && 2 <= pale.1 <= 4
    &&& 1 <= hill.0 <= 5 && 1 <= hill.1 <= 5
    &&& c.spec_tiles()[spec_index(pale)].kind == TileKind::Event(PALE)
    &&& c.spec_tiles()[spec_index(hill)].kind == (TileKind::Pinnacle { chain: Chain::Ordnance })
    &&& spec_far_upto(pale, 4) matches Some(corner) && c.spec_sealed() == spec_corner_l(corner)
    &&& exists|g: (u8, u8)| spec_on_grid(g) && spec_manhattan(g, (3, 3)) <= 3 && #[trigger] c.spec_tiles()[spec_index(g)].kind == TileKind::Gaol
    &&& forall|i: int| #![trigger c.spec_bearings()[i]] 0 <= i < 3 ==> exists|t: (u8, u8)| #![trigger c.spec_tiles()[spec_index(t)]] spec_on_grid(t) && t != hill
        && c.spec_bearings()[i].spec_holds(hill, t)
        && c.spec_tiles()[spec_index(t)].kind == (TileKind::Objective { chain: Chain::Ordnance, nth: (i + 1) as u8 })
}


/// Every tile `before` had something on, `after` still has, unchanged.
pub open spec fn spec_keeps(before: Seq<TileKind>, after: Seq<TileKind>) -> bool {
    &&& after.len() == before.len()
    &&& forall|i: int| 0 <= i < before.len() && !(before[i] is Empty) ==> #[trigger] after[i] == before[i]
}

/// Two tiles on the grid with one index are one tile.
proof fn lemma_index_one_to_one(p: (u8, u8), q: (u8, u8))
    requires
        spec_on_grid(p),
        spec_on_grid(q),
        spec_index(p) == spec_index(q),
    ensures
        p == q,
{
}

/// Write `k` on `p`, a tile that was empty in `snap`, which `kinds` keeps.
fn put_on_free(kinds: &mut [TileKind; TILES], p: (u8, u8), k: TileKind, snap: Ghost<Seq<TileKind>>)
    requires
        spec_on_grid(p),
        snap@.len() == 49,
        !spec_taken(snap@, p),
        spec_keeps(snap@, old(kinds)@),
    ensures
        spec_keeps(snap@, final(kinds)@),
        final(kinds)@ == old(kinds)@.update(spec_index(p), k),
{
    put(kinds, p, k);
}

/// Every mouth at least `d` steps from `p`.
pub open spec fn spec_clear(p: (u8, u8), d: int) -> bool {
    forall|j: int| 0 <= j < 6 ==> spec_manhattan(p, #[trigger] spec_mouths()[j]) >= d
}

/// A mouth one step from `p`.
pub open spec fn spec_beside(p: (u8, u8)) -> bool {
    exists|j: int| 0 <= j < spec_neighbours(p).len() && spec_mouths().contains(#[trigger] spec_neighbours(p)[j])
}

/// More than a step from each of `mine`, and in a region none of them is in.
pub open spec fn spec_apart(mine: Seq<(u8, u8)>, p: (u8, u8)) -> bool {
    forall|k: int| 0 <= k < mine.len() ==> spec_manhattan(#[trigger] mine[k], p) > 1
        && spec_row_region(mine[k].1) != spec_row_region(p.1)
}

/// At least three steps from each of `others`.
pub open spec fn spec_three(others: Seq<(u8, u8)>, p: (u8, u8)) -> bool {
    forall|k: int| 0 <= k < others.len() ==> spec_manhattan(#[trigger] others[k], p) >= 3
}

/// Free, not sealed and no mouth.
pub open spec fn spec_open(kinds: Seq<TileKind>, sealed: Seq<(u8, u8)>, p: (u8, u8)) -> bool {
    !spec_taken(kinds, p) && !sealed.contains(p) && !spec_mouths().contains(p)
}

/// Where the pale may go: the inner three by three, two from every mouth,
/// opening a corner.
pub open spec fn spec_keep_inner() -> spec_fn((u8, u8)) -> bool {
    |p: (u8, u8)| 2 <= p.0 <= 4 && 2 <= p.1 <= 4 && spec_clear(p, 2) && spec_far_upto(p, 4) is Some
}

/// Where the hill may go: off the edge, open, with no mouth beside it, and
/// three from every sealed tile.
pub open spec fn spec_keep_hill(kinds: Seq<TileKind>, sealed: Seq<(u8, u8)>) -> spec_fn((u8, u8)) -> bool {
    |p: (u8, u8)| 1 <= p.0 <= 5 && 1 <= p.1 <= 5 && spec_open(kinds, sealed, p) && !spec_beside(p) && spec_three(sealed, p)
}

/// Where a trig point on bearing `b` may go.
pub open spec fn spec_keep_on(kinds: Seq<TileKind>, sealed: Seq<(u8, u8)>, hill: (u8, u8), b: Bearing, chosen: Seq<(u8, u8)>) -> spec_fn((u8, u8)) -> bool {
    |p: (u8, u8)| p != hill && b.spec_holds(hill, p) && spec_open(kinds, sealed, p) && spec_apart(chosen, p)
}

/// Where the gaol may go: within three of the middle, two from every mouth.
pub open spec fn spec_keep_gaol(kinds: Seq<TileKind>, sealed: Seq<(u8, u8)>) -> spec_fn((u8, u8)) -> bool {
    |p: (u8, u8)| spec_manhattan(p, (3, 3)) <= 3 && spec_clear(p, 2) && spec_open(kinds, sealed, p)
}

/// Where a chain's next objective may go.
pub open spec fn spec_keep_room(kinds: Seq<TileKind>, sealed: Seq<(u8, u8)>, mine: Seq<(u8, u8)>) -> spec_fn((u8, u8)) -> bool {
    |p: (u8, u8)| spec_open(kinds, sealed, p) && spec_apart(mine, p)
}

/// Where the Drove's pinnacle may go.
pub open spec fn spec_keep_lair(kinds: Seq<TileKind>, sealed: Seq<(u8, u8)>, others: Seq<(u8, u8)>) -> spec_fn((u8, u8)) -> bool {
    |p: (u8, u8)| spec_open(kinds, sealed, p) && spec_three(others, p) && !spec_beside(p)
}

/// Where a toll may go: open and off the circuit.
pub open spec fn spec_keep_toll(kinds: Seq<TileKind>, sealed: Seq<(u8, u8)>) -> spec_fn((u8, u8)) -> bool {
    |p: (u8, u8)| spec_open(kinds, sealed, p) && !spec_circuit().contains(p)
}

/// What is left free.
pub open spec fn spec_keep_rest(kinds: Seq<TileKind>) -> spec_fn((u8, u8)) -> bool {
    |p: (u8, u8)| !spec_taken(kinds, p)
}

/// A layout: the kinds row by row, the hill, the bearings, the pale and the
/// sealed tiles.
pub type Layout = (Seq<TileKind>, (u8, u8), Seq<Bearing>, (u8, u8), Seq<(u8, u8)>);

/// A county that holds layout `l`, with `n` seeds counted.
pub open spec fn spec_is_layout(c: County, l: Layout, n: u8) -> bool {
    &&& c.spec_tiles().len() == 49
    &&& l.0.len() == 49
    &&& forall|i: int| 0 <= i < 49 ==> (#[trigger] c.spec_tiles()[i]).kind == l.0[i]
    &&& c.spec_hill() == l.1
    &&& c.spec_bearings() == l.2
    &&& c.spec_pale() == l.3
    &&& c.spec_sealed() == l.4
    &&& c.spec_attempts() == n
}

/// Trig points for bearings `bi` on, after `chosen`: each the first of its
/// shuffled room; `None` when one has no room.
pub open spec fn spec_trigs(kinds: Seq<TileKind>, sealed: Seq<(u8, u8)>, hill: (u8, u8), bs: Seq<Bearing>, chosen: Seq<(u8, u8)>, rng: u64, bi: int) -> (Option<Seq<(u8, u8)>>, u64)
    decreases 3 - bi,
{
    if bi >= 3 {
        (Some(chosen), rng)
    } else {
        let (on, r) = spec_shuffled(spec_scan(spec_keep_on(kinds, sealed, hill, bs[bi], chosen), 49), rng);
        if on.len() == 0 {
            (None, r)
        } else {
            spec_trigs(kinds, sealed, hill, bs, chosen.push(on[0]), r, bi + 1)
        }
    }
}

/// The first `n` trig points written, the `i`th numbered `i + 1`.
pub open spec fn spec_put_trigs(kinds: Seq<TileKind>, chosen: Seq<(u8, u8)>, n: int) -> Seq<TileKind>
    decreases n,
{
    if n <= 0 {
        kinds
    } else {
        spec_put_trigs(kinds, chosen, n - 1).update(spec_index(chosen[n - 1]), TileKind::Objective { chain: Chain::Ordnance, nth: n as u8 })
    }
}

/// The first of three sealed tiles, from `i` on, with no mouth beside it.
pub open spec fn spec_first_free(order: Seq<(u8, u8)>, i: int) -> Option<int>
    decreases 3 - i,
{
    if i >= 3 {
        None
    } else if !spec_beside(order[i]) {
        Some(i)
    } else {
        spec_first_free(order, i + 1)
    }
}

/// A chain's objectives `nth` to `to`: whether all found room, and the
/// kinds, draws and stones after.
pub open spec fn spec_chain(kinds: Seq<TileKind>, sealed: Seq<(u8, u8)>, chain: Chain, mine: Seq<(u8, u8)>, rng: u64, nth: int, to: int) -> (bool, Seq<TileKind>, u64, Seq<(u8, u8)>)
    decreases to + 1 - nth,
{
    if nth > to {
        (true, kinds, rng, mine)
    } else {
        let (room, r) = spec_shuffled(spec_scan(spec_keep_room(kinds, sealed, mine), 49), rng);
        if room.len() == 0 {
            (false, kinds, r, mine)
        } else {
            spec_chain(kinds.update(spec_index(room[0]), TileKind::Objective { chain, nth: nth as u8 }), sealed, chain, mine.push(room[0]), r, nth + 1, to)
        }
    }
}

/// The first `n` tolls dealt onto `room`.
pub open spec fn spec_put_tolls(kinds: Seq<TileKind>, room: Seq<(u8, u8)>, n: int) -> Seq<TileKind>
    decreases n,
{
    if n <= 0 {
        kinds
    } else {
        spec_put_tolls(kinds, room, n - 1).update(spec_index(room[n - 1]), TileKind::Feature(spec_tolls()[n - 1]))
    }
}

/// The first `n` of `rest` dealt the unarranged card.
pub open spec fn spec_put_events(kinds: Seq<TileKind>, rest: Seq<(u8, u8)>, n: int) -> Seq<TileKind>
    decreases n,
{
    if n <= 0 {
        kinds
    } else {
        spec_put_events(kinds, rest, n - 1).update(spec_index(rest[n - 1]), TileKind::Event(UNARRANGED))
    }
}

/// One hill tried: the layout if it was finished, whether the attempt was
/// given up, and the kinds and draws it left behind.
#[verifier::opaque]
pub open spec fn spec_try(hill: (u8, u8), kinds: Seq<TileKind>, rng: u64, pale: (u8, u8), sealed: Seq<(u8, u8)>) -> (Option<Layout>, bool, Seq<TileKind>, u64) {
    let (lines, r1) = spec_shuffled(seq![Bearing::Row, Bearing::Column, Bearing::Falling, Bearing::Rising], rng);
    let bs = seq![lines[0], lines[1], lines[2]];
    let (ch, r2) = spec_trigs(kinds, sealed, hill, bs, Seq::empty(), r1, 0);
    match ch {
        None => (None, false, kinds, r2),
        Some(chosen) => {
            let k2 = spec_put_trigs(kinds, chosen, 3).update(spec_index(hill), TileKind::Pinnacle { chain: Chain::Ordnance });
            let (order, r3) = spec_shuffled(sealed, r2);
            match spec_first_free(order, 0) {
                None => (None, false, k2, r3),
                Some(f) => {
                    let o2 = order.update(0, order[f]).update(f, order[0]);
                    let k3 = k2.update(spec_index(o2[0]), TileKind::Pinnacle { chain: Chain::Enclosure })
                        .update(spec_index(o2[1]), TileKind::Objective { chain: Chain::Enclosure, nth: 3 });
                    let (gaols, r4) = spec_shuffled(spec_scan(spec_keep_gaol(k3, sealed), 49), r3);
                    if gaols.len() == 0 {
                        (None, true, k3, r4)
                    } else {
                        let k4 = k3.update(spec_index(gaols[0]), TileKind::Gaol);
                        let (ok1, k5, r5, m1) = spec_chain(k4, sealed, Chain::Drove, Seq::empty(), r4, 1, 3);
                        if !ok1 {
                            (None, false, k5, r5)
                        } else {
                            let (ok2, k6, r6, m2) = spec_chain(k5, sealed, Chain::Enclosure, seq![o2[1]], r5, 1, 2);
                            if !ok2 {
                                (None, false, k6, r6)
                            } else {
                                let (lairs, r7) = spec_shuffled(spec_scan(spec_keep_lair(k6, sealed, seq![hill, o2[0]]), 49), r6);
                                if lairs.len() == 0 {
                                    (None, false, k6, r7)
                                } else {
                                    let k7 = k6.update(spec_index(lairs[0]), TileKind::Pinnacle { chain: Chain::Drove });
                                    let room = spec_scan(spec_keep_toll(k7, sealed), 49);
                                    if room.len() < 12 {
                                        (None, false, k7, r7)
                                    } else {
                                        let (room2, r8) = spec_shuffled(room, r7);
                                        let k8 = spec_put_tolls(k7, room2, 12);
                                        let (rest, r9) = spec_shuffled(spec_scan(spec_keep_rest(k8), 49), r8);
                                        let n: int = if rest.len() < 11 { rest.len() as int } else { 11 };
                                        let k9 = spec_put_events(k8, rest, n);
                                        (Some((k9, hill, bs, pale, sealed)), false, k9, r9)
                                    }
                                }
                            }
                        }
                    }
                },
            }
        },
    }
}

/// Hills `ci` on tried in turn: the first finished layout, or `None` when
/// one attempt was given up or every hill was.
pub open spec fn spec_hills(cands: Seq<(u8, u8)>, ci: int, kinds: Seq<TileKind>, rng: u64, pale: (u8, u8), sealed: Seq<(u8, u8)>) -> Option<Layout>
    decreases cands.len() - ci,
{
    if ci < 0 || ci >= cands.len() {
        None
    } else {
        let (o, gave_up, k2, r2) = spec_try(cands[ci], kinds, rng, pale, sealed);
        if o is Some {
            o
        } else if gave_up {
            None
        } else {
            spec_hills(cands, ci + 1, k2, r2, pale, sealed)
        }
    }
}

/// The layout a seed draws, or `None`.
#[verifier::opaque]
pub open spec fn spec_arrange(seed: u64) -> Option<Layout> {
    let k0 = Seq::new(49, |i: int| TileKind::Empty);
    let (inner, r1) = spec_shuffled(spec_scan(spec_keep_inner(), 49), seed);
    if inner.len() == 0 {
        None
    } else {
        let pale = inner[0];
        match spec_far_upto(pale, 4) {
            None => None,
            Some(corner) => {
                let sealed = spec_corner_l(corner);
                let k1 = k0.update(spec_index(pale), TileKind::Event(PALE));
                let (cands, r2) = spec_shuffled(spec_scan(spec_keep_hill(k1, sealed), 49), r1);
                spec_hills(cands, 0, k1, r2, pale, sealed)
            },
        }
    }
}

/// Lay one chain's objectives, `from` to `to`, each on the first open tile
/// of its shuffled room that is more than a step from each of the chain's
/// others and in a region none of them is in. False when one found no room.
fn place_chain(
    rng: &mut Rng,
    kinds: &mut [TileKind; TILES],
    sealed: &Vec<(u8, u8)>,
    chain: Chain,
    mine: &mut Vec<(u8, u8)>,
    from: u8,
    to: u8,
) -> (r: bool)
    requires
        old(kinds)@.len() == 49,
        forall|k: int| 0 <= k < old(mine)@.len() ==> spec_on_grid(#[trigger] old(mine)@[k]),
        to < 255,
        from <= to,
    ensures
        spec_keeps(old(kinds)@, final(kinds)@),
        (r, final(kinds)@, final(rng).spec_state(), final(mine)@) == spec_chain(
            old(kinds)@, sealed@, chain, old(mine)@, old(rng).spec_state(), from as int, to as int),
{
    let snap: Ghost<Seq<TileKind>> = Ghost(kinds@);
    let whole: Ghost<(bool, Seq<TileKind>, u64, Seq<(u8, u8)>)> = Ghost(
        spec_chain(kinds@, sealed@, chain, mine@, rng.spec_state(), from as int, to as int));
    let mut nth: u8 = from;
    while nth <= to
        invariant
            to < 255,
            from <= nth <= to + 1,
            snap@ == old(kinds)@,
            snap@.len() == 49,
            kinds@.len() == 49,
            spec_keeps(snap@, kinds@),
            forall|k: int| 0 <= k < mine@.len() ==> spec_on_grid(#[trigger] mine@[k]),
            spec_chain(kinds@, sealed@, chain, mine@, rng.spec_state(), nth as int, to as int) == whole@,
            whole@ == spec_chain(old(kinds)@, sealed@, chain, old(mine)@, old(rng).spec_state(), from as int, to as int),
        decreases to + 1 - nth,
    {
        let now: Ghost<Seq<TileKind>> = Ghost(kinds@);
        let mine_now: Ghost<Seq<(u8, u8)>> = Ghost(mine@);
        let kr = &*kinds;
        let mr = &*mine;
        let keep = |p: (u8, u8)| -> (b: bool)
            requires
                spec_on_grid(p),
                forall|k: int| 0 <= k < mr@.len() ==> spec_on_grid(#[trigger] mr@[k]),
            ensures
                b == spec_keep_room(now@, sealed@, mine_now@)(p),
        {
            !taken(kr, p) && !one_of(sealed, p) && !is_mouth(p) && apart_from(mr, p)
        };
        let mut room = scan(&keep, Ghost(spec_keep_room(now@, sealed@, mine_now@)));
        let ghost room0 = room@;
        let ghost r_before = rng.spec_state();
        rng.shuffle(&mut room);
        proof {
            lemma_all_kept(room0, room@, |q: (u8, u8)| spec_on_grid(q) && !spec_taken(now@, q));
            assert(spec_shuffled(spec_scan(spec_keep_room(now@, sealed@, mine_now@), 49), r_before) == (room@, rng.spec_state()));
        }
        if room.len() == 0 {
            proof {
                assert(spec_chain(now@, sealed@, chain, mine_now@, r_before, nth as int, to as int) == (false, now@, rng.spec_state(), mine_now@));
                assert(whole@ == (false, kinds@, rng.spec_state(), mine@));
            }
            return false;
        }
        let p = room[0];
        proof {
            assert(spec_on_grid(room@[0]) && !spec_taken(now@, room@[0]));
            assert(!spec_taken(snap@, p));
        }
        put_on_free(kinds, p, TileKind::Objective { chain, nth }, snap);
        mine.push(p);
        nth = nth + 1;
    }
    true
}

/// One hill tried, as `spec_try` says: the county if it was finished,
/// and whether the whole attempt was given up.
#[verifier::rlimit(60)]
#[verifier::spinoff_prover]
fn try_hill(
    rng: &mut Rng,
    kinds: &mut [TileKind; TILES],
    hill: (u8, u8),
    pale: (u8, u8),
    sealed: [(u8, u8); 3],
    sv: &Vec<(u8, u8)>,
    Ghost(corner): Ghost<(u8, u8)>,
) -> (r: (Option<County>, bool))
    requires
        old(kinds)@.len() == 49,
        spec_on_grid(pale),
        2 <= pale.0 <= 4 && 2 <= pale.1 <= 4,
        old(kinds)@[spec_index(pale)] == TileKind::Event(PALE),
        sv@ == sealed@,
        sealed@ == spec_corner_l(corner),
        spec_far_upto(pale, 4) == Some(corner),
        forall|k: int| 0 <= k < 3 ==> spec_on_grid(#[trigger] sealed@[k]),
        spec_on_grid(hill),
        1 <= hill.0 <= 5 && 1 <= hill.1 <= 5,
        spec_index(hill) != spec_index(pale),
        !sealed@.contains(hill),
    ensures
        ({
            let t = spec_try(hill, old(kinds)@, old(rng).spec_state(), pale, sealed@);
            &&& (r.0 is Some) == (t.0 is Some)
            &&& r.0 is None ==> r.1 == t.1 && final(kinds)@ == t.2 && final(rng).spec_state() == t.3
            &&& r.0 matches Some(c) ==> spec_is_layout(c, t.0->0, 0) && spec_laid_out(c)
        }),
        final(kinds)@.len() == 49,
        final(kinds)@[spec_index(pale)] == TileKind::Event(PALE),
{
    reveal(spec_try);
    reveal(spec_laid_out);
    let ghost ip = spec_index(pale);
    let ghost ih = spec_index(hill);
    let ghost k_in = kinds@;
    let ghost r_in = rng.spec_state();
    let ghost whole = spec_try(hill, k_in, r_in, pale, sealed@);
    let mut lines: Vec<Bearing> = vec![Bearing::Row, Bearing::Column, Bearing::Falling, Bearing::Rising];
    rng.shuffle(&mut lines);
    let bearings: [Bearing; 3] = [lines[0], lines[1], lines[2]];
    let ghost r1 = rng.spec_state();
    assert(bearings@ =~= seq![lines@[0], lines@[1], lines@[2]]);

    // A trig point on each line: open, more than a step from the others and
    // in a region of its own.
    let iter_start: Ghost<Seq<TileKind>> = Ghost(kinds@);
    let mut chosen: Vec<(u8, u8)> = Vec::new();
    let mut ok = true;
    let mut bi: usize = 0;
    while bi < 3
        invariant_except_break
            ok,
        invariant
            0 <= bi <= 3,
            chosen@.len() == bi,
            kinds@ == iter_start@,
            iter_start@ == k_in,
            spec_on_grid(hill),
            sv@ == sealed@,
            bearings@.len() == 3,
            forall|k: int| 0 <= k < chosen@.len() ==> spec_on_grid(#[trigger] chosen@[k]) && !spec_taken(iter_start@, chosen@[k])
                && chosen@[k] != hill && bearings@[k].spec_holds(hill, chosen@[k]) && !sealed@.contains(chosen@[k]),
            forall|x: int, y: int| 0 <= x < y < chosen@.len() ==> #[trigger] chosen@[x] != #[trigger] chosen@[y],
            spec_trigs(k_in, sealed@, hill, bearings@, chosen@, rng.spec_state(), bi as int) == spec_trigs(k_in, sealed@, hill, bearings@, Seq::empty(), r1, 0),
        ensures
            ok ==> bi == 3,
            !ok ==> spec_trigs(k_in, sealed@, hill, bearings@, Seq::empty(), r1, 0).0 is None
                && spec_trigs(k_in, sealed@, hill, bearings@, Seq::empty(), r1, 0).1 == rng.spec_state(),
        decreases 3 - bi,
    {
        let b = bearings[bi];
        let kr = &*kinds;
        let cr = &chosen;
        let chosen_now: Ghost<Seq<(u8, u8)>> = Ghost(chosen@);
        let keep_on = |p: (u8, u8)| -> (k: bool)
            requires
                spec_on_grid(p),
                spec_on_grid(hill),
                sv@ == sealed@,
                forall|j: int| 0 <= j < cr@.len() ==> spec_on_grid(#[trigger] cr@[j]),
            ensures
                k == spec_keep_on(iter_start@, sealed@, hill, b, chosen_now@)(p),
        {
            !(p.0 == hill.0 && p.1 == hill.1) && b.holds(hill, p) && !taken(kr, p) && !one_of(sv, p)
                && !is_mouth(p) && apart_from(cr, p)
        };
        let mut on = scan(&keep_on, Ghost(spec_keep_on(iter_start@, sealed@, hill, b, chosen_now@)));
        let ghost on0 = on@;
        rng.shuffle(&mut on);
        proof {
            lemma_all_kept(on0, on@, |q: (u8, u8)| spec_on_grid(q) && spec_keep_on(iter_start@, sealed@, hill, b, chosen_now@)(q));
        }
        if on.len() == 0 {
            ok = false;
            break;
        }
        let p = on[0];
        proof {
            assert(spec_on_grid(on@[0]) && spec_keep_on(iter_start@, sealed@, hill, b, chosen_now@)(on@[0]));
            assert forall|j: int| 0 <= j < chosen@.len() implies #[trigger] chosen@[j] != p by {
                assert(spec_manhattan(chosen@[j], p) > 1);
            }
        }
        let ghost before = chosen@;
        chosen.push(p);
        proof {
            assert(bearings@[bi as int] == b);
            assert forall|x: int, y: int| 0 <= x < y < chosen@.len() implies #[trigger] chosen@[x] != #[trigger] chosen@[y] by {
                if y < before.len() {
                    assert(before[x] != before[y]);
                } else {
                    assert(before[x] != p);
                }
            }
        }
        bi = bi + 1;
    }
    if !ok {
        return (None, false);
    }
    let ghost r2 = rng.spec_state();
    let mut ti: usize = 0;
    while ti < 3
        invariant
            0 <= ti <= 3,
            chosen@.len() == 3,
            iter_start@.len() == 49,
            spec_keeps(iter_start@, kinds@),
            kinds@ == spec_put_trigs(iter_start@, chosen@, ti as int),
            forall|k: int| 0 <= k < chosen@.len() ==> spec_on_grid(#[trigger] chosen@[k]) && !spec_taken(iter_start@, chosen@[k]),
            forall|x: int, y: int| 0 <= x < y < chosen@.len() ==> #[trigger] chosen@[x] != #[trigger] chosen@[y],
            forall|k: int| 0 <= k < ti ==> kinds@[spec_index(#[trigger] chosen@[k])] == (TileKind::Objective { chain: Chain::Ordnance, nth: (k + 1) as u8 }),
        decreases 3 - ti,
    {
        let p = chosen[ti];
        proof {
            assert(spec_on_grid(chosen@[ti as int]) && !spec_taken(iter_start@, chosen@[ti as int]));
        }
        put_on_free(kinds, p, TileKind::Objective { chain: Chain::Ordnance, nth: ti as u8 + 1 }, iter_start);
        proof {
            assert forall|k: int| 0 <= k < ti + 1 implies kinds@[spec_index(#[trigger] chosen@[k])] == (TileKind::Objective { chain: Chain::Ordnance, nth: (k + 1) as u8 }) by {
                if k < ti {
                    assert(chosen@[k] != chosen@[ti as int]);
                    assert(spec_on_grid(chosen@[k]) && spec_on_grid(chosen@[ti as int]));
                    if spec_index(chosen@[k]) == spec_index(p) {
                        lemma_index_one_to_one(chosen@[k], p);
                    }
                }
            }
        }
        ti = ti + 1;
    }
    let ghost before_hill = kinds@;
    put(kinds, hill, TileKind::Pinnacle { chain: Chain::Ordnance });
    proof {
        assert(iter_start@[ip] == TileKind::Event(PALE));
        assert(kinds@[ip] == TileKind::Event(PALE));
        assert(kinds@[ih] == (TileKind::Pinnacle { chain: Chain::Ordnance }));
        assert forall|k: int| 0 <= k < 3 implies kinds@[spec_index(#[trigger] chosen@[k])] == (TileKind::Objective { chain: Chain::Ordnance, nth: (k + 1) as u8 }) by {
            assert(before_hill[spec_index(chosen@[k])] == (TileKind::Objective { chain: Chain::Ordnance, nth: (k + 1) as u8 }));
            if spec_index(chosen@[k]) == ih {
                lemma_index_one_to_one(chosen@[k], hill);
            }
        }
    }
    let ghost k2 = kinds@;

    // The Enclosure's pinnacle and third stone behind the pale, the
    // pinnacle on a sealed tile no mouth stands beside.
    let mut order: Vec<(u8, u8)> = vec![sealed[0], sealed[1], sealed[2]];
    let ghost order0 = order@;
    rng.shuffle(&mut order);
    proof {
        assert(order0 =~= sealed@);
        lemma_all_kept(order0, order@, |q: (u8, u8)| sealed@.contains(q));
    }
    let ghost r3 = rng.spec_state();
    let mut found: Option<usize> = None;
    let mut oi: usize = 0;
    while oi < 3
        invariant_except_break
            found is None,
        invariant
            0 <= oi <= 3,
            order@.len() == 3,
            forall|k: int| 0 <= k < 3 ==> sealed@.contains(#[trigger] order@[k]),
            forall|k: int| 0 <= k < 3 ==> spec_on_grid(#[trigger] sealed@[k]),
            spec_first_free(order@, oi as int) == spec_first_free(order@, 0),
        ensures
            found matches Some(f) ==> f < 3 && spec_first_free(order@, 0) == Some(f as int),
            found is None ==> spec_first_free(order@, 0) is None,
        decreases 3 - oi,
    {
        let q = order[oi];
        proof {
            assert(sealed@.contains(order@[oi as int]));
            let w = choose|w: int| 0 <= w < 3 && sealed@[w] == q;
            assert(spec_on_grid(sealed@[w]));
        }
        if !beside_a_mouth(q) {
            found = Some(oi);
            break;
        }
        oi = oi + 1;
    }
    let fk = match found {
        Some(f) => f,
        None => {
            return (None, false);
        },
    };
    let first = order[fk];
    let zeroth = order[0];
    let ghost ord = order@;
    order.set(0, first);
    order.set(fk, zeroth);
    proof {
        assert(order@ =~= ord.update(0, ord[fk as int]).update(fk as int, ord[0]));
        assert(sealed@.contains(order@[0]));
        assert(sealed@.contains(order@[1]));
    }
    let p0 = order[0];
    let p1 = order[1];
    proof {
        let w0 = choose|w: int| 0 <= w < 3 && sealed@[w] == p0;
        let w1 = choose|w: int| 0 <= w < 3 && sealed@[w] == p1;
        assert(spec_on_grid(sealed@[w0]) && spec_on_grid(sealed@[w1]));
        assert(sealed@[w0] == spec_corner_l(corner)[w0]);
        assert(sealed@[w1] == spec_corner_l(corner)[w1]);
        the_far_corner_is_free_and_far(pale);
        if spec_index(p0) == ip {
            lemma_index_one_to_one(p0, pale);
        }
        if spec_index(p0) == ih {
            lemma_index_one_to_one(p0, hill);
        }
        if spec_index(p1) == ip {
            lemma_index_one_to_one(p1, pale);
        }
        if spec_index(p1) == ih {
            lemma_index_one_to_one(p1, hill);
        }
    }
    let ghost before_sealed = kinds@;
    put(kinds, p0, TileKind::Pinnacle { chain: Chain::Enclosure });
    put(kinds, p1, TileKind::Objective { chain: Chain::Enclosure, nth: 3 });
    proof {
        assert forall|k: int| 0 <= k < 3 implies kinds@[spec_index(#[trigger] chosen@[k])] == (TileKind::Objective { chain: Chain::Ordnance, nth: (k + 1) as u8 }) by {
            assert(before_sealed[spec_index(chosen@[k])] == (TileKind::Objective { chain: Chain::Ordnance, nth: (k + 1) as u8 }));
            assert(!sealed@.contains(chosen@[k]));
            assert(spec_on_grid(chosen@[k]));
            if spec_index(chosen@[k]) == spec_index(p0) {
                lemma_index_one_to_one(chosen@[k], p0);
            }
            if spec_index(chosen@[k]) == spec_index(p1) {
                lemma_index_one_to_one(chosen@[k], p1);
            }
        }
        assert(kinds@[ip] == TileKind::Event(PALE));
        assert(kinds@[ih] == (TileKind::Pinnacle { chain: Chain::Ordnance }));
    }
    let settled: Ghost<Seq<TileKind>> = Ghost(kinds@);

    // The gaol, within three of the middle and two from every mouth.
    let kr = &*kinds;
    let keep_gaol = |p: (u8, u8)| -> (k: bool)
        requires
            spec_on_grid(p),
            sv@ == sealed@,
        ensures
            k == spec_keep_gaol(settled@, sealed@)(p),
    {
        manhattan(p, (3, 3)) <= 3 && clear_of_mouths(p, 2) && !taken(kr, p) && !one_of(sv, p) && !is_mouth(p)
    };
    let mut gaols = scan(&keep_gaol, Ghost(spec_keep_gaol(settled@, sealed@)));
    let ghost gaols0 = gaols@;
    rng.shuffle(&mut gaols);
    proof {
        lemma_all_kept(gaols0, gaols@, |q: (u8, u8)| spec_on_grid(q) && spec_keep_gaol(settled@, sealed@)(q));
    }
    if gaols.len() == 0 {
        return (None, true);
    }
    let gaol = gaols[0];
    proof {
        assert(spec_on_grid(gaols@[0]) && spec_keep_gaol(settled@, sealed@)(gaols@[0]));
    }
    put_on_free(kinds, gaol, TileKind::Gaol, settled);
    let ghost ig = spec_index(gaol);
    assert(kinds@[ig] == TileKind::Gaol);
    let ghost k4 = kinds@;
    let ghost r4 = rng.spec_state();

    // The Drove's three signs, then the Enclosure's first two stones.
    let mut drove: Vec<(u8, u8)> = Vec::new();
    if !place_chain(rng, kinds, sv, Chain::Drove, &mut drove, 1, 3) {
        return (None, false);
    }
    let mut stones: Vec<(u8, u8)> = vec![p1];
    proof {
        let w1 = choose|w: int| 0 <= w < 3 && sealed@[w] == p1;
        assert(spec_on_grid(sealed@[w1]));
        assert(stones@ =~= seq![p1]);
    }
    if !place_chain(rng, kinds, sv, Chain::Enclosure, &mut stones, 1, 2) {
        return (None, false);
    }
    proof {
        assert(kinds@[ig] == TileKind::Gaol);
    }

    // The Drove's pinnacle: three from the other two, no mouth on it or
    // beside it.
    let others: Vec<(u8, u8)> = vec![hill, p0];
    proof {
        let w0 = choose|w: int| 0 <= w < 3 && sealed@[w] == p0;
        assert(spec_on_grid(sealed@[w0]));
        assert(others@ =~= seq![hill, p0]);
    }
    let laid: Ghost<Seq<TileKind>> = Ghost(kinds@);
    let kr = &*kinds;
    let or = &others;
    let keep_lair = |p: (u8, u8)| -> (k: bool)
        requires
            spec_on_grid(p),
            sv@ == sealed@,
            forall|j: int| 0 <= j < or@.len() ==> spec_on_grid(#[trigger] or@[j]),
        ensures
            k == spec_keep_lair(laid@, sealed@, seq![hill, p0])(p),
    {
        !taken(kr, p) && !one_of(sv, p) && !is_mouth(p) && three_from(or, p) && !beside_a_mouth(p)
    };
    let mut lairs = scan(&keep_lair, Ghost(spec_keep_lair(laid@, sealed@, seq![hill, p0])));
    let ghost lairs0 = lairs@;
    rng.shuffle(&mut lairs);
    proof {
        lemma_all_kept(lairs0, lairs@, |q: (u8, u8)| spec_on_grid(q) && spec_keep_lair(laid@, sealed@, seq![hill, p0])(q));
    }
    if lairs.len() == 0 {
        return (None, false);
    }
    let lair = lairs[0];
    proof {
        assert(spec_on_grid(lairs@[0]) && spec_keep_lair(laid@, sealed@, seq![hill, p0])(lairs@[0]));
    }
    put_on_free(kinds, lair, TileKind::Pinnacle { chain: Chain::Drove }, laid);

    // Twelve tolls, none on the circuit, a mouth or a sealed tile.
    let walled: Ghost<Seq<TileKind>> = Ghost(kinds@);
    let kr = &*kinds;
    let keep_toll = |p: (u8, u8)| -> (k: bool)
        requires
            spec_on_grid(p),
            sv@ == sealed@,
        ensures
            k == spec_keep_toll(walled@, sealed@)(p),
    {
        !taken(kr, p) && !one_of(sv, p) && !is_mouth(p) && !on_circuit(p)
    };
    let mut room = scan(&keep_toll, Ghost(spec_keep_toll(walled@, sealed@)));
    if room.len() < 12 {
        return (None, false);
    }
    let ghost room0 = room@;
    rng.shuffle(&mut room);
    proof {
        lemma_all_kept(room0, room@, |q: (u8, u8)| spec_on_grid(q) && spec_keep_toll(walled@, sealed@)(q));
    }
    let ts = tolls();
    let mut k: usize = 0;
    while k < 12
        invariant
            0 <= k <= 12,
            room@.len() >= 12,
            walled@.len() == 49,
            ts@ == spec_tolls(),
            spec_keeps(walled@, kinds@),
            kinds@ == spec_put_tolls(walled@, room@, k as int),
            forall|j: int| 0 <= j < room@.len() ==> spec_on_grid(#[trigger] room@[j]) && !spec_taken(walled@, room@[j]),
        decreases 12 - k,
    {
        let p = room[k];
        proof {
            assert(spec_on_grid(room@[k as int]) && !spec_taken(walled@, room@[k as int]));
        }
        put_on_free(kinds, p, TileKind::Feature(ts[k]), walled);
        k = k + 1;
    }

    // The arranged events on what is left. The county's event pool is not
    // written yet, so the deck holds the one unarranged card, a deck of one
    // shuffles to itself, and every tile dealt gets that card.
    let dealt: Ghost<Seq<TileKind>> = Ghost(kinds@);
    let kr = &*kinds;
    let keep_rest = |p: (u8, u8)| -> (k: bool)
        requires
            spec_on_grid(p),
        ensures
            k == spec_keep_rest(dealt@)(p),
    {
        !taken(kr, p)
    };
    let mut rest = scan(&keep_rest, Ghost(spec_keep_rest(dealt@)));
    let ghost rest0 = rest@;
    rng.shuffle(&mut rest);
    proof {
        lemma_all_kept(rest0, rest@, |q: (u8, u8)| spec_on_grid(q) && !spec_taken(dealt@, q));
    }
    let mut e: usize = 0;
    while e < ARRANGED && e < rest.len()
        invariant
            0 <= e <= ARRANGED,
            e <= rest@.len(),
            dealt@.len() == 49,
            spec_keeps(dealt@, kinds@),
            kinds@ == spec_put_events(dealt@, rest@, e as int),
            forall|j: int| 0 <= j < rest@.len() ==> spec_on_grid(#[trigger] rest@[j]) && !spec_taken(dealt@, rest@[j]),
        decreases ARRANGED - e,
    {
        let p = rest[e];
        proof {
            assert(spec_on_grid(rest@[e as int]) && !spec_taken(dealt@, rest@[e as int]));
        }
        put_on_free(kinds, p, TileKind::Event(UNARRANGED), dealt);
        e = e + 1;
    }
    proof {
        assert(kinds@[ip] == TileKind::Event(PALE));
        assert(kinds@[ih] == (TileKind::Pinnacle { chain: Chain::Ordnance }));
        assert(kinds@[ig] == TileKind::Gaol);
        assert forall|k: int| 0 <= k < 3 implies kinds@[spec_index(#[trigger] chosen@[k])] == (TileKind::Objective { chain: Chain::Ordnance, nth: (k + 1) as u8 }) by {
            assert(settled@[spec_index(chosen@[k])] == (TileKind::Objective { chain: Chain::Ordnance, nth: (k + 1) as u8 }));
        }
    }
    let c = County::of(*kinds, hill, bearings, pale, sealed, 0);
    proof {
        assert(c.spec_tiles()[spec_index(gaol)].kind == TileKind::Gaol);
        assert forall|i: int| #![trigger c.spec_bearings()[i]] 0 <= i < 3 implies exists|t: (u8, u8)| #![trigger c.spec_tiles()[spec_index(t)]] spec_on_grid(t) && t != hill
            && c.spec_bearings()[i].spec_holds(hill, t)
            && c.spec_tiles()[spec_index(t)].kind == (TileKind::Objective { chain: Chain::Ordnance, nth: (i + 1) as u8 }) by {
            let t = chosen@[i];
            assert(spec_on_grid(t));
            assert(0 <= spec_index(t) < 49);
            assert(c.spec_tiles()[spec_index(t)].kind == kinds@[spec_index(t)]);
        }
    }
    (Some(c), false)
}

/// One attempt at laying a county out from `seed`: the pale, then the hill
/// and its three trig points, the Enclosure's stones behind the pale, the
/// gaol, the other chains, the Drove's pinnacle, the twelve tolls and the
/// arranged events. What comes back is the layout the seed draws, exactly;
/// `None` when the draws paint it into a corner.
#[verifier::rlimit(60)]
#[verifier::spinoff_prover]
pub fn arrange(seed: u64) -> (r: Option<County>)
    ensures
        spec_arranged(r, seed),
{
    reveal(spec_arrange);
    let mut rng = Rng::new(seed);
    let mut kinds: [TileKind; TILES] = [TileKind::Empty; TILES];
    proof {
        assert(kinds@ =~= Seq::new(49, |i: int| TileKind::Empty));
    }
    let k0: Ghost<Seq<TileKind>> = Ghost(kinds@);

    // The pale, somewhere in the inner three by three that is two from every
    // mouth and opens a corner.
    let keep_inner = |p: (u8, u8)| -> (k: bool)
        requires
            spec_on_grid(p),
        ensures
            k == spec_keep_inner()(p),
    {
        2 <= p.0 && p.0 <= 4 && 2 <= p.1 && p.1 <= 4 && clear_of_mouths(p, 2) && far_corner(p).is_some()
    };
    let mut inner = scan(&keep_inner, Ghost(spec_keep_inner()));
    let ghost inner0 = inner@;
    rng.shuffle(&mut inner);
    proof {
        lemma_all_kept(inner0, inner@, |q: (u8, u8)| spec_on_grid(q) && spec_keep_inner()(q));
    }
    if inner.len() == 0 {
        return None;
    }
    let pale = inner[0];
    proof {
        assert(spec_on_grid(inner@[0]) && spec_keep_inner()(inner@[0]));
    }
    let corner = match far_corner(pale) {
        Some(c) => c,
        None => return None,
    };
    proof {
        the_far_corner_is_free_and_far(pale);
    }
    let sealed = corner_l(corner);
    let ghost ip = spec_index(pale);
    put(&mut kinds, pale, TileKind::Event(PALE));
    let sealed_v: Vec<(u8, u8)> = vec![sealed[0], sealed[1], sealed[2]];
    assert(sealed_v@ =~= sealed@);
    assert(forall|k: int| 0 <= k < 3 ==> spec_on_grid(#[trigger] sealed@[k]));

    // The hill: off the edge, open, no mouth beside it, and three from every
    // sealed tile.
    let k1: Ghost<Seq<TileKind>> = Ghost(kinds@);
    let kr = &kinds;
    let sv = &sealed_v;
    let keep_hill = |p: (u8, u8)| -> (b: bool)
        requires
            spec_on_grid(p),
            sv@ == sealed@,
            forall|k: int| 0 <= k < 3 ==> spec_on_grid(#[trigger] sv@[k]),
        ensures
            b == spec_keep_hill(k1@, sealed@)(p),
    {
        1 <= p.0 && p.0 <= 5 && 1 <= p.1 && p.1 <= 5 && !taken(kr, p) && !one_of(sv, p)
            && !is_mouth(p) && !beside_a_mouth(p) && three_from(sv, p)
    };
    let mut candidates = scan(&keep_hill, Ghost(spec_keep_hill(k1@, sealed@)));
    let ghost cand0 = candidates@;
    rng.shuffle(&mut candidates);
    proof {
        lemma_all_kept(cand0, candidates@, |q: (u8, u8)| spec_on_grid(q) && spec_keep_hill(k1@, sealed@)(q));
        assert(k1@[ip] == TileKind::Event(PALE));
    }
    let ghost cands = candidates@;
    let ghost whole = spec_hills(cands, 0, k1@, rng.spec_state(), pale, sealed@);
    proof {
        assert(k1@ == k0@.update(spec_index(pale), TileKind::Event(PALE)));
        assert(spec_arrange(seed) == whole);
    }
    let mut ci: usize = 0;
    while ci < candidates.len()
        invariant
            0 <= ci <= candidates@.len(),
            candidates@ == cands,
            kinds@.len() == 49,
            k1@.len() == 49,
            ip == spec_index(pale),
            spec_on_grid(pale),
            2 <= pale.0 <= 4 && 2 <= pale.1 <= 4,
            k1@[ip] == TileKind::Event(PALE),
            kinds@[ip] == TileKind::Event(PALE),
            sealed_v@ == sealed@,
            sealed@ == spec_corner_l(corner),
            spec_far_upto(pale, 4) == Some(corner),
            forall|k: int| 0 <= k < 3 ==> spec_on_grid(#[trigger] sealed@[k]),
            forall|k: int| 0 <= k < candidates@.len() ==> spec_on_grid(#[trigger] candidates@[k])
                && spec_keep_hill(k1@, sealed@)(candidates@[k]),
            spec_hills(cands, ci as int, kinds@, rng.spec_state(), pale, sealed@) == whole,
            spec_arrange(seed) == whole,
        decreases candidates@.len() - ci,
    {
        let hill = candidates[ci];
        proof {
            assert(spec_on_grid(candidates@[ci as int]) && spec_keep_hill(k1@, sealed@)(candidates@[ci as int]));
            if spec_index(hill) == ip {
                lemma_index_one_to_one(hill, pale);
            }
        }
        let (got, gave_up) = try_hill(&mut rng, &mut kinds, hill, pale, sealed, &sealed_v, Ghost(corner));
        ci = ci + 1;
        match got {
            Some(c) => {
                return Some(c);
            },
            None => {},
        }
        if gave_up {
            return None;
        }
    }
    None
}

/// What `arrange` hands back for `seed`: nothing when the seed draws no
/// layout, and otherwise a county holding the layout it draws.
pub open spec fn spec_arranged(o: Option<County>, seed: u64) -> bool {
    match o {
        None => spec_arrange(seed) is None,
        Some(c) => spec_arrange(seed) matches Some(l) && spec_is_layout(c, l, 0) && spec_laid_out(c),
    }
}

} // verus!
