//! What the reach table means: walks. A tile is reached in `k` moves within
//! a toll budget exactly when some walk of at most `k` orthogonal steps from
//! a source gets there crossing no more than the budget, and the table holds
//! the fewest tolls any such walk crosses.
use vstd::prelude::*;

use crate::county::{
    neighbours_are_one_step_away, spec_neighbours, spec_on_grid, spec_reach,
    spec_toll_at, spec_trip_reaches, spec_via, Tile, REACH, TOLL_BUDGET,
};

verus! {

/// The tolls a walk crosses: one for every toll tile it steps onto after
/// the first.
pub open spec fn spec_tolls_along(tiles: Seq<Tile>, w: Seq<(u8, u8)>) -> int
    decreases w.len(),
{
    if w.len() <= 1 {
        0
    } else {
        spec_tolls_along(tiles, w.drop_last()) + spec_toll_at(tiles, w.last())
    }
}

/// A walk of at most `k` moves from one of `src` to `p`: on the grid
/// throughout, each tile one orthogonal step from the next.
pub open spec fn spec_is_walk(src: Seq<(u8, u8)>, w: Seq<(u8, u8)>, k: nat, p: (u8, u8)) -> bool {
    &&& 1 <= w.len() <= k + 1
    &&& src.contains(w[0])
    &&& w.last() == p
    &&& forall|i: int| 0 <= i < w.len() ==> spec_on_grid(#[trigger] w[i])
    &&& forall|i: int| 0 <= i < w.len() - 1 ==> spec_neighbours(#[trigger] w[i + 1]).contains(w[i])
}

proof fn lemma_toll_bounds(tiles: Seq<Tile>, p: (u8, u8))
    ensures
        0 <= spec_toll_at(tiles, p) <= 1,
{
}

/// What the best arrival through the first `n` neighbours is made of: one
/// of them reached in a move less, and the toll of stepping on.
proof fn lemma_via_witness(tiles: Seq<Tile>, src: Seq<(u8, u8)>, budget: int, k: nat, p: (u8, u8), n: nat)
    requires
        spec_via(tiles, src, budget, k, p, n) is Some,
        n <= spec_neighbours(p).len(),
    ensures
        k >= 1,
        exists|j: int| 0 <= j < n && j < spec_neighbours(p).len() && #[trigger] spec_reach(tiles, src, budget, (k - 1) as nat, spec_neighbours(p)[j]) is Some
            && spec_reach(tiles, src, budget, (k - 1) as nat, spec_neighbours(p)[j])->0 + spec_toll_at(tiles, p)
                == spec_via(tiles, src, budget, k, p, n)->0
            && spec_via(tiles, src, budget, k, p, n)->0 <= budget,
    decreases n,
{
    let rest = spec_via(tiles, src, budget, k, p, (n - 1) as nat);
    let q = spec_neighbours(p)[n - 1];
    let v = spec_via(tiles, src, budget, k, p, n);
    if rest is Some {
        lemma_via_witness(tiles, src, budget, k, p, (n - 1) as nat);
    }
    assert(n <= 4);
    match spec_reach(tiles, src, budget, (k - 1) as nat, q) {
        Some(t) => {
            if t + spec_toll_at(tiles, p) <= budget {
                if v == Some(t + spec_toll_at(tiles, p)) {
                    let j = n - 1;
                    assert(0 <= j < n && j < spec_neighbours(p).len() && spec_reach(tiles, src, budget, (k - 1) as nat, spec_neighbours(p)[j]) is Some
                        && spec_reach(tiles, src, budget, (k - 1) as nat, spec_neighbours(p)[j])->0 + spec_toll_at(tiles, p) == v->0
                        && v->0 <= budget);
                } else {
                    let j = choose|j: int| 0 <= j < n - 1 && j < spec_neighbours(p).len() && #[trigger] spec_reach(tiles, src, budget, (k - 1) as nat, spec_neighbours(p)[j]) is Some
                        && spec_reach(tiles, src, budget, (k - 1) as nat, spec_neighbours(p)[j])->0 + spec_toll_at(tiles, p) == rest->0
                        && rest->0 <= budget;
                    assert(spec_reach(tiles, src, budget, (k - 1) as nat, spec_neighbours(p)[j]) is Some);
                }
            } else {
                let j = choose|j: int| 0 <= j < n - 1 && j < spec_neighbours(p).len() && #[trigger] spec_reach(tiles, src, budget, (k - 1) as nat, spec_neighbours(p)[j]) is Some
                    && spec_reach(tiles, src, budget, (k - 1) as nat, spec_neighbours(p)[j])->0 + spec_toll_at(tiles, p) == rest->0
                    && rest->0 <= budget;
                assert(spec_reach(tiles, src, budget, (k - 1) as nat, spec_neighbours(p)[j]) is Some);
            }
        },
        None => {
            let j = choose|j: int| 0 <= j < n - 1 && j < spec_neighbours(p).len() && #[trigger] spec_reach(tiles, src, budget, (k - 1) as nat, spec_neighbours(p)[j]) is Some
                && spec_reach(tiles, src, budget, (k - 1) as nat, spec_neighbours(p)[j])->0 + spec_toll_at(tiles, p) == rest->0
                && rest->0 <= budget;
            assert(spec_reach(tiles, src, budget, (k - 1) as nat, spec_neighbours(p)[j]) is Some);
        },
    }
}

/// A neighbour reached in a move less, with room in the budget to step on,
/// makes the best arrival at least as good.
proof fn lemma_via_at_most(tiles: Seq<Tile>, src: Seq<(u8, u8)>, budget: int, k: nat, p: (u8, u8), n: nat, j: int, t: int)
    requires
        k >= 1,
        0 <= j < n,
        n <= spec_neighbours(p).len(),
        spec_neighbours(p).len() <= 4,
        spec_reach(tiles, src, budget, (k - 1) as nat, spec_neighbours(p)[j]) == Some(t),
        t + spec_toll_at(tiles, p) <= budget,
    ensures
        spec_via(tiles, src, budget, k, p, n) is Some,
        spec_via(tiles, src, budget, k, p, n)->0 <= t + spec_toll_at(tiles, p),
    decreases n,
{
    if j < n - 1 {
        lemma_via_at_most(tiles, src, budget, k, p, (n - 1) as nat, j, t);
    }
}

/// Every walk within the budget is matched or bettered by the table.
pub proof fn a_walk_within_the_budget_is_reached(tiles: Seq<Tile>, src: Seq<(u8, u8)>, budget: int, k: nat, p: (u8, u8), w: Seq<(u8, u8)>)
    requires
        spec_is_walk(src, w, k, p),
        spec_tolls_along(tiles, w) <= budget,
    ensures
        spec_reach(tiles, src, budget, k, p) is Some,
        spec_reach(tiles, src, budget, k, p)->0 <= spec_tolls_along(tiles, w),
    decreases k, w.len(),
{
    assert(spec_on_grid(w[w.len() - 1]));
    if w.len() == 1 {
        if k == 0 {
            assert(w[0] == p);
        } else {
            a_walk_within_the_budget_is_reached(tiles, src, budget, (k - 1) as nat, p, w);
        }
        lemma_nonneg_along(tiles, w);
    } else {
        let v = w.drop_last();
        let q = v.last();
        assert(q == w[w.len() - 2]);
        assert(spec_on_grid(w[w.len() - 2]));
        assert(spec_is_walk(src, v, (k - 1) as nat, q)) by {
            assert forall|i: int| 0 <= i < v.len() implies spec_on_grid(#[trigger] v[i]) by {
                assert(spec_on_grid(w[i]));
            }
            assert forall|i: int| 0 <= i < v.len() - 1 implies spec_neighbours(#[trigger] v[i + 1]).contains(v[i]) by {
                assert(spec_neighbours(w[i + 1]).contains(w[i]));
            }
            assert(v[0] == w[0]);
        }
        lemma_toll_bounds(tiles, p);
        a_walk_within_the_budget_is_reached(tiles, src, budget, (k - 1) as nat, q, v);
        let t = spec_reach(tiles, src, budget, (k - 1) as nat, q)->0;
        let last = w.len() - 2;
        assert(spec_neighbours(w[last + 1]).contains(w[last]));
        assert(w[last + 1] == p);
        neighbours_are_one_step_away(p);
        let j = choose|j: int| 0 <= j < spec_neighbours(p).len() && spec_neighbours(p)[j] == q;
        lemma_via_at_most(tiles, src, budget, k, p, spec_neighbours(p).len(), j, t);
    }
}

proof fn lemma_nonneg_along(tiles: Seq<Tile>, w: Seq<(u8, u8)>)
    ensures
        spec_tolls_along(tiles, w) >= 0,
    decreases w.len(),
{
    if w.len() > 1 {
        lemma_nonneg_along(tiles, w.drop_last());
        lemma_toll_bounds(tiles, w.last());
    }
}

/// A walk the table's figure is made of: at most `k` moves from a source to
/// `p`, crossing exactly that many tolls.
proof fn lemma_reach_walk(tiles: Seq<Tile>, src: Seq<(u8, u8)>, budget: int, k: nat, p: (u8, u8)) -> (w: Seq<(u8, u8)>)
    requires
        spec_reach(tiles, src, budget, k, p) is Some,
    ensures
        spec_is_walk(src, w, k, p),
        spec_tolls_along(tiles, w) == spec_reach(tiles, src, budget, k, p)->0,
    decreases k,
{
    let t = spec_reach(tiles, src, budget, k, p)->0;
    if k == 0 {
        let w = seq![p];
        assert(w.last() == p);
        w
    } else {
        let before = spec_reach(tiles, src, budget, (k - 1) as nat, p);
        let via = spec_via(tiles, src, budget, k, p, spec_neighbours(p).len());
        if before == Some(t) {
            lemma_reach_walk(tiles, src, budget, (k - 1) as nat, p)
        } else {
            assert(via == Some(t));
            neighbours_are_one_step_away(p);
            lemma_via_witness(tiles, src, budget, k, p, spec_neighbours(p).len());
            let j = choose|j: int| 0 <= j < spec_neighbours(p).len() && j < spec_neighbours(p).len() && #[trigger] spec_reach(tiles, src, budget, (k - 1) as nat, spec_neighbours(p)[j]) is Some
                && spec_reach(tiles, src, budget, (k - 1) as nat, spec_neighbours(p)[j])->0 + spec_toll_at(tiles, p) == via->0
                && via->0 <= budget;
            let q = spec_neighbours(p)[j];
            let v = lemma_reach_walk(tiles, src, budget, (k - 1) as nat, q);
            let w = v.push(p);
            assert(w.drop_last() =~= v);
            assert(spec_neighbours(p).contains(q));
            assert forall|i: int| 0 <= i < w.len() implies spec_on_grid(#[trigger] w[i]) by {
                if i < v.len() {
                    assert(spec_on_grid(v[i]));
                }
            }
            assert forall|i: int| 0 <= i < w.len() - 1 implies spec_neighbours(#[trigger] w[i + 1]).contains(w[i]) by {
                if i < v.len() - 1 {
                    assert(spec_neighbours(v[i + 1]).contains(v[i]));
                } else {
                    assert(w[i] == q);
                }
            }
            assert(w[0] == v[0]);
            w
        }
    }
}

/// The reach table is the walks: a tile is reached in `k` moves within the
/// budget exactly when a walk of at most `k` orthogonal steps from a source
/// gets there crossing no more than the budget, and what the table holds is
/// the fewest tolls such a walk crosses.
pub proof fn the_reach_table_is_the_walks(tiles: Seq<Tile>, src: Seq<(u8, u8)>, budget: int, k: nat, p: (u8, u8))
    requires
        budget >= 0,
    ensures
        (spec_reach(tiles, src, budget, k, p) is Some) == exists|w: Seq<(u8, u8)>| spec_is_walk(src, w, k, p)
            && spec_tolls_along(tiles, w) <= budget,
        spec_reach(tiles, src, budget, k, p) matches Some(t) ==> (exists|w: Seq<(u8, u8)>| spec_is_walk(src, w, k, p)
            && #[trigger] spec_tolls_along(tiles, w) == t)
            && forall|w: Seq<(u8, u8)>| spec_is_walk(src, w, k, p) && spec_tolls_along(tiles, w) <= budget
                ==> t <= #[trigger] spec_tolls_along(tiles, w),
{
    if spec_reach(tiles, src, budget, k, p) is Some {
        let w = lemma_reach_walk(tiles, src, budget, k, p);
        lemma_reach_within_budget(tiles, src, budget, k, p);
        assert(spec_is_walk(src, w, k, p) && spec_tolls_along(tiles, w) <= budget);
    }
    assert forall|w: Seq<(u8, u8)>| spec_is_walk(src, w, k, p) && spec_tolls_along(tiles, w) <= budget implies spec_reach(tiles, src, budget, k, p) is Some
        && spec_reach(tiles, src, budget, k, p)->0 <= spec_tolls_along(tiles, w) by {
        a_walk_within_the_budget_is_reached(tiles, src, budget, k, p, w);
    }
}

/// What the table holds is within the budget.
proof fn lemma_reach_within_budget(tiles: Seq<Tile>, src: Seq<(u8, u8)>, budget: int, k: nat, p: (u8, u8))
    requires
        spec_reach(tiles, src, budget, k, p) is Some,
        budget >= 0,
    ensures
        spec_reach(tiles, src, budget, k, p)->0 <= budget,
    decreases k,
{
    if k > 0 {
        let t = spec_reach(tiles, src, budget, k, p)->0;
        let before = spec_reach(tiles, src, budget, (k - 1) as nat, p);
        if before == Some(t) {
            lemma_reach_within_budget(tiles, src, budget, (k - 1) as nat, p);
        } else {
            neighbours_are_one_step_away(p);
            lemma_via_witness(tiles, src, budget, k, p, spec_neighbours(p).len());
        }
    }
}

/// One trip from mouth `m` reaches `p` exactly when a walk of at most five
/// orthogonal steps from the mouth gets there crossing at most one toll; the
/// mouth's own tile is always reached.
pub proof fn a_trip_is_a_short_walk(tiles: Seq<Tile>, m: (u8, u8), p: (u8, u8))
    ensures
        spec_trip_reaches(tiles, m, p) == exists|w: Seq<(u8, u8)>| spec_is_walk(seq![m], w, REACH as nat, p)
            && spec_tolls_along(tiles, w) <= TOLL_BUDGET,
        spec_on_grid(m) ==> spec_trip_reaches(tiles, m, m),
{
    the_reach_table_is_the_walks(tiles, seq![m], TOLL_BUDGET as int, REACH as nat, p);
    if spec_on_grid(m) {
        let w = seq![m];
        assert(seq![m].contains(w[0])) by {
            assert(seq![m][0] == m);
        }
        assert(w.last() == m);
        assert(spec_is_walk(seq![m], w, REACH as nat, m));
        a_walk_within_the_budget_is_reached(tiles, seq![m], TOLL_BUDGET as int, REACH as nat, m, w);
    }
}

} // verus!
