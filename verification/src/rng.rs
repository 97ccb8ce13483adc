//! A small seeded generator: the same seed gives the same draws, on every
//! machine, for ever.
use vstd::prelude::*;
use vstd::seq_lib::to_multiset_contains;
use vstd::seq_lib::to_multiset_update;

verus! {

/// The golden-ratio step the state advances by on every draw.
pub const STEP: u64 = 0x9E37_79B9_7F4A_7C15;

/// The state after one draw.
pub open spec fn spec_advance(state: u64) -> u64 {
    state.wrapping_add(STEP)
}

/// What a draw hands back from the advanced state: two xor-shift-multiply
/// rounds and a last xor-shift.
pub open spec fn spec_mix(z: u64) -> u64 {
    let a = (z ^ (z >> 30u64)).wrapping_mul(0xBF58_476D_1CE4_E5B9);
    let b = (a ^ (a >> 27u64)).wrapping_mul(0x94D0_49BB_1331_11EB);
    b ^ (b >> 31u64)
}

/// The last `i` places of a shuffle still to settle, from `state`: a draw
/// below `i` picks which item goes to place `i - 1`, the two trade places,
/// and the rest of the list goes on with the next state. What comes back is
/// the list as it ends and the state after the last draw.
pub open spec fn spec_shuffle_from<T>(v: Seq<T>, state: u64, i: int) -> (Seq<T>, u64)
    decreases i,
{
    if i <= 1 || i > v.len() {
        (v, state)
    } else {
        let s = spec_advance(state);
        let j = (spec_mix(s) % (i as u64)) as int;
        let w = v.update(i - 1, v[j]).update(j, v[i - 1]);
        spec_shuffle_from(w, s, i - 1)
    }
}

/// A whole list shuffled from `state`.
pub open spec fn spec_shuffled<T>(v: Seq<T>, state: u64) -> (Seq<T>, u64) {
    spec_shuffle_from(v, state, v.len() as int)
}

/// Where a seeded run of draws is.
pub struct Rng {
    state: u64,
}

impl Rng {
    pub closed spec fn spec_state(&self) -> u64 {
        self.state
    }

    /// A generator that starts from `seed`.
    pub fn new(seed: u64) -> (r: Rng)
        ensures
            r.spec_state() == seed,
    {
        Rng { state: seed }
    }

    /// The next draw.
    pub fn next_u64(&mut self) -> (r: u64)
        ensures
            final(self).spec_state() == spec_advance(old(self).spec_state()),
            r == spec_mix(final(self).spec_state()),
    {
        self.state = self.state.wrapping_add(STEP);
        let z = self.state;
        let a = (z ^ (z >> 30u64)).wrapping_mul(0xBF58_476D_1CE4_E5B9);
        let b = (a ^ (a >> 27u64)).wrapping_mul(0x94D0_49BB_1331_11EB);
        b ^ (b >> 31u64)
    }

    /// A draw below `n`.
    pub fn below(&mut self, n: u64) -> (r: u64)
        requires
            n > 0,
        ensures
            final(self).spec_state() == spec_advance(old(self).spec_state()),
            r == spec_mix(final(self).spec_state()) % n,
            r < n,
    {
        self.next_u64() % n
    }

    /// Put `v` in an order the draws pick, every order as likely as every
    /// other: the same items, each as often as before.
    pub fn shuffle<T: Copy>(&mut self, v: &mut Vec<T>)
        ensures
            (final(v)@, final(self).spec_state()) == spec_shuffled(old(v)@, old(self).spec_state()),
            final(v)@.len() == old(v)@.len(),
            final(v)@.to_multiset() == old(v)@.to_multiset(),
    {
        let ghost start = v@;
        let ghost st0 = self.spec_state();
        let mut i: usize = v.len();
        while i > 1
            invariant
                0 <= i <= v@.len(),
                v@.len() == start.len(),
                v@.to_multiset() == start.to_multiset(),
                spec_shuffle_from(v@, self.spec_state(), i as int) == spec_shuffled(start, st0),
            decreases i,
        {
            let ghost before = (v@, self.spec_state());
            let j = self.below(i as u64) as usize;
            let last = i - 1;
            let a = v[last];
            let b = v[j];
            let ghost s0 = v@;
            v.set(last, b);
            let ghost s1 = v@;
            v.set(j, a);
            proof {
                broadcast use vstd::multiset::group_multiset_properties, vstd::multiset::group_multiset_axioms;
                if j == last {
                    assert(v@ =~= s0);
                } else {
                    to_multiset_update(s0, last as int, b);
                    to_multiset_update(s1, j as int, a);
                    assert(s1[j as int] == b);
                    let m0 = s0.to_multiset();
                    assert(s0.contains(a)) by {
                        assert(s0[last as int] == a);
                    }
                    to_multiset_contains(s0, a);
                    assert(m0.count(a) > 0);
                    let m1 = m0.insert(b).remove(a);
                    assert(m1.count(b) > 0);
                    assert(m1.insert(a).remove(b) =~= m0);
                }
            }
            proof {
                assert(v@ =~= before.0.update(last as int, before.0[j as int]).update(j as int, before.0[last as int]));
            }
            i = last;
        }
    }
}

} // verus!
