//! What a creature leaves behind.
//!
//! Content rather than state: a table of creature, component and rate that
//! lives in a data file. Every rate is integer per-mille, and every entry is
//! rolled whether or not the piece is already in the bag, so the stream of
//! draws is a function of the fights alone.

use vstd::prelude::*;

use crate::rng::{spec_advance, spec_mix, Rng};
use crate::text::{push_digits, spec_digits, spec_int_text, int_text};

verus! {

pub const FORMAT: &'static str = "gm2d-drops";

pub const VERSION: u32 = 1;

/// The most a drop may be, in per-mille. A certainty is not a drop, it is a
/// reward.
pub const MAX_PER_MILLE: i32 = 500;

/// One creature, one component, one rate.
#[derive(Clone, Debug)]
pub struct DropDef {
    /// The creature's canonical name.
    pub creature: String,
    /// The component's canonical name.
    pub piece: String,
    /// Chance per win, in per-mille.
    pub per_mille: i32,
}

#[derive(Clone, Debug)]
pub struct DropsData {
    pub format: String,
    pub version: u32,
    /// Free text in the file, so the rate can carry its own argument. Ignored.
    pub note: String,
    pub drops: Vec<DropDef>,
}

/// How `{:?}` writes a string: quoted, with its specials escaped.
pub uninterp spec fn spec_quoted(s: Seq<char>) -> Seq<char>;

/// Calls `<str as Debug>::fmt` through `format!("{:?}")`. Claimed of it: the
/// text is `spec_quoted` of the input, a name for `Debug`'s quoting and
/// escaping; which characters it escapes is not spelled out.
#[verifier::external_body]
fn quoted(s: &str) -> (r: String)
    ensures
        r@ == spec_quoted(s@),
{
    format!("{:?}", s)
}

/// The entries among the first `n` whose creature is `creature`, in file
/// order.
pub open spec fn spec_of(drops: Seq<DropDef>, creature: Seq<char>, n: int) -> Seq<DropDef>
    decreases n,
{
    if n <= 0 {
        Seq::empty()
    } else if drops[n - 1].creature@ == creature {
        spec_of(drops, creature, n - 1).push(drops[n - 1])
    } else {
        spec_of(drops, creature, n - 1)
    }
}

/// Whether `name` is one of `names`.
pub open spec fn spec_known(names: Seq<String>, name: Seq<char>) -> bool {
    exists|i: int| 0 <= i < names.len() && (#[trigger] names[i])@ == name
}

/// The refusal for one entry, if it has one: its creature unknown, its
/// component unknown, or its rate outside `1..=MAX_PER_MILLE`, asked in that
/// order.
pub open spec fn spec_entry_refusal(e: DropDef, creatures: Seq<String>, pieces: Seq<String>) -> Option<Seq<char>> {
    if !spec_known(creatures, e.creature@) {
        Some("nothing in the ladder is called "@ + spec_quoted(e.creature@))
    } else if !spec_known(pieces, e.piece@) {
        Some("there is no component called "@ + spec_quoted(e.piece@))
    } else if e.per_mille <= 0 || e.per_mille > MAX_PER_MILLE {
        Some(
            spec_quoted(e.creature@) + " drops "@ + spec_quoted(e.piece@) + " at "@ + spec_int_text(
                e.per_mille as int,
            ) + " per mille, which is outside 1..=500"@,
        )
    } else {
        None
    }
}

/// The first refusal among the first `n` entries.
pub open spec fn spec_first_refusal(drops: Seq<DropDef>, creatures: Seq<String>, pieces: Seq<String>, n: int) -> Option<Seq<char>>
    decreases n,
{
    if n <= 0 {
        None
    } else {
        match spec_first_refusal(drops, creatures, pieces, n - 1) {
            Some(m) => Some(m),
            None => spec_entry_refusal(drops[n - 1], creatures, pieces),
        }
    }
}

/// Everything a drops file is refused for, first failure first: the wrong
/// format, a version from the future, then the first bad entry.
pub open spec fn spec_refusal(d: DropsData, creatures: Seq<String>, pieces: Seq<String>) -> Option<Seq<char>> {
    if d.format@ != FORMAT@ {
        Some("expected a gm2d-drops file, got "@ + spec_quoted(d.format@))
    } else if d.version > VERSION {
        Some(
            "these drops are version "@ + spec_digits(d.version as nat)
                + " and this build reads up to 1"@,
        )
    } else {
        spec_first_refusal(d.drops@, creatures, pieces, d.drops@.len() as int)
    }
}

/// Whether `name` is one of `names`.
fn known(names: &Vec<String>, name: &String) -> (r: bool)
    ensures
        r == spec_known(names@, name@),
{
    let mut i: usize = 0;
    while i < names.len()
        invariant
            0 <= i <= names.len(),
            forall|j: int| 0 <= j < i ==> (#[trigger] names@[j])@ != name@,
        decreases names.len() - i,
    {
        if names[i] == *name {
            proof {
                assert(names@[i as int]@ == name@);
            }
            return true;
        }
        i = i + 1;
    }
    false
}

/// The refusal for one entry, if it has one.
fn entry_refusal(e: &DropDef, creatures: &Vec<String>, pieces: &Vec<String>) -> (r: Option<String>)
    ensures
        match r {
            Some(m) => spec_entry_refusal(*e, creatures@, pieces@) == Some(m@),
            None => spec_entry_refusal(*e, creatures@, pieces@) is None,
        },
{
    proof {
        reveal_strlit("nothing in the ladder is called ");
        reveal_strlit("there is no component called ");
        reveal_strlit(" drops ");
        reveal_strlit(" at ");
        reveal_strlit(" per mille, which is outside 1..=500");
    }
    if !known(creatures, &e.creature) {
        let mut m = String::from_str("nothing in the ladder is called ");
        m.append(quoted(e.creature.as_str()).as_str());
        return Some(m);
    }
    if !known(pieces, &e.piece) {
        let mut m = String::from_str("there is no component called ");
        m.append(quoted(e.piece.as_str()).as_str());
        return Some(m);
    }
    if e.per_mille <= 0 || e.per_mille > MAX_PER_MILLE {
        let mut m = quoted(e.creature.as_str());
        m.append(" drops ");
        m.append(quoted(e.piece.as_str()).as_str());
        m.append(" at ");
        m.append(int_text(e.per_mille as i64).as_str());
        m.append(" per mille, which is outside 1..=500");
        return Some(m);
    }
    None
}

proof fn lemma_first_refusal_stays(drops: Seq<DropDef>, creatures: Seq<String>, pieces: Seq<String>, i: int, n: int)
    requires
        0 <= i <= n,
        spec_first_refusal(drops, creatures, pieces, i) is Some,
    ensures
        spec_first_refusal(drops, creatures, pieces, n) == spec_first_refusal(drops, creatures, pieces, i),
    decreases n - i,
{
    if i < n {
        lemma_first_refusal_stays(drops, creatures, pieces, i + 1, n);
    }
}

impl DropsData {
    /// A parsed drops file, held to what the game can use: the right format,
    /// a version this build reads, and every entry naming a creature in
    /// `creatures`, a component in `pieces`, and a rate in
    /// `1..=MAX_PER_MILLE`. The first failure is the error.
    pub fn checked(self, creatures: &Vec<String>, pieces: &Vec<String>) -> (r: Result<DropsData, String>)
        ensures
            match r {
                Ok(d) => d == self && spec_refusal(self, creatures@, pieces@) is None,
                Err(m) => spec_refusal(self, creatures@, pieces@) == Some(m@),
            },
    {
        proof {
            reveal_strlit("gm2d-drops");
            reveal_strlit("expected a gm2d-drops file, got ");
            reveal_strlit("these drops are version ");
            reveal_strlit(" and this build reads up to 1");
        }
        let want = String::from_str(FORMAT);
        let same = self.format == want;
        if !same {
            let mut m = String::from_str("expected a gm2d-drops file, got ");
            m.append(quoted(self.format.as_str()).as_str());
            return Err(m);
        }
        if self.version > VERSION {
            let mut m = String::from_str("these drops are version ");
            push_digits(&mut m, self.version as u64);
            m.append(" and this build reads up to 1");
            return Err(m);
        }
        let mut i: usize = 0;
        while i < self.drops.len()
            invariant
                0 <= i <= self.drops.len(),
                spec_first_refusal(self.drops@, creatures@, pieces@, i as int) is None,
                self.format@ == FORMAT@,
                self.version <= VERSION,
            decreases self.drops.len() - i,
        {
            match entry_refusal(&self.drops[i], creatures, pieces) {
                Some(m) => {
                    proof {
                        lemma_first_refusal_stays(self.drops@, creatures@, pieces@, i as int + 1, self.drops@.len() as int);
                    }
                    return Err(m);
                },
                None => {},
            }
            i = i + 1;
        }
        Ok(self)
    }

    /// Everything this creature can leave behind, in file order. File order
    /// and not sorted: the order decides how many draws come before each roll.
    pub fn of(&self, creature: &str) -> (r: Vec<&DropDef>)
        ensures
            r@.len() == spec_of(self.drops@, creature@, self.drops@.len() as int).len(),
            forall|k: int| 0 <= k < r@.len() ==> *(#[trigger] r@[k]) == spec_of(self.drops@, creature@, self.drops@.len() as int)[k],
    {
        let name = String::from_str(creature);
        let mut out: Vec<&DropDef> = Vec::new();
        let mut i: usize = 0;
        while i < self.drops.len()
            invariant
                0 <= i <= self.drops.len(),
                name@ == creature@,
                out@.len() == spec_of(self.drops@, creature@, i as int).len(),
                forall|k: int| 0 <= k < out@.len() ==> *(#[trigger] out@[k]) == spec_of(self.drops@, creature@, i as int)[k],
            decreases self.drops.len() - i,
        {
            if self.drops[i].creature == name {
                out.push(&self.drops[i]);
            }
            i = i + 1;
        }
        out
    }
}

/// Strictly before, in the order of code points: the order `str` sorts by.
pub open spec fn spec_before(a: Seq<char>, b: Seq<char>) -> bool {
    exists|k: int|
        0 <= k <= a.len() && k < b.len() && (forall|j: int| 0 <= j < k ==> a[j] == b[j]) && (k == a.len()
            || (#[trigger] a[k] as int) < (b[k] as int))
}

/// The first place two strings differ, or the shorter one's length.
pub open spec fn spec_split(a: Seq<char>, b: Seq<char>, k: int) -> bool {
    &&& 0 <= k <= a.len()
    &&& k <= b.len()
    &&& forall|j: int| 0 <= j < k ==> a[j] == b[j]
    &&& (k == a.len() || k == b.len() || a[k] != b[k])
}

proof fn lemma_split_from(a: Seq<char>, b: Seq<char>, i: int) -> (k: int)
    requires
        0 <= i <= a.len(),
        i <= b.len(),
        forall|j: int| 0 <= j < i ==> a[j] == b[j],
    ensures
        spec_split(a, b, k),
    decreases a.len() - i,
{
    if i < a.len() && i < b.len() && a[i] == b[i] {
        lemma_split_from(a, b, i + 1)
    } else {
        i
    }
}

proof fn lemma_split_exists(a: Seq<char>, b: Seq<char>) -> (k: int)
    ensures
        spec_split(a, b, k),
{
    lemma_split_from(a, b, 0)
}

proof fn lemma_before_at_split(a: Seq<char>, b: Seq<char>, k: int)
    requires
        spec_split(a, b, k),
    ensures
        spec_before(a, b) == (k < b.len() && (k == a.len() || (a[k] as int) < (b[k] as int))),
{
    if spec_before(a, b) {
        let m = choose|m: int|
            0 <= m <= a.len() && m < b.len() && (forall|j: int| 0 <= j < m ==> a[j] == b[j]) && (m == a.len()
                || (#[trigger] a[m] as int) < (b[m] as int));
        if m < k {
            assert(a[m] == b[m]);
        }
        if m > k {
            assert(a[k] == b[k]);
        }
    }
}

/// Two different strings: one is before the other.
proof fn lemma_before_total(a: Seq<char>, b: Seq<char>)
    requires
        a != b,
    ensures
        spec_before(a, b) || spec_before(b, a),
        !(spec_before(a, b) && spec_before(b, a)),
{
    let k = lemma_split_exists(a, b);
    lemma_before_at_split(a, b, k);
    assert(spec_split(b, a, k));
    lemma_before_at_split(b, a, k);
    if k == a.len() && k == b.len() {
        assert(a =~= b);
    }
    if k < a.len() && k < b.len() {
        let x = a[k];
        let y = b[k];
        assert(x != y);
        assert((x as int) != (y as int));
    }
}

proof fn lemma_before_irreflexive(a: Seq<char>)
    ensures
        !spec_before(a, a),
{
    assert(spec_split(a, a, a.len() as int));
    lemma_before_at_split(a, a, a.len() as int);
}

proof fn lemma_before_transitive(a: Seq<char>, b: Seq<char>, c: Seq<char>)
    requires
        spec_before(a, b),
        spec_before(b, c),
    ensures
        spec_before(a, c),
{
    let k1 = lemma_split_exists(a, b);
    lemma_before_at_split(a, b, k1);
    let k2 = lemma_split_exists(b, c);
    lemma_before_at_split(b, c, k2);
    let k = if k1 <= k2 { k1 } else { k2 };
    assert forall|j: int| 0 <= j < k implies a[j] == c[j] by {
        assert(a[j] == b[j]);
        assert(b[j] == c[j]);
    }
    if k1 < k2 {
        assert(b[k1] == c[k1]);
        assert(spec_split(a, c, k1));
        lemma_before_at_split(a, c, k1);
    } else if k2 < k1 {
        assert(a[k2] == b[k2]);
        assert(spec_split(a, c, k2));
        lemma_before_at_split(a, c, k2);
    } else {
        if k1 == a.len() {
            assert(spec_split(a, c, k1));
            lemma_before_at_split(a, c, k1);
        } else {
            assert(spec_split(a, c, k1));
            lemma_before_at_split(a, c, k1);
        }
    }
}

/// Whether `a` sorts strictly before `b`.
fn before(a: &str, b: &str) -> (r: bool)
    ensures
        r == spec_before(a@, b@),
{
    let la = a.unicode_len();
    let lb = b.unicode_len();
    let mut k: usize = 0;
    while k < la && k < lb && a.get_char(k) == b.get_char(k)
        invariant
            la == a@.len(),
            lb == b@.len(),
            0 <= k <= la,
            k <= lb,
            forall|j: int| 0 <= j < k ==> a@[j] == b@[j],
        decreases la - k,
    {
        k = k + 1;
    }
    proof {
        assert(spec_split(a@, b@, k as int));
        lemma_before_at_split(a@, b@, k as int);
    }
    if k == lb {
        false
    } else if k == la {
        true
    } else {
        let x = a.get_char(k);
        let y = b.get_char(k);
        proof {
            assert((x as u32) as int == x as int);
            assert((y as u32) as int == y as int);
        }
        (x as u32) < (y as u32)
    }
}

/// Whether `s` is strictly increasing.
pub open spec fn spec_ascending(s: Seq<Seq<char>>) -> bool {
    forall|i: int, j: int| 0 <= i < j < s.len() ==> spec_before(#[trigger] s[i], #[trigger] s[j])
}

/// The view of each string.
pub open spec fn spec_views(s: Seq<&str>) -> Seq<Seq<char>> {
    s.map_values(|x: &str| x@)
}

impl DropsData {
    /// Every component any creature drops: each once, in code-point order.
#[verifier::spinoff_prover]
    pub fn every_piece(&self) -> (r: Vec<&str>)
        ensures
            spec_ascending(spec_views(r@)),
            forall|x: Seq<char>| spec_views(r@).contains(x) <==> exists|i: int| 0 <= i < self.drops@.len() && (#[trigger] self.drops@[i]).piece@ == x,
    {
        let mut out: Vec<&str> = Vec::new();
        let mut i: usize = 0;
        while i < self.drops.len()
            invariant
                0 <= i <= self.drops.len(),
                spec_ascending(spec_views(out@)),
                forall|x: Seq<char>| spec_views(out@).contains(x) <==> exists|d: int| 0 <= d < i && (#[trigger] self.drops@[d]).piece@ == x,
            decreases self.drops.len() - i,
        {
            let p: &str = self.drops[i].piece.as_str();
            let ghost vs = spec_views(out@);
            let mut k: usize = 0;
            while k < out.len() && before(out[k], p)
                invariant
                    0 <= k <= out.len(),
                    vs == spec_views(out@),
                    forall|j: int| 0 <= j < k ==> spec_before(#[trigger] vs[j], p@),
                decreases out.len() - k,
            {
                k = k + 1;
            }
            let present = k < out.len() && !before(p, out[k]);
            if present {
                proof {
                    let q = vs[k as int];
                    assert(!spec_before(q, p@));
                    assert(!spec_before(p@, q));
                    if q != p@ {
                        lemma_before_total(q, p@);
                    }
                    assert(vs.contains(p@));
                }
            } else {
                proof {
                    assert forall|j: int| k <= j < vs.len() implies spec_before(p@, #[trigger] vs[j]) by {
                        if j == k {
                            let q = vs[k as int];
                            if q != p@ {
                                lemma_before_total(q, p@);
                            } else {
                                lemma_before_irreflexive(p@);
                            }
                        } else {
                            let q = vs[k as int];
                            assert(spec_before(q, vs[j]));
                            if q != p@ {
                                lemma_before_total(q, p@);
                                lemma_before_transitive(p@, q, vs[j]);
                            }
                        }
                    }
                    assert forall|j: int| 0 <= j < vs.len() implies vs[j] != p@ by {
                        if j < k {
                            lemma_before_irreflexive(p@);
                        }
                    }
                }
                out.insert(k, p);
                proof {
                    let ws = spec_views(out@);
                    assert(ws =~= vs.insert(k as int, p@));
                    assert forall|a: int, b: int| 0 <= a < b < ws.len() implies spec_before(#[trigger] ws[a], #[trigger] ws[b]) by {
                        if a < k && b == k {
                        } else if a < k && b > k {
                            assert(ws[b] == vs[b - 1]);
                            if k < vs.len() {
                                lemma_before_transitive(vs[a], p@, vs[b - 1]);
                            }
                        } else if a == k {
                            assert(ws[b] == vs[b - 1]);
                        } else if a < k {
                        } else {
                            assert(ws[a] == vs[a - 1]);
                            assert(ws[b] == vs[b - 1]);
                        }
                    }
                }
            }
            proof {
                let ws = spec_views(out@);
                assert forall|x: Seq<char>| ws.contains(x) <==> exists|d: int| 0 <= d < i + 1 && (#[trigger] self.drops@[d]).piece@ == x by {
                    if ws.contains(x) {
                        if x == p@ {
                            assert(self.drops@[i as int].piece@ == x);
                        } else {
                            let m = choose|m: int| 0 <= m < ws.len() && ws[m] == x;
                            if !present {
                                if m < k {
                                    assert(vs[m] == x);
                                } else if m > k {
                                    assert(vs[m - 1] == x);
                                }
                            }
                            assert(vs.contains(x));
                        }
                    }
                    if exists|d: int| 0 <= d < i + 1 && (#[trigger] self.drops@[d]).piece@ == x {
                        let d = choose|d: int| 0 <= d < i + 1 && (#[trigger] self.drops@[d]).piece@ == x;
                        if d < i {
                            assert(vs.contains(x));
                            let m = choose|m: int| 0 <= m < vs.len() && vs[m] == x;
                            if !present {
                                if m < k {
                                    assert(ws[m] == x);
                                } else {
                                    assert(ws[m + 1] == x);
                                }
                            }
                        } else {
                            if !present {
                                assert(ws[k as int] == x);
                            }
                        }
                    }
                }
            }
            i = i + 1;
        }
        out
    }
}

/// What a creature left behind this time, given the draws: one draw below a
/// thousand per entry of this creature's, in file order. An entry falls when
/// its draw is under its rate plus `extra_per_mille`; the draw is taken
/// either way.
pub fn fallen_with(data: &DropsData, draws: &Vec<u32>, creature: &str, extra_per_mille: i32) -> (r: Vec<String>)
    requires
        draws@.len() == spec_of(data.drops@, creature@, data.drops@.len() as int).len(),
        forall|k: int| 0 <= k < draws@.len() ==> #[trigger] draws@[k] < 1000,
        forall|k: int| 0 <= k < draws@.len() ==> i32::MIN <= (#[trigger] spec_of(data.drops@, creature@, data.drops@.len() as int)[k]).per_mille + extra_per_mille <= i32::MAX,
    ensures
        r@.len() == spec_fallen(spec_of(data.drops@, creature@, data.drops@.len() as int), draws@, extra_per_mille as int, draws@.len() as int).len(),
        forall|k: int| 0 <= k < r@.len() ==> (#[trigger] r@[k])@ == spec_fallen(spec_of(data.drops@, creature@, data.drops@.len() as int), draws@, extra_per_mille as int, draws@.len() as int)[k],
{
    let mine = data.of(creature);
    let ghost entries = spec_of(data.drops@, creature@, data.drops@.len() as int);
    let mut out: Vec<String> = Vec::new();
    let mut k: usize = 0;
    while k < mine.len()
        invariant
            0 <= k <= mine.len(),
            mine@.len() == entries.len(),
            draws@.len() == entries.len(),
            forall|j: int| 0 <= j < mine@.len() ==> *(#[trigger] mine@[j]) == entries[j],
            forall|j: int| 0 <= j < draws@.len() ==> #[trigger] draws@[j] < 1000,
            forall|j: int| 0 <= j < entries.len() ==> i32::MIN <= (#[trigger] entries[j]).per_mille + extra_per_mille <= i32::MAX,
            out@.len() == spec_fallen(entries, draws@, extra_per_mille as int, k as int).len(),
            forall|j: int| 0 <= j < out@.len() ==> (#[trigger] out@[j])@ == spec_fallen(entries, draws@, extra_per_mille as int, k as int)[j],
        decreases mine.len() - k,
    {
        let d = mine[k];
        let threshold = d.per_mille + extra_per_mille;
        if (draws[k] as i32) < threshold {
            out.push(d.piece.clone());
        }
        k = k + 1;
    }
    out
}

/// The pieces, among the first `n` entries, whose draw fell under their rate
/// plus `extra`.
pub open spec fn spec_fallen(entries: Seq<DropDef>, draws: Seq<u32>, extra: int, n: int) -> Seq<Seq<char>>
    decreases n,
{
    if n <= 0 {
        Seq::empty()
    } else if (draws[n - 1] as int) < entries[n - 1].per_mille + extra {
        spec_fallen(entries, draws, extra, n - 1).push(entries[n - 1].piece@)
    } else {
        spec_fallen(entries, draws, extra, n - 1)
    }
}

/// What a creature left behind this time, at its plain rates.
pub fn fallen(data: &DropsData, draws: &Vec<u32>, creature: &str) -> (r: Vec<String>)
    requires
        draws@.len() == spec_of(data.drops@, creature@, data.drops@.len() as int).len(),
        forall|k: int| 0 <= k < draws@.len() ==> #[trigger] draws@[k] < 1000,
    ensures
        r@.len() == spec_fallen(spec_of(data.drops@, creature@, data.drops@.len() as int), draws@, 0, draws@.len() as int).len(),
        forall|k: int| 0 <= k < r@.len() ==> (#[trigger] r@[k])@ == spec_fallen(spec_of(data.drops@, creature@, data.drops@.len() as int), draws@, 0, draws@.len() as int)[k],
{
    fallen_with(data, draws, creature, 0)
}


/// A survey's thumb on the scale only ever adds: everything that falls at a
/// smaller bonus still falls at a larger one, so the larger bonus leaves at
/// least as much behind, from the same draws.
pub proof fn a_bigger_bonus_never_drops_less(entries: Seq<DropDef>, draws: Seq<u32>, small: int, large: int, n: int)
    requires
        small <= large,
        0 <= n <= entries.len(),
        n <= draws.len(),
    ensures
        spec_fallen(entries, draws, small, n).len() <= spec_fallen(entries, draws, large, n).len(),
        forall|k: int| 0 <= k < n && (draws[k] as int) < entries[k].per_mille + small ==> (#[trigger] draws[k] as int) < entries[k].per_mille + large,
    decreases n,
{
    if n > 0 {
        a_bigger_bonus_never_drops_less(entries, draws, small, large, n - 1);
    }
}

/// Every entry is rolled and nothing else: what falls is never more than
/// the creature has entries, and with no bonus an entry at rate `r` falls
/// exactly when its draw is below `r`.
pub proof fn only_the_creatures_entries_fall(entries: Seq<DropDef>, draws: Seq<u32>, extra: int, n: int)
    requires
        0 <= n <= entries.len(),
        n <= draws.len(),
    ensures
        spec_fallen(entries, draws, extra, n).len() <= n,
        forall|k: int| 0 <= k < spec_fallen(entries, draws, extra, n).len() ==> exists|j: int|
            0 <= j < n && (#[trigger] spec_fallen(entries, draws, extra, n)[k]) == entries[j].piece@,
    decreases n,
{
    if n > 0 {
        only_the_creatures_entries_fall(entries, draws, extra, n - 1);
        let prev = spec_fallen(entries, draws, extra, n - 1);
        let cur = spec_fallen(entries, draws, extra, n);
        assert forall|k: int| 0 <= k < cur.len() implies exists|j: int| 0 <= j < n && (#[trigger] cur[k]) == entries[j].piece@ by {
            if k < prev.len() {
                assert(cur[k] == prev[k]);
                let j = choose|j: int| 0 <= j < n - 1 && (#[trigger] prev[k]) == entries[j].piece@;
                assert(cur[k] == entries[j].piece@);
            } else {
                assert(cur[k] == entries[n - 1].piece@);
            }
        }
    }
}

/// The generator's state after `n` draws.
pub open spec fn spec_advanced(state: u64, n: nat) -> u64
    decreases n,
{
    if n == 0 {
        state
    } else {
        spec_advance(spec_advanced(state, (n - 1) as nat))
    }
}

/// The first `n` draws below a thousand from `state`.
pub open spec fn spec_draws(state: u64, n: nat) -> Seq<u32> {
    Seq::new(n, |k: int| (spec_mix(spec_advanced(state, (k + 1) as nat)) % 1000) as u32)
}

/// `n` draws below a thousand, in order.
fn draw_thousands(rng: &mut Rng, n: usize) -> (r: Vec<u32>)
    ensures
        r@ == spec_draws(old(rng).spec_state(), n as nat),
        final(rng).spec_state() == spec_advanced(old(rng).spec_state(), n as nat),
{
    let ghost s0 = rng.spec_state();
    let mut out: Vec<u32> = Vec::new();
    let mut i: usize = 0;
    while i < n
        invariant
            0 <= i <= n,
            rng.spec_state() == spec_advanced(s0, i as nat),
            out@ == spec_draws(s0, i as nat),
        decreases n - i,
    {
        let d = rng.below(1000);
        out.push(d as u32);
        proof {
            assert(rng.spec_state() == spec_advanced(s0, (i + 1) as nat));
            assert(out@ =~= spec_draws(s0, (i + 1) as nat));
        }
        i = i + 1;
    }
    out
}

/// What this creature left behind this time: one draw below a thousand per
/// entry of its, in file order, always; whether the player can keep a piece
/// is the caller's question.
pub fn roll(data: &DropsData, rng: &mut Rng, creature: &str) -> (r: Vec<String>)
    ensures
        final(rng).spec_state() == spec_advanced(old(rng).spec_state(), spec_of(data.drops@, creature@, data.drops@.len() as int).len()),
        ({
            let entries = spec_of(data.drops@, creature@, data.drops@.len() as int);
            let ds = spec_draws(old(rng).spec_state(), entries.len());
            &&& r@.len() == spec_fallen(entries, ds, 0, entries.len() as int).len()
            &&& forall|k: int| 0 <= k < r@.len() ==> (#[trigger] r@[k])@ == spec_fallen(entries, ds, 0, entries.len() as int)[k]
        }),
{
    roll_with(data, rng, creature, 0)
}

/// The same, with a survey's thumb on the scale: the draw is taken either
/// way and the bonus only moves the threshold, so the stream advances by
/// one draw per entry whatever the bonus.
pub fn roll_with(data: &DropsData, rng: &mut Rng, creature: &str, extra_per_mille: i32) -> (r: Vec<String>)
    requires
        forall|k: int| 0 <= k < spec_of(data.drops@, creature@, data.drops@.len() as int).len() ==> i32::MIN <= (#[trigger] spec_of(
            data.drops@, creature@, data.drops@.len() as int)[k]).per_mille + extra_per_mille <= i32::MAX,
    ensures
        final(rng).spec_state() == spec_advanced(old(rng).spec_state(), spec_of(data.drops@, creature@, data.drops@.len() as int).len()),
        ({
            let entries = spec_of(data.drops@, creature@, data.drops@.len() as int);
            let ds = spec_draws(old(rng).spec_state(), entries.len());
            &&& r@.len() == spec_fallen(entries, ds, extra_per_mille as int, entries.len() as int).len()
            &&& forall|k: int| 0 <= k < r@.len() ==> (#[trigger] r@[k])@ == spec_fallen(entries, ds, extra_per_mille as int, entries.len() as int)[k]
        }),
{
    let n = data.of(creature).len();
    let draws = draw_thousands(rng, n);
    proof {
        assert forall|k: int| 0 <= k < draws@.len() implies #[trigger] draws@[k] < 1000 by {
            assert(draws@[k] == (spec_mix(spec_advanced(old(rng).spec_state(), (k + 1) as nat)) % 1000) as u32);
        }
    }
    fallen_with(data, &draws, creature, extra_per_mille)
}

} // verus!
