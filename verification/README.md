# gearcore

The rules of a gear-and-curses fighting game, written in Verus and proved
against their contracts.

- `src/curse.rs` - the four curses: how long each lands for against a
  resistance, how they stack, tick down and expire, and what they do.
- `src/combat.rs` - fighters, items, monsters and difficulties; how a stun
  picks the item it stops; the steps of a round that decide who is aimed
  at, whether the fight has turned, and who is down; the fight log and its
  events.
- `src/tally.rs` - what each item did in a fight, read off the log.
- `src/county.rs` - the seven-by-seven county: its geography, the tolls
  that guard it, the twelve checks a layout must pass, each refusal's
  message, and the retry loop that hands back a passing layout or the
  authored fallback.
- `src/layout.rs` - one seeded attempt at laying a county out: pale, hill
  and trig points, stones, gaol, signs, tolls and events, stated exactly as
  a function of the seed.
- `src/rng.rs` - the seeded generator the layout draws from.
- `src/walks.rs` - what the reach table means: the walks of a few steps
  from a mouth that cross no more than the toll budget.
- `src/expert.rs` - the expert powers, what each sets on the player at
  the bell, and the furnace they stoke.
- `src/line.rs` - a fight log read out as plain text, given the times as
  they are printed.
- `src/drops.rs` - what a creature leaves behind: a drops table held to the
  game's rules, and the rolls against it.
- `src/stats.rs`, `src/loadout.rs`, `src/piece.rs`, `src/text.rs` - the
  stat block, whole-board figures, the slot and pool vocabulary, and
  numbers written out as text.
- `tests/` - scenarios run against the compiled library.
- `app/` - the edges: reading a drops file from JSON, and printing a log
  line, whose timestamps are floating point.

What is not here: the fight itself. The tick loop, an item's activation
and the actions it takes settle every blow through the damage rule of a
stat module (`after_defences`) and the action and trigger vocabulary of a
piece module, neither of which this crate holds; nor does it hold the piece
catalogue, loadout assembly, class powers, skill rules or the monster
ladder. It covers what those feed into (the fighters, the experts' opening
budgets and furnace, the round's decisions, mind blows, the log, its
wording and its accounting) and nothing that stands in for them. The
county's event pool is not written yet either, so every arranged event tile
is dealt the unarranged card.
