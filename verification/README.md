# fellowship_sim

A verified, tick-based combat simulation for a ranged hunter, written in Verus.

Layout:

- `src/common.rs` — stats, talents, abilities, static effects; "first match" helpers
  used by the contracts of the lookup functions.
- `src/gem.rs` — gems, the gem power tree, the built-in Fellowship tree data, and the
  functions that turn per-colour gem power into static effects. The laws
  `lemma_fellowship_color_matches_tree` and `lemma_fellowship_matches_tree` state that the
  built-in tree grants exactly what the same data grants as a custom tree; further laws
  state that totals listed together grant each part, that with unslotted thresholds more
  power loses no effect, and that the order thresholds are listed in does not matter.
- `src/config.rs` — gear, player and encounter configuration; haste rating, gem power per
  colour, set bonuses, and the collection of all static effects.
- `src/sim.rs` — the game state, its view, the step semantics as spec functions
  (bookkeeping, executing an action, one tick), and the executable simulation whose
  functions are proved against them, up to `run_simulation`.
- `src/invariants.rs` — what every tick keeps (focus bounds, Celestial Impetus charge
  cap, cast/channel shape, stack growth), and laws about health, casts and charges.
- `app/main.rs` — the command-line program.
- `tests/` — tests on concrete values.

Numbers are exact: gem power multipliers are in hundredths, haste multipliers are
fractions over 17000, durations are in milliseconds or ticks, and random rolls compare
`rng_seed / 2^64` against the proc chance as exact rational numbers.
