# alloygbm_engine

The integer core of the AlloyGBM boosting engine, written in Verus: every
function in `src/` carries a contract and is proved against it.

## Layout

- `src/hashing.rs`, `src/selection.rs`, `src/sampling.rs` — the stateless
  splitmix64 hash, exact rank selection by packed `(hash, index)` keys, row
  subsampling (plain and restricted to active rows) and the integer half of
  GOSS.
- `src/dart.rs`, `src/colsample.rs` — DART dropout selection and per-node
  feature subsampling, with probabilities given as integer thresholds.
- `src/replay.rs` — split routing, stump validation and lookup, per-row
  replay of a round over a column-major binned matrix, tree grouping.
- `src/bytes.rs`, `src/artifact.rs`, `src/multiclass.rs`, `src/sections.rs` —
  little-endian payload codecs (predictor layout, trees, node debug stats,
  multi-class trees) with round-trip lemmas, and section lookup.
- `src/profiling.rs`, `src/clock.rs` — profile-mode parsing, per-stage
  totals, tree-stage counters, frozen snapshots, and clock readings turned
  into nanosecond counts.
- `src/bitset.rs`, `src/groups.rs`, `src/histogram.rs`, `src/objectives.rs`,
  `src/env.rs`, `src/text.rs`, `src/factor.rs`, `src/error.rs` — categorical
  bitsets, query groups, the multi-output histogram index map, objective
  identities, configuration toggles and shape checks.
- `app/` — environment access, the shared tree-stage counters, stderr
  reports, error display and the floating-point conversions (rates to counts
  and thresholds, GOSS amplification, DART weight normalisation).
- `tests/` — behavioural tests of the library.

Floating-point values that pass through the core (gains, leaf values,
baselines) travel as their IEEE-754 bit patterns.
