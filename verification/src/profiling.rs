//! Opt-in per-stage timing for the training loop.
//!
//! Profiling is disabled unless the `ALLOYGBM_PROFILE` setting is `human`,
//! `json`, or the backwards-compatible value `1`. The disabled path reads no
//! clock and never touches the tree-stage counters. Reading the setting from
//! the environment and printing the report are the caller's; this module
//! parses the setting, accumulates the durations and freezes snapshots.

use vstd::prelude::*;

use crate::clock::{elapsed_ns, instant_now, measure_elapsed, Measurement};
use crate::text::str_equals;

verus! {

#[derive(Debug, Clone, Copy, PartialEq, Eq, Structural)]
pub enum ProfileMode {
    Disabled,
    Human,
    Json,
}

pub open spec fn spec_parse_profile_mode(value: Option<Seq<char>>) -> ProfileMode {
    match value {
        Some(v) => if v == "1"@ || v == "human"@ {
            ProfileMode::Human
        } else if v == "json"@ {
            ProfileMode::Json
        } else {
            ProfileMode::Disabled
        },
        None => ProfileMode::Disabled,
    }
}

pub open spec fn opt_view(value: Option<&str>) -> Option<Seq<char>> {
    match value {
        Some(v) => Some(v@),
        None => None,
    }
}

/// Parses the profile setting: `1` or `human`, `json`, anything else off.
pub fn parse_profile_mode(value: Option<&str>) -> (r: ProfileMode)
    ensures
        r == spec_parse_profile_mode(opt_view(value)),
{
    match value {
        Some(v) => {
            if str_equals(v, "1") || str_equals(v, "human") {
                ProfileMode::Human
            } else if str_equals(v, "json") {
                ProfileMode::Json
            } else {
                ProfileMode::Disabled
            }
        },
        None => ProfileMode::Disabled,
    }
}

/// Stages of a single boosting round, in execution order.
#[derive(Debug, Clone, Copy, PartialEq, Eq, Structural)]
pub enum Stage {
    Gradients,
    RowSampling,
    FeatureTiles,
    PredictionCopy,
    TreeBuild,
    PredictionUpdate,
    Loss,
    Validation,
}

pub const STAGE_COUNT: usize = 8;

pub open spec fn spec_stage_index(stage: Stage) -> nat {
    match stage {
        Stage::Gradients => 0,
        Stage::RowSampling => 1,
        Stage::FeatureTiles => 2,
        Stage::PredictionCopy => 3,
        Stage::TreeBuild => 4,
        Stage::PredictionUpdate => 5,
        Stage::Loss => 6,
        Stage::Validation => 7,
    }
}

pub open spec fn spec_stage_at(i: int) -> Stage {
    if i == 0 {
        Stage::Gradients
    } else if i == 1 {
        Stage::RowSampling
    } else if i == 2 {
        Stage::FeatureTiles
    } else if i == 3 {
        Stage::PredictionCopy
    } else if i == 4 {
        Stage::TreeBuild
    } else if i == 5 {
        Stage::PredictionUpdate
    } else if i == 6 {
        Stage::Loss
    } else {
        Stage::Validation
    }
}

pub open spec fn spec_stage_label(stage: Stage) -> Seq<char> {
    match stage {
        Stage::Gradients => "gradients"@,
        Stage::RowSampling => "row_sampling"@,
        Stage::FeatureTiles => "feature_tiles"@,
        Stage::PredictionCopy => "prediction_copy"@,
        Stage::TreeBuild => "tree_build"@,
        Stage::PredictionUpdate => "prediction_update"@,
        Stage::Loss => "loss"@,
        Stage::Validation => "validation"@,
    }
}

impl Stage {
    /// Position of the stage in execution order.
    pub fn index(self) -> (r: usize)
        ensures
            r == spec_stage_index(self),
            r < STAGE_COUNT,
    {
        match self {
            Stage::Gradients => 0,
            Stage::RowSampling => 1,
            Stage::FeatureTiles => 2,
            Stage::PredictionCopy => 3,
            Stage::TreeBuild => 4,
            Stage::PredictionUpdate => 5,
            Stage::Loss => 6,
            Stage::Validation => 7,
        }
    }

    /// The stage at position `i` of execution order.
    pub fn at(i: usize) -> (r: Stage)
        requires
            i < STAGE_COUNT,
        ensures
            r == spec_stage_at(i as int),
            spec_stage_index(r) == i,
    {
        if i == 0 {
            Stage::Gradients
        } else if i == 1 {
            Stage::RowSampling
        } else if i == 2 {
            Stage::FeatureTiles
        } else if i == 3 {
            Stage::PredictionCopy
        } else if i == 4 {
            Stage::TreeBuild
        } else if i == 5 {
            Stage::PredictionUpdate
        } else if i == 6 {
            Stage::Loss
        } else {
            Stage::Validation
        }
    }

    /// Report label of the stage.
    pub fn label(self) -> (r: &'static str)
        ensures
            r@ == spec_stage_label(self),
    {
        match self {
            Stage::Gradients => "gradients",
            Stage::RowSampling => "row_sampling",
            Stage::FeatureTiles => "feature_tiles",
            Stage::PredictionCopy => "prediction_copy",
            Stage::TreeBuild => "tree_build",
            Stage::PredictionUpdate => "prediction_update",
            Stage::Loss => "loss",
            Stage::Validation => "validation",
        }
    }
}

/// Internal stages of tree construction.
#[derive(Debug, Clone, Copy, PartialEq, Eq, Structural)]
pub enum TreeStage {
    Histogram,
    SplitFind,
    Partition,
}

pub open spec fn spec_tree_stage_label(i: int) -> Seq<char> {
    if i == 0 {
        "histogram_build"@
    } else if i == 1 {
        "split_find"@
    } else {
        "partition"@
    }
}

/// The counter of one tree stage.
pub open spec fn spec_counter(c: TreeStageCounters, stage: TreeStage) -> u64 {
    match stage {
        TreeStage::Histogram => c.histogram_ns,
        TreeStage::SplitFind => c.split_find_ns,
        TreeStage::Partition => c.partition_ns,
    }
}

/// Tree-stage nanosecond counters, summed across tree-building workers and
/// drained once per fit snapshot.
#[derive(Debug, Clone, Copy, PartialEq, Eq)]
pub struct TreeStageCounters {
    pub histogram_ns: u64,
    pub split_find_ns: u64,
    pub partition_ns: u64,
}

impl TreeStageCounters {
    pub fn new() -> (r: Self)
        ensures
            r.histogram_ns == 0 && r.split_find_ns == 0 && r.partition_ns == 0,
    {
        TreeStageCounters { histogram_ns: 0, split_find_ns: 0, partition_ns: 0 }
    }

    /// Adds `ns` to one stage's counter, wrapping like an atomic `fetch_add`.
    pub fn add(&mut self, stage: TreeStage, ns: u64)
        ensures
            final(self).histogram_ns == if stage == TreeStage::Histogram {
                old(self).histogram_ns.wrapping_add(ns)
            } else {
                old(self).histogram_ns
            },
            final(self).split_find_ns == if stage == TreeStage::SplitFind {
                old(self).split_find_ns.wrapping_add(ns)
            } else {
                old(self).split_find_ns
            },
            final(self).partition_ns == if stage == TreeStage::Partition {
                old(self).partition_ns.wrapping_add(ns)
            } else {
                old(self).partition_ns
            },
    {
        match stage {
            TreeStage::Histogram => {
                self.histogram_ns = self.histogram_ns.wrapping_add(ns);
            },
            TreeStage::SplitFind => {
                self.split_find_ns = self.split_find_ns.wrapping_add(ns);
            },
            TreeStage::Partition => {
                self.partition_ns = self.partition_ns.wrapping_add(ns);
            },
        }
    }

    /// Returns the three counters (histogram, split-find, partition) and
    /// resets them to zero.
    pub fn drain(&mut self) -> (r: (u64, u64, u64))
        ensures
            r == (old(self).histogram_ns, old(self).split_find_ns, old(self).partition_ns),
            final(self).histogram_ns == 0 && final(self).split_find_ns == 0
                && final(self).partition_ns == 0,
    {
        let r = (self.histogram_ns, self.split_find_ns, self.partition_ns);
        self.histogram_ns = 0;
        self.split_find_ns = 0;
        self.partition_ns = 0;
        r
    }
}

/// Times `f` and attributes the elapsed time to a tree-building sub-stage.
/// With profiling disabled `f` runs untimed and the counters are untouched.
pub fn time_tree_stage<T, F: FnOnce() -> T>(
    mode: ProfileMode,
    counters: &mut TreeStageCounters,
    stage: TreeStage,
    f: F,
) -> (r: T)
    requires
        call_requires(f, ()),
    ensures
        call_ensures(f, (), r),
        mode == ProfileMode::Disabled ==> *final(counters) == *old(counters),
        stage != TreeStage::Histogram ==> final(counters).histogram_ns == old(counters).histogram_ns,
        stage != TreeStage::SplitFind ==> final(counters).split_find_ns == old(counters).split_find_ns,
        stage != TreeStage::Partition ==> final(counters).partition_ns == old(counters).partition_ns,
        mode != ProfileMode::Disabled ==> exists|m: Measurement|
            #![trigger m.spec_ns()]
            spec_counter(*final(counters), stage) == spec_counter(*old(counters), stage).wrapping_add(
                m.spec_ns(),
            ),
{
    if mode == ProfileMode::Disabled {
        return f();
    }
    let started = instant_now();
    let value = f();
    let m = measure_elapsed(&started);
    counters.add(stage, m.ns());
    assert(spec_counter(*counters, stage) == spec_counter(*old(counters), stage).wrapping_add(
        m.spec_ns(),
    ));
    value
}

/// A frozen, machine-readable profile for one training loop. Stage entries
/// are `(label, nanoseconds)` pairs; stages in execution order, tree stages
/// as histogram build, split find, partition.
#[derive(Debug, Clone, PartialEq, Eq)]
pub struct TrainingProfileSnapshot {
    pub rows: usize,
    pub features: usize,
    pub rounds: usize,
    pub threads: usize,
    pub loop_wall_ns: u64,
    pub untimed_ns: u64,
    pub stage_ns: Vec<(String, u64)>,
    pub tree_stage_ns: Vec<(String, u64)>,
}

/// Looks a label up in `(label, value)` entries.
pub open spec fn spec_lookup(entries: Seq<(String, u64)>, label: Seq<char>) -> Option<u64>
    decreases entries.len(),
{
    if entries.len() == 0 {
        None
    } else if entries[0].0@ == label {
        Some(entries[0].1)
    } else {
        spec_lookup(entries.subrange(1, entries.len() as int), label)
    }
}

fn lookup_entry(entries: &Vec<(String, u64)>, label: &str) -> (r: Option<u64>)
    ensures
        r == spec_lookup(entries@, label@),
{
    let mut i: usize = 0;
    assert(entries@.subrange(0, entries@.len() as int) =~= entries@);
    while i < entries.len()
        invariant
            i <= entries@.len(),
            spec_lookup(entries@, label@) == spec_lookup(
                entries@.subrange(i as int, entries@.len() as int),
                label@,
            ),
        decreases entries.len() - i,
    {
        let ghost t = entries@.subrange(i as int, entries@.len() as int);
        assert(t[0] == entries@[i as int]);
        assert(t.subrange(1, t.len() as int) =~= entries@.subrange(
            i as int + 1,
            entries@.len() as int,
        ));
        if str_equals(entries[i].0.as_str(), label) {
            return Some(entries[i].1);
        }
        i = i + 1;
    }
    None
}

impl TrainingProfileSnapshot {
    /// Nanoseconds recorded for a round stage, by label.
    pub fn stage_value(&self, label: &str) -> (r: Option<u64>)
        ensures
            r == spec_lookup(self.stage_ns@, label@),
    {
        lookup_entry(&self.stage_ns, label)
    }

    /// Nanoseconds recorded for a tree-building stage, by label.
    pub fn tree_stage_value(&self, label: &str) -> (r: Option<u64>)
        ensures
            r == spec_lookup(self.tree_stage_ns@, label@),
    {
        lookup_entry(&self.tree_stage_ns, label)
    }
}

/// Accumulates per-stage durations across the rounds of one fit.
pub struct RoundProfile {
    mode: ProfileMode,
    totals: Vec<u64>,
    rounds: usize,
    started: Option<std::time::Instant>,
}

/// Saturating sum of `values`.
pub open spec fn spec_saturating_sum(values: Seq<u64>) -> u64
    decreases values.len(),
{
    if values.len() == 0 {
        0
    } else {
        spec_saturating_sum(values.drop_last()).saturating_add(values.last())
    }
}

impl RoundProfile {
    pub closed spec fn spec_mode(&self) -> ProfileMode {
        self.mode
    }

    /// Per-stage totals in nanoseconds, in execution order.
    pub closed spec fn spec_totals(&self) -> Seq<u64> {
        self.totals@
    }

    pub closed spec fn spec_rounds(&self) -> usize {
        self.rounds
    }

    pub closed spec fn spec_started(&self) -> bool {
        self.started is Some
    }

    /// One total per stage.
    #[verifier::type_invariant]
    spec fn wf(self) -> bool {
        self.totals@.len() == STAGE_COUNT
    }

    /// A profile with every total zero, no rounds and no clock started.
    pub fn with_mode(mode: ProfileMode) -> (r: Self)
        ensures
            r.spec_mode() == mode,
            r.spec_totals() == Seq::new(STAGE_COUNT as nat, |i: int| 0u64),
            r.spec_rounds() == 0,
            !r.spec_started(),
    {
        let mut totals: Vec<u64> = Vec::new();
        let mut i: usize = 0;
        while i < STAGE_COUNT
            invariant
                i <= STAGE_COUNT,
                totals@ =~= Seq::new(i as nat, |j: int| 0u64),
            decreases STAGE_COUNT - i,
        {
            totals.push(0);
            i = i + 1;
        }
        RoundProfile { mode, totals, rounds: 0, started: None }
    }

    /// A fresh profile whose mode comes from the `ALLOYGBM_PROFILE` setting
    /// (`profile_setting` is its value, `None` when unset).
    pub fn new(profile_setting: Option<&str>) -> (r: Self)
        ensures
            r.spec_mode() == spec_parse_profile_mode(opt_view(profile_setting)),
            r.spec_totals() == Seq::new(STAGE_COUNT as nat, |i: int| 0u64),
            r.spec_rounds() == 0,
            !r.spec_started(),
    {
        Self::with_mode(parse_profile_mode(profile_setting))
    }

    pub fn is_enabled(&self) -> (r: bool)
        ensures
            r == (self.spec_mode() != ProfileMode::Disabled),
    {
        self.mode != ProfileMode::Disabled
    }

    /// Adds `ns` (saturating) to one stage's total.
    pub fn add_stage_duration(&mut self, stage: Stage, ns: u64)
        ensures
            final(self).spec_totals() == old(self).spec_totals().update(
                spec_stage_index(stage) as int,
                old(self).spec_totals()[spec_stage_index(stage) as int].saturating_add(ns),
            ),
            final(self).spec_mode() == old(self).spec_mode(),
            final(self).spec_rounds() == old(self).spec_rounds(),
            final(self).spec_started() == old(self).spec_started(),
    {
        proof {
            use_type_invariant(&*self);
        }
        let i = stage.index();
        let ghost target = old(self).spec_totals().update(
            i as int,
            old(self).spec_totals()[i as int].saturating_add(ns),
        );
        let mut next: Vec<u64> = Vec::new();
        let mut j: usize = 0;
        while j < STAGE_COUNT
            invariant
                self.totals@.len() == STAGE_COUNT,
                i < STAGE_COUNT,
                target == self.totals@.update(i as int, self.totals@[i as int].saturating_add(ns)),
                j <= STAGE_COUNT,
                next@ =~= target.subrange(0, j as int),
            decreases STAGE_COUNT - j,
        {
            let value = if j == i {
                self.totals[j].saturating_add(ns)
            } else {
                self.totals[j]
            };
            next.push(value);
            j = j + 1;
        }
        assert(next@ =~= target);
        self.totals = next;
    }

    /// Times `f`, attributing the elapsed duration to `stage`. With profiling
    /// disabled `f` runs untimed and the totals are untouched.
    pub fn time<T, F: FnOnce() -> T>(&mut self, stage: Stage, f: F) -> (r: T)
        requires
            call_requires(f, ()),
        ensures
            call_ensures(f, (), r),
            final(self).spec_mode() == old(self).spec_mode(),
            final(self).spec_rounds() == old(self).spec_rounds(),
            final(self).spec_started() == old(self).spec_started(),
            old(self).spec_mode() == ProfileMode::Disabled ==> final(self).spec_totals() == old(
                self,
            ).spec_totals(),
            forall|i: int|
                0 <= i < STAGE_COUNT && i != spec_stage_index(stage) ==> final(self).spec_totals()[i]
                    == old(self).spec_totals()[i],
            final(self).spec_totals()[spec_stage_index(stage) as int] >= old(
                self,
            ).spec_totals()[spec_stage_index(stage) as int],
            old(self).spec_mode() != ProfileMode::Disabled ==> exists|m: Measurement|
                #![trigger m.spec_ns()]
                final(self).spec_totals() == old(self).spec_totals().update(
                    spec_stage_index(stage) as int,
                    old(self).spec_totals()[spec_stage_index(stage) as int].saturating_add(
                        m.spec_ns(),
                    ),
                ),
    {
        proof {
            use_type_invariant(&*self);
        }
        if self.mode == ProfileMode::Disabled {
            return f();
        }
        let started = instant_now();
        let value = f();
        let m = measure_elapsed(&started);
        self.add_stage_duration(stage, m.ns());
        assert(self.spec_totals() == old(self).spec_totals().update(
            spec_stage_index(stage) as int,
            old(self).spec_totals()[spec_stage_index(stage) as int].saturating_add(m.spec_ns()),
        ));
        value
    }

    /// Counts a round; the first counted round starts the loop clock.
    /// Disabled profiles ignore it.
    pub fn note_round(&mut self)
        ensures
            final(self).spec_mode() == old(self).spec_mode(),
            final(self).spec_totals() == old(self).spec_totals(),
            old(self).spec_mode() == ProfileMode::Disabled ==> final(self).spec_rounds() == old(
                self,
            ).spec_rounds() && final(self).spec_started() == old(self).spec_started(),
            old(self).spec_mode() != ProfileMode::Disabled ==> final(self).spec_rounds() == old(
                self,
            ).spec_rounds().wrapping_add(1) && final(self).spec_started(),
    {
        proof {
            use_type_invariant(&*self);
        }
        if self.mode != ProfileMode::Disabled {
            if self.started.is_none() {
                self.started = Some(instant_now());
            }
            self.rounds = self.rounds.wrapping_add(1);
        }
    }

    /// Snapshot of an enabled profile; `None` when profiling is disabled.
    pub fn snapshot_if_enabled(
        &self,
        rows: usize,
        features: usize,
        threads: usize,
        counters: &mut TreeStageCounters,
    ) -> (r: Option<TrainingProfileSnapshot>)
        ensures
            r is None <==> self.spec_mode() == ProfileMode::Disabled,
            r is None ==> *final(counters) == *old(counters),
            r matches Some(s) ==> snapshot_matches(*self, rows, features, threads, *old(counters), s),
            r is Some ==> final(counters).histogram_ns == 0 && final(counters).split_find_ns == 0
                && final(counters).partition_ns == 0,
    {
        if self.is_enabled() {
            Some(self.snapshot(rows, features, threads, counters))
        } else {
            None
        }
    }

    /// Freezes loop timing and drains the tree-stage counters exactly once.
    /// A disabled profile reports zero wall time and zero tree stages and
    /// leaves the counters alone.
    pub fn snapshot(
        &self,
        rows: usize,
        features: usize,
        threads: usize,
        counters: &mut TreeStageCounters,
    ) -> (r: TrainingProfileSnapshot)
        ensures
            snapshot_matches(*self, rows, features, threads, *old(counters), r),
            self.spec_mode() == ProfileMode::Disabled ==> *final(counters) == *old(counters),
            self.spec_mode() != ProfileMode::Disabled ==> final(counters).histogram_ns == 0
                && final(counters).split_find_ns == 0 && final(counters).partition_ns == 0,
    {
        proof {
            use_type_invariant(self);
        }
        let enabled = self.mode != ProfileMode::Disabled;
        let mut stage_ns: Vec<(String, u64)> = Vec::new();
        let mut staged_ns: u64 = 0;
        let mut i: usize = 0;
        while i < STAGE_COUNT
            invariant
                self.spec_totals().len() == STAGE_COUNT,
                i <= STAGE_COUNT,
                stage_ns@.len() == i,
                forall|j: int|
                    0 <= j < i ==> (#[trigger] stage_ns@[j]).0@ == spec_stage_label(spec_stage_at(j))
                        && stage_ns@[j].1 == self.spec_totals()[j],
                staged_ns == spec_saturating_sum(self.spec_totals().subrange(0, i as int)),
            decreases STAGE_COUNT - i,
        {
            let stage = Stage::at(i);
            let label = stage.label().to_string();
            let value = self.totals[i];
            stage_ns.push((label, value));
            assert(self.spec_totals().subrange(0, i as int + 1).drop_last() =~= self.spec_totals().subrange(0, i as int));
            staged_ns = staged_ns.saturating_add(value);
            i = i + 1;
        }
        assert(self.spec_totals().subrange(0, STAGE_COUNT as int) =~= self.spec_totals());
        let loop_wall_ns: u64 = if enabled {
            match &self.started {
                Some(started) => elapsed_ns(started),
                None => staged_ns,
            }
        } else {
            0
        };
        let (h, s, p) = if enabled {
            counters.drain()
        } else {
            (0u64, 0u64, 0u64)
        };
        let mut tree_stage_ns: Vec<(String, u64)> = Vec::new();
        tree_stage_ns.push(("histogram_build".to_string(), h));
        tree_stage_ns.push(("split_find".to_string(), s));
        tree_stage_ns.push(("partition".to_string(), p));
        TrainingProfileSnapshot {
            rows,
            features,
            rounds: self.rounds,
            threads,
            loop_wall_ns,
            untimed_ns: loop_wall_ns.saturating_sub(staged_ns),
            stage_ns,
            tree_stage_ns,
        }
    }
}

/// What a snapshot of `p` records: the dimensions given, the round count, each
/// stage's total under its label, the wall time (zero when disabled, the
/// staged sum when no round started the clock, a clock reading otherwise),
/// the untimed remainder `wall - staged` saturated at zero, and the drained
/// tree counters (zeros when disabled).
pub open spec fn snapshot_matches(
    p: RoundProfile,
    rows: usize,
    features: usize,
    threads: usize,
    counters: TreeStageCounters,
    s: TrainingProfileSnapshot,
) -> bool {
    let enabled = p.spec_mode() != ProfileMode::Disabled;
    let staged = spec_saturating_sum(p.spec_totals());
    &&& s.rows == rows && s.features == features && s.threads == threads
    &&& s.rounds == p.spec_rounds()
    &&& s.stage_ns@.len() == STAGE_COUNT
    &&& forall|j: int|
        0 <= j < STAGE_COUNT ==> (#[trigger] s.stage_ns@[j]).0@ == spec_stage_label(spec_stage_at(j))
            && s.stage_ns@[j].1 == p.spec_totals()[j]
    &&& !enabled ==> s.loop_wall_ns == 0
    &&& enabled && !p.spec_started() ==> s.loop_wall_ns == staged
    &&& s.untimed_ns == s.loop_wall_ns.saturating_sub(staged)
    &&& s.tree_stage_ns@.len() == 3
    &&& forall|j: int| 0 <= j < 3 ==> (#[trigger] s.tree_stage_ns@[j]).0@ == spec_tree_stage_label(j)
    &&& s.tree_stage_ns@[0].1 == if enabled { counters.histogram_ns } else { 0 }
    &&& s.tree_stage_ns@[1].1 == if enabled { counters.split_find_ns } else { 0 }
    &&& s.tree_stage_ns@[2].1 == if enabled { counters.partition_ns } else { 0 }
}

} // verus!
