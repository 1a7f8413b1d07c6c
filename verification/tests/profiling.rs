use alloygbm_engine::profiling::{
    parse_profile_mode, time_tree_stage, ProfileMode, RoundProfile, Stage, TreeStage,
    TreeStageCounters,
};

#[test]
fn snapshot_contains_exact_stage_labels_and_zero_values() {
    let profile = RoundProfile::with_mode(ProfileMode::Json);
    let mut counters = TreeStageCounters::new();
    let snapshot = profile.snapshot(12, 3, 2, &mut counters);
    assert_eq!(snapshot.rows, 12);
    assert_eq!(snapshot.features, 3);
    assert_eq!(snapshot.rounds, 0);
    assert_eq!(snapshot.threads, 2);
    assert_eq!(snapshot.stage_ns.len(), 8);
    assert!(snapshot.stage_ns.iter().all(|(_, value)| *value == 0));
    assert_eq!(snapshot.tree_stage_ns.len(), 3);
    assert!(snapshot.tree_stage_ns.iter().all(|(_, value)| *value == 0));
}

#[test]
fn disabled_profile_does_not_construct_a_snapshot() {
    let profile = RoundProfile::with_mode(ProfileMode::Disabled);
    let mut counters = TreeStageCounters::new();
    assert!(profile.snapshot_if_enabled(12, 3, 2, &mut counters).is_none());
}

#[test]
fn snapshot_saturates_untimed_residual() {
    let mut profile = RoundProfile::with_mode(ProfileMode::Json);
    profile.note_round();
    profile.add_stage_duration(Stage::Gradients, 1_000_000_000);
    let mut counters = TreeStageCounters::new();
    let snapshot = profile.snapshot(1, 1, 1, &mut counters);
    assert_eq!(snapshot.untimed_ns, 0);
}

#[test]
fn profile_mode_parsing_is_explicit() {
    assert_eq!(parse_profile_mode(None), ProfileMode::Disabled);
    assert_eq!(parse_profile_mode(Some("")), ProfileMode::Disabled);
    assert_eq!(parse_profile_mode(Some("0")), ProfileMode::Disabled);
    assert_eq!(parse_profile_mode(Some("1")), ProfileMode::Human);
    assert_eq!(parse_profile_mode(Some("human")), ProfileMode::Human);
    assert_eq!(parse_profile_mode(Some("json")), ProfileMode::Json);
    assert_eq!(parse_profile_mode(Some("anything")), ProfileMode::Disabled);
}

#[test]
fn snapshot_drains_tree_counters_between_fits() {
    let mut counters = TreeStageCounters::new();
    counters.add(TreeStage::Histogram, 7);
    counters.add(TreeStage::SplitFind, 11);
    counters.add(TreeStage::Partition, 13);
    let profile = RoundProfile::with_mode(ProfileMode::Json);
    let first = profile.snapshot(1, 1, 1, &mut counters);
    assert_eq!(first.tree_stage_value("histogram_build"), Some(7));
    assert_eq!(first.tree_stage_value("split_find"), Some(11));
    assert_eq!(first.tree_stage_value("partition"), Some(13));
    let second = profile.snapshot(1, 1, 1, &mut counters);
    assert_eq!(second.tree_stage_value("histogram_build"), Some(0));
    assert_eq!(second.tree_stage_value("split_find"), Some(0));
    assert_eq!(second.tree_stage_value("partition"), Some(0));
}

#[test]
fn snapshot_lists_stages_in_execution_order() {
    let profile = RoundProfile::with_mode(ProfileMode::Human);
    let mut counters = TreeStageCounters::new();
    let snapshot = profile.snapshot(1, 1, 1, &mut counters);
    let labels: Vec<&str> = snapshot.stage_ns.iter().map(|(l, _)| l.as_str()).collect();
    let expected: Vec<&str> = (0..8).map(|i| Stage::at(i).label()).collect();
    assert_eq!(labels, expected);
    assert_eq!(labels[0], Stage::at(0).label());
    let tree_labels: Vec<&str> = snapshot.tree_stage_ns.iter().map(|(l, _)| l.as_str()).collect();
    assert_eq!(tree_labels, vec!["histogram_build", "split_find", "partition"]);
}

#[test]
fn disabled_snapshot_reports_zero_and_leaves_counters() {
    let mut profile = RoundProfile::with_mode(ProfileMode::Disabled);
    profile.note_round();
    let mut counters = TreeStageCounters::new();
    counters.add(TreeStage::Partition, 5);
    let snapshot = profile.snapshot(4, 2, 1, &mut counters);
    assert_eq!(snapshot.loop_wall_ns, 0);
    assert_eq!(snapshot.rounds, 0);
    assert_eq!(snapshot.tree_stage_value("partition"), Some(0));
    assert_eq!(counters.partition_ns, 5);
}

#[test]
fn snapshot_without_rounds_uses_staged_time_as_wall_time() {
    let mut profile = RoundProfile::with_mode(ProfileMode::Json);
    profile.add_stage_duration(Stage::Gradients, 30);
    profile.add_stage_duration(Stage::Loss, 12);
    let mut counters = TreeStageCounters::new();
    let snapshot = profile.snapshot(1, 1, 1, &mut counters);
    assert_eq!(snapshot.loop_wall_ns, 42);
    assert_eq!(snapshot.untimed_ns, 0);
    assert_eq!(snapshot.stage_value("gradients"), Some(30));
    assert_eq!(snapshot.stage_value("loss"), Some(12));
    assert_eq!(snapshot.stage_value("no_such_stage"), None);
}

#[test]
fn stage_totals_saturate() {
    let mut profile = RoundProfile::with_mode(ProfileMode::Json);
    profile.add_stage_duration(Stage::Gradients, u64::MAX);
    profile.add_stage_duration(Stage::Gradients, 10);
    let mut counters = TreeStageCounters::new();
    let snapshot = profile.snapshot(1, 1, 1, &mut counters);
    assert_eq!(snapshot.stage_value("gradients"), Some(u64::MAX));
}

#[test]
fn new_reads_the_profile_setting() {
    assert!(!RoundProfile::new(None).is_enabled());
    assert!(RoundProfile::new(Some("json")).is_enabled());
    assert!(RoundProfile::new(Some("1")).is_enabled());
    assert!(!RoundProfile::new(Some("yes")).is_enabled());
}

#[test]
fn time_runs_the_closure_and_keeps_other_stages() {
    let mut profile = RoundProfile::with_mode(ProfileMode::Json);
    let value = profile.time(Stage::Gradients, || 6 * 7);
    assert_eq!(value, 42);
    let mut counters = TreeStageCounters::new();
    let snapshot = profile.snapshot(1, 1, 1, &mut counters);
    assert_eq!(snapshot.stage_value("loss"), Some(0));
}

#[test]
fn disabled_tree_stage_timing_leaves_counters_untouched() {
    let mut counters = TreeStageCounters::new();
    let value = time_tree_stage(ProfileMode::Disabled, &mut counters, TreeStage::Histogram, || 5);
    assert_eq!(value, 5);
    assert_eq!(counters, TreeStageCounters::new());
    let value = time_tree_stage(ProfileMode::Json, &mut counters, TreeStage::SplitFind, || 9);
    assert_eq!(value, 9);
    assert_eq!(counters.histogram_ns, 0);
    assert_eq!(counters.partition_ns, 0);
}

#[test]
fn tree_counters_wrap_and_drain() {
    let mut counters = TreeStageCounters::new();
    counters.add(TreeStage::Histogram, u64::MAX);
    counters.add(TreeStage::Histogram, 2);
    assert_eq!(counters.histogram_ns, 1);
    assert_eq!(counters.drain(), (1, 0, 0));
    assert_eq!(counters.drain(), (0, 0, 0));
}

#[test]
fn note_round_counts_only_when_enabled() {
    let mut enabled = RoundProfile::with_mode(ProfileMode::Human);
    enabled.note_round();
    enabled.note_round();
    let mut counters = TreeStageCounters::new();
    assert_eq!(enabled.snapshot(1, 1, 1, &mut counters).rounds, 2);
}

#[test]
fn snapshot_wall_time_is_frozen_before_later_work() {
    let mut profile = RoundProfile::with_mode(ProfileMode::Json);
    profile.note_round();
    let mut counters = TreeStageCounters::new();
    let snapshot = profile.snapshot(1, 1, 1, &mut counters);
    profile.add_stage_duration(Stage::Gradients, 1_000_000_000);
    assert!(snapshot.loop_wall_ns < 1_000_000_000);
    assert_eq!(snapshot.stage_value("gradients"), Some(0));
    let later_snapshot = profile.snapshot(1, 1, 1, &mut counters);
    assert_eq!(later_snapshot.stage_value("gradients"), Some(1_000_000_000));
}
