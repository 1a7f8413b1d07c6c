use alloygbm_engine::error::EngineError;
use alloygbm_engine::replay::{
    binned_split_went_left, group_stumps_by_tree, build_stump_lookup, decode_tree_node_id, replay_round_row,
    rounds_completed, tree_round_ranges, validate_active_raw_features,
    validate_restricted_replay_inputs, validate_stump_contracts, BinnedColumns, StumpSplit,
    TREE_NODE_STRIDE,
};

const MISSING: u16 = 255;

fn split(node_id: u32, feature_index: u32, threshold_bin: u16, default_left: bool) -> StumpSplit {
    StumpSplit {
        node_id,
        feature_index,
        threshold_bin,
        default_left,
        is_categorical: false,
        categorical_bitset: None,
    }
}

fn categorical(bitset: Vec<u8>) -> StumpSplit {
    StumpSplit {
        node_id: 0,
        feature_index: 0,
        threshold_bin: 0,
        default_left: false,
        is_categorical: true,
        categorical_bitset: Some(bitset),
    }
}

fn columns(row_count: usize, feature_count: usize, bins: Vec<u16>) -> BinnedColumns {
    BinnedColumns { row_count, feature_count, missing_bin: MISSING, bins }
}

fn sides(path: &[(usize, bool)]) -> Vec<bool> {
    path.iter().map(|(_, left)| *left).collect()
}

#[test]
fn route_follows_learned_missing_direction() {
    let m = columns(3, 1, vec![0, MISSING, 2]);
    let stumps = vec![split(0, 0, 1, true)];
    let lookup = build_stump_lookup(&stumps, 1).unwrap();
    let routes: Vec<Vec<bool>> = (0..3).map(|r| sides(&replay_round_row(r, &m, &stumps, &lookup))).collect();
    assert_eq!(routes, vec![vec![true], vec![true], vec![false]]);
    let stumps = vec![split(0, 0, 1, false)];
    let lookup = build_stump_lookup(&stumps, 1).unwrap();
    assert_eq!(sides(&replay_round_row(1, &m, &stumps, &lookup)), vec![false]);
}

#[test]
fn route_follows_native_categorical_bitset() {
    let m = columns(4, 1, vec![0, 1, 2, 3]);
    let stumps = vec![categorical(vec![0b0000_0101])];
    let lookup = build_stump_lookup(&stumps, 1).unwrap();
    let routes: Vec<Vec<bool>> = (0..4).map(|r| sides(&replay_round_row(r, &m, &stumps, &lookup))).collect();
    assert_eq!(routes, vec![vec![true], vec![false], vec![true], vec![false]]);
}

#[test]
fn depth_two_route_visits_child() {
    let m = columns(4, 1, vec![0, 0, 2, 2]);
    let stumps = vec![split(0, 0, 1, true), split(1, 0, 0, true)];
    let lookup = build_stump_lookup(&stumps, 1).unwrap();
    assert_eq!(replay_round_row(1, &m, &stumps, &lookup), vec![(0, true), (1, true)]);
    assert_eq!(replay_round_row(2, &m, &stumps, &lookup), vec![(0, false)]);
}

#[test]
fn split_decisions() {
    let numeric = split(0, 0, 3, false);
    assert!(binned_split_went_left(&numeric, 3, MISSING));
    assert!(!binned_split_went_left(&numeric, 4, MISSING));
    assert!(!binned_split_went_left(&numeric, MISSING, MISSING));
    let cat = categorical(vec![0, 0b10]);
    assert!(binned_split_went_left(&cat, 9, MISSING));
    assert!(!binned_split_went_left(&cat, 8, MISSING));
    assert!(!binned_split_went_left(&cat, 40, MISSING));
    let mut no_bitset = categorical(vec![]);
    no_bitset.categorical_bitset = None;
    no_bitset.default_left = true;
    assert!(binned_split_went_left(&no_bitset, 2, MISSING));
}

#[test]
fn stump_contracts_are_checked() {
    let ok = vec![split(0, 0, 1, true), split(1, 1, 1, true)];
    assert_eq!(validate_stump_contracts(&ok, 2), Ok(()));
    assert!(matches!(validate_stump_contracts(&ok, 1), Err(EngineError::ContractViolation(_))));
    let duplicate = vec![split(0, 0, 1, true), split(0, 0, 0, true)];
    assert!(matches!(validate_stump_contracts(&duplicate, 1), Err(EngineError::ContractViolation(_))));
    assert!(matches!(build_stump_lookup(&duplicate, 1), Err(EngineError::ContractViolation(_))));
    let same_local_other_tree = vec![split(0, 0, 1, true), split(TREE_NODE_STRIDE, 0, 0, true)];
    assert_eq!(validate_stump_contracts(&same_local_other_tree, 1), Ok(()));
    assert!(matches!(build_stump_lookup(&same_local_other_tree, 1), Err(EngineError::ContractViolation(_))));
    let lookup = build_stump_lookup(&ok, 2).unwrap();
    assert_eq!(lookup.get(1), Some(1));
    assert_eq!(lookup.get(2), None);
}

#[test]
fn raw_feature_checks() {
    assert_eq!(validate_active_raw_features(4, 2, None), Ok(()));
    assert_eq!(validate_active_raw_features(4, 2, Some((0, 0))), Ok(()));
    assert_eq!(validate_active_raw_features(4, 2, Some((8, 2))), Ok(()));
    assert!(matches!(validate_active_raw_features(4, 2, Some((3, 2))), Err(EngineError::ContractViolation(_))));
    assert!(matches!(validate_active_raw_features(4, 2, Some((1, 0))), Err(EngineError::ContractViolation(_))));
    assert!(matches!(validate_active_raw_features(4, 2, Some((4, 1))), Err(EngineError::ContractViolation(_))));
}

#[test]
fn restricted_inputs_checks() {
    let m = columns(4, 1, vec![0, 1, 2, 3]);
    assert_eq!(validate_restricted_replay_inputs(4, &m, None, &vec![1, 3]), Ok(()));
    assert!(matches!(
        validate_restricted_replay_inputs(4, &m, None, &vec![1, 4]),
        Err(EngineError::ContractViolation(_))
    ));
    assert!(matches!(
        validate_restricted_replay_inputs(3, &m, None, &vec![1]),
        Err(EngineError::ContractViolation(_))
    ));
    assert!(matches!(
        validate_restricted_replay_inputs(4, &m, Some((1, 0)), &vec![]),
        Err(EngineError::ContractViolation(_))
    ));
}

#[test]
fn node_ids_split_into_tree_and_local() {
    assert_eq!(decode_tree_node_id(3 * TREE_NODE_STRIDE + 5), (3, 5));
    assert_eq!(rounds_completed(&vec![]), 0);
    assert_eq!(rounds_completed(&vec![0, 2, TREE_NODE_STRIDE * 4 + 1, TREE_NODE_STRIDE]), 5);
}

#[test]
fn tree_ranges_group_consecutive_trees() {
    let stumps = vec![
        split(0, 0, 0, true),
        split(1, 0, 0, true),
        split(TREE_NODE_STRIDE, 0, 0, true),
        split(2 * TREE_NODE_STRIDE, 0, 0, true),
        split(2 * TREE_NODE_STRIDE + 2, 0, 0, true),
    ];
    assert_eq!(tree_round_ranges(&stumps), vec![(0, 2), (2, 3), (3, 5)]);
    assert_eq!(tree_round_ranges(&vec![]), vec![]);
}

#[test]
fn stumps_group_by_tree_id() {
    let ids = vec![2 * TREE_NODE_STRIDE, 0, 2 * TREE_NODE_STRIDE + 1, 1, 2];
    assert_eq!(group_stumps_by_tree(&ids), vec![vec![1, 3, 4], vec![], vec![0, 2]]);
    assert!(group_stumps_by_tree(&vec![]).is_empty());
}
