use alloygbm_engine::bitset::{
    bitset_bytes_to_u64, byte_bitset_contains, u64_bitset_contains, u64_to_bitset_bytes,
};
use alloygbm_engine::colsample::{
    colsample_bynode_keeps_feature, node_candidate_features, ColsampleBynode,
};
use alloygbm_engine::env::{
    env_toggle_enabled, experiment_force_manual_policy_enabled, experiment_leaf_refinement_enabled,
};
use alloygbm_engine::error::EngineError;
use alloygbm_engine::factor::validate_exposure_shape;
use alloygbm_engine::groups::{compute_group_boundaries, resolve_boundaries_for_len};
use alloygbm_engine::histogram::{HistComponent, MultiOutputHistogram};
use alloygbm_engine::objectives::{
    validate_lambdarank_truncation_level, BinaryCrossEntropyObjective, CategoricalFeatureInfo,
    GammaObjective, JointObjective, MultiClassSoftmaxObjective, QueryRMSEObjective,
    SquaredErrorObjective, XeNDCGObjective,
};
use alloygbm_engine::text::{str_equals, toggle_value_enabled};

#[test]
fn joint_objective_parses_supported_names() {
    assert_eq!(JointObjective::parse("rank:ndcg").unwrap(), JointObjective::RankNdcg);
    assert_eq!(JointObjective::parse("queryrmse").unwrap(), JointObjective::QueryRmse);
    assert!(JointObjective::parse("custom").is_err());
}

#[test]
fn joint_objective_names_round_trip_and_groups() {
    let all = [
        JointObjective::SquaredError,
        JointObjective::QueryRmse,
        JointObjective::RankPairwise,
        JointObjective::RankNdcg,
        JointObjective::RankXendcg,
        JointObjective::Poisson,
        JointObjective::Gamma,
        JointObjective::Tweedie,
        JointObjective::Quantile,
    ];
    for k in all {
        assert_eq!(JointObjective::parse(k.name()).unwrap(), k);
    }
    assert!(JointObjective::QueryRmse.requires_group());
    assert!(JointObjective::RankXendcg.requires_group());
    assert!(!JointObjective::Poisson.requires_group());
    assert!(JointObjective::parse("Rank:NDCG").is_err());
}

#[test]
fn objective_names() {
    assert_eq!(SquaredErrorObjective.objective_name(), "squared_error");
    assert_eq!(BinaryCrossEntropyObjective.objective_name(), "binary_crossentropy");
    assert_eq!(GammaObjective.objective_name(), "gamma");
    let softmax = MultiClassSoftmaxObjective::new(3).unwrap();
    assert_eq!(softmax.num_classes, 3);
    assert_eq!(softmax.objective_name(), "multiclass_softmax");
    assert!(matches!(MultiClassSoftmaxObjective::new(1), Err(EngineError::InvalidConfig(_))));
    let info = CategoricalFeatureInfo { feature_index: 2, num_categories: 5 };
    assert_eq!(info.num_categories, 5);
}

#[test]
fn lambdarank_truncation_level_must_be_positive() {
    assert_eq!(validate_lambdarank_truncation_level(None), Ok(None));
    assert_eq!(validate_lambdarank_truncation_level(Some(3)), Ok(Some(3)));
    assert!(matches!(validate_lambdarank_truncation_level(Some(0)), Err(EngineError::InvalidConfig(_))));
}

#[test]
fn multi_output_histogram_layout_is_feature_bin_output_major() {
    let h = MultiOutputHistogram::new(2, 4, 3);
    assert_eq!(h.len_flat(), 2 * 4 * 3 * 2);
    let idx_g = h.idx(1, 2, 0, HistComponent::Grad);
    let idx_h = h.idx(1, 2, 0, HistComponent::Hess);
    assert_ne!(idx_g, idx_h);
    assert!(idx_g < h.len_flat() && idx_h < h.len_flat());
}

#[test]
fn histogram_indices_enumerate_every_slot_once() {
    let h = MultiOutputHistogram::new(3, 5, 2);
    let mut seen = vec![false; h.len_flat()];
    for f in 0..3 {
        for b in 0..5 {
            for o in 0..2 {
                for c in [HistComponent::Grad, HistComponent::Hess] {
                    let i = h.idx(f, b, o, c);
                    assert!(!seen[i]);
                    seen[i] = true;
                }
            }
        }
    }
    assert!(seen.iter().all(|s| *s));
    assert_eq!(h.idx(1, 2, 1, HistComponent::Hess), ((1 * 5 + 2) * 2 + 1) * 2 + 1);
}

#[test]
fn bitset_bytes_round_trip() {
    for bs in [0u64, 1, 0b101, 0x80, 0x100, 0xdead_beef, u64::MAX, 1 << 63] {
        let bytes = u64_to_bitset_bytes(bs);
        assert_eq!(bitset_bytes_to_u64(&bytes), bs);
        assert!(!bytes.is_empty());
        assert!(bytes.len() == 1 || *bytes.last().unwrap() != 0);
    }
    assert_eq!(u64_to_bitset_bytes(0), vec![0]);
    assert_eq!(u64_to_bitset_bytes(0x0102), vec![0x02, 0x01]);
    assert_eq!(bitset_bytes_to_u64(&[1, 2, 3, 4, 5, 6, 7, 8, 9]), 0x0807_0605_0403_0201);
}

#[test]
fn bitset_membership_agrees_between_encodings() {
    for bs in [0u64, 0b0101, 0xf0f0, 1 << 40, u64::MAX] {
        let bytes = u64_to_bitset_bytes(bs);
        for bin in 0u16..80 {
            assert_eq!(byte_bitset_contains(&bytes, bin), u64_bitset_contains(bs, bin));
        }
    }
    assert!(u64_bitset_contains(0b100, 2));
    assert!(!u64_bitset_contains(u64::MAX, 64));
}

#[test]
fn group_boundaries_follow_id_changes() {
    assert_eq!(compute_group_boundaries(&[7, 7, 3, 3, 3, 9]), vec![0, 2, 5, 6]);
    assert_eq!(compute_group_boundaries(&[]), vec![0, 0]);
    assert_eq!(compute_group_boundaries(&[4]), vec![0, 1]);
    assert_eq!(compute_group_boundaries(&[1, 2, 1]), vec![0, 1, 2, 3]);
}

#[test]
fn boundaries_resolve_by_length() {
    let train = vec![0, 2, 5];
    let validation = Some(vec![0, 3]);
    assert_eq!(resolve_boundaries_for_len(&train, &validation, 5), vec![0, 2, 5]);
    assert_eq!(resolve_boundaries_for_len(&train, &validation, 3), vec![0, 3]);
    assert_eq!(resolve_boundaries_for_len(&train, &validation, 4), vec![0, 4]);
    assert_eq!(resolve_boundaries_for_len(&train, &None, 4), vec![0, 4]);
}

#[test]
fn toggles_accept_truthy_values_only() {
    for v in ["1", "true", "TRUE", " yes ", "On", "\tyes\n"] {
        assert!(toggle_value_enabled(v), "{v:?}");
        assert!(env_toggle_enabled(Some(v)));
    }
    for v in ["", "0", "false", "no", "off", "y", "enabled", "t rue"] {
        assert!(!toggle_value_enabled(v), "{v:?}");
    }
    assert!(!env_toggle_enabled(None));
    assert!(experiment_force_manual_policy_enabled(Some("yes")));
    assert!(!experiment_leaf_refinement_enabled(None));
    assert!(experiment_leaf_refinement_enabled(Some(" 1 ")));
    assert!(str_equals("abc", "abc"));
    assert!(!str_equals("abc", "abd"));
}

fn threshold(rate: f64) -> u64 {
    (rate * (1u64 << 53) as f64).ceil() as u64
}

#[test]
fn colsample_matches_reference_draw() {
    let kept: Vec<u32> = (0..8).filter(|&f| colsample_bynode_keeps_feature(7, 3, f, threshold(0.5))).collect();
    assert_eq!(kept, vec![2, 3, 4, 5, 7]);
    assert!((0..100).all(|f| colsample_bynode_keeps_feature(1, 2, f, threshold(1.0))));
    assert!((0..100).all(|f| !colsample_bynode_keeps_feature(1, 2, f, 0)));
}

#[test]
fn node_candidates_compose_filters() {
    let ids: Vec<u32> = (0..8).collect();
    assert_eq!(node_candidate_features(&ids, None, None, 3), None);
    let cs = ColsampleBynode { keep_threshold: threshold(0.5), seed: 7 };
    assert_eq!(node_candidate_features(&ids, None, Some(cs), 3), Some(vec![2, 3, 4, 5, 7]));
    let allowed = vec![true, true, true, false, false, false, false, true];
    assert_eq!(node_candidate_features(&ids, Some(&allowed), Some(cs), 3), Some(vec![2, 7]));
    let only_first_two = vec![true, true, false, false, false, false, false, false];
    assert_eq!(
        node_candidate_features(&ids, Some(&only_first_two), Some(cs), 3),
        Some(vec![0, 1])
    );
    let none_kept = ColsampleBynode { keep_threshold: 0, seed: 7 };
    assert_eq!(node_candidate_features(&ids, None, Some(none_kept), 3), None);
    assert_eq!(node_candidate_features(&ids, Some(&allowed), None, 3), Some(vec![0, 1, 2, 7]));
}

#[test]
fn exposure_shape_checks() {
    assert_eq!(validate_exposure_shape(3, 2, 6), Ok(()));
    assert!(matches!(validate_exposure_shape(0, 2, 0), Err(EngineError::ContractViolation(_))));
    assert!(matches!(validate_exposure_shape(3, 0, 0), Err(EngineError::ContractViolation(_))));
    assert!(matches!(validate_exposure_shape(3, 2, 5), Err(EngineError::ContractViolation(_))));
    assert!(matches!(validate_exposure_shape(usize::MAX, 2, 0), Err(EngineError::ContractViolation(_))));
}

#[test]
fn query_grouped_objectives_track_train_and_validation_groups() {
    let q = QueryRMSEObjective::new(&[1, 1, 2, 2, 2]).with_validation_group(&[5, 6, 6]);
    assert_eq!(q.group_boundaries, vec![0, 2, 5]);
    assert_eq!(q.validation_group_boundaries, Some(vec![0, 1, 3]));
    assert_eq!(q.loss_boundaries(5), vec![0, 2, 5]);
    assert_eq!(q.loss_boundaries(3), vec![0, 1, 3]);
    assert_eq!(q.loss_boundaries(4), vec![0, 4]);
    assert_eq!(q.objective_name(), "queryrmse");
    assert!(q.requires_group_id() && !q.supports_leaf_refinement());
    let x = XeNDCGObjective::new(&[3, 3, 4]);
    assert_eq!(x.group_boundaries, vec![0, 2, 3]);
    assert_eq!(x.validation_group_boundaries, None);
    assert_eq!(x.objective_name(), "rank_xendcg");
    assert!(x.requires_group_id() && !x.supports_leaf_refinement());
    assert!(SquaredErrorObjective.supports_pre_target_neutralization());
}
