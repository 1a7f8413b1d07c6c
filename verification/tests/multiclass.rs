use alloygbm_engine::artifact::{encode_predictor_layout_payload, StumpRecord};
use alloygbm_engine::error::EngineError;
use alloygbm_engine::multiclass::{
    class_stump_position, decode_multiclass_trees_payload, encode_multiclass_trees_payload,
    global_stump_index, multiclass_trees_from_sections, validate_multiclass_linear_leaf_features,
    ModelLimits,
};
use alloygbm_engine::sections::{
    decode_optional_node_debug_stats_section, optional_single_section, required_single_section,
    resolve_predictor_layout, ArtifactCompatibilityMode, ArtifactSection, SectionKind,
};

const LIMITS: ModelLimits = ModelLimits { max_classes: 16, max_features: 64, max_stumps: 100 };

fn stump(node_id: u32, feature_index: u32) -> StumpRecord {
    StumpRecord {
        node_id,
        feature_index,
        threshold_bin: 3,
        default_left: node_id % 2 == 0,
        is_categorical: false,
        gain_bits: 1.0f32.to_bits(),
        left_leaf_bits: (-0.5f32).to_bits(),
        right_leaf_bits: 0.5f32.to_bits(),
        left_count: 5,
        right_count: 6,
    }
}

fn model() -> (Vec<u32>, Vec<Vec<StumpRecord>>) {
    let baselines = vec![0.1f32.to_bits(), 0.2f32.to_bits(), (-0.3f32).to_bits()];
    let classes = vec![
        vec![stump(0, 1), stump(1, 2)],
        vec![],
        vec![stump(0x10_0000, 0), stump(0x20_0001, 3), stump(0x20_0002, 1)],
    ];
    (baselines, classes)
}

fn encoded() -> Vec<u8> {
    let (baselines, classes) = model();
    encode_multiclass_trees_payload("multiclass_softmax", 3, 4, &baselines, &classes, &LIMITS).unwrap()
}

fn is_violation<T>(r: Result<T, EngineError>) -> bool {
    matches!(r, Err(EngineError::ContractViolation(_)))
}

#[test]
fn multiclass_payload_round_trip() {
    let (baselines, classes) = model();
    let bytes = encoded();
    assert_eq!(bytes.len(), 12 + 8 * 3 + 32 * 5);
    let decoded = decode_multiclass_trees_payload(&bytes, &LIMITS).unwrap();
    assert_eq!(decoded.num_classes, 3);
    assert_eq!(decoded.feature_count, 4);
    assert_eq!(decoded.baseline_bits, baselines);
    assert_eq!(decoded.class_stumps, classes);
    assert_eq!(decoded.rounds_completed(), 3);
}

#[test]
fn multiclass_payload_layout_is_class_major() {
    let bytes = encoded();
    assert_eq!(&bytes[4..8], &3u32.to_le_bytes());
    assert_eq!(&bytes[8..12], &4u32.to_le_bytes());
    assert_eq!(&bytes[12..16], &0.1f32.to_le_bytes());
    assert_eq!(&bytes[24..28], &2u32.to_le_bytes());
    assert_eq!(&bytes[28..32], &0u32.to_le_bytes());
    assert_eq!(&bytes[32..36], &3u32.to_le_bytes());
    assert_eq!(&bytes[36 + 64..36 + 68], &0x10_0000u32.to_le_bytes());
}

#[test]
fn multiclass_encode_rejects_invalid_models() {
    let (baselines, classes) = model();
    assert!(is_violation(encode_multiclass_trees_payload("softmax", 3, 4, &baselines, &classes, &LIMITS)));
    assert!(is_violation(encode_multiclass_trees_payload("multiclass_softmax", 1, 4, &baselines[..1].to_vec(), &classes[..1].to_vec(), &LIMITS)));
    assert!(is_violation(encode_multiclass_trees_payload("multiclass_softmax", 3, 0, &baselines, &classes, &LIMITS)));
    assert!(is_violation(encode_multiclass_trees_payload("multiclass_softmax", 3, 3, &baselines, &classes, &LIMITS)));
    assert!(is_violation(encode_multiclass_trees_payload("multiclass_softmax", 2, 4, &baselines, &classes, &LIMITS)));
    let mut nan_baseline = baselines.clone();
    nan_baseline[1] = f32::NAN.to_bits();
    assert!(is_violation(encode_multiclass_trees_payload("multiclass_softmax", 3, 4, &nan_baseline, &classes, &LIMITS)));
    let mut inf_leaf = classes.clone();
    inf_leaf[2][1].right_leaf_bits = f32::INFINITY.to_bits();
    assert!(is_violation(encode_multiclass_trees_payload("multiclass_softmax", 3, 4, &baselines, &inf_leaf, &LIMITS)));
    let tight = ModelLimits { max_classes: 16, max_features: 64, max_stumps: 4 };
    assert!(is_violation(encode_multiclass_trees_payload("multiclass_softmax", 3, 4, &baselines, &classes, &tight)));
}

#[test]
fn multiclass_decode_rejects_corrupt_payloads() {
    let bytes = encoded();
    assert!(is_violation(decode_multiclass_trees_payload(&bytes[..11], &LIMITS)));
    assert!(is_violation(decode_multiclass_trees_payload(&bytes[..bytes.len() - 1], &LIMITS)));
    let mut bad_version = bytes.clone();
    bad_version[0] = 9;
    assert!(is_violation(decode_multiclass_trees_payload(&bad_version, &LIMITS)));
    let mut bad_flags = bytes.clone();
    bad_flags[36 + 10] = 4;
    assert!(is_violation(decode_multiclass_trees_payload(&bad_flags, &LIMITS)));
    let mut bad_feature = bytes.clone();
    bad_feature[36 + 4] = 4;
    assert!(is_violation(decode_multiclass_trees_payload(&bad_feature, &LIMITS)));
    let mut nan_gain = bytes.clone();
    nan_gain[36 + 12..36 + 16].copy_from_slice(&f32::NAN.to_le_bytes());
    assert!(is_violation(decode_multiclass_trees_payload(&nan_gain, &LIMITS)));
    let mut inf_baseline = bytes.clone();
    inf_baseline[16..20].copy_from_slice(&f32::INFINITY.to_le_bytes());
    assert!(is_violation(decode_multiclass_trees_payload(&inf_baseline, &LIMITS)));
    let few_classes = ModelLimits { max_classes: 2, max_features: 64, max_stumps: 100 };
    assert!(is_violation(decode_multiclass_trees_payload(&bytes, &few_classes)));
    let few_stumps = ModelLimits { max_classes: 16, max_features: 64, max_stumps: 4 };
    assert!(is_violation(decode_multiclass_trees_payload(&bytes, &few_stumps)));
}

fn section(kind: SectionKind, payload: Vec<u8>) -> ArtifactSection {
    ArtifactSection { kind, payload }
}

#[test]
fn multiclass_sections_decode_consistent_artifact() {
    let sections = vec![
        section(SectionKind::MultiClassTrees, encoded()),
        section(SectionKind::PredictorLayout, encode_predictor_layout_payload(4).unwrap()),
    ];
    let decoded =
        multiclass_trees_from_sections("multiclass_softmax", Some(3), 4, &sections, &LIMITS).unwrap();
    assert_eq!(decoded.num_classes, 3);
    assert_eq!(decoded.class_stumps, model().1);
}

#[test]
fn multiclass_sections_reject_inconsistencies() {
    let good = vec![
        section(SectionKind::MultiClassTrees, encoded()),
        section(SectionKind::PredictorLayout, encode_predictor_layout_payload(4).unwrap()),
    ];
    assert!(is_violation(multiclass_trees_from_sections("binary", Some(3), 4, &good, &LIMITS)));
    assert!(is_violation(multiclass_trees_from_sections("multiclass_softmax", Some(2), 4, &good, &LIMITS)));
    assert!(is_violation(multiclass_trees_from_sections("multiclass_softmax", None, 4, &good, &LIMITS)));
    assert!(is_violation(multiclass_trees_from_sections("multiclass_softmax", Some(3), 5, &good, &LIMITS)));
    let wrong_layout = vec![
        section(SectionKind::MultiClassTrees, encoded()),
        section(SectionKind::PredictorLayout, encode_predictor_layout_payload(5).unwrap()),
    ];
    assert!(is_violation(multiclass_trees_from_sections("multiclass_softmax", Some(3), 4, &wrong_layout, &LIMITS)));
    let missing_layout = vec![section(SectionKind::MultiClassTrees, encoded())];
    assert!(is_violation(multiclass_trees_from_sections("multiclass_softmax", Some(3), 4, &missing_layout, &LIMITS)));
    let duplicate_trees = vec![
        section(SectionKind::MultiClassTrees, encoded()),
        section(SectionKind::PredictorLayout, encode_predictor_layout_payload(4).unwrap()),
        section(SectionKind::MultiClassTrees, encoded()),
    ];
    assert!(is_violation(multiclass_trees_from_sections("multiclass_softmax", Some(3), 4, &duplicate_trees, &LIMITS)));
}

#[test]
fn single_section_lookup() {
    let sections = vec![
        section(SectionKind::Trees, vec![1]),
        section(SectionKind::PredictorLayout, vec![2]),
        section(SectionKind::Trees, vec![3]),
    ];
    assert!(optional_single_section(&sections, SectionKind::NodeDebugStats).unwrap().is_none());
    assert_eq!(optional_single_section(&sections, SectionKind::PredictorLayout).unwrap().unwrap().payload, vec![2]);
    assert!(is_violation(optional_single_section(&sections, SectionKind::Trees)));
    assert_eq!(required_single_section(&sections, SectionKind::PredictorLayout).unwrap().payload, vec![2]);
    assert!(is_violation(required_single_section(&sections, SectionKind::NodeDebugStats)));
    assert!(is_violation(required_single_section(&sections, SectionKind::Trees)));
}

#[test]
fn predictor_layout_resolution() {
    let with_layout = vec![
        section(SectionKind::Trees, vec![]),
        section(SectionKind::PredictorLayout, encode_predictor_layout_payload(9).unwrap()),
    ];
    assert_eq!(resolve_predictor_layout(&with_layout, 3, ArtifactCompatibilityMode::Strict).unwrap().feature_count, 9);
    let legacy = vec![section(SectionKind::Trees, vec![])];
    assert_eq!(
        resolve_predictor_layout(&legacy, 3, ArtifactCompatibilityMode::AllowLegacyTreesOnly).unwrap().feature_count,
        3
    );
    assert!(is_violation(resolve_predictor_layout(&legacy, 3, ArtifactCompatibilityMode::Strict)));
    let legacy_plus = vec![section(SectionKind::Trees, vec![]), section(SectionKind::NodeDebugStats, vec![])];
    assert!(is_violation(resolve_predictor_layout(&legacy_plus, 3, ArtifactCompatibilityMode::AllowLegacyTreesOnly)));
    let duplicated = vec![
        section(SectionKind::PredictorLayout, encode_predictor_layout_payload(9).unwrap()),
        section(SectionKind::PredictorLayout, encode_predictor_layout_payload(9).unwrap()),
    ];
    assert!(is_violation(resolve_predictor_layout(&duplicated, 3, ArtifactCompatibilityMode::AllowLegacyTreesOnly)));
}

#[test]
fn optional_node_debug_stats_section() {
    let none = vec![section(SectionKind::Trees, vec![])];
    assert_eq!(decode_optional_node_debug_stats_section(&none).unwrap(), None);
    let empty_stats = {
        let mut b = 1u32.to_le_bytes().to_vec();
        b.extend_from_slice(&0u32.to_le_bytes());
        b
    };
    let some = vec![section(SectionKind::NodeDebugStats, empty_stats)];
    assert_eq!(decode_optional_node_debug_stats_section(&some).unwrap(), Some(vec![]));
    let broken = vec![section(SectionKind::NodeDebugStats, vec![1, 0, 0])];
    assert!(is_violation(decode_optional_node_debug_stats_section(&broken)));
}

#[test]
fn global_stump_numbering_is_class_major() {
    let counts = vec![2usize, 0, 3];
    assert_eq!(global_stump_index(&counts, 0, 1), 1);
    assert_eq!(global_stump_index(&counts, 2, 0), 2);
    assert_eq!(global_stump_index(&counts, 2, 2), 4);
    assert_eq!(class_stump_position(&counts, 0), Some((0, 0)));
    assert_eq!(class_stump_position(&counts, 1), Some((0, 1)));
    assert_eq!(class_stump_position(&counts, 2), Some((2, 0)));
    assert_eq!(class_stump_position(&counts, 4), Some((2, 2)));
    assert_eq!(class_stump_position(&counts, 5), None);
    for (k, &c) in counts.iter().enumerate() {
        for i in 0..c {
            assert_eq!(class_stump_position(&counts, global_stump_index(&counts, k, i)), Some((k, i)));
        }
    }
}

#[test]
fn linear_leaf_features_must_exist() {
    assert_eq!(validate_multiclass_linear_leaf_features(&[0, 2, 1], 3, 0), Ok(()));
    assert_eq!(validate_multiclass_linear_leaf_features(&[], 0, 0), Ok(()));
    assert!(is_violation(validate_multiclass_linear_leaf_features(&[0, 3], 3, 7)));
}
