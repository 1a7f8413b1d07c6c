use alloygbm_engine::artifact::{
    decode_node_debug_stats_payload, decode_predictor_layout_payload,
    decode_trained_model_payload, encode_node_debug_stats_payload,
    encode_predictor_layout_payload, encode_trained_model_payload, NodeDebugStatsRecord,
    StumpRecord, MODEL_FORMAT_V1,
};
use alloygbm_engine::bytes::{
    f32_bits_finite, push_u16_le, push_u32_le, read_f32_bits_le, read_u16_le, read_u32_le,
};
use alloygbm_engine::error::EngineError;

fn stump(node_id: u32, feature_index: u32, default_left: bool, is_categorical: bool) -> StumpRecord {
    StumpRecord {
        node_id,
        feature_index,
        threshold_bin: 7,
        default_left,
        is_categorical,
        gain_bits: 2.5f32.to_bits(),
        left_leaf_bits: (-0.25f32).to_bits(),
        right_leaf_bits: 0.75f32.to_bits(),
        left_count: 10,
        right_count: 12,
    }
}

#[test]
fn little_endian_readers_match_std() {
    let bytes = vec![0x78, 0x56, 0x34, 0x12, 0xcd, 0xab];
    assert_eq!(read_u32_le(&bytes, 0), Ok(0x1234_5678));
    assert_eq!(read_u16_le(&bytes, 4), Ok(0xabcd));
    assert_eq!(read_u32_le(&bytes, 2), Ok(u32::from_le_bytes([0x34, 0x12, 0xcd, 0xab])));
    assert!(matches!(read_u32_le(&bytes, 3), Err(EngineError::ContractViolation(_))));
    assert!(matches!(read_u16_le(&bytes, 5), Err(EngineError::ContractViolation(_))));
    let f = 1.5f32.to_le_bytes();
    assert_eq!(read_f32_bits_le(&f, 0), Ok(1.5f32.to_bits()));
    assert!(matches!(read_f32_bits_le(&f, 1), Err(EngineError::ContractViolation(_))));
}

#[test]
fn little_endian_writers_match_std() {
    let mut out = Vec::new();
    push_u32_le(&mut out, 0xdead_beef);
    push_u16_le(&mut out, 0x0102);
    let mut expected = 0xdead_beefu32.to_le_bytes().to_vec();
    expected.extend_from_slice(&0x0102u16.to_le_bytes());
    assert_eq!(out, expected);
}

#[test]
fn finiteness_of_bit_patterns() {
    assert!(f32_bits_finite(0.0f32.to_bits()));
    assert!(f32_bits_finite((-3.25f32).to_bits()));
    assert!(f32_bits_finite(f32::MAX.to_bits()));
    assert!(!f32_bits_finite(f32::INFINITY.to_bits()));
    assert!(!f32_bits_finite(f32::NEG_INFINITY.to_bits()));
    assert!(!f32_bits_finite(f32::NAN.to_bits()));
}

#[test]
fn predictor_layout_round_trip() {
    let bytes = encode_predictor_layout_payload(17).unwrap();
    let mut expected = MODEL_FORMAT_V1.to_le_bytes().to_vec();
    expected.extend_from_slice(&17u32.to_le_bytes());
    expected.extend_from_slice(&1u32.to_le_bytes());
    assert_eq!(bytes, expected);
    assert_eq!(decode_predictor_layout_payload(&bytes).unwrap().feature_count, 17);
}

#[test]
fn predictor_layout_rejects_bad_payloads() {
    let good = encode_predictor_layout_payload(3).unwrap();
    assert!(matches!(
        decode_predictor_layout_payload(&good[..11]),
        Err(EngineError::ContractViolation(_))
    ));
    let mut bad_version = good.clone();
    bad_version[0] = 2;
    assert!(matches!(
        decode_predictor_layout_payload(&bad_version),
        Err(EngineError::ContractViolation(_))
    ));
    let mut bad_mode = good.clone();
    bad_mode[8] = 0;
    assert!(matches!(
        decode_predictor_layout_payload(&bad_mode),
        Err(EngineError::ContractViolation(_))
    ));
}

#[test]
fn trees_payload_round_trip() {
    let stumps = vec![stump(0, 1, true, false), stump(1, 0, false, true), stump(0x10_0000, 2, true, true)];
    let baseline = 0.125f32.to_bits();
    let bytes = encode_trained_model_payload(3, baseline, &stumps).unwrap();
    assert_eq!(bytes.len(), 16 + 32 * 3);
    let decoded = decode_trained_model_payload(&bytes).unwrap();
    assert_eq!(decoded.feature_count, 3);
    assert_eq!(decoded.baseline_bits, baseline);
    assert_eq!(decoded.stumps, stumps);
}

#[test]
fn trees_payload_layout_is_fixed() {
    let bytes = encode_trained_model_payload(5, 0, &vec![stump(9, 4, true, true)]).unwrap();
    assert_eq!(&bytes[0..4], &1u32.to_le_bytes());
    assert_eq!(&bytes[4..8], &5u32.to_le_bytes());
    assert_eq!(&bytes[8..12], &1u32.to_le_bytes());
    assert_eq!(&bytes[16..20], &9u32.to_le_bytes());
    assert_eq!(&bytes[20..24], &4u32.to_le_bytes());
    assert_eq!(&bytes[24..26], &7u16.to_le_bytes());
    assert_eq!(&bytes[26..28], &3u16.to_le_bytes());
    assert_eq!(&bytes[28..32], &2.5f32.to_le_bytes());
    assert_eq!(&bytes[40..44], &10u32.to_le_bytes());
    assert_eq!(&bytes[44..48], &12u32.to_le_bytes());
}

#[test]
fn trees_payload_rejects_wrong_length_and_version() {
    let bytes = encode_trained_model_payload(2, 0, &vec![stump(0, 0, true, false)]).unwrap();
    assert!(matches!(
        decode_trained_model_payload(&bytes[..bytes.len() - 1]),
        Err(EngineError::ContractViolation(_))
    ));
    assert!(matches!(decode_trained_model_payload(&bytes[..8]), Err(EngineError::ContractViolation(_))));
    let mut bad = bytes.clone();
    bad[0] = 0;
    assert!(matches!(decode_trained_model_payload(&bad), Err(EngineError::ContractViolation(_))));
}

#[test]
fn node_debug_stats_round_trip() {
    let records = vec![
        NodeDebugStatsRecord {
            node_id: 0,
            feature_index: 3,
            threshold_bin: 12,
            default_left: true,
            gain_bits: 1.0f32.to_bits(),
            left_grad_sum_bits: (-2.0f32).to_bits(),
            left_hess_sum_bits: 3.0f32.to_bits(),
            left_row_count: 4,
            right_grad_sum_bits: 5.0f32.to_bits(),
            right_hess_sum_bits: 6.0f32.to_bits(),
            right_row_count: 7,
        },
        NodeDebugStatsRecord {
            node_id: 2,
            feature_index: 0,
            threshold_bin: 1,
            default_left: false,
            gain_bits: 0,
            left_grad_sum_bits: 0,
            left_hess_sum_bits: 0,
            left_row_count: 0,
            right_grad_sum_bits: 0,
            right_hess_sum_bits: 0,
            right_row_count: 9,
        },
    ];
    let bytes = encode_node_debug_stats_payload(&records).unwrap();
    assert_eq!(bytes.len(), 8 + 40 * 2);
    assert_eq!(&bytes[4..8], &2u32.to_le_bytes());
    assert_eq!(&bytes[18..20], &1u16.to_le_bytes());
    assert_eq!(decode_node_debug_stats_payload(&bytes).unwrap(), records);
}

#[test]
fn node_debug_stats_rejects_truncated_payload() {
    let bytes = encode_node_debug_stats_payload(&vec![]).unwrap();
    assert_eq!(bytes.len(), 8);
    assert_eq!(decode_node_debug_stats_payload(&bytes).unwrap(), vec![]);
    assert!(matches!(
        decode_node_debug_stats_payload(&bytes[..7]),
        Err(EngineError::ContractViolation(_))
    ));
    let mut claims_one = bytes.clone();
    claims_one[4] = 1;
    assert!(matches!(
        decode_node_debug_stats_payload(&claims_one),
        Err(EngineError::ContractViolation(_))
    ));
}
