//! Artifact section payload codecs.
//!
//! Payloads are little-endian. Floating-point fields (gains, leaf values,
//! gradient sums) travel as their IEEE-754 bit patterns: the codec moves bits
//! and never interprets them, apart from the finiteness test of the
//! multi-class decoder, which reads the exponent field.

use vstd::prelude::*;

use crate::bytes::{
    lemma_u16_round_trip, lemma_u32_round_trip, push_u16_le, push_u32_le, spec_read_u16,
    spec_read_u32, spec_u16_bytes, spec_u32_bytes,
};
use crate::error::{text_with_two_values, text_with_value, EngineError};

verus! {

/// Payload format version written and accepted by this engine.
pub const MODEL_FORMAT_V1: u32 = 1;

/// Predictor thresholds are bin indices.
pub const THRESHOLD_MODE_BIN_INDEX: u32 = 1;

/// Reads the `u32` at `pos`, which must lie inside `bytes`.
pub(crate) fn u32_at(bytes: &[u8], pos: usize) -> (r: u32)
    requires
        pos + 4 <= bytes@.len(),
    ensures
        r == spec_read_u32(bytes@, pos as int),
{
    (bytes[pos] as u32) | ((bytes[pos + 1] as u32) << 8u32) | ((bytes[pos + 2] as u32) << 16u32)
        | ((bytes[pos + 3] as u32) << 24u32)
}

/// Reads the `u16` at `pos`, which must lie inside `bytes`.
pub(crate) fn u16_at(bytes: &[u8], pos: usize) -> (r: u16)
    requires
        pos + 2 <= bytes@.len(),
    ensures
        r == spec_read_u16(bytes@, pos as int),
{
    (bytes[pos] as u16) | ((bytes[pos + 1] as u16) << 8u16)
}

/// The 4 bytes at `pos` encode `x`, so reading them gives back `x`.
pub(crate) proof fn lemma_read_u32_at(bytes: Seq<u8>, pos: int, x: u32)
    requires
        0 <= pos,
        pos + 4 <= bytes.len(),
        bytes.subrange(pos, pos + 4) == spec_u32_bytes(x),
    ensures
        spec_read_u32(bytes, pos) == x,
{
    assert(bytes[pos] == bytes.subrange(pos, pos + 4)[0]);
    assert(bytes[pos + 1] == bytes.subrange(pos, pos + 4)[1]);
    assert(bytes[pos + 2] == bytes.subrange(pos, pos + 4)[2]);
    assert(bytes[pos + 3] == bytes.subrange(pos, pos + 4)[3]);
    lemma_u32_round_trip(x);
}

proof fn lemma_read_u16_at(bytes: Seq<u8>, pos: int, x: u16)
    requires
        0 <= pos,
        pos + 2 <= bytes.len(),
        bytes.subrange(pos, pos + 2) == spec_u16_bytes(x),
    ensures
        spec_read_u16(bytes, pos) == x,
{
    assert(bytes[pos] == bytes.subrange(pos, pos + 2)[0]);
    assert(bytes[pos + 1] == bytes.subrange(pos, pos + 2)[1]);
    lemma_u16_round_trip(x);
}

// ---------------------------------------------------------------------------
// Predictor layout
// ---------------------------------------------------------------------------
/// Decoded PredictorLayout section.
#[derive(Debug, Clone, Copy, PartialEq, Eq)]
pub struct PredictorLayoutPayload {
    pub feature_count: usize,
}

pub open spec fn spec_predictor_layout_bytes(feature_count: u32) -> Seq<u8> {
    spec_u32_bytes(MODEL_FORMAT_V1) + spec_u32_bytes(feature_count) + spec_u32_bytes(
        THRESHOLD_MODE_BIN_INDEX,
    )
}

/// Encodes the PredictorLayout section: format version, feature count,
/// threshold mode. A feature count above `u32::MAX` is a contract violation.
pub fn encode_predictor_layout_payload(feature_count: usize) -> (r: Result<Vec<u8>, EngineError>)
    ensures
        r is Ok <==> feature_count <= u32::MAX,
        r matches Ok(bytes) ==> bytes@ == spec_predictor_layout_bytes(feature_count as u32),
        r matches Err(e) ==> e is ContractViolation,
{
    if feature_count > u32::MAX as usize {
        return Err(EngineError::ContractViolation("feature_count exceeds u32::MAX".to_string()));
    }
    let mut bytes: Vec<u8> = Vec::new();
    push_u32_le(&mut bytes, MODEL_FORMAT_V1);
    push_u32_le(&mut bytes, feature_count as u32);
    push_u32_le(&mut bytes, THRESHOLD_MODE_BIN_INDEX);
    Ok(bytes)
}

/// The PredictorLayout payload decodes: 12 bytes, version 1, bin-index mode.
pub open spec fn spec_predictor_layout_ok(bytes: Seq<u8>) -> bool {
    &&& bytes.len() == 12
    &&& spec_read_u32(bytes, 0) == MODEL_FORMAT_V1
    &&& spec_read_u32(bytes, 8) == THRESHOLD_MODE_BIN_INDEX
}

/// Decodes the PredictorLayout section.
pub fn decode_predictor_layout_payload(bytes: &[u8]) -> (r: Result<PredictorLayoutPayload, EngineError>)
    ensures
        r is Ok <==> spec_predictor_layout_ok(bytes@),
        r matches Ok(p) ==> p.feature_count == spec_read_u32(bytes@, 4),
        r matches Err(e) ==> e is ContractViolation,
{
    if bytes.len() != 12 {
        return Err(
            EngineError::ContractViolation(
                text_with_value(
                    "predictor layout payload length ",
                    bytes.len() as u64,
                    " does not match expected 12",
                ),
            ),
        );
    }
    let format_version = u32_at(bytes, 0);
    if format_version != MODEL_FORMAT_V1 {
        return Err(
            EngineError::ContractViolation(
                text_with_value(
                    "unsupported predictor layout format version ",
                    format_version as u64,
                    "",
                ),
            ),
        );
    }
    let feature_count = u32_at(bytes, 4) as usize;
    let threshold_mode = u32_at(bytes, 8);
    if threshold_mode != THRESHOLD_MODE_BIN_INDEX {
        return Err(
            EngineError::ContractViolation(
                text_with_value(
                    "unsupported predictor layout threshold mode ",
                    threshold_mode as u64,
                    "",
                ),
            ),
        );
    }
    Ok(PredictorLayoutPayload { feature_count })
}

/// Decoding an encoded PredictorLayout gives back its feature count.
pub proof fn lemma_predictor_layout_round_trip(feature_count: u32)
    ensures
        spec_predictor_layout_ok(spec_predictor_layout_bytes(feature_count)),
        spec_read_u32(spec_predictor_layout_bytes(feature_count), 4) == feature_count,
{
    let b = spec_predictor_layout_bytes(feature_count);
    assert(b.subrange(0, 4) =~= spec_u32_bytes(MODEL_FORMAT_V1));
    assert(b.subrange(4, 8) =~= spec_u32_bytes(feature_count));
    assert(b.subrange(8, 12) =~= spec_u32_bytes(THRESHOLD_MODE_BIN_INDEX));
    lemma_read_u32_at(b, 0, MODEL_FORMAT_V1);
    lemma_read_u32_at(b, 4, feature_count);
    lemma_read_u32_at(b, 8, THRESHOLD_MODE_BIN_INDEX);
}

// ---------------------------------------------------------------------------
// Stump records (Trees and MultiClassTrees sections)
// ---------------------------------------------------------------------------
/// One scalar-leaf stump as stored in a trees payload (32 bytes).
#[derive(Debug, Clone, Copy, PartialEq, Eq)]
pub struct StumpRecord {
    pub node_id: u32,
    pub feature_index: u32,
    pub threshold_bin: u16,
    pub default_left: bool,
    pub is_categorical: bool,
    pub gain_bits: u32,
    pub left_leaf_bits: u32,
    pub right_leaf_bits: u32,
    pub left_count: u32,
    pub right_count: u32,
}

pub const STUMP_RECORD_SIZE: usize = 32;

pub open spec fn spec_stump_flags(r: StumpRecord) -> u16 {
    (if r.default_left {
        1u16
    } else {
        0u16
    }) | (if r.is_categorical {
        2u16
    } else {
        0u16
    })
}

pub open spec fn spec_encode_stump(r: StumpRecord) -> Seq<u8> {
    spec_u32_bytes(r.node_id) + spec_u32_bytes(r.feature_index) + spec_u16_bytes(r.threshold_bin)
        + spec_u16_bytes(spec_stump_flags(r)) + spec_u32_bytes(r.gain_bits) + spec_u32_bytes(
        r.left_leaf_bits,
    ) + spec_u32_bytes(r.right_leaf_bits) + spec_u32_bytes(r.left_count) + spec_u32_bytes(
        r.right_count,
    )
}

/// The stump record stored at `base`.
pub open spec fn spec_decode_stump(bytes: Seq<u8>, base: int) -> StumpRecord {
    let flags = spec_read_u16(bytes, base + 10);
    StumpRecord {
        node_id: spec_read_u32(bytes, base),
        feature_index: spec_read_u32(bytes, base + 4),
        threshold_bin: spec_read_u16(bytes, base + 8),
        default_left: flags & 1 != 0,
        is_categorical: flags & 2 != 0,
        gain_bits: spec_read_u32(bytes, base + 12),
        left_leaf_bits: spec_read_u32(bytes, base + 16),
        right_leaf_bits: spec_read_u32(bytes, base + 20),
        left_count: spec_read_u32(bytes, base + 24),
        right_count: spec_read_u32(bytes, base + 28),
    }
}

/// The raw flag field of the record at `base`.
pub open spec fn spec_stump_flags_at(bytes: Seq<u8>, base: int) -> u16 {
    spec_read_u16(bytes, base + 10)
}

pub(crate) fn encode_stump(out: &mut Vec<u8>, r: &StumpRecord)
    ensures
        final(out)@ == old(out)@ + spec_encode_stump(*r),
{
    let flags: u16 = (if r.default_left {
        1u16
    } else {
        0u16
    }) | (if r.is_categorical {
        2u16
    } else {
        0u16
    });
    push_u32_le(out, r.node_id);
    push_u32_le(out, r.feature_index);
    push_u16_le(out, r.threshold_bin);
    push_u16_le(out, flags);
    push_u32_le(out, r.gain_bits);
    push_u32_le(out, r.left_leaf_bits);
    push_u32_le(out, r.right_leaf_bits);
    push_u32_le(out, r.left_count);
    push_u32_le(out, r.right_count);
    assert(out@ =~= old(out)@ + spec_encode_stump(*r));
}

pub(crate) fn decode_stump(bytes: &[u8], base: usize) -> (r: StumpRecord)
    requires
        base + 32 <= bytes@.len(),
    ensures
        r == spec_decode_stump(bytes@, base as int),
{
    assert(bytes@.len() == bytes.len());
    let flags = u16_at(bytes, base + 10);
    StumpRecord {
        node_id: u32_at(bytes, base),
        feature_index: u32_at(bytes, base + 4),
        threshold_bin: u16_at(bytes, base + 8),
        default_left: flags & 1 != 0,
        is_categorical: flags & 2 != 0,
        gain_bits: u32_at(bytes, base + 12),
        left_leaf_bits: u32_at(bytes, base + 16),
        right_leaf_bits: u32_at(bytes, base + 20),
        left_count: u32_at(bytes, base + 24),
        right_count: u32_at(bytes, base + 28),
    }
}

/// Reading a record from its encoding gives the record back.
proof fn lemma_stump_round_trip(bytes: Seq<u8>, base: int, r: StumpRecord)
    requires
        0 <= base,
        base + 32 <= bytes.len(),
        bytes.subrange(base, base + 32) == spec_encode_stump(r),
    ensures
        spec_decode_stump(bytes, base) == r,
        spec_stump_flags_at(bytes, base) == spec_stump_flags(r),
{
    let e = spec_encode_stump(r);
    assert(bytes.subrange(base, base + 4) =~= e.subrange(0, 4));
    assert(bytes.subrange(base + 4, base + 8) =~= e.subrange(4, 8));
    assert(bytes.subrange(base + 8, base + 10) =~= e.subrange(8, 10));
    assert(bytes.subrange(base + 10, base + 12) =~= e.subrange(10, 12));
    assert(bytes.subrange(base + 12, base + 16) =~= e.subrange(12, 16));
    assert(bytes.subrange(base + 16, base + 20) =~= e.subrange(16, 20));
    assert(bytes.subrange(base + 20, base + 24) =~= e.subrange(20, 24));
    assert(bytes.subrange(base + 24, base + 28) =~= e.subrange(24, 28));
    assert(bytes.subrange(base + 28, base + 32) =~= e.subrange(28, 32));
    assert(e.subrange(0, 4) =~= spec_u32_bytes(r.node_id));
    assert(e.subrange(4, 8) =~= spec_u32_bytes(r.feature_index));
    assert(e.subrange(8, 10) =~= spec_u16_bytes(r.threshold_bin));
    assert(e.subrange(10, 12) =~= spec_u16_bytes(spec_stump_flags(r)));
    assert(e.subrange(12, 16) =~= spec_u32_bytes(r.gain_bits));
    assert(e.subrange(16, 20) =~= spec_u32_bytes(r.left_leaf_bits));
    assert(e.subrange(20, 24) =~= spec_u32_bytes(r.right_leaf_bits));
    assert(e.subrange(24, 28) =~= spec_u32_bytes(r.left_count));
    assert(e.subrange(28, 32) =~= spec_u32_bytes(r.right_count));
    lemma_read_u32_at(bytes, base, r.node_id);
    lemma_read_u32_at(bytes, base + 4, r.feature_index);
    lemma_read_u16_at(bytes, base + 8, r.threshold_bin);
    lemma_read_u16_at(bytes, base + 10, spec_stump_flags(r));
    lemma_read_u32_at(bytes, base + 12, r.gain_bits);
    lemma_read_u32_at(bytes, base + 16, r.left_leaf_bits);
    lemma_read_u32_at(bytes, base + 20, r.right_leaf_bits);
    lemma_read_u32_at(bytes, base + 24, r.left_count);
    lemma_read_u32_at(bytes, base + 28, r.right_count);
    let f = spec_stump_flags(r);
    let dl = r.default_left;
    let cat = r.is_categorical;
    assert(((if dl { 1u16 } else { 0u16 }) | (if cat { 2u16 } else { 0u16 })) & 1 != 0 <==> dl)
        by (bit_vector);
    assert(((if dl { 1u16 } else { 0u16 }) | (if cat { 2u16 } else { 0u16 })) & 2 != 0 <==> cat)
        by (bit_vector);
}

/// Concatenated encodings of `recs`.
pub open spec fn spec_encode_stumps(recs: Seq<StumpRecord>) -> Seq<u8>
    decreases recs.len(),
{
    if recs.len() == 0 {
        Seq::empty()
    } else {
        spec_encode_stumps(recs.drop_last()) + spec_encode_stump(recs.last())
    }
}

pub(crate) proof fn lemma_encode_stumps_layout(recs: Seq<StumpRecord>)
    ensures
        spec_encode_stumps(recs).len() == 32 * recs.len(),
        forall|i: int|
            0 <= i < recs.len() ==> #[trigger] spec_encode_stumps(recs).subrange(32 * i, 32 * i + 32)
                == spec_encode_stump(recs[i]),
    decreases recs.len(),
{
    if recs.len() > 0 {
        let prev = recs.drop_last();
        lemma_encode_stumps_layout(prev);
        let all = spec_encode_stumps(recs);
        let n = recs.len() - 1;
        assert forall|i: int| 0 <= i < recs.len() implies #[trigger] all.subrange(32 * i, 32 * i + 32)
            == spec_encode_stump(recs[i]) by {
            if i < n {
                assert(all.subrange(32 * i, 32 * i + 32) =~= spec_encode_stumps(prev).subrange(
                    32 * i,
                    32 * i + 32,
                ));
                assert(prev[i] == recs[i]);
            } else {
                assert(all.subrange(32 * i, 32 * i + 32) =~= spec_encode_stump(recs.last()));
            }
        }
    }
}

/// The records stored back to back from `start`.
pub open spec fn spec_decode_stumps(bytes: Seq<u8>, start: int, count: nat) -> Seq<StumpRecord> {
    Seq::new(count, |i: int| spec_decode_stump(bytes, start + 32 * i))
}

/// Decoding records laid out by [`spec_encode_stumps`] gives them back.
pub(crate) proof fn lemma_stumps_round_trip(bytes: Seq<u8>, start: int, recs: Seq<StumpRecord>)
    requires
        0 <= start,
        start + 32 * recs.len() <= bytes.len(),
        bytes.subrange(start, start + 32 * recs.len()) == spec_encode_stumps(recs),
    ensures
        spec_decode_stumps(bytes, start, recs.len()) == recs,
        forall|i: int|
            0 <= i < recs.len() ==> spec_stump_flags_at(bytes, start + 32 * i) == spec_stump_flags(
                #[trigger] recs[i],
            ),
{
    lemma_encode_stumps_layout(recs);
    assert forall|i: int| 0 <= i < recs.len() implies spec_decode_stump(bytes, start + 32 * i)
        == recs[i] && spec_stump_flags_at(bytes, start + 32 * i) == spec_stump_flags(
        #[trigger] recs[i],
    ) by {
        assert(bytes.subrange(start + 32 * i, start + 32 * i + 32) =~= spec_encode_stumps(
            recs,
        ).subrange(32 * i, 32 * i + 32));
        lemma_stump_round_trip(bytes, start + 32 * i, recs[i]);
    }
    assert(spec_decode_stumps(bytes, start, recs.len()) =~= recs);
}

// ---------------------------------------------------------------------------
// Trees section (single-output scalar model)
// ---------------------------------------------------------------------------
/// Decoded single-output Trees section.
#[derive(Debug, Clone, PartialEq, Eq)]
pub struct TreesPayload {
    pub feature_count: usize,
    pub baseline_bits: u32,
    pub stumps: Vec<StumpRecord>,
}

pub open spec fn spec_trees_bytes(feature_count: u32, baseline_bits: u32, stumps: Seq<StumpRecord>) -> Seq<u8> {
    spec_u32_bytes(MODEL_FORMAT_V1) + spec_u32_bytes(feature_count) + spec_u32_bytes(
        stumps.len() as u32,
    ) + spec_u32_bytes(baseline_bits) + spec_encode_stumps(stumps)
}

/// Encodes the Trees section: version, feature count, stump count, baseline,
/// then one 32-byte record per stump. Counts above `u32::MAX` are contract
/// violations.
pub fn encode_trained_model_payload(feature_count: usize, baseline_bits: u32, stumps: &Vec<StumpRecord>) -> (r:
    Result<Vec<u8>, EngineError>)
    ensures
        r is Ok <==> feature_count <= u32::MAX && stumps@.len() <= u32::MAX,
        r matches Ok(bytes) ==> bytes@ == spec_trees_bytes(
            feature_count as u32,
            baseline_bits,
            stumps@,
        ),
        r matches Err(e) ==> e is ContractViolation,
{
    if feature_count > u32::MAX as usize {
        return Err(EngineError::ContractViolation("feature_count exceeds u32::MAX".to_string()));
    }
    if stumps.len() > u32::MAX as usize {
        return Err(EngineError::ContractViolation("stump count exceeds u32::MAX".to_string()));
    }
    let mut bytes: Vec<u8> = Vec::new();
    push_u32_le(&mut bytes, MODEL_FORMAT_V1);
    push_u32_le(&mut bytes, feature_count as u32);
    push_u32_le(&mut bytes, stumps.len() as u32);
    push_u32_le(&mut bytes, baseline_bits);
    let ghost header = bytes@;
    let mut i: usize = 0;
    while i < stumps.len()
        invariant
            i <= stumps@.len(),
            bytes@ == header + spec_encode_stumps(stumps@.subrange(0, i as int)),
        decreases stumps.len() - i,
    {
        encode_stump(&mut bytes, &stumps[i]);
        proof {
            let s = stumps@.subrange(0, i as int + 1);
            assert(s.drop_last() =~= stumps@.subrange(0, i as int));
            assert(s.last() == stumps@[i as int]);
        }
        assert(bytes@ =~= header + spec_encode_stumps(stumps@.subrange(0, i as int + 1)));
        i = i + 1;
    }
    assert(stumps@.subrange(0, stumps@.len() as int) =~= stumps@);
    Ok(bytes)
}

/// The Trees payload decodes: header present, version 1, and exactly
/// `16 + 32 * stump_count` bytes.
pub open spec fn spec_trees_ok(bytes: Seq<u8>) -> bool {
    &&& bytes.len() >= 16
    &&& spec_read_u32(bytes, 0) == MODEL_FORMAT_V1
    &&& bytes.len() == 16 + 32 * spec_read_u32(bytes, 8)
}

/// Decodes the Trees section.
pub fn decode_trained_model_payload(bytes: &[u8]) -> (r: Result<TreesPayload, EngineError>)
    ensures
        r is Ok <==> spec_trees_ok(bytes@),
        r matches Ok(p) ==> p.feature_count == spec_read_u32(bytes@, 4) && p.baseline_bits
            == spec_read_u32(bytes@, 12) && p.stumps@ == spec_decode_stumps(
            bytes@,
            16,
            spec_read_u32(bytes@, 8) as nat,
        ),
        r matches Err(e) ==> e is ContractViolation,
{
    if bytes.len() < 16 {
        return Err(EngineError::ContractViolation("model payload too small".to_string()));
    }
    let format_version = u32_at(bytes, 0);
    if format_version != MODEL_FORMAT_V1 {
        return Err(
            EngineError::ContractViolation(
                text_with_value("unsupported model payload format version ", format_version as u64, ""),
            ),
        );
    }
    let feature_count = u32_at(bytes, 4) as usize;
    let stump_count = u32_at(bytes, 8) as usize;
    let baseline_bits = u32_at(bytes, 12);
    let stump_bytes = match stump_count.checked_mul(32) {
        Some(v) => v,
        None => {
            return Err(EngineError::ContractViolation("stump payload length overflow".to_string()));
        },
    };
    let expected_len = match stump_bytes.checked_add(16) {
        Some(v) => v,
        None => {
            return Err(EngineError::ContractViolation("payload length overflow".to_string()));
        },
    };
    if bytes.len() != expected_len {
        return Err(
            EngineError::ContractViolation(
                text_with_two_values(
                    "model payload length ",
                    bytes.len() as u64,
                    " does not match expected ",
                    expected_len as u64,
                    "",
                ),
            ),
        );
    }
    let mut stumps: Vec<StumpRecord> = Vec::new();
    let mut i: usize = 0;
    while i < stump_count
        invariant
            bytes@.len() == 16 + 32 * stump_count,
            bytes@.len() == bytes.len(),
            i <= stump_count,
            stumps@ =~= spec_decode_stumps(bytes@, 16, i as nat),
        decreases stump_count - i,
    {
        let base = 16 + i * 32;
        stumps.push(decode_stump(bytes, base));
        i = i + 1;
    }
    Ok(TreesPayload { feature_count, baseline_bits, stumps })
}

/// Decoding an encoded Trees section gives back what was encoded.
pub proof fn lemma_trees_round_trip(feature_count: u32, baseline_bits: u32, stumps: Seq<StumpRecord>)
    requires
        stumps.len() <= u32::MAX,
    ensures
        spec_trees_ok(spec_trees_bytes(feature_count, baseline_bits, stumps)),
        spec_read_u32(spec_trees_bytes(feature_count, baseline_bits, stumps), 4) == feature_count,
        spec_read_u32(spec_trees_bytes(feature_count, baseline_bits, stumps), 12) == baseline_bits,
        spec_decode_stumps(
            spec_trees_bytes(feature_count, baseline_bits, stumps),
            16,
            spec_read_u32(spec_trees_bytes(feature_count, baseline_bits, stumps), 8) as nat,
        ) == stumps,
{
    let b = spec_trees_bytes(feature_count, baseline_bits, stumps);
    lemma_encode_stumps_layout(stumps);
    assert(b.subrange(0, 4) =~= spec_u32_bytes(MODEL_FORMAT_V1));
    assert(b.subrange(4, 8) =~= spec_u32_bytes(feature_count));
    assert(b.subrange(8, 12) =~= spec_u32_bytes(stumps.len() as u32));
    assert(b.subrange(12, 16) =~= spec_u32_bytes(baseline_bits));
    lemma_read_u32_at(b, 0, MODEL_FORMAT_V1);
    lemma_read_u32_at(b, 4, feature_count);
    lemma_read_u32_at(b, 8, stumps.len() as u32);
    lemma_read_u32_at(b, 12, baseline_bits);
    assert(b.subrange(16, 16 + 32 * stumps.len() as int) =~= spec_encode_stumps(stumps));
    lemma_stumps_round_trip(b, 16, stumps);
}


// ---------------------------------------------------------------------------
// NodeDebugStats section
// ---------------------------------------------------------------------------
/// Per-split debug statistics as stored in a NodeDebugStats payload
/// (40 bytes per record).
#[derive(Debug, Clone, Copy, PartialEq, Eq)]
pub struct NodeDebugStatsRecord {
    pub node_id: u32,
    pub feature_index: u32,
    pub threshold_bin: u16,
    pub default_left: bool,
    pub gain_bits: u32,
    pub left_grad_sum_bits: u32,
    pub left_hess_sum_bits: u32,
    pub left_row_count: u32,
    pub right_grad_sum_bits: u32,
    pub right_hess_sum_bits: u32,
    pub right_row_count: u32,
}

pub open spec fn spec_debug_flags(r: NodeDebugStatsRecord) -> u16 {
    if r.default_left {
        1u16
    } else {
        0u16
    }
}

pub open spec fn spec_encode_debug_record(r: NodeDebugStatsRecord) -> Seq<u8> {
    spec_u32_bytes(r.node_id) + spec_u32_bytes(r.feature_index) + spec_u16_bytes(r.threshold_bin)
        + spec_u16_bytes(spec_debug_flags(r)) + spec_u32_bytes(r.gain_bits) + spec_u32_bytes(
        r.left_grad_sum_bits,
    ) + spec_u32_bytes(r.left_hess_sum_bits) + spec_u32_bytes(r.left_row_count) + spec_u32_bytes(
        r.right_grad_sum_bits,
    ) + spec_u32_bytes(r.right_hess_sum_bits) + spec_u32_bytes(r.right_row_count)
}

/// The debug record stored at `base`.
pub open spec fn spec_decode_debug_record(bytes: Seq<u8>, base: int) -> NodeDebugStatsRecord {
    NodeDebugStatsRecord {
        node_id: spec_read_u32(bytes, base),
        feature_index: spec_read_u32(bytes, base + 4),
        threshold_bin: spec_read_u16(bytes, base + 8),
        default_left: spec_read_u16(bytes, base + 10) & 1 != 0,
        gain_bits: spec_read_u32(bytes, base + 12),
        left_grad_sum_bits: spec_read_u32(bytes, base + 16),
        left_hess_sum_bits: spec_read_u32(bytes, base + 20),
        left_row_count: spec_read_u32(bytes, base + 24),
        right_grad_sum_bits: spec_read_u32(bytes, base + 28),
        right_hess_sum_bits: spec_read_u32(bytes, base + 32),
        right_row_count: spec_read_u32(bytes, base + 36),
    }
}

fn encode_debug_record(out: &mut Vec<u8>, r: &NodeDebugStatsRecord)
    ensures
        final(out)@ == old(out)@ + spec_encode_debug_record(*r),
{
    let flags: u16 = if r.default_left {
        1u16
    } else {
        0u16
    };
    push_u32_le(out, r.node_id);
    push_u32_le(out, r.feature_index);
    push_u16_le(out, r.threshold_bin);
    push_u16_le(out, flags);
    push_u32_le(out, r.gain_bits);
    push_u32_le(out, r.left_grad_sum_bits);
    push_u32_le(out, r.left_hess_sum_bits);
    push_u32_le(out, r.left_row_count);
    push_u32_le(out, r.right_grad_sum_bits);
    push_u32_le(out, r.right_hess_sum_bits);
    push_u32_le(out, r.right_row_count);
    assert(out@ =~= old(out)@ + spec_encode_debug_record(*r));
}

fn decode_debug_record(bytes: &[u8], base: usize) -> (r: NodeDebugStatsRecord)
    requires
        base + 40 <= bytes@.len(),
    ensures
        r == spec_decode_debug_record(bytes@, base as int),
{
    assert(bytes@.len() == bytes.len());
    let flags = u16_at(bytes, base + 10);
    NodeDebugStatsRecord {
        node_id: u32_at(bytes, base),
        feature_index: u32_at(bytes, base + 4),
        threshold_bin: u16_at(bytes, base + 8),
        default_left: flags & 1 != 0,
        gain_bits: u32_at(bytes, base + 12),
        left_grad_sum_bits: u32_at(bytes, base + 16),
        left_hess_sum_bits: u32_at(bytes, base + 20),
        left_row_count: u32_at(bytes, base + 24),
        right_grad_sum_bits: u32_at(bytes, base + 28),
        right_hess_sum_bits: u32_at(bytes, base + 32),
        right_row_count: u32_at(bytes, base + 36),
    }
}

proof fn lemma_debug_record_round_trip(bytes: Seq<u8>, base: int, r: NodeDebugStatsRecord)
    requires
        0 <= base,
        base + 40 <= bytes.len(),
        bytes.subrange(base, base + 40) == spec_encode_debug_record(r),
    ensures
        spec_decode_debug_record(bytes, base) == r,
{
    let e = spec_encode_debug_record(r);
    assert(bytes.subrange(base, base + 4) =~= e.subrange(0, 4));
    assert(bytes.subrange(base + 4, base + 8) =~= e.subrange(4, 8));
    assert(bytes.subrange(base + 8, base + 10) =~= e.subrange(8, 10));
    assert(bytes.subrange(base + 10, base + 12) =~= e.subrange(10, 12));
    assert(bytes.subrange(base + 12, base + 16) =~= e.subrange(12, 16));
    assert(bytes.subrange(base + 16, base + 20) =~= e.subrange(16, 20));
    assert(bytes.subrange(base + 20, base + 24) =~= e.subrange(20, 24));
    assert(bytes.subrange(base + 24, base + 28) =~= e.subrange(24, 28));
    assert(bytes.subrange(base + 28, base + 32) =~= e.subrange(28, 32));
    assert(bytes.subrange(base + 32, base + 36) =~= e.subrange(32, 36));
    assert(bytes.subrange(base + 36, base + 40) =~= e.subrange(36, 40));
    assert(e.subrange(0, 4) =~= spec_u32_bytes(r.node_id));
    assert(e.subrange(4, 8) =~= spec_u32_bytes(r.feature_index));
    assert(e.subrange(8, 10) =~= spec_u16_bytes(r.threshold_bin));
    assert(e.subrange(10, 12) =~= spec_u16_bytes(spec_debug_flags(r)));
    assert(e.subrange(12, 16) =~= spec_u32_bytes(r.gain_bits));
    assert(e.subrange(16, 20) =~= spec_u32_bytes(r.left_grad_sum_bits));
    assert(e.subrange(20, 24) =~= spec_u32_bytes(r.left_hess_sum_bits));
    assert(e.subrange(24, 28) =~= spec_u32_bytes(r.left_row_count));
    assert(e.subrange(28, 32) =~= spec_u32_bytes(r.right_grad_sum_bits));
    assert(e.subrange(32, 36) =~= spec_u32_bytes(r.right_hess_sum_bits));
    assert(e.subrange(36, 40) =~= spec_u32_bytes(r.right_row_count));
    lemma_read_u32_at(bytes, base, r.node_id);
    lemma_read_u32_at(bytes, base + 4, r.feature_index);
    lemma_read_u16_at(bytes, base + 8, r.threshold_bin);
    lemma_read_u16_at(bytes, base + 10, spec_debug_flags(r));
    lemma_read_u32_at(bytes, base + 12, r.gain_bits);
    lemma_read_u32_at(bytes, base + 16, r.left_grad_sum_bits);
    lemma_read_u32_at(bytes, base + 20, r.left_hess_sum_bits);
    lemma_read_u32_at(bytes, base + 24, r.left_row_count);
    lemma_read_u32_at(bytes, base + 28, r.right_grad_sum_bits);
    lemma_read_u32_at(bytes, base + 32, r.right_hess_sum_bits);
    lemma_read_u32_at(bytes, base + 36, r.right_row_count);
    assert(1u16 & 1 != 0 && 0u16 & 1 == 0) by (bit_vector);
}

/// Concatenated encodings of `recs`.
pub open spec fn spec_encode_debug_records(recs: Seq<NodeDebugStatsRecord>) -> Seq<u8>
    decreases recs.len(),
{
    if recs.len() == 0 {
        Seq::empty()
    } else {
        spec_encode_debug_records(recs.drop_last()) + spec_encode_debug_record(recs.last())
    }
}

proof fn lemma_encode_debug_records_layout(recs: Seq<NodeDebugStatsRecord>)
    ensures
        spec_encode_debug_records(recs).len() == 40 * recs.len(),
        forall|i: int|
            0 <= i < recs.len() ==> #[trigger] spec_encode_debug_records(recs).subrange(
                40 * i,
                40 * i + 40,
            ) == spec_encode_debug_record(recs[i]),
    decreases recs.len(),
{
    if recs.len() > 0 {
        let prev = recs.drop_last();
        lemma_encode_debug_records_layout(prev);
        let all = spec_encode_debug_records(recs);
        let n = recs.len() - 1;
        assert forall|i: int| 0 <= i < recs.len() implies #[trigger] all.subrange(40 * i, 40 * i + 40)
            == spec_encode_debug_record(recs[i]) by {
            if i < n {
                assert(all.subrange(40 * i, 40 * i + 40) =~= spec_encode_debug_records(
                    prev,
                ).subrange(40 * i, 40 * i + 40));
                assert(prev[i] == recs[i]);
            } else {
                assert(all.subrange(40 * i, 40 * i + 40) =~= spec_encode_debug_record(recs.last()));
            }
        }
    }
}

pub open spec fn spec_node_debug_stats_bytes(recs: Seq<NodeDebugStatsRecord>) -> Seq<u8> {
    spec_u32_bytes(MODEL_FORMAT_V1) + spec_u32_bytes(recs.len() as u32) + spec_encode_debug_records(
        recs,
    )
}

/// Encodes the NodeDebugStats section: version, record count, then one
/// 40-byte record per split. More than `u32::MAX` records is a contract
/// violation.
pub fn encode_node_debug_stats_payload(records: &Vec<NodeDebugStatsRecord>) -> (r: Result<
    Vec<u8>,
    EngineError,
>)
    ensures
        r is Ok <==> records@.len() <= u32::MAX,
        r matches Ok(bytes) ==> bytes@ == spec_node_debug_stats_bytes(records@),
        r matches Err(e) ==> e is ContractViolation,
{
    if records.len() > u32::MAX as usize {
        return Err(
            EngineError::ContractViolation("node debug stats count exceeds u32::MAX".to_string()),
        );
    }
    let mut bytes: Vec<u8> = Vec::new();
    push_u32_le(&mut bytes, MODEL_FORMAT_V1);
    push_u32_le(&mut bytes, records.len() as u32);
    let ghost header = bytes@;
    let mut i: usize = 0;
    while i < records.len()
        invariant
            i <= records@.len(),
            bytes@ == header + spec_encode_debug_records(records@.subrange(0, i as int)),
        decreases records.len() - i,
    {
        encode_debug_record(&mut bytes, &records[i]);
        proof {
            let s = records@.subrange(0, i as int + 1);
            assert(s.drop_last() =~= records@.subrange(0, i as int));
            assert(s.last() == records@[i as int]);
        }
        assert(bytes@ =~= header + spec_encode_debug_records(records@.subrange(0, i as int + 1)));
        i = i + 1;
    }
    assert(records@.subrange(0, records@.len() as int) =~= records@);
    Ok(bytes)
}

/// The NodeDebugStats payload decodes: header present, version 1, and
/// exactly `8 + 40 * record_count` bytes.
pub open spec fn spec_node_debug_stats_ok(bytes: Seq<u8>) -> bool {
    &&& bytes.len() >= 8
    &&& spec_read_u32(bytes, 0) == MODEL_FORMAT_V1
    &&& bytes.len() == 8 + 40 * spec_read_u32(bytes, 4)
}

/// The records stored back to back from `start`.
pub open spec fn spec_decode_debug_records(bytes: Seq<u8>, start: int, count: nat) -> Seq<
    NodeDebugStatsRecord,
> {
    Seq::new(count, |i: int| spec_decode_debug_record(bytes, start + 40 * i))
}

/// Decodes the NodeDebugStats section.
pub fn decode_node_debug_stats_payload(bytes: &[u8]) -> (r: Result<
    Vec<NodeDebugStatsRecord>,
    EngineError,
>)
    ensures
        r is Ok <==> spec_node_debug_stats_ok(bytes@),
        r matches Ok(recs) ==> recs@ == spec_decode_debug_records(
            bytes@,
            8,
            spec_read_u32(bytes@, 4) as nat,
        ),
        r matches Err(e) ==> e is ContractViolation,
{
    if bytes.len() < 8 {
        return Err(EngineError::ContractViolation("node debug stats payload too small".to_string()));
    }
    let format_version = u32_at(bytes, 0);
    if format_version != MODEL_FORMAT_V1 {
        return Err(
            EngineError::ContractViolation(
                text_with_value(
                    "unsupported node debug stats format version ",
                    format_version as u64,
                    "",
                ),
            ),
        );
    }
    let record_count = u32_at(bytes, 4) as usize;
    let record_bytes = match record_count.checked_mul(40) {
        Some(v) => v,
        None => {
            return Err(
                EngineError::ContractViolation("node debug stats payload length overflow".to_string()),
            );
        },
    };
    let expected_len = match record_bytes.checked_add(8) {
        Some(v) => v,
        None => {
            return Err(
                EngineError::ContractViolation("node debug stats payload length overflow".to_string()),
            );
        },
    };
    if bytes.len() != expected_len {
        return Err(
            EngineError::ContractViolation(
                text_with_two_values(
                    "node debug stats payload length ",
                    bytes.len() as u64,
                    " does not match expected ",
                    expected_len as u64,
                    "",
                ),
            ),
        );
    }
    let mut records: Vec<NodeDebugStatsRecord> = Vec::new();
    let mut i: usize = 0;
    while i < record_count
        invariant
            bytes@.len() == 8 + 40 * record_count,
            bytes@.len() == bytes.len(),
            i <= record_count,
            records@ =~= spec_decode_debug_records(bytes@, 8, i as nat),
        decreases record_count - i,
    {
        let base = 8 + i * 40;
        records.push(decode_debug_record(bytes, base));
        i = i + 1;
    }
    Ok(records)
}

/// Decoding an encoded NodeDebugStats section gives back the records.
pub proof fn lemma_node_debug_stats_round_trip(recs: Seq<NodeDebugStatsRecord>)
    requires
        recs.len() <= u32::MAX,
    ensures
        spec_node_debug_stats_ok(spec_node_debug_stats_bytes(recs)),
        spec_read_u32(spec_node_debug_stats_bytes(recs), 4) == recs.len(),
        spec_decode_debug_records(spec_node_debug_stats_bytes(recs), 8, recs.len()) == recs,
{
    let b = spec_node_debug_stats_bytes(recs);
    lemma_encode_debug_records_layout(recs);
    assert(b.subrange(0, 4) =~= spec_u32_bytes(MODEL_FORMAT_V1));
    assert(b.subrange(4, 8) =~= spec_u32_bytes(recs.len() as u32));
    lemma_read_u32_at(b, 0, MODEL_FORMAT_V1);
    lemma_read_u32_at(b, 4, recs.len() as u32);
    assert forall|i: int| 0 <= i < recs.len() implies spec_decode_debug_record(b, 8 + 40 * i)
        == #[trigger] recs[i] by {
        assert(b.subrange(8 + 40 * i, 8 + 40 * i + 40) =~= spec_encode_debug_records(recs).subrange(
            40 * i,
            40 * i + 40,
        ));
        lemma_debug_record_round_trip(b, 8 + 40 * i, recs[i]);
    }
    assert(spec_decode_debug_records(b, 8, recs.len()) =~= recs);
}

// ---------------------------------------------------------------------------
// Fixed layouts
// ---------------------------------------------------------------------------
/// The fields of one encoded stump record, read at their fixed offsets.
proof fn lemma_stump_fields_at(bytes: Seq<u8>, base: int, r: StumpRecord)
    requires
        0 <= base,
        base + 32 <= bytes.len(),
        bytes.subrange(base, base + 32) == spec_encode_stump(r),
    ensures
        spec_read_u32(bytes, base) == r.node_id,
        spec_read_u32(bytes, base + 4) == r.feature_index,
        spec_read_u16(bytes, base + 8) == r.threshold_bin,
        (spec_read_u16(bytes, base + 10) & 1 != 0) == r.default_left,
        (spec_read_u16(bytes, base + 10) & 2 != 0) == r.is_categorical,
        spec_read_u16(bytes, base + 10) & 0xFFFCu16 == 0,
        spec_read_u32(bytes, base + 12) == r.gain_bits,
        spec_read_u32(bytes, base + 16) == r.left_leaf_bits,
        spec_read_u32(bytes, base + 20) == r.right_leaf_bits,
        spec_read_u32(bytes, base + 24) == r.left_count,
        spec_read_u32(bytes, base + 28) == r.right_count,
{
    lemma_stump_round_trip(bytes, base, r);
    let dl = r.default_left;
    let cat = r.is_categorical;
    assert(((if dl { 1u16 } else { 0u16 }) | (if cat { 2u16 } else { 0u16 })) & 0xFFFCu16 == 0)
        by (bit_vector);
}

/// The Trees section layout: version, feature count, stump count and
/// baseline in the 16-byte header, then stump `i` at byte `16 + 32 * i` with
/// node id, feature, threshold bin, flags (bit 0 default-left, bit 1
/// categorical), gain, left leaf, right leaf, left count and right count at
/// offsets 0, 4, 8, 10, 12, 16, 20, 24 and 28.
pub proof fn lemma_trees_payload_layout(feature_count: u32, baseline_bits: u32, stumps: Seq<StumpRecord>)
    requires
        stumps.len() <= u32::MAX,
    ensures
        ({
            let b = spec_trees_bytes(feature_count, baseline_bits, stumps);
            &&& b.len() == 16 + 32 * stumps.len()
            &&& spec_read_u32(b, 0) == MODEL_FORMAT_V1
            &&& spec_read_u32(b, 4) == feature_count
            &&& spec_read_u32(b, 8) == stumps.len()
            &&& spec_read_u32(b, 12) == baseline_bits
            &&& forall|i: int|
                #![trigger stumps[i]]
                0 <= i < stumps.len() ==> {
                    &&& spec_read_u32(b, 16 + 32 * i) == stumps[i].node_id
                    &&& spec_read_u32(b, 16 + 32 * i + 4) == stumps[i].feature_index
                    &&& spec_read_u16(b, 16 + 32 * i + 8) == stumps[i].threshold_bin
                    &&& (spec_read_u16(b, 16 + 32 * i + 10) & 1 != 0) == stumps[i].default_left
                    &&& (spec_read_u16(b, 16 + 32 * i + 10) & 2 != 0) == stumps[i].is_categorical
                    &&& spec_read_u16(b, 16 + 32 * i + 10) & 0xFFFCu16 == 0
                    &&& spec_read_u32(b, 16 + 32 * i + 12) == stumps[i].gain_bits
                    &&& spec_read_u32(b, 16 + 32 * i + 16) == stumps[i].left_leaf_bits
                    &&& spec_read_u32(b, 16 + 32 * i + 20) == stumps[i].right_leaf_bits
                    &&& spec_read_u32(b, 16 + 32 * i + 24) == stumps[i].left_count
                    &&& spec_read_u32(b, 16 + 32 * i + 28) == stumps[i].right_count
                }
        }),
{
    let b = spec_trees_bytes(feature_count, baseline_bits, stumps);
    lemma_encode_stumps_layout(stumps);
    assert(b.subrange(0, 4) =~= spec_u32_bytes(MODEL_FORMAT_V1));
    assert(b.subrange(4, 8) =~= spec_u32_bytes(feature_count));
    assert(b.subrange(8, 12) =~= spec_u32_bytes(stumps.len() as u32));
    assert(b.subrange(12, 16) =~= spec_u32_bytes(baseline_bits));
    lemma_read_u32_at(b, 0, MODEL_FORMAT_V1);
    lemma_read_u32_at(b, 4, feature_count);
    lemma_read_u32_at(b, 8, stumps.len() as u32);
    lemma_read_u32_at(b, 12, baseline_bits);
    assert forall|i: int| #![trigger stumps[i]] 0 <= i < stumps.len() implies {
        &&& spec_read_u32(b, 16 + 32 * i) == stumps[i].node_id
        &&& spec_read_u32(b, 16 + 32 * i + 4) == stumps[i].feature_index
        &&& spec_read_u16(b, 16 + 32 * i + 8) == stumps[i].threshold_bin
        &&& (spec_read_u16(b, 16 + 32 * i + 10) & 1 != 0) == stumps[i].default_left
        &&& (spec_read_u16(b, 16 + 32 * i + 10) & 2 != 0) == stumps[i].is_categorical
        &&& spec_read_u16(b, 16 + 32 * i + 10) & 0xFFFCu16 == 0
        &&& spec_read_u32(b, 16 + 32 * i + 12) == stumps[i].gain_bits
        &&& spec_read_u32(b, 16 + 32 * i + 16) == stumps[i].left_leaf_bits
        &&& spec_read_u32(b, 16 + 32 * i + 20) == stumps[i].right_leaf_bits
        &&& spec_read_u32(b, 16 + 32 * i + 24) == stumps[i].left_count
        &&& spec_read_u32(b, 16 + 32 * i + 28) == stumps[i].right_count
    } by {
        assert(b.subrange(16 + 32 * i, 16 + 32 * i + 32) =~= spec_encode_stumps(stumps).subrange(
            32 * i,
            32 * i + 32,
        ));
        lemma_stump_fields_at(b, 16 + 32 * i, stumps[i]);
    }
}

/// The fields of one encoded debug record, read at their fixed offsets.
proof fn lemma_debug_fields_at(b: Seq<u8>, base: int, r: NodeDebugStatsRecord)
    requires
        0 <= base,
        base + 40 <= b.len(),
        b.subrange(base, base + 40) == spec_encode_debug_record(r),
    ensures
        spec_read_u32(b, base) == r.node_id,
        spec_read_u32(b, base + 4) == r.feature_index,
        spec_read_u16(b, base + 8) == r.threshold_bin,
        spec_read_u16(b, base + 10) == (if r.default_left {
            1u16
        } else {
            0u16
        }),
        spec_read_u32(b, base + 12) == r.gain_bits,
        spec_read_u32(b, base + 16) == r.left_grad_sum_bits,
        spec_read_u32(b, base + 20) == r.left_hess_sum_bits,
        spec_read_u32(b, base + 24) == r.left_row_count,
        spec_read_u32(b, base + 28) == r.right_grad_sum_bits,
        spec_read_u32(b, base + 32) == r.right_hess_sum_bits,
        spec_read_u32(b, base + 36) == r.right_row_count,
{
    let e = spec_encode_debug_record(r);
    assert(b.subrange(base, base + 4) =~= e.subrange(0, 4));
    assert(b.subrange(base + 4, base + 8) =~= e.subrange(4, 8));
    assert(b.subrange(base + 8, base + 10) =~= e.subrange(8, 10));
    assert(b.subrange(base + 10, base + 12) =~= e.subrange(10, 12));
    assert(b.subrange(base + 12, base + 16) =~= e.subrange(12, 16));
    assert(b.subrange(base + 16, base + 20) =~= e.subrange(16, 20));
    assert(b.subrange(base + 20, base + 24) =~= e.subrange(20, 24));
    assert(b.subrange(base + 24, base + 28) =~= e.subrange(24, 28));
    assert(b.subrange(base + 28, base + 32) =~= e.subrange(28, 32));
    assert(b.subrange(base + 32, base + 36) =~= e.subrange(32, 36));
    assert(b.subrange(base + 36, base + 40) =~= e.subrange(36, 40));
    assert(e.subrange(0, 4) =~= spec_u32_bytes(r.node_id));
    assert(e.subrange(4, 8) =~= spec_u32_bytes(r.feature_index));
    assert(e.subrange(8, 10) =~= spec_u16_bytes(r.threshold_bin));
    assert(e.subrange(10, 12) =~= spec_u16_bytes(spec_debug_flags(r)));
    assert(e.subrange(12, 16) =~= spec_u32_bytes(r.gain_bits));
    assert(e.subrange(16, 20) =~= spec_u32_bytes(r.left_grad_sum_bits));
    assert(e.subrange(20, 24) =~= spec_u32_bytes(r.left_hess_sum_bits));
    assert(e.subrange(24, 28) =~= spec_u32_bytes(r.left_row_count));
    assert(e.subrange(28, 32) =~= spec_u32_bytes(r.right_grad_sum_bits));
    assert(e.subrange(32, 36) =~= spec_u32_bytes(r.right_hess_sum_bits));
    assert(e.subrange(36, 40) =~= spec_u32_bytes(r.right_row_count));
    lemma_read_u32_at(b, base, r.node_id);
    lemma_read_u32_at(b, base + 4, r.feature_index);
    lemma_read_u16_at(b, base + 8, r.threshold_bin);
    lemma_read_u16_at(b, base + 10, spec_debug_flags(r));
    lemma_read_u32_at(b, base + 12, r.gain_bits);
    lemma_read_u32_at(b, base + 16, r.left_grad_sum_bits);
    lemma_read_u32_at(b, base + 20, r.left_hess_sum_bits);
    lemma_read_u32_at(b, base + 24, r.left_row_count);
    lemma_read_u32_at(b, base + 28, r.right_grad_sum_bits);
    lemma_read_u32_at(b, base + 32, r.right_hess_sum_bits);
    lemma_read_u32_at(b, base + 36, r.right_row_count);
}

/// The NodeDebugStats section layout: version and record count in the
/// 8-byte header, then record `i` at byte `8 + 40 * i` with node id,
/// feature, threshold bin, flags (bit 0 default-left), gain, left gradient
/// sum, left hessian sum, left row count, right gradient sum, right hessian
/// sum and right row count at offsets 0, 4, 8, 10, 12, 16, 20, 24, 28, 32
/// and 36.
pub proof fn lemma_node_debug_stats_layout(recs: Seq<NodeDebugStatsRecord>)
    requires
        recs.len() <= u32::MAX,
    ensures
        ({
            let b = spec_node_debug_stats_bytes(recs);
            &&& b.len() == 8 + 40 * recs.len()
            &&& spec_read_u32(b, 0) == MODEL_FORMAT_V1
            &&& spec_read_u32(b, 4) == recs.len()
            &&& forall|i: int|
                #![trigger recs[i]]
                0 <= i < recs.len() ==> {
                    &&& spec_read_u32(b, 8 + 40 * i) == recs[i].node_id
                    &&& spec_read_u32(b, 8 + 40 * i + 4) == recs[i].feature_index
                    &&& spec_read_u16(b, 8 + 40 * i + 8) == recs[i].threshold_bin
                    &&& spec_read_u16(b, 8 + 40 * i + 10) == (if recs[i].default_left {
                        1u16
                    } else {
                        0u16
                    })
                    &&& spec_read_u32(b, 8 + 40 * i + 12) == recs[i].gain_bits
                    &&& spec_read_u32(b, 8 + 40 * i + 16) == recs[i].left_grad_sum_bits
                    &&& spec_read_u32(b, 8 + 40 * i + 20) == recs[i].left_hess_sum_bits
                    &&& spec_read_u32(b, 8 + 40 * i + 24) == recs[i].left_row_count
                    &&& spec_read_u32(b, 8 + 40 * i + 28) == recs[i].right_grad_sum_bits
                    &&& spec_read_u32(b, 8 + 40 * i + 32) == recs[i].right_hess_sum_bits
                    &&& spec_read_u32(b, 8 + 40 * i + 36) == recs[i].right_row_count
                }
        }),
{
    let b = spec_node_debug_stats_bytes(recs);
    lemma_encode_debug_records_layout(recs);
    assert(b.subrange(0, 4) =~= spec_u32_bytes(MODEL_FORMAT_V1));
    assert(b.subrange(4, 8) =~= spec_u32_bytes(recs.len() as u32));
    lemma_read_u32_at(b, 0, MODEL_FORMAT_V1);
    lemma_read_u32_at(b, 4, recs.len() as u32);
    assert forall|i: int| #![trigger recs[i]] 0 <= i < recs.len() implies {
        &&& spec_read_u32(b, 8 + 40 * i) == recs[i].node_id
        &&& spec_read_u32(b, 8 + 40 * i + 4) == recs[i].feature_index
        &&& spec_read_u16(b, 8 + 40 * i + 8) == recs[i].threshold_bin
        &&& spec_read_u16(b, 8 + 40 * i + 10) == (if recs[i].default_left {
            1u16
        } else {
            0u16
        })
        &&& spec_read_u32(b, 8 + 40 * i + 12) == recs[i].gain_bits
        &&& spec_read_u32(b, 8 + 40 * i + 16) == recs[i].left_grad_sum_bits
        &&& spec_read_u32(b, 8 + 40 * i + 20) == recs[i].left_hess_sum_bits
        &&& spec_read_u32(b, 8 + 40 * i + 24) == recs[i].left_row_count
        &&& spec_read_u32(b, 8 + 40 * i + 28) == recs[i].right_grad_sum_bits
        &&& spec_read_u32(b, 8 + 40 * i + 32) == recs[i].right_hess_sum_bits
        &&& spec_read_u32(b, 8 + 40 * i + 36) == recs[i].right_row_count
    } by {
        assert(b.subrange(8 + 40 * i, 8 + 40 * i + 40) =~= spec_encode_debug_records(recs).subrange(
            40 * i,
            40 * i + 40,
        ));
        lemma_debug_fields_at(b, 8 + 40 * i, recs[i]);
    }
}

} // verus!
