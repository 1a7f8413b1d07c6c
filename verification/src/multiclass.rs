//! The MultiClassTrees section: one baseline and one stump sequence per
//! class, stored class-major.
//!
//! Layout (little-endian): format version, class count, feature count, one
//! baseline bit pattern per class, one stump count per class, then every
//! class's 32-byte stump records in class order.

use vstd::prelude::*;

use crate::artifact::{
    decode_predictor_layout_payload, decode_stump, encode_stump, lemma_encode_stumps_layout,
    lemma_read_u32_at, lemma_stumps_round_trip, spec_decode_stump, spec_decode_stumps,
    spec_encode_stumps, spec_predictor_layout_ok, spec_stump_flags, spec_stump_flags_at, u16_at,
    u32_at, StumpRecord, MODEL_FORMAT_V1,
};
use crate::bytes::{
    f32_bits_finite, push_u32_le, spec_f32_bits_finite, spec_read_u32, spec_u32_bytes,
};
use crate::error::{text_with_two_values, text_with_value, EngineError, EngineResult};
use crate::replay::{rounds_completed, spec_rounds_completed};
use crate::sections::{
    required_single_section, spec_duplicate_sections, spec_no_section, spec_only_section_at,
    ArtifactSection, SectionKind,
};
use crate::text::str_equals;

verus! {

/// Upper bounds a model artifact must respect.
#[derive(Debug, Clone, Copy, PartialEq, Eq)]
pub struct ModelLimits {
    pub max_classes: usize,
    pub max_features: usize,
    pub max_stumps: usize,
}

/// Decoded MultiClassTrees section.
#[derive(Debug, Clone, PartialEq, Eq)]
pub struct MultiClassTreesPayload {
    pub num_classes: usize,
    pub feature_count: usize,
    /// Per-class baseline prediction, as `f32` bit patterns.
    pub baseline_bits: Vec<u32>,
    /// Per-class stump sequences.
    pub class_stumps: Vec<Vec<StumpRecord>>,
}

// ---------------------------------------------------------------------------
// Model of the encoding
// ---------------------------------------------------------------------------
/// Concatenated little-endian encodings of `xs`.
pub open spec fn spec_u32s_bytes(xs: Seq<u32>) -> Seq<u8>
    decreases xs.len(),
{
    if xs.len() == 0 {
        Seq::empty()
    } else {
        spec_u32s_bytes(xs.drop_last()) + spec_u32_bytes(xs.last())
    }
}

/// Total number of stumps over all classes.
pub open spec fn spec_total_stumps(cs: Seq<Seq<StumpRecord>>) -> nat
    decreases cs.len(),
{
    if cs.len() == 0 {
        0
    } else {
        spec_total_stumps(cs.drop_last()) + cs.last().len()
    }
}

/// Every class's stump records, class after class.
pub open spec fn spec_classes_bytes(cs: Seq<Seq<StumpRecord>>) -> Seq<u8>
    decreases cs.len(),
{
    if cs.len() == 0 {
        Seq::empty()
    } else {
        spec_classes_bytes(cs.drop_last()) + spec_encode_stumps(cs.last())
    }
}

/// Per-class stump counts.
pub open spec fn spec_class_counts(cs: Seq<Seq<StumpRecord>>) -> Seq<u32> {
    Seq::new(cs.len(), |k: int| cs[k].len() as u32)
}

/// The stump sequences held by a table of vectors.
pub open spec fn spec_class_views(cs: Seq<Vec<StumpRecord>>) -> Seq<Seq<StumpRecord>> {
    Seq::new(cs.len(), |k: int| cs[k]@)
}

/// Bytes of a MultiClassTrees section.
pub open spec fn spec_multiclass_trees_bytes(
    num_classes: u32,
    feature_count: u32,
    baselines: Seq<u32>,
    cs: Seq<Seq<StumpRecord>>,
) -> Seq<u8> {
    spec_u32_bytes(MODEL_FORMAT_V1) + spec_u32_bytes(num_classes) + spec_u32_bytes(feature_count)
        + spec_u32s_bytes(baselines) + spec_u32s_bytes(spec_class_counts(cs)) + spec_classes_bytes(
        cs,
    )
}

/// A stump the multi-class model can store: its feature exists and its
/// gain and leaf values are finite.
pub open spec fn spec_mc_stump_valid(r: StumpRecord, feature_count: int) -> bool {
    &&& r.feature_index < feature_count
    &&& spec_f32_bits_finite(r.gain_bits)
    &&& spec_f32_bits_finite(r.left_leaf_bits)
    &&& spec_f32_bits_finite(r.right_leaf_bits)
}

/// A multi-class model that can be written as a MultiClassTrees section.
pub open spec fn spec_multiclass_model_valid(
    num_classes: int,
    feature_count: int,
    baselines: Seq<u32>,
    cs: Seq<Seq<StumpRecord>>,
    limits: ModelLimits,
) -> bool {
    &&& 2 <= num_classes <= limits.max_classes
    &&& num_classes <= u32::MAX
    &&& 1 <= feature_count <= limits.max_features
    &&& feature_count <= u32::MAX
    &&& baselines.len() == num_classes
    &&& cs.len() == num_classes
    &&& forall|k: int| 0 <= k < num_classes ==> spec_f32_bits_finite(#[trigger] baselines[k])
    &&& spec_total_stumps(cs) <= limits.max_stumps
    &&& forall|k: int| 0 <= k < num_classes ==> (#[trigger] cs[k]).len() <= u32::MAX
    &&& forall|k: int, i: int|
        0 <= k < num_classes && 0 <= i < cs[k].len() ==> spec_mc_stump_valid(
            #[trigger] cs[k][i],
            feature_count,
        )
}

// ---------------------------------------------------------------------------
// Layout lemmas
// ---------------------------------------------------------------------------
proof fn lemma_u32s_layout(xs: Seq<u32>)
    ensures
        spec_u32s_bytes(xs).len() == 4 * xs.len(),
        forall|i: int|
            0 <= i < xs.len() ==> #[trigger] spec_u32s_bytes(xs).subrange(4 * i, 4 * i + 4)
                == spec_u32_bytes(xs[i]),
    decreases xs.len(),
{
    if xs.len() > 0 {
        let prev = xs.drop_last();
        lemma_u32s_layout(prev);
        let all = spec_u32s_bytes(xs);
        assert forall|i: int| 0 <= i < xs.len() implies #[trigger] all.subrange(4 * i, 4 * i + 4)
            == spec_u32_bytes(xs[i]) by {
            if i < xs.len() - 1 {
                assert(all.subrange(4 * i, 4 * i + 4) =~= spec_u32s_bytes(prev).subrange(
                    4 * i,
                    4 * i + 4,
                ));
                assert(prev[i] == xs[i]);
            } else {
                assert(all.subrange(4 * i, 4 * i + 4) =~= spec_u32_bytes(xs.last()));
            }
        }
    }
}

/// Adding one more class adds its stumps to the total.
proof fn lemma_total_take_step(cs: Seq<Seq<StumpRecord>>, k: int)
    requires
        0 <= k < cs.len(),
    ensures
        spec_total_stumps(cs.take(k + 1)) == spec_total_stumps(cs.take(k)) + cs[k].len(),
{
    assert(cs.take(k + 1).drop_last() =~= cs.take(k));
}

/// Totals of prefixes grow with the prefix.
proof fn lemma_total_take_mono(cs: Seq<Seq<StumpRecord>>, k: int, m: int)
    requires
        0 <= k <= m <= cs.len(),
    ensures
        spec_total_stumps(cs.take(k)) <= spec_total_stumps(cs.take(m)),
    decreases m - k,
{
    if k < m {
        lemma_total_take_step(cs, m - 1);
        lemma_total_take_mono(cs, k, m - 1);
    }
}

proof fn lemma_take_all<A>(s: Seq<A>)
    ensures
        s.take(s.len() as int) == s,
{
    assert(s.take(s.len() as int) =~= s);
}

/// Byte offset of class `k`'s records within the stump area.
pub open spec fn spec_class_start(cs: Seq<Seq<StumpRecord>>, k: int) -> int {
    32 * (spec_total_stumps(cs.take(k)) as int)
}

/// Class `k`'s records sit at stump offset `total(cs.take(k))`.
proof fn lemma_classes_layout(cs: Seq<Seq<StumpRecord>>)
    ensures
        spec_classes_bytes(cs).len() == 32 * spec_total_stumps(cs),
        forall|k: int|
            0 <= k < cs.len() ==> #[trigger] spec_classes_bytes(cs).subrange(
                spec_class_start(cs, k),
                spec_class_start(cs, k) + 32 * cs[k].len(),
            ) == spec_encode_stumps(cs[k]),
    decreases cs.len(),
{
    if cs.len() > 0 {
        let prev = cs.drop_last();
        let n = cs.len() - 1;
        lemma_classes_layout(prev);
        lemma_encode_stumps_layout(cs.last());
        let all = spec_classes_bytes(cs);
        assert forall|k: int| 0 <= k < cs.len() implies #[trigger] all.subrange(
            spec_class_start(cs, k),
            spec_class_start(cs, k) + 32 * cs[k].len(),
        ) == spec_encode_stumps(cs[k]) by {
            if k < n {
                assert(prev.take(k) =~= cs.take(k));
                assert(prev[k] == cs[k]);
                lemma_total_take_step(prev, k);
                lemma_total_take_mono(prev, k + 1, n);
                lemma_take_all(prev);
                assert(all.subrange(
                    spec_class_start(cs, k),
                    spec_class_start(cs, k) + 32 * cs[k].len(),
                ) =~= spec_classes_bytes(prev).subrange(
                    spec_class_start(prev, k),
                    spec_class_start(prev, k) + 32 * prev[k].len(),
                ));
            } else {
                assert(cs.take(k) =~= prev);
                assert(all.subrange(
                    spec_class_start(cs, k),
                    spec_class_start(cs, k) + 32 * cs[k].len(),
                ) =~= spec_encode_stumps(cs.last()));
            }
        }
    }
}

// ---------------------------------------------------------------------------
// Encoding
// ---------------------------------------------------------------------------
fn mc_violation(msg: &str) -> (r: EngineError)
    ensures
        r matches EngineError::ContractViolation(text) && text@ == msg@,
{
    let text = msg.to_string();
    proof {
        vstd::string::to_string_from_display_ensures_for_str(msg, text);
    }
    EngineError::ContractViolation(text)
}

/// Writes the MultiClassTrees section of a softmax model, after checking
/// that the model can be stored: objective `multiclass_softmax`, class and
/// feature counts within `limits` and `u32`, one baseline and one stump
/// sequence per class, finite baselines, gains and leaf values, features in
/// range, and at most `limits.max_stumps` stumps in all.
pub fn encode_multiclass_trees_payload(
    objective: &str,
    num_classes: usize,
    feature_count: usize,
    baseline_bits: &Vec<u32>,
    class_stumps: &Vec<Vec<StumpRecord>>,
    limits: &ModelLimits,
) -> (r: EngineResult<Vec<u8>>)
    ensures
        r is Ok <==> objective@ == "multiclass_softmax"@ && spec_multiclass_model_valid(
            num_classes as int,
            feature_count as int,
            baseline_bits@,
            spec_class_views(class_stumps@),
            *limits,
        ),
        r matches Ok(bytes) ==> bytes@ == spec_multiclass_trees_bytes(
            num_classes as u32,
            feature_count as u32,
            baseline_bits@,
            spec_class_views(class_stumps@),
        ),
        r matches Err(e) ==> e is ContractViolation,
{
    let ghost cs = spec_class_views(class_stumps@);
    if !str_equals(objective, "multiclass_softmax") {
        return Err(mc_violation("MultiClassTrees requires objective multiclass_softmax"));
    }
    if num_classes < 2 || num_classes > limits.max_classes {
        return Err(
            EngineError::ContractViolation(
                text_with_value("num_classes ", num_classes as u64, " is out of range"),
            ),
        );
    }
    if feature_count == 0 || feature_count > limits.max_features {
        return Err(
            EngineError::ContractViolation(
                text_with_value("feature_count ", feature_count as u64, " is out of range"),
            ),
        );
    }
    if baseline_bits.len() != num_classes || class_stumps.len() != num_classes {
        return Err(
            mc_violation("num_classes must match baseline count and class stump table count"),
        );
    }
    let mut k: usize = 0;
    while k < num_classes
        invariant
            k <= num_classes,
            baseline_bits@.len() == num_classes,
            forall|j: int| 0 <= j < k ==> spec_f32_bits_finite(#[trigger] baseline_bits@[j]),
        decreases num_classes - k,
    {
        if !f32_bits_finite(baseline_bits[k]) {
            return Err(mc_violation("multiclass baselines must be finite"));
        }
        k = k + 1;
    }
    let mut total: usize = 0;
    k = 0;
    while k < num_classes
        invariant
            k <= num_classes,
            class_stumps@.len() == num_classes,
            cs == spec_class_views(class_stumps@),
            total == spec_total_stumps(cs.take(k as int)),
            forall|j: int| 0 <= j < k ==> (#[trigger] cs[j]).len() <= u32::MAX,
        decreases num_classes - k,
    {
        let count = class_stumps[k].len();
        proof {
            lemma_total_take_step(cs, k as int);
        }
        match total.checked_add(count) {
            None => {
                proof {
                    lemma_total_take_mono(cs, k as int + 1, num_classes as int);
                    lemma_take_all(cs);
                }
                return Err(mc_violation("multiclass stump count overflow"));
            },
            Some(t) => {
                total = t;
            },
        }
        if count > u32::MAX as usize {
            return Err(mc_violation("stump count exceeds u32::MAX"));
        }
        k = k + 1;
    }
    proof {
        lemma_take_all(cs);
    }
    if total > limits.max_stumps {
        return Err(
            EngineError::ContractViolation(
                text_with_value("multiclass stump count ", total as u64, " exceeds maximum"),
            ),
        );
    }
    k = 0;
    while k < num_classes
        invariant
            k <= num_classes,
            class_stumps@.len() == num_classes,
            cs == spec_class_views(class_stumps@),
            forall|kk: int, i: int|
                0 <= kk < k && 0 <= i < cs[kk].len() ==> spec_mc_stump_valid(
                    #[trigger] cs[kk][i],
                    feature_count as int,
                ),
        decreases num_classes - k,
    {
        let stumps = &class_stumps[k];
        assert(cs[k as int] == stumps@);
        let mut i: usize = 0;
        while i < stumps.len()
            invariant
                i <= stumps@.len(),
                k < num_classes,
                class_stumps@.len() == num_classes,
                cs == spec_class_views(class_stumps@),
                cs[k as int] == stumps@,
                forall|kk: int, ii: int|
                    0 <= kk < k && 0 <= ii < cs[kk].len() ==> spec_mc_stump_valid(
                        #[trigger] cs[kk][ii],
                        feature_count as int,
                    ),
                forall|ii: int|
                    0 <= ii < i ==> spec_mc_stump_valid(#[trigger] stumps@[ii], feature_count as int),
            decreases stumps.len() - i,
        {
            let st = &stumps[i];
            if st.feature_index as usize >= feature_count {
                assert(cs[k as int][i as int] == stumps@[i as int]);
                return Err(
                    EngineError::ContractViolation(
                        text_with_two_values(
                            "stump split feature_index ",
                            st.feature_index as u64,
                            " exceeds model feature_count ",
                            feature_count as u64,
                            "",
                        ),
                    ),
                );
            }
            if !f32_bits_finite(st.gain_bits) || !f32_bits_finite(st.left_leaf_bits)
                || !f32_bits_finite(st.right_leaf_bits) {
                assert(cs[k as int][i as int] == stumps@[i as int]);
                return Err(mc_violation("stump contains invalid gain or leaf value"));
            }
            i = i + 1;
        }
        proof {
            assert forall|kk: int, ii: int|
                0 <= kk < k + 1 && 0 <= ii < cs[kk].len() implies spec_mc_stump_valid(
                #[trigger] cs[kk][ii],
                feature_count as int,
            ) by {
                if kk == k as int {
                    assert(cs[kk][ii] == stumps@[ii]);
                }
            }
        }
        k = k + 1;
    }
    if feature_count > u32::MAX as usize {
        return Err(mc_violation("feature_count exceeds u32::MAX"));
    }
    if num_classes > u32::MAX as usize {
        return Err(mc_violation("num_classes exceeds u32::MAX"));
    }
    let mut bytes: Vec<u8> = Vec::new();
    push_u32_le(&mut bytes, MODEL_FORMAT_V1);
    push_u32_le(&mut bytes, num_classes as u32);
    push_u32_le(&mut bytes, feature_count as u32);
    let ghost h1 = bytes@;
    k = 0;
    while k < num_classes
        invariant
            k <= num_classes,
            baseline_bits@.len() == num_classes,
            bytes@ == h1 + spec_u32s_bytes(baseline_bits@.take(k as int)),
        decreases num_classes - k,
    {
        push_u32_le(&mut bytes, baseline_bits[k]);
        proof {
            assert(baseline_bits@.take(k as int + 1).drop_last() =~= baseline_bits@.take(k as int));
        }
        assert(bytes@ =~= h1 + spec_u32s_bytes(baseline_bits@.take(k as int + 1)));
        k = k + 1;
    }
    proof {
        lemma_take_all(baseline_bits@);
    }
    let ghost h2 = bytes@;
    let ghost counts = spec_class_counts(cs);
    k = 0;
    while k < num_classes
        invariant
            k <= num_classes,
            class_stumps@.len() == num_classes,
            cs == spec_class_views(class_stumps@),
            counts == spec_class_counts(cs),
            bytes@ == h2 + spec_u32s_bytes(counts.take(k as int)),
        decreases num_classes - k,
    {
        let count = class_stumps[k].len() as u32;
        push_u32_le(&mut bytes, count);
        proof {
            assert(counts.take(k as int + 1).drop_last() =~= counts.take(k as int));
            assert(counts[k as int] == count);
        }
        assert(bytes@ =~= h2 + spec_u32s_bytes(counts.take(k as int + 1)));
        k = k + 1;
    }
    proof {
        lemma_take_all(counts);
    }
    let ghost h3 = bytes@;
    k = 0;
    while k < num_classes
        invariant
            k <= num_classes,
            class_stumps@.len() == num_classes,
            cs == spec_class_views(class_stumps@),
            bytes@ == h3 + spec_classes_bytes(cs.take(k as int)),
        decreases num_classes - k,
    {
        let stumps = &class_stumps[k];
        let ghost before = bytes@;
        let mut i: usize = 0;
        while i < stumps.len()
            invariant
                i <= stumps@.len(),
                bytes@ == before + spec_encode_stumps(stumps@.take(i as int)),
            decreases stumps.len() - i,
        {
            encode_stump(&mut bytes, &stumps[i]);
            proof {
                assert(stumps@.take(i as int + 1).drop_last() =~= stumps@.take(i as int));
            }
            assert(bytes@ =~= before + spec_encode_stumps(stumps@.take(i as int + 1)));
            i = i + 1;
        }
        proof {
            lemma_take_all(stumps@);
            assert(cs.take(k as int + 1).drop_last() =~= cs.take(k as int));
            assert(cs.take(k as int + 1).last() == stumps@);
        }
        assert(bytes@ =~= h3 + spec_classes_bytes(cs.take(k as int + 1)));
        k = k + 1;
    }
    proof {
        lemma_take_all(cs);
    }
    Ok(bytes)
}

// ---------------------------------------------------------------------------
// Decoding
// ---------------------------------------------------------------------------
/// Class count stored in the header.
pub open spec fn spec_mc_num_classes(b: Seq<u8>) -> int {
    spec_read_u32(b, 4) as int
}

/// Feature count stored in the header.
pub open spec fn spec_mc_feature_count(b: Seq<u8>) -> int {
    spec_read_u32(b, 8) as int
}

/// Baseline bits of class `k`.
pub open spec fn spec_mc_baseline(b: Seq<u8>, k: int) -> u32 {
    spec_read_u32(b, 12 + 4 * k)
}

/// Stump count of class `k`.
pub open spec fn spec_mc_count(b: Seq<u8>, k: int) -> u32 {
    spec_read_u32(b, 12 + 4 * spec_mc_num_classes(b) + 4 * k)
}

/// Stumps stored for the classes before class `k`.
pub open spec fn spec_mc_count_prefix(b: Seq<u8>, k: nat) -> nat
    decreases k,
{
    if k == 0 {
        0
    } else {
        spec_mc_count_prefix(b, (k - 1) as nat) + (spec_mc_count(b, k - 1) as nat)
    }
}

/// Byte offset of stump `i` of class `k`.
pub open spec fn spec_mc_stump_base(b: Seq<u8>, k: int, i: int) -> int {
    12 + 8 * spec_mc_num_classes(b) + 32 * (spec_mc_count_prefix(b, k as nat) + i)
}

/// Stump `i` of class `k` carries only known flags, names a stored feature,
/// and has finite gain and leaf values.
pub open spec fn spec_mc_stump_ok(b: Seq<u8>, k: int, i: int) -> bool {
    let base = spec_mc_stump_base(b, k, i);
    &&& spec_stump_flags_at(b, base) & 0xFFFCu16 == 0
    &&& spec_mc_stump_valid(spec_decode_stump(b, base), spec_mc_feature_count(b))
}

/// The MultiClassTrees payload decodes under `limits`.
pub open spec fn spec_multiclass_trees_ok(b: Seq<u8>, limits: ModelLimits) -> bool {
    let nc = spec_mc_num_classes(b);
    let fc = spec_mc_feature_count(b);
    let total = spec_mc_count_prefix(b, nc as nat);
    &&& b.len() >= 12
    &&& spec_read_u32(b, 0) == MODEL_FORMAT_V1
    &&& 2 <= nc <= limits.max_classes
    &&& 1 <= fc <= limits.max_features
    &&& total <= limits.max_stumps
    &&& b.len() == 12 + 8 * nc + 32 * total
    &&& forall|k: int| 0 <= k < nc ==> spec_f32_bits_finite(#[trigger] spec_mc_baseline(b, k))
    &&& forall|k: int, i: int|
        0 <= k < nc && 0 <= i < spec_mc_count(b, k) ==> #[trigger] spec_mc_stump_ok(b, k, i)
}

/// The baselines a MultiClassTrees payload stores.
pub open spec fn spec_mc_decoded_baselines(b: Seq<u8>) -> Seq<u32> {
    Seq::new(spec_mc_num_classes(b) as nat, |k: int| spec_mc_baseline(b, k))
}

/// The per-class stump sequences a MultiClassTrees payload stores.
pub open spec fn spec_mc_decoded_classes(b: Seq<u8>) -> Seq<Seq<StumpRecord>> {
    Seq::new(
        spec_mc_num_classes(b) as nat,
        |k: int| spec_decode_stumps(b, spec_mc_stump_base(b, k, 0), spec_mc_count(b, k) as nat),
    )
}

proof fn lemma_mc_prefix_mono(b: Seq<u8>, k: nat, m: nat)
    requires
        k <= m,
    ensures
        spec_mc_count_prefix(b, k) <= spec_mc_count_prefix(b, m),
    decreases m - k,
{
    if k < m {
        lemma_mc_prefix_mono(b, k, (m - 1) as nat);
    }
}

/// Decodes a MultiClassTrees section, checking it against `limits`.
pub fn decode_multiclass_trees_payload(payload: &[u8], limits: &ModelLimits) -> (r: EngineResult<
    MultiClassTreesPayload,
>)
    ensures
        r is Ok <==> spec_multiclass_trees_ok(payload@, *limits),
        r matches Ok(p) ==> {
            &&& p.num_classes == spec_mc_num_classes(payload@)
            &&& p.feature_count == spec_mc_feature_count(payload@)
            &&& p.baseline_bits@ == spec_mc_decoded_baselines(payload@)
            &&& spec_class_views(p.class_stumps@) == spec_mc_decoded_classes(payload@)
        },
        r matches Err(e) ==> e is ContractViolation,
{
    let ghost b = payload@;
    assert(b.len() == payload.len());
    if payload.len() < 12 {
        return Err(mc_violation("multiclass trees payload too small"));
    }
    let format_version = u32_at(payload, 0);
    if format_version != MODEL_FORMAT_V1 {
        return Err(
            EngineError::ContractViolation(
                text_with_value(
                    "unsupported multiclass trees format version ",
                    format_version as u64,
                    "",
                ),
            ),
        );
    }
    let num_classes = u32_at(payload, 4) as usize;
    let feature_count = u32_at(payload, 8) as usize;
    if num_classes < 2 || num_classes > limits.max_classes {
        return Err(
            EngineError::ContractViolation(
                text_with_value("multiclass payload num_classes ", num_classes as u64, " is out of range"),
            ),
        );
    }
    if feature_count == 0 || feature_count > limits.max_features {
        return Err(
            EngineError::ContractViolation(
                text_with_value(
                    "multiclass payload feature_count ",
                    feature_count as u64,
                    " is out of range",
                ),
            ),
        );
    }
    let class_bytes = match num_classes.checked_mul(4) {
        Some(v) => v,
        None => {
            return Err(mc_violation("multiclass class table length overflow"));
        },
    };
    let baselines_end = match class_bytes.checked_add(12) {
        Some(v) => v,
        None => {
            return Err(mc_violation("multiclass baseline offset overflow"));
        },
    };
    if payload.len() < baselines_end {
        return Err(mc_violation("multiclass trees payload too small for baselines"));
    }
    let mut baseline_bits: Vec<u32> = Vec::new();
    let mut k: usize = 0;
    while k < num_classes
        invariant
            b == payload@,
            b.len() == payload.len(),
            num_classes == spec_mc_num_classes(b),
            12 + 4 * num_classes <= b.len(),
            k <= num_classes,
            baseline_bits@ == Seq::new(k as nat, |j: int| spec_mc_baseline(b, j)),
            forall|j: int| 0 <= j < k ==> spec_f32_bits_finite(#[trigger] spec_mc_baseline(b, j)),
        decreases num_classes - k,
    {
        let bits = u32_at(payload, 12 + k * 4);
        assert(bits == spec_mc_baseline(b, k as int));
        if !f32_bits_finite(bits) {
            return Err(
                EngineError::ContractViolation(
                    text_with_value("multiclass baseline ", k as u64, " must be finite"),
                ),
            );
        }
        baseline_bits.push(bits);
        assert(baseline_bits@ =~= Seq::new(k as nat + 1, |j: int| spec_mc_baseline(b, j)));
        k = k + 1;
    }
    let counts_end = match baselines_end.checked_add(class_bytes) {
        Some(v) => v,
        None => {
            return Err(mc_violation("multiclass stump count offset overflow"));
        },
    };
    if payload.len() < counts_end {
        return Err(mc_violation("multiclass trees payload too small for stump counts"));
    }
    let mut counts: Vec<usize> = Vec::new();
    let mut total: usize = 0;
    k = 0;
    while k < num_classes
        invariant
            b == payload@,
            b.len() == payload.len(),
            num_classes == spec_mc_num_classes(b),
            counts_end == 12 + 8 * num_classes,
            baselines_end == 12 + 4 * num_classes,
            counts_end <= b.len(),
            k <= num_classes,
            counts@.len() == k,
            forall|j: int| 0 <= j < k ==> counts@[j] == spec_mc_count(b, j),
            total == spec_mc_count_prefix(b, k as nat),
        decreases num_classes - k,
    {
        let count = u32_at(payload, baselines_end + k * 4) as usize;
        counts.push(count);
        match total.checked_add(count) {
            Some(t) => {
                total = t;
            },
            None => {
                proof {
                    lemma_mc_prefix_mono(b, k as nat + 1, num_classes as nat);
                }
                return Err(mc_violation("multiclass stump count overflow"));
            },
        }
        k = k + 1;
    }
    if total > limits.max_stumps {
        return Err(
            EngineError::ContractViolation(
                text_with_value("multiclass stump count ", total as u64, " exceeds maximum"),
            ),
        );
    }
    let stump_bytes = match total.checked_mul(32) {
        Some(v) => v,
        None => {
            return Err(mc_violation("multiclass stump payload length overflow"));
        },
    };
    let expected_len = match counts_end.checked_add(stump_bytes) {
        Some(v) => v,
        None => {
            return Err(mc_violation("multiclass payload length overflow"));
        },
    };
    if payload.len() != expected_len {
        return Err(
            EngineError::ContractViolation(
                text_with_two_values(
                    "multiclass trees payload length ",
                    payload.len() as u64,
                    " does not match expected ",
                    expected_len as u64,
                    "",
                ),
            ),
        );
    }
    let mut class_stumps: Vec<Vec<StumpRecord>> = Vec::new();
    let mut offset: usize = counts_end;
    k = 0;
    while k < num_classes
        invariant
            b == payload@,
            b.len() == payload.len(),
            num_classes == spec_mc_num_classes(b),
            feature_count == spec_mc_feature_count(b),
            counts_end == 12 + 8 * num_classes,
            b.len() == counts_end + 32 * total,
            total == spec_mc_count_prefix(b, num_classes as nat),
            counts@.len() == num_classes,
            forall|j: int| 0 <= j < num_classes ==> counts@[j] == spec_mc_count(b, j),
            k <= num_classes,
            offset == counts_end + 32 * spec_mc_count_prefix(b, k as nat),
            class_stumps@.len() == k,
            spec_class_views(class_stumps@) == spec_mc_decoded_classes(b).take(k as int),
            forall|kk: int, i: int|
                0 <= kk < k && 0 <= i < spec_mc_count(b, kk) ==> #[trigger] spec_mc_stump_ok(
                    b,
                    kk,
                    i,
                ),
        decreases num_classes - k,
    {
        let count = counts[k];
        let mut stumps: Vec<StumpRecord> = Vec::new();
        let mut i: usize = 0;
        proof {
            lemma_mc_prefix_mono(b, k as nat + 1, num_classes as nat);
        }
        while i < count
            invariant
                b == payload@,
                b.len() == payload.len(),
                num_classes == spec_mc_num_classes(b),
                feature_count == spec_mc_feature_count(b),
                counts_end == 12 + 8 * num_classes,
                b.len() == counts_end + 32 * total,
                k < num_classes,
                count == spec_mc_count(b, k as int),
                spec_mc_count_prefix(b, k as nat + 1) <= total,
                spec_mc_count_prefix(b, k as nat + 1) == spec_mc_count_prefix(b, k as nat) + count,
                i <= count,
                offset == counts_end + 32 * (spec_mc_count_prefix(b, k as nat) + i),
                stumps@ == spec_decode_stumps(b, spec_mc_stump_base(b, k as int, 0), i as nat),
                forall|ii: int| 0 <= ii < i ==> #[trigger] spec_mc_stump_ok(b, k as int, ii),
            decreases count - i,
        {
            let flags = u16_at(payload, offset + 10);
            if flags & 0xFFFCu16 != 0 {
                assert(spec_mc_stump_base(b, k as int, i as int) == offset);
                assert(!spec_mc_stump_ok(b, k as int, i as int));
                return Err(
                    EngineError::ContractViolation(
                        text_with_value("multiclass stump contains unsupported flags ", flags as u64, ""),
                    ),
                );
            }
            let rec = decode_stump(payload, offset);
            if rec.feature_index as usize >= feature_count {
                assert(spec_mc_stump_base(b, k as int, i as int) == offset);
                assert(!spec_mc_stump_ok(b, k as int, i as int));
                return Err(
                    EngineError::ContractViolation(
                        text_with_two_values(
                            "multiclass stump split feature_index ",
                            rec.feature_index as u64,
                            " exceeds model feature_count ",
                            feature_count as u64,
                            "",
                        ),
                    ),
                );
            }
            if !f32_bits_finite(rec.gain_bits) || !f32_bits_finite(rec.left_leaf_bits)
                || !f32_bits_finite(rec.right_leaf_bits) {
                assert(spec_mc_stump_base(b, k as int, i as int) == offset);
                assert(!spec_mc_stump_ok(b, k as int, i as int));
                return Err(mc_violation("multiclass stump contains non-finite gain or leaf value"));
            }
            assert(spec_mc_stump_base(b, k as int, i as int) == offset);
            assert(spec_mc_stump_ok(b, k as int, i as int));
            stumps.push(rec);
            assert(stumps@ =~= spec_decode_stumps(
                b,
                spec_mc_stump_base(b, k as int, 0),
                i as nat + 1,
            ));
            offset = offset + 32;
            i = i + 1;
        }
        assert(stumps@ == spec_mc_decoded_classes(b)[k as int]);
        let ghost prev = class_stumps@;
        class_stumps.push(stumps);
        proof {
            let d = spec_mc_decoded_classes(b);
            assert(class_stumps@[k as int]@ == d[k as int]);
            assert forall|j: int| 0 <= j < k implies class_stumps@[j]@ == d[j] by {
                assert(class_stumps@[j] == prev[j]);
                assert(spec_class_views(prev)[j] == d.take(k as int)[j]);
            }
            assert(spec_class_views(class_stumps@) =~= d.take(k as int + 1));
        }
        k = k + 1;
    }
    proof {
        assert(spec_mc_decoded_classes(b).take(num_classes as int) =~= spec_mc_decoded_classes(b));
        assert(baseline_bits@ =~= spec_mc_decoded_baselines(b));
    }
    Ok(MultiClassTreesPayload { num_classes, feature_count, baseline_bits, class_stumps })
}

// ---------------------------------------------------------------------------
// Round trip
// ---------------------------------------------------------------------------
proof fn lemma_mc_prefix_is_total(b: Seq<u8>, cs: Seq<Seq<StumpRecord>>, k: nat)
    requires
        k <= cs.len(),
        forall|j: int| 0 <= j < cs.len() ==> spec_mc_count(b, j) == (#[trigger] cs[j]).len(),
    ensures
        spec_mc_count_prefix(b, k) == spec_total_stumps(cs.take(k as int)),
    decreases k,
{
    if k > 0 {
        lemma_mc_prefix_is_total(b, cs, (k - 1) as nat);
        lemma_total_take_step(cs, k - 1);
    }
}

/// The flag field of an encoded stump has no bit beyond the two it uses.
proof fn lemma_stump_flags_known(r: StumpRecord)
    ensures
        spec_stump_flags(r) & 0xFFFCu16 == 0,
{
    let dl = r.default_left;
    let cat = r.is_categorical;
    assert(((if dl { 1u16 } else { 0u16 }) | (if cat { 2u16 } else { 0u16 })) & 0xFFFCu16 == 0)
        by (bit_vector);
}

/// Header, baselines and counts of an encoded section read back.
proof fn lemma_mc_bytes_fields(
    num_classes: u32,
    feature_count: u32,
    baselines: Seq<u32>,
    cs: Seq<Seq<StumpRecord>>,
)
    requires
        baselines.len() == num_classes,
        cs.len() == num_classes,
        forall|k: int| 0 <= k < num_classes ==> (#[trigger] cs[k]).len() <= u32::MAX,
    ensures
        ({
            let b = spec_multiclass_trees_bytes(num_classes, feature_count, baselines, cs);
            &&& b.len() == 12 + 8 * num_classes + 32 * spec_total_stumps(cs)
            &&& b.subrange(12 + 8 * num_classes, b.len() as int) == spec_classes_bytes(cs)
            &&& spec_read_u32(b, 0) == MODEL_FORMAT_V1
            &&& spec_mc_num_classes(b) == num_classes
            &&& spec_mc_feature_count(b) == feature_count
            &&& forall|k: int|
                0 <= k < num_classes ==> #[trigger] spec_mc_baseline(b, k) == baselines[k]
            &&& forall|k: int|
                0 <= k < num_classes ==> spec_mc_count(b, k) == (#[trigger] cs[k]).len()
        }),
{
    let nc = num_classes as int;
    let counts = spec_class_counts(cs);
    let b = spec_multiclass_trees_bytes(num_classes, feature_count, baselines, cs);
    let ub = spec_u32s_bytes(baselines);
    let uc = spec_u32s_bytes(counts);
    let cb = spec_classes_bytes(cs);
    lemma_u32s_layout(baselines);
    lemma_u32s_layout(counts);
    lemma_classes_layout(cs);
    assert(b.subrange(12 + 8 * nc, b.len() as int) =~= cb);
    assert(b.subrange(0, 4) =~= spec_u32_bytes(MODEL_FORMAT_V1));
    assert(b.subrange(4, 8) =~= spec_u32_bytes(num_classes));
    assert(b.subrange(8, 12) =~= spec_u32_bytes(feature_count));
    lemma_read_u32_at(b, 0, MODEL_FORMAT_V1);
    lemma_read_u32_at(b, 4, num_classes);
    lemma_read_u32_at(b, 8, feature_count);
    assert forall|k: int| 0 <= k < nc implies #[trigger] spec_mc_baseline(b, k) == baselines[k] by {
        assert(b.subrange(12 + 4 * k, 12 + 4 * k + 4) =~= ub.subrange(4 * k, 4 * k + 4));
        lemma_read_u32_at(b, 12 + 4 * k, baselines[k]);
    }
    assert forall|k: int| 0 <= k < nc implies spec_mc_count(b, k) == (#[trigger] cs[k]).len() by {
        assert(b.subrange(12 + 4 * nc + 4 * k, 12 + 4 * nc + 4 * k + 4) =~= uc.subrange(
            4 * k,
            4 * k + 4,
        ));
        lemma_read_u32_at(b, 12 + 4 * nc + 4 * k, counts[k]);
    }
}

/// The stump area of an encoded section reads back class by class.
proof fn lemma_mc_bytes_classes(b: Seq<u8>, cs: Seq<Seq<StumpRecord>>, k: int)
    requires
        cs.len() == spec_mc_num_classes(b),
        0 <= k < cs.len(),
        b.len() == 12 + 8 * cs.len() + 32 * spec_total_stumps(cs),
        b.subrange(12 + 8 * (cs.len() as int), b.len() as int) == spec_classes_bytes(cs),
        forall|j: int| 0 <= j < cs.len() ==> spec_mc_count(b, j) == (#[trigger] cs[j]).len(),
    ensures
        spec_decode_stumps(b, spec_mc_stump_base(b, k, 0), spec_mc_count(b, k) as nat) == cs[k],
        forall|i: int|
            0 <= i < spec_mc_count(b, k) ==> spec_decode_stump(b, #[trigger] spec_mc_stump_base(b, k, i))
                == cs[k][i] && spec_stump_flags_at(b, spec_mc_stump_base(b, k, i))
                == spec_stump_flags(cs[k][i]),
{
    let nc = cs.len() as int;
    lemma_classes_layout(cs);
    lemma_mc_prefix_is_total(b, cs, k as nat);
    lemma_total_take_step(cs, k);
    lemma_total_take_mono(cs, k + 1, nc);
    lemma_take_all(cs);
    let cb = spec_classes_bytes(cs);
    let start = 12 + 8 * nc + spec_class_start(cs, k);
    assert(spec_mc_stump_base(b, k, 0) == start);
    assert(b.subrange(start, start + 32 * cs[k].len()) =~= cb.subrange(
        spec_class_start(cs, k),
        spec_class_start(cs, k) + 32 * cs[k].len(),
    ));
    lemma_stumps_round_trip(b, start, cs[k]);
    assert forall|i: int| 0 <= i < spec_mc_count(b, k) implies spec_decode_stump(
        b,
        #[trigger] spec_mc_stump_base(b, k, i),
    ) == cs[k][i] && spec_stump_flags_at(b, spec_mc_stump_base(b, k, i)) == spec_stump_flags(
        cs[k][i],
    ) by {
        assert(spec_mc_stump_base(b, k, i) == start + 32 * i);
        assert(spec_decode_stumps(b, start, cs[k].len())[i] == cs[k][i]);
    }
}

/// Decoding an encoded MultiClassTrees section gives back the class count,
/// the feature count, the baselines and every class's stumps; and a model
/// that can be written is one that reads back without error.
pub proof fn lemma_multiclass_trees_round_trip(
    num_classes: u32,
    feature_count: u32,
    baselines: Seq<u32>,
    cs: Seq<Seq<StumpRecord>>,
    limits: ModelLimits,
)
    requires
        spec_multiclass_model_valid(num_classes as int, feature_count as int, baselines, cs, limits),
    ensures
        ({
            let b = spec_multiclass_trees_bytes(num_classes, feature_count, baselines, cs);
            &&& spec_multiclass_trees_ok(b, limits)
            &&& spec_mc_num_classes(b) == num_classes
            &&& spec_mc_feature_count(b) == feature_count
            &&& spec_mc_decoded_baselines(b) == baselines
            &&& spec_mc_decoded_classes(b) == cs
        }),
{
    let nc = num_classes as int;
    let b = spec_multiclass_trees_bytes(num_classes, feature_count, baselines, cs);
    lemma_mc_bytes_fields(num_classes, feature_count, baselines, cs);
    lemma_mc_prefix_is_total(b, cs, nc as nat);
    lemma_take_all(cs);
    assert forall|k: int, i: int|
        0 <= k < nc && 0 <= i < spec_mc_count(b, k) implies #[trigger] spec_mc_stump_ok(b, k, i) by {
        lemma_mc_bytes_classes(b, cs, k);
        assert(spec_decode_stump(b, spec_mc_stump_base(b, k, i)) == cs[k][i]);
        lemma_stump_flags_known(cs[k][i]);
    }
    assert forall|k: int| 0 <= k < nc implies #[trigger] spec_mc_decoded_classes(b)[k] == cs[k] by {
        lemma_mc_bytes_classes(b, cs, k);
    }
    assert(spec_mc_decoded_baselines(b) =~= baselines);
    assert(spec_mc_decoded_classes(b) =~= cs);
}

// ---------------------------------------------------------------------------
// Artifact-level checks
// ---------------------------------------------------------------------------
/// A multi-class artifact is consistent: softmax objective, a decodable
/// MultiClassTrees payload whose class and feature counts agree with the
/// metadata, and a predictor layout for the same feature count.
pub open spec fn spec_mc_artifact_ok(
    objective: Seq<char>,
    metadata_num_classes: Option<u32>,
    metadata_feature_count: int,
    trees: Seq<u8>,
    layout: Seq<u8>,
    limits: ModelLimits,
) -> bool {
    &&& objective == "multiclass_softmax"@
    &&& spec_multiclass_trees_ok(trees, limits)
    &&& metadata_num_classes == Some(spec_mc_num_classes(trees) as u32)
    &&& metadata_feature_count == spec_mc_feature_count(trees)
    &&& spec_predictor_layout_ok(layout)
    &&& spec_read_u32(layout, 4) == spec_mc_feature_count(trees)
}

/// Reads the trees of a multi-class artifact from its parsed parts: the
/// metadata's objective, class count and feature-name count, and its
/// sections. Exactly one MultiClassTrees and one PredictorLayout section must
/// be present, and everything must agree.
pub fn multiclass_trees_from_sections(
    objective: &str,
    metadata_num_classes: Option<u32>,
    metadata_feature_count: usize,
    sections: &[ArtifactSection],
    limits: &ModelLimits,
) -> (r: EngineResult<MultiClassTreesPayload>)
    ensures
        objective@ != "multiclass_softmax"@ ==> r is Err,
        spec_no_section(sections@, SectionKind::MultiClassTrees) ==> r is Err,
        spec_duplicate_sections(sections@, SectionKind::MultiClassTrees) ==> r is Err,
        spec_no_section(sections@, SectionKind::PredictorLayout) ==> r is Err,
        spec_duplicate_sections(sections@, SectionKind::PredictorLayout) ==> r is Err,
        forall|i: int, j: int|
            #![trigger sections@[i], sections@[j]]
            spec_only_section_at(sections@, SectionKind::MultiClassTrees, i) && spec_only_section_at(
                sections@,
                SectionKind::PredictorLayout,
                j,
            ) ==> {
                let t = sections@[i].payload@;
                &&& r is Ok <==> spec_mc_artifact_ok(
                    objective@,
                    metadata_num_classes,
                    metadata_feature_count as int,
                    t,
                    sections@[j].payload@,
                    *limits,
                )
                &&& r matches Ok(p) ==> {
                    &&& p.num_classes == spec_mc_num_classes(t)
                    &&& p.feature_count == spec_mc_feature_count(t)
                    &&& p.baseline_bits@ == spec_mc_decoded_baselines(t)
                    &&& spec_class_views(p.class_stumps@) == spec_mc_decoded_classes(t)
                }
            },
        r matches Err(e) ==> e is ContractViolation,
{
    if !str_equals(objective, "multiclass_softmax") {
        return Err(mc_violation("MultiClassTrees requires objective multiclass_softmax"));
    }
    let trees = match required_single_section(sections, SectionKind::MultiClassTrees) {
        Ok(sec) => sec,
        Err(e) => {
            return Err(e);
        },
    };
    let ghost ti = choose|i: int|
        spec_only_section_at(sections@, SectionKind::MultiClassTrees, i) && sections@[i] == *trees;
    let payload = match decode_multiclass_trees_payload(trees.payload.as_slice(), limits) {
        Ok(p) => p,
        Err(e) => {
            proof {
                assert forall|i: int|
                    spec_only_section_at(
                        sections@,
                        SectionKind::MultiClassTrees,
                        i,
                    ) implies #[trigger] sections@[i] == *trees by {
                    if i != ti {
                        assert(sections@[i].kind != SectionKind::MultiClassTrees);
                    }
                }
            }
            return Err(e);
        },
    };
    proof {
        assert forall|i: int|
            spec_only_section_at(
                sections@,
                SectionKind::MultiClassTrees,
                i,
            ) implies #[trigger] sections@[i] == *trees by {
            if i != ti {
                assert(sections@[i].kind != SectionKind::MultiClassTrees);
            }
        }
    }
    if metadata_num_classes != Some(payload.num_classes as u32) {
        return Err(
            EngineError::ContractViolation(
                text_with_value(
                    "metadata num_classes does not match multiclass payload num_classes ",
                    payload.num_classes as u64,
                    "",
                ),
            ),
        );
    }
    if payload.feature_count != metadata_feature_count {
        return Err(
            EngineError::ContractViolation(
                text_with_two_values(
                    "multiclass payload feature_count ",
                    payload.feature_count as u64,
                    " does not match metadata feature count ",
                    metadata_feature_count as u64,
                    "",
                ),
            ),
        );
    }
    let layout_section = match required_single_section(sections, SectionKind::PredictorLayout) {
        Ok(sec) => sec,
        Err(e) => {
            return Err(e);
        },
    };
    let ghost li = choose|i: int|
        spec_only_section_at(sections@, SectionKind::PredictorLayout, i) && sections@[i]
            == *layout_section;
    proof {
        assert forall|i: int|
            spec_only_section_at(
                sections@,
                SectionKind::PredictorLayout,
                i,
            ) implies #[trigger] sections@[i] == *layout_section by {
            if i != li {
                assert(sections@[i].kind != SectionKind::PredictorLayout);
            }
        }
    }
    let layout = match decode_predictor_layout_payload(layout_section.payload.as_slice()) {
        Ok(l) => l,
        Err(e) => {
            return Err(e);
        },
    };
    if layout.feature_count != payload.feature_count {
        return Err(
            EngineError::ContractViolation(
                text_with_two_values(
                    "predictor layout feature_count ",
                    layout.feature_count as u64,
                    " does not match multiclass payload feature_count ",
                    payload.feature_count as u64,
                    "",
                ),
            ),
        );
    }
    Ok(payload)
}

/// Largest tree id over every class's stumps, plus one; zero when no class
/// has a stump.
pub open spec fn spec_mc_rounds_completed(cs: Seq<Seq<StumpRecord>>) -> nat
    decreases cs.len(),
{
    if cs.len() == 0 {
        0
    } else {
        let rest = spec_mc_rounds_completed(cs.drop_last());
        let here = spec_rounds_completed(cs.last().map_values(|s: StumpRecord| s.node_id));
        if here > rest {
            here
        } else {
            rest
        }
    }
}

impl MultiClassTreesPayload {
    /// Number of boosting rounds the model covers: the largest tree id of
    /// any stump of any class, plus one.
    pub fn rounds_completed(&self) -> (r: usize)
        ensures
            r == spec_mc_rounds_completed(spec_class_views(self.class_stumps@)),
    {
        let ghost cs = spec_class_views(self.class_stumps@);
        let mut best: usize = 0;
        let mut k: usize = 0;
        while k < self.class_stumps.len()
            invariant
                k <= self.class_stumps@.len(),
                cs == spec_class_views(self.class_stumps@),
                best == spec_mc_rounds_completed(cs.take(k as int)),
            decreases self.class_stumps.len() - k,
        {
            let stumps = &self.class_stumps[k];
            let mut ids: Vec<u32> = Vec::new();
            let mut i: usize = 0;
            while i < stumps.len()
                invariant
                    i <= stumps@.len(),
                    ids@ == stumps@.take(i as int).map_values(|s: StumpRecord| s.node_id),
                decreases stumps.len() - i,
            {
                ids.push(stumps[i].node_id);
                assert(ids@ =~= stumps@.take(i as int + 1).map_values(|s: StumpRecord| s.node_id));
                i = i + 1;
            }
            proof {
                lemma_take_all(stumps@);
                assert(cs.take(k as int + 1).drop_last() =~= cs.take(k as int));
                assert(cs.take(k as int + 1).last() == stumps@);
            }
            let here = rounds_completed(&ids);
            if here > best {
                best = here;
            }
            k = k + 1;
        }
        proof {
            lemma_take_all(cs);
        }
        best
    }
}

// ---------------------------------------------------------------------------
// Global stump numbering (class-major)
// ---------------------------------------------------------------------------
/// Stumps in the classes before class `k`.
pub open spec fn spec_count_prefix(counts: Seq<usize>, k: nat) -> nat
    decreases k,
{
    if k == 0 {
        0
    } else {
        spec_count_prefix(counts, (k - 1) as nat) + counts[k - 1] as nat
    }
}

proof fn lemma_count_prefix_mono(counts: Seq<usize>, k: nat, m: nat)
    requires
        k <= m,
    ensures
        spec_count_prefix(counts, k) <= spec_count_prefix(counts, m),
    decreases m - k,
{
    if k < m {
        lemma_count_prefix_mono(counts, k, (m - 1) as nat);
    }
}

/// Class-major numbering is one to one: stump `i` of class `k` and stump
/// `i2` of class `k2` share a global index only if they are the same stump.
pub proof fn lemma_global_index_unique(counts: Seq<usize>, k: nat, i: nat, k2: nat, i2: nat)
    requires
        k < counts.len(),
        k2 < counts.len(),
        i < counts[k as int],
        i2 < counts[k2 as int],
        spec_count_prefix(counts, k) + i == spec_count_prefix(counts, k2) + i2,
    ensures
        k == k2,
        i == i2,
{
    if k < k2 {
        lemma_count_prefix_mono(counts, k + 1, k2);
    } else if k2 < k {
        lemma_count_prefix_mono(counts, k2 + 1, k);
    }
}

/// The class-major global index of stump `stump_index` of class
/// `class_index`.
pub fn global_stump_index(class_counts: &Vec<usize>, class_index: usize, stump_index: usize) -> (r:
    usize)
    requires
        class_index < class_counts@.len(),
        stump_index < class_counts@[class_index as int],
        spec_count_prefix(class_counts@, class_counts@.len()) <= usize::MAX,
    ensures
        r == spec_count_prefix(class_counts@, class_index as nat) + stump_index,
{
    proof {
        lemma_count_prefix_mono(class_counts@, class_index as nat + 1, class_counts@.len());
    }
    let mut prefix: usize = 0;
    let mut k: usize = 0;
    while k < class_index
        invariant
            class_index < class_counts@.len(),
            k <= class_index,
            prefix == spec_count_prefix(class_counts@, k as nat),
            spec_count_prefix(class_counts@, class_index as nat + 1) <= usize::MAX,
        decreases class_index - k,
    {
        proof {
            lemma_count_prefix_mono(class_counts@, k as nat + 1, class_index as nat + 1);
        }
        prefix = prefix + class_counts[k];
        k = k + 1;
    }
    prefix + stump_index
}

/// The class and the position within it of the stump with class-major
/// global index `global_index`; `None` past the last stump.
pub fn class_stump_position(class_counts: &Vec<usize>, global_index: usize) -> (r: Option<(usize, usize)>)
    requires
        spec_count_prefix(class_counts@, class_counts@.len()) <= usize::MAX,
    ensures
        r is Some <==> global_index < spec_count_prefix(class_counts@, class_counts@.len()),
        r matches Some((k, i)) ==> {
            &&& k < class_counts@.len()
            &&& i < class_counts@[k as int]
            &&& spec_count_prefix(class_counts@, k as nat) + i == global_index
        },
{
    let n = class_counts.len();
    let mut prefix: usize = 0;
    let mut k: usize = 0;
    while k < n
        invariant
            n == class_counts@.len(),
            k <= n,
            prefix == spec_count_prefix(class_counts@, k as nat),
            prefix <= global_index,
            spec_count_prefix(class_counts@, n as nat) <= usize::MAX,
        decreases n - k,
    {
        proof {
            lemma_count_prefix_mono(class_counts@, k as nat + 1, n as nat);
        }
        let end = prefix + class_counts[k];
        if global_index < end {
            return Some((k, global_index - prefix));
        }
        prefix = end;
        k = k + 1;
    }
    None
}

/// Every regressor feature of a linear leaf must be a feature of the model.
pub fn validate_multiclass_linear_leaf_features(
    regressor_features: &[u32],
    feature_count: usize,
    stump_index: u32,
) -> (r: EngineResult<()>)
    ensures
        r is Ok <==> forall|j: int|
            0 <= j < regressor_features@.len() ==> (#[trigger] regressor_features@[j]) < feature_count,
        r matches Err(e) ==> e is ContractViolation,
{
    let mut j: usize = 0;
    while j < regressor_features.len()
        invariant
            j <= regressor_features@.len(),
            forall|t: int| 0 <= t < j ==> (#[trigger] regressor_features@[t]) < feature_count,
        decreases regressor_features.len() - j,
    {
        let feature_index = regressor_features[j];
        if feature_index as usize >= feature_count {
            return Err(
                EngineError::ContractViolation(
                    text_with_two_values(
                        "linear leaf stump index ",
                        stump_index as u64,
                        " regressor feature_index ",
                        feature_index as u64,
                        " exceeds model feature_count",
                    ),
                ),
            );
        }
        j = j + 1;
    }
    Ok(())
}

} // verus!
