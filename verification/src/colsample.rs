//! Per-node feature subsampling (`colsample_bynode`).
//!
//! The kept set at a node is a pure, deterministic function of
//! `(seed, node_id, feature)`. A feature is kept when the top 53 bits of its
//! hash, read as a fraction of `2^53`, fall below the sampling rate. The rate
//! enters as `keep_threshold = ceil(rate * 2^53)` (any value at or above
//! `2^53` keeps every feature), which makes the integer comparison here the
//! exact counterpart of the floating-point one; the caller converts the rate.

use vstd::prelude::*;

use crate::hashing::{mixed_hash, spec_mixed_hash, GOLDEN};

verus! {

/// Active per-node colsample configuration.
#[derive(Debug, Clone, Copy, PartialEq, Eq)]
pub struct ColsampleBynode {
    /// The sampling rate scaled by `2^53` and rounded up.
    pub keep_threshold: u64,
    pub seed: u64,
}

/// The 53-bit draw of `feature` at `node_id`.
pub open spec fn spec_colsample_bits(seed: u64, node_id: u64, feature: u32) -> u64 {
    spec_mixed_hash(seed ^ node_id.wrapping_mul(GOLDEN) ^ (feature as u64).wrapping_add(1)) >> 11u64
}

/// Deterministic per-node keep decision for one feature.
pub fn colsample_bynode_keeps_feature(seed: u64, node_id: u64, feature: u32, keep_threshold: u64) -> (r:
    bool)
    ensures
        r == (spec_colsample_bits(seed, node_id, feature) < keep_threshold),
{
    let hashed = mixed_hash(seed ^ node_id.wrapping_mul(GOLDEN) ^ (feature as u64).wrapping_add(1));
    (hashed >> 11u64) < keep_threshold
}

/// A threshold at or above `2^53` keeps every feature.
pub proof fn lemma_full_rate_keeps_everything(seed: u64, node_id: u64, feature: u32, keep_threshold: u64)
    requires
        keep_threshold >= 0x20_0000_0000_0000,
    ensures
        spec_colsample_bits(seed, node_id, feature) < keep_threshold,
{
    let h = spec_mixed_hash(seed ^ node_id.wrapping_mul(GOLDEN) ^ (feature as u64).wrapping_add(1));
    assert(h >> 11u64 < 0x20_0000_0000_0000u64) by (bit_vector);
}

/// The entries of `ids` whose mask bit is set, in order.
pub open spec fn select_by_mask(ids: Seq<u32>, mask: Seq<bool>) -> Seq<u32>
    decreases ids.len(),
{
    if ids.len() == 0 {
        Seq::empty()
    } else {
        let n = (ids.len() - 1) as int;
        let prev = select_by_mask(ids.subrange(0, n), mask.subrange(0, n));
        if mask[n] {
            prev.push(ids[n])
        } else {
            prev
        }
    }
}

/// Composed keep mask: interaction allowance and colsample draw.
pub open spec fn composed_mask(
    ids: Seq<u32>,
    interaction: Option<Seq<bool>>,
    colsample: Option<ColsampleBynode>,
    node_id: u64,
) -> Seq<bool> {
    Seq::new(
        ids.len(),
        |j: int|
            (match interaction {
                Some(allowed) => allowed[j],
                None => true,
            }) && (match colsample {
                Some(cs) => spec_colsample_bits(cs.seed, node_id, ids[j]) < cs.keep_threshold,
                None => true,
            }),
    )
}

/// Candidate features of one node, given the features of the node's
/// histogram bundle and, when interaction constraints are active, which of
/// them the node's active groups allow. `None` means "use the unfiltered
/// bundle": neither filter is active, or colsample alone emptied the node.
/// When both are active and colsample empties the node, the
/// interaction-allowed set is kept so a node never has zero candidates.
pub open spec fn spec_node_candidate_features(
    ids: Seq<u32>,
    interaction: Option<Seq<bool>>,
    colsample: Option<ColsampleBynode>,
    node_id: u64,
) -> Option<Seq<u32>> {
    let composed = select_by_mask(ids, composed_mask(ids, interaction, colsample, node_id));
    if interaction is None && colsample is None {
        None
    } else if composed.len() > 0 {
        Some(composed)
    } else {
        match interaction {
            Some(allowed) => Some(select_by_mask(ids, allowed)),
            None => None,
        }
    }
}

fn filter_by_mask(ids: &Vec<u32>, mask: &Vec<bool>) -> (r: Vec<u32>)
    requires
        ids@.len() == mask@.len(),
    ensures
        r@ == select_by_mask(ids@, mask@),
{
    let mut out: Vec<u32> = Vec::new();
    let mut i: usize = 0;
    while i < ids.len()
        invariant
            ids@.len() == mask@.len(),
            i <= ids@.len(),
            out@ == select_by_mask(ids@.subrange(0, i as int), mask@.subrange(0, i as int)),
        decreases ids.len() - i,
    {
        assert(ids@.subrange(0, i as int + 1).subrange(0, i as int) =~= ids@.subrange(0, i as int));
        assert(mask@.subrange(0, i as int + 1).subrange(0, i as int) =~= mask@.subrange(
            0,
            i as int,
        ));
        if mask[i] {
            out.push(ids[i]);
        }
        i = i + 1;
    }
    assert(ids@.subrange(0, ids@.len() as int) =~= ids@);
    assert(mask@.subrange(0, mask@.len() as int) =~= mask@);
    out
}

/// Candidate features of one node: composes interaction constraints and
/// colsample_bynode (see [`spec_node_candidate_features`]).
pub fn node_candidate_features(
    feature_ids: &Vec<u32>,
    interaction_allowed: Option<&Vec<bool>>,
    colsample: Option<ColsampleBynode>,
    node_id: u64,
) -> (r: Option<Vec<u32>>)
    requires
        match interaction_allowed {
            Some(allowed) => allowed@.len() == feature_ids@.len(),
            None => true,
        },
    ensures
        match (r, spec_node_candidate_features(
            feature_ids@,
            match interaction_allowed {
                Some(allowed) => Some(allowed@),
                None => None,
            },
            colsample,
            node_id,
        )) {
            (Some(v), Some(s)) => v@ == s,
            (None, None) => true,
            _ => false,
        },
{
    let ghost inter = match interaction_allowed {
        Some(allowed) => Some(allowed@),
        None => None::<Seq<bool>>,
    };
    if interaction_allowed.is_none() && colsample.is_none() {
        return None;
    }
    let mut mask: Vec<bool> = Vec::new();
    let mut i: usize = 0;
    while i < feature_ids.len()
        invariant
            i <= feature_ids@.len(),
            match interaction_allowed {
                Some(allowed) => allowed@.len() == feature_ids@.len(),
                None => true,
            },
            inter == match interaction_allowed {
                Some(allowed) => Some(allowed@),
                None => None::<Seq<bool>>,
            },
            mask@ =~= composed_mask(feature_ids@, inter, colsample, node_id).subrange(0, i as int),
        decreases feature_ids.len() - i,
    {
        let allowed = match interaction_allowed {
            Some(allowed) => allowed[i],
            None => true,
        };
        let kept = match colsample {
            Some(cs) => colsample_bynode_keeps_feature(cs.seed, node_id, feature_ids[i], cs.keep_threshold),
            None => true,
        };
        mask.push(allowed && kept);
        i = i + 1;
    }
    assert(mask@ =~= composed_mask(feature_ids@, inter, colsample, node_id));
    let composed = filter_by_mask(feature_ids, &mask);
    if composed.len() > 0 {
        return Some(composed);
    }
    match interaction_allowed {
        Some(allowed) => Some(filter_by_mask(feature_ids, allowed)),
        None => None,
    }
}

proof fn lemma_select_by_mask_nonempty(ids: Seq<u32>, mask: Seq<bool>, j: int)
    requires
        ids.len() == mask.len(),
        0 <= j < ids.len(),
        mask[j],
    ensures
        select_by_mask(ids, mask).len() > 0,
    decreases ids.len(),
{
    let n = (ids.len() - 1) as int;
    if j < n {
        lemma_select_by_mask_nonempty(ids.subrange(0, n), mask.subrange(0, n), j);
    }
}

/// A node never ends up with zero candidate features: with interaction
/// constraints that allow some feature the candidate set is nonempty, and
/// otherwise the node either gets a nonempty filtered set or keeps the
/// unfiltered bundle (`None`).
pub proof fn lemma_node_candidates_nonempty(
    ids: Seq<u32>,
    interaction: Option<Seq<bool>>,
    colsample: Option<ColsampleBynode>,
    node_id: u64,
)
    requires
        match interaction {
            Some(allowed) => allowed.len() == ids.len() && exists|j: int|
                0 <= j < ids.len() && #[trigger] allowed[j],
            None => true,
        },
    ensures
        match spec_node_candidate_features(ids, interaction, colsample, node_id) {
            Some(s) => s.len() > 0,
            None => interaction is None,
        },
{
    if let Some(allowed) = interaction {
        let j = choose|j: int| 0 <= j < ids.len() && #[trigger] allowed[j];
        lemma_select_by_mask_nonempty(ids, allowed, j);
    }
}

} // verus!
