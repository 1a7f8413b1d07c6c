//! DART (Dropouts meet MART) dropout selection.
//!
//! Each existing stump gets a deterministic 24-bit score from
//! `mixed_hash(seed_base, round, stump)`; a stump is a dropout candidate when
//! its score is below its threshold. A probability `p` in `[0, 1]` becomes the
//! threshold `ceil(p * 2^24)`, which makes `score < threshold` exactly the
//! comparison `score / 2^24 < p`; the caller does that conversion (and the
//! per-stump weighting of the weighted sample type), which is floating point.
//! Weight renormalisation after the round is floating point as well.

use vstd::prelude::*;

use crate::hashing::{mixed_hash, spec_mixed_hash, GOLDEN, INDEX_MIX};
use crate::selection::{
    all_true, count_eligible, count_true, indices_where, keys_well_formed,
    kth_threshold, lemma_count_true_all, lemma_indices_where, lemma_indices_where_ext,
    lemma_threshold_characterizes_rank, pack_key, ranked_below, spec_pack_key,
    split_by_threshold,
};
use crate::sampling::all_true_mask;

verus! {

/// Exclusive bound of a dropout score (`2^24`).
pub const DROPOUT_SCORE_SCALE: u64 = 0x100_0000;

/// 24-bit dropout score of one stump in one round.
pub open spec fn spec_dropout_score_bits(seed_base: u64, round_index: u64, stump_idx: int) -> u64 {
    spec_mixed_hash(
        seed_base ^ round_index.wrapping_mul(GOLDEN) ^ (stump_idx as u64).wrapping_mul(INDEX_MIX),
    ) >> 40u64
}

/// Deterministic score of a (seed, round, stump) triple; the dropout draw
/// compares `score / 2^24` against the stump's drop probability.
pub fn dropout_score_bits(seed_base: u64, round_index: u64, stump_idx: usize) -> (r: u64)
    ensures
        r == spec_dropout_score_bits(seed_base, round_index, stump_idx as int),
        r < DROPOUT_SCORE_SCALE,
{
    let mixed = mixed_hash(
        seed_base ^ round_index.wrapping_mul(GOLDEN) ^ (stump_idx as u64).wrapping_mul(INDEX_MIX),
    );
    assert(mixed >> 40u64 < 0x100_0000u64) by (bit_vector);
    mixed >> 40u64
}

/// Keys ordering stumps by (score, index).
pub open spec fn dropout_keys(seed_base: u64, round_index: u64, n: nat) -> Seq<u128> {
    Seq::new(
        n,
        |i: int| spec_pack_key(spec_dropout_score_bits(seed_base, round_index, i), i),
    )
}

/// Stumps whose score falls below their threshold.
pub open spec fn dropout_candidates(
    seed_base: u64,
    round_index: u64,
    thresholds: Seq<u64>,
) -> Seq<bool> {
    Seq::new(
        thresholds.len(),
        |i: int| spec_dropout_score_bits(seed_base, round_index, i) < thresholds[i],
    )
}

/// The dropped stumps, ascending: the candidates, truncated to the
/// `max_drop` with the lowest scores; when no stump is a candidate, the single
/// stump with the lowest score.
pub open spec fn spec_select_dropouts(
    n_existing: nat,
    drop_rate_positive: bool,
    thresholds: Seq<u64>,
    max_drop: nat,
    seed_base: u64,
    round_index: u64,
) -> Seq<u32> {
    let keys = dropout_keys(seed_base, round_index, n_existing);
    let cand = dropout_candidates(seed_base, round_index, thresholds);
    let c = count_true(cand);
    if n_existing == 0 || !drop_rate_positive || max_drop == 0 {
        Seq::empty()
    } else if c == 0 {
        indices_where(n_existing, |i: int| ranked_below(keys, all_true(n_existing), 1, i))
    } else {
        let k = if max_drop < c {
            max_drop
        } else {
            c
        };
        indices_where(n_existing, |i: int| ranked_below(keys, cand, k, i))
    }
}

/// The indices of `v`, widened to `usize`.
fn widen_indices(v: &Vec<u32>) -> (r: Vec<usize>)
    ensures
        r@.len() == v@.len(),
        forall|t: int| 0 <= t < v@.len() ==> r@[t] == v@[t],
{
    let mut out: Vec<usize> = Vec::new();
    let mut j: usize = 0;
    while j < v.len()
        invariant
            j <= v@.len(),
            out@.len() == j,
            forall|t: int| 0 <= t < j ==> out@[t] == v@[t],
        decreases v.len() - j,
    {
        out.push(v[j] as usize);
        j = j + 1;
    }
    out
}

/// Picks the stumps to drop before fitting the tree of `round_index`.
/// `drop_rate_positive` says whether the configured drop rate is above zero;
/// `drop_thresholds[i]` is stump `i`'s drop probability scaled by `2^24`.
/// Returns sorted stump indices; nothing when there is no stump, the drop
/// rate is not positive or `max_drop` is zero; otherwise never more than
/// `max_drop` and at least one.
#[verifier::spinoff_prover]
pub fn select_dropouts(
    n_existing: usize,
    drop_rate_positive: bool,
    drop_thresholds: &Vec<u64>,
    max_drop: usize,
    seed_base: u64,
    round_index: u64,
) -> (r: Vec<usize>)
    requires
        drop_thresholds@.len() == n_existing,
        n_existing <= u32::MAX,
    ensures
        r@.len() == spec_select_dropouts(
            n_existing as nat,
            drop_rate_positive,
            drop_thresholds@,
            max_drop as nat,
            seed_base,
            round_index,
        ).len(),
        forall|j: int|
            0 <= j < r@.len() ==> r@[j] == spec_select_dropouts(
                n_existing as nat,
                drop_rate_positive,
                drop_thresholds@,
                max_drop as nat,
                seed_base,
                round_index,
            )[j],
        r@.len() <= max_drop,
        n_existing > 0 && drop_rate_positive && max_drop > 0 ==> r@.len() >= 1,
        forall|a: int, b: int| 0 <= a < b < r@.len() ==> r@[a] < r@[b],
        forall|a: int| 0 <= a < r@.len() ==> r@[a] < n_existing,
{
    if n_existing == 0 || !drop_rate_positive || max_drop == 0 {
        return Vec::new();
    }
    let ghost keys_spec = dropout_keys(seed_base, round_index, n_existing as nat);
    let ghost cand_spec = dropout_candidates(seed_base, round_index, drop_thresholds@);
    let mut keys: Vec<u128> = Vec::new();
    let mut cand: Vec<bool> = Vec::new();
    let mut i: usize = 0;
    while i < n_existing
        invariant
            n_existing == drop_thresholds@.len() <= u32::MAX,
            i <= n_existing,
            keys_spec == dropout_keys(seed_base, round_index, n_existing as nat),
            cand_spec == dropout_candidates(seed_base, round_index, drop_thresholds@),
            keys@ =~= keys_spec.subrange(0, i as int),
            cand@ =~= cand_spec.subrange(0, i as int),
        decreases n_existing - i,
    {
        let score = dropout_score_bits(seed_base, round_index, i);
        keys.push(pack_key(score, i as u32));
        cand.push(score < drop_thresholds[i]);
        i = i + 1;
    }
    assert(keys@ =~= keys_spec);
    assert(cand@ =~= cand_spec);
    let c = count_eligible(&cand);
    let chosen: Vec<u32>;
    if c == 0 {
        let every = all_true_mask(n_existing);
        proof {
            lemma_count_true_all(n_existing as nat);
            assert(keys_well_formed(keys@, every@));
        }
        let p = kth_threshold(&keys, &every, 1);
        let (sel, _) = split_by_threshold(&keys, &every, &every, p);
        let ghost pred = |j: int| ranked_below(keys_spec, all_true(n_existing as nat), 1, j);
        proof {
            assert forall|j: int| 0 <= j < n_existing implies #[trigger] pred(j) == (every@[j]
                && keys@[j] < p) by {
                lemma_threshold_characterizes_rank(keys@, every@, 1, p, j);
            }
            lemma_indices_where_ext(n_existing as nat, pred, |j: int| every@[j] && keys@[j] < p);
            lemma_indices_where(n_existing as nat, pred);
        }
        chosen = sel;
    } else {
        let k: usize = if max_drop < c { max_drop } else { c };
        proof {
            assert(keys_well_formed(keys@, cand@));
        }
        let p = kth_threshold(&keys, &cand, k);
        let (sel, _) = split_by_threshold(&keys, &cand, &cand, p);
        let ghost pred = |j: int| ranked_below(keys_spec, cand_spec, k as nat, j);
        proof {
            assert forall|j: int| 0 <= j < n_existing implies #[trigger] pred(j) == (cand@[j]
                && keys@[j] < p) by {
                lemma_threshold_characterizes_rank(keys@, cand@, k as nat, p, j);
            }
            lemma_indices_where_ext(n_existing as nat, pred, |j: int| cand@[j] && keys@[j] < p);
            lemma_indices_where(n_existing as nat, pred);
        }
        chosen = sel;
    }
    widen_indices(&chosen)
}

} // verus!
