//! Deterministic row/feature sampling and the integer half of GOSS.
//!
//! Every draw uses the stateless splitmix64-derived [`mixed_hash`]: which
//! indices are kept depends only on the seed base, the round and the index,
//! never on thread count or iteration order. The fraction-to-count
//! conversions (`ceil(n * rate)` in `f32`) and the gradient-magnitude ranking
//! of GOSS are floating point and are done by the caller, which hands the
//! resulting counts and masks to the functions here.

use vstd::prelude::*;

use crate::clock::unix_time_nanos;
use crate::hashing::{mixed_hash, spec_mixed_hash, GOLDEN, INDEX_MIX};
use crate::selection::{
    all_true, count_below, count_eligible, count_true, indices_where, keys_well_formed,
    kth_threshold, lemma_count_below_monotone, lemma_count_true_all, lemma_indices_where,
    lemma_indices_where_ext, strictly_increasing,
    lemma_threshold_characterizes_rank, pack_key, ranked_below, spec_pack_key,
    split_by_threshold, KEY_LIMIT,
};

verus! {

/// Seed base for one fit: the user seed when deterministic, otherwise the
/// seed mixed with the wall clock.
pub fn sampling_seed_base(seed: u64, deterministic: bool) -> (r: u64)
    ensures
        deterministic ==> r == seed,
{
    if deterministic {
        return seed;
    }
    let now_nanos = unix_time_nanos();
    seed_with_clock(seed, now_nanos)
}

/// Mixes a clock reading into a seed.
pub fn seed_with_clock(seed: u64, now_nanos: u64) -> (r: u64)
    ensures
        r == seed ^ now_nanos,
{
    seed ^ now_nanos
}

pub open spec fn spec_round_seed(seed_base: u64, round_index: u64) -> u64 {
    spec_mixed_hash(seed_base ^ round_index.wrapping_mul(GOLDEN))
}

/// Per-round seed derived from the fit's seed base.
pub fn round_seed_for(seed_base: u64, round_index: u64) -> (r: u64)
    ensures
        r == spec_round_seed(seed_base, round_index),
{
    mixed_hash(seed_base ^ round_index.wrapping_mul(GOLDEN))
}

pub open spec fn spec_selection_hash(round_seed: u64, index: int) -> u64 {
    spec_mixed_hash(round_seed ^ (index as u64).wrapping_mul(INDEX_MIX))
}

/// Rank key for one index: rows are ordered by a hash of (round seed, index),
/// with the index as tie-break, so the order is a strict total order.
pub fn selection_key(round_seed: u64, index: usize) -> (r: (u64, u32))
    requires
        index <= u32::MAX,
    ensures
        r.0 == spec_selection_hash(round_seed, index as int),
        r.1 == index,
{
    let index_seed = (index as u64).wrapping_mul(INDEX_MIX);
    (mixed_hash(round_seed ^ index_seed), index as u32)
}

/// Packed rank keys of `0..n` for one round.
pub open spec fn sample_keys(round_seed: u64, n: nat) -> Seq<u128> {
    Seq::new(n, |j: int| spec_pack_key(spec_selection_hash(round_seed, j), j))
}

/// Rows kept by uniform subsampling: the `min(keep_count, total)` indices of
/// `0..total` with the smallest rank keys, ascending.
pub open spec fn spec_sampled_rows(seed_base: u64, round_index: u64, total: nat, keep_count: nat) -> Seq<u32> {
    let keys = sample_keys(spec_round_seed(seed_base, round_index), total);
    let k = if keep_count < total { keep_count } else { total };
    indices_where(total, |i: int| ranked_below(keys, all_true(total), k, i))
}

/// The complement of [`spec_sampled_rows`] in `0..total`, ascending.
pub open spec fn spec_unsampled_rows(seed_base: u64, round_index: u64, total: nat, keep_count: nat) -> Seq<u32> {
    let keys = sample_keys(spec_round_seed(seed_base, round_index), total);
    let k = if keep_count < total { keep_count } else { total };
    indices_where(total, |i: int| !ranked_below(keys, all_true(total), k, i))
}

pub proof fn lemma_sample_keys_well_formed(round_seed: u64, n: nat)
    requires
        n <= 0x1_0000_0000,
    ensures
        keys_well_formed(sample_keys(round_seed, n), all_true(n)),
{
}

/// Builds the vector of `n` `true`s.
pub fn all_true_mask(n: usize) -> (r: Vec<bool>)
    ensures
        r@ == all_true(n as nat),
{
    let mut mask: Vec<bool> = Vec::new();
    let mut i: usize = 0;
    while i < n
        invariant
            i <= n,
            mask@ == all_true(i as nat),
        decreases n - i,
    {
        mask.push(true);
        i = i + 1;
        assert(mask@ =~= all_true(i as nat));
    }
    mask
}

fn sample_key_vec(round_seed: u64, n: usize) -> (r: Vec<u128>)
    requires
        n <= 0x1_0000_0000,
    ensures
        r@ == sample_keys(round_seed, n as nat),
{
    let mut keys: Vec<u128> = Vec::new();
    let mut i: usize = 0;
    while i < n
        invariant
            i <= n <= 0x1_0000_0000,
            keys@ =~= sample_keys(round_seed, i as nat),
        decreases n - i,
    {
        let (hash, index) = selection_key(round_seed, i);
        keys.push(pack_key(hash, index));
        i = i + 1;
    }
    keys
}

/// Split `0..total_count` into a kept sample of `min(keep_count, total_count)`
/// indices (smallest rank keys for this round) and its complement, both
/// ascending. `keep_count` is the caller's `ceil(total * subsample)` clamp.
pub fn sampled_index_partition(
    total_count: usize,
    keep_count: usize,
    seed_base: u64,
    round_index: u64,
) -> (r: (Vec<u32>, Vec<u32>))
    requires
        total_count <= u32::MAX,
    ensures
        r.0@ == spec_sampled_rows(seed_base, round_index, total_count as nat, keep_count as nat),
        r.1@ == spec_unsampled_rows(seed_base, round_index, total_count as nat, keep_count as nat),
        r.0@.len() == if keep_count < total_count { keep_count } else { total_count },
        r.0@.len() + r.1@.len() == total_count,
{
    let ghost rs = spec_round_seed(seed_base, round_index);
    let ghost skeys = sample_keys(rs, total_count as nat);
    let k: usize = if keep_count < total_count { keep_count } else { total_count };
    let ghost sel_pred = |i: int| ranked_below(skeys, all_true(total_count as nat), k as nat, i);
    let ghost exc_pred = |i: int| !ranked_below(skeys, all_true(total_count as nat), k as nat, i);
    let round_seed = round_seed_for(seed_base, round_index);
    let keys = sample_key_vec(round_seed, total_count);
    let elig = all_true_mask(total_count);
    proof {
        lemma_sample_keys_well_formed(rs, total_count as nat);
        lemma_count_true_all(total_count as nat);
    }
    let p = kth_threshold(&keys, &elig, k);
    let (selected, excluded) = split_by_threshold(&keys, &elig, &elig, p);
    proof {
        assert forall|i: int| 0 <= i < total_count implies #[trigger] sel_pred(i) == (elig@[i]
            && keys@[i] < p) by {
            lemma_threshold_characterizes_rank(keys@, elig@, k as nat, p, i);
        }
        assert forall|i: int| 0 <= i < total_count implies #[trigger] exc_pred(i) == (elig@[i]
            && !(elig@[i] && keys@[i] < p)) by {
            lemma_threshold_characterizes_rank(keys@, elig@, k as nat, p, i);
        }
        lemma_indices_where_ext(total_count as nat, sel_pred, |i: int| elig@[i] && keys@[i] < p);
        lemma_indices_where_ext(
            total_count as nat,
            exc_pred,
            |i: int| elig@[i] && !(elig@[i] && keys@[i] < p),
        );
        lemma_partition_sizes(total_count as nat, sel_pred, exc_pred);
    }
    (selected, excluded)
}

/// A predicate and its negation split `0..n` between them.
pub proof fn lemma_partition_sizes(n: nat, p1: spec_fn(int) -> bool, p2: spec_fn(int) -> bool)
    requires
        forall|i: int| 0 <= i < n ==> #[trigger] p1(i) == !p2(i),
    ensures
        indices_where(n, p1).len() + indices_where(n, p2).len() == n,
    decreases n,
{
    if n > 0 {
        lemma_partition_sizes((n - 1) as nat, p1, p2);
    }
}

/// The kept and dropped rows of a round are both ascending and split
/// `0..total` between them: every index is in exactly one of the two lists.
pub proof fn lemma_sampled_rows_partition(seed_base: u64, round_index: u64, total: nat, keep_count: nat)
    requires
        total <= u32::MAX,
    ensures
        strictly_increasing(spec_sampled_rows(seed_base, round_index, total, keep_count)),
        strictly_increasing(spec_unsampled_rows(seed_base, round_index, total, keep_count)),
        forall|x: int|
            0 <= x < total ==> (#[trigger] spec_sampled_rows(seed_base, round_index, total, keep_count).contains(
                x as u32,
            ) <==> !spec_unsampled_rows(seed_base, round_index, total, keep_count).contains(
                x as u32,
            )),
{
    let keys = sample_keys(spec_round_seed(seed_base, round_index), total);
    let k = if keep_count < total {
        keep_count
    } else {
        total
    };
    let sel = |i: int| ranked_below(keys, all_true(total), k, i);
    let exc = |i: int| !ranked_below(keys, all_true(total), k, i);
    lemma_indices_where(total, sel);
    lemma_indices_where(total, exc);
    let s = spec_sampled_rows(seed_base, round_index, total, keep_count);
    let u = spec_unsampled_rows(seed_base, round_index, total, keep_count);
    assert forall|x: int| 0 <= x < total implies (#[trigger] s.contains(x as u32) <==> !u.contains(
        x as u32,
    )) by {
        if s.contains(x as u32) {
            let a = choose|a: int| 0 <= a < s.len() && s[a] == x as u32;
            assert(sel(s[a] as int));
            if u.contains(x as u32) {
                let b = choose|b: int| 0 <= b < u.len() && u[b] == x as u32;
                assert(exc(u[b] as int));
            }
        } else {
            if !sel(x) {
                assert(exc(x));
            }
        }
    }
}

/// The kept indices of [`sampled_index_partition`], widened to `usize`.
pub fn sampled_indices(total_count: usize, keep_count: usize, seed_base: u64, round_index: u64) -> (r:
    Vec<usize>)
    requires
        total_count <= u32::MAX,
    ensures
        r@.len() == spec_sampled_rows(seed_base, round_index, total_count as nat, keep_count as nat).len(),
        forall|j: int|
            0 <= j < r@.len() ==> r@[j] == spec_sampled_rows(
                seed_base,
                round_index,
                total_count as nat,
                keep_count as nat,
            )[j],
{
    let (selected, _) = sampled_index_partition(total_count, keep_count, seed_base, round_index);
    let mut out: Vec<usize> = Vec::new();
    let mut i: usize = 0;
    while i < selected.len()
        invariant
            i <= selected@.len(),
            out@.len() == i,
            forall|j: int| 0 <= j < i ==> out@[j] == selected@[j],
        decreases selected.len() - i,
    {
        out.push(selected[i] as usize);
        i = i + 1;
    }
    out
}

/// Row flavour of [`sampled_indices`].
pub fn sampled_row_indices(row_count: usize, keep_count: usize, seed_base: u64, round_index: u64) -> (r:
    Vec<u32>)
    requires
        row_count <= u32::MAX,
    ensures
        r@ == spec_sampled_rows(seed_base, round_index, row_count as nat, keep_count as nat),
{
    let (selected, _) = sampled_index_partition(row_count, keep_count, seed_base, round_index);
    selected
}

/// Sorted selected and excluded row partitions of one round.
#[derive(Clone, Debug, PartialEq, Eq)]
pub struct RoundRowSelection {
    pub selected: Vec<u32>,
    pub excluded: Vec<u32>,
}

/// Position of row `r` among the active rows (active rows before it).
pub open spec fn active_position(active: Seq<bool>, r: int) -> nat {
    count_true(active.subrange(0, r))
}

/// Rank keys of the active rows: each active row is keyed by its position
/// among the active rows, as if only the active rows existed.
pub open spec fn active_keys(round_seed: u64, active: Seq<bool>) -> Seq<u128> {
    Seq::new(
        active.len(),
        |r: int|
            if active[r] {
                spec_pack_key(
                    spec_selection_hash(round_seed, active_position(active, r) as int),
                    active_position(active, r) as int,
                )
            } else {
                0u128
            },
    )
}

/// Rows kept when only the `active` rows may be sampled.
pub open spec fn spec_active_selected(seed_base: u64, round_index: u64, active: Seq<bool>, keep_count: nat) -> Seq<u32> {
    let keys = active_keys(spec_round_seed(seed_base, round_index), active);
    let m = count_true(active);
    let k = if keep_count < m { keep_count } else { m };
    indices_where(active.len(), |r: int| ranked_below(keys, active, k, r))
}

/// Every row not kept by [`spec_active_selected`], inactive rows included.
pub open spec fn spec_active_excluded(seed_base: u64, round_index: u64, active: Seq<bool>, keep_count: nat) -> Seq<u32> {
    let keys = active_keys(spec_round_seed(seed_base, round_index), active);
    let m = count_true(active);
    let k = if keep_count < m { keep_count } else { m };
    indices_where(active.len(), |r: int| !ranked_below(keys, active, k, r))
}

pub proof fn lemma_count_true_prefix_strict(a: Seq<bool>, r1: int, r2: int)
    requires
        0 <= r1 < r2 <= a.len(),
        a[r1],
    ensures
        count_true(a.subrange(0, r1)) + 1 <= count_true(a.subrange(0, r2)),
    decreases r2 - r1,
{
    let s = a.subrange(0, r2);
    assert(s.subrange(0, r2 - 1) =~= a.subrange(0, r2 - 1));
    if r2 - 1 == r1 {
    } else {
        lemma_count_true_prefix_strict(a, r1, r2 - 1);
    }
}

pub proof fn lemma_count_true_prefix_bound(a: Seq<bool>, r: int)
    requires
        0 <= r <= a.len(),
    ensures
        count_true(a.subrange(0, r)) <= r,
{
    crate::selection::lemma_count_true_bound(a.subrange(0, r));
}

pub proof fn lemma_active_keys_well_formed(round_seed: u64, active: Seq<bool>)
    requires
        active.len() <= 0x1_0000_0000,
    ensures
        keys_well_formed(active_keys(round_seed, active), active),
{
    let keys = active_keys(round_seed, active);
    assert forall|i: int, j: int|
        0 <= i < keys.len() && 0 <= j < keys.len() && i != j && active[i] && active[j] implies keys[i]
        != keys[j] by {
        lemma_count_true_prefix_bound(active, i);
        lemma_count_true_prefix_bound(active, j);
        if i < j {
            lemma_count_true_prefix_strict(active, i, j);
        } else {
            lemma_count_true_prefix_strict(active, j, i);
        }
    }
    assert forall|i: int| 0 <= i < keys.len() && active[i] implies keys[i] < KEY_LIMIT by {
        lemma_count_true_prefix_bound(active, i);
    }
}

/// Uniform subsampling restricted to the active rows (rows with a positive
/// hessian): `min(keep_count, active count)` active rows are kept, chosen as
/// if the active rows alone were sampled; every other row is excluded.
pub fn select_rows_among_active(
    active: &Vec<bool>,
    keep_count: usize,
    seed_base: u64,
    round_index: u64,
) -> (r: RoundRowSelection)
    requires
        active@.len() <= u32::MAX,
    ensures
        r.selected@ == spec_active_selected(seed_base, round_index, active@, keep_count as nat),
        r.excluded@ == spec_active_excluded(seed_base, round_index, active@, keep_count as nat),
{
    let ghost rs = spec_round_seed(seed_base, round_index);
    let ghost akeys = active_keys(rs, active@);
    let n = active.len();
    let m = count_eligible(active);
    let k: usize = if keep_count < m { keep_count } else { m };
    let round_seed = round_seed_for(seed_base, round_index);
    let mut keys: Vec<u128> = Vec::new();
    let mut position: usize = 0;
    let mut r: usize = 0;
    while r < n
        invariant
            n == active@.len() <= u32::MAX,
            r <= n,
            round_seed == rs,
            akeys == active_keys(rs, active@),
            position == count_true(active@.subrange(0, r as int)),
            keys@.len() == r,
            forall|j: int| 0 <= j < r ==> keys@[j] == akeys[j],
        decreases n - r,
    {
        proof {
            lemma_count_true_prefix_bound(active@, r as int);
            assert(active@.subrange(0, r as int + 1).subrange(0, r as int) =~= active@.subrange(
                0,
                r as int,
            ));
        }
        if active[r] {
            let (hash, index) = selection_key(round_seed, position);
            keys.push(pack_key(hash, index));
            position = position + 1;
        } else {
            keys.push(0u128);
        }
        r = r + 1;
    }
    assert(keys@ =~= akeys);
    proof {
        lemma_active_keys_well_formed(rs, active@);
    }
    let p = kth_threshold(&keys, active, k);
    let every = all_true_mask(n);
    let (selected, excluded) = split_by_threshold(&keys, active, &every, p);
    let ghost sel_pred = |i: int| ranked_below(akeys, active@, k as nat, i);
    let ghost exc_pred = |i: int| !ranked_below(akeys, active@, k as nat, i);
    proof {
        assert forall|i: int| 0 <= i < n implies #[trigger] sel_pred(i) == (active@[i] && keys@[i]
            < p) by {
            lemma_threshold_characterizes_rank(keys@, active@, k as nat, p, i);
        }
        assert forall|i: int| 0 <= i < n implies #[trigger] exc_pred(i) == (every@[i] && !(
        active@[i] && keys@[i] < p)) by {
            lemma_threshold_characterizes_rank(keys@, active@, k as nat, p, i);
        }
        lemma_indices_where_ext(n as nat, sel_pred, |i: int| active@[i] && keys@[i] < p);
        lemma_indices_where_ext(
            n as nat,
            exc_pred,
            |i: int| every@[i] && !(active@[i] && keys@[i] < p),
        );
    }
    RoundRowSelection { selected, excluded }
}

/// When every row is active, sampling among the active rows is the plain
/// uniform partition of `0..row_count` (the shortcut the training loop takes).
pub proof fn lemma_all_active_matches_row_sampling(
    seed_base: u64,
    round_index: u64,
    row_count: nat,
    keep_count: nat,
)
    requires
        row_count <= u32::MAX,
    ensures
        spec_active_selected(seed_base, round_index, all_true(row_count), keep_count)
            == spec_sampled_rows(seed_base, round_index, row_count, keep_count),
        spec_active_excluded(seed_base, round_index, all_true(row_count), keep_count)
            == spec_unsampled_rows(seed_base, round_index, row_count, keep_count),
{
    let rs = spec_round_seed(seed_base, round_index);
    let a = all_true(row_count);
    assert forall|r: int| 0 <= r <= row_count implies #[trigger] count_true(a.subrange(0, r)) == r by {
        assert(a.subrange(0, r) =~= all_true(r as nat));
        lemma_count_true_all(r as nat);
    }
    assert(active_keys(rs, a) =~= sample_keys(rs, row_count)) by {
        assert forall|r: int| 0 <= r < row_count implies active_keys(rs, a)[r] == sample_keys(
            rs,
            row_count,
        )[r] by {
            assert(count_true(a.subrange(0, r)) == r);
        }
    }
    lemma_count_true_all(row_count);
}

/// The integer half of gradient-based one-side sampling.
#[derive(Clone, Debug, PartialEq, Eq)]
pub struct GossPartition {
    /// Rows kept for their large gradient (ascending).
    pub top: Vec<u32>,
    /// Rows sampled from the rest (ascending); their gradients get amplified.
    pub other: Vec<u32>,
    /// Rest rows left out of the round (ascending).
    pub excluded: Vec<u32>,
    /// Rows the round trains on: the top rows and the sampled rest rows,
    /// ascending.
    pub selected: Vec<u32>,
}

/// Rank keys of GOSS's low-gradient draw.
pub open spec fn goss_keys(seed_base: u64, round_index: u64, n: nat) -> Seq<u128> {
    Seq::new(
        n,
        |i: int|
            spec_pack_key(
                spec_mixed_hash(
                    seed_base ^ round_index.wrapping_mul(GOLDEN) ^ (i as u64).wrapping_mul(
                        INDEX_MIX,
                    ),
                ),
                i,
            ),
    )
}

pub open spec fn rest_mask(is_top: Seq<bool>) -> Seq<bool> {
    Seq::new(is_top.len(), |i: int| !is_top[i])
}

pub open spec fn spec_goss_other_count(is_top: Seq<bool>, other_count: nat) -> nat {
    let m = count_true(rest_mask(is_top));
    if other_count < m {
        other_count
    } else {
        m
    }
}

/// Given which rows were kept as the top-by-gradient set, draws
/// `min(other_count, rest)` of the remaining rows by hash rank and reports the
/// three ascending index lists.
pub fn goss_partition(is_top: &Vec<bool>, other_count: usize, seed_base: u64, round_index: u64) -> (r:
    GossPartition)
    requires
        is_top@.len() <= u32::MAX,
    ensures
        r.top@ == indices_where(is_top@.len(), |i: int| is_top@[i]),
        r.other@ == indices_where(
            is_top@.len(),
            |i: int|
                ranked_below(
                    goss_keys(seed_base, round_index, is_top@.len()),
                    rest_mask(is_top@),
                    spec_goss_other_count(is_top@, other_count as nat),
                    i,
                ),
        ),
        r.excluded@ == indices_where(
            is_top@.len(),
            |i: int|
                !is_top@[i] && !ranked_below(
                    goss_keys(seed_base, round_index, is_top@.len()),
                    rest_mask(is_top@),
                    spec_goss_other_count(is_top@, other_count as nat),
                    i,
                ),
        ),
        r.selected@ == indices_where(
            is_top@.len(),
            |i: int|
                is_top@[i] || ranked_below(
                    goss_keys(seed_base, round_index, is_top@.len()),
                    rest_mask(is_top@),
                    spec_goss_other_count(is_top@, other_count as nat),
                    i,
                ),
        ),
        r.other@.len() == spec_goss_other_count(is_top@, other_count as nat),
{
    let n = is_top.len();
    let ghost gkeys = goss_keys(seed_base, round_index, n as nat);
    let ghost rest_spec = rest_mask(is_top@);
    let mut rest: Vec<bool> = Vec::new();
    let mut keys: Vec<u128> = Vec::new();
    let mut top: Vec<u32> = Vec::new();
    let ghost top_pred = |i: int| is_top@[i];
    let mut i: usize = 0;
    while i < n
        invariant
            n == is_top@.len() <= u32::MAX,
            i <= n,
            gkeys == goss_keys(seed_base, round_index, n as nat),
            top_pred == (|j: int| is_top@[j]),
            rest@ =~= rest_mask(is_top@).subrange(0, i as int),
            keys@ =~= gkeys.subrange(0, i as int),
            top@ == indices_where(i as nat, top_pred),
        decreases n - i,
    {
        assert(indices_where((i + 1) as nat, top_pred) == if top_pred(i as int) {
            indices_where(i as nat, top_pred).push(i as u32)
        } else {
            indices_where(i as nat, top_pred)
        });
        let h = mixed_hash(
            seed_base ^ round_index.wrapping_mul(GOLDEN) ^ (i as u64).wrapping_mul(INDEX_MIX),
        );
        keys.push(pack_key(h, i as u32));
        rest.push(!is_top[i]);
        if is_top[i] {
            top.push(i as u32);
        }
        i = i + 1;
    }
    assert(rest@ =~= rest_spec);
    assert(keys@ =~= gkeys);
    let m = count_eligible(&rest);
    let k: usize = if other_count < m { other_count } else { m };
    proof {
        assert(keys_well_formed(keys@, rest@));
    }
    let p = kth_threshold(&keys, &rest, k);
    let (other, excluded) = split_by_threshold(&keys, &rest, &rest, p);
    let ghost sel_pred = |j: int| ranked_below(gkeys, rest_spec, k as nat, j);
    let ghost exc_pred = |j: int| !is_top@[j] && !ranked_below(gkeys, rest_spec, k as nat, j);
    proof {
        assert forall|j: int| 0 <= j < n implies #[trigger] sel_pred(j) == (rest@[j] && keys@[j]
            < p) by {
            lemma_threshold_characterizes_rank(keys@, rest@, k as nat, p, j);
        }
        assert forall|j: int| 0 <= j < n implies #[trigger] exc_pred(j) == (rest@[j] && !(
        rest@[j] && keys@[j] < p)) by {
            lemma_threshold_characterizes_rank(keys@, rest@, k as nat, p, j);
        }
        lemma_indices_where_ext(n as nat, sel_pred, |j: int| rest@[j] && keys@[j] < p);
        lemma_indices_where_ext(n as nat, exc_pred, |j: int| rest@[j] && !(rest@[j] && keys@[j] < p));
    }
    let ghost union_pred = |j: int| is_top@[j] || ranked_below(gkeys, rest_spec, k as nat, j);
    let mut selected: Vec<u32> = Vec::new();
    let mut t: usize = 0;
    while t < n
        invariant
            n == is_top@.len() <= u32::MAX,
            n == keys@.len(),
            n == rest@.len(),
            t <= n,
            keys_well_formed(keys@, rest@),
            count_below(keys@, rest@, p) == k,
            keys@ == gkeys,
            rest@ == rest_spec,
            union_pred == (|j: int| is_top@[j] || ranked_below(gkeys, rest_spec, k as nat, j)),
            selected@ == indices_where(t as nat, union_pred),
        decreases n - t,
    {
        proof {
            lemma_threshold_characterizes_rank(keys@, rest@, k as nat, p, t as int);
        }
        assert(indices_where((t + 1) as nat, union_pred) == if union_pred(t as int) {
            indices_where(t as nat, union_pred).push(t as u32)
        } else {
            indices_where(t as nat, union_pred)
        });
        if is_top[t] || (rest[t] && keys[t] < p) {
            selected.push(t as u32);
        }
        t = t + 1;
    }
    GossPartition { top, other, excluded, selected }
}

/// Magnitude of the `f32` whose bits are `bits` (sign bit cleared); for
/// non-NaN values the order of these integers is the order of `|g|`.
pub open spec fn spec_magnitude_bits(bits: u32) -> u32 {
    bits & 0x7FFF_FFFFu32
}

/// Keys ranking rows by descending gradient magnitude, then ascending index.
pub open spec fn goss_top_keys(gradient_bits: Seq<u32>) -> Seq<u128> {
    Seq::new(
        gradient_bits.len(),
        |i: int| spec_pack_key((0x7FFF_FFFFu32 - spec_magnitude_bits(gradient_bits[i])) as u64, i),
    )
}

/// The `min(top_count, n)` rows with the largest gradient magnitudes (ties
/// to the lower index).
pub open spec fn spec_goss_top_mask(gradient_bits: Seq<u32>, top_count: nat) -> Seq<bool> {
    let n = gradient_bits.len();
    let k = if top_count < n {
        top_count
    } else {
        n
    };
    Seq::new(n, |i: int| ranked_below(goss_top_keys(gradient_bits), all_true(n), k, i))
}

/// Marks the `min(top_count, n)` rows with the largest `|gradient|`,
/// gradients given as `f32` bit patterns; ties go to the lower index.
pub fn goss_top_mask(gradient_bits: &Vec<u32>, top_count: usize) -> (r: Vec<bool>)
    requires
        gradient_bits@.len() <= u32::MAX,
    ensures
        r@ == spec_goss_top_mask(gradient_bits@, top_count as nat),
{
    let n = gradient_bits.len();
    let ghost tkeys = goss_top_keys(gradient_bits@);
    let k: usize = if top_count < n { top_count } else { n };
    let mut keys: Vec<u128> = Vec::new();
    let mut i: usize = 0;
    while i < n
        invariant
            n == gradient_bits@.len() <= u32::MAX,
            i <= n,
            tkeys == goss_top_keys(gradient_bits@),
            keys@ =~= tkeys.subrange(0, i as int),
        decreases n - i,
    {
        let bits = gradient_bits[i];
        let magnitude = bits & 0x7FFF_FFFFu32;
        assert(bits & 0x7FFF_FFFFu32 <= 0x7FFF_FFFFu32) by (bit_vector);
        keys.push(pack_key((0x7FFF_FFFFu32 - magnitude) as u64, i as u32));
        i = i + 1;
    }
    assert(keys@ =~= tkeys);
    let every = all_true_mask(n);
    proof {
        lemma_count_true_all(n as nat);
        assert(keys_well_formed(keys@, every@));
    }
    let p = kth_threshold(&keys, &every, k);
    let mut mask: Vec<bool> = Vec::new();
    let mut j: usize = 0;
    while j < n
        invariant
            n == keys@.len(),
            n == every@.len(),
            j <= n,
            keys@ == tkeys,
            every@ == all_true(n as nat),
            keys_well_formed(keys@, every@),
            count_below(keys@, every@, p) == k,
            mask@.len() == j,
            forall|t: int| 0 <= t < j ==> mask@[t] == ranked_below(tkeys, all_true(n as nat), k as nat, t),
        decreases n - j,
    {
        proof {
            lemma_threshold_characterizes_rank(keys@, every@, k as nat, p, j as int);
        }
        mask.push(keys[j] < p);
        j = j + 1;
    }
    assert(mask@ =~= spec_goss_top_mask(gradient_bits@, top_count as nat));
    mask
}

/// Gradient-based one-side sampling over `n` rows: the `top_count` rows with
/// the largest `|gradient|` are kept, and `min(other_count, rest)` of the
/// remaining rows are drawn by hash rank (see [`goss_partition`]). The
/// counts are the caller's `ceil(n * rate)` conversions; the amplification
/// of the drawn rows is floating point and also the caller's.
pub fn goss_index_partition(
    gradient_bits: &Vec<u32>,
    top_count: usize,
    other_count: usize,
    seed_base: u64,
    round_index: u64,
) -> (r: GossPartition)
    requires
        gradient_bits@.len() <= u32::MAX,
    ensures
        ({
            let n = gradient_bits@.len();
            let is_top = spec_goss_top_mask(gradient_bits@, top_count as nat);
            let keys = goss_keys(seed_base, round_index, n);
            let k = spec_goss_other_count(is_top, other_count as nat);
            &&& r.top@ == indices_where(n, |i: int| is_top[i])
            &&& r.other@ == indices_where(n, |i: int| ranked_below(keys, rest_mask(is_top), k, i))
            &&& r.excluded@ == indices_where(
                n,
                |i: int| !is_top[i] && !ranked_below(keys, rest_mask(is_top), k, i),
            )
            &&& r.selected@ == indices_where(
                n,
                |i: int| is_top[i] || ranked_below(keys, rest_mask(is_top), k, i),
            )
            &&& r.other@.len() == k
        }),
{
    let is_top = goss_top_mask(gradient_bits, top_count);
    goss_partition(&is_top, other_count, seed_base, round_index)
}

/// GOSS keeps the largest gradients: a row kept as a top row has a
/// magnitude at least that of any row left out of the top set.
pub proof fn lemma_goss_top_rows_dominate(gradient_bits: Seq<u32>, top_count: nat, i: int, j: int)
    requires
        gradient_bits.len() <= u32::MAX,
        0 <= i < gradient_bits.len(),
        0 <= j < gradient_bits.len(),
        spec_goss_top_mask(gradient_bits, top_count)[i],
        !spec_goss_top_mask(gradient_bits, top_count)[j],
    ensures
        spec_magnitude_bits(gradient_bits[i]) >= spec_magnitude_bits(gradient_bits[j]),
{
    let n = gradient_bits.len();
    let keys = goss_top_keys(gradient_bits);
    let every = all_true(n);
    if keys[j] <= keys[i] {
        lemma_count_below_monotone(keys, every, keys[j], keys[i]);
    }
    assert(keys[i] < keys[j]);
    let mi = spec_magnitude_bits(gradient_bits[i]);
    let mj = spec_magnitude_bits(gradient_bits[j]);
    let bi = gradient_bits[i];
    let bj = gradient_bits[j];
    assert(bi & 0x7FFF_FFFFu32 <= 0x7FFF_FFFFu32) by (bit_vector);
    assert(bj & 0x7FFF_FFFFu32 <= 0x7FFF_FFFFu32) by (bit_vector);
    let hi = (0x7FFF_FFFFu32 - mi) as u64;
    let hj = (0x7FFF_FFFFu32 - mj) as u64;
    assert(keys[i] == spec_pack_key(hi, i));
    assert(keys[j] == spec_pack_key(hj, j));
    if hi > hj {
        assert(hi as int * 0x1_0000_0000 >= hj as int * 0x1_0000_0000 + 0x1_0000_0000)
            by (nonlinear_arith)
            requires
                hi > hj,
        ;
    }
}

} // verus!
