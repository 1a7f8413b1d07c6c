use alloygbm_engine::hashing::{mixed_hash, splitmix_next, GOLDEN};
use alloygbm_engine::sampling::{
    all_true_mask, goss_index_partition, goss_partition, goss_top_mask, round_seed_for, sampled_index_partition, sampled_indices,
    sampled_row_indices, sampling_seed_base, seed_with_clock, select_rows_among_active,
    selection_key,
};

#[test]
fn mixed_hash_matches_splitmix64_outputs() {
    assert_eq!(mixed_hash(0), 0xe220_a839_7b1d_cdaf);
    assert_eq!(mixed_hash(1), 0x910a_2dec_8902_5cc1);
    assert_eq!(mixed_hash(42), 0xbdd7_3226_2feb_6e95);
}

#[test]
fn splitmix_step_returns_hash_of_previous_state() {
    let mut state = 0u64;
    let first = splitmix_next(&mut state);
    assert_eq!(first, mixed_hash(0));
    assert_eq!(state, GOLDEN);
    let second = splitmix_next(&mut state);
    assert_eq!(second, mixed_hash(GOLDEN));
    assert_ne!(first, second);
}

#[test]
fn round_seed_and_selection_key_match_reference() {
    assert_eq!(round_seed_for(42, 0), 0xbdd7_3226_2feb_6e95);
    assert_eq!(round_seed_for(42, 3), 0x6545_d3b4_8b05_c974);
    assert_eq!(selection_key(round_seed_for(42, 0), 5), (0x3c80_d756_d857_413b, 5));
}

#[test]
fn deterministic_seed_base_is_the_seed() {
    assert_eq!(sampling_seed_base(1234, true), 1234);
    assert_eq!(seed_with_clock(0b1100, 0b1010), 0b0110);
}

#[test]
fn sampled_partition_matches_reference() {
    let (kept, rest) = sampled_index_partition(10, 4, 42, 0);
    assert_eq!(kept, vec![3, 4, 6, 8]);
    assert_eq!(rest, vec![0, 1, 2, 5, 7, 9]);
    let (kept, rest) = sampled_index_partition(10, 4, 42, 1);
    assert_eq!(kept, vec![2, 3, 6, 8]);
    assert_eq!(rest, vec![0, 1, 4, 5, 7, 9]);
    assert_eq!(sampled_row_indices(20, 7, 7, 3), vec![3, 4, 7, 9, 11, 12, 19]);
    assert_eq!(sampled_indices(20, 7, 7, 3), vec![3usize, 4, 7, 9, 11, 12, 19]);
}

#[test]
fn sampled_partition_covers_every_index_once() {
    let (kept, rest) = sampled_index_partition(37, 11, 99, 5);
    assert_eq!(kept.len(), 11);
    assert_eq!(kept.len() + rest.len(), 37);
    let mut all: Vec<u32> = kept.iter().chain(rest.iter()).copied().collect();
    all.sort_unstable();
    assert_eq!(all, (0..37).collect::<Vec<u32>>());
}

#[test]
fn keep_count_at_or_above_total_keeps_everything() {
    let (kept, rest) = sampled_index_partition(6, 6, 1, 1);
    assert_eq!(kept, vec![0, 1, 2, 3, 4, 5]);
    assert!(rest.is_empty());
    let (kept, rest) = sampled_index_partition(6, 100, 1, 1);
    assert_eq!(kept.len(), 6);
    assert!(rest.is_empty());
    let (kept, rest) = sampled_index_partition(0, 3, 1, 1);
    assert!(kept.is_empty() && rest.is_empty());
}

#[test]
fn sampling_among_active_rows_matches_reference() {
    let active = vec![true, false, true, true, false, true, true, false];
    let sel = select_rows_among_active(&active, 3, 11, 2);
    assert_eq!(sel.selected, vec![0, 5, 6]);
    assert_eq!(sel.excluded, vec![1, 2, 3, 4, 7]);
}

#[test]
fn all_active_rows_sample_like_plain_rows() {
    let active = all_true_mask(25);
    let sel = select_rows_among_active(&active, 9, 3, 4);
    let (kept, rest) = sampled_index_partition(25, 9, 3, 4);
    assert_eq!(sel.selected, kept);
    assert_eq!(sel.excluded, rest);
}

#[test]
fn inactive_rows_are_never_selected() {
    let active = vec![false, false, true, false];
    let sel = select_rows_among_active(&active, 5, 1, 0);
    assert_eq!(sel.selected, vec![2]);
    assert_eq!(sel.excluded, vec![0, 1, 3]);
}

#[test]
fn goss_partition_matches_reference() {
    let mut is_top = vec![false; 10];
    is_top[1] = true;
    is_top[4] = true;
    let part = goss_partition(&is_top, 3, 5, 1);
    assert_eq!(part.top, vec![1, 4]);
    assert_eq!(part.other, vec![6, 7, 9]);
    assert_eq!(part.excluded, vec![0, 2, 3, 5, 8]);
    assert_eq!(part.selected, vec![1, 4, 6, 7, 9]);
}

fn bits(values: &[f32]) -> Vec<u32> {
    values.iter().map(|v| v.to_bits()).collect()
}

#[test]
fn goss_top_rows_are_largest_magnitudes() {
    let grads = bits(&[0.5, -3.0, 1.0, -1.0, 2.0, 0.0, 0.25, -2.0]);
    assert_eq!(
        goss_top_mask(&grads, 2),
        vec![false, true, false, false, true, false, false, false]
    );
    assert_eq!(
        goss_top_mask(&grads, 3),
        vec![false, true, false, false, true, false, false, true]
    );
    assert_eq!(goss_top_mask(&grads, 0), vec![false; 8]);
    assert_eq!(goss_top_mask(&grads, 50), vec![true; 8]);
}

#[test]
fn goss_index_partition_matches_reference() {
    let grads = bits(&[0.5, -3.0, 1.0, -1.0, 2.0, 0.0, 0.25, -2.0]);
    let part = goss_index_partition(&grads, 2, 3, 5, 1);
    assert_eq!(part.top, vec![1, 4]);
    assert_eq!(part.other, vec![2, 6, 7]);
    assert_eq!(part.excluded, vec![0, 3, 5]);
    assert_eq!(part.selected, vec![1, 2, 4, 6, 7]);
    let empty = goss_index_partition(&vec![], 1, 1, 5, 1);
    assert!(empty.top.is_empty() && empty.other.is_empty() && empty.selected.is_empty());
}

#[test]
fn goss_partition_draw_is_capped_by_rest() {
    let is_top = vec![true, false, true];
    let part = goss_partition(&is_top, 10, 0, 0);
    assert_eq!(part.top, vec![0, 2]);
    assert_eq!(part.other, vec![1]);
    assert!(part.excluded.is_empty());
    assert_eq!(part.selected, vec![0, 1, 2]);
}
