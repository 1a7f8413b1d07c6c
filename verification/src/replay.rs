//! Routing rows through a round's stumps.
//!
//! A round's tree is stored as stumps keyed by node id: the global tree id in
//! the high bits and the local (heap-ordered) node id below
//! [`TREE_NODE_STRIDE`]. Replaying a row starts at local node 0 and follows
//! left child `2n + 1` or right child `2n + 2` until no stump carries the next
//! id. Routing follows the predictor: the missing bin goes `default_left`,
//! native categorical splits consult the byte bitset, otherwise
//! `bin <= threshold_bin` goes left. Leaf values are floating point and are
//! applied by the caller along the route computed here.

use vstd::prelude::*;

use std::collections::HashMap;
use std::collections::HashSet;

use crate::bitset::{byte_bitset_contains, spec_byte_bitset_contains};
use crate::error::{text_with_two_values, text_with_value, EngineError};
use crate::selection::indices_where;

verus! {

broadcast use vstd::std_specs::hash::group_hash_axioms;

/// Tree-node-id stride (`1 << 20`): `node_id = tree_id * STRIDE + local_id`.
pub const TREE_NODE_STRIDE: u32 = 0x10_0000;

/// The routing part of a trained stump's split.
#[derive(Debug, Clone, PartialEq, Eq)]
pub struct StumpSplit {
    pub node_id: u32,
    pub feature_index: u32,
    pub threshold_bin: u16,
    pub default_left: bool,
    pub is_categorical: bool,
    pub categorical_bitset: Option<Vec<u8>>,
}

/// Splits a node id into `(tree_id, local_id)`.
pub fn decode_tree_node_id(node_id: u32) -> (r: (u32, u32))
    ensures
        r.0 == node_id / TREE_NODE_STRIDE,
        r.1 == node_id % TREE_NODE_STRIDE,
{
    (node_id / TREE_NODE_STRIDE, node_id % TREE_NODE_STRIDE)
}

pub open spec fn local_id(s: StumpSplit) -> u32 {
    s.node_id % TREE_NODE_STRIDE
}

/// Whether a row with `bin` goes to the left child of `split`.
pub open spec fn spec_went_left(split: StumpSplit, bin: u16, missing_bin: u16) -> bool {
    if bin == missing_bin {
        split.default_left
    } else if split.is_categorical {
        match split.categorical_bitset {
            Some(bitset) => spec_byte_bitset_contains(bitset@, bin),
            None => split.default_left,
        }
    } else {
        bin <= split.threshold_bin
    }
}

/// Routing decision of one split for one bin.
pub fn binned_split_went_left(split: &StumpSplit, bin: u16, missing_bin: u16) -> (r: bool)
    ensures
        r == spec_went_left(*split, bin, missing_bin),
        bin == missing_bin ==> r == split.default_left,
        bin != missing_bin && !split.is_categorical ==> r == (bin <= split.threshold_bin),
        bin != missing_bin && split.is_categorical && split.categorical_bitset is None ==> r
            == split.default_left,
        bin != missing_bin && split.is_categorical ==> match split.categorical_bitset {
            Some(bitset) => r == ((bin / 8) < bitset@.len() && (bitset@[(bin / 8) as int] & (1u8
                << (bin % 8) as u8)) != 0),
            None => true,
        },
{
    if bin == missing_bin {
        split.default_left
    } else if split.is_categorical {
        match &split.categorical_bitset {
            Some(bitset) => byte_bitset_contains(bitset.as_slice(), bin),
            None => split.default_left,
        }
    } else {
        bin <= split.threshold_bin
    }
}

/// Every stump's feature is in range and no two stumps share a node id.
pub open spec fn stumps_valid(stumps: Seq<StumpSplit>, feature_count: nat) -> bool {
    &&& forall|i: int| 0 <= i < stumps.len() ==> (#[trigger] stumps[i]).feature_index < feature_count
    &&& forall|i: int, j: int|
        0 <= i < j < stumps.len() ==> (#[trigger] stumps[i]).node_id != (#[trigger] stumps[j]).node_id
}

/// No two stumps share a local node id.
pub open spec fn local_ids_distinct(stumps: Seq<StumpSplit>) -> bool {
    forall|i: int, j: int|
        0 <= i < j < stumps.len() ==> local_id(#[trigger] stumps[i]) != local_id(#[trigger] stumps[j])
}

/// Checks the stump contracts that replay relies on: every feature index is
/// below `feature_count` and no (tree, local) node id repeats.
pub fn validate_stump_contracts(stumps: &Vec<StumpSplit>, feature_count: usize) -> (r: Result<
    (),
    EngineError,
>)
    ensures
        r is Ok <==> stumps_valid(stumps@, feature_count as nat),
        r matches Err(e) ==> e is ContractViolation,
{
    let mut seen: HashSet<u32> = HashSet::new();
    let mut i: usize = 0;
    while i < stumps.len()
        invariant
            i <= stumps@.len(),
            forall|j: int| 0 <= j < i ==> (#[trigger] stumps@[j]).feature_index < feature_count,
            forall|a: int, b: int|
                0 <= a < b < i ==> (#[trigger] stumps@[a]).node_id != (#[trigger] stumps@[b]).node_id,
            forall|x: u32| seen@.contains(x) <==> exists|j: int| 0 <= j < i && stumps@[j].node_id == x,
        decreases stumps.len() - i,
    {
        let stump = &stumps[i];
        let feature_index = stump.feature_index as usize;
        if feature_index >= feature_count {
            return Err(
                EngineError::ContractViolation(
                    text_with_two_values(
                        "stump feature index ",
                        feature_index as u64,
                        " is out of bounds for binned feature count ",
                        feature_count as u64,
                        "",
                    ),
                ),
            );
        }
        let (tree_id, local) = decode_tree_node_id(stump.node_id);
        if !seen.insert(stump.node_id) {
            proof {
                let j = choose|j: int| 0 <= j < i && stumps@[j].node_id == stumps@[i as int].node_id;
                assert(!stumps_valid(stumps@, feature_count as nat)) by {
                    assert(stumps@[j].node_id == stumps@[i as int].node_id);
                }
            }
            return Err(
                EngineError::ContractViolation(
                    text_with_two_values(
                        "duplicate local node id ",
                        local as u64,
                        " for tree ",
                        tree_id as u64,
                        "",
                    ),
                ),
            );
        }
        i = i + 1;
    }
    Ok(())
}

/// Local node id -> position of its stump.
pub struct StumpLookup {
    by_local: HashMap<u32, usize>,
}

impl StumpLookup {
    pub closed spec fn view(&self) -> Map<u32, usize> {
        self.by_local@
    }

    /// The stump positions keyed by local id, or `None`.
    pub fn get(&self, local: u32) -> (r: Option<usize>)
        ensures
            match r {
                Some(idx) => self.view().contains_key(local) && idx == self.view()[local],
                None => !self.view().contains_key(local),
            },
    {
        match self.by_local.get(&local) {
            Some(idx) => Some(*idx),
            None => None,
        }
    }
}

/// The lookup maps exactly the stumps' local ids to their positions.
pub open spec fn lookup_matches(lookup: Map<u32, usize>, stumps: Seq<StumpSplit>) -> bool {
    &&& forall|l: u32|
        #[trigger] lookup.contains_key(l) ==> lookup[l] < stumps.len() && local_id(stumps[lookup[l] as int]) == l
    &&& forall|i: int| 0 <= i < stumps.len() ==> #[trigger] lookup.contains_key(local_id(stumps[i]))
}

/// Validates the stumps (see [`validate_stump_contracts`]) and indexes them
/// by local node id; two stumps with one local id are a contract violation.
pub fn build_stump_lookup(stumps: &Vec<StumpSplit>, feature_count: usize) -> (r: Result<
    StumpLookup,
    EngineError,
>)
    ensures
        r is Ok <==> (stumps_valid(stumps@, feature_count as nat) && local_ids_distinct(stumps@)),
        r matches Ok(lookup) ==> lookup_matches(lookup.view(), stumps@),
        r matches Err(e) ==> e is ContractViolation,
{
    match validate_stump_contracts(stumps, feature_count) {
        Ok(()) => {},
        Err(e) => {
            return Err(e);
        },
    }
    let mut by_local: HashMap<u32, usize> = HashMap::new();
    let mut i: usize = 0;
    while i < stumps.len()
        invariant
            i <= stumps@.len(),
            stumps_valid(stumps@, feature_count as nat),
            forall|a: int, b: int|
                0 <= a < b < i ==> local_id(#[trigger] stumps@[a]) != local_id(#[trigger] stumps@[b]),
            forall|l: u32|
                #[trigger] by_local@.contains_key(l) ==> by_local@[l] < i && local_id(
                    stumps@[by_local@[l] as int],
                ) == l,
            forall|j: int| 0 <= j < i ==> #[trigger] by_local@.contains_key(local_id(stumps@[j])),
        decreases stumps.len() - i,
    {
        let (_, local) = decode_tree_node_id(stumps[i].node_id);
        if by_local.insert(local, i).is_some() {
            proof {
                let j = by_local@[local] as int;
                assert(local_id(stumps@[j]) == local_id(stumps@[i as int]));
                assert(!local_ids_distinct(stumps@));
            }
            return Err(
                EngineError::ContractViolation(
                    text_with_value("duplicate local node id ", local as u64, " in replay round"),
                ),
            );
        }
        i = i + 1;
    }
    Ok(StumpLookup { by_local })
}

/// Column-major binned feature matrix: the bin of `row` for `feature` is
/// `bins[feature * row_count + row]`.
#[derive(Debug, Clone, PartialEq, Eq)]
pub struct BinnedColumns {
    pub row_count: usize,
    pub feature_count: usize,
    pub missing_bin: u16,
    pub bins: Vec<u16>,
}

pub open spec fn binned_wf(m: BinnedColumns) -> bool {
    m.bins@.len() == m.row_count * m.feature_count
}

pub open spec fn spec_bin(m: BinnedColumns, feature: int, row: int) -> u16 {
    m.bins@[feature * m.row_count + row]
}

/// The stumps a row visits, with the side it takes at each, starting from
/// local node `local`.
pub open spec fn spec_route(
    stumps: Seq<StumpSplit>,
    lookup: Map<u32, usize>,
    m: BinnedColumns,
    row: int,
    local: int,
) -> Seq<(usize, bool)>
    decreases 3 * TREE_NODE_STRIDE - local,
{
    if local < 0 || local >= TREE_NODE_STRIDE || !lookup.contains_key(local as u32) {
        Seq::empty()
    } else {
        let idx = lookup[local as u32];
        let s = stumps[idx as int];
        let left = spec_went_left(s, spec_bin(m, s.feature_index as int, row), m.missing_bin);
        let next = if left {
            2 * local + 1
        } else {
            2 * local + 2
        };
        seq![(idx, left)] + spec_route(stumps, lookup, m, row, next)
    }
}

/// A missing value follows the split's learned direction: whatever the
/// split (numeric or native categorical), a bin equal to the missing bin goes
/// left exactly when `default_left` is set.
pub proof fn lemma_missing_bin_follows_default(split: StumpSplit, missing_bin: u16)
    ensures
        spec_went_left(split, missing_bin, missing_bin) == split.default_left,
{
}

/// Along a replayed route, every stump at which the row's bin is the
/// missing bin sends the row to the side its `default_left` names.
pub proof fn lemma_route_missing_follows_default(
    stumps: Seq<StumpSplit>,
    lookup: Map<u32, usize>,
    m: BinnedColumns,
    row: int,
    local: int,
)
    ensures
        forall|j: int|
            #![trigger spec_route(stumps, lookup, m, row, local)[j]]
            0 <= j < spec_route(stumps, lookup, m, row, local).len() && spec_bin(
                m,
                stumps[spec_route(stumps, lookup, m, row, local)[j].0 as int].feature_index as int,
                row,
            ) == m.missing_bin ==> spec_route(stumps, lookup, m, row, local)[j].1
                == stumps[spec_route(stumps, lookup, m, row, local)[j].0 as int].default_left,
    decreases 3 * TREE_NODE_STRIDE - local,
{
    if !(local < 0 || local >= TREE_NODE_STRIDE || !lookup.contains_key(local as u32)) {
        let idx = lookup[local as u32];
        let s = stumps[idx as int];
        let left = spec_went_left(s, spec_bin(m, s.feature_index as int, row), m.missing_bin);
        let next = if left {
            2 * local + 1
        } else {
            2 * local + 2
        };
        lemma_route_missing_follows_default(stumps, lookup, m, row, next);
        let r = spec_route(stumps, lookup, m, row, local);
        let rest = spec_route(stumps, lookup, m, row, next);
        assert(r == seq![(idx, left)] + rest);
        assert forall|j: int|
            #![trigger r[j]]
            0 <= j < r.len() && spec_bin(m, stumps[r[j].0 as int].feature_index as int, row)
                == m.missing_bin implies r[j].1 == stumps[r[j].0 as int].default_left by {
            if j > 0 {
                assert(r[j] == rest[j - 1]);
            }
        }
    }
}

proof fn lemma_bin_index_in_range(m: BinnedColumns, feature: int, row: int)
    requires
        binned_wf(m),
        0 <= feature < m.feature_count,
        0 <= row < m.row_count,
    ensures
        0 <= feature * m.row_count + row < m.bins@.len(),
{
    assert(feature * m.row_count + row < m.row_count * m.feature_count) by (nonlinear_arith)
        requires
            0 <= feature < m.feature_count,
            0 <= row < m.row_count,
    ;
    assert(0 <= feature * m.row_count) by (nonlinear_arith)
        requires
            0 <= feature,
            0 <= m.row_count,
    ;
}

/// Replays one row through a round: the visited stumps (by position) and the
/// side taken at each; the caller applies the leaf on that side.
pub fn replay_round_row(
    row_index: usize,
    m: &BinnedColumns,
    stumps: &Vec<StumpSplit>,
    lookup: &StumpLookup,
) -> (r: Vec<(usize, bool)>)
    requires
        binned_wf(*m),
        row_index < m.row_count,
        stumps_valid(stumps@, m.feature_count as nat),
        lookup_matches(lookup.view(), stumps@),
    ensures
        r@ == spec_route(stumps@, lookup.view(), *m, row_index as int, 0),
{
    let mut path: Vec<(usize, bool)> = Vec::new();
    let mut local: u32 = 0;
    loop
        invariant
            binned_wf(*m),
            row_index < m.row_count,
            stumps_valid(stumps@, m.feature_count as nat),
            lookup_matches(lookup.view(), stumps@),
            local <= 2 * TREE_NODE_STRIDE + 2,
            path@ + spec_route(stumps@, lookup.view(), *m, row_index as int, local as int)
                == spec_route(stumps@, lookup.view(), *m, row_index as int, 0),
        decreases 3 * TREE_NODE_STRIDE - local,
    {
        if local >= TREE_NODE_STRIDE {
            assert(path@ + Seq::<(usize, bool)>::empty() =~= path@);
            return path;
        }
        match lookup.get(local) {
            None => {
                assert(path@ + Seq::<(usize, bool)>::empty() =~= path@);
                return path;
            },
            Some(idx) => {
                let stump = &stumps[idx];
                let feature = stump.feature_index as usize;
                proof {
                    lemma_bin_index_in_range(*m, feature as int, row_index as int);
                    assert(m.bins@.len() == m.bins.len());
                    assert(feature * m.row_count + row_index < m.bins@.len());
                }
                let bin = m.bins[feature * m.row_count + row_index];
                let went_left = binned_split_went_left(stump, bin, m.missing_bin);
                let ghost old_path = path@;
                path.push((idx, went_left));
                local = if went_left { local * 2 + 1 } else { local * 2 + 2 };
                assert(path@ + spec_route(stumps@, lookup.view(), *m, row_index as int, local as int)
                    =~= old_path + (seq![(idx, went_left)] + spec_route(
                    stumps@,
                    lookup.view(),
                    *m,
                    row_index as int,
                    local as int,
                )));
            },
        }
    }
}

/// Checks the raw feature rows handed to piecewise-linear leaf evaluation:
/// `raw = Some((raw_len, raw_feature_count))` describes the raw row-major
/// storage. Empty or absent raw input is accepted; otherwise the feature
/// count must be nonzero, match the binned count, and the storage must hold
/// `row_count * feature_count` values.
pub open spec fn spec_raw_features_ok(row_count: nat, binned_feature_count: nat, raw: Option<(usize, usize)>) -> bool {
    match raw {
        None => true,
        Some((raw_len, fc)) => raw_len == 0 || (fc != 0 && fc == binned_feature_count
            && row_count * fc <= usize::MAX && raw_len >= row_count * fc),
    }
}

pub fn validate_active_raw_features(
    row_count: usize,
    binned_feature_count: usize,
    raw_features: Option<(usize, usize)>,
) -> (r: Result<(), EngineError>)
    ensures
        r is Ok <==> spec_raw_features_ok(row_count as nat, binned_feature_count as nat, raw_features),
        r matches Err(e) ==> e is ContractViolation,
{
    let (raw_len, feature_count) = match raw_features {
        None => {
            return Ok(());
        },
        Some(pair) => pair,
    };
    if raw_len == 0 {
        return Ok(());
    }
    if feature_count == 0 {
        return Err(
            EngineError::ContractViolation(
                "raw feature count must be nonzero for nonempty PL input".to_string(),
            ),
        );
    }
    if feature_count != binned_feature_count {
        return Err(
            EngineError::ContractViolation(
                text_with_two_values(
                    "raw feature count ",
                    feature_count as u64,
                    " does not match binned feature count ",
                    binned_feature_count as u64,
                    "",
                ),
            ),
        );
    }
    let required_len = match row_count.checked_mul(feature_count) {
        Some(v) => v,
        None => {
            return Err(
                EngineError::ContractViolation(
                    text_with_two_values(
                        "raw feature storage size overflows for row count ",
                        row_count as u64,
                        " and feature count ",
                        feature_count as u64,
                        "",
                    ),
                ),
            );
        },
    };
    if raw_len < required_len {
        return Err(
            EngineError::ContractViolation(
                text_with_two_values(
                    "raw feature storage length ",
                    raw_len as u64,
                    " is shorter than required length ",
                    required_len as u64,
                    "",
                ),
            ),
        );
    }
    Ok(())
}

/// Inputs of a restricted (row-subset) replay: the prediction buffer covers
/// every binned row, every listed row exists, and the raw rows pass
/// [`validate_active_raw_features`].
pub open spec fn spec_restricted_inputs_ok(
    prediction_len: nat,
    m: BinnedColumns,
    raw: Option<(usize, usize)>,
    row_indices: Seq<u32>,
) -> bool {
    &&& prediction_len == m.row_count
    &&& forall|i: int| 0 <= i < row_indices.len() ==> (#[trigger] row_indices[i]) < m.row_count
    &&& spec_raw_features_ok(m.row_count as nat, m.feature_count as nat, raw)
}

pub fn validate_restricted_replay_inputs(
    prediction_len: usize,
    m: &BinnedColumns,
    raw_features: Option<(usize, usize)>,
    row_indices: &Vec<u32>,
) -> (r: Result<(), EngineError>)
    ensures
        r is Ok <==> spec_restricted_inputs_ok(prediction_len as nat, *m, raw_features, row_indices@),
        r matches Err(e) ==> e is ContractViolation,
{
    if prediction_len != m.row_count {
        return Err(
            EngineError::ContractViolation(
                text_with_two_values(
                    "prediction length ",
                    prediction_len as u64,
                    " does not match binned row count ",
                    m.row_count as u64,
                    "",
                ),
            ),
        );
    }
    let mut i: usize = 0;
    while i < row_indices.len()
        invariant
            i <= row_indices@.len(),
            forall|j: int| 0 <= j < i ==> (#[trigger] row_indices@[j]) < m.row_count,
        decreases row_indices.len() - i,
    {
        let row_index = row_indices[i];
        if row_index as usize >= m.row_count {
            return Err(
                EngineError::ContractViolation(
                    text_with_two_values(
                        "row index ",
                        row_index as u64,
                        " is out of bounds for row count ",
                        m.row_count as u64,
                        "",
                    ),
                ),
            );
        }
        i = i + 1;
    }
    validate_active_raw_features(m.row_count, m.feature_count, raw_features)
}

/// Tree id of a stump.
pub open spec fn tree_id(s: StumpSplit) -> u32 {
    s.node_id / TREE_NODE_STRIDE
}

/// Splits a stump list into maximal runs sharing one tree id: each range
/// `[start, end)` is nonempty, the ranges tile `0..stumps.len()` in order,
/// stumps in a range share a tree id and adjacent ranges differ.
pub fn tree_round_ranges(stumps: &Vec<StumpSplit>) -> (r: Vec<(usize, usize)>)
    ensures
        stumps@.len() == 0 ==> r@.len() == 0,
        stumps@.len() > 0 ==> r@.len() > 0 && r@[0].0 == 0 && r@[r@.len() - 1].1 == stumps@.len(),
        forall|k: int| 0 <= k < r@.len() ==> (#[trigger] r@[k]).0 < r@[k].1,
        forall|k: int| 0 < k < r@.len() ==> (#[trigger] r@[k]).0 == r@[k - 1].1,
        forall|k: int, i: int|
            0 <= k < r@.len() && (#[trigger] r@[k]).0 <= i < r@[k].1 ==> tree_id(#[trigger] stumps@[i])
                == tree_id(stumps@[r@[k].0 as int]),
        forall|k: int|
            0 < k < r@.len() ==> tree_id(stumps@[(#[trigger] r@[k]).0 as int]) != tree_id(
                stumps@[r@[k - 1].0 as int],
            ),
{
    let mut ranges: Vec<(usize, usize)> = Vec::new();
    if stumps.len() == 0 {
        return ranges;
    }
    let mut round_start: usize = 0;
    let mut current_tree_id = decode_tree_node_id(stumps[0].node_id).0;
    let mut i: usize = 1;
    while i < stumps.len()
        invariant
            0 < stumps@.len(),
            round_start < i <= stumps@.len(),
            current_tree_id == tree_id(stumps@[round_start as int]),
            forall|t: int| round_start <= t < i ==> tree_id(#[trigger] stumps@[t]) == current_tree_id,
            ranges@.len() == 0 ==> round_start == 0,
            ranges@.len() > 0 ==> ranges@[0].0 == 0 && ranges@[ranges@.len() - 1].1 == round_start
                && tree_id(stumps@[ranges@[ranges@.len() - 1].0 as int]) != current_tree_id,
            forall|k: int| 0 <= k < ranges@.len() ==> (#[trigger] ranges@[k]).0 < ranges@[k].1,
            forall|k: int| 0 < k < ranges@.len() ==> (#[trigger] ranges@[k]).0 == ranges@[k - 1].1,
            forall|k: int, t: int|
                0 <= k < ranges@.len() && (#[trigger] ranges@[k]).0 <= t < ranges@[k].1 ==> tree_id(
                    #[trigger] stumps@[t],
                ) == tree_id(stumps@[ranges@[k].0 as int]),
            forall|k: int|
                0 < k < ranges@.len() ==> tree_id(stumps@[(#[trigger] ranges@[k]).0 as int])
                    != tree_id(stumps@[ranges@[k - 1].0 as int]),
        decreases stumps.len() - i,
    {
        let tid = decode_tree_node_id(stumps[i].node_id).0;
        if tid != current_tree_id {
            ranges.push((round_start, i));
            round_start = i;
            current_tree_id = tid;
        }
        i = i + 1;
    }
    ranges.push((round_start, stumps.len()));
    ranges
}

/// Largest tree id among `node_ids`, plus one; zero when there are none.
pub open spec fn spec_rounds_completed(node_ids: Seq<u32>) -> nat
    decreases node_ids.len(),
{
    if node_ids.len() == 0 {
        0
    } else {
        let rest = spec_rounds_completed(node_ids.drop_last());
        let here = (node_ids.last() / TREE_NODE_STRIDE) as nat + 1;
        if here > rest {
            here
        } else {
            rest
        }
    }
}

/// Number of boosting rounds a stump table covers: the largest tree id plus
/// one, or zero for an empty table.
pub fn rounds_completed(node_ids: &Vec<u32>) -> (r: usize)
    ensures
        r == spec_rounds_completed(node_ids@),
{
    let mut best: usize = 0;
    let mut i: usize = 0;
    while i < node_ids.len()
        invariant
            i <= node_ids@.len(),
            best == spec_rounds_completed(node_ids@.subrange(0, i as int)),
            best <= 0x1000,
        decreases node_ids.len() - i,
    {
        assert(node_ids@.subrange(0, i as int + 1).drop_last() =~= node_ids@.subrange(0, i as int));
        let here = (node_ids[i] / TREE_NODE_STRIDE) as usize + 1;
        if here > best {
            best = here;
        }
        i = i + 1;
    }
    assert(node_ids@.subrange(0, node_ids@.len() as int) =~= node_ids@);
    best
}

/// Positions of the stumps of tree `t`, ascending.
pub open spec fn spec_tree_members(node_ids: Seq<u32>, t: int) -> Seq<usize> {
    indices_where(node_ids.len(), |i: int| node_ids[i] / TREE_NODE_STRIDE == t).map_values(
        |x: u32| x as usize,
    )
}

proof fn lemma_rounds_completed_bounds(node_ids: Seq<u32>)
    ensures
        spec_rounds_completed(node_ids) <= 0x1000,
        forall|i: int|
            0 <= i < node_ids.len() ==> (#[trigger] node_ids[i]) / TREE_NODE_STRIDE
                < spec_rounds_completed(node_ids),
    decreases node_ids.len(),
{
    if node_ids.len() > 0 {
        let prev = node_ids.drop_last();
        lemma_rounds_completed_bounds(prev);
        assert forall|i: int| 0 <= i < node_ids.len() implies (#[trigger] node_ids[i])
            / TREE_NODE_STRIDE < spec_rounds_completed(node_ids) by {
            if i < node_ids.len() - 1 {
                assert(node_ids[i] == prev[i]);
            }
        }
    }
}

/// Groups stump positions by tree: entry `t` lists, ascending, the
/// positions whose node id belongs to tree `t`; there is one entry per tree
/// up to the largest tree id.
pub fn group_stumps_by_tree(node_ids: &Vec<u32>) -> (r: Vec<Vec<usize>>)
    requires
        node_ids@.len() <= u32::MAX,
    ensures
        r@.len() == spec_rounds_completed(node_ids@),
        forall|t: int| 0 <= t < r@.len() ==> (#[trigger] r@[t])@ == spec_tree_members(node_ids@, t),
{
    let n = node_ids.len();
    let rounds_n = rounds_completed(node_ids);
    proof {
        lemma_rounds_completed_bounds(node_ids@);
    }
    let mut rounds: Vec<Vec<usize>> = Vec::new();
    let mut t: usize = 0;
    while t < rounds_n
        invariant
            t <= rounds_n,
            rounds@.len() == t,
            forall|u: int| 0 <= u < t ==> (#[trigger] rounds@[u])@ == Seq::<usize>::empty(),
        decreases rounds_n - t,
    {
        rounds.push(Vec::new());
        t = t + 1;
    }
    let mut i: usize = 0;
    while i < n
        invariant
            n == node_ids@.len() <= u32::MAX,
            i <= n,
            rounds_n == spec_rounds_completed(node_ids@),
            rounds@.len() == rounds_n,
            forall|j: int|
                0 <= j < node_ids@.len() ==> (#[trigger] node_ids@[j]) / TREE_NODE_STRIDE < rounds_n,
            forall|u: int|
                0 <= u < rounds_n ==> (#[trigger] rounds@[u])@ == indices_where(
                    i as nat,
                    |j: int| node_ids@[j] / TREE_NODE_STRIDE == u,
                ).map_values(|x: u32| x as usize),
        decreases n - i,
    {
        let tid = (node_ids[i] / TREE_NODE_STRIDE) as usize;
        let ghost before = rounds@;
        rounds[tid].push(i);
        proof {
            assert forall|u: int| 0 <= u < rounds_n implies (#[trigger] rounds@[u])@ == indices_where(
                (i + 1) as nat,
                |j: int| node_ids@[j] / TREE_NODE_STRIDE == u,
            ).map_values(|x: u32| x as usize) by {
                let pred = |j: int| node_ids@[j] / TREE_NODE_STRIDE == u;
                assert(indices_where((i + 1) as nat, pred) == if pred(i as int) {
                    indices_where(i as nat, pred).push(i as u32)
                } else {
                    indices_where(i as nat, pred)
                });
                if u == tid as int {
                    assert(rounds@[u]@ =~= before[u]@.push(i));
                    assert(indices_where((i + 1) as nat, pred).map_values(|x: u32| x as usize)
                        =~= indices_where(i as nat, pred).map_values(|x: u32| x as usize).push(
                        i,
                    ));
                } else {
                    assert(rounds@[u] == before[u]);
                }
            }
        }
        i = i + 1;
    }
    rounds
}

} // verus!
