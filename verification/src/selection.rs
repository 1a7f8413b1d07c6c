//! Rank selection over distinct 96-bit keys.
//!
//! Every sampler in the engine ranks candidates by a key that packs a 64-bit
//! hash above a 32-bit index, so keys of distinct candidates never tie. The
//! kept sample is the set of the `k` eligible candidates with the smallest
//! keys; it is found here by locating a threshold `p` with exactly `k`
//! eligible keys below it.

use vstd::prelude::*;

verus! {

/// Exclusive upper bound of every ranking key (`2^96`).
pub const KEY_LIMIT: u128 = 0x1_0000_0000_0000_0000_0000_0000;

/// Number of eligible keys strictly below `p`.
pub open spec fn count_below(keys: Seq<u128>, elig: Seq<bool>, p: u128) -> nat
    decreases keys.len(),
{
    if keys.len() == 0 {
        0
    } else {
        let n = (keys.len() - 1) as int;
        count_below(keys.subrange(0, n), elig.subrange(0, n), p) + if elig[n] && keys[n] < p {
            1nat
        } else {
            0nat
        }
    }
}

/// Number of eligible positions.
pub open spec fn count_true(elig: Seq<bool>) -> nat
    decreases elig.len(),
{
    if elig.len() == 0 {
        0
    } else {
        let n = (elig.len() - 1) as int;
        count_true(elig.subrange(0, n)) + if elig[n] {
            1nat
        } else {
            0nat
        }
    }
}

/// Eligible keys are pairwise distinct and below [`KEY_LIMIT`].
pub open spec fn keys_well_formed(keys: Seq<u128>, elig: Seq<bool>) -> bool {
    &&& keys.len() == elig.len()
    &&& forall|i: int| 0 <= i < keys.len() && elig[i] ==> keys[i] < KEY_LIMIT
    &&& forall|i: int, j: int|
        0 <= i < keys.len() && 0 <= j < keys.len() && i != j && elig[i] && elig[j] ==> keys[i]
            != keys[j]
}

/// Candidate `i` is among the `k` eligible candidates with the smallest keys.
pub open spec fn ranked_below(keys: Seq<u128>, elig: Seq<bool>, k: nat, i: int) -> bool {
    elig[i] && count_below(keys, elig, keys[i]) < k
}

/// The indices `0..n` (ascending) that satisfy `pred`.
pub open spec fn indices_where(n: nat, pred: spec_fn(int) -> bool) -> Seq<u32>
    decreases n,
{
    if n == 0 {
        Seq::empty()
    } else {
        let prev = indices_where((n - 1) as nat, pred);
        if pred(n - 1) {
            prev.push((n - 1) as u32)
        } else {
            prev
        }
    }
}

/// `s` is strictly increasing.
pub open spec fn strictly_increasing(s: Seq<u32>) -> bool {
    forall|i: int, j: int| 0 <= i < j < s.len() ==> s[i] < s[j]
}

pub proof fn lemma_count_below_bounds(keys: Seq<u128>, elig: Seq<bool>, p: u128)
    requires
        keys.len() == elig.len(),
    ensures
        count_below(keys, elig, p) <= count_true(elig),
    decreases keys.len(),
{
    if keys.len() > 0 {
        let n = (keys.len() - 1) as int;
        lemma_count_below_bounds(keys.subrange(0, n), elig.subrange(0, n), p);
    }
}

pub proof fn lemma_count_below_zero(keys: Seq<u128>, elig: Seq<bool>)
    requires
        keys.len() == elig.len(),
    ensures
        count_below(keys, elig, 0) == 0,
    decreases keys.len(),
{
    if keys.len() > 0 {
        let n = (keys.len() - 1) as int;
        lemma_count_below_zero(keys.subrange(0, n), elig.subrange(0, n));
    }
}

pub proof fn lemma_count_below_limit(keys: Seq<u128>, elig: Seq<bool>)
    requires
        keys_well_formed(keys, elig),
    ensures
        count_below(keys, elig, KEY_LIMIT) == count_true(elig),
    decreases keys.len(),
{
    if keys.len() > 0 {
        let n = (keys.len() - 1) as int;
        let ks = keys.subrange(0, n);
        let es = elig.subrange(0, n);
        assert(keys_well_formed(ks, es)) by {
            assert forall|i: int, j: int|
                0 <= i < ks.len() && 0 <= j < ks.len() && i != j && es[i] && es[j] implies ks[i]
                != ks[j] by {
                assert(ks[i] == keys[i] && ks[j] == keys[j]);
            }
        }
        lemma_count_below_limit(ks, es);
    }
}

pub proof fn lemma_count_below_monotone(keys: Seq<u128>, elig: Seq<bool>, p: u128, q: u128)
    requires
        keys.len() == elig.len(),
        p <= q,
    ensures
        count_below(keys, elig, p) <= count_below(keys, elig, q),
    decreases keys.len(),
{
    if keys.len() > 0 {
        let n = (keys.len() - 1) as int;
        lemma_count_below_monotone(keys.subrange(0, n), elig.subrange(0, n), p, q);
    }
}

/// Raising the threshold by one admits at most the one key equal to it.
pub proof fn lemma_count_below_step(keys: Seq<u128>, elig: Seq<bool>, p: u128)
    requires
        keys_well_formed(keys, elig),
        p < KEY_LIMIT,
    ensures
        count_below(keys, elig, (p + 1) as u128) == count_below(keys, elig, p) + if exists|i: int|
            0 <= i < keys.len() && elig[i] && keys[i] == p {
            1nat
        } else {
            0nat
        },
    decreases keys.len(),
{
    if keys.len() > 0 {
        let n = (keys.len() - 1) as int;
        let ks = keys.subrange(0, n);
        let es = elig.subrange(0, n);
        assert(keys_well_formed(ks, es)) by {
            assert forall|i: int, j: int|
                0 <= i < ks.len() && 0 <= j < ks.len() && i != j && es[i] && es[j] implies ks[i]
                != ks[j] by {
                assert(ks[i] == keys[i] && ks[j] == keys[j]);
            }
        }
        lemma_count_below_step(ks, es, p);
        let in_prefix = exists|i: int| 0 <= i < ks.len() && es[i] && ks[i] == p;
        let in_all = exists|i: int| 0 <= i < keys.len() && elig[i] && keys[i] == p;
        if in_prefix {
            let i = choose|i: int| 0 <= i < ks.len() && es[i] && ks[i] == p;
            assert(keys[i] == p && elig[i]);
            assert(in_all);
            assert(!(elig[n] && keys[n] == p));
        } else {
            if in_all {
                let i = choose|i: int| 0 <= i < keys.len() && elig[i] && keys[i] == p;
                if i < n {
                    assert(ks[i] == p && es[i]);
                }
                assert(i == n);
            } else {
                assert(!(elig[n] && keys[n] == p));
            }
        }
    }
}

/// An eligible key lies strictly below every threshold above it, so it is
/// counted there but not below itself.
pub proof fn lemma_count_below_strict(keys: Seq<u128>, elig: Seq<bool>, i: int, q: u128)
    requires
        keys.len() == elig.len(),
        0 <= i < keys.len(),
        elig[i],
        keys[i] < q,
    ensures
        count_below(keys, elig, keys[i]) + 1 <= count_below(keys, elig, q),
    decreases keys.len(),
{
    let n = (keys.len() - 1) as int;
    let ks = keys.subrange(0, n);
    let es = elig.subrange(0, n);
    if i == n {
        lemma_count_below_monotone(ks, es, keys[i], q);
    } else {
        assert(ks[i] == keys[i] && es[i]);
        lemma_count_below_strict(ks, es, i, q);
    }
}

/// Under a threshold `p` with exactly `k` eligible keys below it, the
/// eligible candidates ranked below `k` are exactly those with keys below `p`.
pub proof fn lemma_threshold_characterizes_rank(
    keys: Seq<u128>,
    elig: Seq<bool>,
    k: nat,
    p: u128,
    i: int,
)
    requires
        keys.len() == elig.len(),
        0 <= i < keys.len(),
        count_below(keys, elig, p) == k,
    ensures
        ranked_below(keys, elig, k, i) <==> (elig[i] && keys[i] < p),
{
    if elig[i] {
        if keys[i] < p {
            lemma_count_below_strict(keys, elig, i, p);
        } else {
            lemma_count_below_monotone(keys, elig, p, keys[i]);
        }
    }
}

/// `indices_where` lists exactly the indices below `n` that satisfy `pred`,
/// in ascending order.
pub proof fn lemma_indices_where(n: nat, pred: spec_fn(int) -> bool)
    requires
        n <= 0x1_0000_0000,
    ensures
        strictly_increasing(indices_where(n, pred)),
        forall|i: int|
            0 <= i < indices_where(n, pred).len() ==> indices_where(n, pred)[i] < n && pred(
                indices_where(n, pred)[i] as int,
            ),
        forall|x: int| 0 <= x < n && pred(x) ==> #[trigger] indices_where(n, pred).contains(x as u32),
    decreases n,
{
    if n > 0 {
        lemma_indices_where((n - 1) as nat, pred);
        let prev = indices_where((n - 1) as nat, pred);
        let cur = indices_where(n, pred);
        assert(((n - 1) as u32) as int == n - 1);
        if pred(n - 1) {
            assert(cur == prev.push((n - 1) as u32));
            assert forall|i: int, j: int| 0 <= i < j < cur.len() implies cur[i] < cur[j] by {
                if j < prev.len() {
                    assert(cur[i] == prev[i] && cur[j] == prev[j]);
                } else {
                    assert(cur[i] == prev[i]);
                }
            }
            assert forall|i: int| 0 <= i < cur.len() implies cur[i] < n && pred(cur[i] as int) by {
                if i < prev.len() {
                    assert(cur[i] == prev[i]);
                }
            }
        } else {
            assert(cur == prev);
        }
        assert forall|x: int| 0 <= x < n && pred(x) implies #[trigger] cur.contains(x as u32) by {
            if x < n - 1 {
                assert(prev.contains(x as u32));
                let j = choose|j: int| 0 <= j < prev.len() && prev[j] == x as u32;
                assert(cur[j] == x as u32);
            } else {
                assert(cur[prev.len() as int] == x as u32);
            }
        }
    }
}

/// Builds the ranking key of `index`: its hash above, the index below.
pub open spec fn spec_pack_key(hash: u64, index: int) -> u128 {
    (hash as int * 0x1_0000_0000 + index) as u128
}

pub fn pack_key(hash: u64, index: u32) -> (r: u128)
    ensures
        r == spec_pack_key(hash, index as int),
        r < KEY_LIMIT,
{
    (hash as u128) * 0x1_0000_0000u128 + (index as u128)
}

/// Counts the eligible keys below `p`.
pub fn count_keys_below(keys: &Vec<u128>, elig: &Vec<bool>, p: u128) -> (r: usize)
    requires
        keys@.len() == elig@.len(),
    ensures
        r == count_below(keys@, elig@, p),
{
    let mut count: usize = 0;
    let mut i: usize = 0;
    while i < keys.len()
        invariant
            keys@.len() == elig@.len(),
            i <= keys@.len(),
            count == count_below(keys@.subrange(0, i as int), elig@.subrange(0, i as int), p),
        decreases keys.len() - i,
    {
        let ghost ks = keys@.subrange(0, i as int + 1);
        let ghost es = elig@.subrange(0, i as int + 1);
        assert(ks.subrange(0, i as int) =~= keys@.subrange(0, i as int));
        assert(es.subrange(0, i as int) =~= elig@.subrange(0, i as int));
        proof {
            lemma_count_below_bounds(keys@.subrange(0, i as int), elig@.subrange(0, i as int), p);
            lemma_count_true_bound(elig@.subrange(0, i as int));
        }
        if elig[i] && keys[i] < p {
            count = count + 1;
        }
        i = i + 1;
    }
    assert(keys@.subrange(0, keys@.len() as int) =~= keys@);
    assert(elig@.subrange(0, elig@.len() as int) =~= elig@);
    count
}

pub proof fn lemma_count_true_bound(elig: Seq<bool>)
    ensures
        count_true(elig) <= elig.len(),
    decreases elig.len(),
{
    if elig.len() > 0 {
        lemma_count_true_bound(elig.subrange(0, elig.len() - 1));
    }
}

/// Counts the eligible positions.
pub fn count_eligible(elig: &Vec<bool>) -> (r: usize)
    ensures
        r == count_true(elig@),
{
    let mut count: usize = 0;
    let mut i: usize = 0;
    while i < elig.len()
        invariant
            i <= elig@.len(),
            count == count_true(elig@.subrange(0, i as int)),
        decreases elig.len() - i,
    {
        let ghost es = elig@.subrange(0, i as int + 1);
        assert(es.subrange(0, i as int) =~= elig@.subrange(0, i as int));
        proof {
            lemma_count_true_bound(elig@.subrange(0, i as int));
        }
        if elig[i] {
            count = count + 1;
        }
        i = i + 1;
    }
    assert(elig@.subrange(0, elig@.len() as int) =~= elig@);
    count
}

/// Reorders `keys` with `slice::select_nth_unstable` and returns the key that
/// lands at position `k`.
///
/// Trusted: std documents that the call permutes the slice so that the element
/// at `k` is in its sorted position, every element before it is `<=` and every
/// element after it is `>=`. The contract states exactly that, over the
/// multiset of the vector and its order after the call.
#[verifier::external_body]
fn select_nth_key(keys: &mut Vec<u128>, k: usize) -> (r: u128)
    requires
        k < old(keys)@.len(),
    ensures
        final(keys)@.to_multiset() == old(keys)@.to_multiset(),
        final(keys)@.len() == old(keys)@.len(),
        r == final(keys)@[k as int],
        forall|i: int| 0 <= i < k ==> final(keys)@[i] <= r,
        forall|i: int| k < i < final(keys)@.len() ==> final(keys)@[i] >= r,
{
    keys.select_nth_unstable(k);
    keys[k]
}

/// Finds a threshold with exactly `k` eligible keys below it.
///
/// The candidate from `select_nth_unstable` over the eligible keys is checked
/// by counting; the exact binary search over `[0, 2^96]` is the fallback.
pub fn kth_threshold(keys: &Vec<u128>, elig: &Vec<bool>, k: usize) -> (p: u128)
    requires
        keys_well_formed(keys@, elig@),
        k <= count_true(elig@),
    ensures
        count_below(keys@, elig@, p) == k,
        p <= KEY_LIMIT,
{
    proof {
        lemma_count_below_limit(keys@, elig@);
        lemma_count_below_zero(keys@, elig@);
    }
    let m = count_eligible(elig);
    if k == m {
        return KEY_LIMIT;
    }
    let mut pool: Vec<u128> = Vec::new();
    let mut i: usize = 0;
    while i < keys.len()
        invariant
            keys@.len() == elig@.len(),
            i <= keys@.len(),
            pool@.len() == count_true(elig@.subrange(0, i as int)),
        decreases keys.len() - i,
    {
        let ghost es = elig@.subrange(0, i as int + 1);
        assert(es.subrange(0, i as int) =~= elig@.subrange(0, i as int));
        if elig[i] {
            pool.push(keys[i]);
        }
        i = i + 1;
    }
    assert(elig@.subrange(0, elig@.len() as int) =~= elig@);
    let candidate = select_nth_key(&mut pool, k);
    if candidate <= KEY_LIMIT && count_keys_below(keys, elig, candidate) == k {
        return candidate;
    }
    let mut lo: u128 = 0;
    let mut hi: u128 = KEY_LIMIT;
    while hi - lo > 1
        invariant
            keys_well_formed(keys@, elig@),
            lo < hi <= KEY_LIMIT,
            count_below(keys@, elig@, lo) <= k,
            count_below(keys@, elig@, hi) > k,
        decreases hi - lo,
    {
        let mid = lo + (hi - lo) / 2;
        if count_keys_below(keys, elig, mid) <= k {
            lo = mid;
        } else {
            hi = mid;
        }
    }
    proof {
        lemma_count_below_step(keys@, elig@, lo);
    }
    lo
}


/// All-eligible mask of length `n`.
pub open spec fn all_true(n: nat) -> Seq<bool> {
    Seq::new(n, |i: int| true)
}

pub proof fn lemma_count_true_all(n: nat)
    ensures
        count_true(all_true(n)) == n,
    decreases n,
{
    if n > 0 {
        assert(all_true(n).subrange(0, n - 1) =~= all_true((n - 1) as nat));
        lemma_count_true_all((n - 1) as nat);
    }
}

/// Two predicates that agree below `n` select the same indices.
pub proof fn lemma_indices_where_ext(n: nat, p1: spec_fn(int) -> bool, p2: spec_fn(int) -> bool)
    requires
        forall|i: int| 0 <= i < n ==> #[trigger] p1(i) == p2(i),
    ensures
        indices_where(n, p1) == indices_where(n, p2),
    decreases n,
{
    if n > 0 {
        lemma_indices_where_ext((n - 1) as nat, p1, p2);
    }
}

/// Splits `0..keys.len()` by the threshold `p`: the eligible indices whose key
/// is below `p` go to the first list; the others, when `exc_elig` admits them,
/// go to the second. Both lists come out ascending.
pub fn split_by_threshold(keys: &Vec<u128>, elig: &Vec<bool>, exc_elig: &Vec<bool>, p: u128) -> (r: (
    Vec<u32>,
    Vec<u32>,
))
    requires
        keys@.len() == elig@.len(),
        keys@.len() == exc_elig@.len(),
        keys@.len() <= 0x1_0000_0000,
    ensures
        r.0@ == indices_where(keys@.len(), |i: int| elig@[i] && keys@[i] < p),
        r.1@ == indices_where(keys@.len(), |i: int| exc_elig@[i] && !(elig@[i] && keys@[i] < p)),
        r.0@.len() == count_below(keys@, elig@, p),
{
    let ghost sel_pred = |i: int| elig@[i] && keys@[i] < p;
    let ghost exc_pred = |i: int| exc_elig@[i] && !(elig@[i] && keys@[i] < p);
    let mut selected: Vec<u32> = Vec::new();
    let mut excluded: Vec<u32> = Vec::new();
    let mut i: usize = 0;
    while i < keys.len()
        invariant
            keys@.len() == elig@.len(),
            keys@.len() == exc_elig@.len(),
            keys@.len() <= 0x1_0000_0000,
            i <= keys@.len(),
            sel_pred == (|j: int| elig@[j] && keys@[j] < p),
            exc_pred == (|j: int| exc_elig@[j] && !(elig@[j] && keys@[j] < p)),
            selected@ == indices_where(i as nat, sel_pred),
            excluded@ == indices_where(i as nat, exc_pred),
            selected@.len() == count_below(
                keys@.subrange(0, i as int),
                elig@.subrange(0, i as int),
                p,
            ),
        decreases keys.len() - i,
    {
        let ghost ks = keys@.subrange(0, i as int + 1);
        let ghost es = elig@.subrange(0, i as int + 1);
        assert(ks.subrange(0, i as int) =~= keys@.subrange(0, i as int));
        assert(es.subrange(0, i as int) =~= elig@.subrange(0, i as int));
        assert(indices_where((i + 1) as nat, sel_pred) == if sel_pred(i as int) {
            indices_where(i as nat, sel_pred).push(i as u32)
        } else {
            indices_where(i as nat, sel_pred)
        });
        assert(indices_where((i + 1) as nat, exc_pred) == if exc_pred(i as int) {
            indices_where(i as nat, exc_pred).push(i as u32)
        } else {
            indices_where(i as nat, exc_pred)
        });
        assert(sel_pred(i as int) == (elig@[i as int] && keys@[i as int] < p));
        assert(exc_pred(i as int) == (exc_elig@[i as int] && !(elig@[i as int] && keys@[i as int] < p)));
        if elig[i] && keys[i] < p {
            selected.push(i as u32);
        } else if exc_elig[i] {
            excluded.push(i as u32);
        }
        i = i + 1;
    }
    assert(keys@.subrange(0, keys@.len() as int) =~= keys@);
    assert(elig@.subrange(0, elig@.len() as int) =~= elig@);
    (selected, excluded)
}

} // verus!
