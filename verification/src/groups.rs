//! Query-group boundaries for ranking objectives.

use vstd::prelude::*;

verus! {

/// Positions `i` in `1..n` where the group id changes.
pub open spec fn spec_change_points(group_id: Seq<u32>, n: nat) -> Seq<usize>
    decreases n,
{
    if n <= 1 {
        Seq::empty()
    } else {
        let prev = spec_change_points(group_id, (n - 1) as nat);
        if group_id[n - 1] != group_id[n - 2] {
            prev.push((n - 1) as usize)
        } else {
            prev
        }
    }
}

/// `[0, end of group 0, end of group 1, ..., row_count]`.
pub open spec fn spec_group_boundaries(group_id: Seq<u32>) -> Seq<usize> {
    seq![0usize] + spec_change_points(group_id, group_id.len()) + seq![group_id.len() as usize]
}

proof fn lemma_change_points(group_id: Seq<u32>, n: nat)
    requires
        n <= group_id.len(),
        group_id.len() <= usize::MAX,
    ensures
        forall|a: int, b: int|
            0 <= a < b < spec_change_points(group_id, n).len() ==> spec_change_points(group_id, n)[a]
                < spec_change_points(group_id, n)[b],
        forall|a: int|
            0 <= a < spec_change_points(group_id, n).len() ==> 1 <= #[trigger] spec_change_points(
                group_id,
                n,
            )[a] < n && group_id[spec_change_points(group_id, n)[a] as int]
                != group_id[spec_change_points(group_id, n)[a] - 1],
        forall|i: int|
            1 <= i < n && group_id[i] != group_id[i - 1] ==> #[trigger] spec_change_points(
                group_id,
                n,
            ).contains(i as usize),
    decreases n,
{
    if n > 1 {
        lemma_change_points(group_id, (n - 1) as nat);
        let prev = spec_change_points(group_id, (n - 1) as nat);
        let cur = spec_change_points(group_id, n);
        assert forall|i: int| 1 <= i < n && group_id[i] != group_id[i - 1] implies #[trigger] cur.contains(
            i as usize,
        ) by {
            if i < n - 1 {
                assert(prev.contains(i as usize));
                let j = choose|j: int| 0 <= j < prev.len() && prev[j] == i as usize;
                assert(cur[j] == i as usize);
            } else {
                assert(cur[prev.len() as int] == i as usize);
            }
        }
        if group_id[n - 1] != group_id[n - 2] {
            assert forall|a: int| 0 <= a < cur.len() implies 1 <= #[trigger] cur[a] < n && group_id[cur[a] as int]
                != group_id[cur[a] - 1] by {
                if a < prev.len() {
                    assert(cur[a] == prev[a]);
                }
            }
            assert forall|a: int, b: int| 0 <= a < b < cur.len() implies cur[a] < cur[b] by {
                assert(cur[a] == prev[a]);
                if b < prev.len() {
                    assert(cur[b] == prev[b]);
                }
            }
        }
    }
}

/// Computes contiguous group boundaries from a group id array whose equal ids
/// are adjacent.
pub fn compute_group_boundaries(group_id: &[u32]) -> (r: Vec<usize>)
    ensures
        r@ == spec_group_boundaries(group_id@),
        r@.len() >= 2,
        r@[0] == 0,
        r@[r@.len() - 1] == group_id@.len(),
        group_id@.len() > 0 ==> forall|a: int, b: int| 0 <= a < b < r@.len() ==> r@[a] < r@[b],
        forall|k: int, i: int|
            0 <= k < r@.len() - 1 && r@[k] <= i < r@[k + 1] ==> #[trigger] group_id@[i] == group_id@[(
            #[trigger] r@[k]) as int],
{
    let n = group_id.len();
    let mut boundaries: Vec<usize> = Vec::new();
    boundaries.push(0);
    let mut i: usize = 1;
    while i < n
        invariant
            n == group_id@.len(),
            1 <= i,
            i <= n || (n == 0 && i == 1),
            boundaries@ == seq![0usize] + spec_change_points(group_id@, i as nat),
        decreases n - i,
    {
        if group_id[i] != group_id[i - 1] {
            boundaries.push(i);
        }
        i = i + 1;
    }
    proof {
        if n > 0 {
            assert(i == n);
        }
        assert(spec_change_points(group_id@, i as nat) == spec_change_points(group_id@, n as nat))
            by {
            if n == 0 {
                assert(spec_change_points(group_id@, 1) == Seq::<usize>::empty());
                assert(spec_change_points(group_id@, 0) == Seq::<usize>::empty());
            }
        }
    }
    boundaries.push(n);
    proof {
        lemma_change_points(group_id@, n as nat);
        let cp = spec_change_points(group_id@, n as nat);
        let r = boundaries@;
        assert(r =~= spec_group_boundaries(group_id@));
        assert forall|a: int, b: int| n > 0 && 0 <= a < b < r.len() implies r[a] < r[b] by {
            if a > 0 {
                assert(r[a] == cp[a - 1]);
            }
            if b < r.len() - 1 {
                assert(r[b] == cp[b - 1]);
            }
        }
        assert forall|k: int, i: int| 0 <= k < r.len() - 1 && r[k] <= i < r[k + 1] implies #[trigger] group_id@[i]
            == group_id@[(#[trigger] r[k]) as int] by {
            lemma_no_change_between(group_id@, r, cp, k, i);
        }
    }
    boundaries
}

proof fn lemma_no_change_between(g: Seq<u32>, r: Seq<usize>, cp: Seq<usize>, k: int, i: int)
    requires
        g.len() <= usize::MAX,
        cp == spec_change_points(g, g.len()),
        r == seq![0usize] + cp + seq![g.len() as usize],
        0 <= k < r.len() - 1,
        r[k] <= i < r[k + 1],
    ensures
        g[i] == g[r[k] as int],
    decreases i - r[k],
{
    lemma_change_points(g, g.len());
    if i > r[k] {
        lemma_no_change_between(g, r, cp, k, i - 1);
        if g[i] != g[i - 1] {
            assert(cp.contains(i as usize));
            let j = choose|j: int| 0 <= j < cp.len() && cp[j] == i as usize;
            // cp[j] lies strictly between r[k] = cp[k-1] (or 0) and r[k+1]
            assert(r[j + 1] == i);
            if j + 1 <= k {
                if j + 1 < k {
                    assert(r[j + 1] < r[k]) by {
                        assert(r[k] == cp[k - 1]);
                        assert(r[j + 1] == cp[j]);
                    }
                }
            } else {
                if j + 1 > k + 1 {
                    if k + 1 < r.len() - 1 {
                        assert(r[k + 1] == cp[k]);
                        assert(cp[k] < cp[j]);
                    } else {
                        assert(false);
                    }
                }
            }
        }
    }
}

/// Picks the boundaries that cover `data_len` rows: the training ones if they
/// end at `data_len`, else the validation ones if they do, else one group.
pub open spec fn spec_resolve_boundaries(
    train: Seq<usize>,
    validation: Option<Seq<usize>>,
    data_len: usize,
) -> Seq<usize> {
    if train.len() > 0 && train.last() == data_len {
        train
    } else {
        match validation {
            Some(v) => if v.len() > 0 && v.last() == data_len {
                v
            } else {
                seq![0usize, data_len]
            },
            None => seq![0usize, data_len],
        }
    }
}

pub fn resolve_boundaries_for_len(
    train_boundaries: &Vec<usize>,
    validation_boundaries: &Option<Vec<usize>>,
    data_len: usize,
) -> (r: Vec<usize>)
    ensures
        r@ == spec_resolve_boundaries(
            train_boundaries@,
            match validation_boundaries {
                Some(v) => Some(v@),
                None => None,
            },
            data_len,
        ),
{
    if train_boundaries.len() > 0 && train_boundaries[train_boundaries.len() - 1] == data_len {
        return copy_usizes(train_boundaries);
    }
    if let Some(val_b) = validation_boundaries {
        if val_b.len() > 0 && val_b[val_b.len() - 1] == data_len {
            return copy_usizes(val_b);
        }
    }
    let mut fallback: Vec<usize> = Vec::new();
    fallback.push(0);
    fallback.push(data_len);
    assert(fallback@ =~= seq![0usize, data_len]);
    fallback
}

fn copy_usizes(v: &Vec<usize>) -> (r: Vec<usize>)
    ensures
        r@ == v@,
{
    let mut out: Vec<usize> = Vec::new();
    let mut i: usize = 0;
    while i < v.len()
        invariant
            i <= v@.len(),
            out@ =~= v@.subrange(0, i as int),
        decreases v.len() - i,
    {
        out.push(v[i]);
        i = i + 1;
    }
    out
}

} // verus!
