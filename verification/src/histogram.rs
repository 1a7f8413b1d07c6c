//! Layout of the K-output shared histogram used by the joint trainer.
//!
//! The flat storage is feature-major, then bin, then output, with the
//! gradient and hessian of each slot interleaved. The accumulated values are
//! floating point and live with the caller; this module owns the index map.

use vstd::prelude::*;

verus! {

#[derive(Debug, Clone, Copy, PartialEq, Eq, Structural)]
pub enum HistComponent {
    Grad,
    Hess,
}

pub open spec fn spec_component_index(comp: HistComponent) -> nat {
    match comp {
        HistComponent::Grad => 0,
        HistComponent::Hess => 1,
    }
}

/// Shape and index map of a multi-output histogram. The accumulated
/// gradient and hessian sums are floating point; the caller stores them in a
/// flat buffer of [`MultiOutputHistogram::len_flat`] slots addressed by
/// [`MultiOutputHistogram::idx`].
#[derive(Debug, Clone, Copy, PartialEq, Eq)]
pub struct MultiOutputHistogram {
    pub n_features: usize,
    pub n_bins: usize,
    pub n_outputs: usize,
}

/// The slot of `(feature, bin, output, component)` in the flat storage.
pub open spec fn spec_hist_index(
    l: MultiOutputHistogram,
    feature: int,
    bin: int,
    output: int,
    comp: int,
) -> int {
    ((feature * l.n_bins + bin) * l.n_outputs + output) * 2 + comp
}

/// Number of flat slots.
pub open spec fn spec_hist_len(l: MultiOutputHistogram) -> int {
    l.n_features * l.n_bins * l.n_outputs * 2
}

pub proof fn lemma_hist_index_bounds(
    l: MultiOutputHistogram,
    feature: int,
    bin: int,
    output: int,
    comp: int,
)
    requires
        0 <= feature < l.n_features,
        0 <= bin < l.n_bins,
        0 <= output < l.n_outputs,
        0 <= comp < 2,
    ensures
        0 <= spec_hist_index(l, feature, bin, output, comp) < spec_hist_len(l),
{
    let nb = l.n_bins as int;
    let no = l.n_outputs as int;
    let nf = l.n_features as int;
    assert(0 <= feature * nb + bin < nf * nb) by (nonlinear_arith)
        requires
            0 <= feature < nf,
            0 <= bin < nb,
    ;
    let fb = feature * nb + bin;
    assert(0 <= fb * no + output < nf * nb * no) by (nonlinear_arith)
        requires
            0 <= fb < nf * nb,
            0 <= output < no,
    ;
}

/// Distinct slots never share an index: the layout is a bijection onto
/// `0..len`.
pub proof fn lemma_hist_index_injective(
    l: MultiOutputHistogram,
    f1: int,
    b1: int,
    o1: int,
    c1: int,
    f2: int,
    b2: int,
    o2: int,
    c2: int,
)
    requires
        0 <= f1 < l.n_features,
        0 <= b1 < l.n_bins,
        0 <= o1 < l.n_outputs,
        0 <= c1 < 2,
        0 <= f2 < l.n_features,
        0 <= b2 < l.n_bins,
        0 <= o2 < l.n_outputs,
        0 <= c2 < 2,
        spec_hist_index(l, f1, b1, o1, c1) == spec_hist_index(l, f2, b2, o2, c2),
    ensures
        f1 == f2 && b1 == b2 && o1 == o2 && c1 == c2,
{
    let nb = l.n_bins as int;
    let no = l.n_outputs as int;
    let x1 = (f1 * nb + b1) * no + o1;
    let x2 = (f2 * nb + b2) * no + o2;
    assert(x1 == x2 && c1 == c2);
    let y1 = f1 * nb + b1;
    let y2 = f2 * nb + b2;
    assert(y1 == y2 && o1 == o2) by (nonlinear_arith)
        requires
            y1 * no + o1 == y2 * no + o2,
            0 <= o1 < no,
            0 <= o2 < no,
            0 <= y1,
            0 <= y2,
    {
        if y1 < y2 {
            assert(y1 * no + no <= y2 * no);
        } else if y2 < y1 {
            assert(y2 * no + no <= y1 * no);
        }
    }
    assert(0 <= y1 && 0 <= y2) by (nonlinear_arith)
        requires
            0 <= f1,
            0 <= f2,
            0 <= b1,
            0 <= b2,
            0 <= nb,
            y1 == f1 * nb + b1,
            y2 == f2 * nb + b2,
    ;
    assert(f1 == f2 && b1 == b2) by (nonlinear_arith)
        requires
            f1 * nb + b1 == f2 * nb + b2,
            0 <= b1 < nb,
            0 <= b2 < nb,
            0 <= f1,
            0 <= f2,
    {
        if f1 < f2 {
            assert(f1 * nb + nb <= f2 * nb);
        } else if f2 < f1 {
            assert(f2 * nb + nb <= f1 * nb);
        }
    }
}

impl MultiOutputHistogram {
    /// Layout for `n_features x n_bins x n_outputs` (grad, hess) slots.
    pub fn new(n_features: usize, n_bins: usize, n_outputs: usize) -> (r: Self)
        requires
            n_features * n_bins * n_outputs * 2 <= usize::MAX,
        ensures
            r.n_features == n_features && r.n_bins == n_bins && r.n_outputs == n_outputs,
    {
        MultiOutputHistogram { n_features, n_bins, n_outputs }
    }

    /// Number of flat slots.
    pub fn len_flat(&self) -> (r: usize)
        requires
            spec_hist_len(*self) <= usize::MAX,
        ensures
            r == spec_hist_len(*self),
    {
        assert(self.n_features * self.n_bins <= self.n_features * self.n_bins * self.n_outputs * 2
            || self.n_outputs == 0) by (nonlinear_arith);
        assert(self.n_features * self.n_bins * self.n_outputs <= self.n_features * self.n_bins
            * self.n_outputs * 2) by (nonlinear_arith);
        if self.n_outputs == 0 {
            assert(self.n_features * self.n_bins * self.n_outputs == 0) by (nonlinear_arith)
                requires
                    self.n_outputs == 0,
            ;
            return 0;
        }
        self.n_features * self.n_bins * self.n_outputs * 2
    }

    /// Flat index of `(feature, bin, output, component)`.
    pub fn idx(&self, feature: usize, bin: usize, output: usize, comp: HistComponent) -> (r: usize)
        requires
            feature < self.n_features,
            bin < self.n_bins,
            output < self.n_outputs,
            spec_hist_len(*self) <= usize::MAX,
        ensures
            r == spec_hist_index(
                *self,
                feature as int,
                bin as int,
                output as int,
                spec_component_index(comp) as int,
            ),
            r < spec_hist_len(*self),
    {
        let c: usize = match comp {
            HistComponent::Grad => 0,
            HistComponent::Hess => 1,
        };
        proof {
            lemma_hist_index_bounds(*self, feature as int, bin as int, output as int, c as int);
            let nb = self.n_bins as int;
            let no = self.n_outputs as int;
            assert(feature * nb + bin <= ((feature * nb + bin) * no + output) * 2 + c)
                by (nonlinear_arith)
                requires
                    no >= 1,
                    0 <= feature * nb + bin,
                    0 <= output,
                    0 <= c,
            ;
            assert(feature * nb <= feature * nb + bin);
            assert((feature * nb + bin) * no <= (feature * nb + bin) * no + output);
        }
        ((feature * self.n_bins + bin) * self.n_outputs + output) * 2 + c
    }
}

} // verus!
