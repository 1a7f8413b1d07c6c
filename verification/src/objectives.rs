//! Objective identities and their integer configuration checks. Gradient,
//! hessian, baseline and loss computations are floating point and live with
//! the caller.

use vstd::prelude::*;

use crate::error::{text_with_value, EngineError, EngineResult};
use crate::groups::{
    compute_group_boundaries, resolve_boundaries_for_len, spec_group_boundaries,
    spec_resolve_boundaries,
};
use crate::text::str_equals;

verus! {

/// Squared-error regression objective.
#[derive(Debug, Clone, Copy, PartialEq, Eq)]
pub struct SquaredErrorObjective;

impl SquaredErrorObjective {
    pub fn objective_name(&self) -> (r: &'static str)
        ensures
            r@ == "squared_error"@,
    {
        "squared_error"
    }

    /// Targets can be neutralised against factor exposures before fitting.
    pub fn supports_pre_target_neutralization(&self) -> (r: bool)
        ensures
            r,
    {
        true
    }
}

/// Binary log-loss objective.
#[derive(Debug, Clone, Copy, PartialEq, Eq)]
pub struct BinaryCrossEntropyObjective;

impl BinaryCrossEntropyObjective {
    pub fn objective_name(&self) -> (r: &'static str)
        ensures
            r@ == "binary_crossentropy"@,
    {
        "binary_crossentropy"
    }
}

/// Gamma-deviance objective with log link.
#[derive(Debug, Clone, Copy, PartialEq, Eq)]
pub struct GammaObjective;

impl GammaObjective {
    pub fn objective_name(&self) -> (r: &'static str)
        ensures
            r@ == "gamma"@,
    {
        "gamma"
    }
}

/// Softmax cross-entropy objective for K-class classification.
#[derive(Debug, Clone, Copy, PartialEq, Eq)]
pub struct MultiClassSoftmaxObjective {
    pub num_classes: usize,
}

impl MultiClassSoftmaxObjective {
    /// A softmax objective over `num_classes` classes; fewer than two classes
    /// is an invalid configuration.
    pub fn new(num_classes: usize) -> (r: EngineResult<Self>)
        ensures
            r is Ok <==> num_classes >= 2,
            r matches Ok(o) ==> o.num_classes == num_classes,
            r matches Err(e) ==> e is InvalidConfig,
    {
        if num_classes < 2 {
            return Err(
                EngineError::InvalidConfig(
                    text_with_value(
                        "multiclass_softmax requires at least 2 classes, got ",
                        num_classes as u64,
                        "",
                    ),
                ),
            );
        }
        Ok(Self { num_classes })
    }

    pub fn objective_name(&self) -> (r: &'static str)
        ensures
            r@ == "multiclass_softmax"@,
    {
        "multiclass_softmax"
    }
}

/// Metadata about a feature that uses native categorical splits.
#[derive(Debug, Clone, Copy, PartialEq, Eq)]
pub struct CategoricalFeatureInfo {
    /// The feature index in the binned matrix.
    pub feature_index: usize,
    /// Number of categories (valid bin ids are `0..num_categories`).
    pub num_categories: usize,
}

/// LambdaRank truncation: `None` (no truncation) or a level of at least one.
pub fn validate_lambdarank_truncation_level(level: Option<usize>) -> (r: EngineResult<Option<usize>>)
    ensures
        r is Ok <==> level != Some(0usize),
        r matches Ok(v) ==> v == level,
        r matches Err(e) ==> e is InvalidConfig,
{
    if let Some(0) = level {
        return Err(
            EngineError::InvalidConfig("lambdarank_truncation_level must be None or >= 1".to_string()),
        );
    }
    Ok(level)
}

/// The boundaries a query-grouped loss uses for `data_len` rows: the
/// training groups if they cover it, else the validation groups if they do,
/// else one group.
pub open spec fn spec_loss_boundaries_query_rmse(o: QueryRMSEObjective, data_len: usize) -> Seq<usize> {
    spec_resolve_boundaries(
        o.group_boundaries@,
        match o.validation_group_boundaries {
            Some(v) => Some(v@),
            None => None,
        },
        data_len,
    )
}

/// Query-grouped RMSE objective: per-document squared-error gradients, loss
/// reported as the mean of per-group RMSE values.
#[derive(Debug, Clone, PartialEq, Eq)]
pub struct QueryRMSEObjective {
    pub group_boundaries: Vec<usize>,
    pub validation_group_boundaries: Option<Vec<usize>>,
}

impl QueryRMSEObjective {
    /// Groups the training rows by `group_id` (equal ids adjacent).
    pub fn new(group_id: &[u32]) -> (r: Self)
        ensures
            r.group_boundaries@ == spec_group_boundaries(group_id@),
            r.validation_group_boundaries is None,
    {
        Self { group_boundaries: compute_group_boundaries(group_id), validation_group_boundaries: None }
    }

    /// Adds the validation rows' groups.
    pub fn with_validation_group(self, validation_group_id: &[u32]) -> (r: Self)
        ensures
            r.group_boundaries@ == self.group_boundaries@,
            r.validation_group_boundaries matches Some(v) && v@ == spec_group_boundaries(
                validation_group_id@,
            ),
    {
        let validation = compute_group_boundaries(validation_group_id);
        Self { group_boundaries: self.group_boundaries, validation_group_boundaries: Some(validation) }
    }

    pub fn objective_name(&self) -> (r: &'static str)
        ensures
            r@ == "queryrmse"@,
    {
        "queryrmse"
    }

    pub fn requires_group_id(&self) -> (r: bool)
        ensures
            r,
    {
        true
    }

    pub fn supports_leaf_refinement(&self) -> (r: bool)
        ensures
            !r,
    {
        false
    }

    /// The group boundaries the loss uses for `data_len` predictions.
    pub fn loss_boundaries(&self, data_len: usize) -> (r: Vec<usize>)
        ensures
            r@ == spec_loss_boundaries_query_rmse(*self, data_len),
    {
        resolve_boundaries_for_len(&self.group_boundaries, &self.validation_group_boundaries, data_len)
    }
}

/// The boundaries a query-grouped loss uses for `data_len` rows: the
/// training groups if they cover it, else the validation groups if they do,
/// else one group.
pub open spec fn spec_loss_boundaries_xendcg(o: XeNDCGObjective, data_len: usize) -> Seq<usize> {
    spec_resolve_boundaries(
        o.group_boundaries@,
        match o.validation_group_boundaries {
            Some(v) => Some(v@),
            None => None,
        },
        data_len,
    )
}

/// Cross-entropy NDCG ranking objective over query groups.
#[derive(Debug, Clone, PartialEq, Eq)]
pub struct XeNDCGObjective {
    pub group_boundaries: Vec<usize>,
    pub validation_group_boundaries: Option<Vec<usize>>,
}

impl XeNDCGObjective {
    /// Groups the training rows by `group_id` (equal ids adjacent).
    pub fn new(group_id: &[u32]) -> (r: Self)
        ensures
            r.group_boundaries@ == spec_group_boundaries(group_id@),
            r.validation_group_boundaries is None,
    {
        Self { group_boundaries: compute_group_boundaries(group_id), validation_group_boundaries: None }
    }

    /// Adds the validation rows' groups.
    pub fn with_validation_group(self, validation_group_id: &[u32]) -> (r: Self)
        ensures
            r.group_boundaries@ == self.group_boundaries@,
            r.validation_group_boundaries matches Some(v) && v@ == spec_group_boundaries(
                validation_group_id@,
            ),
    {
        let validation = compute_group_boundaries(validation_group_id);
        Self { group_boundaries: self.group_boundaries, validation_group_boundaries: Some(validation) }
    }

    pub fn objective_name(&self) -> (r: &'static str)
        ensures
            r@ == "rank_xendcg"@,
    {
        "rank_xendcg"
    }

    pub fn requires_group_id(&self) -> (r: bool)
        ensures
            r,
    {
        true
    }

    pub fn supports_leaf_refinement(&self) -> (r: bool)
        ensures
            !r,
    {
        false
    }

    /// The group boundaries the loss uses for `data_len` predictions.
    pub fn loss_boundaries(&self, data_len: usize) -> (r: Vec<usize>)
        ensures
            r@ == spec_loss_boundaries_xendcg(*self, data_len),
    {
        resolve_boundaries_for_len(&self.group_boundaries, &self.validation_group_boundaries, data_len)
    }
}

/// Per-output objective of the joint multi-output trainer, by family. The
/// numeric parameters some families carry (ranking sigma, Poisson
/// `max_delta_step`, Tweedie variance power, quantile alpha) are floating
/// point and stay with the caller.
#[derive(Debug, Clone, Copy, PartialEq, Eq, Structural)]
pub enum JointObjective {
    SquaredError,
    QueryRmse,
    RankPairwise,
    RankNdcg,
    RankXendcg,
    Poisson,
    Gamma,
    Tweedie,
    Quantile,
}

pub open spec fn spec_joint_objective_name(k: JointObjective) -> Seq<char> {
    match k {
        JointObjective::SquaredError => "squared_error"@,
        JointObjective::QueryRmse => "queryrmse"@,
        JointObjective::RankPairwise => "rank:pairwise"@,
        JointObjective::RankNdcg => "rank:ndcg"@,
        JointObjective::RankXendcg => "rank:xendcg"@,
        JointObjective::Poisson => "poisson"@,
        JointObjective::Gamma => "gamma"@,
        JointObjective::Tweedie => "tweedie"@,
        JointObjective::Quantile => "quantile"@,
    }
}

/// The objective named `name`, if the joint trainer supports it.
pub open spec fn spec_parse_joint_objective(name: Seq<char>) -> Option<JointObjective> {
    if name == "squared_error"@ {
        Some(JointObjective::SquaredError)
    } else if name == "queryrmse"@ {
        Some(JointObjective::QueryRmse)
    } else if name == "rank:pairwise"@ {
        Some(JointObjective::RankPairwise)
    } else if name == "rank:ndcg"@ {
        Some(JointObjective::RankNdcg)
    } else if name == "rank:xendcg"@ {
        Some(JointObjective::RankXendcg)
    } else if name == "poisson"@ {
        Some(JointObjective::Poisson)
    } else if name == "gamma"@ {
        Some(JointObjective::Gamma)
    } else if name == "tweedie"@ {
        Some(JointObjective::Tweedie)
    } else if name == "quantile"@ {
        Some(JointObjective::Quantile)
    } else {
        None
    }
}

impl JointObjective {
    /// Parses an objective name; unsupported names are an error.
    pub fn parse(name: &str) -> (r: Result<JointObjective, String>)
        ensures
            match spec_parse_joint_objective(name@) {
                Some(k) => r == Ok::<JointObjective, String>(k),
                None => r is Err,
            },
    {
        if str_equals(name, "squared_error") {
            Ok(JointObjective::SquaredError)
        } else if str_equals(name, "queryrmse") {
            Ok(JointObjective::QueryRmse)
        } else if str_equals(name, "rank:pairwise") {
            Ok(JointObjective::RankPairwise)
        } else if str_equals(name, "rank:ndcg") {
            Ok(JointObjective::RankNdcg)
        } else if str_equals(name, "rank:xendcg") {
            Ok(JointObjective::RankXendcg)
        } else if str_equals(name, "poisson") {
            Ok(JointObjective::Poisson)
        } else if str_equals(name, "gamma") {
            Ok(JointObjective::Gamma)
        } else if str_equals(name, "tweedie") {
            Ok(JointObjective::Tweedie)
        } else if str_equals(name, "quantile") {
            Ok(JointObjective::Quantile)
        } else {
            Err(
                "joint multi-output trainer does not support this objective; supported: squared_error, queryrmse, rank:pairwise, rank:ndcg, rank:xendcg, poisson, gamma, tweedie, quantile".to_string(),
            )
        }
    }

    /// Ranking objectives need query groups.
    pub fn requires_group(&self) -> (r: bool)
        ensures
            r == (*self == JointObjective::QueryRmse || *self == JointObjective::RankPairwise
                || *self == JointObjective::RankNdcg || *self == JointObjective::RankXendcg),
    {
        match self {
            JointObjective::QueryRmse | JointObjective::RankPairwise
            | JointObjective::RankNdcg | JointObjective::RankXendcg => true,
            _ => false,
        }
    }

    /// The objective's canonical name.
    pub fn name(&self) -> (r: &'static str)
        ensures
            r@ == spec_joint_objective_name(*self),
    {
        match self {
            JointObjective::SquaredError => "squared_error",
            JointObjective::QueryRmse => "queryrmse",
            JointObjective::RankPairwise => "rank:pairwise",
            JointObjective::RankNdcg => "rank:ndcg",
            JointObjective::RankXendcg => "rank:xendcg",
            JointObjective::Poisson => "poisson",
            JointObjective::Gamma => "gamma",
            JointObjective::Tweedie => "tweedie",
            JointObjective::Quantile => "quantile",
        }
    }
}

/// Parsing a kind's name gives the kind back.
pub proof fn lemma_joint_objective_name_round_trip(k: JointObjective)
    ensures
        spec_parse_joint_objective(spec_joint_objective_name(k)) == Some(k),
{
    reveal_strlit("squared_error");
    reveal_strlit("queryrmse");
    reveal_strlit("rank:pairwise");
    reveal_strlit("rank:ndcg");
    reveal_strlit("rank:xendcg");
    reveal_strlit("poisson");
    reveal_strlit("gamma");
    reveal_strlit("tweedie");
    reveal_strlit("quantile");
    assert("squared_error"@.len() == 13 && "squared_error"@[0] == 's');
    assert("queryrmse"@.len() == 9 && "queryrmse"@[0] == 'q');
    assert("rank:pairwise"@.len() == 13 && "rank:pairwise"@[0] == 'r');
    assert("rank:ndcg"@.len() == 9 && "rank:ndcg"@[0] == 'r');
    assert("rank:xendcg"@.len() == 11 && "rank:xendcg"@[0] == 'r');
    assert("poisson"@.len() == 7 && "poisson"@[0] == 'p');
    assert("gamma"@.len() == 5 && "gamma"@[0] == 'g');
    assert("tweedie"@.len() == 7 && "tweedie"@[0] == 't');
    assert("quantile"@.len() == 8 && "quantile"@[0] == 'q');
}

} // verus!
