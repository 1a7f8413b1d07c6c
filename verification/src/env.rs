//! Experiment toggles driven by `ALLOYGBM_EXPERIMENT_*` settings.
//!
//! The caller reads the environment; these functions decide what a value
//! means. A toggle is on when its value, trimmed and ASCII-lowercased, is
//! `1`, `true`, `yes` or `on`; an unset toggle is off.

use vstd::prelude::*;

use crate::text::{spec_toggle_enabled, toggle_value_enabled};

verus! {

pub open spec fn spec_env_toggle(value: Option<&str>) -> bool {
    match value {
        Some(v) => spec_toggle_enabled(v@),
        None => false,
    }
}

/// Whether a toggle setting is on (`None` when unset).
pub fn env_toggle_enabled(value: Option<&str>) -> (r: bool)
    ensures
        r == spec_env_toggle(value),
{
    match value {
        Some(v) => toggle_value_enabled(v),
        None => false,
    }
}

/// `ALLOYGBM_EXPERIMENT_FORCE_MANUAL_POLICY`: bypass the automatic policy.
pub fn experiment_force_manual_policy_enabled(value: Option<&str>) -> (r: bool)
    ensures
        r == spec_env_toggle(value),
{
    env_toggle_enabled(value)
}

/// `ALLOYGBM_EXPERIMENT_ENABLE_LEAF_REFINEMENT`: refine leaf values.
pub fn experiment_leaf_refinement_enabled(value: Option<&str>) -> (r: bool)
    ensures
        r == spec_env_toggle(value),
{
    env_toggle_enabled(value)
}

} // verus!
