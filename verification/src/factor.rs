//! Shape checks for factor exposure matrices (row-major, `row_count` rows
//! of `factor_count` exposures). The projections themselves are floating
//! point and live with the caller.

use vstd::prelude::*;

use crate::error::{text_with_two_values, EngineError, EngineResult};

verus! {

/// An exposure matrix with these dimensions and this many values is usable:
/// it has rows and factors and exactly `row_count * factor_count` values.
pub open spec fn spec_exposure_shape_ok(row_count: nat, factor_count: nat, values_len: nat) -> bool {
    &&& row_count > 0
    &&& factor_count > 0
    &&& values_len == row_count * factor_count
}

/// Checks the shape of a factor exposure matrix.
pub fn validate_exposure_shape(row_count: usize, factor_count: usize, values_len: usize) -> (r:
    EngineResult<()>)
    ensures
        r is Ok <==> spec_exposure_shape_ok(row_count as nat, factor_count as nat, values_len as nat),
        r matches Err(e) ==> e is ContractViolation,
{
    if row_count == 0 {
        return Err(
            EngineError::ContractViolation(
                "factor_exposures row_count must be greater than 0".to_string(),
            ),
        );
    }
    if factor_count == 0 {
        return Err(
            EngineError::ContractViolation(
                "factor_exposures factor_count must be greater than 0".to_string(),
            ),
        );
    }
    let expected_len = match row_count.checked_mul(factor_count) {
        Some(v) => v,
        None => {
            proof {
                assert(values_len < row_count * factor_count);
            }
            return Err(
                EngineError::ContractViolation(
                    "factor_exposures row_count * factor_count overflow".to_string(),
                ),
            );
        },
    };
    if values_len != expected_len {
        return Err(
            EngineError::ContractViolation(
                text_with_two_values(
                    "factor_exposures values length ",
                    values_len as u64,
                    " does not match row_count * factor_count ",
                    expected_len as u64,
                    "",
                ),
            ),
        );
    }
    Ok(())
}

} // verus!
