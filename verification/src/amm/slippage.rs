use vstd::prelude::*;
use crate::error::ContractError;

verus! {

/// Enforce the caller's minimum acceptable output on a swap.
///
/// Passes the output through unchanged when it meets the minimum, and
/// rejects with `SlippageExceeded` when it falls below.
pub fn enforce_slippage(amount_out: u128, min_amount_out: u128) -> (r: Result<u128, ContractError>)
    ensures
        amount_out >= min_amount_out ==> r == Ok::<u128, ContractError>(amount_out),
        amount_out < min_amount_out ==> r == Err::<u128, ContractError>(ContractError::SlippageExceeded),
{
    if amount_out < min_amount_out {
        return Err(ContractError::SlippageExceeded);
    }
    Ok(amount_out)
}

} // verus!
