use stellarflow_contracts::amm::slippage::enforce_slippage;
use stellarflow_contracts::error::ContractError;

#[test]
fn passes_when_output_meets_minimum() {
    assert_eq!(enforce_slippage(100, 100), Ok(100));
}

#[test]
fn passes_when_output_exceeds_minimum() {
    assert_eq!(enforce_slippage(200, 100), Ok(200));
}

#[test]
fn fails_when_output_below_minimum() {
    assert_eq!(enforce_slippage(99, 100), Err(ContractError::SlippageExceeded));
}

#[test]
fn fails_on_zero_output_with_nonzero_minimum() {
    assert_eq!(enforce_slippage(0, 1), Err(ContractError::SlippageExceeded));
}

#[test]
fn passes_when_both_are_zero() {
    assert_eq!(enforce_slippage(0, 0), Ok(0));
}

#[test]
fn large_values_enforced() {
    let large_out = u128::MAX;
    let large_min = u128::MAX;
    assert_eq!(enforce_slippage(large_out, large_min), Ok(large_out));
}

#[test]
fn large_values_fail_when_below() {
    assert_eq!(enforce_slippage(u128::MAX - 1, u128::MAX), Err(ContractError::SlippageExceeded));
}
