use vstd::prelude::*;

verus! {

use crate::errors::AmmError;
use crate::pool::AccountId;
use crate::pool::Pool;

/// Audit record of a protocol-fee withdrawal: the exact amounts moved from
/// the two fee vaults to the admin.
#[derive(Clone, Copy, Debug, PartialEq, Eq, Structural)]
pub struct ProtocolFeeWithdrawEvent {
    pub admin: AccountId,
    pub pool: AccountId,
    pub amount_a: u64,
    pub amount_b: u64,
}

/// Decides an admin withdrawal of accrued protocol fees. The requested
/// amounts are exact, not computed splits: at least one must be positive and
/// neither may exceed the live balance of its fee vault. A zero side is
/// simply skipped by the host, not an error. The host must only route this
/// call here for the recorded admin, which is what the precondition states.
pub fn withdraw_protocol_fees(
    pool: &Pool,
    pool_key: AccountId,
    caller: AccountId,
    fee_balance_a: u64,
    fee_balance_b: u64,
    amount_a: u64,
    amount_b: u64,
) -> (r: Result<ProtocolFeeWithdrawEvent, AmmError>)
    requires
        caller == pool.admin,
    ensures
        match r {
            Ok(ev) => {
                &&& 0 < amount_a || 0 < amount_b
                &&& amount_a <= fee_balance_a
                &&& amount_b <= fee_balance_b
                &&& ev == (ProtocolFeeWithdrawEvent {
                    admin: caller,
                    pool: pool_key,
                    amount_a,
                    amount_b,
                })
            },
            Err(e) => {
                if amount_a == 0 && amount_b == 0 {
                    e == AmmError::InvalidAmount
                } else {
                    &&& e == AmmError::InsufficientLiquidity
                    &&& (fee_balance_a < amount_a || fee_balance_b < amount_b)
                }
            },
        },
{
    if amount_a == 0 && amount_b == 0 {
        return Err(AmmError::InvalidAmount);
    }
    if amount_a > 0 && fee_balance_a < amount_a {
        return Err(AmmError::InsufficientLiquidity);
    }
    if amount_b > 0 && fee_balance_b < amount_b {
        return Err(AmmError::InsufficientLiquidity);
    }
    Ok(ProtocolFeeWithdrawEvent { admin: caller, pool: pool_key, amount_a, amount_b })
}

} // verus!
