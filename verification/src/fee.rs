//! Fee policy: a fixed basis-point rate taken from every successful claim.

use vstd::prelude::*;

verus! {

/// Operator fee in basis points (12.00%).
pub const FEE_BPS: u64 = 1200;

/// Basis-point denominator.
pub const BPS_DENOMINATOR: u64 = 10000;

/// The operator's fee for a claimed escrow of `amount`: the rate applied
/// with floor division, so rounding always favours the payee.
pub open spec fn fee_of(amount: u64) -> int {
    (amount * FEE_BPS) / (BPS_DENOMINATOR as int)
}

/// The payee's payout: everything the fee does not take.
pub open spec fn payout_of(amount: u64) -> int {
    amount - fee_of(amount)
}

/// The fee never exceeds the amount, and fee plus payout drain it exactly:
/// no unit of the asset is lost or created by the split.
pub proof fn lemma_fee_split_exact(amount: u64)
    ensures
        0 <= fee_of(amount) <= amount,
        fee_of(amount) + payout_of(amount) == amount,
{
    assert(0 <= (amount * FEE_BPS) / (BPS_DENOMINATOR as int) <= amount) by (nonlinear_arith)
        requires
            FEE_BPS == 1200,
            BPS_DENOMINATOR == 10000,
    ;
}

/// Splits `amount` into `(fee, payout)`.
pub fn split_amount(amount: u64) -> (r: (u64, u64))
    ensures
        r.0 == fee_of(amount),
        r.1 == payout_of(amount),
        r.0 + r.1 == amount,
{
    proof {
        lemma_fee_split_exact(amount);
    }
    let wide: u128 = (amount as u128) * (FEE_BPS as u128) / (BPS_DENOMINATOR as u128);
    let fee: u64 = wide as u64;
    (fee, amount - fee)
}

} // verus!
