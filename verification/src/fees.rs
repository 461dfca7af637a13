//! The marketplace fee: a basis-point cut of each purchase, retained by the
//! platform outside the proportional distribution.

use vstd::prelude::*;
use vstd::arithmetic::div_mod::{lemma_div_by_multiple, lemma_div_is_ordered, lemma_div_pos_is_pos};
use vstd::arithmetic::mul::{lemma_mul_inequality, lemma_mul_is_commutative, lemma_mul_nonnegative};

verus! {

/// The fee cap, in basis points: at most 10% of a purchase.
pub const MAX_FEE_BPS: u32 = 1000;

/// Basis points in a whole; fees are quoted in 1/10000 units.
pub const BPS_DENOMINATOR: u32 = 10000;

/// The largest purchase amount the engine accepts: `i128::MAX / 10000`,
/// written out. The bound keeps the fee product `amount * fee_bps` inside
/// `i128` for every fee rate up to one whole (10000 basis points), which
/// is far above the 10% cap.
pub const MAX_PURCHASE_AMOUNT: i128 = 17014118346046923173168730371588410;

/// The fee owed on `amount` at `fee_bps` basis points, rounded down.
pub open spec fn fee_of(amount: int, fee_bps: int) -> int {
    amount * fee_bps / (BPS_DENOMINATOR as int)
}

/// Fee bound: for every fee rate within the cap and every non-negative
/// amount, the fee is between zero and the amount itself, so the
/// distributable remainder `amount - fee` is also non-negative.
pub proof fn lemma_fee_bound(amount: int, fee_bps: int)
    requires
        0 <= fee_bps <= MAX_FEE_BPS,
        0 <= amount,
    ensures
        0 <= fee_of(amount, fee_bps),
        fee_of(amount, fee_bps) <= amount,
{
    let d = BPS_DENOMINATOR as int;
    lemma_mul_nonnegative(amount, fee_bps);
    lemma_div_pos_is_pos(amount * fee_bps, d);
    lemma_mul_inequality(fee_bps, d, amount);
    lemma_mul_is_commutative(fee_bps, amount);
    lemma_mul_is_commutative(d, amount);
    lemma_div_is_ordered(amount * fee_bps, amount * d, d);
    lemma_div_by_multiple(amount, d);
}

/// Computes the marketplace fee on a purchase: `floor(amount * fee_bps /
/// 10000)`.
pub fn compute_fee(amount: i128, fee_bps: u32) -> (fee: i128)
    requires
        0 <= amount <= MAX_PURCHASE_AMOUNT,
        fee_bps <= MAX_FEE_BPS,
    ensures
        fee == fee_of(amount as int, fee_bps as int),
        0 <= fee <= amount,
{
    proof {
        lemma_fee_bound(amount as int, fee_bps as int);
        lemma_mul_inequality(fee_bps as int, BPS_DENOMINATOR as int, amount as int);
        lemma_mul_is_commutative(fee_bps as int, amount as int);
        lemma_mul_is_commutative(BPS_DENOMINATOR as int, amount as int);
        lemma_mul_inequality(amount as int, MAX_PURCHASE_AMOUNT as int, BPS_DENOMINATOR as int);
        lemma_mul_nonnegative(amount as int, fee_bps as int);
    }
    // Signed division is not available in executable code, so the quotient
    // is taken over the non-negative values as `u128`.
    let a: u128 = amount as u128;
    let f: u128 = fee_bps as u128;
    let q: u128 = (a * f) / (BPS_DENOMINATOR as u128);
    q as i128
}

} // verus!
