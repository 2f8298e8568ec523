//! The reward earned by a payment.

use vstd::prelude::*;

verus! {

/// Reward rate in basis points: 200 bps = 2% of the amount paid.
pub const REWARD_RATE_BPS: u64 = 200;

/// One whole, in basis points.
pub const BPS_DENOMINATOR: u64 = 10000;

/// The reward for a payment of `amount_in_cents`: the amount times the rate,
/// divided by the denominator, rounded down.
pub open spec fn spec_reward(amount_in_cents: nat) -> nat {
    amount_in_cents * (REWARD_RATE_BPS as nat) / (BPS_DENOMINATOR as nat)
}

/// The reward never exceeds the amount, so it fits wherever the amount does.
pub proof fn lemma_reward_bounded(amount_in_cents: nat)
    ensures
        spec_reward(amount_in_cents) <= amount_in_cents,
{
    assert(amount_in_cents * 200 / 10000 <= amount_in_cents) by (nonlinear_arith);
}

/// Computes the reward for a payment. The product is taken in 128 bits, so
/// every 64-bit amount is accepted.
pub fn reward_for(amount_in_cents: u64) -> (reward: u64)
    ensures
        reward as nat == spec_reward(amount_in_cents as nat),
        reward <= amount_in_cents,
{
    let wide: u128 = amount_in_cents as u128 * REWARD_RATE_BPS as u128;
    let quotient: u128 = wide / BPS_DENOMINATOR as u128;
    quotient as u64
}

} // verus!
