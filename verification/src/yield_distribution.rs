//! Splitting harvested yield between the round's recipient and the protocol treasury.
//!
//! The recipient's share is rounded down and the treasury receives the remainder, so the two
//! shares always add up to the whole yield and no fraction is left locked in the contract.
use vstd::prelude::*;

verus! {

/// The recipient's share of harvested yield, in basis points.
pub const YIELD_DISTRIBUTION_RECIPIENT_BPS: u32 = 5000;

/// The treasury's nominal share of harvested yield, in basis points; it receives the
/// remainder after the recipient's rounded share.
pub const YIELD_DISTRIBUTION_TREASURY_BPS: u32 = 5000;

/// A record of one yield distribution.
#[derive(Clone, Copy, Debug, PartialEq, Eq, Structural)]
pub struct YieldDistribution {
    pub circle_id: u64,
    pub recipient_share: i128,
    pub treasury_share: i128,
    pub total_yield: i128,
    pub distribution_time: u64,
    pub round_number: u32,
}

/// The recipient's share of `new_yield`: its `YIELD_DISTRIBUTION_RECIPIENT_BPS` basis points,
/// rounded toward zero.
pub open spec fn recipient_share_of(new_yield: int) -> int {
    if new_yield >= 0 {
        (new_yield * YIELD_DISTRIBUTION_RECIPIENT_BPS) / 10000
    } else {
        -((-new_yield * YIELD_DISTRIBUTION_RECIPIENT_BPS) / 10000)
    }
}

/// Splits `new_yield` into the recipient's share and the treasury's share: the recipient gets
/// `YIELD_DISTRIBUTION_RECIPIENT_BPS` basis points (rounded toward zero, as integer division
/// does) and the treasury the rest, so the shares add up to the whole yield. Of a
/// non-negative yield the treasury gets the larger half, by at most one unit.
pub fn split_yield_shares(new_yield: i128) -> (shares: (i128, i128))
    requires
        i128::MIN <= new_yield * YIELD_DISTRIBUTION_RECIPIENT_BPS,
        new_yield * YIELD_DISTRIBUTION_RECIPIENT_BPS <= i128::MAX,
    ensures
        shares.0 == recipient_share_of(new_yield as int),
        shares.0 + shares.1 == new_yield,
        new_yield >= 0 ==> 0 <= shares.0 <= shares.1 <= shares.0 + 1,
{
    let recipient_share = (new_yield * YIELD_DISTRIBUTION_RECIPIENT_BPS as i128) / 10000;
    let treasury_share = new_yield - recipient_share;
    if new_yield >= 0 {
        assert(0 <= recipient_share && recipient_share * 2 <= new_yield && new_yield
            <= recipient_share * 2 + 1) by (nonlinear_arith)
            requires
                recipient_share == (new_yield * 5000) / 10000,
                0 <= new_yield,
        ;
    }
    (recipient_share, treasury_share)
}

} // verus!
