//! Visible rank tiers derived from a player's rating.

use vstd::prelude::*;

verus! {

/// Index of the rank tier that a (truncated) rating falls in, from 0 (Iron)
/// to 6 (Master): tiers are 200 points wide from 800 up, and every rating
/// of 1800 or more is Master.
pub open spec fn rank_tier(mmr: u32) -> nat {
    if mmr < 800 {
        0
    } else if mmr < 1000 {
        1
    } else if mmr < 1200 {
        2
    } else if mmr < 1400 {
        3
    } else if mmr < 1600 {
        4
    } else if mmr < 1800 {
        5
    } else {
        6
    }
}

/// Display name of a rank tier.
pub open spec fn tier_name(tier: nat) -> Seq<char> {
    if tier == 0 {
        "Iron"@
    } else if tier == 1 {
        "Bronze"@
    } else if tier == 2 {
        "Silver"@
    } else if tier == 3 {
        "Gold"@
    } else if tier == 4 {
        "Platinum"@
    } else if tier == 5 {
        "Diamond"@
    } else {
        "Master"@
    }
}

/// Name of the rank for a rating already truncated to an unsigned integer.
pub open spec fn rank_name(mmr: u32) -> Seq<char> {
    tier_name(rank_tier(mmr))
}

/// Maps a rating, truncated to an unsigned integer, to its rank name.
pub fn mmr_to_rank(mmr: u32) -> (r: &'static str)
    ensures
        r@ == rank_name(mmr),
{
    if mmr < 800 {
        "Iron"
    } else if mmr < 1000 {
        "Bronze"
    } else if mmr < 1200 {
        "Silver"
    } else if mmr < 1400 {
        "Gold"
    } else if mmr < 1600 {
        "Platinum"
    } else if mmr < 1800 {
        "Diamond"
    } else {
        "Master"
    }
}

/// A higher rating never yields a lower rank tier.
pub proof fn lemma_rank_tier_monotone(a: u32, b: u32)
    requires
        a <= b,
    ensures
        rank_tier(a) <= rank_tier(b),
{
}

} // verus!
