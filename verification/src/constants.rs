//! Governance configuration: the reward pool, the issuance cap, the phase
//! durations, the vote-age table, and the runtime's currency units.

use vstd::prelude::*;

verus! {

/// Reward pool attached to every List and Delist proposal, distributed
/// pro rata over the voters' weights when the proposal closes.
pub const TOTAL_REWARDS: u64 = 100_000;

/// Absolute ceiling on `total_issuance`: no credit may push issuance past it.
pub const MAX_SUPPLY: u64 = 1_000_000_000;

/// One minute in milliseconds.
pub const MINUTE: u64 = 1000 * 60;

/// One day in milliseconds.
pub const DAY: u64 = 1000 * 60 * 60 * 24;

/// While `now - timestamp` is within this window a proposal stays Pending and
/// its proposer may still update or delete it.
pub const ALLOW_MODIFY_DURATION: u64 = 1000 * 60 * 10;

/// Length of the Reviewing phase, during which council members review.
pub const REVIEW_DURATION: u64 = 1000 * 60 * 10;

/// Length of the Voting phase, during which anyone may stake a ballot.
pub const VOTE_DURATION: u64 = 1000 * 60 * 10;

/// How long an Approved or Rejected proposal stays open for reward claims
/// before the scheduler closes it and sends the residue to the treasury.
pub const RECEIVE_REWARDS_DURATION: u64 = 1000 * 60 * 10;

/// Vote-age multiplier of a ballot: row `idx` of the age table.
/// A ballot's weight is `amount * age_multiplier(age_idx)`.
pub open spec fn age_multiplier(idx: u8) -> u64 {
    if idx == 0 {
        1000
    } else if idx == 1 {
        1500
    } else if idx == 2 {
        2250
    } else if idx == 3 {
        3375
    } else if idx == 4 {
        5000
    } else if idx == 5 {
        7600
    } else {
        0
    }
}

/// Lock period of a ballot, in milliseconds: row `idx` of the age table.
/// The staked amount stays reserved at least this long.
pub open spec fn lock_period(idx: u8) -> u64 {
    if idx == 0 {
        (8 * DAY) as u64
    } else if idx == 1 {
        (16 * DAY) as u64
    } else if idx == 2 {
        (32 * DAY) as u64
    } else if idx == 3 {
        (64 * DAY) as u64
    } else if idx == 4 {
        (128 * DAY) as u64
    } else if idx == 5 {
        (256 * DAY) as u64
    } else {
        0
    }
}

/// Row `idx` of the age table: `(vote_age_multiplier, lock_period_ms)`.
/// Multipliers grow with the chosen age preference, and so do lock periods.
pub fn age_entry(idx: u8) -> (r: (u64, u64))
    requires
        idx < 6,
    ensures
        r.0 == age_multiplier(idx),
        r.1 == lock_period(idx),
{
    if idx == 0 {
        (1000, 8 * DAY)
    } else if idx == 1 {
        (1500, 16 * DAY)
    } else if idx == 2 {
        (2250, 32 * DAY)
    } else if idx == 3 {
        (3375, 64 * DAY)
    } else if idx == 4 {
        (5000, 128 * DAY)
    } else {
        (7600, 256 * DAY)
    }
}

/// Smallest currency unit used by the surrounding runtime's fee formula.
pub const MILLICENTS: u128 = 1_000_000_000;

/// One cent of the runtime's currency.
pub const CENTS: u128 = 1_000 * MILLICENTS;

/// One dollar of the runtime's currency.
pub const DOLLARS: u128 = 100 * CENTS;

/// Storage deposit owed for keeping `items` items and `bytes` bytes on chain.
pub fn deposit(items: u32, bytes: u32) -> (r: u128)
    ensures
        r == items * 15 * CENTS + bytes * 6 * CENTS,
{
    (items as u128) * 15 * CENTS + (bytes as u128) * 6 * CENTS
}

} // verus!
