//! Guard errors, boundary tallies, the lock period, the age table and the
//! small helpers.

use ibo::balances::Balances;
use ibo::constants::{
    age_entry, deposit, ALLOW_MODIFY_DURATION, CENTS, DAY, REVIEW_DURATION, VOTE_DURATION,
};
use ibo::ibo::Module;
use ibo::types::{IboError, MarketType, ProposalState, ProposalType, StakingInfo};

const DAVE: u64 = 4;
const ERIN: u64 = 5;
const POOR: u64 = 6;
const VAULT: u64 = 98;

fn module_with_listing(council: Vec<u64>) -> (Module, u32) {
    let mut m = Module::new(council, VAULT);
    m.endow(VAULT, 0).unwrap();
    m.endow(DAVE, 1_000_000).unwrap();
    m.endow(ERIN, 1_000_000).unwrap();
    m.create_list_proposal(
        DAVE,
        b"u".to_vec(),
        b"u".to_vec(),
        b"T".to_vec(),
        b"T".to_vec(),
        1,
        1,
        MarketType::Growth,
        0,
    )
    .unwrap();
    (m, 0)
}

fn drive_to_voting(m: &mut Module, id: u32) -> u64 {
    let t1 = ALLOW_MODIFY_DURATION + 1;
    m.on_finalize(t1);
    m.review_proposal(20, id, true).unwrap();
    let t2 = t1 + REVIEW_DURATION + 1;
    m.on_finalize(t2);
    assert_eq!(m.proposal(id).unwrap().state, ProposalState::Voting);
    t2
}

#[test]
fn zero_tally_rejects_every_kind() {
    // A 0-0 review tally fails both quorum rules: the List proposal is
    // rejected outright once its review window passes.
    let (mut m, id) = module_with_listing(vec![20]);
    let t1 = ALLOW_MODIFY_DURATION + 1;
    m.on_finalize(t1);
    let t2 = t1 + REVIEW_DURATION + 1;
    m.on_finalize(t2);
    assert_eq!(m.proposal(id).unwrap().state, ProposalState::RejectedClosed);
}

#[test]
fn exact_two_thirds_approves_list_review() {
    // support == 2 * oppose with support > 0 meets the two-thirds rule.
    let (mut m, id) = module_with_listing(vec![20, 21, 22]);
    let t1 = ALLOW_MODIFY_DURATION + 1;
    m.on_finalize(t1);
    m.review_proposal(20, id, true).unwrap();
    m.review_proposal(21, id, true).unwrap();
    m.review_proposal(22, id, false).unwrap();
    let t2 = t1 + REVIEW_DURATION + 1;
    m.on_finalize(t2);
    assert_eq!(m.proposal(id).unwrap().state, ProposalState::Voting);
}

#[test]
fn exact_two_thirds_approves_list_vote() {
    let (mut m, id) = module_with_listing(vec![20]);
    let t2 = drive_to_voting(&mut m, id);
    m.vote_proposal(DAVE, id, 200, 0, true, t2).unwrap();
    m.vote_proposal(ERIN, id, 100, 0, false, t2).unwrap();
    let t3 = t2 + VOTE_DURATION + 1;
    m.on_finalize(t3);
    // 200_000 >= 2 * 100_000 approves.
    assert_eq!(m.proposal(id).unwrap().state, ProposalState::Approved);
}

#[test]
fn unstake_exactly_at_lock_boundary() {
    let (mut m, id) = module_with_listing(vec![20]);
    drive_to_voting(&mut m, id);
    // Stake 500 at t=1000 with age row 2: the lock is 32 days.
    m.vote_proposal(ERIN, id, 500, 2, true, 1_000).unwrap();
    assert_eq!(m.reserved_balance(ERIN), 500);
    let lock = 32 * DAY;
    assert_eq!(age_entry(2).1, lock);
    let r = m.unstake(ERIN, id, 1_000 + lock - 1);
    assert_eq!(r.err(), Some(IboError::StillInStaking));
    assert_eq!(m.reserved_balance(ERIN), 500);
    m.unstake(ERIN, id, 1_000 + lock).unwrap();
    assert_eq!(m.reserved_balance(ERIN), 0);
    assert_eq!(m.free_balance(ERIN), 1_000_000);
    assert!(m.staking(ERIN).is_empty());
}

#[test]
fn review_guard_errors() {
    let (mut m, id) = module_with_listing(vec![20, 21]);
    // Not a council member.
    assert_eq!(
        m.review_proposal(DAVE, id, true).err(),
        Some(IboError::NotInCollective)
    );
    // Unknown proposal.
    assert_eq!(
        m.review_proposal(20, 77, true).err(),
        Some(IboError::ProposalNotFound)
    );
    // Still Pending: cannot be reviewed yet.
    assert_eq!(
        m.review_proposal(20, id, true).err(),
        Some(IboError::ProposalCannotBeReviewed)
    );
    m.on_finalize(ALLOW_MODIFY_DURATION + 1);
    m.review_proposal(20, id, true).unwrap();
    // One ballot per member.
    assert_eq!(
        m.review_proposal(20, id, false).err(),
        Some(IboError::AlreadyReview)
    );
    assert_eq!(m.proposal(id).unwrap().review_goals, (1, 0));
}

#[test]
fn vote_guard_errors() {
    let (mut m, id) = module_with_listing(vec![20]);
    assert_eq!(
        m.vote_proposal(DAVE, 77, 10, 0, true, 0).err(),
        Some(IboError::ProposalNotFound)
    );
    assert_eq!(
        m.vote_proposal(DAVE, id, 10, 0, true, 0).err(),
        Some(IboError::ProposalCannotBeVoted)
    );
    let t2 = drive_to_voting(&mut m, id);
    assert_eq!(
        m.vote_proposal(POOR, id, 10, 0, true, t2).err(),
        Some(IboError::InsufficientFunds)
    );
    assert_eq!(
        m.vote_proposal(DAVE, id, 10, 6, true, t2).err(),
        Some(IboError::InvalidVoteAge)
    );
    m.vote_proposal(DAVE, id, 10, 0, true, t2).unwrap();
    assert_eq!(
        m.vote_proposal(DAVE, id, 10, 0, true, t2).err(),
        Some(IboError::AlreadyVote)
    );
}

#[test]
fn rewards_guard_errors() {
    let (mut m, id) = module_with_listing(vec![20]);
    let t2 = drive_to_voting(&mut m, id);
    m.vote_proposal(DAVE, id, 100, 0, true, t2).unwrap();
    // Erin never voted.
    assert_eq!(m.receive_rewards(ERIN, id).err(), Some(IboError::NoVote));
    // Dave voted, but the vote is still open.
    assert_eq!(
        m.receive_rewards(DAVE, id).err(),
        Some(IboError::StateNotForRewards)
    );
    let t3 = t2 + VOTE_DURATION + 1;
    m.on_finalize(t3);
    assert_eq!(m.proposal(id).unwrap().state, ProposalState::Approved);
    m.receive_rewards(DAVE, id).unwrap();
    // One claim per stake.
    assert_eq!(
        m.receive_rewards(DAVE, id).err(),
        Some(IboError::NoneStaking)
    );
    // The only voter takes the whole pool, with no truncation residue.
    assert_eq!(m.proposal(id).unwrap().rewards_remainder, 0);
    let claimed = m.staking(DAVE)[0];
    assert!(claimed.wheather_received_reward);
}

#[test]
fn reward_credit_needs_an_account() {
    let (mut m, id) = module_with_listing(vec![20]);
    let t2 = drive_to_voting(&mut m, id);
    // An account that was never endowed can still cast a zero-amount
    // ballot, but a reward credit to it is refused.
    m.vote_proposal(DAVE, id, 100, 0, true, t2).unwrap();
    m.vote_proposal(POOR, id, 0, 0, true, t2).unwrap();
    let t3 = t2 + VOTE_DURATION + 1;
    m.on_finalize(t3);
    assert_eq!(m.receive_rewards(POOR, id).err(), Some(IboError::NoAccount));
}

#[test]
fn unstake_without_stake_fails() {
    let (mut m, id) = module_with_listing(vec![20]);
    assert_eq!(m.unstake(DAVE, id, 0).err(), Some(IboError::NoneStaking));
}

#[test]
fn modify_guard_errors() {
    let (mut m, id) = module_with_listing(vec![20]);
    assert_eq!(
        m.delete_list_proposal(DAVE, 77).err(),
        Some(IboError::ProposalNotFound)
    );
    assert_eq!(
        m.delete_list_proposal(ERIN, id).err(),
        Some(IboError::NotYourProposal)
    );
    m.on_finalize(ALLOW_MODIFY_DURATION + 1);
    assert_eq!(
        m.delete_list_proposal(DAVE, id).err(),
        Some(IboError::ProposalCannotBeModified)
    );
    assert_eq!(
        m.update_list_proposal(
            DAVE,
            id,
            b"u".to_vec(),
            b"u".to_vec(),
            b"T2".to_vec(),
            b"T2".to_vec(),
            1,
            1,
            MarketType::Growth,
            5,
        )
        .err(),
        Some(IboError::ProposalCannotBeModified)
    );
    assert_eq!(
        m.delete_delist_proposal(DAVE, id).err(),
        Some(IboError::ProposalCannotBeModified)
    );
    assert_eq!(
        m.delete_rise_proposal(DAVE, id).err(),
        Some(IboError::ProposalCannotBeModified)
    );
    assert_eq!(
        m.delete_fall_proposal(DAVE, id).err(),
        Some(IboError::ProposalCannotBeModified)
    );
}

#[test]
fn token_name_guards() {
    let (mut m, id) = module_with_listing(vec![20]);
    drive_to_voting(&mut m, id);
    let t2 = ALLOW_MODIFY_DURATION + REVIEW_DURATION + 2;
    m.vote_proposal(DAVE, id, 100, 0, true, t2).unwrap();
    let t3 = t2 + VOTE_DURATION + 1;
    m.on_finalize(t3);
    assert!(m.token(&b"T".to_vec()).is_some());
    // A second List for an existing token is refused.
    assert_eq!(
        m.create_list_proposal(
            DAVE,
            b"u".to_vec(),
            b"u".to_vec(),
            b"T".to_vec(),
            b"T".to_vec(),
            1,
            1,
            MarketType::Growth,
            t3,
        )
        .err(),
        Some(IboError::TokenExists)
    );
    // Delist, Rise and Fall need the token to exist.
    assert_eq!(
        m.create_delist_proposal(DAVE, b"NO".to_vec(), t3).err(),
        Some(IboError::TokenNotFound)
    );
    assert_eq!(
        m.create_rise_proposal(DAVE, b"NO".to_vec(), t3).err(),
        Some(IboError::TokenNotFound)
    );
    assert_eq!(
        m.create_fall_proposal(DAVE, b"NO".to_vec(), t3).err(),
        Some(IboError::TokenNotFound)
    );
    // An update that renames onto an existing token is refused too.
    m.create_list_proposal(
        DAVE,
        b"u".to_vec(),
        b"u".to_vec(),
        b"F".to_vec(),
        b"F".to_vec(),
        1,
        1,
        MarketType::Growth,
        t3,
    )
    .unwrap();
    assert_eq!(
        m.update_list_proposal(
            DAVE,
            1,
            b"u".to_vec(),
            b"u".to_vec(),
            b"T".to_vec(),
            b"T".to_vec(),
            1,
            1,
            MarketType::Growth,
            t3,
        )
        .err(),
        Some(IboError::TokenExists)
    );
}

#[test]
fn burn_slashes_and_reduces_issuance_twice() {
    let mut m = Module::new(vec![20], VAULT);
    m.endow(DAVE, 10_000).unwrap();
    assert_eq!(m.total_issuance(), 10_000);
    assert_eq!(
        m.burn(DAVE, 20_000).err(),
        Some(IboError::InsufficientFunds)
    );
    m.burn(DAVE, 3_000).unwrap();
    assert_eq!(m.free_balance(DAVE), 7_000);
    // The slash burns the funds and the explicit burn lowers the issuance
    // once more.
    assert_eq!(m.total_issuance(), 4_000);
}

#[test]
fn generate_id_is_monotone() {
    let mut m = Module::new(vec![20], VAULT);
    assert_eq!(m.generate_id(), 0);
    assert_eq!(m.generate_id(), 1);
    assert_eq!(m.id_generator(), 2);
    assert!(m.is_council_member(20));
    assert!(!m.is_council_member(DAVE));
    assert_eq!(m.treasury_account(), VAULT);
}

#[test]
fn age_table_rows() {
    assert_eq!(age_entry(0), (1_000, 8 * DAY));
    assert_eq!(age_entry(1), (1_500, 16 * DAY));
    assert_eq!(age_entry(2), (2_250, 32 * DAY));
    assert_eq!(age_entry(3), (3_375, 64 * DAY));
    assert_eq!(age_entry(4), (5_000, 128 * DAY));
    assert_eq!(age_entry(5), (7_600, 256 * DAY));
}

#[test]
fn vote_weight_uses_age_multiplier() {
    let (mut m, id) = module_with_listing(vec![20]);
    let t2 = drive_to_voting(&mut m, id);
    m.vote_proposal(DAVE, id, 500, 5, true, t2).unwrap();
    assert_eq!(m.proposal(id).unwrap().vote_goals, (3_800_000, 0));
    let st = m.staking(DAVE)[0];
    assert_eq!(
        st,
        StakingInfo {
            proposal_id: id,
            staking_amount: 500,
            age_idx: 5,
            wheather_received_reward: false,
            timestamp: t2,
        }
    );
}

#[test]
fn defaults_and_deposit_formula() {
    assert_eq!(MarketType::default(), MarketType::Off);
    assert_eq!(ProposalType::default(), ProposalType::List);
    assert_eq!(ProposalState::default(), ProposalState::Pending);
    assert_eq!(deposit(1, 0), 15 * CENTS);
    assert_eq!(deposit(0, 2), 12 * CENTS);
    assert_eq!(deposit(3, 4), 45 * CENTS + 24 * CENTS);
}

#[test]
fn balance_gateway_reserve_cycle() {
    let mut b = Balances::new();
    b.endow(DAVE, 1_000).unwrap();
    assert_eq!(b.free_balance(DAVE), 1_000);
    assert_eq!(
        b.reserve(DAVE, 2_000).err(),
        Some(IboError::InsufficientFunds)
    );
    b.reserve(DAVE, 400).unwrap();
    assert_eq!(b.free_balance(DAVE), 600);
    assert_eq!(b.reserved_balance(DAVE), 400);
    b.unreserve(DAVE, 400);
    assert_eq!(b.free_balance(DAVE), 1_000);
    assert_eq!(b.reserved_balance(DAVE), 0);
    assert_eq!(
        b.deposit_into_existing(VAULT, 10).err(),
        Some(IboError::NoAccount)
    );
    b.deposit_into_existing(DAVE, 10).unwrap();
    assert_eq!(b.free_balance(DAVE), 1_010);
    assert_eq!(b.total_issuance(), 1_010);
}
