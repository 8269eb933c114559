//! End-to-end governance flows through the public dispatches and the
//! end-of-block scheduler.

use ibo::constants::{
    ALLOW_MODIFY_DURATION, MAX_SUPPLY, RECEIVE_REWARDS_DURATION, REVIEW_DURATION, TOTAL_REWARDS,
    VOTE_DURATION,
};
use ibo::ibo::Module;
use ibo::types::{IboError, MarketType, ProposalState, ProposalType, CREATE};

const ALICE: u64 = 1;
const BOB: u64 = 2;
const CHARLIE: u64 = 3;
const TREASURY: u64 = 99;

fn fresh_module(council: Vec<u64>) -> Module {
    let mut m = Module::new(council, TREASURY);
    m.endow(TREASURY, 0).unwrap();
    m.endow(ALICE, 1_000_000).unwrap();
    m.endow(BOB, 1_000_000).unwrap();
    m.endow(CHARLIE, 1_000_000).unwrap();
    m
}

/// Drive a List proposal for `name` all the way to an approved token.
/// Returns the time after the approval.
fn list_token(m: &mut Module, name: &[u8], target: MarketType, t0: u64) -> u64 {
    let ev = m
        .create_list_proposal(
            ALICE,
            b"https://site".to_vec(),
            b"icon".to_vec(),
            name.to_vec(),
            name.to_vec(),
            1_000_000,
            500_000,
            target,
            t0,
        )
        .unwrap();
    let id = ev.proposal.id;
    let t1 = t0 + ALLOW_MODIFY_DURATION + 1;
    m.on_finalize(t1);
    m.review_proposal(10, id, true).unwrap();
    let t2 = t1 + REVIEW_DURATION + 1;
    m.on_finalize(t2);
    assert_eq!(m.voting_proposals(), Some(id));
    m.vote_proposal(BOB, id, 1_000, 0, true, t2).unwrap();
    let t3 = t2 + VOTE_DURATION + 1;
    m.on_finalize(t3);
    assert_eq!(m.proposal(id).unwrap().state, ProposalState::Approved);
    assert!(m.token(&name.to_vec()).is_some());
    assert_eq!(m.voting_proposals(), None);
    t3
}

#[test]
fn happy_list_rewards_and_close() {
    let mut m = fresh_module(vec![10, 11, 12]);
    let ev = m
        .create_list_proposal(
            ALICE,
            b"https://x.example".to_vec(),
            b"icon-x".to_vec(),
            b"X".to_vec(),
            b"XSYM".to_vec(),
            2_000_000,
            900_000,
            MarketType::Growth,
            0,
        )
        .unwrap();
    assert_eq!(ev.change_type, CREATE);
    assert_eq!(ev.proposal.id, 0);
    assert_eq!(ev.proposal.state, ProposalState::Pending);
    assert_eq!(ev.proposal.rewards_remainder, TOTAL_REWARDS);

    let t1 = ALLOW_MODIFY_DURATION + 1;
    m.on_finalize(t1);
    let p = m.proposal(0).unwrap();
    assert_eq!(p.state, ProposalState::Reviewing);
    assert_eq!(p.timestamp, t1);

    m.review_proposal(10, 0, true).unwrap();
    m.review_proposal(11, 0, true).unwrap();
    m.review_proposal(12, 0, true).unwrap();
    assert_eq!(m.proposal(0).unwrap().review_goals, (3, 0));
    assert_eq!(m.reviewers(0), vec![10, 11, 12]);

    let t2 = t1 + REVIEW_DURATION + 1;
    m.on_finalize(t2);
    assert_eq!(m.proposal(0).unwrap().state, ProposalState::Voting);
    assert_eq!(m.voting_proposals(), Some(0));

    m.vote_proposal(BOB, 0, 1_000, 0, true, t2).unwrap();
    m.vote_proposal(CHARLIE, 0, 100, 0, false, t2).unwrap();
    let p = m.proposal(0).unwrap();
    assert_eq!(p.vote_goals, (1_000_000, 100_000));
    assert_eq!(m.voters(0), vec![BOB, CHARLIE]);
    assert_eq!(m.reserved_balance(BOB), 1_000);
    assert_eq!(m.reserved_balance(CHARLIE), 100);

    let t3 = t2 + VOTE_DURATION + 1;
    m.on_finalize(t3);
    let p = m.proposal(0).unwrap();
    assert_eq!(p.state, ProposalState::Approved);
    assert_eq!(m.voting_proposals(), None);
    let token = m.token(&b"X".to_vec()).unwrap();
    assert_eq!(token.current_market, MarketType::Growth);
    assert_eq!(token.token_symbol, b"XSYM".to_vec());

    let bob_before = m.free_balance(BOB);
    let charlie_before = m.free_balance(CHARLIE);
    m.receive_rewards(BOB, 0).unwrap();
    m.receive_rewards(CHARLIE, 0).unwrap();
    assert_eq!(m.free_balance(BOB), bob_before + 90_909);
    assert_eq!(m.free_balance(CHARLIE), charlie_before + 9_090);
    assert_eq!(m.proposal(0).unwrap().rewards_remainder, 1);

    let treasury_before = m.free_balance(TREASURY);
    let t4 = t3 + RECEIVE_REWARDS_DURATION + 1;
    m.on_finalize(t4);
    assert_eq!(m.proposal(0).unwrap().state, ProposalState::ApprovedClosed);
    assert_eq!(m.free_balance(TREASURY), treasury_before + 1);
}

#[test]
fn delist_strict_majority_tie_rejects() {
    let mut m = fresh_module(vec![10, 11, 12, 13, 14, 15]);
    let t0 = list_token(&mut m, b"Y", MarketType::Growth, 0);

    let ev = m.create_delist_proposal(ALICE, b"Y".to_vec(), t0).unwrap();
    let id = ev.proposal.id;
    assert_eq!(ev.proposal.proposal_type, ProposalType::Delist);
    let t1 = t0 + ALLOW_MODIFY_DURATION + 1;
    m.on_finalize(t1);
    for (i, member) in [10u64, 11, 12, 13, 14, 15].iter().enumerate() {
        m.review_proposal(*member, id, i < 3).unwrap();
    }
    assert_eq!(m.proposal(id).unwrap().review_goals, (3, 3));
    let t2 = t1 + REVIEW_DURATION + 1;
    m.on_finalize(t2);
    assert_eq!(m.proposal(id).unwrap().state, ProposalState::RejectedClosed);
    assert!(m.token(&b"Y".to_vec()).is_some());
}

#[test]
fn delist_majority_removes_token() {
    let mut m = fresh_module(vec![10, 11, 12]);
    let t0 = list_token(&mut m, b"Y", MarketType::Growth, 0);

    let ev = m.create_delist_proposal(ALICE, b"Y".to_vec(), t0).unwrap();
    let id = ev.proposal.id;
    let t1 = t0 + ALLOW_MODIFY_DURATION + 1;
    m.on_finalize(t1);
    m.review_proposal(10, id, true).unwrap();
    m.review_proposal(11, id, true).unwrap();
    let t2 = t1 + REVIEW_DURATION + 1;
    m.on_finalize(t2);
    assert_eq!(m.proposal(id).unwrap().state, ProposalState::Voting);
    m.vote_proposal(BOB, id, 300, 1, true, t2).unwrap();
    let t3 = t2 + VOTE_DURATION + 1;
    m.on_finalize(t3);
    assert_eq!(m.proposal(id).unwrap().state, ProposalState::Approved);
    assert!(m.token(&b"Y".to_vec()).is_none());
}

#[test]
fn rise_direct_approval_moves_market() {
    let mut m = fresh_module(vec![10, 11, 12]);
    let t0 = list_token(&mut m, b"Y", MarketType::Growth, 0);

    let ev = m.create_rise_proposal(ALICE, b"Y".to_vec(), t0).unwrap();
    let id = ev.proposal.id;
    assert_eq!(ev.proposal.proposal_type, ProposalType::Rise);
    assert_eq!(ev.proposal.target_market, MarketType::Main);
    assert_eq!(ev.proposal.rewards_remainder, 0);
    let t1 = t0 + ALLOW_MODIFY_DURATION + 1;
    m.on_finalize(t1);
    m.review_proposal(10, id, true).unwrap();
    m.review_proposal(11, id, true).unwrap();
    m.review_proposal(12, id, false).unwrap();
    let t2 = t1 + REVIEW_DURATION + 1;
    m.on_finalize(t2);
    assert_eq!(m.proposal(id).unwrap().state, ProposalState::Approved);
    assert_eq!(
        m.token(&b"Y".to_vec()).unwrap().current_market,
        MarketType::Main
    );
    assert_eq!(m.voting_proposals(), None);
}

#[test]
fn fall_direct_approval_moves_market() {
    let mut m = fresh_module(vec![10, 11, 12]);
    let t0 = list_token(&mut m, b"Z", MarketType::Main, 0);
    let ev = m.create_fall_proposal(ALICE, b"Z".to_vec(), t0).unwrap();
    let id = ev.proposal.id;
    assert_eq!(ev.proposal.target_market, MarketType::Growth);
    let t1 = t0 + ALLOW_MODIFY_DURATION + 1;
    m.on_finalize(t1);
    m.review_proposal(10, id, true).unwrap();
    let t2 = t1 + REVIEW_DURATION + 1;
    m.on_finalize(t2);
    assert_eq!(m.proposal(id).unwrap().state, ProposalState::Approved);
    assert_eq!(
        m.token(&b"Z".to_vec()).unwrap().current_market,
        MarketType::Growth
    );
}

#[test]
fn voting_singleton_defers_second_proposal() {
    let mut m = fresh_module(vec![10, 11, 12]);
    m.create_list_proposal(
        ALICE,
        b"u".to_vec(),
        b"u".to_vec(),
        b"A".to_vec(),
        b"A".to_vec(),
        1,
        1,
        MarketType::Growth,
        0,
    )
    .unwrap();
    m.create_list_proposal(
        BOB,
        b"u".to_vec(),
        b"u".to_vec(),
        b"B".to_vec(),
        b"B".to_vec(),
        1,
        1,
        MarketType::Growth,
        0,
    )
    .unwrap();
    let t1 = ALLOW_MODIFY_DURATION + 1;
    m.on_finalize(t1);
    m.review_proposal(10, 0, true).unwrap();
    m.review_proposal(10, 1, true).unwrap();
    let t2 = t1 + REVIEW_DURATION + 1;
    m.on_finalize(t2);
    // The lower id wins the singleton; the higher is deferred, its
    // timestamp untouched.
    assert_eq!(m.proposal(0).unwrap().state, ProposalState::Voting);
    assert_eq!(m.proposal(1).unwrap().state, ProposalState::Reviewing);
    assert_eq!(m.proposal(1).unwrap().timestamp, t1);
    assert_eq!(m.voting_proposals(), Some(0));
    // Once the first vote closes, the same run hands the singleton on.
    let t3 = t2 + VOTE_DURATION + 1;
    m.on_finalize(t3);
    assert_eq!(m.proposal(0).unwrap().state, ProposalState::Rejected);
    assert_eq!(m.proposal(1).unwrap().state, ProposalState::Voting);
    assert_eq!(m.voting_proposals(), Some(1));
}

#[test]
fn scheduler_twice_in_one_block_changes_nothing() {
    let mut m = fresh_module(vec![10, 11, 12]);
    m.create_list_proposal(
        ALICE,
        b"u".to_vec(),
        b"u".to_vec(),
        b"A".to_vec(),
        b"A".to_vec(),
        1,
        1,
        MarketType::Growth,
        0,
    )
    .unwrap();
    let t1 = ALLOW_MODIFY_DURATION + 1;
    m.on_finalize(t1);
    m.review_proposal(10, 0, true).unwrap();
    let t2 = t1 + REVIEW_DURATION + 1;
    m.on_finalize(t2);
    let p_once = m.proposal(0).unwrap();
    let vp_once = m.voting_proposals();
    let issuance_once = m.total_issuance();
    m.on_finalize(t2);
    let p_twice = m.proposal(0).unwrap();
    assert_eq!(p_once.state, p_twice.state);
    assert_eq!(p_once.timestamp, p_twice.timestamp);
    assert_eq!(p_once.review_goals, p_twice.review_goals);
    assert_eq!(vp_once, m.voting_proposals());
    assert_eq!(issuance_once, m.total_issuance());
}

#[test]
fn create_then_delete_restores_the_store() {
    let mut m = fresh_module(vec![10]);
    let tokens_before = m.token(&b"W".to_vec());
    assert!(tokens_before.is_none());
    let issuance_before = m.total_issuance();
    m.create_list_proposal(
        ALICE,
        b"u".to_vec(),
        b"u".to_vec(),
        b"W".to_vec(),
        b"W".to_vec(),
        1,
        1,
        MarketType::Main,
        5,
    )
    .unwrap();
    assert_eq!(m.id_generator(), 1);
    let ev = m.delete_list_proposal(ALICE, 0).unwrap();
    assert_eq!(ev.proposal.id, 0);
    assert!(m.proposal(0).is_none());
    // Everything is back but the consumed id.
    assert_eq!(m.id_generator(), 1);
    assert_eq!(m.total_issuance(), issuance_before);
    assert!(m.token(&b"W".to_vec()).is_none());
    // The next proposal takes a fresh id; ids are never reused.
    let ev = m
        .create_list_proposal(
            ALICE,
            b"u".to_vec(),
            b"u".to_vec(),
            b"W".to_vec(),
            b"W".to_vec(),
            1,
            1,
            MarketType::Main,
            6,
        )
        .unwrap();
    assert_eq!(ev.proposal.id, 1);
}

#[test]
fn issuance_cap_blocks_list_creation() {
    let mut m = Module::new(vec![10], TREASURY);
    m.endow(ALICE, MAX_SUPPLY - TOTAL_REWARDS + 1).unwrap();
    assert!(MAX_SUPPLY - m.total_issuance() < TOTAL_REWARDS);
    let r = m.create_list_proposal(
        ALICE,
        b"u".to_vec(),
        b"u".to_vec(),
        b"C".to_vec(),
        b"C".to_vec(),
        1,
        1,
        MarketType::Growth,
        0,
    );
    assert_eq!(r.err(), Some(IboError::InsufficientIssuance));
    assert_eq!(m.id_generator(), 0);
    assert!(m.proposal(0).is_none());
    // The same headroom check guards a Delist creation.
    let r = m.create_delist_proposal(ALICE, b"C".to_vec(), 0);
    assert_eq!(r.err(), Some(IboError::InsufficientIssuance));
    assert!(m.total_issuance() <= MAX_SUPPLY);
}

#[test]
fn update_list_proposal_replaces_fields() {
    let mut m = fresh_module(vec![10]);
    m.create_list_proposal(
        ALICE,
        b"u".to_vec(),
        b"u".to_vec(),
        b"D".to_vec(),
        b"D".to_vec(),
        1,
        1,
        MarketType::Growth,
        0,
    )
    .unwrap();
    let ev = m
        .update_list_proposal(
            ALICE,
            0,
            b"u2".to_vec(),
            b"u2".to_vec(),
            b"D2".to_vec(),
            b"D2".to_vec(),
            7,
            3,
            MarketType::Main,
            9,
        )
        .unwrap();
    assert_eq!(ev.proposal.token_name, b"D2".to_vec());
    let p = m.proposal(0).unwrap();
    assert_eq!(p.token_name, b"D2".to_vec());
    assert_eq!(p.max_supply, 7);
    assert_eq!(p.target_market, MarketType::Main);
    assert_eq!(p.state, ProposalState::Pending);
    assert_eq!(p.timestamp, 9);
}
