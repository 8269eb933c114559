//! The module's governing laws, each proved once and for all over the store
//! model and the operation models.

use vstd::prelude::*;

use crate::balances::reserved_of;
use crate::constants::{lock_period, MAX_SUPPLY, TOTAL_REWARDS};
use crate::ibo::{
    has_proposal, inv, no_dup, proposal_of, prop_idx, stakes_of, tally_total, StoreV,
};
use crate::proposals::{create_model, fresh_record_ok, modify_err, remove_model};
use crate::rewards::{reward_of, staked_amount_total, unclaimed_total};
use crate::scheduler::{review_quorum, sched, vote_quorum};
use crate::types::{AccountId, IboError, ProposalId, ProposalState, ProposalType, ProposalV};
use crate::voting::{first_match_idx, some_match, unstake_err};

verus! {

/// No two proposals share an id, and no stored id has outrun the generator:
/// the ids ever issued are exactly `0, 1, ..., id_generator - 1`, and the
/// store holds a subset of them.
pub proof fn lemma_unique_ids(s: StoreV)
    requires
        inv(s),
    ensures
        forall|i: int, j: int|
            0 <= i < s.proposals.len() && 0 <= j < s.proposals.len() && i != j ==> (
            #[trigger] s.proposals[i]).id != (#[trigger] s.proposals[j]).id,
        forall|i: int|
            0 <= i < s.proposals.len() ==> (#[trigger] s.proposals[i]).id < s.id_generator,
{
    assert forall|i: int, j: int|
        0 <= i < s.proposals.len() && 0 <= j < s.proposals.len() && i != j implies (
    #[trigger] s.proposals[i]).id != (#[trigger] s.proposals[j]).id by {
        if i < j {
            assert(s.proposals[i].id < s.proposals[j].id);
        } else {
            assert(s.proposals[j].id < s.proposals[i].id);
        }
    }
}

/// At most one proposal is in its public-vote phase, and the
/// `voting_proposal` singleton holds its id exactly when one exists.
pub proof fn lemma_at_most_one_voting(s: StoreV)
    requires
        inv(s),
    ensures
        forall|i: int, j: int|
            0 <= i < s.proposals.len() && 0 <= j < s.proposals.len() && (
            #[trigger] s.proposals[i]).state == ProposalState::Voting && (
            #[trigger] s.proposals[j]).state == ProposalState::Voting ==> i == j,
        (exists|i: int|
            0 <= i < s.proposals.len() && (#[trigger] s.proposals[i]).state
                == ProposalState::Voting) <==> s.voting_proposal is Some,
        match s.voting_proposal {
            Some(id) => exists|i: int|
                0 <= i < s.proposals.len() && (#[trigger] s.proposals[i]).id == id
                    && s.proposals[i].state == ProposalState::Voting,
            None => true,
        },
{
    lemma_unique_ids(s);
    assert forall|i: int, j: int|
        0 <= i < s.proposals.len() && 0 <= j < s.proposals.len() && (
    #[trigger] s.proposals[i]).state == ProposalState::Voting && (
    #[trigger] s.proposals[j]).state == ProposalState::Voting implies i == j by {
        assert(s.voting_proposal == Some(s.proposals[i].id));
        assert(s.voting_proposal == Some(s.proposals[j].id));
        if i != j {
            assert(s.proposals[i].id != s.proposals[j].id);
        }
    }
    if s.voting_proposal is Some {
        let id = s.voting_proposal->0;
        assert(has_proposal(s.proposals, id));
        let i = prop_idx(s.proposals, id);
        assert(0 <= i < s.proposals.len() && s.proposals[i].id == id && s.proposals[i].state
            == ProposalState::Voting);
    }
}

/// The total issuance never passes the supply cap.
pub proof fn lemma_issuance_cap(s: StoreV)
    requires
        inv(s),
    ensures
        s.balances.total_issuance <= MAX_SUPPLY,
{
}

/// Escrow conservation: each account's reserved balance is exactly the sum
/// of its staked amounts, so every stake record's amount is covered by the
/// reserve it came out of.
pub proof fn lemma_escrow_conservation(s: StoreV)
    requires
        inv(s),
    ensures
        forall|k: int|
            0 <= k < s.staking.len() ==> staked_amount_total((#[trigger] s.staking[k]).stakes)
                == reserved_of(s.balances.accounts, s.staking[k].account),
        forall|k: int, j: int|
            0 <= k < s.staking.len() && 0 <= j < (#[trigger] s.staking[k]).stakes.len() ==> (
            #[trigger] s.staking[k].stakes[j]).staking_amount <= reserved_of(
                s.balances.accounts,
                s.staking[k].account,
            ),
{
    assert forall|k: int, j: int|
        0 <= k < s.staking.len() && 0 <= j < (#[trigger] s.staking[k]).stakes.len() implies (
    #[trigger] s.staking[k].stakes[j]).staking_amount <= reserved_of(
        s.balances.accounts,
        s.staking[k].account,
    ) by {
        crate::rewards::lemma_stake_amount_le_total(s.staking[k].stakes, j);
    }
}

/// No review list and no voter list holds an account twice.
pub proof fn lemma_no_duplicate_ballots(s: StoreV)
    requires
        inv(s),
    ensures
        forall|k: int| 0 <= k < s.reviewers.len() ==> no_dup((#[trigger] s.reviewers[k]).members),
        forall|k: int| 0 <= k < s.voters.len() ==> no_dup((#[trigger] s.voters[k]).members),
{
}

/// Creating a proposal and deleting it while still Pending restores the
/// store exactly, except for the consumed id.
pub proof fn lemma_create_delete_round_trip(s: StoreV, p: ProposalV)
    requires
        inv(s),
        p.id == s.id_generator,
        s.id_generator < u32::MAX,
        fresh_record_ok(p),
    ensures
        modify_err(create_model(s, p), p.id, p.proposer) is None,
        remove_model(create_model(s, p), p.id) == (StoreV {
            id_generator: (s.id_generator + 1) as u32,
            ..s
        }),
{
    let s1 = create_model(s, p);
    crate::ibo::lemma_prop_lookup_push(s.proposals, p);
    assert(proposal_of(s1.proposals, p.id) == p);
    assert(prop_idx(s1.proposals, p.id) == s.proposals.len());
    assert(s1.proposals.remove(s.proposals.len() as int) =~= s.proposals);
    assert(remove_model(s1, p.id) =~= (StoreV { id_generator: (s.id_generator + 1) as u32, ..s }));
}

/// Zero participation fails every quorum: with a 0-0 tally, List, Rise and
/// Fall reject by the two-thirds rule, and Delist rejects by strict
/// majority.
pub proof fn lemma_zero_tally_rejects(pt: ProposalType)
    ensures
        !review_quorum(pt, 0, 0),
        !vote_quorum(pt, 0, 0),
{
}

/// The two-thirds boundary: exactly twice as much support as opposition,
/// with someone present, approves List, Rise and Fall; Delist approves
/// exactly on strict majority.
pub proof fn lemma_two_thirds_boundary(pt: ProposalType, support: u64, oppose: u64)
    requires
        support == 2 * oppose,
        support > 0,
    ensures
        pt != ProposalType::Delist ==> review_quorum(pt, support, oppose),
        review_quorum(ProposalType::Delist, support, oppose) <==> support > oppose,
{
}

/// The same boundary for the stake-weighted vote tallies.
pub proof fn lemma_two_thirds_boundary_vote(pt: ProposalType, support: u128, oppose: u128)
    requires
        support == 2 * oppose,
        support > 0,
    ensures
        pt != ProposalType::Delist ==> vote_quorum(pt, support, oppose),
        vote_quorum(ProposalType::Delist, support, oppose) <==> support > oppose,
{
}

/// The lock-period boundary: releasing a stake at exactly
/// `timestamp + lock_period` goes through, one millisecond earlier fails.
pub proof fn lemma_unstake_lock_boundary(s: StoreV, user: AccountId, id: ProposalId)
    requires
        inv(s),
        some_match(stakes_of(s.staking, user), id),
        ({
            let stakes = stakes_of(s.staking, user);
            let st = stakes[first_match_idx(stakes, id)];
            st.timestamp + lock_period(st.age_idx) <= u64::MAX
        }),
    ensures
        ({
            let stakes = stakes_of(s.staking, user);
            let st = stakes[first_match_idx(stakes, id)];
            &&& unstake_err(s, user, id, (st.timestamp + lock_period(st.age_idx)) as u64) is None
            &&& lock_period(st.age_idx) > 0 ==> unstake_err(
                s,
                user,
                id,
                (st.timestamp + lock_period(st.age_idx) - 1) as u64,
            ) == Some(IboError::StillInStaking)
        }),
{
    crate::voting::lemma_some_match_first(stakes_of(s.staking, user), id);
}

/// Monotone lifecycle: one scheduler run moves every proposal at most one
/// step forward along the transition table's edges, and never backward.
/// The dispatches move no state at all: their contracts pin `state`, and a
/// create only ever adds a Pending record.
pub proof fn lemma_scheduler_lifecycle(s: StoreV, now: u64)
    requires
        inv(s),
    ensures
        inv(sched(s, now)),
        sched(s, now).proposals.len() == s.proposals.len(),
        forall|j: int|
            0 <= j < s.proposals.len() ==> crate::scheduler::lifecycle_ok(
                s.proposals[j].state,
                (#[trigger] sched(s, now).proposals[j]).state,
            ),
{
    crate::scheduler::lemma_sched_upto_props(s, s.proposals.len() as int, now);
}

/// Share of `TOTAL_REWARDS` each weight draws, summed over a list of
/// weights.
pub open spec fn rewards_sum(ws: Seq<int>, total: int) -> int
    decreases ws.len(),
{
    if ws.len() == 0 {
        0
    } else {
        rewards_sum(ws.drop_last(), total) + reward_of(ws.last(), total)
    }
}

/// Sum of a list of weights.
pub open spec fn weights_sum(ws: Seq<int>) -> int
    decreases ws.len(),
{
    if ws.len() == 0 {
        0
    } else {
        weights_sum(ws.drop_last()) + ws.last()
    }
}

/// Both scaled bounds on a partial sum of reward shares, by induction.
proof fn lemma_rewards_sum_bounds(ws: Seq<int>, total: int)
    requires
        total > 0,
        forall|i: int| 0 <= i < ws.len() ==> ws[i] >= 0,
    ensures
        total * rewards_sum(ws, total) <= TOTAL_REWARDS * weights_sum(ws),
        total * rewards_sum(ws, total) >= TOTAL_REWARDS * weights_sum(ws) - ws.len() * total
            + ws.len(),
    decreases ws.len(),
{
    if ws.len() == 0 {
    } else {
        let prefix = ws.drop_last();
        let w = ws.last();
        assert(forall|i: int| 0 <= i < prefix.len() ==> prefix[i] >= 0);
        lemma_rewards_sum_bounds(prefix, total);
        assert(w >= 0);
        crate::rewards::lemma_reward_share_bounds(w, total);
        let a = rewards_sum(prefix, total);
        let b = weights_sum(prefix);
        let r = reward_of(w, total);
        assert(total * (a + r) == total * a + total * r) by (nonlinear_arith);
        assert(total * r == r * total) by (nonlinear_arith);
        assert(TOTAL_REWARDS * (b + w) == TOTAL_REWARDS * b + TOTAL_REWARDS * w)
            by (nonlinear_arith);
        assert((ws.len() as int) * total == (prefix.len() as int) * total + total)
            by (nonlinear_arith)
            requires
                ws.len() == prefix.len() + 1,
        ;
    }
}

/// Reward conservation: when the winning weights sum to the recorded tally,
/// the floored pro-rata shares never exceed the pool, and what the floors
/// lose is less than one unit per voter, so
/// `sum of claims + residue == TOTAL_REWARDS` up to that truncation.
pub proof fn lemma_reward_conservation(ws: Seq<int>, total: int)
    requires
        total > 0,
        forall|i: int| 0 <= i < ws.len() ==> ws[i] >= 0,
        weights_sum(ws) == total,
    ensures
        rewards_sum(ws, total) <= TOTAL_REWARDS,
        TOTAL_REWARDS < rewards_sum(ws, total) + ws.len(),
{
    lemma_rewards_sum_bounds(ws, total);
    let r = rewards_sum(ws, total);
    assert(total * r <= TOTAL_REWARDS * total);
    assert(r <= TOTAL_REWARDS) by (nonlinear_arith)
        requires
            total * r <= TOTAL_REWARDS * total,
            total > 0,
    ;
    assert(ws.len() > 0) by {
        if ws.len() == 0 {
            assert(weights_sum(ws) == 0);
        }
    }
    assert(total * r >= TOTAL_REWARDS * total - ws.len() * total + ws.len());
    assert(r > TOTAL_REWARDS - ws.len()) by (nonlinear_arith)
        requires
            total * r >= TOTAL_REWARDS * total - ws.len() * total + ws.len(),
            total > 0,
            ws.len() > 0,
    ;
}

/// What is left of a proposal's reward pool always covers the pro-rata
/// share of every stake that has not drawn its reward yet.
pub proof fn lemma_pool_covers_unclaimed(s: StoreV, i: int)
    requires
        inv(s),
        0 <= i < s.proposals.len(),
    ensures
        unclaimed_total(s.staking, s.proposals[i].id) <= tally_total(s.proposals[i]),
        s.proposals[i].rewards_remainder * tally_total(s.proposals[i]) >= TOTAL_REWARDS
            * unclaimed_total(s.staking, s.proposals[i].id),
{
}

} // verus!
