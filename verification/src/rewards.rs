//! Ballot weights, the sums the store invariants are stated over, and the
//! arithmetic facts behind reward conservation.

use vstd::prelude::*;

use crate::constants::{age_multiplier, TOTAL_REWARDS};
use crate::types::{ProposalId, StakeLedgerV, StakingInfo};

verus! {

/// Weight of one ballot: `amount * age_multiplier(age_idx)`.
pub open spec fn stake_weight(st: StakingInfo) -> int {
    st.staking_amount * age_multiplier(st.age_idx)
}

/// What one stake record contributes to proposal `id`'s unclaimed weight:
/// its weight while its reward has not been drawn, else nothing.
pub open spec fn stake_term(st: StakingInfo, id: ProposalId) -> int {
    if st.proposal_id == id && !st.wheather_received_reward {
        stake_weight(st)
    } else {
        0
    }
}

/// Unclaimed weight one account's stakes hold on proposal `id`.
pub open spec fn unclaimed_weight_in(stakes: Seq<StakingInfo>, id: ProposalId) -> int
    decreases stakes.len(),
{
    if stakes.len() == 0 {
        0
    } else {
        unclaimed_weight_in(stakes.drop_last(), id) + stake_term(stakes.last(), id)
    }
}

/// Unclaimed weight the whole stake ledger holds on proposal `id`.
pub open spec fn unclaimed_total(ledger: Seq<StakeLedgerV>, id: ProposalId) -> int
    decreases ledger.len(),
{
    if ledger.len() == 0 {
        0
    } else {
        unclaimed_total(ledger.drop_last(), id) + unclaimed_weight_in(ledger.last().stakes, id)
    }
}

/// Total amount one account's stake records hold in escrow.
pub open spec fn staked_amount_total(stakes: Seq<StakingInfo>) -> int
    decreases stakes.len(),
{
    if stakes.len() == 0 {
        0
    } else {
        staked_amount_total(stakes.drop_last()) + stakes.last().staking_amount
    }
}

pub proof fn lemma_unclaimed_weight_nonneg(stakes: Seq<StakingInfo>, id: ProposalId)
    ensures
        unclaimed_weight_in(stakes, id) >= 0,
    decreases stakes.len(),
{
    if stakes.len() > 0 {
        lemma_unclaimed_weight_nonneg(stakes.drop_last(), id);
    }
}

pub proof fn lemma_unclaimed_total_nonneg(ledger: Seq<StakeLedgerV>, id: ProposalId)
    ensures
        unclaimed_total(ledger, id) >= 0,
    decreases ledger.len(),
{
    if ledger.len() > 0 {
        lemma_unclaimed_total_nonneg(ledger.drop_last(), id);
        lemma_unclaimed_weight_nonneg(ledger.last().stakes, id);
    }
}

/// Appending a stake record adds that record's contribution.
pub proof fn lemma_unclaimed_weight_push(stakes: Seq<StakingInfo>, st: StakingInfo, id: ProposalId)
    ensures
        unclaimed_weight_in(stakes.push(st), id) == unclaimed_weight_in(stakes, id) + stake_term(
            st,
            id,
        ),
{
    assert(stakes.push(st).drop_last() =~= stakes);
    assert(stakes.push(st).last() == st);
}

/// Removing a stake record removes that record's contribution.
pub proof fn lemma_unclaimed_weight_remove(stakes: Seq<StakingInfo>, i: int, id: ProposalId)
    requires
        0 <= i < stakes.len(),
    ensures
        unclaimed_weight_in(stakes.remove(i), id) == unclaimed_weight_in(stakes, id) - stake_term(
            stakes[i],
            id,
        ),
    decreases stakes.len(),
{
    let rem = stakes.remove(i);
    if i == stakes.len() - 1 {
        assert(rem =~= stakes.drop_last());
    } else {
        assert(rem.drop_last() =~= stakes.drop_last().remove(i));
        assert(rem.last() == stakes.last());
        lemma_unclaimed_weight_remove(stakes.drop_last(), i, id);
    }
}

/// One record's contribution is at most the account's whole unclaimed weight.
pub proof fn lemma_stake_term_le_weight(stakes: Seq<StakingInfo>, i: int, id: ProposalId)
    requires
        0 <= i < stakes.len(),
    ensures
        stake_term(stakes[i], id) <= unclaimed_weight_in(stakes, id),
    decreases stakes.len(),
{
    lemma_unclaimed_weight_nonneg(stakes.drop_last(), id);
    if i == stakes.len() - 1 {
    } else {
        lemma_stake_term_le_weight(stakes.drop_last(), i, id);
    }
}

/// Replacing one ledger entry moves the total by the difference of the two
/// entries' unclaimed weights.
pub proof fn lemma_unclaimed_total_update(
    ledger: Seq<StakeLedgerV>,
    k: int,
    entry: StakeLedgerV,
    id: ProposalId,
)
    requires
        0 <= k < ledger.len(),
    ensures
        unclaimed_total(ledger.update(k, entry), id) == unclaimed_total(ledger, id)
            - unclaimed_weight_in(ledger[k].stakes, id) + unclaimed_weight_in(entry.stakes, id),
    decreases ledger.len(),
{
    let upd = ledger.update(k, entry);
    if k == ledger.len() - 1 {
        assert(upd.drop_last() =~= ledger.drop_last());
        assert(upd.last() == entry);
    } else {
        assert(upd.drop_last() =~= ledger.drop_last().update(k, entry));
        assert(upd.last() == ledger.last());
        lemma_unclaimed_total_update(ledger.drop_last(), k, entry, id);
    }
}

/// Appending a ledger entry adds that entry's unclaimed weight.
pub proof fn lemma_unclaimed_total_push(
    ledger: Seq<StakeLedgerV>,
    entry: StakeLedgerV,
    id: ProposalId,
)
    ensures
        unclaimed_total(ledger.push(entry), id) == unclaimed_total(ledger, id)
            + unclaimed_weight_in(entry.stakes, id),
{
    assert(ledger.push(entry).drop_last() =~= ledger);
    assert(ledger.push(entry).last() == entry);
}

/// One entry's unclaimed weight is at most the ledger's total.
pub proof fn lemma_entry_le_total(ledger: Seq<StakeLedgerV>, k: int, id: ProposalId)
    requires
        0 <= k < ledger.len(),
    ensures
        unclaimed_weight_in(ledger[k].stakes, id) <= unclaimed_total(ledger, id),
    decreases ledger.len(),
{
    lemma_unclaimed_total_nonneg(ledger.drop_last(), id);
    lemma_unclaimed_weight_nonneg(ledger.last().stakes, id);
    if k == ledger.len() - 1 {
    } else {
        lemma_entry_le_total(ledger.drop_last(), k, id);
    }
}

/// An account whose stakes never name proposal `id` holds no unclaimed
/// weight on it.
pub proof fn lemma_unclaimed_weight_no_match(stakes: Seq<StakingInfo>, id: ProposalId)
    requires
        forall|j: int| 0 <= j < stakes.len() ==> (#[trigger] stakes[j]).proposal_id != id,
    ensures
        unclaimed_weight_in(stakes, id) == 0,
    decreases stakes.len(),
{
    if stakes.len() > 0 {
        lemma_unclaimed_weight_no_match(stakes.drop_last(), id);
    }
}

/// A ledger none of whose stakes name proposal `id` holds no unclaimed
/// weight on it.
pub proof fn lemma_unclaimed_total_no_match(ledger: Seq<StakeLedgerV>, id: ProposalId)
    requires
        forall|k: int, j: int|
            0 <= k < ledger.len() && 0 <= j < (#[trigger] ledger[k]).stakes.len() ==> (
            #[trigger] ledger[k].stakes[j]).proposal_id != id,
    ensures
        unclaimed_total(ledger, id) == 0,
    decreases ledger.len(),
{
    if ledger.len() > 0 {
        lemma_unclaimed_total_no_match(ledger.drop_last(), id);
        lemma_unclaimed_weight_no_match(ledger.last().stakes, id);
    }
}

pub proof fn lemma_staked_amount_nonneg(stakes: Seq<StakingInfo>)
    ensures
        staked_amount_total(stakes) >= 0,
    decreases stakes.len(),
{
    if stakes.len() > 0 {
        lemma_staked_amount_nonneg(stakes.drop_last());
    }
}

/// Appending a stake record adds its amount to the escrow total.
pub proof fn lemma_staked_amount_push(stakes: Seq<StakingInfo>, st: StakingInfo)
    ensures
        staked_amount_total(stakes.push(st)) == staked_amount_total(stakes) + st.staking_amount,
{
    assert(stakes.push(st).drop_last() =~= stakes);
    assert(stakes.push(st).last() == st);
}

/// Removing a stake record takes its amount out of the escrow total.
pub proof fn lemma_staked_amount_remove(stakes: Seq<StakingInfo>, i: int)
    requires
        0 <= i < stakes.len(),
    ensures
        staked_amount_total(stakes.remove(i)) == staked_amount_total(stakes)
            - stakes[i].staking_amount,
    decreases stakes.len(),
{
    let rem = stakes.remove(i);
    if i == stakes.len() - 1 {
        assert(rem =~= stakes.drop_last());
    } else {
        assert(rem.drop_last() =~= stakes.drop_last().remove(i));
        assert(rem.last() == stakes.last());
        lemma_staked_amount_remove(stakes.drop_last(), i);
    }
}

/// One record's amount is at most the account's whole escrow total.
pub proof fn lemma_stake_amount_le_total(stakes: Seq<StakingInfo>, i: int)
    requires
        0 <= i < stakes.len(),
    ensures
        stakes[i].staking_amount <= staked_amount_total(stakes),
    decreases stakes.len(),
{
    lemma_staked_amount_nonneg(stakes.drop_last());
    if i == stakes.len() - 1 {
    } else {
        lemma_stake_amount_le_total(stakes.drop_last(), i);
    }
}

/// The reward a ballot of weight `w` draws from a pool whose winning weight
/// totals `total`: multiply first, divide last, floor.
pub open spec fn reward_of(w: int, total: int) -> int {
    (TOTAL_REWARDS * w) / total
}

/// A floored share never exceeds its exact share, and undercuts it by less
/// than one unit of `total`.
pub proof fn lemma_reward_share_bounds(w: int, total: int)
    requires
        total > 0,
        w >= 0,
    ensures
        0 <= reward_of(w, total) * total <= TOTAL_REWARDS * w,
        reward_of(w, total) * total > TOTAL_REWARDS * w - total,
{
    let x = TOTAL_REWARDS * w;
    assert(x >= 0) by (nonlinear_arith)
        requires
            w >= 0,
            x == TOTAL_REWARDS * w,
    ;
    vstd::arithmetic::div_mod::lemma_fundamental_div_mod(x, total);
    vstd::arithmetic::div_mod::lemma_mod_bound(x, total);
    assert(x == total * (x / total) + x % total);
    assert((x / total) * total == x - x % total) by (nonlinear_arith)
        requires
            x == total * (x / total) + x % total,
    ;
    assert(x / total >= 0) by {
        vstd::arithmetic::div_mod::lemma_div_pos_is_pos(x, total);
    }
    assert(reward_of(w, total) * total >= 0) by (nonlinear_arith)
        requires
            reward_of(w, total) == x / total,
            x / total >= 0,
            total > 0,
    ;
}

} // verus!
