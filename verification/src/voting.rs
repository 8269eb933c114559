//! Reviewing, stake-weighted voting, reward settlement, unstaking and
//! burning.

use vstd::prelude::*;

use crate::balances::{free_of, has_acct, put_balance, reserved_of, BalancesV};
use crate::constants::{age_multiplier, lock_period, TOTAL_REWARDS};
use crate::ibo::{
    entry_idx, has_entry, has_ledger, has_proposal, ledger_idx, members_of, proposal_of, prop_idx,
    stakes_of, tally_total, Module, StoreV,
};
use crate::rewards::{
    reward_of, stake_term, stake_weight, staked_amount_total, unclaimed_total, unclaimed_weight_in,
};
use crate::types::{
    AccountId, Balance, IboError, IdMembers, IdMembersV, ProposalEvent, ProposalId,
    ProposalState, ProposalV, StakeLedger, StakeLedgerV, StakingInfo, UPDATE,
};

verus! {

/// Replacing a list by one with the same id moves no other list.
pub proof fn lemma_entry_lookup_update(es: Seq<IdMembersV>, k: int, e: IdMembersV)
    requires
        forall|a: int, b: int| 0 <= a < b < es.len() ==> es[a].id != es[b].id,
        0 <= k < es.len(),
        e.id == es[k].id,
    ensures
        forall|a: int, b: int|
            0 <= a < b < es.len() ==> es.update(k, e)[a].id != es.update(k, e)[b].id,
        forall|id: ProposalId| #[trigger] has_entry(es.update(k, e), id) <==> has_entry(es, id),
        forall|id: ProposalId|
            id != e.id ==> #[trigger] members_of(es.update(k, e), id) == members_of(es, id),
        has_entry(es.update(k, e), e.id),
        entry_idx(es.update(k, e), e.id) == k,
        members_of(es.update(k, e), e.id) == e.members,
{
    let es2 = es.update(k, e);
    assert forall|a: int| 0 <= a < es.len() implies es2[a].id == es[a].id by {}
    assert forall|id: ProposalId| #[trigger] has_entry(es2, id) implies has_entry(es, id) by {
        let j = choose|j: int| 0 <= j < es2.len() && es2[j].id == id;
        assert(es[j].id == id);
    }
    assert forall|id: ProposalId| #[trigger] has_entry(es, id) implies has_entry(es2, id) by {
        let j = choose|j: int| 0 <= j < es.len() && es[j].id == id;
        assert(es2[j].id == id);
    }
    crate::ibo::lemma_entry_idx_is(es2, e.id, k);
    assert forall|id: ProposalId| id != e.id implies #[trigger] members_of(es2, id) == members_of(
        es,
        id,
    ) by {
        if has_entry(es, id) {
            let j = entry_idx(es, id);
            assert(0 <= j < es.len() && es[j].id == id);
            assert(j != k);
            crate::ibo::lemma_entry_idx_is(es2, id, j);
            assert(es2[j] == es[j]);
        }
    }
}

/// Appending a list for a fresh id moves no other list.
pub proof fn lemma_entry_lookup_push(es: Seq<IdMembersV>, e: IdMembersV)
    requires
        forall|a: int, b: int| 0 <= a < b < es.len() ==> es[a].id != es[b].id,
        !has_entry(es, e.id),
    ensures
        forall|a: int, b: int|
            0 <= a < b < es.push(e).len() ==> es.push(e)[a].id != es.push(e)[b].id,
        forall|id: ProposalId|
            id != e.id ==> (#[trigger] has_entry(es.push(e), id) <==> has_entry(es, id)),
        forall|id: ProposalId|
            id != e.id ==> #[trigger] members_of(es.push(e), id) == members_of(es, id),
        has_entry(es.push(e), e.id),
        members_of(es.push(e), e.id) == e.members,
{
    let es2 = es.push(e);
    assert(es2[es.len() as int] == e);
    assert forall|a: int, b: int| 0 <= a < b < es2.len() implies es2[a].id != es2[b].id by {
        if b < es.len() {
        } else {
            assert(es2[b] == e);
            assert(es2[a] == es[a]);
            assert(es[a].id != e.id);
        }
    }
    assert forall|id: ProposalId| id != e.id && #[trigger] has_entry(es2, id) implies has_entry(
        es,
        id,
    ) by {
        let j = choose|j: int| 0 <= j < es2.len() && es2[j].id == id;
        assert(j < es.len());
        assert(es[j].id == id);
    }
    assert forall|id: ProposalId| id != e.id && #[trigger] has_entry(es, id) implies has_entry(
        es2,
        id,
    ) by {
        let j = choose|j: int| 0 <= j < es.len() && es[j].id == id;
        assert(es2[j].id == id);
    }
    crate::ibo::lemma_entry_idx_is(es2, e.id, es.len() as int);
    assert forall|id: ProposalId| id != e.id implies #[trigger] members_of(es2, id) == members_of(
        es,
        id,
    ) by {
        if has_entry(es, id) {
            let j = entry_idx(es, id);
            assert(0 <= j < es.len() && es[j].id == id);
            crate::ibo::lemma_entry_idx_is(es2, id, j);
            assert(es2[j] == es[j]);
        }
    }
}

/// Replacing a ledger entry by one of the same account moves no other entry.
pub proof fn lemma_ledger_lookup_update(ls: Seq<StakeLedgerV>, k: int, e: StakeLedgerV)
    requires
        forall|a: int, b: int| 0 <= a < b < ls.len() ==> ls[a].account != ls[b].account,
        0 <= k < ls.len(),
        e.account == ls[k].account,
    ensures
        forall|a: int, b: int|
            0 <= a < b < ls.len() ==> ls.update(k, e)[a].account != ls.update(k, e)[b].account,
        forall|who: AccountId| #[trigger] has_ledger(ls.update(k, e), who) <==> has_ledger(ls, who),
        forall|who: AccountId|
            who != e.account ==> #[trigger] stakes_of(ls.update(k, e), who) == stakes_of(ls, who),
        has_ledger(ls.update(k, e), e.account),
        ledger_idx(ls.update(k, e), e.account) == k,
        stakes_of(ls.update(k, e), e.account) == e.stakes,
{
    let ls2 = ls.update(k, e);
    assert forall|a: int| 0 <= a < ls.len() implies ls2[a].account == ls[a].account by {}
    assert forall|who: AccountId| #[trigger] has_ledger(ls2, who) implies has_ledger(ls, who) by {
        let j = choose|j: int| 0 <= j < ls2.len() && ls2[j].account == who;
        assert(ls[j].account == who);
    }
    assert forall|who: AccountId| #[trigger] has_ledger(ls, who) implies has_ledger(ls2, who) by {
        let j = choose|j: int| 0 <= j < ls.len() && ls[j].account == who;
        assert(ls2[j].account == who);
    }
    crate::ibo::lemma_ledger_idx_is(ls2, e.account, k);
    assert forall|who: AccountId| who != e.account implies #[trigger] stakes_of(ls2, who)
        == stakes_of(ls, who) by {
        if has_ledger(ls, who) {
            let j = ledger_idx(ls, who);
            assert(0 <= j < ls.len() && ls[j].account == who);
            assert(j != k);
            crate::ibo::lemma_ledger_idx_is(ls2, who, j);
            assert(ls2[j] == ls[j]);
        }
    }
}

/// Appending a ledger entry for a fresh account moves no other entry.
pub proof fn lemma_ledger_lookup_push(ls: Seq<StakeLedgerV>, e: StakeLedgerV)
    requires
        forall|a: int, b: int| 0 <= a < b < ls.len() ==> ls[a].account != ls[b].account,
        !has_ledger(ls, e.account),
    ensures
        forall|a: int, b: int|
            0 <= a < b < ls.push(e).len() ==> ls.push(e)[a].account != ls.push(e)[b].account,
        forall|who: AccountId|
            who != e.account ==> (#[trigger] has_ledger(ls.push(e), who) <==> has_ledger(ls, who)),
        forall|who: AccountId|
            who != e.account ==> #[trigger] stakes_of(ls.push(e), who) == stakes_of(ls, who),
        has_ledger(ls.push(e), e.account),
        stakes_of(ls.push(e), e.account) == e.stakes,
{
    let ls2 = ls.push(e);
    assert(ls2[ls.len() as int] == e);
    assert forall|a: int, b: int| 0 <= a < b < ls2.len() implies ls2[a].account
        != ls2[b].account by {
        if b < ls.len() {
        } else {
            assert(ls2[b] == e);
            assert(ls2[a] == ls[a]);
            assert(ls[a].account != e.account);
        }
    }
    assert forall|who: AccountId| who != e.account && #[trigger] has_ledger(ls2, who) implies
        has_ledger(ls, who) by {
        let j = choose|j: int| 0 <= j < ls2.len() && ls2[j].account == who;
        assert(j < ls.len());
        assert(ls[j].account == who);
    }
    assert forall|who: AccountId| who != e.account && #[trigger] has_ledger(ls, who) implies
        has_ledger(ls2, who) by {
        let j = choose|j: int| 0 <= j < ls.len() && ls[j].account == who;
        assert(ls2[j].account == who);
    }
    crate::ibo::lemma_ledger_idx_is(ls2, e.account, ls.len() as int);
    assert forall|who: AccountId| who != e.account implies #[trigger] stakes_of(ls2, who)
        == stakes_of(ls, who) by {
        if has_ledger(ls, who) {
            let j = ledger_idx(ls, who);
            assert(0 <= j < ls.len() && ls[j].account == who);
            crate::ibo::lemma_ledger_idx_is(ls2, who, j);
            assert(ls2[j] == ls[j]);
        }
    }
}

/// Index of the list kept for this proposal id, if any.
pub(crate) fn find_entry_index(list: &Vec<IdMembers>, id: ProposalId) -> (r: Option<usize>)
    ensures
        match r {
            Some(k) => k < list@.len() && crate::ibo::seq_views(list@)[k as int].id == id
                && has_entry(crate::ibo::seq_views(list@), id),
            None => !has_entry(crate::ibo::seq_views(list@), id),
        },
{
    let ghost es = crate::ibo::seq_views(list@);
    let mut k: usize = 0;
    while k < list.len()
        invariant
            k <= list@.len(),
            es == crate::ibo::seq_views(list@),
            es.len() == list@.len(),
            forall|a: int| 0 <= a < k ==> es[a].id != id,
        decreases list@.len() - k,
    {
        if list[k].id == id {
            assert(es[k as int].id == id);
            return Some(k);
        }
        k += 1;
    }
    None
}

/// Index of this account's ledger entry, if any.
pub(crate) fn find_ledger_index(list: &Vec<StakeLedger>, who: AccountId) -> (r: Option<usize>)
    ensures
        match r {
            Some(k) => k < list@.len() && crate::ibo::seq_views(list@)[k as int].account == who
                && has_ledger(crate::ibo::seq_views(list@), who),
            None => !has_ledger(crate::ibo::seq_views(list@), who),
        },
{
    let ghost ls = crate::ibo::seq_views(list@);
    let mut k: usize = 0;
    while k < list.len()
        invariant
            k <= list@.len(),
            ls == crate::ibo::seq_views(list@),
            ls.len() == list@.len(),
            forall|a: int| 0 <= a < k ==> ls[a].account != who,
        decreases list@.len() - k,
    {
        if list[k].account == who {
            assert(ls[k as int].account == who);
            return Some(k);
        }
        k += 1;
    }
    None
}

/// Which error a review meets, if any.
pub open spec fn review_err(s: StoreV, member: AccountId, id: ProposalId) -> Option<IboError> {
    if !s.council.contains(member) {
        Some(IboError::NotInCollective)
    } else if !has_proposal(s.proposals, id) {
        Some(IboError::ProposalNotFound)
    } else if proposal_of(s.proposals, id).state != ProposalState::Reviewing {
        Some(IboError::ProposalCannotBeReviewed)
    } else if members_of(s.reviewers, id).contains(member) {
        Some(IboError::AlreadyReview)
    } else {
        None
    }
}

/// The proposal after one review ballot: one head added to the chosen side.
pub open spec fn reviewed_proposal(p: ProposalV, stand: bool) -> ProposalV {
    if stand {
        ProposalV { review_goals: ((p.review_goals.0 + 1) as u64, p.review_goals.1), ..p }
    } else {
        ProposalV { review_goals: (p.review_goals.0, (p.review_goals.1 + 1) as u64), ..p }
    }
}

/// The review (or voter) lists after appending `member` under `id`.
pub open spec fn lists_after(es: Seq<IdMembersV>, id: ProposalId, member: AccountId) -> Seq<
    IdMembersV,
> {
    if has_entry(es, id) {
        es.update(
            entry_idx(es, id),
            IdMembersV { id, members: es[entry_idx(es, id)].members.push(member) },
        )
    } else {
        es.push(IdMembersV { id, members: seq![member] })
    }
}

/// Which error a vote meets, if any.
pub open spec fn vote_err(
    s: StoreV,
    user: AccountId,
    id: ProposalId,
    amount: Balance,
    age_idx: u8,
) -> Option<IboError> {
    if !has_proposal(s.proposals, id) {
        Some(IboError::ProposalNotFound)
    } else if proposal_of(s.proposals, id).state != ProposalState::Voting {
        Some(IboError::ProposalCannotBeVoted)
    } else if members_of(s.voters, id).contains(user) {
        Some(IboError::AlreadyVote)
    } else if free_of(s.balances.accounts, user) < amount {
        Some(IboError::InsufficientFunds)
    } else if age_idx >= 6 {
        Some(IboError::InvalidVoteAge)
    } else {
        None
    }
}

/// The proposal after one public ballot of weight `w` on the chosen side.
pub open spec fn voted_proposal(p: ProposalV, w: int, stand: bool) -> ProposalV {
    if stand {
        ProposalV { vote_goals: ((p.vote_goals.0 + w) as u128, p.vote_goals.1), ..p }
    } else {
        ProposalV { vote_goals: (p.vote_goals.0, (p.vote_goals.1 + w) as u128), ..p }
    }
}

/// The stake ledger after appending `st` to `user`'s records.
pub open spec fn staking_after(ls: Seq<StakeLedgerV>, user: AccountId, st: StakingInfo) -> Seq<
    StakeLedgerV,
> {
    if has_ledger(ls, user) {
        ls.update(
            ledger_idx(ls, user),
            StakeLedgerV { account: user, stakes: ls[ledger_idx(ls, user)].stakes.push(st) },
        )
    } else {
        ls.push(StakeLedgerV { account: user, stakes: seq![st] })
    }
}

impl Module {
    /// Weight a ballot carries: `stake * age_multiplier(age_idx)`, widened to
    /// 128 bits before the multiplication.
    pub fn get_goals_from_staking(stake: Balance, age_idx: u8) -> (r: u128)
        requires
            age_idx < 6,
        ensures
            r == stake * age_multiplier(age_idx),
    {
        let entry = crate::constants::age_entry(age_idx);
        proof {
            assert((stake as int) * (entry.0 as int) <= (u64::MAX as int) * 7600int)
                by (nonlinear_arith)
                requires
                    stake <= u64::MAX,
                    0 <= entry.0 <= 7600,
            ;
            assert((stake as int) * (entry.0 as int) >= 0) by (nonlinear_arith)
                requires
                    stake >= 0,
                    entry.0 >= 0,
            ;
        }
        (stake as u128) * (entry.0 as u128)
    }

    /// Cast one review ballot on a Reviewing proposal. Only council members
    /// may review, and each at most once per proposal.
    pub fn review_proposal(&mut self, member: AccountId, id: ProposalId, stand: bool) -> (r:
        Result<ProposalEvent, IboError>)
        requires
            old(self).wf(),
            has_proposal(old(self)@.proposals, id) ==> proposal_of(
                old(self)@.proposals,
                id,
            ).review_goals.0 < u64::MAX && proposal_of(old(self)@.proposals, id).review_goals.1
                < u64::MAX,
        ensures
            final(self).wf(),
            match r {
                Ok(ev) => {
                    &&& review_err(old(self)@, member, id) is None
                    &&& final(self)@ == (StoreV {
                        proposals: old(self)@.proposals.update(
                            prop_idx(old(self)@.proposals, id),
                            reviewed_proposal(proposal_of(old(self)@.proposals, id), stand),
                        ),
                        reviewers: lists_after(old(self)@.reviewers, id, member),
                        ..old(self)@
                    })
                    &&& ev@.change_type == UPDATE
                    &&& ev@.proposal == reviewed_proposal(
                        proposal_of(old(self)@.proposals, id),
                        stand,
                    )
                },
                Err(e) => final(self)@ == old(self)@ && review_err(old(self)@, member, id) == Some(
                    e,
                ),
            },
    {
        let ghost pre = self@;
        if !crate::ibo::contains_account(&self.council, member) {
            return Err(IboError::NotInCollective);
        }
        let i = match self.find_proposal(id) {
            Some(i) => i,
            None => {
                return Err(IboError::ProposalNotFound);
            },
        };
        proof {
            crate::ibo::lemma_prop_idx_is(self@.proposals, id, i as int);
        }
        if !matches!(self.proposals[i].state, ProposalState::Reviewing) {
            return Err(IboError::ProposalCannotBeReviewed);
        }
        // Record the ballot's author, refusing a second ballot from the same member.
        match find_entry_index(&self.reviewers, id) {
            Some(k) => {
                proof {
                    crate::ibo::lemma_entry_idx_is(pre.reviewers, id, k as int);
                }
                if crate::ibo::contains_account(&self.reviewers[k].members, member) {
                    return Err(IboError::AlreadyReview);
                }
                let mut members = crate::types::clone_accounts(&self.reviewers[k].members);
                members.push(member);
                self.reviewers[k] = IdMembers { id, members };
                proof {
                    assert(self@.reviewers =~= pre.reviewers.update(
                        k as int,
                        IdMembersV { id, members: pre.reviewers[k as int].members.push(member) },
                    ));
                    assert(self@.reviewers == lists_after(pre.reviewers, id, member));
                }
            },
            None => {
                let mut members: Vec<AccountId> = Vec::new();
                members.push(member);
                self.reviewers.push(IdMembers { id, members });
                proof {
                    assert(self@.reviewers =~= pre.reviewers.push(
                        IdMembersV { id, members: seq![member] },
                    ));
                    assert(self@.reviewers == lists_after(pre.reviewers, id, member));
                }
            },
        }
        // Count the ballot.
        let updated = if stand {
            let g = self.proposals[i].review_goals;
            self.proposals[i].review_goals = (g.0 + 1, g.1);
            crate::types::clone_proposal(&self.proposals[i])
        } else {
            let g = self.proposals[i].review_goals;
            self.proposals[i].review_goals = (g.0, g.1 + 1);
            crate::types::clone_proposal(&self.proposals[i])
        };
        proof {
            crate::ibo::lemma_seq_views_update(
                old(self).proposals@,
                i as int,
                self.proposals@[i as int],
            );
            assert(self@.proposals =~= pre.proposals.update(
                i as int,
                reviewed_proposal(proposal_of(pre.proposals, id), stand),
            ));
            crate::ibo::lemma_prop_lookup_update(
                pre.proposals,
                i as int,
                reviewed_proposal(proposal_of(pre.proposals, id), stand),
            );
            assert(self@ =~= (StoreV {
                proposals: pre.proposals.update(
                    prop_idx(pre.proposals, id),
                    reviewed_proposal(proposal_of(pre.proposals, id), stand),
                ),
                reviewers: lists_after(pre.reviewers, id, member),
                ..pre
            }));
            lemma_review_preserves_inv(pre, member, id, stand);
        }
        Ok(ProposalEvent { change_type: UPDATE, proposal: updated })
    }
}

/// `j` is the position of the first of `user`'s stake records naming `id`.
pub open spec fn is_first_match(stakes: Seq<StakingInfo>, id: ProposalId, j: int) -> bool {
    &&& 0 <= j < stakes.len()
    &&& stakes[j].proposal_id == id
    &&& forall|k: int| 0 <= k < j ==> (#[trigger] stakes[k]).proposal_id != id
}

/// Whether any stake record names `id`.
pub open spec fn some_match(stakes: Seq<StakingInfo>, id: ProposalId) -> bool {
    exists|j: int| 0 <= j < stakes.len() && (#[trigger] stakes[j]).proposal_id == id
}

/// Position of the first stake record naming `id` (meaningful only when one
/// satisfies `is_first_match`).
pub open spec fn first_match_idx(stakes: Seq<StakingInfo>, id: ProposalId) -> int {
    choose|j: int| is_first_match(stakes, id, j)
}

/// The first match is unique, so any witness is the chosen one.
pub proof fn lemma_first_match_is(stakes: Seq<StakingInfo>, id: ProposalId, j: int)
    requires
        is_first_match(stakes, id, j),
    ensures
        first_match_idx(stakes, id) == j,
        some_match(stakes, id),
{
    let k = first_match_idx(stakes, id);
    assert(is_first_match(stakes, id, k));
    if k < j {
        assert(stakes[k].proposal_id != id);
    } else if j < k {
        assert(stakes[j].proposal_id != id);
    }
}

/// Wherever some record matches, a first match exists and is the chosen one.
pub proof fn lemma_some_match_first(stakes: Seq<StakingInfo>, id: ProposalId)
    requires
        some_match(stakes, id),
    ensures
        is_first_match(stakes, id, first_match_idx(stakes, id)),
    decreases stakes.len(),
{
    if stakes[0].proposal_id == id {
        lemma_first_match_is(stakes, id, 0);
    } else {
        let tail = stakes.subrange(1, stakes.len() as int);
        let w = choose|j: int| 0 <= j < stakes.len() && (#[trigger] stakes[j]).proposal_id == id;
        assert(w > 0);
        assert(tail[w - 1].proposal_id == id);
        assert(some_match(tail, id));
        lemma_some_match_first(tail, id);
        let jt = first_match_idx(tail, id);
        assert(is_first_match(tail, id, jt));
        assert(stakes[jt + 1].proposal_id == id);
        assert forall|a: int| 0 <= a < jt + 1 implies (#[trigger] stakes[a]).proposal_id != id by {
            if a > 0 {
                assert(tail[a - 1].proposal_id != id);
            }
        }
        lemma_first_match_is(stakes, id, jt + 1);
    }
}

/// Position of the first stake record naming `id` in this list, if any.
pub(crate) fn find_first_stake(stakes: &Vec<StakingInfo>, id: ProposalId) -> (r: Option<usize>)
    ensures
        match r {
            Some(j) => is_first_match(stakes@, id, j as int) && some_match(stakes@, id)
                && first_match_idx(stakes@, id) == j,
            None => !some_match(stakes@, id),
        },
{
    let mut j: usize = 0;
    while j < stakes.len()
        invariant
            j <= stakes@.len(),
            forall|a: int| 0 <= a < j ==> (#[trigger] stakes@[a]).proposal_id != id,
        decreases stakes@.len() - j,
    {
        if stakes[j].proposal_id == id {
            proof {
                assert(is_first_match(stakes@, id, j as int));
                lemma_first_match_is(stakes@, id, j as int);
            }
            return Some(j);
        }
        j += 1;
    }
    None
}

/// A stake list with every record naming `id` marked as rewarded.
pub open spec fn mark_received(stakes: Seq<StakingInfo>, id: ProposalId) -> Seq<StakingInfo> {
    Seq::new(
        stakes.len(),
        |j: int|
            if stakes[j].proposal_id == id {
                StakingInfo { wheather_received_reward: true, ..stakes[j] }
            } else {
                stakes[j]
            },
    )
}

/// Marking a proposal's records as rewarded zeroes its unclaimed weight and
/// touches nothing else: other proposals' weights, the escrowed amounts, and
/// every record's key fields stay.
pub proof fn lemma_mark_received_props(stakes: Seq<StakingInfo>, id: ProposalId)
    ensures
        mark_received(stakes, id).len() == stakes.len(),
        unclaimed_weight_in(mark_received(stakes, id), id) == 0,
        forall|q: ProposalId|
            q != id ==> #[trigger] unclaimed_weight_in(mark_received(stakes, id), q)
                == unclaimed_weight_in(stakes, q),
        staked_amount_total(mark_received(stakes, id)) == staked_amount_total(stakes),
        forall|j: int|
            0 <= j < stakes.len() ==> (#[trigger] mark_received(stakes, id)[j]).proposal_id
                == stakes[j].proposal_id && mark_received(stakes, id)[j].age_idx
                == stakes[j].age_idx && mark_received(stakes, id)[j].staking_amount
                == stakes[j].staking_amount,
    decreases stakes.len(),
{
    if stakes.len() > 0 {
        lemma_mark_received_props(stakes.drop_last(), id);
        assert(mark_received(stakes, id).drop_last() =~= mark_received(stakes.drop_last(), id));
        assert(stake_term(mark_received(stakes, id).last(), id) == 0);
        assert forall|q: ProposalId| q != id implies #[trigger] unclaimed_weight_in(
            mark_received(stakes, id),
            q,
        ) == unclaimed_weight_in(stakes, q) by {
            let m = mark_received(stakes, id);
            assert(m.len() > 0);
            assert(unclaimed_weight_in(m, q) == unclaimed_weight_in(m.drop_last(), q) + stake_term(
                m.last(),
                q,
            ));
            assert(m.drop_last() == mark_received(stakes.drop_last(), id));
            assert(stake_term(m.last(), q) == stake_term(stakes.last(), q));
            assert(unclaimed_weight_in(stakes, q) == unclaimed_weight_in(stakes.drop_last(), q)
                + stake_term(stakes.last(), q));
        }
    }
}

/// The stake ledger after appending `st` to `user`'s records: every sum over
/// it, and every other account's records, move as expected.
pub proof fn lemma_staking_after_props(ls: Seq<StakeLedgerV>, user: AccountId, st: StakingInfo)
    requires
        forall|a: int, b: int| 0 <= a < b < ls.len() ==> ls[a].account != ls[b].account,
    ensures
        forall|a: int, b: int|
            0 <= a < b < staking_after(ls, user, st).len() ==> staking_after(ls, user, st)[a].account
                != staking_after(ls, user, st)[b].account,
        forall|who: AccountId|
            #[trigger] has_ledger(staking_after(ls, user, st), who) <==> (has_ledger(ls, who) || who
                == user),
        forall|who: AccountId|
            who != user ==> #[trigger] stakes_of(staking_after(ls, user, st), who) == stakes_of(
                ls,
                who,
            ),
        stakes_of(staking_after(ls, user, st), user) == stakes_of(ls, user).push(st),
        forall|q: ProposalId|
            #[trigger] unclaimed_total(staking_after(ls, user, st), q) == unclaimed_total(ls, q)
                + stake_term(st, q),
{
    let ls2 = staking_after(ls, user, st);
    if has_ledger(ls, user) {
        let k = ledger_idx(ls, user);
        assert(0 <= k < ls.len() && ls[k].account == user);
        let e2 = StakeLedgerV { account: user, stakes: ls[k].stakes.push(st) };
        lemma_ledger_lookup_update(ls, k, e2);
        assert forall|q: ProposalId| true implies #[trigger] unclaimed_total(ls2, q)
            == unclaimed_total(ls, q) + stake_term(st, q) by {
            crate::rewards::lemma_unclaimed_total_update(ls, k, e2, q);
            crate::rewards::lemma_unclaimed_weight_push(ls[k].stakes, st, q);
        }
    } else {
        let e2 = StakeLedgerV { account: user, stakes: seq![st] };
        lemma_ledger_lookup_push(ls, e2);
        assert(e2.stakes =~= Seq::<StakingInfo>::empty().push(st));
        assert(stakes_of(ls, user) =~= Seq::<StakingInfo>::empty());
        assert forall|q: ProposalId| true implies #[trigger] unclaimed_total(ls2, q)
            == unclaimed_total(ls, q) + stake_term(st, q) by {
            crate::rewards::lemma_unclaimed_total_push(ls, e2, q);
            crate::rewards::lemma_unclaimed_weight_push(Seq::<StakingInfo>::empty(), st, q);
            assert(unclaimed_weight_in(Seq::<StakingInfo>::empty(), q) == 0);
        }
    }
}

/// Appending one member keeps both lists' well-formedness and changes only
/// that id's list.
pub proof fn lemma_lists_after_wf(es: Seq<IdMembersV>, id: ProposalId, member: AccountId)
    requires
        crate::ibo::wf_lists(es),
        !members_of(es, id).contains(member),
    ensures
        crate::ibo::wf_lists(lists_after(es, id, member)),
        members_of(lists_after(es, id, member), id) == members_of(es, id).push(member),
        forall|q: ProposalId|
            q != id ==> #[trigger] members_of(lists_after(es, id, member), q) == members_of(es, q),
{
    let es2 = lists_after(es, id, member);
    if has_entry(es, id) {
        let k = entry_idx(es, id);
        assert(0 <= k < es.len() && es[k].id == id);
        let e2 = IdMembersV { id, members: es[k].members.push(member) };
        lemma_entry_lookup_update(es, k, e2);
        assert forall|k2: int| 0 <= k2 < es2.len() implies crate::ibo::no_dup(
            (#[trigger] es2[k2]).members,
        ) by {
            if k2 != k {
                assert(es2[k2] == es[k2]);
            } else {
                let ms = es[k].members;
                assert forall|a: int, b: int| 0 <= a < b < ms.push(member).len() implies ms.push(
                    member,
                )[a] != ms.push(member)[b] by {
                    if b < ms.len() {
                    } else {
                        assert(ms.push(member)[b] == member);
                        assert(ms.push(member)[a] == ms[a]);
                        if ms[a] == member {
                            assert(ms.contains(member));
                        }
                    }
                }
            }
        }
    } else {
        let e2 = IdMembersV { id, members: seq![member] };
        lemma_entry_lookup_push(es, e2);
        assert(members_of(es, id) =~= Seq::<AccountId>::empty());
        assert(members_of(es2, id) =~= members_of(es, id).push(member));
        assert forall|k2: int| 0 <= k2 < es2.len() implies crate::ibo::no_dup(
            (#[trigger] es2[k2]).members,
        ) by {
            if k2 < es.len() {
                assert(es2[k2] == es[k2]);
            }
        }
    }
}

/// The store after an accepted ballot: the caller enters the voters list,
/// the weight joins the tally, the amount moves into reserve, and a stake
/// record is appended.
pub open spec fn vote_model(
    s: StoreV,
    user: AccountId,
    id: ProposalId,
    amount: Balance,
    age_idx: u8,
    stand: bool,
    now: u64,
) -> StoreV {
    let p = proposal_of(s.proposals, id);
    let w = amount * age_multiplier(age_idx);
    StoreV {
        proposals: s.proposals.update(prop_idx(s.proposals, id), voted_proposal(p, w, stand)),
        voters: lists_after(s.voters, id, user),
        staking: staking_after(
            s.staking,
            user,
            StakingInfo {
                proposal_id: id,
                staking_amount: amount,
                age_idx,
                wheather_received_reward: false,
                timestamp: now,
            },
        ),
        balances: BalancesV {
            accounts: put_balance(
                s.balances.accounts,
                user,
                (free_of(s.balances.accounts, user) - amount) as u64,
                (reserved_of(s.balances.accounts, user) + amount) as u64,
            ),
            total_issuance: s.balances.total_issuance,
        },
        ..s
    }
}

/// An accepted ballot keeps the store invariant.
proof fn lemma_vote_preserves_inv(
    s: StoreV,
    user: AccountId,
    id: ProposalId,
    amount: Balance,
    age_idx: u8,
    stand: bool,
    now: u64,
)
    requires
        crate::ibo::inv(s),
        vote_err(s, user, id, amount, age_idx) is None,
        tally_total(proposal_of(s.proposals, id)) + amount * age_multiplier(age_idx) <= u128::MAX,
    ensures
        crate::ibo::inv(vote_model(s, user, id, amount, age_idx, stand, now)),
{
    let s2 = vote_model(s, user, id, amount, age_idx, stand, now);
    let i = prop_idx(s.proposals, id);
    let p = proposal_of(s.proposals, id);
    let w = amount * age_multiplier(age_idx);
    let st = StakingInfo {
        proposal_id: id,
        staking_amount: amount,
        age_idx,
        wheather_received_reward: false,
        timestamp: now,
    };
    let p2 = voted_proposal(p, w, stand);
    assert(0 <= i < s.proposals.len() && s.proposals[i].id == id);
    assert(w >= 0) by (nonlinear_arith)
        requires
            amount >= 0,
            age_multiplier(age_idx) >= 0,
            w == amount * age_multiplier(age_idx),
    ;
    crate::ibo::lemma_prop_lookup_update(s.proposals, i, p2);
    lemma_lists_after_wf(s.voters, id, user);
    lemma_staking_after_props(s.staking, user, st);
    crate::balances::lemma_put_balance_props(
        s.balances.accounts,
        user,
        (free_of(s.balances.accounts, user) - amount) as u64,
        (reserved_of(s.balances.accounts, user) + amount) as u64,
    );
    // When the voter has no account, the accepted amount is zero.
    if !has_acct(s.balances.accounts, user) {
        assert(free_of(s.balances.accounts, user) == 0);
        assert(amount == 0);
    }
    // The singleton still names this Voting proposal.
    assert(s.voting_proposal == Some(id));
    assert(proposal_of(s2.proposals, id) == p2 && p2.state == ProposalState::Voting);
    // Balances stay well formed.
    assert(balances_wf_after(s, user, amount)) by {
        assert(free_of(s.balances.accounts, user) + reserved_of(s.balances.accounts, user)
            <= u64::MAX);
    }
    // Escrow: the voter's total grows by the amount, everyone else's stays.
    assert(stakes_of(s2.staking, user) == stakes_of(s.staking, user).push(st));
    if !has_ledger(s.staking, user) {
        if has_acct(s.balances.accounts, user) {
            let a = crate::balances::acct_idx(s.balances.accounts, user);
            assert(s.balances.accounts[a].reserved == 0) by {
                if s.balances.accounts[a].reserved > 0 {
                    assert(has_ledger(s.staking, s.balances.accounts[a].account));
                }
            }
        }
        assert(reserved_of(s.balances.accounts, user) == 0);
        assert(staked_amount_total(stakes_of(s.staking, user)) == 0);
    } else {
        let k = ledger_idx(s.staking, user);
        assert(staked_amount_total(s.staking[k].stakes) == reserved_of(
            s.balances.accounts,
            user,
        ));
    }
    crate::rewards::lemma_staked_amount_push(stakes_of(s.staking, user), st);
    assert forall|k: int| 0 <= k < s2.staking.len() implies staked_amount_total(
        (#[trigger] s2.staking[k]).stakes,
    ) == reserved_of(s2.balances.accounts, s2.staking[k].account) by {
        let who = s2.staking[k].account;
        crate::ibo::lemma_ledger_idx_is(s2.staking, who, k);
        if who == user {
            assert(s2.staking[k].stakes == stakes_of(s.staking, user).push(st));
        } else {
            assert(s2.staking[k].stakes == stakes_of(s2.staking, who));
            assert(stakes_of(s2.staking, who) == stakes_of(s.staking, who));
            assert(has_ledger(s.staking, who));
            let k0 = ledger_idx(s.staking, who);
            assert(staked_amount_total(s.staking[k0].stakes) == reserved_of(
                s.balances.accounts,
                who,
            ));
            assert(stakes_of(s.staking, who) == s.staking[k0].stakes);
        }
    }
    // Reserves still imply a ledger entry.
    assert forall|a: int|
        0 <= a < s2.balances.accounts.len() && (#[trigger] s2.balances.accounts[a]).reserved > 0
        implies has_ledger(s2.staking, s2.balances.accounts[a].account) by {
        let who = s2.balances.accounts[a].account;
        assert(who == s.balances.accounts[a].account);
        if who != user {
            assert(s2.balances.accounts[a] == s.balances.accounts[a]);
            assert(has_ledger(s.staking, who));
        }
    }
    // Stake records still name issued proposals and table rows.
    assert forall|k: int, j: int|
        0 <= k < s2.staking.len() && 0 <= j < (#[trigger] s2.staking[k]).stakes.len() implies (
        #[trigger] s2.staking[k].stakes[j]).proposal_id < s2.id_generator && s2.staking[k].stakes[j].age_idx
        < 6 by {
        let who = s2.staking[k].account;
        crate::ibo::lemma_ledger_idx_is(s2.staking, who, k);
        if who == user {
            if j < stakes_of(s.staking, user).len() {
                if has_ledger(s.staking, user) {
                    let k0 = ledger_idx(s.staking, user);
                    assert(s2.staking[k].stakes[j] == s.staking[k0].stakes[j]);
                }
            } else {
                assert(s2.staking[k].stakes[j] == st);
            }
        } else {
            assert(has_ledger(s.staking, who));
            let k0 = ledger_idx(s.staking, who);
            assert(stakes_of(s.staking, who) == s.staking[k0].stakes);
            assert(s2.staking[k].stakes[j] == s.staking[k0].stakes[j]);
        }
    }
    // Reward accounting.
    assert forall|i2: int| 0 <= i2 < s2.proposals.len() implies {
        let q = #[trigger] s2.proposals[i2];
        &&& unclaimed_total(s2.staking, q.id) <= tally_total(q)
        &&& q.rewards_remainder * tally_total(q) >= TOTAL_REWARDS * unclaimed_total(
            s2.staking,
            q.id,
        )
    } by {
        if i2 != i {
            assert(s2.proposals[i2] == s.proposals[i2]);
            assert(s.proposals[i2].id != id);
            assert(stake_term(st, s.proposals[i2].id) == 0);
            assert(unclaimed_total(s2.staking, s.proposals[i2].id) == unclaimed_total(
                s.staking,
                s.proposals[i2].id,
            ));
        } else {
            assert(s2.proposals[i2] == p2);
            assert(stake_term(st, id) == w);
            assert(unclaimed_total(s2.staking, id) == unclaimed_total(s.staking, id) + w);
            assert(tally_total(p2) == tally_total(p) + w);
            assert(p.rewards_remainder == TOTAL_REWARDS);
            assert(p2.rewards_remainder == TOTAL_REWARDS);
            assert(unclaimed_total(s.staking, id) <= tally_total(p));
            assert(TOTAL_REWARDS * (tally_total(p) + w) >= TOTAL_REWARDS * (unclaimed_total(
                s.staking,
                id,
            ) + w)) by (nonlinear_arith)
                requires
                    unclaimed_total(s.staking, id) + w <= tally_total(p) + w,
                    TOTAL_REWARDS >= 0,
            ;
        }
    }
}

/// Balance well-formedness of the vote model's account table.
spec fn balances_wf_after(s: StoreV, user: AccountId, amount: Balance) -> bool {
    crate::balances::balances_wf(
        BalancesV {
            accounts: put_balance(
                s.balances.accounts,
                user,
                (free_of(s.balances.accounts, user) - amount) as u64,
                (reserved_of(s.balances.accounts, user) + amount) as u64,
            ),
            total_issuance: s.balances.total_issuance,
        },
    )
}

impl Module {
    /// Cast one stake-weighted ballot on a Voting proposal: the amount is
    /// reserved, the caller joins the voters list, the ballot's weight joins
    /// the tally, and a stake record is appended. All or nothing.
    pub fn vote_proposal(
        &mut self,
        user: AccountId,
        id: ProposalId,
        amount: Balance,
        age_idx: u8,
        stand: bool,
        now: u64,
    ) -> (r: Result<ProposalEvent, IboError>)
        requires
            old(self).wf(),
            vote_err(old(self)@, user, id, amount, age_idx) is None ==> tally_total(
                proposal_of(old(self)@.proposals, id),
            ) + amount * age_multiplier(age_idx) <= u128::MAX,
        ensures
            final(self).wf(),
            match r {
                Ok(ev) => {
                    &&& vote_err(old(self)@, user, id, amount, age_idx) is None
                    &&& final(self)@ == vote_model(old(self)@, user, id, amount, age_idx, stand, now)
                    &&& ev@.change_type == UPDATE
                    &&& ev@.proposal == voted_proposal(
                        proposal_of(old(self)@.proposals, id),
                        amount * age_multiplier(age_idx),
                        stand,
                    )
                },
                Err(e) => final(self)@ == old(self)@ && vote_err(
                    old(self)@,
                    user,
                    id,
                    amount,
                    age_idx,
                ) == Some(e),
            },
    {
        let ghost pre = self@;
        let i = match self.find_proposal(id) {
            Some(i) => i,
            None => {
                return Err(IboError::ProposalNotFound);
            },
        };
        proof {
            crate::ibo::lemma_prop_idx_is(self@.proposals, id, i as int);
        }
        if !matches!(self.proposals[i].state, ProposalState::Voting) {
            return Err(IboError::ProposalCannotBeVoted);
        }
        let ventry = find_entry_index(&self.voters, id);
        if let Some(k) = ventry {
            proof {
                crate::ibo::lemma_entry_idx_is(pre.voters, id, k as int);
            }
            if crate::ibo::contains_account(&self.voters[k].members, user) {
                return Err(IboError::AlreadyVote);
            }
        }
        if self.balances.free_balance(user) < amount {
            return Err(IboError::InsufficientFunds);
        }
        if age_idx >= 6 {
            return Err(IboError::InvalidVoteAge);
        }
        // All guards hold: apply the whole ballot.
        match self.balances.reserve(user, amount) {
            Ok(()) => {},
            Err(e) => {
                proof {
                    assert(false);
                }
                return Err(e);
            },
        }
        match ventry {
            Some(k) => {
                let mut members = crate::types::clone_accounts(&self.voters[k].members);
                members.push(user);
                self.voters[k] = IdMembers { id, members };
                proof {
                    crate::ibo::lemma_entry_idx_is(pre.voters, id, k as int);
                    assert(self@.voters =~= pre.voters.update(
                        k as int,
                        IdMembersV { id, members: pre.voters[k as int].members.push(user) },
                    ));
                    assert(self@.voters == lists_after(pre.voters, id, user));
                }
            },
            None => {
                let mut members: Vec<AccountId> = Vec::new();
                members.push(user);
                self.voters.push(IdMembers { id, members });
                proof {
                    assert(self@.voters =~= pre.voters.push(
                        IdMembersV { id, members: seq![user] },
                    ));
                    assert(self@.voters == lists_after(pre.voters, id, user));
                }
            },
        }
        let goals = Module::get_goals_from_staking(amount, age_idx);
        let updated = if stand {
            let g = self.proposals[i].vote_goals;
            proof {
                assert(g == proposal_of(pre.proposals, id).vote_goals);
            }
            self.proposals[i].vote_goals = (g.0 + goals, g.1);
            crate::types::clone_proposal(&self.proposals[i])
        } else {
            let g = self.proposals[i].vote_goals;
            proof {
                assert(g == proposal_of(pre.proposals, id).vote_goals);
            }
            self.proposals[i].vote_goals = (g.0, g.1 + goals);
            crate::types::clone_proposal(&self.proposals[i])
        };
        let st = StakingInfo {
            proposal_id: id,
            staking_amount: amount,
            age_idx,
            wheather_received_reward: false,
            timestamp: now,
        };
        match find_ledger_index(&self.staking, user) {
            Some(k) => {
                proof {
                    crate::ibo::lemma_ledger_idx_is(pre.staking, user, k as int);
                }
                let mut stakes = crate::types::clone_stakes(&self.staking[k].stakes);
                stakes.push(st);
                self.staking[k] = StakeLedger { account: user, stakes };
                proof {
                    assert(self@.staking =~= pre.staking.update(
                        k as int,
                        StakeLedgerV {
                            account: user,
                            stakes: pre.staking[k as int].stakes.push(st),
                        },
                    ));
                    assert(self@.staking == staking_after(pre.staking, user, st));
                }
            },
            None => {
                let mut stakes: Vec<StakingInfo> = Vec::new();
                stakes.push(st);
                self.staking.push(StakeLedger { account: user, stakes });
                proof {
                    assert(self@.staking =~= pre.staking.push(
                        StakeLedgerV { account: user, stakes: seq![st] },
                    ));
                    assert(self@.staking == staking_after(pre.staking, user, st));
                }
            },
        }
        proof {
            assert(self@.proposals =~= pre.proposals.update(
                prop_idx(pre.proposals, id),
                voted_proposal(
                    proposal_of(pre.proposals, id),
                    amount * age_multiplier(age_idx),
                    stand,
                ),
            ));
            assert(self@ =~= vote_model(pre, user, id, amount, age_idx, stand, now));
            lemma_vote_preserves_inv(pre, user, id, amount, age_idx, stand, now);
        }
        Ok(ProposalEvent { change_type: UPDATE, proposal: updated })
    }
}

/// Which error a reward claim meets, if any. A stake whose reward was
/// already drawn cannot claim again; the credit itself is subject to the
/// issuance cap and needs the claimant's account to exist.
pub open spec fn receive_err(s: StoreV, user: AccountId, id: ProposalId) -> Option<IboError> {
    let stakes = stakes_of(s.staking, user);
    if !members_of(s.voters, id).contains(user) {
        Some(IboError::NoVote)
    } else if !has_proposal(s.proposals, id) {
        Some(IboError::ProposalNotFound)
    } else if proposal_of(s.proposals, id).state != ProposalState::Approved && proposal_of(
        s.proposals,
        id,
    ).state != ProposalState::Rejected {
        Some(IboError::StateNotForRewards)
    } else if !some_match(stakes, id) {
        Some(IboError::NoneStaking)
    } else if stakes[first_match_idx(stakes, id)].wheather_received_reward {
        Some(IboError::NoneStaking)
    } else {
        let reward = reward_of(
            stake_weight(stakes[first_match_idx(stakes, id)]),
            tally_total(proposal_of(s.proposals, id)),
        );
        if crate::constants::MAX_SUPPLY - s.balances.total_issuance < reward {
            Some(IboError::InsufficientIssuance)
        } else if !has_acct(s.balances.accounts, user) {
            Some(IboError::NoAccount)
        } else if free_of(s.balances.accounts, user) + reserved_of(s.balances.accounts, user)
            + reward > u64::MAX {
            Some(IboError::InsufficientIssuance)
        } else {
            None
        }
    }
}

/// All claim guards up to the stake lookup hold.
pub open spec fn receive_ready(s: StoreV, user: AccountId, id: ProposalId) -> bool {
    let stakes = stakes_of(s.staking, user);
    &&& members_of(s.voters, id).contains(user)
    &&& has_proposal(s.proposals, id)
    &&& (proposal_of(s.proposals, id).state == ProposalState::Approved || proposal_of(
        s.proposals,
        id,
    ).state == ProposalState::Rejected)
    &&& some_match(stakes, id)
    &&& !stakes[first_match_idx(stakes, id)].wheather_received_reward
}

/// The store after a reward claim: the claimant is credited, the pool
/// shrinks by the claim, and every stake record for this proposal in the
/// claimant's ledger is marked as rewarded.
pub open spec fn receive_model(s: StoreV, user: AccountId, id: ProposalId) -> StoreV {
    let p = proposal_of(s.proposals, id);
    let stakes = stakes_of(s.staking, user);
    let reward = reward_of(stake_weight(stakes[first_match_idx(stakes, id)]), tally_total(p));
    StoreV {
        proposals: s.proposals.update(
            prop_idx(s.proposals, id),
            ProposalV { rewards_remainder: (p.rewards_remainder - reward) as u64, ..p },
        ),
        staking: s.staking.update(
            ledger_idx(s.staking, user),
            StakeLedgerV { account: user, stakes: mark_received(stakes, id) },
        ),
        balances: BalancesV {
            accounts: put_balance(
                s.balances.accounts,
                user,
                (free_of(s.balances.accounts, user) + reward) as u64,
                reserved_of(s.balances.accounts, user) as u64,
            ),
            total_issuance: (s.balances.total_issuance + reward) as u64,
        },
        ..s
    }
}

/// Which error an unstake meets, if any: the first matching stake must exist
/// and its lock period must have elapsed. Release at exactly
/// `timestamp + lock_period` goes through; a millisecond earlier does not.
pub open spec fn unstake_err(
    s: StoreV,
    user: AccountId,
    id: ProposalId,
    now: u64,
) -> Option<IboError> {
    let stakes = stakes_of(s.staking, user);
    if !some_match(stakes, id) {
        Some(IboError::NoneStaking)
    } else {
        let st = stakes[first_match_idx(stakes, id)];
        if now - st.timestamp < lock_period(st.age_idx) {
            Some(IboError::StillInStaking)
        } else {
            None
        }
    }
}

/// The store after an unstake: the first matching stake record leaves the
/// ledger and its amount moves back from reserve to the free balance.
pub open spec fn unstake_model(s: StoreV, user: AccountId, id: ProposalId) -> StoreV {
    let stakes = stakes_of(s.staking, user);
    let st = stakes[first_match_idx(stakes, id)];
    StoreV {
        staking: s.staking.update(
            ledger_idx(s.staking, user),
            StakeLedgerV { account: user, stakes: stakes.remove(first_match_idx(stakes, id)) },
        ),
        balances: BalancesV {
            accounts: put_balance(
                s.balances.accounts,
                user,
                (free_of(s.balances.accounts, user) + st.staking_amount) as u64,
                (reserved_of(s.balances.accounts, user) - st.staking_amount) as u64,
            ),
            total_issuance: s.balances.total_issuance,
        },
        ..s
    }
}

/// Which error a burn meets, if any.
pub open spec fn burn_err(s: StoreV, user: AccountId, amount: Balance) -> Option<IboError> {
    if free_of(s.balances.accounts, user) < amount {
        Some(IboError::InsufficientFunds)
    } else {
        None
    }
}

/// The store after a burn: the amount leaves the caller's free balance, and
/// the total issuance drops once for the slash and once more for the burn.
pub open spec fn burn_model(s: StoreV, user: AccountId, amount: Balance) -> StoreV {
    let i1: int = if amount <= s.balances.total_issuance {
        s.balances.total_issuance - amount
    } else {
        0
    };
    let i2: int = if amount <= i1 {
        i1 - amount
    } else {
        0
    };
    StoreV {
        balances: BalancesV {
            accounts: put_balance(
                s.balances.accounts,
                user,
                (free_of(s.balances.accounts, user) - amount) as u64,
                reserved_of(s.balances.accounts, user) as u64,
            ),
            total_issuance: i2 as u64,
        },
        ..s
    }
}

/// A review ballot keeps the store invariant.
proof fn lemma_review_preserves_inv(s: StoreV, member: AccountId, id: ProposalId, stand: bool)
    requires
        crate::ibo::inv(s),
        review_err(s, member, id) is None,
    ensures
        crate::ibo::inv(
            StoreV {
                proposals: s.proposals.update(
                    prop_idx(s.proposals, id),
                    reviewed_proposal(proposal_of(s.proposals, id), stand),
                ),
                reviewers: lists_after(s.reviewers, id, member),
                ..s
            },
        ),
{
    let i = prop_idx(s.proposals, id);
    let p = proposal_of(s.proposals, id);
    let p2 = reviewed_proposal(p, stand);
    assert(0 <= i < s.proposals.len() && s.proposals[i].id == id);
    let s2 = StoreV {
        proposals: s.proposals.update(i, p2),
        reviewers: lists_after(s.reviewers, id, member),
        ..s
    };
    crate::ibo::lemma_prop_lookup_update(s.proposals, i, p2);
    // The review lists stay well formed.
    if has_entry(s.reviewers, id) {
        let k = entry_idx(s.reviewers, id);
        lemma_entry_lookup_update(
            s.reviewers,
            k,
            IdMembersV { id, members: s.reviewers[k].members.push(member) },
        );
        assert forall|k2: int| 0 <= k2 < s2.reviewers.len() implies crate::ibo::no_dup(
            (#[trigger] s2.reviewers[k2]).members,
        ) by {
            if k2 != k {
                assert(s2.reviewers[k2] == s.reviewers[k2]);
            } else {
                let ms = s.reviewers[k].members;
                assert(!ms.contains(member));
                assert forall|a: int, b: int| 0 <= a < b < ms.push(member).len() implies ms.push(
                    member,
                )[a] != ms.push(member)[b] by {
                    if b < ms.len() {
                    } else {
                        assert(ms.push(member)[b] == member);
                        assert(ms.push(member)[a] == ms[a]);
                        assert(ms[a] != member) by {
                            if ms[a] == member {
                                assert(ms.contains(member));
                            }
                        }
                    }
                }
            }
        }
    } else {
        lemma_entry_lookup_push(s.reviewers, IdMembersV { id, members: seq![member] });
        assert forall|k2: int| 0 <= k2 < s2.reviewers.len() implies crate::ibo::no_dup(
            (#[trigger] s2.reviewers[k2]).members,
        ) by {
            if k2 < s.reviewers.len() {
                assert(s2.reviewers[k2] == s.reviewers[k2]);
            } else {
                assert(s2.reviewers[k2].members =~= seq![member]);
            }
        }
    }
    // The singleton and the per-proposal accounting are untouched.
    match s.voting_proposal {
        Some(q) => {
            assert(proposal_of(s.proposals, q).state == ProposalState::Voting);
            assert(q != id);
            assert(proposal_of(s2.proposals, q) == proposal_of(s.proposals, q));
        },
        None => {},
    }
    assert forall|i2: int| 0 <= i2 < s2.proposals.len() implies {
        let q = #[trigger] s2.proposals[i2];
        &&& unclaimed_total(s2.staking, q.id) <= tally_total(q)
        &&& q.rewards_remainder * tally_total(q) >= TOTAL_REWARDS * unclaimed_total(
            s2.staking,
            q.id,
        )
    } by {
        if i2 != i {
            assert(s2.proposals[i2] == s.proposals[i2]);
        } else {
            assert(tally_total(p2) == tally_total(p));
        }
    }
}

/// Bounds on one claim: it is within the reward pool and within what is
/// left of it.
proof fn lemma_claim_bounds(s: StoreV, user: AccountId, id: ProposalId)
    requires
        crate::ibo::inv(s),
        receive_ready(s, user, id),
        tally_total(proposal_of(s.proposals, id)) > 0,
    ensures
        ({
            let p = proposal_of(s.proposals, id);
            let stakes = stakes_of(s.staking, user);
            let reward = reward_of(stake_weight(stakes[first_match_idx(stakes, id)]), tally_total(p));
            0 <= reward <= TOTAL_REWARDS && reward <= p.rewards_remainder
        }),
        is_first_match(stakes_of(s.staking, user), id, first_match_idx(stakes_of(s.staking, user), id)),
{
    let i = prop_idx(s.proposals, id);
    let p = proposal_of(s.proposals, id);
    let stakes = stakes_of(s.staking, user);
    lemma_some_match_first(stakes, id);
    let j = first_match_idx(stakes, id);
    let st = stakes[j];
    let w = stake_weight(st);
    let big_w = tally_total(p);
    let reward = reward_of(w, big_w);
    let k = ledger_idx(s.staking, user);
    assert(0 <= i < s.proposals.len() && s.proposals[i].id == id);
    assert(has_ledger(s.staking, user)) by {
        if !has_ledger(s.staking, user) {
            assert(stakes =~= Seq::<StakingInfo>::empty());
        }
    }
    assert(0 <= k < s.staking.len() && s.staking[k].account == user && s.staking[k].stakes
        == stakes);
    assert(w >= 0) by (nonlinear_arith)
        requires
            st.staking_amount >= 0,
            age_multiplier(st.age_idx) >= 0,
            w == st.staking_amount * age_multiplier(st.age_idx),
    ;
    // The claimed weight sits inside the unclaimed total.
    assert(stake_term(st, id) == w);
    crate::rewards::lemma_stake_term_le_weight(stakes, j, id);
    crate::rewards::lemma_entry_le_total(s.staking, k, id);
    let d = unclaimed_weight_in(stakes, id);
    let u = unclaimed_total(s.staking, id);
    assert(w <= d <= u);
    assert(u <= big_w && p.rewards_remainder * big_w >= TOTAL_REWARDS * u);
    // Bound the claim by the pool and by what is left of it.
    crate::rewards::lemma_reward_share_bounds(w, big_w);
    assert(TOTAL_REWARDS * w <= TOTAL_REWARDS * u) by (nonlinear_arith)
        requires
            w <= u,
            TOTAL_REWARDS >= 0,
    ;
    assert(reward * big_w <= p.rewards_remainder * big_w);
    assert(reward <= p.rewards_remainder) by (nonlinear_arith)
        requires
            reward * big_w <= p.rewards_remainder * big_w,
            big_w > 0,
    ;
    assert(reward >= 0) by (nonlinear_arith)
        requires
            reward * big_w >= 0,
            big_w > 0,
    ;
    assert(TOTAL_REWARDS * big_w >= TOTAL_REWARDS * w) by (nonlinear_arith)
        requires
            w <= big_w,
            TOTAL_REWARDS >= 0,
    ;
    assert(reward <= TOTAL_REWARDS) by (nonlinear_arith)
        requires
            reward * big_w <= TOTAL_REWARDS * w,
            TOTAL_REWARDS * w <= TOTAL_REWARDS * big_w,
            big_w > 0,
            reward * big_w > TOTAL_REWARDS * w - big_w,
    ;
}

/// An accepted reward claim keeps the store invariant.
proof fn lemma_receive_preserves_inv(s: StoreV, user: AccountId, id: ProposalId)
    requires
        crate::ibo::inv(s),
        receive_err(s, user, id) is None,
        tally_total(proposal_of(s.proposals, id)) > 0,
    ensures
        crate::ibo::inv(receive_model(s, user, id)),
{
    let s2 = receive_model(s, user, id);
    let i = prop_idx(s.proposals, id);
    let p = proposal_of(s.proposals, id);
    let stakes = stakes_of(s.staking, user);
    lemma_claim_bounds(s, user, id);
    let j = first_match_idx(stakes, id);
    let st = stakes[j];
    let w = stake_weight(st);
    let big_w = tally_total(p);
    let reward = reward_of(w, big_w);
    let k = ledger_idx(s.staking, user);
    let p2 = ProposalV { rewards_remainder: (p.rewards_remainder - reward) as u64, ..p };
    assert(0 <= i < s.proposals.len() && s.proposals[i].id == id);
    assert(is_first_match(stakes, id, j));
    assert(has_ledger(s.staking, user)) by {
        if !has_ledger(s.staking, user) {
            assert(stakes =~= Seq::<StakingInfo>::empty());
        }
    }
    assert(0 <= k < s.staking.len() && s.staking[k].account == user && s.staking[k].stakes
        == stakes);
    assert(w >= 0) by (nonlinear_arith)
        requires
            st.staking_amount >= 0,
            age_multiplier(st.age_idx) >= 0,
            w == st.staking_amount * age_multiplier(st.age_idx),
    ;
    assert(stake_term(st, id) == w);
    crate::rewards::lemma_stake_term_le_weight(stakes, j, id);
    crate::rewards::lemma_entry_le_total(s.staking, k, id);
    let d = unclaimed_weight_in(stakes, id);
    let u = unclaimed_total(s.staking, id);
    assert(w <= d <= u);
    assert(u <= big_w && p.rewards_remainder * big_w >= TOTAL_REWARDS * u);
    crate::rewards::lemma_reward_share_bounds(w, big_w);
    // Lookups move nowhere.
    crate::ibo::lemma_prop_lookup_update(s.proposals, i, p2);
    lemma_mark_received_props(stakes, id);
    let e2 = StakeLedgerV { account: user, stakes: mark_received(stakes, id) };
    lemma_ledger_lookup_update(s.staking, k, e2);
    crate::balances::lemma_put_balance_props(
        s.balances.accounts,
        user,
        (free_of(s.balances.accounts, user) + reward) as u64,
        reserved_of(s.balances.accounts, user) as u64,
    );
    assert(reserved_of(s.balances.accounts, user) as u64 == s.balances.accounts[crate::balances::acct_idx(
        s.balances.accounts,
        user,
    )].reserved);
    match s.voting_proposal {
        Some(q) => {
            assert(proposal_of(s.proposals, q).state == ProposalState::Voting);
            assert(q != id);
            assert(proposal_of(s2.proposals, q) == proposal_of(s.proposals, q));
        },
        None => {},
    }
    // Escrow bookkeeping.
    assert forall|k2: int| 0 <= k2 < s2.staking.len() implies staked_amount_total(
        (#[trigger] s2.staking[k2]).stakes,
    ) == reserved_of(s2.balances.accounts, s2.staking[k2].account) by {
        if k2 != k {
            assert(s2.staking[k2] == s.staking[k2]);
        } else {
            assert(staked_amount_total(mark_received(stakes, id)) == staked_amount_total(stakes));
        }
    }
    assert forall|a: int|
        0 <= a < s2.balances.accounts.len() && (#[trigger] s2.balances.accounts[a]).reserved > 0
        implies has_ledger(s2.staking, s2.balances.accounts[a].account) by {
        let who = s2.balances.accounts[a].account;
        assert(who == s.balances.accounts[a].account);
        if who != user {
            assert(s2.balances.accounts[a] == s.balances.accounts[a]);
        } else {
            assert(s2.balances.accounts[a].reserved == s.balances.accounts[a].reserved);
        }
        assert(reserved_of(s.balances.accounts, who) > 0 || s.balances.accounts[a].reserved > 0);
        assert(has_ledger(s.staking, who));
    }
    // Stake records still name issued proposals and table rows.
    assert forall|k2: int, j2: int|
        0 <= k2 < s2.staking.len() && 0 <= j2 < (#[trigger] s2.staking[k2]).stakes.len() implies (
        #[trigger] s2.staking[k2].stakes[j2]).proposal_id < s2.id_generator
        && s2.staking[k2].stakes[j2].age_idx < 6 by {
        if k2 != k {
            assert(s2.staking[k2] == s.staking[k2]);
        } else {
            assert(s2.staking[k2].stakes[j2].proposal_id == s.staking[k].stakes[j2].proposal_id);
            assert(s2.staking[k2].stakes[j2].age_idx == s.staking[k].stakes[j2].age_idx);
        }
    }
    // Reward accounting.
    assert forall|i2: int| 0 <= i2 < s2.proposals.len() implies {
        let q = #[trigger] s2.proposals[i2];
        &&& unclaimed_total(s2.staking, q.id) <= tally_total(q)
        &&& q.rewards_remainder * tally_total(q) >= TOTAL_REWARDS * unclaimed_total(
            s2.staking,
            q.id,
        )
    } by {
        crate::rewards::lemma_unclaimed_total_update(s.staking, k, e2, s2.proposals[i2].id);
        if i2 != i {
            assert(s2.proposals[i2] == s.proposals[i2]);
            assert(s.proposals[i2].id != id);
            assert(unclaimed_weight_in(mark_received(stakes, id), s.proposals[i2].id)
                == unclaimed_weight_in(stakes, s.proposals[i2].id));
            assert(unclaimed_total(s2.staking, s.proposals[i2].id) == unclaimed_total(
                s.staking,
                s.proposals[i2].id,
            ));
        } else {
            assert(s2.proposals[i2] == p2);
            assert(unclaimed_total(s2.staking, id) == u - d);
            crate::rewards::lemma_unclaimed_weight_nonneg(stakes, id);
            assert(tally_total(p2) == big_w);
            assert((p.rewards_remainder - reward) * big_w >= TOTAL_REWARDS * (u - d))
                by (nonlinear_arith)
                requires
                    p.rewards_remainder * big_w >= TOTAL_REWARDS * u,
                    reward * big_w <= TOTAL_REWARDS * w,
                    w <= d,
                    TOTAL_REWARDS >= 0,
                    big_w > 0,
            ;
        }
    }
    // Balances stay well formed.
    assert(free_of(s.balances.accounts, user) + reserved_of(s.balances.accounts, user) + reward
        <= u64::MAX);
}

/// An accepted unstake keeps the store invariant.
proof fn lemma_unstake_preserves_inv(s: StoreV, user: AccountId, id: ProposalId, now: u64)
    requires
        crate::ibo::inv(s),
        unstake_err(s, user, id, now) is None,
    ensures
        crate::ibo::inv(unstake_model(s, user, id)),
        ({
            let stakes = stakes_of(s.staking, user);
            stakes[first_match_idx(stakes, id)].staking_amount <= reserved_of(
                s.balances.accounts,
                user,
            )
        }),
{
    let s2 = unstake_model(s, user, id);
    let stakes = stakes_of(s.staking, user);
    lemma_some_match_first(stakes, id);
    let j = first_match_idx(stakes, id);
    let st = stakes[j];
    let amt = st.staking_amount;
    let k = ledger_idx(s.staking, user);
    assert(is_first_match(stakes, id, j));
    assert(has_ledger(s.staking, user)) by {
        if !has_ledger(s.staking, user) {
            assert(stakes =~= Seq::<StakingInfo>::empty());
        }
    }
    assert(0 <= k < s.staking.len() && s.staking[k].account == user && s.staking[k].stakes
        == stakes);
    crate::rewards::lemma_stake_amount_le_total(stakes, j);
    assert(staked_amount_total(stakes) == reserved_of(s.balances.accounts, user));
    assert(amt <= reserved_of(s.balances.accounts, user));
    let e2 = StakeLedgerV { account: user, stakes: stakes.remove(j) };
    lemma_ledger_lookup_update(s.staking, k, e2);
    crate::balances::lemma_put_balance_props(
        s.balances.accounts,
        user,
        (free_of(s.balances.accounts, user) + amt) as u64,
        (reserved_of(s.balances.accounts, user) - amt) as u64,
    );
    crate::rewards::lemma_staked_amount_remove(stakes, j);
    assert(has_acct(s.balances.accounts, user) || amt == 0);
    // Escrow bookkeeping.
    assert forall|k2: int| 0 <= k2 < s2.staking.len() implies staked_amount_total(
        (#[trigger] s2.staking[k2]).stakes,
    ) == reserved_of(s2.balances.accounts, s2.staking[k2].account) by {
        if k2 != k {
            assert(s2.staking[k2] == s.staking[k2]);
        }
    }
    assert forall|a: int|
        0 <= a < s2.balances.accounts.len() && (#[trigger] s2.balances.accounts[a]).reserved > 0
        implies has_ledger(s2.staking, s2.balances.accounts[a].account) by {
        let who = s2.balances.accounts[a].account;
        assert(who == s.balances.accounts[a].account);
        if who != user {
            assert(s2.balances.accounts[a] == s.balances.accounts[a]);
        }
        assert(reserved_of(s.balances.accounts, who) > 0 || s.balances.accounts[a].reserved > 0
            || has_acct(s.balances.accounts, who));
        if s.balances.accounts[a].reserved > 0 {
            assert(has_ledger(s.staking, who));
        } else {
            assert(who == user);
            assert(has_ledger(s.staking, user));
        }
    }
    // Stake records still name issued proposals and table rows.
    assert forall|k2: int, j2: int|
        0 <= k2 < s2.staking.len() && 0 <= j2 < (#[trigger] s2.staking[k2]).stakes.len() implies (
        #[trigger] s2.staking[k2].stakes[j2]).proposal_id < s2.id_generator
        && s2.staking[k2].stakes[j2].age_idx < 6 by {
        if k2 != k {
            assert(s2.staking[k2] == s.staking[k2]);
        } else {
            assert(s2.staking[k2].stakes[j2] == (if j2 < j {
                stakes[j2]
            } else {
                stakes[j2 + 1]
            }));
        }
    }
    // Reward accounting: removing a stake only lowers the unclaimed weight.
    assert forall|i2: int| 0 <= i2 < s2.proposals.len() implies {
        let q = #[trigger] s2.proposals[i2];
        &&& unclaimed_total(s2.staking, q.id) <= tally_total(q)
        &&& q.rewards_remainder * tally_total(q) >= TOTAL_REWARDS * unclaimed_total(
            s2.staking,
            q.id,
        )
    } by {
        let qid = s2.proposals[i2].id;
        assert(s2.proposals[i2] == s.proposals[i2]);
        crate::rewards::lemma_unclaimed_total_update(s.staking, k, e2, qid);
        crate::rewards::lemma_unclaimed_weight_remove(stakes, j, qid);
        assert(stake_term(st, qid) >= 0) by (nonlinear_arith)
            requires
                st.staking_amount >= 0,
                age_multiplier(st.age_idx) >= 0,
                stake_term(st, qid) == 0 || stake_term(st, qid) == st.staking_amount
                    * age_multiplier(st.age_idx),
        ;
        assert(unclaimed_total(s2.staking, qid) == unclaimed_total(s.staking, qid) - stake_term(
            st,
            qid,
        ));
        assert(TOTAL_REWARDS * unclaimed_total(s2.staking, qid) <= TOTAL_REWARDS * unclaimed_total(
            s.staking,
            qid,
        )) by (nonlinear_arith)
            requires
                unclaimed_total(s2.staking, qid) <= unclaimed_total(s.staking, qid),
                TOTAL_REWARDS >= 0,
        ;
    }
}

/// An accepted burn keeps the store invariant.
proof fn lemma_burn_preserves_inv(s: StoreV, user: AccountId, amount: Balance)
    requires
        crate::ibo::inv(s),
        burn_err(s, user, amount) is None,
    ensures
        crate::ibo::inv(burn_model(s, user, amount)),
{
    let s2 = burn_model(s, user, amount);
    crate::balances::lemma_put_balance_props(
        s.balances.accounts,
        user,
        (free_of(s.balances.accounts, user) - amount) as u64,
        reserved_of(s.balances.accounts, user) as u64,
    );
    if has_acct(s.balances.accounts, user) {
        assert(reserved_of(s.balances.accounts, user) as u64 == s.balances.accounts[crate::balances::acct_idx(
            s.balances.accounts,
            user,
        )].reserved);
    }
    assert forall|k2: int| 0 <= k2 < s2.staking.len() implies staked_amount_total(
        (#[trigger] s2.staking[k2]).stakes,
    ) == reserved_of(s2.balances.accounts, s2.staking[k2].account) by {
        assert(s2.staking[k2] == s.staking[k2]);
    }
    assert forall|a: int|
        0 <= a < s2.balances.accounts.len() && (#[trigger] s2.balances.accounts[a]).reserved > 0
        implies has_ledger(s2.staking, s2.balances.accounts[a].account) by {
        let who = s2.balances.accounts[a].account;
        assert(who == s.balances.accounts[a].account);
        if who != user {
            assert(s2.balances.accounts[a] == s.balances.accounts[a]);
        } else {
            assert(s2.balances.accounts[a].reserved == s.balances.accounts[a].reserved);
        }
        assert(has_ledger(s.staking, who));
    }
}

impl Module {
    /// The first of `user`'s stake records naming this proposal, if any.
    pub fn get_staking_info(&self, user: AccountId, id: ProposalId) -> (r: Option<StakingInfo>)
        requires
            self.wf(),
        ensures
            ({
                let stakes = stakes_of(self@.staking, user);
                match r {
                    Some(st) => some_match(stakes, id) && is_first_match(
                        stakes,
                        id,
                        first_match_idx(stakes, id),
                    ) && st == stakes[first_match_idx(stakes, id)],
                    None => !some_match(stakes, id),
                }
            }),
    {
        let k = match find_ledger_index(&self.staking, user) {
            Some(k) => k,
            None => {
                proof {
                    assert(stakes_of(self@.staking, user) =~= Seq::<StakingInfo>::empty());
                }
                return None;
            },
        };
        proof {
            crate::ibo::lemma_ledger_idx_is(self@.staking, user, k as int);
        }
        match find_first_stake(&self.staking[k].stakes, id) {
            Some(j) => Some(self.staking[k].stakes[j]),
            None => None,
        }
    }

    /// Draw this caller's share of the proposal's reward pool:
    /// `TOTAL_REWARDS * weight / (support + oppose)`, floored. One claim per
    /// stake; the credit obeys the issuance cap.
    pub fn receive_rewards(&mut self, user: AccountId, id: ProposalId) -> (r: Result<
        ProposalEvent,
        IboError,
    >)
        requires
            old(self).wf(),
            receive_ready(old(self)@, user, id) ==> 0 < tally_total(
                proposal_of(old(self)@.proposals, id),
            ) <= u128::MAX,
        ensures
            final(self).wf(),
            match r {
                Ok(ev) => {
                    &&& receive_err(old(self)@, user, id) is None
                    &&& final(self)@ == receive_model(old(self)@, user, id)
                    &&& ev@.change_type == UPDATE
                    &&& ev@.proposal == proposal_of(
                        receive_model(old(self)@, user, id).proposals,
                        id,
                    )
                },
                Err(e) => final(self)@ == old(self)@ && receive_err(old(self)@, user, id) == Some(
                    e,
                ),
            },
    {
        let ghost pre = self@;
        let in_voters = match find_entry_index(&self.voters, id) {
            Some(k) => {
                proof {
                    crate::ibo::lemma_entry_idx_is(pre.voters, id, k as int);
                }
                crate::ibo::contains_account(&self.voters[k].members, user)
            },
            None => false,
        };
        if !in_voters {
            return Err(IboError::NoVote);
        }
        let i = match self.find_proposal(id) {
            Some(i) => i,
            None => {
                return Err(IboError::ProposalNotFound);
            },
        };
        proof {
            crate::ibo::lemma_prop_idx_is(self@.proposals, id, i as int);
        }
        let state_ok = matches!(self.proposals[i].state, ProposalState::Approved) || matches!(
            self.proposals[i].state,
            ProposalState::Rejected,
        );
        if !state_ok {
            return Err(IboError::StateNotForRewards);
        }
        let st = match self.get_staking_info(user, id) {
            Some(st) => st,
            None => {
                return Err(IboError::NoneStaking);
            },
        };
        if st.wheather_received_reward {
            return Err(IboError::NoneStaking);
        }
        let ghost stakes = stakes_of(pre.staking, user);
        let ghost j = first_match_idx(stakes, id);
        let ghost k0 = ledger_idx(pre.staking, user);
        proof {
            assert(has_ledger(pre.staking, user)) by {
                if !has_ledger(pre.staking, user) {
                    assert(stakes =~= Seq::<StakingInfo>::empty());
                }
            }
            assert(0 <= k0 < pre.staking.len() && pre.staking[k0].account == user
                && pre.staking[k0].stakes == stakes);
            assert(st.age_idx < 6 && st.proposal_id == id);
        }
        let goals = Module::get_goals_from_staking(st.staking_amount, st.age_idx);
        let g = self.proposals[i].vote_goals;
        proof {
            assert(receive_ready(pre, user, id));
            lemma_claim_bounds(pre, user, id);
        }
        let total = g.0 + g.1;
        proof {
            assert(total == tally_total(proposal_of(pre.proposals, id)));
            assert(total > 0);
            assert((goals as int) <= (u64::MAX as int) * 7600) by (nonlinear_arith)
                requires
                    goals == st.staking_amount * age_multiplier(st.age_idx),
                    0 <= st.staking_amount <= u64::MAX,
                    0 <= age_multiplier(st.age_idx) <= 7600,
            ;
            assert((TOTAL_REWARDS as int) * (goals as int) <= 131072 * ((u64::MAX as int) * 7600))
                by (nonlinear_arith)
                requires
                    0 <= goals <= (u64::MAX as int) * 7600,
                    0 < TOTAL_REWARDS <= 131072,
            ;
        }
        let reward128 = (TOTAL_REWARDS as u128) * goals / total;
        proof {
            assert(st == stakes[j]);
            assert(reward128 == reward_of(stake_weight(stakes[j]), tally_total(
                proposal_of(pre.proposals, id),
            )));
            assert(reward128 <= TOTAL_REWARDS);
        }
        let reward = reward128 as u64;
        match self.balances.deposit_into_existing(user, reward) {
            Ok(()) => {},
            Err(e) => {
                proof {
                    assert(receive_err(pre, user, id) == Some(e));
                }
                return Err(e);
            },
        }
        proof {
            assert(receive_err(pre, user, id) is None);
            lemma_receive_preserves_inv(pre, user, id);
        }
        let rem = self.proposals[i].rewards_remainder;
        self.proposals[i].rewards_remainder = rem - reward;
        let updated = crate::types::clone_proposal(&self.proposals[i]);
        let k = match find_ledger_index(&self.staking, user) {
            Some(k) => k,
            None => {
                proof {
                    assert(false);
                }
                return Err(IboError::NoneStaking);
            },
        };
        proof {
            crate::ibo::lemma_ledger_idx_is(pre.staking, user, k as int);
            assert(k as int == k0);
        }
        let mut marked: Vec<StakingInfo> = Vec::new();
        let mut j2: usize = 0;
        while j2 < self.staking[k].stakes.len()
            invariant
                j2 <= stakes.len(),
                k < self@.staking.len(),
                self@.staking[k as int].stakes == stakes,
                self@.staking[k as int].stakes == self.staking@[k as int].stakes@,
                marked@ == mark_received(stakes, id).subrange(0, j2 as int),
            decreases stakes.len() - j2,
        {
            let s0 = self.staking[k].stakes[j2];
            if s0.proposal_id == id {
                marked.push(
                    StakingInfo {
                        proposal_id: s0.proposal_id,
                        staking_amount: s0.staking_amount,
                        age_idx: s0.age_idx,
                        wheather_received_reward: true,
                        timestamp: s0.timestamp,
                    },
                );
            } else {
                marked.push(s0);
            }
            proof {
                assert(marked@ =~= mark_received(stakes, id).subrange(0, j2 + 1 as int));
            }
            j2 += 1;
        }
        proof {
            assert(marked@ =~= mark_received(stakes, id));
        }
        self.staking[k] = StakeLedger { account: user, stakes: marked };
        proof {
            assert(self@.staking =~= pre.staking.update(
                k0,
                StakeLedgerV { account: user, stakes: mark_received(stakes, id) },
            ));
            assert(self@ =~= receive_model(pre, user, id));
            let p = proposal_of(pre.proposals, id);
            let p2 = ProposalV { rewards_remainder: (p.rewards_remainder - reward128) as u64, ..p };
            crate::ibo::lemma_prop_lookup_update(pre.proposals, i as int, p2);
            assert(proposal_of(receive_model(pre, user, id).proposals, id) == p2);
            assert(updated@ =~= p2);
        }
        Ok(ProposalEvent { change_type: UPDATE, proposal: updated })
    }

    /// Release the escrow behind the caller's stake on this proposal, once
    /// the stake's lock period has elapsed, and drop the stake record.
    pub fn unstake(&mut self, user: AccountId, id: ProposalId, now: u64) -> (r: Result<
        (),
        IboError,
    >)
        requires
            old(self).wf(),
        ensures
            final(self).wf(),
            match r {
                Ok(()) => unstake_err(old(self)@, user, id, now) is None && final(self)@
                    == unstake_model(old(self)@, user, id),
                Err(e) => final(self)@ == old(self)@ && unstake_err(old(self)@, user, id, now)
                    == Some(e),
            },
    {
        let ghost pre = self@;
        let st = match self.get_staking_info(user, id) {
            Some(st) => st,
            None => {
                return Err(IboError::NoneStaking);
            },
        };
        let ghost stakes = stakes_of(pre.staking, user);
        let ghost j = first_match_idx(stakes, id);
        let ghost k0 = ledger_idx(pre.staking, user);
        proof {
            assert(has_ledger(pre.staking, user)) by {
                if !has_ledger(pre.staking, user) {
                    assert(stakes =~= Seq::<StakingInfo>::empty());
                }
            }
            assert(0 <= k0 < pre.staking.len() && pre.staking[k0].account == user
                && pre.staking[k0].stakes == stakes);
            assert(st.age_idx < 6);
            assert(lock_period(st.age_idx) > 0);
        }
        if now < st.timestamp {
            return Err(IboError::StillInStaking);
        }
        let duration = now - st.timestamp;
        let entry = crate::constants::age_entry(st.age_idx);
        if duration < entry.1 {
            return Err(IboError::StillInStaking);
        }
        proof {
            lemma_unstake_preserves_inv(pre, user, id, now);
        }
        self.balances.unreserve(user, st.staking_amount);
        let k = match find_ledger_index(&self.staking, user) {
            Some(k) => k,
            None => {
                proof {
                    assert(false);
                }
                return Err(IboError::NoneStaking);
            },
        };
        proof {
            crate::ibo::lemma_ledger_idx_is(pre.staking, user, k as int);
            assert(k as int == k0);
        }
        let mut stakes2 = crate::types::clone_stakes(&self.staking[k].stakes);
        let jfound: usize = match find_first_stake(&stakes2, id) {
            Some(jf) => jf,
            None => {
                proof {
                    assert(false);
                }
                return Err(IboError::NoneStaking);
            },
        };
        proof {
            assert(jfound as int == j);
        }
        stakes2.remove(jfound);
        self.staking[k] = StakeLedger { account: user, stakes: stakes2 };
        proof {
            assert(self@.staking =~= pre.staking.update(
                k0,
                StakeLedgerV { account: user, stakes: stakes.remove(j) },
            ));
            assert(self@ =~= unstake_model(pre, user, id));
        }
        Ok(())
    }

    /// Burn `amount` of the caller's free balance: the funds are slashed and
    /// the total issuance reduced once for the slash and once for the burn.
    pub fn burn(&mut self, user: AccountId, amount: Balance) -> (r: Result<(), IboError>)
        requires
            old(self).wf(),
        ensures
            final(self).wf(),
            match r {
                Ok(()) => burn_err(old(self)@, user, amount) is None && final(self)@ == burn_model(
                    old(self)@,
                    user,
                    amount,
                ),
                Err(e) => final(self)@ == old(self)@ && burn_err(old(self)@, user, amount) == Some(
                    e,
                ),
            },
    {
        let ghost pre = self@;
        if self.balances.free_balance(user) < amount {
            return Err(IboError::InsufficientFunds);
        }
        self.balances.slash(user, amount);
        self.balances.burn(amount);
        proof {
            lemma_burn_preserves_inv(pre, user, amount);
            assert(self@.balances.accounts =~= burn_model(pre, user, amount).balances.accounts);
            assert(self@ =~= burn_model(pre, user, amount));
        }
        Ok(())
    }
}

} // verus!
