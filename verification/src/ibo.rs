//! The governance store: every persistent record of the module, its
//! well-formedness invariant, and the identity and balance plumbing.

use vstd::prelude::*;

use crate::balances::{
    balances_wf, free_of, has_acct, reserved_of, AccountBalance, Balances, BalancesV,
};
use crate::constants::TOTAL_REWARDS;
use crate::rewards::{staked_amount_total, unclaimed_total};
use crate::types::{
    clone_token_info, AccountId, Balance, IboError, IdMembers, IdMembersV, Proposal, ProposalId,
    ProposalState, ProposalType, ProposalV, StakeLedger, StakeLedgerV, StakingInfo, TokenInfo,
    TokenInfoV,
};

verus! {

/// The views of a sequence of viewable records, element by element.
pub open spec fn seq_views<T: View>(s: Seq<T>) -> Seq<T::V> {
    s.map_values(|t: T| t@)
}

pub proof fn lemma_seq_views_update<T: View>(s: Seq<T>, i: int, x: T)
    requires
        0 <= i < s.len(),
    ensures
        seq_views(s.update(i, x)) == seq_views(s).update(i, x@),
{
    assert(seq_views(s.update(i, x)) =~= seq_views(s).update(i, x@));
}

pub proof fn lemma_seq_views_push<T: View>(s: Seq<T>, x: T)
    ensures
        seq_views(s.push(x)) == seq_views(s).push(x@),
{
    assert(seq_views(s.push(x)) =~= seq_views(s).push(x@));
}

pub proof fn lemma_seq_views_remove<T: View>(s: Seq<T>, i: int)
    requires
        0 <= i < s.len(),
    ensures
        seq_views(s.remove(i)) == seq_views(s).remove(i),
{
    assert(seq_views(s.remove(i)) =~= seq_views(s).remove(i));
}

/// Ghost view of the whole store.
#[verifier::ext_equal]
pub ghost struct StoreV {
    pub proposals: Seq<ProposalV>,
    pub voting_proposal: Option<ProposalId>,
    pub tokens: Seq<TokenInfoV>,
    pub reviewers: Seq<IdMembersV>,
    pub voters: Seq<IdMembersV>,
    pub staking: Seq<StakeLedgerV>,
    pub id_generator: ProposalId,
    pub balances: BalancesV,
    pub council: Seq<AccountId>,
    pub treasury: AccountId,
}

/// The governance module's persistent state. All records live here; accounts
/// hold only identifiers.
pub struct Module {
    pub proposals: Vec<Proposal>,
    pub voting_proposal: Option<ProposalId>,
    pub tokens: Vec<TokenInfo>,
    pub reviewers: Vec<IdMembers>,
    pub voters: Vec<IdMembers>,
    pub staking: Vec<StakeLedger>,
    pub id_generator: ProposalId,
    pub balances: Balances,
    pub council: Vec<AccountId>,
    pub treasury: AccountId,
}

impl View for Module {
    type V = StoreV;

    open spec fn view(&self) -> StoreV {
        StoreV {
            proposals: seq_views(self.proposals@),
            voting_proposal: self.voting_proposal,
            tokens: seq_views(self.tokens@),
            reviewers: seq_views(self.reviewers@),
            voters: seq_views(self.voters@),
            staking: seq_views(self.staking@),
            id_generator: self.id_generator,
            balances: self.balances@,
            council: self.council@,
            treasury: self.treasury,
        }
    }
}

/// Whether a proposal with this id is in the store.
pub open spec fn has_proposal(ps: Seq<ProposalV>, id: ProposalId) -> bool {
    exists|i: int| 0 <= i < ps.len() && ps[i].id == id
}

/// Index of the proposal with this id (meaningful only when `has_proposal`).
pub open spec fn prop_idx(ps: Seq<ProposalV>, id: ProposalId) -> int {
    choose|i: int| 0 <= i < ps.len() && ps[i].id == id
}

/// The proposal with this id (meaningful only when `has_proposal`).
pub open spec fn proposal_of(ps: Seq<ProposalV>, id: ProposalId) -> ProposalV {
    ps[prop_idx(ps, id)]
}

/// Whether a token of this name is in the registry.
pub open spec fn has_token(ts: Seq<TokenInfoV>, name: Seq<u8>) -> bool {
    exists|i: int| 0 <= i < ts.len() && ts[i].token_name == name
}

/// Index of the token with this name (meaningful only when `has_token`).
pub open spec fn token_idx(ts: Seq<TokenInfoV>, name: Seq<u8>) -> int {
    choose|i: int| 0 <= i < ts.len() && ts[i].token_name == name
}

/// Whether a review list or voter list exists for this proposal id.
pub open spec fn has_entry(es: Seq<IdMembersV>, id: ProposalId) -> bool {
    exists|i: int| 0 <= i < es.len() && es[i].id == id
}

/// Index of the list for this proposal id (meaningful only when `has_entry`).
pub open spec fn entry_idx(es: Seq<IdMembersV>, id: ProposalId) -> int {
    choose|i: int| 0 <= i < es.len() && es[i].id == id
}

/// The members recorded for this proposal id; empty when no list exists.
pub open spec fn members_of(es: Seq<IdMembersV>, id: ProposalId) -> Seq<AccountId> {
    if has_entry(es, id) {
        es[entry_idx(es, id)].members
    } else {
        Seq::empty()
    }
}

/// Whether this account has a stake ledger entry.
pub open spec fn has_ledger(ls: Seq<StakeLedgerV>, who: AccountId) -> bool {
    exists|i: int| 0 <= i < ls.len() && ls[i].account == who
}

/// Index of this account's ledger entry (meaningful only when `has_ledger`).
pub open spec fn ledger_idx(ls: Seq<StakeLedgerV>, who: AccountId) -> int {
    choose|i: int| 0 <= i < ls.len() && ls[i].account == who
}

/// This account's stake records; empty when it has no ledger entry.
pub open spec fn stakes_of(ls: Seq<StakeLedgerV>, who: AccountId) -> Seq<StakingInfo> {
    if has_ledger(ls, who) {
        ls[ledger_idx(ls, who)].stakes
    } else {
        Seq::empty()
    }
}

/// A sequence of accounts without duplicates.
pub open spec fn no_dup(s: Seq<AccountId>) -> bool {
    forall|a: int, b: int| 0 <= a < b < s.len() ==> s[a] != s[b]
}

/// Stake-weighted vote tally of a proposal, both sides together.
pub open spec fn tally_total(p: ProposalV) -> int {
    p.vote_goals.0 + p.vote_goals.1
}

/// Proposal bookkeeping: ids strictly increase and stay below the generator;
/// the `voting_proposal` singleton names exactly the proposals in `Voting`;
/// only List and Delist proposals reach a public vote; tallies and reward
/// pools are what the phase admits.
pub open spec fn wf_proposals(s: StoreV) -> bool {
    &&& forall|i: int, j: int|
        0 <= i < j < s.proposals.len() ==> s.proposals[i].id < s.proposals[j].id
    &&& forall|i: int|
        0 <= i < s.proposals.len() ==> (#[trigger] s.proposals[i]).id < s.id_generator
    &&& match s.voting_proposal {
        Some(id) => has_proposal(s.proposals, id) && proposal_of(s.proposals, id).state
            == ProposalState::Voting,
        None => true,
    }
    &&& forall|i: int|
        0 <= i < s.proposals.len() && (#[trigger] s.proposals[i]).state == ProposalState::Voting
            ==> s.voting_proposal == Some(s.proposals[i].id)
    &&& forall|i: int|
        0 <= i < s.proposals.len() && (#[trigger] s.proposals[i]).state == ProposalState::Voting
            ==> s.proposals[i].proposal_type == ProposalType::List || s.proposals[i].proposal_type
            == ProposalType::Delist
    &&& forall|i: int|
        0 <= i < s.proposals.len() && ((#[trigger] s.proposals[i]).state == ProposalState::Pending
            || s.proposals[i].state == ProposalState::Reviewing) ==> s.proposals[i].vote_goals
            == (0u128, 0u128)
    &&& forall|i: int|
        0 <= i < s.proposals.len() && ((#[trigger] s.proposals[i]).state == ProposalState::Pending
            || s.proposals[i].state == ProposalState::Reviewing || s.proposals[i].state
            == ProposalState::Voting) ==> s.proposals[i].rewards_remainder == (
        if s.proposals[i].proposal_type == ProposalType::List || s.proposals[i].proposal_type
            == ProposalType::Delist {
            TOTAL_REWARDS
        } else {
            0
        })
}

/// Token names are unique.
pub open spec fn wf_tokens(s: StoreV) -> bool {
    forall|i: int, j: int|
        0 <= i < j < s.tokens.len() ==> s.tokens[i].token_name != s.tokens[j].token_name
}

/// Review and voter lists: one list per proposal id, no duplicate members.
pub open spec fn wf_lists(es: Seq<IdMembersV>) -> bool {
    &&& forall|a: int, b: int| 0 <= a < b < es.len() ==> es[a].id != es[b].id
    &&& forall|k: int| 0 <= k < es.len() ==> no_dup((#[trigger] es[k]).members)
}

/// The stake ledger: one entry per account; every record names an issued
/// proposal id and a row of the age table; each account's escrow total is
/// exactly its reserved balance, and reserves exist only with a ledger entry.
pub open spec fn wf_staking(s: StoreV) -> bool {
    &&& forall|a: int, b: int|
        0 <= a < b < s.staking.len() ==> s.staking[a].account != s.staking[b].account
    &&& forall|k: int, j: int|
        0 <= k < s.staking.len() && 0 <= j < (#[trigger] s.staking[k]).stakes.len() ==> (
        #[trigger] s.staking[k].stakes[j]).proposal_id < s.id_generator
            && s.staking[k].stakes[j].age_idx < 6
    &&& forall|k: int|
        0 <= k < s.staking.len() ==> staked_amount_total((#[trigger] s.staking[k]).stakes)
            == reserved_of(s.balances.accounts, s.staking[k].account)
    &&& forall|i: int|
        0 <= i < s.balances.accounts.len() && (#[trigger] s.balances.accounts[i]).reserved > 0
            ==> has_ledger(s.staking, s.balances.accounts[i].account)
}

/// Reward accounting of every proposal: the unclaimed weight never exceeds
/// the recorded tally, and what is left of the reward pool covers the
/// pro-rata share of all unclaimed weight.
pub open spec fn wf_rewards(s: StoreV) -> bool {
    forall|i: int|
        0 <= i < s.proposals.len() ==> {
            let p = #[trigger] s.proposals[i];
            &&& unclaimed_total(s.staking, p.id) <= tally_total(p)
            &&& p.rewards_remainder * tally_total(p) >= TOTAL_REWARDS * unclaimed_total(
                s.staking,
                p.id,
            )
        }
}

/// The store invariant: every reachable store satisfies it.
pub open spec fn inv(s: StoreV) -> bool {
    &&& wf_proposals(s)
    &&& wf_tokens(s)
    &&& wf_lists(s.reviewers)
    &&& wf_lists(s.voters)
    &&& wf_staking(s)
    &&& wf_rewards(s)
    &&& balances_wf(s.balances)
}

/// With strictly increasing ids, any index holding `id` is the chosen one.
pub proof fn lemma_prop_idx_is(ps: Seq<ProposalV>, id: ProposalId, i: int)
    requires
        forall|a: int, b: int| 0 <= a < b < ps.len() ==> ps[a].id < ps[b].id,
        0 <= i < ps.len(),
        ps[i].id == id,
    ensures
        has_proposal(ps, id),
        prop_idx(ps, id) == i,
        proposal_of(ps, id) == ps[i],
{
    assert(has_proposal(ps, id));
    let j = prop_idx(ps, id);
    if i < j {
        assert(ps[i].id < ps[j].id);
    } else if j < i {
        assert(ps[j].id < ps[i].id);
    }
}

/// With unique names, any index holding `name` is the chosen one.
pub proof fn lemma_token_idx_is(ts: Seq<TokenInfoV>, name: Seq<u8>, i: int)
    requires
        forall|a: int, b: int| 0 <= a < b < ts.len() ==> ts[a].token_name != ts[b].token_name,
        0 <= i < ts.len(),
        ts[i].token_name == name,
    ensures
        has_token(ts, name),
        token_idx(ts, name) == i,
{
    assert(has_token(ts, name));
    let j = token_idx(ts, name);
    if i < j {
        assert(ts[i].token_name != ts[j].token_name);
    } else if j < i {
        assert(ts[j].token_name != ts[i].token_name);
    }
}

/// With unique ids, any index holding `id` is the chosen one.
pub proof fn lemma_entry_idx_is(es: Seq<IdMembersV>, id: ProposalId, i: int)
    requires
        forall|a: int, b: int| 0 <= a < b < es.len() ==> es[a].id != es[b].id,
        0 <= i < es.len(),
        es[i].id == id,
    ensures
        has_entry(es, id),
        entry_idx(es, id) == i,
        members_of(es, id) == es[i].members,
{
    assert(has_entry(es, id));
    let j = entry_idx(es, id);
    if i < j {
        assert(es[i].id != es[j].id);
    } else if j < i {
        assert(es[j].id != es[i].id);
    }
}

/// With unique accounts, any index holding `who` is the chosen one.
pub proof fn lemma_ledger_idx_is(ls: Seq<StakeLedgerV>, who: AccountId, i: int)
    requires
        forall|a: int, b: int| 0 <= a < b < ls.len() ==> ls[a].account != ls[b].account,
        0 <= i < ls.len(),
        ls[i].account == who,
    ensures
        has_ledger(ls, who),
        ledger_idx(ls, who) == i,
        stakes_of(ls, who) == ls[i].stakes,
{
    assert(has_ledger(ls, who));
    let j = ledger_idx(ls, who);
    if i < j {
        assert(ls[i].account != ls[j].account);
    } else if j < i {
        assert(ls[j].account != ls[i].account);
    }
}

/// Sorted proposal ids: the order the scheduler walks them in.
pub open spec fn ids_sorted(ps: Seq<ProposalV>) -> bool {
    forall|a: int, b: int| 0 <= a < b < ps.len() ==> ps[a].id < ps[b].id
}

/// Replacing a proposal by one with the same id moves no lookup.
pub proof fn lemma_prop_lookup_update(ps: Seq<ProposalV>, i: int, p: ProposalV)
    requires
        ids_sorted(ps),
        0 <= i < ps.len(),
        p.id == ps[i].id,
    ensures
        ids_sorted(ps.update(i, p)),
        forall|id: ProposalId|
            #[trigger] has_proposal(ps.update(i, p), id) <==> has_proposal(ps, id),
        forall|id: ProposalId|
            has_proposal(ps, id) ==> #[trigger] prop_idx(ps.update(i, p), id) == prop_idx(ps, id),
        forall|id: ProposalId|
            has_proposal(ps, id) && id != p.id ==> #[trigger] proposal_of(ps.update(i, p), id)
                == proposal_of(ps, id),
        prop_idx(ps.update(i, p), p.id) == i,
        proposal_of(ps.update(i, p), p.id) == p,
{
    let ps2 = ps.update(i, p);
    assert forall|a: int| 0 <= a < ps.len() implies ps2[a].id == ps[a].id by {}
    assert forall|id: ProposalId| #[trigger] has_proposal(ps2, id) implies has_proposal(ps, id) by {
        let k = choose|k: int| 0 <= k < ps2.len() && ps2[k].id == id;
        assert(ps[k].id == id);
    }
    assert forall|id: ProposalId| #[trigger] has_proposal(ps, id) implies has_proposal(ps2, id) by {
        let k = choose|k: int| 0 <= k < ps.len() && ps[k].id == id;
        assert(ps2[k].id == id);
    }
    assert forall|id: ProposalId| has_proposal(ps, id) implies #[trigger] prop_idx(ps2, id)
        == prop_idx(ps, id) by {
        let k = prop_idx(ps, id);
        assert(0 <= k < ps.len() && ps[k].id == id);
        lemma_prop_idx_is(ps2, id, k);
    }
    lemma_prop_idx_is(ps2, p.id, i);
}

/// Appending a proposal with a fresh, largest id moves no lookup.
pub proof fn lemma_prop_lookup_push(ps: Seq<ProposalV>, p: ProposalV)
    requires
        ids_sorted(ps),
        forall|i: int| 0 <= i < ps.len() ==> (#[trigger] ps[i]).id < p.id,
    ensures
        ids_sorted(ps.push(p)),
        forall|id: ProposalId|
            id != p.id ==> (#[trigger] has_proposal(ps.push(p), id) <==> has_proposal(ps, id)),
        forall|id: ProposalId|
            has_proposal(ps, id) && id != p.id ==> #[trigger] prop_idx(ps.push(p), id) == prop_idx(
                ps,
                id,
            ) && proposal_of(ps.push(p), id) == proposal_of(ps, id),
        has_proposal(ps.push(p), p.id),
        prop_idx(ps.push(p), p.id) == ps.len(),
        proposal_of(ps.push(p), p.id) == p,
{
    let ps2 = ps.push(p);
    assert(ps2[ps.len() as int] == p);
    assert forall|id: ProposalId| id != p.id && #[trigger] has_proposal(ps2, id) implies
        has_proposal(ps, id) by {
        let k = choose|k: int| 0 <= k < ps2.len() && ps2[k].id == id;
        assert(k < ps.len());
        assert(ps[k].id == id);
    }
    assert forall|id: ProposalId| id != p.id && #[trigger] has_proposal(ps, id) implies
        has_proposal(ps2, id) by {
        let k = choose|k: int| 0 <= k < ps.len() && ps[k].id == id;
        assert(ps2[k].id == id);
    }
    assert forall|id: ProposalId| has_proposal(ps, id) && id != p.id implies #[trigger] prop_idx(
        ps2,
        id,
    ) == prop_idx(ps, id) && proposal_of(ps2, id) == proposal_of(ps, id) by {
        let k = prop_idx(ps, id);
        assert(0 <= k < ps.len() && ps[k].id == id);
        lemma_prop_idx_is(ps2, id, k);
    }
    lemma_prop_idx_is(ps2, p.id, ps.len() as int);
}

/// Removing a proposal leaves every other lookup in place.
pub proof fn lemma_prop_lookup_remove(ps: Seq<ProposalV>, i: int)
    requires
        ids_sorted(ps),
        0 <= i < ps.len(),
    ensures
        ids_sorted(ps.remove(i)),
        !has_proposal(ps.remove(i), ps[i].id),
        forall|id: ProposalId|
            id != ps[i].id ==> (#[trigger] has_proposal(ps.remove(i), id) <==> has_proposal(
                ps,
                id,
            )),
        forall|id: ProposalId|
            has_proposal(ps, id) && id != ps[i].id ==> #[trigger] proposal_of(ps.remove(i), id)
                == proposal_of(ps, id),
{
    let ps2 = ps.remove(i);
    assert forall|a: int| 0 <= a < ps2.len() implies ps2[a] == (if a < i {
        ps[a]
    } else {
        ps[a + 1]
    }) by {}
    assert forall|a: int, b: int| 0 <= a < b < ps2.len() implies ps2[a].id < ps2[b].id by {}
    if has_proposal(ps2, ps[i].id) {
        let k = choose|k: int| 0 <= k < ps2.len() && ps2[k].id == ps[i].id;
        if k < i {
            assert(ps[k].id < ps[i].id);
        } else {
            assert(ps[i].id < ps[k + 1].id);
        }
    }
    assert forall|id: ProposalId| id != ps[i].id && #[trigger] has_proposal(ps2, id) implies
        has_proposal(ps, id) by {
        let k = choose|k: int| 0 <= k < ps2.len() && ps2[k].id == id;
        if k < i {
            assert(ps[k].id == id);
        } else {
            assert(ps[k + 1].id == id);
        }
    }
    assert forall|id: ProposalId| id != ps[i].id && #[trigger] has_proposal(ps, id) implies
        has_proposal(ps2, id) by {
        let k = choose|k: int| 0 <= k < ps.len() && ps[k].id == id;
        if k < i {
            assert(ps2[k].id == id);
        } else {
            assert(k != i);
            assert(ps2[k - 1].id == id);
        }
    }
    assert forall|id: ProposalId| has_proposal(ps, id) && id != ps[i].id implies
        #[trigger] proposal_of(ps2, id) == proposal_of(ps, id) by {
        let k = prop_idx(ps, id);
        assert(0 <= k < ps.len() && ps[k].id == id);
        if k < i {
            lemma_prop_idx_is(ps2, id, k);
        } else {
            assert(k != i);
            assert(ps2[k - 1].id == id);
            lemma_prop_idx_is(ps2, id, k - 1);
        }
    }
}

/// Whether `who` is one of `accounts`.
pub fn contains_account(accounts: &Vec<AccountId>, who: AccountId) -> (r: bool)
    ensures
        r <==> accounts@.contains(who),
{
    let mut i: usize = 0;
    while i < accounts.len()
        invariant
            i <= accounts@.len(),
            forall|k: int| 0 <= k < i ==> accounts@[k] != who,
        decreases accounts@.len() - i,
    {
        if accounts[i] == who {
            return true;
        }
        i += 1;
    }
    false
}

impl Module {
    /// The store invariant, as a predicate on the module.
    pub open spec fn wf(&self) -> bool {
        inv(self@)
    }

    /// A fresh store: no proposals, no tokens, no stakes, an empty economy,
    /// the given council and treasury account.
    pub fn new(council: Vec<AccountId>, treasury: AccountId) -> (r: Module)
        ensures
            r.wf(),
            r@.proposals == Seq::<ProposalV>::empty(),
            r@.voting_proposal == None::<ProposalId>,
            r@.tokens == Seq::<TokenInfoV>::empty(),
            r@.reviewers == Seq::<IdMembersV>::empty(),
            r@.voters == Seq::<IdMembersV>::empty(),
            r@.staking == Seq::<StakeLedgerV>::empty(),
            r@.id_generator == 0,
            r@.balances.accounts == Seq::<AccountBalance>::empty(),
            r@.balances.total_issuance == 0,
            r@.council == council@,
            r@.treasury == treasury,
    {
        let r = Module {
            proposals: Vec::new(),
            voting_proposal: None,
            tokens: Vec::new(),
            reviewers: Vec::new(),
            voters: Vec::new(),
            staking: Vec::new(),
            id_generator: 0,
            balances: Balances::new(),
            council,
            treasury,
        };
        proof {
            assert(r@.proposals =~= Seq::<ProposalV>::empty());
            assert(r@.tokens =~= Seq::<TokenInfoV>::empty());
            assert(r@.reviewers =~= Seq::<IdMembersV>::empty());
            assert(r@.voters =~= Seq::<IdMembersV>::empty());
            assert(r@.staking =~= Seq::<StakeLedgerV>::empty());
        }
        r
    }

    /// Index of the proposal with this id, if any.
    pub(crate) fn find_proposal(&self, id: ProposalId) -> (r: Option<usize>)
        ensures
            match r {
                Some(i) => i < self@.proposals.len() && self@.proposals[i as int].id == id
                    && has_proposal(self@.proposals, id),
                None => !has_proposal(self@.proposals, id),
            },
    {
        let mut i: usize = 0;
        while i < self.proposals.len()
            invariant
                i <= self@.proposals.len(),
                self@.proposals.len() == self.proposals@.len(),
                forall|k: int| 0 <= k < i ==> self@.proposals[k].id != id,
            decreases self@.proposals.len() - i,
        {
            if self.proposals[i].id == id {
                assert(self@.proposals[i as int].id == id);
                return Some(i);
            }
            i += 1;
        }
        None
    }

    /// Index of the token with this name, if any.
    pub(crate) fn find_token(&self, name: &Vec<u8>) -> (r: Option<usize>)
        ensures
            match r {
                Some(i) => i < self@.tokens.len() && self@.tokens[i as int].token_name == name@
                    && has_token(self@.tokens, name@),
                None => !has_token(self@.tokens, name@),
            },
    {
        let mut i: usize = 0;
        while i < self.tokens.len()
            invariant
                i <= self@.tokens.len(),
                self@.tokens.len() == self.tokens@.len(),
                forall|k: int| 0 <= k < i ==> self@.tokens[k].token_name != name@,
            decreases self@.tokens.len() - i,
        {
            if crate::types::bytes_eq(&self.tokens[i].token_name, name) {
                assert(self@.tokens[i as int].token_name == name@);
                return Some(i);
            }
            i += 1;
        }
        None
    }

    /// Draw the next proposal id: returns the counter and steps it.
    /// Ids are handed out in order and never reused.
    pub fn generate_id(&mut self) -> (id: ProposalId)
        requires
            old(self).wf(),
            old(self)@.id_generator < u32::MAX,
        ensures
            final(self).wf(),
            id == old(self)@.id_generator,
            final(self)@ == (StoreV { id_generator: (old(self)@.id_generator + 1) as u32, ..old(self)@ }),
    {
        let id = self.id_generator;
        self.id_generator = self.id_generator + 1;
        id
    }

    /// Credit `who` with newly issued currency, creating the account if need
    /// be; part of the genesis and test plumbing around the module.
    pub fn endow(&mut self, who: AccountId, amount: Balance) -> (r: Result<(), IboError>)
        requires
            old(self).wf(),
        ensures
            final(self).wf(),
            match r {
                Ok(()) => final(self)@ == (StoreV {
                    balances: final(self)@.balances,
                    ..old(self)@
                }) && final(self)@.balances.total_issuance == old(self)@.balances.total_issuance
                    + amount && free_of(final(self)@.balances.accounts, who) == free_of(
                    old(self)@.balances.accounts,
                    who,
                ) + amount && reserved_of(final(self)@.balances.accounts, who) == reserved_of(
                    old(self)@.balances.accounts,
                    who,
                ) && (forall|a: AccountId|
                    a != who ==> free_of(final(self)@.balances.accounts, a) == free_of(
                        old(self)@.balances.accounts,
                        a,
                    ) && reserved_of(final(self)@.balances.accounts, a) == reserved_of(
                        old(self)@.balances.accounts,
                        a,
                    )),
                Err(e) => final(self)@ == old(self)@ && e == IboError::InsufficientIssuance,
            },
    {
        let ghost pre = self@;
        let r = self.balances.endow(who, amount);
        proof {
            if r is Ok {
                let oldacc = pre.balances.accounts;
                let newacc = self@.balances.accounts;
                if has_acct(oldacc, who) {
                    crate::balances::lemma_put_balance_props(
                        oldacc,
                        who,
                        (free_of(oldacc, who) + amount) as u64,
                        oldacc[crate::balances::acct_idx(oldacc, who)].reserved,
                    );
                } else {
                    crate::balances::lemma_push_balance_props(
                        oldacc,
                        AccountBalance { account: who, free: amount, reserved: 0 },
                    );
                }
                assert(reserved_of(newacc, who) == reserved_of(oldacc, who));
                assert forall|a: AccountId| #[trigger] reserved_of(newacc, a) == reserved_of(
                    oldacc,
                    a,
                ) by {
                    if a != who {
                    }
                }
                assert forall|i: int|
                    0 <= i < newacc.len() && (#[trigger] newacc[i]).reserved > 0 implies has_ledger(
                    self@.staking,
                    newacc[i].account,
                ) by {
                    if has_acct(oldacc, who) {
                        assert(newacc[i].account == oldacc[i].account);
                        if oldacc[i].account != who {
                            assert(newacc[i] == oldacc[i]);
                        } else {
                            crate::balances::lemma_acct_idx_is(oldacc, who, i);
                            assert(newacc[i].reserved == oldacc[i].reserved);
                        }
                    } else {
                        if i < oldacc.len() {
                            assert(newacc[i] == oldacc[i]);
                        } else {
                            assert(newacc[i].reserved == 0);
                        }
                    }
                }
                assert(self@ =~= StoreV { balances: self@.balances, ..pre });
            }
        }
        r
    }

    /// A copy of the proposal with this id, if any.
    pub fn proposal(&self, id: ProposalId) -> (r: Option<Proposal>)
        requires
            self.wf(),
        ensures
            match r {
                Some(p) => has_proposal(self@.proposals, id) && p@ == proposal_of(
                    self@.proposals,
                    id,
                ),
                None => !has_proposal(self@.proposals, id),
            },
    {
        match self.find_proposal(id) {
            Some(i) => {
                proof {
                    lemma_prop_idx_is(self@.proposals, id, i as int);
                }
                Some(crate::types::clone_proposal(&self.proposals[i]))
            },
            None => None,
        }
    }

    /// A copy of the token record of this name, if any.
    pub fn token(&self, token_name: &Vec<u8>) -> (r: Option<TokenInfo>)
        requires
            self.wf(),
        ensures
            match r {
                Some(t) => has_token(self@.tokens, token_name@) && t@ == self@.tokens[token_idx(
                    self@.tokens,
                    token_name@,
                )],
                None => !has_token(self@.tokens, token_name@),
            },
    {
        match self.find_token(token_name) {
            Some(i) => {
                proof {
                    lemma_token_idx_is(self@.tokens, token_name@, i as int);
                }
                Some(clone_token_info(&self.tokens[i]))
            },
            None => None,
        }
    }

    /// The id of the proposal currently in its public vote, if one is.
    pub fn voting_proposals(&self) -> (r: Option<ProposalId>)
        ensures
            r == self@.voting_proposal,
    {
        self.voting_proposal
    }

    /// The council members who reviewed this proposal, in ballot order.
    pub fn reviewers(&self, id: ProposalId) -> (r: Vec<AccountId>)
        requires
            self.wf(),
        ensures
            r@ == members_of(self@.reviewers, id),
    {
        match crate::voting::find_entry_index(&self.reviewers, id) {
            Some(k) => {
                proof {
                    lemma_entry_idx_is(self@.reviewers, id, k as int);
                }
                crate::types::clone_accounts(&self.reviewers[k].members)
            },
            None => {
                proof {
                    assert(members_of(self@.reviewers, id) =~= Seq::<AccountId>::empty());
                }
                Vec::new()
            },
        }
    }

    /// The accounts that voted on this proposal, in ballot order.
    pub fn voters(&self, id: ProposalId) -> (r: Vec<AccountId>)
        requires
            self.wf(),
        ensures
            r@ == members_of(self@.voters, id),
    {
        match crate::voting::find_entry_index(&self.voters, id) {
            Some(k) => {
                proof {
                    lemma_entry_idx_is(self@.voters, id, k as int);
                }
                crate::types::clone_accounts(&self.voters[k].members)
            },
            None => {
                proof {
                    assert(members_of(self@.voters, id) =~= Seq::<AccountId>::empty());
                }
                Vec::new()
            },
        }
    }

    /// This account's stake records, in append order.
    pub fn staking(&self, who: AccountId) -> (r: Vec<StakingInfo>)
        requires
            self.wf(),
        ensures
            r@ == stakes_of(self@.staking, who),
    {
        match crate::voting::find_ledger_index(&self.staking, who) {
            Some(k) => {
                proof {
                    lemma_ledger_idx_is(self@.staking, who, k as int);
                }
                crate::types::clone_stakes(&self.staking[k].stakes)
            },
            None => {
                proof {
                    assert(stakes_of(self@.staking, who) =~= Seq::<StakingInfo>::empty());
                }
                Vec::new()
            },
        }
    }

    /// The next proposal id to be issued.
    pub fn id_generator(&self) -> (r: ProposalId)
        ensures
            r == self@.id_generator,
    {
        self.id_generator
    }

    /// The total issuance.
    pub fn total_issuance(&self) -> (r: Balance)
        ensures
            r == self@.balances.total_issuance,
    {
        self.balances.total_issuance()
    }

    /// `who`'s free balance.
    pub fn free_balance(&self, who: AccountId) -> (r: Balance)
        requires
            self.wf(),
        ensures
            r == free_of(self@.balances.accounts, who),
    {
        self.balances.free_balance(who)
    }

    /// `who`'s reserved balance.
    pub fn reserved_balance(&self, who: AccountId) -> (r: Balance)
        requires
            self.wf(),
        ensures
            r == reserved_of(self@.balances.accounts, who),
    {
        self.balances.reserved_balance(who)
    }

    /// Whether `who` satisfies the council-membership predicate.
    pub fn is_council_member(&self, who: AccountId) -> (r: bool)
        ensures
            r <==> self@.council.contains(who),
    {
        contains_account(&self.council, who)
    }

    /// The treasury account the residue of reward pools is sent to.
    pub fn treasury_account(&self) -> (r: AccountId)
        ensures
            r == self@.treasury,
    {
        self.treasury
    }
}

} // verus!
