//! Proposal mutation: the create, update and delete dispatches for the four
//! proposal kinds.

use vstd::prelude::*;

use crate::constants::{MAX_SUPPLY, TOTAL_REWARDS};
use crate::ibo::{
    has_proposal, has_token, inv, lemma_prop_lookup_push, lemma_prop_lookup_remove,
    lemma_prop_lookup_update, lemma_seq_views_push, lemma_seq_views_remove,
    lemma_seq_views_update, proposal_of, prop_idx, Module, StoreV,
};
use crate::rewards::{lemma_unclaimed_total_no_match, lemma_unclaimed_total_nonneg,
    unclaimed_total};
use crate::types::{
    clone_proposal, AccountId, Balance, IboError, MarketType, Proposal, ProposalEvent, ProposalId,
    ProposalState, ProposalType, ProposalV, TokenInfo, TokenInfoV, CREATE, DELETE, UPDATE,
};

verus! {

/// The record a List create or update builds: a fresh Pending proposal with
/// empty tallies and a full reward pool, its token not yet on any market.
pub open spec fn list_record(
    id: ProposalId,
    proposer: AccountId,
    official_website_url: Seq<u8>,
    token_icon_url: Seq<u8>,
    token_name: Seq<u8>,
    token_symbol: Seq<u8>,
    max_supply: Balance,
    circulating_supply: Balance,
    target_market: MarketType,
    now: u64,
) -> ProposalV {
    ProposalV {
        id,
        proposer,
        proposal_type: ProposalType::List,
        official_website_url,
        token_icon_url,
        token_name,
        token_symbol,
        max_supply,
        circulating_supply,
        current_market: MarketType::Off,
        target_market,
        state: ProposalState::Pending,
        review_goals: (0u64, 0u64),
        vote_goals: (0u128, 0u128),
        rewards_remainder: TOTAL_REWARDS,
        timestamp: now,
    }
}

/// The record a Delist, Rise or Fall create builds: a fresh Pending proposal
/// whose token descriptor is copied from the registered token.
pub open spec fn record_from_token(
    id: ProposalId,
    proposer: AccountId,
    proposal_type: ProposalType,
    target_market: MarketType,
    rewards_remainder: Balance,
    now: u64,
    t: TokenInfoV,
) -> ProposalV {
    ProposalV {
        id,
        proposer,
        proposal_type,
        official_website_url: t.official_website_url,
        token_icon_url: t.token_icon_url,
        token_name: t.token_name,
        token_symbol: t.token_symbol,
        max_supply: t.max_supply,
        circulating_supply: t.circulating_supply,
        current_market: t.current_market,
        target_market,
        state: ProposalState::Pending,
        review_goals: (0u64, 0u64),
        vote_goals: (0u128, 0u128),
        rewards_remainder,
        timestamp: now,
    }
}

/// The store after a create: the record appended, one id consumed.
pub open spec fn create_model(s: StoreV, p: ProposalV) -> StoreV {
    StoreV {
        proposals: s.proposals.push(p),
        id_generator: (s.id_generator + 1) as u32,
        ..s
    }
}

/// The store after an update: the record with `p`'s id replaced by `p`.
pub open spec fn replace_model(s: StoreV, p: ProposalV) -> StoreV {
    StoreV { proposals: s.proposals.update(prop_idx(s.proposals, p.id), p), ..s }
}

/// The store after a delete: the record with this id removed.
pub open spec fn remove_model(s: StoreV, id: ProposalId) -> StoreV {
    StoreV { proposals: s.proposals.remove(prop_idx(s.proposals, id)), ..s }
}

/// Shape of every freshly built proposal record: Pending, no votes yet, and
/// the reward pool the kind calls for.
pub open spec fn fresh_record_ok(p: ProposalV) -> bool {
    &&& p.state == ProposalState::Pending
    &&& p.vote_goals == (0u128, 0u128)
    &&& p.rewards_remainder == (if p.proposal_type == ProposalType::List || p.proposal_type
        == ProposalType::Delist {
        TOTAL_REWARDS
    } else {
        0
    })
}

/// Which error a List create meets, if any: the issuance check comes first,
/// then the token-name check.
pub open spec fn create_list_err(s: StoreV, token_name: Seq<u8>) -> Option<IboError> {
    if MAX_SUPPLY - s.balances.total_issuance < TOTAL_REWARDS {
        Some(IboError::InsufficientIssuance)
    } else if has_token(s.tokens, token_name) {
        Some(IboError::TokenExists)
    } else {
        None
    }
}

/// Which error a Delist, Rise or Fall create meets, if any; only Delist
/// checks the issuance headroom.
pub open spec fn create_from_token_err(
    s: StoreV,
    token_name: Seq<u8>,
    check_issuance: bool,
) -> Option<IboError> {
    if check_issuance && MAX_SUPPLY - s.balances.total_issuance < TOTAL_REWARDS {
        Some(IboError::InsufficientIssuance)
    } else if !has_token(s.tokens, token_name) {
        Some(IboError::TokenNotFound)
    } else {
        None
    }
}

/// Which error an update or delete meets, if any: the proposal must exist,
/// belong to the caller, and still be Pending.
pub open spec fn modify_err(s: StoreV, id: ProposalId, proposer: AccountId) -> Option<IboError> {
    if !has_proposal(s.proposals, id) {
        Some(IboError::ProposalNotFound)
    } else if proposal_of(s.proposals, id).proposer != proposer {
        Some(IboError::NotYourProposal)
    } else if proposal_of(s.proposals, id).state != ProposalState::Pending {
        Some(IboError::ProposalCannotBeModified)
    } else {
        None
    }
}

/// Which error a List update meets, if any: the token-name check comes before
/// the proposal lookup.
pub open spec fn update_list_err(
    s: StoreV,
    id: ProposalId,
    proposer: AccountId,
    token_name: Seq<u8>,
) -> Option<IboError> {
    if has_token(s.tokens, token_name) {
        Some(IboError::TokenExists)
    } else {
        modify_err(s, id, proposer)
    }
}

/// Creating a fresh Pending record with the next id keeps the invariant.
pub proof fn lemma_create_preserves_inv(s: StoreV, p: ProposalV)
    requires
        inv(s),
        p.id == s.id_generator,
        s.id_generator < u32::MAX,
        fresh_record_ok(p),
    ensures
        inv(create_model(s, p)),
{
    let s2 = create_model(s, p);
    lemma_prop_lookup_push(s.proposals, p);
    match s.voting_proposal {
        Some(q) => {
            let k = prop_idx(s.proposals, q);
            assert(0 <= k < s.proposals.len() && s.proposals[k].id == q);
            assert(q != p.id);
            assert(proposal_of(s2.proposals, q) == proposal_of(s.proposals, q));
        },
        None => {},
    }
    assert forall|i: int| 0 <= i < s2.proposals.len() implies {
        let q = #[trigger] s2.proposals[i];
        &&& unclaimed_total(s2.staking, q.id) <= q.vote_goals.0 + q.vote_goals.1
        &&& q.rewards_remainder * (q.vote_goals.0 + q.vote_goals.1) >= TOTAL_REWARDS
            * unclaimed_total(s2.staking, q.id)
    } by {
        if i < s.proposals.len() {
            assert(s2.proposals[i] == s.proposals[i]);
        } else {
            assert(s2.proposals[i] == p);
            assert forall|k: int, j: int|
                0 <= k < s.staking.len() && 0 <= j < (#[trigger] s.staking[k]).stakes.len()
                implies (#[trigger] s.staking[k].stakes[j]).proposal_id != p.id by {}
            lemma_unclaimed_total_no_match(s.staking, p.id);
        }
    }
}

/// Replacing a Pending record by a fresh one keeps the invariant.
pub proof fn lemma_replace_preserves_inv(s: StoreV, p: ProposalV)
    requires
        inv(s),
        has_proposal(s.proposals, p.id),
        proposal_of(s.proposals, p.id).state == ProposalState::Pending,
        fresh_record_ok(p),
    ensures
        inv(replace_model(s, p)),
{
    let i = prop_idx(s.proposals, p.id);
    assert(0 <= i < s.proposals.len() && s.proposals[i].id == p.id);
    let s2 = replace_model(s, p);
    lemma_prop_lookup_update(s.proposals, i, p);
    match s.voting_proposal {
        Some(q) => {
            assert(proposal_of(s.proposals, q).state == ProposalState::Voting);
            assert(q != p.id);
            assert(proposal_of(s2.proposals, q) == proposal_of(s.proposals, q));
        },
        None => {},
    }
    assert forall|i2: int| 0 <= i2 < s2.proposals.len() implies {
        let q = #[trigger] s2.proposals[i2];
        &&& unclaimed_total(s2.staking, q.id) <= q.vote_goals.0 + q.vote_goals.1
        &&& q.rewards_remainder * (q.vote_goals.0 + q.vote_goals.1) >= TOTAL_REWARDS
            * unclaimed_total(s2.staking, q.id)
    } by {
        if i2 != i {
            assert(s2.proposals[i2] == s.proposals[i2]);
        } else {
            assert(s2.proposals[i2] == p);
            assert(s.proposals[i].vote_goals == (0u128, 0u128));
            lemma_unclaimed_total_nonneg(s.staking, p.id);
            assert(unclaimed_total(s.staking, p.id) <= 0);
        }
    }
}

/// Removing a Pending record keeps the invariant.
pub proof fn lemma_remove_preserves_inv(s: StoreV, id: ProposalId)
    requires
        inv(s),
        has_proposal(s.proposals, id),
        proposal_of(s.proposals, id).state == ProposalState::Pending,
    ensures
        inv(remove_model(s, id)),
{
    let i = prop_idx(s.proposals, id);
    assert(0 <= i < s.proposals.len() && s.proposals[i].id == id);
    let s2 = remove_model(s, id);
    lemma_prop_lookup_remove(s.proposals, i);
    match s.voting_proposal {
        Some(q) => {
            assert(proposal_of(s.proposals, q).state == ProposalState::Voting);
            assert(q != id);
            assert(proposal_of(s2.proposals, q) == proposal_of(s.proposals, q));
        },
        None => {},
    }
    assert forall|i2: int| 0 <= i2 < s2.proposals.len() implies {
        let q = #[trigger] s2.proposals[i2];
        &&& q.id < s2.id_generator
        &&& unclaimed_total(s2.staking, q.id) <= q.vote_goals.0 + q.vote_goals.1
        &&& q.rewards_remainder * (q.vote_goals.0 + q.vote_goals.1) >= TOTAL_REWARDS
            * unclaimed_total(s2.staking, q.id)
    } by {
        if i2 < i {
            assert(s2.proposals[i2] == s.proposals[i2]);
        } else {
            assert(s2.proposals[i2] == s.proposals[i2 + 1]);
        }
    }
    assert forall|i2: int|
        0 <= i2 < s2.proposals.len() && (#[trigger] s2.proposals[i2]).state
            == ProposalState::Voting implies s2.voting_proposal == Some(s2.proposals[i2].id)
        && (s2.proposals[i2].proposal_type == ProposalType::List || s2.proposals[i2].proposal_type
        == ProposalType::Delist) by {
        if i2 < i {
            assert(s2.proposals[i2] == s.proposals[i2]);
        } else {
            assert(s2.proposals[i2] == s.proposals[i2 + 1]);
        }
    }
    assert forall|i2: int|
        0 <= i2 < s2.proposals.len() && ((#[trigger] s2.proposals[i2]).state
            == ProposalState::Pending || s2.proposals[i2].state == ProposalState::Reviewing
            || s2.proposals[i2].state == ProposalState::Voting) implies {
        let q = s2.proposals[i2];
        &&& (q.state == ProposalState::Pending || q.state == ProposalState::Reviewing)
            ==> q.vote_goals == (0u128, 0u128)
        &&& q.rewards_remainder == (if q.proposal_type == ProposalType::List || q.proposal_type
            == ProposalType::Delist {
            TOTAL_REWARDS
        } else {
            0
        })
    } by {
        if i2 < i {
            assert(s2.proposals[i2] == s.proposals[i2]);
        } else {
            assert(s2.proposals[i2] == s.proposals[i2 + 1]);
        }
    }
}

impl Module {
    /// Build a Pending proposal record out of a registered token's fields.
    pub fn clone_from_token_info(
        id: ProposalId,
        proposer: AccountId,
        proposal_type: ProposalType,
        target_market: MarketType,
        rewards_remainder: Balance,
        timestamp: u64,
        token_info: TokenInfo,
    ) -> (r: Proposal)
        ensures
            r@ == record_from_token(
                id,
                proposer,
                proposal_type,
                target_market,
                rewards_remainder,
                timestamp,
                token_info@,
            ),
    {
        let r = Proposal {
            id,
            proposer,
            proposal_type,
            official_website_url: token_info.official_website_url,
            token_icon_url: token_info.token_icon_url,
            token_name: token_info.token_name,
            token_symbol: token_info.token_symbol,
            max_supply: token_info.max_supply,
            circulating_supply: token_info.circulating_supply,
            current_market: token_info.current_market,
            target_market,
            state: ProposalState::Pending,
            review_goals: (0, 0),
            vote_goals: (0, 0),
            rewards_remainder,
            timestamp,
        };
        proof {
            assert(r@ =~= record_from_token(
                id,
                proposer,
                proposal_type,
                target_market,
                rewards_remainder,
                timestamp,
                token_info@,
            ));
        }
        r
    }

    /// Append a freshly built Pending record and emit its Create event.
    fn insert_created(&mut self, p: Proposal) -> (ev: ProposalEvent)
        requires
            old(self).wf(),
            p@.id == old(self)@.id_generator,
            old(self)@.id_generator < u32::MAX,
            fresh_record_ok(p@),
        ensures
            final(self).wf(),
            final(self)@ == create_model(old(self)@, p@),
            ev@.change_type == CREATE,
            ev@.proposal == p@,
    {
        let ghost pre = self@;
        let snapshot = clone_proposal(&p);
        let ghost pv = p@;
        let id = self.generate_id();
        self.proposals.push(p);
        proof {
            lemma_seq_views_push(old(self).proposals@, p);
            assert(self@ =~= create_model(pre, pv));
            lemma_create_preserves_inv(pre, pv);
        }
        ProposalEvent { change_type: CREATE, proposal: snapshot }
    }

    /// Ask to list a new token: a List proposal enters the store Pending.
    /// Refused when the issuance headroom cannot fund the reward pool, or a
    /// token of that name already exists.
    pub fn create_list_proposal(
        &mut self,
        proposer: AccountId,
        official_website_url: Vec<u8>,
        token_icon_url: Vec<u8>,
        token_name: Vec<u8>,
        token_symbol: Vec<u8>,
        max_supply: Balance,
        circulating_supply: Balance,
        target_market: MarketType,
        now: u64,
    ) -> (r: Result<ProposalEvent, IboError>)
        requires
            old(self).wf(),
            old(self)@.id_generator < u32::MAX,
        ensures
            final(self).wf(),
            match r {
                Ok(ev) => {
                    &&& create_list_err(old(self)@, token_name@) is None
                    &&& final(self)@ == create_model(
                        old(self)@,
                        list_record(
                            old(self)@.id_generator,
                            proposer,
                            official_website_url@,
                            token_icon_url@,
                            token_name@,
                            token_symbol@,
                            max_supply,
                            circulating_supply,
                            target_market,
                            now,
                        ),
                    )
                    &&& ev@.change_type == CREATE
                    &&& ev@.proposal == list_record(
                        old(self)@.id_generator,
                        proposer,
                        official_website_url@,
                        token_icon_url@,
                        token_name@,
                        token_symbol@,
                        max_supply,
                        circulating_supply,
                        target_market,
                        now,
                    )
                },
                Err(e) => final(self)@ == old(self)@ && create_list_err(old(self)@, token_name@)
                    == Some(e),
            },
    {
        if self.balances.total_issuance() > MAX_SUPPLY - TOTAL_REWARDS {
            return Err(IboError::InsufficientIssuance);
        }
        if self.find_token(&token_name).is_some() {
            return Err(IboError::TokenExists);
        }
        let p = Proposal {
            id: self.id_generator,
            proposer,
            proposal_type: ProposalType::List,
            official_website_url,
            token_icon_url,
            token_name,
            token_symbol,
            max_supply,
            circulating_supply,
            current_market: MarketType::Off,
            target_market,
            state: ProposalState::Pending,
            review_goals: (0, 0),
            vote_goals: (0, 0),
            rewards_remainder: TOTAL_REWARDS,
            timestamp: now,
        };
        proof {
            assert(p@ =~= list_record(
                old(self)@.id_generator,
                proposer,
                p.official_website_url@,
                p.token_icon_url@,
                p.token_name@,
                p.token_symbol@,
                max_supply,
                circulating_supply,
                target_market,
                now,
            ));
        }
        let ev = self.insert_created(p);
        Ok(ev)
    }

    /// Ask to delist a registered token: a Delist proposal enters the store
    /// Pending, its descriptor copied from the token.
    pub fn create_delist_proposal(
        &mut self,
        proposer: AccountId,
        token_name: Vec<u8>,
        now: u64,
    ) -> (r: Result<ProposalEvent, IboError>)
        requires
            old(self).wf(),
            old(self)@.id_generator < u32::MAX,
        ensures
            final(self).wf(),
            match r {
                Ok(ev) => {
                    &&& create_from_token_err(old(self)@, token_name@, true) is None
                    &&& final(self)@ == create_model(
                        old(self)@,
                        record_from_token(
                            old(self)@.id_generator,
                            proposer,
                            ProposalType::Delist,
                            MarketType::Off,
                            TOTAL_REWARDS,
                            now,
                            old(self)@.tokens[crate::ibo::token_idx(old(self)@.tokens, token_name@)],
                        ),
                    )
                    &&& ev@.change_type == CREATE
                    &&& ev@.proposal == final(self)@.proposals.last()
                },
                Err(e) => final(self)@ == old(self)@ && create_from_token_err(
                    old(self)@,
                    token_name@,
                    true,
                ) == Some(e),
            },
    {
        if self.balances.total_issuance() > MAX_SUPPLY - TOTAL_REWARDS {
            return Err(IboError::InsufficientIssuance);
        }
        let ti = match self.find_token(&token_name) {
            Some(i) => {
                proof {
                    crate::ibo::lemma_token_idx_is(self@.tokens, token_name@, i as int);
                }
                crate::types::clone_token_info(&self.tokens[i])
            },
            None => {
                return Err(IboError::TokenNotFound);
            },
        };
        let p = Module::clone_from_token_info(
            self.id_generator,
            proposer,
            ProposalType::Delist,
            MarketType::Off,
            TOTAL_REWARDS,
            now,
            ti,
        );
        let ev = self.insert_created(p);
        Ok(ev)
    }

    /// Ask to promote a token Growth to Main: a Rise proposal enters the
    /// store Pending; its verdict falls at review, with no public vote.
    pub fn create_rise_proposal(
        &mut self,
        proposer: AccountId,
        token_name: Vec<u8>,
        now: u64,
    ) -> (r: Result<ProposalEvent, IboError>)
        requires
            old(self).wf(),
            old(self)@.id_generator < u32::MAX,
        ensures
            final(self).wf(),
            match r {
                Ok(ev) => {
                    &&& create_from_token_err(old(self)@, token_name@, false) is None
                    &&& final(self)@ == create_model(
                        old(self)@,
                        record_from_token(
                            old(self)@.id_generator,
                            proposer,
                            ProposalType::Rise,
                            MarketType::Main,
                            0,
                            now,
                            old(self)@.tokens[crate::ibo::token_idx(old(self)@.tokens, token_name@)],
                        ),
                    )
                    &&& ev@.change_type == CREATE
                    &&& ev@.proposal == final(self)@.proposals.last()
                },
                Err(e) => final(self)@ == old(self)@ && create_from_token_err(
                    old(self)@,
                    token_name@,
                    false,
                ) == Some(e),
            },
    {
        let ti = match self.find_token(&token_name) {
            Some(i) => {
                proof {
                    crate::ibo::lemma_token_idx_is(self@.tokens, token_name@, i as int);
                }
                crate::types::clone_token_info(&self.tokens[i])
            },
            None => {
                return Err(IboError::TokenNotFound);
            },
        };
        let p = Module::clone_from_token_info(
            self.id_generator,
            proposer,
            ProposalType::Rise,
            MarketType::Main,
            0,
            now,
            ti,
        );
        let ev = self.insert_created(p);
        Ok(ev)
    }

    /// Ask to demote a token Main to Growth: a Fall proposal enters the
    /// store Pending; its verdict falls at review, with no public vote.
    pub fn create_fall_proposal(
        &mut self,
        proposer: AccountId,
        token_name: Vec<u8>,
        now: u64,
    ) -> (r: Result<ProposalEvent, IboError>)
        requires
            old(self).wf(),
            old(self)@.id_generator < u32::MAX,
        ensures
            final(self).wf(),
            match r {
                Ok(ev) => {
                    &&& create_from_token_err(old(self)@, token_name@, false) is None
                    &&& final(self)@ == create_model(
                        old(self)@,
                        record_from_token(
                            old(self)@.id_generator,
                            proposer,
                            ProposalType::Fall,
                            MarketType::Growth,
                            0,
                            now,
                            old(self)@.tokens[crate::ibo::token_idx(old(self)@.tokens, token_name@)],
                        ),
                    )
                    &&& ev@.change_type == CREATE
                    &&& ev@.proposal == final(self)@.proposals.last()
                },
                Err(e) => final(self)@ == old(self)@ && create_from_token_err(
                    old(self)@,
                    token_name@,
                    false,
                ) == Some(e),
            },
    {
        let ti = match self.find_token(&token_name) {
            Some(i) => {
                proof {
                    crate::ibo::lemma_token_idx_is(self@.tokens, token_name@, i as int);
                }
                crate::types::clone_token_info(&self.tokens[i])
            },
            None => {
                return Err(IboError::TokenNotFound);
            },
        };
        let p = Module::clone_from_token_info(
            self.id_generator,
            proposer,
            ProposalType::Fall,
            MarketType::Growth,
            0,
            now,
            ti,
        );
        let ev = self.insert_created(p);
        Ok(ev)
    }

    /// Replace a Pending proposal of the caller's by a fresh record.
    pub(crate) fn update_proposal(
        &mut self,
        id: ProposalId,
        proposer: AccountId,
        new_proposal: Proposal,
    ) -> (r: Result<ProposalEvent, IboError>)
        requires
            old(self).wf(),
            new_proposal@.id == id,
            fresh_record_ok(new_proposal@),
        ensures
            final(self).wf(),
            match r {
                Ok(ev) => {
                    &&& modify_err(old(self)@, id, proposer) is None
                    &&& final(self)@ == replace_model(old(self)@, new_proposal@)
                    &&& ev@.change_type == UPDATE
                    &&& ev@.proposal == new_proposal@
                },
                Err(e) => final(self)@ == old(self)@ && modify_err(old(self)@, id, proposer)
                    == Some(e),
            },
    {
        let ghost pre = self@;
        let i = match self.find_proposal(id) {
            Some(i) => i,
            None => {
                return Err(IboError::ProposalNotFound);
            },
        };
        proof {
            crate::ibo::lemma_prop_idx_is(self@.proposals, id, i as int);
        }
        if self.proposals[i].proposer != proposer {
            return Err(IboError::NotYourProposal);
        }
        if !matches!(self.proposals[i].state, ProposalState::Pending) {
            return Err(IboError::ProposalCannotBeModified);
        }
        let snapshot = clone_proposal(&new_proposal);
        let ghost pv = new_proposal@;
        self.proposals[i] = new_proposal;
        proof {
            lemma_seq_views_update(old(self).proposals@, i as int, new_proposal);
            assert(self@ =~= replace_model(pre, pv));
            lemma_replace_preserves_inv(pre, pv);
        }
        Ok(ProposalEvent { change_type: UPDATE, proposal: snapshot })
    }

    /// Delete a Pending proposal of the caller's; the deleted record rides
    /// out in the event.
    pub(crate) fn remove_proposal(&mut self, id: ProposalId, proposer: AccountId) -> (r: Result<
        ProposalEvent,
        IboError,
    >)
        requires
            old(self).wf(),
        ensures
            final(self).wf(),
            match r {
                Ok(ev) => {
                    &&& modify_err(old(self)@, id, proposer) is None
                    &&& final(self)@ == remove_model(old(self)@, id)
                    &&& ev@.change_type == DELETE
                    &&& ev@.proposal == proposal_of(old(self)@.proposals, id)
                },
                Err(e) => final(self)@ == old(self)@ && modify_err(old(self)@, id, proposer)
                    == Some(e),
            },
    {
        let ghost pre = self@;
        let i = match self.find_proposal(id) {
            Some(i) => i,
            None => {
                return Err(IboError::ProposalNotFound);
            },
        };
        proof {
            crate::ibo::lemma_prop_idx_is(self@.proposals, id, i as int);
        }
        if self.proposals[i].proposer != proposer {
            return Err(IboError::NotYourProposal);
        }
        if !matches!(self.proposals[i].state, ProposalState::Pending) {
            return Err(IboError::ProposalCannotBeModified);
        }
        let removed = self.proposals.remove(i);
        proof {
            lemma_seq_views_remove(old(self).proposals@, i as int);
            assert(self@ =~= remove_model(pre, id));
            lemma_remove_preserves_inv(pre, id);
        }
        Ok(ProposalEvent { change_type: DELETE, proposal: removed })
    }

    /// Update a Pending List proposal of the caller's with new token fields.
    /// Refused when any token of the new name is already registered.
    pub fn update_list_proposal(
        &mut self,
        proposer: AccountId,
        id: ProposalId,
        official_website_url: Vec<u8>,
        token_icon_url: Vec<u8>,
        token_name: Vec<u8>,
        token_symbol: Vec<u8>,
        max_supply: Balance,
        circulating_supply: Balance,
        target_market: MarketType,
        now: u64,
    ) -> (r: Result<ProposalEvent, IboError>)
        requires
            old(self).wf(),
        ensures
            final(self).wf(),
            match r {
                Ok(ev) => {
                    &&& update_list_err(old(self)@, id, proposer, token_name@) is None
                    &&& final(self)@ == replace_model(
                        old(self)@,
                        list_record(
                            id,
                            proposer,
                            official_website_url@,
                            token_icon_url@,
                            token_name@,
                            token_symbol@,
                            max_supply,
                            circulating_supply,
                            target_market,
                            now,
                        ),
                    )
                    &&& ev@.change_type == UPDATE
                },
                Err(e) => final(self)@ == old(self)@ && update_list_err(
                    old(self)@,
                    id,
                    proposer,
                    token_name@,
                ) == Some(e),
            },
    {
        if self.find_token(&token_name).is_some() {
            return Err(IboError::TokenExists);
        }
        let p = Proposal {
            id,
            proposer,
            proposal_type: ProposalType::List,
            official_website_url,
            token_icon_url,
            token_name,
            token_symbol,
            max_supply,
            circulating_supply,
            current_market: MarketType::Off,
            target_market,
            state: ProposalState::Pending,
            review_goals: (0, 0),
            vote_goals: (0, 0),
            rewards_remainder: TOTAL_REWARDS,
            timestamp: now,
        };
        proof {
            assert(p@ =~= list_record(
                id,
                proposer,
                p.official_website_url@,
                p.token_icon_url@,
                p.token_name@,
                p.token_symbol@,
                max_supply,
                circulating_supply,
                target_market,
                now,
            ));
        }
        self.update_proposal(id, proposer, p)
    }

    /// Delete a Pending List proposal of the caller's.
    pub fn delete_list_proposal(&mut self, proposer: AccountId, id: ProposalId) -> (r: Result<
        ProposalEvent,
        IboError,
    >)
        requires
            old(self).wf(),
        ensures
            final(self).wf(),
            match r {
                Ok(ev) => modify_err(old(self)@, id, proposer) is None && final(self)@
                    == remove_model(old(self)@, id) && ev@.change_type == DELETE && ev@.proposal
                    == proposal_of(old(self)@.proposals, id),
                Err(e) => final(self)@ == old(self)@ && modify_err(old(self)@, id, proposer)
                    == Some(e),
            },
    {
        self.remove_proposal(id, proposer)
    }

    /// Delete a Pending Delist proposal of the caller's.
    pub fn delete_delist_proposal(&mut self, proposer: AccountId, id: ProposalId) -> (r: Result<
        ProposalEvent,
        IboError,
    >)
        requires
            old(self).wf(),
        ensures
            final(self).wf(),
            match r {
                Ok(ev) => modify_err(old(self)@, id, proposer) is None && final(self)@
                    == remove_model(old(self)@, id) && ev@.change_type == DELETE && ev@.proposal
                    == proposal_of(old(self)@.proposals, id),
                Err(e) => final(self)@ == old(self)@ && modify_err(old(self)@, id, proposer)
                    == Some(e),
            },
    {
        self.remove_proposal(id, proposer)
    }

    /// Delete a Pending Rise proposal of the caller's.
    pub fn delete_rise_proposal(&mut self, proposer: AccountId, id: ProposalId) -> (r: Result<
        ProposalEvent,
        IboError,
    >)
        requires
            old(self).wf(),
        ensures
            final(self).wf(),
            match r {
                Ok(ev) => modify_err(old(self)@, id, proposer) is None && final(self)@
                    == remove_model(old(self)@, id) && ev@.change_type == DELETE && ev@.proposal
                    == proposal_of(old(self)@.proposals, id),
                Err(e) => final(self)@ == old(self)@ && modify_err(old(self)@, id, proposer)
                    == Some(e),
            },
    {
        self.remove_proposal(id, proposer)
    }

    /// Delete a Pending Fall proposal of the caller's.
    pub fn delete_fall_proposal(&mut self, proposer: AccountId, id: ProposalId) -> (r: Result<
        ProposalEvent,
        IboError,
    >)
        requires
            old(self).wf(),
        ensures
            final(self).wf(),
            match r {
                Ok(ev) => modify_err(old(self)@, id, proposer) is None && final(self)@
                    == remove_model(old(self)@, id) && ev@.change_type == DELETE && ev@.proposal
                    == proposal_of(old(self)@.proposals, id),
                Err(e) => final(self)@ == old(self)@ && modify_err(old(self)@, id, proposer)
                    == Some(e),
            },
    {
        self.remove_proposal(id, proposer)
    }
}

} // verus!
