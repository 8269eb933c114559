//! The end-of-block scheduler: on every finalized block it walks all
//! proposals in id order and drives every time-based transition.

use vstd::prelude::*;

use crate::balances::{
    free_of, has_acct, put_balance, reserved_of, Balances, BalancesV,
};
use crate::constants::{
    ALLOW_MODIFY_DURATION, RECEIVE_REWARDS_DURATION, REVIEW_DURATION, TOTAL_REWARDS, VOTE_DURATION,
};
use crate::ibo::{
    has_proposal, has_token, proposal_of, prop_idx, tally_total, token_idx, Module, StoreV,
};
use crate::types::{
    AccountId, Balance, IboError, Proposal, ProposalId, ProposalState, ProposalType, ProposalV,
    TokenInfo, TokenInfoV,
};

verus! {

/// The review quorum: two thirds (with someone present) for List, Rise and
/// Fall; strict majority for Delist. A 0-0 tally always fails.
pub open spec fn review_quorum(pt: ProposalType, support: u64, oppose: u64) -> bool {
    match pt {
        ProposalType::Delist => support > oppose,
        _ => support >= 2 * oppose && support + oppose > 0,
    }
}

/// The public-vote quorum over stake weights: same rule, same tie-breaks.
pub open spec fn vote_quorum(pt: ProposalType, support: u128, oppose: u128) -> bool {
    match pt {
        ProposalType::Delist => support > oppose,
        _ => support >= 2 * oppose && support + oppose > 0,
    }
}

/// The token record an approved proposal writes: the proposal's descriptor
/// with `current_market` overwritten by the target market.
pub open spec fn token_of_proposal(p: ProposalV) -> TokenInfoV {
    TokenInfoV {
        official_website_url: p.official_website_url,
        token_icon_url: p.token_icon_url,
        token_name: p.token_name,
        token_symbol: p.token_symbol,
        max_supply: p.max_supply,
        circulating_supply: p.circulating_supply,
        current_market: p.target_market,
    }
}

/// Insert or replace the token of this name.
pub open spec fn upsert_token(ts: Seq<TokenInfoV>, t: TokenInfoV) -> Seq<TokenInfoV> {
    if has_token(ts, t.token_name) {
        ts.update(token_idx(ts, t.token_name), t)
    } else {
        ts.push(t)
    }
}

/// Drop the token of this name, if present.
pub open spec fn drop_token(ts: Seq<TokenInfoV>, name: Seq<u8>) -> Seq<TokenInfoV> {
    if has_token(ts, name) {
        ts.remove(token_idx(ts, name))
    } else {
        ts
    }
}

/// The proposal at index `i` with a new state, stamped with the block time.
pub open spec fn stepped(s: StoreV, i: int, state: ProposalState, now: u64) -> ProposalV {
    ProposalV { state, timestamp: now, ..s.proposals[i] }
}

/// One scheduler step: what the end-of-block hook does to proposal `i`.
pub open spec fn sched_step(s: StoreV, i: int, now: u64) -> StoreV {
    let p = s.proposals[i];
    match p.state {
        ProposalState::Pending => {
            if now - p.timestamp > ALLOW_MODIFY_DURATION {
                StoreV {
                    proposals: s.proposals.update(i, stepped(s, i, ProposalState::Reviewing, now)),
                    ..s
                }
            } else {
                s
            }
        },
        ProposalState::Reviewing => {
            if now - p.timestamp > REVIEW_DURATION {
                if p.proposal_type == ProposalType::Rise || p.proposal_type == ProposalType::Fall {
                    if review_quorum(p.proposal_type, p.review_goals.0, p.review_goals.1) {
                        StoreV {
                            proposals: s.proposals.update(
                                i,
                                stepped(s, i, ProposalState::Approved, now),
                            ),
                            tokens: upsert_token(s.tokens, token_of_proposal(p)),
                            ..s
                        }
                    } else {
                        StoreV {
                            proposals: s.proposals.update(
                                i,
                                stepped(s, i, ProposalState::RejectedClosed, now),
                            ),
                            ..s
                        }
                    }
                } else if s.voting_proposal is Some {
                    s
                } else if review_quorum(p.proposal_type, p.review_goals.0, p.review_goals.1) {
                    StoreV {
                        proposals: s.proposals.update(i, stepped(s, i, ProposalState::Voting, now)),
                        voting_proposal: Some(p.id),
                        ..s
                    }
                } else {
                    StoreV {
                        proposals: s.proposals.update(
                            i,
                            stepped(s, i, ProposalState::RejectedClosed, now),
                        ),
                        ..s
                    }
                }
            } else {
                s
            }
        },
        ProposalState::Voting => {
            if now - p.timestamp > VOTE_DURATION {
                if p.proposal_type == ProposalType::List {
                    if vote_quorum(p.proposal_type, p.vote_goals.0, p.vote_goals.1) {
                        StoreV {
                            proposals: s.proposals.update(
                                i,
                                stepped(s, i, ProposalState::Approved, now),
                            ),
                            tokens: upsert_token(s.tokens, token_of_proposal(p)),
                            voting_proposal: None,
                            ..s
                        }
                    } else {
                        StoreV {
                            proposals: s.proposals.update(
                                i,
                                stepped(s, i, ProposalState::Rejected, now),
                            ),
                            voting_proposal: None,
                            ..s
                        }
                    }
                } else if p.proposal_type == ProposalType::Delist {
                    if vote_quorum(p.proposal_type, p.vote_goals.0, p.vote_goals.1) {
                        StoreV {
                            proposals: s.proposals.update(
                                i,
                                stepped(s, i, ProposalState::Approved, now),
                            ),
                            tokens: drop_token(s.tokens, p.token_name),
                            voting_proposal: None,
                            ..s
                        }
                    } else {
                        StoreV {
                            proposals: s.proposals.update(
                                i,
                                stepped(s, i, ProposalState::Rejected, now),
                            ),
                            voting_proposal: None,
                            ..s
                        }
                    }
                } else {
                    StoreV {
                        proposals: s.proposals.update(i, stepped(s, i, p.state, now)),
                        voting_proposal: None,
                        ..s
                    }
                }
            } else {
                s
            }
        },
        ProposalState::Approved | ProposalState::Rejected => {
            if now - p.timestamp > RECEIVE_REWARDS_DURATION {
                if Balances::deposit_would_succeed(s.balances, s.treasury, p.rewards_remainder) {
                    let closed = if p.state == ProposalState::Approved {
                        ProposalState::ApprovedClosed
                    } else {
                        ProposalState::RejectedClosed
                    };
                    StoreV {
                        proposals: s.proposals.update(i, stepped(s, i, closed, now)),
                        balances: BalancesV {
                            accounts: put_balance(
                                s.balances.accounts,
                                s.treasury,
                                (free_of(s.balances.accounts, s.treasury)
                                    + p.rewards_remainder) as u64,
                                reserved_of(s.balances.accounts, s.treasury) as u64,
                            ),
                            total_issuance: (s.balances.total_issuance
                                + p.rewards_remainder) as u64,
                        },
                        ..s
                    }
                } else {
                    s
                }
            } else {
                s
            }
        },
        _ => s,
    }
}

/// The store after the scheduler has processed proposals `0 .. n`.
pub open spec fn sched_upto(s: StoreV, n: int, now: u64) -> StoreV
    decreases n,
{
    if n <= 0 {
        s
    } else {
        sched_step(sched_upto(s, n - 1, now), n - 1, now)
    }
}

/// The store after one whole end-of-block run.
pub open spec fn sched(s: StoreV, now: u64) -> StoreV {
    sched_upto(s, s.proposals.len() as int, now)
}

/// The allowed lifecycle edges, reflexively closed: a proposal either stays
/// put or moves one step forward along the transition table.
pub open spec fn lifecycle_ok(a: ProposalState, b: ProposalState) -> bool {
    ||| a == b
    ||| (a == ProposalState::Pending && b == ProposalState::Reviewing)
    ||| (a == ProposalState::Reviewing && (b == ProposalState::Voting || b
        == ProposalState::Approved || b == ProposalState::RejectedClosed))
    ||| (a == ProposalState::Voting && (b == ProposalState::Approved || b
        == ProposalState::Rejected))
    ||| (a == ProposalState::Approved && b == ProposalState::ApprovedClosed)
    ||| (a == ProposalState::Rejected && b == ProposalState::RejectedClosed)
}

/// Everything one scheduler step guarantees: the invariant is kept, only
/// proposal `i` moves and only along a lifecycle edge, no record is created
/// or destroyed, and balances can only be credited.
pub proof fn lemma_sched_step_props(s: StoreV, i: int, now: u64)
    requires
        crate::ibo::inv(s),
        0 <= i < s.proposals.len(),
    ensures
        crate::ibo::inv(sched_step(s, i, now)),
        sched_step(s, i, now).proposals.len() == s.proposals.len(),
        forall|j: int|
            0 <= j < s.proposals.len() && j != i ==> #[trigger] sched_step(s, i, now).proposals[j]
                == s.proposals[j],
        sched_step(s, i, now).proposals[i].id == s.proposals[i].id,
        sched_step(s, i, now).proposals[i].proposal_type == s.proposals[i].proposal_type,
        lifecycle_ok(s.proposals[i].state, sched_step(s, i, now).proposals[i].state),
        sched_step(s, i, now).reviewers == s.reviewers,
        sched_step(s, i, now).voters == s.voters,
        sched_step(s, i, now).staking == s.staking,
        sched_step(s, i, now).id_generator == s.id_generator,
        sched_step(s, i, now).council == s.council,
        sched_step(s, i, now).treasury == s.treasury,
        sched_step(s, i, now).balances.total_issuance >= s.balances.total_issuance,
        forall|who: AccountId|
            #[trigger] free_of(sched_step(s, i, now).balances.accounts, who) >= free_of(
                s.balances.accounts,
                who,
            ),
        forall|who: AccountId|
            #[trigger] reserved_of(sched_step(s, i, now).balances.accounts, who) == reserved_of(
                s.balances.accounts,
                who,
            ),
        forall|who: AccountId|
            #[trigger] has_acct(sched_step(s, i, now).balances.accounts, who) <==> has_acct(
                s.balances.accounts,
                who,
            ),
{
    let s2 = sched_step(s, i, now);
    let p = s.proposals[i];
    if s2 == s {
    } else {
        let p2 = s2.proposals[i];
        crate::ibo::lemma_prop_lookup_update(s.proposals, i, p2);
        assert(s2.proposals == s.proposals.update(i, p2));
        // The token registry stays well formed whatever happened to it.
        assert forall|a: int, b: int| 0 <= a < b < s2.tokens.len() implies s2.tokens[a].token_name
            != s2.tokens[b].token_name by {
            if s2.tokens == s.tokens {
            } else if s2.tokens == upsert_token(s.tokens, token_of_proposal(p)) {
                let t = token_of_proposal(p);
                if has_token(s.tokens, t.token_name) {
                    let k = token_idx(s.tokens, t.token_name);
                    assert(0 <= k < s.tokens.len() && s.tokens[k].token_name == t.token_name);
                    assert(s2.tokens[a].token_name == s.tokens[a].token_name);
                    assert(s2.tokens[b].token_name == s.tokens[b].token_name);
                } else {
                    if b < s.tokens.len() {
                    } else {
                        assert(s2.tokens[b] == t);
                        assert(s2.tokens[a] == s.tokens[a]);
                        assert(s.tokens[a].token_name != t.token_name);
                    }
                }
            } else {
                assert(s2.tokens == drop_token(s.tokens, p.token_name));
                assert(has_token(s.tokens, p.token_name));
                let k = token_idx(s.tokens, p.token_name);
                assert(0 <= k < s.tokens.len());
                assert(s2.tokens[a] == (if a < k {
                    s.tokens[a]
                } else {
                    s.tokens[a + 1]
                }));
                assert(s2.tokens[b] == (if b < k {
                    s.tokens[b]
                } else {
                    s.tokens[b + 1]
                }));
            }
        }
        // The singleton still names exactly the Voting proposals.
        match p.state {
            ProposalState::Pending => {
                assert(p2.state == ProposalState::Reviewing);
                singleton_untouched(s, s2, i, p2);
            },
            ProposalState::Reviewing => {
                if p2.state == ProposalState::Voting {
                    assert(s.voting_proposal is None);
                    assert(s2.voting_proposal == Some(p.id));
                    assert forall|j: int|
                        0 <= j < s2.proposals.len() && (#[trigger] s2.proposals[j]).state
                            == ProposalState::Voting implies s2.voting_proposal == Some(
                        s2.proposals[j].id,
                    ) by {
                        if j != i {
                            assert(s2.proposals[j] == s.proposals[j]);
                            assert(s.voting_proposal == Some(s.proposals[j].id));
                            assert(false);
                        }
                    }
                } else {
                    singleton_untouched(s, s2, i, p2);
                }
            },
            ProposalState::Voting => {
                assert(s.voting_proposal == Some(p.id));
                assert(s2.voting_proposal is None);
                assert(p.proposal_type == ProposalType::List || p.proposal_type
                    == ProposalType::Delist);
                assert(p2.state != ProposalState::Voting);
                assert forall|j: int|
                    0 <= j < s2.proposals.len() && (#[trigger] s2.proposals[j]).state
                        == ProposalState::Voting implies s2.voting_proposal == Some(
                    s2.proposals[j].id,
                ) by {
                    if j != i {
                        assert(s2.proposals[j] == s.proposals[j]);
                        assert(s.voting_proposal == Some(s.proposals[j].id));
                        assert(s.proposals[j].id == p.id);
                        assert(j == prop_idx(s.proposals, p.id) && i == prop_idx(
                            s.proposals,
                            p.id,
                        )) by {
                            crate::ibo::lemma_prop_idx_is(s.proposals, p.id, j);
                            crate::ibo::lemma_prop_idx_is(s.proposals, p.id, i);
                        }
                        assert(false);
                    }
                }
            },
            _ => {
                assert(p2.state == ProposalState::ApprovedClosed || p2.state
                    == ProposalState::RejectedClosed);
                singleton_untouched(s, s2, i, p2);
            },
        }
        // Balances move only by the treasury credit.
        if s2.balances != s.balances {
            crate::balances::lemma_put_balance_props(
                s.balances.accounts,
                s.treasury,
                (free_of(s.balances.accounts, s.treasury) + p.rewards_remainder) as u64,
                reserved_of(s.balances.accounts, s.treasury) as u64,
            );
            assert(has_acct(s.balances.accounts, s.treasury));
            assert(reserved_of(s.balances.accounts, s.treasury) as u64 == s.balances.accounts[crate::balances::acct_idx(
                s.balances.accounts,
                s.treasury,
            )].reserved);
        } else {
            crate::balances::lemma_put_balance_props(
                s.balances.accounts,
                s.treasury,
                free_of(s.balances.accounts, s.treasury) as u64,
                reserved_of(s.balances.accounts, s.treasury) as u64,
            );
        }
        // Escrow bookkeeping survives: reserves were not touched.
        assert forall|k2: int| 0 <= k2 < s2.staking.len() implies crate::rewards::staked_amount_total(
            (#[trigger] s2.staking[k2]).stakes,
        ) == reserved_of(s2.balances.accounts, s2.staking[k2].account) by {
            assert(s2.staking[k2] == s.staking[k2]);
        }
        assert forall|a: int|
            0 <= a < s2.balances.accounts.len() && (#[trigger] s2.balances.accounts[a]).reserved
                > 0 implies crate::ibo::has_ledger(s2.staking, s2.balances.accounts[a].account) by {
            let who = s2.balances.accounts[a].account;
            if s2.balances == s.balances {
            } else {
                assert(who == s.balances.accounts[a].account);
                if who != s.treasury {
                    assert(s2.balances.accounts[a] == s.balances.accounts[a]);
                } else {
                    assert(s2.balances.accounts[a].reserved == s.balances.accounts[a].reserved);
                }
            }
            assert(s.balances.accounts[a].reserved > 0);
        }
        // Reward accounting: tallies, pools and stakes are all unchanged.
        assert forall|i2: int| 0 <= i2 < s2.proposals.len() implies {
            let q = #[trigger] s2.proposals[i2];
            &&& crate::rewards::unclaimed_total(s2.staking, q.id) <= tally_total(q)
            &&& q.rewards_remainder * tally_total(q) >= TOTAL_REWARDS
                * crate::rewards::unclaimed_total(s2.staking, q.id)
        } by {
            if i2 != i {
                assert(s2.proposals[i2] == s.proposals[i2]);
            } else {
                assert(p2.rewards_remainder == p.rewards_remainder && p2.vote_goals
                    == p.vote_goals && p2.id == p.id);
            }
        }
    }
}

/// Everything a whole scheduler prefix guarantees, by induction over the
/// steps: each proposal is touched at most once, so every move is a single
/// lifecycle edge.
pub proof fn lemma_sched_upto_props(s: StoreV, n: int, now: u64)
    requires
        crate::ibo::inv(s),
        0 <= n <= s.proposals.len(),
    ensures
        crate::ibo::inv(sched_upto(s, n, now)),
        sched_upto(s, n, now).proposals.len() == s.proposals.len(),
        forall|j: int|
            0 <= j < s.proposals.len() ==> (#[trigger] sched_upto(s, n, now).proposals[j]).id
                == s.proposals[j].id && sched_upto(s, n, now).proposals[j].proposal_type
                == s.proposals[j].proposal_type && lifecycle_ok(
                s.proposals[j].state,
                sched_upto(s, n, now).proposals[j].state,
            ),
        forall|j: int|
            n <= j < s.proposals.len() ==> #[trigger] sched_upto(s, n, now).proposals[j]
                == s.proposals[j],
        sched_upto(s, n, now).reviewers == s.reviewers,
        sched_upto(s, n, now).voters == s.voters,
        sched_upto(s, n, now).staking == s.staking,
        sched_upto(s, n, now).id_generator == s.id_generator,
        sched_upto(s, n, now).council == s.council,
        sched_upto(s, n, now).treasury == s.treasury,
        sched_upto(s, n, now).balances.total_issuance >= s.balances.total_issuance,
        forall|who: AccountId|
            #[trigger] free_of(sched_upto(s, n, now).balances.accounts, who) >= free_of(
                s.balances.accounts,
                who,
            ),
        forall|who: AccountId|
            #[trigger] reserved_of(sched_upto(s, n, now).balances.accounts, who) == reserved_of(
                s.balances.accounts,
                who,
            ),
        forall|who: AccountId|
            #[trigger] has_acct(sched_upto(s, n, now).balances.accounts, who) <==> has_acct(
                s.balances.accounts,
                who,
            ),
    decreases n,
{
    if n > 0 {
        lemma_sched_upto_props(s, n - 1, now);
        let sp = sched_upto(s, n - 1, now);
        lemma_sched_step_props(sp, n - 1, now);
        assert(sp.proposals[n - 1] == s.proposals[n - 1]);
    }
}

/// Helper: the step left the singleton alone and made proposal `i`
/// something other than Voting out of something other than Voting.
proof fn singleton_untouched(s: StoreV, s2: StoreV, i: int, p2: ProposalV)
    requires
        crate::ibo::inv(s),
        0 <= i < s.proposals.len(),
        s.proposals[i].state != ProposalState::Voting,
        p2.state != ProposalState::Voting,
        p2.id == s.proposals[i].id,
        s2.voting_proposal == s.voting_proposal,
        s2.proposals == s.proposals.update(i, p2),
    ensures
        match s2.voting_proposal {
            Some(q) => has_proposal(s2.proposals, q) && proposal_of(s2.proposals, q).state
                == ProposalState::Voting,
            None => true,
        },
        forall|j: int|
            0 <= j < s2.proposals.len() && (#[trigger] s2.proposals[j]).state
                == ProposalState::Voting ==> s2.voting_proposal == Some(s2.proposals[j].id),
{
    crate::ibo::lemma_prop_lookup_update(s.proposals, i, p2);
    match s.voting_proposal {
        Some(q) => {
            assert(proposal_of(s.proposals, q).state == ProposalState::Voting);
            assert(q != p2.id);
            assert(proposal_of(s2.proposals, q) == proposal_of(s.proposals, q));
        },
        None => {},
    }
    assert forall|j: int|
        0 <= j < s2.proposals.len() && (#[trigger] s2.proposals[j]).state == ProposalState::Voting
        implies s2.voting_proposal == Some(s2.proposals[j].id) by {
        assert(j != i);
        assert(s2.proposals[j] == s.proposals[j]);
    }
}

/// A settled post-run store: either a public vote is still active, or no
/// proposal sits in Reviewing past its window. When a run frees the
/// singleton while a timed-out List or Delist proposal was deferred behind
/// it, the next run promotes that proposal, so only settled runs are
/// idempotent.
pub open spec fn sched_settled(s: StoreV, now: u64) -> bool {
    ||| s.voting_proposal is Some
    ||| forall|i: int|
        0 <= i < s.proposals.len() ==> !((#[trigger] s.proposals[i]).state
            == ProposalState::Reviewing && now - s.proposals[i].timestamp > REVIEW_DURATION)
}

/// What one finished run leaves behind at index `i`: every timed-out
/// transition has either fired, or provably cannot fire again this block.
pub open spec fn quiet_at(s: StoreV, i: int, now: u64) -> bool {
    let p = s.proposals[i];
    &&& p.state == ProposalState::Pending ==> now - p.timestamp <= ALLOW_MODIFY_DURATION
    &&& (p.state == ProposalState::Reviewing && now - p.timestamp > REVIEW_DURATION) ==> (
    p.proposal_type == ProposalType::List || p.proposal_type == ProposalType::Delist)
    &&& p.state == ProposalState::Voting ==> now - p.timestamp <= VOTE_DURATION
    &&& ((p.state == ProposalState::Approved || p.state == ProposalState::Rejected) && now
        - p.timestamp > RECEIVE_REWARDS_DURATION) ==> !Balances::deposit_would_succeed(
        s.balances,
        s.treasury,
        p.rewards_remainder,
    )
}

/// A refused treasury credit stays refused when balances only grow.
proof fn lemma_deposit_fail_monotone(b1: BalancesV, b2: BalancesV, who: AccountId, amount: Balance)
    requires
        !Balances::deposit_would_succeed(b1, who, amount),
        b2.total_issuance >= b1.total_issuance,
        free_of(b2.accounts, who) >= free_of(b1.accounts, who),
        reserved_of(b2.accounts, who) == reserved_of(b1.accounts, who),
        has_acct(b2.accounts, who) <==> has_acct(b1.accounts, who),
    ensures
        !Balances::deposit_would_succeed(b2, who, amount),
{
}

/// After a run's prefix, every processed proposal is quiet.
proof fn lemma_sched_quiet(s: StoreV, n: int, now: u64)
    requires
        crate::ibo::inv(s),
        0 <= n <= s.proposals.len(),
    ensures
        forall|i: int| 0 <= i < n ==> quiet_at(sched_upto(s, n, now), i, now),
    decreases n,
{
    if n > 0 {
        lemma_sched_quiet(s, n - 1, now);
        lemma_sched_upto_props(s, n - 1, now);
        let sp = sched_upto(s, n - 1, now);
        let s2 = sched_upto(s, n, now);
        lemma_sched_step_props(sp, n - 1, now);
        assert(s2 == sched_step(sp, n - 1, now));
        assert forall|i: int| 0 <= i < n implies quiet_at(s2, i, now) by {
            if i < n - 1 {
                assert(quiet_at(sp, i, now));
                assert(s2.proposals[i] == sp.proposals[i]);
                let p = sp.proposals[i];
                if (p.state == ProposalState::Approved || p.state == ProposalState::Rejected) && now
                    - p.timestamp > RECEIVE_REWARDS_DURATION {
                    lemma_deposit_fail_monotone(
                        sp.balances,
                        s2.balances,
                        sp.treasury,
                        p.rewards_remainder,
                    );
                }
            } else {
                let p = sp.proposals[n - 1];
                let p2 = s2.proposals[n - 1];
                match p.state {
                    ProposalState::Pending => {
                        assert(quiet_at(s2, i, now));
                    },
                    ProposalState::Reviewing => {
                        assert(quiet_at(s2, i, now));
                    },
                    ProposalState::Voting => {
                        assert(quiet_at(s2, i, now));
                    },
                    ProposalState::Approved => {
                        assert(quiet_at(s2, i, now));
                    },
                    ProposalState::Rejected => {
                        assert(quiet_at(s2, i, now));
                    },
                    _ => {
                        assert(quiet_at(s2, i, now));
                    },
                }
            }
        }
    }
}

/// On a settled, quiet store a second run does nothing, step by step.
proof fn lemma_sched_second_run(s: StoreV, n: int, now: u64)
    requires
        crate::ibo::inv(s),
        sched_settled(s, now),
        forall|i: int| 0 <= i < s.proposals.len() ==> quiet_at(s, i, now),
        0 <= n <= s.proposals.len(),
    ensures
        sched_upto(s, n, now) == s,
    decreases n,
{
    if n > 0 {
        lemma_sched_second_run(s, n - 1, now);
        assert(sched_upto(s, n, now) == sched_step(s, n - 1, now));
        let p = s.proposals[n - 1];
        assert(quiet_at(s, n - 1, now));
        match p.state {
            ProposalState::Reviewing => {
                if now - p.timestamp > REVIEW_DURATION {
                    assert(s.voting_proposal is Some);
                    assert(sched_step(s, n - 1, now) == s);
                } else {
                    assert(sched_step(s, n - 1, now) == s);
                }
            },
            _ => {
                assert(sched_step(s, n - 1, now) == s);
            },
        }
    }
}

/// Idempotence of the end-of-block scheduler: running it twice in the same
/// block changes nothing beyond the first run, provided the first run ends
/// settled. (When a run both frees the vote singleton and leaves a
/// timed-out List or Delist proposal deferred in Reviewing, the second run
/// promotes that proposal; such stores are exactly the unsettled ones.)
pub proof fn lemma_sched_idempotent(s: StoreV, now: u64)
    requires
        crate::ibo::inv(s),
        sched_settled(sched(s, now), now),
    ensures
        sched(sched(s, now), now) == sched(s, now),
{
    let n = s.proposals.len() as int;
    lemma_sched_upto_props(s, n, now);
    let s1 = sched(s, now);
    assert(crate::ibo::inv(s1));
    assert(s1.proposals.len() == n);
    lemma_sched_quiet(s, n, now);
    lemma_sched_second_run(s1, n, now);
}

/// Exec mirror of the review quorum rule.
fn review_quorum_exec(pt: ProposalType, support: u64, oppose: u64) -> (r: bool)
    ensures
        r == review_quorum(pt, support, oppose),
{
    match pt {
        ProposalType::Delist => support > oppose,
        _ => (support as u128) >= 2 * (oppose as u128) && (support > 0 || oppose > 0),
    }
}

/// Exec mirror of the vote quorum rule; the comparison with a doubled
/// 128-bit weight goes through a halving to stay within the type.
fn vote_quorum_exec(pt: ProposalType, support: u128, oppose: u128) -> (r: bool)
    ensures
        r == vote_quorum(pt, support, oppose),
{
    match pt {
        ProposalType::Delist => support > oppose,
        _ => {
            let half_ok = oppose <= support / 2;
            proof {
                assert(half_ok <==> support >= 2 * oppose) by {
                    vstd::arithmetic::div_mod::lemma_fundamental_div_mod(support as int, 2);
                    vstd::arithmetic::div_mod::lemma_mod_bound(support as int, 2);
                }
            }
            half_ok && (support > 0 || oppose > 0)
        },
    }
}

impl Module {
    /// Build the token record an approved proposal writes: the descriptor
    /// copied, with `current_market` set to the target market.
    pub fn clone_from_proposal(p: &Proposal) -> (t: TokenInfo)
        ensures
            t@ == token_of_proposal(p@),
    {
        let t = TokenInfo {
            official_website_url: crate::types::clone_bytes(&p.official_website_url),
            token_icon_url: crate::types::clone_bytes(&p.token_icon_url),
            token_name: crate::types::clone_bytes(&p.token_name),
            token_symbol: crate::types::clone_bytes(&p.token_symbol),
            max_supply: p.max_supply,
            circulating_supply: p.circulating_supply,
            current_market: p.target_market,
        };
        proof {
            assert(t@ =~= token_of_proposal(p@));
        }
        t
    }

    /// Insert or replace the token of this name.
    fn upsert_token_exec(&mut self, t: TokenInfo)
        requires
            crate::ibo::wf_tokens(old(self)@),
        ensures
            final(self)@ == (StoreV { tokens: upsert_token(old(self)@.tokens, t@), ..old(self)@ }),
    {
        let ghost pre = self@;
        match self.find_token(&t.token_name) {
            Some(k) => {
                proof {
                    crate::ibo::lemma_token_idx_is(pre.tokens, t.token_name@, k as int);
                }
                self.tokens[k] = t;
                proof {
                    assert(self@.tokens =~= pre.tokens.update(k as int, t@));
                    assert(self@ =~= (StoreV { tokens: upsert_token(pre.tokens, t@), ..pre }));
                }
            },
            None => {
                self.tokens.push(t);
                proof {
                    assert(self@.tokens =~= pre.tokens.push(t@));
                    assert(self@ =~= (StoreV { tokens: upsert_token(pre.tokens, t@), ..pre }));
                }
            },
        }
    }

    /// Drop the token of this name, if present.
    fn drop_token_exec(&mut self, name: &Vec<u8>)
        requires
            crate::ibo::wf_tokens(old(self)@),
        ensures
            final(self)@ == (StoreV { tokens: drop_token(old(self)@.tokens, name@), ..old(self)@ }),
    {
        let ghost pre = self@;
        match self.find_token(name) {
            Some(k) => {
                proof {
                    crate::ibo::lemma_token_idx_is(pre.tokens, name@, k as int);
                }
                self.tokens.remove(k);
                proof {
                    assert(self@.tokens =~= pre.tokens.remove(k as int));
                    assert(self@ =~= (StoreV { tokens: drop_token(pre.tokens, name@), ..pre }));
                }
            },
            None => {
                proof {
                    assert(self@ =~= (StoreV { tokens: drop_token(pre.tokens, name@), ..pre }));
                }
            },
        }
    }

    /// A Pending proposal whose modify window has passed moves to Reviewing.
    pub(crate) fn check_proposal_pending(&mut self, i: usize, now: u64)
        requires
            crate::ibo::inv(old(self)@),
            i < old(self)@.proposals.len(),
            old(self)@.proposals[i as int].state == ProposalState::Pending,
        ensures
            crate::ibo::inv(final(self)@),
            final(self)@ == sched_step(old(self)@, i as int, now),
    {
        let ghost pre = self@;
        let ts = self.proposals[i].timestamp;
        if now > ts && now - ts > ALLOW_MODIFY_DURATION {
            self.proposals[i].state = ProposalState::Reviewing;
            self.proposals[i].timestamp = now;
            proof {
                assert(self@.proposals =~= pre.proposals.update(
                    i as int,
                    stepped(pre, i as int, ProposalState::Reviewing, now),
                ));
                assert(self@ =~= sched_step(pre, i as int, now));
                lemma_sched_step_props(pre, i as int, now);
            }
        } else {
            proof {
                assert(self@ == sched_step(pre, i as int, now));
            }
        }
    }

    /// A Reviewing proposal whose review window has passed gets its review
    /// verdict; List and Delist wait for the public-vote singleton to free.
    pub(crate) fn check_proposal_reviewed(&mut self, i: usize, now: u64)
        requires
            crate::ibo::inv(old(self)@),
            i < old(self)@.proposals.len(),
            old(self)@.proposals[i as int].state == ProposalState::Reviewing,
        ensures
            crate::ibo::inv(final(self)@),
            final(self)@ == sched_step(old(self)@, i as int, now),
    {
        let ghost pre = self@;
        let ts = self.proposals[i].timestamp;
        if !(now > ts && now - ts > REVIEW_DURATION) {
            proof {
                assert(self@ == sched_step(pre, i as int, now));
            }
            return;
        }
        let pt = self.proposals[i].proposal_type;
        let goals = self.proposals[i].review_goals;
        let quorum = review_quorum_exec(pt, goals.0, goals.1);
        let is_direct = matches!(pt, ProposalType::Rise) || matches!(pt, ProposalType::Fall);
        if is_direct {
            if quorum {
                let t = Module::clone_from_proposal(&self.proposals[i]);
                self.upsert_token_exec(t);
                self.proposals[i].state = ProposalState::Approved;
                self.proposals[i].timestamp = now;
                proof {
                    assert(self@.proposals =~= pre.proposals.update(
                        i as int,
                        stepped(pre, i as int, ProposalState::Approved, now),
                    ));
                    assert(self@ =~= sched_step(pre, i as int, now));
                }
            } else {
                self.proposals[i].state = ProposalState::RejectedClosed;
                self.proposals[i].timestamp = now;
                proof {
                    assert(self@.proposals =~= pre.proposals.update(
                        i as int,
                        stepped(pre, i as int, ProposalState::RejectedClosed, now),
                    ));
                    assert(self@ =~= sched_step(pre, i as int, now));
                }
            }
        } else if self.voting_proposal.is_some() {
            proof {
                assert(self@ == sched_step(pre, i as int, now));
            }
            return;
        } else if quorum {
            let id = self.proposals[i].id;
            self.proposals[i].state = ProposalState::Voting;
            self.proposals[i].timestamp = now;
            self.voting_proposal = Some(id);
            proof {
                assert(self@.proposals =~= pre.proposals.update(
                    i as int,
                    stepped(pre, i as int, ProposalState::Voting, now),
                ));
                assert(self@ =~= sched_step(pre, i as int, now));
            }
        } else {
            self.proposals[i].state = ProposalState::RejectedClosed;
            self.proposals[i].timestamp = now;
            proof {
                assert(self@.proposals =~= pre.proposals.update(
                    i as int,
                    stepped(pre, i as int, ProposalState::RejectedClosed, now),
                ));
                assert(self@ =~= sched_step(pre, i as int, now));
            }
        }
        proof {
            lemma_sched_step_props(pre, i as int, now);
        }
    }

    /// A Voting proposal whose vote window has passed gets its public
    /// verdict; the singleton is cleared either way.
    pub(crate) fn check_proposal_voted(&mut self, i: usize, now: u64)
        requires
            crate::ibo::inv(old(self)@),
            i < old(self)@.proposals.len(),
            old(self)@.proposals[i as int].state == ProposalState::Voting,
        ensures
            crate::ibo::inv(final(self)@),
            final(self)@ == sched_step(old(self)@, i as int, now),
    {
        let ghost pre = self@;
        let ts = self.proposals[i].timestamp;
        if !(now > ts && now - ts > VOTE_DURATION) {
            proof {
                assert(self@ == sched_step(pre, i as int, now));
            }
            return;
        }
        let pt = self.proposals[i].proposal_type;
        let goals = self.proposals[i].vote_goals;
        let quorum = vote_quorum_exec(pt, goals.0, goals.1);
        if matches!(pt, ProposalType::List) {
            if quorum {
                let t = Module::clone_from_proposal(&self.proposals[i]);
                self.upsert_token_exec(t);
                self.proposals[i].state = ProposalState::Approved;
            } else {
                self.proposals[i].state = ProposalState::Rejected;
            }
        } else if matches!(pt, ProposalType::Delist) {
            if quorum {
                let name = crate::types::clone_bytes(&self.proposals[i].token_name);
                self.drop_token_exec(&name);
                self.proposals[i].state = ProposalState::Approved;
            } else {
                self.proposals[i].state = ProposalState::Rejected;
            }
        } else {
            proof {
                assert(false);
            }
        }
        self.proposals[i].timestamp = now;
        self.voting_proposal = None;
        proof {
            let p = pre.proposals[i as int];
            if vote_quorum(pt, p.vote_goals.0, p.vote_goals.1) {
                if pt == ProposalType::List {
                    assert(self@.proposals =~= pre.proposals.update(
                        i as int,
                        stepped(pre, i as int, ProposalState::Approved, now),
                    ));
                } else {
                    assert(self@.proposals =~= pre.proposals.update(
                        i as int,
                        stepped(pre, i as int, ProposalState::Approved, now),
                    ));
                }
            } else {
                assert(self@.proposals =~= pre.proposals.update(
                    i as int,
                    stepped(pre, i as int, ProposalState::Rejected, now),
                ));
            }
            assert(self@ =~= sched_step(pre, i as int, now));
            lemma_sched_step_props(pre, i as int, now);
        }
    }

    /// An Approved or Rejected proposal whose claim window has passed closes
    /// once the reward residue can be credited to the treasury; until then
    /// the scheduler leaves it and retries on later blocks.
    pub(crate) fn check_proposal_closed(&mut self, i: usize, now: u64)
        requires
            crate::ibo::inv(old(self)@),
            i < old(self)@.proposals.len(),
            old(self)@.proposals[i as int].state == ProposalState::Approved || old(
                self,
            )@.proposals[i as int].state == ProposalState::Rejected,
        ensures
            crate::ibo::inv(final(self)@),
            final(self)@ == sched_step(old(self)@, i as int, now),
    {
        let ghost pre = self@;
        let ts = self.proposals[i].timestamp;
        if !(now > ts && now - ts > RECEIVE_REWARDS_DURATION) {
            proof {
                assert(self@ == sched_step(pre, i as int, now));
            }
            return;
        }
        let rem = self.proposals[i].rewards_remainder;
        let treasury_account = self.treasury;
        match self.balances.deposit_into_existing(treasury_account, rem) {
            Ok(()) => {
                let closed = if matches!(self.proposals[i].state, ProposalState::Approved) {
                    ProposalState::ApprovedClosed
                } else {
                    ProposalState::RejectedClosed
                };
                self.proposals[i].state = closed;
                self.proposals[i].timestamp = now;
                proof {
                    assert(self@.proposals =~= pre.proposals.update(
                        i as int,
                        stepped(pre, i as int, closed, now),
                    ));
                    assert(self@ =~= sched_step(pre, i as int, now));
                    lemma_sched_step_props(pre, i as int, now);
                }
            },
            Err(_) => {
                proof {
                    assert(self@ == sched_step(pre, i as int, now));
                }
            },
        }
    }

    /// Apply the transition table to proposal `i`, as the scheduler does.
    pub(crate) fn deal_proposal(&mut self, i: usize, now: u64)
        requires
            crate::ibo::inv(old(self)@),
            i < old(self)@.proposals.len(),
        ensures
            crate::ibo::inv(final(self)@),
            final(self)@ == sched_step(old(self)@, i as int, now),
    {
        let ghost pre = self@;
        let state = self.proposals[i].state;
        match state {
            ProposalState::Pending => self.check_proposal_pending(i, now),
            ProposalState::Reviewing => self.check_proposal_reviewed(i, now),
            ProposalState::Voting => self.check_proposal_voted(i, now),
            ProposalState::Approved => self.check_proposal_closed(i, now),
            ProposalState::Rejected => self.check_proposal_closed(i, now),
            _ => {
                proof {
                    assert(self@ == sched_step(pre, i as int, now));
                }
            },
        }
    }

    /// The end-of-block hook: walk every proposal in id order and apply the
    /// transition table once to each. Each proposal moves at most one
    /// lifecycle edge per block.
    pub fn on_finalize(&mut self, now: u64)
        requires
            old(self).wf(),
        ensures
            final(self).wf(),
            final(self)@ == sched(old(self)@, now),
            final(self)@.proposals.len() == old(self)@.proposals.len(),
            forall|j: int|
                0 <= j < old(self)@.proposals.len() ==> lifecycle_ok(
                    old(self)@.proposals[j].state,
                    (#[trigger] final(self)@.proposals[j]).state,
                ),
    {
        let ghost pre = self@;
        let n = self.proposals.len();
        let mut i: usize = 0;
        while i < n
            invariant
                crate::ibo::inv(pre),
                pre.proposals.len() == n,
                i <= n,
                self@ == sched_upto(pre, i as int, now),
                crate::ibo::inv(self@),
                self@.proposals.len() == n,
            decreases n - i,
        {
            proof {
                lemma_sched_upto_props(pre, i as int, now);
            }
            self.deal_proposal(i, now);
            proof {
                assert(self@ == sched_upto(pre, i + 1, now));
                lemma_sched_upto_props(pre, i + 1, now);
            }
            i += 1;
        }
        proof {
            assert(self@ == sched(pre, now));
            lemma_sched_upto_props(pre, n as int, now);
        }
    }
}

} // verus!
