//! The data model: tokens, proposals, stake records, domain errors and the
//! proposal-change event, together with the ghost views the contracts use.

use vstd::prelude::*;

verus! {

/// Identifier of a proposal: a monotone 32-bit counter, never reused.
pub type ProposalId = u32;

/// Identifier of a signing account.
pub type AccountId = u64;

/// Amount of currency: free balances, reserves, reward pools, supplies.
pub type Balance = u64;

/// The three curated markets a token may occupy; Off means not listed.
#[derive(Clone, Copy, PartialEq, Eq, Structural, Debug)]
pub enum MarketType {
    Main,
    Growth,
    Off,
}

impl Default for MarketType {
    fn default() -> (r: Self)
        ensures
            r == MarketType::Off,
    {
        MarketType::Off
    }
}

/// What a proposal asks for: admitting a token, removing it, promoting it
/// Growth to Main, or demoting it Main to Growth.
#[derive(Clone, Copy, PartialEq, Eq, Structural, Debug)]
pub enum ProposalType {
    List,
    Delist,
    Rise,
    Fall,
}

impl Default for ProposalType {
    fn default() -> (r: Self)
        ensures
            r == ProposalType::List,
    {
        ProposalType::List
    }
}

/// Phase of a proposal's lifecycle. Transitions only move forward:
/// Pending, Reviewing, then either a public vote (Voting, then Approved or
/// Rejected, then the matching Closed state) or a direct verdict.
#[derive(Clone, Copy, PartialEq, Eq, Structural, Debug)]
pub enum ProposalState {
    Pending,
    Reviewing,
    Voting,
    Approved,
    Rejected,
    ApprovedClosed,
    RejectedClosed,
}

impl Default for ProposalState {
    fn default() -> (r: Self)
        ensures
            r == ProposalState::Pending,
    {
        ProposalState::Pending
    }
}

/// An admitted asset, keyed by its unique `token_name`.
pub struct TokenInfo {
    pub official_website_url: Vec<u8>,
    pub token_icon_url: Vec<u8>,
    pub token_name: Vec<u8>,
    pub token_symbol: Vec<u8>,
    pub max_supply: Balance,
    pub circulating_supply: Balance,
    pub current_market: MarketType,
}

/// Ghost view of a [`TokenInfo`]: byte strings become sequences.
#[verifier::ext_equal]
pub ghost struct TokenInfoV {
    pub official_website_url: Seq<u8>,
    pub token_icon_url: Seq<u8>,
    pub token_name: Seq<u8>,
    pub token_symbol: Seq<u8>,
    pub max_supply: Balance,
    pub circulating_supply: Balance,
    pub current_market: MarketType,
}

impl View for TokenInfo {
    type V = TokenInfoV;

    open spec fn view(&self) -> TokenInfoV {
        TokenInfoV {
            official_website_url: self.official_website_url@,
            token_icon_url: self.token_icon_url@,
            token_name: self.token_name@,
            token_symbol: self.token_symbol@,
            max_supply: self.max_supply,
            circulating_supply: self.circulating_supply,
            current_market: self.current_market,
        }
    }
}

/// A governance request over a token, with its phase, its tallies and its
/// reward pool.
pub struct Proposal {
    pub id: ProposalId,
    pub proposer: AccountId,
    pub proposal_type: ProposalType,
    pub official_website_url: Vec<u8>,
    pub token_icon_url: Vec<u8>,
    pub token_name: Vec<u8>,
    pub token_symbol: Vec<u8>,
    pub max_supply: Balance,
    pub circulating_supply: Balance,
    pub current_market: MarketType,
    pub target_market: MarketType,
    /// The state of the proposal.
    pub state: ProposalState,
    /// Head-count review tally `(supporters, opponents)`.
    pub review_goals: (u64, u64),
    /// Stake-weighted vote tally `(supporters, opponents)`;
    /// each ballot adds `amount * age_multiplier`.
    pub vote_goals: (u128, u128),
    /// What is left of the proposal's reward pool.
    pub rewards_remainder: Balance,
    /// When the proposal last entered its current state.
    pub timestamp: u64,
}

/// Ghost view of a [`Proposal`]: byte strings become sequences.
#[verifier::ext_equal]
pub ghost struct ProposalV {
    pub id: ProposalId,
    pub proposer: AccountId,
    pub proposal_type: ProposalType,
    pub official_website_url: Seq<u8>,
    pub token_icon_url: Seq<u8>,
    pub token_name: Seq<u8>,
    pub token_symbol: Seq<u8>,
    pub max_supply: Balance,
    pub circulating_supply: Balance,
    pub current_market: MarketType,
    pub target_market: MarketType,
    pub state: ProposalState,
    pub review_goals: (u64, u64),
    pub vote_goals: (u128, u128),
    pub rewards_remainder: Balance,
    pub timestamp: u64,
}

impl View for Proposal {
    type V = ProposalV;

    open spec fn view(&self) -> ProposalV {
        ProposalV {
            id: self.id,
            proposer: self.proposer,
            proposal_type: self.proposal_type,
            official_website_url: self.official_website_url@,
            token_icon_url: self.token_icon_url@,
            token_name: self.token_name@,
            token_symbol: self.token_symbol@,
            max_supply: self.max_supply,
            circulating_supply: self.circulating_supply,
            current_market: self.current_market,
            target_market: self.target_market,
            state: self.state,
            review_goals: self.review_goals,
            vote_goals: self.vote_goals,
            rewards_remainder: self.rewards_remainder,
            timestamp: self.timestamp,
        }
    }
}

/// One ballot's escrow record, held in the voter's stake ledger until the
/// voter unstakes after the lock period.
#[derive(Clone, Copy, PartialEq, Eq, Structural, Debug)]
pub struct StakingInfo {
    pub proposal_id: ProposalId,
    pub staking_amount: Balance,
    pub age_idx: u8,
    pub wheather_received_reward: bool,
    pub timestamp: u64,
}

/// Review or voter list of one proposal: an append-only set of accounts.
pub struct IdMembers {
    pub id: ProposalId,
    pub members: Vec<AccountId>,
}

/// Ghost view of an [`IdMembers`] entry.
#[verifier::ext_equal]
pub ghost struct IdMembersV {
    pub id: ProposalId,
    pub members: Seq<AccountId>,
}

impl View for IdMembers {
    type V = IdMembersV;

    open spec fn view(&self) -> IdMembersV {
        IdMembersV { id: self.id, members: self.members@ }
    }
}

/// One account's stake ledger: its ballots' escrow records in append order.
pub struct StakeLedger {
    pub account: AccountId,
    pub stakes: Vec<StakingInfo>,
}

/// Ghost view of a [`StakeLedger`] entry.
#[verifier::ext_equal]
pub ghost struct StakeLedgerV {
    pub account: AccountId,
    pub stakes: Seq<StakingInfo>,
}

impl View for StakeLedger {
    type V = StakeLedgerV;

    open spec fn view(&self) -> StakeLedgerV {
        StakeLedgerV { account: self.account, stakes: self.stakes@ }
    }
}

/// Domain errors: every guard failure short-circuits a dispatch with no store
/// mutation.
#[derive(Clone, Copy, PartialEq, Eq, Structural, Debug)]
pub enum IboError {
    /// There is already a token of that name.
    TokenExists,
    /// There is no token of that name.
    TokenNotFound,
    /// Proposal not found.
    ProposalNotFound,
    /// Not your proposal: only the proposer may update or delete it.
    NotYourProposal,
    /// The proposal is not in its Reviewing phase.
    ProposalCannotBeReviewed,
    /// The proposal is not in its Voting phase.
    ProposalCannotBeVoted,
    /// A proposal may only be updated or deleted while Pending.
    ProposalCannotBeModified,
    /// This council member has already reviewed the proposal.
    AlreadyReview,
    /// This account has already voted on the proposal.
    AlreadyVote,
    /// The caller is not a member of the council collective.
    NotInCollective,
    /// No stake record matches, or its reward was already drawn.
    NoneStaking,
    /// The chosen vote-age index is outside the age table.
    InvalidVoteAge,
    /// The caller has not voted on this proposal.
    NoVote,
    /// Rewards can only be drawn while the proposal is Approved or Rejected.
    StateNotForRewards,
    /// The stake's lock period has not elapsed yet.
    StillInStaking,
    /// The caller's free balance does not cover the amount.
    InsufficientFunds,
    /// The credit would push `total_issuance` past `MAX_SUPPLY`, or the
    /// account's balance past what it can hold.
    InsufficientIssuance,
    /// The account to credit does not exist.
    NoAccount,
}

/// Event discriminant: a proposal was created.
pub const CREATE: u8 = 1;

/// Event discriminant: a proposal was updated.
pub const UPDATE: u8 = 2;

/// Event discriminant: a proposal was deleted.
pub const DELETE: u8 = 3;

/// The one event the module emits: a snapshot of a proposal after it was
/// created, updated or deleted.
pub struct ProposalEvent {
    pub change_type: u8,
    pub proposal: Proposal,
}

/// Ghost view of a [`ProposalEvent`].
#[verifier::ext_equal]
pub ghost struct ProposalEventV {
    pub change_type: u8,
    pub proposal: ProposalV,
}

impl View for ProposalEvent {
    type V = ProposalEventV;

    open spec fn view(&self) -> ProposalEventV {
        ProposalEventV { change_type: self.change_type, proposal: self.proposal@ }
    }
}

/// Byte-for-byte copy of a byte string.
pub fn clone_bytes(v: &Vec<u8>) -> (r: Vec<u8>)
    ensures
        r@ == v@,
{
    let mut r: Vec<u8> = Vec::new();
    let mut i: usize = 0;
    while i < v.len()
        invariant
            i <= v.len(),
            r@ == v@.subrange(0, i as int),
        decreases v.len() - i,
    {
        r.push(v[i]);
        i += 1;
    }
    proof {
        assert(r@ =~= v@);
    }
    r
}

/// Field-for-field copy of a proposal.
pub fn clone_proposal(p: &Proposal) -> (r: Proposal)
    ensures
        r@ == p@,
{
    let r = Proposal {
        id: p.id,
        proposer: p.proposer,
        proposal_type: p.proposal_type,
        official_website_url: clone_bytes(&p.official_website_url),
        token_icon_url: clone_bytes(&p.token_icon_url),
        token_name: clone_bytes(&p.token_name),
        token_symbol: clone_bytes(&p.token_symbol),
        max_supply: p.max_supply,
        circulating_supply: p.circulating_supply,
        current_market: p.current_market,
        target_market: p.target_market,
        state: p.state,
        review_goals: p.review_goals,
        vote_goals: p.vote_goals,
        rewards_remainder: p.rewards_remainder,
        timestamp: p.timestamp,
    };
    proof {
        assert(r@ =~= p@);
    }
    r
}

/// Field-for-field copy of a token record.
pub fn clone_token_info(t: &TokenInfo) -> (r: TokenInfo)
    ensures
        r@ == t@,
{
    let r = TokenInfo {
        official_website_url: clone_bytes(&t.official_website_url),
        token_icon_url: clone_bytes(&t.token_icon_url),
        token_name: clone_bytes(&t.token_name),
        token_symbol: clone_bytes(&t.token_symbol),
        max_supply: t.max_supply,
        circulating_supply: t.circulating_supply,
        current_market: t.current_market,
    };
    proof {
        assert(r@ =~= t@);
    }
    r
}

/// Element-for-element copy of an account list.
pub fn clone_accounts(v: &Vec<AccountId>) -> (r: Vec<AccountId>)
    ensures
        r@ == v@,
{
    let mut r: Vec<AccountId> = Vec::new();
    let mut i: usize = 0;
    while i < v.len()
        invariant
            i <= v.len(),
            r@ == v@.subrange(0, i as int),
        decreases v.len() - i,
    {
        r.push(v[i]);
        i += 1;
    }
    proof {
        assert(r@ =~= v@);
    }
    r
}

/// Record-for-record copy of a stake list.
pub fn clone_stakes(v: &Vec<StakingInfo>) -> (r: Vec<StakingInfo>)
    ensures
        r@ == v@,
{
    let mut r: Vec<StakingInfo> = Vec::new();
    let mut i: usize = 0;
    while i < v.len()
        invariant
            i <= v.len(),
            r@ == v@.subrange(0, i as int),
        decreases v.len() - i,
    {
        r.push(v[i]);
        i += 1;
    }
    proof {
        assert(r@ =~= v@);
    }
    r
}

/// Equality of two byte strings.
pub fn bytes_eq(a: &Vec<u8>, b: &Vec<u8>) -> (r: bool)
    ensures
        r <==> a@ == b@,
{
    if a.len() != b.len() {
        proof {
            assert(a@ != b@) by {
                assert(a@.len() != b@.len());
            }
        }
        return false;
    }
    let mut i: usize = 0;
    while i < a.len()
        invariant
            i <= a.len(),
            a@.len() == b@.len(),
            forall|k: int| 0 <= k < i ==> a@[k] == b@[k],
        decreases a.len() - i,
    {
        if a[i] != b[i] {
            return false;
        }
        i += 1;
    }
    proof {
        assert(a@ =~= b@);
    }
    true
}

} // verus!
