//! The balance gateway: per-account free and reserved balances and the total
//! issuance, with the issuance cap enforced on every credit.

use vstd::prelude::*;

use crate::constants::MAX_SUPPLY;
use crate::types::{AccountId, Balance, IboError};

verus! {

/// One account's balance: the free part and the part reserved as vote escrow.
#[derive(Clone, Copy, PartialEq, Eq, Structural, Debug)]
pub struct AccountBalance {
    pub account: AccountId,
    pub free: Balance,
    pub reserved: Balance,
}

/// The economic state: all accounts and the total issuance.
pub struct Balances {
    pub accounts: Vec<AccountBalance>,
    pub total_issuance: Balance,
}

/// Ghost view of [`Balances`].
#[verifier::ext_equal]
pub ghost struct BalancesV {
    pub accounts: Seq<AccountBalance>,
    pub total_issuance: Balance,
}

impl View for Balances {
    type V = BalancesV;

    open spec fn view(&self) -> BalancesV {
        BalancesV { accounts: self.accounts@, total_issuance: self.total_issuance }
    }
}

/// Whether `who` has an account.
pub open spec fn has_acct(s: Seq<AccountBalance>, who: AccountId) -> bool {
    exists|i: int| 0 <= i < s.len() && s[i].account == who
}

/// Index of `who`'s account (meaningful only when `has_acct`).
pub open spec fn acct_idx(s: Seq<AccountBalance>, who: AccountId) -> int {
    choose|i: int| 0 <= i < s.len() && s[i].account == who
}

/// `who`'s free balance; an absent account holds nothing.
pub open spec fn free_of(s: Seq<AccountBalance>, who: AccountId) -> int {
    if has_acct(s, who) {
        s[acct_idx(s, who)].free as int
    } else {
        0
    }
}

/// `who`'s reserved balance; an absent account holds nothing.
pub open spec fn reserved_of(s: Seq<AccountBalance>, who: AccountId) -> int {
    if has_acct(s, who) {
        s[acct_idx(s, who)].reserved as int
    } else {
        0
    }
}

/// Well-formed balances: accounts are unique, every account's total fits its
/// 64-bit balance, and the issuance cap holds.
pub open spec fn balances_wf(b: BalancesV) -> bool {
    &&& forall|i: int, j: int|
        0 <= i < j < b.accounts.len() ==> b.accounts[i].account != b.accounts[j].account
    &&& forall|i: int|
        0 <= i < b.accounts.len() ==> (#[trigger] b.accounts[i]).free + b.accounts[i].reserved
            <= u64::MAX
    &&& b.total_issuance <= MAX_SUPPLY
}

/// The accounts sequence after replacing `who`'s entry (unchanged when absent).
pub open spec fn put_balance(
    s: Seq<AccountBalance>,
    who: AccountId,
    free: Balance,
    reserved: Balance,
) -> Seq<AccountBalance> {
    if has_acct(s, who) {
        s.update(acct_idx(s, who), AccountBalance { account: who, free, reserved })
    } else {
        s
    }
}

impl Balances {
    /// An empty economy: no accounts, no issuance.
    pub fn new() -> (r: Balances)
        ensures
            r@.accounts == Seq::<AccountBalance>::empty(),
            r@.total_issuance == 0,
            balances_wf(r@),
    {
        let r = Balances { accounts: Vec::new(), total_issuance: 0 };
        r
    }

    /// Index of `who`'s entry, if any.
    fn find_account(&self, who: AccountId) -> (r: Option<usize>)
        ensures
            match r {
                Some(i) => i < self@.accounts.len() && self@.accounts[i as int].account == who
                    && has_acct(self@.accounts, who),
                None => !has_acct(self@.accounts, who),
            },
    {
        let mut i: usize = 0;
        while i < self.accounts.len()
            invariant
                i <= self@.accounts.len(),
                forall|k: int| 0 <= k < i ==> self@.accounts[k].account != who,
            decreases self@.accounts.len() - i,
        {
            if self.accounts[i].account == who {
                return Some(i);
            }
            i += 1;
        }
        None
    }

    /// The total issuance.
    pub fn total_issuance(&self) -> (r: Balance)
        ensures
            r == self@.total_issuance,
    {
        self.total_issuance
    }

    /// `who`'s free balance.
    pub fn free_balance(&self, who: AccountId) -> (r: Balance)
        requires
            balances_wf(self@),
        ensures
            r == free_of(self@.accounts, who),
    {
        match self.find_account(who) {
            Some(i) => {
                proof {
                    lemma_acct_idx_is(self@.accounts, who, i as int);
                }
                self.accounts[i].free
            },
            None => 0,
        }
    }

    /// `who`'s reserved balance.
    pub fn reserved_balance(&self, who: AccountId) -> (r: Balance)
        requires
            balances_wf(self@),
        ensures
            r == reserved_of(self@.accounts, who),
    {
        match self.find_account(who) {
            Some(i) => {
                proof {
                    lemma_acct_idx_is(self@.accounts, who, i as int);
                }
                self.accounts[i].reserved
            },
            None => 0,
        }
    }

    /// Credit `who` with `amount` of newly issued currency, creating the
    /// account if need be. Refused when the credit would pass the issuance
    /// cap or overflow the account.
    pub fn endow(&mut self, who: AccountId, amount: Balance) -> (r: Result<(), IboError>)
        requires
            balances_wf(old(self)@),
        ensures
            balances_wf(final(self)@),
            match r {
                Ok(()) => {
                    &&& MAX_SUPPLY - old(self)@.total_issuance >= amount
                    &&& free_of(old(self)@.accounts, who) + reserved_of(old(self)@.accounts, who)
                        + amount <= u64::MAX
                    &&& final(self)@.total_issuance == old(self)@.total_issuance + amount
                    &&& final(self)@.accounts == (if has_acct(old(self)@.accounts, who) {
                        put_balance(
                            old(self)@.accounts,
                            who,
                            (free_of(old(self)@.accounts, who) + amount) as u64,
                            old(self)@.accounts[acct_idx(old(self)@.accounts, who)].reserved,
                        )
                    } else {
                        old(self)@.accounts.push(
                            AccountBalance { account: who, free: amount, reserved: 0 },
                        )
                    })
                },
                Err(e) => {
                    &&& final(self)@ == old(self)@
                    &&& e == IboError::InsufficientIssuance
                    &&& (MAX_SUPPLY - old(self)@.total_issuance < amount || free_of(
                        old(self)@.accounts,
                        who,
                    ) + reserved_of(old(self)@.accounts, who) + amount > u64::MAX)
                },
            },
    {
        if amount > MAX_SUPPLY - self.total_issuance {
            return Err(IboError::InsufficientIssuance);
        }
        match self.find_account(who) {
            Some(i) => {
                proof {
                    lemma_acct_idx_is(self@.accounts, who, i as int);
                }
                let entry = self.accounts[i];
                if amount > u64::MAX - entry.free || entry.free + amount > u64::MAX - entry.reserved
                {
                    return Err(IboError::InsufficientIssuance);
                }
                self.accounts[i].free = entry.free + amount;
                self.total_issuance = self.total_issuance + amount;
                Ok(())
            },
            None => {
                self.accounts.push(AccountBalance { account: who, free: amount, reserved: 0 });
                self.total_issuance = self.total_issuance + amount;
                proof {
                    lemma_push_keeps_wf(
                        old(self)@.accounts,
                        AccountBalance { account: who, free: amount, reserved: 0 },
                    );
                }
                Ok(())
            },
        }
    }

    /// Move `amount` from `who`'s free balance into reserve.
    /// Fails when the free balance does not cover it.
    pub fn reserve(&mut self, who: AccountId, amount: Balance) -> (r: Result<(), IboError>)
        requires
            balances_wf(old(self)@),
        ensures
            balances_wf(final(self)@),
            final(self)@.total_issuance == old(self)@.total_issuance,
            match r {
                Ok(()) => {
                    &&& free_of(old(self)@.accounts, who) >= amount
                    &&& final(self)@.accounts == put_balance(
                        old(self)@.accounts,
                        who,
                        (free_of(old(self)@.accounts, who) - amount) as u64,
                        (reserved_of(old(self)@.accounts, who) + amount) as u64,
                    )
                },
                Err(e) => {
                    &&& final(self)@ == old(self)@
                    &&& e == IboError::InsufficientFunds
                    &&& free_of(old(self)@.accounts, who) < amount
                },
            },
    {
        match self.find_account(who) {
            Some(i) => {
                proof {
                    lemma_acct_idx_is(self@.accounts, who, i as int);
                }
                let entry = self.accounts[i];
                if entry.free < amount {
                    return Err(IboError::InsufficientFunds);
                }
                self.accounts[i].free = entry.free - amount;
                self.accounts[i].reserved = entry.reserved + amount;
                proof {
                    assert(final(self)@.accounts =~= put_balance(
                        old(self)@.accounts,
                        who,
                        (free_of(old(self)@.accounts, who) - amount) as u64,
                        (reserved_of(old(self)@.accounts, who) + amount) as u64,
                    ));
                }
                Ok(())
            },
            None => {
                if amount > 0 {
                    return Err(IboError::InsufficientFunds);
                }
                Ok(())
            },
        }
    }

    /// Release up to `amount` from `who`'s reserve back into the free
    /// balance; infallible, capped by what is actually reserved.
    pub fn unreserve(&mut self, who: AccountId, amount: Balance)
        requires
            balances_wf(old(self)@),
        ensures
            balances_wf(final(self)@),
            final(self)@.total_issuance == old(self)@.total_issuance,
            ({
                let moved = if amount <= reserved_of(old(self)@.accounts, who) {
                    amount as int
                } else {
                    reserved_of(old(self)@.accounts, who)
                };
                final(self)@.accounts == put_balance(
                    old(self)@.accounts,
                    who,
                    (free_of(old(self)@.accounts, who) + moved) as u64,
                    (reserved_of(old(self)@.accounts, who) - moved) as u64,
                )
            }),
    {
        match self.find_account(who) {
            Some(i) => {
                proof {
                    lemma_acct_idx_is(self@.accounts, who, i as int);
                }
                let entry = self.accounts[i];
                let moved = if amount <= entry.reserved {
                    amount
                } else {
                    entry.reserved
                };
                self.accounts[i].free = entry.free + moved;
                self.accounts[i].reserved = entry.reserved - moved;
            },
            None => {},
        }
    }

    /// Burn up to `amount` from `who`'s holdings, free balance first, then
    /// the reserve; the total issuance drops by what was actually taken.
    pub fn slash(&mut self, who: AccountId, amount: Balance)
        requires
            balances_wf(old(self)@),
        ensures
            balances_wf(final(self)@),
            ({
                let have = free_of(old(self)@.accounts, who) + reserved_of(
                    old(self)@.accounts,
                    who,
                );
                let taken = if amount <= have {
                    amount as int
                } else {
                    have
                };
                let from_free = if taken <= free_of(old(self)@.accounts, who) {
                    taken
                } else {
                    free_of(old(self)@.accounts, who)
                };
                &&& final(self)@.accounts == put_balance(
                    old(self)@.accounts,
                    who,
                    (free_of(old(self)@.accounts, who) - from_free) as u64,
                    (reserved_of(old(self)@.accounts, who) - (taken - from_free)) as u64,
                )
                &&& final(self)@.total_issuance == (if taken <= old(self)@.total_issuance {
                    old(self)@.total_issuance - taken
                } else {
                    0
                })
            }),
    {
        match self.find_account(who) {
            Some(i) => {
                proof {
                    lemma_acct_idx_is(self@.accounts, who, i as int);
                }
                let entry = self.accounts[i];
                let have = entry.free + entry.reserved;
                let taken = if amount <= have {
                    amount
                } else {
                    have
                };
                let from_free = if taken <= entry.free {
                    taken
                } else {
                    entry.free
                };
                self.accounts[i].free = entry.free - from_free;
                self.accounts[i].reserved = entry.reserved - (taken - from_free);
                self.total_issuance = if taken <= self.total_issuance {
                    self.total_issuance - taken
                } else {
                    0
                };
            },
            None => {},
        }
    }

    /// Reduce the total issuance by up to `amount`, with no account involved.
    pub fn burn(&mut self, amount: Balance)
        requires
            balances_wf(old(self)@),
        ensures
            balances_wf(final(self)@),
            final(self)@.accounts == old(self)@.accounts,
            final(self)@.total_issuance == (if amount <= old(self)@.total_issuance {
                old(self)@.total_issuance - amount
            } else {
                0
            }),
    {
        self.total_issuance = if amount <= self.total_issuance {
            self.total_issuance - amount
        } else {
            0
        };
        proof {
            assert(self@.accounts == old(self)@.accounts);
            assert forall|i: int| 0 <= i < self@.accounts.len() implies (
            #[trigger] self@.accounts[i]).free + self@.accounts[i].reserved <= u64::MAX by {
                assert(self@.accounts[i] == old(self)@.accounts[i]);
            }
        }
    }

    /// Whether a credit of `amount` to `who` would go through: the account
    /// exists, the issuance cap is kept, and the account can hold it.
    pub open spec fn deposit_would_succeed(b: BalancesV, who: AccountId, amount: Balance) -> bool {
        &&& MAX_SUPPLY - b.total_issuance >= amount
        &&& has_acct(b.accounts, who)
        &&& free_of(b.accounts, who) + reserved_of(b.accounts, who) + amount <= u64::MAX
    }

    /// Credit an existing account with `amount` of newly issued currency.
    /// The issuance cap is checked first, then the account's existence, then
    /// that the account can hold the credit.
    pub fn deposit_into_existing(&mut self, who: AccountId, amount: Balance) -> (r: Result<
        (),
        IboError,
    >)
        requires
            balances_wf(old(self)@),
        ensures
            balances_wf(final(self)@),
            match r {
                Ok(()) => {
                    &&& Balances::deposit_would_succeed(old(self)@, who, amount)
                    &&& final(self)@.total_issuance == old(self)@.total_issuance + amount
                    &&& final(self)@.accounts == put_balance(
                        old(self)@.accounts,
                        who,
                        (free_of(old(self)@.accounts, who) + amount) as u64,
                        old(self)@.accounts[acct_idx(old(self)@.accounts, who)].reserved,
                    )
                },
                Err(e) => {
                    &&& final(self)@ == old(self)@
                    &&& !Balances::deposit_would_succeed(old(self)@, who, amount)
                    &&& e == (if MAX_SUPPLY - old(self)@.total_issuance < amount {
                        IboError::InsufficientIssuance
                    } else if !has_acct(old(self)@.accounts, who) {
                        IboError::NoAccount
                    } else {
                        IboError::InsufficientIssuance
                    })
                },
            },
    {
        if amount > MAX_SUPPLY - self.total_issuance {
            return Err(IboError::InsufficientIssuance);
        }
        match self.find_account(who) {
            Some(i) => {
                proof {
                    lemma_acct_idx_is(self@.accounts, who, i as int);
                }
                let entry = self.accounts[i];
                if amount > u64::MAX - entry.free || entry.free + amount > u64::MAX - entry.reserved
                {
                    return Err(IboError::InsufficientIssuance);
                }
                self.accounts[i].free = entry.free + amount;
                self.total_issuance = self.total_issuance + amount;
                Ok(())
            },
            None => Err(IboError::NoAccount),
        }
    }
}

/// What `put_balance` does to every account's free and reserved balance.
pub proof fn lemma_put_balance_props(
    s: Seq<AccountBalance>,
    who: AccountId,
    free: Balance,
    reserved: Balance,
)
    requires
        forall|a: int, b: int| 0 <= a < b < s.len() ==> s[a].account != s[b].account,
    ensures
        put_balance(s, who, free, reserved).len() == s.len(),
        forall|i: int|
            0 <= i < s.len() ==> (#[trigger] put_balance(s, who, free, reserved)[i]).account
                == s[i].account,
        forall|i: int|
            0 <= i < s.len() && s[i].account != who ==> #[trigger] put_balance(
                s,
                who,
                free,
                reserved,
            )[i] == s[i],
        forall|a: AccountId| has_acct(put_balance(s, who, free, reserved), a) <==> has_acct(s, a),
        forall|a: AccountId|
            a != who ==> free_of(put_balance(s, who, free, reserved), a) == free_of(s, a)
                && reserved_of(put_balance(s, who, free, reserved), a) == reserved_of(s, a),
        has_acct(s, who) ==> free_of(put_balance(s, who, free, reserved), who) == free
            && reserved_of(put_balance(s, who, free, reserved), who) == reserved,
        !has_acct(s, who) ==> put_balance(s, who, free, reserved) == s,
        forall|a: int, b: int|
            0 <= a < b < s.len() ==> put_balance(s, who, free, reserved)[a].account != put_balance(
                s,
                who,
                free,
                reserved,
            )[b].account,
{
    let s2 = put_balance(s, who, free, reserved);
    if has_acct(s, who) {
        let i = acct_idx(s, who);
        assert(0 <= i < s.len() && s[i].account == who);
        assert forall|a: AccountId| has_acct(s2, a) implies has_acct(s, a) by {
            let k = choose|k: int| 0 <= k < s2.len() && s2[k].account == a;
            assert(s[k].account == a);
        }
        assert forall|a: AccountId| has_acct(s, a) implies has_acct(s2, a) by {
            let k = choose|k: int| 0 <= k < s.len() && s[k].account == a;
            assert(s2[k].account == a);
        }
        assert forall|a: AccountId| a != who && has_acct(s, a) implies free_of(s2, a) == free_of(
            s,
            a,
        ) && reserved_of(s2, a) == reserved_of(s, a) by {
            let k = acct_idx(s, a);
            lemma_acct_idx_is(s2, a, k);
            assert(s2[k] == s[k]);
        }
        lemma_acct_idx_is(s2, who, i);
    }
}

/// What appending a fresh account does to every account's balances.
pub proof fn lemma_push_balance_props(s: Seq<AccountBalance>, e: AccountBalance)
    requires
        forall|a: int, b: int| 0 <= a < b < s.len() ==> s[a].account != s[b].account,
        !has_acct(s, e.account),
    ensures
        forall|a: AccountId|
            has_acct(s.push(e), a) <==> (has_acct(s, a) || a == e.account),
        forall|a: AccountId|
            a != e.account ==> free_of(s.push(e), a) == free_of(s, a) && reserved_of(s.push(e), a)
                == reserved_of(s, a),
        free_of(s.push(e), e.account) == e.free,
        reserved_of(s.push(e), e.account) == e.reserved,
        forall|a: int, b: int|
            0 <= a < b < s.push(e).len() ==> s.push(e)[a].account != s.push(e)[b].account,
{
    let s2 = s.push(e);
    lemma_push_keeps_wf(s, e);
    assert(s2[s.len() as int].account == e.account);
    lemma_acct_idx_is(s2, e.account, s.len() as int);
    assert forall|a: AccountId| has_acct(s2, a) implies (has_acct(s, a) || a == e.account) by {
        let k = choose|k: int| 0 <= k < s2.len() && s2[k].account == a;
        if k < s.len() {
            assert(s[k].account == a);
        }
    }
    assert forall|a: AccountId| has_acct(s, a) implies has_acct(s2, a) by {
        let k = choose|k: int| 0 <= k < s.len() && s[k].account == a;
        assert(s2[k].account == a);
    }
    assert forall|a: AccountId| a != e.account && has_acct(s, a) implies free_of(s2, a) == free_of(
        s,
        a,
    ) && reserved_of(s2, a) == reserved_of(s, a) by {
        let k = acct_idx(s, a);
        lemma_acct_idx_is(s2, a, k);
        assert(s2[k] == s[k]);
    }
}

/// With unique accounts, any index holding `who` is the chosen one.
pub proof fn lemma_acct_idx_is(s: Seq<AccountBalance>, who: AccountId, i: int)
    requires
        forall|a: int, b: int| 0 <= a < b < s.len() ==> s[a].account != s[b].account,
        0 <= i < s.len(),
        s[i].account == who,
    ensures
        has_acct(s, who),
        acct_idx(s, who) == i,
{
    assert(has_acct(s, who));
    let j = acct_idx(s, who);
    if i < j {
        assert(s[i].account != s[j].account);
    } else if j < i {
        assert(s[j].account != s[i].account);
    }
}

/// Appending a fresh account keeps the account keys unique.
proof fn lemma_push_keeps_wf(s: Seq<AccountBalance>, e: AccountBalance)
    requires
        forall|a: int, b: int| 0 <= a < b < s.len() ==> s[a].account != s[b].account,
        !has_acct(s, e.account),
    ensures
        forall|a: int, b: int|
            0 <= a < b < s.push(e).len() ==> s.push(e)[a].account != s.push(e)[b].account,
{
    assert forall|a: int, b: int| 0 <= a < b < s.push(e).len() implies s.push(e)[a].account
        != s.push(e)[b].account by {
        if b < s.len() {
        } else {
            assert(s.push(e)[b].account == e.account);
            assert(s.push(e)[a] == s[a]);
            assert(s[a].account != e.account);
        }
    }
}

} // verus!
