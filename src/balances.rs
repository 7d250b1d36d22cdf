use std::collections::HashMap;
use vstd::prelude::*;
use crate::types::{AccountId, Balance, Error};

verus! {

broadcast use vstd::std_specs::hash::group_hash_axioms;

/// The balances of one account: what it may spend, and what is held back.
#[derive(Clone, Copy, Debug, PartialEq, Eq, Structural)]
pub struct AccountData {
    pub free: Balance,
    pub reserved: Balance,
}

/// The balance ledger: a free and a reserved balance per account. An account
/// that was never credited holds zero of each.
pub struct Balances {
    accounts: HashMap<AccountId, AccountData>,
}

/// The balances of an account that holds nothing.
pub open spec fn empty_account() -> AccountData {
    AccountData { free: 0, reserved: 0 }
}

impl Balances {
    /// The balances of `who`.
    pub closed spec fn account(&self, who: AccountId) -> AccountData {
        if self.accounts@.contains_key(who) {
            self.accounts@[who]
        } else {
            empty_account()
        }
    }

    /// Every account's total (free plus reserved) fits in a `Balance`.
    pub closed spec fn wf(&self) -> bool {
        forall|who: AccountId|
            #[trigger] self.account(who).free + self.account(who).reserved <= u128::MAX
    }

    /// `other` holds the same balances as `self` for every account but `a` and `b`.
    pub open spec fn same_except(&self, other: &Self, a: AccountId, b: AccountId) -> bool {
        forall|who: AccountId| who != a && who != b ==> #[trigger] other.account(who) == self.account(who)
    }

    /// A ledger on which every account holds nothing.
    pub fn new() -> (r: Self)
        ensures
            r.wf(),
            forall|who: AccountId| #[trigger] r.account(who) == empty_account(),
    {
        Balances { accounts: HashMap::new() }
    }

    fn get(&self, who: AccountId) -> (r: AccountData)
        ensures
            r == self.account(who),
    {
        match self.accounts.get(&who) {
            Some(d) => *d,
            None => AccountData { free: 0, reserved: 0 },
        }
    }

    fn put(&mut self, who: AccountId, d: AccountData)
        ensures
            final(self).account(who) == d,
            old(self).same_except(final(self), who, who),
    {
        self.accounts.insert(who, d);
    }

    /// The balances of `who`.
    pub fn account_data(&self, who: AccountId) -> (r: AccountData)
        ensures
            r == self.account(who),
            self.wf() ==> r.free + r.reserved <= u128::MAX,
    {
        self.get(who)
    }

    /// What `who` may spend.
    pub fn free_balance(&self, who: AccountId) -> (r: Balance)
        ensures
            r == self.account(who).free,
    {
        self.get(who).free
    }

    /// What is held back from `who`.
    pub fn reserved_balance(&self, who: AccountId) -> (r: Balance)
        ensures
            r == self.account(who).reserved,
    {
        self.get(who).reserved
    }

    /// Credits `amount` to the free balance of `who`; fails, changing nothing,
    /// where the account's total would not fit in a `Balance`.
    pub fn deposit(&mut self, who: AccountId, amount: Balance) -> (r: Result<(), Error>)
        requires
            old(self).wf(),
        ensures
            final(self).wf(),
            r is Err <==> old(self).account(who).free + old(self).account(who).reserved + amount
                > u128::MAX,
            r is Err ==> r == Err::<(), Error>(Error::BalanceOverflow) && *final(self) == *old(self),
            r is Ok ==> final(self).account(who) == (AccountData {
                free: (old(self).account(who).free + amount) as u128,
                reserved: old(self).account(who).reserved,
            }),
            old(self).same_except(final(self), who, who),
    {
        let d = self.get(who);
        if amount > u128::MAX - d.free - d.reserved {
            return Err(Error::BalanceOverflow);
        }
        self.put(who, AccountData { free: d.free + amount, reserved: d.reserved });
        Ok(())
    }

    /// Moves `amount` from the free to the reserved balance of `who`; fails,
    /// changing nothing, where the free balance is below `amount`.
    pub fn reserve(&mut self, who: AccountId, amount: Balance) -> (r: Result<(), Error>)
        requires
            old(self).wf(),
        ensures
            final(self).wf(),
            r is Err <==> old(self).account(who).free < amount,
            r is Err ==> r == Err::<(), Error>(Error::NotEnoughBalance) && *final(self) == *old(self),
            r is Ok ==> final(self).account(who) == reserved_from(old(self).account(who), amount),
            old(self).same_except(final(self), who, who),
    {
        let d = self.get(who);
        if d.free < amount {
            return Err(Error::NotEnoughBalance);
        }
        self.put(who, AccountData { free: d.free - amount, reserved: d.reserved + amount });
        Ok(())
    }

    /// Moves up to `amount` from the reserved back to the free balance of
    /// `who`, as much as is reserved; returns the part of `amount` that was not
    /// reserved.
    pub fn unreserve(&mut self, who: AccountId, amount: Balance) -> (r: Balance)
        requires
            old(self).wf(),
        ensures
            final(self).wf(),
            final(self).account(who) == unreserved(old(self).account(who), amount),
            r == amount - moved_back(old(self).account(who), amount),
            old(self).same_except(final(self), who, who),
    {
        let d = self.get(who);
        let actual: Balance = if d.reserved < amount { d.reserved } else { amount };
        self.put(who, AccountData { free: d.free + actual, reserved: d.reserved - actual });
        amount - actual
    }

    /// Moves `amount` of free balance from `from` to `to`, keeping `from`
    /// alive: its free balance must stay above zero. Fails, changing nothing,
    /// with `NotEnoughBalance` where it would not, else with `BalanceOverflow`
    /// where the total of `to` would not fit in a `Balance`.
    pub fn transfer(&mut self, from: AccountId, to: AccountId, amount: Balance) -> (r: Result<(), Error>)
        requires
            old(self).wf(),
        ensures
            final(self).wf(),
            r == transfer_outcome(*old(self), from, to, amount),
            r is Err ==> *final(self) == *old(self),
            r is Ok && from != to ==> final(self).account(from) == (AccountData {
                free: (old(self).account(from).free - amount) as u128,
                reserved: old(self).account(from).reserved,
            }) && final(self).account(to) == (AccountData {
                free: (old(self).account(to).free + amount) as u128,
                reserved: old(self).account(to).reserved,
            }),
            r is Ok && from == to ==> *final(self) == *old(self),
            old(self).same_except(final(self), from, to),
    {
        let f = self.get(from);
        if f.free <= amount {
            return Err(Error::NotEnoughBalance);
        }
        if from == to {
            return Ok(());
        }
        let t = self.get(to);
        if amount > u128::MAX - t.free - t.reserved {
            return Err(Error::BalanceOverflow);
        }
        self.put(from, AccountData { free: f.free - amount, reserved: f.reserved });
        self.put(to, AccountData { free: t.free + amount, reserved: t.reserved });
        Ok(())
    }
}

/// An account's balances after `reserve(amount)`.
pub open spec fn reserved_from(d: AccountData, amount: Balance) -> AccountData {
    AccountData { free: (d.free - amount) as u128, reserved: (d.reserved + amount) as u128 }
}

/// How much `unreserve(amount)` moves back: `amount`, or all that is reserved
/// where that is less.
pub open spec fn moved_back(d: AccountData, amount: Balance) -> Balance {
    if d.reserved < amount {
        d.reserved
    } else {
        amount
    }
}

/// An account's balances after `unreserve(amount)`.
pub open spec fn unreserved(d: AccountData, amount: Balance) -> AccountData {
    AccountData {
        free: (d.free + moved_back(d, amount)) as u128,
        reserved: (d.reserved - moved_back(d, amount)) as u128,
    }
}

/// Whether a keep-alive transfer of `amount` from `from` to `to` succeeds.
pub open spec fn transfer_outcome(b: Balances, from: AccountId, to: AccountId, amount: Balance) -> Result<(), Error> {
    if b.account(from).free <= amount {
        Err(Error::NotEnoughBalance)
    } else if from != to && b.account(to).free + b.account(to).reserved + amount > u128::MAX {
        Err(Error::BalanceOverflow)
    } else {
        Ok(())
    }
}

} // verus!
