//! The balance-transfer capability that the host ledger provides, and a
//! plain in-memory ledger that meets it.
use vstd::prelude::*;
use vstd::hash_map::HashMapWithView;
use crate::types::{AccountId, Balance};

verus! {

broadcast use vstd::std_specs::hash::group_hash_axioms;

/// The balance of `who`, which held `before`, once `amount` has moved from
/// `from` to `to`.
pub open spec fn balance_after_payment(
    before: nat,
    who: AccountId,
    from: AccountId,
    to: AccountId,
    amount: Balance,
) -> nat {
    if from == to {
        before
    } else if who == from {
        (before - amount) as nat
    } else if who == to {
        (before + amount) as nat
    } else {
        before
    }
}

/// What the marketplace needs from the host: its currency.
pub trait Config {
    /// The spendable balance of `who`.
    spec fn balance_of(&self, who: AccountId) -> nat;

    /// The spendable balance of `who`.
    fn free_balance(&self, who: AccountId) -> (r: Balance)
        ensures
            r as nat == self.balance_of(who),
    ;

    /// Moves `amount` from `from` to `to`. The ledger may refuse for reasons
    /// of its own (an existence threshold, a lock); a refusal changes no
    /// balance, and an acceptance means the payer could pay.
    fn transfer(&mut self, from: AccountId, to: AccountId, amount: Balance) -> (r: bool)
        ensures
            r ==> old(self).balance_of(from) >= amount,
            forall|a: AccountId| #[trigger]
                final(self).balance_of(a) == (if r {
                    balance_after_payment(old(self).balance_of(a), a, from, to, amount)
                } else {
                    old(self).balance_of(a)
                }),
    ;
}

/// A ledger of balances held in memory; an account never seen holds zero.
pub struct Balances {
    accounts: HashMapWithView<AccountId, Balance>,
}

impl Balances {
    /// The balance held by `who`.
    pub closed spec fn balance(&self, who: AccountId) -> nat {
        if self.accounts@.contains_key(who) {
            self.accounts@[who] as nat
        } else {
            0
        }
    }

    /// A ledger where every account holds zero.
    pub fn new() -> (r: Self)
        ensures
            forall|a: AccountId| #[trigger] r.balance(a) == 0,
    {
        Balances { accounts: HashMapWithView::new() }
    }

    /// Sets the balance of `who` to `amount`.
    pub fn set_balance(&mut self, who: AccountId, amount: Balance)
        ensures
            final(self).balance(who) == amount,
            forall|a: AccountId| a != who ==> #[trigger] final(self).balance(a) == old(self).balance(
                a,
            ),
    {
        self.accounts.insert(who, amount);
    }
}

impl Config for Balances {
    open spec fn balance_of(&self, who: AccountId) -> nat {
        self.balance(who)
    }

    fn free_balance(&self, who: AccountId) -> (r: Balance) {
        match self.accounts.get(&who) {
            Some(b) => *b,
            None => 0,
        }
    }

    /// Refuses when the payer holds less than `amount` or the payee's
    /// balance would overflow.
    fn transfer(&mut self, from: AccountId, to: AccountId, amount: Balance) -> (r: bool) {
        let paid = self.free_balance(from);
        if paid < amount {
            return false;
        }
        if from == to {
            return true;
        }
        let got = self.free_balance(to);
        match got.checked_add(amount) {
            Some(sum) => {
                self.accounts.insert(from, paid - amount);
                self.accounts.insert(to, sum);
                true
            },
            None => false,
        }
    }
}

} // verus!
