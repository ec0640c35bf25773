//! The custody book: every token balance held by the system, keyed by the
//! account that holds it.  Funds may only be moved out of an account by the
//! operation presenting the matching authority token, which models proof of
//! knowing the derivation of a keyless vault authority.

use vstd::prelude::*;

use crate::error::ErrorCode;
use crate::seqs::{
    first_keyed, keys_unique, lemma_first_keyed_at, lemma_first_keyed_push, lemma_first_keyed_some,
    lemma_first_keyed_update, lemma_sum_by_elem, lemma_sum_by_push, lemma_sum_by_update, sum_by,
};
use crate::state::AccountId;

verus! {

/// A custody account: an external token account keyed by its owner, the
/// vault bound to a contest, or the single global stake vault.
#[derive(Clone, Copy, Debug, PartialEq, Eq, Structural)]
pub enum CustodyKey {
    External(AccountId),
    ContestVault(u64),
    StakeVault,
}

/// Proof of the right to move funds out of a custody account: an external
/// holder's own signature, a contest vault's derived authority, or the stake
/// vault's derived authority.
#[derive(Clone, Copy, Debug, PartialEq, Eq, Structural)]
pub enum Authority {
    Holder(AccountId),
    VaultAuthority(u64),
    StakeAuthority,
}

/// The authority entitled to move funds out of each custody account.
pub open spec fn controller(k: CustodyKey) -> Authority {
    match k {
        CustodyKey::External(a) => Authority::Holder(a),
        CustodyKey::ContestVault(id) => Authority::VaultAuthority(id),
        CustodyKey::StakeVault => Authority::StakeAuthority,
    }
}

/// The authority entitled to move funds out of `k`.
pub fn controller_of(k: CustodyKey) -> (a: Authority)
    ensures
        a == controller(k),
{
    match k {
        CustodyKey::External(owner) => Authority::Holder(owner),
        CustodyKey::ContestVault(id) => Authority::VaultAuthority(id),
        CustodyKey::StakeVault => Authority::StakeAuthority,
    }
}

spec fn key_fn() -> spec_fn((CustodyKey, u64)) -> CustodyKey {
    |e: (CustodyKey, u64)| e.0
}

spec fn amt_fn() -> spec_fn((CustodyKey, u64)) -> int {
    |e: (CustodyKey, u64)| e.1 as int
}

/// The custody book.  Balances change only through `mint` (external funding
/// entering the system) and `transfer` (an authorized move between two
/// accounts), so the sum of all balances always equals the minted total and
/// no transfer can overflow a balance.
pub struct Ledger {
    accounts: Vec<(CustodyKey, u64)>,
    total: u64,
}

impl Ledger {
    /// Every key appears at most once and the balances sum to the minted
    /// total.
    pub closed spec fn wf(self) -> bool {
        &&& keys_unique(self.accounts@, key_fn())
        &&& sum_by(self.accounts@, amt_fn()) == self.total
    }

    /// The balance held by `k`; an account never credited holds zero.
    pub closed spec fn balance(self, k: CustodyKey) -> u64 {
        match first_keyed(self.accounts@, key_fn(), k) {
            Some(e) => e.1,
            None => 0,
        }
    }

    /// Total amount ever minted into custody.
    pub closed spec fn total_supply(self) -> u64 {
        self.total
    }

    /// An empty book.
    pub fn new() -> (l: Ledger)
        ensures
            l.wf(),
            l.total_supply() == 0,
            forall|k: CustodyKey| l.balance(k) == 0,
    {
        let l = Ledger { accounts: Vec::new(), total: 0 };
        proof {
            assert forall|k: CustodyKey| l.balance(k) == 0 by {
                assert(first_keyed(l.accounts@, key_fn(), k) is None);
            }
        }
        l
    }

    /// Index of the entry holding `k`, if one exists.
    fn find_idx(&self, k: CustodyKey) -> (r: Option<usize>)
        ensures
            r matches Some(i) ==> i < self.accounts@.len() && self.accounts@[i as int].0 == k,
            r is None ==> forall|j: int| 0 <= j < self.accounts@.len() ==> self.accounts@[j].0 != k,
    {
        let n = self.accounts.len();
        for i in 0..n
            invariant
                n == self.accounts@.len(),
                forall|j: int| 0 <= j < i ==> self.accounts@[j].0 != k,
        {
            if self.accounts[i].0 == k {
                return Some(i);
            }
        }
        None
    }

    /// Add `amount` to the account `to`, which must not overflow the sum.
    fn credit(&mut self, to: CustodyKey, amount: u64)
        requires
            keys_unique(old(self).accounts@, key_fn()),
            sum_by(old(self).accounts@, amt_fn()) + amount <= u64::MAX,
        ensures
            keys_unique(final(self).accounts@, key_fn()),
            sum_by(final(self).accounts@, amt_fn()) == sum_by(old(self).accounts@, amt_fn())
                + amount,
            final(self).balance(to) == old(self).balance(to) + amount,
            forall|k: CustodyKey| k != to ==> final(self).balance(k) == old(self).balance(k),
            final(self).total == old(self).total,
    {
        proof {
            crate::seqs::lemma_sum_by_nonneg(self.accounts@, amt_fn());
        }
        match self.find_idx(to) {
            Some(i) => {
                let ghost s0 = self.accounts@;
                let old_bal = self.accounts[i].1;
                proof {
                    lemma_first_keyed_at(s0, key_fn(), i as int);
                    lemma_sum_by_elem(s0, amt_fn(), i as int);
                }
                self.accounts[i] = (to, old_bal + amount);
                proof {
                    lemma_first_keyed_update(s0, key_fn(), i as int, (to, (old_bal + amount) as u64));
                    lemma_sum_by_update(s0, amt_fn(), i as int, (to, (old_bal + amount) as u64));
                }
            },
            None => {
                let ghost s0 = self.accounts@;
                self.accounts.push((to, amount));
                proof {
                    lemma_first_keyed_some(s0, key_fn(), to);
                    lemma_first_keyed_push(s0, key_fn(), (to, amount));
                    lemma_sum_by_push(s0, amt_fn(), (to, amount));
                }
            },
        }
    }

    /// Fund an external account from outside the system.
    ///
    /// Succeeds exactly when the minted total stays within range; on failure
    /// nothing changes.
    pub fn mint(&mut self, to: CustodyKey, amount: u64) -> (r: Result<(), ErrorCode>)
        requires
            old(self).wf(),
        ensures
            final(self).wf(),
            r is Ok <==> old(self).total_supply() + amount <= u64::MAX,
            r is Err ==> r == Err::<(), ErrorCode>(ErrorCode::NumericalOverflow) && *final(self)
                == *old(self),
            r is Ok ==> {
                &&& final(self).total_supply() == old(self).total_supply() + amount
                &&& final(self).balance(to) == old(self).balance(to) + amount
                &&& forall|k: CustodyKey|
                    k != to ==> final(self).balance(k) == old(self).balance(k)
            },
    {
        match self.total.checked_add(amount) {
            Some(nt) => {
                self.credit(to, amount);
                self.total = nt;
                Ok(())
            },
            None => Err(ErrorCode::NumericalOverflow),
        }
    }

    /// Move `amount` from `from` to `to`, presenting authority `auth`.
    ///
    /// Succeeds exactly when `auth` is the controller of `from` and the
    /// balance suffices; on failure nothing changes.  The minted total is
    /// conserved, so the credited balance cannot overflow.
    pub fn transfer(&mut self, from: CustodyKey, to: CustodyKey, auth: Authority, amount: u64) -> (r:
        Result<(), ErrorCode>)
        requires
            old(self).wf(),
        ensures
            final(self).wf(),
            final(self).total_supply() == old(self).total_supply(),
            r is Ok <==> auth == controller(from) && amount <= old(self).balance(from),
            auth != controller(from) ==> r == Err::<(), ErrorCode>(ErrorCode::InvalidOwner),
            auth == controller(from) && amount > old(self).balance(from) ==> r == Err::<(),
                ErrorCode,
            >(ErrorCode::InsufficientFunds),
            r is Err ==> *final(self) == *old(self),
            r is Ok && from != to ==> {
                &&& final(self).balance(from) == old(self).balance(from) - amount
                &&& final(self).balance(to) == old(self).balance(to) + amount
                &&& forall|k: CustodyKey|
                    k != from && k != to ==> final(self).balance(k) == old(self).balance(k)
            },
            r is Ok && from == to ==> forall|k: CustodyKey|
                final(self).balance(k) == old(self).balance(k),
    {
        if controller_of(from) != auth {
            return Err(ErrorCode::InvalidOwner);
        }
        match self.find_idx(from) {
            Some(i) => {
                let ghost s0 = self.accounts@;
                let from_bal = self.accounts[i].1;
                proof {
                    lemma_first_keyed_at(s0, key_fn(), i as int);
                }
                if amount > from_bal {
                    return Err(ErrorCode::InsufficientFunds);
                }
                if from == to {
                    return Ok(());
                }
                self.accounts[i] = (from, from_bal - amount);
                proof {
                    lemma_first_keyed_update(s0, key_fn(), i as int, (from, (from_bal - amount) as u64));
                    lemma_sum_by_update(s0, amt_fn(), i as int, (from, (from_bal - amount) as u64));
                }
                self.credit(to, amount);
                Ok(())
            },
            None => {
                proof {
                    lemma_first_keyed_some(self.accounts@, key_fn(), from);
                }
                if amount > 0 {
                    return Err(ErrorCode::InsufficientFunds);
                }
                Ok(())
            },
        }
    }

    /// The balance held by `k`.
    pub fn balance_of(&self, k: CustodyKey) -> (b: u64)
        requires
            self.wf(),
        ensures
            b == self.balance(k),
    {
        match self.find_idx(k) {
            Some(i) => {
                proof {
                    lemma_first_keyed_at(self.accounts@, key_fn(), i as int);
                }
                self.accounts[i].1
            },
            None => {
                proof {
                    lemma_first_keyed_some(self.accounts@, key_fn(), k);
                }
                0
            },
        }
    }
}

} // verus!
