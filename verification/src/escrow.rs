//! The escrow controller: a monetary ledger of free and reserved funds
//! per account.
//!
//! Reserving moves funds from free to reserved, releasing moves them
//! back, and repatriating moves reserved funds of one account into the
//! free funds of another.  The engine pairs each of these calls with
//! exactly one bid status transition.

use std::collections::HashMap;

use vstd::prelude::*;

verus! {

broadcast use vstd::std_specs::hash::group_hash_axioms;

/// The funds of one account, split into free and reserved parts.
#[derive(Clone, Copy, PartialEq, Eq, Debug, Structural)]
pub struct Funds {
    /// Funds at the account's free disposal.
    pub free: u64,
    /// Funds reserved against the account's winning bids.
    pub reserved: u64,
}

/// Ledger of all accounts' funds.  An account that was never endowed
/// holds no funds at all.
pub struct Escrow {
    /// Funds per account; an absent key means zero funds.
    pub accounts: HashMap<u64, Funds>,
}

/// A ledger stays well formed when the funds of a single account change
/// to a sum that still fits the balance type.
proof fn lemma_wf_one_changed(pre: Escrow, post: Escrow, account: u64)
    requires
        pre.wf(),
        post.funds_of(account).free + post.funds_of(account).reserved <= u64::MAX,
        forall|x: u64| x != account ==> post.funds_of(x) == pre.funds_of(x),
    ensures
        post.wf(),
{
    assert forall|a: u64|
        (#[trigger] post.funds_of(a)).free + post.funds_of(a).reserved <= u64::MAX by {
        if a != account {
            assert(post.funds_of(a) == pre.funds_of(a));
        }
    }
}

/// A ledger stays well formed when the funds of two accounts change to
/// sums that still fit the balance type.
proof fn lemma_wf_two_changed(pre: Escrow, post: Escrow, first: u64, second: u64)
    requires
        pre.wf(),
        post.funds_of(first).free + post.funds_of(first).reserved <= u64::MAX,
        post.funds_of(second).free + post.funds_of(second).reserved <= u64::MAX,
        forall|x: u64| x != first && x != second ==> post.funds_of(x) == pre.funds_of(x),
    ensures
        post.wf(),
{
    assert forall|a: u64|
        (#[trigger] post.funds_of(a)).free + post.funds_of(a).reserved <= u64::MAX by {
        if a != first && a != second {
            assert(post.funds_of(a) == pre.funds_of(a));
        }
    }
}

impl Escrow {
    /// The funds of `account`; zero for accounts never seen.
    pub open spec fn funds_of(self, account: u64) -> Funds {
        if self.accounts@.contains_key(account) {
            self.accounts@[account]
        } else {
            Funds { free: 0, reserved: 0 }
        }
    }

    /// The free funds of `account`.
    pub open spec fn free_of(self, account: u64) -> u64 {
        self.funds_of(account).free
    }

    /// The reserved funds of `account`.
    pub open spec fn reserved_of(self, account: u64) -> u64 {
        self.funds_of(account).reserved
    }

    /// Every account's total funds fit the balance type, so moving
    /// funds between the free and reserved parts can never overflow.
    pub open spec fn wf(self) -> bool {
        forall|a: u64| (#[trigger] self.funds_of(a)).free + self.funds_of(a).reserved <= u64::MAX
    }

    /// An empty ledger.
    pub fn new() -> (r: Escrow)
        ensures
            r.wf(),
            forall|a: u64| #[trigger] r.funds_of(a) == (Funds { free: 0, reserved: 0 }),
    {
        Escrow { accounts: HashMap::new() }
    }

    /// The free funds of `account`.
    pub fn free_balance(&self, account: u64) -> (r: u64)
        ensures
            r == self.free_of(account),
    {
        match self.accounts.get(&account) {
            Some(f) => f.free,
            None => 0,
        }
    }

    /// The reserved funds of `account`.
    pub fn reserved_balance(&self, account: u64) -> (r: u64)
        ensures
            r == self.reserved_of(account),
    {
        match self.accounts.get(&account) {
            Some(f) => f.reserved,
            None => 0,
        }
    }

    /// Adds `amount` to the free funds of `account`; fails (changing
    /// nothing) when the account's total funds would overflow.
    pub fn endow(&mut self, account: u64, amount: u64) -> (ok: bool)
        requires
            old(self).wf(),
        ensures
            final(self).wf(),
            ok <==> old(self).free_of(account) + old(self).reserved_of(account) + amount
                <= u64::MAX,
            ok ==> final(self).funds_of(account) == (Funds {
                free: (old(self).free_of(account) + amount) as u64,
                reserved: old(self).reserved_of(account),
            }),
            !ok ==> *final(self) == *old(self),
            forall|x: u64| x != account ==> final(self).funds_of(x) == old(self).funds_of(x),
    {
        let f = match self.accounts.get(&account) {
            Some(f) => *f,
            None => Funds { free: 0, reserved: 0 },
        };
        if amount <= u64::MAX - f.reserved && f.free <= (u64::MAX - f.reserved) - amount {
            self.accounts.insert(account, Funds { free: f.free + amount, reserved: f.reserved });
            proof {
                lemma_wf_one_changed(*old(self), *self, account);
            }
            true
        } else {
            false
        }
    }

    /// Moves `amount` from the free to the reserved funds of `account`.
    pub fn reserve(&mut self, account: u64, amount: u64)
        requires
            old(self).wf(),
            amount <= old(self).free_of(account),
        ensures
            final(self).wf(),
            final(self).funds_of(account) == (Funds {
                free: (old(self).free_of(account) - amount) as u64,
                reserved: (old(self).reserved_of(account) + amount) as u64,
            }),
            forall|x: u64| x != account ==> final(self).funds_of(x) == old(self).funds_of(x),
    {
        let f = match self.accounts.get(&account) {
            Some(f) => *f,
            None => Funds { free: 0, reserved: 0 },
        };
        self.accounts.insert(account, Funds { free: f.free - amount, reserved: f.reserved + amount });
        proof {
            lemma_wf_one_changed(*old(self), *self, account);
        }
    }

    /// Moves `amount` from the reserved back to the free funds of
    /// `account` (releasing a surpassed bid's reservation).
    pub fn unreserve(&mut self, account: u64, amount: u64)
        requires
            old(self).wf(),
            amount <= old(self).reserved_of(account),
        ensures
            final(self).wf(),
            final(self).funds_of(account) == (Funds {
                free: (old(self).free_of(account) + amount) as u64,
                reserved: (old(self).reserved_of(account) - amount) as u64,
            }),
            forall|x: u64| x != account ==> final(self).funds_of(x) == old(self).funds_of(x),
    {
        let f = match self.accounts.get(&account) {
            Some(f) => *f,
            None => Funds { free: 0, reserved: 0 },
        };
        self.accounts.insert(account, Funds { free: f.free + amount, reserved: f.reserved - amount });
        proof {
            lemma_wf_one_changed(*old(self), *self, account);
        }
    }

    /// Moves `amount` of `from`'s reserved funds into `to`'s free funds
    /// (repatriating a winning bid's reservation to the host).
    pub fn repatriate(&mut self, from: u64, to: u64, amount: u64)
        requires
            old(self).wf(),
            from != to,
            amount <= old(self).reserved_of(from),
            old(self).free_of(to) + old(self).reserved_of(to) + amount <= u64::MAX,
        ensures
            final(self).wf(),
            final(self).funds_of(from) == (Funds {
                free: old(self).free_of(from),
                reserved: (old(self).reserved_of(from) - amount) as u64,
            }),
            final(self).funds_of(to) == (Funds {
                free: (old(self).free_of(to) + amount) as u64,
                reserved: old(self).reserved_of(to),
            }),
            forall|x: u64| x != from && x != to ==> final(self).funds_of(x) == old(self).funds_of(
                x,
            ),
    {
        let f = match self.accounts.get(&from) {
            Some(f) => *f,
            None => Funds { free: 0, reserved: 0 },
        };
        self.accounts.insert(from, Funds { free: f.free, reserved: f.reserved - amount });
        let t = match self.accounts.get(&to) {
            Some(t) => *t,
            None => Funds { free: 0, reserved: 0 },
        };
        self.accounts.insert(to, Funds { free: t.free + amount, reserved: t.reserved });
        proof {
            lemma_wf_two_changed(*old(self), *self, from, to);
        }
    }
}

} // verus!
