//! A single-asset-per-row balance ledger with atomic, authorized transfers.
//!
//! The escrow state machine never touches balances directly: it issues
//! transfers against this ledger, which checks funds and moves value
//! atomically, leaving everything unchanged on failure.

use vstd::prelude::*;

use crate::errors::EscrowError;
use crate::ids::{AccountId, AssetId, Authority, LedgerAccount};

verus! {

/// One balance row: how much of `asset` the ledger holds for `account`.
#[derive(Clone, Copy, Debug, PartialEq, Eq, Structural)]
pub struct LedgerEntry {
    pub account: LedgerAccount,
    pub asset: AssetId,
    pub balance: u64,
}

/// Whether row `e` keeps the balance of `account` in `asset`.
pub open spec fn is_slot(e: LedgerEntry, account: LedgerAccount, asset: AssetId) -> bool {
    e.account == account && e.asset == asset
}

/// Whether two rows keep the balance of the same `(account, asset)` slot.
pub open spec fn same_slot(a: LedgerEntry, b: LedgerEntry) -> bool {
    a.account == b.account && a.asset == b.asset
}

/// Balance of `account` in `asset` according to the rows of `s`: the last
/// matching row's balance, or zero when no row matches.
pub open spec fn balance_in(s: Seq<LedgerEntry>, account: LedgerAccount, asset: AssetId) -> u64
    decreases s.len(),
{
    if s.len() == 0 {
        0u64
    } else if is_slot(s.last(), account, asset) {
        s.last().balance
    } else {
        balance_in(s.drop_last(), account, asset)
    }
}

/// Sum of all balances in `s`.
pub open spec fn total_in(s: Seq<LedgerEntry>) -> int
    decreases s.len(),
{
    if s.len() == 0 {
        0
    } else {
        total_in(s.drop_last()) + s.last().balance
    }
}

/// No two rows of `s` name the same `(account, asset)` slot.
pub open spec fn rows_unique(s: Seq<LedgerEntry>) -> bool {
    forall|i: int, j: int| 0 <= i < j < s.len() ==> !same_slot(s[i], s[j])
}

proof fn lemma_unique_drop_last(s: Seq<LedgerEntry>)
    requires
        rows_unique(s),
        s.len() > 0,
    ensures
        rows_unique(s.drop_last()),
{
    assert forall|i: int, j: int| 0 <= i < j < s.drop_last().len() implies !same_slot(
        s.drop_last()[i],
        s.drop_last()[j],
    ) by {
        assert(s.drop_last()[i] == s[i]);
        assert(s.drop_last()[j] == s[j]);
    }
}

/// In a duplicate-free ledger, row `i` is the balance of its own slot.
proof fn lemma_balance_at_index(s: Seq<LedgerEntry>, i: int)
    requires
        rows_unique(s),
        0 <= i < s.len(),
    ensures
        balance_in(s, s[i].account, s[i].asset) == s[i].balance,
    decreases s.len(),
{
    if i == s.len() - 1 {
    } else {
        assert(!same_slot(s[i], s[s.len() - 1]));
        lemma_unique_drop_last(s);
        assert(s.drop_last()[i] == s[i]);
        lemma_balance_at_index(s.drop_last(), i);
    }
}

/// A slot with no row has balance zero.
proof fn lemma_balance_absent(s: Seq<LedgerEntry>, account: LedgerAccount, asset: AssetId)
    requires
        forall|i: int| 0 <= i < s.len() ==> !is_slot(#[trigger] s[i], account, asset),
    ensures
        balance_in(s, account, asset) == 0,
    decreases s.len(),
{
    if s.len() > 0 {
        assert(!is_slot(s[s.len() - 1], account, asset));
        assert forall|i: int| 0 <= i < s.drop_last().len() implies !is_slot(
            #[trigger] s.drop_last()[i],
            account,
            asset,
        ) by {
            assert(s.drop_last()[i] == s[i]);
        }
        lemma_balance_absent(s.drop_last(), account, asset);
    }
}

/// Replacing row `i` by a row of the same slot changes exactly that slot's
/// balance and no other.
proof fn lemma_balance_update(
    s: Seq<LedgerEntry>,
    i: int,
    e: LedgerEntry,
    account: LedgerAccount,
    asset: AssetId,
)
    requires
        rows_unique(s),
        0 <= i < s.len(),
        same_slot(e, s[i]),
    ensures
        balance_in(s.update(i, e), account, asset) == if is_slot(e, account, asset) {
            e.balance
        } else {
            balance_in(s, account, asset)
        },
    decreases s.len(),
{
    let t = s.update(i, e);
    if i == s.len() - 1 {
        assert(t.last() == e);
        assert(t.drop_last() =~= s.drop_last());
        assert(is_slot(s.last(), account, asset) == is_slot(e, account, asset));
    } else {
        assert(t.last() == s.last());
        assert(t.drop_last() =~= s.drop_last().update(i, e));
        lemma_unique_drop_last(s);
        assert(s.drop_last()[i] == s[i]);
        lemma_balance_update(s.drop_last(), i, e, account, asset);
        assert(!same_slot(s[i], s[s.len() - 1]));
    }
}

/// Appending a row for a slot sets that slot's balance and no other.
proof fn lemma_balance_push(
    s: Seq<LedgerEntry>,
    e: LedgerEntry,
    account: LedgerAccount,
    asset: AssetId,
)
    ensures
        balance_in(s.push(e), account, asset) == if is_slot(e, account, asset) {
            e.balance
        } else {
            balance_in(s, account, asset)
        },
{
    assert(s.push(e).last() == e);
    assert(s.push(e).drop_last() =~= s);
}

proof fn lemma_total_update(s: Seq<LedgerEntry>, i: int, e: LedgerEntry)
    requires
        0 <= i < s.len(),
    ensures
        total_in(s.update(i, e)) == total_in(s) - s[i].balance + e.balance,
    decreases s.len(),
{
    let t = s.update(i, e);
    if i == s.len() - 1 {
        assert(t.last() == e);
        assert(t.drop_last() =~= s.drop_last());
    } else {
        assert(t.last() == s.last());
        assert(t.drop_last() =~= s.drop_last().update(i, e));
        assert(s.drop_last()[i] == s[i]);
        lemma_total_update(s.drop_last(), i, e);
    }
}

proof fn lemma_total_push(s: Seq<LedgerEntry>, e: LedgerEntry)
    ensures
        total_in(s.push(e)) == total_in(s) + e.balance,
{
    assert(s.push(e).last() == e);
    assert(s.push(e).drop_last() =~= s);
}

/// Balances are non-negative, so no slot's balance exceeds the total.
proof fn lemma_balance_le_total(s: Seq<LedgerEntry>, account: LedgerAccount, asset: AssetId)
    ensures
        0 <= balance_in(s, account, asset) <= total_in(s),
    decreases s.len(),
{
    if s.len() > 0 {
        lemma_balance_le_total(s.drop_last(), account, asset);
    }
}

/// Two distinct slots together never exceed the total: the headroom that
/// makes every transfer's credit side fit in a `u64`.
proof fn lemma_two_balances_le_total(
    s: Seq<LedgerEntry>,
    a1: LedgerAccount,
    t1: AssetId,
    a2: LedgerAccount,
    t2: AssetId,
)
    requires
        rows_unique(s),
        !(a1 == a2 && t1 == t2),
    ensures
        balance_in(s, a1, t1) + balance_in(s, a2, t2) <= total_in(s),
    decreases s.len(),
{
    if s.len() > 0 {
        lemma_unique_drop_last(s);
        if is_slot(s.last(), a1, t1) {
            lemma_balance_le_total(s.drop_last(), a2, t2);
        } else if is_slot(s.last(), a2, t2) {
            lemma_balance_le_total(s.drop_last(), a1, t1);
        } else {
            lemma_two_balances_le_total(s.drop_last(), a1, t1, a2, t2);
        }
    }
}

proof fn lemma_unique_update(s: Seq<LedgerEntry>, i: int, e: LedgerEntry)
    requires
        rows_unique(s),
        0 <= i < s.len(),
        same_slot(e, s[i]),
    ensures
        rows_unique(s.update(i, e)),
{
    let t = s.update(i, e);
    assert forall|p: int, q: int| 0 <= p < q < t.len() implies !same_slot(t[p], t[q]) by {
        assert(!same_slot(s[p], s[q]));
    }
}

proof fn lemma_unique_push(s: Seq<LedgerEntry>, e: LedgerEntry)
    requires
        rows_unique(s),
        forall|i: int| 0 <= i < s.len() ==> !is_slot(#[trigger] s[i], e.account, e.asset),
    ensures
        rows_unique(s.push(e)),
{
    let t = s.push(e);
    assert forall|p: int, q: int| 0 <= p < q < t.len() implies !same_slot(t[p], t[q]) by {
        if q < s.len() {
            assert(!same_slot(s[p], s[q]));
        } else {
            assert(t[q] == e);
            assert(!is_slot(s[p], e.account, e.asset));
        }
    }
}

/// The ledger: balances per `(account, asset)` slot, plus the running total
/// of every balance, which caps each slot at `u64::MAX`.
pub struct Ledger {
    entries: Vec<LedgerEntry>,
    total: u64,
}

impl Ledger {
    /// Every slot has at most one row and the recorded total is the exact sum
    /// of all balances, so any one balance — and any two together — fit in a
    /// `u64`.
    pub closed spec fn wf(self) -> bool {
        &&& rows_unique(self.entries@)
        &&& self.total == total_in(self.entries@)
    }

    /// The balance of `account` in `asset` (zero when the slot has no row).
    pub closed spec fn balance_of(self, account: LedgerAccount, asset: AssetId) -> u64 {
        balance_in(self.entries@, account, asset)
    }

    /// The sum of every balance the ledger holds.
    pub closed spec fn total_supply(self) -> u64 {
        self.total
    }

    /// An empty ledger: every balance is zero.
    pub fn new() -> (r: Ledger)
        ensures
            r.wf(),
            r.total_supply() == 0,
            forall|a: LedgerAccount, t: AssetId| r.balance_of(a, t) == 0,
    {
        Ledger { entries: Vec::new(), total: 0 }
    }

    /// Index of the row for `(account, asset)`, if one exists.
    fn find(&self, account: LedgerAccount, asset: AssetId) -> (r: Option<usize>)
        ensures
            match r {
                Some(i) => i < self.entries@.len() && is_slot(self.entries@[i as int], account, asset),
                None => forall|i: int|
                    0 <= i < self.entries@.len() ==> !is_slot(#[trigger] self.entries@[i], account, asset),
            },
    {
        let n = self.entries.len();
        let mut i: usize = 0;
        while i < n
            invariant
                i <= n,
                n == self.entries@.len(),
                forall|j: int| 0 <= j < i ==> !is_slot(#[trigger] self.entries@[j], account, asset),
            decreases n - i,
        {
            let e = self.entries[i];
            if e.account == account && e.asset == asset {
                return Some(i);
            }
            i = i + 1;
        }
        None
    }

    /// The balance of `account` in `asset`.
    pub fn balance(&self, account: LedgerAccount, asset: AssetId) -> (r: u64)
        requires
            self.wf(),
        ensures
            r == self.balance_of(account, asset),
    {
        match self.find(account, asset) {
            Some(i) => {
                proof {
                    lemma_balance_at_index(self.entries@, i as int);
                }
                self.entries[i].balance
            },
            None => {
                proof {
                    lemma_balance_absent(self.entries@, account, asset);
                }
                0
            },
        }
    }

    /// Credits freshly issued units of `asset` to a party's own account — the
    /// way the surrounding system funds a payer. Returns false, changing
    /// nothing, when the issue would push the total supply past `u64::MAX`.
    pub fn deposit(&mut self, account: AccountId, asset: AssetId, amount: u64) -> (r: bool)
        requires
            old(self).wf(),
        ensures
            final(self).wf(),
            r <==> old(self).total_supply() + amount <= u64::MAX,
            r ==> final(self).total_supply() == old(self).total_supply() + amount,
            !r ==> final(self).total_supply() == old(self).total_supply(),
            final(self).balance_of(LedgerAccount::User(account), asset) == if r {
                old(self).balance_of(LedgerAccount::User(account), asset) + amount
            } else {
                old(self).balance_of(LedgerAccount::User(account), asset) as int
            },
            forall|a: LedgerAccount, t: AssetId|
                !(a == LedgerAccount::User(account) && t == asset) ==> final(self).balance_of(a, t)
                    == old(self).balance_of(a, t),
    {
        if amount > u64::MAX - self.total {
            return false;
        }
        let target = LedgerAccount::User(account);
        match self.find(target, asset) {
            Some(i) => {
                let e = self.entries[i];
                proof {
                    lemma_balance_at_index(self.entries@, i as int);
                    lemma_balance_le_total(self.entries@, target, asset);
                }
                let updated = LedgerEntry { balance: e.balance + amount, ..e };
                let ghost pre = self.entries@;
                self.entries[i] = updated;
                self.total = self.total + amount;
                proof {
                    lemma_unique_update(pre, i as int, updated);
                    lemma_total_update(pre, i as int, updated);
                    assert forall|a: LedgerAccount, t: AssetId|
                        final(self).balance_of(a, t) == if a == target && t == asset {
                            old(self).balance_of(a, t) + amount
                        } else {
                            old(self).balance_of(a, t) as int
                        } by {
                        lemma_balance_update(pre, i as int, updated, a, t);
                    }
                }
                true
            },
            None => {
                let fresh = LedgerEntry { account: target, asset, balance: amount };
                let ghost pre = self.entries@;
                proof {
                    lemma_balance_absent(pre, target, asset);
                }
                self.entries.push(fresh);
                self.total = self.total + amount;
                proof {
                    lemma_unique_push(pre, fresh);
                    lemma_total_push(pre, fresh);
                    assert forall|a: LedgerAccount, t: AssetId|
                        final(self).balance_of(a, t) == if a == target && t == asset {
                            old(self).balance_of(a, t) + amount
                        } else {
                            old(self).balance_of(a, t) as int
                        } by {
                        lemma_balance_push(pre, fresh, a, t);
                    }
                }
                true
            },
        }
    }

    /// Atomically moves `amount` of `asset` from `from` to `to`. Only a
    /// capability for `from` may move its funds. Fails with
    /// `InsufficientFunds`, leaving every balance unchanged, exactly when
    /// `from`'s balance is short.
    pub fn transfer(
        &mut self,
        authority: &Authority,
        asset: AssetId,
        from: LedgerAccount,
        to: LedgerAccount,
        amount: u64,
    ) -> (r: Result<(), EscrowError>)
        requires
            old(self).wf(),
            authority.authorizes(from),
            from != to,
        ensures
            final(self).wf(),
            final(self).total_supply() == old(self).total_supply(),
            r is Ok <==> amount <= old(self).balance_of(from, asset),
            r is Err ==> r == Err::<(), EscrowError>(EscrowError::InsufficientFunds),
            r is Ok ==> final(self).balance_of(from, asset) == old(self).balance_of(from, asset)
                - amount,
            r is Ok ==> final(self).balance_of(to, asset) == old(self).balance_of(to, asset)
                + amount,
            forall|a: LedgerAccount, t: AssetId|
                !(a == from && t == asset) && !(a == to && t == asset) ==> final(self).balance_of(
                    a,
                    t,
                ) == old(self).balance_of(a, t),
            r is Err ==> final(self).balance_of(from, asset) == old(self).balance_of(from, asset)
                && final(self).balance_of(to, asset) == old(self).balance_of(to, asset),
    {
        let from_idx = match self.find(from, asset) {
            Some(i) => i,
            None => {
                proof {
                    lemma_balance_absent(self.entries@, from, asset);
                }
                if amount == 0 {
                    return Ok(());
                }
                return Err(EscrowError::InsufficientFunds);
            },
        };
        let from_entry = self.entries[from_idx];
        proof {
            lemma_balance_at_index(self.entries@, from_idx as int);
        }
        if amount > from_entry.balance {
            return Err(EscrowError::InsufficientFunds);
        }
        proof {
            lemma_two_balances_le_total(self.entries@, from, asset, to, asset);
        }
        let debited = LedgerEntry { balance: from_entry.balance - amount, ..from_entry };
        let ghost pre = self.entries@;
        self.entries[from_idx] = debited;
        proof {
            lemma_unique_update(pre, from_idx as int, debited);
            lemma_total_update(pre, from_idx as int, debited);
            assert forall|a: LedgerAccount, t: AssetId|
                self.balance_of(a, t) == if a == from && t == asset {
                    old(self).balance_of(from, asset) - amount
                } else {
                    old(self).balance_of(a, t) as int
                } by {
                lemma_balance_update(pre, from_idx as int, debited, a, t);
            }
        }
        let ghost mid = self.entries@;
        let ghost midl = *self;
        proof {
            assert(midl.balance_of(from, asset) == old(self).balance_of(from, asset) - amount);
            assert(midl.balance_of(to, asset) == old(self).balance_of(to, asset));
        }
        match self.find(to, asset) {
            Some(ti) => {
                let to_entry = self.entries[ti];
                proof {
                    lemma_balance_at_index(mid, ti as int);
                    lemma_balance_le_total(mid, to, asset);
                }
                let credited = LedgerEntry { balance: to_entry.balance + amount, ..to_entry };
                self.entries[ti] = credited;
                proof {
                    lemma_unique_update(mid, ti as int, credited);
                    lemma_total_update(mid, ti as int, credited);
                    assert forall|a: LedgerAccount, t: AssetId|
                        self.balance_of(a, t) == if a == to && t == asset {
                            midl.balance_of(to, asset) + amount
                        } else {
                            midl.balance_of(a, t) as int
                        } by {
                        lemma_balance_update(mid, ti as int, credited, a, t);
                    }
                }
                Ok(())
            },
            None => {
                proof {
                    lemma_balance_absent(mid, to, asset);
                }
                let fresh = LedgerEntry { account: to, asset, balance: amount };
                self.entries.push(fresh);
                proof {
                    lemma_unique_push(mid, fresh);
                    lemma_total_push(mid, fresh);
                    assert forall|a: LedgerAccount, t: AssetId|
                        self.balance_of(a, t) == if a == to && t == asset {
                            midl.balance_of(to, asset) + amount
                        } else {
                            midl.balance_of(a, t) as int
                        } by {
                        lemma_balance_push(mid, fresh, a, t);
                    }
                }
                Ok(())
            },
        }
    }
}

} // verus!
