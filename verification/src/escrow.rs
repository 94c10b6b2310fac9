//! The executable escrow system: a record store and a ledger, with the three
//! operations proved to refine the spec-level transitions of [`crate::machine`].

use vstd::map::*;
use vstd::prelude::*;

use crate::errors::EscrowError;
use crate::fee::split_amount;
use crate::ids::{derive_nonce, AccountId, AssetId, Authority, EscrowId, LedgerAccount};
use crate::ledger::Ledger;
use crate::machine::{
    check_claim, check_open_inputs, check_refund, claim_spec, keys_unique, lemma_keys_unique_push,
    lemma_keys_unique_update, lemma_record_absent, lemma_record_at_index, lemma_record_in_some,
    lemma_record_push, lemma_record_update, open_spec, record_in, record_key, refund_spec,
    state_wf, EscrowRecord, EscrowState,
};

verus! {

/// An escrow system: the records by key, and the ledger holding every
/// account's balance, including each escrow's vault.
pub struct Escrow {
    records: Vec<EscrowRecord>,
    ledger: Ledger,
}

impl View for Escrow {
    type V = EscrowState;

    closed spec fn view(&self) -> EscrowState {
        EscrowState {
            records: Map::new(
                |id: EscrowId| record_in(self.records@, id) is Some,
                |id: EscrowId| record_in(self.records@, id)->Some_0,
            ),
            balances: Map::new(
                |k: (LedgerAccount, AssetId)| true,
                |k: (LedgerAccount, AssetId)| self.ledger.balance_of(k.0, k.1) as int,
            ),
        }
    }
}

impl Escrow {
    /// Row `i`'s internal invariant: a positive amount, the derived nonce,
    /// and a vault holding exactly the amount until settlement, zero after.
    spec fn record_wf_at(self, i: int) -> bool {
        let r = self.records@[i];
        &&& r.amount > 0
        &&& r.derivation_nonce == crate::ids::nonce_of(record_key(r))
        &&& self.ledger.balance_of(LedgerAccount::Vault(record_key(r)), r.asset) == if r.settled {
            0u64
        } else {
            r.amount
        }
    }

    /// Internal well-formedness, established by `new` and preserved by every
    /// operation: a consistent ledger, duplicate-free record keys, every
    /// record's invariant, and empty vaults for unopened escrows.
    pub closed spec fn wf(self) -> bool {
        &&& self.ledger.wf()
        &&& keys_unique(self.records@)
        &&& forall|i: int| 0 <= i < self.records@.len() ==> #[trigger] self.record_wf_at(i)
        &&& forall|id: EscrowId, t: AssetId|
            record_in(self.records@, id) is None ==> #[trigger] self.ledger.balance_of(
                LedgerAccount::Vault(id),
                t,
            ) == 0
    }

    /// The sum of every balance the system's ledger holds.
    pub closed spec fn total_supply(self) -> u64 {
        self.ledger.total_supply()
    }

    /// A fresh system: no records, every balance zero.
    pub fn new() -> (r: Escrow)
        ensures
            r.wf(),
            r@.records =~= Map::<EscrowId, EscrowRecord>::empty(),
            forall|k: (LedgerAccount, AssetId)| r@.balances[k] == 0,
            r.total_supply() == 0,
    {
        let e = Escrow { records: Vec::new(), ledger: Ledger::new() };
        proof {
            assert(e.records@.len() == 0);
            assert forall|id: EscrowId| !(#[trigger] e@.records.dom().contains(id)) by {
                assert(record_in(e.records@, id) is None);
            }
            assert(e@.records =~= Map::<EscrowId, EscrowRecord>::empty());
        }
        e
    }

    /// Index of the record stored under `id`, if any.
    fn find_record(&self, id: EscrowId) -> (r: Option<usize>)
        ensures
            match r {
                Some(i) => i < self.records@.len() && record_key(self.records@[i as int]) == id,
                None => forall|i: int|
                    0 <= i < self.records@.len() ==> record_key(#[trigger] self.records@[i]) != id,
            },
    {
        let n = self.records.len();
        let mut i: usize = 0;
        while i < n
            invariant
                i <= n,
                n == self.records@.len(),
                forall|j: int| 0 <= j < i ==> record_key(#[trigger] self.records@[j]) != id,
            decreases n - i,
        {
            let rec = self.records[i];
            if rec.payer == id.payer && rec.payee == id.payee && rec.asset == id.asset {
                return Some(i);
            }
            i = i + 1;
        }
        None
    }

    /// The stored record for `id`, if the escrow exists.
    pub fn record_of(&self, id: EscrowId) -> (r: Option<EscrowRecord>)
        requires
            self.wf(),
        ensures
            match r {
                Some(rec) => self@.records.dom().contains(id) && self@.records[id] == rec,
                None => !self@.records.dom().contains(id),
            },
    {
        match self.find_record(id) {
            Some(i) => {
                proof {
                    lemma_record_at_index(self.records@, i as int);
                }
                Some(self.records[i])
            },
            None => {
                proof {
                    lemma_record_absent(self.records@, id);
                }
                None
            },
        }
    }

    /// The ledger balance of `account` in `asset`.
    pub fn balance_of(&self, account: LedgerAccount, asset: AssetId) -> (r: u64)
        requires
            self.wf(),
        ensures
            r == self@.balances[(account, asset)],
    {
        self.ledger.balance(account, asset)
    }

    /// Credits freshly issued units of `asset` to a party's own account —
    /// how the surrounding system funds a payer. Vaults can never be the
    /// target. Returns false, changing nothing, when the issue would push
    /// the ledger's total supply past `u64::MAX`.
    pub fn deposit(&mut self, account: AccountId, asset: AssetId, amount: u64) -> (r: bool)
        requires
            old(self).wf(),
        ensures
            final(self).wf(),
            r <==> old(self).total_supply() + amount <= u64::MAX,
            final(self)@.records =~= old(self)@.records,
            r ==> final(self)@.balances =~= old(self)@.balances.insert(
                (LedgerAccount::User(account), asset),
                old(self)@.balances[(LedgerAccount::User(account), asset)] + amount,
            ),
            !r ==> final(self)@.balances =~= old(self)@.balances,
    {
        let r = self.ledger.deposit(account, asset, amount);
        proof {
            assert forall|i: int| 0 <= i < self.records@.len() implies #[trigger] self.record_wf_at(
                i,
            ) by {
                assert(old(self).record_wf_at(i));
                let rec = self.records@[i];
                assert(self.ledger.balance_of(LedgerAccount::Vault(record_key(rec)), rec.asset)
                    == old(self).ledger.balance_of(LedgerAccount::Vault(record_key(rec)), rec.asset));
            }
            assert forall|id: EscrowId, t: AssetId|
                record_in(self.records@, id) is None implies #[trigger] self.ledger.balance_of(
                LedgerAccount::Vault(id),
                t,
            ) == 0 by {
                assert(old(self).ledger.balance_of(LedgerAccount::Vault(id), t) == 0);
            }
            assert_maps_equal!(self@.records, old(self)@.records);
            if r {
                assert_maps_equal!(
                    self@.balances,
                    old(self)@.balances.insert(
                        (LedgerAccount::User(account), asset),
                        old(self)@.balances[(LedgerAccount::User(account), asset)] + amount,
                    ),
                    k => {
                        if !(k.0 == LedgerAccount::User(account) && k.1 == asset) {
                            assert(self.ledger.balance_of(k.0, k.1)
                                == old(self).ledger.balance_of(k.0, k.1));
                        }
                    }
                );
            } else {
                assert_maps_equal!(self@.balances, old(self)@.balances, k => {
                    assert(self.ledger.balance_of(k.0, k.1)
                        == old(self).ledger.balance_of(k.0, k.1));
                });
            }
        }
        r
    }

    /// Opens an escrow: validates the inputs, derives the identifier from
    /// `(payer, payee, asset)`, creates the unsettled record and funds its
    /// vault from the payer's account — atomically: on any error, nothing
    /// is created and no balance moves.
    pub fn open(
        &mut self,
        payer: AccountId,
        payee: AccountId,
        operator: AccountId,
        asset: AssetId,
        amount: u64,
        deadline: i64,
        now: i64,
    ) -> (r: Result<EscrowId, EscrowError>)
        requires
            old(self).wf(),
        ensures
            final(self).wf(),
            r == open_spec(old(self)@, payer, payee, operator, asset, amount, deadline, now).1,
            final(self)@.records =~= open_spec(
                old(self)@,
                payer,
                payee,
                operator,
                asset,
                amount,
                deadline,
                now,
            ).0.records,
            final(self)@.balances =~= open_spec(
                old(self)@,
                payer,
                payee,
                operator,
                asset,
                amount,
                deadline,
                now,
            ).0.balances,
    {
        let id = EscrowId { payer, payee, asset };
        match check_open_inputs(amount, deadline, now) {
            Err(e) => {
                return Err(e);
            },
            Ok(_) => {},
        }
        match self.find_record(id) {
            Some(i) => {
                proof {
                    lemma_record_at_index(self.records@, i as int);
                    assert(old(self)@.records.dom().contains(id));
                }
                return Err(EscrowError::DuplicateEscrow);
            },
            None => {
                proof {
                    lemma_record_absent(self.records@, id);
                }
            },
        }
        let ghost pre = *old(self);
        let t = self.ledger.transfer(
            &Authority::Signer(payer),
            asset,
            LedgerAccount::User(payer),
            LedgerAccount::Vault(id),
            amount,
        );
        match t {
            Err(_) => {
                proof {
                    assert(old(self)@.balances[(LedgerAccount::User(payer), asset)] < amount);
                    assert forall|i: int|
                        0 <= i < self.records@.len() implies #[trigger] self.record_wf_at(i) by {
                        assert(pre.record_wf_at(i));
                        let rec = self.records@[i];
                        assert(self.ledger.balance_of(
                            LedgerAccount::Vault(record_key(rec)),
                            rec.asset,
                        ) == pre.ledger.balance_of(
                            LedgerAccount::Vault(record_key(rec)),
                            rec.asset,
                        ));
                    }
                    assert forall|idx: EscrowId, t2: AssetId|
                        record_in(self.records@, idx) is None implies #[trigger] self
                        .ledger
                        .balance_of(LedgerAccount::Vault(idx), t2) == 0 by {
                        assert(pre.ledger.balance_of(LedgerAccount::Vault(idx), t2) == 0);
                        assert(self.ledger.balance_of(LedgerAccount::Vault(idx), t2)
                            == pre.ledger.balance_of(LedgerAccount::Vault(idx), t2));
                    }
                    assert_maps_equal!(self@.records, old(self)@.records);
                    assert_maps_equal!(self@.balances, old(self)@.balances, k => {
                        assert(self.ledger.balance_of(k.0, k.1)
                            == pre.ledger.balance_of(k.0, k.1));
                    });
                }
                return Err(EscrowError::InsufficientFunds);
            },
            Ok(_) => {},
        }
        let nonce = derive_nonce(&id);
        let record = EscrowRecord {
            payer,
            payee,
            operator,
            asset,
            amount,
            deadline,
            settled: false,
            derivation_nonce: nonce,
        };
        let ghost pre_recs = self.records@;
        self.records.push(record);
        proof {
            let s0 = old(self)@;
            let payer_slot = (LedgerAccount::User(payer), asset);
            let vault_slot = (LedgerAccount::Vault(id), asset);
            assert(s0.balances[payer_slot] >= amount);
            assert(record_key(record) == id);
            assert forall|i: int| 0 <= i < pre_recs.len() implies record_key(
                #[trigger] pre_recs[i],
            ) != record_key(record) by {}
            lemma_keys_unique_push(pre_recs, record);
            // the new record's vault was empty before the funding transfer
            assert(pre.ledger.balance_of(LedgerAccount::Vault(id), asset) == 0);
            assert(self.ledger.balance_of(LedgerAccount::Vault(id), asset) == amount);
            assert forall|i: int|
                0 <= i < self.records@.len() implies #[trigger] self.record_wf_at(i) by {
                if i < pre_recs.len() {
                    assert(pre.record_wf_at(i));
                    let rec = pre_recs[i];
                    assert(self.records@[i] == rec);
                    assert(record_key(rec) != id);
                    assert(self.ledger.balance_of(LedgerAccount::Vault(record_key(rec)), rec.asset)
                        == pre.ledger.balance_of(
                        LedgerAccount::Vault(record_key(rec)),
                        rec.asset,
                    ));
                } else {
                    assert(self.records@[i] == record);
                }
            }
            assert forall|idx: EscrowId, t2: AssetId|
                record_in(self.records@, idx) is None implies #[trigger] self.ledger.balance_of(
                LedgerAccount::Vault(idx),
                t2,
            ) == 0 by {
                lemma_record_push(pre_recs, record, idx);
                assert(idx != id);
                assert(pre.ledger.balance_of(LedgerAccount::Vault(idx), t2) == 0);
                assert(self.ledger.balance_of(LedgerAccount::Vault(idx), t2)
                    == pre.ledger.balance_of(LedgerAccount::Vault(idx), t2));
            }
            assert_maps_equal!(
                self@.records,
                open_spec(s0, payer, payee, operator, asset, amount, deadline, now).0.records,
                x => {
                    lemma_record_push(pre_recs, record, x);
                }
            );
            assert_maps_equal!(
                self@.balances,
                open_spec(s0, payer, payee, operator, asset, amount, deadline, now).0.balances,
                k => {
                    if k == payer_slot {
                        assert(self.ledger.balance_of(k.0, k.1)
                            == pre.ledger.balance_of(k.0, k.1) - amount);
                    } else if k == vault_slot {
                        assert(self.ledger.balance_of(k.0, k.1)
                            == pre.ledger.balance_of(k.0, k.1) + amount);
                    } else {
                        assert(self.ledger.balance_of(k.0, k.1)
                            == pre.ledger.balance_of(k.0, k.1));
                    }
                }
            );
        }
        Ok(id)
    }

    /// Claims an escrow for the payee: under the claim guards, pays
    /// `amount - fee` to the payee and the fee to the operator, draining
    /// the vault exactly, and marks the record settled — atomically.
    pub fn claim(&mut self, caller: AccountId, id: EscrowId, now: i64) -> (r: Result<
        (),
        EscrowError,
    >)
        requires
            old(self).wf(),
        ensures
            final(self).wf(),
            r == claim_spec(old(self)@, caller, id, now).1,
            final(self)@.records =~= claim_spec(old(self)@, caller, id, now).0.records,
            final(self)@.balances =~= claim_spec(old(self)@, caller, id, now).0.balances,
    {
        let idx = match self.find_record(id) {
            None => {
                proof {
                    lemma_record_absent(self.records@, id);
                }
                return Err(EscrowError::NotFound);
            },
            Some(i) => i,
        };
        let rec = self.records[idx];
        proof {
            lemma_record_at_index(self.records@, idx as int);
            assert(old(self)@.records.dom().contains(id));
            assert(old(self)@.records[id] == rec);
        }
        match check_claim(&rec, caller, now) {
            Err(e) => {
                return Err(e);
            },
            Ok(_) => {},
        }
        let (fee_part, payout_part) = split_amount(rec.amount);
        proof {
            assert(old(self).record_wf_at(idx as int));
            assert(old(self).ledger.balance_of(LedgerAccount::Vault(id), rec.asset) == rec.amount);
        }
        let vault = LedgerAccount::Vault(id);
        let auth = Authority::VaultOwner(id);
        let payee_account = LedgerAccount::User(rec.payee);
        let operator_account = LedgerAccount::User(rec.operator);
        let ghost pre = *old(self);
        let t1 = self.ledger.transfer(&auth, rec.asset, vault, payee_account, payout_part);
        match t1 {
            Err(_) => {
                proof {
                    assert(false);
                }
                return Err(EscrowError::InsufficientFunds);
            },
            Ok(_) => {},
        }
        let ghost mid1 = *self;
        proof {
            assert(mid1.ledger.balance_of(vault, rec.asset) == rec.amount - payout_part);
        }
        let t2 = self.ledger.transfer(&auth, rec.asset, vault, operator_account, fee_part);
        match t2 {
            Err(_) => {
                proof {
                    assert(false);
                }
                return Err(EscrowError::InsufficientFunds);
            },
            Ok(_) => {},
        }
        let ghost mid2 = *self;
        let updated = EscrowRecord { settled: true, ..rec };
        let ghost pre_recs = self.records@;
        self.records[idx] = updated;
        proof {
            let s0 = old(self)@;
            let vault_slot = (vault, rec.asset);
            let payee_slot = (payee_account, rec.asset);
            let operator_slot = (operator_account, rec.asset);
            assert(record_key(updated) == id);
            lemma_keys_unique_update(pre_recs, idx as int, updated);
            // the vault is drained exactly: amount - payout - fee == 0
            assert(mid2.ledger.balance_of(vault, rec.asset) == 0);
            assert forall|i: int|
                0 <= i < self.records@.len() implies #[trigger] self.record_wf_at(i) by {
                if i == idx as int {
                    assert(self.records@[i] == updated);
                    assert(self.ledger.balance_of(vault, rec.asset) == 0);
                } else {
                    assert(pre.record_wf_at(i));
                    let rj = pre_recs[i];
                    assert(self.records@[i] == rj);
                    assert(record_key(rj) != id);
                    assert(mid1.ledger.balance_of(LedgerAccount::Vault(record_key(rj)), rj.asset)
                        == pre.ledger.balance_of(LedgerAccount::Vault(record_key(rj)), rj.asset));
                    assert(self.ledger.balance_of(LedgerAccount::Vault(record_key(rj)), rj.asset)
                        == mid1.ledger.balance_of(LedgerAccount::Vault(record_key(rj)), rj.asset));
                }
            }
            assert forall|idy: EscrowId, t3: AssetId|
                record_in(self.records@, idy) is None implies #[trigger] self.ledger.balance_of(
                LedgerAccount::Vault(idy),
                t3,
            ) == 0 by {
                lemma_record_update(pre_recs, idx as int, updated, idy);
                assert(idy != id);
                assert(record_in(pre_recs, idy) is None);
                assert(pre.ledger.balance_of(LedgerAccount::Vault(idy), t3) == 0);
                assert(mid1.ledger.balance_of(LedgerAccount::Vault(idy), t3)
                    == pre.ledger.balance_of(LedgerAccount::Vault(idy), t3));
                assert(self.ledger.balance_of(LedgerAccount::Vault(idy), t3)
                    == mid1.ledger.balance_of(LedgerAccount::Vault(idy), t3));
            }
            assert_maps_equal!(
                self@.records,
                claim_spec(s0, caller, id, now).0.records,
                x => {
                    lemma_record_update(pre_recs, idx as int, updated, x);
                }
            );
            assert_maps_equal!(
                self@.balances,
                claim_spec(s0, caller, id, now).0.balances,
                k => {
                    if k == vault_slot {
                        assert(mid1.ledger.balance_of(k.0, k.1)
                            == pre.ledger.balance_of(k.0, k.1) - payout_part);
                        assert(self.ledger.balance_of(k.0, k.1)
                            == mid1.ledger.balance_of(k.0, k.1) - fee_part);
                    } else if k == payee_slot {
                        assert(mid1.ledger.balance_of(k.0, k.1)
                            == pre.ledger.balance_of(k.0, k.1) + payout_part);
                        if k == operator_slot {
                            assert(self.ledger.balance_of(k.0, k.1)
                                == mid1.ledger.balance_of(k.0, k.1) + fee_part);
                        } else {
                            assert(self.ledger.balance_of(k.0, k.1)
                                == mid1.ledger.balance_of(k.0, k.1));
                        }
                    } else if k == operator_slot {
                        assert(mid1.ledger.balance_of(k.0, k.1)
                            == pre.ledger.balance_of(k.0, k.1));
                        assert(self.ledger.balance_of(k.0, k.1)
                            == mid1.ledger.balance_of(k.0, k.1) + fee_part);
                    } else {
                        assert(mid1.ledger.balance_of(k.0, k.1)
                            == pre.ledger.balance_of(k.0, k.1));
                        assert(self.ledger.balance_of(k.0, k.1)
                            == mid1.ledger.balance_of(k.0, k.1));
                    }
                }
            );
        }
        Ok(())
    }

    /// Refunds an escrow: under the refund guards, returns the full amount
    /// from the vault to the payer and marks the record settled —
    /// atomically. Any caller may trigger it.
    pub fn refund(&mut self, id: EscrowId, now: i64) -> (r: Result<(), EscrowError>)
        requires
            old(self).wf(),
        ensures
            final(self).wf(),
            r == refund_spec(old(self)@, id, now).1,
            final(self)@.records =~= refund_spec(old(self)@, id, now).0.records,
            final(self)@.balances =~= refund_spec(old(self)@, id, now).0.balances,
    {
        let idx = match self.find_record(id) {
            None => {
                proof {
                    lemma_record_absent(self.records@, id);
                }
                return Err(EscrowError::NotFound);
            },
            Some(i) => i,
        };
        let rec = self.records[idx];
        proof {
            lemma_record_at_index(self.records@, idx as int);
            assert(old(self)@.records.dom().contains(id));
            assert(old(self)@.records[id] == rec);
        }
        match check_refund(&rec, now) {
            Err(e) => {
                return Err(e);
            },
            Ok(_) => {},
        }
        proof {
            assert(old(self).record_wf_at(idx as int));
            assert(old(self).ledger.balance_of(LedgerAccount::Vault(id), rec.asset) == rec.amount);
        }
        let vault = LedgerAccount::Vault(id);
        let auth = Authority::VaultOwner(id);
        let payer_account = LedgerAccount::User(rec.payer);
        let ghost pre = *old(self);
        let t = self.ledger.transfer(&auth, rec.asset, vault, payer_account, rec.amount);
        match t {
            Err(_) => {
                proof {
                    assert(false);
                }
                return Err(EscrowError::InsufficientFunds);
            },
            Ok(_) => {},
        }
        let ghost mid = *self;
        let updated = EscrowRecord { settled: true, ..rec };
        let ghost pre_recs = self.records@;
        self.records[idx] = updated;
        proof {
            let s0 = old(self)@;
            let vault_slot = (vault, rec.asset);
            let payer_slot = (payer_account, rec.asset);
            assert(record_key(updated) == id);
            lemma_keys_unique_update(pre_recs, idx as int, updated);
            assert(mid.ledger.balance_of(vault, rec.asset) == 0);
            assert forall|i: int|
                0 <= i < self.records@.len() implies #[trigger] self.record_wf_at(i) by {
                if i == idx as int {
                    assert(self.records@[i] == updated);
                    assert(self.ledger.balance_of(vault, rec.asset) == 0);
                } else {
                    assert(pre.record_wf_at(i));
                    let rj = pre_recs[i];
                    assert(self.records@[i] == rj);
                    assert(record_key(rj) != id);
                    assert(self.ledger.balance_of(LedgerAccount::Vault(record_key(rj)), rj.asset)
                        == pre.ledger.balance_of(LedgerAccount::Vault(record_key(rj)), rj.asset));
                }
            }
            assert forall|idy: EscrowId, t3: AssetId|
                record_in(self.records@, idy) is None implies #[trigger] self.ledger.balance_of(
                LedgerAccount::Vault(idy),
                t3,
            ) == 0 by {
                lemma_record_update(pre_recs, idx as int, updated, idy);
                assert(idy != id);
                assert(record_in(pre_recs, idy) is None);
                assert(pre.ledger.balance_of(LedgerAccount::Vault(idy), t3) == 0);
                assert(self.ledger.balance_of(LedgerAccount::Vault(idy), t3)
                    == pre.ledger.balance_of(LedgerAccount::Vault(idy), t3));
            }
            assert_maps_equal!(
                self@.records,
                refund_spec(s0, id, now).0.records,
                x => {
                    lemma_record_update(pre_recs, idx as int, updated, x);
                }
            );
            assert_maps_equal!(
                self@.balances,
                refund_spec(s0, id, now).0.balances,
                k => {
                    if k == vault_slot {
                        assert(self.ledger.balance_of(k.0, k.1)
                            == pre.ledger.balance_of(k.0, k.1) - rec.amount);
                    } else if k == payer_slot {
                        assert(self.ledger.balance_of(k.0, k.1)
                            == pre.ledger.balance_of(k.0, k.1) + rec.amount);
                    } else {
                        assert(self.ledger.balance_of(k.0, k.1)
                            == pre.ledger.balance_of(k.0, k.1));
                    }
                }
            );
        }
        Ok(())
    }
}

/// The view of a well-formed system is a well-formed snapshot: the bridge
/// from the executable operations' contracts to the spec-level laws.
pub proof fn lemma_view_wf(e: Escrow)
    requires
        e.wf(),
    ensures
        state_wf(e@),
{
    assert forall|id: EscrowId| #[trigger] e@.records.dom().contains(id) implies {
        let r = e@.records[id];
        &&& record_key(r) == id
        &&& r.amount > 0
        &&& r.derivation_nonce == crate::ids::nonce_of(id)
        &&& e@.balances[(LedgerAccount::Vault(id), r.asset)] == if r.settled {
            0int
        } else {
            r.amount as int
        }
    } by {
        lemma_record_in_some(e.records@, id);
        let i = choose|i: int|
            0 <= i < e.records@.len() && e.records@[i] == record_in(e.records@, id)->Some_0;
        assert(e.record_wf_at(i));
    }
    assert forall|id: EscrowId, t: AssetId|
        !e@.records.dom().contains(id) implies #[trigger] e@.balances[(
        LedgerAccount::Vault(id),
        t,
    )] == 0 by {
        assert(e.ledger.balance_of(LedgerAccount::Vault(id), t) == 0);
    }
}

} // verus!
