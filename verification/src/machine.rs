//! The escrow state machine: records, validation rules, and the three
//! transitions (open, claim, refund) as functions over a spec-level snapshot.

use vstd::prelude::*;

use crate::errors::EscrowError;
use crate::fee::{fee_of, payout_of};
use crate::ids::{nonce_of, AccountId, AssetId, EscrowId, LedgerAccount};

verus! {

/// One escrow instance. All fields but `settled` are set at creation and
/// never change; `settled` flips to true exactly once, by whichever of claim
/// or refund succeeds first.
#[derive(Clone, Copy, Debug, PartialEq, Eq, Structural)]
pub struct EscrowRecord {
    pub payer: AccountId,
    pub payee: AccountId,
    pub operator: AccountId,
    pub asset: AssetId,
    pub amount: u64,
    pub deadline: i64,
    pub settled: bool,
    pub derivation_nonce: u64,
}

/// The identifier a record is stored under, derived from its own fields.
pub open spec fn record_key(r: EscrowRecord) -> EscrowId {
    EscrowId { payer: r.payer, payee: r.payee, asset: r.asset }
}

/// The record stored under `id` in the rows of `s`: the last row with that
/// key, or none.
pub open spec fn record_in(s: Seq<EscrowRecord>, id: EscrowId) -> Option<EscrowRecord>
    decreases s.len(),
{
    if s.len() == 0 {
        None
    } else if record_key(s.last()) == id {
        Some(s.last())
    } else {
        record_in(s.drop_last(), id)
    }
}

/// No two rows of `s` share a key.
pub open spec fn keys_unique(s: Seq<EscrowRecord>) -> bool {
    forall|i: int, j: int| 0 <= i < j < s.len() ==> record_key(s[i]) != record_key(s[j])
}

proof fn lemma_keys_unique_drop_last(s: Seq<EscrowRecord>)
    requires
        keys_unique(s),
        s.len() > 0,
    ensures
        keys_unique(s.drop_last()),
{
    assert forall|i: int, j: int| 0 <= i < j < s.drop_last().len() implies record_key(
        s.drop_last()[i],
    ) != record_key(s.drop_last()[j]) by {
        assert(s.drop_last()[i] == s[i]);
        assert(s.drop_last()[j] == s[j]);
    }
}

/// In a duplicate-free store, row `i` is the record of its own key.
pub proof fn lemma_record_at_index(s: Seq<EscrowRecord>, i: int)
    requires
        keys_unique(s),
        0 <= i < s.len(),
    ensures
        record_in(s, record_key(s[i])) == Some(s[i]),
    decreases s.len(),
{
    if i == s.len() - 1 {
    } else {
        assert(record_key(s[i]) != record_key(s[s.len() - 1]));
        lemma_keys_unique_drop_last(s);
        assert(s.drop_last()[i] == s[i]);
        lemma_record_at_index(s.drop_last(), i);
    }
}

/// A key no row carries stores no record.
pub proof fn lemma_record_absent(s: Seq<EscrowRecord>, id: EscrowId)
    requires
        forall|i: int| 0 <= i < s.len() ==> record_key(#[trigger] s[i]) != id,
    ensures
        record_in(s, id) is None,
    decreases s.len(),
{
    if s.len() > 0 {
        assert(record_key(s[s.len() - 1]) != id);
        assert forall|i: int| 0 <= i < s.drop_last().len() implies record_key(
            #[trigger] s.drop_last()[i],
        ) != id by {
            assert(s.drop_last()[i] == s[i]);
        }
        lemma_record_absent(s.drop_last(), id);
    }
}

/// A stored record lies at some row, under its own key.
pub proof fn lemma_record_in_some(s: Seq<EscrowRecord>, id: EscrowId)
    requires
        record_in(s, id) is Some,
    ensures
        exists|i: int| 0 <= i < s.len() && s[i] == record_in(s, id)->Some_0,
        record_key(record_in(s, id)->Some_0) == id,
    decreases s.len(),
{
    if record_key(s.last()) == id {
        assert(s[s.len() - 1] == s.last());
    } else {
        lemma_record_in_some(s.drop_last(), id);
        let i = choose|i: int|
            0 <= i < s.drop_last().len() && s.drop_last()[i] == record_in(s.drop_last(), id)->Some_0;
        assert(s[i] == s.drop_last()[i]);
    }
}

/// Replacing row `i` by a record with the same key changes exactly that
/// key's record and no other.
pub proof fn lemma_record_update(s: Seq<EscrowRecord>, i: int, r: EscrowRecord, id: EscrowId)
    requires
        keys_unique(s),
        0 <= i < s.len(),
        record_key(r) == record_key(s[i]),
    ensures
        record_in(s.update(i, r), id) == if id == record_key(r) {
            Some(r)
        } else {
            record_in(s, id)
        },
    decreases s.len(),
{
    let t = s.update(i, r);
    if i == s.len() - 1 {
        assert(t.last() == r);
        assert(t.drop_last() =~= s.drop_last());
    } else {
        assert(t.last() == s.last());
        assert(t.drop_last() =~= s.drop_last().update(i, r));
        lemma_keys_unique_drop_last(s);
        assert(s.drop_last()[i] == s[i]);
        lemma_record_update(s.drop_last(), i, r, id);
        assert(record_key(s[i]) != record_key(s[s.len() - 1]));
    }
}

/// Appending a record stores it under its key and changes no other.
pub proof fn lemma_record_push(s: Seq<EscrowRecord>, r: EscrowRecord, id: EscrowId)
    ensures
        record_in(s.push(r), id) == if id == record_key(r) {
            Some(r)
        } else {
            record_in(s, id)
        },
{
    assert(s.push(r).last() == r);
    assert(s.push(r).drop_last() =~= s);
}

pub proof fn lemma_keys_unique_update(s: Seq<EscrowRecord>, i: int, r: EscrowRecord)
    requires
        keys_unique(s),
        0 <= i < s.len(),
        record_key(r) == record_key(s[i]),
    ensures
        keys_unique(s.update(i, r)),
{
    let t = s.update(i, r);
    assert forall|p: int, q: int| 0 <= p < q < t.len() implies record_key(t[p]) != record_key(
        t[q],
    ) by {
        assert(record_key(s[p]) != record_key(s[q]));
    }
}

pub proof fn lemma_keys_unique_push(s: Seq<EscrowRecord>, r: EscrowRecord)
    requires
        keys_unique(s),
        forall|i: int| 0 <= i < s.len() ==> record_key(#[trigger] s[i]) != record_key(r),
    ensures
        keys_unique(s.push(r)),
{
    let t = s.push(r);
    assert forall|p: int, q: int| 0 <= p < q < t.len() implies record_key(t[p]) != record_key(
        t[q],
    ) by {
        if q < s.len() {
            assert(record_key(s[p]) != record_key(s[q]));
        } else {
            assert(t[q] == r);
            assert(record_key(s[p]) != record_key(r));
        }
    }
}

/// Validation of an open's inputs, in the order checked: a zero amount is
/// rejected first, then a deadline not strictly in the future.
pub open spec fn open_check(amount: u64, deadline: i64, now: i64) -> Result<(), EscrowError> {
    if amount == 0 {
        Err(EscrowError::InvalidAmount)
    } else if deadline <= now {
        Err(EscrowError::InvalidDeadline)
    } else {
        Ok(())
    }
}

/// Checks an open's inputs: the amount must be positive and the deadline
/// strictly later than `now`.
pub fn check_open_inputs(amount: u64, deadline: i64, now: i64) -> (r: Result<(), EscrowError>)
    ensures
        r == open_check(amount, deadline, now),
{
    if amount == 0 {
        Err(EscrowError::InvalidAmount)
    } else if deadline <= now {
        Err(EscrowError::InvalidDeadline)
    } else {
        Ok(())
    }
}

/// The claim guards, in the order checked: a settled escrow is terminal; the
/// deadline is inclusive; only the recorded payee may claim.
pub open spec fn claim_check(r: EscrowRecord, caller: AccountId, now: i64) -> Result<
    (),
    EscrowError,
> {
    if r.settled {
        Err(EscrowError::AlreadySettled)
    } else if now > r.deadline {
        Err(EscrowError::DeadlineExpired)
    } else if caller != r.payee {
        Err(EscrowError::Unauthorized)
    } else {
        Ok(())
    }
}

/// Checks whether `caller` may claim `record` at time `now`.
pub fn check_claim(record: &EscrowRecord, caller: AccountId, now: i64) -> (r: Result<
    (),
    EscrowError,
>)
    ensures
        r == claim_check(*record, caller, now),
{
    if record.settled {
        Err(EscrowError::AlreadySettled)
    } else if now > record.deadline {
        Err(EscrowError::DeadlineExpired)
    } else if caller != record.payee {
        Err(EscrowError::Unauthorized)
    } else {
        Ok(())
    }
}

/// The refund guards, in the order checked: a settled escrow is terminal;
/// the deadline must be strictly past. Any caller may trigger a refund,
/// since funds can only flow back to the recorded payer.
pub open spec fn refund_check(r: EscrowRecord, now: i64) -> Result<(), EscrowError> {
    if r.settled {
        Err(EscrowError::AlreadySettled)
    } else if now <= r.deadline {
        Err(EscrowError::DeadlineNotReached)
    } else {
        Ok(())
    }
}

/// Checks whether `record` may be refunded at time `now`.
pub fn check_refund(record: &EscrowRecord, now: i64) -> (r: Result<(), EscrowError>)
    ensures
        r == refund_check(*record, now),
{
    if record.settled {
        Err(EscrowError::AlreadySettled)
    } else if now <= record.deadline {
        Err(EscrowError::DeadlineNotReached)
    } else {
        Ok(())
    }
}

/// Spec-level snapshot of a whole escrow system: every record by its
/// identifier, and every ledger balance as an unbounded integer.
pub struct EscrowState {
    pub records: Map<EscrowId, EscrowRecord>,
    pub balances: Map<(LedgerAccount, AssetId), int>,
}

/// What a snapshot of a well-formed system looks like: balances are total
/// and non-negative, every record sits under its own derived key with a
/// positive amount, its vault holds exactly the amount until settlement and
/// nothing after, and vaults of unopened escrows are empty.
pub open spec fn state_wf(s: EscrowState) -> bool {
    &&& forall|k: (LedgerAccount, AssetId)| #[trigger] s.balances.dom().contains(k)
    &&& forall|k: (LedgerAccount, AssetId)| #[trigger] s.balances[k] >= 0
    &&& forall|id: EscrowId| #[trigger] s.records.dom().contains(id) ==> {
        let r = s.records[id];
        &&& record_key(r) == id
        &&& r.amount > 0
        &&& r.derivation_nonce == nonce_of(id)
        &&& s.balances[(LedgerAccount::Vault(id), r.asset)] == if r.settled {
            0int
        } else {
            r.amount as int
        }
    }
    &&& forall|id: EscrowId, t: AssetId|
        !s.records.dom().contains(id) ==> #[trigger] s.balances[(LedgerAccount::Vault(id), t)]
            == 0
}

/// The open transition: validates the inputs, derives the identifier,
/// creates the unsettled record and moves `amount` from the payer's account
/// into the new escrow's vault — or leaves the snapshot unchanged with the
/// first failing guard's error.
pub open spec fn open_spec(
    s: EscrowState,
    payer: AccountId,
    payee: AccountId,
    operator: AccountId,
    asset: AssetId,
    amount: u64,
    deadline: i64,
    now: i64,
) -> (EscrowState, Result<EscrowId, EscrowError>) {
    let id = EscrowId { payer, payee, asset };
    let payer_slot = (LedgerAccount::User(payer), asset);
    let vault_slot = (LedgerAccount::Vault(id), asset);
    match open_check(amount, deadline, now) {
        Err(e) => (s, Err(e)),
        Ok(_) => if s.records.dom().contains(id) {
            (s, Err(EscrowError::DuplicateEscrow))
        } else if s.balances[payer_slot] < amount {
            (s, Err(EscrowError::InsufficientFunds))
        } else {
            let record = EscrowRecord {
                payer,
                payee,
                operator,
                asset,
                amount,
                deadline,
                settled: false,
                derivation_nonce: nonce_of(id),
            };
            let b1 = s.balances.insert(payer_slot, s.balances[payer_slot] - amount);
            let b2 = b1.insert(vault_slot, b1[vault_slot] + amount);
            (EscrowState { records: s.records.insert(id, record), balances: b2 }, Ok(id))
        },
    }
}

/// The claim transition: under the claim guards, drains the vault by fee
/// plus payout, credits the payout to the payee and the fee to the operator,
/// and marks the record settled — or leaves the snapshot unchanged with the
/// first failing guard's error.
pub open spec fn claim_spec(s: EscrowState, caller: AccountId, id: EscrowId, now: i64) -> (
    EscrowState,
    Result<(), EscrowError>,
) {
    if !s.records.dom().contains(id) {
        (s, Err(EscrowError::NotFound))
    } else {
        let r = s.records[id];
        match claim_check(r, caller, now) {
            Err(e) => (s, Err(e)),
            Ok(_) => {
                let vault_slot = (LedgerAccount::Vault(id), r.asset);
                let payee_slot = (LedgerAccount::User(r.payee), r.asset);
                let operator_slot = (LedgerAccount::User(r.operator), r.asset);
                let b1 = s.balances.insert(
                    vault_slot,
                    s.balances[vault_slot] - payout_of(r.amount) - fee_of(r.amount),
                );
                let b2 = b1.insert(payee_slot, b1[payee_slot] + payout_of(r.amount));
                let b3 = b2.insert(operator_slot, b2[operator_slot] + fee_of(r.amount));
                (
                    EscrowState {
                        records: s.records.insert(id, EscrowRecord { settled: true, ..r }),
                        balances: b3,
                    },
                    Ok(()),
                )
            },
        }
    }
}

/// The refund transition: under the refund guards, returns the full amount
/// from the vault to the payer and marks the record settled — or leaves the
/// snapshot unchanged with the first failing guard's error.
pub open spec fn refund_spec(s: EscrowState, id: EscrowId, now: i64) -> (
    EscrowState,
    Result<(), EscrowError>,
) {
    if !s.records.dom().contains(id) {
        (s, Err(EscrowError::NotFound))
    } else {
        let r = s.records[id];
        match refund_check(r, now) {
            Err(e) => (s, Err(e)),
            Ok(_) => {
                let vault_slot = (LedgerAccount::Vault(id), r.asset);
                let payer_slot = (LedgerAccount::User(r.payer), r.asset);
                let b1 = s.balances.insert(vault_slot, s.balances[vault_slot] - r.amount);
                let b2 = b1.insert(payer_slot, b1[payer_slot] + r.amount);
                (
                    EscrowState {
                        records: s.records.insert(id, EscrowRecord { settled: true, ..r }),
                        balances: b2,
                    },
                    Ok(()),
                )
            },
        }
    }
}

} // verus!
