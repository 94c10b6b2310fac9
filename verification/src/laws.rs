//! The library's laws, proved once for every snapshot and input: exclusive
//! settlement, the exact deadline boundaries, payee-only claims, and the
//! lossless fee split of a successful claim.

use vstd::prelude::*;

use crate::errors::EscrowError;
use crate::fee::{fee_of, lemma_fee_split_exact, payout_of};
use crate::ids::{AccountId, AssetId, EscrowId, LedgerAccount};
use crate::machine::{claim_spec, open_spec, refund_spec, state_wf, EscrowState};

verus! {

/// An open with a positive amount, a deadline strictly in the future, a
/// fresh identifier and a sufficiently funded payer succeeds: the record is
/// created unsettled, the payer pays exactly `amount`, and the vault ends
/// holding exactly `amount`.
pub proof fn lemma_open_funds_vault(
    s: EscrowState,
    payer: AccountId,
    payee: AccountId,
    operator: AccountId,
    asset: AssetId,
    amount: u64,
    deadline: i64,
    now: i64,
)
    requires
        state_wf(s),
        amount > 0,
        deadline > now,
        !s.records.dom().contains((EscrowId { payer, payee, asset })),
        s.balances[(LedgerAccount::User(payer), asset)] >= amount,
    ensures
        ({
            let id = EscrowId { payer, payee, asset };
            let (s2, r) = open_spec(s, payer, payee, operator, asset, amount, deadline, now);
            &&& r == Ok::<EscrowId, EscrowError>(id)
            &&& s2.records.dom().contains(id)
            &&& s2.records[id].settled == false
            &&& s2.records[id].amount == amount
            &&& s2.balances[(LedgerAccount::Vault(id), asset)] == amount as int
            &&& s2.balances[(LedgerAccount::User(payer), asset)] == s.balances[(
                LedgerAccount::User(payer),
                asset,
            )] - amount
        }),
{
    let id = EscrowId { payer, payee, asset };
    assert(s.balances[(LedgerAccount::Vault(id), asset)] == 0);
}

/// Settlement is exclusive and terminal, whatever the timing: once a claim
/// has succeeded, every later claim or refund of the same escrow — by any
/// caller, at any time — fails with `AlreadySettled` and changes nothing.
pub proof fn lemma_claim_is_terminal(
    s: EscrowState,
    caller: AccountId,
    id: EscrowId,
    now: i64,
    later_caller: AccountId,
    later: i64,
)
    requires
        claim_spec(s, caller, id, now).1 is Ok,
    ensures
        ({
            let s1 = claim_spec(s, caller, id, now).0;
            &&& claim_spec(s1, later_caller, id, later) == (
                s1,
                Err::<(), EscrowError>(EscrowError::AlreadySettled),
            )
            &&& refund_spec(s1, id, later) == (
                s1,
                Err::<(), EscrowError>(EscrowError::AlreadySettled),
            )
        }),
{
    let s1 = claim_spec(s, caller, id, now).0;
    assert(s1.records[id].settled);
}

/// The refund counterpart: once a refund has succeeded, every later claim or
/// refund of the same escrow fails with `AlreadySettled` and changes nothing.
pub proof fn lemma_refund_is_terminal(
    s: EscrowState,
    id: EscrowId,
    now: i64,
    later_caller: AccountId,
    later: i64,
)
    requires
        refund_spec(s, id, now).1 is Ok,
    ensures
        ({
            let s1 = refund_spec(s, id, now).0;
            &&& claim_spec(s1, later_caller, id, later) == (
                s1,
                Err::<(), EscrowError>(EscrowError::AlreadySettled),
            )
            &&& refund_spec(s1, id, later) == (
                s1,
                Err::<(), EscrowError>(EscrowError::AlreadySettled),
            )
        }),
{
    let s1 = refund_spec(s, id, now).0;
    assert(s1.records[id].settled);
}

/// The claim deadline is inclusive: an otherwise valid claim at exactly the
/// deadline succeeds, and one time unit later fails with `DeadlineExpired`.
pub proof fn lemma_claim_deadline_boundary(s: EscrowState, id: EscrowId)
    requires
        s.records.dom().contains(id),
        !s.records[id].settled,
        s.records[id].deadline < i64::MAX,
    ensures
        claim_spec(s, s.records[id].payee, id, s.records[id].deadline).1 is Ok,
        claim_spec(s, s.records[id].payee, id, (s.records[id].deadline + 1) as i64).1 == Err::<
            (),
            EscrowError,
        >(EscrowError::DeadlineExpired),
{
}

/// The refund deadline is exclusive: a refund at exactly the deadline fails
/// with `DeadlineNotReached`, and one time unit later an otherwise valid
/// refund succeeds — so claim and refund windows meet at the deadline with
/// no gap and no overlap.
pub proof fn lemma_refund_deadline_boundary(s: EscrowState, id: EscrowId)
    requires
        s.records.dom().contains(id),
        !s.records[id].settled,
        s.records[id].deadline < i64::MAX,
    ensures
        refund_spec(s, id, s.records[id].deadline).1 == Err::<(), EscrowError>(
            EscrowError::DeadlineNotReached,
        ),
        refund_spec(s, id, (s.records[id].deadline + 1) as i64).1 is Ok,
{
}

/// Only the recorded payee may claim: any other caller fails with
/// `Unauthorized` even when every other guard is satisfied, and the
/// snapshot is unchanged.
pub proof fn lemma_claim_requires_payee(s: EscrowState, caller: AccountId, id: EscrowId, now: i64)
    requires
        s.records.dom().contains(id),
        !s.records[id].settled,
        now <= s.records[id].deadline,
        caller != s.records[id].payee,
    ensures
        claim_spec(s, caller, id, now) == (s, Err::<(), EscrowError>(EscrowError::Unauthorized)),
{
}

/// A successful claim drains the vault exactly and splits the amount with
/// no unit lost or created: the payee gains `amount - fee`, the operator
/// gains the fee — together the full amount.
pub proof fn lemma_claim_pays_exactly(s: EscrowState, caller: AccountId, id: EscrowId, now: i64)
    requires
        state_wf(s),
        claim_spec(s, caller, id, now).1 is Ok,
    ensures
        ({
            let r = s.records[id];
            let s1 = claim_spec(s, caller, id, now).0;
            &&& s1.records[id].settled
            &&& s1.balances[(LedgerAccount::Vault(id), r.asset)] == 0
            &&& r.payee != r.operator ==> s1.balances[(LedgerAccount::User(r.payee), r.asset)]
                == s.balances[(LedgerAccount::User(r.payee), r.asset)] + payout_of(r.amount)
            &&& r.payee != r.operator ==> s1.balances[(LedgerAccount::User(r.operator), r.asset)]
                == s.balances[(LedgerAccount::User(r.operator), r.asset)] + fee_of(r.amount)
            &&& r.payee == r.operator ==> s1.balances[(LedgerAccount::User(r.payee), r.asset)]
                == s.balances[(LedgerAccount::User(r.payee), r.asset)] + r.amount
        }),
{
    lemma_fee_split_exact(s.records[id].amount);
}

/// A successful refund returns the full original amount to the payer —
/// no fee is taken — and empties the vault.
pub proof fn lemma_refund_returns_amount(s: EscrowState, id: EscrowId, now: i64)
    requires
        state_wf(s),
        refund_spec(s, id, now).1 is Ok,
    ensures
        ({
            let r = s.records[id];
            let s1 = refund_spec(s, id, now).0;
            &&& s1.records[id].settled
            &&& s1.balances[(LedgerAccount::Vault(id), r.asset)] == 0
            &&& s1.balances[(LedgerAccount::User(r.payer), r.asset)] == s.balances[(
                LedgerAccount::User(r.payer),
                r.asset,
            )] + r.amount
        }),
{
}

} // verus!
