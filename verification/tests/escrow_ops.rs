use ror_escrow::errors::EscrowError;
use ror_escrow::escrow::Escrow;
use ror_escrow::ids::{AccountId, AssetId, EscrowId, LedgerAccount};

fn acct(n: u64) -> AccountId {
    AccountId(n, 0, 0, 0)
}

fn asset(n: u64) -> AssetId {
    AssetId(n, 0, 0, 0)
}

fn funded_system(payer: AccountId, a: AssetId, amount: u64) -> Escrow {
    let mut e = Escrow::new();
    assert!(e.deposit(payer, a, amount));
    e
}

#[test]
fn open_succeeds_and_funds_vault() {
    let (payer, payee, operator, a) = (acct(1), acct(2), acct(3), asset(9));
    let mut e = funded_system(payer, a, 1000);
    let r = e.open(payer, payee, operator, a, 1000, 100, 0);
    let id = EscrowId { payer, payee, asset: a };
    assert_eq!(r, Ok(id));
    assert_eq!(e.balance_of(LedgerAccount::Vault(id), a), 1000);
    assert_eq!(e.balance_of(LedgerAccount::User(payer), a), 0);
    let rec = e.record_of(id).unwrap();
    assert!(!rec.settled);
    assert_eq!(rec.amount, 1000);
    assert_eq!(rec.deadline, 100);
    assert_eq!(rec.payer, payer);
    assert_eq!(rec.payee, payee);
    assert_eq!(rec.operator, operator);
    assert_eq!(rec.asset, a);
}

#[test]
fn claim_pays_payee_and_operator_exactly() {
    // open(payer=A, payee=B, operator=F, amount=1000, deadline=T+100);
    // claim by B at T+50: B gets 880, F gets 120, vault drained.
    let (a_payer, b_payee, f_operator, usd) = (acct(1), acct(2), acct(3), asset(9));
    let mut e = funded_system(a_payer, usd, 1000);
    let id = e.open(a_payer, b_payee, f_operator, usd, 1000, 100, 0).unwrap();
    assert_eq!(e.claim(b_payee, id, 50), Ok(()));
    assert_eq!(e.balance_of(LedgerAccount::User(b_payee), usd), 880);
    assert_eq!(e.balance_of(LedgerAccount::User(f_operator), usd), 120);
    assert_eq!(e.balance_of(LedgerAccount::Vault(id), usd), 0);
    assert!(e.record_of(id).unwrap().settled);
    // the escrow is terminal: a later refund fails.
    assert_eq!(e.refund(id, 200), Err(EscrowError::AlreadySettled));
}

#[test]
fn refund_returns_full_amount_to_payer() {
    // no claim happens; at T+101 the refund pays the payer back exactly 1000.
    let (payer, payee, operator, usd) = (acct(1), acct(2), acct(3), asset(9));
    let mut e = funded_system(payer, usd, 1000);
    let id = e.open(payer, payee, operator, usd, 1000, 100, 0).unwrap();
    assert_eq!(e.refund(id, 101), Ok(()));
    assert_eq!(e.balance_of(LedgerAccount::User(payer), usd), 1000);
    assert_eq!(e.balance_of(LedgerAccount::Vault(id), usd), 0);
    assert_eq!(e.balance_of(LedgerAccount::User(payee), usd), 0);
    // the escrow is terminal: a later claim fails.
    assert_eq!(e.claim(payee, id, 102), Err(EscrowError::AlreadySettled));
}

#[test]
fn open_with_zero_amount_is_rejected() {
    let (payer, payee, operator, usd) = (acct(1), acct(2), acct(3), asset(9));
    let mut e = funded_system(payer, usd, 1000);
    let r = e.open(payer, payee, operator, usd, 0, 100, 0);
    assert_eq!(r, Err(EscrowError::InvalidAmount));
    // no record created, no transfer issued.
    let id = EscrowId { payer, payee, asset: usd };
    assert!(e.record_of(id).is_none());
    assert_eq!(e.balance_of(LedgerAccount::User(payer), usd), 1000);
    assert_eq!(e.balance_of(LedgerAccount::Vault(id), usd), 0);
}

#[test]
fn open_with_past_or_present_deadline_is_rejected() {
    let (payer, payee, operator, usd) = (acct(1), acct(2), acct(3), asset(9));
    let mut e = funded_system(payer, usd, 1000);
    assert_eq!(e.open(payer, payee, operator, usd, 1000, 50, 50), Err(EscrowError::InvalidDeadline));
    assert_eq!(e.open(payer, payee, operator, usd, 1000, 49, 50), Err(EscrowError::InvalidDeadline));
    assert_eq!(e.balance_of(LedgerAccount::User(payer), usd), 1000);
}

#[test]
fn open_twice_is_a_duplicate() {
    let (payer, payee, operator, usd) = (acct(1), acct(2), acct(3), asset(9));
    let mut e = funded_system(payer, usd, 2000);
    let id = e.open(payer, payee, operator, usd, 1000, 100, 0).unwrap();
    assert_eq!(e.open(payer, payee, operator, usd, 500, 200, 0), Err(EscrowError::DuplicateEscrow));
    // the payer was charged only once and the first record stands.
    assert_eq!(e.balance_of(LedgerAccount::User(payer), usd), 1000);
    assert_eq!(e.record_of(id).unwrap().amount, 1000);
}

#[test]
fn open_without_funds_fails_and_creates_nothing() {
    let (payer, payee, operator, usd) = (acct(1), acct(2), acct(3), asset(9));
    let mut e = funded_system(payer, usd, 999);
    let r = e.open(payer, payee, operator, usd, 1000, 100, 0);
    assert_eq!(r, Err(EscrowError::InsufficientFunds));
    let id = EscrowId { payer, payee, asset: usd };
    assert!(e.record_of(id).is_none());
    assert_eq!(e.balance_of(LedgerAccount::User(payer), usd), 999);
}

#[test]
fn claim_and_refund_on_unknown_escrow() {
    let (payer, payee, usd) = (acct(1), acct(2), asset(9));
    let mut e = Escrow::new();
    let id = EscrowId { payer, payee, asset: usd };
    assert_eq!(e.claim(payee, id, 0), Err(EscrowError::NotFound));
    assert_eq!(e.refund(id, 0), Err(EscrowError::NotFound));
}

#[test]
fn claim_deadline_is_inclusive() {
    let (payer, payee, operator, usd) = (acct(1), acct(2), acct(3), asset(9));
    let mut e = funded_system(payer, usd, 1000);
    let id = e.open(payer, payee, operator, usd, 1000, 100, 0).unwrap();
    // at now == deadline the claim succeeds.
    assert_eq!(e.claim(payee, id, 100), Ok(()));

    // a fresh escrow claimed at deadline + 1 fails.
    let payee2 = acct(4);
    let mut e2 = funded_system(payer, usd, 1000);
    let id2 = e2.open(payer, payee2, operator, usd, 1000, 100, 0).unwrap();
    assert_eq!(e2.claim(payee2, id2, 101), Err(EscrowError::DeadlineExpired));
    // nothing moved.
    assert_eq!(e2.balance_of(LedgerAccount::Vault(id2), usd), 1000);
    assert!(!e2.record_of(id2).unwrap().settled);
}

#[test]
fn refund_deadline_is_exclusive() {
    let (payer, payee, operator, usd) = (acct(1), acct(2), acct(3), asset(9));
    let mut e = funded_system(payer, usd, 1000);
    let id = e.open(payer, payee, operator, usd, 1000, 100, 0).unwrap();
    assert_eq!(e.refund(id, 100), Err(EscrowError::DeadlineNotReached));
    assert_eq!(e.refund(id, 99), Err(EscrowError::DeadlineNotReached));
    assert_eq!(e.refund(id, 101), Ok(()));
    assert_eq!(e.balance_of(LedgerAccount::User(payer), usd), 1000);
}

#[test]
fn claim_by_non_payee_is_unauthorized() {
    let (payer, payee, operator, usd) = (acct(1), acct(2), acct(3), asset(9));
    let mut e = funded_system(payer, usd, 1000);
    let id = e.open(payer, payee, operator, usd, 1000, 100, 0).unwrap();
    // every other guard is satisfied, yet the caller is wrong.
    assert_eq!(e.claim(payer, id, 50), Err(EscrowError::Unauthorized));
    assert_eq!(e.claim(operator, id, 50), Err(EscrowError::Unauthorized));
    assert_eq!(e.claim(acct(99), id, 50), Err(EscrowError::Unauthorized));
    // nothing changed: the payee can still claim.
    assert_eq!(e.claim(payee, id, 50), Ok(()));
}

#[test]
fn settlement_is_exclusive_in_every_order() {
    let (payer, payee, operator, usd) = (acct(1), acct(2), acct(3), asset(9));

    // claim then claim
    let mut e1 = funded_system(payer, usd, 1000);
    let id1 = e1.open(payer, payee, operator, usd, 1000, 100, 0).unwrap();
    assert_eq!(e1.claim(payee, id1, 10), Ok(()));
    assert_eq!(e1.claim(payee, id1, 20), Err(EscrowError::AlreadySettled));

    // claim then refund
    assert_eq!(e1.refund(id1, 200), Err(EscrowError::AlreadySettled));

    // refund then refund
    let mut e2 = funded_system(payer, usd, 1000);
    let id2 = e2.open(payer, payee, operator, usd, 1000, 100, 0).unwrap();
    assert_eq!(e2.refund(id2, 101), Ok(()));
    assert_eq!(e2.refund(id2, 102), Err(EscrowError::AlreadySettled));

    // refund then claim
    assert_eq!(e2.claim(payee, id2, 102), Err(EscrowError::AlreadySettled));
}

#[test]
fn racing_claims_have_exactly_one_winner() {
    // operations on one record are serialized (spec: atomic per record); a
    // simulated race is a sequence of attempts, of which exactly one wins.
    let (payer, payee, operator, usd) = (acct(1), acct(2), acct(3), asset(9));
    let mut e = funded_system(payer, usd, 1000);
    let id = e.open(payer, payee, operator, usd, 1000, 100, 0).unwrap();
    let attempts = [
        e.claim(payee, id, 50),
        e.claim(payee, id, 50),
        e.claim(payee, id, 51),
    ];
    let wins = attempts.iter().filter(|r| r.is_ok()).count();
    assert_eq!(wins, 1);
    assert_eq!(attempts[0], Ok(()));
    assert_eq!(attempts[1], Err(EscrowError::AlreadySettled));
    assert_eq!(attempts[2], Err(EscrowError::AlreadySettled));
    // exactly one payout sequence happened.
    assert_eq!(e.balance_of(LedgerAccount::User(payee), usd), 880);
    assert_eq!(e.balance_of(LedgerAccount::User(operator), usd), 120);
}

#[test]
fn payee_as_operator_receives_everything() {
    let (payer, payee, usd) = (acct(1), acct(2), asset(9));
    let mut e = funded_system(payer, usd, 1000);
    let id = e.open(payer, payee, payee, usd, 1000, 100, 0).unwrap();
    assert_eq!(e.claim(payee, id, 50), Ok(()));
    assert_eq!(e.balance_of(LedgerAccount::User(payee), usd), 1000);
    assert_eq!(e.balance_of(LedgerAccount::Vault(id), usd), 0);
}

#[test]
fn tiny_amount_has_zero_fee() {
    // floor(8 * 1200 / 10000) == 0: the whole amount goes to the payee.
    let (payer, payee, operator, usd) = (acct(1), acct(2), acct(3), asset(9));
    let mut e = funded_system(payer, usd, 8);
    let id = e.open(payer, payee, operator, usd, 8, 100, 0).unwrap();
    assert_eq!(e.claim(payee, id, 50), Ok(()));
    assert_eq!(e.balance_of(LedgerAccount::User(payee), usd), 8);
    assert_eq!(e.balance_of(LedgerAccount::User(operator), usd), 0);
    assert_eq!(e.balance_of(LedgerAccount::Vault(id), usd), 0);
}

#[test]
fn deposit_stops_at_total_supply_cap() {
    let (payer, usd) = (acct(1), asset(9));
    let mut e = Escrow::new();
    assert!(e.deposit(payer, usd, u64::MAX));
    assert!(!e.deposit(payer, usd, 1));
    assert_eq!(e.balance_of(LedgerAccount::User(payer), usd), u64::MAX);
}

#[test]
fn records_of_different_escrows_are_independent() {
    let (payer, payee, operator, usd) = (acct(1), acct(2), acct(3), asset(9));
    let other_payee = acct(4);
    let mut e = funded_system(payer, usd, 300);
    let id1 = e.open(payer, payee, operator, usd, 100, 100, 0).unwrap();
    let id2 = e.open(payer, other_payee, operator, usd, 200, 100, 0).unwrap();
    assert_ne!(id1, id2);
    assert_eq!(e.claim(payee, id1, 50), Ok(()));
    // the second escrow is untouched by the first one's settlement.
    assert!(!e.record_of(id2).unwrap().settled);
    assert_eq!(e.balance_of(LedgerAccount::Vault(id2), usd), 200);
    assert_eq!(e.refund(id2, 101), Ok(()));
    assert_eq!(e.balance_of(LedgerAccount::User(payer), usd), 200);
}
