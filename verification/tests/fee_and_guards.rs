use ror_escrow::errors::EscrowError;
use ror_escrow::fee::split_amount;
use ror_escrow::ids::{derive_nonce, AccountId, AssetId, EscrowId};
use ror_escrow::machine::{check_claim, check_open_inputs, check_refund, EscrowRecord};

fn acct(n: u64) -> AccountId {
    AccountId(n, 0, 0, 0)
}

fn record(settled: bool, deadline: i64) -> EscrowRecord {
    let payer = acct(1);
    let payee = acct(2);
    let asset = AssetId(9, 0, 0, 0);
    let id = EscrowId { payer, payee, asset };
    EscrowRecord {
        payer,
        payee,
        operator: acct(3),
        asset,
        amount: 1000,
        deadline,
        settled,
        derivation_nonce: derive_nonce(&id),
    }
}

#[test]
fn fee_plus_payout_is_exactly_the_amount() {
    for amount in [0u64, 1, 7, 8, 9, 99, 1000, 10_000, 123_456_789, u64::MAX] {
        let (fee, payout) = split_amount(amount);
        assert_eq!(fee as u128 + payout as u128, amount as u128);
        assert_eq!(fee as u128, amount as u128 * 1200 / 10_000);
    }
}

#[test]
fn fee_split_exact_values() {
    assert_eq!(split_amount(1000), (120, 880));
    assert_eq!(split_amount(1), (0, 1));
    assert_eq!(split_amount(9), (1, 8));
    assert_eq!(split_amount(10_000), (1200, 8800));
    assert_eq!(split_amount(u64::MAX), (2213609288845146193, 16233134784864405422));
}

#[test]
fn open_input_checks_in_order() {
    // a zero amount is reported before a bad deadline.
    assert_eq!(check_open_inputs(0, 0, 10), Err(EscrowError::InvalidAmount));
    assert_eq!(check_open_inputs(1, 10, 10), Err(EscrowError::InvalidDeadline));
    assert_eq!(check_open_inputs(1, 9, 10), Err(EscrowError::InvalidDeadline));
    assert_eq!(check_open_inputs(1, 11, 10), Ok(()));
}

#[test]
fn claim_guards_in_order() {
    let payee = acct(2);
    // settled wins over everything, even past the deadline.
    assert_eq!(check_claim(&record(true, 100), payee, 500), Err(EscrowError::AlreadySettled));
    // the deadline is checked before the caller's identity.
    assert_eq!(check_claim(&record(false, 100), acct(9), 101), Err(EscrowError::DeadlineExpired));
    assert_eq!(check_claim(&record(false, 100), acct(9), 100), Err(EscrowError::Unauthorized));
    assert_eq!(check_claim(&record(false, 100), payee, 100), Ok(()));
    assert_eq!(check_claim(&record(false, 100), payee, 101), Err(EscrowError::DeadlineExpired));
}

#[test]
fn refund_guards_in_order() {
    assert_eq!(check_refund(&record(true, 100), 500), Err(EscrowError::AlreadySettled));
    assert_eq!(check_refund(&record(false, 100), 100), Err(EscrowError::DeadlineNotReached));
    assert_eq!(check_refund(&record(false, 100), 101), Ok(()));
}

#[test]
fn nonce_derivation_is_deterministic() {
    let id = EscrowId { payer: acct(5), payee: acct(6), asset: AssetId(7, 0, 0, 0) };
    assert_eq!(derive_nonce(&id), derive_nonce(&id));
    assert_eq!(derive_nonce(&id), 5 ^ 6 ^ 7);
}
