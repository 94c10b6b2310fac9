//! Identities, asset identifiers, and the authorities the ledger recognises.

use vstd::prelude::*;

verus! {

/// Identity of a party (payer, payee or operator): an opaque 256-bit key,
/// held as four little-endian 64-bit words.
#[derive(Clone, Copy, Debug, PartialEq, Eq, Structural)]
pub struct AccountId(pub u64, pub u64, pub u64, pub u64);

/// Identifier of the escrowed fungible asset, held as four 64-bit words.
#[derive(Clone, Copy, Debug, PartialEq, Eq, Structural)]
pub struct AssetId(pub u64, pub u64, pub u64, pub u64);

/// Identifier of one escrow instance, derived deterministically from the
/// parties and the asset: one escrow may exist per `(payer, payee, asset)`.
#[derive(Clone, Copy, Debug, PartialEq, Eq, Structural)]
pub struct EscrowId {
    pub payer: AccountId,
    pub payee: AccountId,
    pub asset: AssetId,
}

/// An account the ledger keeps a balance for: either a party's own account
/// or the vault that custodies the funds of one escrow.
#[derive(Clone, Copy, Debug, PartialEq, Eq, Structural)]
pub enum LedgerAccount {
    User(AccountId),
    Vault(EscrowId),
}

/// A capability to move funds out of a ledger account. A party signs for its
/// own account; a vault is drained only by the authority derived from its
/// escrow, which the state machine constructs internally and never hands to
/// any party.
#[derive(Clone, Copy, Debug, PartialEq, Eq, Structural)]
pub enum Authority {
    Signer(AccountId),
    VaultOwner(EscrowId),
}

impl Authority {
    /// Whether this capability may move funds out of `account`.
    pub open spec fn authorizes(self, account: LedgerAccount) -> bool {
        match (self, account) {
            (Authority::Signer(a), LedgerAccount::User(b)) => a == b,
            (Authority::VaultOwner(e), LedgerAccount::Vault(f)) => e == f,
            _ => false,
        }
    }
}

/// The derivation nonce recorded on an escrow: a deterministic mix of the
/// identifying words, re-derivable from the record alone.
pub open spec fn nonce_of(id: EscrowId) -> u64 {
    id.payer.0 ^ id.payee.0 ^ id.asset.0
}

/// Computes the derivation nonce of `id`.
pub fn derive_nonce(id: &EscrowId) -> (r: u64)
    ensures
        r == nonce_of(*id),
{
    id.payer.0 ^ id.payee.0 ^ id.asset.0
}

} // verus!
