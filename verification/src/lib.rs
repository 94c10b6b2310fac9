//! A conditional-payment escrow.
//!
//! A payer deposits a fungible-asset amount into a vault tied to a payee and
//! a deadline. The payee may claim the funds up to and including the
//! deadline, paying a fixed basis-point fee to an operator; after the
//! deadline anyone may trigger a refund of the full amount to the payer.
//! Each escrow settles exactly once: claim and refund are mutually exclusive
//! and terminal.
//!
//! [`machine`] states the three transitions over spec-level snapshots;
//! [`escrow`] implements them over a record store and the [`ledger`] and
//! proves the implementation refines those transitions; [`laws`] proves the
//! system-wide guarantees once, for every state and input.

pub mod errors;
pub mod escrow;
pub mod fee;
pub mod ids;
pub mod laws;
pub mod ledger;
pub mod machine;
