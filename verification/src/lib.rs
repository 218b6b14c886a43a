//! Core of a wallet ledger: the account/address data model, the
//! input-selection engine that picks which outputs fund a transfer, a typed
//! event bus, and the reconciliation logic that merges remote ledger
//! notifications into local state.

use vstd::prelude::*;

pub mod account;
pub mod address;
pub mod event;
pub mod input_selection;
pub mod message;
pub mod monitor;

verus! {

/// The failures this library reports.
#[derive(Debug, Clone, Copy, PartialEq, Eq, Structural)]
pub enum WalletError {
    /// The requested transfer amount exceeds the total candidate balance.
    InsufficientFunds,
    /// A new account may not be created while the latest one is still unused.
    LatestAccountIsEmpty,
    /// An account, address or message lookup missed.
    NotFound,
    /// The account is missing its signer type.
    MissingSignerType,
    /// A malformed identifier was used where a hex-decodable id is required.
    InvalidIdentifier,
    /// A required builder field was left unset.
    MissingField,
}

impl DeepView for WalletError {
    type V = WalletError;

    open spec fn deep_view(&self) -> WalletError {
        *self
    }
}

} // verus!
