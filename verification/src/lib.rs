//! A verified ledger core for fungible-token mints and holder balances.
//!
//! The crate keeps the canonical record of each token type (its supply,
//! precision and authorities) and one balance record per holder per mint,
//! and proves the rules that guard every state transition: creation happens
//! exactly once per key, only the mint authority can mint, frozen accounts
//! reject deposits, and every balance or supply change is overflow-checked
//! and all-or-nothing.
//!
//! Authentication of callers and durable storage of the records are the
//! concern of the surrounding dispatcher; this crate works on plain values
//! that the dispatcher has already resolved.

use vstd::prelude::*;

pub mod error;
pub mod ledger;
pub mod registry;
pub mod store;

verus! {

/// An opaque identity, as the surrounding dispatcher resolves it after
/// authenticating a caller. The core never inspects an identity beyond
/// comparing it for equality.
#[derive(Clone, Copy, Debug, PartialEq, Eq, Structural)]
pub struct Identity {
    pub id: u64,
}

} // verus!
