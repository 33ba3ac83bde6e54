//! The error kinds with which a ledger operation can fail.

use vstd::prelude::*;

verus! {

/// Why a ledger operation was rejected. Every failure leaves all records
/// untouched: an operation either completes in full or reports one of
/// these kinds and changes nothing.
#[derive(Clone, Copy, Debug, PartialEq, Eq, Structural)]
pub enum TodoError {
    /// The caller is not the recognized authority for the requested
    /// privileged action.
    Unauthorized,
    /// A structurally disallowed operation, such as a holder account used
    /// with a mint it does not reference.
    NotAllowed,
    /// The target holder account is frozen.
    FrozenAccount,
    /// An arithmetic accumulation would exceed the representable range.
    MathOverflow,
    /// An attempt to create a record that already exists.
    AlreadyInitialized,
    /// The referenced mint does not exist.
    MintNotFound,
}

impl TodoError {
    /// A short human-readable description of the error kind.
    pub fn message(&self) -> &'static str {
        match self {
            TodoError::Unauthorized => "You are not authenticated",
            TodoError::NotAllowed => "You are not allowed",
            TodoError::FrozenAccount => "Account is frozen",
            TodoError::MathOverflow => "Math operation overflow",
            TodoError::AlreadyInitialized => "Already initialized",
            TodoError::MintNotFound => "Mint not found",
        }
    }
}

} // verus!
