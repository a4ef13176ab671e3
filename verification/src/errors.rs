//! Typed errors for the repository and the chain engine.

use vstd::prelude::*;

verus! {

/// Errors raised by the prompt store: addressing, lookup, configuration and
/// cryptographic failures.
#[derive(Debug)]
pub enum StoreError {
    /// Store initialisation failed (environment or directory setup).
    Init(String),
    /// No prompt or chain with the given id or title exists.
    NotFound(String),
    /// An id names both a prompt and a chain.
    AmbiguousId(String),
    /// A title matches more than one prompt.
    AmbiguousTitle(String),
    /// The store or a chain was used with an invalid configuration.
    Configuration(String),
    /// An underlying input or output operation failed.
    Io(String),
    /// Encryption, decryption or key derivation failed.
    Crypto(String),
    /// Record serialisation or deserialisation failed.
    Json(String),
}

impl StoreError {
    /// Structural copy; spec equality with the original is part of the contract.
    pub fn duplicate(&self) -> (r: StoreError)
        ensures
            r == *self,
    {
        match self {
            StoreError::Init(s) => StoreError::Init(s.clone()),
            StoreError::NotFound(s) => StoreError::NotFound(s.clone()),
            StoreError::AmbiguousId(s) => StoreError::AmbiguousId(s.clone()),
            StoreError::AmbiguousTitle(s) => StoreError::AmbiguousTitle(s.clone()),
            StoreError::Configuration(s) => StoreError::Configuration(s.clone()),
            StoreError::Io(s) => StoreError::Io(s.clone()),
            StoreError::Crypto(s) => StoreError::Crypto(s.clone()),
            StoreError::Json(s) => StoreError::Json(s.clone()),
        }
    }
}

/// Errors raised while running a prompt or a chain.
#[derive(Debug)]
pub enum RunError {
    /// A failure of the prompt store itself.
    Store(StoreError),
    /// A failure reported by the text-generation backend for a call.
    Llm(String),
}

impl RunError {
    /// Structural copy; spec equality with the original is part of the contract.
    pub fn duplicate(&self) -> (r: RunError)
        ensures
            r == *self,
    {
        match self {
            RunError::Store(e) => RunError::Store(e.duplicate()),
            RunError::Llm(s) => RunError::Llm(s.clone()),
        }
    }
}

} // verus!
