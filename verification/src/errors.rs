//! Error taxonomy: algorithm errors (the external tree algorithm reports a
//! missing node or an inconsistent request), storage errors (durable
//! read/write failures), and key codec errors. All failure is returned to the
//! caller; no operation is fatal.

use vstd::prelude::*;

verus! {

/// An error reported by the external tree algorithm, surfaced verbatim.
#[derive(Debug)]
pub struct AlgorithmError {
    pub message: String,
}

/// An error reported by the durable node store, surfaced verbatim.
#[derive(Debug)]
pub struct StoreError {
    pub message: String,
}

/// A key failed to encode to or decode from its byte form.
#[derive(Debug)]
pub struct KeyCodecError {}

/// The error type of the state tree's public operations.
#[derive(Debug)]
pub enum TreeError {
    /// The external tree algorithm failed (e.g. a missing internal node).
    Algorithm(AlgorithmError),
    /// The durable node store failed a read or a write.
    Store(StoreError),
    /// A key could not be encoded to bytes.
    KeyEncode,
    /// A raw key byte string could not be decoded.
    KeyDecode,
}

impl AlgorithmError {
    /// A human-readable description of the failure.
    pub fn message(&self) -> (m: &String)
        ensures
            m@ == self.message@,
    {
        &self.message
    }
}

impl StoreError {
    /// A human-readable description of the failure.
    pub fn message(&self) -> (m: &String)
        ensures
            m@ == self.message@,
    {
        &self.message
    }
}

} // verus!
