//! The failures an operation can surface.

use vstd::prelude::*;

verus! {

/// Why an operation on the registry was refused.
///
/// Every error aborts the whole invocation before any field of the record
/// is mutated; no partially applied state is ever observable.
#[derive(Debug, Clone, Copy, PartialEq, Eq, Structural)]
pub enum RegistryError {
    /// `initialize` was invoked on a slot that already holds a record.
    AlreadyInitialized,
    /// `add_gif` was invoked without valid proof that the caller is the
    /// party recorded as submitter.
    Unauthorized,
    /// An append would push the record's serialized size past the fixed
    /// capacity of its slot.
    StorageExhausted,
}

impl RegistryError {
    /// A short stable name for the error, for callers that need to print it.
    pub fn name(&self) -> (r: &'static str)
        ensures
            self is AlreadyInitialized ==> r@ == "AlreadyInitialized"@,
            self is Unauthorized ==> r@ == "Unauthorized"@,
            self is StorageExhausted ==> r@ == "StorageExhausted"@,
    {
        match self {
            RegistryError::AlreadyInitialized => "AlreadyInitialized",
            RegistryError::Unauthorized => "Unauthorized",
            RegistryError::StorageExhausted => "StorageExhausted",
        }
    }
}

} // verus!
