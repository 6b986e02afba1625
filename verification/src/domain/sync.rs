//! The result of a sync operation.
use vstd::prelude::*;

verus! {

/// Result of a sync operation.
#[derive(Debug, Clone, PartialEq, Eq, Structural)]
pub struct SyncResult {
    /// Number of secrets re-encrypted.
    pub secrets: usize,
    /// Number of recipients in the current set.
    pub recipients: usize,
    /// Whether re-encryption was needed.
    pub was_needed: bool,
}

} // verus!
