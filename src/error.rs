use vstd::prelude::*;

verus! {

/// Every way in which a ledger operation can fail.
#[derive(Clone, Copy, Debug, PartialEq, Eq, Structural)]
pub enum LedgerError {
    NotInitialized,
    AlreadyInitialized,
    DuplicateDependency,
    DependencyNotFound,
    ReferenceNotFound,
    ManifestParse,
    NetworkFetch,
    StorageWrite,
    LedgerConflict,
}

} // verus!
