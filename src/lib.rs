//! A ledger of vendored dependencies kept as a branch of the consuming
//! repository: the manifest model, reference resolution, ancestry pruning,
//! the sync session and the decisions that advance the ledger branch.
use vstd::prelude::*;

pub mod error;
pub mod ledger;
pub mod manifest;
pub mod order;
pub mod prune;
pub mod resolve;
pub mod sync;

verus! {

} // verus!
