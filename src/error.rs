use vstd::prelude::*;

verus! {

/// Errors of the storages and of the data service.
#[derive(Debug, Clone, Copy, PartialEq, Eq, Structural)]
pub enum PdsError {
    /// A budget was requested from a filter that was never created.
    FilterNotInitialized,
    /// The remaining budget of a filter that was never created was read.
    FilterDoesNotExist,
}

} // verus!
