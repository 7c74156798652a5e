//! The view of global storage that a block is run against.

use crate::access_path::AccessPath;
use vstd::prelude::*;

verus! {

/// Storage could not answer.
#[derive(Clone, Copy, Debug, PartialEq, Eq, Structural)]
pub struct StateViewError {
    pub code: u64,
}

/// Global storage as it stood at some version. Whoever holds the storage
/// implements this.
pub trait StateView {
    /// What is stored under the path, if anything.
    fn get(&self, access_path: &AccessPath) -> Result<Option<Vec<u8>>, StateViewError>;

    /// What is stored under each of the paths.
    fn multi_get(&self, access_paths: &[AccessPath]) -> Result<
        Vec<Option<Vec<u8>>>,
        StateViewError,
    >;

    /// Whether storage is empty, as it is before the first transaction.
    fn is_genesis(&self) -> bool;
}

} // verus!
