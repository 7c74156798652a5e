//! The statuses with which an operation on global data ends.

use vstd::prelude::*;

verus! {

/// The kind of a failure.
#[derive(Clone, Copy, Debug, PartialEq, Eq, Structural)]
pub enum StatusCode {
    /// Storage could not be read.
    StorageError,
    /// Nothing is stored under the path.
    MissingData,
    /// A reference to global data was used against the rules; the sub-status
    /// says how.
    DynamicReferenceError,
    /// A resource is already stored under the path.
    CannotWriteExistingResource,
    /// A value could not be written as bytes.
    ValueSerializationError,
    /// The data is more than a write set can hold.
    InvalidData,
    /// The write set is malformed.
    DataFormatError,
}

/// Sub-status of a `DynamicReferenceError`: a reference was released that
/// nobody had borrowed.
pub const DRE_GLOBAL_REF_ALREADY_RELEASED: u64 = 2;

/// Sub-status of a `DynamicReferenceError`: the transaction ended while a
/// reference to a changed resource was still out.
pub const DRE_MISSING_RELEASEREF: u64 = 3;

/// Sub-status of a `DynamicReferenceError`: the resource is borrowed or
/// moved out already.
pub const DRE_GLOBAL_ALREADY_BORROWED: u64 = 4;

/// A failure: its kind and, for some kinds, a number that says more.
#[derive(Clone, Copy, Debug, PartialEq, Eq, Structural)]
pub struct VMStatus {
    pub major_status: StatusCode,
    pub sub_status: Option<u64>,
}

impl VMStatus {
    /// The failure of the given kind, without a sub-status.
    pub fn new(major_status: StatusCode) -> (s: Self)
        ensures
            s == (VMStatus { major_status, sub_status: None }),
    {
        VMStatus { major_status, sub_status: None }
    }

    /// The same failure with the given sub-status.
    pub fn with_sub_status(self, sub_status: u64) -> (s: Self)
        ensures
            s == (VMStatus { major_status: self.major_status, sub_status: Some(sub_status) }),
    {
        VMStatus { major_status: self.major_status, sub_status: Some(sub_status) }
    }
}

/// What an operation on global data returns.
pub type VMResult<T> = Result<T, VMStatus>;

} // verus!
