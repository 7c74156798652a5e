//! Account addresses. A validator is known by its address.

use crate::bytes::array32_eq;
use vstd::prelude::*;

verus! {

/// The number of bytes in an address.
pub const ADDRESS_LENGTH: usize = 32;

/// The address of an account.
#[derive(Clone, Copy, Debug, Eq, Hash, PartialOrd, Ord)]
pub struct AccountAddress {
    pub bytes: [u8; 32],
}

impl View for AccountAddress {
    type V = Seq<u8>;

    open spec fn view(&self) -> Seq<u8> {
        self.bytes@
    }
}

impl PartialEq for AccountAddress {
    fn eq(&self, other: &Self) -> (r: bool) {
        array32_eq(&self.bytes, &other.bytes)
    }
}

impl vstd::std_specs::cmp::PartialEqSpecImpl for AccountAddress {
    open spec fn obeys_eq_spec() -> bool {
        true
    }

    open spec fn eq_spec(&self, other: &Self) -> bool {
        *self == *other
    }
}

/// Why bytes were not taken for an address.
#[derive(Clone, Copy, Debug, PartialEq, Eq, Structural)]
pub enum AddressError {
    /// The byte string does not have `ADDRESS_LENGTH` bytes.
    WrongLength,
}

impl AccountAddress {
    /// The address with the given bytes.
    pub fn new(bytes: [u8; 32]) -> (a: Self)
        ensures
            a.bytes == bytes,
    {
        AccountAddress { bytes }
    }

    /// Reads an address from a byte string, which must hold exactly
    /// `ADDRESS_LENGTH` bytes.
    pub fn from_bytes(bytes: &[u8]) -> (r: Result<Self, AddressError>)
        ensures
            bytes@.len() == 32 <==> r is Ok,
            r matches Ok(a) ==> a@ == bytes@,
            r matches Err(e) ==> e == AddressError::WrongLength,
    {
        if bytes.len() != 32 {
            return Err(AddressError::WrongLength);
        }
        let mut out = [0u8; 32];
        let mut i: usize = 0;
        while i < 32
            invariant
                i <= 32,
                bytes@.len() == 32,
                forall|j: int| 0 <= j < i ==> out[j] == bytes[j],
            decreases 32 - i,
        {
            out[i] = bytes[i];
            i += 1;
        }
        assert(out@ =~= bytes@);
        Ok(AccountAddress { bytes: out })
    }

    /// The bytes of the address.
    pub fn to_vec(&self) -> (v: Vec<u8>)
        ensures
            v@ == self@,
    {
        let mut v: Vec<u8> = Vec::new();
        crate::bytes::append_bytes(&mut v, self.bytes.as_slice());
        v
    }
}

} // verus!
