//! What the parts of the consensus core share: rounds, authors, and the
//! name and round of a block.

use crate::account_address::AccountAddress;
use crate::bytes::array64_eq;
use crate::hash::HashValue;
use vstd::prelude::*;

verus! {

/// One attempt at proposing and certifying a block. Rounds only go up.
pub type Round = u64;

/// A validator, known by its address.
pub type Author = AccountAddress;

/// The name of a block and the round it was proposed in.
#[derive(Clone, Copy, Debug, Eq)]
pub struct BlockInfo {
    pub id: HashValue,
    pub round: Round,
}

impl PartialEq for BlockInfo {
    fn eq(&self, other: &Self) -> (r: bool) {
        self.id == other.id && self.round == other.round
    }
}

impl vstd::std_specs::cmp::PartialEqSpecImpl for BlockInfo {
    open spec fn obeys_eq_spec() -> bool {
        true
    }

    open spec fn eq_spec(&self, other: &Self) -> bool {
        *self == *other
    }
}

impl BlockInfo {
    /// The block `id` of round `round`.
    pub fn new(id: HashValue, round: Round) -> (b: Self)
        ensures
            b == (BlockInfo { id, round }),
    {
        BlockInfo { id, round }
    }
}

/// An Ed25519 signature.
#[derive(Clone, Copy, Debug, Eq)]
pub struct Signature {
    pub bytes: [u8; 64],
}

impl View for Signature {
    type V = Seq<u8>;

    open spec fn view(&self) -> Seq<u8> {
        self.bytes@
    }
}

impl PartialEq for Signature {
    fn eq(&self, other: &Self) -> (r: bool) {
        array64_eq(&self.bytes, &other.bytes)
    }
}

impl vstd::std_specs::cmp::PartialEqSpecImpl for Signature {
    open spec fn obeys_eq_spec() -> bool {
        true
    }

    open spec fn eq_spec(&self, other: &Self) -> bool {
        *self == *other
    }
}

impl Signature {
    /// The signature with the given bytes.
    pub fn new(bytes: [u8; 64]) -> (s: Self)
        ensures
            s.bytes == bytes,
    {
        Signature { bytes }
    }
}

} // verus!
