//! 256-bit digests, and the SHA3-256 function that produces them.

use crate::bytes::array32_eq;
use vstd::prelude::*;

verus! {

/// The number of bytes in a digest.
pub const HASH_LENGTH: usize = 32;

/// A 256-bit digest. Blocks and states are named by one.
#[derive(Clone, Copy, Debug, Eq, Hash, PartialOrd, Ord)]
pub struct HashValue {
    pub bytes: [u8; 32],
}

impl View for HashValue {
    type V = Seq<u8>;

    open spec fn view(&self) -> Seq<u8> {
        self.bytes@
    }
}

impl PartialEq for HashValue {
    fn eq(&self, other: &Self) -> (r: bool) {
        array32_eq(&self.bytes, &other.bytes)
    }
}

impl vstd::std_specs::cmp::PartialEqSpecImpl for HashValue {
    open spec fn obeys_eq_spec() -> bool {
        true
    }

    open spec fn eq_spec(&self, other: &Self) -> bool {
        *self == *other
    }
}

/// The SHA3-256 digest of a byte string, as the `tiny-keccak` crate computes it.
pub uninterp spec fn sha3_256(data: Seq<u8>) -> Seq<u8>;

/// Calls `tiny_keccak::Sha3::v256`, feeds it `data` with `Hasher::update`
/// and reads 32 bytes with `Hasher::finalize`. The contract names the
/// digest and says nothing else of it.
#[verifier::external_body]
fn sha3_256_digest(data: &[u8]) -> (out: [u8; 32])
    ensures
        out@ == sha3_256(data@),
{
    let mut hasher = tiny_keccak::Sha3::v256();
    tiny_keccak::Hasher::update(&mut hasher, data);
    let mut out = [0u8; 32];
    tiny_keccak::Hasher::finalize(hasher, &mut out);
    out
}

impl HashValue {
    /// The digest with the given bytes.
    pub fn new(bytes: [u8; 32]) -> (h: Self)
        ensures
            h.bytes == bytes,
    {
        HashValue { bytes }
    }

    /// The digest whose bytes are all zero.
    pub fn zero() -> (h: Self)
        ensures
            h@ == Seq::new(32, |i: int| 0u8),
    {
        let h = HashValue { bytes: [0u8; 32] };
        assert(h@ =~= Seq::new(32, |i: int| 0u8));
        h
    }

    /// The SHA3-256 digest of `data`.
    pub fn from_sha3(data: &[u8]) -> (h: Self)
        ensures
            h@ == sha3_256(data@),
    {
        HashValue { bytes: sha3_256_digest(data) }
    }

    /// The bytes of the digest.
    pub fn to_vec(&self) -> (v: Vec<u8>)
        ensures
            v@ == self@,
    {
        let mut v: Vec<u8> = Vec::new();
        crate::bytes::append_bytes(&mut v, self.bytes.as_slice());
        v
    }
}

} // verus!
