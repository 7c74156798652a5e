//! Access paths: where a piece of data lives in global storage, and the
//! order in which the paths are kept.

use crate::account_address::AccountAddress;
use crate::bytes::{
    append_bytes, compare_bytes, lemma_lex_irreflexive, lemma_lex_transitive,
    lemma_lex_trichotomy, lex_lt, ByteOrder,
};
use crate::hash::sha3_256;
use crate::language_storage::{module_id_bytes, ModuleId};
use vstd::prelude::*;

verus! {

/// The first byte of the path of a module's code.
pub const CODE_TAG: u8 = 0;

/// The first byte of the path of a resource.
pub const RESOURCE_TAG: u8 = 1;

/// The place of a piece of data in global storage: the account that holds
/// it, then a path inside the account.
#[derive(Debug, PartialEq, Eq, Hash, PartialOrd, Ord)]
pub struct AccessPath {
    pub address: AccountAddress,
    pub path: Vec<u8>,
}

/// An access path as contracts see it: the bytes of the address and the
/// bytes of the path.
pub struct PathKey {
    pub address: Seq<u8>,
    pub path: Seq<u8>,
}

impl View for AccessPath {
    type V = PathKey;

    open spec fn view(&self) -> PathKey {
        PathKey { address: self.address@, path: self.path@ }
    }
}

impl Clone for AccessPath {
    fn clone(&self) -> (r: Self)
        ensures
            r@ == self@,
            r.address == self.address,
    {
        let path = self.path.clone();
        assert(path@ =~= self.path@);
        AccessPath { address: self.address, path }
    }
}

/// `a` is kept before `b`: its address comes first, or the addresses are
/// the same and its path comes first.
pub open spec fn path_lt(a: PathKey, b: PathKey) -> bool {
    lex_lt(a.address, b.address) || (a.address == b.address && lex_lt(a.path, b.path))
}

/// No path is kept before itself.
pub proof fn lemma_path_irreflexive(a: PathKey)
    ensures
        !path_lt(a, a),
{
    lemma_lex_irreflexive(a.address);
    lemma_lex_irreflexive(a.path);
}

/// Of two paths one is kept before the other, unless they are the same.
pub proof fn lemma_path_trichotomy(a: PathKey, b: PathKey)
    ensures
        path_lt(a, b) || a == b || path_lt(b, a),
        !(path_lt(a, b) && path_lt(b, a)),
        !(path_lt(a, b) && a == b),
{
    lemma_lex_trichotomy(a.address, b.address);
    lemma_lex_trichotomy(a.path, b.path);
}

/// The order of the paths is transitive.
pub proof fn lemma_path_transitive(a: PathKey, b: PathKey, c: PathKey)
    requires
        path_lt(a, b),
        path_lt(b, c),
    ensures
        path_lt(a, c),
{
    lemma_lex_trichotomy(a.address, b.address);
    lemma_lex_trichotomy(b.address, c.address);
    if lex_lt(a.address, b.address) && lex_lt(b.address, c.address) {
        lemma_lex_transitive(a.address, b.address, c.address);
    }
    if a.address == b.address && b.address == c.address {
        lemma_lex_transitive(a.path, b.path, c.path);
    }
}

/// The path of the code of the module that `module` names: the tag of
/// code, then the SHA3-256 digest of the bytes that name the module.
pub open spec fn code_path(address: Seq<u8>, name: Seq<char>) -> Seq<u8> {
    seq![CODE_TAG] + sha3_256(module_id_bytes(address, name))
}

impl AccessPath {
    /// The path `path` inside the account at `address`.
    pub fn new(address: AccountAddress, path: Vec<u8>) -> (ap: Self)
        ensures
            ap.address == address,
            ap.path == path,
    {
        AccessPath { address, path }
    }

    /// Where the code of a module lives: in the account that published it,
    /// under the path that `code_path` gives.
    pub fn code_access_path(module: &ModuleId) -> (ap: Self)
        ensures
            ap.address == *module.spec_address(),
            ap.path@ == code_path(module.spec_address()@, module.spec_name()@),
    {
        let digest = module.hash();
        let mut path: Vec<u8> = Vec::new();
        path.push(CODE_TAG);
        append_bytes(&mut path, digest.bytes.as_slice());
        AccessPath { address: *module.address(), path }
    }

    /// How this path stands to `other` in the order of the paths.
    pub fn compare(&self, other: &AccessPath) -> (o: ByteOrder)
        ensures
            o == ByteOrder::Less <==> path_lt(self@, other@),
            o == ByteOrder::Equal <==> self@ == other@,
            o == ByteOrder::Greater <==> path_lt(other@, self@),
    {
        proof {
            lemma_path_trichotomy(self@, other@);
            lemma_lex_trichotomy(self.address@, other.address@);
        }
        match compare_bytes(self.address.bytes.as_slice(), other.address.bytes.as_slice()) {
            ByteOrder::Less => ByteOrder::Less,
            ByteOrder::Greater => ByteOrder::Greater,
            ByteOrder::Equal => compare_bytes(self.path.as_slice(), other.path.as_slice()),
        }
    }
}

} // verus!
