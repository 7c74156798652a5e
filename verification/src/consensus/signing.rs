//! Ed25519 signatures, as the `ed25519-dalek` crate makes and checks them.

use crate::consensus::common::{Author, Signature};
use vstd::prelude::*;

verus! {

/// Whether `signature` is accepted for `message` under `public_key` by the
/// strict Ed25519 check of `ed25519-dalek`. Bytes that are no public key
/// accept nothing.
pub uninterp spec fn ed25519_verifies(
    public_key: Seq<u8>,
    message: Seq<u8>,
    signature: Seq<u8>,
) -> bool;

/// The Ed25519 signature that `ed25519-dalek` makes of `message` with
/// `secret_key`.
pub uninterp spec fn ed25519_signature(secret_key: Seq<u8>, message: Seq<u8>) -> Seq<u8>;

/// The Ed25519 public key that belongs to `secret_key`.
pub uninterp spec fn ed25519_public_key(secret_key: Seq<u8>) -> Seq<u8>;

/// Calls `ed25519_dalek::VerifyingKey::from_bytes` and then
/// `VerifyingKey::verify_strict`. The result is `true` where both succeed.
/// The contract names that result and says nothing else of it.
#[verifier::external_body]
fn verify_strict(public_key: &[u8; 32], message: &[u8], signature: &[u8; 64]) -> (ok: bool)
    ensures
        ok == ed25519_verifies(public_key@, message@, signature@),
{
    match ed25519_dalek::VerifyingKey::from_bytes(public_key) {
        Ok(key) => key.verify_strict(
            message,
            &ed25519_dalek::Signature::from_bytes(signature),
        ).is_ok(),
        Err(_) => false,
    }
}

/// Calls `ed25519_dalek::SigningKey::from_bytes` and then `Signer::sign`,
/// which is deterministic. The contract names the signature and says
/// nothing else of it.
#[verifier::external_body]
fn sign_with(secret_key: &[u8; 32], message: &[u8]) -> (signature: [u8; 64])
    ensures
        signature@ == ed25519_signature(secret_key@, message@),
{
    let key = ed25519_dalek::SigningKey::from_bytes(secret_key);
    ed25519_dalek::Signer::sign(&key, message).to_bytes()
}

/// Calls `ed25519_dalek::SigningKey::from_bytes` and then
/// `SigningKey::verifying_key`. The contract names the public key and
/// says nothing else of it.
#[verifier::external_body]
fn derive_public_key(secret_key: &[u8; 32]) -> (public_key: [u8; 32])
    ensures
        public_key@ == ed25519_public_key(secret_key@),
{
    ed25519_dalek::SigningKey::from_bytes(secret_key).verifying_key().to_bytes()
}

/// Whether `signature` is a signature of `message` under `public_key`.
pub fn verify_signature(public_key: &[u8; 32], message: &[u8], signature: &Signature) -> (ok:
    bool)
    ensures
        ok == ed25519_verifies(public_key@, message@, signature@),
{
    verify_strict(public_key, message, &signature.bytes)
}

/// A validator's means to sign: who it is, and its secret key.
#[derive(Clone, Copy, Debug)]
pub struct ValidatorSigner {
    author: Author,
    secret_key: [u8; 32],
}

impl ValidatorSigner {
    /// The validator that signs, in contracts.
    pub closed spec fn spec_author(&self) -> Author {
        self.author
    }

    /// The bytes of the secret key, in contracts.
    pub closed spec fn secret(&self) -> Seq<u8> {
        self.secret_key@
    }

    /// The signer of the validator `author` with the given secret key.
    pub fn new(author: Author, secret_key: [u8; 32]) -> (s: Self)
        ensures
            s.spec_author() == author,
            s.secret() == secret_key@,
    {
        ValidatorSigner { author, secret_key }
    }

    /// The validator that signs.
    #[verifier::when_used_as_spec(spec_author)]
    pub fn author(&self) -> (a: Author)
        ensures
            a == self.spec_author(),
    {
        self.author
    }

    /// The public key under which the signatures of this signer verify.
    pub fn public_key(&self) -> (public_key: [u8; 32])
        ensures
            public_key@ == ed25519_public_key(self.secret()),
    {
        derive_public_key(&self.secret_key)
    }

    /// Signs a message.
    pub fn sign(&self, message: &[u8]) -> (signature: Signature)
        ensures
            signature@ == ed25519_signature(self.secret(), message@),
    {
        Signature { bytes: sign_with(&self.secret_key, message) }
    }
}

} // verus!
