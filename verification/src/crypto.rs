//! Ed25519 keys and signatures, held as plain bytes.
//!
//! The curve arithmetic is `ed25519-dalek`'s. The library keeps keys and
//! signatures as byte arrays and names what the outside functions compute
//! from them, so that contracts elsewhere can speak of signatures exactly.

use ed25519_dalek::{Signature, Signer, SigningKey, VerifyingKey};
use rand::rngs::OsRng;
use vstd::prelude::*;

verus! {

/// Length of an Ed25519 secret key and of a public key.
pub const KEY_LENGTH: usize = 32;

/// Length of an Ed25519 signature.
pub const SIGNATURE_LENGTH: usize = 64;

/// The public key that belongs to a 32-byte secret key.
pub uninterp spec fn ed25519_public_key(secret: Seq<u8>) -> Seq<u8>;

/// The signature that a 32-byte secret key gives for a message. Ed25519
/// signing uses no randomness: key and message determine the signature.
pub uninterp spec fn ed25519_signature(secret: Seq<u8>, message: Seq<u8>) -> Seq<u8>;

/// Whether a 32-byte public key decodes to a curve point and strict
/// verification then accepts the 64-byte signature for the message.
pub uninterp spec fn ed25519_verifies(
    public_key: Seq<u8>,
    message: Seq<u8>,
    signature: Seq<u8>,
) -> bool;

/// Whether `signature` is a signature of the right shape that verifies for
/// `message` under `public_key`. Keys and signatures of the wrong length are
/// invalid by shape, whatever they hold.
pub open spec fn signature_holds(public_key: Seq<u8>, message: Seq<u8>, signature: Seq<u8>) -> bool {
    &&& public_key.len() == KEY_LENGTH
    &&& signature.len() == SIGNATURE_LENGTH
    &&& ed25519_verifies(public_key, message, signature)
}

/// Calls `SigningKey::generate` with the operating system's random number
/// generator and returns the secret key bytes. Nothing is claimed of the
/// bytes: every call may give another key.
#[verifier::external_body]
fn random_secret() -> (secret: [u8; 32]) {
    SigningKey::generate(&mut OsRng).to_bytes()
}

/// Calls `SigningKey::verifying_key` on the signing key made from `secret`.
/// Trusted: the bytes returned are the function `ed25519_public_key` of the
/// secret bytes.
#[verifier::external_body]
fn derive_public_key(secret: &[u8; 32]) -> (public_key: [u8; 32])
    ensures
        public_key@ == ed25519_public_key(secret@),
{
    SigningKey::from_bytes(secret).verifying_key().to_bytes()
}

/// Calls `Signer::sign` on the signing key made from `secret`. Trusted: the
/// bytes returned are the function `ed25519_signature` of the secret bytes
/// and the message.
#[verifier::external_body]
fn sign_with_secret(secret: &[u8; 32], message: &[u8]) -> (signature: [u8; 64])
    ensures
        signature@ == ed25519_signature(secret@, message@),
{
    SigningKey::from_bytes(secret).sign(message).to_bytes()
}

/// Calls `VerifyingKey::verify_strict` on the key decoded from `public_key`.
/// Trusted: the answer is the function `ed25519_verifies` of the three byte
/// strings; a key that does not decode gives `false`.
#[verifier::external_body]
fn verify_strict_bytes(public_key: &[u8; 32], message: &[u8], signature: &[u8; 64]) -> (ok: bool)
    ensures
        ok == ed25519_verifies(public_key@, message@, signature@),
{
    match VerifyingKey::from_bytes(public_key) {
        Ok(key) => key.verify_strict(message, &Signature::from_bytes(signature)).is_ok(),
        Err(_) => false,
    }
}

/// An Ed25519 signing key, held as its 32 secret bytes.
pub struct Keypair {
    secret: [u8; 32],
}

impl View for Keypair {
    type V = Seq<u8>;

    closed spec fn view(&self) -> Seq<u8> {
        self.secret@
    }
}

impl Keypair {
    /// The keypair with the given secret bytes.
    pub fn from_bytes(secret: [u8; 32]) -> (keypair: Keypair)
        ensures
            keypair@ == secret@,
    {
        Keypair { secret }
    }

    /// The secret bytes.
    pub fn to_bytes(&self) -> (secret: [u8; 32])
        ensures
            secret@ == self@,
    {
        self.secret
    }

    /// The public key that verifies this keypair's signatures.
    pub fn public_key(&self) -> (public_key: [u8; 32])
        ensures
            public_key@ == ed25519_public_key(self@),
    {
        derive_public_key(&self.secret)
    }

    /// Signs `message`.
    pub fn sign(&self, message: &[u8]) -> (signature: [u8; 64])
        ensures
            signature@ == ed25519_signature(self@, message@),
    {
        sign_with_secret(&self.secret, message)
    }
}

/// A fresh keypair from the operating system's randomness.
pub fn generate_keypair() -> Keypair {
    Keypair::from_bytes(random_secret())
}

/// Signs `message` with `keypair`.
pub fn sign_message(keypair: &Keypair, message: &[u8]) -> (signature: [u8; 64])
    ensures
        signature@ == ed25519_signature(keypair@, message@),
{
    keypair.sign(message)
}

/// The first 32 bytes of `bytes` as an array.
fn key_array(bytes: &[u8]) -> (array: [u8; 32])
    requires
        bytes@.len() == 32,
    ensures
        array@ == bytes@,
{
    let mut array = [0u8; 32];
    let mut i: usize = 0;
    while i < 32
        invariant
            i <= 32,
            bytes@.len() == 32,
            forall|k: int| 0 <= k < i ==> array@[k] == bytes@[k],
        decreases 32 - i,
    {
        array[i] = bytes[i];
        i += 1;
    }
    proof {
        assert(array@ =~= bytes@);
    }
    array
}

/// The first 64 bytes of `bytes` as an array.
fn signature_array(bytes: &[u8]) -> (array: [u8; 64])
    requires
        bytes@.len() == 64,
    ensures
        array@ == bytes@,
{
    let mut array = [0u8; 64];
    let mut i: usize = 0;
    while i < 64
        invariant
            i <= 64,
            bytes@.len() == 64,
            forall|k: int| 0 <= k < i ==> array@[k] == bytes@[k],
        decreases 64 - i,
    {
        array[i] = bytes[i];
        i += 1;
    }
    proof {
        assert(array@ =~= bytes@);
    }
    array
}

/// Whether `public_key` and `signature` have the lengths of an Ed25519 key
/// and signature.
pub fn well_shaped(public_key: &[u8], signature: &[u8]) -> (ok: bool)
    ensures
        ok == (public_key@.len() == KEY_LENGTH && signature@.len() == SIGNATURE_LENGTH),
{
    public_key.len() == KEY_LENGTH && signature.len() == SIGNATURE_LENGTH
}

/// Checks `signature` for `message` under `public_key`. A key or signature
/// of the wrong length is rejected before any curve arithmetic; no input
/// makes this fail otherwise than by returning `false`.
pub fn verify_strict(public_key: &[u8], message: &[u8], signature: &[u8]) -> (ok: bool)
    ensures
        ok == signature_holds(public_key@, message@, signature@),
{
    if !well_shaped(public_key, signature) {
        return false;
    }
    let key = key_array(public_key);
    let sig = signature_array(signature);
    verify_strict_bytes(&key, message, &sig)
}

} // verus!
