//! The cryptographic primitives of the protocol.
//!
//! Every function here hands its arguments to a cryptographic crate and is
//! believed, not proved: its contract names the value that the crate computes
//! and states the few facts about it that the rest of the library relies on.

use chacha20poly1305::aead::{Aead, KeyInit, Payload};
use chacha20poly1305::{ChaCha20Poly1305, Key, Nonce};
use ed25519_dalek::{Signature, Signer, SigningKey, Verifier, VerifyingKey};
use hmac::{Hmac, Mac};
use rand::rngs::OsRng;
use sha2::{Digest, Sha256};
use vstd::prelude::*;
use x25519_dalek::{PublicKey, StaticSecret};

verus! {

/// Length in bytes of a ChaCha20-Poly1305 key.
pub const KEYLEN: usize = 32;

/// Length in bytes of a ChaCha20-Poly1305 nonce.
pub const NONCELEN: usize = 12;

/// Length in bytes of a Poly1305 authentication tag.
pub const TAGLEN: usize = 16;

/// Length in bytes of an Ed25519 signature.
pub const SIGLEN: usize = 64;

/// The SHA-256 digest of `data`.
pub uninterp spec fn spec_sha256(data: Seq<u8>) -> Seq<u8>;

/// HMAC-SHA-256 of `data` under `key`.
pub uninterp spec fn spec_hmac_sha256(key: Seq<u8>, data: Seq<u8>) -> Seq<u8>;

/// The ChaCha20-Poly1305 ciphertext of `plaintext`, tag appended.
pub uninterp spec fn spec_aead_seal(
    key: Seq<u8>,
    nonce: Seq<u8>,
    ad: Seq<u8>,
    plaintext: Seq<u8>,
) -> Seq<u8>;

/// The plaintext that ChaCha20-Poly1305 recovers from `ciphertext`, or `None`
/// where it rejects the ciphertext.
pub uninterp spec fn spec_aead_open(
    key: Seq<u8>,
    nonce: Seq<u8>,
    ad: Seq<u8>,
    ciphertext: Seq<u8>,
) -> Option<Seq<u8>>;

/// The X25519 public key that belongs to `secret`.
pub uninterp spec fn spec_x25519_public(secret: Seq<u8>) -> Seq<u8>;

/// The X25519 shared secret of `secret` and a peer's `public` key.
pub uninterp spec fn spec_x25519(secret: Seq<u8>, public: Seq<u8>) -> Seq<u8>;

/// The Ed25519 public key that belongs to `secret`.
pub uninterp spec fn spec_ed25519_public(secret: Seq<u8>) -> Seq<u8>;

/// The Ed25519 signature of `message` under `secret`.
pub uninterp spec fn spec_ed25519_sign(secret: Seq<u8>, message: Seq<u8>) -> Seq<u8>;

/// Whether Ed25519 accepts `signature` for `message` under `public`.
pub uninterp spec fn spec_ed25519_verify(
    public: Seq<u8>,
    message: Seq<u8>,
    signature: Seq<u8>,
) -> bool;

/// The most bytes that ChaCha20-Poly1305 seals under one nonce: 2^32 - 2
/// blocks of 64 bytes. Of the 2^32 - 1 blocks of keystream that a nonce
/// gives, the first goes to the Poly1305 key.
pub const MAX_PLAINTEXT: u64 = 0x3f_ffff_ff80;

/// Whether a plaintext of `len` bytes can be sealed: it takes no more than
/// `MAX_PLAINTEXT` bytes, and the ciphertext fits in memory.
pub open spec fn sealable(len: nat) -> bool {
    len <= MAX_PLAINTEXT && len + TAGLEN <= usize::MAX
}

/// Whether a ciphertext of `len` bytes can be opened: it is no longer than a
/// sealed plaintext of `MAX_PLAINTEXT` bytes.
pub open spec fn openable(len: nat) -> bool {
    len <= MAX_PLAINTEXT + TAGLEN
}

/// `sha2::Sha256` fed `first`, then `second`: the SHA-256 digest of their
/// concatenation, which is 32 bytes long.
#[verifier::external_body]
pub(crate) fn sha256(first: &[u8], second: &[u8]) -> (digest: Vec<u8>)
    ensures
        digest@ == spec_sha256(first@ + second@),
        digest@.len() == 32,
{
    let mut hasher = Sha256::new();
    hasher.update(first);
    hasher.update(second);
    hasher.finalize().to_vec()
}

/// `hmac::Hmac<Sha256>` keyed with `key` and fed `data`: the 32-byte
/// HMAC-SHA-256 tag. HMAC takes a key of any length.
#[verifier::external_body]
pub(crate) fn hmac_sha256(key: &[u8], data: &[u8]) -> (tag: Vec<u8>)
    ensures
        tag@ == spec_hmac_sha256(key@, data@),
        tag@.len() == 32,
{
    let mut mac = <Hmac<Sha256> as Mac>::new_from_slice(key).unwrap();
    mac.update(data);
    mac.finalize().into_bytes().to_vec()
}

/// `ChaCha20Poly1305::encrypt`: the ciphertext is the plaintext's length plus
/// a 16-byte tag, and opening it with the same key, nonce and associated data
/// gives the plaintext back. On a plaintext that is not `sealable` the crate
/// returns an error or, where the keystream ends within the last block,
/// panics; such a plaintext is left out.
#[verifier::external_body]
pub(crate) fn aead_seal(key: &[u8], nonce: &[u8], ad: &[u8], plaintext: &[u8]) -> (ciphertext:
    Vec<u8>)
    requires
        key@.len() == KEYLEN,
        nonce@.len() == NONCELEN,
        sealable(plaintext@.len()),
    ensures
        ciphertext@ == spec_aead_seal(key@, nonce@, ad@, plaintext@),
        ciphertext@.len() == plaintext@.len() + TAGLEN,
        spec_aead_open(key@, nonce@, ad@, ciphertext@) == Some(plaintext@),
{
    let cipher = ChaCha20Poly1305::new(Key::from_slice(key));
    let payload = Payload { msg: plaintext, aad: ad };
    cipher.encrypt(Nonce::from_slice(nonce), payload).unwrap()
}

/// `ChaCha20Poly1305::decrypt`: `None` where the crate rejects the
/// ciphertext; a plaintext it returns is 16 bytes shorter than the
/// ciphertext. A ciphertext that is not `openable` is left out: on one whose
/// tag verified the crate would run past the end of the keystream and panic.
#[verifier::external_body]
pub(crate) fn aead_open(key: &[u8], nonce: &[u8], ad: &[u8], ciphertext: &[u8]) -> (plaintext:
    Option<Vec<u8>>)
    requires
        key@.len() == KEYLEN,
        nonce@.len() == NONCELEN,
        openable(ciphertext@.len()),
    ensures
        plaintext matches Some(p) ==> spec_aead_open(key@, nonce@, ad@, ciphertext@) == Some(p@),
        plaintext is None ==> spec_aead_open(key@, nonce@, ad@, ciphertext@) is None,
        plaintext matches Some(p) ==> p@.len() + TAGLEN == ciphertext@.len(),
{
    let cipher = ChaCha20Poly1305::new(Key::from_slice(key));
    let payload = Payload { msg: ciphertext, aad: ad };
    cipher.decrypt(Nonce::from_slice(nonce), payload).ok()
}

/// `StaticSecret::random_from_rng` on the operating system's generator: 32
/// fresh bytes, of which nothing else is known.
#[verifier::external_body]
pub(crate) fn x25519_random_secret() -> (secret: Vec<u8>)
    ensures
        secret@.len() == 32,
{
    StaticSecret::random_from_rng(OsRng).to_bytes().to_vec()
}

/// `PublicKey::from(&StaticSecret)`: the 32-byte public key of `secret`.
#[verifier::external_body]
pub(crate) fn x25519_public(secret: &[u8]) -> (public: Vec<u8>)
    requires
        secret@.len() == 32,
    ensures
        public@ == spec_x25519_public(secret@),
        public@.len() == 32,
{
    let secret = StaticSecret::from(<[u8; 32]>::try_from(secret).unwrap());
    PublicKey::from(&secret).as_bytes().to_vec()
}

/// `StaticSecret::diffie_hellman`: the 32-byte shared secret. Diffie-Hellman
/// agreement: where `public` belongs to a peer's secret, the peer computes the
/// same bytes from its secret and the public key of `secret`.
#[verifier::external_body]
pub(crate) fn x25519(secret: &[u8], public: &[u8]) -> (shared: Vec<u8>)
    requires
        secret@.len() == 32,
        public@.len() == 32,
    ensures
        shared@ == spec_x25519(secret@, public@),
        shared@.len() == 32,
        forall|peer: Seq<u8>|
            peer.len() == 32 && public@ == #[trigger] spec_x25519_public(peer) ==> shared@
                == spec_x25519(peer, spec_x25519_public(secret@)),
{
    let secret = StaticSecret::from(<[u8; 32]>::try_from(secret).unwrap());
    let public = PublicKey::from(<[u8; 32]>::try_from(public).unwrap());
    secret.diffie_hellman(&public).as_bytes().to_vec()
}

/// `SigningKey::verifying_key`: the 32-byte Ed25519 public key of `secret`.
#[verifier::external_body]
pub(crate) fn ed25519_public(secret: &[u8]) -> (public: Vec<u8>)
    requires
        secret@.len() == 32,
    ensures
        public@ == spec_ed25519_public(secret@),
        public@.len() == 32,
{
    let key = SigningKey::from_bytes(&<[u8; 32]>::try_from(secret).unwrap());
    key.verifying_key().to_bytes().to_vec()
}

/// `SigningKey::sign`: the 64-byte signature, which is a function of the
/// secret and the message alone and which verifies under the secret's public
/// key.
#[verifier::external_body]
pub(crate) fn ed25519_sign(secret: &[u8], message: &[u8]) -> (signature: Vec<u8>)
    requires
        secret@.len() == 32,
    ensures
        signature@ == spec_ed25519_sign(secret@, message@),
        signature@.len() == SIGLEN,
        spec_ed25519_verify(spec_ed25519_public(secret@), message@, signature@),
{
    let key = SigningKey::from_bytes(&<[u8; 32]>::try_from(secret).unwrap());
    key.sign(message).to_bytes().to_vec()
}

/// `VerifyingKey::verify` on a key and a signature built from the given
/// bytes: `false` where the key is no curve point or the signature does not
/// verify.
#[verifier::external_body]
pub(crate) fn ed25519_verify(public: &[u8], message: &[u8], signature: &[u8]) -> (valid: bool)
    requires
        public@.len() == 32,
        signature@.len() == SIGLEN,
    ensures
        valid == spec_ed25519_verify(public@, message@, signature@),
{
    let signature = Signature::from_bytes(&<[u8; 64]>::try_from(signature).unwrap());
    match VerifyingKey::from_bytes(&<[u8; 32]>::try_from(public).unwrap()) {
        Ok(key) => key.verify(message, &signature).is_ok(),
        Err(_) => false,
    }
}

} // verus!
