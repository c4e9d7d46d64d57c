//! Calls into the outside crates (rand, uuid, ed25519-dalek, x25519-dalek,
//! chacha20poly1305, hkdf, sha2).  Every item here is trusted: Verus
//! believes its contract and does not read its body.
use chacha20poly1305::aead::Aead;
use chacha20poly1305::{ChaCha20Poly1305, Key, KeyInit, Nonce};
use ed25519_dalek::{Signer, SigningKey, Verifier, VerifyingKey};
use hkdf::Hkdf;
use rand::rngs::OsRng;
use rand::{Rng, RngCore};
use sha2::{Digest, Sha256};
use vstd::prelude::*;
use x25519_dalek::{PublicKey as X25519Point, StaticSecret};

verus! {

/// Draws a `u64` from `rand::thread_rng()` with `Rng::gen`.  Nothing is
/// promised of the value.
#[verifier::external_body]
pub(crate) fn thread_rng_u64() -> (r: u64) {
    rand::thread_rng().gen::<u64>()
}

/// Overwrites `buf` with bytes from `rand::thread_rng()` (`RngCore::fill_bytes`).
/// Only the length is promised: it does not change.
#[verifier::external_body]
pub(crate) fn thread_rng_fill(buf: &mut Vec<u8>)
    ensures
        final(buf)@.len() == old(buf)@.len(),
{
    rand::thread_rng().fill_bytes(buf.as_mut_slice())
}

/// Overwrites `buf` with bytes from the operating system's generator
/// (`rand::rngs::OsRng`, `RngCore::fill_bytes`).  Only the length is
/// promised: it does not change.
#[verifier::external_body]
pub(crate) fn os_rng_fill(buf: &mut Vec<u8>)
    ensures
        final(buf)@.len() == old(buf)@.len(),
{
    OsRng.fill_bytes(buf.as_mut_slice())
}

/// A fresh random identifier: `uuid::Uuid::new_v4().to_string()`.  The
/// `Display` form of a `Uuid` is the hyphenated form of 36 characters; the
/// characters themselves are random and not stated.
#[verifier::external_body]
pub(crate) fn uuid_v4_string() -> (r: String)
    ensures
        r@.len() == 36,
{
    uuid::Uuid::new_v4().to_string()
}

/// The error of `hkdf::Hkdf::expand` when more output is asked for than HKDF can give.
#[verifier::external_type_specification]
#[verifier::external_body]
pub struct ExInvalidLength(hkdf::InvalidLength);

/// The opaque error of the AEAD operations of `chacha20poly1305`.
#[verifier::external_type_specification]
#[verifier::external_body]
pub struct ExAeadError(chacha20poly1305::Error);

/// The Ed25519 public key (compressed point) of a 32-byte secret key, as
/// `SigningKey::from_bytes(..).verifying_key().to_bytes()` computes it.
pub uninterp spec fn ed25519_public_key(secret: Seq<u8>) -> Seq<u8>;

/// The Ed25519 signature of `msg` under a 32-byte secret key, as
/// `SigningKey::from_bytes(..).sign(msg).to_bytes()` computes it.
pub uninterp spec fn ed25519_signature(secret: Seq<u8>, msg: Seq<u8>) -> Seq<u8>;

/// Whether `VerifyingKey::from_bytes(public)` succeeds and `Verifier::verify`
/// accepts `sig` on `msg` under it.
pub uninterp spec fn ed25519_verifies(public: Seq<u8>, msg: Seq<u8>, sig: Seq<u8>) -> bool;

/// Whether `VerifyingKey::from_bytes(public)` succeeds and `verify_strict`
/// accepts `sig` on `msg` under it.
pub uninterp spec fn ed25519_verifies_strict(public: Seq<u8>, msg: Seq<u8>, sig: Seq<u8>) -> bool;

/// The X25519 public key of a 32-byte static secret (`PublicKey::from(&StaticSecret)`).
pub uninterp spec fn x25519_public_key(secret: Seq<u8>) -> Seq<u8>;

/// The X25519 shared secret of a static secret and a peer's public key
/// (`StaticSecret::diffie_hellman`).
pub uninterp spec fn x25519_shared_secret(secret: Seq<u8>, public: Seq<u8>) -> Seq<u8>;

/// HKDF-SHA256 with no salt: `len` bytes expanded from `ikm` under `info`.
pub uninterp spec fn hkdf_sha256_expand(ikm: Seq<u8>, info: Seq<u8>, len: nat) -> Seq<u8>;

/// ChaCha20-Poly1305 encryption of `msg` (no associated data): ciphertext with the tag appended.
pub uninterp spec fn chacha20poly1305_seal(key: Seq<u8>, nonce: Seq<u8>, msg: Seq<u8>) -> Seq<u8>;

/// ChaCha20-Poly1305 decryption of `ct` (no associated data): the plaintext, or
/// `None` when the tag does not authenticate.
pub uninterp spec fn chacha20poly1305_open(key: Seq<u8>, nonce: Seq<u8>, ct: Seq<u8>) -> Option<Seq<u8>>;

/// The SHA-256 digest of `data`.
pub uninterp spec fn sha256_digest(data: Seq<u8>) -> Seq<u8>;

/// A fresh Ed25519 secret key: `SigningKey::generate(&mut OsRng).to_bytes()`.
/// The bytes are random and not stated.
#[verifier::external_body]
pub(crate) fn ed25519_generate_secret() -> (r: Vec<u8>)
    ensures
        r@.len() == 32,
{
    SigningKey::generate(&mut OsRng).to_bytes().to_vec()
}

/// `SigningKey::from_bytes(secret).verifying_key().to_bytes()` for a 32-byte secret: the public key
/// of the secret key, named `ed25519_public_key`.
#[verifier::external_body]
pub(crate) fn ed25519_verifying_key(secret: &[u8]) -> (r: Vec<u8>)
    requires
        secret@.len() == 32,
    ensures
        r@ == ed25519_public_key(secret@),
        r@.len() == 32,
{
    let secret: [u8; 32] = secret.try_into().unwrap();
    SigningKey::from_bytes(&secret).verifying_key().to_bytes().to_vec()
}

/// `SigningKey::from_bytes(secret).sign(msg).to_bytes()`: the signature named
/// `ed25519_signature`.
#[verifier::external_body]
pub(crate) fn ed25519_sign(secret: &[u8], msg: &[u8]) -> (r: Vec<u8>)
    requires
        secret@.len() == 32,
    ensures
        r@ == ed25519_signature(secret@, msg@),
        r@.len() == 64,
{
    let secret: [u8; 32] = secret.try_into().unwrap();
    SigningKey::from_bytes(&secret).sign(msg).to_bytes().to_vec()
}

/// `VerifyingKey::from_bytes(public)` followed by `Verifier::verify`; a key
/// that does not decompress counts as a failed check.  The result is named
/// `ed25519_verifies`; besides, a signature that `sign` made with a secret
/// key is accepted under that key's public key (the point decompresses, and
/// the recomputed `R` equals the signature's).
#[verifier::external_body]
pub(crate) fn ed25519_verify(public: &[u8], msg: &[u8], sig: &[u8]) -> (r: bool)
    requires
        public@.len() == 32,
        sig@.len() == 64,
    ensures
        r == ed25519_verifies(public@, msg@, sig@),
        forall|secret: Seq<u8>|
            secret.len() == 32 && public@ == ed25519_public_key(secret) && sig@
                == #[trigger] ed25519_signature(secret, msg@) ==> r,
{
    let public: [u8; 32] = public.try_into().unwrap();
    let sig: [u8; 64] = sig.try_into().unwrap();
    match VerifyingKey::from_bytes(&public) {
        Ok(key) => key.verify(msg, &ed25519_dalek::Signature::from_bytes(&sig)).is_ok(),
        Err(_) => false,
    }
}

/// `VerifyingKey::from_bytes(public)` followed by `verify_strict`; a key that
/// does not decompress counts as a failed check.  The result is named
/// `ed25519_verifies_strict`.  The strict check also refuses weak keys and
/// small-order `R`, so no claim is made here about signatures made by `sign`.
#[verifier::external_body]
pub(crate) fn ed25519_verify_strict(public: &[u8], msg: &[u8], sig: &[u8]) -> (r: bool)
    requires
        public@.len() == 32,
        sig@.len() == 64,
    ensures
        r == ed25519_verifies_strict(public@, msg@, sig@),
{
    let public: [u8; 32] = public.try_into().unwrap();
    let sig: [u8; 64] = sig.try_into().unwrap();
    match VerifyingKey::from_bytes(&public) {
        Ok(key) => key.verify_strict(msg, &ed25519_dalek::Signature::from_bytes(&sig)).is_ok(),
        Err(_) => false,
    }
}

/// A fresh X25519 static secret: `StaticSecret::random_from_rng(OsRng).to_bytes()`.
/// The bytes are random and not stated.
#[verifier::external_body]
pub(crate) fn x25519_generate_secret() -> (r: Vec<u8>)
    ensures
        r@.len() == 32,
{
    StaticSecret::random_from_rng(OsRng).to_bytes().to_vec()
}

/// `PublicKey::from(&StaticSecret::from(secret)).to_bytes()`, named `x25519_public_key`.
#[verifier::external_body]
pub(crate) fn x25519_public(secret: &[u8]) -> (r: Vec<u8>)
    requires
        secret@.len() == 32,
    ensures
        r@ == x25519_public_key(secret@),
        r@.len() == 32,
{
    let secret: [u8; 32] = secret.try_into().unwrap();
    X25519Point::from(&StaticSecret::from(secret)).to_bytes().to_vec()
}

/// `StaticSecret::from(secret).diffie_hellman(&PublicKey::from(public)).to_bytes()`,
/// named `x25519_shared_secret`.  Besides, Diffie-Hellman agreement holds: when
/// `public` is the public key of a secret `s`, the result is what `s` computes
/// with the public key of `secret` (both sides multiply the base point by the
/// two clamped scalars).
#[verifier::external_body]
pub(crate) fn x25519_diffie_hellman(secret: &[u8], public: &[u8]) -> (r: Vec<u8>)
    requires
        secret@.len() == 32,
        public@.len() == 32,
    ensures
        r@ == x25519_shared_secret(secret@, public@),
        r@.len() == 32,
        forall|s: Seq<u8>|
            s.len() == 32 && public@ == #[trigger] x25519_public_key(s) ==> r@
                == x25519_shared_secret(s, x25519_public_key(secret@)),
{
    let secret: [u8; 32] = secret.try_into().unwrap();
    let public: [u8; 32] = public.try_into().unwrap();
    StaticSecret::from(secret).diffie_hellman(&X25519Point::from(public)).to_bytes().to_vec()
}

/// `Hkdf::<Sha256>::new(None, ikm)` followed by `expand(info, okm)` into `len`
/// bytes.  `expand` fails exactly when `len` exceeds 255 times the 32-byte
/// hash length; otherwise the bytes are those named `hkdf_sha256_expand`.
#[verifier::external_body]
pub(crate) fn hkdf_sha256(ikm: &[u8], info: &[u8], len: usize) -> (r: Result<Vec<u8>, hkdf::InvalidLength>)
    ensures
        r is Ok <==> len <= 8160,
        r matches Ok(okm) ==> okm@.len() == len && okm@ == hkdf_sha256_expand(ikm@, info@, len as nat),
{
    let mut okm = vec![0u8; len];
    match Hkdf::<Sha256>::new(None, ikm).expand(info, &mut okm) {
        Ok(()) => Ok(okm),
        Err(e) => Err(e),
    }
}

/// `ChaCha20Poly1305::new(Key::from_slice(key)).encrypt(Nonce::from_slice(nonce), msg)`.
/// `from_slice` panics unless the key has 32 bytes and the nonce 12.  The
/// cipher refuses a message of `u32::MAX` blocks of 64 bytes or more, and
/// otherwise returns the ciphertext named `chacha20poly1305_seal`, which is as
/// long as the message plus the 16-byte tag.
#[verifier::external_body]
pub(crate) fn chacha20poly1305_encrypt(key: &[u8], nonce: &[u8], msg: &[u8]) -> (r: Result<Vec<u8>, chacha20poly1305::Error>)
    requires
        key@.len() == 32,
        nonce@.len() == 12,
    ensures
        r is Ok <==> msg@.len() / 64 < 0xffff_ffff,
        r matches Ok(ct) ==> ct@ == chacha20poly1305_seal(key@, nonce@, msg@) && ct@.len() == msg@.len() + 16,
{
    ChaCha20Poly1305::new(Key::from_slice(key)).encrypt(Nonce::from_slice(nonce), msg)
}

/// `ChaCha20Poly1305::new(Key::from_slice(key)).decrypt(Nonce::from_slice(nonce), ct)`.
/// `from_slice` panics unless the key has 32 bytes and the nonce 12.  The
/// plaintext is the one named `chacha20poly1305_open`; a ciphertext shorter
/// than the 16-byte tag is refused, a plaintext is 16 bytes shorter than its
/// ciphertext, and what `encrypt` sealed under the same key and nonce opens to
/// the message that was sealed.
#[verifier::external_body]
pub(crate) fn chacha20poly1305_decrypt(key: &[u8], nonce: &[u8], ct: &[u8]) -> (r: Result<Vec<u8>, chacha20poly1305::Error>)
    requires
        key@.len() == 32,
        nonce@.len() == 12,
    ensures
        r is Ok <==> chacha20poly1305_open(key@, nonce@, ct@) is Some,
        r matches Ok(pt) ==> chacha20poly1305_open(key@, nonce@, ct@) == Some(pt@) && pt@.len() + 16 == ct@.len(),
        ct@.len() < 16 ==> r is Err,
        forall|m: Seq<u8>|
            m.len() / 64 < 0xffff_ffff && ct@ == #[trigger] chacha20poly1305_seal(key@, nonce@, m)
                ==> r is Ok && r.unwrap()@ == m,
{
    ChaCha20Poly1305::new(Key::from_slice(key)).decrypt(Nonce::from_slice(nonce), ct)
}

/// `Sha256::digest(data)`, named `sha256_digest`.
#[verifier::external_body]
pub(crate) fn sha256(data: &[u8]) -> (r: Vec<u8>)
    ensures
        r@ == sha256_digest(data@),
        r@.len() == 32,
{
    Sha256::digest(data).to_vec()
}

} // verus!
