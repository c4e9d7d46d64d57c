//! The node's crypto service: an Ed25519 identity with an X25519 public key,
//! key and nonce derivation with HKDF-SHA256, authenticated encryption with
//! ChaCha20-Poly1305 under a given 32-byte key, and strict signature checks.
use crate::backend::crypto::{
    derive_bytes, encryptable, kdf_key, kdf_nonce, open_with_prefixed_nonce, seal_with_random_nonce,
    session_key_from_seed, session_opened, session_sealed, KEY_INFO, NONCE_INFO, SESSION_KEY_INFO,
};
use crate::keys::{bytes_result, CryptoError, PublicKey, Signature, X25519PublicKey};
use crate::primitives::{
    ed25519_generate_secret, ed25519_public_key, ed25519_sign, ed25519_signature, ed25519_verifies_strict,
    ed25519_verify_strict, ed25519_verifying_key, os_rng_fill,
};
use vstd::prelude::*;

verus! {

/// An Ed25519 signing identity with an X25519 public key.
#[derive(Debug, Clone)]
pub struct KeyPair {
    pub public: PublicKey,
    secret: Vec<u8>,
    pub x25519_public: X25519PublicKey,
}

impl KeyPair {
    /// The Ed25519 secret key.
    pub closed spec fn signing_secret(&self) -> Seq<u8> {
        self.secret@
    }

    /// The Ed25519 public key.
    pub closed spec fn verifying_key(&self) -> Seq<u8> {
        self.public@
    }

    /// The X25519 public key.
    pub closed spec fn exchange_public(&self) -> Seq<u8> {
        self.x25519_public@
    }

    /// The public key belongs to the secret key, and the keys have their sizes.
    pub open spec fn wf(&self) -> bool {
        &&& self.signing_secret().len() == 32
        &&& self.verifying_key() == ed25519_public_key(self.signing_secret())
        &&& self.verifying_key().len() == 32
        &&& self.exchange_public().len() == 32
    }

    /// A fresh key pair: an Ed25519 key from the operating system's random
    /// generator, and an X25519 public key made of 32 random bytes.
    pub fn generate() -> (r: Result<KeyPair, CryptoError>)
        ensures
            r matches Ok(kp) && kp.wf(),
    {
        let secret = ed25519_generate_secret();
        let public = PublicKey::from_vec(ed25519_verifying_key(secret.as_slice()));
        let mut seed: Vec<u8> = vec![0u8; 32];
        os_rng_fill(&mut seed);
        let x25519_public = X25519PublicKey::from_vec(seed);
        Ok(KeyPair { public, secret, x25519_public })
    }

    /// The Ed25519 public key.
    pub fn public_key(&self) -> (k: &PublicKey)
        ensures
            k@ == self.verifying_key(),
    {
        &self.public
    }

    /// The X25519 public key.
    pub fn x25519_public_key(&self) -> (k: &X25519PublicKey)
        ensures
            k@ == self.exchange_public(),
    {
        &self.x25519_public
    }

    /// Signs `message` with the Ed25519 secret key.
    pub fn sign(&self, message: &[u8]) -> (r: Result<Signature, CryptoError>)
        requires
            self.wf(),
        ensures
            r matches Ok(sig) && sig@ == ed25519_signature(self.signing_secret(), message@) && sig@.len() == 64,
    {
        Ok(Signature::from_vec(ed25519_sign(self.secret.as_slice(), message)))
    }
}

/// The node's crypto service, holding its key pair.
#[derive(Debug, Clone)]
pub struct CryptoService {
    keypair: KeyPair,
}

impl CryptoService {
    /// The service's key pair is well formed.
    pub closed spec fn wf(&self) -> bool {
        self.keypair.wf()
    }

    /// The service's Ed25519 public key.
    pub closed spec fn public_key_bytes(&self) -> Seq<u8> {
        self.keypair.verifying_key()
    }

    /// A service with a fresh key pair.
    pub fn new() -> (r: Result<CryptoService, CryptoError>)
        ensures
            r matches Ok(s) && s.wf(),
    {
        let keypair = KeyPair::generate()?;
        Ok(CryptoService { keypair })
    }

    /// A fresh key pair.
    pub fn generate_key_pair() -> (r: Result<KeyPair, CryptoError>)
        ensures
            r matches Ok(kp) && kp.wf(),
    {
        KeyPair::generate()
    }

    /// Derives a 32-byte key and a 12-byte nonce from a shared secret with HKDF-SHA256.
    pub fn derive_key_and_nonce(&self, shared_secret: &[u8]) -> (r: Result<(Vec<u8>, Vec<u8>), CryptoError>)
        ensures
            r matches Ok((key, nonce)) && key@ == kdf_key(shared_secret@) && nonce@ == kdf_nonce(shared_secret@)
                && key@.len() == 32 && nonce@.len() == 12,
    {
        let key = derive_bytes(shared_secret, KEY_INFO, 32)?;
        let nonce = derive_bytes(shared_secret, NONCE_INFO, 12)?;
        Ok((key, nonce))
    }

    /// Encrypts `message` under the 32-byte `key` with a fresh random nonce
    /// and returns the nonce followed by the ciphertext.
    pub fn encrypt_message(&self, message: &[u8], key: &[u8]) -> (r: Result<Vec<u8>, CryptoError>)
        requires
            key@.len() == 32,
        ensures
            r is Ok <==> encryptable(message@.len()),
            r is Err ==> r == Err::<Vec<u8>, CryptoError>(CryptoError::Encryption),
            r matches Ok(c) ==> c@.len() == 12 + message@.len() + 16 && c@ == session_sealed(key@, c@.take(12), message@),
    {
        seal_with_random_nonce(message, key)
    }

    /// Decrypts what `encrypt_message` produced under the same key; a message
    /// shorter than its nonce is refused.
    pub fn decrypt_message(&self, encrypted_message: &[u8], key: &[u8]) -> (r: Result<Vec<u8>, CryptoError>)
        requires
            encrypted_message@.len() >= 12 ==> key@.len() == 32,
        ensures
            bytes_result(r) == session_opened(key@, encrypted_message@),
            forall|nonce: Seq<u8>, m: Seq<u8>|
                nonce.len() == 12 && encryptable(m.len()) && encrypted_message@ == #[trigger] session_sealed(
                    key@,
                    nonce,
                    m,
                ) ==> bytes_result(r) == Ok::<Seq<u8>, CryptoError>(m),
    {
        open_with_prefixed_nonce(encrypted_message, key)
    }

    /// Checks strictly that `signature` is a signature of `message` under
    /// `public_key`; a signature that is not 64 bytes long is refused.
    pub fn verify_signature(&self, public_key: &PublicKey, message: &[u8], signature: &[u8]) -> (r: Result<
        bool,
        CryptoError,
    >)
        requires
            public_key@.len() == 32,
        ensures
            signature@.len() != 64 ==> r == Err::<bool, CryptoError>(CryptoError::InvalidSignatureLength),
            signature@.len() == 64 ==> r == Ok::<bool, CryptoError>(
                ed25519_verifies_strict(public_key@, message@, signature@),
            ),
    {
        if signature.len() != 64 {
            return Err(CryptoError::InvalidSignatureLength);
        }
        Ok(ed25519_verify_strict(public_key.as_bytes(), message, signature))
    }

    /// A fresh 32-byte session key: HKDF-SHA256 over 32 random bytes.
    pub fn generate_session_key(&self) -> (r: Result<Vec<u8>, CryptoError>)
        ensures
            r matches Ok(k) && k@.len() == 32 && exists|seed: Seq<u8>|
                seed.len() == 32 && k@ == session_key_from_seed(seed),
    {
        let mut seed: Vec<u8> = vec![0u8; 32];
        os_rng_fill(&mut seed);
        derive_bytes(seed.as_slice(), SESSION_KEY_INFO, 32)
    }

    /// Encrypts under a 32-byte session key; see `encrypt_message`.
    pub fn encrypt_with_session_key(&self, message: &[u8], session_key: &[u8]) -> (r: Result<Vec<u8>, CryptoError>)
        requires
            session_key@.len() == 32,
        ensures
            r is Ok <==> encryptable(message@.len()),
            r is Err ==> r == Err::<Vec<u8>, CryptoError>(CryptoError::Encryption),
            r matches Ok(c) ==> c@.len() == 12 + message@.len() + 16 && c@ == session_sealed(
                session_key@,
                c@.take(12),
                message@,
            ),
    {
        seal_with_random_nonce(message, session_key)
    }

    /// Decrypts under a 32-byte session key; what was encrypted under the
    /// same key decrypts to that message.
    pub fn decrypt_with_session_key(&self, encrypted_message: &[u8], session_key: &[u8]) -> (r: Result<Vec<u8>, CryptoError>)
        requires
            encrypted_message@.len() >= 12 ==> session_key@.len() == 32,
        ensures
            bytes_result(r) == session_opened(session_key@, encrypted_message@),
            forall|nonce: Seq<u8>, m: Seq<u8>|
                nonce.len() == 12 && encryptable(m.len()) && encrypted_message@ == #[trigger] session_sealed(
                    session_key@,
                    nonce,
                    m,
                ) ==> bytes_result(r) == Ok::<Seq<u8>, CryptoError>(m),
    {
        open_with_prefixed_nonce(encrypted_message, session_key)
    }

    /// The service's Ed25519 public key, as bytes to share with other nodes.
    pub fn get_public_key(&self) -> (k: Vec<u8>)
        ensures
            k@ == self.public_key_bytes(),
    {
        self.keypair.public.to_bytes()
    }
}

} // verus!
