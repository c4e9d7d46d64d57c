//! The back end's crypto service: Ed25519 signatures, X25519 key agreement,
//! HKDF-SHA256 key derivation and ChaCha20-Poly1305 encryption.
use crate::hex::{byte_hex, format_byte_hex};
use crate::keys::{bytes_result, CryptoError, PublicKey, Signature, X25519PublicKey};
use crate::primitives::{
    chacha20poly1305_decrypt, chacha20poly1305_encrypt, chacha20poly1305_open,
    chacha20poly1305_seal, ed25519_generate_secret, ed25519_public_key, ed25519_sign,
    ed25519_signature, ed25519_verifies, ed25519_verify, ed25519_verifying_key,
    hkdf_sha256, hkdf_sha256_expand, os_rng_fill, sha256, sha256_digest, x25519_diffie_hellman,
    x25519_generate_secret, x25519_public, x25519_public_key, x25519_shared_secret,
};
use vstd::prelude::*;
use vstd::string::StringSliceAdditionalSpecFns;

verus! {

/// HKDF info for message keys.
pub const KEY_INFO: &'static str = "Project Hermes Key Derivation";

/// HKDF info for message nonces.
pub const NONCE_INFO: &'static str = "Project Hermes Nonce Derivation";

/// HKDF info for session keys.
pub const SESSION_KEY_INFO: &'static str = "Project Hermes Session Key";

/// The 32-byte message key derived from a shared secret.
pub open spec fn kdf_key(shared_secret: Seq<u8>) -> Seq<u8> {
    hkdf_sha256_expand(shared_secret, KEY_INFO.spec_bytes(), 32)
}

/// The 12-byte message nonce derived from a shared secret.
pub open spec fn kdf_nonce(shared_secret: Seq<u8>) -> Seq<u8> {
    hkdf_sha256_expand(shared_secret, NONCE_INFO.spec_bytes(), 12)
}

/// A 32-byte session key derived from a 32-byte seed.
pub open spec fn session_key_from_seed(seed: Seq<u8>) -> Seq<u8> {
    hkdf_sha256_expand(seed, SESSION_KEY_INFO.spec_bytes(), 32)
}

/// Whether ChaCha20-Poly1305 accepts a plaintext of this many bytes.
pub open spec fn encryptable(len: nat) -> bool {
    len / 64 < 0xffff_ffff
}

/// `nonce ++ seal(key, nonce, msg)`: what session-key encryption produces.
pub open spec fn session_sealed(key: Seq<u8>, nonce: Seq<u8>, msg: Seq<u8>) -> Seq<u8> {
    nonce + chacha20poly1305_seal(key, nonce, msg)
}

/// What session-key decryption yields for an encrypted message.
pub open spec fn session_opened(key: Seq<u8>, enc: Seq<u8>) -> Result<Seq<u8>, CryptoError> {
    if enc.len() < 12 {
        Err(CryptoError::InvalidMessageLength)
    } else {
        match chacha20poly1305_open(key, enc.take(12), enc.skip(12)) {
            Some(p) => Ok(p),
            None => Err(CryptoError::Decryption),
        }
    }
}

/// The lower-case hexadecimal form of a byte string, two digits per byte.
pub open spec fn hex_string(data: Seq<u8>) -> Seq<char>
    decreases data.len(),
{
    if data.len() == 0 {
        seq![]
    } else {
        hex_string(data.drop_last()) + byte_hex(data.last())
    }
}

/// Copies `src` onto the end of `dst`.
pub fn append_bytes(dst: &mut Vec<u8>, src: &[u8])
    ensures
        final(dst)@ == old(dst)@ + src@,
{
    let mut i: usize = 0;
    while i < src.len()
        invariant
            i <= src@.len(),
            dst@ == old(dst)@ + src@.take(i as int),
        decreases src@.len() - i,
    {
        dst.push(src[i]);
        i = i + 1;
        assert(src@.take(i as int) =~= src@.take(i - 1).push(src@[i - 1]));
    }
    assert(src@.take(i as int) =~= src@);
}

/// Encrypts `message` under a 32-byte key with a fresh random nonce, and
/// returns the nonce followed by the ciphertext.
pub fn seal_with_random_nonce(message: &[u8], key: &[u8]) -> (r: Result<Vec<u8>, CryptoError>)
    requires
        key@.len() == 32,
    ensures
        r is Ok <==> encryptable(message@.len()),
        r is Err ==> r == Err::<Vec<u8>, CryptoError>(CryptoError::Encryption),
        r matches Ok(c) ==> c@.len() == 12 + message@.len() + 16 && c@ == session_sealed(key@, c@.take(12), message@),
{
    let mut nonce: Vec<u8> = vec![0u8; 12];
    os_rng_fill(&mut nonce);
    match chacha20poly1305_encrypt(key, nonce.as_slice(), message) {
        Ok(ciphertext) => {
            let ghost n = nonce@;
            let mut result: Vec<u8> = Vec::new();
            append_bytes(&mut result, nonce.as_slice());
            append_bytes(&mut result, ciphertext.as_slice());
            assert(result@.take(12) =~= n);
            Ok(result)
        },
        Err(_) => Err(CryptoError::Encryption),
    }
}

/// Splits off the 12-byte nonce and decrypts the rest under a 32-byte key.
pub fn open_with_prefixed_nonce(encrypted_message: &[u8], key: &[u8]) -> (r: Result<Vec<u8>, CryptoError>)
    requires
        encrypted_message@.len() >= 12 ==> key@.len() == 32,
    ensures
        bytes_result(r) == session_opened(key@, encrypted_message@),
        forall|nonce: Seq<u8>, m: Seq<u8>|
            nonce.len() == 12 && encryptable(m.len()) && encrypted_message@ == #[trigger] session_sealed(
                key@,
                nonce,
                m,
            ) ==> bytes_result(r) == Ok::<Seq<u8>, CryptoError>(m),
{
    if encrypted_message.len() < 12 {
        return Err(CryptoError::InvalidMessageLength);
    }
    let nonce = &encrypted_message[0..12];
    let ciphertext = &encrypted_message[12..encrypted_message.len()];
    assert(nonce@ =~= encrypted_message@.take(12));
    assert(ciphertext@ =~= encrypted_message@.skip(12));
    let r = chacha20poly1305_decrypt(key, nonce, ciphertext);
    proof {
        assert forall|n: Seq<u8>, m: Seq<u8>|
            n.len() == 12 && encryptable(m.len()) && encrypted_message@ == #[trigger] session_sealed(
                key@,
                n,
                m,
            ) implies r is Ok && r.unwrap()@ == m by {
            assert(encrypted_message@.take(12) =~= n);
            assert(encrypted_message@.skip(12) =~= chacha20poly1305_seal(key@, n, m));
        }
    }
    match r {
        Ok(plaintext) => Ok(plaintext),
        Err(_) => Err(CryptoError::Decryption),
    }
}

/// Derives `len` bytes from `ikm` under the HKDF info string `info`.
pub fn derive_bytes(ikm: &[u8], info: &str, len: usize) -> (r: Result<Vec<u8>, CryptoError>)
    ensures
        r is Ok <==> len <= 8160,
        r matches Ok(v) ==> v@ == hkdf_sha256_expand(ikm@, info.spec_bytes(), len as nat) && v@.len()
            == len,
{
    match hkdf_sha256(ikm, info.as_bytes(), len) {
        Ok(okm) => Ok(okm),
        Err(_) => Err(CryptoError::KeyDerivation),
    }
}

/// A long-term identity: an Ed25519 signing key and an X25519 agreement key.
#[derive(Debug, Clone)]
pub struct KeyPair {
    public: PublicKey,
    secret: Vec<u8>,
    x25519_public: X25519PublicKey,
    x25519_secret: Vec<u8>,
}

impl KeyPair {
    /// The Ed25519 secret key.
    pub closed spec fn signing_secret(&self) -> Seq<u8> {
        self.secret@
    }

    /// The Ed25519 public key.
    pub closed spec fn verifying_key(&self) -> Seq<u8> {
        self.public@
    }

    /// The X25519 secret key.
    pub closed spec fn exchange_secret(&self) -> Seq<u8> {
        self.x25519_secret@
    }

    /// The X25519 public key.
    pub closed spec fn exchange_public(&self) -> Seq<u8> {
        self.x25519_public@
    }

    /// Each public key belongs to its secret key.
    pub open spec fn wf(&self) -> bool {
        &&& self.signing_secret().len() == 32
        &&& self.verifying_key() == ed25519_public_key(self.signing_secret())
        &&& self.verifying_key().len() == 32
        &&& self.exchange_secret().len() == 32
        &&& self.exchange_public() == x25519_public_key(self.exchange_secret())
        &&& self.exchange_public().len() == 32
    }

    /// A fresh key pair from the operating system's random generator.
    pub fn generate() -> (r: Result<KeyPair, CryptoError>)
        ensures
            r matches Ok(kp) && kp.wf(),
    {
        let secret = ed25519_generate_secret();
        let public = PublicKey::from_vec(ed25519_verifying_key(secret.as_slice()));
        let x25519_secret = x25519_generate_secret();
        let x25519_public = X25519PublicKey::from_vec(x25519_public(x25519_secret.as_slice()));
        Ok(KeyPair { public, secret, x25519_public, x25519_secret })
    }

    /// The Ed25519 public key.
    pub fn public_key(&self) -> (k: &PublicKey)
        ensures
            k@ == self.verifying_key(),
    {
        &self.public
    }

    /// The X25519 public key.
    pub fn x25519_public_key(&self) -> (k: &X25519PublicKey)
        ensures
            k@ == self.exchange_public(),
    {
        &self.x25519_public
    }

    /// Signs `message` with the Ed25519 secret key.
    pub fn sign(&self, message: &[u8]) -> (r: Result<Signature, CryptoError>)
        requires
            self.wf(),
        ensures
            r matches Ok(sig) && sig@ == ed25519_signature(self.signing_secret(), message@)
                && sig@.len() == 64,
    {
        Ok(Signature::from_vec(ed25519_sign(self.secret.as_slice(), message)))
    }
}

/// The back end's crypto service, holding the node's key pair.
#[derive(Debug)]
pub struct CryptoService {
    /// The node's long-term keys.
    pub keypair: KeyPair,
}

impl CryptoService {
    /// The key pair is well formed.
    pub open spec fn wf(&self) -> bool {
        self.keypair.wf()
    }

    /// The ciphertext that `encrypt_message` computes for `message` with the
    /// ephemeral X25519 secret `eph`: the key and nonce come from the agreement
    /// of `eph` with this service's own X25519 public key.
    pub open spec fn sealed_ciphertext(&self, eph: Seq<u8>, message: Seq<u8>) -> Seq<u8> {
        let shared = x25519_shared_secret(eph, self.keypair.exchange_public());
        chacha20poly1305_seal(kdf_key(shared), kdf_nonce(shared), message)
    }

    /// `encrypted` is what `encrypt_message` produces for `message` with the
    /// ephemeral secret `eph`: the ephemeral public key (32 bytes), the
    /// service's signature over the ciphertext (64 bytes), then the ciphertext.
    pub open spec fn sealed_with(&self, encrypted: Seq<u8>, eph: Seq<u8>, message: Seq<u8>) -> bool {
        let ciphertext = self.sealed_ciphertext(eph, message);
        &&& encrypted.len() >= 96
        &&& encrypted.take(32) == x25519_public_key(eph)
        &&& encrypted.subrange(32, 96) == ed25519_signature(self.keypair.signing_secret(), ciphertext)
        &&& encrypted.skip(96) == ciphertext
    }

    /// What `decrypt_message` yields for an encrypted message: the signature
    /// over the ciphertext must be this service's own, as `encrypt_message`
    /// makes it.
    pub open spec fn opened(&self, encrypted: Seq<u8>) -> Result<Seq<u8>, CryptoError> {
        if encrypted.len() < 96 {
            Err(CryptoError::InvalidMessageLength)
        } else {
            let eph_public = encrypted.take(32);
            let signature = encrypted.subrange(32, 96);
            let ciphertext = encrypted.skip(96);
            if !ed25519_verifies(self.keypair.verifying_key(), ciphertext, signature) {
                Err(CryptoError::InvalidSignature)
            } else {
                let shared = x25519_shared_secret(self.keypair.exchange_secret(), eph_public);
                match chacha20poly1305_open(kdf_key(shared), kdf_nonce(shared), ciphertext) {
                    Some(p) => Ok(p),
                    None => Err(CryptoError::Decryption),
                }
            }
        }
    }

    /// A service with a fresh key pair.
    pub fn new() -> (r: Result<CryptoService, CryptoError>)
        ensures
            r matches Ok(s) && s.wf(),
    {
        let keypair = KeyPair::generate()?;
        Ok(CryptoService { keypair })
    }

    /// Derives the message key and nonce from a shared secret with HKDF-SHA256.
    pub fn derive_keys(&self, shared_secret: &[u8]) -> (r: Result<(Vec<u8>, Vec<u8>), CryptoError>)
        ensures
            r matches Ok((key, nonce)) && key@ == kdf_key(shared_secret@) && nonce@ == kdf_nonce(
                shared_secret@,
            ) && key@.len() == 32 && nonce@.len() == 12,
    {
        let key = derive_bytes(shared_secret, KEY_INFO, 32)?;
        let nonce = derive_bytes(shared_secret, NONCE_INFO, 12)?;
        Ok((key, nonce))
    }

    /// Encrypts `message` for transport: agrees a key between a fresh ephemeral
    /// X25519 secret and this service's X25519 public key, encrypts under the
    /// derived key and nonce, signs the ciphertext, and returns
    /// `ephemeral public key ++ signature ++ ciphertext`.  The recipient's key
    /// is not used by the computation.
    pub fn encrypt_message(&self, message: &[u8], recipient_public_key: &PublicKey) -> (r: Result<Vec<u8>, CryptoError>)
        requires
            self.wf(),
        ensures
            r is Ok <==> encryptable(message@.len()),
            r matches Ok(c) ==> c@.len() == 96 + message@.len() + 16 && exists|eph: Seq<u8>|
                eph.len() == 32 && self.sealed_with(c@, eph, message@),
    {
        let ephemeral_secret = x25519_generate_secret();
        let ephemeral_public = x25519_public(ephemeral_secret.as_slice());
        let shared_secret = x25519_diffie_hellman(
            ephemeral_secret.as_slice(),
            self.keypair.x25519_public.as_bytes(),
        );
        let (key, nonce) = self.derive_keys(shared_secret.as_slice())?;
        let ciphertext = match chacha20poly1305_encrypt(key.as_slice(), nonce.as_slice(), message) {
            Ok(c) => c,
            Err(_) => return Err(CryptoError::Encryption),
        };
        let signature = self.sign_message(ciphertext.as_slice())?;
        let mut result: Vec<u8> = Vec::new();
        append_bytes(&mut result, ephemeral_public.as_slice());
        append_bytes(&mut result, signature.as_slice());
        append_bytes(&mut result, ciphertext.as_slice());
        assert(result@.take(32) =~= ephemeral_public@);
        assert(result@.subrange(32, 96) =~= signature@);
        assert(result@.skip(96) =~= ciphertext@);
        assert(self.sealed_with(result@, ephemeral_secret@, message@));
        Ok(result)
    }

    /// Decrypts what `encrypt_message` produced: checks the length, verifies
    /// the signature over the ciphertext against this service's own public
    /// key, agrees the key from this service's X25519 secret and the
    /// ephemeral public key, and decrypts.  The sender's key is not used by
    /// the computation, as the recipient's is not by `encrypt_message`: a
    /// message that this service encrypted decrypts to that message.
    pub fn decrypt_message(&self, encrypted_message: &[u8], sender_public_key: &PublicKey) -> (r: Result<Vec<u8>, CryptoError>)
        requires
            self.wf(),
        ensures
            bytes_result(r) == self.opened(encrypted_message@),
            forall|eph: Seq<u8>, m: Seq<u8>|
                eph.len() == 32 && encryptable(m.len()) && #[trigger] self.sealed_with(encrypted_message@, eph, m)
                    ==> bytes_result(r) == Ok::<Seq<u8>, CryptoError>(m),
    {
        if encrypted_message.len() < 96 {
            return Err(CryptoError::InvalidMessageLength);
        }
        let ephemeral_public = &encrypted_message[0..32];
        let signature = &encrypted_message[32..96];
        let ciphertext = &encrypted_message[96..encrypted_message.len()];
        assert(ephemeral_public@ =~= encrypted_message@.take(32));
        assert(signature@ =~= encrypted_message@.subrange(32, 96));
        assert(ciphertext@ =~= encrypted_message@.skip(96));
        let valid = ed25519_verify(self.keypair.public.as_bytes(), ciphertext, signature);
        if !valid {
            return Err(CryptoError::InvalidSignature);
        }
        let shared_secret = x25519_diffie_hellman(self.keypair.x25519_secret.as_slice(), ephemeral_public);
        let (key, nonce) = self.derive_keys(shared_secret.as_slice())?;
        let r = chacha20poly1305_decrypt(key.as_slice(), nonce.as_slice(), ciphertext);
        proof {
            assert forall|eph: Seq<u8>, m: Seq<u8>|
                eph.len() == 32 && encryptable(m.len()) && #[trigger] self.sealed_with(encrypted_message@, eph, m)
                implies r is Ok && r.unwrap()@ == m by {
                assert(ephemeral_public@ == x25519_public_key(eph));
                assert(shared_secret@ == x25519_shared_secret(eph, self.keypair.exchange_public()));
            }
        }
        match r {
            Ok(plaintext) => Ok(plaintext),
            Err(_) => Err(CryptoError::Decryption),
        }
    }

    /// Signs `message` with the service's Ed25519 key and returns the 64 bytes.
    pub fn sign_message(&self, message: &[u8]) -> (r: Result<Vec<u8>, CryptoError>)
        requires
            self.wf(),
        ensures
            r matches Ok(sig) && sig@ == ed25519_signature(self.keypair.signing_secret(), message@)
                && sig@.len() == 64,
    {
        let signature = self.keypair.sign(message)?;
        let bytes = signature.to_bytes();
        Ok(bytes)
    }

    /// Checks an Ed25519 signature; a signature that does not have 64 bytes
    /// is an error.
    pub fn verify_signature(&self, message: &[u8], signature: &[u8], public_key: &PublicKey) -> (r: Result<bool, CryptoError>)
        requires
            public_key@.len() == 32,
        ensures
            signature@.len() != 64 ==> r == Err::<bool, CryptoError>(CryptoError::InvalidSignatureLength),
            signature@.len() == 64 ==> r == Ok::<bool, CryptoError>(
                ed25519_verifies(public_key@, message@, signature@),
            ),
            forall|secret: Seq<u8>|
                secret.len() == 32 && signature@.len() == 64 && public_key@ == ed25519_public_key(secret)
                    && signature@ == #[trigger] ed25519_signature(secret, message@) ==> r == Ok::<bool, CryptoError>(
                    true,
                ),
    {
        if signature.len() != 64 {
            return Err(CryptoError::InvalidSignatureLength);
        }
        Ok(ed25519_verify(public_key.as_bytes(), message, signature))
    }

    /// A fresh 32-byte session key: HKDF-SHA256 over 32 random bytes.
    pub fn generate_session_key(&self) -> (r: Result<Vec<u8>, CryptoError>)
        ensures
            r matches Ok(k) && k@.len() == 32 && exists|seed: Seq<u8>|
                seed.len() == 32 && k@ == session_key_from_seed(seed),
    {
        let mut seed: Vec<u8> = vec![0u8; 32];
        os_rng_fill(&mut seed);
        derive_bytes(seed.as_slice(), SESSION_KEY_INFO, 32)
    }

    /// Encrypts under a 32-byte session key with a fresh random nonce and
    /// returns the nonce followed by the ciphertext.
    pub fn encrypt_with_session_key(&self, message: &[u8], session_key: &[u8]) -> (r: Result<Vec<u8>, CryptoError>)
        requires
            session_key@.len() == 32,
        ensures
            r is Ok <==> encryptable(message@.len()),
            r is Err ==> r == Err::<Vec<u8>, CryptoError>(CryptoError::Encryption),
            r matches Ok(c) ==> c@.len() == 12 + message@.len() + 16 && c@ == session_sealed(
                session_key@,
                c@.take(12),
                message@,
            ),
    {
        seal_with_random_nonce(message, session_key)
    }

    /// Decrypts what `encrypt_with_session_key` produced; what was encrypted
    /// under the same key decrypts to that message.
    pub fn decrypt_with_session_key(&self, encrypted_message: &[u8], session_key: &[u8]) -> (r: Result<Vec<u8>, CryptoError>)
        requires
            encrypted_message@.len() >= 12 ==> session_key@.len() == 32,
        ensures
            bytes_result(r) == session_opened(session_key@, encrypted_message@),
            forall|nonce: Seq<u8>, m: Seq<u8>|
                nonce.len() == 12 && encryptable(m.len()) && encrypted_message@ == #[trigger] session_sealed(
                    session_key@,
                    nonce,
                    m,
                ) ==> bytes_result(r) == Ok::<Seq<u8>, CryptoError>(m),
    {
        open_with_prefixed_nonce(encrypted_message, session_key)
    }

    /// The lower-case hexadecimal SHA-256 digest of `data`.
    pub fn hash_data(&self, data: &[u8]) -> (h: String)
        ensures
            h@ == hex_string(sha256_digest(data@)),
    {
        let digest = sha256(data);
        hex_encode(digest.as_slice())
    }
}

/// The lower-case hexadecimal form of `data`, two digits per byte.
pub fn hex_encode(data: &[u8]) -> (s: String)
    ensures
        s@ == hex_string(data@),
{
    let mut s = String::new();
    let mut i: usize = 0;
    while i < data.len()
        invariant
            i <= data@.len(),
            s@ == hex_string(data@.take(i as int)),
        decreases data@.len() - i,
    {
        let piece = format_byte_hex(data[i]);
        s.append(piece.as_str());
        i = i + 1;
        assert(data@.take(i as int).drop_last() =~= data@.take(i - 1));
    }
    assert(data@.take(i as int) =~= data@);
    s
}

} // verus!
