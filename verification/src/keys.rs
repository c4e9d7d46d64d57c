//! Byte representations of the keys and signatures that the crypto services
//! hand out.
use vstd::prelude::*;

verus! {

/// Failures of the crypto services.
#[derive(Debug, Clone, Copy, PartialEq, Eq)]
pub enum CryptoError {
    /// HKDF could not produce the requested key material.
    KeyDerivation,
    /// The AEAD cipher refused to encrypt.
    Encryption,
    /// The AEAD cipher refused to decrypt: the tag did not authenticate.
    Decryption,
    /// An encrypted message is shorter than its fixed header.
    InvalidMessageLength,
    /// The signature over an encrypted message does not verify.
    InvalidSignature,
    /// A signature does not have 64 bytes.
    InvalidSignatureLength,
}

/// A byte-vector result read as a sequence.
pub open spec fn bytes_result(r: Result<Vec<u8>, CryptoError>) -> Result<Seq<u8>, CryptoError> {
    match r {
        Ok(v) => Ok(v@),
        Err(e) => Err(e),
    }
}

/// An Ed25519 public key: the 32-byte compressed point.
#[derive(Debug, Clone)]
pub struct PublicKey {
    bytes: Vec<u8>,
}

impl View for PublicKey {
    type V = Seq<u8>;

    closed spec fn view(&self) -> Seq<u8> {
        self.bytes@
    }
}

impl PublicKey {
    pub(crate) fn from_vec(bytes: Vec<u8>) -> (k: Self)
        ensures
            k@ == bytes@,
    {
        PublicKey { bytes }
    }

    /// The key's bytes.
    pub fn to_bytes(&self) -> (b: Vec<u8>)
        ensures
            b@ == self@,
    {
        let b = self.bytes.clone();
        assert(b@ =~= self@);
        b
    }

    /// The key's bytes, borrowed.
    pub fn as_bytes(&self) -> (b: &[u8])
        ensures
            b@ == self@,
    {
        self.bytes.as_slice()
    }
}

/// An X25519 public key: the 32-byte Montgomery u-coordinate.
#[derive(Debug, Clone)]
pub struct X25519PublicKey {
    bytes: Vec<u8>,
}

impl View for X25519PublicKey {
    type V = Seq<u8>;

    closed spec fn view(&self) -> Seq<u8> {
        self.bytes@
    }
}

impl X25519PublicKey {
    pub(crate) fn from_vec(bytes: Vec<u8>) -> (k: Self)
        ensures
            k@ == bytes@,
    {
        X25519PublicKey { bytes }
    }

    /// The key's bytes.
    pub fn to_bytes(&self) -> (b: Vec<u8>)
        ensures
            b@ == self@,
    {
        let b = self.bytes.clone();
        assert(b@ =~= self@);
        b
    }

    /// The key's bytes, borrowed.
    pub fn as_bytes(&self) -> (b: &[u8])
        ensures
            b@ == self@,
    {
        self.bytes.as_slice()
    }
}

/// An Ed25519 signature: 64 bytes.
#[derive(Debug, Clone)]
pub struct Signature {
    bytes: Vec<u8>,
}

impl View for Signature {
    type V = Seq<u8>;

    closed spec fn view(&self) -> Seq<u8> {
        self.bytes@
    }
}

impl Signature {
    pub(crate) fn from_vec(bytes: Vec<u8>) -> (s: Self)
        ensures
            s@ == bytes@,
    {
        Signature { bytes }
    }

    /// The signature's bytes.
    pub fn to_bytes(&self) -> (b: Vec<u8>)
        ensures
            b@ == self@,
    {
        let b = self.bytes.clone();
        assert(b@ =~= self@);
        b
    }
}

} // verus!
