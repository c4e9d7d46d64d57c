use hermes::backend::crypto::{hex_encode, CryptoService, KeyPair};
use hermes::keys::CryptoError;

#[test]
fn test_key_pair_generation() {
    let keypair = KeyPair::generate().unwrap();
    assert!(keypair.public_key().to_bytes().len() == 32);
    assert!(keypair.x25519_public_key().to_bytes().len() == 32);
}

#[test]
fn test_message_encryption_decryption() {
    let crypto_service = CryptoService::new().unwrap();
    let recipient_keypair = KeyPair::generate().unwrap();

    let message = b"Hello, secure world!";
    let encrypted = crypto_service
        .encrypt_message(message, recipient_keypair.public_key())
        .unwrap();

    let decrypted = crypto_service
        .decrypt_message(&encrypted, recipient_keypair.public_key())
        .unwrap();

    assert_eq!(message.to_vec(), decrypted);
}

#[test]
fn test_message_signing_verification() {
    let crypto_service = CryptoService::new().unwrap();
    let message = b"Test message for signing";

    let signature = crypto_service.sign_message(message).unwrap();
    assert_eq!(signature.len(), 64); // Ed25519 signatures are 64 bytes

    let is_valid = crypto_service
        .verify_signature(message, &signature, crypto_service.keypair.public_key())
        .unwrap();
    assert!(is_valid);

    // Test with modified message
    let modified_message = b"Modified message";
    let is_valid = crypto_service
        .verify_signature(modified_message, &signature, crypto_service.keypair.public_key())
        .unwrap();
    assert!(!is_valid);
}

#[test]
fn test_key_derivation() {
    let crypto_service = CryptoService::new().unwrap();
    let shared_secret = [0u8; 32];

    let (key1, nonce1) = crypto_service.derive_keys(&shared_secret).unwrap();
    let (key2, nonce2) = crypto_service.derive_keys(&shared_secret).unwrap();

    // Same input should produce same output
    assert_eq!(key1.as_slice(), key2.as_slice());
    assert_eq!(nonce1.as_slice(), nonce2.as_slice());

    // Different input should produce different output
    let different_secret = [1u8; 32];
    let (key3, nonce3) = crypto_service.derive_keys(&different_secret).unwrap();
    assert_ne!(key1.as_slice(), key3.as_slice());
    assert_ne!(nonce1.as_slice(), nonce3.as_slice());
}

#[test]
fn test_session_key_encryption() {
    let crypto_service = CryptoService::new().unwrap();
    let session_key = crypto_service.generate_session_key().unwrap();

    let message = b"Test message for session key encryption";
    let encrypted = crypto_service
        .encrypt_with_session_key(message, &session_key)
        .unwrap();

    let decrypted = crypto_service
        .decrypt_with_session_key(&encrypted, &session_key)
        .unwrap();

    assert_eq!(message.to_vec(), decrypted);
}

#[test]
fn transport_encryption_layout_and_errors() {
    let service = CryptoService::new().unwrap();
    let peer = KeyPair::generate().unwrap();
    let encrypted = service.encrypt_message(b"abc", peer.public_key()).unwrap();
    // ephemeral key, signature, ciphertext with its tag
    assert_eq!(encrypted.len(), 32 + 64 + 3 + 16);
    assert_eq!(
        service.decrypt_message(&encrypted[..95], peer.public_key()).unwrap_err(),
        CryptoError::InvalidMessageLength
    );
    let mut forged = encrypted.clone();
    forged[40] ^= 1;
    assert_eq!(service.decrypt_message(&forged, peer.public_key()).unwrap_err(), CryptoError::InvalidSignature);
    // another service cannot read it: the signature is not its own
    let other = CryptoService::new().unwrap();
    assert_eq!(other.decrypt_message(&encrypted, peer.public_key()).unwrap_err(), CryptoError::InvalidSignature);
}

#[test]
fn signature_length_is_checked() {
    let service = CryptoService::new().unwrap();
    let signature = service.sign_message(b"m").unwrap();
    assert_eq!(
        service.verify_signature(b"m", &signature[..10], service.keypair.public_key()).unwrap_err(),
        CryptoError::InvalidSignatureLength
    );
}

#[test]
fn hash_data_is_sha256_hex() {
    let service = CryptoService::new().unwrap();
    assert_eq!(
        service.hash_data(b"abc"),
        "ba7816bf8f01cfea414140de5dae2223b00361a396177a9cb410ff61f20015ad"
    );
    assert_eq!(hex_encode(&[0x00, 0x0f, 0xab]), "000fab");
}

#[test]
fn session_decryption_errors() {
    let service = CryptoService::new().unwrap();
    let key = service.generate_session_key().unwrap();
    assert_eq!(service.decrypt_with_session_key(&[1, 2, 3], &key).unwrap_err(), CryptoError::InvalidMessageLength);
    let encrypted = service.encrypt_with_session_key(b"xyz", &key).unwrap();
    assert_eq!(encrypted.len(), 12 + 3 + 16);
    let mut tampered = encrypted.clone();
    let last = tampered.len() - 1;
    tampered[last] ^= 0x80;
    assert_eq!(service.decrypt_with_session_key(&tampered, &key).unwrap_err(), CryptoError::Decryption);
}

#[test]
fn lower_hex_numerals() {
    assert_eq!(hermes::hex::format_lower_hex(0), "0");
    assert_eq!(hermes::hex::format_lower_hex(255), "ff");
    assert_eq!(hermes::hex::format_lower_hex(0xdead_beef), "deadbeef");
    assert_eq!(hermes::hex::format_lower_hex(u64::MAX), "ffffffffffffffff");
    assert_eq!(hermes::hex::format_lower_hex(0x1234_5678_9abc), format!("{:x}", 0x1234_5678_9abcu64));
}

#[test]
fn byte_hex_digits() {
    assert_eq!(hermes::hex::format_byte_hex(0), "00");
    assert_eq!(hermes::hex::format_byte_hex(0x0a), "0a");
    assert_eq!(hermes::hex::format_byte_hex(0xf0), "f0");
    assert_eq!(hermes::hex::format_byte_hex(255), "ff");
}

#[test]
fn session_ciphertext_length() {
    let service = CryptoService::new().unwrap();
    let key = service.generate_session_key().unwrap();
    let message = b"twelve bytes";
    let encrypted = service.encrypt_with_session_key(message, &key).unwrap();
    assert_eq!(encrypted.len(), 12 + message.len() + 16);
}

#[test]
fn short_session_message_refused_whatever_the_key() {
    let service = CryptoService::new().unwrap();
    assert_eq!(service.decrypt_with_session_key(&[1, 2, 3], &[]), Err(CryptoError::InvalidMessageLength));
    assert_eq!(service.decrypt_with_session_key(&[0u8; 11], &[7u8; 5]), Err(CryptoError::InvalidMessageLength));
}

#[test]
fn transport_ciphertext_length() {
    let service = CryptoService::new().unwrap();
    let message = b"hello";
    let encrypted = service.encrypt_message(message, service.keypair.public_key()).unwrap();
    assert_eq!(encrypted.len(), 96 + message.len() + 16);
}
