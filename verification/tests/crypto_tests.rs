use calendar_core::crypto::{
    decrypt, derive_key_from_passphrase, encrypt, encrypt_with_nonce, generate_key, generate_salt,
    CryptoError, EncryptionKey,
};

#[test]
fn encrypt_decrypt_round_trip() {
    let key = generate_key();
    let plaintext = b"hello, calendar cache!";
    let encrypted = encrypt(plaintext, &key);
    let decrypted = decrypt(&encrypted, &key).unwrap();
    assert_eq!(&decrypted, plaintext);
}

#[test]
fn decrypt_wrong_key_fails() {
    let key1 = generate_key();
    let key2 = generate_key();
    let encrypted = encrypt(b"secret data", &key1);
    assert!(decrypt(&encrypted, &key2).is_err());
}

#[test]
fn decrypt_corrupted_data_fails() {
    let key = generate_key();
    let mut encrypted = encrypt(b"secret data", &key);
    // Flip a byte in the ciphertext
    if let Some(byte) = encrypted.last_mut() {
        *byte ^= 0xff;
    }
    assert!(decrypt(&encrypted, &key).is_err());
}

#[test]
fn decrypt_too_short_fails() {
    let key = generate_key();
    assert!(decrypt(&[0u8; 5], &key).is_err());
}

#[test]
fn derive_key_deterministic() {
    let salt = generate_salt();
    let key1 = derive_key_from_passphrase("my passphrase", &salt);
    let key2 = derive_key_from_passphrase("my passphrase", &salt);
    assert_eq!(key1.as_bytes(), key2.as_bytes());
}

#[test]
fn derive_key_different_passphrase() {
    let salt = generate_salt();
    let key1 = derive_key_from_passphrase("passphrase1", &salt);
    let key2 = derive_key_from_passphrase("passphrase2", &salt);
    assert_ne!(key1.as_bytes(), key2.as_bytes());
}

#[test]
fn nonce_stands_first_and_tag_last() {
    let key = EncryptionKey::from_bytes([7u8; 32]);
    let sealed = encrypt_with_nonce(b"abc", &key, [9u8; 12]);
    assert_eq!(sealed.len(), 3 + 28);
    assert_eq!(&sealed[..12], &[9u8; 12]);
    assert_ne!(&sealed[12..15], b"abc");
    assert_eq!(decrypt(&sealed, &key).unwrap(), b"abc".to_vec());
    assert_eq!(encrypt_with_nonce(b"abc", &key, [9u8; 12]), sealed);
}

#[test]
fn errors_are_told_apart() {
    let key = EncryptionKey::from_bytes([7u8; 32]);
    assert_eq!(decrypt(&[0u8; 12], &key), Err(CryptoError::DataTooShort));
    assert_eq!(decrypt(&[0u8; 13], &key), Err(CryptoError::DecryptionFailed));
    assert_eq!(CryptoError::DataTooShort.message(), "encrypted data too short");
    assert_eq!(
        CryptoError::DecryptionFailed.message(),
        "decryption failed (wrong key or corrupted data)"
    );
}

#[test]
fn a_scrubbed_key_is_zero() {
    let mut key = generate_key();
    key.scrub();
    assert_eq!(key.as_bytes(), &[0u8; 32]);
}

#[test]
fn salts_and_keys_are_fresh() {
    assert_ne!(generate_salt(), generate_salt());
    assert_ne!(generate_key().as_bytes(), generate_key().as_bytes());
}

#[test]
fn another_tag_is_refused() {
    let key = EncryptionKey::from_bytes([7u8; 32]);
    let sealed = encrypt_with_nonce(b"message", &key, [1u8; 12]);
    for i in sealed.len() - 16..sealed.len() {
        let mut changed = sealed.clone();
        changed[i] ^= 1;
        assert!(matches!(decrypt(&changed, &key), Err(CryptoError::DecryptionFailed)));
    }
    assert_eq!(decrypt(&sealed, &key).unwrap(), b"message");
}
