use homelab_utils::crypto::{
    confirm_persisted, decrypt, decrypt_text, encrypt, encrypt_text, stored_key, CryptoError,
    KeyLookup, SecretRead,
};

const KEY: [u8; 32] = [0x42; 32];

#[test]
fn roundtrip_with_aad() {
    let (ct, nonce) = encrypt(&KEY, b"aa:bb:cc:dd:ee:ff", b"hunter2").unwrap();
    assert_eq!(nonce.len(), 24);
    let pt = decrypt(&KEY, b"aa:bb:cc:dd:ee:ff", &ct, &nonce).unwrap();
    assert_eq!(pt, b"hunter2");
}

#[test]
fn tampered_ciphertext_fails() {
    let (mut ct, nonce) = encrypt(&KEY, b"mac", b"secret").unwrap();
    ct[0] ^= 0xff;
    assert!(decrypt(&KEY, b"mac", &ct, &nonce).is_err());
}

#[test]
fn wrong_aad_fails() {
    let (ct, nonce) = encrypt(&KEY, b"mac-A", b"secret").unwrap();
    assert!(decrypt(&KEY, b"mac-B", &ct, &nonce).is_err());
}

#[test]
fn bad_nonce_length_is_rejected() {
    let (ct, _) = encrypt(&KEY, b"mac", b"secret").unwrap();
    assert!(matches!(
        decrypt(&KEY, b"mac", &ct, &[0u8; 12]),
        Err(CryptoError::BadNonce)
    ));
}

#[test]
fn ciphertext_carries_a_tag_and_differs_from_plaintext() {
    let (ct, nonce) = encrypt(&KEY, b"mac", b"secret").unwrap();
    assert_eq!(ct.len(), b"secret".len() + 16);
    assert_ne!(&ct[..6], b"secret");
    // Two seals of one message use fresh nonces.
    let (_, nonce2) = encrypt(&KEY, b"mac", b"secret").unwrap();
    assert_ne!(nonce, nonce2);
}

#[test]
fn wrong_key_fails_with_aead_error() {
    let (ct, nonce) = encrypt(&KEY, b"mac", b"secret").unwrap();
    let other = [0x07u8; 32];
    assert!(matches!(decrypt(&other, b"mac", &ct, &nonce), Err(CryptoError::Aead)));
    assert!(matches!(decrypt(&KEY, b"mac", &ct[..10], &nonce), Err(CryptoError::Aead)));
}

#[test]
fn password_text_roundtrip_binds_mac() {
    let (ct, nonce) = encrypt_text(&KEY, "aa:bb:cc:dd:ee:ff", "p@ss w0rd ✓").unwrap();
    let back = decrypt_text(&KEY, "aa:bb:cc:dd:ee:ff", &ct, &nonce).unwrap();
    assert_eq!(back, "p@ss w0rd ✓");
    assert!(matches!(
        decrypt_text(&KEY, "11:22:33:44:55:66", &ct, &nonce),
        Err(CryptoError::Aead)
    ));
}

#[test]
fn non_utf8_plaintext_is_bad_utf8() {
    let (ct, nonce) = encrypt(&KEY, b"mac", &[0xff, 0xfe]).unwrap();
    assert!(matches!(decrypt_text(&KEY, "mac", &ct, &nonce), Err(CryptoError::BadUtf8)));
}

#[test]
fn stored_key_decisions() {
    match stored_key(SecretRead::Found(vec![7u8; 32])) {
        KeyLookup::Use(k) => assert_eq!(k, [7u8; 32]),
        _ => panic!("a 32-byte secret is the key"),
    }
    assert!(matches!(stored_key(SecretRead::Found(vec![7u8; 31])), KeyLookup::Generate));
    assert!(matches!(stored_key(SecretRead::Missing), KeyLookup::Generate));
}

#[test]
fn fresh_key_must_read_back() {
    let fresh = [9u8; 32];
    assert_eq!(confirm_persisted(fresh, SecretRead::Found(vec![9u8; 32])).unwrap(), fresh);
    match confirm_persisted(fresh, SecretRead::Found(vec![8u8; 32])) {
        Err(e) => assert_eq!(
            e.message(),
            "secure key store unavailable: key did not persist (no usable OS keychain backend)"
        ),
        Ok(_) => panic!("a different read-back is not the key"),
    }
    assert!(matches!(
        confirm_persisted(fresh, SecretRead::Missing),
        Err(CryptoError::KeyStoreUnavailable(_))
    ));
}

#[test]
fn crypto_error_messages() {
    assert_eq!(CryptoError::Aead.message(), "encryption/decryption failed");
    assert_eq!(CryptoError::BadNonce.message(), "stored nonce is malformed");
    assert_eq!(CryptoError::BadUtf8.message(), "decrypted password is not valid UTF-8");
}
