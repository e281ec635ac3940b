use base64::engine::general_purpose::STANDARD;
use base64::Engine;
use envly::crypto::passphrase::PassphraseCipher;
use envly::crypto::symmetric::SymmetricCipher;
use envly::crypto::keychain::{decode_stored_key, key_entry, stored_key_text, SERVICE_NAME};
use envly::crypto::{Cipher, CipherKind, EncryptedPayload, VaultCipher};
use envly::error::EnvlyError;

fn test_cipher() -> SymmetricCipher {
    SymmetricCipher::new(SymmetricCipher::generate_key())
}

// ---- passphrase cipher ----

#[test]
fn passphrase_encrypt_decrypt_round_trip() {
    let mut cipher = PassphraseCipher::new("my-strong-passphrase".into());
    let plaintext = b"hello world secret data";
    let payload = cipher.encrypt(plaintext).unwrap();
    let decrypted = cipher.decrypt(&payload).unwrap();
    assert_eq!(decrypted, plaintext);
}

#[test]
fn wrong_passphrase_fails() {
    let mut cipher1 = PassphraseCipher::new("correct-password".into());
    let mut cipher2 = PassphraseCipher::new("wrong-password".into());
    let payload = cipher1.encrypt(b"secret").unwrap();
    let result = cipher2.decrypt(&payload);
    assert!(result.is_err());
}

#[test]
fn passphrase_corrupted_ciphertext_fails() {
    let mut cipher = PassphraseCipher::new("password".into());
    let mut payload = cipher.encrypt(b"data").unwrap();
    let mut bytes = STANDARD.decode(&payload.ciphertext).unwrap();
    if let Some(b) = bytes.first_mut() {
        *b ^= 0xFF;
    }
    payload.ciphertext = STANDARD.encode(&bytes);
    let result = cipher.decrypt(&payload);
    assert!(result.is_err());
}

#[test]
fn passphrase_empty_plaintext_round_trip() {
    let mut cipher = PassphraseCipher::new("password".into());
    let payload = cipher.encrypt(b"").unwrap();
    let decrypted = cipher.decrypt(&payload).unwrap();
    assert!(decrypted.is_empty());
}

#[test]
fn passphrase_large_plaintext_round_trip() {
    let mut cipher = PassphraseCipher::new("password".into());
    let plaintext = vec![0xABu8; 100_000];
    let payload = cipher.encrypt(&plaintext).unwrap();
    let decrypted = cipher.decrypt(&payload).unwrap();
    assert_eq!(decrypted, plaintext);
}

#[test]
fn cached_key_used_after_decrypt() {
    let mut cipher = PassphraseCipher::new("password".into());
    assert!(!cipher.has_cached_key());

    let payload = cipher.encrypt(b"first").unwrap();
    let _ = cipher.decrypt(&payload).unwrap();

    assert!(cipher.has_cached_key());

    let payload2 = cipher.encrypt(b"second").unwrap();
    let decrypted = cipher.decrypt(&payload2).unwrap();
    assert_eq!(decrypted, b"second");
}

#[test]
fn decrypt_with_invalid_salt_length_fails() {
    let mut cipher = PassphraseCipher::new("password".into());
    let payload = cipher.encrypt(b"data").unwrap();

    let mut tampered = payload;
    tampered.salt = Some(STANDARD.encode([0u8; 8]));
    let result = cipher.decrypt(&tampered);
    assert!(result.is_err());
}

#[test]
fn decrypt_with_missing_salt_fails() {
    let mut cipher = PassphraseCipher::new("password".into());
    let mut payload = cipher.encrypt(b"data").unwrap();
    payload.salt = None;
    let result = cipher.decrypt(&payload);
    assert!(result.is_err());
}

#[test]
fn decrypt_with_corrupted_nonce_fails() {
    let mut cipher = PassphraseCipher::new("password".into());
    let mut payload = cipher.encrypt(b"data").unwrap();
    payload.nonce = STANDARD.encode([0u8; 8]);
    let result = cipher.decrypt(&payload);
    assert!(result.is_err());
}

#[test]
fn passphrase_encrypt_produces_unique_nonces() {
    let mut cipher = PassphraseCipher::new("password".into());
    let p1 = cipher.encrypt(b"data").unwrap();
    let p2 = cipher.encrypt(b"data").unwrap();
    assert_ne!(p1.nonce, p2.nonce);
}

#[test]
fn passphrase_payload_reuses_cached_salt_and_opens_in_new_cipher() {
    let mut cipher = PassphraseCipher::new("pw".into());
    let p1 = cipher.encrypt(b"one").unwrap();
    let p2 = cipher.encrypt(b"two").unwrap();
    assert!(p1.salt.is_some());
    assert_eq!(p1.salt, p2.salt);
    let mut other = PassphraseCipher::new("pw".into());
    assert_eq!(other.decrypt(&p2).unwrap(), b"two");
    assert_eq!(cipher.kind(), CipherKind::Passphrase);
}

#[test]
fn passphrase_error_messages() {
    let mut cipher = PassphraseCipher::new("pw".into());
    let payload = EncryptedPayload {
        ciphertext: STANDARD.encode([1u8; 20]),
        nonce: STANDARD.encode([0u8; 24]),
        salt: None,
    };
    match cipher.decrypt(&payload) {
        Err(EnvlyError::Crypto(m)) => assert_eq!(m, "Missing salt in passphrase-encrypted payload"),
        _ => panic!("expected a crypto error"),
    }
}

// ---- symmetric cipher ----

#[test]
fn symmetric_encrypt_decrypt_round_trip() {
    let mut cipher = test_cipher();
    let plaintext = b"hello world secret data";
    let payload = cipher.encrypt(plaintext).unwrap();
    let decrypted = cipher.decrypt(&payload).unwrap();
    assert_eq!(decrypted, plaintext);
}

#[test]
fn wrong_key_fails() {
    let mut cipher1 = test_cipher();
    let mut cipher2 = test_cipher();
    let payload = cipher1.encrypt(b"secret").unwrap();
    let result = cipher2.decrypt(&payload);
    assert!(result.is_err());
}

#[test]
fn symmetric_corrupted_ciphertext_fails() {
    let mut cipher = test_cipher();
    let mut payload = cipher.encrypt(b"data").unwrap();
    let mut bytes = STANDARD.decode(&payload.ciphertext).unwrap();
    if let Some(b) = bytes.first_mut() {
        *b ^= 0xFF;
    }
    payload.ciphertext = STANDARD.encode(&bytes);
    let result = cipher.decrypt(&payload);
    assert!(result.is_err());
}

#[test]
fn base64_key_round_trip() {
    let key = SymmetricCipher::generate_key();
    let mut cipher1 = SymmetricCipher::new(key);
    let b64 = cipher1.key_as_base64();
    let mut cipher2 = SymmetricCipher::from_base64(&b64).unwrap();

    let payload = cipher1.encrypt(b"test").unwrap();
    let decrypted = cipher2.decrypt(&payload).unwrap();
    assert_eq!(decrypted, b"test");
}

#[test]
fn invalid_base64_key_rejected() {
    let result = SymmetricCipher::from_base64("not-valid-base64!!!");
    assert!(result.is_err());
}

#[test]
fn wrong_length_key_rejected() {
    let short_key = STANDARD.encode([0u8; 16]);
    let result = SymmetricCipher::from_base64(&short_key);
    assert!(result.is_err());
}

#[test]
fn symmetric_empty_plaintext_round_trip() {
    let mut cipher = test_cipher();
    let payload = cipher.encrypt(b"").unwrap();
    let decrypted = cipher.decrypt(&payload).unwrap();
    assert!(decrypted.is_empty());
}

#[test]
fn payload_has_no_salt() {
    let mut cipher = test_cipher();
    let payload = cipher.encrypt(b"data").unwrap();
    assert!(payload.salt.is_none());
}

#[test]
fn decrypt_with_invalid_nonce_length_fails() {
    let mut cipher = test_cipher();
    let mut payload = cipher.encrypt(b"data").unwrap();
    payload.nonce = STANDARD.encode([0u8; 8]);
    let result = cipher.decrypt(&payload);
    assert!(result.is_err());
}

#[test]
fn symmetric_encrypt_produces_unique_nonces() {
    let mut cipher = test_cipher();
    let p1 = cipher.encrypt(b"same data").unwrap();
    let p2 = cipher.encrypt(b"same data").unwrap();
    assert_ne!(p1.nonce, p2.nonce);
}

#[test]
fn symmetric_large_plaintext_round_trip() {
    let mut cipher = test_cipher();
    let plaintext = vec![0xABu8; 100_000];
    let payload = cipher.encrypt(&plaintext).unwrap();
    let decrypted = cipher.decrypt(&payload).unwrap();
    assert_eq!(decrypted, plaintext);
}

#[test]
fn symmetric_error_messages_and_encodings() {
    let key = [7u8; 32];
    let mut cipher = SymmetricCipher::new(key);
    assert_eq!(cipher.key_as_base64(), STANDARD.encode(key));
    let mut payload = cipher.encrypt(b"data").unwrap();
    assert_eq!(STANDARD.decode(&payload.nonce).unwrap().len(), 24);
    assert_eq!(STANDARD.decode(&payload.ciphertext).unwrap().len(), 4 + 16);
    payload.nonce = STANDARD.encode([0u8; 8]);
    match cipher.decrypt(&payload) {
        Err(EnvlyError::Crypto(m)) => assert_eq!(m, "Invalid nonce length: expected 24 bytes, got 8"),
        _ => panic!("expected a crypto error"),
    }
    payload.nonce = STANDARD.encode([0u8; 24]);
    match cipher.decrypt(&payload) {
        Err(EnvlyError::Crypto(m)) => assert_eq!(m, "Decryption failed: wrong key or corrupted data"),
        _ => panic!("expected a crypto error"),
    }
    match SymmetricCipher::from_base64(&STANDARD.encode([0u8; 16])) {
        Err(EnvlyError::Crypto(m)) => assert_eq!(m, "Symmetric key must be exactly 32 bytes"),
        _ => panic!("expected a crypto error"),
    }
    assert_eq!(cipher.kind(), CipherKind::Symmetric);
    assert_eq!(CipherKind::Symmetric.as_text(), "symmetric");
    assert_eq!(CipherKind::Passphrase.as_text(), "passphrase");
}

#[test]
fn vault_cipher_delegates() {
    let mut c = VaultCipher::Symmetric(SymmetricCipher::new([3u8; 32]));
    let p = c.encrypt(b"abc").unwrap();
    assert_eq!(c.decrypt(&p).unwrap(), b"abc");
    assert_eq!(c.kind(), CipherKind::Symmetric);
}

// ---- keychain texts ----

#[test]
fn keychain_entry_and_stored_key_round_trip() {
    let id = 0x0123_4567_89ab_cdef_0123_4567_89ab_cdefu128;
    assert_eq!(key_entry(id), "vault-master-key-01234567-89ab-cdef-0123-456789abcdef");
    assert_eq!(SERVICE_NAME, "com.envly.envly");
    let key = [9u8; 32];
    let text = stored_key_text(&key);
    assert_eq!(text, STANDARD.encode(key));
    assert_eq!(decode_stored_key(&text).unwrap(), key);
    match decode_stored_key(&STANDARD.encode([1u8; 5])) {
        Err(EnvlyError::Keychain(m)) => assert_eq!(m, "Stored key has invalid length"),
        _ => panic!("expected a keychain error"),
    }
    assert!(matches!(decode_stored_key("***"), Err(EnvlyError::Keychain(_))));
}

#[test]
fn passphrase_salt_length_checked_before_nonce() {
    let mut cipher = PassphraseCipher::new("password".into());
    let payload = EncryptedPayload {
        ciphertext: String::new(),
        nonce: String::new(),
        salt: Some(STANDARD.encode([0u8; 8])),
    };
    match cipher.decrypt(&payload) {
        Err(EnvlyError::Crypto(m)) => assert_eq!(m, "Invalid salt length: expected 16 bytes"),
        other => panic!("unexpected result: {:?}", other.is_ok()),
    }
    assert!(!cipher.has_cached_key());
}

#[test]
fn ciphertext_is_plaintext_plus_tag() {
    let mut sym = test_cipher();
    let p = sym.encrypt(b"hello").unwrap();
    assert_eq!(STANDARD.decode(&p.ciphertext).unwrap().len(), 5 + 16);
    assert_eq!(STANDARD.decode(&p.nonce).unwrap().len(), 24);
    assert!(p.salt.is_none());
    let mut pass = PassphraseCipher::new("pw-for-length".into());
    let q = pass.encrypt(b"").unwrap();
    assert_eq!(STANDARD.decode(&q.ciphertext).unwrap().len(), 16);
    assert_eq!(STANDARD.decode(q.salt.as_ref().unwrap()).unwrap().len(), 16);
}

#[test]
fn passphrase_encrypt_reuses_cached_salt() {
    let mut cipher = PassphraseCipher::new("pw-for-salt".into());
    let a = cipher.encrypt(b"one").unwrap();
    let b = cipher.encrypt(b"two").unwrap();
    assert_eq!(a.salt, b.salt);
    assert_ne!(a.nonce, b.nonce);
    let mut other = PassphraseCipher::new("pw-for-salt".into());
    assert_eq!(other.decrypt(&b).unwrap(), b"two");
    let c = other.encrypt(b"three").unwrap();
    assert_eq!(c.salt, b.salt);
}
