use ashell::config::ConfigFile;
use ashell::crypto::{
    decrypt_config, encrypt_config, seal_config, CryptoError, EncryptedConfigEnvelope,
};

fn envelope() -> EncryptedConfigEnvelope {
    encrypt_config(b"{}", "password").unwrap()
}

fn refusal(envelope: &EncryptedConfigEnvelope) -> String {
    decrypt_config(envelope, "password").unwrap_err().message()
}

#[test]
fn test_config_encryption_roundtrip() {
    let config = ConfigFile::default();
    let plaintext = format!("{{\"terminal_font_family\":\"{}\"}}", config.terminal_font_family);
    let password = "test-password-123";
    let encrypted = encrypt_config(plaintext.as_bytes(), password).unwrap();

    // Ensure it doesn't contain plain text fields of default config
    let encrypted_str = format!("{encrypted:?}");
    assert!(!encrypted_str.contains("Maple Mono NF CN"));
    assert!(encrypted_str.contains("argon2id"));

    let decrypted = decrypt_config(&encrypted, password).unwrap();
    assert_eq!(decrypted, plaintext.as_bytes());

    // Decrypt with wrong password should fail
    assert!(decrypt_config(&encrypted, "wrong-password").is_err());
}

#[test]
fn sealing_depends_on_its_arguments_alone() {
    let first = seal_config(b"text", "password", &[1; 16], &[2; 24]).unwrap();
    let second = seal_config(b"text", "password", &[1; 16], &[2; 24]).unwrap();
    let other = seal_config(b"text", "password", &[1; 16], &[3; 24]).unwrap();

    assert_eq!(first.payload, second.payload);
    assert_ne!(first.payload, other.payload);
    assert_eq!(first.salt, "AQEBAQEBAQEBAQEBAQEBAQ==");
    assert_eq!(first.format_version, 1);
    assert_eq!(first.cipher, "xchacha20poly1305");
    assert_eq!(decrypt_config(&first, "password").unwrap(), b"text".to_vec());
}

#[test]
fn two_encryptions_differ() {
    assert_ne!(envelope().payload, envelope().payload);
}

#[test]
fn other_formats_are_refused() {
    let mut version = envelope();
    version.format_version = 2;
    assert_eq!(refusal(&version), "unsupported encrypted config format");
    let mut kdf = envelope();
    kdf.kdf = "scrypt".to_string();
    assert_eq!(refusal(&kdf), "unsupported encrypted config format");
    let mut cipher = envelope();
    cipher.cipher = "aes".to_string();
    assert_eq!(refusal(&cipher), "unsupported encrypted config format");
}

#[test]
fn damaged_fields_are_named() {
    let mut salt = envelope();
    salt.salt = "*".to_string();
    assert_eq!(refusal(&salt), "decode config salt");
    let mut nonce = envelope();
    nonce.nonce = "*".to_string();
    assert_eq!(refusal(&nonce), "decode config nonce");
    let mut short_nonce = envelope();
    short_nonce.nonce = "AAAA".to_string();
    assert_eq!(refusal(&short_nonce), "invalid config nonce");
    let mut payload = envelope();
    payload.payload = "*".to_string();
    assert_eq!(refusal(&payload), "decode encrypted config payload");
    let mut short_salt = envelope();
    short_salt.salt = "AAAA".to_string();
    assert_eq!(refusal(&short_salt), "derive encryption key: salt is too short");
    let mut other_payload = envelope();
    other_payload.payload = "AAAA".to_string();
    assert_eq!(
        refusal(&other_payload),
        "cannot decrypt config; hardware UUID mismatch or corrupted data"
    );
}

#[test]
fn a_short_salt_gives_no_key() {
    let error = seal_config(b"text", "password", &[1; 7], &[2; 24]).unwrap_err();

    assert_eq!(error.message(), "derive encryption key: salt is too short");
}

#[test]
fn errors_without_an_input_have_words_too() {
    assert_eq!(CryptoError::NoRandomness.message(), "the system gives no random bytes");
    assert_eq!(CryptoError::Encrypt.message(), "encrypt config payload");
}
