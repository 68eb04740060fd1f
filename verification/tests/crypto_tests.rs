use std::collections::HashSet;

use securefolders::crypto::{
    compute_mac, decrypt, derive_key, encrypt, generate_recovery_code, hash_recovery_code,
    normalize_recovery_code, random_dek, random_salt, verify_mac, Argon2Params, VaultKey,
    NONCE_LEN, RECOVERY_CODE_ALPHABET, RECOVERY_CODE_GROUPS, RECOVERY_CODE_GROUP_LEN, TAG_LEN,
};
use securefolders::error::AppError;

// Minimal but valid Argon2id parameters, for tests that need determinism and
// speed rather than real security margins.
fn fast_params() -> Argon2Params {
    Argon2Params { memory_kib: 8, iterations: 1, parallelism: 1 }
}

#[test]
fn derive_key_is_deterministic_for_same_input() {
    let salt = random_salt();
    let params = fast_params();
    let k1 = derive_key("correct horse battery staple", &salt, &params).unwrap();
    let k2 = derive_key("correct horse battery staple", &salt, &params).unwrap();
    assert_eq!(k1.0, k2.0);
}

#[test]
fn derive_key_differs_for_different_passwords() {
    let salt = random_salt();
    let params = fast_params();
    let k1 = derive_key("password one", &salt, &params).unwrap();
    let k2 = derive_key("password two", &salt, &params).unwrap();
    assert_ne!(k1.0, k2.0);
}

#[test]
fn derive_key_differs_for_different_salts() {
    let params = fast_params();
    let k1 = derive_key("same password", &random_salt(), &params).unwrap();
    let k2 = derive_key("same password", &random_salt(), &params).unwrap();
    assert_ne!(k1.0, k2.0);
}

#[test]
fn encrypt_decrypt_roundtrip() {
    let key = random_dek();
    let plaintext = b"les fichiers secrets";
    let ciphertext = encrypt(&key, plaintext).unwrap();
    assert_ne!(ciphertext.as_slice(), plaintext.as_slice());
    assert_eq!(decrypt(&key, &ciphertext).unwrap(), plaintext);
}

#[test]
fn encrypt_uses_a_fresh_nonce_each_call() {
    let key = random_dek();
    let plaintext = b"same message every time";
    let c1 = encrypt(&key, plaintext).unwrap();
    let c2 = encrypt(&key, plaintext).unwrap();
    assert_ne!(c1, c2);
}

#[test]
fn decrypt_fails_with_wrong_key() {
    let ciphertext = encrypt(&random_dek(), b"data").unwrap();
    let wrong_key = random_dek();
    assert!(matches!(decrypt(&wrong_key, &ciphertext), Err(AppError::WrongPassword)));
}

#[test]
fn decrypt_fails_when_ciphertext_is_tampered() {
    let key = random_dek();
    let mut ciphertext = encrypt(&key, b"integrity matters").unwrap();
    let last = ciphertext.len() - 1;
    ciphertext[last] ^= 0xFF;
    assert!(decrypt(&key, &ciphertext).is_err());
}

#[test]
fn mac_roundtrip_succeeds_and_detects_tampering() {
    let key = random_dek();
    let message = b"totp_enabled=true";
    let tag = compute_mac(&key, message);

    assert!(verify_mac(&key, message, &tag));
    assert!(!verify_mac(&key, b"totp_enabled=false", &tag));

    let other_key = random_dek();
    assert!(!verify_mac(&other_key, message, &tag));
}

#[test]
fn recovery_code_hash_ignores_case_dashes_and_whitespace() {
    let code = generate_recovery_code();
    let hash = hash_recovery_code(&code);
    let messy = format!(" {} ", code.to_lowercase().replace('-', " - "));
    assert_eq!(hash, hash_recovery_code(&messy));
}

#[test]
fn recovery_code_has_expected_shape() {
    let code = generate_recovery_code();
    let groups: Vec<&str> = code.split('-').collect();
    assert_eq!(groups.len(), RECOVERY_CODE_GROUPS);
    for group in groups {
        assert_eq!(group.len(), RECOVERY_CODE_GROUP_LEN);
        assert!(group.bytes().all(|b| RECOVERY_CODE_ALPHABET.as_bytes().contains(&b)));
    }
}

#[test]
fn recovery_codes_are_not_all_identical() {
    let codes: HashSet<String> = (0..20).map(|_| generate_recovery_code()).collect();
    assert!(codes.len() > 1);
}

#[test]
fn encrypted_blob_is_nonce_ciphertext_and_tag() {
    let key = random_dek();
    let out = encrypt(&key, b"12345").unwrap();
    assert_eq!(out.len(), NONCE_LEN + 5 + TAG_LEN);
}

#[test]
fn decrypt_refuses_data_shorter_than_a_nonce() {
    let key = random_dek();
    assert!(matches!(decrypt(&key, &[1, 2, 3]), Err(AppError::Crypto(_))));
}

#[test]
fn derive_key_refuses_parameters_argon2_refuses() {
    let salt = random_salt();
    let no_pass = Argon2Params { memory_kib: 8, iterations: 0, parallelism: 1 };
    assert!(matches!(derive_key("pw", &salt, &no_pass), Err(AppError::Crypto(_))));
    let short_salt = [0u8; 4];
    assert!(matches!(derive_key("pw", &short_salt, &fast_params()), Err(AppError::Crypto(_))));
}

#[test]
fn default_argon2_parameters_are_64_mib_three_passes_four_lanes() {
    let p = Argon2Params::default();
    assert_eq!((p.memory_kib, p.iterations, p.parallelism), (65536, 3, 4));
}

#[test]
fn derive_key_gives_the_same_key_for_the_same_salt_bytes() {
    let k = derive_key("password", b"somesaltsomesalt", &fast_params()).unwrap();
    let again = derive_key("password", b"somesaltsomesalt", &fast_params()).unwrap();
    assert_eq!(k.0, again.0);
    assert_ne!(k.0, [0u8; 32]);
}

#[test]
fn normalize_recovery_code_strips_separators_and_uppercases() {
    assert_eq!(normalize_recovery_code("  ab2c-d3ef -gh45\tjk67 "), "AB2CD3EFGH45JK67");
    assert_eq!(normalize_recovery_code("---"), "");
    assert_eq!(normalize_recovery_code(""), "");
}

#[test]
fn hash_recovery_code_is_sha256_of_normalized_code() {
    // SHA-256("ABCD") computed independently.
    let expected: [u8; 32] = [
        0xe1, 0x2e, 0x11, 0x5a, 0xcf, 0x45, 0x52, 0xb2, 0x56, 0x8b, 0x55, 0xe9, 0x3c, 0xbd, 0x39,
        0x39, 0x4c, 0x4e, 0xf8, 0x1c, 0x82, 0x44, 0x7f, 0xaf, 0xc9, 0x97, 0x88, 0x2a, 0x02, 0xd2,
        0x36, 0x77,
    ];
    assert_eq!(hash_recovery_code("ab-cd"), expected.to_vec());
}

#[test]
fn mac_is_hmac_sha256() {
    // HMAC-SHA256 with a key of 32 bytes 0x0b over "Hi There", computed
    // independently.
    let key = VaultKey([0x0b; 32]);
    let expected: [u8; 32] = [
        0x19, 0x8a, 0x60, 0x7e, 0xb4, 0x4b, 0xfb, 0xc6, 0x99, 0x03, 0xa0, 0xf1, 0xcf, 0x2b, 0xbd,
        0xc5, 0xba, 0x0a, 0xa3, 0xf3, 0xd9, 0xae, 0x3c, 0x1c, 0x7a, 0x3b, 0x16, 0x96, 0xa0, 0xb6,
        0x8c, 0xf7,
    ];
    assert_eq!(compute_mac(&key, b"Hi There"), expected.to_vec());
    assert_ne!(compute_mac(&key, b"Hi there"), expected.to_vec());
}

#[test]
fn vault_key_duplicate_keeps_the_bytes() {
    let key = random_dek();
    assert_eq!(key.duplicate().0, key.0);
}
