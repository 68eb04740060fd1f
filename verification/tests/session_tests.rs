use securefolders::crypto::{derive_key, encrypt, random_dek, random_salt, Argon2Params, VaultKey};
use securefolders::content::{seal_content, VaultContent};
use securefolders::error::AppError;
use securefolders::login::{
    confirm_totp, setup_totp, unlock_vault, unlock_with_recovery_code, verify_totp, VaultRead,
};
use securefolders::state::AppState;
use securefolders::totp::generate_secret_base32;
use securefolders::vault::{
    create_vault, enable_totp, new_id, now, seal_integrity, unlock, VaultMetadata,
};

const NOW: u64 = 1_000_000;

/// A vault like `create_vault` makes, but with the cheapest Argon2id
/// parameters, for tests that unlock many times.
fn fast_vault(name: &str, password: &str) -> (VaultMetadata, VaultKey) {
    let params = Argon2Params { memory_kib: 8, iterations: 1, parallelism: 1 };
    let salt = random_salt();
    let master = derive_key(password, &salt, &params).unwrap();
    let dek = random_dek();
    let mut metadata = VaultMetadata {
        id: new_id(),
        name: name.to_string(),
        salt: salt.to_vec(),
        argon2_params: params,
        dek_encrypted: encrypt(&master, &dek.0).unwrap(),
        totp_enabled: false,
        totp_secret_encrypted: None,
        recovery_codes: Vec::new(),
        integrity_tag: Vec::new(),
        created_at: now(),
        content_encrypted: seal_content(
            &VaultContent { files: Vec::new(), folders: Vec::new() },
            &dek,
        )
        .unwrap(),
    };
    seal_integrity(&mut metadata, &dek);
    (metadata, dek)
}

fn key(b: u8) -> VaultKey {
    VaultKey([b; 32])
}

fn totp_code(secret_base32: &str, account: &str, time: u64) -> String {
    let bytes = totp_rs::Secret::Encoded(secret_base32.to_string()).to_bytes().unwrap();
    let t = totp_rs::TOTP::new(
        totp_rs::Algorithm::SHA1,
        6,
        1,
        30,
        bytes,
        Some("SecureFolders".to_string()),
        account.to_string(),
    )
    .unwrap();
    t.generate(time)
}

fn wrong_code(right: &str) -> String {
    right.chars().map(|c| if c == '0' { '1' } else { '0' }).collect()
}

#[test]
fn four_failures_are_free_then_the_lockout_doubles_up_to_five_minutes() {
    let mut state = AppState::new();
    for _ in 0..4 {
        state.record_failed_attempt(1, NOW);
        assert!(state.check_rate_limit(1, NOW).is_ok());
    }
    let mut expected = vec![5u64, 10, 20, 40, 80, 160, 300, 300];
    let mut now = NOW;
    for secs in expected.drain(..) {
        state.record_failed_attempt(1, now);
        assert!(matches!(state.check_rate_limit(1, now), Err(AppError::TooManyAttempts(s)) if s == secs));
        now += secs * 1000;
        assert!(state.check_rate_limit(1, now).is_ok());
    }
}

#[test]
fn the_seconds_left_are_rounded_up() {
    let mut state = AppState::new();
    for _ in 0..5 {
        state.record_failed_attempt(1, NOW);
    }
    assert!(matches!(state.check_rate_limit(1, NOW + 1), Err(AppError::TooManyAttempts(5))));
    assert!(matches!(state.check_rate_limit(1, NOW + 4001), Err(AppError::TooManyAttempts(1))));
    assert!(state.check_rate_limit(1, NOW + 5000).is_ok());
}

#[test]
fn a_success_forgets_the_failures_of_that_vault_only() {
    let mut state = AppState::new();
    for _ in 0..6 {
        state.record_failed_attempt(1, NOW);
        state.record_failed_attempt(2, NOW);
    }
    state.record_successful_attempt(1);
    assert!(state.check_rate_limit(1, NOW).is_ok());
    assert!(state.check_rate_limit(2, NOW).is_err());
}

#[test]
fn a_session_expires_after_the_auto_lock_delay() {
    let mut state = AppState::new();
    assert_eq!(state.auto_lock_timeout(), 300);
    state.open_session(1, key(7), NOW);
    assert!(state.is_unlocked(1, NOW + 300_000));
    assert_eq!(state.get_active_dek(1, NOW + 300_000).unwrap().0, [7; 32]);
    // Using it reset the idle time.
    assert!(state.is_unlocked(1, NOW + 600_000));
    assert!(!state.is_unlocked(1, NOW + 600_001));
    assert!(matches!(state.get_active_dek(1, NOW + 600_001), Err(AppError::VaultLocked)));
    // The expired session is gone for good.
    assert!(!state.is_unlocked(1, NOW + 300_001));
    assert!(!state.any_session_open());
}

#[test]
fn locking_drops_the_session_and_pending_state() {
    let mut state = AppState::new();
    state.open_session(1, key(1), NOW);
    state.open_session(2, key(2), NOW);
    state.begin_totp_unlock(3, key(3));
    state.lock_vault(1);
    assert!(!state.is_unlocked(1, NOW));
    assert!(state.is_unlocked(2, NOW));
    state.lock_all();
    assert!(!state.is_unlocked(2, NOW));
    assert!(!state.any_session_open());
    assert!(matches!(state.peek_pending_totp_unlock(3), Err(AppError::VaultLocked)));
}

#[test]
fn a_pending_totp_unlock_survives_a_peek_and_becomes_a_session() {
    let mut state = AppState::new();
    state.begin_totp_unlock(5, key(9));
    assert_eq!(state.peek_pending_totp_unlock(5).unwrap().0, [9; 32]);
    assert!(!state.is_unlocked(5, NOW));
    state.complete_totp_unlock(5, NOW).unwrap();
    assert!(state.is_unlocked(5, NOW));
    assert!(matches!(state.complete_totp_unlock(5, NOW), Err(AppError::VaultLocked)));
}

#[test]
fn totp_setup_secret_is_taken_once() {
    let mut state = AppState::new();
    state.start_totp_setup(1, "SECRET".to_string());
    assert_eq!(state.take_totp_setup(1).unwrap(), "SECRET");
    assert!(matches!(state.take_totp_setup(1), Err(AppError::Crypto(_))));
}

#[test]
fn launch_target_is_consumed_on_first_read() {
    let mut state = AppState::new();
    assert_eq!(state.take_launch_target(), None);
    state.set_launch_target("C:\\coffres\\A".to_string());
    assert_eq!(state.take_launch_target(), Some("C:\\coffres\\A".to_string()));
    assert_eq!(state.take_launch_target(), None);
}

#[test]
fn set_auto_lock_timeout_applies_to_open_sessions() {
    let mut state = AppState::new();
    state.open_session(1, key(1), NOW);
    state.set_auto_lock_timeout(30);
    assert_eq!(state.auto_lock_timeout(), 30);
    assert!(!state.is_unlocked(1, NOW + 30_001));
}

#[test]
fn unlocking_a_vault_without_2fa_opens_a_session() {
    let (metadata, dek) = create_vault("Simple", "password123").unwrap();
    let mut state = AppState::new();
    let r = unlock_vault(&mut state, metadata.id, b"password123".to_vec(), VaultRead::Read(metadata.clone()), NOW)
        .unwrap();
    assert!(!r.requires_totp);
    assert!(state.is_unlocked(metadata.id, NOW));
    assert_eq!(state.get_active_dek(metadata.id, NOW).unwrap().0, dek.0);
}

#[test]
fn a_wrong_password_counts_as_a_failed_attempt() {
    let (metadata, _) = fast_vault("Simple", "password123");
    let mut state = AppState::new();
    for _ in 0..5 {
        let r = unlock_vault(&mut state, metadata.id, b"nope".to_vec(), VaultRead::Read(metadata.clone()), NOW);
        assert!(matches!(r, Err(AppError::WrongPassword)));
    }
    // Locked out now, even with the right password.
    let r = unlock_vault(&mut state, metadata.id, b"password123".to_vec(), VaultRead::Read(metadata.clone()), NOW);
    assert!(matches!(r, Err(AppError::TooManyAttempts(5))));
    assert!(!state.is_unlocked(metadata.id, NOW));
}

#[test]
fn unlock_vault_reports_bad_password_bytes_and_missing_metadata() {
    let mut state = AppState::new();
    let r = unlock_vault(&mut state, 1, vec![0xff, 0xfe], VaultRead::NotFound(AppError::VaultNotFound), NOW);
    assert!(matches!(r, Err(AppError::Crypto(_))));
    let r = unlock_vault(&mut state, 1, b"password".to_vec(), VaultRead::NotFound(AppError::VaultNotFound), NOW);
    assert!(matches!(r, Err(AppError::VaultNotFound)));
    assert!(state.check_rate_limit(1, NOW).is_ok());
}

fn vault_with_2fa() -> (VaultMetadata, String, Vec<String>) {
    let (mut metadata, dek) = fast_vault("Double", "password123");
    let secret = generate_secret_base32();
    let codes = enable_totp(&mut metadata, &dek, &secret).unwrap();
    (metadata, secret, codes)
}

#[test]
fn a_vault_with_2fa_needs_a_totp_code_after_the_password() {
    let (metadata, secret, _) = vault_with_2fa();
    let mut state = AppState::new();
    let r = unlock_vault(&mut state, metadata.id, b"password123".to_vec(), VaultRead::Read(metadata.clone()), NOW)
        .unwrap();
    assert!(r.requires_totp);
    assert!(!state.is_unlocked(metadata.id, NOW));

    let time = 1_700_000_000;
    let right = totp_code(&secret, "Double", time);
    let r = verify_totp(&mut state, metadata.id, &wrong_code(&right), Ok(metadata.clone()), NOW, time);
    assert!(matches!(r, Err(AppError::InvalidTotpCode)));
    assert!(!state.is_unlocked(metadata.id, NOW));

    verify_totp(&mut state, metadata.id, &right, Ok(metadata.clone()), NOW, time).unwrap();
    assert!(state.is_unlocked(metadata.id, NOW));
}

#[test]
fn verify_totp_without_a_pending_unlock_is_refused() {
    let (metadata, secret, _) = vault_with_2fa();
    let mut state = AppState::new();
    let time = 1_700_000_000;
    let right = totp_code(&secret, "Double", time);
    let r = verify_totp(&mut state, metadata.id, &right, Ok(metadata.clone()), NOW, time);
    assert!(matches!(r, Err(AppError::VaultLocked)));
}

#[test]
fn a_recovery_code_completes_the_login_once() {
    let (metadata, _, codes) = vault_with_2fa();
    let mut state = AppState::new();
    unlock_vault(&mut state, metadata.id, b"password123".to_vec(), VaultRead::Read(metadata.clone()), NOW).unwrap();
    let r = unlock_with_recovery_code(&mut state, metadata.id, "ZZZZ-ZZZZ-ZZZZ-ZZZZ", VaultRead::Read(metadata.clone()), NOW);
    assert!(matches!(r, Err(AppError::InvalidRecoveryCode)));
    let updated =
        unlock_with_recovery_code(&mut state, metadata.id, &codes[2], VaultRead::Read(metadata.clone()), NOW).unwrap();
    assert!(updated.recovery_codes[2].used);
    assert!(state.is_unlocked(metadata.id, NOW));

    // The same code is refused next time.
    state.lock_vault(metadata.id);
    unlock_vault(&mut state, metadata.id, b"password123".to_vec(), VaultRead::Read(updated.clone()), NOW).unwrap();
    let r = unlock_with_recovery_code(&mut state, metadata.id, &codes[2], VaultRead::Read(updated.clone()), NOW);
    assert!(matches!(r, Err(AppError::InvalidRecoveryCode)));
}

#[test]
fn setting_up_2fa_needs_the_first_code_and_returns_recovery_codes() {
    let (metadata, dek) = create_vault("Setup", "password123").unwrap();
    let mut state = AppState::new();
    assert!(matches!(
        setup_totp(&mut state, metadata.id, Ok(metadata.clone()), NOW),
        Err(AppError::VaultLocked)
    ));
    state.open_session(metadata.id, dek, NOW);
    let setup = setup_totp(&mut state, metadata.id, Ok(metadata.clone()), NOW).unwrap();
    assert_eq!(setup.secret_base32.len(), 32);
    assert!(setup.qr_code_data_url.starts_with("data:image/png;base64,"));

    let time = 1_700_000_000;
    let right = totp_code(&setup.secret_base32, "Setup", time);
    let r = confirm_totp(&mut state, metadata.id, &wrong_code(&right), Ok(metadata.clone()), NOW, time);
    assert!(matches!(r, Err(AppError::InvalidTotpCode)));
    // The secret was kept for another try.
    let (result, updated) =
        confirm_totp(&mut state, metadata.id, &right, Ok(metadata.clone()), NOW, time).unwrap();
    assert_eq!(result.recovery_codes.len(), 10);
    assert!(updated.totp_enabled);
    assert!(unlock(&updated, "password123").is_ok());
    // Nothing left to confirm.
    let r = confirm_totp(&mut state, metadata.id, &right, Ok(updated.clone()), NOW, time);
    assert!(matches!(r, Err(AppError::Crypto(_))));
}

#[test]
fn unreadable_metadata_counts_as_a_failed_unlock_but_an_unknown_vault_does_not() {
    let mut state = AppState::new();
    for _ in 0..5 {
        let r = unlock_vault(
            &mut state,
            1,
            b"password".to_vec(),
            VaultRead::NotFound(AppError::VaultNotFound),
            NOW,
        );
        assert!(matches!(r, Err(AppError::VaultNotFound)));
    }
    assert!(state.check_rate_limit(1, NOW).is_ok());
    for _ in 0..5 {
        let r = unlock_vault(
            &mut state,
            1,
            b"password".to_vec(),
            VaultRead::Unreadable(AppError::Io("acces refuse".to_string())),
            NOW,
        );
        assert!(matches!(r, Err(AppError::Io(_))));
    }
    assert!(matches!(state.check_rate_limit(1, NOW), Err(AppError::TooManyAttempts(5))));
}

#[test]
fn unreadable_metadata_counts_as_a_failed_recovery_attempt() {
    let mut state = AppState::new();
    state.begin_totp_unlock(1, key(1));
    let r = unlock_with_recovery_code(
        &mut state,
        1,
        "ABCD-EFGH-JKMN-PQRS",
        VaultRead::Unreadable(AppError::Io("x".to_string())),
        NOW,
    );
    assert!(matches!(r, Err(AppError::Io(_))));
    for _ in 0..4 {
        let _ = unlock_with_recovery_code(
            &mut state,
            1,
            "ABCD-EFGH-JKMN-PQRS",
            VaultRead::Unreadable(AppError::Io("x".to_string())),
            NOW,
        );
    }
    assert!(state.check_rate_limit(1, NOW).is_err());
    // The unlock still waits for its code.
    assert!(state.peek_pending_totp_unlock(1).is_ok());
}
