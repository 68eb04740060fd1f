use securefolders::commands::{
    check_master_password, check_new_master_password, image_mime_type, is_text_extension,
    password_from_bytes, plan_preview, preview_extension, text_preview, trim_str,
    validated_name, FilePreview, NameKind, PreviewPlan, PREVIEW_MAX_BYTES,
    PREVIEW_TEXT_MAX_CHARS,
};
use securefolders::error::AppError;
use securefolders::settings::{check_auto_lock_secs, DEFAULT_AUTO_LOCK_SECS};
use securefolders::totp::{
    build_totp, generate_secret_base32, qr_code_data_url, verify_code, verify_code_at,
};

#[test]
fn preview_extension_is_the_lowercased_last_extension() {
    assert_eq!(preview_extension("photo.PNG"), "png");
    assert_eq!(preview_extension("archive.tar.gz"), "gz");
    assert_eq!(preview_extension(".env"), "");
    assert_eq!(preview_extension("README"), "");
    assert_eq!(preview_extension("dir.d/notes"), "");
    assert_eq!(preview_extension("trailing."), "");
}

#[test]
fn image_and_text_extensions() {
    assert_eq!(image_mime_type("jpeg"), Some("image/jpeg"));
    assert_eq!(image_mime_type("jpg"), Some("image/jpeg"));
    assert_eq!(image_mime_type("ico"), Some("image/x-icon"));
    assert_eq!(image_mime_type("svg"), None);
    assert!(is_text_extension("md"));
    assert!(is_text_extension("tsx"));
    assert!(!is_text_extension("pdf"));
    assert!(!is_text_extension("TXT"));
}

#[test]
fn preview_plans() {
    assert_eq!(plan_preview(10, "photo.PNG"), PreviewPlan::Image);
    assert_eq!(plan_preview(10, "notes.txt"), PreviewPlan::Text);
    assert_eq!(plan_preview(10, "setup.exe"), PreviewPlan::Unsupported);
    assert_eq!(plan_preview(PREVIEW_MAX_BYTES + 1, "notes.txt"), PreviewPlan::TooLarge);
    assert_eq!(plan_preview(PREVIEW_MAX_BYTES, "notes.txt"), PreviewPlan::Text);
}

#[test]
fn text_preview_is_cut_at_fifty_thousand_characters() {
    let short = text_preview("héllo".as_bytes());
    assert!(matches!(short, FilePreview::Text { ref content, truncated: false } if content == "héllo"));
    let long = "é".repeat(PREVIEW_TEXT_MAX_CHARS + 1);
    match text_preview(long.as_bytes()) {
        FilePreview::Text { content, truncated } => {
            assert!(truncated);
            assert_eq!(content.chars().count(), PREVIEW_TEXT_MAX_CHARS);
        },
        _ => panic!("expected a text preview"),
    }
    let exact = "a".repeat(PREVIEW_TEXT_MAX_CHARS);
    assert!(matches!(text_preview(exact.as_bytes()), FilePreview::Text { truncated: false, .. }));
    let invalid = text_preview(&[b'a', 0xff, b'b']);
    assert!(matches!(invalid, FilePreview::Text { ref content, .. } if content == "a\u{FFFD}b"));
}

#[test]
fn passwords_are_decoded_and_checked() {
    assert_eq!(password_from_bytes(b"secret".to_vec()).unwrap(), "secret");
    assert!(matches!(password_from_bytes(vec![0xc3]), Err(AppError::Crypto(_))));
    assert!(check_master_password("12345678").is_ok());
    assert!(matches!(check_master_password("1234567"), Err(AppError::Crypto(_))));
    // Eight bytes of UTF-8 but four characters: too short.
    assert!(matches!(check_new_master_password("éééé"), Err(AppError::Crypto(_))));
    assert!(check_new_master_password("éééééééé").is_ok());
    assert!(matches!(check_master_password("ééééééé"), Err(AppError::Crypto(_))));
}

#[test]
fn names_are_trimmed_and_must_not_be_empty() {
    assert_eq!(trim_str("  a b \t"), "a b");
    assert_eq!(validated_name("  Nouveau  ", NameKind::Vault).unwrap(), "Nouveau");
    match validated_name(" \n ", NameKind::File) {
        Err(AppError::Crypto(m)) => assert_eq!(m, "le nom du fichier ne peut pas etre vide"),
        _ => panic!("expected a refusal"),
    }
}

#[test]
fn auto_lock_delay_range() {
    assert_eq!(DEFAULT_AUTO_LOCK_SECS, 300);
    assert_eq!(check_auto_lock_secs(30).unwrap(), 30);
    assert_eq!(check_auto_lock_secs(14400).unwrap(), 14400);
    match check_auto_lock_secs(29) {
        Err(e) => assert_eq!(
            e.message(),
            "Erreur cryptographique: le delai d'auto-verrouillage doit etre compris entre 30 et 14400 secondes"
        ),
        Ok(_) => panic!("expected a refusal"),
    }
    assert!(check_auto_lock_secs(14401).is_err());
}

#[test]
fn error_messages() {
    assert_eq!(AppError::VaultNotFound.message(), "Vault introuvable");
    assert_eq!(AppError::WrongPassword.message(), "Mot de passe incorrect");
    assert_eq!(
        AppError::TooManyAttempts(20).message(),
        "Trop de tentatives echouees. Reessayez dans 20 secondes."
    );
    assert_eq!(
        AppError::VaultTampered.message(),
        "Ce coffre semble avoir ete modifie en dehors de l'application. Ouverture refusee par securite."
    );
    assert_eq!(AppError::Io("disque plein".to_string()).message(), "Erreur d'entree/sortie: disque plein");
    assert_eq!(AppError::Zip("x".to_string()).message(), "Erreur d'archive de sauvegarde: x");
}

#[test]
fn totp_secrets_are_160_bit_base32() {
    let s = generate_secret_base32();
    assert_eq!(s.len(), 32);
    assert!(s.chars().all(|c| c.is_ascii_uppercase() || ('2'..='7').contains(&c)));
    assert_ne!(s, generate_secret_base32());
}

#[test]
fn build_totp_refuses_short_or_invalid_secrets() {
    // 80 bits is below the 128 bits TOTP::new requires.
    assert!(matches!(build_totp("JBSWY3DPEHPK3PXP", "Coffre"), Err(AppError::Crypto(_))));
    assert!(matches!(build_totp("not base32!", "Coffre"), Err(AppError::Crypto(_))));
    let secret = generate_secret_base32();
    assert!(matches!(build_totp(&secret, "a:b"), Err(AppError::Crypto(_))));
    let config = build_totp(&secret, "Coffre").unwrap();
    assert_eq!((config.digits, config.skew, config.step), (6, 1, 30));
    assert_eq!(config.secret.len(), 20);
    assert_eq!(config.issuer, "SecureFolders");
}

#[test]
fn totp_codes_are_checked_at_a_given_time() {
    let secret = generate_secret_base32();
    let bytes = totp_rs::Secret::Encoded(secret.clone()).to_bytes().unwrap();
    let t = totp_rs::TOTP::new(
        totp_rs::Algorithm::SHA1,
        6,
        1,
        30,
        bytes,
        Some("SecureFolders".to_string()),
        "Coffre".to_string(),
    )
    .unwrap();
    let time = 1_700_000_000u64;
    let code = t.generate(time);
    assert!(verify_code_at(&secret, &code, "Coffre", time).unwrap());
    // One step of skew either way, not two.
    assert!(verify_code_at(&secret, &code, "Coffre", time + 30).unwrap());
    assert!(!verify_code_at(&secret, &code, "Coffre", time + 90).unwrap());
    assert!(matches!(verify_code_at(&secret, &code, "Coffre", 10), Err(AppError::Crypto(_))));
    let now_code = t.generate_current().unwrap();
    assert!(verify_code(&secret, &now_code, "Coffre").unwrap());
}

#[test]
fn qr_code_is_a_png_data_url() {
    let secret = generate_secret_base32();
    let url = qr_code_data_url(&secret, "Coffre").unwrap();
    assert!(url.starts_with("data:image/png;base64,"));
    assert!(url.len() > "data:image/png;base64,".len());
    assert!(qr_code_data_url("JBSWY3DPEHPK3PXP", "Coffre").is_err());
}

#[test]
fn qr_code_needs_an_account_name_without_colon() {
    let secret = generate_secret_base32();
    assert!(matches!(qr_code_data_url(&secret, "a:b"), Err(AppError::Crypto(_))));
    assert!(qr_code_data_url(&secret, "Coffre perso").is_ok());
}
