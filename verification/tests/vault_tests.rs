use securefolders::crypto::{
    derive_key, encrypt, hash_recovery_code, random_dek, random_salt, Argon2Params, VaultKey,
};
use securefolders::content::{find_file, open_content, seal_content, VaultContent};
use securefolders::error::AppError;
use securefolders::stream::{FileDecryptor, FileEncryptor};
use securefolders::vault::{
    add_file, change_master_password, consume_recovery_code, create_vault, decrypt_totp_secret,
    disable_totp, enable_totp, ensure_not_indexed, find_vault_path, integrity_message, list_files,
    list_folders, list_vaults, new_file_entry, new_id, now, regenerate_recovery_codes,
    register_vault, remove_file, rename_file, rename_indexed_vault, rename_vault,
    sanitize_folder_name, seal_integrity, unlock, unregister_vault, verify_integrity, RecoveryCode,
    VaultIndexEntry, VaultMetadata, RECOVERY_CODE_COUNT,
};

/// A vault like `create_vault` makes, but with the cheapest Argon2id
/// parameters, for tests that unlock many times.
fn fast_vault(name: &str, password: &str) -> (VaultMetadata, VaultKey) {
    let params = Argon2Params { memory_kib: 8, iterations: 1, parallelism: 1 };
    let salt = random_salt();
    let master = derive_key(password, &salt, &params).unwrap();
    let dek = random_dek();
    let mut metadata = VaultMetadata {
        id: new_id(),
        name: name.to_string(),
        salt: salt.to_vec(),
        argon2_params: params,
        dek_encrypted: encrypt(&master, &dek.0).unwrap(),
        totp_enabled: false,
        totp_secret_encrypted: None,
        recovery_codes: Vec::new(),
        integrity_tag: Vec::new(),
        created_at: now(),
        content_encrypted: seal_content(
            &VaultContent { files: Vec::new(), folders: Vec::new() },
            &dek,
        )
        .unwrap(),
    };
    seal_integrity(&mut metadata, &dek);
    (metadata, dek)
}

fn seal_stream(key: &VaultKey, data: &[u8]) -> (Vec<u8>, Vec<Vec<u8>>) {
    let mut enc = FileEncryptor::new(key);
    let header = enc.header().to_vec();
    let chunk = enc.seal_chunk(data, true).unwrap();
    (header, vec![chunk])
}

fn open_stream(key: &VaultKey, header: &[u8], chunks: &[Vec<u8>]) -> Vec<u8> {
    let mut dec = FileDecryptor::new(key, header).unwrap();
    let mut out = Vec::new();
    for (i, c) in chunks.iter().enumerate() {
        out.extend(dec.open_chunk(c, i + 1 == chunks.len()).unwrap());
    }
    dec.finish().unwrap();
    out
}

#[test]
fn create_and_unlock_vault_succeeds_with_correct_password() {
    let (metadata, dek) = create_vault("Mon Coffre", "correct horse battery").unwrap();
    assert_eq!(metadata.name, "Mon Coffre");
    assert!(!metadata.totp_enabled);

    let unlocked = unlock(&metadata, "correct horse battery").unwrap();
    assert_eq!(unlocked.0, dek.0);
}

#[test]
fn unlock_fails_with_wrong_password() {
    let (metadata, _dek) = create_vault("Coffre", "le bon mot de passe").unwrap();
    let result = unlock(&metadata, "un mauvais mot de passe");
    assert!(matches!(result, Err(AppError::WrongPassword)));
}

#[test]
fn enable_totp_generates_recovery_codes_usable_exactly_once() {
    let (mut metadata, _) = create_vault("2FA", "password123").unwrap();
    let dek = unlock(&metadata, "password123").unwrap();

    let codes = enable_totp(&mut metadata, &dek, "JBSWY3DPEHPK3PXP").unwrap();
    assert_eq!(codes.len(), RECOVERY_CODE_COUNT);

    consume_recovery_code(&mut metadata, &dek, &codes[0]).unwrap();
    assert!(matches!(
        consume_recovery_code(&mut metadata, &dek, &codes[0]),
        Err(AppError::InvalidRecoveryCode)
    ));
    assert!(matches!(
        consume_recovery_code(&mut metadata, &dek, "ZZZZ-ZZZZ-ZZZZ-ZZZZ"),
        Err(AppError::InvalidRecoveryCode)
    ));
    consume_recovery_code(&mut metadata, &dek, &codes[1]).unwrap();
}

#[test]
fn disable_totp_clears_secret_and_recovery_codes() {
    let (mut metadata, _) = create_vault("ToggleTwoFa", "password123").unwrap();
    let dek = unlock(&metadata, "password123").unwrap();
    enable_totp(&mut metadata, &dek, "JBSWY3DPEHPK3PXP").unwrap();

    disable_totp(&mut metadata, &dek);

    assert!(!metadata.totp_enabled);
    assert!(metadata.totp_secret_encrypted.is_none());
    assert!(metadata.recovery_codes.is_empty());
    assert!(unlock(&metadata, "password123").is_ok());
}

#[test]
fn unlock_rejects_a_vault_json_tampered_to_disable_totp() {
    let (mut metadata, _) = create_vault("Tamper", "password123").unwrap();
    let dek = unlock(&metadata, "password123").unwrap();
    enable_totp(&mut metadata, &dek, "JBSWY3DPEHPK3PXP").unwrap();

    let mut tampered = metadata.clone();
    assert!(tampered.totp_enabled);
    tampered.totp_enabled = false;

    let result = unlock(&tampered, "password123");
    assert!(matches!(result, Err(AppError::VaultTampered)));
}

#[test]
fn unlock_rejects_a_vault_json_with_an_injected_recovery_code() {
    let (mut metadata, _) = create_vault("Inject", "password123").unwrap();
    let dek = unlock(&metadata, "password123").unwrap();
    enable_totp(&mut metadata, &dek, "JBSWY3DPEHPK3PXP").unwrap();

    let mut tampered = metadata.clone();
    tampered.recovery_codes.push(RecoveryCode {
        hash: hash_recovery_code("ATTACKER-KNOWN-CODE"),
        used: false,
    });

    assert!(matches!(unlock(&tampered, "password123"), Err(AppError::VaultTampered)));
}

#[test]
fn change_master_password_rotates_access_without_touching_files() {
    let (mut metadata, _) = fast_vault("Rotate", "old-password-123");
    let dek_before = unlock(&metadata, "old-password-123").unwrap();
    let (header, chunks) = seal_stream(&dek_before, b"contenu secret");

    change_master_password(&mut metadata, "old-password-123", "new-password-456").unwrap();

    assert!(matches!(unlock(&metadata, "old-password-123"), Err(AppError::WrongPassword)));
    let dek_after = unlock(&metadata, "new-password-456").unwrap();
    assert_eq!(open_stream(&dek_after, &header, &chunks), b"contenu secret");
}

#[test]
fn change_master_password_with_the_wrong_old_password_changes_nothing() {
    let (mut metadata, _) = fast_vault("Rotate", "old-password-123");
    let before = metadata.dek_encrypted.clone();
    assert!(matches!(
        change_master_password(&mut metadata, "not-the-password", "new-password-456"),
        Err(AppError::WrongPassword)
    ));
    assert_eq!(metadata.dek_encrypted, before);
    assert!(unlock(&metadata, "old-password-123").is_ok());
}

#[test]
fn rename_and_delete_vault_updates_index_and_disk() {
    let (mut metadata, _) = create_vault("Avant", "password123").unwrap();
    let mut index: Vec<VaultIndexEntry> = Vec::new();
    register_vault(&mut index, &metadata, "C:\\coffres\\Avant".to_string());

    rename_vault(&mut metadata, "Apres");
    rename_indexed_vault(&mut index, metadata.id, "Apres");
    let entries: Vec<(VaultIndexEntry, Option<VaultMetadata>)> =
        index.iter().map(|e| (e.clone(), Some(metadata.clone()))).collect();
    let summaries = list_vaults(entries);
    assert_eq!(summaries.len(), 1);
    assert_eq!(summaries[0].name, "Apres");
    assert_eq!(index[0].name, "Apres");

    unregister_vault(&mut index, metadata.id);
    let entries: Vec<(VaultIndexEntry, Option<VaultMetadata>)> =
        index.iter().map(|e| (e.clone(), Some(metadata.clone()))).collect();
    assert!(list_vaults(entries).is_empty());
    assert!(matches!(find_vault_path(&index, metadata.id), Err(AppError::VaultNotFound)));
}

#[test]
fn importing_a_backup_of_an_already_known_vault_is_refused() {
    let (metadata, _) = create_vault("Doublon", "password123").unwrap();
    let mut index: Vec<VaultIndexEntry> = Vec::new();
    register_vault(&mut index, &metadata, "/coffres/Doublon".to_string());
    assert!(matches!(
        ensure_not_indexed(&index, metadata.id),
        Err(AppError::VaultAlreadyExists)
    ));
    assert!(ensure_not_indexed(&index, new_id()).is_ok());
}

#[test]
fn rename_file_updates_the_display_name_only() {
    let (mut metadata, _) = create_vault("Fichiers", "password123").unwrap();
    let dek = unlock(&metadata, "password123").unwrap();
    let (header, chunks) = seal_stream(&dek, b"hello vault");
    let entry = new_file_entry("hello.txt".to_string(), 11, None);
    let id = entry.id;
    add_file(&mut metadata, &dek, entry).unwrap();

    rename_file(&mut metadata, &dek, id, "nouveau-nom.txt").unwrap();
    let files = list_files(&metadata, &dek).unwrap();
    assert_eq!(files.len(), 1);
    assert_eq!(files[0].name, "nouveau-nom.txt");
    assert_eq!(files[0].id, id);
    assert_eq!(files[0].size, 11);
    assert_eq!(open_stream(&dek, &header, &chunks), b"hello vault");

    assert!(matches!(rename_file(&mut metadata, &dek, new_id(), "x"), Err(AppError::FileNotFound)));
}

#[test]
fn add_and_remove_file_round_trip() {
    let (mut metadata, dek) = fast_vault("Fichiers", "password123");
    let entry = new_file_entry("a.txt".to_string(), 3, None);
    let id = entry.id;
    add_file(&mut metadata, &dek, entry).unwrap();
    let content = open_content(&metadata.content_encrypted, &dek).unwrap();
    assert_eq!(find_file(&content, id), Some(0));

    remove_file(&mut metadata, &dek, id).unwrap();
    let content = open_content(&metadata.content_encrypted, &dek).unwrap();
    assert_eq!(find_file(&content, id), None);
    assert!(matches!(remove_file(&mut metadata, &dek, id), Err(AppError::FileNotFound)));
    // Files are outside the integrity tag: the vault still unlocks.
    assert!(unlock(&metadata, "password123").is_ok());
}

#[test]
fn removing_a_file_keeps_the_others_in_order() {
    let (mut metadata, dek) = fast_vault("Ordre", "password123");
    let names = ["a", "b", "c"];
    let mut ids = Vec::new();
    for n in names {
        let e = new_file_entry(n.to_string(), 1, None);
        ids.push(e.id);
        add_file(&mut metadata, &dek, e).unwrap();
    }
    remove_file(&mut metadata, &dek, ids[1]).unwrap();
    let files = list_files(&metadata, &dek).unwrap();
    let left: Vec<&str> = files.iter().map(|f| f.name.as_str()).collect();
    assert_eq!(left, vec!["a", "c"]);
}

#[test]
fn regenerating_recovery_codes_invalidates_the_old_ones() {
    let (mut metadata, _) = fast_vault("Regen", "password123");
    let dek = unlock(&metadata, "password123").unwrap();
    assert!(matches!(
        regenerate_recovery_codes(&mut metadata, &dek),
        Err(AppError::TotpNotEnabled)
    ));
    let old = enable_totp(&mut metadata, &dek, "JBSWY3DPEHPK3PXP").unwrap();
    let new = regenerate_recovery_codes(&mut metadata, &dek).unwrap();
    assert_eq!(new.len(), RECOVERY_CODE_COUNT);
    assert!(matches!(
        consume_recovery_code(&mut metadata, &dek, &old[0]),
        Err(AppError::InvalidRecoveryCode)
    ));
    consume_recovery_code(&mut metadata, &dek, &new[0].to_lowercase()).unwrap();
    assert!(unlock(&metadata, "password123").is_ok());
}

#[test]
fn consuming_a_code_of_a_tampered_vault_is_refused() {
    let (mut metadata, _) = fast_vault("Tamper2", "password123");
    let dek = unlock(&metadata, "password123").unwrap();
    let codes = enable_totp(&mut metadata, &dek, "JBSWY3DPEHPK3PXP").unwrap();
    metadata.recovery_codes[0].used = true;
    assert!(matches!(
        consume_recovery_code(&mut metadata, &dek, &codes[1]),
        Err(AppError::VaultTampered)
    ));
}

#[test]
fn totp_secret_reads_back() {
    let (mut metadata, _) = fast_vault("Secret", "password123");
    let dek = unlock(&metadata, "password123").unwrap();
    assert!(matches!(decrypt_totp_secret(&metadata, &dek), Err(AppError::TotpNotEnabled)));
    enable_totp(&mut metadata, &dek, "JBSWY3DPEHPK3PXP").unwrap();
    assert_eq!(decrypt_totp_secret(&metadata, &dek).unwrap(), "JBSWY3DPEHPK3PXP");
}

#[test]
fn integrity_message_is_the_compact_json_of_the_protected_fields() {
    let (mut metadata, _) = fast_vault("Json", "password123");
    metadata.id = 0x67e5504410b1426f9247bb680e5fe0c8;
    metadata.totp_enabled = true;
    metadata.totp_secret_encrypted = Some(vec![1, 2, 255]);
    metadata.recovery_codes = vec![RecoveryCode { hash: vec![0, 10], used: true }];
    let text = String::from_utf8(integrity_message(&metadata)).unwrap();
    assert_eq!(
        text,
        "{\"id\":\"67e55044-10b1-426f-9247-bb680e5fe0c8\",\"totp_enabled\":true,\
         \"totp_secret_encrypted\":[1,2,255],\"recovery_codes\":[{\"hash\":[0,10],\"used\":true}]}"
    );
}

#[test]
fn integrity_ignores_name_and_files() {
    let (mut metadata, dek) = fast_vault("Nom", "password123");
    rename_vault(&mut metadata, "Autre nom");
    add_file(&mut metadata, &dek, new_file_entry("f".to_string(), 1, None)).unwrap();
    assert!(verify_integrity(&metadata, &dek).is_ok());
    metadata.totp_enabled = true;
    assert!(matches!(verify_integrity(&metadata, &dek), Err(AppError::VaultTampered)));
}

#[test]
fn created_vault_has_default_kdf_and_a_fresh_salt() {
    let (m1, dek1) = create_vault("A", "password123").unwrap();
    let (m2, _) = create_vault("A", "password123").unwrap();
    assert_eq!(m1.salt.len(), 16);
    assert_ne!(m1.salt, m2.salt);
    assert_ne!(m1.id, m2.id);
    assert_eq!(m1.argon2_params.memory_kib, 65536);
    assert!(m1.recovery_codes.is_empty());
    assert!(list_files(&m1, &dek1).unwrap().is_empty());
    assert!(list_folders(&m1, &dek1).unwrap().is_empty());
}

#[test]
fn new_ids_are_version_4_uuids() {
    let id = new_id();
    assert_eq!((id >> 76) & 0xf, 4);
    assert_eq!((id >> 62) & 0x3, 2);
}

#[test]
fn list_vaults_skips_vaults_whose_metadata_could_not_be_read() {
    let (metadata, _) = fast_vault("Lisible", "password123");
    let a = VaultIndexEntry { id: metadata.id, name: "Lisible".to_string(), path: "/a".to_string() };
    let b = VaultIndexEntry { id: 7, name: "Perdu".to_string(), path: "/b".to_string() };
    let summaries = list_vaults(vec![(b, None), (a, Some(metadata.clone()))]);
    assert_eq!(summaries.len(), 1);
    assert_eq!(summaries[0].id, metadata.id);
    assert_eq!(summaries[0].path, "/a");
    assert!(summaries[0].totp_enabled == metadata.totp_enabled);
}

#[test]
fn sanitize_folder_name_replaces_forbidden_characters() {
    assert_eq!(sanitize_folder_name("a/b\\c:d*e?f\"g<h>i|j"), "a_b_c_d_e_f_g_h_i_j");
    assert_eq!(sanitize_folder_name("Mon Coffre"), "Mon Coffre");
}

#[test]
fn find_vault_path_gives_the_registered_path() {
    let (metadata, _) = fast_vault("Ici", "password123");
    let mut index = Vec::new();
    register_vault(&mut index, &metadata, "/la/bas".to_string());
    assert_eq!(find_vault_path(&index, metadata.id).unwrap(), "/la/bas");
}

#[test]
fn unlock_rejects_metadata_moved_to_another_vault_id() {
    let (metadata, _) = fast_vault("Deplace", "password123");
    let mut moved = metadata.clone();
    moved.id ^= 1;
    assert!(matches!(unlock(&moved, "password123"), Err(AppError::VaultTampered)));
    assert!(unlock(&metadata, "password123").is_ok());
}

#[test]
fn reviving_a_used_recovery_code_is_detected() {
    let (mut metadata, dek) = fast_vault("Revive", "password123");
    let codes = enable_totp(&mut metadata, &dek, "JBSWY3DPEHPK3PXP").unwrap();
    consume_recovery_code(&mut metadata, &dek, &codes[3]).unwrap();
    let mut revived = metadata.clone();
    revived.recovery_codes[3].used = false;
    assert!(matches!(unlock(&revived, "password123"), Err(AppError::VaultTampered)));
}

#[test]
fn now_reads_the_clock_since_the_epoch() {
    let t = now();
    assert!(t.secs > 1_600_000_000);
    assert!(t.nanos < 1_000_000_000);
}

#[test]
fn a_totp_secret_that_is_not_utf8_is_refused_with_the_decoding_error() {
    let (mut metadata, dek) = fast_vault("Utf8", "password123");
    metadata.totp_secret_encrypted = Some(encrypt(&dek, &[0xff]).unwrap());
    match decrypt_totp_secret(&metadata, &dek) {
        Err(AppError::Crypto(m)) => assert_eq!(m, "invalid utf-8 sequence of 1 bytes from index 0"),
        other => panic!("unexpected {:?}", other),
    }
}

#[test]
fn created_vaults_and_files_get_version_4_ids_and_clock_times() {
    let (metadata, _) = create_vault("Ids", "password123").unwrap();
    assert_eq!((metadata.id >> 76) & 0xf, 4);
    assert!(metadata.created_at.nanos < 1_000_000_000 && metadata.created_at.secs > 0);
    let e = new_file_entry("f".to_string(), 1, Some(7));
    assert_eq!(e.parent_id, Some(7));
    assert_eq!((e.id >> 62) & 0x3, 2);
    assert!(e.added_at.nanos < 1_000_000_000);
}
