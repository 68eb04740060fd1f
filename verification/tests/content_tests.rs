use securefolders::content::{
    decode_content, encode_content, open_content, seal_content, Folder, VaultContent,
};
use securefolders::crypto::{derive_key, encrypt, random_dek, random_salt, Argon2Params, VaultKey};
use securefolders::error::AppError;
use securefolders::vault::{
    add_file, create_folder, delete_folder, list_files, list_folders, new_file_entry, new_id, now,
    remove_file, rename_folder, seal_integrity, FileEntry, Timestamp, VaultMetadata,
};

fn fast_vault() -> (VaultMetadata, VaultKey) {
    let params = Argon2Params { memory_kib: 8, iterations: 1, parallelism: 1 };
    let salt = random_salt();
    let master = derive_key("password123", &salt, &params).unwrap();
    let dek = random_dek();
    let mut metadata = VaultMetadata {
        id: new_id(),
        name: "Contenu".to_string(),
        salt: salt.to_vec(),
        argon2_params: params,
        dek_encrypted: encrypt(&master, &dek.0).unwrap(),
        totp_enabled: false,
        totp_secret_encrypted: None,
        recovery_codes: Vec::new(),
        integrity_tag: Vec::new(),
        created_at: now(),
        content_encrypted: seal_content(
            &VaultContent { files: Vec::new(), folders: Vec::new() },
            &dek,
        )
        .unwrap(),
    };
    seal_integrity(&mut metadata, &dek);
    (metadata, dek)
}

fn sample() -> VaultContent {
    VaultContent {
        files: vec![
            FileEntry {
                id: 1,
                name: "été.txt".to_string(),
                size: 42,
                added_at: Timestamp { secs: -5, nanos: 7 },
                parent_id: Some(9),
            },
            FileEntry {
                id: u128::MAX,
                name: String::new(),
                size: u64::MAX,
                added_at: Timestamp { secs: 1_700_000_000, nanos: 999_999_999 },
                parent_id: None,
            },
        ],
        folders: vec![Folder { id: 9, name: "Docs".to_string(), parent_id: None }],
    }
}

fn same(a: &VaultContent, b: &VaultContent) -> bool {
    a.files.len() == b.files.len()
        && a.folders.len() == b.folders.len()
        && a.files.iter().zip(&b.files).all(|(x, y)| {
            x.id == y.id
                && x.name == y.name
                && x.size == y.size
                && x.added_at.secs == y.added_at.secs
                && x.added_at.nanos == y.added_at.nanos
                && x.parent_id == y.parent_id
        })
        && a.folders.iter().zip(&b.folders).all(|(x, y)| {
            x.id == y.id && x.name == y.name && x.parent_id == y.parent_id
        })
}

#[test]
fn a_block_decodes_to_what_was_encoded() {
    let c = sample();
    let bytes = encode_content(&c);
    let back = decode_content(&bytes).unwrap();
    assert!(same(&c, &back));
}

#[test]
fn the_block_of_an_empty_vault_is_its_two_counts() {
    let empty = VaultContent { files: Vec::new(), folders: Vec::new() };
    assert_eq!(encode_content(&empty), vec![0u8; 16]);
}

#[test]
fn a_folder_record_is_laid_out_field_by_field() {
    let c = VaultContent {
        files: Vec::new(),
        folders: vec![Folder { id: 0x0102, name: "ab".to_string(), parent_id: Some(3) }],
    };
    let mut want = vec![0u8; 8];
    want.extend(1u64.to_le_bytes());
    want.extend(0x0102u128.to_le_bytes());
    want.extend(2u64.to_le_bytes());
    want.extend(b"ab");
    want.push(1);
    want.extend(3u128.to_le_bytes());
    assert_eq!(encode_content(&c), want);
}

#[test]
fn malformed_blocks_are_refused() {
    let bytes = encode_content(&sample());
    assert!(decode_content(&bytes[..bytes.len() - 1]).is_none());
    let mut longer = bytes.clone();
    longer.push(0);
    assert!(decode_content(&longer).is_none());
    assert!(decode_content(&[]).is_none());
    // The folder's parent tag is neither 0 nor 1.
    let mut bad_tag = bytes.clone();
    let last = bad_tag.len() - 1;
    bad_tag[last] = 2;
    assert!(decode_content(&bad_tag).is_none());
    // A name that is not UTF-8.
    let mut bad_name = vec![0u8; 8];
    bad_name.extend(1u64.to_le_bytes());
    bad_name.extend(5u128.to_le_bytes());
    bad_name.extend(1u64.to_le_bytes());
    bad_name.push(0xff);
    bad_name.push(0);
    assert!(decode_content(&bad_name).is_none());
}

#[test]
fn sealed_contents_open_under_the_dek_only() {
    let dek = random_dek();
    let blob = seal_content(&sample(), &dek).unwrap();
    assert!(same(&open_content(&blob, &dek).unwrap(), &sample()));
    assert!(matches!(open_content(&blob, &random_dek()), Err(AppError::WrongPassword)));
    assert!(matches!(open_content(&blob[..5], &dek), Err(AppError::Crypto(_))));
    let not_a_block = encrypt(&dek, &[1, 2, 3]).unwrap();
    assert!(matches!(open_content(&not_a_block, &dek), Err(AppError::Crypto(_))));
}

#[test]
fn the_stored_metadata_shows_no_file_name() {
    let (mut metadata, dek) = fast_vault();
    let empty_len = metadata.content_encrypted.len();
    add_file(&mut metadata, &dek, new_file_entry("rapport-confidentiel.pdf".to_string(), 10, None))
        .unwrap();
    let name = b"rapport-confidentiel.pdf";
    assert!(!metadata.content_encrypted.windows(name.len()).any(|w| w == name));
    assert!(metadata.content_encrypted.len() > empty_len);
    assert_eq!(list_files(&metadata, &dek).unwrap()[0].name, "rapport-confidentiel.pdf");
}

#[test]
fn folders_are_created_renamed_and_listed() {
    let (mut metadata, dek) = fast_vault();
    let docs = create_folder(&mut metadata, &dek, None, "Docs").unwrap();
    let sub = create_folder(&mut metadata, &dek, Some(docs.id), "Sous").unwrap();
    assert_eq!(sub.parent_id, Some(docs.id));
    rename_folder(&mut metadata, &dek, docs.id, "Documents").unwrap();
    let folders = list_folders(&metadata, &dek).unwrap();
    assert_eq!(folders.len(), 2);
    assert_eq!(folders[0].name, "Documents");
    assert_eq!(folders[1].name, "Sous");
    assert!(matches!(rename_folder(&mut metadata, &dek, new_id(), "x"), Err(AppError::Crypto(_))));
}

#[test]
fn deleting_a_folder_drops_everything_inside_it() {
    let (mut metadata, dek) = fast_vault();
    let docs = create_folder(&mut metadata, &dek, None, "Docs").unwrap();
    let sub = create_folder(&mut metadata, &dek, Some(docs.id), "Sous").unwrap();
    let deep = create_folder(&mut metadata, &dek, Some(sub.id), "Profond").unwrap();
    let other = create_folder(&mut metadata, &dek, None, "Autre").unwrap();
    let in_docs = new_file_entry("a".to_string(), 1, Some(docs.id));
    let in_deep = new_file_entry("b".to_string(), 1, Some(deep.id));
    let in_other = new_file_entry("c".to_string(), 1, Some(other.id));
    let at_root = new_file_entry("d".to_string(), 1, None);
    let ids = [in_docs.id, in_deep.id, in_other.id, at_root.id];
    for e in [in_docs, in_deep, in_other, at_root] {
        add_file(&mut metadata, &dek, e).unwrap();
    }
    let gone = delete_folder(&mut metadata, &dek, docs.id).unwrap();
    assert_eq!(gone, vec![ids[0], ids[1]]);
    let folders = list_folders(&metadata, &dek).unwrap();
    assert_eq!(folders.len(), 1);
    assert_eq!(folders[0].id, other.id);
    let files: Vec<u128> = list_files(&metadata, &dek).unwrap().iter().map(|f| f.id).collect();
    assert_eq!(files, vec![ids[2], ids[3]]);
    assert!(matches!(delete_folder(&mut metadata, &dek, docs.id), Err(AppError::Crypto(_))));
}

#[test]
fn contents_under_another_dek_are_refused_unchanged() {
    let (mut metadata, _) = fast_vault();
    let before = metadata.content_encrypted.clone();
    let wrong = random_dek();
    assert!(matches!(
        add_file(&mut metadata, &wrong, new_file_entry("x".to_string(), 1, None)),
        Err(AppError::WrongPassword)
    ));
    assert!(matches!(remove_file(&mut metadata, &wrong, 1), Err(AppError::WrongPassword)));
    assert_eq!(metadata.content_encrypted, before);
}
