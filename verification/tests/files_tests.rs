use securefolders::crypto::{random_dek, TAG_LEN};
use securefolders::error::AppError;
use securefolders::layout::{
    backup_entry_name, blob_path, export_path, files_dir, index_path, join_path, metadata_path,
    restored_file_name, settings_path, temp_export_dir, uuid_string,
};
use securefolders::stream::{FileDecryptor, FileEncryptor, FILE_CHUNK_LEN, STREAM_PREFIX_LEN};

const SEP: char = std::path::MAIN_SEPARATOR;

#[test]
fn a_file_encrypted_in_chunks_decrypts_back() {
    let key = random_dek();
    let data: Vec<u8> = (0..(2 * FILE_CHUNK_LEN + 100)).map(|i| (i % 251) as u8).collect();
    let mut enc = FileEncryptor::new(&key);
    let header = enc.header();
    assert_eq!(header.len(), STREAM_PREFIX_LEN);
    let pieces: Vec<&[u8]> = data.chunks(FILE_CHUNK_LEN).collect();
    let mut sealed = Vec::new();
    for (i, p) in pieces.iter().enumerate() {
        let c = enc.seal_chunk(p, i + 1 == pieces.len()).unwrap();
        assert_eq!(c.len(), p.len() + TAG_LEN);
        sealed.push(c);
    }
    let mut dec = FileDecryptor::new(&key, &header).unwrap();
    let mut out = Vec::new();
    for (i, c) in sealed.iter().enumerate() {
        out.extend(dec.open_chunk(c, i + 1 == sealed.len()).unwrap());
    }
    dec.finish().unwrap();
    assert_eq!(out, data);
}

#[test]
fn reordered_chunks_are_detected() {
    let key = random_dek();
    let mut enc = FileEncryptor::new(&key);
    let header = enc.header();
    let a = enc.seal_chunk(b"first", false).unwrap();
    let b = enc.seal_chunk(b"second", true).unwrap();
    let mut dec = FileDecryptor::new(&key, &header).unwrap();
    assert!(matches!(dec.open_chunk(&b, false), Err(AppError::Crypto(_))));
    assert_eq!(dec.open_chunk(&a, false).unwrap(), b"first");
    assert_eq!(dec.open_chunk(&b, true).unwrap(), b"second");
}

#[test]
fn a_truncated_file_is_detected() {
    let key = random_dek();
    let mut enc = FileEncryptor::new(&key);
    let header = enc.header();
    let a = enc.seal_chunk(b"first", false).unwrap();
    let _b = enc.seal_chunk(b"second", true).unwrap();
    let mut dec = FileDecryptor::new(&key, &header).unwrap();
    // Presenting the first chunk as the last one fails, and stopping after
    // it is refused.
    assert!(dec.open_chunk(&a, true).is_err());
    dec.open_chunk(&a, false).unwrap();
    assert!(matches!(dec.finish(), Err(AppError::Crypto(_))));
}

#[test]
fn nothing_is_encrypted_after_the_last_chunk() {
    let key = random_dek();
    let mut enc = FileEncryptor::new(&key);
    enc.seal_chunk(b"", true).unwrap();
    assert!(matches!(enc.seal_chunk(b"more", true), Err(AppError::Crypto(_))));
}

#[test]
fn a_chunk_does_not_open_under_another_key_or_prefix() {
    let key = random_dek();
    let mut enc = FileEncryptor::new(&key);
    let header = enc.header();
    let c = enc.seal_chunk(b"data", true).unwrap();
    let mut other = FileDecryptor::new(&random_dek(), &header).unwrap();
    assert!(other.open_chunk(&c, true).is_err());
    let mut moved = header;
    moved[0] ^= 1;
    let mut wrong_prefix = FileDecryptor::new(&key, &moved).unwrap();
    assert!(wrong_prefix.open_chunk(&c, true).is_err());
    assert!(matches!(FileDecryptor::new(&key, &header[..3]), Err(AppError::Crypto(_))));
}

#[test]
fn an_empty_file_is_one_empty_final_chunk() {
    let key = random_dek();
    let mut enc = FileEncryptor::new(&key);
    let header = enc.header();
    let c = enc.seal_chunk(b"", true).unwrap();
    assert_eq!(c.len(), TAG_LEN);
    let mut dec = FileDecryptor::new(&key, &header).unwrap();
    assert!(dec.open_chunk(&c, true).unwrap().is_empty());
    dec.finish().unwrap();
}

#[test]
fn paths_are_joined_with_the_platform_separator() {
    assert_eq!(join_path("dir", "f"), format!("dir{SEP}f"));
    assert_eq!(join_path(&format!("dir{SEP}"), "f"), format!("dir{SEP}f"));
    assert_eq!(join_path("", "f"), "f");
    assert_eq!(index_path("data"), format!("data{SEP}vaults_index.json"));
    assert_eq!(settings_path("data"), format!("data{SEP}settings.json"));
    assert_eq!(metadata_path("v"), format!("v{SEP}vault.json"));
    assert_eq!(files_dir("v"), format!("v{SEP}files"));
}

#[test]
fn a_directory_ending_in_any_separator_of_the_platform_gets_none_added() {
    // `/` separates on every platform; `\` only where it is the main one.
    assert_eq!(join_path("dir/", "f"), "dir/f");
    let expected = if SEP == '\\' { "dir\\f".to_string() } else { "dir\\/f".to_string() };
    assert_eq!(join_path("dir\\", "f"), expected);
    assert_eq!(
        join_path("dir/", "f"),
        std::path::Path::new("dir/").join("f").to_string_lossy()
    );
    assert_eq!(
        join_path("dir\\", "f"),
        std::path::Path::new("dir\\").join("f").to_string_lossy()
    );
}

#[test]
fn blobs_and_exports_are_named_by_identifier() {
    let id: u128 = 0x67e5504410b1426f9247bb680e5fe0c8;
    assert_eq!(uuid_string(id), "67e55044-10b1-426f-9247-bb680e5fe0c8");
    assert_eq!(uuid_string(0), "00000000-0000-0000-0000-000000000000");
    assert_eq!(
        blob_path("v", id),
        format!("v{SEP}files{SEP}67e55044-10b1-426f-9247-bb680e5fe0c8")
    );
    assert_eq!(
        temp_export_dir("tmp", id),
        format!("tmp{SEP}securefolders-exports{SEP}67e55044-10b1-426f-9247-bb680e5fe0c8")
    );
}

#[test]
fn backup_entries_restore_the_files_they_hold() {
    assert_eq!(backup_entry_name("abc"), "files/abc");
    assert_eq!(restored_file_name("files/abc").unwrap(), Some("abc".to_string()));
    assert_eq!(restored_file_name(&backup_entry_name("x-1")).unwrap(), Some("x-1".to_string()));
    assert_eq!(restored_file_name("files/").unwrap(), None);
    assert_eq!(restored_file_name("vault.json").unwrap(), None);
    assert_eq!(restored_file_name("file/abc").unwrap(), None);
}

#[test]
fn backup_entries_that_would_leave_the_files_folder_are_refused() {
    for bad in ["files/../../evil.txt", "files/a/b", "files/a\\b", "files/C:evil", "files/..", "files/."] {
        assert!(matches!(restored_file_name(bad), Err(AppError::Zip(_))), "{bad}");
    }
    assert_eq!(restored_file_name("files/..x").unwrap(), Some("..x".to_string()));
}

#[test]
fn exports_stay_directly_in_the_vault_export_folder() {
    let id: u128 = 0x67e5504410b1426f9247bb680e5fe0c8;
    let dir = format!("tmp{SEP}securefolders-exports{SEP}67e55044-10b1-426f-9247-bb680e5fe0c8");
    assert_eq!(export_path("tmp", id, "notes.txt"), format!("{dir}{SEP}notes.txt"));
    assert_eq!(export_path("tmp", id, "../x"), format!("{dir}{SEP}.._x"));
    assert_eq!(export_path("tmp", id, "C:\\Windows\\x"), format!("{dir}{SEP}C__Windows_x"));
    assert_eq!(export_path("tmp", id, ".."), format!("{dir}{SEP}_.."));
    assert_eq!(export_path("tmp", id, ""), format!("{dir}{SEP}_"));
}
