//! Vault metadata: what `vault.json` holds, the integrity tag that binds its
//! security-critical fields to the vault's DEK, unlocking, two-factor
//! settings and single-use recovery codes, the operations on the encrypted
//! file and folder lists, and the index of known vaults.

use vstd::prelude::*;
use vstd::utf8::*;

use crate::crypto::{
    self, argon2_accepts, derived_key, hmac_sha256, is_recovery_code,
    recovery_code_hash, sealed_under, Argon2Params, VaultKey, AES_GCM_MAX_PLAINTEXT, KEY_LEN,
    NONCE_LEN,
};
use crate::content::{
    content_bytes, empty_content, empty_content_len, file_infos, first_file_with_id,
    first_folder_with_id, folder_infos, has_file, has_folder, holds_content, open_content,
    push_file, push_folder, remove_entry, rename_entry, rename_folder_entry, seal_content,
    seals_content, lemma_with_folder_len, delete_folder_entry, files_inside, without_folder, with_file, with_file_renamed, with_folder, with_folder_renamed, without_file,
    ContentInfo, FileInfo, Folder, FolderInfo, VaultContent,
};
use crate::error::{AppError, AppResult};
use crate::text::{append_bytes, decimal_chars, push_char, push_decimal_chars};

verus! {

broadcast use vstd::string::group_string_axioms;

/// A UTC instant: seconds since the Unix epoch and the nanoseconds within
/// that second.
#[derive(Debug, Clone, Copy)]
pub struct Timestamp {
    pub secs: i64,
    pub nanos: u32,
}

/// One encrypted file of a vault. The encrypted blob on disk is named by
/// `id`, never by the file's own name.
#[derive(Debug, Clone)]
pub struct FileEntry {
    pub id: u128,
    pub name: String,
    pub size: u64,
    pub added_at: Timestamp,
    /// The folder the file is shown in; `None` at the root of the vault.
    pub parent_id: Option<u128>,
}

/// A single-use TOTP recovery code. Only its SHA-256 hash is ever stored.
#[derive(Debug, Clone)]
pub struct RecoveryCode {
    pub hash: Vec<u8>,
    pub used: bool,
}

/// Everything needed to unlock and use a vault, persisted as `vault.json`
/// inside the vault folder. Never contains the password or any derived key
/// in plaintext.
#[derive(Debug, Clone)]
pub struct VaultMetadata {
    pub id: u128,
    pub name: String,
    pub salt: Vec<u8>,
    pub argon2_params: Argon2Params,
    /// The random Data Encryption Key, encrypted with the key derived from
    /// the master password (envelope encryption).
    pub dek_encrypted: Vec<u8>,
    pub totp_enabled: bool,
    /// TOTP secret, encrypted with the DEK. `None` unless 2FA is enabled.
    pub totp_secret_encrypted: Option<Vec<u8>>,
    pub recovery_codes: Vec<RecoveryCode>,
    /// HMAC-SHA256 (keyed by the DEK) over the security-critical fields.
    pub integrity_tag: Vec<u8>,
    pub created_at: Timestamp,
    /// The vault's files and folders, names, sizes and dates included, as
    /// one block encrypted under the DEK: nothing of them is readable
    /// without it, not even how many files there are.
    pub content_encrypted: Vec<u8>,
}

/// Pointer kept in the global index so vaults can live anywhere on disk.
#[derive(Debug, Clone)]
pub struct VaultIndexEntry {
    pub id: u128,
    pub name: String,
    pub path: String,
}

/// What the vault list shows of a vault.
#[derive(Debug, Clone)]
pub struct VaultSummary {
    pub id: u128,
    pub name: String,
    pub path: String,
    pub totp_enabled: bool,
    pub created_at: Timestamp,
}

// ---------------------------------------------------------------------------
// The integrity message: the compact JSON of
// `{id, totp_enabled, totp_secret_encrypted, recovery_codes}`.
// ---------------------------------------------------------------------------

pub open spec fn hex_char(d: nat) -> char {
    if d < 10 {
        ((d + 48) as u32) as char
    } else {
        ((d + 87) as u32) as char
    }
}

/// The last `count` hexadecimal digits of `n`, most significant first.
pub open spec fn hex_digits(n: nat, count: nat) -> Seq<char>
    decreases count,
{
    if count == 0 {
        Seq::empty()
    } else {
        hex_digits(n / 16, (count - 1) as nat).push(hex_char(n % 16))
    }
}

/// The hyphenated lowercase form of a UUID, e.g.
/// `67e55044-10b1-426f-9247-bb680e5fe0c8`.
pub open spec fn uuid_text(id: u128) -> Seq<char> {
    let d = hex_digits(id as nat, 32);
    d.subrange(0, 8) + seq!['-'] + d.subrange(8, 12) + seq!['-'] + d.subrange(12, 16) + seq!['-']
        + d.subrange(16, 20) + seq!['-'] + d.subrange(20, 32)
}

pub open spec fn bool_text(b: bool) -> Seq<char> {
    if b {
        "true"@
    } else {
        "false"@
    }
}

/// The comma-separated decimal numbers of `v`.
pub open spec fn byte_items(v: Seq<u8>) -> Seq<char>
    decreases v.len(),
{
    if v.len() == 0 {
        Seq::empty()
    } else if v.len() == 1 {
        decimal_chars(v[0] as nat)
    } else {
        byte_items(v.drop_last()) + seq![','] + decimal_chars(v.last() as nat)
    }
}

/// A byte vector as a JSON array of numbers.
pub open spec fn json_bytes(v: Seq<u8>) -> Seq<char> {
    seq!['['] + byte_items(v) + seq![']']
}

pub open spec fn code_text(hash: Seq<u8>, used: bool) -> Seq<char> {
    "{\"hash\":"@ + json_bytes(hash) + ",\"used\":"@ + bool_text(used) + seq!['}']
}

pub open spec fn code_items(codes: Seq<RecoveryCode>) -> Seq<char>
    decreases codes.len(),
{
    if codes.len() == 0 {
        Seq::empty()
    } else if codes.len() == 1 {
        code_text(codes[0].hash@, codes[0].used)
    } else {
        code_items(codes.drop_last()) + seq![','] + code_text(codes.last().hash@, codes.last().used)
    }
}

pub open spec fn json_codes(codes: Seq<RecoveryCode>) -> Seq<char> {
    seq!['['] + code_items(codes) + seq![']']
}

pub open spec fn json_secret(secret: Option<Vec<u8>>) -> Seq<char> {
    match secret {
        None => "null"@,
        Some(v) => json_bytes(v@),
    }
}

/// The text of the fields covered by the integrity tag, exactly as
/// `serde_json::to_vec` writes them.
pub open spec fn integrity_text(m: VaultMetadata) -> Seq<char> {
    "{\"id\":\""@ + uuid_text(m.id) + "\",\"totp_enabled\":"@ + bool_text(m.totp_enabled)
        + ",\"totp_secret_encrypted\":"@ + json_secret(m.totp_secret_encrypted)
        + ",\"recovery_codes\":"@ + json_codes(m.recovery_codes@) + seq!['}']
}

/// The bytes the integrity tag authenticates.
pub open spec fn integrity_bytes(m: VaultMetadata) -> Seq<u8> {
    encode_utf8(integrity_text(m))
}

/// The tag that seals `m` under `dek`.
pub open spec fn integrity_tag_for(m: VaultMetadata, dek: Seq<u8>) -> Seq<u8> {
    hmac_sha256(dek, integrity_bytes(m))
}

/// `m`'s stored tag is the one `dek` gives its protected fields.
pub open spec fn integrity_holds(m: VaultMetadata, dek: Seq<u8>) -> bool {
    m.integrity_tag@ == integrity_tag_for(m, dek)
}

fn push_hex_digits(out: &mut Vec<char>, n: u128, count: u32)
    ensures
        final(out)@ == old(out)@ + hex_digits(n as nat, count as nat),
    decreases count,
{
    if count > 0 {
        push_hex_digits(out, n / 16, count - 1);
        let d: u128 = n % 16;
        let c: char = if d < 10 {
            (('0' as u8) + (d as u8)) as char
        } else {
            (('a' as u8) + (d as u8) - 10) as char
        };
        assert(c == hex_char(d as nat));
        out.push(c);
    }
}

pub(crate) proof fn lemma_hex_digits_len(n: nat, count: nat)
    ensures
        hex_digits(n, count).len() == count,
    decreases count,
{
    if count > 0 {
        lemma_hex_digits_len(n / 16, (count - 1) as nat);
    }
}

/// Appends `cs[from..to]`.
fn push_chars_range(s: &mut String, cs: &Vec<char>, from: usize, to: usize)
    requires
        from <= to <= cs@.len(),
    ensures
        final(s)@ == old(s)@ + cs@.subrange(from as int, to as int),
{
    let ghost start = s@;
    let mut i: usize = from;
    while i < to
        invariant
            from <= i <= to <= cs@.len(),
            s@ == start + cs@.subrange(from as int, i as int),
        decreases to - i,
    {
        push_char(s, cs[i]);
        i = i + 1;
        assert(s@ =~= start + cs@.subrange(from as int, i as int));
    }
}

pub(crate) fn push_uuid_text(s: &mut String, id: u128)
    ensures
        final(s)@ == old(s)@ + uuid_text(id),
{
    let mut digits: Vec<char> = Vec::new();
    push_hex_digits(&mut digits, id, 32);
    proof {
        lemma_hex_digits_len(id as nat, 32);
        assert(digits@ =~= hex_digits(id as nat, 32));
    }
    let ghost start = s@;
    push_chars_range(s, &digits, 0, 8);
    push_char(s, '-');
    push_chars_range(s, &digits, 8, 12);
    push_char(s, '-');
    push_chars_range(s, &digits, 12, 16);
    push_char(s, '-');
    push_chars_range(s, &digits, 16, 20);
    push_char(s, '-');
    push_chars_range(s, &digits, 20, 32);
    assert(s@ =~= start + uuid_text(id));
}

fn push_bool_text(s: &mut String, b: bool)
    ensures
        final(s)@ == old(s)@ + bool_text(b),
{
    if b {
        s.append("true");
    } else {
        s.append("false");
    }
}

fn push_json_bytes(s: &mut String, v: &[u8])
    ensures
        final(s)@ == old(s)@ + json_bytes(v@),
{
    let ghost start = s@;
    push_char(s, '[');
    let mut i: usize = 0;
    while i < v.len()
        invariant
            i <= v@.len(),
            s@ == start + seq!['['] + byte_items(v@.take(i as int)),
        decreases v@.len() - i,
    {
        if i > 0 {
            push_char(s, ',');
        }
        push_decimal_chars(s, v[i] as u64);
        proof {
            let t = v@.take(i + 1);
            assert(t.drop_last() =~= v@.take(i as int));
            assert(t.last() == v@[i as int]);
            if i == 0 {
                assert(v@.take(0) =~= Seq::<u8>::empty());
            }
        }
        i = i + 1;
        assert(s@ =~= start + seq!['['] + byte_items(v@.take(i as int)));
    }
    push_char(s, ']');
    assert(v@.take(v@.len() as int) =~= v@);
    assert(s@ =~= old(s)@ + json_bytes(v@));
}

fn push_code_text(s: &mut String, c: &RecoveryCode)
    ensures
        final(s)@ == old(s)@ + code_text(c.hash@, c.used),
{
    let ghost start = s@;
    s.append("{\"hash\":");
    push_json_bytes(s, c.hash.as_slice());
    s.append(",\"used\":");
    push_bool_text(s, c.used);
    push_char(s, '}');
    assert(s@ =~= start + code_text(c.hash@, c.used));
}

fn push_json_codes(s: &mut String, codes: &Vec<RecoveryCode>)
    ensures
        final(s)@ == old(s)@ + json_codes(codes@),
{
    let ghost start = s@;
    push_char(s, '[');
    let mut i: usize = 0;
    while i < codes.len()
        invariant
            i <= codes@.len(),
            s@ == start + seq!['['] + code_items(codes@.take(i as int)),
        decreases codes@.len() - i,
    {
        let ghost before = s@;
        if i > 0 {
            push_char(s, ',');
        }
        push_code_text(s, &codes[i]);
        proof {
            let t = codes@.take(i + 1);
            assert(t.drop_last() =~= codes@.take(i as int));
            assert(t.last() == codes@[i as int]);
            if i == 0 {
                assert(codes@.take(0) =~= Seq::<RecoveryCode>::empty());
            }
        }
        i = i + 1;
        assert(s@ =~= start + seq!['['] + code_items(codes@.take(i as int)));
    }
    push_char(s, ']');
    assert(codes@.take(codes@.len() as int) =~= codes@);
    assert(s@ =~= old(s)@ + json_codes(codes@));
}

/// The bytes covered by `integrity_tag`: the compact JSON of the vault id,
/// the 2FA flag, the encrypted TOTP secret and the recovery codes. Kept to
/// these fields so unrelated changes (file list, name) never invalidate it.
pub fn integrity_message(metadata: &VaultMetadata) -> (r: Vec<u8>)
    ensures
        r@ == integrity_bytes(*metadata),
{
    let mut s = "{\"id\":\"".to_string();
    push_uuid_text(&mut s, metadata.id);
    s.append("\",\"totp_enabled\":");
    push_bool_text(&mut s, metadata.totp_enabled);
    s.append(",\"totp_secret_encrypted\":");
    match &metadata.totp_secret_encrypted {
        None => {
            s.append("null");
        },
        Some(v) => {
            push_json_bytes(&mut s, v.as_slice());
        },
    }
    s.append(",\"recovery_codes\":");
    push_json_codes(&mut s, &metadata.recovery_codes);
    push_char(&mut s, '}');
    assert(s@ =~= integrity_text(*metadata));
    let mut out: Vec<u8> = Vec::new();
    append_bytes(&mut out, s.as_str().as_bytes());
    out
}


// ---------------------------------------------------------------------------
// Sealing, checking and unlocking.
// ---------------------------------------------------------------------------

/// Everything of `a` but its integrity tag is as in `b`.
pub open spec fn same_but_tag(a: VaultMetadata, b: VaultMetadata) -> bool {
    &&& a.id == b.id
    &&& a.name == b.name
    &&& a.salt == b.salt
    &&& a.argon2_params == b.argon2_params
    &&& a.dek_encrypted == b.dek_encrypted
    &&& a.totp_enabled == b.totp_enabled
    &&& a.totp_secret_encrypted == b.totp_secret_encrypted
    &&& a.recovery_codes == b.recovery_codes
    &&& a.created_at == b.created_at
    &&& a.content_encrypted == b.content_encrypted
}

/// Recomputes the integrity tag of `metadata` under `dek`.
pub fn seal_integrity(metadata: &mut VaultMetadata, dek: &VaultKey)
    ensures
        same_but_tag(*final(metadata), *old(metadata)),
        integrity_holds(*final(metadata), dek.0@),
{
    let message = integrity_message(metadata);
    metadata.integrity_tag = crypto::compute_mac(dek, message.as_slice());
}

/// Checks the integrity tag of `metadata` against `dek`.
pub fn verify_integrity(metadata: &VaultMetadata, dek: &VaultKey) -> (r: AppResult<()>)
    ensures
        r is Ok <==> integrity_holds(*metadata, dek.0@),
        r is Err ==> r matches Err(AppError::VaultTampered),
{
    let message = integrity_message(metadata);
    if crypto::verify_mac(dek, message.as_slice(), metadata.integrity_tag.as_slice()) {
        Ok(())
    } else {
        Err(AppError::VaultTampered)
    }
}

/// The master key the password gives for this vault's salt and parameters.
pub open spec fn master_key(m: VaultMetadata, password: Seq<char>) -> Seq<u8> {
    derived_key(password, m.salt@, m.argon2_params)
}

/// Argon2id accepts the password with this vault's salt and parameters.
pub open spec fn kdf_accepts(m: VaultMetadata, password: Seq<char>) -> bool {
    argon2_accepts(
        encode_utf8(password),
        m.salt@,
        m.argon2_params.memory_kib,
        m.argon2_params.iterations,
        m.argon2_params.parallelism,
    )
}

/// `blob` decrypts under `key` to `p`, a plaintext that encryption
/// accepts.
pub open spec fn opens_to(key: Seq<u8>, blob: Seq<u8>, p: Seq<u8>) -> bool {
    p.len() <= AES_GCM_MAX_PLAINTEXT && sealed_under(key, blob, p)
}

/// `blob` is `p` sealed under `key`, with `p` no longer than decryption
/// accepts: what a successful decryption may give.
pub open spec fn unwraps_to(key: Seq<u8>, blob: Seq<u8>, p: Seq<u8>) -> bool {
    p.len() <= crypto::AES_GCM_MAX_OPENED && sealed_under(key, blob, p)
}

/// The password unwraps `dek` from `m` and `dek` authenticates `m`: what
/// unlocking needs.
pub open spec fn vault_opens_with(m: VaultMetadata, password: Seq<char>, dek: Seq<u8>) -> bool {
    &&& kdf_accepts(m, password)
    &&& dek.len() == KEY_LEN
    &&& opens_to(master_key(m, password), m.dek_encrypted@, dek)
    &&& integrity_holds(m, dek)
}

/// Why unlocking `m` with `password` may be refused with `e`: a key that
/// does not open the wrapped DEK, a DEK that does not authenticate the
/// metadata, or parameters, data or a DEK that are malformed.
pub open spec fn unlock_refusal(m: VaultMetadata, password: Seq<char>, e: AppError) -> bool {
    match e {
        AppError::WrongPassword => kdf_accepts(m, password) && m.dek_encrypted@.len() >= NONCE_LEN
            && forall|p: Seq<u8>| !#[trigger] opens_to(master_key(m, password), m.dek_encrypted@, p),
        AppError::VaultTampered => exists|p: Seq<u8>|
            #[trigger] opens_to(master_key(m, password), m.dek_encrypted@, p) && p.len() == KEY_LEN
                && !integrity_holds(m, p),
        AppError::Crypto(_) => !kdf_accepts(m, password) || m.dek_encrypted@.len() < NONCE_LEN
            || exists|p: Seq<u8>|
            #[trigger] unwraps_to(master_key(m, password), m.dek_encrypted@, p) && p.len() != KEY_LEN,
        _ => false,
    }
}

/// Derives the master key from the password, unwraps the DEK and checks
/// the integrity tag. Fails with `WrongPassword` when the wrapped DEK does
/// not authenticate under the derived key, and with `VaultTampered` when it
/// does but the protected fields were changed outside the app.
pub fn unlock(metadata: &VaultMetadata, password: &str) -> (r: AppResult<VaultKey>)
    ensures
        r matches Ok(k) ==> vault_opens_with(*metadata, password@, k.0@),
        forall|dek: Seq<u8>|
            #[trigger] vault_opens_with(*metadata, password@, dek) ==> r is Ok && r->Ok_0.0@
                == dek,
        r matches Err(e) ==> unlock_refusal(*metadata, password@, e),
{
    if metadata.argon2_params.parallelism > 0x1FFF_FFFF {
        return Err(AppError::Crypto("parametres Argon2 invalides".to_string()));
    }
    let kek = crypto::derive_key(password, metadata.salt.as_slice(), &metadata.argon2_params)?;
    let dek_bytes = crypto::decrypt(&kek, metadata.dek_encrypted.as_slice())?;
    assert(unwraps_to(master_key(*metadata, password@), metadata.dek_encrypted@, dek_bytes@));
    if dek_bytes.len() != KEY_LEN {
        return Err(AppError::Crypto("taille de cle invalide".to_string()));
    }
    assert(opens_to(master_key(*metadata, password@), metadata.dek_encrypted@, dek_bytes@));
    let mut key = [0u8; KEY_LEN];
    let mut i: usize = 0;
    while i < KEY_LEN
        invariant
            i <= KEY_LEN,
            dek_bytes@.len() == KEY_LEN,
            forall|j: int| 0 <= j < i ==> key@[j] == dek_bytes@[j],
        decreases KEY_LEN - i,
    {
        key[i] = dek_bytes[i];
        i = i + 1;
    }
    assert(key@ =~= dek_bytes@);
    let dek = VaultKey(key);
    verify_integrity(metadata, &dek)?;
    Ok(dek)
}


// ---------------------------------------------------------------------------
// Creating a vault and changing its master password.
// ---------------------------------------------------------------------------

/// `uuid::Uuid::new_v4`, as a big-endian `u128`: random, with the version
/// nibble set to 4 and the RFC 4122 variant bits set to `10`.
#[verifier::external_body]
fn new_uuid_v4() -> (r: u128)
    ensures
        is_v4_uuid(r),
{
    uuid::Uuid::new_v4().as_u128()
}

/// A time that `chrono::Utc::now` can give: at or after the Unix epoch,
/// with the nanoseconds within the second.
pub open spec fn is_clock_reading(t: Timestamp) -> bool {
    t.secs >= 0 && t.nanos < 1_000_000_000
}

/// `chrono::Utc::now`: the current time, read from `SystemTime::now` as a
/// duration since the Unix epoch, so its seconds are not negative and its
/// nanoseconds are those of a `Duration`, below one second. Which time it
/// is, is not claimed. chrono panics when the system clock is set before
/// 1970.
#[verifier::external_body]
fn utc_now() -> (r: Timestamp)
    ensures
        is_clock_reading(r),
{
    let now = chrono::Utc::now();
    Timestamp { secs: now.timestamp(), nanos: now.timestamp_subsec_nanos() }
}

/// A version 4 UUID, as a big-endian `u128`: version nibble 4, RFC 4122
/// variant bits `10`.
pub open spec fn is_v4_uuid(id: u128) -> bool {
    &&& (id as nat / 75557863725914323419136) % 16 == 4
    &&& (id as nat / 4611686018427387904) % 4 == 2
}

/// A fresh random identifier for a vault or a file: a version 4 UUID.
pub fn new_id() -> (r: u128)
    ensures
        is_v4_uuid(r),
{
    new_uuid_v4()
}

/// The current time, as the system clock gives it: seconds since the Unix
/// epoch and the nanoseconds within that second.
pub fn now() -> (r: Timestamp)
    ensures
        is_clock_reading(r),
{
    utc_now()
}

/// The fields that identify a vault and hold its content, as opposed to
/// its password wrapping and its two-factor settings.
pub open spec fn same_identity(a: VaultMetadata, b: VaultMetadata) -> bool {
    &&& a.id == b.id
    &&& a.name == b.name
    &&& a.created_at == b.created_at
    &&& a.content_encrypted == b.content_encrypted
}

/// Same password wrapping: salt, Argon2 parameters and wrapped DEK.
pub open spec fn same_wrapping(a: VaultMetadata, b: VaultMetadata) -> bool {
    &&& a.salt == b.salt
    &&& a.argon2_params == b.argon2_params
    &&& a.dek_encrypted == b.dek_encrypted
}

/// Same two-factor state and integrity tag.
pub open spec fn same_security(a: VaultMetadata, b: VaultMetadata) -> bool {
    &&& a.totp_enabled == b.totp_enabled
    &&& a.totp_secret_encrypted == b.totp_secret_encrypted
    &&& a.recovery_codes == b.recovery_codes
    &&& a.integrity_tag == b.integrity_tag
}

/// The metadata of a newly created vault named `name`, protected by
/// `password` and holding `dek`.
pub open spec fn fresh_vault(m: VaultMetadata, name: Seq<char>, password: Seq<char>, dek: Seq<u8>) -> bool {
    &&& m.name@ == name
    &&& m.salt@.len() == crypto::SALT_LEN
    &&& m.argon2_params.memory_kib == 65536
    &&& m.argon2_params.iterations == 3
    &&& m.argon2_params.parallelism == 4
    &&& !m.totp_enabled
    &&& m.totp_secret_encrypted is None
    &&& m.recovery_codes@.len() == 0
    &&& seals_content(dek, m.content_encrypted@, empty_content())
    &&& dek.len() == KEY_LEN
    &&& kdf_accepts(m, password)
    &&& sealed_under(master_key(m, password), m.dek_encrypted@, dek)
    &&& integrity_holds(m, dek)
}

/// Generates a new vault's salt and a random DEK wrapped by the
/// password-derived key, and seals its integrity tag. Returns the metadata
/// and the DEK. Fails only when Argon2id refuses the password (more than
/// 2^32-1 bytes of UTF-8).
pub fn create_vault(name: &str, password: &str) -> (r: AppResult<(VaultMetadata, VaultKey)>)
    ensures
        r matches Ok((m, k)) ==> fresh_vault(m, name@, password@, k.0@) && is_v4_uuid(m.id)
            && is_clock_reading(m.created_at),
        r is Ok <==> encode_utf8(password@).len() <= 0xFFFF_FFFF,
        r matches Err(e) ==> e is Crypto,
{
    let salt = crypto::random_salt();
    let params = Argon2Params::default();
    let master = crypto::derive_key(password, &salt, &params)?;
    let dek = crypto::random_dek();
    let dek_encrypted = crypto::encrypt(&master, &dek.0)?;
    let empty = VaultContent { files: Vec::new(), folders: Vec::new() };
    proof {
        assert(empty@ =~= empty_content());
        empty_content_len();
    }
    let content_encrypted = seal_content(&empty, &dek)?;
    let mut salt_vec: Vec<u8> = Vec::new();
    append_bytes(&mut salt_vec, &salt);
    let mut metadata = VaultMetadata {
        id: new_uuid_v4(),
        name: name.to_string(),
        salt: salt_vec,
        argon2_params: params,
        dek_encrypted,
        totp_enabled: false,
        totp_secret_encrypted: None,
        recovery_codes: Vec::new(),
        integrity_tag: Vec::new(),
        created_at: utc_now(),
        content_encrypted,
    };
    seal_integrity(&mut metadata, &dek);
    Ok((metadata, dek))
}

/// Rotates the master password: unlocks with `old_password`, then re-wraps
/// the same DEK under a key derived from `new_password` with a new salt.
/// Files, which are encrypted with the DEK, are never touched.
pub fn change_master_password(
    metadata: &mut VaultMetadata,
    old_password: &str,
    new_password: &str,
) -> (r: AppResult<()>)
    ensures
        r is Ok ==> exists|dek: Seq<u8>|
            vault_opens_with(*old(metadata), old_password@, dek) && #[trigger] sealed_under(
                master_key(*final(metadata), new_password@),
                final(metadata).dek_encrypted@,
                dek,
            ) && kdf_accepts(*final(metadata), new_password@),
        r is Ok ==> final(metadata).salt@.len() == crypto::SALT_LEN,
        r is Ok ==> final(metadata).argon2_params == old(metadata).argon2_params,
        same_identity(*final(metadata), *old(metadata)),
        same_security(*final(metadata), *old(metadata)),
        r is Err ==> *final(metadata) == *old(metadata),
        forall|dek: Seq<u8>|
            vault_opens_with(*old(metadata), old_password@, dek) && #[trigger] kdf_accepts(
                *old(metadata),
                new_password@,
            ) ==> r is Ok,
        (forall|dek: Seq<u8>| !#[trigger] vault_opens_with(*old(metadata), old_password@, dek))
            ==> (r matches Err(e) && unlock_refusal(*old(metadata), old_password@, e)),
        (exists|dek: Seq<u8>| #[trigger] vault_opens_with(*old(metadata), old_password@, dek))
            && r is Err ==> (r matches Err(AppError::Crypto(_)) && !kdf_accepts(
            *old(metadata),
            new_password@,
        )),
{
    let dek = unlock(metadata, old_password)?;
    let new_salt = crypto::random_salt();
    let new_master = crypto::derive_key(new_password, &new_salt, &metadata.argon2_params)?;
    let wrapped = crypto::encrypt(&new_master, &dek.0)?;
    let mut salt_vec: Vec<u8> = Vec::new();
    append_bytes(&mut salt_vec, &new_salt);
    metadata.salt = salt_vec;
    metadata.dek_encrypted = wrapped;
    assert(sealed_under(master_key(*metadata, new_password@), metadata.dek_encrypted@, dek.0@));
    Ok(())
}


// ---------------------------------------------------------------------------
// Two-factor authentication and recovery codes.
// ---------------------------------------------------------------------------

/// How many recovery codes 2FA comes with.
pub const RECOVERY_CODE_COUNT: usize = 10;

/// `stored` holds, in order, the unused hashes of `codes`.
pub open spec fn stores_codes(stored: Seq<RecoveryCode>, codes: Seq<String>) -> bool {
    &&& stored.len() == codes.len()
    &&& forall|i: int|
        0 <= i < codes.len() ==> (#[trigger] stored[i]).hash@ == recovery_code_hash(codes[i]@)
            && !stored[i].used
}

/// A fresh batch of recovery codes.
pub open spec fn fresh_codes(codes: Seq<String>) -> bool {
    &&& codes.len() == RECOVERY_CODE_COUNT
    &&& forall|i: int| 0 <= i < codes.len() ==> is_recovery_code(#[trigger] codes[i]@)
}

/// Ten freshly generated recovery codes.
pub fn new_recovery_codes() -> (r: Vec<String>)
    ensures
        fresh_codes(r@),
{
    let mut codes: Vec<String> = Vec::new();
    let mut i: usize = 0;
    while i < RECOVERY_CODE_COUNT
        invariant
            i <= RECOVERY_CODE_COUNT,
            codes@.len() == i,
            forall|j: int| 0 <= j < codes@.len() ==> is_recovery_code(#[trigger] codes@[j]@),
        decreases RECOVERY_CODE_COUNT - i,
    {
        codes.push(crypto::generate_recovery_code());
        i = i + 1;
    }
    codes
}

/// The stored form of a batch of codes: their hashes, none used.
fn hash_codes(codes: &Vec<String>) -> (r: Vec<RecoveryCode>)
    ensures
        stores_codes(r@, codes@),
{
    let mut out: Vec<RecoveryCode> = Vec::new();
    let mut i: usize = 0;
    while i < codes.len()
        invariant
            i <= codes@.len(),
            out@.len() == i,
            forall|j: int|
                0 <= j < i ==> (#[trigger] out@[j]).hash@ == recovery_code_hash(codes@[j]@)
                    && !out@[j].used,
        decreases codes@.len() - i,
    {
        out.push(RecoveryCode { hash: crypto::hash_recovery_code(codes[i].as_str()), used: false });
        i = i + 1;
    }
    out
}

/// Enables 2FA and (re)generates its recovery codes in one step, since a
/// TOTP secret without a recovery path is a lockout waiting to happen. The
/// secret is stored encrypted under the DEK. Returns the plaintext codes,
/// shown to the user exactly once.
pub fn enable_totp(metadata: &mut VaultMetadata, dek: &VaultKey, secret_base32: &str) -> (r:
    AppResult<Vec<String>>)
    ensures
        r matches Ok(codes) ==> fresh_codes(codes@) && stores_codes(
            final(metadata).recovery_codes@,
            codes@,
        ),
        r is Ok ==> final(metadata).totp_enabled,
        r is Ok ==> (final(metadata).totp_secret_encrypted matches Some(v) && sealed_under(
            dek.0@,
            v@,
            encode_utf8(secret_base32@),
        )),
        r is Ok ==> integrity_holds(*final(metadata), dek.0@),
        r is Ok <==> encode_utf8(secret_base32@).len() <= AES_GCM_MAX_PLAINTEXT,
        r is Err ==> *final(metadata) == *old(metadata),
        same_identity(*final(metadata), *old(metadata)),
        same_wrapping(*final(metadata), *old(metadata)),
{
    let encrypted_secret = crypto::encrypt(dek, secret_base32.as_bytes())?;
    metadata.totp_enabled = true;
    metadata.totp_secret_encrypted = Some(encrypted_secret);
    let codes = new_recovery_codes();
    metadata.recovery_codes = hash_codes(&codes);
    seal_integrity(metadata, dek);
    Ok(codes)
}

/// Turns 2FA off: no secret, no recovery codes, tag resealed.
pub fn disable_totp(metadata: &mut VaultMetadata, dek: &VaultKey)
    ensures
        !final(metadata).totp_enabled,
        final(metadata).totp_secret_encrypted is None,
        final(metadata).recovery_codes@.len() == 0,
        integrity_holds(*final(metadata), dek.0@),
        same_identity(*final(metadata), *old(metadata)),
        same_wrapping(*final(metadata), *old(metadata)),
{
    metadata.totp_enabled = false;
    metadata.totp_secret_encrypted = None;
    metadata.recovery_codes = Vec::new();
    seal_integrity(metadata, dek);
}

/// Replaces every recovery code with a fresh set. Refused when 2FA is off.
pub fn regenerate_recovery_codes(metadata: &mut VaultMetadata, dek: &VaultKey) -> (r: AppResult<
    Vec<String>,
>)
    ensures
        r is Err <==> !old(metadata).totp_enabled,
        r is Err ==> (r matches Err(AppError::TotpNotEnabled) && *final(metadata) == *old(metadata)),
        r matches Ok(codes) ==> fresh_codes(codes@) && stores_codes(
            final(metadata).recovery_codes@,
            codes@,
        ) && integrity_holds(*final(metadata), dek.0@),
        final(metadata).totp_enabled == old(metadata).totp_enabled,
        final(metadata).totp_secret_encrypted == old(metadata).totp_secret_encrypted,
        same_identity(*final(metadata), *old(metadata)),
        same_wrapping(*final(metadata), *old(metadata)),
{
    if !metadata.totp_enabled {
        return Err(AppError::TotpNotEnabled);
    }
    let codes = new_recovery_codes();
    metadata.recovery_codes = hash_codes(&codes);
    seal_integrity(metadata, dek);
    Ok(codes)
}

/// A stored code that `hash` may still redeem.
pub open spec fn redeemable(c: RecoveryCode, hash: Seq<u8>) -> bool {
    !c.used && c.hash@ == hash
}

/// `i` is the first stored code that `hash` may redeem.
pub open spec fn first_redeemable(codes: Seq<RecoveryCode>, hash: Seq<u8>, i: int) -> bool {
    &&& 0 <= i < codes.len()
    &&& redeemable(codes[i], hash)
    &&& forall|j: int| 0 <= j < i ==> !redeemable(#[trigger] codes[j], hash)
}

/// `after` is `before` with its `i`-th code marked used.
pub open spec fn marked_used(before: Seq<RecoveryCode>, after: Seq<RecoveryCode>, i: int) -> bool {
    &&& after.len() == before.len()
    &&& after[i].hash == before[i].hash
    &&& after[i].used
    &&& forall|j: int| 0 <= j < before.len() && j != i ==> #[trigger] after[j] == before[j]
}

/// Verifies a recovery code and, if it is valid and unused, consumes it
/// (single use). The integrity tag is checked first, so a code injected
/// into `vault.json` outside the app is never accepted.
pub fn consume_recovery_code(metadata: &mut VaultMetadata, dek: &VaultKey, code: &str) -> (r:
    AppResult<()>)
    ensures
        !integrity_holds(*old(metadata), dek.0@) ==> r matches Err(AppError::VaultTampered),
        integrity_holds(*old(metadata), dek.0@) && r is Err ==> (r matches Err(
            AppError::InvalidRecoveryCode,
        ) && forall|j: int|
            0 <= j < old(metadata).recovery_codes@.len() ==> !redeemable(
                #[trigger] old(metadata).recovery_codes@[j],
                recovery_code_hash(code@),
            )),
        r is Ok ==> integrity_holds(*old(metadata), dek.0@) && exists|i: int|
            first_redeemable(old(metadata).recovery_codes@, recovery_code_hash(code@), i)
                && #[trigger] marked_used(
                old(metadata).recovery_codes@,
                final(metadata).recovery_codes@,
                i,
            ),
        r is Ok ==> integrity_holds(*final(metadata), dek.0@),
        r is Err ==> *final(metadata) == *old(metadata),
        final(metadata).totp_enabled == old(metadata).totp_enabled,
        final(metadata).totp_secret_encrypted == old(metadata).totp_secret_encrypted,
        same_identity(*final(metadata), *old(metadata)),
        same_wrapping(*final(metadata), *old(metadata)),
{
    verify_integrity(metadata, dek)?;
    let hash = crypto::hash_recovery_code(code);
    let i = match find_redeemable(&metadata.recovery_codes, hash.as_slice()) {
        Some(i) => i,
        None => {
            return Err(AppError::InvalidRecoveryCode);
        },
    };
    let ghost before = metadata.recovery_codes@;
    let mut entry = metadata.recovery_codes.remove(i);
    entry.used = true;
    metadata.recovery_codes.insert(i, entry);
    assert(marked_used(before, metadata.recovery_codes@, i as int));
    seal_integrity(metadata, dek);
    Ok(())
}

/// The first stored code that `hash` may redeem, if any.
fn find_redeemable(codes: &Vec<RecoveryCode>, hash: &[u8]) -> (r: Option<usize>)
    ensures
        r matches Some(i) ==> first_redeemable(codes@, hash@, i as int),
        r is None ==> forall|j: int| 0 <= j < codes@.len() ==> !redeemable(#[trigger] codes@[j], hash@),
{
    let mut i: usize = 0;
    while i < codes.len()
        invariant
            i <= codes@.len(),
            forall|j: int| 0 <= j < i ==> !redeemable(#[trigger] codes@[j], hash@),
        decreases codes@.len() - i,
    {
        if !codes[i].used && bytes_equal(codes[i].hash.as_slice(), hash) {
            return Some(i);
        }
        i = i + 1;
    }
    None
}

/// Byte-wise equality of two slices.
fn bytes_equal(a: &[u8], b: &[u8]) -> (r: bool)
    ensures
        r == (a@ == b@),
{
    if a.len() != b.len() {
        return false;
    }
    let mut i: usize = 0;
    while i < a.len()
        invariant
            i <= a@.len(),
            a@.len() == b@.len(),
            forall|j: int| 0 <= j < i ==> a@[j] == b@[j],
        decreases a@.len() - i,
    {
        if a[i] != b[i] {
            return false;
        }
        i = i + 1;
    }
    assert(a@ =~= b@);
    true
}

/// Decrypts the TOTP secret with the DEK.
pub fn decrypt_totp_secret(metadata: &VaultMetadata, dek: &VaultKey) -> (r: AppResult<String>)
    ensures
        metadata.totp_secret_encrypted is None ==> r matches Err(AppError::TotpNotEnabled),
        r matches Ok(s) ==> metadata.totp_secret_encrypted matches Some(v) && unwraps_to(
            dek.0@,
            v@,
            encode_utf8(s@),
        ) && v@.len() == NONCE_LEN + encode_utf8(s@).len() + crypto::TAG_LEN,
        forall|secret: Seq<char>|
            #![trigger encode_utf8(secret)]
            metadata.totp_secret_encrypted matches Some(v) && opens_to(
                dek.0@,
                v@,
                encode_utf8(secret),
            ) ==> r is Ok && r->Ok_0@ == secret,
        r is Err ==> (r matches Err(AppError::TotpNotEnabled) || r matches Err(
            AppError::WrongPassword,
        ) || r matches Err(AppError::Crypto(_))),
{
    broadcast use vstd::utf8::group_utf8_lib;

    let encrypted = match &metadata.totp_secret_encrypted {
        Some(v) => v,
        None => {
            return Err(AppError::TotpNotEnabled);
        },
    };
    let bytes = crypto::decrypt(dek, encrypted.as_slice())?;
    let ghost b = bytes@;
    match crate::text::string_from_utf8(bytes) {
        Ok(s) => {
            assert(encode_utf8(s@) == b);
            Ok(s)
        },
        Err(m) => Err(AppError::Crypto(m)),
    }
}


// ---------------------------------------------------------------------------
// The file list.
// ---------------------------------------------------------------------------

/// Everything of `a` but its encrypted contents is as in `b`.
pub open spec fn same_but_content(a: VaultMetadata, b: VaultMetadata) -> bool {
    &&& a.id == b.id
    &&& a.name == b.name
    &&& a.salt == b.salt
    &&& a.argon2_params == b.argon2_params
    &&& a.dek_encrypted == b.dek_encrypted
    &&& a.totp_enabled == b.totp_enabled
    &&& a.totp_secret_encrypted == b.totp_secret_encrypted
    &&& a.recovery_codes == b.recovery_codes
    &&& a.integrity_tag == b.integrity_tag
    &&& a.created_at == b.created_at
}

/// A new entry for a file about to be added: fresh identifier, current
/// time, shown in the folder `parent_id` (the root for `None`). The
/// encrypted blob is written under this identifier.
pub fn new_file_entry(name: String, size: u64, parent_id: Option<u128>) -> (r: FileEntry)
    ensures
        r.name == name,
        r.size == size,
        r.parent_id == parent_id,
        is_v4_uuid(r.id),
        is_clock_reading(r.added_at),
{
    FileEntry { id: new_uuid_v4(), name, size, added_at: utc_now(), parent_id }
}

/// The vault's files, read from its encrypted contents.
pub fn list_files(metadata: &VaultMetadata, dek: &VaultKey) -> (r: AppResult<Vec<FileEntry>>)
    ensures
        r matches Ok(v) ==> exists|c: ContentInfo|
            #[trigger] holds_content(dek.0@, metadata.content_encrypted@, c) && file_infos(v@)
                == c.files,
        forall|c: ContentInfo| #[trigger]
            seals_content(dek.0@, metadata.content_encrypted@, c) ==> r is Ok && file_infos(
                r->Ok_0@,
            ) == c.files,
        r matches Err(e) ==> (e is WrongPassword || e is Crypto),
{
    let content = open_content(metadata.content_encrypted.as_slice(), dek)?;
    Ok(content.files)
}

/// Seals `content` as the vault's new contents.
fn store_content(metadata: &mut VaultMetadata, dek: &VaultKey, content: &VaultContent) -> (r:
    AppResult<()>)
    ensures
        r is Ok <==> content_bytes(content@).len() <= AES_GCM_MAX_PLAINTEXT,
        r is Ok ==> seals_content(dek.0@, final(metadata).content_encrypted@, content@),
        r is Err ==> *final(metadata) == *old(metadata),
        r matches Err(e) ==> e is Crypto,
        same_but_content(*final(metadata), *old(metadata)),
{
    let blob = seal_content(content, dek)?;
    metadata.content_encrypted = blob;
    Ok(())
}

/// Records an added file after the vault's other files, re-encrypting
/// the contents under the DEK.
pub fn add_file(metadata: &mut VaultMetadata, dek: &VaultKey, entry: FileEntry) -> (r: AppResult<()>)
    ensures
        r is Ok ==> exists|c: ContentInfo|
            #[trigger] holds_content(dek.0@, old(metadata).content_encrypted@, c) && seals_content(
                dek.0@,
                final(metadata).content_encrypted@,
                with_file(c, entry@),
            ),
        forall|c: ContentInfo| #[trigger]
            seals_content(dek.0@, old(metadata).content_encrypted@, c) ==> (r is Ok <==> content_bytes(
                with_file(c, entry@),
            ).len() <= AES_GCM_MAX_PLAINTEXT),
        r is Err ==> *final(metadata) == *old(metadata),
        r matches Err(e) ==> (e is WrongPassword || e is Crypto),
        same_but_content(*final(metadata), *old(metadata)),
{
    let mut content = open_content(metadata.content_encrypted.as_slice(), dek)?;
    let ghost before = content@;
    push_file(&mut content, entry);
    store_content(metadata, dek, &content)
}

/// Shows a file under another name; its identifier, size, date and
/// folder stay. Refused when the vault holds no such file.
pub fn rename_file(metadata: &mut VaultMetadata, dek: &VaultKey, file_id: u128, new_name: &str) -> (r:
    AppResult<()>)
    ensures
        r is Ok ==> exists|c: ContentInfo, i: int|
            #![trigger holds_content(dek.0@, old(metadata).content_encrypted@, c), first_file_with_id(c.files, file_id, i)]
            holds_content(dek.0@, old(metadata).content_encrypted@, c) && first_file_with_id(
                c.files,
                file_id,
                i,
            ) && seals_content(
                dek.0@,
                final(metadata).content_encrypted@,
                with_file_renamed(c, i, new_name@),
            ),
        r matches Err(AppError::FileNotFound) ==> exists|c: ContentInfo|
            #[trigger] holds_content(dek.0@, old(metadata).content_encrypted@, c) && !has_file(
                c.files,
                file_id,
            ),
        forall|c: ContentInfo| #[trigger]
            seals_content(dek.0@, old(metadata).content_encrypted@, c) && !has_file(c.files, file_id)
                ==> r matches Err(AppError::FileNotFound),
        forall|c: ContentInfo, i: int|
            #![trigger seals_content(dek.0@, old(metadata).content_encrypted@, c), first_file_with_id(c.files, file_id, i)]
            seals_content(dek.0@, old(metadata).content_encrypted@, c) && first_file_with_id(
                c.files,
                file_id,
                i,
            ) ==> (r is Ok <==> content_bytes(with_file_renamed(c, i, new_name@)).len()
                <= AES_GCM_MAX_PLAINTEXT),
        r is Err ==> *final(metadata) == *old(metadata),
        r matches Err(e) ==> (e is WrongPassword || e is Crypto || e is FileNotFound),
        same_but_content(*final(metadata), *old(metadata)),
{
    let mut content = open_content(metadata.content_encrypted.as_slice(), dek)?;
    let ghost before = content@;
    rename_entry(&mut content, file_id, new_name)?;
    let ghost i = choose|i: int|
        first_file_with_id(before.files, file_id, i) && content@ == with_file_renamed(
            before,
            i,
            new_name@,
        );
    proof {
        assert forall|j: int| first_file_with_id(before.files, file_id, j) implies j == i by {
            if j < i {
                assert(before.files[j].id != file_id);
            } else if i < j {
                assert(before.files[i].id != file_id);
            }
        }
    }
    store_content(metadata, dek, &content)
}

/// Removes a file from the vault's contents; refused when the vault holds
/// no such file.
pub fn remove_file(metadata: &mut VaultMetadata, dek: &VaultKey, file_id: u128) -> (r: AppResult<()>)
    ensures
        r is Ok ==> exists|c: ContentInfo|
            #[trigger] holds_content(dek.0@, old(metadata).content_encrypted@, c) && has_file(
                c.files,
                file_id,
            ) && seals_content(
                dek.0@,
                final(metadata).content_encrypted@,
                without_file(c, file_id),
            ),
        r matches Err(AppError::FileNotFound) ==> exists|c: ContentInfo|
            #[trigger] holds_content(dek.0@, old(metadata).content_encrypted@, c) && !has_file(
                c.files,
                file_id,
            ),
        forall|c: ContentInfo| #[trigger]
            seals_content(dek.0@, old(metadata).content_encrypted@, c) ==> (r is Ok <==> has_file(
                c.files,
                file_id,
            ) && content_bytes(without_file(c, file_id)).len() <= AES_GCM_MAX_PLAINTEXT),
        forall|c: ContentInfo| #[trigger]
            seals_content(dek.0@, old(metadata).content_encrypted@, c) && !has_file(c.files, file_id)
                ==> r matches Err(AppError::FileNotFound),
        r is Err ==> *final(metadata) == *old(metadata),
        r matches Err(e) ==> (e is WrongPassword || e is Crypto || e is FileNotFound),
        same_but_content(*final(metadata), *old(metadata)),
{
    let mut content = open_content(metadata.content_encrypted.as_slice(), dek)?;
    remove_entry(&mut content, file_id)?;
    store_content(metadata, dek, &content)
}

/// The vault's folders, read from its encrypted contents.
pub fn list_folders(metadata: &VaultMetadata, dek: &VaultKey) -> (r: AppResult<Vec<Folder>>)
    ensures
        r matches Ok(v) ==> exists|c: ContentInfo|
            #[trigger] holds_content(dek.0@, metadata.content_encrypted@, c) && folder_infos(v@)
                == c.folders,
        forall|c: ContentInfo| #[trigger]
            seals_content(dek.0@, metadata.content_encrypted@, c) ==> r is Ok && folder_infos(
                r->Ok_0@,
            ) == c.folders,
        r matches Err(e) ==> (e is WrongPassword || e is Crypto),
{
    let content = open_content(metadata.content_encrypted.as_slice(), dek)?;
    Ok(content.folders)
}

/// Creates a folder named `name` inside `parent_id` (the root for `None`),
/// with a fresh identifier, and returns it.
pub fn create_folder(
    metadata: &mut VaultMetadata,
    dek: &VaultKey,
    parent_id: Option<u128>,
    name: &str,
) -> (r: AppResult<Folder>)
    ensures
        r matches Ok(d) ==> d.name@ == name@ && d.parent_id == parent_id && is_v4_uuid(d.id)
            && exists|c: ContentInfo|
            #[trigger] holds_content(dek.0@, old(metadata).content_encrypted@, c) && seals_content(
                dek.0@,
                final(metadata).content_encrypted@,
                with_folder(c, d@),
            ),
        forall|c: ContentInfo| #[trigger]
            seals_content(dek.0@, old(metadata).content_encrypted@, c) ==> (r is Ok <==> content_bytes(
                with_folder(c, FolderInfo { id: 0, name: name@, parent_id }),
            ).len() <= AES_GCM_MAX_PLAINTEXT),
        r is Err ==> *final(metadata) == *old(metadata),
        r matches Err(e) ==> (e is WrongPassword || e is Crypto),
        same_but_content(*final(metadata), *old(metadata)),
{
    let mut content = open_content(metadata.content_encrypted.as_slice(), dek)?;
    let folder = Folder { id: new_uuid_v4(), name: name.to_string(), parent_id };
    let id = folder.id;
    let ghost before = content@;
    proof {
        lemma_with_folder_len(before, folder@, 0);
    }
    push_folder(&mut content, folder);
    store_content(metadata, dek, &content)?;
    Ok(Folder { id, name: name.to_string(), parent_id })
}

/// Shows a folder under another name; its place in the tree stays.
pub fn rename_folder(metadata: &mut VaultMetadata, dek: &VaultKey, folder_id: u128, new_name: &str) -> (r:
    AppResult<()>)
    ensures
        r is Ok ==> exists|c: ContentInfo, i: int|
            #![trigger holds_content(dek.0@, old(metadata).content_encrypted@, c), first_folder_with_id(c.folders, folder_id, i)]
            holds_content(dek.0@, old(metadata).content_encrypted@, c) && first_folder_with_id(
                c.folders,
                folder_id,
                i,
            ) && seals_content(
                dek.0@,
                final(metadata).content_encrypted@,
                with_folder_renamed(c, i, new_name@),
            ),
        forall|c: ContentInfo| #[trigger]
            seals_content(dek.0@, old(metadata).content_encrypted@, c) && !has_folder(c.folders, folder_id)
                ==> r matches Err(AppError::Crypto(_)),
        forall|c: ContentInfo, i: int|
            #![trigger seals_content(dek.0@, old(metadata).content_encrypted@, c), first_folder_with_id(c.folders, folder_id, i)]
            seals_content(dek.0@, old(metadata).content_encrypted@, c) && first_folder_with_id(
                c.folders,
                folder_id,
                i,
            ) ==> (r is Ok <==> content_bytes(with_folder_renamed(c, i, new_name@)).len()
                <= AES_GCM_MAX_PLAINTEXT),
        r is Err ==> *final(metadata) == *old(metadata),
        r matches Err(e) ==> (e is WrongPassword || e is Crypto),
        same_but_content(*final(metadata), *old(metadata)),
{
    let mut content = open_content(metadata.content_encrypted.as_slice(), dek)?;
    let ghost before = content@;
    rename_folder_entry(&mut content, folder_id, new_name)?;
    let ghost i = choose|i: int|
        first_folder_with_id(before.folders, folder_id, i) && content@ == with_folder_renamed(
            before,
            i,
            new_name@,
        );
    proof {
        assert forall|j: int| first_folder_with_id(before.folders, folder_id, j) implies j == i by {
            if j < i {
                assert(before.folders[j].id != folder_id);
            } else if i < j {
                assert(before.folders[i].id != folder_id);
            }
        }
    }
    store_content(metadata, dek, &content)
}

/// Deletes a folder with every subfolder at any depth and every file in
/// any of them, and returns the identifiers of the files dropped, whose
/// encrypted blobs are then to be deleted. Refused when the vault holds no
/// such folder.
pub fn delete_folder(metadata: &mut VaultMetadata, dek: &VaultKey, folder_id: u128) -> (r: AppResult<
    Vec<u128>,
>)
    ensures
        r matches Ok(gone) ==> exists|c: ContentInfo|
            #[trigger] holds_content(dek.0@, old(metadata).content_encrypted@, c) && has_folder(
                c.folders,
                folder_id,
            ) && seals_content(
                dek.0@,
                final(metadata).content_encrypted@,
                without_folder(c, folder_id),
            ) && gone@ == files_inside(c, folder_id),
        forall|c: ContentInfo| #[trigger]
            seals_content(dek.0@, old(metadata).content_encrypted@, c) ==> (r is Ok <==> has_folder(
                c.folders,
                folder_id,
            ) && content_bytes(without_folder(c, folder_id)).len() <= AES_GCM_MAX_PLAINTEXT),
        r is Err ==> *final(metadata) == *old(metadata),
        r matches Err(e) ==> (e is WrongPassword || e is Crypto),
        same_but_content(*final(metadata), *old(metadata)),
{
    let mut content = open_content(metadata.content_encrypted.as_slice(), dek)?;
    let gone = delete_folder_entry(&mut content, folder_id)?;
    store_content(metadata, dek, &content)?;
    Ok(gone)
}

pub(crate) proof fn lemma_filter_cons<A>(s: Seq<A>, p: spec_fn(A) -> bool)
    requires
        s.len() > 0,
    ensures
        s.filter(p) == if p(s[0]) {
            seq![s[0]] + s.drop_first().filter(p)
        } else {
            s.drop_first().filter(p)
        },
    decreases s.len(),
{
    reveal(Seq::filter);
    if s.len() == 1 {
        assert(s.drop_last() =~= Seq::<A>::empty());
        assert(s.drop_first() =~= Seq::<A>::empty());
        assert(Seq::<A>::empty().filter(p) =~= Seq::<A>::empty());
    } else {
        lemma_filter_cons(s.drop_last(), p);
        assert(s.drop_last().drop_first() =~= s.drop_first().drop_last());
        assert(s.drop_first().last() == s.last());
        assert(s.drop_last()[0] == s[0]);
        if p(s[0]) {
            assert((seq![s[0]] + s.drop_first().drop_last().filter(p)).push(s.last()) =~= seq![s[0]]
                + s.drop_first().drop_last().filter(p).push(s.last()));
        }
    }
}


// ---------------------------------------------------------------------------
// The index of known vaults and the vault list.
// ---------------------------------------------------------------------------

pub open spec fn indexes(index: Seq<VaultIndexEntry>, id: u128) -> bool {
    exists|i: int| 0 <= i < index.len() && (#[trigger] index[i]).id == id
}

/// `i` is the first index entry for `id`.
pub open spec fn first_entry(index: Seq<VaultIndexEntry>, id: u128, i: int) -> bool {
    &&& 0 <= i < index.len()
    &&& index[i].id == id
    &&& forall|j: int| 0 <= j < i ==> (#[trigger] index[j]).id != id
}

fn find_entry(index: &[VaultIndexEntry], vault_id: u128) -> (r: Option<usize>)
    ensures
        r matches Some(i) ==> first_entry(index@, vault_id, i as int),
        r is None <==> !indexes(index@, vault_id),
{
    let mut i: usize = 0;
    while i < index.len()
        invariant
            i <= index@.len(),
            forall|j: int| 0 <= j < i ==> (#[trigger] index@[j]).id != vault_id,
        decreases index@.len() - i,
    {
        if index[i].id == vault_id {
            return Some(i);
        }
        i = i + 1;
    }
    None
}

/// Where the index says the vault lives.
pub fn find_vault_path(index: &[VaultIndexEntry], vault_id: u128) -> (r: AppResult<String>)
    ensures
        r is Err <==> !indexes(index@, vault_id),
        r is Err ==> r matches Err(AppError::VaultNotFound),
        r matches Ok(p) ==> exists|i: int|
            first_entry(index@, vault_id, i) && p@ == (#[trigger] index@[i]).path@,
{
    match find_entry(index, vault_id) {
        Some(i) => Ok(index[i].path.clone()),
        None => Err(AppError::VaultNotFound),
    }
}

/// Refuses a vault whose identifier the index already knows (importing a
/// backup twice would otherwise leave two entries for one vault).
pub fn ensure_not_indexed(index: &[VaultIndexEntry], vault_id: u128) -> (r: AppResult<()>)
    ensures
        r is Err <==> indexes(index@, vault_id),
        r is Err ==> r matches Err(AppError::VaultAlreadyExists),
{
    match find_entry(index, vault_id) {
        Some(_) => Err(AppError::VaultAlreadyExists),
        None => Ok(()),
    }
}

/// Registers a vault at `path` in the index.
pub fn register_vault(index: &mut Vec<VaultIndexEntry>, metadata: &VaultMetadata, path: String)
    ensures
        final(index)@.len() == old(index)@.len() + 1,
        final(index)@.take(old(index)@.len() as int) == old(index)@,
        final(index)@.last().id == metadata.id,
        final(index)@.last().name@ == metadata.name@,
        final(index)@.last().path == path,
{
    index.push(VaultIndexEntry { id: metadata.id, name: metadata.name.clone(), path });
    assert(index@.take(old(index)@.len() as int) =~= old(index)@);
}

/// Drops every index entry of the vault.
pub fn unregister_vault(index: &mut Vec<VaultIndexEntry>, vault_id: u128)
    ensures
        final(index)@ == old(index)@.filter(|e: VaultIndexEntry| e.id != vault_id),
{
    let ghost before = index@;
    let mut rest: Vec<VaultIndexEntry> = Vec::new();
    std::mem::swap(&mut rest, index);
    let mut taken: Vec<VaultIndexEntry> = Vec::new();
    while rest.len() > 0
        invariant
            rest@ == before.take(rest@.len() as int),
            rest@.len() <= before.len(),
            taken@ == before.skip(rest@.len() as int).filter(
                |e: VaultIndexEntry| e.id != vault_id,
            ).reverse(),
        decreases rest@.len(),
    {
        let ghost k = rest@.len();
        let e = rest.pop().unwrap();
        proof {
            let tail = before.skip(k - 1);
            assert(tail.drop_first() =~= before.skip(k as int));
            lemma_filter_cons(tail, |e: VaultIndexEntry| e.id != vault_id);
        }
        if e.id != vault_id {
            taken.push(e);
        }
        assert(rest@ =~= before.take(rest@.len() as int));
        assert(taken@ =~= before.skip(rest@.len() as int).filter(
            |e: VaultIndexEntry| e.id != vault_id,
        ).reverse());
    }
    assert(before.skip(0) =~= before);
    let mut kept: Vec<VaultIndexEntry> = Vec::new();
    while taken.len() > 0
        invariant
            kept@ + taken@.reverse() == before.filter(|e: VaultIndexEntry| e.id != vault_id),
        decreases taken@.len(),
    {
        let ghost t = taken@;
        let e = taken.pop().unwrap();
        proof {
            assert(t.reverse() =~= seq![e] + taken@.reverse());
        }
        kept.push(e);
        assert(kept@ + taken@.reverse() =~= before.filter(|e: VaultIndexEntry| e.id != vault_id));
    }
    assert(taken@.reverse() =~= Seq::<VaultIndexEntry>::empty());
    assert(kept@ =~= before.filter(|e: VaultIndexEntry| e.id != vault_id));
    *index = kept;
}

/// Renames the vault's first index entry, if there is one.
pub fn rename_indexed_vault(index: &mut Vec<VaultIndexEntry>, vault_id: u128, new_name: &str)
    ensures
        !indexes(old(index)@, vault_id) ==> final(index)@ == old(index)@,
        indexes(old(index)@, vault_id) ==> exists|i: int|
            first_entry(old(index)@, vault_id, i) && final(index)@ == old(index)@.update(
                i,
                #[trigger] entry_named(old(index)@[i], final(index)@[i].name),
            ) && final(index)@[i].name@ == new_name@,
{
    match find_entry(index, vault_id) {
        Some(i) => {
            let ghost before = index@;
            let mut entry = index.remove(i);
            entry.name = new_name.to_string();
            index.insert(i, entry);
            assert(index@ =~= before.update(
                i as int,
                entry_named(before[i as int], index@[i as int].name),
            ));
        },
        None => {},
    }
}

pub open spec fn entry_named(e: VaultIndexEntry, name: String) -> VaultIndexEntry {
    VaultIndexEntry { name, ..e }
}

/// Renames a vault. Only the display name changes; the folder on disk
/// and the TOTP secret are unaffected.
pub fn rename_vault(metadata: &mut VaultMetadata, new_name: &str)
    ensures
        final(metadata).name@ == new_name@,
        final(metadata).id == old(metadata).id,
        final(metadata).created_at == old(metadata).created_at,
        final(metadata).content_encrypted == old(metadata).content_encrypted,
        same_wrapping(*final(metadata), *old(metadata)),
        same_security(*final(metadata), *old(metadata)),
{
    metadata.name = new_name.to_string();
}

/// The list entry of a vault whose metadata could be read.
pub open spec fn summary_of(e: VaultIndexEntry, m: VaultMetadata, s: VaultSummary) -> bool {
    &&& s.id == m.id
    &&& s.name == m.name
    &&& s.path == e.path
    &&& s.totp_enabled == m.totp_enabled
    &&& s.created_at == m.created_at
}

/// The entries whose metadata could be read, in index order.
pub open spec fn readable(entries: Seq<(VaultIndexEntry, Option<VaultMetadata>)>) -> Seq<
    (VaultIndexEntry, Option<VaultMetadata>),
> {
    entries.filter(|p: (VaultIndexEntry, Option<VaultMetadata>)| p.1 is Some)
}

/// Summaries of the indexed vaults, in index order. A vault whose folder
/// was moved or deleted outside the app (its metadata could not be read)
/// is skipped rather than failing the whole list.
pub fn list_vaults(entries: Vec<(VaultIndexEntry, Option<VaultMetadata>)>) -> (r: Vec<VaultSummary>)
    ensures
        r@.len() == readable(entries@).len(),
        forall|i: int|
            0 <= i < r@.len() ==> summary_of(
                readable(entries@)[i].0,
                readable(entries@)[i].1->Some_0,
                #[trigger] r@[i],
            ),
{
    let ghost all = entries@;
    let mut rest = entries;
    let mut taken: Vec<VaultSummary> = Vec::new();
    while rest.len() > 0
        invariant
            rest@ == all.take(rest@.len() as int),
            rest@.len() <= all.len(),
            taken@.len() == readable(all.skip(rest@.len() as int)).len(),
            forall|i: int|
                0 <= i < taken@.len() ==> summary_of(
                    readable(all.skip(rest@.len() as int))[taken@.len() - 1 - i].0,
                    readable(all.skip(rest@.len() as int))[taken@.len() - 1 - i].1->Some_0,
                    #[trigger] taken@[i],
                ),
        decreases rest@.len(),
    {
        let ghost k = rest@.len();
        let ghost prev = taken@;
        let (entry, metadata) = rest.pop().unwrap();
        let ghost tail = all.skip(k - 1);
        proof {
            assert(tail.drop_first() =~= all.skip(k as int));
            assert(tail[0] == (entry, metadata));
            lemma_filter_cons(tail, |p: (VaultIndexEntry, Option<VaultMetadata>)| p.1 is Some);
        }
        match metadata {
            Some(m) => {
                taken.push(VaultSummary {
                    id: m.id,
                    name: m.name,
                    path: entry.path,
                    totp_enabled: m.totp_enabled,
                    created_at: m.created_at,
                });
            },
            None => {},
        }
        assert(rest@ =~= all.take(rest@.len() as int));
    }
    assert(all.skip(0) =~= all);
    let ghost want = readable(all);
    let mut out: Vec<VaultSummary> = Vec::new();
    while taken.len() > 0
        invariant
            out@.len() + taken@.len() == want.len(),
            forall|i: int|
                0 <= i < taken@.len() ==> summary_of(
                    want[want.len() - 1 - i].0,
                    want[want.len() - 1 - i].1->Some_0,
                    #[trigger] taken@[i],
                ),
            forall|i: int|
                0 <= i < out@.len() ==> summary_of(
                    want[i].0,
                    want[i].1->Some_0,
                    #[trigger] out@[i],
                ),
        decreases taken@.len(),
    {
        let s = taken.pop().unwrap();
        out.push(s);
    }
    out
}

/// Replaces the characters Windows forbids in a folder name with `_`.
pub open spec fn folder_safe(c: char) -> char {
    if c == '/' || c == '\\' || c == ':' || c == '*' || c == '?' || c == '"' || c == '<' || c
        == '>' || c == '|' {
        '_'
    } else {
        c
    }
}

/// The folder name a vault called `name` gets: each character Windows
/// forbids in file names replaced by `_`.
pub fn sanitize_folder_name(name: &str) -> (r: String)
    ensures
        r@ == name@.map_values(|c: char| folder_safe(c)),
{
    let cs = crate::text::chars_of(name);
    let mut out = String::new();
    let mut i: usize = 0;
    while i < cs.len()
        invariant
            i <= cs@.len(),
            cs@ == name@,
            out@ == cs@.take(i as int).map_values(|c: char| folder_safe(c)),
        decreases cs@.len() - i,
    {
        let c = cs[i];
        let safe = if c == '/' || c == '\\' || c == ':' || c == '*' || c == '?' || c == '"' || c
            == '<' || c == '>' || c == '|' {
            '_'
        } else {
            c
        };
        push_char(&mut out, safe);
        i = i + 1;
        assert(out@ =~= cs@.take(i as int).map_values(|c: char| folder_safe(c)));
    }
    assert(cs@.take(cs@.len() as int) =~= cs@);
    out
}


// ---------------------------------------------------------------------------
// Laws.
// ---------------------------------------------------------------------------

/// A vault's folder is named after the vault character for character:
/// each of the nine characters Windows forbids in file names
/// (`/ \ : * ? " < > |`) becomes `_`, and every other character, accented
/// letters included, is kept as it is.
pub proof fn folder_name_keeps_allowed_characters(name: Seq<char>)
    ensures
        name.map_values(|c: char| folder_safe(c)).len() == name.len(),
        forall|i: int|
            0 <= i < name.len() && !(#[trigger] name[i] == '/' || name[i] == '\\' || name[i] == ':'
                || name[i] == '*' || name[i] == '?' || name[i] == '"' || name[i] == '<' || name[i]
                == '>' || name[i] == '|') ==> name.map_values(|c: char| folder_safe(c))[i]
                == name[i],
        forall|i: int|
            0 <= i < name.len() && (#[trigger] name[i] == '/' || name[i] == '\\' || name[i] == ':'
                || name[i] == '*' || name[i] == '?' || name[i] == '"' || name[i] == '<' || name[i]
                == '>' || name[i] == '|') ==> name.map_values(|c: char| folder_safe(c))[i] == '_',
{
}

/// A freshly created vault unlocks with the password it was created with,
/// and unlocking gives back the DEK it was created with.
pub proof fn created_vault_unlocks(m: VaultMetadata, name: Seq<char>, password: Seq<char>, dek: Seq<u8>)
    requires
        fresh_vault(m, name, password, dek),
    ensures
        vault_opens_with(m, password, dek),
{
}

/// The integrity tag covers only the vault id, the 2FA flag, the encrypted
/// TOTP secret and the recovery codes: two metadata values that agree on
/// these and on the tag are both sealed or both not, whatever else
/// (name, file list, password wrapping) differs.
pub proof fn integrity_ignores_unprotected_fields(a: VaultMetadata, b: VaultMetadata, dek: Seq<u8>)
    requires
        a.id == b.id,
        a.totp_enabled == b.totp_enabled,
        a.totp_secret_encrypted == b.totp_secret_encrypted,
        a.recovery_codes == b.recovery_codes,
        a.integrity_tag == b.integrity_tag,
    ensures
        integrity_bytes(a) == integrity_bytes(b),
        integrity_holds(a, dek) == integrity_holds(b, dek),
{
}

/// Changing the master password keeps the DEK: after the change, the new
/// password unlocks the vault and yields the DEK the old password yielded,
/// and the file list is the same, so every file still decrypts.
pub proof fn password_change_keeps_dek(
    before: VaultMetadata,
    after: VaultMetadata,
    old_password: Seq<char>,
    new_password: Seq<char>,
    dek: Seq<u8>,
)
    requires
        vault_opens_with(before, old_password, dek),
        sealed_under(master_key(after, new_password), after.dek_encrypted@, dek),
        kdf_accepts(after, new_password),
        same_identity(after, before),
        same_security(after, before),
    ensures
        vault_opens_with(after, new_password, dek),
        after.content_encrypted == before.content_encrypted,
{
    integrity_ignores_unprotected_fields(after, before, dek);
}

/// What 2FA setup stores is what reading the secret back gives: a secret
/// sealed under the DEK decrypts to the same characters.
pub proof fn totp_secret_reads_back(dek: Seq<u8>, stored: Seq<u8>, secret: Seq<char>)
    requires
        sealed_under(dek, stored, encode_utf8(secret)),
        encode_utf8(secret).len() <= AES_GCM_MAX_PLAINTEXT,
    ensures
        opens_to(dek, stored, encode_utf8(secret)),
{
}

/// A recovery code redeems once: after the only stored code it matches is
/// consumed, nothing stored matches it any more, while every other code
/// keeps whatever state it had.
pub proof fn recovery_code_redeems_once(
    before: Seq<RecoveryCode>,
    after: Seq<RecoveryCode>,
    hash: Seq<u8>,
    i: int,
)
    requires
        first_redeemable(before, hash, i),
        forall|j: int| 0 <= j < before.len() && #[trigger] redeemable(before[j], hash) ==> j == i,
        marked_used(before, after, i),
    ensures
        forall|j: int| 0 <= j < after.len() ==> !#[trigger] redeemable(after[j], hash),
        forall|j: int, other: Seq<u8>|
            0 <= j < after.len() && j != i ==> #[trigger] redeemable(after[j], other) == redeemable(
                before[j],
                other,
            ),
{
    assert forall|j: int| 0 <= j < after.len() implies !#[trigger] redeemable(after[j], hash) by {
        if j != i {
            assert(after[j] == before[j]);
        }
    }
}

pub(crate) proof fn lemma_uuid_text_len(id: u128)
    ensures
        uuid_text(id).len() == 36,
{
    lemma_hex_digits_len(id as nat, 32);
}

/// Once a vault is dropped from the index, looking it up fails.
pub proof fn unregistered_vault_is_not_found(index: Seq<VaultIndexEntry>, vault_id: u128)
    ensures
        !indexes(index.filter(|e: VaultIndexEntry| e.id != vault_id), vault_id),
{
    let kept = index.filter(|e: VaultIndexEntry| e.id != vault_id);
    assert forall|i: int| 0 <= i < kept.len() implies (#[trigger] kept[i]).id != vault_id by {
        index.lemma_filter_pred(|e: VaultIndexEntry| e.id != vault_id, i);
    }
}

/// Once a file is removed, the vault no longer lists it.
pub proof fn removed_file_is_not_listed(c: ContentInfo, file_id: u128)
    ensures
        !has_file(without_file(c, file_id).files, file_id),
{
    let kept = without_file(c, file_id).files;
    assert forall|i: int| 0 <= i < kept.len() implies (#[trigger] kept[i]).id != file_id by {
        c.files.lemma_filter_pred(|f: FileInfo| f.id != file_id, i);
    }
}

} // verus!
