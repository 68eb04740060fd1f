//! Key derivation (Argon2id), authenticated encryption (AES-256-GCM),
//! HMAC-SHA256 integrity tags and single-use recovery codes.

use vstd::prelude::*;
use vstd::utf8::*;

use aes_gcm::aead::{Aead, KeyInit};
use hmac::Mac;
use rand::RngCore;
use sha2::Digest;

use crate::error::{AppError, AppResult};
use crate::text::{
    chars_of, is_unicode_whitespace, is_whitespace, push_char, string_from_chars,
};

verus! {

broadcast use vstd::string::group_string_axioms;

pub const SALT_LEN: usize = 16;

pub const NONCE_LEN: usize = 12;

pub const KEY_LEN: usize = 32;

/// Length of the authentication tag AES-GCM appends to a ciphertext.
pub const TAG_LEN: usize = 16;

/// Longest plaintext AES-GCM accepts (2^36 bytes).
pub const AES_GCM_MAX_PLAINTEXT: u64 = 68719476736;

/// Longest ciphertext, without its tag, that AES-GCM decryption accepts
/// (2^36 + 16 bytes).
pub const AES_GCM_MAX_OPENED: u64 = 68719476752;

/// Argon2id parameters for a given vault. Stored alongside the vault so a
/// future version of the app can change the defaults without breaking
/// existing vaults.
#[derive(Debug, Clone, Copy)]
pub struct Argon2Params {
    pub memory_kib: u32,
    pub iterations: u32,
    pub parallelism: u32,
}

impl Default for Argon2Params {
    /// ~64 MiB / 3 passes: deliberately expensive to slow down offline
    /// brute-force of a stolen vault.
    fn default() -> (p: Self)
        ensures
            p.memory_kib == 65536 && p.iterations == 3 && p.parallelism == 4,
    {
        Argon2Params { memory_kib: 65536, iterations: 3, parallelism: 4 }
    }
}

/// A raw encryption key held only in memory. Never serialized, never written
/// to disk.
#[derive(Clone)]
pub struct VaultKey(pub [u8; KEY_LEN]);

impl VaultKey {
    /// An independent copy of the same key.
    pub fn duplicate(&self) -> (r: VaultKey)
        ensures
            r.0@ == self.0@,
    {
        VaultKey(self.0)
    }
}

// ---------------------------------------------------------------------------
// Names for what the cryptographic primitives compute.
// ---------------------------------------------------------------------------

/// The Argon2id (version 0x13) output of `out_len` bytes for a password,
/// salt, memory cost (KiB), time cost and parallelism.
pub uninterp spec fn argon2id(
    password: Seq<u8>,
    salt: Seq<u8>,
    m_cost: u32,
    t_cost: u32,
    p_cost: u32,
    out_len: nat,
) -> Seq<u8>;

/// AES-256-GCM encryption (no associated data): ciphertext followed by
/// the 16-byte tag.
pub uninterp spec fn aes256gcm_seal(key: Seq<u8>, nonce: Seq<u8>, plaintext: Seq<u8>) -> Seq<u8>;

/// HMAC-SHA256 of `message` under `key`.
pub uninterp spec fn hmac_sha256(key: Seq<u8>, message: Seq<u8>) -> Seq<u8>;

/// SHA-256 digest of `data`.
pub uninterp spec fn sha256(data: Seq<u8>) -> Seq<u8>;

/// The characters `char::to_uppercase` yields for `c`.
pub uninterp spec fn unicode_char_uppercase(c: char) -> Seq<char>;

// ---------------------------------------------------------------------------
// Calls into the cryptographic crates.
// ---------------------------------------------------------------------------

#[verifier::external_type_specification]
#[verifier::external_body]
pub struct ExArgon2Error(argon2::Error);

#[verifier::external_type_specification]
#[verifier::external_body]
pub struct ExAeadError(aes_gcm::Error);

/// `rand::rngs::OsRng::fill_bytes`: fills `buf` from the operating
/// system's random source. Nothing is claimed about the bytes; the call
/// panics only if the operating system cannot provide randomness.
#[verifier::external_body]
pub(crate) fn os_fill_bytes<const N: usize>(buf: &mut [u8; N]) {
    rand::rngs::OsRng.fill_bytes(buf);
}

/// `rand::rngs::OsRng::next_u32`: a random `u32` from the operating system.
#[verifier::external_body]
fn os_next_u32() -> u32 {
    rand::rngs::OsRng.next_u32()
}

/// `argon2::Params::new` followed by `Argon2::hash_password_into` with
/// Argon2id v0x13. The parameters are refused exactly as `Params::new`
/// refuses them (memory below 8 KiB or below 8 KiB per lane, no pass, no
/// lane or more than 2^24-1 lanes) and the inputs as `hash_password_into`
/// refuses them (password longer than 2^32-1 bytes, salt shorter than 8 or
/// longer than 2^32-1 bytes); otherwise `out` receives the derived key.
/// `Params::new` multiplies the lane count by 8 in `u32`, so the lane count
/// is kept below 2^29. The memory the hash allocates (`m_cost` KiB) is not
/// bounded here: an allocation failure aborts the process.
#[verifier::external_body]
fn argon2id_hash_into<const N: usize>(
    m_cost: u32,
    t_cost: u32,
    p_cost: u32,
    password: &[u8],
    salt: &[u8],
    out: &mut [u8; N],
) -> (r: Result<(), argon2::Error>)
    requires
        p_cost <= 0x1FFF_FFFF,
        4 <= N <= 0xFFFF_FFFF,
    ensures
        r is Ok <==> argon2_accepts(password@, salt@, m_cost, t_cost, p_cost),
        r is Ok ==> final(out)@ == argon2id(password@, salt@, m_cost, t_cost, p_cost, N as nat),
{
    let params = argon2::Params::new(m_cost, t_cost, p_cost, Some(N))?;
    let hasher = argon2::Argon2::new(argon2::Algorithm::Argon2id, argon2::Version::V0x13, params);
    hasher.hash_password_into(password, salt, out)
}

/// `Aes256Gcm::encrypt` with no associated data: fails only for plaintexts
/// longer than 2^36 bytes, otherwise returns the ciphertext followed by
/// the 16-byte tag.
#[verifier::external_body]
pub(crate) fn aes256gcm_encrypt(
    key: &[u8; KEY_LEN],
    nonce: &[u8; NONCE_LEN],
    plaintext: &[u8],
) -> (r: Result<Vec<u8>, aes_gcm::Error>)
    ensures
        r is Ok <==> plaintext@.len() <= AES_GCM_MAX_PLAINTEXT,
        r matches Ok(c) ==> c@ == aes256gcm_seal(key@, nonce@, plaintext@),
        r matches Ok(c) ==> c@.len() == plaintext@.len() + TAG_LEN,
{
    let cipher = aes_gcm::Aes256Gcm::new(aes_gcm::Key::<aes_gcm::Aes256Gcm>::from_slice(key));
    cipher.encrypt(aes_gcm::Nonce::from_slice(nonce), plaintext)
}

/// `Aes256Gcm::decrypt` with no associated data. It succeeds on the
/// outputs of encryption under the same key and nonce, and then returns
/// the plaintext that was encrypted; what it returns was encrypted so, and
/// is the ciphertext without its 16-byte tag, at most 2^36 + 16 bytes long.
/// Anything else (a wrong key, a modified ciphertext or tag) fails
/// authentication.
#[verifier::external_body]
pub(crate) fn aes256gcm_decrypt(
    key: &[u8; KEY_LEN],
    nonce: &[u8; NONCE_LEN],
    ciphertext: &[u8],
) -> (r: Result<Vec<u8>, aes_gcm::Error>)
    ensures
        r matches Ok(p) ==> ciphertext@ == aes256gcm_seal(key@, nonce@, p@),
        r matches Ok(p) ==> p@.len() <= AES_GCM_MAX_OPENED && ciphertext@.len() == p@.len()
            + TAG_LEN,
        forall|p: Seq<u8>| #![trigger aes256gcm_seal(key@, nonce@, p)]
            p.len() <= AES_GCM_MAX_PLAINTEXT && ciphertext@ == aes256gcm_seal(key@, nonce@, p)
                ==> r is Ok && r->Ok_0@ == p,
{
    let cipher = aes_gcm::Aes256Gcm::new(aes_gcm::Key::<aes_gcm::Aes256Gcm>::from_slice(key));
    cipher.decrypt(aes_gcm::Nonce::from_slice(nonce), ciphertext)
}

/// `Hmac<Sha256>::new_from_slice`, `update`, `finalize`: the 32-byte
/// HMAC-SHA256 tag. HMAC accepts a key of any length.
#[verifier::external_body]
fn hmac_sha256_tag(key: &[u8], message: &[u8]) -> (r: Vec<u8>)
    ensures
        r@ == hmac_sha256(key@, message@),
        r@.len() == 32,
{
    let mut mac = <hmac::Hmac<sha2::Sha256> as Mac>::new_from_slice(key).unwrap();
    mac.update(message);
    mac.finalize().into_bytes().to_vec()
}

/// `Hmac<Sha256>` with `verify_slice`: true exactly when `tag` is the full
/// HMAC-SHA256 tag of `message` (compared in constant time).
#[verifier::external_body]
fn hmac_sha256_verify(key: &[u8], message: &[u8], tag: &[u8]) -> (r: bool)
    ensures
        r == (tag@ == hmac_sha256(key@, message@)),
{
    let mut mac = <hmac::Hmac<sha2::Sha256> as Mac>::new_from_slice(key).unwrap();
    mac.update(message);
    mac.verify_slice(tag).is_ok()
}

/// `Sha256::digest`: the 32-byte SHA-256 digest.
#[verifier::external_body]
fn sha256_digest(data: &[u8]) -> (r: Vec<u8>)
    ensures
        r@ == sha256(data@),
        r@.len() == 32,
{
    sha2::Sha256::digest(data).to_vec()
}

/// `char::to_uppercase`, collected. A character without an uppercase
/// mapping (digits, punctuation, whitespace) yields itself; an ASCII
/// lowercase letter yields its ASCII capital.
#[verifier::external_body]
fn char_to_uppercase(c: char) -> (r: Vec<char>)
    ensures
        r@ == unicode_char_uppercase(c),
        is_ascii_lower(c) ==> r@ == seq![ascii_upper(c)],
        (is_ascii_char(c) && !is_ascii_lower(c)) || is_unicode_whitespace(c) ==> r@ == seq![c],
{
    c.to_uppercase().collect()
}

// ---------------------------------------------------------------------------
// Specifications.
// ---------------------------------------------------------------------------

/// When Argon2id accepts its parameters and inputs.
pub open spec fn argon2_accepts(password: Seq<u8>, salt: Seq<u8>, m: u32, t: u32, p: u32) -> bool {
    &&& m >= 8
    &&& m >= 8 * p
    &&& t >= 1
    &&& 1 <= p <= 0xFF_FFFF
    &&& password.len() <= 0xFFFF_FFFF
    &&& 8 <= salt.len() <= 0xFFFF_FFFF
}

/// The key derived from a master password: Argon2id over its UTF-8 bytes.
pub open spec fn derived_key(password: Seq<char>, salt: Seq<u8>, params: Argon2Params) -> Seq<u8> {
    argon2id(
        encode_utf8(password),
        salt,
        params.memory_kib,
        params.iterations,
        params.parallelism,
        KEY_LEN as nat,
    )
}

/// `blob` is `nonce || AES-256-GCM(key, nonce, plaintext)`.
pub open spec fn sealed_under(key: Seq<u8>, blob: Seq<u8>, plaintext: Seq<u8>) -> bool {
    &&& blob.len() >= NONCE_LEN
    &&& blob.skip(NONCE_LEN as int) == aes256gcm_seal(key, blob.take(NONCE_LEN as int), plaintext)
}

pub open spec fn is_ascii_char(c: char) -> bool {
    (c as u32) < 128
}

pub open spec fn is_ascii_lower(c: char) -> bool {
    'a' <= c <= 'z'
}

pub open spec fn ascii_upper(c: char) -> char {
    ((c as u32) - 32) as char
}

/// Unicode uppercase of a character sequence, character by character.
pub open spec fn uppercase_all(s: Seq<char>) -> Seq<char>
    decreases s.len(),
{
    if s.len() == 0 {
        Seq::empty()
    } else {
        uppercase_all(s.drop_last()) + unicode_char_uppercase(s.last())
    }
}

/// `s` without its leading whitespace.
pub open spec fn trim_start(s: Seq<char>) -> Seq<char>
    decreases s.len(),
{
    if s.len() > 0 && is_unicode_whitespace(s[0]) {
        trim_start(s.drop_first())
    } else {
        s
    }
}

/// `s` without its trailing whitespace.
pub open spec fn trim_end(s: Seq<char>) -> Seq<char>
    decreases s.len(),
{
    if s.len() > 0 && is_unicode_whitespace(s.last()) {
        trim_end(s.drop_last())
    } else {
        s
    }
}

/// `str::trim`: leading and trailing whitespace removed.
pub open spec fn trim(s: Seq<char>) -> Seq<char> {
    trim_end(trim_start(s))
}

pub open spec fn is_separator(c: char) -> bool {
    is_unicode_whitespace(c) || c == '-'
}

/// A recovery code as it is compared: trimmed, uppercased, and stripped of
/// every whitespace character and dash.
pub open spec fn normalized_code(code: Seq<char>) -> Seq<char> {
    uppercase_all(trim(code)).filter(|c: char| !is_separator(c))
}

/// What is stored of a recovery code: the SHA-256 of its normalized form.
pub open spec fn recovery_code_hash(code: Seq<char>) -> Seq<u8> {
    sha256(encode_utf8(normalized_code(code)))
}

/// Characters a recovery code is made of: no 0/O, 1/I/L or U.
pub open spec fn recovery_alphabet() -> Seq<char> {
    seq![
        'A', 'B', 'C', 'D', 'E', 'F', 'G', 'H', 'J', 'K', 'M', 'N', 'P', 'Q', 'R', 'S', 'T',
        'V', 'W', 'X', 'Y', 'Z', '2', '3', '4', '5', '6', '7', '8', '9',
    ]
}

/// Four groups of four alphabet characters, joined by dashes.
pub open spec fn is_recovery_code(s: Seq<char>) -> bool {
    &&& s.len() == 19
    &&& forall|i: int|
        0 <= i < 19 ==> if i % 5 == 4 {
            s[i] == '-'
        } else {
            recovery_alphabet().contains(#[trigger] s[i])
        }
}

// ---------------------------------------------------------------------------
// Operations.
// ---------------------------------------------------------------------------

pub fn random_salt() -> [u8; SALT_LEN] {
    let mut salt = [0u8; SALT_LEN];
    os_fill_bytes(&mut salt);
    salt
}

pub fn random_nonce() -> [u8; NONCE_LEN] {
    let mut nonce = [0u8; NONCE_LEN];
    os_fill_bytes(&mut nonce);
    nonce
}

/// Generates a fresh random Data Encryption Key (DEK). The DEK is what
/// actually encrypts vault files; it is itself encrypted with the key
/// derived from the master password (envelope encryption).
pub fn random_dek() -> VaultKey {
    let mut key = [0u8; KEY_LEN];
    os_fill_bytes(&mut key);
    VaultKey(key)
}

/// Derives a 256-bit key from the master password using Argon2id.
pub fn derive_key(password: &str, salt: &[u8], params: &Argon2Params) -> (r: AppResult<VaultKey>)
    requires
        params.parallelism <= 0x1FFF_FFFF,
    ensures
        match r {
            Ok(k) => argon2_accepts(
                encode_utf8(password@),
                salt@,
                params.memory_kib,
                params.iterations,
                params.parallelism,
            ) && k.0@ == derived_key(password@, salt@, *params),
            Err(e) => !argon2_accepts(
                encode_utf8(password@),
                salt@,
                params.memory_kib,
                params.iterations,
                params.parallelism,
            ) && e is Crypto,
        },
{
    let mut key = [0u8; KEY_LEN];
    match argon2id_hash_into(
        params.memory_kib,
        params.iterations,
        params.parallelism,
        password.as_bytes(),
        salt,
        &mut key,
    ) {
        Ok(()) => Ok(VaultKey(key)),
        Err(e) => Err(AppError::Crypto(e.to_string())),
    }
}

/// Encrypts `plaintext` with AES-256-GCM under `key`, using a fresh random
/// nonce. Returns `nonce || ciphertext_with_tag`.
pub fn encrypt(key: &VaultKey, plaintext: &[u8]) -> (r: AppResult<Vec<u8>>)
    ensures
        match r {
            Ok(out) => plaintext@.len() <= AES_GCM_MAX_PLAINTEXT && sealed_under(
                key.0@,
                out@,
                plaintext@,
            ) && out@.len() == NONCE_LEN + plaintext@.len() + TAG_LEN,
            Err(e) => plaintext@.len() > AES_GCM_MAX_PLAINTEXT && e is Crypto,
        },
{
    let nonce_bytes = random_nonce();
    match aes256gcm_encrypt(&key.0, &nonce_bytes, plaintext) {
        Ok(ciphertext) => {
            let mut out: Vec<u8> = Vec::new();
            crate::text::append_bytes(&mut out, &nonce_bytes);
            crate::text::append_bytes(&mut out, ciphertext.as_slice());
            assert(out@.take(NONCE_LEN as int) =~= nonce_bytes@);
            assert(out@.skip(NONCE_LEN as int) =~= ciphertext@);
            Ok(out)
        },
        Err(e) => Err(AppError::Crypto(e.to_string())),
    }
}

/// Decrypts data produced by [`encrypt`]: splits off the leading nonce,
/// then verifies and decrypts the AES-GCM payload. Authentication failure
/// (wrong key or modified data) is reported as a wrong password.
pub fn decrypt(key: &VaultKey, data: &[u8]) -> (r: AppResult<Vec<u8>>)
    ensures
        data@.len() < NONCE_LEN ==> r matches Err(AppError::Crypto(_)),
        r matches Ok(p) ==> sealed_under(key.0@, data@, p@) && p@.len() <= AES_GCM_MAX_OPENED
            && data@.len() == NONCE_LEN + p@.len() + TAG_LEN,
        forall|p: Seq<u8>|
            p.len() <= AES_GCM_MAX_PLAINTEXT && #[trigger] sealed_under(key.0@, data@, p) ==> r is Ok
                && r->Ok_0@ == p,
        data@.len() >= NONCE_LEN && r is Err ==> r matches Err(AppError::WrongPassword),
{
    if data.len() < NONCE_LEN {
        return Err(AppError::Crypto("donnees chiffrees invalides".to_string()));
    }
    let (nonce_part, ciphertext) = data.split_at(NONCE_LEN);
    let mut nonce = [0u8; NONCE_LEN];
    let mut i: usize = 0;
    while i < NONCE_LEN
        invariant
            i <= NONCE_LEN,
            nonce_part@.len() == NONCE_LEN,
            forall|j: int| 0 <= j < i ==> nonce@[j] == nonce_part@[j],
        decreases NONCE_LEN - i,
    {
        nonce[i] = nonce_part[i];
        i = i + 1;
    }
    assert(nonce@ =~= data@.take(NONCE_LEN as int));
    assert(ciphertext@ =~= data@.skip(NONCE_LEN as int));
    match aes256gcm_decrypt(&key.0, &nonce, ciphertext) {
        Ok(p) => Ok(p),
        Err(_) => Err(AppError::WrongPassword),
    }
}

/// Computes an HMAC-SHA256 tag over `message`, keyed by `key`. Used to bind
/// security-critical metadata to the vault's DEK.
pub fn compute_mac(key: &VaultKey, message: &[u8]) -> (r: Vec<u8>)
    ensures
        r@ == hmac_sha256(key.0@, message@),
        r@.len() == 32,
{
    hmac_sha256_tag(&key.0, message)
}

/// Verifies a tag produced by [`compute_mac`] in constant time.
pub fn verify_mac(key: &VaultKey, message: &[u8], tag: &[u8]) -> (r: bool)
    ensures
        r == (tag@ == hmac_sha256(key.0@, message@)),
{
    hmac_sha256_verify(&key.0, message, tag)
}

/// The characters recovery codes are drawn from: Crockford-style, without
/// the ambiguous 0/O, 1/I/L and U, so a code read off a printout is never
/// misread.
pub const RECOVERY_CODE_ALPHABET: &'static str = "ABCDEFGHJKMNPQRSTVWXYZ23456789";

pub const RECOVERY_CODE_GROUPS: usize = 4;

pub const RECOVERY_CODE_GROUP_LEN: usize = 4;

/// The alphabet character at position `i` (of 30).
fn recovery_alphabet_char(i: u32) -> (c: char)
    requires
        i < 30,
    ensures
        c == recovery_alphabet()[i as int],
{
    proof {
        reveal_strlit("ABCDEFGHJKMNPQRSTVWXYZ23456789");
        assert(RECOVERY_CODE_ALPHABET@ =~= recovery_alphabet());
    }
    let alphabet: [char; 30] = [
        'A', 'B', 'C', 'D', 'E', 'F', 'G', 'H', 'J', 'K', 'M', 'N', 'P', 'Q', 'R', 'S', 'T',
        'V', 'W', 'X', 'Y', 'Z', '2', '3', '4', '5', '6', '7', '8', '9',
    ];
    assert(alphabet@ =~= recovery_alphabet());
    alphabet[i as usize]
}

/// Generates a single-use TOTP recovery code, e.g. `"XQ2P-7RTK-4MNC-9VWZ"`
/// (~80 bits of entropy): each character is drawn from the operating
/// system's random source.
pub fn generate_recovery_code() -> (r: String)
    ensures
        is_recovery_code(r@),
{
    let mut out = String::new();
    let mut g: usize = 0;
    while g < RECOVERY_CODE_GROUPS
        invariant
            g <= RECOVERY_CODE_GROUPS,
            out@.len() == if g == 0 { 0 } else { 5 * g - 1 },
            forall|i: int|
                0 <= i < out@.len() ==> if i % 5 == 4 {
                    out@[i] == '-'
                } else {
                    recovery_alphabet().contains(#[trigger] out@[i])
                },
        decreases RECOVERY_CODE_GROUPS - g,
    {
        if g > 0 {
            push_char(&mut out, '-');
        }
        let mut k: usize = 0;
        while k < RECOVERY_CODE_GROUP_LEN
            invariant
                g < RECOVERY_CODE_GROUPS,
                k <= RECOVERY_CODE_GROUP_LEN,
                out@.len() == 5 * g + k,
                forall|i: int|
                    0 <= i < out@.len() ==> if i % 5 == 4 {
                        out@[i] == '-'
                    } else {
                        recovery_alphabet().contains(#[trigger] out@[i])
                    },
            decreases RECOVERY_CODE_GROUP_LEN - k,
        {
            let idx = os_next_u32() % 30;
            let c = recovery_alphabet_char(idx);
            assert(recovery_alphabet().contains(c));
            push_char(&mut out, c);
            k = k + 1;
        }
        g = g + 1;
    }
    out
}

/// Index of the first non-whitespace character at or after `from`, or the
/// length when there is none.
proof fn lemma_trim_start_skip(s: Seq<char>, i: int)
    requires
        0 <= i <= s.len(),
        forall|j: int| 0 <= j < i ==> is_unicode_whitespace(#[trigger] s[j]),
    ensures
        trim_start(s) == trim_start(s.skip(i)),
    decreases i,
{
    if i > 0 {
        assert(s.drop_first().skip(i - 1) =~= s.skip(i));
        lemma_trim_start_skip(s.drop_first(), i - 1);
    } else {
        assert(s.skip(0) =~= s);
    }
}

proof fn lemma_trim_end_take(s: Seq<char>, j: int)
    requires
        0 <= j <= s.len(),
        forall|k: int| j <= k < s.len() ==> is_unicode_whitespace(#[trigger] s[k]),
    ensures
        trim_end(s) == trim_end(s.take(j)),
    decreases s.len() - j,
{
    if j < s.len() {
        assert(s.drop_last().take(j) =~= s.take(j));
        lemma_trim_end_take(s.drop_last(), j);
    } else {
        assert(s.take(j) =~= s);
    }
}

/// `str::trim` on a character sequence.
pub fn trim_chars(s: &Vec<char>) -> (r: Vec<char>)
    ensures
        r@ == trim(s@),
{
    let n = s.len();
    let mut start: usize = 0;
    while start < n && is_whitespace(s[start])
        invariant
            start <= n,
            n == s@.len(),
            forall|j: int| 0 <= j < start ==> is_unicode_whitespace(#[trigger] s@[j]),
        decreases n - start,
    {
        start = start + 1;
    }
    proof {
        lemma_trim_start_skip(s@, start as int);
    }
    let mut end: usize = n;
    while end > start && is_whitespace(s[end - 1])
        invariant
            start <= end <= n,
            n == s@.len(),
            forall|k: int| end <= k < n ==> is_unicode_whitespace(#[trigger] s@[k]),
        decreases end,
    {
        end = end - 1;
    }
    let ghost rest = s@.skip(start as int);
    proof {
        if start == n {
            assert(rest.len() == 0);
        } else {
            assert(!is_unicode_whitespace(rest[0]));
        }
        assert(trim_start(rest) == rest);
        assert forall|k: int| end - start <= k < rest.len() implies is_unicode_whitespace(
            #[trigger] rest[k],
        ) by {
            assert(rest[k] == s@[k + start]);
        }
        lemma_trim_end_take(rest, end - start);
        let t = rest.take(end - start);
        if end > start {
            assert(t.last() == s@[end - 1]);
        }
        assert(trim_end(t) == t);
    }
    let mut out: Vec<char> = Vec::new();
    let mut i: usize = start;
    while i < end
        invariant
            start <= i <= end <= n,
            n == s@.len(),
            out@ == s@.subrange(start as int, i as int),
        decreases end - i,
    {
        out.push(s[i]);
        i = i + 1;
        assert(out@ =~= s@.subrange(start as int, i as int));
    }
    assert(out@ =~= rest.take(end - start));
    out
}

proof fn lemma_filter_push(s: Seq<char>, c: char)
    ensures
        (s.push(c)).filter(|x: char| !is_separator(x)) == if !is_separator(c) {
            s.filter(|x: char| !is_separator(x)).push(c)
        } else {
            s.filter(|x: char| !is_separator(x))
        },
{
    let f = |x: char| !is_separator(x);
    assert(s.push(c).drop_last() =~= s);
    reveal(Seq::filter);
}

pub open spec fn is_ascii_text(s: Seq<char>) -> bool {
    forall|i: int| 0 <= i < s.len() ==> is_ascii_char(#[trigger] s[i])
}

/// ASCII uppercase of one character (other characters unchanged).
pub open spec fn ascii_up(c: char) -> char {
    if is_ascii_lower(c) {
        ascii_upper(c)
    } else {
        c
    }
}

/// ASCII lowercase of one character (other characters unchanged).
pub open spec fn ascii_down(c: char) -> char {
    if 'A' <= c <= 'Z' {
        ((c as u32) + 32) as char
    } else {
        c
    }
}

/// The normalized form of an ASCII code: separators dropped, letters
/// uppercased.
pub open spec fn ascii_normalized(s: Seq<char>) -> Seq<char>
    decreases s.len(),
{
    if s.len() == 0 {
        Seq::empty()
    } else if is_separator(s.last()) {
        ascii_normalized(s.drop_last())
    } else {
        ascii_normalized(s.drop_last()).push(ascii_up(s.last()))
    }
}

proof fn lemma_ascii_normalized_concat(a: Seq<char>, b: Seq<char>)
    ensures
        ascii_normalized(a + b) == ascii_normalized(a) + ascii_normalized(b),
    decreases b.len(),
{
    if b.len() == 0 {
        assert(a + b =~= a);
        assert(ascii_normalized(a) + Seq::<char>::empty() =~= ascii_normalized(a));
    } else {
        assert((a + b).drop_last() =~= a + b.drop_last());
        assert((a + b).last() == b.last());
        lemma_ascii_normalized_concat(a, b.drop_last());
        if !is_separator(b.last()) {
            assert((ascii_normalized(a) + ascii_normalized(b.drop_last())).push(ascii_up(b.last()))
                =~= ascii_normalized(a) + ascii_normalized(b.drop_last()).push(ascii_up(b.last())));
        }
    }
}

proof fn lemma_ascii_normalized_all_whitespace(s: Seq<char>)
    requires
        forall|i: int| 0 <= i < s.len() ==> is_unicode_whitespace(#[trigger] s[i]),
    ensures
        ascii_normalized(s) == Seq::<char>::empty(),
    decreases s.len(),
{
    if s.len() > 0 {
        lemma_ascii_normalized_all_whitespace(s.drop_last());
    }
}

/// `trim(s)` is a stretch of `s` with only whitespace around it.
proof fn lemma_trim_split(s: Seq<char>) -> (ab: (int, int))
    ensures
        0 <= ab.0 <= ab.1 <= s.len(),
        trim(s) == s.subrange(ab.0, ab.1),
        forall|i: int| 0 <= i < ab.0 ==> is_unicode_whitespace(#[trigger] s[i]),
        forall|i: int| ab.1 <= i < s.len() ==> is_unicode_whitespace(#[trigger] s[i]),
{
    let a = lemma_trim_start_split(s);
    let rest = s.skip(a);
    let b = lemma_trim_end_split(rest);
    assert(trim(s) == trim_end(rest));
    assert(rest.take(b) =~= s.subrange(a, a + b));
    assert forall|i: int| a + b <= i < s.len() implies is_unicode_whitespace(#[trigger] s[i]) by {
        assert(s[i] == rest[i - a]);
    }
    (a, a + b)
}

proof fn lemma_trim_start_split(s: Seq<char>) -> (a: int)
    ensures
        0 <= a <= s.len(),
        trim_start(s) == s.skip(a),
        forall|i: int| 0 <= i < a ==> is_unicode_whitespace(#[trigger] s[i]),
    decreases s.len(),
{
    if s.len() > 0 && is_unicode_whitespace(s[0]) {
        let a = lemma_trim_start_split(s.drop_first());
        assert(s.drop_first().skip(a) =~= s.skip(a + 1));
        assert forall|i: int| 0 <= i < a + 1 implies is_unicode_whitespace(#[trigger] s[i]) by {
            if i > 0 {
                assert(s[i] == s.drop_first()[i - 1]);
            }
        }
        a + 1
    } else {
        assert(s.skip(0) =~= s);
        0
    }
}

proof fn lemma_trim_end_split(s: Seq<char>) -> (b: int)
    ensures
        0 <= b <= s.len(),
        trim_end(s) == s.take(b),
        forall|i: int| b <= i < s.len() ==> is_unicode_whitespace(#[trigger] s[i]),
    decreases s.len(),
{
    if s.len() > 0 && is_unicode_whitespace(s.last()) {
        let b = lemma_trim_end_split(s.drop_last());
        assert(s.drop_last().take(b) =~= s.take(b));
        assert forall|i: int| b <= i < s.len() implies is_unicode_whitespace(#[trigger] s[i]) by {
            if i < s.len() - 1 {
                assert(s[i] == s.drop_last()[i]);
            }
        }
        b
    } else {
        assert(s.take(s.len() as int) =~= s);
        s.len() as int
    }
}

/// Leading and trailing whitespace never matter to the normalized form.
proof fn lemma_ascii_normalized_trim(s: Seq<char>)
    ensures
        ascii_normalized(trim(s)) == ascii_normalized(s),
        is_ascii_text(s) ==> is_ascii_text(trim(s)),
{
    let (a, b) = lemma_trim_split(s);
    let pre = s.take(a);
    let mid = s.subrange(a, b);
    let post = s.skip(b);
    assert(s =~= pre + mid + post);
    lemma_ascii_normalized_all_whitespace(pre);
    lemma_ascii_normalized_all_whitespace(post);
    lemma_ascii_normalized_concat(pre + mid, post);
    lemma_ascii_normalized_concat(pre, mid);
    assert(Seq::<char>::empty() + ascii_normalized(mid) =~= ascii_normalized(mid));
    assert(ascii_normalized(mid) + Seq::<char>::empty() =~= ascii_normalized(mid));
}

/// Strips formatting so a code can be compared regardless of how the user
/// typed it back in (with/without dashes, lowercase, extra spaces).
pub fn normalize_recovery_code(code: &str) -> (r: String)
    ensures
        r@ == normalized_code(code@),
        is_ascii_text(code@) ==> r@ == ascii_normalized(code@),
{
    let chars = chars_of(code);
    let trimmed = trim_chars(&chars);
    let ghost t = trimmed@;
    proof {
        lemma_ascii_normalized_trim(code@);
    }
    let mut out: Vec<char> = Vec::new();
    let mut i: usize = 0;
    while i < trimmed.len()
        invariant
            i <= t.len(),
            t == trimmed@,
            t == trim(code@),
            is_ascii_text(code@) ==> is_ascii_text(t),
            out@ == uppercase_all(t.take(i as int)).filter(|c: char| !is_separator(c)),
            is_ascii_text(t) ==> out@ == ascii_normalized(t.take(i as int)),
        decreases t.len() - i,
    {
        let up = char_to_uppercase(trimmed[i]);
        let ghost before = uppercase_all(t.take(i as int));
        let ghost out0 = out@;
        let mut k: usize = 0;
        while k < up.len()
            invariant
                k <= up@.len(),
                up@ == unicode_char_uppercase(t[i as int]),
                out@ == (before + up@.take(k as int)).filter(|c: char| !is_separator(c)),
                k == 0 ==> out@ == out0,
                is_ascii_text(t) ==> up@.len() == 1,
                is_ascii_text(t) && k == 1 ==> out@ == if is_separator(up@[0]) {
                    out0
                } else {
                    out0.push(up@[0])
                },
            decreases up@.len() - k,
        {
            let c = up[k];
            proof {
                assert((before + up@.take(k + 1)) =~= (before + up@.take(k as int)).push(c));
                lemma_filter_push(before + up@.take(k as int), c);
            }
            if !is_whitespace(c) && c != '-' {
                out.push(c);
            }
            k = k + 1;
        }
        proof {
            assert(t.take(i + 1).drop_last() =~= t.take(i as int));
            assert(up@.take(up@.len() as int) =~= up@);
            if is_ascii_text(t) {
                let c = t[i as int];
                assert(is_ascii_char(c));
                assert(up@ == seq![ascii_up(c)]);
                assert(is_separator(ascii_up(c)) == is_separator(c));
            }
        }
        i = i + 1;
    }
    assert(t.take(t.len() as int) =~= t);
    string_from_chars(out.as_slice())
}

/// Spaces, tabs and dashes typed anywhere in an ASCII code never change
/// what it normalizes (and hashes) to.
pub proof fn separators_do_not_matter(before: Seq<char>, sep: char, after: Seq<char>)
    requires
        is_separator(sep),
    ensures
        ascii_normalized(before + seq![sep] + after) == ascii_normalized(before + after),
{
    lemma_ascii_normalized_concat(before + seq![sep], after);
    lemma_ascii_normalized_concat(before, seq![sep]);
    lemma_ascii_normalized_concat(before, after);
    assert(seq![sep].drop_last() =~= Seq::<char>::empty());
    assert(seq![sep].last() == sep);
    assert(ascii_normalized(seq![sep]) == ascii_normalized(Seq::<char>::empty()));
    assert(ascii_normalized(before) + Seq::<char>::empty() =~= ascii_normalized(before));
}

/// Letter case never changes what an ASCII code normalizes (and hashes)
/// to: a code typed in lowercase is the same code.
pub proof fn letter_case_does_not_matter(s: Seq<char>)
    ensures
        ascii_normalized(s.map_values(|c: char| ascii_down(c))) == ascii_normalized(s),
    decreases s.len(),
{
    if s.len() > 0 {
        let f = |c: char| ascii_down(c);
        assert(s.map_values(f).drop_last() =~= s.drop_last().map_values(f));
        letter_case_does_not_matter(s.drop_last());
        let c = s.last();
        assert(s.map_values(f).last() == ascii_down(c));
        assert(is_separator(ascii_down(c)) == is_separator(c));
        assert(ascii_up(ascii_down(c)) == ascii_up(c));
    }
}

/// SHA-256 of the normalized code's UTF-8 bytes; only this is stored.
pub fn hash_recovery_code(code: &str) -> (r: Vec<u8>)
    ensures
        r@ == recovery_code_hash(code@),
        r@.len() == 32,
{
    let normalized = normalize_recovery_code(code);
    sha256_digest(normalized.as_str().as_bytes())
}

} // verus!
