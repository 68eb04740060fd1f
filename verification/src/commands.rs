//! What the interface's commands decide before and after touching the
//! disk: the shapes of their answers, the checks on what the user typed,
//! and the inline preview rules.

use vstd::prelude::*;
use vstd::utf8::*;

use crate::crypto::{is_ascii_char, trim};
use crate::error::{AppError, AppResult};
use crate::text::{chars_of, string_from_chars};

verus! {

broadcast use vstd::string::group_string_axioms;

/// Answer to a password unlock: whether a TOTP code is still needed.
#[derive(Debug)]
pub struct UnlockResult {
    pub requires_totp: bool,
}

/// What setting up 2FA shows: the secret and its QR code.
#[derive(Debug)]
pub struct TotpSetup {
    pub secret_base32: String,
    pub qr_code_data_url: String,
}

#[derive(Debug)]
pub struct ConfirmTotpResult {
    /// Shown to the user exactly once.
    pub recovery_codes: Vec<String>,
}

/// An inline preview of a vault file.
#[derive(Debug)]
pub enum FilePreview {
    /// Path to the decrypted temporary copy of an image.
    Image { path: String },
    Text { content: String, truncated: bool },
    TooLarge,
    Unsupported,
}

/// What a preview request leads to, decided before anything is decrypted.
#[derive(Debug, Clone, Copy, PartialEq, Eq, Structural)]
pub enum PreviewPlan {
    TooLarge,
    Unsupported,
    Image,
    Text,
}

/// Files above this size are never decrypted just for a preview.
pub const PREVIEW_MAX_BYTES: u64 = 20971520;

pub const PREVIEW_TEXT_MAX_CHARS: usize = 50000;

/// Shortest master password accepted, in characters.
pub const MIN_PASSWORD_CHARS: usize = 8;

/// What `str::to_lowercase` gives for a character sequence.
pub uninterp spec fn unicode_lowercase(s: Seq<char>) -> Seq<char>;

/// What `String::from_utf8_lossy` gives for a byte sequence.
pub uninterp spec fn utf8_lossy(bytes: Seq<u8>) -> Seq<char>;

pub open spec fn ascii_lower(c: char) -> char {
    if 'A' <= c <= 'Z' {
        ((c as u32) + 32) as char
    } else {
        c
    }
}

/// `str::to_lowercase`. On ASCII text it lowercases the letters A to Z
/// and keeps every other character.
#[verifier::external_body]
fn to_lowercase(s: &str) -> (r: String)
    ensures
        r@ == unicode_lowercase(s@),
        (forall|i: int| 0 <= i < s@.len() ==> is_ascii_char(#[trigger] s@[i])) ==> r@
            == s@.map_values(|c: char| ascii_lower(c)),
{
    s.to_lowercase()
}

/// `String::from_utf8_lossy`: the decoded text, with each invalid sequence
/// replaced by U+FFFD; on well-formed UTF-8 it is the plain decoding.
#[verifier::external_body]
fn from_utf8_lossy(bytes: &[u8]) -> (r: String)
    ensures
        r@ == utf8_lossy(bytes@),
        valid_utf8(bytes@) ==> r@ == decode_utf8(bytes@),
{
    String::from_utf8_lossy(bytes).into_owned()
}

/// Passwords cross the interface boundary as raw bytes; this decodes them.
pub fn password_from_bytes(bytes: Vec<u8>) -> (r: AppResult<String>)
    ensures
        r is Ok <==> valid_utf8(bytes@),
        r matches Ok(s) ==> s@ == decode_utf8(bytes@),
        r matches Err(e) ==> e is Crypto,
{
    match crate::text::string_from_utf8(bytes) {
        Ok(s) => Ok(s),
        Err(_) => Err(AppError::Crypto("mot de passe invalide (encodage)".to_string())),
    }
}

/// A new vault's master password must have at least 8 characters.
pub fn check_master_password(password: &str) -> (r: AppResult<()>)
    ensures
        r is Ok <==> password@.len() >= MIN_PASSWORD_CHARS,
        r matches Err(e) ==> e is Crypto,
{
    if chars_of(password).len() < MIN_PASSWORD_CHARS {
        return Err(
            AppError::Crypto("le mot de passe maitre doit contenir au moins 8 caracteres".to_string()),
        );
    }
    Ok(())
}

/// A replacement master password must have at least 8 characters.
pub fn check_new_master_password(password: &str) -> (r: AppResult<()>)
    ensures
        r is Ok <==> password@.len() >= MIN_PASSWORD_CHARS,
        r matches Err(e) ==> e is Crypto,
{
    if chars_of(password).len() < MIN_PASSWORD_CHARS {
        return Err(
            AppError::Crypto("le nouveau mot de passe doit contenir au moins 8 caracteres".to_string()),
        );
    }
    Ok(())
}

/// What a name is checked for: a vault, a file or a folder.
#[derive(Debug, Clone, Copy)]
pub enum NameKind {
    Vault,
    File,
    Folder,
}

/// `str::trim` of a string.
pub fn trim_str(s: &str) -> (r: String)
    ensures
        r@ == trim(s@),
{
    let cs = chars_of(s);
    let t = crate::crypto::trim_chars(&cs);
    string_from_chars(t.as_slice())
}

/// A name typed by the user, trimmed; refused when nothing is left.
pub fn validated_name(name: &str, kind: NameKind) -> (r: AppResult<String>)
    ensures
        r is Ok <==> trim(name@).len() > 0,
        r matches Ok(n) ==> n@ == trim(name@),
        r matches Err(e) ==> e is Crypto,
{
    let trimmed = trim_str(name);
    if trimmed.as_str().is_empty() {
        let m = match kind {
            NameKind::Vault => "le nom du coffre ne peut pas etre vide".to_string(),
            NameKind::File => "le nom du fichier ne peut pas etre vide".to_string(),
            NameKind::Folder => "le nom du dossier ne peut pas etre vide".to_string(),
        };
        return Err(AppError::Crypto(m));
    }
    Ok(trimmed)
}

/// The last path component of `name` (after its last `/` or `\`).
pub open spec fn base_name(name: Seq<char>) -> Seq<char>
    decreases name.len(),
{
    if name.len() == 0 {
        name
    } else if name.last() == '/' || name.last() == '\\' {
        Seq::empty()
    } else {
        base_name(name.drop_last()).push(name.last())
    }
}

/// What follows the last `.` of a component, unless its only `.` starts it
/// (a hidden file such as `.env` has no extension).
pub open spec fn component_extension(c: Seq<char>) -> Option<Seq<char>>
    decreases c.len(),
{
    if c.len() <= 1 {
        None
    } else if c.last() == '.' {
        Some(Seq::empty())
    } else {
        match component_extension(c.drop_last()) {
            Some(e) => Some(e.push(c.last())),
            None => None,
        }
    }
}

/// The file-name extension `Path::extension` gives for a file name.
pub open spec fn extension_of(name: Seq<char>) -> Option<Seq<char>> {
    component_extension(base_name(name))
}

/// The lowercased extension of a file name, or the empty string.
pub open spec fn spec_preview_extension(name: Seq<char>) -> Seq<char> {
    match extension_of(name) {
        Some(e) => unicode_lowercase(e),
        None => Seq::empty(),
    }
}

fn component_extension_exec(c: &Vec<char>, end: usize) -> (r: Option<usize>)
    requires
        end <= c@.len(),
    ensures
        r matches Some(start) ==> start <= end && component_extension(c@.take(end as int))
            == Some(c@.subrange(start as int, end as int)),
        r is None ==> component_extension(c@.take(end as int)) is None,
    decreases end,
{
    if end <= 1 {
        return None;
    }
    let ghost t = c@.take(end as int);
    assert(t.drop_last() =~= c@.take(end - 1));
    if c[end - 1] == '.' {
        assert(c@.subrange(end as int, end as int) =~= Seq::<char>::empty());
        return Some(end);
    }
    match component_extension_exec(c, end - 1) {
        Some(start) => {
            assert(c@.subrange(start as int, end - 1).push(c@[end - 1]) =~= c@.subrange(
                start as int,
                end as int,
            ));
            Some(start)
        },
        None => None,
    }
}

fn base_name_exec(cs: &Vec<char>, end: usize) -> (r: Vec<char>)
    requires
        end <= cs@.len(),
    ensures
        r@ == base_name(cs@.take(end as int)),
    decreases end,
{
    if end == 0 {
        assert(cs@.take(0) =~= Seq::<char>::empty());
        return Vec::new();
    }
    assert(cs@.take(end as int).drop_last() =~= cs@.take(end - 1));
    if cs[end - 1] == '/' || cs[end - 1] == '\\' {
        return Vec::new();
    }
    let mut r = base_name_exec(cs, end - 1);
    r.push(cs[end - 1]);
    r
}

/// The lowercased extension of a file name, or `""` when it has none.
pub fn preview_extension(name: &str) -> (r: String)
    ensures
        r@ == spec_preview_extension(name@),
{
    let cs = chars_of(name);
    let base = base_name_exec(&cs, cs.len());
    assert(cs@.take(cs@.len() as int) =~= cs@);
    assert(base@.take(base@.len() as int) =~= base@);
    match component_extension_exec(&base, base.len()) {
        Some(start) => {
            let mut ext: Vec<char> = Vec::new();
            let mut i: usize = start;
            while i < base.len()
                invariant
                    start <= i <= base@.len(),
                    ext@ == base@.subrange(start as int, i as int),
                decreases base@.len() - i,
            {
                ext.push(base[i]);
                i = i + 1;
                assert(ext@ =~= base@.subrange(start as int, i as int));
            }
            let e = string_from_chars(ext.as_slice());
            to_lowercase(e.as_str())
        },
        None => String::new(),
    }
}

/// The MIME type of a previewable image extension.
pub open spec fn spec_image_mime_type(ext: Seq<char>) -> Option<Seq<char>> {
    if ext == "png"@ {
        Some("image/png"@)
    } else if ext == "jpg"@ || ext == "jpeg"@ {
        Some("image/jpeg"@)
    } else if ext == "gif"@ {
        Some("image/gif"@)
    } else if ext == "webp"@ {
        Some("image/webp"@)
    } else if ext == "bmp"@ {
        Some("image/bmp"@)
    } else if ext == "ico"@ {
        Some("image/x-icon"@)
    } else {
        None
    }
}

fn str_eq(a: &str, b: &str) -> (r: bool)
    ensures
        r == (a@ == b@),
{
    let x = chars_of(a);
    let y = chars_of(b);
    if x.len() != y.len() {
        return false;
    }
    let mut i: usize = 0;
    while i < x.len()
        invariant
            i <= x@.len(),
            x@ == a@,
            y@ == b@,
            x@.len() == y@.len(),
            forall|j: int| 0 <= j < i ==> x@[j] == y@[j],
        decreases x@.len() - i,
    {
        if x[i] != y[i] {
            return false;
        }
        i = i + 1;
    }
    assert(x@ =~= y@);
    true
}

pub fn image_mime_type(ext: &str) -> (r: Option<&'static str>)
    ensures
        match spec_image_mime_type(ext@) {
            Some(m) => r matches Some(s) && s@ == m,
            None => r is None,
        },
{
    if str_eq(ext, "png") {
        Some("image/png")
    } else if str_eq(ext, "jpg") || str_eq(ext, "jpeg") {
        Some("image/jpeg")
    } else if str_eq(ext, "gif") {
        Some("image/gif")
    } else if str_eq(ext, "webp") {
        Some("image/webp")
    } else if str_eq(ext, "bmp") {
        Some("image/bmp")
    } else if str_eq(ext, "ico") {
        Some("image/x-icon")
    } else {
        None
    }
}

/// The extensions previewed as text.
pub open spec fn spec_is_text_extension(ext: Seq<char>) -> bool {
    ||| ext == "txt"@
    ||| ext == "md"@
    ||| ext == "markdown"@
    ||| ext == "json"@
    ||| ext == "csv"@
    ||| ext == "log"@
    ||| ext == "xml"@
    ||| ext == "yaml"@
    ||| ext == "yml"@
    ||| ext == "toml"@
    ||| ext == "ini"@
    ||| ext == "conf"@
    ||| ext == "rs"@
    ||| ext == "ts"@
    ||| ext == "tsx"@
    ||| ext == "js"@
    ||| ext == "jsx"@
    ||| ext == "py"@
    ||| ext == "html"@
    ||| ext == "css"@
    ||| ext == "sh"@
}

pub fn is_text_extension(ext: &str) -> (r: bool)
    ensures
        r == spec_is_text_extension(ext@),
{
    str_eq(ext, "txt") || str_eq(ext, "md") || str_eq(ext, "markdown") || str_eq(ext, "json")
        || str_eq(ext, "csv") || str_eq(ext, "log") || str_eq(ext, "xml") || str_eq(ext, "yaml")
        || str_eq(ext, "yml") || str_eq(ext, "toml") || str_eq(ext, "ini") || str_eq(ext, "conf")
        || str_eq(ext, "rs") || str_eq(ext, "ts") || str_eq(ext, "tsx") || str_eq(ext, "js")
        || str_eq(ext, "jsx") || str_eq(ext, "py") || str_eq(ext, "html") || str_eq(ext, "css")
        || str_eq(ext, "sh")
}

/// How a file of this size and name is previewed: never decrypted when
/// over 20 MiB or of an unrecognized type.
pub open spec fn spec_plan_preview(size: u64, name: Seq<char>) -> PreviewPlan {
    let ext = spec_preview_extension(name);
    if size > PREVIEW_MAX_BYTES {
        PreviewPlan::TooLarge
    } else if spec_image_mime_type(ext) is Some {
        PreviewPlan::Image
    } else if spec_is_text_extension(ext) {
        PreviewPlan::Text
    } else {
        PreviewPlan::Unsupported
    }
}

pub fn plan_preview(size: u64, name: &str) -> (r: PreviewPlan)
    ensures
        r == spec_plan_preview(size, name@),
{
    if size > PREVIEW_MAX_BYTES {
        return PreviewPlan::TooLarge;
    }
    let ext = preview_extension(name);
    if image_mime_type(ext.as_str()).is_some() {
        PreviewPlan::Image
    } else if is_text_extension(ext.as_str()) {
        PreviewPlan::Text
    } else {
        PreviewPlan::Unsupported
    }
}

/// The images previewed inline are exactly PNG, JPEG, GIF, WebP, BMP and
/// icon files, each with its standard MIME type, and a file of one of these
/// extensions no larger than 20 MiB is previewed as an image.
pub proof fn previewable_images(ext: Seq<char>, size: u64, name: Seq<char>)
    ensures
        spec_image_mime_type("png"@) == Some("image/png"@),
        spec_image_mime_type("jpg"@) == Some("image/jpeg"@),
        spec_image_mime_type("jpeg"@) == Some("image/jpeg"@),
        spec_image_mime_type("gif"@) == Some("image/gif"@),
        spec_image_mime_type("webp"@) == Some("image/webp"@),
        spec_image_mime_type("bmp"@) == Some("image/bmp"@),
        spec_image_mime_type("ico"@) == Some("image/x-icon"@),
        spec_image_mime_type(ext) is Some ==> (ext == "png"@ || ext == "jpg"@ || ext == "jpeg"@
            || ext == "gif"@ || ext == "webp"@ || ext == "bmp"@ || ext == "ico"@),
        size <= 20 * 1024 * 1024 && (spec_preview_extension(name) == "png"@
            || spec_preview_extension(name) == "jpg"@ || spec_preview_extension(name) == "jpeg"@
            || spec_preview_extension(name) == "gif"@ || spec_preview_extension(name) == "webp"@
            || spec_preview_extension(name) == "bmp"@ || spec_preview_extension(name) == "ico"@)
            ==> spec_plan_preview(size, name) == PreviewPlan::Image,
{
    reveal_strlit("png");
    reveal_strlit("jpg");
    reveal_strlit("jpeg");
    reveal_strlit("gif");
    reveal_strlit("webp");
    reveal_strlit("bmp");
    reveal_strlit("ico");
    assert("png"@[0] == 'p' && "jpg"@[0] == 'j' && "jpeg"@[0] == 'j' && "gif"@[0] == 'g');
    assert("webp"@[0] == 'w' && "bmp"@[0] == 'b' && "ico"@[0] == 'i');
    assert("jpg"@.len() != "jpeg"@.len());
}

/// The text preview of decrypted bytes: decoded leniently, cut to 50 000
/// characters, and flagged when something was cut.
pub fn text_preview(bytes: &[u8]) -> (r: FilePreview)
    ensures
        r matches FilePreview::Text { content, truncated } && truncated == (utf8_lossy(bytes@).len()
            > PREVIEW_TEXT_MAX_CHARS) && content@ == if truncated {
            utf8_lossy(bytes@).take(PREVIEW_TEXT_MAX_CHARS as int)
        } else {
            utf8_lossy(bytes@)
        },
{
    let text = from_utf8_lossy(bytes);
    let cs = chars_of(text.as_str());
    let truncated = cs.len() > PREVIEW_TEXT_MAX_CHARS;
    let content = if truncated {
        let mut kept: Vec<char> = Vec::new();
        let mut i: usize = 0;
        while i < PREVIEW_TEXT_MAX_CHARS
            invariant
                i <= PREVIEW_TEXT_MAX_CHARS < cs@.len(),
                kept@ == cs@.take(i as int),
            decreases PREVIEW_TEXT_MAX_CHARS - i,
        {
            kept.push(cs[i]);
            i = i + 1;
            assert(kept@ =~= cs@.take(i as int));
        }
        string_from_chars(kept.as_slice())
    } else {
        text
    };
    FilePreview::Text { content, truncated }
}

/// Smallest pause, in milliseconds, between two progress events of a file
/// transfer.
pub const PROGRESS_EMIT_INTERVAL_MS: u64 = 100;

/// Whether a file transfer reports its progress now: always on its final
/// step (so the interface reaches 100%) and on its first, otherwise at most
/// every `PROGRESS_EMIT_INTERVAL_MS`. `ms_since_last` is the time since the
/// last report, `None` before the first.
pub fn progress_due(bytes_done: u64, bytes_total: u64, ms_since_last: Option<u64>) -> (r: bool)
    ensures
        r == (bytes_done == bytes_total || match ms_since_last {
            None => true,
            Some(ms) => ms >= PROGRESS_EMIT_INTERVAL_MS,
        }),
{
    if bytes_done == bytes_total {
        return true;
    }
    match ms_since_last {
        None => true,
        Some(ms) => ms >= PROGRESS_EMIT_INTERVAL_MS,
    }
}

} // verus!
