//! Where things live on disk: the names of a vault's files, of the global
//! index and settings, of the temporary export folders, and of the entries
//! of a backup archive.

use vstd::prelude::*;

use crate::error::{AppError, AppResult};
use crate::text::{chars_of, push_char};

verus! {

broadcast use vstd::string::group_string_axioms;

/// `std::path::MAIN_SEPARATOR`: `\` on Windows, `/` everywhere else.
#[verifier::external_body]
fn main_separator() -> (r: char)
    ensures
        is_platform_separator(r),
{
    std::path::MAIN_SEPARATOR
}

/// The two characters a platform may use as its path separator.
pub open spec fn is_platform_separator(c: char) -> bool {
    c == '/' || c == '\\'
}

/// Whether `c` separates path components on a platform whose main
/// separator is `sep`: Windows (`\`) also takes `/`, other platforms only
/// take `/`.
pub open spec fn separates(c: char, sep: char) -> bool {
    c == sep || (sep == '\\' && c == '/')
}

/// `name` joined under the directory `dir` on a platform whose main
/// separator is `sep`, as `Path::join` does it for a relative `name`: no
/// separator is added when `dir` is empty or already ends with one.
pub open spec fn joined(dir: Seq<char>, name: Seq<char>, sep: char) -> Seq<char> {
    if dir.len() == 0 || separates(dir.last(), sep) {
        dir + name
    } else {
        dir + seq![sep] + name
    }
}

/// `name` under the directory `dir`, with the platform's separator.
pub fn join_path(dir: &str, name: &str) -> (r: String)
    ensures
        exists|sep: char| is_platform_separator(sep) && r@ == #[trigger] joined(dir@, name@, sep),
{
    let sep = main_separator();
    let cs = chars_of(dir);
    let mut out = dir.to_string();
    if cs.len() > 0 {
        let last = cs[cs.len() - 1];
        if !(last == sep || (sep == '\\' && last == '/')) {
            push_char(&mut out, sep);
        }
    }
    out.append(name);
    assert(out@ =~= joined(dir@, name@, sep));
    out
}

/// The global index of known vaults, in the application data folder.
pub fn index_path(app_data_dir: &str) -> (r: String)
    ensures
        exists|sep: char|
            is_platform_separator(sep) && r@ == #[trigger] joined(
                app_data_dir@,
                "vaults_index.json"@,
                sep,
            ),
{
    join_path(app_data_dir, "vaults_index.json")
}

/// The application settings, in the application data folder.
pub fn settings_path(app_data_dir: &str) -> (r: String)
    ensures
        exists|sep: char|
            is_platform_separator(sep) && r@ == #[trigger] joined(
                app_data_dir@,
                "settings.json"@,
                sep,
            ),
{
    join_path(app_data_dir, "settings.json")
}

/// A vault's metadata file, `vault.json`, in the vault folder.
pub fn metadata_path(vault_dir: &str) -> (r: String)
    ensures
        exists|sep: char|
            is_platform_separator(sep) && r@ == #[trigger] joined(vault_dir@, "vault.json"@, sep),
{
    join_path(vault_dir, "vault.json")
}

/// The folder of a vault's encrypted files.
pub fn files_dir(vault_dir: &str) -> (r: String)
    ensures
        exists|sep: char|
            is_platform_separator(sep) && r@ == #[trigger] joined(vault_dir@, "files"@, sep),
{
    join_path(vault_dir, "files")
}

/// The hyphenated lowercase text of an identifier, as `Uuid` displays it.
pub fn uuid_string(id: u128) -> (r: String)
    ensures
        r@ == crate::vault::uuid_text(id),
{
    let mut s = String::new();
    crate::vault::push_uuid_text(&mut s, id);
    s
}

/// The encrypted blob of a file: named by its identifier, never by the
/// file's own name, in the vault's `files` folder.
pub fn blob_path(vault_dir: &str, file_id: u128) -> (r: String)
    ensures
        exists|s1: char, s2: char|
            is_platform_separator(s1) && is_platform_separator(s2) && r@ == #[trigger] joined(
                joined(vault_dir@, "files"@, s1),
                crate::vault::uuid_text(file_id),
                s2,
            ),
{
    let dir = files_dir(vault_dir);
    let name = uuid_string(file_id);
    join_path(dir.as_str(), name.as_str())
}

/// The folder, under the system's temporary folder `temp_root`, that holds
/// the decrypted exports of one vault; locking the vault wipes it.
pub fn temp_export_dir(temp_root: &str, vault_id: u128) -> (r: String)
    ensures
        exists|s1: char, s2: char|
            is_platform_separator(s1) && is_platform_separator(s2) && r@ == #[trigger] joined(
                joined(temp_root@, "securefolders-exports"@, s1),
                crate::vault::uuid_text(vault_id),
                s2,
            ),
{
    let root = join_path(temp_root, "securefolders-exports");
    let name = uuid_string(vault_id);
    join_path(root.as_str(), name.as_str())
}

/// The archive entry that holds an encrypted file in a backup.
pub fn backup_entry_name(file_name: &str) -> (r: String)
    ensures
        r@ == "files/"@ + file_name@,
{
    let mut s = "files/".to_string();
    s.append(file_name);
    s
}

/// A character that can take a path out of the folder a name is joined
/// to: a separator, or the colon of a Windows drive.
pub open spec fn is_path_char(c: char) -> bool {
    c == '/' || c == '\\' || c == ':'
}

/// A name that, joined to a folder, names an entry directly inside it: not
/// empty, without separators or drive colon, and neither `.` nor `..`.
pub open spec fn is_plain_file_name(n: Seq<char>) -> bool {
    &&& n.len() > 0
    &&& forall|i: int| 0 <= i < n.len() ==> !is_path_char(#[trigger] n[i])
    &&& n != seq!['.']
    &&& n != seq!['.', '.']
}

/// Whether the characters make a plain file name.
fn plain_file_name(n: &Vec<char>) -> (r: bool)
    ensures
        r == is_plain_file_name(n@),
{
    if n.len() == 0 {
        return false;
    }
    let mut i: usize = 0;
    while i < n.len()
        invariant
            i <= n@.len(),
            forall|j: int| 0 <= j < i ==> !is_path_char(#[trigger] n@[j]),
        decreases n@.len() - i,
    {
        let c = n[i];
        if c == '/' || c == '\\' || c == ':' {
            assert(is_path_char(n@[i as int]));
            return false;
        }
        i = i + 1;
    }
    if n.len() == 1 && n[0] == '.' {
        assert(n@ =~= seq!['.']);
        return false;
    }
    if n.len() == 2 && n[0] == '.' && n[1] == '.' {
        assert(n@ =~= seq!['.', '.']);
        return false;
    }
    assert(n@.len() == 1 ==> n@ != seq!['.']);
    assert(n@.len() != 1 ==> n@.len() != seq!['.'].len());
    assert(n@.len() == 2 ==> n@ != seq!['.', '.']);
    assert(n@.len() != 2 ==> n@.len() != seq!['.', '.'].len());
    true
}

/// The entry is under `files/` with something after it.
pub open spec fn names_a_stored_file(entry_name: Seq<char>) -> bool {
    entry_name.len() > 6 && entry_name.take(6) == "files/"@
}

/// The file an archive entry restores into the vault's `files` folder:
/// what follows `files/`, when that is a plain file name. Other entries
/// (the metadata, the folder itself) restore no file. A name under
/// `files/` that would leave that folder (`files/../x`, `files/a/b`,
/// `files/C:x`) makes the archive invalid.
pub fn restored_file_name(entry_name: &str) -> (r: AppResult<Option<String>>)
    ensures
        r matches Ok(Some(n)) ==> entry_name@ == "files/"@ + n@ && is_plain_file_name(n@),
        r matches Ok(None) <==> !names_a_stored_file(entry_name@),
        r is Err <==> names_a_stored_file(entry_name@) && !is_plain_file_name(entry_name@.skip(6)),
        r matches Err(e) ==> e is Zip,
        forall|n: Seq<char>|
            entry_name@ == "files/"@ + n && #[trigger] is_plain_file_name(n) ==> (r matches Ok(
                Some(s),
            ) && s@ == n),
{
    proof {
        reveal_strlit("files/");
        assert forall|n: Seq<char>|
            entry_name@ == "files/"@ + n && #[trigger] is_plain_file_name(n) implies names_a_stored_file(
            entry_name@,
        ) && entry_name@.skip(6) == n by {
            stored_files_are_restored(n, 0);
        }
    }
    let cs = chars_of(entry_name);
    if cs.len() <= 6 {
        return Ok(None);
    }
    if cs[0] != 'f' || cs[1] != 'i' || cs[2] != 'l' || cs[3] != 'e' || cs[4] != 's' || cs[5]
        != '/' {
        proof {
            if entry_name@.take(6) == "files/"@ {
                let t = entry_name@.take(6);
                assert(t[0] == cs@[0] && t[1] == cs@[1] && t[2] == cs@[2]);
                assert(t[3] == cs@[3] && t[4] == cs@[4] && t[5] == cs@[5]);
            }
        }
        return Ok(None);
    }
    let mut rest: Vec<char> = Vec::new();
    let mut i: usize = 6;
    while i < cs.len()
        invariant
            6 <= i <= cs@.len(),
            rest@ == cs@.subrange(6, i as int),
        decreases cs@.len() - i,
    {
        rest.push(cs[i]);
        i = i + 1;
        assert(rest@ =~= cs@.subrange(6, i as int));
    }
    assert(cs@ =~= "files/"@ + rest@);
    assert(rest@ =~= entry_name@.skip(6));
    assert(entry_name@.take(6) =~= "files/"@);
    if !plain_file_name(&rest) {
        return Err(AppError::Zip("entree d'archive invalide".to_string()));
    }
    Ok(Some(crate::text::string_from_chars(rest.as_slice())))
}

/// A stored file name flattened into one path component: separators and
/// drive colons become `_`.
pub open spec fn flat_char(c: char) -> char {
    if is_path_char(c) {
        '_'
    } else {
        c
    }
}

/// The name a decrypted copy of a file gets: its stored name, flattened,
/// and prefixed with `_` when that leaves nothing, `.` or `..`.
pub open spec fn export_name(name: Seq<char>) -> Seq<char> {
    let f = name.map_values(|c: char| flat_char(c));
    if f.len() == 0 || f == seq!['.'] || f == seq!['.', '.'] {
        seq!['_'] + f
    } else {
        f
    }
}

/// A hexadecimal digit or the hyphen of a UUID's text.
pub open spec fn uuid_char(c: char) -> bool {
    ('0' <= c <= '9') || ('a' <= c <= 'f') || c == '-'
}

proof fn lemma_hex_digits_are_uuid_chars(n: nat, count: nat)
    ensures
        forall|i: int|
            0 <= i < crate::vault::hex_digits(n, count).len() ==> uuid_char(
                #[trigger] crate::vault::hex_digits(n, count)[i],
            ),
    decreases count,
{
    if count > 0 {
        lemma_hex_digits_are_uuid_chars(n / 16, (count - 1) as nat);
        let d = n % 16;
        assert(uuid_char(crate::vault::hex_char(d)));
        let prev = crate::vault::hex_digits(n / 16, (count - 1) as nat);
        let h = crate::vault::hex_digits(n, count);
        assert(h == prev.push(crate::vault::hex_char(d)));
        assert forall|i: int| 0 <= i < h.len() implies uuid_char(#[trigger] h[i]) by {
            if i < prev.len() {
                assert(h[i] == prev[i]);
            }
        }
    }
}

/// Every encrypted file a backup holds is restored: an entry `files/` + n
/// whose n is a plain file name, whatever its length, names a stored file
/// called n, and the name of every encrypted blob, the text of a UUID, is
/// a plain file name. A plain file name is one that is not empty, has no
/// `/`, `\` or `:`, and is neither `.` nor `..`.
pub proof fn stored_files_are_restored(n: Seq<char>, id: u128)
    ensures
        is_plain_file_name(n) ==> names_a_stored_file("files/"@ + n) && ("files/"@ + n).skip(6)
            == n,
        is_plain_file_name(n) <==> (n.len() > 0 && (forall|i: int|
            0 <= i < n.len() ==> !(#[trigger] n[i] == '/' || n[i] == '\\' || n[i] == ':'))
            && n != seq!['.'] && n != seq!['.', '.']),
        is_plain_file_name(crate::vault::uuid_text(id)),
{
    reveal_strlit("files/");
    let e = "files/"@ + n;
    assert(e.take(6) =~= "files/"@);
    assert(e.skip(6) =~= n);
    let u = crate::vault::uuid_text(id);
    let d = crate::vault::hex_digits(id as nat, 32);
    crate::vault::lemma_hex_digits_len(id as nat, 32);
    lemma_hex_digits_are_uuid_chars(id as nat, 32);
    crate::vault::lemma_uuid_text_len(id);
    assert forall|i: int| 0 <= i < u.len() implies uuid_char(#[trigger] u[i]) by {
        if i < 8 {
            assert(u[i] == d[i]);
        } else if i == 8 || i == 13 || i == 18 || i == 23 {
        } else if i < 13 {
            assert(u[i] == d[i - 1]);
        } else if i < 18 {
            assert(u[i] == d[i - 2]);
        } else if i < 23 {
            assert(u[i] == d[i - 3]);
        } else {
            assert(u[i] == d[i - 4]);
        }
    }
    assert(u.len() != seq!['.'].len());
    assert(u.len() != seq!['.', '.'].len());
}

/// Every export name is a plain file name.
pub proof fn export_names_are_plain(name: Seq<char>)
    ensures
        is_plain_file_name(export_name(name)),
{
    let f = name.map_values(|c: char| flat_char(c));
    assert forall|i: int| 0 <= i < f.len() implies !is_path_char(#[trigger] f[i]) by {
        assert(f[i] == flat_char(name[i]));
    }
    if f.len() == 0 || f == seq!['.'] || f == seq!['.', '.'] {
        let e = seq!['_'] + f;
        assert forall|i: int| 0 <= i < e.len() implies !is_path_char(#[trigger] e[i]) by {
            if i > 0 {
                assert(e[i] == f[i - 1]);
            }
        }
        assert(e[0] == '_');
        assert(seq!['.'][0] == '.');
        assert(seq!['.', '.'][0] == '.');
    }
}

fn export_file_name(name: &str) -> (r: String)
    ensures
        r@ == export_name(name@),
{
    let cs = chars_of(name);
    let mut f: Vec<char> = Vec::new();
    let mut i: usize = 0;
    while i < cs.len()
        invariant
            i <= cs@.len(),
            cs@ == name@,
            f@ == cs@.take(i as int).map_values(|c: char| flat_char(c)),
        decreases cs@.len() - i,
    {
        let c = cs[i];
        f.push(if c == '/' || c == '\\' || c == ':' { '_' } else { c });
        i = i + 1;
        assert(f@ =~= cs@.take(i as int).map_values(|c: char| flat_char(c)));
    }
    assert(cs@.take(cs@.len() as int) =~= cs@);
    let dotty = f.len() == 0 || (f.len() == 1 && f[0] == '.') || (f.len() == 2 && f[0] == '.'
        && f[1] == '.');
    proof {
        if f@ == seq!['.'] {
            assert(f@[0] == '.');
        }
        if f@ == seq!['.', '.'] {
            assert(f@[0] == '.' && f@[1] == '.');
        }
        if f@.len() == 1 && f@[0] == '.' {
            assert(f@ =~= seq!['.']);
        }
        if f@.len() == 2 && f@[0] == '.' && f@[1] == '.' {
            assert(f@ =~= seq!['.', '.']);
        }
    }
    if dotty {
        let mut out = String::new();
        push_char(&mut out, '_');
        let tail = crate::text::string_from_chars(f.as_slice());
        out.append(tail.as_str());
        assert(out@ =~= seq!['_'] + f@);
        out
    } else {
        crate::text::string_from_chars(f.as_slice())
    }
}

/// Where a decrypted copy of a file goes: directly inside the vault's
/// folder of exports under the system's temporary folder `temp_root`, so
/// that wiping that folder removes every copy. The file's stored name is
/// flattened into a single plain name (see `export_name`).
pub fn export_path(temp_root: &str, vault_id: u128, file_name: &str) -> (r: String)
    ensures
        is_plain_file_name(export_name(file_name@)),
        exists|s1: char, s2: char, s3: char|
            is_platform_separator(s1) && is_platform_separator(s2) && is_platform_separator(s3)
                && r@ == #[trigger] joined(
                joined(joined(temp_root@, "securefolders-exports"@, s1), crate::vault::uuid_text(vault_id), s2),
                export_name(file_name@),
                s3,
            ),
{
    proof {
        export_names_are_plain(file_name@);
    }
    let dir = temp_export_dir(temp_root, vault_id);
    let name = export_file_name(file_name);
    join_path(dir.as_str(), name.as_str())
}

} // verus!
