//! A vault's contents, its files and folders, as the single block of bytes
//! that is encrypted under the DEK and stored as `content_encrypted`.
//!
//! The block is a sequence of little-endian fields: the number of files,
//! each file's record, the number of folders, each folder's record. A
//! record holds the 16-byte id, the name (its UTF-8 length on 8 bytes, then
//! its bytes), then for a file its size, the seconds and nanoseconds of its
//! addition, and last the parent folder (a 0 byte, or a 1 byte and the
//! parent's id).

use vstd::bytes::*;
use vstd::prelude::*;
use vstd::slice::{slice_subrange, slice_to_vec};
use vstd::utf8::*;

use crate::crypto::{self, VaultKey, AES_GCM_MAX_PLAINTEXT};
use crate::error::{AppError, AppResult};
use crate::text::append_bytes;
use crate::vault::{lemma_filter_cons, opens_to, unwraps_to, FileEntry, Timestamp};

verus! {

broadcast use vstd::string::group_string_axioms;

/// A folder inside a vault: only a name and a place in the tree. Folders
/// do not exist on disk; every encrypted file stays flat in `files/`.
#[derive(Debug, Clone)]
pub struct Folder {
    pub id: u128,
    pub name: String,
    /// `None` for a folder at the root of the vault.
    pub parent_id: Option<u128>,
}

/// Everything the encrypted block holds.
#[derive(Debug, Clone)]
pub struct VaultContent {
    pub files: Vec<FileEntry>,
    pub folders: Vec<Folder>,
}

/// A file entry with its name as characters.
pub struct FileInfo {
    pub id: u128,
    pub name: Seq<char>,
    pub size: u64,
    pub added_at: Timestamp,
    pub parent_id: Option<u128>,
}

/// A folder with its name as characters.
pub struct FolderInfo {
    pub id: u128,
    pub name: Seq<char>,
    pub parent_id: Option<u128>,
}

/// The contents of a vault with every name as characters.
#[verifier::ext_equal]
pub struct ContentInfo {
    pub files: Seq<FileInfo>,
    pub folders: Seq<FolderInfo>,
}

impl View for FileEntry {
    type V = FileInfo;

    open spec fn view(&self) -> FileInfo {
        FileInfo {
            id: self.id,
            name: self.name@,
            size: self.size,
            added_at: self.added_at,
            parent_id: self.parent_id,
        }
    }
}

impl View for Folder {
    type V = FolderInfo;

    open spec fn view(&self) -> FolderInfo {
        FolderInfo { id: self.id, name: self.name@, parent_id: self.parent_id }
    }
}

pub open spec fn file_infos(files: Seq<FileEntry>) -> Seq<FileInfo> {
    files.map_values(|f: FileEntry| f@)
}

pub open spec fn folder_infos(folders: Seq<Folder>) -> Seq<FolderInfo> {
    folders.map_values(|d: Folder| d@)
}

impl View for VaultContent {
    type V = ContentInfo;

    open spec fn view(&self) -> ContentInfo {
        ContentInfo { files: file_infos(self.files@), folders: folder_infos(self.folders@) }
    }
}

// ---------------------------------------------------------------------------
// Writing.
// ---------------------------------------------------------------------------

/// A name: its UTF-8 length, then its UTF-8 bytes.
pub open spec fn name_field(name: Seq<char>) -> Seq<u8> {
    spec_u64_to_le_bytes(encode_utf8(name).len() as u64) + encode_utf8(name)
}

/// A name whose length fits in its length field.
pub open spec fn name_fits(name: Seq<char>) -> bool {
    encode_utf8(name).len() <= u64::MAX
}

pub open spec fn parent_field(parent: Option<u128>) -> Seq<u8> {
    match parent {
        None => seq![0u8],
        Some(id) => seq![1u8] + spec_u128_to_le_bytes(id),
    }
}

pub open spec fn file_record(f: FileInfo) -> Seq<u8> {
    spec_u128_to_le_bytes(f.id) + (name_field(f.name) + (spec_u64_to_le_bytes(f.size) + (
    spec_u64_to_le_bytes(f.added_at.secs as u64) + (spec_u32_to_le_bytes(f.added_at.nanos)
        + parent_field(f.parent_id)))))
}

pub open spec fn folder_record(d: FolderInfo) -> Seq<u8> {
    spec_u128_to_le_bytes(d.id) + (name_field(d.name) + parent_field(d.parent_id))
}

pub open spec fn file_rec() -> spec_fn(FileInfo) -> Seq<u8> {
    |f: FileInfo| file_record(f)
}

pub open spec fn folder_rec() -> spec_fn(FolderInfo) -> Seq<u8> {
    |d: FolderInfo| folder_record(d)
}

/// The records of `items`, one after the other.
pub open spec fn records<T>(items: Seq<T>, record: spec_fn(T) -> Seq<u8>) -> Seq<u8>
    decreases items.len(),
{
    if items.len() == 0 {
        Seq::empty()
    } else {
        record(items[0]) + records(items.drop_first(), record)
    }
}

/// The block that holds `c`.
pub open spec fn content_bytes(c: ContentInfo) -> Seq<u8> {
    spec_u64_to_le_bytes(c.files.len() as u64) + (records(c.files, file_rec()) + (
    spec_u64_to_le_bytes(c.folders.len() as u64) + records(c.folders, folder_rec())))
}

/// Every count and every name of `c` fits in its length field.
pub open spec fn encodable(c: ContentInfo) -> bool {
    &&& c.files.len() <= u64::MAX
    &&& c.folders.len() <= u64::MAX
    &&& forall|i: int| 0 <= i < c.files.len() ==> name_fits(#[trigger] c.files[i].name)
    &&& forall|i: int| 0 <= i < c.folders.len() ==> name_fits(#[trigger] c.folders[i].name)
}

proof fn lemma_records_push<T>(items: Seq<T>, x: T, record: spec_fn(T) -> Seq<u8>)
    ensures
        records(items.push(x), record) == records(items, record) + record(x),
    decreases items.len(),
{
    assert(items.push(x)[0] == if items.len() == 0 { x } else { items[0] });
    if items.len() == 0 {
        assert(items.push(x).drop_first() =~= Seq::<T>::empty());
        assert(records(Seq::<T>::empty(), record) == Seq::<u8>::empty());
        assert(record(x) + Seq::<u8>::empty() =~= record(x));
        assert(Seq::<u8>::empty() + record(x) =~= record(x));
    } else {
        assert(items.push(x).drop_first() =~= items.drop_first().push(x));
        lemma_records_push(items.drop_first(), x, record);
        assert(record(items[0]) + (records(items.drop_first(), record) + record(x)) =~= (record(
            items[0],
        ) + records(items.drop_first(), record)) + record(x));
    }
}

fn push_u64(out: &mut Vec<u8>, x: u64)
    ensures
        final(out)@ == old(out)@ + spec_u64_to_le_bytes(x),
{
    let b = u64_to_le_bytes(x);
    append_bytes(out, b.as_slice());
}

fn push_u128(out: &mut Vec<u8>, x: u128)
    ensures
        final(out)@ == old(out)@ + spec_u128_to_le_bytes(x),
{
    let b = u128_to_le_bytes(x);
    append_bytes(out, b.as_slice());
}

fn push_name(out: &mut Vec<u8>, name: &String)
    ensures
        final(out)@ == old(out)@ + name_field(name@),
        name_fits(name@),
{
    let bytes = name.as_str().as_bytes();
    push_u64(out, bytes.len() as u64);
    append_bytes(out, bytes);
    assert(final(out)@ =~= old(out)@ + name_field(name@));
}

fn push_parent(out: &mut Vec<u8>, parent: Option<u128>)
    ensures
        final(out)@ == old(out)@ + parent_field(parent),
{
    match parent {
        None => {
            out.push(0u8);
            assert(out@ =~= old(out)@ + parent_field(parent));
        },
        Some(id) => {
            out.push(1u8);
            push_u128(out, id);
            assert(out@ =~= old(out)@ + parent_field(parent));
        },
    }
}

fn push_file_record(out: &mut Vec<u8>, f: &FileEntry)
    ensures
        final(out)@ == old(out)@ + file_record(f@),
        name_fits(f.name@),
{
    push_u128(out, f.id);
    push_name(out, &f.name);
    push_u64(out, f.size);
    push_u64(out, f.added_at.secs as u64);
    let nanos = u32_to_le_bytes(f.added_at.nanos);
    append_bytes(out, nanos.as_slice());
    push_parent(out, f.parent_id);
    assert(out@ =~= old(out)@ + file_record(f@));
}

fn push_folder_record(out: &mut Vec<u8>, d: &Folder)
    ensures
        final(out)@ == old(out)@ + folder_record(d@),
        name_fits(d.name@),
{
    push_u128(out, d.id);
    push_name(out, &d.name);
    push_parent(out, d.parent_id);
    assert(out@ =~= old(out)@ + folder_record(d@));
}

/// The block that holds `content`.
pub fn encode_content(content: &VaultContent) -> (r: Vec<u8>)
    ensures
        r@ == content_bytes(content@),
        encodable(content@),
{
    let ghost c = content@;
    let mut out: Vec<u8> = Vec::new();
    push_u64(&mut out, content.files.len() as u64);
    let ghost head = out@;
    let mut i: usize = 0;
    while i < content.files.len()
        invariant
            i <= content.files@.len(),
            c == content@,
            out@ == head + records(c.files.take(i as int), file_rec()),
            forall|j: int| 0 <= j < i ==> name_fits(#[trigger] c.files[j].name),
        decreases content.files@.len() - i,
    {
        push_file_record(&mut out, &content.files[i]);
        proof {
            assert(c.files[i as int] == content.files@[i as int]@);
            assert(c.files.take(i + 1) =~= c.files.take(i as int).push(c.files[i as int]));
            lemma_records_push(c.files.take(i as int), c.files[i as int], file_rec());
            assert(file_rec()(c.files[i as int]) == file_record(c.files[i as int]));
            assert(head + records(c.files.take(i + 1), file_rec()) =~= head + records(
                c.files.take(i as int),
                file_rec(),
            ) + file_record(c.files[i as int]));
        }
        i = i + 1;
    }
    assert(c.files.take(i as int) =~= c.files);
    push_u64(&mut out, content.folders.len() as u64);
    let ghost mid = out@;
    let mut k: usize = 0;
    while k < content.folders.len()
        invariant
            k <= content.folders@.len(),
            c == content@,
            out@ == mid + records(c.folders.take(k as int), folder_rec()),
            forall|j: int| 0 <= j < k ==> name_fits(#[trigger] c.folders[j].name),
        decreases content.folders@.len() - k,
    {
        push_folder_record(&mut out, &content.folders[k]);
        proof {
            assert(c.folders[k as int] == content.folders@[k as int]@);
            assert(c.folders.take(k + 1) =~= c.folders.take(k as int).push(c.folders[k as int]));
            lemma_records_push(c.folders.take(k as int), c.folders[k as int], folder_rec());
            assert(folder_rec()(c.folders[k as int]) == folder_record(c.folders[k as int]));
            assert(mid + records(c.folders.take(k + 1), folder_rec()) =~= mid + records(
                c.folders.take(k as int),
                folder_rec(),
            ) + folder_record(c.folders[k as int]));
        }
        k = k + 1;
    }
    assert(c.folders.take(k as int) =~= c.folders);
    assert(out@ =~= content_bytes(c));
    out
}


// ---------------------------------------------------------------------------
// Reading.
// ---------------------------------------------------------------------------

pub open spec fn read_u32(b: Seq<u8>) -> Option<(u32, Seq<u8>)> {
    if b.len() >= 4 {
        Some((spec_u32_from_le_bytes(b.take(4)), b.skip(4)))
    } else {
        None
    }
}

pub open spec fn read_u64(b: Seq<u8>) -> Option<(u64, Seq<u8>)> {
    if b.len() >= 8 {
        Some((spec_u64_from_le_bytes(b.take(8)), b.skip(8)))
    } else {
        None
    }
}

pub open spec fn read_u128(b: Seq<u8>) -> Option<(u128, Seq<u8>)> {
    if b.len() >= 16 {
        Some((spec_u128_from_le_bytes(b.take(16)), b.skip(16)))
    } else {
        None
    }
}

/// A name field: well-formed UTF-8 of the announced length.
pub open spec fn read_name(b: Seq<u8>) -> Option<(Seq<char>, Seq<u8>)> {
    match read_u64(b) {
        None => None,
        Some((n, rest)) => if n <= rest.len() && valid_utf8(rest.take(n as int)) {
            Some((decode_utf8(rest.take(n as int)), rest.skip(n as int)))
        } else {
            None
        },
    }
}

/// A parent field: a 0 byte, or a 1 byte and an id.
pub open spec fn read_parent(b: Seq<u8>) -> Option<(Option<u128>, Seq<u8>)> {
    if b.len() == 0 {
        None
    } else if b[0] == 0 {
        Some((None, b.skip(1)))
    } else if b[0] == 1 {
        match read_u128(b.skip(1)) {
            None => None,
            Some((id, rest)) => Some((Some(id), rest)),
        }
    } else {
        None
    }
}

pub open spec fn read_file(b: Seq<u8>) -> Option<(FileInfo, Seq<u8>)> {
    match read_u128(b) {
        None => None,
        Some((id, b1)) => match read_name(b1) {
            None => None,
            Some((name, b2)) => match read_u64(b2) {
                None => None,
                Some((size, b3)) => match read_u64(b3) {
                    None => None,
                    Some((secs, b4)) => match read_u32(b4) {
                        None => None,
                        Some((nanos, b5)) => match read_parent(b5) {
                            None => None,
                            Some((parent_id, b6)) => Some(
                                (
                                    FileInfo {
                                        id,
                                        name,
                                        size,
                                        added_at: Timestamp { secs: secs as i64, nanos },
                                        parent_id,
                                    },
                                    b6,
                                ),
                            ),
                        },
                    },
                },
            },
        },
    }
}

pub open spec fn read_folder(b: Seq<u8>) -> Option<(FolderInfo, Seq<u8>)> {
    match read_u128(b) {
        None => None,
        Some((id, b1)) => match read_name(b1) {
            None => None,
            Some((name, b2)) => match read_parent(b2) {
                None => None,
                Some((parent_id, b3)) => Some((FolderInfo { id, name, parent_id }, b3)),
            },
        },
    }
}

pub open spec fn file_reader() -> spec_fn(Seq<u8>) -> Option<(FileInfo, Seq<u8>)> {
    |b: Seq<u8>| read_file(b)
}

pub open spec fn folder_reader() -> spec_fn(Seq<u8>) -> Option<(FolderInfo, Seq<u8>)> {
    |b: Seq<u8>| read_folder(b)
}

/// `items` in front of what `rest` reads to, if it reads.
pub open spec fn prepend<T>(items: Seq<T>, rest: Option<(Seq<T>, Seq<u8>)>) -> Option<
    (Seq<T>, Seq<u8>),
> {
    match rest {
        None => None,
        Some((more, left)) => Some((items + more, left)),
    }
}

/// `n` records read one after the other, and what is left after them.
pub open spec fn read_records<T>(
    b: Seq<u8>,
    n: nat,
    read: spec_fn(Seq<u8>) -> Option<(T, Seq<u8>)>,
) -> Option<(Seq<T>, Seq<u8>)>
    decreases n,
{
    if n == 0 {
        Some((Seq::empty(), b))
    } else {
        match read(b) {
            None => None,
            Some((x, rest)) => prepend(seq![x], read_records(rest, (n - 1) as nat, read)),
        }
    }
}

/// What a block holds, if it is a well-formed block with nothing after
/// its last record.
pub open spec fn read_content(b: Seq<u8>) -> Option<ContentInfo> {
    match read_u64(b) {
        None => None,
        Some((nf, b1)) => match read_records(b1, nf as nat, file_reader()) {
            None => None,
            Some((files, b2)) => match read_u64(b2) {
                None => None,
                Some((nd, b3)) => match read_records(b3, nd as nat, folder_reader()) {
                    None => None,
                    Some((folders, b4)) => if b4.len() == 0 {
                        Some(ContentInfo { files, folders })
                    } else {
                        None
                    },
                },
            },
        },
    }
}

proof fn lemma_read_u32(x: u32, rest: Seq<u8>)
    ensures
        read_u32(spec_u32_to_le_bytes(x) + rest) == Some((x, rest)),
{
    lemma_auto_spec_u32_to_from_le_bytes();
    let s = spec_u32_to_le_bytes(x);
    assert((s + rest).take(4) =~= s);
    assert((s + rest).skip(4) =~= rest);
}

proof fn lemma_read_u64(x: u64, rest: Seq<u8>)
    ensures
        read_u64(spec_u64_to_le_bytes(x) + rest) == Some((x, rest)),
{
    lemma_auto_spec_u64_to_from_le_bytes();
    let s = spec_u64_to_le_bytes(x);
    assert((s + rest).take(8) =~= s);
    assert((s + rest).skip(8) =~= rest);
}

proof fn lemma_read_u128(x: u128, rest: Seq<u8>)
    ensures
        read_u128(spec_u128_to_le_bytes(x) + rest) == Some((x, rest)),
{
    lemma_auto_spec_u128_to_from_le_bytes();
    let s = spec_u128_to_le_bytes(x);
    assert((s + rest).take(16) =~= s);
    assert((s + rest).skip(16) =~= rest);
}

proof fn lemma_read_name(name: Seq<char>, rest: Seq<u8>)
    requires
        name_fits(name),
    ensures
        read_name(name_field(name) + rest) == Some((name, rest)),
{
    broadcast use vstd::utf8::group_utf8_lib;

    let e = encode_utf8(name);
    let n = e.len() as u64;
    assert(name_field(name) + rest =~= spec_u64_to_le_bytes(n) + (e + rest));
    lemma_read_u64(n, e + rest);
    assert((e + rest).take(n as int) =~= e);
    assert((e + rest).skip(n as int) =~= rest);
}

proof fn lemma_read_parent(parent: Option<u128>, rest: Seq<u8>)
    ensures
        read_parent(parent_field(parent) + rest) == Some((parent, rest)),
{
    let b = parent_field(parent) + rest;
    match parent {
        None => {
            assert(b.skip(1) =~= rest);
        },
        Some(id) => {
            assert(b.skip(1) =~= spec_u128_to_le_bytes(id) + rest);
            lemma_read_u128(id, rest);
        },
    }
}

proof fn lemma_read_file(f: FileInfo, rest: Seq<u8>)
    requires
        name_fits(f.name),
    ensures
        read_file(file_record(f) + rest) == Some((f, rest)),
{
    let b5 = parent_field(f.parent_id) + rest;
    let b4 = spec_u32_to_le_bytes(f.added_at.nanos) + b5;
    let b3 = spec_u64_to_le_bytes(f.added_at.secs as u64) + b4;
    let b2 = spec_u64_to_le_bytes(f.size) + b3;
    let b1 = name_field(f.name) + b2;
    assert(file_record(f) + rest =~= spec_u128_to_le_bytes(f.id) + b1);
    lemma_read_u128(f.id, b1);
    lemma_read_name(f.name, b2);
    lemma_read_u64(f.size, b3);
    lemma_read_u64(f.added_at.secs as u64, b4);
    lemma_read_u32(f.added_at.nanos, b5);
    lemma_read_parent(f.parent_id, rest);
    let secs = f.added_at.secs;
    assert(((secs as u64) as i64) == secs) by (bit_vector);
}

proof fn lemma_read_folder(d: FolderInfo, rest: Seq<u8>)
    requires
        name_fits(d.name),
    ensures
        read_folder(folder_record(d) + rest) == Some((d, rest)),
{
    let b2 = parent_field(d.parent_id) + rest;
    let b1 = name_field(d.name) + b2;
    assert(folder_record(d) + rest =~= spec_u128_to_le_bytes(d.id) + b1);
    lemma_read_u128(d.id, b1);
    lemma_read_name(d.name, b2);
    lemma_read_parent(d.parent_id, rest);
}

/// Records read back as the items they were written from, when each
/// item's record reads back as that item whatever follows it.
proof fn lemma_read_records<T>(
    items: Seq<T>,
    rest: Seq<u8>,
    record: spec_fn(T) -> Seq<u8>,
    read: spec_fn(Seq<u8>) -> Option<(T, Seq<u8>)>,
)
    requires
        forall|i: int, after: Seq<u8>|
            0 <= i < items.len() ==> #[trigger] read(record(#[trigger] items[i]) + after) == Some(
                (items[i], after),
            ),
    ensures
        read_records(records(items, record) + rest, items.len(), read) == Some((items, rest)),
    decreases items.len(),
{
    if items.len() == 0 {
        assert(records(items, record) + rest =~= rest);
        assert(Seq::<T>::empty() =~= items);
    } else {
        let tail = items.drop_first();
        let after = records(tail, record) + rest;
        assert(records(items, record) + rest =~= record(items[0]) + after);
        assert(read(record(items[0]) + after) == Some((items[0], after)));
        assert forall|i: int, a: Seq<u8>|
            0 <= i < tail.len() implies #[trigger] read(record(#[trigger] tail[i]) + a) == Some(
            (tail[i], a),
        ) by {
            assert(tail[i] == items[i + 1]);
        }
        lemma_read_records(tail, rest, record, read);
        assert(seq![items[0]] + tail =~= items);
    }
}

/// A block reads back as the contents it was written from.
pub proof fn content_reads_back(c: ContentInfo)
    requires
        encodable(c),
    ensures
        read_content(content_bytes(c)) == Some(c),
{
    let folder_part = records(c.folders, folder_rec());
    let after_files = spec_u64_to_le_bytes(c.folders.len() as u64) + folder_part;
    assert forall|i: int, after: Seq<u8>|
        0 <= i < c.files.len() implies #[trigger] file_reader()(
        file_rec()(#[trigger] c.files[i]) + after,
    ) == Some((c.files[i], after)) by {
        lemma_read_file(c.files[i], after);
    }
    lemma_read_records(c.files, after_files, file_rec(), file_reader());
    assert forall|i: int, after: Seq<u8>|
        0 <= i < c.folders.len() implies #[trigger] folder_reader()(
        folder_rec()(#[trigger] c.folders[i]) + after,
    ) == Some((c.folders[i], after)) by {
        lemma_read_folder(c.folders[i], after);
    }
    lemma_read_records(c.folders, Seq::empty(), folder_rec(), folder_reader());
    assert(folder_part + Seq::<u8>::empty() =~= folder_part);
    lemma_read_u64(c.files.len() as u64, records(c.files, file_rec()) + after_files);
    lemma_read_u64(c.folders.len() as u64, folder_part);
}


// ---------------------------------------------------------------------------
// Reading, executable.
// ---------------------------------------------------------------------------

/// What a reader at `pos` gives: the value and where the rest begins.
pub open spec fn read_at<T>(b: Seq<u8>, pos: int, r: Option<(T, usize)>, want: Option<(T, Seq<u8>)>) -> bool {
    match r {
        Some((x, p)) => pos <= p <= b.len() && want == Some((x, b.skip(p as int))),
        None => want is None,
    }
}

fn take_u32(b: &[u8], pos: usize) -> (r: Option<(u32, usize)>)
    requires
        pos <= b@.len(),
    ensures
        read_at(b@, pos as int, r, read_u32(b@.skip(pos as int))),
{
    if b.len() - pos < 4 {
        return None;
    }
    let x = u32_from_le_bytes(slice_subrange(b, pos, pos + 4));
    assert(b@.skip(pos as int).take(4) =~= b@.subrange(pos as int, pos + 4));
    assert(b@.skip(pos as int).skip(4) =~= b@.skip(pos + 4));
    Some((x, pos + 4))
}

fn take_u64(b: &[u8], pos: usize) -> (r: Option<(u64, usize)>)
    requires
        pos <= b@.len(),
    ensures
        read_at(b@, pos as int, r, read_u64(b@.skip(pos as int))),
{
    if b.len() - pos < 8 {
        return None;
    }
    let x = u64_from_le_bytes(slice_subrange(b, pos, pos + 8));
    assert(b@.skip(pos as int).take(8) =~= b@.subrange(pos as int, pos + 8));
    assert(b@.skip(pos as int).skip(8) =~= b@.skip(pos + 8));
    Some((x, pos + 8))
}

fn take_u128(b: &[u8], pos: usize) -> (r: Option<(u128, usize)>)
    requires
        pos <= b@.len(),
    ensures
        read_at(b@, pos as int, r, read_u128(b@.skip(pos as int))),
{
    if b.len() - pos < 16 {
        return None;
    }
    let x = u128_from_le_bytes(slice_subrange(b, pos, pos + 16));
    assert(b@.skip(pos as int).take(16) =~= b@.subrange(pos as int, pos + 16));
    assert(b@.skip(pos as int).skip(16) =~= b@.skip(pos + 16));
    Some((x, pos + 16))
}

fn take_name(b: &[u8], pos: usize) -> (r: Option<(String, usize)>)
    requires
        pos <= b@.len(),
    ensures
        match r {
            Some((s, p)) => pos <= p <= b@.len() && read_name(b@.skip(pos as int)) == Some(
                (s@, b@.skip(p as int)),
            ),
            None => read_name(b@.skip(pos as int)) is None,
        },
{
    let (n, p) = match take_u64(b, pos) {
        Some(x) => x,
        None => {
            return None;
        },
    };
    let ghost rest = b@.skip(p as int);
    if n > (b.len() - p) as u64 {
        return None;
    }
    let len = n as usize;
    let bytes = slice_to_vec(slice_subrange(b, p, p + len));
    assert(rest.take(n as int) =~= bytes@);
    assert(rest.skip(n as int) =~= b@.skip(p + len));
    match crate::text::string_from_utf8(bytes) {
        Ok(s) => Some((s, p + len)),
        Err(_) => None,
    }
}

fn take_parent(b: &[u8], pos: usize) -> (r: Option<(Option<u128>, usize)>)
    requires
        pos <= b@.len(),
    ensures
        read_at(b@, pos as int, r, read_parent(b@.skip(pos as int))),
{
    if pos == b.len() {
        return None;
    }
    let tag = b[pos];
    assert(b@.skip(pos as int)[0] == tag);
    assert(b@.skip(pos as int).skip(1) =~= b@.skip(pos + 1));
    if tag == 0 {
        Some((None, pos + 1))
    } else if tag == 1 {
        match take_u128(b, pos + 1) {
            Some((id, p)) => Some((Some(id), p)),
            None => None,
        }
    } else {
        None
    }
}

fn take_file(b: &[u8], pos: usize) -> (r: Option<(FileEntry, usize)>)
    requires
        pos <= b@.len(),
    ensures
        match r {
            Some((f, p)) => pos <= p <= b@.len() && read_file(b@.skip(pos as int)) == Some(
                (f@, b@.skip(p as int)),
            ),
            None => read_file(b@.skip(pos as int)) is None,
        },
{
    let (id, p1) = match take_u128(b, pos) {
        Some(x) => x,
        None => return None,
    };
    let (name, p2) = match take_name(b, p1) {
        Some(x) => x,
        None => return None,
    };
    let (size, p3) = match take_u64(b, p2) {
        Some(x) => x,
        None => return None,
    };
    let (secs, p4) = match take_u64(b, p3) {
        Some(x) => x,
        None => return None,
    };
    let (nanos, p5) = match take_u32(b, p4) {
        Some(x) => x,
        None => return None,
    };
    let (parent_id, p6) = match take_parent(b, p5) {
        Some(x) => x,
        None => return None,
    };
    let f = FileEntry {
        id,
        name,
        size,
        added_at: Timestamp { secs: secs as i64, nanos },
        parent_id,
    };
    Some((f, p6))
}

fn take_folder(b: &[u8], pos: usize) -> (r: Option<(Folder, usize)>)
    requires
        pos <= b@.len(),
    ensures
        match r {
            Some((d, p)) => pos <= p <= b@.len() && read_folder(b@.skip(pos as int)) == Some(
                (d@, b@.skip(p as int)),
            ),
            None => read_folder(b@.skip(pos as int)) is None,
        },
{
    let (id, p1) = match take_u128(b, pos) {
        Some(x) => x,
        None => return None,
    };
    let (name, p2) = match take_name(b, p1) {
        Some(x) => x,
        None => return None,
    };
    let (parent_id, p3) = match take_parent(b, p2) {
        Some(x) => x,
        None => return None,
    };
    Some((Folder { id, name, parent_id }, p3))
}

proof fn lemma_prepend_step<T>(done: Seq<T>, x: T, rest: Option<(Seq<T>, Seq<u8>)>)
    ensures
        prepend(done, prepend(seq![x], rest)) == prepend(done.push(x), rest),
{
    match rest {
        None => {},
        Some((more, left)) => {
            assert(done + (seq![x] + more) =~= done.push(x) + more);
        },
    }
}

fn take_files(b: &[u8], pos: usize, n: u64) -> (r: Option<(Vec<FileEntry>, usize)>)
    requires
        pos <= b@.len(),
    ensures
        match r {
            Some((v, p)) => pos <= p <= b@.len() && read_records(
                b@.skip(pos as int),
                n as nat,
                file_reader(),
            ) == Some((file_infos(v@), b@.skip(p as int))),
            None => read_records(b@.skip(pos as int), n as nat, file_reader()) is None,
        },
{
    let ghost want = read_records(b@.skip(pos as int), n as nat, file_reader());
    let mut out: Vec<FileEntry> = Vec::new();
    let mut p = pos;
    let mut k: u64 = 0;
    assert(prepend(Seq::<FileInfo>::empty(), want) == want) by {
        if want is Some {
            assert(Seq::<FileInfo>::empty() + want->Some_0.0 =~= want->Some_0.0);
        }
    }
    while k < n
        invariant
            pos <= p <= b@.len(),
            k <= n,
            want == read_records(b@.skip(pos as int), n as nat, file_reader()),
            want == prepend(
                file_infos(out@),
                read_records(b@.skip(p as int), (n - k) as nat, file_reader()),
            ),
        decreases n - k,
    {
        match take_file(b, p) {
            None => {
                return None;
            },
            Some((f, q)) => {
                proof {
                    lemma_prepend_step(
                        file_infos(out@),
                        f@,
                        read_records(b@.skip(q as int), (n - k - 1) as nat, file_reader()),
                    );
                    assert(file_infos(out@.push(f)) =~= file_infos(out@).push(f@));
                }
                out.push(f);
                p = q;
                k = k + 1;
            },
        }
    }
    assert(file_infos(out@) + Seq::<FileInfo>::empty() =~= file_infos(out@));
    Some((out, p))
}

fn take_folders(b: &[u8], pos: usize, n: u64) -> (r: Option<(Vec<Folder>, usize)>)
    requires
        pos <= b@.len(),
    ensures
        match r {
            Some((v, p)) => pos <= p <= b@.len() && read_records(
                b@.skip(pos as int),
                n as nat,
                folder_reader(),
            ) == Some((folder_infos(v@), b@.skip(p as int))),
            None => read_records(b@.skip(pos as int), n as nat, folder_reader()) is None,
        },
{
    let ghost want = read_records(b@.skip(pos as int), n as nat, folder_reader());
    let mut out: Vec<Folder> = Vec::new();
    let mut p = pos;
    let mut k: u64 = 0;
    assert(prepend(Seq::<FolderInfo>::empty(), want) == want) by {
        if want is Some {
            assert(Seq::<FolderInfo>::empty() + want->Some_0.0 =~= want->Some_0.0);
        }
    }
    while k < n
        invariant
            pos <= p <= b@.len(),
            k <= n,
            want == read_records(b@.skip(pos as int), n as nat, folder_reader()),
            want == prepend(
                folder_infos(out@),
                read_records(b@.skip(p as int), (n - k) as nat, folder_reader()),
            ),
        decreases n - k,
    {
        match take_folder(b, p) {
            None => {
                return None;
            },
            Some((d, q)) => {
                proof {
                    lemma_prepend_step(
                        folder_infos(out@),
                        d@,
                        read_records(b@.skip(q as int), (n - k - 1) as nat, folder_reader()),
                    );
                    assert(folder_infos(out@.push(d)) =~= folder_infos(out@).push(d@));
                }
                out.push(d);
                p = q;
                k = k + 1;
            },
        }
    }
    assert(folder_infos(out@) + Seq::<FolderInfo>::empty() =~= folder_infos(out@));
    Some((out, p))
}

/// The contents a block holds; `None` for a malformed block.
pub fn decode_content(b: &[u8]) -> (r: Option<VaultContent>)
    ensures
        match r {
            Some(c) => read_content(b@) == Some(c@),
            None => read_content(b@) is None,
        },
{
    assert(b@.skip(0) =~= b@);
    let (nf, p1) = match take_u64(b, 0) {
        Some(x) => x,
        None => return None,
    };
    let (files, p2) = match take_files(b, p1, nf) {
        Some(x) => x,
        None => return None,
    };
    let (nd, p3) = match take_u64(b, p2) {
        Some(x) => x,
        None => return None,
    };
    let (folders, p4) = match take_folders(b, p3, nd) {
        Some(x) => x,
        None => return None,
    };
    if p4 != b.len() {
        return None;
    }
    assert(b@.skip(p4 as int).len() == 0);
    Some(VaultContent { files, folders })
}


// ---------------------------------------------------------------------------
// The file and folder lists.
// ---------------------------------------------------------------------------

/// The contents of a new vault: nothing.
pub open spec fn empty_content() -> ContentInfo {
    ContentInfo { files: Seq::empty(), folders: Seq::empty() }
}

/// The block of an empty vault is its two counts.
pub proof fn empty_content_len()
    ensures
        content_bytes(empty_content()).len() == 16,
{
    lemma_auto_spec_u64_to_from_le_bytes();
    assert(records(Seq::<FileInfo>::empty(), file_rec()) == Seq::<u8>::empty());
    assert(records(Seq::<FolderInfo>::empty(), folder_rec()) == Seq::<u8>::empty());
}

/// `i` is the first file of `files` with identifier `id`.
pub open spec fn first_file_with_id(files: Seq<FileInfo>, id: u128, i: int) -> bool {
    &&& 0 <= i < files.len()
    &&& files[i].id == id
    &&& forall|j: int| 0 <= j < i ==> (#[trigger] files[j]).id != id
}

pub open spec fn has_file(files: Seq<FileInfo>, id: u128) -> bool {
    exists|i: int| 0 <= i < files.len() && (#[trigger] files[i]).id == id
}

/// `c` with `f` added after its other files.
pub open spec fn with_file(c: ContentInfo, f: FileInfo) -> ContentInfo {
    ContentInfo { files: c.files.push(f), folders: c.folders }
}

/// `c` with the `i`-th file shown under `name`.
pub open spec fn with_file_renamed(c: ContentInfo, i: int, name: Seq<char>) -> ContentInfo {
    ContentInfo {
        files: c.files.update(i, FileInfo { name, ..c.files[i] }),
        folders: c.folders,
    }
}

/// `c` without any file with identifier `id`.
pub open spec fn without_file(c: ContentInfo, id: u128) -> ContentInfo {
    ContentInfo { files: c.files.filter(|f: FileInfo| f.id != id), folders: c.folders }
}

/// The position of the first file with identifier `id`, if any.
pub fn find_file(content: &VaultContent, file_id: u128) -> (r: Option<usize>)
    ensures
        r matches Some(i) ==> first_file_with_id(content@.files, file_id, i as int),
        r is None <==> !has_file(content@.files, file_id),
{
    let ghost infos = content@.files;
    let mut i: usize = 0;
    while i < content.files.len()
        invariant
            i <= content.files@.len(),
            infos == content@.files,
            forall|j: int| 0 <= j < i ==> (#[trigger] infos[j]).id != file_id,
        decreases content.files@.len() - i,
    {
        assert(infos[i as int] == content.files@[i as int]@);
        if content.files[i].id == file_id {
            return Some(i);
        }
        i = i + 1;
    }
    None
}

/// Appends `entry` after the other files.
pub fn push_file(content: &mut VaultContent, entry: FileEntry)
    ensures
        final(content)@ == with_file(old(content)@, entry@),
{
    content.files.push(entry);
    assert(content@.files =~= old(content)@.files.push(entry@));
    assert(content@ =~= with_file(old(content)@, entry@));
}

/// Shows the file `file_id` under `new_name`; its identifier, size, date
/// and folder stay.
pub fn rename_entry(content: &mut VaultContent, file_id: u128, new_name: &str) -> (r: AppResult<()>)
    ensures
        r is Err <==> !has_file(old(content)@.files, file_id),
        r is Err ==> (r matches Err(AppError::FileNotFound) && *final(content) == *old(content)),
        r is Ok ==> exists|i: int|
            first_file_with_id(old(content)@.files, file_id, i) && final(content)@
                == #[trigger] with_file_renamed(old(content)@, i, new_name@),
{
    let i = match find_file(content, file_id) {
        Some(i) => i,
        None => {
            return Err(AppError::FileNotFound);
        },
    };
    let ghost before = content.files@;
    let mut entry = content.files.remove(i);
    entry.name = new_name.to_string();
    content.files.insert(i, entry);
    assert(content@.files =~= old(content)@.files.update(
        i as int,
        FileInfo { name: new_name@, ..old(content)@.files[i as int] },
    ));
    assert(content@ =~= with_file_renamed(old(content)@, i as int, new_name@));
    Ok(())
}

/// Drops every file with identifier `file_id`; refused when there is none.
pub fn remove_entry(content: &mut VaultContent, file_id: u128) -> (r: AppResult<()>)
    ensures
        r is Err <==> !has_file(old(content)@.files, file_id),
        r is Err ==> (r matches Err(AppError::FileNotFound) && *final(content) == *old(content)),
        r is Ok ==> final(content)@ == without_file(old(content)@, file_id),
{
    if find_file(content, file_id).is_none() {
        return Err(AppError::FileNotFound);
    }
    let ghost before = content.files@;
    let ghost infos = content@.files;
    let ghost keep = |f: FileInfo| f.id != file_id;
    let mut rest: Vec<FileEntry> = Vec::new();
    std::mem::swap(&mut rest, &mut content.files);
    let mut taken: Vec<FileEntry> = Vec::new();
    // Walk the old list back to front, so each entry can be moved out.
    while rest.len() > 0
        invariant
            rest@ == before.take(rest@.len() as int),
            rest@.len() <= before.len(),
            infos == file_infos(before),
            keep == (|f: FileInfo| f.id != file_id),
            file_infos(taken@) == infos.skip(rest@.len() as int).filter(keep).reverse(),
        decreases rest@.len(),
    {
        let ghost k = rest@.len();
        let f = rest.pop().unwrap();
        proof {
            let tail = infos.skip(k - 1);
            assert(tail.drop_first() =~= infos.skip(k as int));
            assert(tail[0] == f@);
            lemma_filter_cons(tail, keep);
        }
        if f.id != file_id {
            let ghost prev = taken@;
            taken.push(f);
            proof {
                let x = infos.skip(k as int).filter(keep);
                assert(keep(f@));
                assert(file_infos(taken@) =~= file_infos(prev).push(f@));
                assert((seq![f@] + x).reverse() =~= x.reverse().push(f@));
            }
            assert(file_infos(taken@) =~= infos.skip(k - 1).filter(keep).reverse());
        } else {
            assert(file_infos(taken@) =~= infos.skip(k - 1).filter(keep).reverse());
        }
        assert(rest@ =~= before.take(rest@.len() as int));
    }
    assert(infos.skip(0) =~= infos);
    let mut kept: Vec<FileEntry> = Vec::new();
    while taken.len() > 0
        invariant
            keep == (|f: FileInfo| f.id != file_id),
            file_infos(kept@) + file_infos(taken@).reverse() == infos.filter(keep),
        decreases taken@.len(),
    {
        let ghost t = taken@;
        let f = taken.pop().unwrap();
        proof {
            assert(file_infos(t).reverse() =~= seq![f@] + file_infos(taken@).reverse());
        }
        kept.push(f);
        assert(file_infos(kept@) + file_infos(taken@).reverse() =~= infos.filter(keep));
    }
    assert(file_infos(taken@).reverse() =~= Seq::<FileInfo>::empty());
    assert(file_infos(kept@) =~= infos.filter(keep));
    content.files = kept;
    assert(content@ =~= without_file(old(content)@, file_id));
    Ok(())
}


/// `i` is the first folder of `folders` with identifier `id`.
pub open spec fn first_folder_with_id(folders: Seq<FolderInfo>, id: u128, i: int) -> bool {
    &&& 0 <= i < folders.len()
    &&& folders[i].id == id
    &&& forall|j: int| 0 <= j < i ==> (#[trigger] folders[j]).id != id
}

pub open spec fn has_folder(folders: Seq<FolderInfo>, id: u128) -> bool {
    exists|i: int| 0 <= i < folders.len() && (#[trigger] folders[i]).id == id
}

/// `c` with `d` added after its other folders.
pub open spec fn with_folder(c: ContentInfo, d: FolderInfo) -> ContentInfo {
    ContentInfo { files: c.files, folders: c.folders.push(d) }
}

/// `c` with the `i`-th folder shown under `name`.
pub open spec fn with_folder_renamed(c: ContentInfo, i: int, name: Seq<char>) -> ContentInfo {
    ContentInfo {
        files: c.files,
        folders: c.folders.update(i, FolderInfo { name, ..c.folders[i] }),
    }
}

/// A folder's identifier does not change how long the block is.
pub proof fn lemma_with_folder_len(c: ContentInfo, d: FolderInfo, id: u128)
    ensures
        content_bytes(with_folder(c, d)).len() == content_bytes(
            with_folder(c, FolderInfo { id, ..d }),
        ).len(),
{
    lemma_records_push(c.folders, d, folder_rec());
    lemma_records_push(c.folders, FolderInfo { id, ..d }, folder_rec());
    lemma_auto_spec_u128_to_from_le_bytes();
    lemma_auto_spec_u64_to_from_le_bytes();
}

/// The position of the first folder with identifier `id`, if any.
pub fn find_folder(content: &VaultContent, folder_id: u128) -> (r: Option<usize>)
    ensures
        r matches Some(i) ==> first_folder_with_id(content@.folders, folder_id, i as int),
        r is None <==> !has_folder(content@.folders, folder_id),
{
    let ghost infos = content@.folders;
    let mut i: usize = 0;
    while i < content.folders.len()
        invariant
            i <= content.folders@.len(),
            infos == content@.folders,
            forall|j: int| 0 <= j < i ==> (#[trigger] infos[j]).id != folder_id,
        decreases content.folders@.len() - i,
    {
        assert(infos[i as int] == content.folders@[i as int]@);
        if content.folders[i].id == folder_id {
            return Some(i);
        }
        i = i + 1;
    }
    None
}

/// Appends `folder` after the other folders.
pub fn push_folder(content: &mut VaultContent, folder: Folder)
    ensures
        final(content)@ == with_folder(old(content)@, folder@),
{
    content.folders.push(folder);
    assert(content@.folders =~= old(content)@.folders.push(folder@));
    assert(content@ =~= with_folder(old(content)@, folder@));
}

/// Shows the folder `folder_id` under `new_name`; its place in the tree
/// stays.
pub fn rename_folder_entry(content: &mut VaultContent, folder_id: u128, new_name: &str) -> (r:
    AppResult<()>)
    ensures
        r is Err <==> !has_folder(old(content)@.folders, folder_id),
        r is Err ==> (r matches Err(AppError::Crypto(_)) && *final(content) == *old(content)),
        r is Ok ==> exists|i: int|
            first_folder_with_id(old(content)@.folders, folder_id, i) && final(content)@
                == #[trigger] with_folder_renamed(old(content)@, i, new_name@),
{
    let i = match find_folder(content, folder_id) {
        Some(i) => i,
        None => {
            return Err(AppError::Crypto("dossier introuvable".to_string()));
        },
    };
    let mut folder = content.folders.remove(i);
    folder.name = new_name.to_string();
    content.folders.insert(i, folder);
    assert(content@.folders =~= old(content)@.folders.update(
        i as int,
        FolderInfo { name: new_name@, ..old(content)@.folders[i as int] },
    ));
    assert(content@ =~= with_folder_renamed(old(content)@, i as int, new_name@));
    Ok(())
}

/// `parent` is the folder `root` or lies inside it, following at most
/// `steps` parent links through `folders`.
pub open spec fn within(folders: Seq<FolderInfo>, parent: Option<u128>, root: u128, steps: nat) -> bool
    decreases steps,
{
    match parent {
        None => false,
        Some(p) => p == root || (steps > 0 && exists|i: int|
            0 <= i < folders.len() && (#[trigger] folders[i]).id == p && within(
                folders,
                folders[i].parent_id,
                root,
                (steps - 1) as nat,
            )),
    }
}

/// `parent` is the folder `root` or one of its subfolders, at any depth:
/// a chain of parents longer than the number of folders would repeat one.
pub open spec fn inside(c: ContentInfo, parent: Option<u128>, root: u128) -> bool {
    within(c.folders, parent, root, c.folders.len())
}

/// `c` without the folder `root`, its subfolders at every depth and every
/// file in any of them.
pub open spec fn without_folder(c: ContentInfo, root: u128) -> ContentInfo {
    ContentInfo {
        files: c.files.filter(|f: FileInfo| !inside(c, f.parent_id, root)),
        folders: c.folders.filter(|d: FolderInfo| !inside(c, Some(d.id), root)),
    }
}

/// `parent` is one of `ids`.
pub open spec fn under(ids: Seq<u128>, parent: Option<u128>) -> bool {
    parent matches Some(p) && ids.contains(p)
}

fn contains_id(ids: &Vec<u128>, x: u128) -> (r: bool)
    ensures
        r == ids@.contains(x),
{
    let mut i: usize = 0;
    while i < ids.len()
        invariant
            i <= ids@.len(),
            forall|j: int| 0 <= j < i ==> ids@[j] != x,
        decreases ids@.len() - i,
    {
        if ids[i] == x {
            return true;
        }
        i = i + 1;
    }
    false
}

/// The identifiers of `root` and of every folder inside it.
fn doomed_ids(content: &VaultContent, root: u128) -> (r: Vec<u128>)
    ensures
        forall|x: u128| r@.contains(x) <==> inside(content@, Some(x), root),
{
    let ghost folders = content@.folders;
    let n = content.folders.len();
    let mut cur: Vec<u128> = Vec::new();
    cur.push(root);
    proof {
        assert forall|x: u128| cur@.contains(x) <==> within(folders, Some(x), root, 0) by {
            if x == root {
                assert(cur@[0] == x);
            }
        }
    }
    let mut k: usize = 0;
    while k < n
        invariant
            k <= n,
            n == content.folders@.len(),
            folders == content@.folders,
            forall|x: u128| cur@.contains(x) <==> within(folders, Some(x), root, k as nat),
        decreases n - k,
    {
        let mut next: Vec<u128> = Vec::new();
        next.push(root);
        proof {
            assert forall|x: u128| next@.contains(x) <==> x == root by {
                if x == root {
                    assert(next@[0] == x);
                }
            }
        }
        let mut i: usize = 0;
        while i < n
            invariant
                i <= n,
                n == content.folders@.len(),
                folders == content@.folders,
                forall|x: u128| cur@.contains(x) <==> within(folders, Some(x), root, k as nat),
                forall|x: u128|
                    next@.contains(x) <==> (x == root || exists|j: int|
                        0 <= j < i && (#[trigger] folders[j]).id == x && under(
                            cur@,
                            folders[j].parent_id,
                        )),
            decreases n - i,
        {
            let d = &content.folders[i];
            assert(folders[i as int] == d@);
            let hit = match d.parent_id {
                Some(p) => contains_id(&cur, p),
                None => false,
            };
            let ghost before = next@;
            if hit {
                next.push(d.id);
            }
            proof {
                assert forall|x: u128|
                    next@.contains(x) <==> (x == root || exists|j: int|
                        0 <= j < i + 1 && (#[trigger] folders[j]).id == x && under(
                            cur@,
                            folders[j].parent_id,
                        )) by {
                    if next@.contains(x) && !before.contains(x) {
                        assert(x == d.id);
                        assert(folders[i as int].id == x);
                    }
                    if before.contains(x) {
                        let w = choose|w: int| 0 <= w < before.len() && before[w] == x;
                        assert(next@[w] == x);
                    }
                    if exists|j: int|
                        0 <= j < i + 1 && (#[trigger] folders[j]).id == x && under(
                            cur@,
                            folders[j].parent_id,
                        ) {
                        let j = choose|j: int|
                            0 <= j < i + 1 && (#[trigger] folders[j]).id == x && under(
                                cur@,
                                folders[j].parent_id,
                            );
                        if j == i {
                            assert(hit);
                            assert(next@[next@.len() - 1] == x);
                        }
                    }
                }
            }
            i = i + 1;
        }
        proof {
            assert forall|x: u128|
                next@.contains(x) <==> within(folders, Some(x), root, (k + 1) as nat) by {
                if x != root {
                    if next@.contains(x) {
                        let j = choose|j: int|
                            0 <= j < n && (#[trigger] folders[j]).id == x && under(
                                cur@,
                                folders[j].parent_id,
                            );
                        let q = folders[j].parent_id->Some_0;
                        assert(within(folders, Some(q), root, k as nat));
                        assert(within(folders, folders[j].parent_id, root, k as nat));
                    }
                    if within(folders, Some(x), root, (k + 1) as nat) {
                        let j = choose|j: int|
                            0 <= j < folders.len() && (#[trigger] folders[j]).id == x && within(
                                folders,
                                folders[j].parent_id,
                                root,
                                k as nat,
                            );
                        let q = folders[j].parent_id->Some_0;
                        assert(cur@.contains(q));
                        assert(under(cur@, folders[j].parent_id));
                    }
                }
            }
        }
        cur = next;
        k = k + 1;
    }
    cur
}

/// Keeps the files that are not in one of the folders `ids`.
fn retain_files(files: Vec<FileEntry>, ids: &Vec<u128>) -> (r: Vec<FileEntry>)
    ensures
        file_infos(r@) == file_infos(files@).filter(|f: FileInfo| !under(ids@, f.parent_id)),
{
    let ghost before = files@;
    let ghost infos = file_infos(files@);
    let ghost keep = |f: FileInfo| !under(ids@, f.parent_id);
    let mut rest = files;
    let mut taken: Vec<FileEntry> = Vec::new();
    while rest.len() > 0
        invariant
            rest@ == before.take(rest@.len() as int),
            rest@.len() <= before.len(),
            infos == file_infos(before),
            keep == (|f: FileInfo| !under(ids@, f.parent_id)),
            file_infos(taken@) == infos.skip(rest@.len() as int).filter(keep).reverse(),
        decreases rest@.len(),
    {
        let ghost k = rest@.len();
        let f = rest.pop().unwrap();
        proof {
            let tail = infos.skip(k - 1);
            assert(tail.drop_first() =~= infos.skip(k as int));
            assert(tail[0] == f@);
            lemma_filter_cons(tail, keep);
        }
        let hit = match f.parent_id {
            Some(p) => contains_id(ids, p),
            None => false,
        };
        if !hit {
            let ghost prev = taken@;
            taken.push(f);
            proof {
                let x = infos.skip(k as int).filter(keep);
                assert(keep(f@));
                assert(file_infos(taken@) =~= file_infos(prev).push(f@));
                assert((seq![f@] + x).reverse() =~= x.reverse().push(f@));
            }
        }
        assert(file_infos(taken@) =~= infos.skip(k - 1).filter(keep).reverse());
        assert(rest@ =~= before.take(rest@.len() as int));
    }
    assert(infos.skip(0) =~= infos);
    let mut kept: Vec<FileEntry> = Vec::new();
    while taken.len() > 0
        invariant
            keep == (|f: FileInfo| !under(ids@, f.parent_id)),
            file_infos(kept@) + file_infos(taken@).reverse() == infos.filter(keep),
        decreases taken@.len(),
    {
        let ghost t = taken@;
        let f = taken.pop().unwrap();
        proof {
            assert(file_infos(t).reverse() =~= seq![f@] + file_infos(taken@).reverse());
        }
        kept.push(f);
        assert(file_infos(kept@) + file_infos(taken@).reverse() =~= infos.filter(keep));
    }
    assert(file_infos(taken@).reverse() =~= Seq::<FileInfo>::empty());
    assert(file_infos(kept@) =~= infos.filter(keep));
    kept
}

/// Keeps the folders that are not among `ids`.
fn retain_folders(folders: Vec<Folder>, ids: &Vec<u128>) -> (r: Vec<Folder>)
    ensures
        folder_infos(r@) == folder_infos(folders@).filter(|d: FolderInfo| !ids@.contains(d.id)),
{
    let ghost before = folders@;
    let ghost infos = folder_infos(folders@);
    let ghost keep = |d: FolderInfo| !ids@.contains(d.id);
    let mut rest = folders;
    let mut taken: Vec<Folder> = Vec::new();
    while rest.len() > 0
        invariant
            rest@ == before.take(rest@.len() as int),
            rest@.len() <= before.len(),
            infos == folder_infos(before),
            keep == (|d: FolderInfo| !ids@.contains(d.id)),
            folder_infos(taken@) == infos.skip(rest@.len() as int).filter(keep).reverse(),
        decreases rest@.len(),
    {
        let ghost k = rest@.len();
        let d = rest.pop().unwrap();
        proof {
            let tail = infos.skip(k - 1);
            assert(tail.drop_first() =~= infos.skip(k as int));
            assert(tail[0] == d@);
            lemma_filter_cons(tail, keep);
        }
        if !contains_id(ids, d.id) {
            let ghost prev = taken@;
            taken.push(d);
            proof {
                let x = infos.skip(k as int).filter(keep);
                assert(keep(d@));
                assert(folder_infos(taken@) =~= folder_infos(prev).push(d@));
                assert((seq![d@] + x).reverse() =~= x.reverse().push(d@));
            }
        }
        assert(folder_infos(taken@) =~= infos.skip(k - 1).filter(keep).reverse());
        assert(rest@ =~= before.take(rest@.len() as int));
    }
    assert(infos.skip(0) =~= infos);
    let mut kept: Vec<Folder> = Vec::new();
    while taken.len() > 0
        invariant
            keep == (|d: FolderInfo| !ids@.contains(d.id)),
            folder_infos(kept@) + folder_infos(taken@).reverse() == infos.filter(keep),
        decreases taken@.len(),
    {
        let ghost t = taken@;
        let d = taken.pop().unwrap();
        proof {
            assert(folder_infos(t).reverse() =~= seq![d@] + folder_infos(taken@).reverse());
        }
        kept.push(d);
        assert(folder_infos(kept@) + folder_infos(taken@).reverse() =~= infos.filter(keep));
    }
    assert(folder_infos(taken@).reverse() =~= Seq::<FolderInfo>::empty());
    assert(folder_infos(kept@) =~= infos.filter(keep));
    kept
}

/// The identifiers of the files of `c` inside the folder `root`.
pub open spec fn files_inside(c: ContentInfo, root: u128) -> Seq<u128> {
    c.files.filter(|f: FileInfo| inside(c, f.parent_id, root)).map_values(|f: FileInfo| f.id)
}

/// The identifiers of the files in one of the folders `ids`.
fn ids_under(files: &Vec<FileEntry>, ids: &Vec<u128>) -> (r: Vec<u128>)
    ensures
        r@ == file_infos(files@).filter(|f: FileInfo| under(ids@, f.parent_id)).map_values(
            |f: FileInfo| f.id,
        ),
{
    let ghost infos = file_infos(files@);
    let ghost hit_by = |f: FileInfo| under(ids@, f.parent_id);
    let mut out: Vec<u128> = Vec::new();
    let mut i: usize = 0;
    assert(infos.take(0).filter(hit_by) =~= Seq::<FileInfo>::empty()) by {
        reveal(Seq::filter);
    }
    while i < files.len()
        invariant
            i <= files@.len(),
            infos == file_infos(files@),
            hit_by == (|f: FileInfo| under(ids@, f.parent_id)),
            out@ == infos.take(i as int).filter(hit_by).map_values(|f: FileInfo| f.id),
        decreases files@.len() - i,
    {
        let f = &files[i];
        assert(infos[i as int] == f@);
        let hit = match f.parent_id {
            Some(p) => contains_id(ids, p),
            None => false,
        };
        proof {
            reveal(Seq::filter);
            assert(infos.take(i + 1).drop_last() =~= infos.take(i as int));
            assert(infos.take(i + 1).last() == f@);
        }
        if hit {
            out.push(f.id);
        }
        assert(out@ =~= infos.take(i + 1).filter(hit_by).map_values(|f: FileInfo| f.id));
        i = i + 1;
    }
    assert(infos.take(i as int) =~= infos);
    out
}

/// Drops the folder `root`, its subfolders at every depth and every file
/// in any of them; refused when there is no such folder.
/// Returns the identifiers of the files dropped.
pub fn delete_folder_entry(content: &mut VaultContent, root: u128) -> (r: AppResult<Vec<u128>>)
    ensures
        r is Err <==> !has_folder(old(content)@.folders, root),
        r is Err ==> (r matches Err(AppError::Crypto(_)) && *final(content) == *old(content)),
        r is Ok ==> final(content)@ == without_folder(old(content)@, root),
        r matches Ok(gone) ==> gone@ == files_inside(old(content)@, root),
{
    if find_folder(content, root).is_none() {
        return Err(AppError::Crypto("dossier introuvable".to_string()));
    }
    let ghost c = content@;
    let ids = doomed_ids(content, root);
    let gone = ids_under(&content.files, &ids);
    let mut files: Vec<FileEntry> = Vec::new();
    let mut folders: Vec<Folder> = Vec::new();
    std::mem::swap(&mut files, &mut content.files);
    std::mem::swap(&mut folders, &mut content.folders);
    let kept_files = retain_files(files, &ids);
    let kept_folders = retain_folders(folders, &ids);
    proof {
        let p1 = |f: FileInfo| !under(ids@, f.parent_id);
        let q1 = |f: FileInfo| !inside(c, f.parent_id, root);
        assert forall|f: FileInfo| #[trigger] p1(f) == q1(f) by {
            if f.parent_id is Some {
                let p = f.parent_id->Some_0;
                assert(ids@.contains(p) == inside(c, Some(p), root));
            }
        }
        assert(p1 =~= q1);
        let h1 = |f: FileInfo| under(ids@, f.parent_id);
        let g1 = |f: FileInfo| inside(c, f.parent_id, root);
        assert forall|f: FileInfo| #[trigger] h1(f) == g1(f) by {
            if f.parent_id is Some {
                let p = f.parent_id->Some_0;
                assert(ids@.contains(p) == inside(c, Some(p), root));
            }
        }
        assert(h1 =~= g1);
        let p2 = |d: FolderInfo| !ids@.contains(d.id);
        let q2 = |d: FolderInfo| !inside(c, Some(d.id), root);
        assert forall|d: FolderInfo| #[trigger] p2(d) == q2(d) by {
            assert(ids@.contains(d.id) == inside(c, Some(d.id), root));
        }
        assert(p2 =~= q2);
    }
    content.files = kept_files;
    content.folders = kept_folders;
    assert(content@ =~= without_folder(c, root));
    Ok(gone)
}

// ---------------------------------------------------------------------------
// The encrypted block.
// ---------------------------------------------------------------------------

/// `blob` decrypts under `dek` to a well-formed block that holds `c`.
pub open spec fn holds_content(dek: Seq<u8>, blob: Seq<u8>, c: ContentInfo) -> bool {
    exists|p: Seq<u8>| #[trigger] unwraps_to(dek, blob, p) && read_content(p) == Some(c)
}

/// `blob` is `c`'s block sealed under `dek`, as sealing writes it.
pub open spec fn seals_content(dek: Seq<u8>, blob: Seq<u8>, c: ContentInfo) -> bool {
    encodable(c) && opens_to(dek, blob, content_bytes(c))
}

/// A sealed block holds what was sealed in it.
pub proof fn sealed_content_is_held(dek: Seq<u8>, blob: Seq<u8>, c: ContentInfo)
    requires
        seals_content(dek, blob, c),
    ensures
        holds_content(dek, blob, c),
{
    content_reads_back(c);
    assert(unwraps_to(dek, blob, content_bytes(c)));
}

/// Encrypts the block of `content` under the DEK, with a fresh nonce.
/// Fails only for a block larger than AES-GCM encrypts.
pub fn seal_content(content: &VaultContent, dek: &VaultKey) -> (r: AppResult<Vec<u8>>)
    ensures
        r is Ok <==> content_bytes(content@).len() <= AES_GCM_MAX_PLAINTEXT,
        r matches Ok(v) ==> seals_content(dek.0@, v@, content@) && holds_content(
            dek.0@,
            v@,
            content@,
        ),
        r matches Err(e) ==> e is Crypto,
        encodable(content@),
{
    let bytes = encode_content(content);
    let r = crypto::encrypt(dek, bytes.as_slice());
    proof {
        if r is Ok {
            sealed_content_is_held(dek.0@, r->Ok_0@, content@);
        }
    }
    r
}

/// Decrypts `blob` under the DEK and reads the contents it holds. A blob
/// that does not authenticate under the DEK is refused as a wrong
/// password, a malformed one as a cryptographic error.
pub fn open_content(blob: &[u8], dek: &VaultKey) -> (r: AppResult<VaultContent>)
    ensures
        r matches Ok(c) ==> holds_content(dek.0@, blob@, c@),
        forall|c: ContentInfo| #[trigger]
            seals_content(dek.0@, blob@, c) ==> r is Ok && r->Ok_0@ == c,
        r matches Err(e) ==> (e is WrongPassword || e is Crypto),
{
    let bytes = crypto::decrypt(dek, blob)?;
    let ghost p = bytes@;
    match decode_content(bytes.as_slice()) {
        Some(c) => {
            proof {
                assert(unwraps_to(dek.0@, blob@, p));
                assert forall|x: ContentInfo| #[trigger] seals_content(dek.0@, blob@, x) implies c@ == x by {
                    content_reads_back(x);
                }
            }
            Ok(c)
        },
        None => {
            proof {
                assert forall|x: ContentInfo| !#[trigger] seals_content(dek.0@, blob@, x) by {
                    if seals_content(dek.0@, blob@, x) {
                        content_reads_back(x);
                    }
                }
            }
            Err(AppError::Crypto("contenu du coffre illisible".to_string()))
        },
    }
}

// ---------------------------------------------------------------------------
// Laws.
// ---------------------------------------------------------------------------

/// Once a folder is deleted, neither it nor any folder or file that was
/// inside it is left, and every other folder and file stays.
pub proof fn deleted_folder_leaves_nothing_inside(c: ContentInfo, root: u128)
    ensures
        !has_folder(without_folder(c, root).folders, root),
        forall|i: int|
            0 <= i < without_folder(c, root).folders.len() ==> !inside(
                c,
                Some(#[trigger] without_folder(c, root).folders[i].id),
                root,
            ),
        forall|i: int|
            0 <= i < without_folder(c, root).files.len() ==> !inside(
                c,
                #[trigger] without_folder(c, root).files[i].parent_id,
                root,
            ),
        forall|d: FolderInfo|
            c.folders.contains(d) && !inside(c, Some(d.id), root) ==> #[trigger] without_folder(
                c,
                root,
            ).folders.contains(d),
        forall|f: FileInfo|
            c.files.contains(f) && !inside(c, f.parent_id, root) ==> #[trigger] without_folder(
                c,
                root,
            ).files.contains(f),
{
    let keep_d = |d: FolderInfo| !inside(c, Some(d.id), root);
    let keep_f = |f: FileInfo| !inside(c, f.parent_id, root);
    let ds = without_folder(c, root).folders;
    let fs = without_folder(c, root).files;
    assert forall|i: int| 0 <= i < ds.len() implies !inside(c, Some(#[trigger] ds[i].id), root) by {
        c.folders.lemma_filter_pred(keep_d, i);
    }
    assert forall|i: int| 0 <= i < fs.len() implies !inside(c, #[trigger] fs[i].parent_id, root) by {
        c.files.lemma_filter_pred(keep_f, i);
    }
    assert forall|i: int| 0 <= i < ds.len() implies (#[trigger] ds[i]).id != root by {
        c.folders.lemma_filter_pred(keep_d, i);
    }
    assert forall|d: FolderInfo|
        c.folders.contains(d) && !inside(c, Some(d.id), root) implies #[trigger] ds.contains(d) by {
        let i = choose|i: int| 0 <= i < c.folders.len() && c.folders[i] == d;
        c.folders.lemma_filter_contains(keep_d, i);
    }
    assert forall|f: FileInfo|
        c.files.contains(f) && !inside(c, f.parent_id, root) implies #[trigger] fs.contains(f) by {
        let i = choose|i: int| 0 <= i < c.files.len() && c.files[i] == f;
        c.files.lemma_filter_contains(keep_f, i);
    }
}

/// The folder `child` sits directly in the folder `parent`.
pub open spec fn child_of(folders: Seq<FolderInfo>, child: u128, parent: u128) -> bool {
    exists|i: int|
        0 <= i < folders.len() && (#[trigger] folders[i]).id == child && folders[i].parent_id
            == Some(parent)
}

/// `ch` is a chain of folders, each sitting directly in the next, that ends
/// at `root`.
pub open spec fn parent_chain(folders: Seq<FolderInfo>, ch: Seq<u128>, root: u128) -> bool {
    &&& ch.len() >= 1
    &&& ch.last() == root
    &&& forall|k: int| #![trigger ch[k]] 0 <= k < ch.len() - 1 ==> child_of(folders, ch[k], ch[k + 1])
}

proof fn lemma_chain_within(folders: Seq<FolderInfo>, ch: Seq<u128>, root: u128, steps: nat)
    requires
        parent_chain(folders, ch, root),
        ch.len() <= steps + 1,
    ensures
        within(folders, Some(ch[0]), root, steps),
    decreases ch.len(),
{
    if ch[0] != root {
        assert(ch.len() >= 2);
        assert(child_of(folders, ch[0], ch[1]));
        let i = choose|i: int|
            0 <= i < folders.len() && (#[trigger] folders[i]).id == ch[0] && folders[i].parent_id
                == Some(ch[1]);
        let rest = ch.drop_first();
        assert forall|k: int| #![trigger rest[k]] 0 <= k < rest.len() - 1 implies child_of(
            folders,
            rest[k],
            rest[k + 1],
        ) by {
            assert(rest[k] == ch[k + 1]);
            assert(rest[k + 1] == ch[k + 2]);
            assert(ch[k + 1] == ch[k + 1]);
        }
        lemma_chain_within(folders, rest, root, (steps - 1) as nat);
        assert(within(folders, folders[i].parent_id, root, (steps - 1) as nat));
    }
}

/// Deleting a folder reaches every depth: the folder at the start of any
/// chain of parents that ends at the deleted folder (through no more links
/// than there are folders, so any chain in a tree of folders) is gone, and
/// so is every file placed in it.
pub proof fn deletion_reaches_every_depth(c: ContentInfo, root: u128, ch: Seq<u128>)
    requires
        parent_chain(c.folders, ch, root),
        ch.len() <= c.folders.len() + 1,
    ensures
        forall|i: int|
            0 <= i < without_folder(c, root).folders.len() ==> (#[trigger] without_folder(
                c,
                root,
            ).folders[i]).id != ch[0],
        forall|i: int|
            0 <= i < without_folder(c, root).files.len() ==> (#[trigger] without_folder(
                c,
                root,
            ).files[i]).parent_id != Some(ch[0]),
        forall|i: int|
            0 <= i < c.files.len() && (#[trigger] c.files[i]).parent_id == Some(ch[0])
                ==> files_inside(c, root).contains(c.files[i].id),
{
    lemma_chain_within(c.folders, ch, root, c.folders.len());
    deleted_folder_leaves_nothing_inside(c, root);
    let hit = |f: FileInfo| inside(c, f.parent_id, root);
    assert forall|i: int|
        0 <= i < c.files.len() && (#[trigger] c.files[i]).parent_id == Some(ch[0]) implies files_inside(
        c,
        root,
    ).contains(c.files[i].id) by {
        c.files.lemma_filter_contains(hit, i);
        let kept = c.files.filter(hit);
        let j = choose|j: int| 0 <= j < kept.len() && kept[j] == c.files[i];
        assert(files_inside(c, root)[j] == c.files[i].id);
    }
}

} // verus!
