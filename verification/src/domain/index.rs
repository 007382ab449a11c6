//! The manifest: the record of what a folder held when it was last
//! synchronised, its byte layout on disk and the figures derived from it.

use vstd::bytes::*;
use vstd::prelude::*;
use vstd::slice::*;
use vstd::utf8::*;

verus! {

/// The format version written into every manifest.
pub const INDEX_VERSION: u32 = 1;

/// One file of a listing, as contracts see it.
pub struct FileEntry {
    pub path: Seq<char>,
    pub size: u64,
    pub mtime: i64,
}

/// What a manifest persists, as contracts see it.
pub struct ManifestData {
    pub version: u32,
    pub generated_at: i64,
    pub files: Seq<FileEntry>,
}

/// One file of a listing: its path relative to the folder, its size in bytes
/// and its modification time in whole seconds since the epoch.
#[derive(Debug)]
pub struct IndexedFile {
    pub path: String,
    pub size: u64,
    pub mtime: i64,
}

impl View for IndexedFile {
    type V = FileEntry;

    open spec fn view(&self) -> FileEntry {
        FileEntry { path: self.path@, size: self.size, mtime: self.mtime }
    }
}

impl Clone for IndexedFile {
    fn clone(&self) -> (r: Self)
        ensures
            r@ == self@,
    {
        IndexedFile { path: self.path.clone(), size: self.size, mtime: self.mtime }
    }
}

/// The listing that a sequence of files stands for.
pub open spec fn entries(files: Seq<IndexedFile>) -> Seq<FileEntry> {
    files.map_values(|f: IndexedFile| f@)
}

/// Copies a listing.
pub fn clone_files(files: &Vec<IndexedFile>) -> (r: Vec<IndexedFile>)
    ensures
        entries(r@) == entries(files@),
{
    let mut out: Vec<IndexedFile> = Vec::new();
    let mut i: usize = 0;
    while i < files.len()
        invariant
            i <= files.len(),
            out.len() == i,
            forall|k: int| 0 <= k < i ==> out[k]@ == files[k]@,
        decreases files.len() - i,
    {
        out.push(files[i].clone());
        i += 1;
    }
    assert(entries(out@) =~= entries(files@));
    out
}

/// Why stored bytes are no manifest.
#[derive(Debug, Clone, Copy, PartialEq, Eq, Structural)]
pub enum IndexError {
    /// The bytes end before the manifest does.
    UnexpectedEnd,
    /// A path is not valid UTF-8.
    InvalidUtf8,
}

impl IndexError {
    /// The message shown for this error.
    pub fn message(&self) -> (r: &'static str)
        ensures
            r@ == match *self {
                IndexError::UnexpectedEnd => "manifest is truncated"@,
                IndexError::InvalidUtf8 => "manifest holds a path that is not valid UTF-8"@,
            },
    {
        match self {
            IndexError::UnexpectedEnd => "manifest is truncated",
            IndexError::InvalidUtf8 => "manifest holds a path that is not valid UTF-8",
        }
    }
}

// ---------------------------------------------------------------------------
// The byte layout
// ---------------------------------------------------------------------------
/// A signed 64-bit number as bytes: its two's complement, low byte first.
pub open spec fn i64_bytes(x: i64) -> Seq<u8> {
    spec_u64_to_le_bytes(x as u64)
}

/// A text as bytes: the length of its UTF-8 form as a 64-bit number, low byte
/// first, then the UTF-8 form.
pub open spec fn text_bytes(s: Seq<char>) -> Seq<u8> {
    spec_u64_to_le_bytes(encode_utf8(s).len() as u64) + encode_utf8(s)
}

/// One file as bytes: path, size, modification time.
pub open spec fn file_bytes(f: FileEntry) -> Seq<u8> {
    text_bytes(f.path) + spec_u64_to_le_bytes(f.size) + i64_bytes(f.mtime)
}

/// A listing as bytes: its files one after another.
pub open spec fn files_bytes(files: Seq<FileEntry>) -> Seq<u8>
    decreases files.len(),
{
    if files.len() == 0 {
        Seq::empty()
    } else {
        files_bytes(files.drop_last()) + file_bytes(files.last())
    }
}

/// A manifest as bytes: version (32 bits), generation time (64 bits), the
/// number of files (64 bits), then the files; every number low byte first.
pub open spec fn manifest_bytes(m: ManifestData) -> Seq<u8> {
    spec_u32_to_le_bytes(m.version) + i64_bytes(m.generated_at) + spec_u64_to_le_bytes(
        m.files.len() as u64,
    ) + files_bytes(m.files)
}

/// Whether every length in the manifest fits the 64 bits that the layout
/// gives it. A manifest held in memory always does.
pub open spec fn encodable(m: ManifestData) -> bool {
    &&& m.files.len() <= u64::MAX
    &&& forall|i: int| 0 <= i < m.files.len() ==> encode_utf8(#[trigger] m.files[i].path).len() <= u64::MAX
}

/// Reads a 32-bit number from the front of `rest`.
pub open spec fn take_u32(rest: Seq<u8>) -> Result<(u32, Seq<u8>), IndexError> {
    if rest.len() < 4 {
        Err(IndexError::UnexpectedEnd)
    } else {
        Ok((spec_u32_from_le_bytes(rest.take(4)), rest.skip(4)))
    }
}

/// Reads a 64-bit number from the front of `rest`.
pub open spec fn take_u64(rest: Seq<u8>) -> Result<(u64, Seq<u8>), IndexError> {
    if rest.len() < 8 {
        Err(IndexError::UnexpectedEnd)
    } else {
        Ok((spec_u64_from_le_bytes(rest.take(8)), rest.skip(8)))
    }
}

/// Reads a signed 64-bit number from the front of `rest`.
pub open spec fn take_i64(rest: Seq<u8>) -> Result<(i64, Seq<u8>), IndexError> {
    match take_u64(rest) {
        Ok((v, r)) => Ok((v as i64, r)),
        Err(e) => Err(e),
    }
}

/// Reads a text from the front of `rest`.
pub open spec fn take_text(rest: Seq<u8>) -> Result<(Seq<char>, Seq<u8>), IndexError> {
    match take_u64(rest) {
        Err(e) => Err(e),
        Ok((n, r)) => {
            if r.len() < n {
                Err(IndexError::UnexpectedEnd)
            } else if !valid_utf8(r.take(n as int)) {
                Err(IndexError::InvalidUtf8)
            } else {
                Ok((decode_utf8(r.take(n as int)), r.skip(n as int)))
            }
        },
    }
}

/// Reads one file from the front of `rest`.
pub open spec fn take_file(rest: Seq<u8>) -> Result<(FileEntry, Seq<u8>), IndexError> {
    match take_text(rest) {
        Err(e) => Err(e),
        Ok((path, r1)) => match take_u64(r1) {
            Err(e) => Err(e),
            Ok((size, r2)) => match take_i64(r2) {
                Err(e) => Err(e),
                Ok((mtime, r3)) => Ok((FileEntry { path, size, mtime }, r3)),
            },
        },
    }
}

/// Reads `count` more files from the front of `rest` and appends them to `done`.
pub open spec fn take_files(done: Seq<FileEntry>, rest: Seq<u8>, count: nat) -> Result<
    Seq<FileEntry>,
    IndexError,
>
    decreases count,
{
    if count == 0 {
        Ok(done)
    } else {
        match take_file(rest) {
            Err(e) => Err(e),
            Ok((f, r)) => take_files(done.push(f), r, (count - 1) as nat),
        }
    }
}

/// What stored bytes hold: the manifest at their front, or the reason why
/// there is none. Bytes that follow the manifest are not looked at.
pub open spec fn parse_manifest(bytes: Seq<u8>) -> Result<ManifestData, IndexError> {
    match take_u32(bytes) {
        Err(e) => Err(e),
        Ok((version, r1)) => match take_i64(r1) {
            Err(e) => Err(e),
            Ok((generated_at, r2)) => match take_u64(r2) {
                Err(e) => Err(e),
                Ok((count, r3)) => match take_files(Seq::empty(), r3, count as nat) {
                    Err(e) => Err(e),
                    Ok(files) => Ok(ManifestData { version, generated_at, files }),
                },
            },
        },
    }
}


// ---------------------------------------------------------------------------
// Writing and reading the layout
// ---------------------------------------------------------------------------
/// UTF-8 validation as `core::str::from_utf8` does it: a text comes back
/// exactly when the bytes are valid UTF-8, and its UTF-8 form is then those
/// bytes.
#[verifier::external_body]
fn text_from_utf8(raw: &[u8]) -> (r: Option<String>)
    ensures
        r is Some <==> valid_utf8(raw@),
        r is Some ==> encode_utf8(r->0@) == raw@,
{
    match core::str::from_utf8(raw) {
        Ok(s) => Some(s.to_owned()),
        Err(_) => None,
    }
}

fn put_u32(out: &mut Vec<u8>, x: u32)
    ensures
        final(out)@ == old(out)@ + spec_u32_to_le_bytes(x),
{
    let mut b = u32_to_le_bytes(x);
    out.append(&mut b);
}

fn put_u64(out: &mut Vec<u8>, x: u64)
    ensures
        final(out)@ == old(out)@ + spec_u64_to_le_bytes(x),
{
    let mut b = u64_to_le_bytes(x);
    out.append(&mut b);
}

fn put_i64(out: &mut Vec<u8>, x: i64)
    ensures
        final(out)@ == old(out)@ + i64_bytes(x),
{
    put_u64(out, #[verifier::truncate] (x as u64));
}

fn put_text(out: &mut Vec<u8>, s: &str)
    ensures
        final(out)@ == old(out)@ + text_bytes(s@),
{
    let raw = s.as_bytes();
    put_u64(out, raw.len() as u64);
    let mut b = slice_to_vec(raw);
    out.append(&mut b);
    assert(out@ =~= old(out)@ + text_bytes(s@));
}

fn put_file(out: &mut Vec<u8>, f: &IndexedFile)
    ensures
        final(out)@ == old(out)@ + file_bytes(f@),
{
    put_text(out, f.path.as_str());
    put_u64(out, f.size);
    put_i64(out, f.mtime);
    assert(out@ =~= old(out)@ + file_bytes(f@));
}

/// The bytes of a listing are those of its parts, one after the other.
pub proof fn lemma_files_bytes_concat(a: Seq<FileEntry>, b: Seq<FileEntry>)
    ensures
        files_bytes(a + b) == files_bytes(a) + files_bytes(b),
    decreases b.len(),
{
    if b.len() == 0 {
        assert(a + b =~= a);
        assert(files_bytes(a) + files_bytes(b) =~= files_bytes(a));
    } else {
        assert((a + b).drop_last() =~= a + b.drop_last());
        assert((a + b).last() == b.last());
        lemma_files_bytes_concat(a, b.drop_last());
        assert(files_bytes(a + b) =~= files_bytes(a) + files_bytes(b));
    }
}

/// Writes a manifest in its byte layout.
pub fn encode_manifest(version: u32, generated_at: i64, files: &Vec<IndexedFile>) -> (r: Vec<u8>)
    ensures
        r@ == manifest_bytes(ManifestData { version, generated_at, files: entries(files@) }),
{
    let mut out: Vec<u8> = Vec::new();
    put_u32(&mut out, version);
    put_i64(&mut out, generated_at);
    put_u64(&mut out, files.len() as u64);
    let ghost head = out@;
    let ghost all = entries(files@);
    let mut i: usize = 0;
    assert(all.take(0) =~= Seq::<FileEntry>::empty());
    while i < files.len()
        invariant
            i <= files.len(),
            all == entries(files@),
            out@ == head + files_bytes(all.take(i as int)),
        decreases files.len() - i,
    {
        put_file(&mut out, &files[i]);
        proof {
            assert(all.take(i + 1).drop_last() =~= all.take(i as int));
            assert(all.take(i + 1).last() == files[i as int]@);
            assert(out@ =~= head + files_bytes(all.take(i + 1)));
        }
        i += 1;
    }
    proof {
        assert(all.take(files.len() as int) =~= all);
        assert(head =~= spec_u32_to_le_bytes(version) + i64_bytes(generated_at)
            + spec_u64_to_le_bytes(files.len() as u64));
    }
    out
}

fn get_u32(bytes: &[u8], pos: usize) -> (r: Result<(u32, usize), IndexError>)
    requires
        pos <= bytes@.len(),
    ensures
        match take_u32(bytes@.skip(pos as int)) {
            Ok((v, rest)) => r is Ok && r->Ok_0.0 == v && pos <= r->Ok_0.1 <= bytes@.len()
                && bytes@.skip(r->Ok_0.1 as int) == rest,
            Err(e) => r == Err::<(u32, usize), IndexError>(e),
        },
{
    if bytes.len() - pos < 4 {
        return Err(IndexError::UnexpectedEnd);
    }
    let v = u32_from_le_bytes(slice_subrange(bytes, pos, pos + 4));
    proof {
        assert(bytes@.skip(pos as int).take(4) =~= bytes@.subrange(pos as int, pos + 4));
        assert(bytes@.skip(pos as int).skip(4) =~= bytes@.skip(pos + 4));
    }
    Ok((v, pos + 4))
}

fn get_u64(bytes: &[u8], pos: usize) -> (r: Result<(u64, usize), IndexError>)
    requires
        pos <= bytes@.len(),
    ensures
        match take_u64(bytes@.skip(pos as int)) {
            Ok((v, rest)) => r is Ok && r->Ok_0.0 == v && pos <= r->Ok_0.1 <= bytes@.len()
                && bytes@.skip(r->Ok_0.1 as int) == rest,
            Err(e) => r == Err::<(u64, usize), IndexError>(e),
        },
{
    if bytes.len() - pos < 8 {
        return Err(IndexError::UnexpectedEnd);
    }
    let v = u64_from_le_bytes(slice_subrange(bytes, pos, pos + 8));
    proof {
        assert(bytes@.skip(pos as int).take(8) =~= bytes@.subrange(pos as int, pos + 8));
        assert(bytes@.skip(pos as int).skip(8) =~= bytes@.skip(pos + 8));
    }
    Ok((v, pos + 8))
}

fn get_i64(bytes: &[u8], pos: usize) -> (r: Result<(i64, usize), IndexError>)
    requires
        pos <= bytes@.len(),
    ensures
        match take_i64(bytes@.skip(pos as int)) {
            Ok((v, rest)) => r is Ok && r->Ok_0.0 == v && pos <= r->Ok_0.1 <= bytes@.len()
                && bytes@.skip(r->Ok_0.1 as int) == rest,
            Err(e) => r == Err::<(i64, usize), IndexError>(e),
        },
{
    match get_u64(bytes, pos) {
        Ok((v, p)) => Ok((#[verifier::truncate] (v as i64), p)),
        Err(e) => Err(e),
    }
}

fn get_text(bytes: &[u8], pos: usize) -> (r: Result<(String, usize), IndexError>)
    requires
        pos <= bytes@.len(),
    ensures
        match take_text(bytes@.skip(pos as int)) {
            Ok((v, rest)) => r is Ok && r->Ok_0.0@ == v && pos <= r->Ok_0.1 <= bytes@.len()
                && bytes@.skip(r->Ok_0.1 as int) == rest,
            Err(e) => r == Err::<(String, usize), IndexError>(e),
        },
{
    let (n, p) = match get_u64(bytes, pos) {
        Ok(x) => x,
        Err(e) => {
            return Err(e);
        },
    };
    if ((bytes.len() - p) as u64) < n {
        return Err(IndexError::UnexpectedEnd);
    }
    let len = n as usize;
    let raw = slice_subrange(bytes, p, p + len);
    proof {
        assert(bytes@.skip(p as int).take(n as int) =~= raw@);
        assert(bytes@.skip(p as int).skip(n as int) =~= bytes@.skip(p + len));
    }
    match text_from_utf8(raw) {
        Some(s) => {
            proof {
                encode_utf8_decode_utf8(s@);
            }
            Ok((s, p + len))
        },
        None => Err(IndexError::InvalidUtf8),
    }
}

fn get_file(bytes: &[u8], pos: usize) -> (r: Result<(IndexedFile, usize), IndexError>)
    requires
        pos <= bytes@.len(),
    ensures
        match take_file(bytes@.skip(pos as int)) {
            Ok((v, rest)) => r is Ok && r->Ok_0.0@ == v && pos <= r->Ok_0.1 <= bytes@.len()
                && bytes@.skip(r->Ok_0.1 as int) == rest,
            Err(e) => r == Err::<(IndexedFile, usize), IndexError>(e),
        },
{
    let (path, at_size) = match get_text(bytes, pos) {
        Ok(x) => x,
        Err(e) => {
            return Err(e);
        },
    };
    let (size, at_mtime) = match get_u64(bytes, at_size) {
        Ok(x) => x,
        Err(e) => {
            return Err(e);
        },
    };
    let (mtime, end) = match get_i64(bytes, at_mtime) {
        Ok(x) => x,
        Err(e) => {
            return Err(e);
        },
    };
    Ok((IndexedFile { path, size, mtime }, end))
}

/// Reads the manifest at the front of `bytes`.
pub fn decode_manifest(bytes: &[u8]) -> (r: Result<(u32, i64, Vec<IndexedFile>), IndexError>)
    ensures
        match parse_manifest(bytes@) {
            Ok(m) => r is Ok && r->Ok_0.0 == m.version && r->Ok_0.1 == m.generated_at && entries(
                r->Ok_0.2@,
            ) == m.files,
            Err(e) => r == Err::<(u32, i64, Vec<IndexedFile>), IndexError>(e),
        },
{
    assert(bytes@.skip(0) =~= bytes@);
    let (version, at_time) = match get_u32(bytes, 0) {
        Ok(x) => x,
        Err(e) => {
            return Err(e);
        },
    };
    let (generated_at, at_count) = match get_i64(bytes, at_time) {
        Ok(x) => x,
        Err(e) => {
            return Err(e);
        },
    };
    let (count, at_files) = match get_u64(bytes, at_count) {
        Ok(x) => x,
        Err(e) => {
            return Err(e);
        },
    };
    let ghost start = bytes@.skip(at_files as int);
    let mut files: Vec<IndexedFile> = Vec::new();
    let mut pos: usize = at_files;
    let mut i: u64 = 0;
    assert(entries(files@) =~= Seq::<FileEntry>::empty());
    while i < count
        invariant
            i <= count,
            pos <= bytes@.len(),
            parse_manifest(bytes@) == match take_files(Seq::empty(), start, count as nat) {
                Err(e) => Err::<ManifestData, IndexError>(e),
                Ok(files) => Ok(ManifestData { version, generated_at, files }),
            },
            take_files(Seq::empty(), start, count as nat) == take_files(
                entries(files@),
                bytes@.skip(pos as int),
                (count - i) as nat,
            ),
        decreases count - i,
    {
        let ghost before = entries(files@);
        let ghost rest = bytes@.skip(pos as int);
        let ghost left = (count - i) as nat;
        match get_file(bytes, pos) {
            Ok((f, p)) => {
                files.push(f);
                pos = p;
                proof {
                    assert(entries(files@) =~= before.push(f@));
                    assert(take_files(before, rest, left) == take_files(
                        before.push(f@),
                        bytes@.skip(p as int),
                        (left - 1) as nat,
                    ));
                }
            },
            Err(e) => {
                assert(take_files(before, rest, left) == Err::<Seq<FileEntry>, IndexError>(e));
                return Err(e);
            },
        }
        i += 1;
    }
    Ok((version, generated_at, files))
}

proof fn lemma_take_u32(x: u32, tail: Seq<u8>)
    ensures
        take_u32(spec_u32_to_le_bytes(x) + tail) == Ok::<(u32, Seq<u8>), IndexError>((x, tail)),
{
    lemma_auto_spec_u32_to_from_le_bytes();
    let b = spec_u32_to_le_bytes(x);
    assert((b + tail).take(4) =~= b);
    assert((b + tail).skip(4) =~= tail);
}

proof fn lemma_take_u64(x: u64, tail: Seq<u8>)
    ensures
        take_u64(spec_u64_to_le_bytes(x) + tail) == Ok::<(u64, Seq<u8>), IndexError>((x, tail)),
{
    lemma_auto_spec_u64_to_from_le_bytes();
    let b = spec_u64_to_le_bytes(x);
    assert((b + tail).take(8) =~= b);
    assert((b + tail).skip(8) =~= tail);
}

proof fn lemma_take_i64(x: i64, tail: Seq<u8>)
    ensures
        take_i64(i64_bytes(x) + tail) == Ok::<(i64, Seq<u8>), IndexError>((x, tail)),
{
    lemma_take_u64(x as u64, tail);
    assert(((x as u64) as i64) == x) by (bit_vector);
}

proof fn lemma_take_text(s: Seq<char>, tail: Seq<u8>)
    requires
        encode_utf8(s).len() <= u64::MAX,
    ensures
        take_text(text_bytes(s) + tail) == Ok::<(Seq<char>, Seq<u8>), IndexError>((s, tail)),
{
    let raw = encode_utf8(s);
    let n = raw.len() as u64;
    assert(text_bytes(s) + tail =~= spec_u64_to_le_bytes(n) + (raw + tail));
    lemma_take_u64(n, raw + tail);
    assert((raw + tail).take(n as int) =~= raw);
    assert((raw + tail).skip(n as int) =~= tail);
    encode_utf8_valid_utf8(s);
    encode_utf8_decode_utf8(s);
}

proof fn lemma_take_file(f: FileEntry, tail: Seq<u8>)
    requires
        encode_utf8(f.path).len() <= u64::MAX,
    ensures
        take_file(file_bytes(f) + tail) == Ok::<(FileEntry, Seq<u8>), IndexError>((f, tail)),
{
    let r1 = spec_u64_to_le_bytes(f.size) + (i64_bytes(f.mtime) + tail);
    let r2 = i64_bytes(f.mtime) + tail;
    assert(file_bytes(f) + tail =~= text_bytes(f.path) + r1);
    lemma_take_text(f.path, r1);
    lemma_take_u64(f.size, r2);
    lemma_take_i64(f.mtime, tail);
}

proof fn lemma_take_files(done: Seq<FileEntry>, files: Seq<FileEntry>, tail: Seq<u8>)
    requires
        forall|i: int| 0 <= i < files.len() ==> encode_utf8(#[trigger] files[i].path).len() <= u64::MAX,
    ensures
        take_files(done, files_bytes(files) + tail, files.len()) == Ok::<
            Seq<FileEntry>,
            IndexError,
        >(done + files),
    decreases files.len(),
{
    if files.len() == 0 {
        assert(files_bytes(files) + tail =~= tail);
        assert(done + files =~= done);
    } else {
        let f = files.first();
        let more = files.drop_first();
        assert(files =~= seq![f] + more);
        lemma_files_bytes_concat(seq![f], more);
        assert(seq![f].drop_last() =~= Seq::<FileEntry>::empty());
        assert(seq![f].last() == f);
        assert(files_bytes(Seq::<FileEntry>::empty()) =~= Seq::<u8>::empty());
        assert(files_bytes(seq![f]) =~= files_bytes(seq![f].drop_last()) + file_bytes(f));
        assert(files_bytes(seq![f]) =~= file_bytes(f));
        assert(files_bytes(files) + tail =~= file_bytes(f) + (files_bytes(more) + tail));
        lemma_take_file(f, files_bytes(more) + tail);
        lemma_take_files(done.push(f), more, tail);
        assert(done.push(f) + more =~= done + files);
    }
}

/// Reading what was written gives back what was written: the bytes of a
/// manifest, whatever follows them, hold that manifest.
pub proof fn lemma_manifest_round_trip(m: ManifestData, tail: Seq<u8>)
    requires
        encodable(m),
    ensures
        parse_manifest(manifest_bytes(m) + tail) == Ok::<ManifestData, IndexError>(m),
{
    let count = m.files.len() as u64;
    let r3 = files_bytes(m.files) + tail;
    let r2 = spec_u64_to_le_bytes(count) + r3;
    let r1 = i64_bytes(m.generated_at) + r2;
    assert(manifest_bytes(m) + tail =~= spec_u32_to_le_bytes(m.version) + r1);
    lemma_take_u32(m.version, r1);
    lemma_take_i64(m.generated_at, r2);
    lemma_take_u64(count, r3);
    lemma_take_files(Seq::empty(), m.files, tail);
    assert(Seq::<FileEntry>::empty() + m.files =~= m.files);
}


// ---------------------------------------------------------------------------
// The manifest in memory
// ---------------------------------------------------------------------------
/// The sizes of a listing added up.
pub open spec fn total_bytes(files: Seq<FileEntry>) -> nat
    decreases files.len(),
{
    if files.len() == 0 {
        0
    } else {
        total_bytes(files.drop_last()) + files.last().size as nat
    }
}

/// A total as 64 bits hold it: what is left of it modulo 2^64.
pub open spec fn wrapped(n: nat) -> u64 {
    (n % 0x1_0000_0000_0000_0000) as u64
}

/// Whether `i` is the place of the last file among the largest.
pub open spec fn is_last_largest(files: Seq<FileEntry>, i: int) -> bool {
    &&& 0 <= i < files.len()
    &&& forall|j: int| 0 <= j < files.len() ==> files[j].size <= files[i].size
    &&& forall|j: int| i < j < files.len() ==> files[j].size < files[i].size
}

/// Whether `i` is the place of the last file among the most recently modified.
pub open spec fn is_last_newest(files: Seq<FileEntry>, i: int) -> bool {
    &&& 0 <= i < files.len()
    &&& forall|j: int| 0 <= j < files.len() ==> files[j].mtime <= files[i].mtime
    &&& forall|j: int| i < j < files.len() ==> files[j].mtime < files[i].mtime
}

/// Whether `i` is the place of the first file among the least recently modified.
pub open spec fn is_first_oldest(files: Seq<FileEntry>, i: int) -> bool {
    &&& 0 <= i < files.len()
    &&& forall|j: int| 0 <= j < files.len() ==> files[i].mtime <= files[j].mtime
    &&& forall|j: int| 0 <= j < i ==> files[i].mtime < files[j].mtime
}

/// Adds up the sizes of a listing, keeping the low 64 bits of the total.
pub fn total_size(files: &Vec<IndexedFile>) -> (r: u64)
    ensures
        r == wrapped(total_bytes(entries(files@))),
{
    let ghost all = entries(files@);
    let mut acc: u64 = 0;
    let mut i: usize = 0;
    assert(all.take(0) =~= Seq::<FileEntry>::empty());
    while i < files.len()
        invariant
            i <= files.len(),
            all == entries(files@),
            acc == wrapped(total_bytes(all.take(i as int))),
        decreases files.len() - i,
    {
        let size = files[i].size;
        let room = u64::MAX - acc;
        proof {
            assert(all.take(i + 1).drop_last() =~= all.take(i as int));
            assert(all.take(i + 1).last().size == size);
        }
        if size <= room {
            acc = acc + size;
        } else {
            acc = size - room - 1;
        }
        i += 1;
    }
    assert(all.take(files.len() as int) =~= all);
    acc
}

fn last_largest(files: &Vec<IndexedFile>) -> (r: Option<usize>)
    ensures
        match r {
            None => files.len() == 0,
            Some(i) => is_last_largest(entries(files@), i as int),
        },
{
    if files.len() == 0 {
        return None;
    }
    let mut best: usize = 0;
    let mut i: usize = 1;
    while i < files.len()
        invariant
            1 <= i <= files.len(),
            best < i,
            forall|j: int| 0 <= j < i ==> files[j].size <= files[best as int].size,
            forall|j: int| best < j < i ==> files[j].size < files[best as int].size,
        decreases files.len() - i,
    {
        if files[i].size >= files[best].size {
            best = i;
        }
        i += 1;
    }
    Some(best)
}

fn last_newest(files: &Vec<IndexedFile>) -> (r: Option<usize>)
    ensures
        match r {
            None => files.len() == 0,
            Some(i) => is_last_newest(entries(files@), i as int),
        },
{
    if files.len() == 0 {
        return None;
    }
    let mut best: usize = 0;
    let mut i: usize = 1;
    while i < files.len()
        invariant
            1 <= i <= files.len(),
            best < i,
            forall|j: int| 0 <= j < i ==> files[j].mtime <= files[best as int].mtime,
            forall|j: int| best < j < i ==> files[j].mtime < files[best as int].mtime,
        decreases files.len() - i,
    {
        if files[i].mtime >= files[best].mtime {
            best = i;
        }
        i += 1;
    }
    Some(best)
}

fn first_oldest(files: &Vec<IndexedFile>) -> (r: Option<usize>)
    ensures
        match r {
            None => files.len() == 0,
            Some(i) => is_first_oldest(entries(files@), i as int),
        },
{
    if files.len() == 0 {
        return None;
    }
    let mut best: usize = 0;
    let mut i: usize = 1;
    while i < files.len()
        invariant
            1 <= i <= files.len(),
            best < i,
            forall|j: int| 0 <= j < i ==> files[best as int].mtime <= files[j].mtime,
            forall|j: int| 0 <= j < best ==> files[best as int].mtime < files[j].mtime,
        decreases files.len() - i,
    {
        if files[i].mtime < files[best].mtime {
            best = i;
        }
        i += 1;
    }
    Some(best)
}

fn file_at(files: &Vec<IndexedFile>, at: Option<usize>) -> (r: Option<IndexedFile>)
    requires
        at is Some ==> at->0 < files.len(),
    ensures
        r is Some == at is Some,
        at is Some ==> r->0@ == files[at->0 as int]@,
{
    match at {
        Some(i) => Some(files[i].clone()),
        None => None,
    }
}

/// The current time in whole seconds since the epoch, read from the system
/// clock by `chrono::Utc::now`. Nothing is claimed of the value. Like chrono,
/// it panics on a machine whose clock stands before 1970.
#[verifier::external_body]
pub(crate) fn unix_now() -> i64 {
    chrono::Utc::now().timestamp()
}

/// The bytes found in storage, if any were.
pub open spec fn stored_bytes(stored: Option<&[u8]>) -> Option<Seq<u8>> {
    match stored {
        Some(b) => Some(b@),
        None => None,
    }
}

/// A manifest in memory, with the place it is stored at and the figures
/// worked out when it was loaded.
#[derive(Debug)]
pub struct Index {
    pub version: u32,
    pub generated_at: i64,
    pub files: Vec<IndexedFile>,
    /// Where the manifest is stored. Not part of the stored bytes.
    pub path: String,
    /// Whether stored bytes were found when the manifest was loaded.
    pub stored: bool,
    pub total_files: usize,
    pub total_size: u64,
    pub avg_size: u64,
    pub biggest: Option<IndexedFile>,
    pub newest: Option<IndexedFile>,
    pub oldest: Option<IndexedFile>,
}

impl View for Index {
    type V = ManifestData;

    open spec fn view(&self) -> ManifestData {
        ManifestData {
            version: self.version,
            generated_at: self.generated_at,
            files: entries(self.files@),
        }
    }
}

impl Index {
    /// Whether the derived figures are those of the files held.
    pub open spec fn summarised(&self) -> bool {
        let files = entries(self.files@);
        &&& self.total_files == files.len()
        &&& self.total_size == wrapped(total_bytes(files))
        &&& self.avg_size == if files.len() > 0 {
            self.total_size as int / files.len() as int
        } else {
            0
        }
        &&& match self.biggest {
            None => files.len() == 0,
            Some(f) => exists|i: int| is_last_largest(files, i) && f@ == files[i],
        }
        &&& match self.newest {
            None => files.len() == 0,
            Some(f) => exists|i: int| is_last_newest(files, i) && f@ == files[i],
        }
        &&& match self.oldest {
            None => files.len() == 0,
            Some(f) => exists|i: int| is_first_oldest(files, i) && f@ == files[i],
        }
    }

    /// What loading gives when the clock reads `now`: without stored bytes a
    /// fresh, empty manifest of the current version; with stored bytes the
    /// manifest they hold, with its figures, or the reason why they hold none.
    pub open spec fn loaded(
        path: Seq<char>,
        stored: Option<Seq<u8>>,
        now: i64,
        r: Result<Index, IndexError>,
    ) -> bool {
        match stored {
            None => r is Ok && r->Ok_0@ == (ManifestData {
                version: INDEX_VERSION,
                generated_at: now,
                files: Seq::empty(),
            }) && r->Ok_0.path@ == path && !r->Ok_0.stored && r->Ok_0.summarised(),
            Some(bytes) => match parse_manifest(bytes) {
                Err(e) => r == Err::<Index, IndexError>(e),
                Ok(m) => r is Ok && r->Ok_0@ == m && r->Ok_0.path@ == path && r->Ok_0.stored
                    && r->Ok_0.summarised(),
            },
        }
    }

    /// Loads the manifest stored at `path`, whose bytes are `stored` (`None`
    /// where nothing is stored there), at the time `now`.
    pub fn load_at(path: &str, stored: Option<&[u8]>, now: i64) -> (r: Result<Index, IndexError>)
        ensures
            Index::loaded(path@, stored_bytes(stored), now, r),
    {
        let bytes = match stored {
            Some(b) => b,
            None => {
                let idx = Index {
                    version: INDEX_VERSION,
                    generated_at: now,
                    files: Vec::new(),
                    path: path.to_owned(),
                    stored: false,
                    total_files: 0,
                    total_size: 0,
                    avg_size: 0,
                    biggest: None,
                    newest: None,
                    oldest: None,
                };
                assert(entries(idx.files@) =~= Seq::<FileEntry>::empty());
                return Ok(idx);
            },
        };
        let (version, generated_at, files) = match decode_manifest(bytes) {
            Ok(x) => x,
            Err(e) => {
                return Err(e);
            },
        };
        let total_files = files.len();
        let total = total_size(&files);
        let avg_size = if total_files > 0 {
            total / (total_files as u64)
        } else {
            0
        };
        let biggest_at = last_largest(&files);
        let newest_at = last_newest(&files);
        let oldest_at = first_oldest(&files);
        let biggest = file_at(&files, biggest_at);
        let newest = file_at(&files, newest_at);
        let oldest = file_at(&files, oldest_at);
        Ok(
            Index {
                version,
                generated_at,
                files,
                path: path.to_owned(),
                stored: true,
                total_files,
                total_size: total,
                avg_size,
                biggest,
                newest,
                oldest,
            },
        )
    }

    /// Loads the manifest stored at `path` as [`Index::load_at`] does, at the
    /// time that the system clock gives.
    pub fn load(path: &str, stored: Option<&[u8]>) -> (r: Result<Index, IndexError>)
        ensures
            exists|now: i64| #[trigger] Index::loaded(path@, stored_bytes(stored), now, r),
    {
        let now = unix_now();
        Index::load_at(path, stored, now)
    }

    /// The bytes to store for this manifest.
    pub fn save(&self) -> (r: Vec<u8>)
        ensures
            r@ == manifest_bytes(self@),
    {
        encode_manifest(self.version, self.generated_at, &self.files)
    }

    /// Replaces the files by `files`, stamps the manifest with `now` and
    /// returns the bytes to store. Everything else stays as it was.
    pub fn update_at(&mut self, files: Vec<IndexedFile>, now: i64) -> (r: Vec<u8>)
        ensures
            final(self)@ == (ManifestData {
                version: old(self).version,
                generated_at: now,
                files: entries(files@),
            }),
            final(self).files == files,
            final(self).unchanged_beside_files(*old(self)),
            r@ == manifest_bytes(final(self)@),
    {
        self.files = files;
        self.generated_at = now;
        self.save()
    }

    /// Whether all but the files and the time stamp are as in `other`.
    pub open spec fn unchanged_beside_files(&self, other: Index) -> bool {
        &&& self.version == other.version
        &&& self.path == other.path
        &&& self.stored == other.stored
        &&& self.total_files == other.total_files
        &&& self.total_size == other.total_size
        &&& self.avg_size == other.avg_size
        &&& self.biggest == other.biggest
        &&& self.newest == other.newest
        &&& self.oldest == other.oldest
    }

    /// Replaces the files as [`Index::update_at`] does, stamped with the
    /// time that the system clock gives.
    pub fn update(&mut self, files: Vec<IndexedFile>) -> (r: Vec<u8>)
        ensures
            final(self)@.version == old(self).version,
            final(self)@.files == entries(files@),
            final(self).files == files,
            final(self).unchanged_beside_files(*old(self)),
            r@ == manifest_bytes(final(self)@),
    {
        let now = unix_now();
        self.update_at(files, now)
    }

    /// Whether the manifest was found in storage when it was loaded.
    pub fn exists_on_disk(&self) -> (r: bool)
        ensures
            r == self.stored,
    {
        self.stored
    }
}

} // verus!
