//! The decisions of a manifest download: decoding chunk files, cutting the
//! parts of a file out of them, checking files by SHA-1, and what the
//! counts of a finished download amount to.
use vstd::prelude::*;
use egs_api::api::types::chunk::Chunk;
use sha1::{Digest, Sha1};
use crate::models::Totals;
use crate::text::string_from;
use crate::versions::{decimal, push_decimal};

verus! {

// ---------------------------------------------------------------------------
// SHA-1

/// A running SHA-1 computation. `sha1::Sha1` is an alias of a generic
/// wrapper whose bounds Verus cannot declare, so the hasher is held here,
/// opaque to Verus.
#[verifier::external_body]
pub struct Sha1State {
    h: Sha1,
}

/// The bytes a SHA-1 hasher has been fed so far.
pub uninterp spec fn sha1_input(h: Sha1State) -> Seq<u8>;

/// The SHA-1 digest of a byte sequence.
pub uninterp spec fn sha1_of(data: Seq<u8>) -> Seq<u8>;

/// `Sha1::new` (`Digest::new`): a hasher that has been fed nothing.
#[verifier::external_body]
fn sha1_new() -> (r: Sha1State)
    ensures
        sha1_input(r) == Seq::<u8>::empty(),
{
    Sha1State { h: Sha1::new() }
}

/// `Digest::update`: the hasher has been fed `data` in addition.
#[verifier::external_body]
fn sha1_update(s: &mut Sha1State, data: &[u8])
    ensures
        sha1_input(*final(s)) == sha1_input(*old(s)) + data@,
{
    s.h.update(data)
}

/// `Digest::finalize`: the 20-byte digest of everything the hasher was fed.
#[verifier::external_body]
fn sha1_finalize(s: Sha1State) -> (r: Vec<u8>)
    ensures
        r@ == sha1_of(sha1_input(s)),
        r@.len() == 20,
{
    s.h.finalize().to_vec()
}

/// The lowercase hexadecimal digit for `d < 16`.
pub open spec fn hex_digit(d: int) -> char {
    if d < 10 {
        ((d + 48) as u8) as char
    } else {
        ((d + 87) as u8) as char
    }
}

/// Two lowercase hexadecimal digits per byte (`format!("{:02x}", b)` for
/// each byte, joined).
pub open spec fn hex_text(b: Seq<u8>) -> Seq<char>
    decreases b.len(),
{
    if b.len() == 0 {
        Seq::empty()
    } else {
        hex_text(b.drop_last()) + seq![hex_digit(b.last() as int / 16), hex_digit(b.last() as int % 16)]
    }
}

/// Two hexadecimal digits per byte: a SHA-1 digest reads as 40 of them.
pub proof fn lemma_hex_text_len(b: Seq<u8>)
    ensures
        hex_text(b).len() == 2 * b.len(),
    decreases b.len(),
{
    if b.len() > 0 {
        lemma_hex_text_len(b.drop_last());
    }
}

/// Executable form of [`hex_digit`].
fn hex_char(d: u8) -> (c: char)
    requires
        d < 16,
    ensures
        c == hex_digit(d as int),
{
    if d < 10 {
        (d + 48) as char
    } else {
        (d + 87) as char
    }
}

/// The lowercase hexadecimal text of a byte string.
pub fn to_hex(b: &[u8]) -> (r: String)
    ensures
        r@ == hex_text(b@),
{
    let mut out: Vec<char> = Vec::new();
    for i in 0..b.len()
        invariant
            out@ == hex_text(b@.take(i as int)),
    {
        let x = b[i];
        out.push(hex_char(x / 16));
        out.push(hex_char(x % 16));
        assert(b@.take(i + 1).drop_last() =~= b@.take(i as int));
    }
    assert(b@.take(b.len() as int) =~= b@);
    string_from(out.as_slice())
}

/// A SHA-1 computation over data handed in piece by piece.
pub struct FileDigest {
    state: Sha1State,
}

impl FileDigest {
    /// The bytes fed so far.
    pub closed spec fn input(self) -> Seq<u8> {
        sha1_input(self.state)
    }

    /// A computation that has been fed nothing.
    pub fn new() -> (r: FileDigest)
        ensures
            r.input() == Seq::<u8>::empty(),
    {
        FileDigest { state: sha1_new() }
    }

    /// Feeds more bytes.
    pub fn update(&mut self, data: &[u8])
        ensures
            final(self).input() == old(self).input() + data@,
    {
        sha1_update(&mut self.state, data);
    }

    /// The lowercase hexadecimal SHA-1 of everything fed: 40 characters.
    pub fn hex(self) -> (r: String)
        ensures
            r@ == hex_text(sha1_of(self.input())),
            r@.len() == 40,
    {
        let d = sha1_finalize(self.state);
        proof { lemma_hex_text_len(d@); }
        to_hex(d.as_slice())
    }
}

/// The lowercase hexadecimal SHA-1 of a byte string: 40 characters.
pub fn sha1_hex(data: &[u8]) -> (r: String)
    ensures
        r@ == hex_text(sha1_of(data@)),
        r@.len() == 40,
{
    let mut d = FileDigest::new();
    d.update(data);
    assert(d.input() =~= data@);
    let r = d.hex();
    proof { lemma_hex_text_len(sha1_of(data@)); }
    r
}

// ---------------------------------------------------------------------------
// Chunk files

/// The unsigned little-endian number in the four bytes at `i`.
pub open spec fn le32(b: Seq<u8>, i: int) -> int {
    b[i] as int + 256 * b[i + 1] as int + 65536 * b[i + 2] as int + 16777216 * b[i + 3] as int
}

/// The file starts with the chunk header magic 0xB1FE3AA2 (little-endian).
pub open spec fn has_chunk_magic(b: Seq<u8>) -> bool {
    b.len() >= 4 && b[0] == 0xA2 && b[1] == 0x3A && b[2] == 0xFE && b[3] == 0xB1
}

/// The length of a chunk header: 41 bytes, 21 more from header version 2
/// on (a SHA-1 and a hash type), 4 more from version 3 on (the
/// uncompressed size).
pub open spec fn chunk_header_len(b: Seq<u8>) -> int {
    41 + (if le32(b, 4) >= 2 { 21int } else { 0int }) + (if le32(b, 4) >= 3 { 4int } else { 0int })
}

/// Inputs on which `Chunk::from_vec` indexes past the end of the buffer:
/// fewer than 4 bytes, or a header that the buffer cuts short.
pub open spec fn chunk_parse_panics(b: Seq<u8>) -> bool {
    b.len() < 4 || (has_chunk_magic(b) && b.len() < chunk_header_len(b))
}

/// What `Chunk::from_vec` gives as the chunk data of a buffer: `None` when
/// the buffer is not a chunk or its compressed data does not inflate.
pub uninterp spec fn chunk_payload(bytes: Seq<u8>) -> Option<Seq<u8>>;

/// The view of an optional byte vector.
pub open spec fn opt_bytes(o: Option<Vec<u8>>) -> Option<Seq<u8>> {
    match o {
        Some(v) => Some(v@),
        None => None,
    }
}

/// `Chunk::from_vec(bytes).map(|c| c.data)`. A buffer without the header
/// magic is no chunk; an uncompressed chunk (byte 40 is 0) carries the
/// bytes after its header; a compressed one carries its zlib-inflated
/// remainder, which is left unstated.
#[verifier::external_body]
fn parse_chunk(bytes: Vec<u8>) -> (r: Option<Vec<u8>>)
    requires
        !chunk_parse_panics(bytes@),
    ensures
        opt_bytes(r) == chunk_payload(bytes@),
        !has_chunk_magic(bytes@) ==> r is None,
        has_chunk_magic(bytes@) && bytes@[40] == 0 ==> opt_bytes(r) == Some(bytes@.skip(chunk_header_len(bytes@))),
{
    Chunk::from_vec(bytes).map(|c| c.data)
}

/// Whether `Chunk::from_vec` would index past the end of `bytes`.
pub fn chunk_parse_would_panic(bytes: &[u8]) -> (r: bool)
    ensures
        r == chunk_parse_panics(bytes@),
{
    if bytes.len() < 4 {
        return true;
    }
    if !(bytes[0] == 0xA2 && bytes[1] == 0x3A && bytes[2] == 0xFE && bytes[3] == 0xB1) {
        return false;
    }
    if bytes.len() < 41 {
        return true;
    }
    let v: u64 = bytes[4] as u64 + 256 * bytes[5] as u64 + 65536 * bytes[6] as u64 + 16777216 * bytes[7] as u64;
    let need: usize = 41 + (if v >= 2 { 21 } else { 0 }) + (if v >= 3 { 4 } else { 0 });
    bytes.len() < need
}

/// The data of a chunk file: the chunk payload when the file parses as an
/// Epic chunk, else the raw bytes (some distribution links serve plain
/// byte blobs).
pub fn chunk_data_or_raw(bytes: Vec<u8>) -> (r: Vec<u8>)
    requires
        !chunk_parse_panics(bytes@),
    ensures
        r@ == match chunk_payload(bytes@) {
            Some(d) => d,
            None => bytes@,
        },
{
    let raw = bytes.clone();
    match parse_chunk(bytes) {
        Some(d) => d,
        None => raw,
    }
}

/// The message when a chunk is too short for the part cut from it.
pub open spec fn too_small_message(filename: Seq<char>, start: nat, end: nat, len: nat) -> Seq<char> {
    "chunk/raw too small for "@ + filename + seq![' ', '['] + decimal(start) + seq!['.', '.'] + decimal(end)
        + seq![' ', '>', ' '] + decimal(len) + seq![']']
}

/// Cuts the part `[offset, offset + size)` of a file out of chunk data;
/// an error names the file and the range when the data is too short.
pub fn part_slice(data: &[u8], offset: u64, size: u64, filename: &str) -> (r: Result<Vec<u8>, String>)
    requires
        offset + size <= u64::MAX,
    ensures
        offset + size <= data.len() ==> (r matches Ok(v) && v@ == data@.subrange(offset as int, offset + size)),
        offset + size > data.len() ==> (r matches Err(m) && m@ == too_small_message(filename@, offset as nat, (offset + size) as nat, data.len() as nat)),
{
    let end: u64 = offset + size;
    if end > data.len() as u64 {
        let mut m: Vec<char> = Vec::new();
        crate::paths::push_text(&mut m, "chunk/raw too small for ");
        crate::paths::push_text(&mut m, filename);
        m.push(' ');
        m.push('[');
        push_decimal(&mut m, offset);
        m.push('.');
        m.push('.');
        push_decimal(&mut m, end);
        m.push(' ');
        m.push('>');
        m.push(' ');
        push_decimal(&mut m, data.len() as u64);
        m.push(']');
        assert(m@ =~= too_small_message(filename@, offset as nat, end as nat, data.len() as nat));
        return Err(string_from(m.as_slice()));
    }
    let lo = offset as usize;
    let hi = end as usize;
    let mut v: Vec<u8> = Vec::new();
    let mut i = lo;
    while i < hi
        invariant
            lo <= i <= hi <= data.len(),
            v@ == data@.subrange(lo as int, i as int),
        decreases hi - i,
    {
        v.push(data[i]);
        assert(data@.subrange(lo as int, i + 1) =~= data@.subrange(lo as int, i as int).push(data@[i as int]));
        i += 1;
    }
    Ok(v)
}

// ---------------------------------------------------------------------------
// Assembling a file from its parts

/// The data a chunk file contributes: its chunk payload when it parses as
/// an Epic chunk, else its raw bytes.
pub open spec fn chunk_data(raw: Seq<u8>) -> Seq<u8> {
    match chunk_payload(raw) {
        Some(d) => d,
        None => raw,
    }
}

/// The bytes of one part: the range `[offset, offset + size)` of the data
/// of the chunk file it is cut from.
pub open spec fn piece_bytes(p: (Seq<u8>, u64, u64)) -> Seq<u8> {
    chunk_data(p.0).subrange(p.1 as int, p.1 + p.2)
}

/// The bytes of a file made of the parts `ps` (chunk file, offset, size),
/// in order.
pub open spec fn assembled(ps: Seq<(Seq<u8>, u64, u64)>) -> Seq<u8>
    decreases ps.len(),
{
    if ps.len() == 0 {
        Seq::empty()
    } else {
        assembled(ps.drop_last()) + piece_bytes(ps.last())
    }
}

/// Whether an assembled file is accepted: a manifest without a hash accepts
/// any file; one with a hash accepts the file whose SHA-1 it is.
pub open spec fn hash_accepted(expected_hash: Seq<char>, actual_hex: Seq<char>) -> bool {
    expected_hash.len() == 0 || actual_hex == expected_hash
}

/// Decides whether an assembled file with SHA-1 `actual_hex` is accepted.
pub fn assembled_file_accepted(expected_hash: &str, actual_hex: &str) -> (r: bool)
    ensures
        r == hash_accepted(expected_hash@, actual_hex@),
{
    if expected_hash.is_empty() {
        return true;
    }
    let a = crate::text::chars_of(actual_hex);
    let e = crate::text::chars_of(expected_hash);
    crate::text::same_chars(&a, &e)
}

/// A file being put together from its parts, in manifest order, with the
/// SHA-1 of what has been put together so far.
pub struct FileAssembler {
    digest: FileDigest,
    parts: Ghost<Seq<(Seq<u8>, u64, u64)>>,
}

impl FileAssembler {
    /// The parts added so far: the chunk file each was cut from, its offset
    /// and its size.
    pub closed spec fn pieces(self) -> Seq<(Seq<u8>, u64, u64)> {
        self.parts@
    }

    /// The bytes of the file so far.
    pub open spec fn content(self) -> Seq<u8> {
        assembled(self.pieces())
    }

    /// The digest has been fed exactly the bytes of the file so far.
    pub closed spec fn wf(self) -> bool {
        self.digest.input() == assembled(self.parts@)
    }

    /// A file with no parts yet.
    pub fn new() -> (r: FileAssembler)
        ensures
            r.wf(),
            r.pieces() == Seq::<(Seq<u8>, u64, u64)>::empty(),
    {
        FileAssembler { digest: FileDigest::new(), parts: Ghost(Seq::empty()) }
    }

    /// Adds the next part, `[offset, offset + size)` of the data of the
    /// chunk file `chunk`, and hands back its bytes to be written out.
    /// When the data is too short for the part, the error names the file
    /// and the range, and nothing is added.
    pub fn add_part(&mut self, chunk: Vec<u8>, offset: u64, size: u64, filename: &str) -> (r: Result<Vec<u8>, String>)
        requires
            old(self).wf(),
            !chunk_parse_panics(chunk@),
            offset + size <= u64::MAX,
        ensures
            final(self).wf(),
            offset + size <= chunk_data(chunk@).len() ==> {
                &&& r matches Ok(v)
                &&& v@ == piece_bytes((chunk@, offset, size))
                &&& final(self).pieces() == old(self).pieces().push((chunk@, offset, size))
            },
            offset + size > chunk_data(chunk@).len() ==> {
                &&& r matches Err(m)
                &&& m@ == too_small_message(filename@, offset as nat, (offset + size) as nat, chunk_data(chunk@).len())
                &&& final(self).pieces() == old(self).pieces()
            },
    {
        let ghost raw = chunk@;
        let data = chunk_data_or_raw(chunk);
        match part_slice(&data, offset, size, filename) {
            Ok(v) => {
                self.digest.update(v.as_slice());
                let ghost ps = self.parts@.push((raw, offset, size));
                proof {
                    assert(ps.drop_last() =~= self.parts@);
                }
                self.parts = Ghost(ps);
                Ok(v)
            },
            Err(m) => Err(m),
        }
    }

    /// The lowercase hexadecimal SHA-1 of the file (40 characters), and
    /// whether the file is accepted against the manifest's hash.
    pub fn finish(self, expected_hash: &str) -> (r: (String, bool))
        requires
            self.wf(),
        ensures
            r.0@ == hex_text(sha1_of(self.content())),
            r.0@.len() == 40,
            r.1 == hash_accepted(expected_hash@, r.0@),
    {
        let hex = self.digest.hex();
        let ok = assembled_file_accepted(expected_hash, hex.as_str());
        (hex, ok)
    }
}

/// A file's bytes are its parts' bytes, one after the other: each part
/// lies in the file at the sum of the sizes of the parts before it.
pub proof fn lemma_assembled_layout(ps: Seq<(Seq<u8>, u64, u64)>, i: int)
    requires
        0 <= i < ps.len(),
        forall|k: int| 0 <= k < ps.len() ==> (#[trigger] ps[k]).1 + ps[k].2 <= chunk_data(ps[k].0).len(),
    ensures
        assembled(ps).subrange(assembled(ps.take(i)).len() as int, assembled(ps.take(i)).len() + ps[i].2) == piece_bytes(ps[i]),
        assembled(ps.take(i + 1)) == assembled(ps.take(i)) + piece_bytes(ps[i]),
{
    assert(ps.take(i + 1).drop_last() =~= ps.take(i));
    lemma_assembled_prefix(ps, i + 1);
    let a = assembled(ps.take(i));
    let b = piece_bytes(ps[i]);
    assert(b.len() == ps[i].2) by {
        assert(ps[i].1 + ps[i].2 <= chunk_data(ps[i].0).len());
    }
    let whole = assembled(ps);
    let ab = assembled(ps.take(i + 1));
    assert(ab == a + b);
    assert(whole.take(ab.len() as int) == ab);
    assert(whole.subrange(a.len() as int, a.len() + ps[i].2) =~= ab.subrange(a.len() as int, a.len() + ps[i].2));
    assert(ab.subrange(a.len() as int, a.len() + ps[i].2) =~= b);
}

/// The bytes of the first `n` parts start the file.
proof fn lemma_assembled_prefix(ps: Seq<(Seq<u8>, u64, u64)>, n: int)
    requires
        0 <= n <= ps.len(),
    ensures
        assembled(ps.take(n)).is_prefix_of(assembled(ps)),
    decreases ps.len() - n,
{
    if n == ps.len() {
        assert(ps.take(n) =~= ps);
    } else {
        lemma_assembled_prefix(ps, n + 1);
        assert(ps.take(n + 1).drop_last() =~= ps.take(n));
        let a = assembled(ps.take(n));
        let ab = assembled(ps.take(n + 1));
        assert(ab.take(a.len() as int) =~= a);
        assert(assembled(ps).take(a.len() as int) =~= ab.take(a.len() as int));
    }
}

// ---------------------------------------------------------------------------
// Files already on disk

/// An existing file is kept when its SHA-1 matches the manifest's hash, or,
/// when the manifest has no hash, when its size matches the sum of its
/// parts. A file that could not be read or measured is fetched again.
pub open spec fn up_to_date(expected_hash: Seq<char>, actual_hex: Option<Seq<char>>, expected_size: u64, actual_size: Option<u64>) -> bool {
    if expected_hash.len() > 0 {
        actual_hex == Some(expected_hash)
    } else {
        actual_size == Some(expected_size)
    }
}

/// Whether a file that already exists can be kept as it is.
pub fn existing_file_up_to_date(expected_hash: &str, actual_hex: &Option<String>, expected_size: u64, actual_size: Option<u64>) -> (r: bool)
    ensures
        r == up_to_date(expected_hash@, match actual_hex { Some(h) => Some(h@), None => None }, expected_size, actual_size),
{
    if !expected_hash.is_empty() {
        match actual_hex {
            Some(h) => {
                let a = crate::text::chars_of(h.as_str());
                let e = crate::text::chars_of(expected_hash);
                crate::text::same_chars(&a, &e)
            },
            None => false,
        }
    } else {
        match actual_size {
            Some(n) => n == expected_size,
            None => false,
        }
    }
}

/// The sum of the sizes of a file's parts.
pub open spec fn sum_sizes(sizes: Seq<u64>) -> int
    decreases sizes.len(),
{
    if sizes.len() == 0 {
        0
    } else {
        sum_sizes(sizes.drop_last()) + sizes.last()
    }
}

/// Adds up the sizes of a file's parts.
pub fn total_size(sizes: &[u64]) -> (r: u64)
    requires
        sum_sizes(sizes@) <= u64::MAX,
    ensures
        r == sum_sizes(sizes@),
{
    let mut t: u64 = 0;
    for i in 0..sizes.len()
        invariant
            t == sum_sizes(sizes@.take(i as int)),
            sum_sizes(sizes@) <= u64::MAX,
    {
        assert(sizes@.take(i + 1).drop_last() =~= sizes@.take(i as int));
        proof { lemma_sum_sizes_prefix(sizes@, i + 1); }
        t = t + sizes[i];
    }
    assert(sizes@.take(sizes.len() as int) =~= sizes@);
    t
}

/// A prefix sums to no more than the whole.
pub proof fn lemma_sum_sizes_prefix(s: Seq<u64>, n: int)
    requires
        0 <= n <= s.len(),
    ensures
        sum_sizes(s.take(n)) <= sum_sizes(s),
    decreases s.len() - n,
{
    if n < s.len() {
        lemma_sum_sizes_prefix(s, n + 1);
        assert(s.take(n + 1).drop_last() =~= s.take(n));
    } else {
        assert(s.take(n) =~= s);
    }
}

// ---------------------------------------------------------------------------
// Totals

/// What becomes of one file of a manifest.
#[derive(Debug, Clone, Copy, PartialEq, Eq, Structural)]
pub enum FileAction {
    /// The file on disk is up to date and is kept as it is.
    KeepExisting,
    /// The manifest lists no chunk parts for the file; it is skipped.
    SkipNoParts,
    /// The file is assembled from its parts and put into place.
    Install,
    /// The assembled file does not match the manifest's hash and is not
    /// put into place.
    Reject,
}

/// The decision for one file: keep an up-to-date file, skip one without
/// parts, else assemble it; once assembled (`accepted` is `Some`), install
/// it when its hash is accepted and reject it otherwise.
pub open spec fn file_action(up_to_date: bool, n_parts: nat, accepted: Option<bool>) -> FileAction {
    if up_to_date {
        FileAction::KeepExisting
    } else if n_parts == 0 {
        FileAction::SkipNoParts
    } else if accepted == Some(false) {
        FileAction::Reject
    } else {
        FileAction::Install
    }
}

/// Decides what becomes of one file of a manifest. Before the file is
/// assembled `accepted` is `None`; after, it says whether
/// [`FileAssembler::finish`] accepted the file.
pub fn file_step(up_to_date: bool, n_parts: usize, accepted: Option<bool>) -> (r: FileAction)
    ensures
        r == file_action(up_to_date, n_parts as nat, accepted),
{
    if up_to_date {
        FileAction::KeepExisting
    } else if n_parts == 0 {
        FileAction::SkipNoParts
    } else {
        match accepted {
            Some(false) => FileAction::Reject,
            _ => FileAction::Install,
        }
    }
}

/// An assembled file is installed exactly when the manifest gives no hash
/// or the file's SHA-1 is that hash; otherwise it is rejected.
pub proof fn lemma_installed_files_match(n_parts: nat, expected_hash: Seq<char>, content: Seq<u8>)
    requires
        n_parts > 0,
    ensures
        file_action(false, n_parts, Some(hash_accepted(expected_hash, hex_text(sha1_of(content))))) == FileAction::Install
            <==> (expected_hash.len() == 0 || hex_text(sha1_of(content)) == expected_hash),
        file_action(false, n_parts, Some(hash_accepted(expected_hash, hex_text(sha1_of(content))))) == FileAction::Reject
            <==> (expected_hash.len() > 0 && hex_text(sha1_of(content)) != expected_hash),
{
}

impl Totals {
    /// No file accounted for yet.
    pub fn new() -> (r: Totals)
        ensures
            r.downloaded == 0,
            r.skipped_zero == 0,
            r.up_to_date == 0,
            r.rejected == 0,
    {
        Totals { downloaded: 0, skipped_zero: 0, up_to_date: 0, rejected: 0 }
    }

    /// The number of files accounted for.
    pub open spec fn count(self) -> int {
        self.downloaded + self.skipped_zero + self.up_to_date + self.rejected
    }

    /// Accounts for a file by what became of it: each action has its own
    /// counter, and only an installed file counts as downloaded.
    pub fn record(&mut self, a: FileAction)
        requires
            old(self).count() < usize::MAX,
        ensures
            final(self).downloaded == old(self).downloaded + (if a == FileAction::Install { 1int } else { 0int }),
            final(self).up_to_date == old(self).up_to_date + (if a == FileAction::KeepExisting { 1int } else { 0int }),
            final(self).skipped_zero == old(self).skipped_zero + (if a == FileAction::SkipNoParts { 1int } else { 0int }),
            final(self).rejected == old(self).rejected + (if a == FileAction::Reject { 1int } else { 0int }),
            final(self).count() == old(self).count() + 1,
    {
        match a {
            FileAction::KeepExisting => self.up_to_date = self.up_to_date + 1,
            FileAction::SkipNoParts => self.skipped_zero = self.skipped_zero + 1,
            FileAction::Install => self.downloaded = self.downloaded + 1,
            FileAction::Reject => self.rejected = self.rejected + 1,
        }
    }
}

/// The message when a manifest lists no file.
pub open spec fn empty_manifest_message() -> Seq<char> {
    "download manifest contains no files"@
}

/// Refuses a manifest without files.
pub fn check_manifest_files(total_files: usize) -> (r: Result<(), String>)
    ensures
        total_files == 0 ==> (r matches Err(m) && m@ == empty_manifest_message()),
        total_files > 0 ==> r is Ok,
{
    if total_files == 0 {
        Err("download manifest contains no files".to_string())
    } else {
        Ok(())
    }
}

/// The message when nothing could be downloaded.
pub open spec fn nothing_downloaded_message(total_files: nat, skipped: nat) -> Seq<char> {
    "no files could be downloaded: "@ + decimal(total_files) + " files listed, "@ + decimal(skipped)
        + " skipped (zero chunks)"@
}

/// A finished download succeeds when some file was downloaded or some file
/// was already up to date; otherwise it fails, naming how many files were
/// listed and how many had no chunk parts.
pub fn download_result(t: &Totals, total_files: usize) -> (r: Result<(), String>)
    ensures
        (t.downloaded > 0 || t.up_to_date > 0) ==> r is Ok,
        (t.downloaded == 0 && t.up_to_date == 0) ==> (r matches Err(m) && m@ == nothing_downloaded_message(total_files as nat, t.skipped_zero as nat)),
{
    if t.downloaded == 0 && t.up_to_date == 0 {
        let mut m: Vec<char> = Vec::new();
        crate::paths::push_text(&mut m, "no files could be downloaded: ");
        push_decimal(&mut m, total_files as u64);
        crate::paths::push_text(&mut m, " files listed, ");
        push_decimal(&mut m, t.skipped_zero as u64);
        crate::paths::push_text(&mut m, " skipped (zero chunks)");
        assert(m@ =~= nothing_downloaded_message(total_files as nat, t.skipped_zero as nat));
        return Err(string_from(m.as_slice()));
    }
    Ok(())
}

/// The message for a cancelled download.
pub open spec fn cancelled_message() -> Seq<char> {
    "cancelled"@
}

// ---------------------------------------------------------------------------
// Concurrency settings

/// The number a run of decimal digits denotes.
pub open spec fn digits_value(s: Seq<char>) -> nat
    decreases s.len(),
{
    if s.len() == 0 {
        0
    } else {
        digits_value(s.drop_last()) * 10 + ((s.last() as u32) - 48) as nat
    }
}

/// What `str::parse::<usize>` accepts: an optional `+`, then one or more
/// decimal digits, denoting a number that fits in `usize`.
pub open spec fn parsed_usize(s: Seq<char>) -> Option<nat> {
    let d = if s.len() > 0 && s[0] == '+' { s.drop_first() } else { s };
    if d.len() > 0 && crate::text::all_digits(d) && digits_value(d) <= usize::MAX {
        Some(digits_value(d))
    } else {
        None
    }
}

/// `str::parse::<usize>()`.
pub fn parse_usize(s: &str) -> (r: Option<usize>)
    ensures
        match r {
            Some(n) => parsed_usize(s@) == Some(n as nat),
            None => parsed_usize(s@) is None,
        },
{
    let v = crate::text::chars_of(s);
    let start: usize = if v.len() > 0 && v[0] == '+' { 1 } else { 0 };
    let ghost d = if v@.len() > 0 && v@[0] == '+' { v@.drop_first() } else { v@ };
    assert(d =~= v@.skip(start as int));
    if start >= v.len() {
        return None;
    }
    let mut n: usize = 0;
    let mut i: usize = start;
    while i < v.len()
        invariant
            start <= i <= v.len(),
            v@ == s@,
            d == (if s@.len() > 0 && s@[0] == '+' { s@.drop_first() } else { s@ }),
            d == v@.skip(start as int),
            n == digits_value(v@.subrange(start as int, i as int)),
            crate::text::all_digits(v@.subrange(start as int, i as int)),
        decreases v.len() - i,
    {
        let c = v[i];
        if !('0' <= c && c <= '9') {
            assert(d[i - start] == c);
            assert(!crate::text::is_digit(d[i - start]));
            return None;
        }
        let dig = (c as u32 - 48) as usize;
        let ghost pre = v@.subrange(start as int, i as int);
        let ghost nxt = v@.subrange(start as int, i + 1);
        assert(nxt.drop_last() =~= pre);
        if n > (usize::MAX - dig) / 10 {
            proof {
                assert(digits_value(nxt) == n * 10 + dig);
                assert(n * 10 + dig > usize::MAX) by (nonlinear_arith)
                    requires n > (usize::MAX - dig) / 10, dig <= 9;
                lemma_digits_value_grows(d, i + 1 - start);
            }
            assert(nxt =~= d.take(i + 1 - start));
            return None;
        }
        assert(n * 10 + dig <= usize::MAX) by (nonlinear_arith)
            requires n <= (usize::MAX - dig) / 10, dig <= 9;
        n = n * 10 + dig;
        i += 1;
    }
    assert(v@.subrange(start as int, v.len() as int) =~= d);
    Some(n)
}

/// Taking more digits never makes the number smaller.
pub proof fn lemma_digits_value_grows(s: Seq<char>, k: int)
    requires
        0 <= k <= s.len(),
    ensures
        digits_value(s.take(k)) <= digits_value(s),
    decreases s.len() - k,
{
    if k < s.len() {
        lemma_digits_value_grows(s, k + 1);
        assert(s.take(k + 1).drop_last() =~= s.take(k));
    } else {
        assert(s.take(k) =~= s);
    }
}

/// A concurrency setting from the environment: a positive number, else the
/// default.
pub open spec fn concurrency_setting(value: Option<Seq<char>>, default: usize) -> nat {
    match value {
        Some(s) => match parsed_usize(s) {
            Some(n) => if n > 0 { n } else { default as nat },
            None => default as nat,
        },
        None => default as nat,
    }
}

/// Reads a concurrency limit: the value when it parses as a positive
/// `usize`, else `default`.
pub fn concurrency_limit(value: &Option<String>, default: usize) -> (r: usize)
    ensures
        r as nat == concurrency_setting(match value { Some(s) => Some(s@), None => None }, default),
{
    match value {
        Some(s) => match parse_usize(s.as_str()) {
            Some(n) => if n > 0 { n } else { default },
            None => default,
        },
        None => default,
    }
}

// ---------------------------------------------------------------------------
// Distribution points

/// What to do after trying one distribution point.
#[derive(Debug, Clone, Copy, PartialEq, Eq, Structural)]
pub enum AttemptOutcome {
    /// The job was cancelled: remove the partial folder and stop.
    Cancelled,
    /// The download finished: record it and stop.
    Completed,
    /// This point failed: try the next one.
    TryNext,
}

/// A cancellation wins over the attempt's result; otherwise a finished
/// download completes the job and a failed one moves on.
pub fn after_attempt(download_ok: bool, cancelled: bool) -> (r: AttemptOutcome)
    ensures
        r == if cancelled {
            AttemptOutcome::Cancelled
        } else if download_ok {
            AttemptOutcome::Completed
        } else {
            AttemptOutcome::TryNext
        },
{
    if cancelled {
        AttemptOutcome::Cancelled
    } else if download_ok {
        AttemptOutcome::Completed
    } else {
        AttemptOutcome::TryNext
    }
}

/// The percentage shown while fetching or assembling chunk `idx` of
/// `total`: `(idx + 1) * 100 / total`, at most 100.
pub fn chunk_percent(idx: usize, total: usize) -> (r: usize)
    requires
        total > 0,
        idx < total,
        total <= usize::MAX / 100,
    ensures
        r == if (idx + 1) * 100 / (total as int) > 100 { 100 } else { (idx + 1) * 100 / (total as int) },
{
    assert((idx + 1) * 100 <= total * 100) by (nonlinear_arith)
        requires idx < total;
    let p = (idx + 1) * 100 / total;
    if p > 100 { 100 } else { p }
}

} // verus!
