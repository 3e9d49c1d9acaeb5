//! The binary scene container: a twelve-byte header (magic, version, total
//! length) and after it chunks, each a length, a type and that many bytes
//! of data padded to a multiple of four. All numbers are little-endian.

use vstd::prelude::*;
use vstd::slice::slice_subrange;
use byteorder::ByteOrder;

verus! {

/// The container's magic number: the letters `glTF`.
pub const GLB_MAGIC: u32 = 0x46546C67;

/// The type of the chunk that holds the scene description: the letters
/// `JSON`.
pub const CHUNK_JSON: u32 = 0x4E4F534A;

/// The length of the container's header.
pub const HEADER_LEN: usize = 12;

/// The byte that a scene description is padded with: a space.
pub const PAD: u8 = 0x20;

/// The number that four bytes hold, least significant byte first.
pub open spec fn le_u32(b: Seq<u8>) -> nat {
    (b[0] + 256 * b[1] + 65536 * b[2] + 16777216 * b[3]) as nat
}

/// The four bytes that hold a number, least significant byte first.
pub open spec fn le_bytes(v: u32) -> Seq<u8> {
    seq![
        (v % 256) as u8,
        ((v / 256) % 256) as u8,
        ((v / 65536) % 256) as u8,
        (v / 16777216) as u8,
    ]
}

/// The number that the four bytes at `at` hold.
pub open spec fn le_u32_at(bytes: Seq<u8>, at: int) -> nat {
    le_u32(bytes.subrange(at, at + 4))
}

/// Reading the bytes of a number gives the number back.
pub proof fn lemma_le_round_trip(v: u32)
    ensures
        le_bytes(v).len() == 4,
        le_u32(le_bytes(v)) == v,
{
}

/// The number that four bytes hold, least significant byte first.
///
/// This is `byteorder::LittleEndian::read_u32`, which reads the first four
/// bytes of its argument as `u32::from_le_bytes` does and panics on fewer
/// than four.
#[verifier::external_body]
fn read_u32_le(four: &[u8]) -> (v: u32)
    requires
        four@.len() == 4,
    ensures
        v == le_u32(four@),
{
    byteorder::LittleEndian::read_u32(four)
}

/// The four bytes that hold a number, least significant byte first.
///
/// This is `byteorder::LittleEndian::write_u32` on a buffer of four bytes,
/// which stores `n.to_le_bytes()` in it.
#[verifier::external_body]
fn u32_le_bytes(v: u32) -> (out: [u8; 4])
    ensures
        out@ == le_bytes(v),
{
    let mut buf = [0u8;4];
    byteorder::LittleEndian::write_u32(&mut buf, v);
    buf
}

/// The number that the four bytes at `at` hold.
fn read_u32_at(bytes: &[u8], at: usize) -> (v: u32)
    requires
        at + 4 <= bytes@.len(),
    ensures
        v == le_u32_at(bytes@, at as int),
{
    let n = bytes.len();
    assert(at + 4 <= n);
    read_u32_le(slice_subrange(bytes, at, at + 4))
}

/// Why a container could not be taken apart.
#[derive(Clone, Copy, PartialEq, Eq, Structural, Debug)]
pub enum GlbError {
    /// The bytes end inside the header, inside the header of a chunk, or
    /// before the end of the scene description.
    Truncated,
    /// The scene description is not a JSON document.
    BadJson,
    /// The scene description could not be written, or is too long for a
    /// chunk.
    Unwritable,
}

/// Where the scene description lies in a container: the offset of its
/// chunk's header and the length of its data.
#[derive(Clone, Copy, PartialEq, Eq, Structural, Debug)]
pub struct JsonChunk {
    pub header: usize,
    pub length: u32,
}

impl JsonChunk {
    /// The offset of the first byte of the data.
    pub open spec fn data_start(self) -> int {
        self.header + 8
    }

    /// The offset after the last byte of the data.
    pub open spec fn data_end(self) -> int {
        self.header + 8 + self.length
    }

    /// The offset after the padding that follows the data.
    pub open spec fn padded_end(self) -> int {
        self.header + 8 + padded_len(self.length as int)
    }
}

/// `n` rounded up to a multiple of four.
pub open spec fn padded_len(n: int) -> int {
    (n + 3) / 4 * 4
}

/// The offset of the header of the first chunk of type `JSON` among the
/// chunks that start at `pos`: `Ok(None)` where the bytes end before such
/// a chunk, an error where they end inside a chunk's header.
pub open spec fn scan_chunks(bytes: Seq<u8>, pos: int) -> Result<Option<int>, GlbError>
    decreases
            (if pos < bytes.len() {
                bytes.len() - pos
            } else {
                0
            }),
{
    if pos < 0 || pos >= bytes.len() {
        Ok(None)
    } else if pos + 8 > bytes.len() {
        Err(GlbError::Truncated)
    } else if le_u32_at(bytes, pos + 4) == CHUNK_JSON {
        Ok(Some(pos))
    } else {
        scan_chunks(bytes, pos + 8 + le_u32_at(bytes, pos))
    }
}

/// Where the scene description lies in a container.
///
/// Bytes that do not start with the magic number are no container and
/// hold no scene description. In a container the first chunk of type
/// `JSON` is the scene description; its data must lie within the bytes.
pub open spec fn locate(bytes: Seq<u8>) -> Result<Option<JsonChunk>, GlbError> {
    if bytes.len() < 4 {
        Err(GlbError::Truncated)
    } else if le_u32_at(bytes, 0) != GLB_MAGIC {
        Ok(None)
    } else if bytes.len() < HEADER_LEN {
        Err(GlbError::Truncated)
    } else {
        match scan_chunks(bytes, HEADER_LEN as int) {
            Err(e) => Err(e),
            Ok(None) => Ok(None),
            Ok(Some(header)) => {
                let length = le_u32_at(bytes, header);
                if header + 8 + length > bytes.len() {
                    Err(GlbError::Truncated)
                } else {
                    Ok(Some(JsonChunk { header: header as usize, length: length as u32 }))
                }
            },
        }
    }
}

/// Where the scene description lies in a container.
#[verifier::rlimit(40)]
pub fn find_json_chunk(bytes: &[u8]) -> (found: Result<Option<JsonChunk>, GlbError>)
    ensures
        found == locate(bytes@),
        found matches Ok(Some(chunk)) ==> HEADER_LEN <= chunk.header && chunk.data_end()
            <= bytes@.len(),
{
    let n = bytes.len();
    if n < 4 {
        return Err(GlbError::Truncated);
    }
    if read_u32_at(bytes, 0) != GLB_MAGIC {
        return Ok(None);
    }
    if n < HEADER_LEN {
        return Err(GlbError::Truncated);
    }
    let mut pos: usize = HEADER_LEN;
    while pos < n
        invariant
            n == bytes@.len(),
            HEADER_LEN <= pos,
            le_u32_at(bytes@, 0) == GLB_MAGIC,
            scan_chunks(bytes@, HEADER_LEN as int) == scan_chunks(bytes@, pos as int),
        decreases n - pos,
    {
        if n - pos < 8 {
            assert(scan_chunks(bytes@, pos as int) == Err::<Option<int>, GlbError>(
                GlbError::Truncated,
            ));
            return Err(GlbError::Truncated);
        }
        let length = read_u32_at(bytes, pos);
        let kind = read_u32_at(bytes, pos + 4);
        if kind == CHUNK_JSON {
            assert(scan_chunks(bytes@, pos as int) == Ok::<Option<int>, GlbError>(
                Some(pos as int),
            ));
            if (length as u64) > (n - pos - 8) as u64 {
                return Err(GlbError::Truncated);
            }
            return Ok(Some(JsonChunk { header: pos, length }));
        }
        assert(scan_chunks(bytes@, pos as int) == scan_chunks(bytes@, pos + 8 + length));
        if (length as u64) >= (n - pos - 8) as u64 {
            // the next chunk would start at or after the end
            assert(scan_chunks(bytes@, pos + 8 + length) == Ok::<Option<int>, GlbError>(None));
            return Ok(None);
        }
        pos = pos + 8 + length as usize;
    }
    assert(scan_chunks(bytes@, pos as int) == Ok::<Option<int>, GlbError>(None));
    Ok(None)
}

/// Appends `src[from..to]` to `out`.
fn append_range(out: &mut Vec<u8>, src: &[u8], from: usize, to: usize)
    requires
        from <= to <= src@.len(),
    ensures
        final(out)@ == old(out)@ + src@.subrange(from as int, to as int),
{
    let mut k: usize = from;
    while k < to
        invariant
            from <= k <= to <= src@.len(),
            out@ == old(out)@ + src@.subrange(from as int, k as int),
        decreases to - k,
    {
        out.push(src[k]);
        k = k + 1;
        assert(out@ =~= old(out)@ + src@.subrange(from as int, k as int));
    }
    assert(out@ =~= old(out)@ + src@.subrange(from as int, to as int));
}

/// Appends the four bytes of `v` to `out`.
fn append_u32(out: &mut Vec<u8>, v: u32)
    ensures
        final(out)@ == old(out)@ + le_bytes(v),
{
    let four = u32_le_bytes(v);
    let ghost before = out@;
    out.push(four[0]);
    out.push(four[1]);
    out.push(four[2]);
    out.push(four[3]);
    assert(out@ =~= before + le_bytes(v));
}

/// `n` spaces.
pub open spec fn spaces(n: int) -> Seq<u8> {
    Seq::new(n as nat, |i: int| PAD)
}

/// How many bytes bring a length to the next multiple of four.
pub open spec fn pad_need(len: int) -> int {
    (4 - len % 4) % 4
}

/// With the bytes that it needs, a length is the next multiple of four.
pub proof fn lemma_pad_need(len: int)
    requires
        0 <= len,
    ensures
        0 <= pad_need(len) <= 3,
        (len + pad_need(len)) % 4 == 0,
        len + pad_need(len) == padded_len(len),
{
    let r = len % 4;
    let q = len / 4;
    assert(len == 4 * q + r && 0 <= r < 4);
    if r == 0 {
        assert(pad_need(len) == 0);
        assert((len + 3) / 4 == q);
    } else if r == 1 {
        assert(pad_need(len) == 3);
        assert((len + 3) / 4 == q + 1);
    } else if r == 2 {
        assert(pad_need(len) == 2);
        assert((len + 3) / 4 == q + 1);
    } else {
        assert(pad_need(len) == 1);
        assert((len + 3) / 4 == q + 1);
    }
}

/// Pads a scene description with spaces to a multiple of four bytes.
pub fn pad_to_four(json: Vec<u8>) -> (out: Vec<u8>)
    ensures
        out@ == json@ + spaces(pad_need(json@.len() as int)),
        out@.len() % 4 == 0,
        out@.len() == padded_len(json@.len() as int),
{
    let mut out = json;
    let need: usize = (4 - out.len() % 4) % 4;
    let mut k: usize = 0;
    proof {
        lemma_pad_need(json@.len() as int);
        assert(out@ =~= json@ + spaces(0));
    }
    while k < need
        invariant
            0 <= k <= need <= 3,
            out@ == json@ + spaces(k as int),
        decreases need - k,
    {
        out.push(PAD);
        k = k + 1;
        assert(out@ =~= json@ + spaces(k as int));
    }
    out
}

/// The total length that the header of a patched container states: the
/// old one changed by as much as the scene description's chunk grew, in
/// 32 bits.
pub open spec fn patched_total(old_total: int, old_padded: int, new_len: int) -> u32 {
    ((old_total + new_len - old_padded) % 0x1_0000_0000) as u32
}

/// The container with the scene description replaced: the header with the
/// total length adjusted, the chunks before the scene description, the new
/// scene description as a chunk, and the chunks that followed the old one.
pub open spec fn replaced(bytes: Seq<u8>, chunk: JsonChunk, json: Seq<u8>) -> Seq<u8> {
    bytes.subrange(0, 8) + le_bytes(
        patched_total(
            le_u32_at(bytes, 8) as int,
            padded_len(chunk.length as int),
            json.len() as int,
        ),
    ) + bytes.subrange(HEADER_LEN as int, chunk.header as int) + le_bytes(json.len() as u32)
        + le_bytes(CHUNK_JSON) + json + rest_after(bytes, chunk)
}

/// What follows the scene description's chunk and its padding.
pub open spec fn rest_after(bytes: Seq<u8>, chunk: JsonChunk) -> Seq<u8> {
    if chunk.padded_end() < bytes.len() {
        bytes.subrange(chunk.padded_end(), bytes.len() as int)
    } else {
        Seq::empty()
    }
}

/// The container with the scene description replaced by `json`.
#[verifier::rlimit(40)]
pub fn replace_json_chunk(bytes: &[u8], chunk: &JsonChunk, json: &[u8]) -> (out: Vec<u8>)
    requires
        HEADER_LEN <= chunk.header,
        chunk.data_end() <= bytes@.len(),
        json@.len() <= u32::MAX,
    ensures
        out@ == replaced(bytes@, *chunk, json@),
{
    let n = bytes.len();
    let old_total = read_u32_at(bytes, 8);
    let old_padded: u64 = (chunk.length as u64 + 3) / 4 * 4;
    let new_total = total_after(old_total, old_padded, json.len() as u32);
    let mut out: Vec<u8> = Vec::new();
    append_range(&mut out, bytes, 0, 8);
    let ghost s1 = out@;
    append_u32(&mut out, new_total);
    let ghost s2 = out@;
    append_range(&mut out, bytes, HEADER_LEN, chunk.header);
    let ghost s3 = out@;
    append_u32(&mut out, json.len() as u32);
    let ghost s4 = out@;
    append_u32(&mut out, CHUNK_JSON);
    let ghost s5 = out@;
    append_range(&mut out, json, 0, json.len());
    let ghost s6 = out@;
    let ghost tail = rest_after(bytes@, *chunk);
    if old_padded < (n - chunk.header - 8) as u64 {
        let next = chunk.header + 8 + old_padded as usize;
        append_range(&mut out, bytes, next, n);
        assert(out@ == s6 + tail);
    } else {
        assert(tail =~= Seq::<u8>::empty());
        assert(out@ =~= s6 + tail);
    }
    proof {
        assert(s1 =~= bytes@.subrange(0, 8));
        assert(s2 == s1 + le_bytes(new_total));
        assert(s3 == s2 + bytes@.subrange(HEADER_LEN as int, chunk.header as int));
        assert(s4 == s3 + le_bytes(json@.len() as u32));
        assert(s5 == s4 + le_bytes(CHUNK_JSON));
        assert(s6 =~= s5 + json@);
    }
    out
}

/// The total length for the header of a patched container.
fn total_after(old_total: u32, old_padded: u64, new_len: u32) -> (total: u32)
    requires
        old_padded <= 0x1_0000_0000,
    ensures
        total == patched_total(old_total as int, old_padded as int, new_len as int),
{
    let grown: u64 = old_total as u64 + new_len as u64;
    if grown >= old_padded {
        ((grown - old_padded) % 0x1_0000_0000) as u32
    } else {
        ((grown + 0x1_0000_0000 - old_padded) % 0x1_0000_0000) as u32
    }
}

/// A chunk that is found lies at or after the place where the search
/// began, and its header within the bytes.
pub proof fn lemma_scan_goes_forward(bytes: Seq<u8>, pos: int, header: int)
    requires
        scan_chunks(bytes, pos) == Ok::<Option<int>, GlbError>(Some(header)),
    ensures
        0 <= pos <= header,
        header + 8 <= bytes.len(),
        le_u32_at(bytes, header + 4) == CHUNK_JSON,
    decreases
            (if pos < bytes.len() {
                bytes.len() - pos
            } else {
                0
            }),
{
    if 0 <= pos < bytes.len() && pos + 8 <= bytes.len() && le_u32_at(bytes, pos + 4) != CHUNK_JSON {
        lemma_scan_goes_forward(bytes, pos + 8 + le_u32_at(bytes, pos), header);
    }
}

/// The search for the scene description reads nothing but the headers of
/// the chunks before it: in other bytes that hold the same up to the
/// chunk's header and a chunk of type `JSON` there, the search ends at the
/// same place.
pub proof fn lemma_scan_agrees(a: Seq<u8>, b: Seq<u8>, pos: int, header: int)
    requires
        scan_chunks(a, pos) == Ok::<Option<int>, GlbError>(Some(header)),
        header + 8 <= b.len(),
        forall|i: int| pos <= i < header ==> a[i] == b[i],
        le_u32_at(b, header + 4) == CHUNK_JSON,
    ensures
        scan_chunks(b, pos) == Ok::<Option<int>, GlbError>(Some(header)),
    decreases header - pos,
{
    lemma_scan_goes_forward(a, pos, header);
    if pos < header {
        let next = pos + 8 + le_u32_at(a, pos);
        assert(le_u32_at(a, pos + 4) != CHUNK_JSON);
        lemma_scan_goes_forward(a, next, header);
        assert(a.subrange(pos, pos + 4) =~= b.subrange(pos, pos + 4));
        assert(a.subrange(pos + 4, pos + 8) =~= b.subrange(pos + 4, pos + 8));
        lemma_scan_agrees(a, b, next, header);
    }
}

/// What a replaced container holds before the scene description's chunk.
spec fn replaced_head(bytes: Seq<u8>, chunk: JsonChunk, json: Seq<u8>) -> Seq<u8> {
    bytes.subrange(0, 8) + le_bytes(
        patched_total(
            le_u32_at(bytes, 8) as int,
            padded_len(chunk.length as int),
            json.len() as int,
        ),
    ) + bytes.subrange(HEADER_LEN as int, chunk.header as int)
}

/// What a replaced container holds from the scene description's chunk on.
spec fn replaced_tail(bytes: Seq<u8>, chunk: JsonChunk, json: Seq<u8>) -> Seq<u8> {
    le_bytes(json.len() as u32) + le_bytes(CHUNK_JSON) + json + rest_after(bytes, chunk)
}

/// The head of a replaced container is as long as the old one, and holds
/// the same but for the total length.
proof fn lemma_replaced_head(bytes: Seq<u8>, chunk: JsonChunk, json: Seq<u8>)
    requires
        HEADER_LEN <= chunk.header <= bytes.len(),
    ensures
        replaced_head(bytes, chunk, json).len() == chunk.header,
        forall|i: int|
            0 <= i < 8 || HEADER_LEN <= i < chunk.header ==> #[trigger] replaced_head(
                bytes,
                chunk,
                json,
            )[i] == bytes[i],
{
    let first = bytes.subrange(0, 8);
    let total = le_bytes(
        patched_total(
            le_u32_at(bytes, 8) as int,
            padded_len(chunk.length as int),
            json.len() as int,
        ),
    );
    let before = bytes.subrange(HEADER_LEN as int, chunk.header as int);
    let head = replaced_head(bytes, chunk, json);
    assert(head == (first + total) + before);
    assert((first + total).len() == 12);
    assert forall|i: int| 0 <= i < 8 || HEADER_LEN <= i < chunk.header implies #[trigger] head[i]
        == bytes[i] by {
        if i < 8 {
            assert(head[i] == (first + total)[i]);
            assert((first + total)[i] == first[i]);
        } else {
            assert(head[i] == before[i - 12]);
        }
    }
}

/// The tail of a replaced container, part by part.
proof fn lemma_replaced_tail(bytes: Seq<u8>, chunk: JsonChunk, json: Seq<u8>)
    requires
        json.len() <= u32::MAX,
    ensures
        ({
            let tail = replaced_tail(bytes, chunk, json);
            let rest = rest_after(bytes, chunk);
            &&& tail.len() == 8 + json.len() + rest.len()
            &&& tail.subrange(0, 4) == le_bytes(json.len() as u32)
            &&& tail.subrange(4, 8) == le_bytes(CHUNK_JSON)
            &&& tail.subrange(8, 8 + json.len() as int) == json
            &&& tail.subrange(8 + json.len() as int, tail.len() as int) == rest
        }),
{
    let a = le_bytes(json.len() as u32);
    let b = le_bytes(CHUNK_JSON);
    let rest = rest_after(bytes, chunk);
    let tail = replaced_tail(bytes, chunk, json);
    assert(tail == ((a + b) + json) + rest);
    assert(a.len() == 4 && b.len() == 4);
    assert(tail.subrange(0, 4) =~= a);
    assert(tail.subrange(4, 8) =~= b);
    assert(tail.subrange(8, 8 + json.len() as int) =~= json);
    assert(tail.subrange(8 + json.len() as int, tail.len() as int) =~= rest);
}

/// A part of the second of two texts, seen in the two joined.
proof fn lemma_part_of_second(head: Seq<u8>, tail: Seq<u8>, from: int, to: int)
    requires
        0 <= from <= to <= tail.len(),
    ensures
        (head + tail).subrange(head.len() + from, head.len() + to) == tail.subrange(from, to),
{
    assert((head + tail).subrange(head.len() + from, head.len() + to) =~= tail.subrange(from, to));
}

/// What it means that the scene description of a container lies at
/// `chunk`.
proof fn lemma_locate_facts(bytes: Seq<u8>, chunk: JsonChunk)
    requires
        bytes.len() <= usize::MAX,
        locate(bytes) == Ok::<Option<JsonChunk>, GlbError>(Some(chunk)),
    ensures
        bytes.len() >= HEADER_LEN,
        le_u32_at(bytes, 0) == GLB_MAGIC,
        scan_chunks(bytes, HEADER_LEN as int) == Ok::<Option<int>, GlbError>(
            Some(chunk.header as int),
        ),
        HEADER_LEN <= chunk.header,
        chunk.data_end() <= bytes.len(),
{
    let found = scan_chunks(bytes, HEADER_LEN as int);
    assert(found is Ok && found->Ok_0 is Some);
    let header = found->Ok_0->0;
    lemma_scan_goes_forward(bytes, HEADER_LEN as int, header);
    assert(chunk.header == header as usize);
    assert(header as usize == header);
}

/// A replaced container is its head and its tail.
proof fn lemma_replaced_split(bytes: Seq<u8>, chunk: JsonChunk, json: Seq<u8>)
    ensures
        replaced(bytes, chunk, json) == replaced_head(bytes, chunk, json) + replaced_tail(
            bytes,
            chunk,
            json,
        ),
{
    assert(replaced(bytes, chunk, json) =~= replaced_head(bytes, chunk, json) + replaced_tail(
        bytes,
        chunk,
        json,
    ));
}

/// The first of two joined texts, seen in the two joined.
proof fn lemma_first_of_joined(head: Seq<u8>, tail: Seq<u8>)
    ensures
        (head + tail).len() == head.len() + tail.len(),
        forall|i: int| 0 <= i < head.len() ==> #[trigger] (head + tail)[i] == head[i],
{
}

/// What a replaced container holds, part by part.
proof fn lemma_replaced_layout(bytes: Seq<u8>, chunk: JsonChunk, json: Seq<u8>)
    requires
        HEADER_LEN <= chunk.header <= bytes.len(),
        json.len() <= u32::MAX,
    ensures
        ({
            let out = replaced(bytes, chunk, json);
            let header = chunk.header as int;
            let n = json.len() as int;
            let rest = rest_after(bytes, chunk);
            &&& out.len() == header + 8 + n + rest.len()
            &&& out.subrange(0, 8) == bytes.subrange(0, 8)
            &&& out.subrange(0, 4) == bytes.subrange(0, 4)
            &&& forall|i: int| HEADER_LEN <= i < header ==> bytes[i] == #[trigger] out[i]
            &&& out.subrange(header, header + 4) == le_bytes(json.len() as u32)
            &&& out.subrange(header + 4, header + 8) == le_bytes(CHUNK_JSON)
            &&& out.subrange(header + 8, header + 8 + n) == json
            &&& out.subrange(header + 8 + n, out.len() as int) == rest
        }),
{
    let out = replaced(bytes, chunk, json);
    let n = json.len() as int;
    let head = replaced_head(bytes, chunk, json);
    let tail = replaced_tail(bytes, chunk, json);
    lemma_replaced_split(bytes, chunk, json);
    lemma_replaced_head(bytes, chunk, json);
    lemma_replaced_tail(bytes, chunk, json);
    lemma_first_of_joined(head, tail);
    lemma_part_of_second(head, tail, 0, 4);
    lemma_part_of_second(head, tail, 4, 8);
    lemma_part_of_second(head, tail, 8, 8 + n);
    lemma_part_of_second(head, tail, 8 + n, tail.len() as int);
    assert(out.subrange(0, 8) =~= bytes.subrange(0, 8));
    assert(out.subrange(0, 4) =~= bytes.subrange(0, 4));
}

/// Replacing the scene description loses nothing: in the new container
/// the scene description is found where the old one was, it is the text
/// that was put in, and everything after it is what followed the old one,
/// byte for byte. Magic number and version stay too.
pub proof fn lemma_replaced_keeps_the_rest(bytes: Seq<u8>, chunk: JsonChunk, json: Seq<u8>)
    requires
        bytes.len() <= usize::MAX,
        locate(bytes) == Ok::<Option<JsonChunk>, GlbError>(Some(chunk)),
        json.len() <= u32::MAX,
        json.len() % 4 == 0,
    ensures
        ({
            let out = replaced(bytes, chunk, json);
            let moved = JsonChunk { header: chunk.header, length: json.len() as u32 };
            &&& locate(out) == Ok::<Option<JsonChunk>, GlbError>(Some(moved))
            &&& out.subrange(moved.data_start(), moved.data_end()) == json
            &&& rest_after(out, moved) == rest_after(bytes, chunk)
            &&& out.subrange(0, 8) == bytes.subrange(0, 8)
        }),
{
    let out = replaced(bytes, chunk, json);
    let header = chunk.header as int;
    let moved = JsonChunk { header: chunk.header, length: json.len() as u32 };
    lemma_locate_facts(bytes, chunk);
    lemma_replaced_layout(bytes, chunk, json);
    lemma_le_round_trip(json.len() as u32);
    lemma_le_round_trip(CHUNK_JSON);
    lemma_scan_agrees(bytes, out, HEADER_LEN as int, header);
    lemma_located(out, moved);
    lemma_rest_of_moved(out, moved, rest_after(bytes, chunk));
}

/// What follows a chunk whose data needs no padding.
proof fn lemma_rest_of_moved(out: Seq<u8>, moved: JsonChunk, rest: Seq<u8>)
    requires
        moved.length % 4 == 0,
        out.len() == moved.data_end() + rest.len(),
        out.subrange(moved.data_end(), out.len() as int) == rest,
    ensures
        rest_after(out, moved) == rest,
{
    assert(padded_len(moved.length as int) == moved.length);
    if rest.len() == 0 {
        assert(rest_after(out, moved) =~= rest);
    }
}

/// Bytes in which the search for chunks ends at a chunk whose data lies
/// within them hold their scene description there.
proof fn lemma_located(bytes: Seq<u8>, chunk: JsonChunk)
    requires
        bytes.len() >= HEADER_LEN,
        le_u32_at(bytes, 0) == GLB_MAGIC,
        scan_chunks(bytes, HEADER_LEN as int) == Ok::<Option<int>, GlbError>(
            Some(chunk.header as int),
        ),
        le_u32_at(bytes, chunk.header as int) == chunk.length,
        chunk.data_end() <= bytes.len(),
    ensures
        locate(bytes) == Ok::<Option<JsonChunk>, GlbError>(Some(chunk)),
{
}

} // verus!
