//! Chunk codec: build one well-formed embedded-payload chunk from raw bytes,
//! and parse such a chunk back, validating structure, tag, keyword and
//! checksum.

use vstd::prelude::*;
use crate::checksum::{crc32, crc32_of};
use crate::errors::PngError;
use crate::payload::{b64_of, decode_payload, encode_payload, size_ok};

verus! {

/// The four big-endian bytes of a 32-bit value.
pub open spec fn u32_be(n: u32) -> Seq<u8> {
    seq![
        ((n >> 24) & 0xff) as u8,
        ((n >> 16) & 0xff) as u8,
        ((n >> 8) & 0xff) as u8,
        (n & 0xff) as u8,
    ]
}

/// The 32-bit value read from four big-endian bytes.
pub open spec fn be_u32(b0: u8, b1: u8, b2: u8, b3: u8) -> u32 {
    ((b0 as u32) << 24) | ((b1 as u32) << 16) | ((b2 as u32) << 8) | (b3 as u32)
}

/// Reading back the four big-endian bytes of a value yields the value.
pub proof fn lemma_be_u32_of_u32_be(n: u32)
    ensures
        be_u32(u32_be(n)[0], u32_be(n)[1], u32_be(n)[2], u32_be(n)[3]) == n,
{
    assert(u32_be(n)[0] == ((n >> 24) & 0xff) as u8);
    assert(u32_be(n)[1] == ((n >> 16) & 0xff) as u8);
    assert(u32_be(n)[2] == ((n >> 8) & 0xff) as u8);
    assert(u32_be(n)[3] == (n & 0xff) as u8);
    assert(be_u32(
        ((n >> 24) & 0xff) as u8,
        ((n >> 16) & 0xff) as u8,
        ((n >> 8) & 0xff) as u8,
        (n & 0xff) as u8,
    ) == n) by (bit_vector);
}

/// Convert a 32-bit value to its four bytes in network byte order.
pub fn u32_bytes_be(n: u32) -> (r: Vec<u8>)
    ensures
        r@ == u32_be(n),
{
    assert((n >> 24) & 0xff < 256 && (n >> 16) & 0xff < 256 && (n >> 8) & 0xff < 256 && n & 0xff
        < 256) by (bit_vector);
    let mut r: Vec<u8> = Vec::new();
    r.push(((n >> 24) & 0xff) as u8);
    r.push(((n >> 16) & 0xff) as u8);
    r.push(((n >> 8) & 0xff) as u8);
    r.push((n & 0xff) as u8);
    assert(r@ =~= u32_be(n));
    r
}

/// Read a 32-bit big-endian value from four consecutive bytes of a slice.
pub fn read_be_u32(b: &[u8], pos: usize) -> (r: u32)
    requires
        pos + 4 <= b@.len(),
    ensures
        r == be_u32(b@[pos as int], b@[pos as int + 1], b@[pos as int + 2], b@[pos as int + 3]),
{
    ((b[pos] as u32) << 24) | ((b[pos + 1] as u32) << 16) | ((b[pos + 2] as u32) << 8) | (b[pos
        + 3] as u32)
}

/// The chunk type tag `tEXt`.
pub open spec fn text_tag() -> Seq<u8> {
    seq![0x74u8, 0x45u8, 0x58u8, 0x74u8]
}

/// The keyword `data` with its null terminator: the five bytes that open the
/// data field of every chunk this library builds.
pub open spec fn keyword_seq() -> Seq<u8> {
    seq![0x64u8, 0x61u8, 0x74u8, 0x61u8, 0x00u8]
}

/// Data field of the embedded-payload chunk: keyword, null byte, then the
/// text-safe encoding of the payload.
pub open spec fn chunk_data_of(p: Seq<u8>) -> Seq<u8> {
    keyword_seq() + b64_of(p)
}

/// The full chunk that embeds payload `p`: big-endian length of the data
/// field, type tag, data field, and big-endian checksum over tag plus data.
pub open spec fn chunk_of(p: Seq<u8>) -> Seq<u8> {
    u32_be(chunk_data_of(p).len() as u32) + text_tag() + chunk_data_of(p) + u32_be(
        crc32_of(text_tag() + chunk_data_of(p)),
    )
}

/// Append every byte of `src` to `dst`.
pub(crate) fn push_bytes(dst: &mut Vec<u8>, src: &[u8])
    ensures
        final(dst)@ == old(dst)@ + src@,
{
    let mut i: usize = 0;
    while i < src.len()
        invariant
            i <= src@.len(),
            dst@ == old(dst)@ + src@.subrange(0, i as int),
        decreases src@.len() - i,
    {
        dst.push(src[i]);
        i = i + 1;
        assert(old(dst)@ + src@.subrange(0, i - 1) + seq![src@[i - 1]] =~= old(dst)@
            + src@.subrange(0, i as int));
    }
    assert(old(dst)@ + src@.subrange(0, src@.len() as int) =~= old(dst)@ + src@);
}

/// Build a complete embedded-payload chunk around the given raw bytes, or
/// reject them if the size policy is violated.
pub fn build_text_chunk(data: &Vec<u8>) -> (r: Result<Vec<u8>, PngError>)
    ensures
        size_ok(data@.len()) ==> (r matches Ok(v) && v@ == chunk_of(data@)),
        !size_ok(data@.len()) ==> r == Err::<Vec<u8>, PngError>(PngError::SizeLimitExceeded),
        r matches Ok(v) ==> (v@ == chunk_of(data@) && b64_of(data@).len() + 5 <= 0x7fff_ffff),
{
    let encoded = match encode_payload(data) {
        Ok(e) => e,
        Err(e) => {
            return Err(e);
        },
    };
    let chunk_len: u32 = (encoded.len() + 5) as u32;

    // Type tag and data field, the bytes the checksum runs over.
    let mut td: Vec<u8> = Vec::new();
    td.push(0x74);
    td.push(0x45);
    td.push(0x58);
    td.push(0x74);
    td.push(0x64);
    td.push(0x61);
    td.push(0x74);
    td.push(0x61);
    td.push(0x00);
    push_bytes(&mut td, encoded.as_slice());
    assert(td@ =~= text_tag() + chunk_data_of(data@));

    let crc = crc32(td.as_slice());

    let mut out = u32_bytes_be(chunk_len);
    push_bytes(&mut out, td.as_slice());
    let crc_bytes = u32_bytes_be(crc);
    push_bytes(&mut out, crc_bytes.as_slice());
    assert(out@ =~= chunk_of(data@));
    Ok(out)
}

/// The data-field length a chunk byte sequence declares.
pub open spec fn declared_len(s: Seq<u8>) -> int {
    be_u32(s[0], s[1], s[2], s[3]) as int
}

/// A single chunk's frame is intact: the declared length accounts for exactly
/// the bytes between the type tag and the four checksum bytes.
pub open spec fn chunk_frame_ok(s: Seq<u8>) -> bool {
    s.len() >= 12 && s.len() == 12 + declared_len(s)
}

/// The type tag and data field of a framed chunk.
pub open spec fn chunk_td(s: Seq<u8>) -> Seq<u8> {
    s.subrange(4, s.len() - 4)
}

/// The checksum a framed chunk stores in its final four bytes.
pub open spec fn stored_crc(s: Seq<u8>) -> u32 {
    be_u32(s[s.len() - 4], s[s.len() - 3], s[s.len() - 2], s[s.len() - 1])
}

/// The encoded payload region of a framed chunk: its data field without the
/// five keyword bytes.
pub open spec fn chunk_encoded(s: Seq<u8>) -> Seq<u8> {
    s.subrange(13, s.len() - 4)
}

/// Parse a single embedded-payload chunk back to the raw bytes it holds.
/// Checks, in order: the frame, the checksum, the type tag, the keyword; then
/// decodes the text-safe payload.
pub fn parse_text_chunk(chunk: &Vec<u8>) -> (r: Result<Vec<u8>, PngError>)
    ensures
        !chunk_frame_ok(chunk@) ==> r == Err::<Vec<u8>, PngError>(PngError::MalformedContainer),
        chunk_frame_ok(chunk@) && crc32_of(chunk_td(chunk@)) != stored_crc(chunk@) ==> r == Err::<
            Vec<u8>,
            PngError,
        >(PngError::ChecksumMismatch),
        chunk_frame_ok(chunk@) && crc32_of(chunk_td(chunk@)) == stored_crc(chunk@)
            && chunk@.subrange(4, 8) != text_tag() ==> r == Err::<Vec<u8>, PngError>(
            PngError::MalformedContainer,
        ),
        chunk_frame_ok(chunk@) && crc32_of(chunk_td(chunk@)) == stored_crc(chunk@)
            && chunk@.subrange(4, 8) == text_tag() && !(declared_len(chunk@) >= 5
            && chunk@.subrange(8, 13) == keyword_seq()) ==> r == Err::<Vec<u8>, PngError>(
            PngError::PayloadNotFound,
        ),
        chunk_frame_ok(chunk@) && crc32_of(chunk_td(chunk@)) == stored_crc(chunk@)
            && chunk@.subrange(4, 8) == text_tag() && declared_len(chunk@) >= 5 && chunk@.subrange(
            8,
            13,
        ) == keyword_seq() ==> {
            &&& forall|x: Seq<u8>|
                chunk_encoded(chunk@) == #[trigger] b64_of(x) ==> (r matches Ok(v) && v@ == x)
            &&& (r matches Ok(v) ==> chunk_encoded(chunk@) == b64_of(v@))
            &&& (r is Err ==> r == Err::<Vec<u8>, PngError>(PngError::InvalidEncoding))
        },
{
    if chunk.len() < 12 {
        return Err(PngError::MalformedContainer);
    }
    let l: u32 = read_be_u32(chunk.as_slice(), 0);
    if chunk.len() - 12 != l as usize {
        return Err(PngError::MalformedContainer);
    }
    let end_td: usize = chunk.len() - 4;
    let td = copy_range(chunk.as_slice(), 4, end_td);
    let computed = crc32(td.as_slice());
    let stored = read_be_u32(chunk.as_slice(), end_td);
    if computed != stored {
        return Err(PngError::ChecksumMismatch);
    }
    if !(chunk[4] == 0x74 && chunk[5] == 0x45 && chunk[6] == 0x58 && chunk[7] == 0x74) {
        assert(chunk@.subrange(4, 8) != text_tag());
        return Err(PngError::MalformedContainer);
    }
    assert(chunk@.subrange(4, 8) =~= text_tag());
    if l < 5 {
        return Err(PngError::PayloadNotFound);
    }
    if !(chunk[8] == 0x64 && chunk[9] == 0x61 && chunk[10] == 0x74 && chunk[11] == 0x61 && chunk[12]
        == 0x00) {
        assert(chunk@.subrange(8, 13) != keyword_seq());
        return Err(PngError::PayloadNotFound);
    }
    assert(chunk@.subrange(8, 13) =~= keyword_seq());
    let encoded = copy_range(chunk.as_slice(), 13, end_td);
    decode_payload(&encoded)
}

/// Copy the bytes of a slice between two positions into a fresh vector.
pub fn copy_range(v: &[u8], a: usize, b: usize) -> (r: Vec<u8>)
    requires
        a <= b <= v@.len(),
    ensures
        r@ == v@.subrange(a as int, b as int),
{
    let mut r: Vec<u8> = Vec::new();
    let mut i: usize = a;
    while i < b
        invariant
            a <= i <= b <= v@.len(),
            r@ == v@.subrange(a as int, i as int),
        decreases b - i,
    {
        r.push(v[i]);
        i = i + 1;
        assert(v@.subrange(a as int, i - 1) + seq![v@[i - 1]] =~= v@.subrange(a as int, i as int));
    }
    r
}

} // verus!
