//! Container splicer: strip the fixed terminator, insert the embedded-payload
//! chunk immediately before it, and scan a container's chunk sequence for the
//! last embedded payload.

use vstd::prelude::*;
use crate::checksum::crc32_of;
use crate::chunk::{
    be_u32, build_text_chunk, chunk_data_of, chunk_of, copy_range, keyword_seq, parse_text_chunk,
    push_bytes, read_be_u32, text_tag, u32_be,
};
use crate::errors::PngError;
use crate::payload::{b64_of, size_ok, MAX_CHUNK_DATA};

verus! {

/// The fixed 12-byte terminator chunk: length 0, tag `IEND`, and the fixed
/// checksum of zero-length `IEND` data.
pub open spec fn iend_seq() -> Seq<u8> {
    seq![
        0x00u8,
        0x00u8,
        0x00u8,
        0x00u8,
        0x49u8,
        0x45u8,
        0x4eu8,
        0x44u8,
        0xaeu8,
        0x42u8,
        0x60u8,
        0x82u8,
    ]
}

/// The fixed 8-byte signature that opens every container.
pub open spec fn png_sig() -> Seq<u8> {
    seq![0x89u8, 0x50u8, 0x4eu8, 0x47u8, 0x0du8, 0x0au8, 0x1au8, 0x0au8]
}

/// The stream ends with the fixed terminator.
pub open spec fn has_terminator(c: Seq<u8>) -> bool {
    c.len() >= 12 && c.subrange(c.len() - 12, c.len() as int) == iend_seq()
}

/// Everything before the terminator.
pub open spec fn body_of(c: Seq<u8>) -> Seq<u8> {
    c.subrange(0, c.len() - 12)
}

/// A container holding nothing but the fixed signature and the terminator.
pub open spec fn is_minimal_container(c: Seq<u8>) -> bool {
    c == png_sig() + iend_seq()
}

/// The data-field length declared by the chunk that starts at `pos`.
pub open spec fn len_at(body: Seq<u8>, pos: int) -> int {
    be_u32(body[pos], body[pos + 1], body[pos + 2], body[pos + 3]) as int
}

/// Where the chunk that starts at `pos` ends: four length bytes, four tag
/// bytes, the data field, four checksum bytes.
pub open spec fn end_at(body: Seq<u8>, pos: int) -> int {
    pos + 12 + len_at(body, pos)
}

/// The chunk that starts at `pos` lies entirely within `body`.
pub open spec fn chunk_fits(body: Seq<u8>, pos: int) -> bool {
    pos + 8 <= body.len() && end_at(body, pos) <= body.len()
}

/// From `pos` to the end of `body`, the bytes split into whole chunks.
pub open spec fn chunks_wf(body: Seq<u8>, pos: int) -> bool
    decreases body.len() - pos,
{
    if pos == body.len() {
        true
    } else if !chunk_fits(body, pos) {
        false
    } else {
        chunks_wf(body, end_at(body, pos))
    }
}

/// The chunk that starts at `pos` carries an embedded payload: its tag is
/// `tEXt` and its data field starts with the keyword and the null byte.
pub open spec fn is_match_at(body: Seq<u8>, pos: int) -> bool {
    &&& body.subrange(pos + 4, pos + 8) == text_tag()
    &&& len_at(body, pos) >= 5
    &&& body.subrange(pos + 8, pos + 13) == keyword_seq()
}

/// Start of the last embedded-payload chunk at or after `pos`, if any.
pub open spec fn last_match(body: Seq<u8>, pos: int) -> Option<int>
    decreases body.len() - pos,
{
    if pos == body.len() || !chunk_fits(body, pos) {
        None
    } else {
        let rest = last_match(body, end_at(body, pos));
        if rest is Some {
            rest
        } else if is_match_at(body, pos) {
            Some(pos)
        } else {
            None
        }
    }
}

/// The second option where it is set, else the first.
pub open spec fn or_opt(first: Option<int>, second: Option<int>) -> Option<int> {
    if second is Some {
        second
    } else {
        first
    }
}

/// An executable option's position, as a ghost option.
pub open spec fn view_opt(o: Option<usize>) -> Option<int> {
    match o {
        Some(b) => Some(b as int),
        None => None,
    }
}

/// Decoding `c` must recover exactly `p`: the container ends in the
/// terminator, its chunk walk succeeds, an embedded-payload chunk exists, the
/// last one stores the checksum of its own tag and data, and its encoded
/// region is the base64 image of `p`.
pub open spec fn recovers(c: Seq<u8>, p: Seq<u8>) -> bool {
    &&& has_terminator(c)
    &&& c.len() >= 20
    &&& chunks_wf(body_of(c), 8)
    &&& match last_match(body_of(c), 8) {
        Some(pos) => {
            let body = body_of(c);
            let l = len_at(body, pos);
            &&& crc32_of(body.subrange(pos + 4, pos + 8 + l)) == be_u32(
                body[pos + 8 + l],
                body[pos + 9 + l],
                body[pos + 10 + l],
                body[pos + 11 + l],
            )
            &&& body.subrange(pos + 13, pos + 8 + l) == b64_of(p)
        },
        None => false,
    }
}

/// The fixed terminator as bytes.
pub fn iend_bytes() -> (r: Vec<u8>)
    ensures
        r@ == iend_seq(),
{
    let mut r: Vec<u8> = Vec::new();
    r.push(0x00);
    r.push(0x00);
    r.push(0x00);
    r.push(0x00);
    r.push(0x49);
    r.push(0x45);
    r.push(0x4e);
    r.push(0x44);
    r.push(0xae);
    r.push(0x42);
    r.push(0x60);
    r.push(0x82);
    assert(r@ =~= iend_seq());
    r
}

/// Verify that the stream ends with the fixed terminator and return everything
/// before it.
pub fn png_without_iend(data: &Vec<u8>) -> (r: Result<Vec<u8>, PngError>)
    ensures
        has_terminator(data@) ==> (r matches Ok(v) && v@ == body_of(data@)),
        !has_terminator(data@) ==> r == Err::<Vec<u8>, PngError>(PngError::MalformedContainer),
{
    if data.len() < 12 {
        return Err(PngError::MalformedContainer);
    }
    let start = data.len() - 12;
    let iend = iend_bytes();
    let mut i: usize = 0;
    while i < 12
        invariant
            i <= 12,
            data@.len() >= 12,
            data@.len() <= usize::MAX,
            start == data@.len() - 12,
            iend@ == iend_seq(),
            forall|j: int| 0 <= j < i ==> data@[start + j] == iend_seq()[j],
        decreases 12 - i,
    {
        if data[start + i] != iend[i] {
            proof {
                let suffix = data@.subrange(data@.len() - 12, data@.len() as int);
                assert(suffix[i as int] == data@[start + i]);
            }
            return Err(PngError::MalformedContainer);
        }
        i = i + 1;
    }
    assert(data@.subrange(data@.len() - 12, data@.len() as int) =~= iend_seq());
    Ok(copy_range(data.as_slice(), 0, start))
}

/// Splice a payload into a container: everything before the terminator, then
/// the embedded-payload chunk, then the terminator. The final twelve bytes of
/// a successful result are always the fixed terminator, unchanged.
pub fn encode_into(container: &Vec<u8>, payload: &Vec<u8>) -> (r: Result<Vec<u8>, PngError>)
    ensures
        !has_terminator(container@) ==> r == Err::<Vec<u8>, PngError>(PngError::MalformedContainer),
        has_terminator(container@) && !size_ok(payload@.len()) ==> r == Err::<Vec<u8>, PngError>(
            PngError::SizeLimitExceeded,
        ),
        has_terminator(container@) && size_ok(payload@.len()) ==> (r matches Ok(v) && {
            &&& v@ == body_of(container@) + chunk_of(payload@) + iend_seq()
            &&& b64_of(payload@).len() + 5 <= MAX_CHUNK_DATA
        }),
        r matches Ok(v) ==> (v@.len() >= 12 && v@.subrange(v@.len() - 12, v@.len() as int)
            == iend_seq()),
{
    let mut out = match png_without_iend(container) {
        Ok(v) => v,
        Err(e) => {
            return Err(e);
        },
    };
    let chunk = match build_text_chunk(payload) {
        Ok(c) => c,
        Err(e) => {
            return Err(e);
        },
    };
    push_bytes(&mut out, chunk.as_slice());
    let iend = iend_bytes();
    push_bytes(&mut out, iend.as_slice());
    assert(out@ =~= body_of(container@) + chunk_of(payload@) + iend_seq());
    assert(out@.subrange(out@.len() - 12, out@.len() as int) =~= iend_seq());
    Ok(out)
}

/// Whether the chunk that starts at `pos` is an embedded-payload chunk.
fn match_at(body: &Vec<u8>, pos: usize, l: u32) -> (r: bool)
    requires
        pos + 8 <= body@.len(),
        l as int == len_at(body@, pos as int),
        pos + 12 + l as int <= body@.len(),
    ensures
        r == is_match_at(body@, pos as int),
{
    let n = body.len();
    assert(pos + 12 <= n);
    let ghost p = pos as int;
    let tag_ok = body[pos + 4] == 0x74 && body[pos + 5] == 0x45 && body[pos + 6] == 0x58 && body[pos
        + 7] == 0x74;
    proof {
        let s = body@.subrange(p + 4, p + 8);
        assert(s[0] == body@[p + 4] && s[1] == body@[p + 5] && s[2] == body@[p + 6] && s[3]
            == body@[p + 7]);
        if tag_ok {
            assert(s =~= text_tag());
        } else {
            assert(s != text_tag());
        }
    }
    if !tag_ok {
        return false;
    }
    if l < 5 {
        return false;
    }
    let kw_ok = body[pos + 8] == 0x64 && body[pos + 9] == 0x61 && body[pos + 10] == 0x74 && body[pos
        + 11] == 0x61 && body[pos + 12] == 0x00;
    proof {
        let s = body@.subrange(p + 8, p + 13);
        assert(s[0] == body@[p + 8] && s[1] == body@[p + 9] && s[2] == body@[p + 10] && s[3]
            == body@[p + 11] && s[4] == body@[p + 12]);
        if kw_ok {
            assert(s =~= keyword_seq());
        } else {
            assert(s != keyword_seq());
        }
    }
    kw_ok
}

/// Scan a container for the last embedded-payload chunk before the terminator,
/// verify its checksum, and recover the raw payload bytes.
pub fn decode_file(container: &Vec<u8>) -> (r: Result<Vec<u8>, PngError>)
    ensures
        (!has_terminator(container@) || container@.len() < 20) ==> r == Err::<Vec<u8>, PngError>(
            PngError::MalformedContainer,
        ),
        has_terminator(container@) && container@.len() >= 20 && !chunks_wf(body_of(container@), 8)
            ==> r == Err::<Vec<u8>, PngError>(PngError::MalformedContainer),
        has_terminator(container@) && container@.len() >= 20 && chunks_wf(body_of(container@), 8)
            && last_match(body_of(container@), 8) is None ==> r == Err::<Vec<u8>, PngError>(
            PngError::PayloadNotFound,
        ),
        has_terminator(container@) && container@.len() >= 20 && chunks_wf(body_of(container@), 8)
            ==> (last_match(body_of(container@), 8) matches Some(pos) ==> {
            let body = body_of(container@);
            let l = len_at(body, pos);
            let stored = be_u32(
                body[pos + 8 + l],
                body[pos + 9 + l],
                body[pos + 10 + l],
                body[pos + 11 + l],
            );
            &&& (crc32_of(body.subrange(pos + 4, pos + 8 + l)) != stored ==> r == Err::<
                Vec<u8>,
                PngError,
            >(PngError::ChecksumMismatch))
            &&& (crc32_of(body.subrange(pos + 4, pos + 8 + l)) == stored ==> {
                &&& (r matches Ok(v) ==> body.subrange(pos + 13, pos + 8 + l) == b64_of(v@))
                &&& (r is Err ==> r == Err::<Vec<u8>, PngError>(PngError::InvalidEncoding))
            })
        }),
        forall|p: Seq<u8>| #[trigger] recovers(container@, p) ==> (r matches Ok(v) && v@ == p),
{
    let body = match png_without_iend(container) {
        Ok(v) => v,
        Err(e) => {
            return Err(e);
        },
    };
    if body.len() < 8 {
        return Err(PngError::MalformedContainer);
    }
    let mut pos: usize = 8;
    let mut best: Option<usize> = None;
    loop
        invariant
            8 <= pos <= body@.len(),
            body@ == body_of(container@),
            has_terminator(container@),
            container@.len() >= 20,
            chunks_wf(body@, 8) == chunks_wf(body@, pos as int),
            last_match(body@, 8) == or_opt(view_opt(best), last_match(body@, pos as int)),
            best matches Some(b) ==> (8 <= b && chunk_fits(body@, b as int) && is_match_at(
                body@,
                b as int,
            )),
        ensures
            pos == body@.len(),
            chunks_wf(body@, 8),
            last_match(body@, 8) == view_opt(best),
            best matches Some(b) ==> (8 <= b && chunk_fits(body@, b as int) && is_match_at(
                body@,
                b as int,
            )),
        decreases body@.len() - pos,
    {
        if pos == body.len() {
            assert(chunks_wf(body@, pos as int));
            assert(last_match(body@, pos as int) == None::<int>);
            break;
        }
        if body.len() - pos < 8 {
            assert(!chunk_fits(body@, pos as int));
            assert(!chunks_wf(body@, pos as int));
            assert(last_match(body@, pos as int) == None::<int>);
            assert(!chunks_wf(body_of(container@), 8));
            proof {
                lemma_no_recovery(container@);
            }
            return Err(PngError::MalformedContainer);
        }
        let l = read_be_u32(body.as_slice(), pos);
        let rem = body.len() - pos;
        if rem < 12 || rem - 12 < l as usize {
            assert(!chunk_fits(body@, pos as int));
            assert(!chunks_wf(body@, pos as int));
            assert(last_match(body@, pos as int) == None::<int>);
            assert(!chunks_wf(body_of(container@), 8));
            proof {
                lemma_no_recovery(container@);
            }
            return Err(PngError::MalformedContainer);
        }
        assert(chunk_fits(body@, pos as int));
        if match_at(&body, pos, l) {
            best = Some(pos);
        }
        let ghost old_pos = pos as int;
        pos = pos + 12 + (l as usize);
        assert(chunks_wf(body@, old_pos) == chunks_wf(body@, pos as int));
        assert(last_match(body@, old_pos) == or_opt(
            if is_match_at(body@, old_pos) {
                Some(old_pos)
            } else {
                None
            },
            last_match(body@, pos as int),
        ));
    }
    let b = match best {
        Some(b) => b,
        None => {
            proof {
                lemma_no_match(container@);
            }
            return Err(PngError::PayloadNotFound);
        },
    };
    let l = read_be_u32(body.as_slice(), b);
    let end: usize = b + 12 + (l as usize);
    let cbytes = copy_range(body.as_slice(), b, end);
    proof {
        lemma_extracted_chunk(body@, b as int, cbytes@);
    }
    let r = parse_text_chunk(&cbytes);
    proof {
        let pos = b as int;
        let body_s = body_of(container@);
        let ln = len_at(body_s, pos);
        assert(crate::chunk::chunk_td(cbytes@) =~= body_s.subrange(pos + 4, pos + 8 + ln));
        assert(crate::chunk::chunk_encoded(cbytes@) =~= body_s.subrange(pos + 13, pos + 8 + ln));
        assert forall|p: Seq<u8>| #[trigger] recovers(container@, p) implies (r matches Ok(v) && v@
            == p) by {
            assert(crate::chunk::chunk_encoded(cbytes@) == b64_of(p));
        }
    }
    r
}

/// A container whose walk fails recovers nothing.
proof fn lemma_no_recovery(c: Seq<u8>)
    requires
        !chunks_wf(body_of(c), 8),
    ensures
        forall|p: Seq<u8>| !#[trigger] recovers(c, p),
{
}

/// A container without an embedded-payload chunk recovers nothing.
proof fn lemma_no_match(c: Seq<u8>)
    requires
        last_match(body_of(c), 8) is None,
    ensures
        forall|p: Seq<u8>| !#[trigger] recovers(c, p),
{
}

/// The bytes copied out for the chunk at `pos` frame the same tag, data and
/// checksum that the container holds there.
proof fn lemma_extracted_chunk(body: Seq<u8>, pos: int, cb: Seq<u8>)
    requires
        0 <= pos,
        chunk_fits(body, pos),
        is_match_at(body, pos),
        cb == body.subrange(pos, end_at(body, pos)),
    ensures
        crate::chunk::chunk_frame_ok(cb),
        crate::chunk::declared_len(cb) == len_at(body, pos),
        crate::chunk::chunk_td(cb) == body.subrange(pos + 4, pos + 8 + len_at(body, pos)),
        crate::chunk::stored_crc(cb) == be_u32(
            body[pos + 8 + len_at(body, pos)],
            body[pos + 9 + len_at(body, pos)],
            body[pos + 10 + len_at(body, pos)],
            body[pos + 11 + len_at(body, pos)],
        ),
        crate::chunk::chunk_encoded(cb) == body.subrange(pos + 13, pos + 8 + len_at(body, pos)),
        cb.subrange(4, 8) == text_tag(),
        crate::chunk::declared_len(cb) >= 5,
        cb.subrange(8, 13) == keyword_seq(),
{
    let l = len_at(body, pos);
    assert(cb.len() == 12 + l);
    assert(cb[0] == body[pos] && cb[1] == body[pos + 1] && cb[2] == body[pos + 2] && cb[3]
        == body[pos + 3]);
    assert(crate::chunk::declared_len(cb) == l);
    assert(crate::chunk::chunk_td(cb) =~= body.subrange(pos + 4, pos + 8 + l));
    assert(cb[cb.len() - 4] == body[pos + 8 + l] && cb[cb.len() - 3] == body[pos + 9 + l]
        && cb[cb.len() - 2] == body[pos + 10 + l] && cb[cb.len() - 1] == body[pos + 11 + l]);
    assert(crate::chunk::chunk_encoded(cb) =~= body.subrange(pos + 13, pos + 8 + l));
    assert(cb.subrange(4, 8) =~= body.subrange(pos + 4, pos + 8));
    assert(cb.subrange(8, 13) =~= body.subrange(pos + 8, pos + 13));
}

/// Appending one whole chunk to a body whose walk from `pos` is well formed
/// keeps the walk well formed, and the appended chunk, when it carries an
/// embedded payload, becomes the last match.
proof fn lemma_walk_extend(body: Seq<u8>, ck: Seq<u8>, pos: int)
    requires
        0 <= pos <= body.len(),
        chunks_wf(body, pos),
        ck.len() >= 12,
        len_at(body + ck, body.len() as int) == ck.len() - 12,
        is_match_at(body + ck, body.len() as int),
    ensures
        chunks_wf(body + ck, pos),
        last_match(body + ck, pos) == Some(body.len() as int),
    decreases body.len() - pos,
{
    let new = body + ck;
    if pos == body.len() {
        assert(end_at(new, pos) == new.len() as int);
        assert(chunk_fits(new, pos));
        assert(chunks_wf(new, new.len() as int));
        assert(last_match(new, new.len() as int) == None::<int>);
        assert(chunks_wf(new, pos));
        assert(last_match(new, pos) == Some(pos));
    } else {
        // the walk inside the old body reads the same bytes as before
        assert(chunk_fits(body, pos));
        assert(body[pos] == new[pos] && body[pos + 1] == new[pos + 1] && body[pos + 2] == new[pos
            + 2] && body[pos + 3] == new[pos + 3]);
        assert(len_at(new, pos) == len_at(body, pos));
        assert(chunk_fits(new, pos));
        lemma_walk_extend(body, ck, end_at(body, pos));
        assert(chunks_wf(new, pos));
        assert(last_match(new, pos) == Some(body.len() as int));
    }
}

/// Round trip: splicing a payload into any terminated container whose chunk
/// walk is well formed yields a container from which decoding recovers exactly
/// that payload.
#[verifier::rlimit(100)]
pub proof fn lemma_round_trip(c: Seq<u8>, p: Seq<u8>)
    requires
        has_terminator(c),
        c.len() >= 20,
        chunks_wf(body_of(c), 8),
        b64_of(p).len() + 5 <= MAX_CHUNK_DATA,
    ensures
        recovers(body_of(c) + chunk_of(p) + iend_seq(), p),
{
    let elen = b64_of(p).len() as int;
    let dl = 5 + elen;
    let kd = chunk_data_of(p);
    let ck = chunk_of(p);
    assert(kd.len() == dl);
    let lenv: u32 = dl as u32;
    assert(lenv as int == dl);
    let crc = crc32_of(text_tag() + kd);
    assert(ck.len() == 12 + dl);
    let ob = body_of(c);
    let bl = ob.len() as int;  // where the spliced chunk starts
    assert(bl >= 8);
    let out = ob + ck + iend_seq();
    assert(out.subrange(out.len() - 12, out.len() as int) =~= iend_seq());
    assert(has_terminator(out));
    let body = body_of(out);
    assert(body =~= ob + ck);
    assert(body.len() == bl + 12 + dl);
    // the length field at the start of the spliced chunk
    assert(ck[0] == u32_be(lenv)[0] && ck[1] == u32_be(lenv)[1] && ck[2] == u32_be(lenv)[2] && ck[3]
        == u32_be(lenv)[3]);
    assert(body[bl] == ck[0] && body[bl + 1] == ck[1] && body[bl + 2] == ck[2] && body[bl + 3]
        == ck[3]);
    crate::chunk::lemma_be_u32_of_u32_be(lenv);
    assert(len_at(body, bl) == dl);
    // tag and keyword of the spliced chunk
    assert(body.subrange(bl + 4, bl + 8) =~= text_tag());
    assert(body.subrange(bl + 8, bl + 13) =~= keyword_seq());
    assert(is_match_at(body, bl));
    // the walk over the original chunks is unchanged and ends at the new chunk
    lemma_walk_extend(ob, ck, 8);
    assert(chunks_wf(body, 8));
    assert(last_match(body, 8) == Some(bl));
    // the stored checksum is the checksum over tag and data
    assert(body.subrange(bl + 4, bl + 8 + dl) =~= text_tag() + kd);
    assert(body[bl + 8 + dl] == u32_be(crc)[0] && body[bl + 9 + dl] == u32_be(crc)[1] && body[bl
        + 10 + dl] == u32_be(crc)[2] && body[bl + 11 + dl] == u32_be(crc)[3]);
    crate::chunk::lemma_be_u32_of_u32_be(crc);
    assert(be_u32(body[bl + 8 + dl], body[bl + 9 + dl], body[bl + 10 + dl], body[bl + 11 + dl])
        == crc);
    // the encoded region is the base64 image of the payload
    assert(body.subrange(bl + 13, bl + 8 + dl) =~= b64_of(p));
    assert(recovers(out, p));
}

/// A minimal container ends in the terminator and holds no chunks before it,
/// so splicing any payload whose encoding fits and decoding it back recovers
/// exactly that payload.
pub proof fn lemma_round_trip_minimal(c: Seq<u8>, p: Seq<u8>)
    requires
        is_minimal_container(c),
        b64_of(p).len() + 5 <= MAX_CHUNK_DATA,
    ensures
        recovers(body_of(c) + chunk_of(p) + iend_seq(), p),
{
    assert(c.len() == 20);
    assert(c.subrange(c.len() - 12, c.len() as int) =~= iend_seq());
    assert(body_of(c).len() == 8);
    assert(chunks_wf(body_of(c), 8));
    lemma_round_trip(c, p);
}

} // verus!
