//! Text-safe payload codec: reversible base64 transform plus the size policy.

use vstd::prelude::*;
use base64::Engine;
use crate::errors::PngError;

verus! {

/// Maximum number of bytes a chunk's data field may hold: 2^31 - 1.
pub const MAX_CHUNK_DATA: usize = 0x7fff_ffff;

/// The canonical padded base64 encoding of a byte sequence, over the standard
/// alphabet. The encoding itself is left unnamed byte-for-byte; the trusted
/// wrappers below tie this name to the `base64` crate's encoder and decoder.
pub uninterp spec fn b64_of(data: Seq<u8>) -> Seq<u8>;

/// Whether a byte belongs to the standard base64 alphabet or is the padding
/// byte `=`.
pub open spec fn is_b64_byte(b: u8) -> bool {
    ||| 0x41 <= b <= 0x5a  // 'A'..='Z'
    ||| 0x61 <= b <= 0x7a  // 'a'..='z'
    ||| 0x30 <= b <= 0x39  // '0'..='9'
    ||| b == 0x2b  // '+'
    ||| b == 0x2f  // '/'
    ||| b == 0x3d  // '='
}

/// Length of the padded base64 encoding of `n` input bytes: four output bytes
/// for every started group of three input bytes.
pub open spec fn b64_len(n: nat) -> nat {
    4 * ((n + 2) / 3)
}

/// The size policy: the raw payload must fit a chunk's data field, and so must
/// its encoding together with the five keyword bytes.
pub open spec fn size_ok(n: nat) -> bool {
    &&& n <= MAX_CHUNK_DATA
    &&& b64_len(n) + 5 <= MAX_CHUNK_DATA
}

/// Relies on `base64`'s `STANDARD` engine encoder: canonical padded encoding
/// over the standard alphabet, four output bytes per started group of three
/// input bytes, every output byte an alphabet or padding byte. The bound on
/// the input keeps the encoder's output-size arithmetic from overflowing.
#[verifier::external_body]
fn b64_encode(data: &[u8]) -> (r: Vec<u8>)
    requires
        data@.len() <= 0x7fff_ffff,
    ensures
        r@ == b64_of(data@),
        r@.len() == b64_len(data@.len()),
        forall|i: int| 0 <= i < r@.len() ==> is_b64_byte(#[trigger] r@[i]),
{
    base64::engine::general_purpose::STANDARD.encode(data).into_bytes()
}

/// Relies on `base64`'s `STANDARD` engine decoder: it requires canonical
/// padding and rejects set trailing bits, so it accepts exactly the encoder's
/// outputs and inverts the encoder on them.
#[verifier::external_body]
fn b64_decode(data: &[u8]) -> (r: Option<Vec<u8>>)
    ensures
        r is None ==> (forall|x: Seq<u8>| data@ != #[trigger] b64_of(x)),
        r matches Some(v) ==> {
            &&& data@ == b64_of(v@)
            &&& forall|x: Seq<u8>| data@ == #[trigger] b64_of(x) ==> v@ == x
        },
{
    match base64::engine::general_purpose::STANDARD.decode(data) {
        Ok(v) => Some(v),
        Err(_) => None,
    }
}

/// Whether a payload of `len` bytes passes the size policy.
pub fn payload_fits(len: usize) -> (r: bool)
    ensures
        r == size_ok(len as nat),
{
    if len > MAX_CHUNK_DATA {
        false
    } else {
        assert((len + 2) / 3 <= 0x2aaa_aaab) by (nonlinear_arith)
            requires
                len <= 0x7fff_ffff,
        ;
        let groups: usize = (len + 2) / 3;
        let encoded: usize = 4 * groups;
        encoded + 5 <= MAX_CHUNK_DATA
    }
}

/// Encode a payload into its text-safe form, enforcing the size policy before
/// any encoding takes place: a payload is rejected when its raw length, or the
/// length its encoding will have plus the five keyword bytes, exceeds the
/// maximum chunk data size.
pub fn encode_payload(data: &Vec<u8>) -> (r: Result<Vec<u8>, PngError>)
    ensures
        size_ok(data@.len()) ==> (r matches Ok(v) && v@ == b64_of(data@)),
        !size_ok(data@.len()) ==> r == Err::<Vec<u8>, PngError>(PngError::SizeLimitExceeded),
        r matches Ok(v) ==> {
            &&& v@ == b64_of(data@)
            &&& v@.len() == b64_len(data@.len())
            &&& v@.len() + 5 <= MAX_CHUNK_DATA
            &&& forall|i: int| 0 <= i < v@.len() ==> is_b64_byte(#[trigger] v@[i])
        },
{
    if !payload_fits(data.len()) {
        return Err(PngError::SizeLimitExceeded);
    }
    let encoded = b64_encode(data.as_slice());
    Ok(encoded)
}

/// Decode a text-safe payload back to its raw bytes. Succeeds on exactly the
/// encoder's outputs and inverts the encoder there; anything else is rejected
/// as `InvalidEncoding`.
pub fn decode_payload(data: &Vec<u8>) -> (r: Result<Vec<u8>, PngError>)
    ensures
        forall|x: Seq<u8>| data@ == #[trigger] b64_of(x) ==> (r matches Ok(v) && v@ == x),
        r matches Ok(v) ==> data@ == b64_of(v@),
        r is Err ==> r == Err::<Vec<u8>, PngError>(PngError::InvalidEncoding),
{
    match b64_decode(data.as_slice()) {
        Some(v) => Ok(v),
        None => Err(PngError::InvalidEncoding),
    }
}

/// Size boundary: the longest payload whose encoding plus the five keyword
/// bytes still fits the maximum chunk data size is accepted, and a payload one
/// byte longer is rejected.
pub proof fn lemma_size_boundary()
    ensures
        size_ok(1610612730),
        !size_ok(1610612731),
{
    assert(b64_len(1610612730) == 4 * 536870910);
    assert(b64_len(1610612731) == 4 * 536870911);
}

} // verus!
