//! Container splicer: stripping the terminator, splicing a payload chunk in,
//! and scanning a container back out.

use pnghide::container::{decode_file, encode_into, iend_bytes, png_without_iend};
use pnghide::errors::PngError;

const SIG: [u8; 8] = [0x89, 0x50, 0x4e, 0x47, 0x0d, 0x0a, 0x1a, 0x0a];
const IEND: [u8; 12] = [
    0x00, 0x00, 0x00, 0x00, 0x49, 0x45, 0x4e, 0x44, 0xae, 0x42, 0x60, 0x82,
];

fn minimal() -> Vec<u8> {
    let mut c = SIG.to_vec();
    c.extend_from_slice(&IEND);
    c
}

/// A chunk with the given tag, data and correct checksum.
fn raw_chunk(tag: &[u8], data: &[u8]) -> Vec<u8> {
    let mut c = (data.len() as u32).to_be_bytes().to_vec();
    c.extend_from_slice(tag);
    c.extend_from_slice(data);
    let crc = crc::Crc::<u32>::new(&crc::CRC_32_ISO_HDLC).checksum(&c[4..]);
    c.extend_from_slice(&crc.to_be_bytes());
    c
}

fn expected_hi_container() -> Vec<u8> {
    let mut e = SIG.to_vec();
    e.extend_from_slice(&[0x00, 0x00, 0x00, 0x09]);
    e.extend_from_slice(b"tEXt");
    e.extend_from_slice(b"data\0SGk=");
    e.extend_from_slice(&[0x54, 0x6b, 0x14, 0xcd]);
    e.extend_from_slice(&IEND);
    e
}

#[test]
fn iend_bytes_is_the_terminator() {
    assert_eq!(iend_bytes(), IEND.to_vec());
}

#[test]
fn strip_terminator_of_minimal_container() {
    assert_eq!(png_without_iend(&minimal()), Ok(SIG.to_vec()));
}

#[test]
fn strip_terminator_rejects_short_input() {
    assert_eq!(png_without_iend(&vec![0x00; 11]), Err(PngError::MalformedContainer));
}

#[test]
fn strip_terminator_rejects_wrong_suffix() {
    let mut c = minimal();
    let n = c.len();
    for i in n - 12..n {
        let mut d = c.clone();
        d[i] ^= 0x20;
        assert_eq!(png_without_iend(&d), Err(PngError::MalformedContainer), "byte {}", i);
    }
    c.push(0x00);
    assert_eq!(png_without_iend(&c), Err(PngError::MalformedContainer));
}

#[test]
fn encode_hi_exact_bytes() {
    let out = encode_into(&minimal(), &vec![0x48, 0x69]).unwrap();
    assert_eq!(out, expected_hi_container());
}

#[test]
fn decode_hi_container() {
    assert_eq!(decode_file(&expected_hi_container()), Ok(vec![0x48, 0x69]));
}

#[test]
fn decode_minimal_finds_no_payload() {
    assert_eq!(decode_file(&minimal()), Err(PngError::PayloadNotFound));
}

#[test]
fn round_trip_various_payloads() {
    let samples: Vec<Vec<u8>> = vec![
        Vec::new(),
        vec![0x00],
        vec![0x48, 0x69],
        b"a somewhat longer payload with\0embedded\xffbytes".to_vec(),
        (0u16..=255).map(|b| b as u8).collect(),
    ];
    for p in samples {
        let out = encode_into(&minimal(), &p).unwrap();
        assert_eq!(decode_file(&out), Ok(p));
    }
}

#[test]
fn terminator_is_never_altered() {
    let samples: Vec<Vec<u8>> = vec![Vec::new(), vec![0x48, 0x69], b"xyz".to_vec()];
    for p in samples {
        let out = encode_into(&minimal(), &p).unwrap();
        assert_eq!(&out[out.len() - 12..], &IEND);
    }
}

#[test]
fn second_encode_wins() {
    let once = encode_into(&minimal(), &b"first".to_vec()).unwrap();
    let twice = encode_into(&once, &b"second".to_vec()).unwrap();
    assert_eq!(decode_file(&twice), Ok(b"second".to_vec()));
}

#[test]
fn unrelated_text_chunk_is_skipped() {
    // a tEXt chunk with keyword "note" is not this tool's payload
    let mut c = SIG.to_vec();
    c.extend_from_slice(&raw_chunk(b"tEXt", b"note\0ab"));
    c.extend_from_slice(&IEND);
    assert_eq!(decode_file(&c), Err(PngError::PayloadNotFound));

    let out = encode_into(&c, &b"mine".to_vec()).unwrap();
    assert_eq!(decode_file(&out), Ok(b"mine".to_vec()));
}

#[test]
fn payload_after_other_chunks_is_found() {
    let mut c = SIG.to_vec();
    c.extend_from_slice(&raw_chunk(b"IHDR", &[0x01; 13]));
    c.extend_from_slice(&raw_chunk(b"IDAT", b"pixels"));
    c.extend_from_slice(&IEND);
    let out = encode_into(&c, &b"hidden".to_vec()).unwrap();
    assert_eq!(decode_file(&out), Ok(b"hidden".to_vec()));
}

#[test]
fn corrupted_encoded_byte_fails_checksum() {
    let out = expected_hi_container();
    // the encoded payload region "SGk=" sits after signature, length, tag and keyword
    let start = 8 + 4 + 4 + 5;
    for i in start..start + 4 {
        let mut d = out.clone();
        d[i] ^= 0x01;
        assert_eq!(decode_file(&d), Err(PngError::ChecksumMismatch), "byte {}", i);
    }
}

#[test]
fn corrupted_stored_checksum_fails() {
    let out = expected_hi_container();
    let start = 8 + 4 + 4 + 9;
    for i in start..start + 4 {
        let mut d = out.clone();
        d[i] ^= 0xff;
        assert_eq!(decode_file(&d), Err(PngError::ChecksumMismatch), "byte {}", i);
    }
}

#[test]
fn corrupted_keyword_byte_hides_the_payload() {
    // the scan skips chunks whose keyword no longer matches
    let out = expected_hi_container();
    for i in 16..21 {
        let mut d = out.clone();
        d[i] ^= 0x01;
        assert_eq!(decode_file(&d), Err(PngError::PayloadNotFound), "byte {}", i);
    }
}

#[test]
fn corrupted_length_field_malforms_the_walk() {
    let out = expected_hi_container();
    let mut d = out.clone();
    d[11] += 1;
    assert_eq!(decode_file(&d), Err(PngError::MalformedContainer));
    let mut e = out;
    e[11] -= 1;
    assert_eq!(decode_file(&e), Err(PngError::MalformedContainer));
}

#[test]
fn decode_rejects_truncated_walk() {
    // a declared length that runs past the end of the stream
    let mut c = SIG.to_vec();
    c.extend_from_slice(&[0x00, 0x00, 0x10, 0x00]);
    c.extend_from_slice(b"IDAT");
    c.extend_from_slice(&IEND);
    assert_eq!(decode_file(&c), Err(PngError::MalformedContainer));
}

#[test]
fn decode_rejects_missing_terminator() {
    assert_eq!(decode_file(&SIG.to_vec()), Err(PngError::MalformedContainer));
    let mut c = minimal();
    let n = c.len();
    c[n - 1] ^= 0xff;
    assert_eq!(decode_file(&c), Err(PngError::MalformedContainer));
}

#[test]
fn decode_rejects_container_shorter_than_signature() {
    // ends in the terminator but has no room for the 8 header bytes
    assert_eq!(decode_file(&IEND.to_vec()), Err(PngError::MalformedContainer));
}

#[test]
fn embedded_invalid_encoding_is_reported() {
    // keyword and checksum intact, but the embedded byte '*' is not base64
    let mut c = SIG.to_vec();
    c.extend_from_slice(&raw_chunk(b"tEXt", b"data\0*"));
    c.extend_from_slice(&IEND);
    assert_eq!(decode_file(&c), Err(PngError::InvalidEncoding));
}
