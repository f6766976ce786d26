//! Chunk codec: building and parsing single embedded-payload chunks.

use pnghide::chunk::{build_text_chunk, parse_text_chunk, u32_bytes_be, read_be_u32};
use pnghide::errors::PngError;

fn hi_chunk() -> Vec<u8> {
    // length 9, tag "tEXt", data "data\0SGk=", CRC-32 over tag ++ data
    let mut c = vec![0x00, 0x00, 0x00, 0x09];
    c.extend_from_slice(b"tEXt");
    c.extend_from_slice(b"data\0SGk=");
    c.extend_from_slice(&[0x54, 0x6b, 0x14, 0xcd]);
    c
}

#[test]
fn u32_round_trip_bytes() {
    let b = u32_bytes_be(0xdeadbeef);
    assert_eq!(b, vec![0xde, 0xad, 0xbe, 0xef]);
    assert_eq!(read_be_u32(&b, 0), 0xdeadbeef);
    assert_eq!(u32_bytes_be(9), vec![0, 0, 0, 9]);
}

#[test]
fn build_hi_chunk_exact_bytes() {
    let chunk = build_text_chunk(&vec![0x48, 0x69]).unwrap();
    assert_eq!(chunk, hi_chunk());
}

#[test]
fn build_is_deterministic() {
    let p = b"some payload".to_vec();
    let a = build_text_chunk(&p).unwrap();
    let b = build_text_chunk(&p).unwrap();
    assert_eq!(a, b);
}

#[test]
fn checksums_differ_across_payloads() {
    let a = build_text_chunk(&b"aa".to_vec()).unwrap();
    let b = build_text_chunk(&b"ab".to_vec()).unwrap();
    let crc_a = &a[a.len() - 4..];
    let crc_b = &b[b.len() - 4..];
    assert_ne!(crc_a, crc_b);
}

#[test]
fn parse_recovers_payload() {
    assert_eq!(parse_text_chunk(&hi_chunk()), Ok(vec![0x48, 0x69]));
}

#[test]
fn parse_empty_payload_chunk() {
    // length 5: the data field is the keyword alone, payload empty
    let mut c = vec![0x00, 0x00, 0x00, 0x05];
    c.extend_from_slice(b"tEXt");
    c.extend_from_slice(b"data\0");
    c.extend_from_slice(&[0x6a, 0x84, 0x79, 0x78]);
    assert_eq!(parse_text_chunk(&c), Ok(Vec::new()));
}

#[test]
fn parse_rejects_bad_frame() {
    assert_eq!(parse_text_chunk(&vec![0x00; 5]), Err(PngError::MalformedContainer));
    let mut c = hi_chunk();
    c.pop();
    // declared length now runs past the end
    assert_eq!(parse_text_chunk(&c), Err(PngError::MalformedContainer));
    let mut d = hi_chunk();
    d.push(0x00);
    // a trailing byte the declared length does not cover
    assert_eq!(parse_text_chunk(&d), Err(PngError::MalformedContainer));
}

#[test]
fn parse_rejects_corrupted_data_byte() {
    for i in 8..hi_chunk().len() - 4 {
        let mut c = hi_chunk();
        c[i] ^= 0x01;
        assert_eq!(parse_text_chunk(&c), Err(PngError::ChecksumMismatch), "byte {}", i);
    }
}

#[test]
fn parse_rejects_corrupted_stored_checksum() {
    let n = hi_chunk().len();
    for i in n - 4..n {
        let mut c = hi_chunk();
        c[i] ^= 0xff;
        assert_eq!(parse_text_chunk(&c), Err(PngError::ChecksumMismatch), "byte {}", i);
    }
}

#[test]
fn parse_checks_checksum_before_tag() {
    // wrong tag and wrong checksum: the checksum is verified first
    let mut c = hi_chunk();
    c[4] = b'z';
    assert_eq!(parse_text_chunk(&c), Err(PngError::ChecksumMismatch));
}

#[test]
fn parse_rejects_wrong_tag() {
    // tag "zEXt", checksum recomputed to match, so the tag check itself fires
    let mut c = vec![0x00, 0x00, 0x00, 0x09];
    c.extend_from_slice(b"zEXt");
    c.extend_from_slice(b"data\0SGk=");
    let crc = crc32_of(&c[4..]);
    c.extend_from_slice(&crc.to_be_bytes());
    assert_eq!(parse_text_chunk(&c), Err(PngError::MalformedContainer));
}

#[test]
fn parse_rejects_wrong_keyword() {
    let mut c = vec![0x00, 0x00, 0x00, 0x09];
    c.extend_from_slice(b"tEXt");
    c.extend_from_slice(b"note\0SGk=");
    let crc = crc32_of(&c[4..]);
    c.extend_from_slice(&crc.to_be_bytes());
    assert_eq!(parse_text_chunk(&c), Err(PngError::PayloadNotFound));
}

#[test]
fn parse_rejects_invalid_encoding_with_good_checksum() {
    // data "data\0*": the keyword matches and the checksum is intact, but '*'
    // is not base64
    let mut c = vec![0x00, 0x00, 0x00, 0x06];
    c.extend_from_slice(b"tEXt");
    c.extend_from_slice(b"data\0*");
    c.extend_from_slice(&[0x57, 0x0d, 0x5b, 0x2c]);
    assert_eq!(parse_text_chunk(&c), Err(PngError::InvalidEncoding));
}

fn crc32_of(bytes: &[u8]) -> u32 {
    crc::Crc::<u32>::new(&crc::CRC_32_ISO_HDLC).checksum(bytes)
}
