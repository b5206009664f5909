use reflate::chunk::ChunkInfo;
use reflate::codec::{bytes_to_int, int_to_bytes};
use reflate::engine::{copy_plain, copy_reflate, PngReader};
use reflate::errors::RewriteError;
use reflate::transform::{transform_noop, transform_reflate, TransformKind, TransformOutcome};
use std::io::{Read, Write};

const SIG: [u8; 8] = [0x89, 0x50, 0x4e, 0x47, 0x0d, 0x0a, 0x1a, 0x0a];

fn crc(tag: &[u8], payload: &[u8]) -> u32 {
    let mut h = crc32fast::Hasher::new();
    h.update(tag);
    h.update(payload);
    h.finalize()
}

fn chunk(tag: &[u8; 4], payload: &[u8]) -> Vec<u8> {
    let mut v = Vec::new();
    v.extend_from_slice(&(payload.len() as u32).to_be_bytes());
    v.extend_from_slice(tag);
    v.extend_from_slice(payload);
    v.extend_from_slice(&crc(tag, payload).to_be_bytes());
    v
}

fn stream(chunks: &[Vec<u8>]) -> Vec<u8> {
    let mut v = SIG.to_vec();
    for c in chunks {
        v.extend_from_slice(c);
    }
    v
}

fn zlib_compress(raw: &[u8]) -> Vec<u8> {
    let mut e = flate2::write::ZlibEncoder::new(Vec::new(), flate2::Compression::best());
    e.write_all(raw).unwrap();
    e.finish().unwrap()
}

fn zlib_decompress(data: &[u8]) -> Vec<u8> {
    let mut d = flate2::read::ZlibDecoder::new(data);
    let mut raw = Vec::new();
    d.read_to_end(&mut raw).unwrap();
    raw
}

#[test]
fn roundtrip_noop_two_chunks() {
    let input = stream(&[chunk(b"IHDR", &[1, 2, 3, 4, 5]), chunk(b"IEND", &[])]);
    let mut out = Vec::new();
    copy_plain(input.clone(), &mut out).unwrap();
    assert_eq!(out, input);
}

#[test]
fn empty_file_after_signature() {
    let input = SIG.to_vec();
    let mut out = Vec::new();
    copy_plain(input, &mut out).unwrap();
    assert_eq!(out, SIG.to_vec());
}

#[test]
fn merge_three_same_tag_chunks() {
    let input = stream(&[
        chunk(b"ABCD", &[1, 2]),
        chunk(b"ABCD", &[3]),
        chunk(b"ABCD", &[4, 5, 6]),
    ]);
    let expected = stream(&[chunk(b"ABCD", &[1, 2, 3, 4, 5, 6])]);
    let mut out = Vec::new();
    copy_plain(input, &mut out).unwrap();
    assert_eq!(out, expected);
}

#[test]
fn reflate_drops_lowercase_chunk() {
    let input = stream(&[
        chunk(b"IHDR", &[9, 9]),
        chunk(b"tEXt", b"note"),
        chunk(b"IEND", &[]),
    ]);
    let expected = stream(&[chunk(b"IHDR", &[9, 9]), chunk(b"IEND", &[])]);
    let mut out = Vec::new();
    copy_reflate(input, &mut out).unwrap();
    assert_eq!(out, expected);
}

#[test]
fn reflate_keeps_uppercase_non_idat() {
    let input = stream(&[chunk(b"IHDR", &[7, 8, 9]), chunk(b"IEND", &[])]);
    let mut out = Vec::new();
    copy_reflate(input.clone(), &mut out).unwrap();
    assert_eq!(out, input);
}

#[test]
fn reflate_reencodes_idat() {
    let raw: Vec<u8> = (0u16..600).map(|i| (i % 251) as u8).collect();
    let compressed = zlib_compress(&raw);
    let input = stream(&[chunk(b"IHDR", &[1]), chunk(b"IDAT", &compressed), chunk(b"IEND", &[])]);
    let mut out = Vec::new();
    copy_reflate(input, &mut out).unwrap();

    // Parse the rewritten stream by hand.
    assert_eq!(&out[..8], &SIG);
    // First chunk: IHDR, untouched.
    let ihdr_len = u32::from_be_bytes([out[8], out[9], out[10], out[11]]) as usize;
    assert_eq!(&out[12..16], b"IHDR");
    assert_eq!(ihdr_len, 1);
    let mut p = 16 + ihdr_len + 4;
    // Second chunk: IDAT, re-stored without compression.
    let idat_len =
        u32::from_be_bytes([out[p], out[p + 1], out[p + 2], out[p + 3]]) as usize;
    assert_eq!(&out[p + 4..p + 8], b"IDAT");
    let payload = &out[p + 8..p + 8 + idat_len];
    assert_ne!(payload, &compressed[..], "payload must be re-encoded, not copied");
    assert_eq!(zlib_decompress(payload), raw);
    // The checksum is recomputed over tag and new payload.
    let wire = &out[p + 8 + idat_len..p + 12 + idat_len];
    assert_eq!(wire, &crc(b"IDAT", payload).to_be_bytes());
    p = p + 12 + idat_len;
    // Third chunk: IEND.
    assert_eq!(&out[p + 4..p + 8], b"IEND");
    assert_eq!(out.len(), p + 12);
}

#[test]
fn truncated_payload_detected() {
    let mut input = SIG.to_vec();
    input.extend_from_slice(&100u32.to_be_bytes());
    input.extend_from_slice(b"IDAT");
    input.extend_from_slice(&[1, 2, 3, 4, 5]);
    let mut out = Vec::new();
    let err = copy_plain(input, &mut out).unwrap_err();
    assert!(matches!(err, RewriteError::TruncatedPayload));
    assert_eq!(out, SIG.to_vec(), "nothing of the chunk may be written");
}

#[test]
fn checksum_bit_flip_detected() {
    for bit in 0..32 {
        let mut c = chunk(b"IHDR", &[1, 2, 3]);
        let n = c.len();
        c[n - 4 + bit / 8] ^= 1 << (bit % 8);
        let input = stream(&[c]);
        let mut out = Vec::new();
        let err = copy_plain(input, &mut out).unwrap_err();
        match err {
            RewriteError::ChecksumMismatch(tag) => assert_eq!(tag, b"IHDR".to_vec()),
            other => panic!("expected a checksum mismatch, got {:?}", variant_name(&other)),
        }
        assert_eq!(out, SIG.to_vec());
    }
}

fn variant_name(e: &RewriteError) -> &'static str {
    match e {
        RewriteError::BadSignature => "BadSignature",
        RewriteError::TruncatedPayload => "TruncatedPayload",
        RewriteError::ChecksumMismatch(_) => "ChecksumMismatch",
        RewriteError::TransformFailed => "TransformFailed",
        RewriteError::PayloadTooLarge => "PayloadTooLarge",
    }
}

#[test]
fn bad_signature_rejected() {
    let input = vec![1, 2, 3, 4, 5, 6, 7, 8, 9];
    let mut out = Vec::new();
    let err = copy_plain(input, &mut out).unwrap_err();
    assert!(matches!(err, RewriteError::BadSignature));
    assert!(out.is_empty());

    let short = vec![0x89, 0x50];
    let mut out2 = Vec::new();
    let err2 = copy_plain(short, &mut out2).unwrap_err();
    assert!(matches!(err2, RewriteError::BadSignature));
    assert!(out2.is_empty());
}

#[test]
fn zero_length_chunk_is_valid() {
    let input = stream(&[chunk(b"AAAA", &[])]);
    let mut out = Vec::new();
    copy_plain(input.clone(), &mut out).unwrap();
    assert_eq!(out, input);
}

#[test]
fn short_trailer_is_clean_end() {
    let mut input = SIG.to_vec();
    input.extend_from_slice(&[1, 2, 3]);
    let mut out = Vec::new();
    copy_plain(input, &mut out).unwrap();
    assert_eq!(out, SIG.to_vec());
}

#[test]
fn invalid_idat_zlib_fails() {
    let input = stream(&[chunk(b"IDAT", &[0xff, 0xfe, 0xfd, 0xfc])]);
    let mut out = Vec::new();
    let err = copy_reflate(input, &mut out).unwrap_err();
    assert!(matches!(err, RewriteError::TransformFailed));
}

#[test]
fn transform_noop_keeps_payload() {
    let info = ChunkInfo::from_bytes(vec![0, 0, 0, 3, b'I', b'H', b'D', b'R']);
    match transform_noop(&info, vec![1, 2, 3]).unwrap() {
        TransformOutcome::Keep(p) => assert_eq!(p, vec![1, 2, 3]),
        TransformOutcome::Drop => panic!("pass-through must keep"),
    }
}

#[test]
fn transform_reflate_drops_ancillary() {
    let info = ChunkInfo::from_bytes(vec![0, 0, 0, 2, b't', b'I', b'M', b'E']);
    assert!(matches!(
        transform_reflate(&info, vec![1, 2]).unwrap(),
        TransformOutcome::Drop
    ));
}

#[test]
fn transform_reflate_keeps_critical_non_idat() {
    let info = ChunkInfo::from_bytes(vec![0, 0, 0, 2, b'I', b'H', b'D', b'R']);
    match transform_reflate(&info, vec![4, 5]).unwrap() {
        TransformOutcome::Keep(p) => assert_eq!(p, vec![4, 5]),
        TransformOutcome::Drop => panic!("critical chunks must be kept"),
    }
}

#[test]
fn chunk_info_accessors() {
    let empty = ChunkInfo::new();
    assert_eq!(empty.size(), 0);
    assert_eq!(empty.raw_type(), vec![0, 0, 0, 0]);
    let mut info = ChunkInfo::from_bytes(vec![0x01, 0x02, 0x03, 0x04, b'I', b'D', b'A', b'T']);
    assert_eq!(info.size(), 0x01020304);
    assert_eq!(info.raw_type(), b"IDAT".to_vec());
    assert_eq!(info.type_string(), "IDAT".to_string());
    info.set_size(7);
    assert_eq!(info.size(), 7);
    assert_eq!(info.raw_type(), b"IDAT".to_vec());
}

#[test]
fn codec_round_trip() {
    assert_eq!(int_to_bytes(0x01020304), vec![1, 2, 3, 4]);
    assert_eq!(int_to_bytes(0), vec![0, 0, 0, 0]);
    assert_eq!(int_to_bytes(0xffff_ffff), vec![0xff, 0xff, 0xff, 0xff]);
    assert_eq!(bytes_to_int(&[1, 2, 3, 4]), 0x01020304);
    assert_eq!(bytes_to_int(&[0xde, 0xad, 0xbe, 0xef]), 0xdeadbeef);
}

#[test]
fn reader_state_machine() {
    let input = stream(&[chunk(b"IEND", &[])]);
    let mut png = PngReader::new(input.clone(), TransformKind::Noop);
    assert!(png.has_data());
    let mut out = Vec::new();
    png.check_header(&mut out).unwrap();
    assert_eq!(out, SIG.to_vec());
    // The signature step alone leaves no header peeked.
    assert!(!png.has_data());

    let mut png2 = PngReader::new(input.clone(), TransformKind::Noop);
    let mut out2 = Vec::new();
    png2.write_all(&mut out2).unwrap();
    assert!(!png2.has_data());
    assert_eq!(out2, input);
}

#[test]
fn check_header_rejects_garbage() {
    let mut png = PngReader::new(vec![0u8; 32], TransformKind::Noop);
    let mut out = Vec::new();
    let err = png.check_header(&mut out).unwrap_err();
    assert!(matches!(err, RewriteError::BadSignature));
    assert!(out.is_empty());
    assert!(!png.has_data());
}
