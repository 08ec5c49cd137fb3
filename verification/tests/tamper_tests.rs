use npng::{
    decode_bytes_to_pixel_vec, decode_bytes_to_pixel_vec_with_policy, encode_pixel_vec_with_metadata,
    CompressMap, Config, Encoding, Header, Metadata, NPNGError, Pixel,
};

/// Reference CRC-32 (IEEE), bit by bit, reflected, for checking the stream.
fn crc32_ref(data: &[u8]) -> u32 {
    let mut crc: u32 = 0xFFFF_FFFF;
    for &b in data {
        crc ^= b as u32;
        for _ in 0..8 {
            crc = if crc & 1 != 0 { (crc >> 1) ^ 0xEDB8_8320 } else { crc >> 1 };
        }
    }
    !crc
}

fn valid_stream() -> Vec<u8> {
    encode_pixel_vec_with_metadata(
        vec![Pixel::new(0, 0, 0x010203FF), Pixel::new(1, 0, 0x040506FF)],
        Metadata::new("TEST", Vec::new()),
        Config::default(),
        Encoding::Plain,
    )
    .expect("encode failed")
}

#[test]
fn test_stream_checksum_matches_reference_crc32() {
    let bytes = valid_stream();
    let n = bytes.len();
    let stored = u32::from_le_bytes([bytes[n - 4], bytes[n - 3], bytes[n - 2], bytes[n - 1]]);
    assert_eq!(stored, crc32_ref(&bytes[..n - 20]));
}

#[test]
fn test_flipping_any_single_byte_fails_the_checksum() {
    let bytes = valid_stream();
    for i in 0..bytes.len() {
        let mut tampered = bytes.clone();
        tampered[i] ^= 0x40;
        let r = decode_bytes_to_pixel_vec(&tampered, true, false, Encoding::Plain);
        assert!(
            matches!(r, Err(NPNGError::InvalidChecksum(_))),
            "flip at {} gave {:?}",
            i,
            r.map(|_| ()),
        );
    }
}

#[test]
fn test_ignore_checksum_decodes_a_tampered_body() {
    let bytes = valid_stream();
    // flip one bit inside a color byte of the second fixed-width record:
    // the body is the 16 bytes before the 20-byte footer
    let body_start = bytes.len() - 20 - 16;
    let mut tampered = bytes.clone();
    tampered[body_start + 8 + 4] ^= 0x40; // a color byte of the second record

    let r = decode_bytes_to_pixel_vec(&tampered, true, false, Encoding::Plain);
    assert!(matches!(r, Err(NPNGError::InvalidChecksum(_))));

    let img = decode_bytes_to_pixel_vec(&tampered, true, true, Encoding::Plain)
        .expect("tampered decode with ignore_checksum failed");
    assert_eq!(img.pixels.len(), 2);
    assert_ne!(img.pixels[1], Pixel::new(1, 0, 0x040506FF));
}

#[test]
fn test_short_and_malformed_streams() {
    // too short even for the magic
    let r = decode_bytes_to_pixel_vec(&[0u8; 5], true, false, Encoding::Plain);
    assert!(matches!(r, Err(NPNGError::InvalidHeader(_))));

    // room for the magic but not for the footer
    let r = decode_bytes_to_pixel_vec(&[0u8; 20], true, false, Encoding::Plain);
    assert!(matches!(r, Err(NPNGError::InvalidChecksum(_))));

    // garbage of a workable length: the footer marker is not there
    let r = decode_bytes_to_pixel_vec(&[7u8; 64], true, false, Encoding::Plain);
    assert!(matches!(r, Err(NPNGError::InvalidChecksum(_))));
}

#[test]
fn test_bad_magic_is_reported_once_the_checksum_is_ignored() {
    let bytes = valid_stream();
    let mut tampered = bytes.clone();
    tampered[1] = 0x4D; // not the magic's second byte
    let r = decode_bytes_to_pixel_vec(&tampered, true, true, Encoding::Plain);
    assert!(matches!(r, Err(NPNGError::InvalidHeader(_))));
}

/// A stream assembled by hand around the given header bytes and raw body,
/// sealed with the reference CRC.
fn assemble(header: &[u8], body: &[u8]) -> Vec<u8> {
    let mut out = Vec::new();
    out.extend_from_slice(header);
    out.extend_from_slice(body);
    let crc = crc32_ref(&out);
    out.extend_from_slice(&[0, 0, 0, 0, 0x43, 0x68, 0x65, 0x63, 0x6B, 0x53, 0x75, 0x6D, 0, 0, 0, 0]);
    out.extend_from_slice(&crc.to_le_bytes());
    out
}

fn plain_header() -> Header {
    Header::new(
        String::from("plain"),
        Metadata::new("TEST", Vec::new()),
        true,
        false,
    )
    .expect("header build failed")
}

#[test]
fn test_hand_assembled_stream_decodes() {
    // one fixed-width full record: x=5, y=6, color 0x0A0B0C0D (little-endian fields)
    let body = [5u8, 0, 6, 0, 0x0D, 0x0C, 0x0B, 0x0A];
    let stream = assemble(&plain_header().to_bytes(), &body);
    let img = decode_bytes_to_pixel_vec(&stream, true, false, Encoding::Plain)
        .expect("hand-assembled stream failed to decode");
    assert_eq!(img.pixels, vec![Pixel::new(5, 6, 0x0A0B0C0D)]);
}

#[test]
fn test_malformed_record_is_a_decoding_error() {
    // a stray byte cannot open a record in either packing
    let stream = assemble(&plain_header().to_bytes(), &[5u8, 0, 6]);
    let r = decode_bytes_to_pixel_vec(&stream, true, false, Encoding::Plain);
    assert!(matches!(r, Err(NPNGError::DecodingError(_))));
}

#[test]
fn test_duplicate_coordinates_detected_on_decode() {
    // two records at the same coordinates, assembled by hand
    let body = [1u8, 0, 1, 0, 0xFF, 0, 0, 0, 1, 0, 1, 0, 0, 0, 0, 0xFF];
    let stream = assemble(&plain_header().to_bytes(), &body);
    let r = decode_bytes_to_pixel_vec(&stream, true, false, Encoding::Plain);
    match r {
        Err(NPNGError::DuplicatePixel(x, y)) => assert_eq!((x, y), (1, 1)),
        other => panic!("expected DuplicatePixel, got {:?}", other.map(|_| ())),
    }
}

#[test]
fn test_unknown_version_string_is_rejected() {
    let mut header = plain_header();
    header.version_metadata = String::from("weird");
    let stream = assemble(&header.to_bytes(), &[]);
    let r = decode_bytes_to_pixel_vec(&stream, true, false, Encoding::Plain);
    assert!(matches!(r, Err(NPNGError::Error(_))));
}

#[test]
fn test_version_names_are_case_insensitive() {
    let mut header = plain_header();
    header.version_metadata = String::from("Experimental");
    let stream = assemble(&header.to_bytes(), &[]);
    let img = decode_bytes_to_pixel_vec(&stream, true, false, Encoding::Plain)
        .expect("capitalized version name should parse");
    assert_eq!(
        img.encoder_version.version_metadata(),
        npng::VersionMetadata::Experimental
    );
}

#[test]
fn test_version_mismatch_policy() {
    let mut header = plain_header();
    header.version_major = 7;
    let stream = assemble(&header.to_bytes(), &[]);

    // the default policy is fatal
    let r = decode_bytes_to_pixel_vec(&stream, true, false, Encoding::Plain);
    assert!(matches!(r, Err(NPNGError::Error(_))));

    // the lenient policy decodes anyway and reports the stream's version
    let img = decode_bytes_to_pixel_vec_with_policy(&stream, true, false, false, Encoding::Plain)
        .expect("lenient decode failed");
    assert_eq!(img.encoder_version.version_major(), 7);
}

#[test]
fn test_missing_delimiter_is_an_error() {
    // the magic, then bytes that never form the delimiter, then a sealed footer
    let mut prefix = vec![0x00u8, 0x4E, 0x00, 0x50, 0x00, 0x4E, 0x00, 0x47, 0x00];
    prefix.extend_from_slice(&[1u8; 30]);
    let stream = assemble(&prefix, &[]);
    let r = decode_bytes_to_pixel_vec(&stream, true, false, Encoding::Plain);
    assert!(matches!(r, Err(NPNGError::Error(_))));
}

#[test]
fn test_decoder_accepts_what_a_sibling_map_decodes() {
    // encode with zlib, decode with a registry that learned zlib separately
    let bytes = encode_pixel_vec_with_metadata(
        vec![Pixel::new(9, 9, 0x0BADF00D)],
        Metadata::new("TEST", Vec::new()),
        Config { save_alpha: true, varint: true },
        CompressMap::zlib(6),
    )
    .expect("encode failed");
    let mut receiver = CompressMap::plain();
    receiver.add_default_decompressors();
    let img = decode_bytes_to_pixel_vec(&bytes, true, false, receiver).expect("decode failed");
    assert_eq!(img.pixels, vec![Pixel::new(9, 9, 0x0BADF00D)]);
}
