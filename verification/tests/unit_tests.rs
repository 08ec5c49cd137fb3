use npng::{
    decode_bytes_to_pixel_vec, encode_img_to_npng_bytes, encode_pixel_vec_with_metadata,
    CompressMap, Config, Encoding, EncoderVersion, Header, Img, Metadata, NPNGCompressingError,
    NPNGError, Pixel, Strategy, VersionMetadata,
};
use npng::coding::check_image_size_f;
use npng::record::encode_pixel;
use npng::wire::set_byte;

#[test]
fn test_encode_pixel_shapes() {
    // full shape, fixed width: 8 bytes, all fields little-endian
    let full = encode_pixel(Pixel::new(0x0102, 0x0304, 0x0A0B0C0D), true, false).unwrap();
    assert_eq!(full, vec![0x02, 0x01, 0x04, 0x03, 0x0D, 0x0C, 0x0B, 0x0A]);

    // RGB shape, fixed width: 7 bytes, alpha dropped from the wire
    let rgb = encode_pixel(Pixel::new(1, 2, 0xAABBCCDD), false, false).unwrap();
    assert_eq!(rgb, vec![1, 0, 2, 0, 0xAA, 0xBB, 0xCC]);

    // fully transparent with alpha saved: no bytes at all
    let dropped = encode_pixel(Pixel::new(1, 2, 0x11223300), true, false).unwrap();
    assert!(dropped.is_empty());

    // varint packing: values below 251 cost one byte, 255 takes a tag
    let small = encode_pixel(Pixel::new(3, 250, 0x000000FF), true, true).unwrap();
    assert_eq!(small, vec![3, 250, 251, 0xFF, 0]);

    // varint packing: larger values grow a tag
    let large = encode_pixel(Pixel::new(251, 0x0304, 0x00010001), true, true).unwrap();
    assert_eq!(large, vec![251, 251, 0, 251, 0x04, 0x03, 252, 1, 0, 1, 0]);
}

#[test]
fn test_set_byte() {
    assert_eq!(set_byte(0x11223344, 0, 0xAA), 0x112233AA);
    assert_eq!(set_byte(0x11223344, 1, 0xAA), 0x1122AA44);
    assert_eq!(set_byte(0x11223344, 2, 0xAA), 0x11AA3344);
    assert_eq!(set_byte(0x11223344, 3, 0xAA), 0xAA223344);
}

#[test]
fn test_check_image_size() {
    assert_eq!(check_image_size_f(vec![]), (1, 1));
    assert_eq!(
        check_image_size_f(vec![Pixel::new(3, 0, 0), Pixel::new(1, 9, 0)]),
        (4, 10)
    );
    // one past the largest coordinate wraps at the edge of the space
    assert_eq!(check_image_size_f(vec![Pixel::new(65535, 2, 0)]), (0, 3));
}

#[test]
fn test_xor_round_trip_and_key_zero() {
    let pixels = vec![Pixel::new(1, 2, 0x0A0B0CFF)];
    let bytes = encode_pixel_vec_with_metadata(
        pixels.clone(),
        Metadata::new("TEST", Vec::new()),
        Config::default(),
        CompressMap::xor(0xDEAD_BEEF),
    )
    .expect("xor encode failed");
    let img = decode_bytes_to_pixel_vec(&bytes, true, false, CompressMap::xor(0xDEAD_BEEF))
        .expect("xor decode failed");
    assert_eq!(img.pixels, pixels);

    // a zero key cannot travel in the level field: decoding reports an empty key
    let bytes0 = encode_pixel_vec_with_metadata(
        pixels.clone(),
        Metadata::new("TEST", Vec::new()),
        Config::default(),
        CompressMap::xor(0),
    )
    .expect("xor encode with key 0 failed");
    let r = decode_bytes_to_pixel_vec(&bytes0, true, false, CompressMap::xor(0));
    assert!(matches!(
        r,
        Err(NPNGError::Compression(NPNGCompressingError::DecompressingError(_)))
    ));
}

#[test]
fn test_xor_scrambles_the_body() {
    // the same pixels under plain and xor: the xor body is the plain body
    // XORed with the repeating key pattern
    let pixels = vec![Pixel::new(1, 2, 0x0A0B0CFF)];
    let meta = || Metadata::new("TEST", Vec::new());
    let plain = encode_pixel_vec_with_metadata(
        pixels.clone(),
        meta(),
        Config::default(),
        CompressMap::plain(),
    )
    .unwrap();
    let mut xormap = CompressMap::plain();
    xormap.set_xor_encoding(0x01020304);
    xormap.add_xor_decoding(0x01020304);
    let xored = encode_pixel_vec_with_metadata(pixels, meta(), Config::default(), xormap).unwrap();

    // both bodies are 8 bytes before the 20-byte footer
    let pbody = &plain[plain.len() - 28..plain.len() - 20];
    let xbody = &xored[xored.len() - 28..xored.len() - 20];
    let key = [0x04u8, 0x03, 0x02, 0x01];
    for i in 0..8 {
        assert_eq!(xbody[i], pbody[i] ^ key[i % 4]);
    }
}

#[test]
fn test_compression_actually_shrinks() {
    // a thousand identical records compress well under both real strategies
    let pixels: Vec<Pixel> = (0..1000).map(|i| Pixel::new(i as u16, 0, 0xAABBCCFF)).collect();
    let meta = || Metadata::new("TEST", Vec::new());
    let plain =
        encode_pixel_vec_with_metadata(pixels.clone(), meta(), Config::default(), Encoding::Plain)
            .unwrap();
    let zlib =
        encode_pixel_vec_with_metadata(pixels.clone(), meta(), Config::default(), Encoding::Zlib(6))
            .unwrap();
    let zstd =
        encode_pixel_vec_with_metadata(pixels, meta(), Config::default(), Encoding::Zstd(3))
            .unwrap();
    assert!(zlib.len() < plain.len());
    assert!(zstd.len() < plain.len());
}

#[test]
fn test_invalid_levels_are_configuration_errors() {
    let pixels = vec![Pixel::new(0, 0, 0xFF)];
    let meta = || Metadata::new("TEST", Vec::new());
    let r = encode_pixel_vec_with_metadata(
        pixels.clone(),
        meta(),
        Config::default(),
        CompressMap::zlib(10),
    );
    assert!(matches!(r, Err(NPNGError::Compression(_))));
    let r = encode_pixel_vec_with_metadata(pixels, meta(), Config::default(), CompressMap::zstd(23));
    assert!(matches!(r, Err(NPNGError::Compression(_))));
}

#[test]
fn test_header_rejects_bad_names() {
    let r = Header::new(String::new(), Metadata::new("TEST", Vec::new()), true, false);
    assert!(matches!(r, Err(NPNGError::Error(_))));
    let r = Header::new(String::from("zlïb"), Metadata::new("TEST", Vec::new()), true, false);
    assert!(matches!(r, Err(NPNGError::Error(_))));
    let r = Header::new(String::from("plain"), Metadata::new("crëated", Vec::new()), true, false);
    assert!(matches!(r, Err(NPNGError::Error(_))));
}

#[test]
fn test_header_truncates_long_format_and_round_trips() {
    // 300 bytes of ASCII: stored truncated to 255, and that value round-trips
    let long_name: String = std::iter::repeat('a').take(300).collect();
    let header = Header::new(long_name, Metadata::new("TEST", Vec::new()), true, false)
        .expect("header build failed");
    assert_eq!(header.encoding_format.len(), 255);

    let bytes = header.to_bytes();
    let parsed = Header::parse(&bytes).expect("header parse failed");
    assert_eq!(parsed.encoding_format.len(), 255);
    assert_eq!(parsed.encoding_format, header.encoding_format);
    assert_eq!(parsed.version_metadata, "experimental");
}

#[test]
fn test_header_truncates_extra_entries() {
    let extra: Vec<(String, String)> =
        (0..600).map(|i| (format!("k{}", i), format!("v{}", i))).collect();
    let header = Header::new(
        String::from("plain"),
        Metadata::new("TEST", extra),
        true,
        false,
    )
    .expect("header build failed");
    assert_eq!(header.metadata.extra.len(), 512);
    assert_eq!(header.metadata.extra[0].0, "k0");
    assert_eq!(header.metadata.extra[511].1, "v511");
}

#[test]
fn test_compress_map_registry_operations() {
    let mut m = CompressMap::new();
    assert_eq!(m.encoder(), "plain");
    assert_eq!(m.level(), 0);

    m.set_zstd_compress(5);
    assert_eq!(m.encoder(), "zstd");
    assert_eq!(m.level(), 5);

    m.set_zlib_compress(7);
    assert_eq!(m.encoder(), "zlib");
    assert_eq!(m.level(), 7);

    m.set_plain_compress();
    assert_eq!(m.encoder(), "plain");
    assert_eq!(m.level(), 0);

    // a bad name is rejected and the registry stands
    let r = m.set_compressor(String::new(), Strategy::Zstd);
    assert!(matches!(r, Err(NPNGError::Error(_))));
    assert_eq!(m.encoder(), "plain");
    let r = m.add_decompressor(String::from("nøn-ascii"), Strategy::Zstd);
    assert!(matches!(r, Err(NPNGError::Error(_))));
}

#[test]
fn test_img_accessors_and_encode_img() {
    let pixels = vec![Pixel::new(0, 0, 0x000000FF)];
    let img = Img {
        pixels: pixels.clone(),
        encoder_version: EncoderVersion {
            version_major: 0,
            version_minor: 0,
            version_metadata: VersionMetadata::Experimental,
        },
        metadata: Metadata::new("TEST", Vec::new()),
    };
    assert_eq!(img.pixels(), pixels);
    assert_eq!(img.pixels_ref(), &pixels);
    assert_eq!(img.metadata().created_in, "TEST");
    assert_eq!(img.metadata_ref().width, 0);
    assert_eq!(img.encoder_version().version(), (0, 0, VersionMetadata::Experimental));
    assert_eq!(img.encode_version_ref().version_major(), 0);
    assert_eq!(img.as_ref().pixels.len(), 1);

    let bytes = encode_img_to_npng_bytes(img, Config::default(), Encoding::Zstd(1))
        .expect("encode_img failed");
    let back = decode_bytes_to_pixel_vec(&bytes, true, false, Encoding::Zstd(1))
        .expect("decode failed");
    assert_eq!(back.pixels, pixels);
}

#[test]
fn test_metadata_constructors() {
    let m1 = Metadata::new("a", vec![(String::from("k"), String::from("v"))]);
    let m2 = Metadata::new_str("a", vec![(String::from("k"), String::from("v"))]);
    let m3 = Metadata::new_string(String::from("a"), vec![(String::from("k"), String::from("v"))]);
    assert_eq!(m1.created_in, m2.created_in);
    assert_eq!(m2.extra, m3.extra);
    assert_eq!(m1.width, 0);
    assert_eq!(m1.height, 0);
}

#[test]
fn test_error_messages() {
    let r = decode_bytes_to_pixel_vec(&[0u8; 5], true, false, Encoding::Plain);
    let msg = r.err().unwrap().message();
    assert!(!msg.is_empty());
    assert_eq!(NPNGError::DuplicatePixel(1, 2).clone(), NPNGError::DuplicatePixel(1, 2));
}
