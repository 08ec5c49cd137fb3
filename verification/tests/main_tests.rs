use npng::{
    encode_pixel_vec_with_metadata, decode_bytes_to_pixel_vec, CompressMap, Config, Encoding,
    Metadata, NPNGError, Pixel,
};

fn get_test_configs() -> Vec<Config> {
    vec![
        Config { save_alpha: true, varint: true },
        Config { save_alpha: true, varint: false },
        Config { save_alpha: false, varint: true },
        Config { save_alpha: false, varint: false },
    ]
}

fn sample_pixels() -> Vec<Pixel> {
    // opaque colors so every shape and packing round-trips exactly
    vec![
        Pixel::new(0, 0, 0x11223_3FF),
        Pixel::new(1, 0, 0xAABBCCFF),
        Pixel::new(0, 1, 0x010203FF),
        Pixel::new(300, 7, 0xFEDCBAFF),
        Pixel::new(65535, 65535, 0xFFFFFFFF),
    ]
}

#[test]
fn test_coordinates_duplicates() {
    let pixels = vec![Pixel::new(1, 1, 0), Pixel::new(1, 1, 0)];

    let r = encode_pixel_vec_with_metadata(
        pixels,
        Metadata::new("TEST", Vec::new()),
        Config::default(),
        Encoding::Plain,
    );
    assert!(matches!(r, Err(NPNGError::DuplicatePixel(_, _))));
    println!(
        "test_coordinates_duplicates: {:?}",
        r.err().unwrap().message()
    );
}

#[test]
fn test_round_trip_all_configs_and_maps() {
    for config in get_test_configs() {
        let maps = vec![CompressMap::plain(), CompressMap::zlib(3), CompressMap::zstd(1)];
        for cmap in maps {
            let pixels = sample_pixels();
            let bytes = encode_pixel_vec_with_metadata(
                pixels.clone(),
                Metadata::new("TEST", Vec::new()),
                config,
                cmap.clone(),
            )
            .expect("encode failed");
            assert!(!bytes.is_empty());

            let img = decode_bytes_to_pixel_vec(&bytes, true, false, cmap)
                .expect("decode failed");
            assert_eq!(img.pixels, pixels);
            assert_eq!(img.metadata.width, 0); // 65535 wraps past the edge
            assert_eq!(img.metadata.height, 0);
            assert_eq!(img.metadata.created_in, "TEST");
        }
    }
}

#[test]
fn test_round_trip_dimensions() {
    let pixels = vec![Pixel::new(3, 0, 0x000000FF), Pixel::new(1, 9, 0x000000FF)];
    for config in get_test_configs() {
        let bytes = encode_pixel_vec_with_metadata(
            pixels.clone(),
            Metadata::new("TEST", Vec::new()),
            config,
            Encoding::Plain,
        )
        .expect("encode failed");
        let img = decode_bytes_to_pixel_vec(&bytes, true, false, Encoding::Plain)
            .expect("decode failed");
        assert_eq!(img.pixels, pixels);
        assert_eq!(img.metadata.width, 4); // max x + 1
        assert_eq!(img.metadata.height, 10); // max y + 1
    }
}

#[test]
fn test_round_trip_duplicate_detection_all_settings() {
    for config in get_test_configs() {
        for cmap in vec![CompressMap::plain(), CompressMap::zlib(3), CompressMap::zstd(1)] {
            let pixels = vec![Pixel::new(1, 1, 0xFF), Pixel::new(1, 1, 0x00)];
            let r = encode_pixel_vec_with_metadata(
                pixels,
                Metadata::new("TEST", Vec::new()),
                config,
                cmap,
            );
            match r {
                Err(NPNGError::DuplicatePixel(x, y)) => {
                    assert_eq!((x, y), (1, 1));
                },
                other => panic!("expected DuplicatePixel, got {:?}", other),
            }
        }
    }
}

#[test]
fn test_alpha_zero_pixel_is_dropped() {
    // alpha byte zero and save_alpha=true: absent from the decoded list entirely
    let pixels = vec![
        Pixel::new(0, 0, 0x11223300),
        Pixel::new(1, 0, 0xAABBCCFF),
    ];
    for varint in [false, true] {
        let config = Config { save_alpha: true, varint };
        let bytes = encode_pixel_vec_with_metadata(
            pixels.clone(),
            Metadata::new("TEST", Vec::new()),
            config,
            Encoding::Plain,
        )
        .expect("encode failed");
        let img = decode_bytes_to_pixel_vec(&bytes, true, false, Encoding::Plain)
            .expect("decode failed");
        assert_eq!(img.pixels.len(), 1);
        assert!(img.pixels.iter().all(|p| !(p.x == 0 && p.y == 0)));
        assert_eq!(img.pixels[0], Pixel::new(1, 0, 0xAABBCCFF));
    }
}

#[test]
fn test_rgb_mode_promotes_alpha_to_opaque() {
    // save_alpha=false: three color bytes travel, alpha comes back opaque,
    // and the alpha byte is not consulted for dropping
    let pixels = vec![Pixel::new(2, 3, 0x11223344), Pixel::new(4, 5, 0xAABBCC00)];
    for varint in [false, true] {
        let config = Config { save_alpha: false, varint };
        let bytes = encode_pixel_vec_with_metadata(
            pixels.clone(),
            Metadata::new("TEST", Vec::new()),
            config,
            Encoding::Plain,
        )
        .expect("encode failed");
        let img = decode_bytes_to_pixel_vec(&bytes, true, false, Encoding::Plain)
            .expect("decode failed");
        assert_eq!(
            img.pixels,
            vec![Pixel::new(2, 3, 0x112233FF), Pixel::new(4, 5, 0xAABBCCFF)]
        );
    }
}

#[test]
fn test_unknown_compression_falls_back_to_passthrough() {
    // the header names a strategy the receiver does not know: the body is
    // handed through unchanged rather than rejected
    let mut sender = CompressMap::plain();
    sender
        .set_compressor(String::from("custom"), npng::Strategy::Plain)
        .expect("set_compressor failed");
    let pixels = sample_pixels();
    let bytes = encode_pixel_vec_with_metadata(
        pixels.clone(),
        Metadata::new("TEST", Vec::new()),
        Config::default(),
        sender,
    )
    .expect("encode failed");

    let receiver = CompressMap::plain(); // knows nothing called "custom"
    let img = decode_bytes_to_pixel_vec(&bytes, true, false, receiver).expect("decode failed");
    assert_eq!(img.pixels, pixels);
}

#[test]
fn test_metadata_extra_round_trip() {
    let extra = vec![
        (String::from("author"), String::from("héllo wörld")),
        (String::from("comment"), String::from("")),
        (String::from(""), String::from("empty key survives")),
    ];
    let pixels = vec![Pixel::new(0, 0, 0x000000FF)];
    let bytes = encode_pixel_vec_with_metadata(
        pixels,
        Metadata::new("TEST", extra.clone()),
        Config::default(),
        Encoding::Plain,
    )
    .expect("encode failed");
    let img = decode_bytes_to_pixel_vec(&bytes, true, false, Encoding::Plain)
        .expect("decode failed");
    assert_eq!(img.metadata.extra, extra);
}

#[test]
fn test_version_round_trip() {
    let pixels = vec![Pixel::new(0, 0, 0x000000FF)];
    let bytes = encode_pixel_vec_with_metadata(
        pixels,
        Metadata::new("TEST", Vec::new()),
        Config::default(),
        Encoding::Plain,
    )
    .expect("encode failed");
    let img = decode_bytes_to_pixel_vec(&bytes, true, false, Encoding::Plain)
        .expect("decode failed");
    let v = npng::version();
    assert_eq!(img.encoder_version.version_major(), v.version_major());
    assert_eq!(img.encoder_version.version_minor(), v.version_minor());
    assert_eq!(
        img.encoder_version.version_metadata(),
        npng::VersionMetadata::Experimental
    );
}
