//! NPNG: a binary image container for sparse or dense pixel lists.
//!
//! A stream holds a self-describing header, a compressed body of per-pixel
//! records, and a CRC32 integrity footer. Pixel records come in two wire
//! shapes (with or without alpha) and two integer packings (fixed-width or
//! varint); the body compression is pluggable through a named registry.
use vstd::prelude::*;

pub mod checksum;
pub mod coding;
pub mod compression;
pub mod error;
pub mod header;
pub mod laws;
pub mod record;
pub mod types;
pub mod wire;

pub use crate::compression::CompressMap;
pub use crate::compression::Strategy;
pub use crate::error::NPNGCompressingError;
pub use crate::error::NPNGError;
pub use crate::header::Header;
pub use crate::types::CheckSum;
pub use crate::types::EncoderVersion;
pub use crate::types::Img;
pub use crate::types::Metadata;
pub use crate::types::Pixel;
pub use crate::types::RGBPixel;
pub use crate::types::VersionMetadata;

use crate::checksum::{crc32_of, spec_parse_footer, spec_ser_footer};
use crate::coding::{spec_first_dup, spec_has_dup, spec_max_x, spec_max_y, spec_wrap_inc};
use crate::compression::{
    spec_compressed_ok, spec_decompress, spec_key_arg, spec_lookup_or_plain, CompressMapV,
};
use crate::header::{
    spec_build_header, spec_build_ok, spec_magic, spec_parse_header, spec_ser_header, HeaderV,
};
use crate::record::{spec_decode_body, spec_encode_pixels};
use crate::types::{spec_parse_version_name, ImgV, MetadataV, MAX_PIXELS};
use crate::wire::spec_find_delim;
use vstd::string::StringExecFns;

verus! {

/// Major version written into every encoded header.
pub const VERSION_MAJOR: u16 = 0;

/// Minor version written into every encoded header.
pub const VERSION_MINOR: u16 = 0;

/// Options governing the shape of the encoded body.
#[derive(Clone, Copy, Debug, PartialEq, Eq, Structural)]
pub struct Config {
    /// Store the alpha channel; fully transparent pixels are dropped entirely.
    pub save_alpha: bool,
    /// Pack record integers as varints instead of fixed-width fields.
    pub varint: bool,
}

impl Config {
    pub fn new(save_alpha: bool, varint: bool) -> (r: Config)
        ensures
            r == (Config { save_alpha, varint }),
    {
        Config { save_alpha, varint }
    }
}

impl Default for Config {
    fn default() -> (r: Config)
        ensures
            r == (Config { save_alpha: true, varint: false }),
    {
        Config { save_alpha: true, varint: false }
    }
}

/// The version triple of this encoder, as written into every header.
pub fn version() -> (r: EncoderVersion)
    ensures
        r.version_major == VERSION_MAJOR,
        r.version_minor == VERSION_MINOR,
        r.version_metadata == VersionMetadata::Experimental,
{
    EncoderVersion {
        version_major: VERSION_MAJOR,
        version_minor: VERSION_MINOR,
        version_metadata: VersionMetadata::Experimental,
    }
}

/// A choice among the built-in compression strategies, with a level.
#[derive(Clone, Copy, Debug, PartialEq, Eq, Structural)]
pub enum Encoding {
    /// No compression (larger streams).
    Plain,
    /// zlib, levels up to 9.
    Zlib(u8),
    /// Zstandard, levels up to 22.
    Zstd(u8),
}

impl Default for Encoding {
    fn default() -> (r: Encoding)
        ensures
            r == Encoding::Zstd(16),
    {
        Encoding::Zstd(16)
    }
}

/// Anything the codec accepts in place of a ready compression map.
pub trait IntoCompressMap: Sized {
    /// The registry this value stands for.
    spec fn spec_compress_map(&self) -> CompressMapV;

    /// Builds that registry.
    fn into_compress_map(self) -> (r: Result<CompressMap, NPNGError>)
        ensures
            r matches Ok(m) && m@ == self.spec_compress_map(),
    ;
}

impl IntoCompressMap for CompressMap {
    open spec fn spec_compress_map(&self) -> CompressMapV {
        self@
    }

    fn into_compress_map(self) -> (r: Result<CompressMap, NPNGError>)
        ensures
            r matches Ok(m) && m@ == self.spec_compress_map(),
    {
        Ok(self)
    }
}

impl IntoCompressMap for Encoding {
    open spec fn spec_compress_map(&self) -> CompressMapV {
        match self {
            Encoding::Plain => CompressMapV {
                decompressors: seq![("plain"@, Strategy::Plain)],
                compressor_name: "plain"@,
                compressor: Strategy::Plain,
                level: 0,
            },
            Encoding::Zlib(l) => CompressMapV {
                decompressors: seq![("zlib"@, Strategy::Zlib)],
                compressor_name: "zlib"@,
                compressor: Strategy::Zlib,
                level: *l as u32,
            },
            Encoding::Zstd(l) => CompressMapV {
                decompressors: seq![("zstd"@, Strategy::Zstd)],
                compressor_name: "zstd"@,
                compressor: Strategy::Zstd,
                level: *l as u32,
            },
        }
    }

    fn into_compress_map(self) -> (r: Result<CompressMap, NPNGError>)
        ensures
            r matches Ok(m) && m@ == self.spec_compress_map(),
    {
        match self {
            Encoding::Plain => Ok(CompressMap::plain()),
            Encoding::Zlib(l) => Ok(CompressMap::zlib(l as u32)),
            Encoding::Zstd(l) => Ok(CompressMap::zstd(l as u32)),
        }
    }
}

// ---------- the stream, top to bottom ----------

/// Metadata with its dimensions rederived from the pixels.
pub open spec fn spec_derived_metadata(m: MetadataV, ps: Seq<Pixel>) -> MetadataV {
    MetadataV {
        created_in: m.created_in,
        width: spec_wrap_inc(spec_max_x(ps)),
        height: spec_wrap_inc(spec_max_y(ps)),
        extra: m.extra,
    }
}

/// A whole stream assembled from its header bytes and compressed body:
/// the footer carries the checksum over everything before it.
pub open spec fn spec_stream(hb: Seq<u8>, c: Seq<u8>) -> Seq<u8> {
    hb + c + spec_ser_footer(crc32_of(hb + c))
}

/// The header an encode writes for these inputs.
pub open spec fn spec_encode_header(
    cm: CompressMapV,
    m: MetadataV,
    ps: Seq<Pixel>,
    config: Config,
) -> HeaderV {
    spec_build_header(
        cm.compressor_name,
        spec_derived_metadata(m, ps),
        config.save_alpha,
        config.varint,
    )
}

/// A serialized header frames cleanly when its one delimiter is the six
/// bytes that close it.
pub open spec fn spec_frame_ok(hb: Seq<u8>) -> bool {
    spec_find_delim(hb) == Some(hb.len() - 6)
}

/// Encodes a pixel list with its metadata into one NPNG stream.
///
/// The metadata's dimensions are rederived from the pixels; duplicate
/// coordinates are rejected; the header is built, framed and bounded; the
/// records are encoded in parallel, compressed, and sealed under a CRC32.
#[verifier::loop_isolation(false)]
#[verifier::rlimit(60)]
pub fn encode_pixel_vec_with_metadata<C: IntoCompressMap>(
    pixels: Vec<Pixel>,
    metadata: Metadata,
    config: Config,
    compress_map: C,
) -> (r: Result<Vec<u8>, NPNGError>)
    ensures
        ({
            let ps = pixels@;
            let cm = compress_map.spec_compress_map();
            let md1 = spec_derived_metadata(metadata@, ps);
            let h = spec_encode_header(cm, metadata@, ps, config);
            let hb = spec_ser_header(h);
            let body = spec_encode_pixels(ps, config.save_alpha, config.varint);
            &&& (ps.len() > MAX_PIXELS ==> (r matches Err(e) && e matches NPNGError::Error(_)))
            &&& (ps.len() <= MAX_PIXELS ==> (spec_first_dup(ps, 0) matches Some(xy) ==> r
                == Err::<Vec<u8>, NPNGError>(NPNGError::DuplicatePixel(xy.0, xy.1))))
            &&& (ps.len() <= MAX_PIXELS && !spec_has_dup(ps) && !spec_build_ok(
                cm.compressor_name,
                md1,
            ) ==> (r matches Err(e) && e matches NPNGError::Error(_)))
            &&& (ps.len() <= MAX_PIXELS && !spec_has_dup(ps) && spec_build_ok(
                cm.compressor_name,
                md1,
            ) ==> {
                &&& (hb.len() > 10000 ==> (r matches Err(e) && e matches NPNGError::Error(_)))
                &&& (hb.len() <= 10000 && !spec_frame_ok(hb) ==> (r matches Err(e) && e matches
                    NPNGError::Error(_)))
                &&& (hb.len() <= 10000 && spec_frame_ok(hb) ==> {
                    &&& (r matches Ok(out) ==> exists|c: Seq<u8>|
                        #[trigger] spec_compressed_ok(cm.compressor, cm.level, body, c) && out@
                            == spec_stream(hb, c))
                    &&& (cm.compressor == Strategy::Plain || cm.compressor == Strategy::Xor
                        ==> r is Ok)
                    &&& (r matches Err(e) ==> e matches NPNGError::Compression(_))
                })
            })
        }),
{
    let ghost ps = pixels@;
    let ghost cmv = compress_map.spec_compress_map();
    if pixels.len() as u64 > MAX_PIXELS {
        return Err(NPNGError::Error(String::from_str("Too many pixels")));
    }
    let cm = match compress_map.into_compress_map() {
        Ok(m) => m,
        Err(e) => {
            return Err(e);
        },
    };
    // derive the dimensions from the pixel set
    let (w, h) = crate::coding::check_image_size_f(crate::coding::clone_pixels(&pixels));
    let mut metadata = metadata;
    metadata.width = w;
    metadata.height = h;
    // reject duplicate coordinates
    if let Some((dx, dy)) = crate::coding::find_duplicate(&pixels) {
        return Err(NPNGError::DuplicatePixel(dx, dy));
    }
    // build and frame the header
    let header = match Header::new(cm.encoder(), metadata, config.save_alpha, config.varint) {
        Ok(hd) => hd,
        Err(e) => {
            return Err(e);
        },
    };
    let ser_header = header.to_bytes();
    if ser_header.len() > 10000 {
        return Err(NPNGError::Error(String::from_str("Header is too long")));
    }
    match crate::wire::find_delim(ser_header.as_slice()) {
        Some(p) if p == ser_header.len() - 6 => {},
        _ => {
            return Err(NPNGError::Error(String::from_str("header framing is ambiguous")));
        },
    }
    // encode the records in parallel and compress the body
    let body = crate::coding::encode_pixels_parallel(&pixels, config.save_alpha, config.varint);
    let (_, compressed) = match cm.compress(body.as_slice()) {
        Ok(p) => p,
        Err(e) => {
            return Err(e);
        },
    };
    // seal everything under the checksum footer
    let mut buf = ser_header;
    crate::wire::write_raw(&mut buf, compressed.as_slice());
    let footer = CheckSum::seal(buf.as_slice());
    let mut tail = footer.to_bytes();
    buf.append(&mut tail);
    proof {
        let hb = spec_ser_header(spec_encode_header(cmv, metadata@, ps, config));
        assert(buf@ =~= spec_stream(hb, compressed@));
        assert(spec_compressed_ok(
            cmv.compressor,
            cmv.level,
            spec_encode_pixels(ps, config.save_alpha, config.varint),
            compressed@,
        ));
    }
    Ok(buf)
}

/// Encodes an assembled image value into one NPNG stream.
pub fn encode_img_to_npng_bytes<C: IntoCompressMap>(
    img: Img,
    config: Config,
    compress_map: C,
) -> (r: Result<Vec<u8>, NPNGError>)
    ensures
        ({
            let ps = img@.pixels;
            let cm = compress_map.spec_compress_map();
            let hb = spec_ser_header(spec_encode_header(cm, img@.metadata, ps, config));
            let body = spec_encode_pixels(ps, config.save_alpha, config.varint);
            &&& (ps.len() <= MAX_PIXELS ==> (spec_first_dup(ps, 0) matches Some(xy) ==> r
                == Err::<Vec<u8>, NPNGError>(NPNGError::DuplicatePixel(xy.0, xy.1))))
            &&& (r matches Ok(out) ==> exists|c: Seq<u8>|
                #[trigger] spec_compressed_ok(cm.compressor, cm.level, body, c) && out@
                    == spec_stream(hb, c))
        }),
{
    proof {
        crate::coding::lemma_first_dup_complete(img@.pixels);
    }
    let Img { pixels, encoder_version: _, metadata } = img;
    encode_pixel_vec_with_metadata(pixels, metadata, config, compress_map)
}

// ---------- decoding ----------

/// Every way a decode can stop short, in the order the stages run.
pub enum DecodeFailure {
    /// Too few bytes even for the magic.
    TooShort,
    /// No room for the footer, or its marker bytes are not intact.
    FooterMissing,
    /// The stored checksum does not match the stream.
    ChecksumMismatch,
    /// The magic bytes are wrong.
    BadMagic,
    /// No delimiter anywhere in the stream.
    DelimiterMissing,
    /// The header runs past its allowed size.
    HeaderTooLong,
    /// The delimiter found lies inside the footer.
    HeaderOverlapsFooter,
    /// The header bytes do not parse.
    HeaderMalformed,
    /// The version string names no known tag.
    UnknownVersionName,
    /// The stream's major version differs and the policy is fatal.
    VersionMismatch,
    /// The named decompressor rejected the body.
    DecompressFailed,
    /// A pixel record in the body is malformed.
    RecordMalformed,
    /// More records than an image may hold.
    TooManyPixels,
    /// Two decoded pixels share these coordinates.
    Duplicate(u16, u16),
}

/// What decoding a stream against a given registry yields: the image, or the
/// first failing stage. This is the whole format, read top to bottom: footer
/// and checksum, magic, delimiter scan, header, body decompression by the
/// header's strategy name, record decode, then validation.
pub open spec fn spec_decode_stream(
    b: Seq<u8>,
    cm: CompressMapV,
    check_image_size: bool,
    ignore_checksum: bool,
    version_mismatch_fatal: bool,
) -> Result<ImgV, DecodeFailure> {
    if b.len() < 9 {
        Err(DecodeFailure::TooShort)
    } else if b.len() < 29 {
        Err(DecodeFailure::FooterMissing)
    } else {
        match spec_parse_footer(b) {
            None => Err(DecodeFailure::FooterMissing),
            Some(stored) => {
                if !ignore_checksum && stored != crc32_of(b.subrange(0, b.len() - 20)) {
                    Err(DecodeFailure::ChecksumMismatch)
                } else if b.subrange(0, 9) != spec_magic() {
                    Err(DecodeFailure::BadMagic)
                } else {
                    match spec_find_delim(b) {
                        None => Err(DecodeFailure::DelimiterMissing),
                        Some(p) => {
                            let end = p + 6;
                            if end > 10000 {
                                Err(DecodeFailure::HeaderTooLong)
                            } else if end > b.len() - 20 {
                                Err(DecodeFailure::HeaderOverlapsFooter)
                            } else {
                                match spec_parse_header(b.subrange(0, end)) {
                                    None => Err(DecodeFailure::HeaderMalformed),
                                    Some(hv) => spec_decode_after_header(
                                        b,
                                        cm,
                                        hv,
                                        end,
                                        check_image_size,
                                        version_mismatch_fatal,
                                    ),
                                }
                            }
                        },
                    }
                }
            },
        }
    }
}

/// The tail of [`spec_decode_stream`], once the header is in hand.
pub open spec fn spec_decode_after_header(
    b: Seq<u8>,
    cm: CompressMapV,
    hv: HeaderV,
    end: int,
    check_image_size: bool,
    version_mismatch_fatal: bool,
) -> Result<ImgV, DecodeFailure> {
    match spec_parse_version_name(hv.version_metadata) {
        None => Err(DecodeFailure::UnknownVersionName),
        Some(vm) => {
            if version_mismatch_fatal && hv.version_major != VERSION_MAJOR {
                Err(DecodeFailure::VersionMismatch)
            } else {
                let body = b.subrange(end, b.len() - 20);
                match spec_decompress(
                    spec_lookup_or_plain(cm.decompressors, hv.encoding_format),
                    spec_key_arg(cm.level),
                    body,
                ) {
                    None => Err(DecodeFailure::DecompressFailed),
                    Some(raw) => match spec_decode_body(raw, 0, hv.alpha, hv.varint) {
                        None => Err(DecodeFailure::RecordMalformed),
                        Some(ps) => {
                            if ps.len() > MAX_PIXELS {
                                Err(DecodeFailure::TooManyPixels)
                            } else {
                                match spec_first_dup(ps, 0) {
                                    Some(xy) => Err(DecodeFailure::Duplicate(xy.0, xy.1)),
                                    None => Ok(
                                        ImgV {
                                            pixels: ps,
                                            encoder_version: EncoderVersion {
                                                version_major: hv.version_major,
                                                version_minor: hv.version_minor,
                                                version_metadata: vm,
                                            },
                                            metadata: if check_image_size {
                                                MetadataV {
                                                    created_in: hv.metadata.created_in,
                                                    width: spec_wrap_inc(spec_max_x(ps)),
                                                    height: spec_wrap_inc(spec_max_y(ps)),
                                                    extra: hv.metadata.extra,
                                                }
                                            } else {
                                                hv.metadata
                                            },
                                        },
                                    ),
                                }
                            }
                        },
                    },
                }
            }
        },
    }
}

/// The error variant each failing stage reports.
pub open spec fn spec_decode_err_matches(f: DecodeFailure, e: NPNGError) -> bool {
    match f {
        DecodeFailure::TooShort => e matches NPNGError::InvalidHeader(_),
        DecodeFailure::FooterMissing => e matches NPNGError::InvalidChecksum(_),
        DecodeFailure::ChecksumMismatch => e matches NPNGError::InvalidChecksum(_),
        DecodeFailure::BadMagic => e matches NPNGError::InvalidHeader(_),
        DecodeFailure::DelimiterMissing => e matches NPNGError::Error(_),
        DecodeFailure::HeaderTooLong => e matches NPNGError::InvalidHeader(_),
        DecodeFailure::HeaderOverlapsFooter => e matches NPNGError::InvalidHeader(_),
        DecodeFailure::HeaderMalformed => e matches NPNGError::InvalidHeader(_),
        DecodeFailure::UnknownVersionName => e matches NPNGError::Error(_),
        DecodeFailure::VersionMismatch => e matches NPNGError::Error(_),
        DecodeFailure::DecompressFailed => e matches NPNGError::Compression(_),
        DecodeFailure::RecordMalformed => e matches NPNGError::DecodingError(_),
        DecodeFailure::TooManyPixels => e matches NPNGError::Error(_),
        DecodeFailure::Duplicate(x, y) => e == NPNGError::DuplicatePixel(x, y),
    }
}

/// Decodes an NPNG stream, with an explicit policy for streams written by a
/// different major version: fatal, or decoded anyway.
#[verifier::rlimit(100)]
pub fn decode_bytes_to_pixel_vec_with_policy<C: IntoCompressMap>(
    bytes: &[u8],
    check_image_size: bool,
    ignore_checksum: bool,
    version_mismatch_fatal: bool,
    compress_map: C,
) -> (r: Result<Img, NPNGError>)
    ensures
        ({
            let outcome = spec_decode_stream(
                bytes@,
                compress_map.spec_compress_map(),
                check_image_size,
                ignore_checksum,
                version_mismatch_fatal,
            );
            &&& (outcome matches Ok(iv) ==> (r matches Ok(img) && img@ == iv))
            &&& (outcome matches Err(f) ==> (r matches Err(e) && spec_decode_err_matches(f, e)))
        }),
{
    let cm = match compress_map.into_compress_map() {
        Ok(m) => m,
        Err(e) => {
            return Err(e);
        },
    };
    let n = bytes.len();
    if n < 9 {
        return Err(NPNGError::InvalidHeader(String::from_str("Header is too short")));
    }
    if n < 29 {
        return Err(NPNGError::InvalidChecksum(String::from_str("broken checksum section")));
    }
    let stored = match crate::checksum::read_footer(bytes) {
        Some(c) => c,
        None => {
            return Err(NPNGError::InvalidChecksum(String::from_str("broken checksum section")));
        },
    };
    if !ignore_checksum {
        let computed = crate::checksum::compute_crc32(
            vstd::slice::slice_subrange(bytes, 0, n - 20),
        );
        if stored != computed {
            return Err(NPNGError::InvalidChecksum(String::from_str("Image is corrupted")));
        }
    }
    if !crate::header::magic_ok(bytes) {
        return Err(NPNGError::InvalidHeader(String::from_str("Invalid magic bytes")));
    }
    let p = match crate::wire::find_delim(bytes) {
        Some(p) => p,
        None => {
            return Err(NPNGError::Error(String::from_str("Invalid header")));
        },
    };
    proof {
        crate::wire::lemma_find_delim_from_first(bytes@, 0);
    }
    let end = p + 6;
    if end > 10000 {
        return Err(NPNGError::InvalidHeader(String::from_str("Header is too long")));
    }
    if end > n - 20 {
        return Err(NPNGError::InvalidHeader(String::from_str("header overlaps the checksum")));
    }
    let header = match Header::parse(vstd::slice::slice_subrange(bytes, 0, end)) {
        Ok(h) => h,
        Err(e) => {
            return Err(e);
        },
    };
    let vm = match VersionMetadata::parse_name(header.version_metadata.as_str()) {
        Some(v) => v,
        None => {
            return Err(NPNGError::Error(String::from_str("Unknown version metadata")));
        },
    };
    if version_mismatch_fatal && header.version_major != VERSION_MAJOR {
        return Err(NPNGError::Error(String::from_str("Image version differs from crate version")));
    }
    let body = vstd::slice::slice_subrange(bytes, end, n - 20);
    let raw = match cm.decompress(body, header.encoding_format.as_str()) {
        Ok(d) => d,
        Err(e) => {
            return Err(e);
        },
    };
    let pixels = match crate::coding::decode_pixels_parallel(&raw, header.alpha, header.varint) {
        Ok(v) => v,
        Err(e) => {
            return Err(e);
        },
    };
    if pixels.len() as u64 > MAX_PIXELS {
        return Err(NPNGError::Error(String::from_str("Pixel vec is too long")));
    }
    if let Some((dx, dy)) = crate::coding::find_duplicate(&pixels) {
        return Err(NPNGError::DuplicatePixel(dx, dy));
    }
    let mut metadata = header.metadata;
    if check_image_size {
        let (w, h) = crate::coding::check_image_size_f(crate::coding::clone_pixels(&pixels));
        metadata.width = w;
        metadata.height = h;
    }
    let img = Img {
        pixels,
        encoder_version: EncoderVersion {
            version_major: header.version_major,
            version_minor: header.version_minor,
            version_metadata: vm,
        },
        metadata,
    };
    Ok(img)
}

/// Decodes an NPNG stream. A stream written by a different major version is
/// rejected; [`decode_bytes_to_pixel_vec_with_policy`] makes that choice
/// configurable.
pub fn decode_bytes_to_pixel_vec<C: IntoCompressMap>(
    bytes: &[u8],
    check_image_size: bool,
    ignore_checksum: bool,
    compress_map: C,
) -> (r: Result<Img, NPNGError>)
    ensures
        ({
            let outcome = spec_decode_stream(
                bytes@,
                compress_map.spec_compress_map(),
                check_image_size,
                ignore_checksum,
                true,
            );
            &&& (outcome matches Ok(iv) ==> (r matches Ok(img) && img@ == iv))
            &&& (outcome matches Err(f) ==> (r matches Err(e) && spec_decode_err_matches(f, e)))
        }),
{
    decode_bytes_to_pixel_vec_with_policy(bytes, check_image_size, ignore_checksum, true, compress_map)
}

} // verus!
