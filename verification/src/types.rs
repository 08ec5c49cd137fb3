//! In-memory data model: pixels, metadata, versions, images.
use vstd::prelude::*;

verus! {

/// Side length of the coordinate space: coordinates lie in `[0, SIZE)`.
pub const SIZE: usize = 65536;

/// Most pixels one image may hold: one per possible coordinate pair.
pub const MAX_PIXELS: u64 = 0x1_0000_0000;

/// One pixel: coordinates and a packed RGBA color (alpha in the low byte).
#[derive(Clone, Copy, Debug, PartialEq, Eq, Structural)]
pub struct Pixel {
    pub x: u16,
    pub y: u16,
    pub color: u32,
}

impl Pixel {
    pub fn new(x: u16, y: u16, color: u32) -> (r: Pixel)
        ensures
            r == (Pixel { x, y, color }),
    {
        Pixel { x, y, color }
    }
}

/// A pixel on the wire without its alpha channel: three color bytes, R, G, B.
#[derive(Clone, Copy, Debug, PartialEq, Eq)]
pub struct RGBPixel {
    pub x: u16,
    pub y: u16,
    pub color: [u8; 3],
}

/// Stability tag carried in the version triple.
#[derive(Clone, Copy, Debug, PartialEq, Eq, Structural)]
pub enum VersionMetadata {
    Experimental,
    Beta,
    Stable,
}

impl VersionMetadata {
    /// The canonical lower-case name of this tag, as stored in a header.
    pub open spec fn spec_name(self) -> Seq<char> {
        match self {
            VersionMetadata::Experimental => "experimental"@,
            VersionMetadata::Beta => "beta"@,
            VersionMetadata::Stable => "stable"@,
        }
    }

    /// The canonical lower-case name of this tag.
    pub fn name(&self) -> (r: String)
        ensures
            r@ == self.spec_name(),
    {
        match self {
            VersionMetadata::Experimental => String::from_str("experimental"),
            VersionMetadata::Beta => String::from_str("beta"),
            VersionMetadata::Stable => String::from_str("stable"),
        }
    }
}

/// A byte lowered ASCII-wise: the letters A to Z move to a to z.
pub open spec fn spec_lower_byte(b: u8) -> u8 {
    if 65 <= b <= 90 {
        (b + 32) as u8
    } else {
        b
    }
}

/// A byte string lowered ASCII-wise, byte by byte.
pub open spec fn spec_lower_bytes(bs: Seq<u8>) -> Seq<u8> {
    Seq::new(bs.len(), |i: int| spec_lower_byte(bs[i]))
}

/// The tag a version string names, compared case-insensitively over ASCII.
pub open spec fn spec_parse_version_name(s: Seq<char>) -> Option<VersionMetadata> {
    let lb = spec_lower_bytes(vstd::utf8::encode_utf8(s));
    if lb == vstd::utf8::encode_utf8("experimental"@) {
        Some(VersionMetadata::Experimental)
    } else if lb == vstd::utf8::encode_utf8("beta"@) {
        Some(VersionMetadata::Beta)
    } else if lb == vstd::utf8::encode_utf8("stable"@) {
        Some(VersionMetadata::Stable)
    } else {
        None
    }
}

impl VersionMetadata {
    /// Reads a tag back from a header's version string; mirrors
    /// [`spec_parse_version_name`].
    pub fn parse_name(s: &str) -> (r: Option<VersionMetadata>)
        ensures
            r == spec_parse_version_name(s@),
    {
        let bs = s.as_bytes();
        let n = bs.len();
        let mut lb: Vec<u8> = Vec::new();
        let mut i: usize = 0;
        while i < n
            invariant
                n == bs@.len(),
                i <= n,
                lb@ =~= spec_lower_bytes(bs@).subrange(0, i as int),
            decreases n - i,
        {
            let x = *vstd::slice::slice_index_get(bs, i);
            lb.push(
                if 65 <= x && x <= 90 {
                    x + 32
                } else {
                    x
                },
            );
            proof {
                assert(lb@ =~= spec_lower_bytes(bs@).subrange(0, i + 1));
            }
            i = i + 1;
        }
        proof {
            assert(lb@ =~= spec_lower_bytes(bs@));
        }
        if crate::wire::bytes_eq(lb.as_slice(), "experimental".as_bytes()) {
            Some(VersionMetadata::Experimental)
        } else if crate::wire::bytes_eq(lb.as_slice(), "beta".as_bytes()) {
            Some(VersionMetadata::Beta)
        } else if crate::wire::bytes_eq(lb.as_slice(), "stable".as_bytes()) {
            Some(VersionMetadata::Stable)
        } else {
            None
        }
    }
}

/// The version triple of the encoder that produced a stream.
#[derive(Clone, Copy, Debug, PartialEq, Eq, Structural)]
pub struct EncoderVersion {
    pub version_major: u16,
    pub version_minor: u16,
    pub version_metadata: VersionMetadata,
}

impl EncoderVersion {
    pub fn version(&self) -> (r: (u16, u16, VersionMetadata))
        ensures
            r == (self.version_major, self.version_minor, self.version_metadata),
    {
        (self.version_major, self.version_minor, self.version_metadata)
    }

    pub fn version_major(&self) -> (r: u16)
        ensures
            r == self.version_major,
    {
        self.version_major
    }

    pub fn version_minor(&self) -> (r: u16)
        ensures
            r == self.version_minor,
    {
        self.version_minor
    }

    pub fn version_metadata(&self) -> (r: VersionMetadata)
        ensures
            r == self.version_metadata,
    {
        self.version_metadata
    }
}

/// Mathematical model of [`Metadata`].
pub struct MetadataV {
    pub created_in: Seq<char>,
    pub width: u16,
    pub height: u16,
    pub extra: Seq<(Seq<char>, Seq<char>)>,
}

/// Free-form image metadata stored in the header.
///
/// `width` and `height` are derived fields: the codec recomputes them from the
/// pixel set unless the caller explicitly skips that step.
#[derive(Debug)]
pub struct Metadata {
    pub created_in: String,
    pub width: u16,
    pub height: u16,
    pub extra: Vec<(String, String)>,
}

impl View for Metadata {
    type V = MetadataV;

    open spec fn view(&self) -> MetadataV {
        MetadataV {
            created_in: self.created_in@,
            width: self.width,
            height: self.height,
            extra: Seq::new(self.extra@.len(), |i: int| (self.extra@[i].0@, self.extra@[i].1@)),
        }
    }
}

impl Metadata {
    /// Fresh metadata with zero dimensions, to be derived from the pixels later.
    pub fn new_string(created_in: String, extra: Vec<(String, String)>) -> (r: Metadata)
        ensures
            r@.created_in == created_in@,
            r@.width == 0,
            r@.height == 0,
            r@.extra.len() == extra@.len(),
            forall|i: int|
                0 <= i < extra@.len() ==> r@.extra[i] == (extra@[i].0@, extra@[i].1@),
    {
        Metadata { created_in, width: 0, height: 0, extra }
    }

    /// Fresh metadata with zero dimensions, to be derived from the pixels later.
    pub fn new(created_in: &str, extra: Vec<(String, String)>) -> (r: Metadata)
        ensures
            r@.created_in == created_in@,
            r@.width == 0,
            r@.height == 0,
            r@.extra.len() == extra@.len(),
            forall|i: int|
                0 <= i < extra@.len() ==> r@.extra[i] == (extra@[i].0@, extra@[i].1@),
    {
        Metadata { created_in: String::from_str(created_in), width: 0, height: 0, extra }
    }

    /// Fresh metadata with zero dimensions, to be derived from the pixels later.
    pub fn new_str(created_in: &str, extra: Vec<(String, String)>) -> (r: Metadata)
        ensures
            r@.created_in == created_in@,
            r@.width == 0,
            r@.height == 0,
            r@.extra.len() == extra@.len(),
            forall|i: int|
                0 <= i < extra@.len() ==> r@.extra[i] == (extra@[i].0@, extra@[i].1@),
    {
        Metadata { created_in: String::from_str(created_in), width: 0, height: 0, extra }
    }
}

impl Clone for Metadata {
    fn clone(&self) -> (r: Self)
        ensures
            r@ == self@,
    {
        let mut extra: Vec<(String, String)> = Vec::new();
        let mut i: usize = 0;
        while i < self.extra.len()
            invariant
                i <= self.extra@.len(),
                extra@.len() == i as int,
                forall|j: int|
                    0 <= j < i as int ==> extra@[j] == self.extra@[j],
            decreases self.extra@.len() - i,
        {
            let (k, v) = (&self.extra[i].0, &self.extra[i].1);
            extra.push((k.clone(), v.clone()));
            i = i + 1;
        }
        let r = Metadata {
            created_in: self.created_in.clone(),
            width: self.width,
            height: self.height,
            extra,
        };
        proof {
            assert(r@.extra =~= self@.extra);
        }
        r
    }
}

/// Mathematical model of [`Img`].
pub struct ImgV {
    pub pixels: Seq<Pixel>,
    pub encoder_version: EncoderVersion,
    pub metadata: MetadataV,
}

/// A decoded image: the pixel list plus the versions and metadata of the stream.
#[derive(Debug)]
pub struct Img {
    pub pixels: Vec<Pixel>,
    pub encoder_version: EncoderVersion,
    pub metadata: Metadata,
}

impl View for Img {
    type V = ImgV;

    open spec fn view(&self) -> ImgV {
        ImgV { pixels: self.pixels@, encoder_version: self.encoder_version, metadata: self.metadata@ }
    }
}

impl Img {
    pub fn pixels(&self) -> (r: Vec<Pixel>)
        ensures
            r@ == self@.pixels,
    {
        let mut out: Vec<Pixel> = Vec::new();
        let mut i: usize = 0;
        while i < self.pixels.len()
            invariant
                i <= self.pixels@.len(),
                out@ =~= self.pixels@.subrange(0, i as int),
            decreases self.pixels@.len() - i,
        {
            out.push(self.pixels[i]);
            i = i + 1;
        }
        proof {
            assert(out@ =~= self.pixels@);
        }
        out
    }

    pub fn encoder_version(&self) -> (r: EncoderVersion)
        ensures
            r == self@.encoder_version,
    {
        self.encoder_version
    }

    pub fn metadata(&self) -> (r: Metadata)
        ensures
            r@ == self@.metadata,
    {
        self.metadata.clone()
    }

    pub fn as_ref(&self) -> (r: &Img)
        ensures
            r == self,
    {
        self
    }

    pub fn pixels_ref(&self) -> (r: &Vec<Pixel>)
        ensures
            r@ == self@.pixels,
    {
        &self.pixels
    }

    pub fn encode_version_ref(&self) -> (r: &EncoderVersion)
        ensures
            *r == self@.encoder_version,
    {
        &self.encoder_version
    }

    pub fn metadata_ref(&self) -> (r: &Metadata)
        ensures
            r@ == self@.metadata,
    {
        &self.metadata
    }
}

/// The 20-byte integrity footer: a fixed marker and a CRC32 checksum.
#[derive(Clone, Copy, Debug)]
pub struct CheckSum {
    pub del: [u8; 16],
    pub crc32: u32,
}

} // verus!
