//! Compression map: a named registry of interchangeable body compression
//! strategies. Lookup of an unknown name falls back to the identity
//! passthrough rather than failing: an explicit, documented format choice
//! that keeps old readers working, at the price of handing compressed bytes
//! through unchanged when the name is missing. Tests exercise that path.
use crate::error::{NPNGCompressingError, NPNGError};
use std::io::Read;
use std::io::Write;
use vstd::bytes::spec_u32_to_le_bytes;
use vstd::prelude::*;
use vstd::slice::slice_index_get;
use vstd::string::StringExecFns;
use vstd::string::StringExecFnsIsAscii;
use vstd::utf8::is_ascii_chars;

verus! {

/// One body compression strategy.
#[derive(Clone, Copy, Debug, PartialEq, Eq, Structural)]
pub enum Strategy {
    /// Identity passthrough.
    Plain,
    /// DEFLATE in a zlib envelope, levels 0 to 9.
    Zlib,
    /// Zstandard frames, levels 0 to 22.
    Zstd,
    /// A symmetric stream cipher: bytes XORed with a repeating 32-bit key.
    Xor,
}

/// Names what zlib decompression (flate2's `ZlibDecoder`, read to the end)
/// yields on given bytes: the decoded contents when decoding succeeds, and
/// nothing when the bytes are rejected. Decoding is a function of the bytes
/// alone.
pub uninterp spec fn zlib_inflate(data: Seq<u8>) -> Option<Seq<u8>>;

/// Names what Zstandard decompression (`zstd::stream::decode_all`) yields on
/// given bytes: the decoded contents when decoding succeeds, and nothing when
/// the bytes are rejected. Decoding is a function of the bytes alone.
pub uninterp spec fn zstd_inflate(data: Seq<u8>) -> Option<Seq<u8>>;

/// One byte of the repeating XOR key pattern: the key's little-endian bytes.
pub open spec fn spec_key_byte(key: u32, i: int) -> u8 {
    spec_u32_to_le_bytes(key)[i % 4]
}

/// The XOR cipher: each byte XORed with the key byte at its position.
pub open spec fn spec_xor_bytes(data: Seq<u8>, key: u32) -> Seq<u8> {
    Seq::new(data.len(), |i: int| data[i] ^ spec_key_byte(key, i))
}

/// Applying the XOR cipher twice with one key gives the data back.
pub proof fn lemma_xor_involution(data: Seq<u8>, key: u32)
    ensures
        spec_xor_bytes(spec_xor_bytes(data, key), key) == data,
{
    let once = spec_xor_bytes(data, key);
    assert(spec_xor_bytes(once, key) =~= data) by {
        assert forall|i: int| 0 <= i < data.len() implies spec_xor_bytes(once, key)[i]
            == data[i] by {
            let d = data[i];
            let k = spec_key_byte(key, i);
            assert((d ^ k) ^ k == d) by (bit_vector);
        }
    }
}

/// What decompressing with a strategy yields. The XOR key travels as an
/// optional level: without one, the cipher cannot run.
pub open spec fn spec_decompress(s: Strategy, key: Option<u32>, data: Seq<u8>) -> Option<Seq<u8>> {
    match s {
        Strategy::Plain => Some(data),
        Strategy::Zlib => zlib_inflate(data),
        Strategy::Zstd => zstd_inflate(data),
        Strategy::Xor => match key {
            Some(k) => Some(spec_xor_bytes(data, k)),
            None => None,
        },
    }
}

// ---------- trusted strategy calls ----------

/// Relies on flate2's `ZlibEncoder`: its output is one zlib stream that
/// inflates back to the input. Levels 0 to 9 are the valid zlib range.
#[verifier::external_body]
fn zlib_compress_raw(data: &[u8], level: u32) -> (r: Result<Vec<u8>, NPNGCompressingError>)
    requires
        level <= 9,
    ensures
        r matches Ok(c) ==> zlib_inflate(c@) == Some(data@),
{
    let mut enc = flate2::write::ZlibEncoder::new(Vec::new(), flate2::Compression::new(level));
    if let Err(e) = enc.write_all(data) {
        return Err(NPNGCompressingError::CompressingError(format!("Zlib write failed: {}", e)));
    }
    match enc.finish() {
        Ok(v) => Ok(v),
        Err(e) => Err(NPNGCompressingError::CompressingError(format!("Zlib finish failed: {}", e))),
    }
}

/// Relies on flate2's `ZlibDecoder`: reading it to the end yields the
/// stream's contents, and errors exactly on malformed input.
#[verifier::external_body]
fn zlib_decompress_raw(data: &[u8]) -> (r: Result<Vec<u8>, NPNGCompressingError>)
    ensures
        r matches Ok(d) ==> zlib_inflate(data@) == Some(d@),
        r is Err ==> zlib_inflate(data@) is None,
{
    let mut dec = flate2::read::ZlibDecoder::new(data);
    let mut out = Vec::new();
    match dec.read_to_end(&mut out) {
        Ok(_) => Ok(out),
        Err(e) => Err(NPNGCompressingError::DecompressingError(format!("Zlib decode failed: {}", e))),
    }
}

/// Relies on `zstd::stream::encode_all`: its output is a Zstandard frame
/// that decodes back to the input. Levels 0 to 22 are the supported range.
#[verifier::external_body]
fn zstd_compress_raw(data: &[u8], level: u32) -> (r: Result<Vec<u8>, NPNGCompressingError>)
    requires
        level <= 22,
    ensures
        r matches Ok(c) ==> zstd_inflate(c@) == Some(data@),
{
    match zstd::stream::encode_all(data, level as i32) {
        Ok(v) => Ok(v),
        Err(e) => Err(NPNGCompressingError::CompressingError(format!("Zstd encode failed: {}", e))),
    }
}

/// Relies on `zstd::stream::decode_all`: it yields the frames' contents,
/// and errors exactly on malformed input.
#[verifier::external_body]
fn zstd_decompress_raw(data: &[u8]) -> (r: Result<Vec<u8>, NPNGCompressingError>)
    ensures
        r matches Ok(d) ==> zstd_inflate(data@) == Some(d@),
        r is Err ==> zstd_inflate(data@) is None,
{
    match zstd::stream::decode_all(data) {
        Ok(v) => Ok(v),
        Err(e) => Err(NPNGCompressingError::DecompressingError(format!("Zstd decode failed: {}", e))),
    }
}

/// The XOR cipher; mirrors [`spec_xor_bytes`]. Symmetric, so it both
/// compresses and decompresses.
pub fn xor_bytes(data: &[u8], key: u32) -> (r: Vec<u8>)
    ensures
        r@ == spec_xor_bytes(data@, key),
{
    let key_bytes = vstd::bytes::u32_to_le_bytes(key);
    let mut out: Vec<u8> = Vec::new();
    let n = data.len();
    let mut i: usize = 0;
    while i < n
        invariant
            n == data@.len(),
            i <= n,
            key_bytes@ == spec_u32_to_le_bytes(key),
            key_bytes@.len() == 4,
            out@ =~= spec_xor_bytes(data@, key).subrange(0, i as int),
        decreases n - i,
    {
        out.push(*slice_index_get(data, i) ^ key_bytes[i % 4]);
        proof {
            assert(out@ =~= spec_xor_bytes(data@, key).subrange(0, i + 1));
        }
        i = i + 1;
    }
    proof {
        assert(out@ =~= spec_xor_bytes(data@, key));
    }
    out
}

// ---------- the registry ----------

/// Mathematical model of [`CompressMap`].
pub struct CompressMapV {
    pub decompressors: Seq<(Seq<char>, Strategy)>,
    pub compressor_name: Seq<char>,
    pub compressor: Strategy,
    pub level: u32,
}

/// The named registry: interchangeable decompressors, one active compressor,
/// and a level (reused as the XOR key).
#[derive(Debug)]
pub struct CompressMap {
    decompressors: Vec<(String, Strategy)>,
    compressor_name: String,
    compressor: Strategy,
    level: u32,
}

impl View for CompressMap {
    type V = CompressMapV;

    closed spec fn view(&self) -> CompressMapV {
        CompressMapV {
            decompressors: Seq::new(
                self.decompressors@.len(),
                |i: int| (self.decompressors@[i].0@, self.decompressors@[i].1),
            ),
            compressor_name: self.compressor_name@,
            compressor: self.compressor,
            level: self.level,
        }
    }
}

impl Clone for CompressMap {
    fn clone(&self) -> (r: Self)
        ensures
            r@ == self@,
    {
        let mut decompressors: Vec<(String, Strategy)> = Vec::new();
        let mut i: usize = 0;
        while i < self.decompressors.len()
            invariant
                i <= self.decompressors@.len(),
                decompressors@.len() == i as int,
                forall|j: int| 0 <= j < i as int ==> decompressors@[j] == self.decompressors@[j],
            decreases self.decompressors@.len() - i,
        {
            let name = self.decompressors[i].0.clone();
            let s = self.decompressors[i].1;
            decompressors.push((name, s));
            i = i + 1;
        }
        let r = CompressMap {
            decompressors,
            compressor_name: self.compressor_name.clone(),
            compressor: self.compressor,
            level: self.level,
        };
        proof {
            assert(r@.decompressors =~= self@.decompressors);
        }
        r
    }
}

/// The strategy registered first under a name, if any.
pub open spec fn spec_lookup(ds: Seq<(Seq<char>, Strategy)>, name: Seq<char>) -> Option<Strategy>
    decreases ds.len(),
{
    if ds.len() == 0 {
        None
    } else if ds[0].0 == name {
        Some(ds[0].1)
    } else {
        spec_lookup(ds.drop_first(), name)
    }
}

/// The strategy a name selects for decompression: the registered one, or the
/// identity passthrough when the name is unknown.
pub open spec fn spec_lookup_or_plain(
    ds: Seq<(Seq<char>, Strategy)>,
    name: Seq<char>,
) -> Strategy {
    match spec_lookup(ds, name) {
        Some(s) => s,
        None => Strategy::Plain,
    }
}

/// The key handed to decompressors: the level, when one is set.
pub open spec fn spec_key_arg(level: u32) -> Option<u32> {
    if level > 0 {
        Some(level)
    } else {
        None
    }
}

/// A valid registry name: non-empty ASCII of at most 255 bytes.
pub open spec fn spec_name_ok(s: Seq<char>) -> bool {
    &&& 0 < s.len() <= 255
    &&& is_ascii_chars(s)
}

/// Checks a registry name; mirrors [`spec_name_ok`].
fn name_ok(s: &String) -> (r: bool)
    ensures
        r == spec_name_ok(s@),
{
    broadcast use vstd::string::is_ascii_spec_bytes;

    if !s.is_ascii() {
        return false;
    }
    let st = s.as_str();
    let n = st.as_bytes().len();
    proof {
        assert(vstd::string::is_ascii(st));
        vstd::string::is_ascii_spec_bytes(st);
        assert(n == s@.len());
    }
    0 < n && n <= 255
}

/// What the compressor leaves in the body for each strategy: the data
/// itself, its XOR image, or bytes that inflate back to it.
pub open spec fn spec_compressed_ok(s: Strategy, level: u32, data: Seq<u8>, c: Seq<u8>) -> bool {
    match s {
        Strategy::Plain => c == data,
        Strategy::Xor => c == spec_xor_bytes(data, level),
        Strategy::Zlib => zlib_inflate(c) == Some(data),
        Strategy::Zstd => zstd_inflate(c) == Some(data),
    }
}

impl CompressMap {
    /// The identity registry: passthrough both ways.
    pub fn plain() -> (r: CompressMap)
        ensures
            r@.compressor == Strategy::Plain,
            r@.compressor_name == "plain"@,
            r@.decompressors == seq![("plain"@, Strategy::Plain)],
            r@.level == 0,
    {
        let mut decompressors: Vec<(String, Strategy)> = Vec::new();
        decompressors.push((String::from_str("plain"), Strategy::Plain));
        let r = CompressMap {
            decompressors,
            compressor_name: String::from_str("plain"),
            compressor: Strategy::Plain,
            level: 0,
        };
        proof {
            assert(r@.decompressors =~= seq![("plain"@, Strategy::Plain)]);
        }
        r
    }

    /// The identity registry, under its conventional constructor name.
    pub fn new() -> (r: CompressMap)
        ensures
            r@.compressor == Strategy::Plain,
            r@.compressor_name == "plain"@,
            r@.decompressors == seq![("plain"@, Strategy::Plain)],
            r@.level == 0,
    {
        CompressMap::plain()
    }

    /// A registry compressing with Zstandard at `level`, able to decompress it.
    pub fn zstd(level: u32) -> (r: CompressMap)
        ensures
            r@.compressor == Strategy::Zstd,
            r@.compressor_name == "zstd"@,
            r@.decompressors == seq![("zstd"@, Strategy::Zstd)],
            r@.level == level,
    {
        let mut decompressors: Vec<(String, Strategy)> = Vec::new();
        decompressors.push((String::from_str("zstd"), Strategy::Zstd));
        let r = CompressMap {
            decompressors,
            compressor_name: String::from_str("zstd"),
            compressor: Strategy::Zstd,
            level,
        };
        proof {
            assert(r@.decompressors =~= seq![("zstd"@, Strategy::Zstd)]);
        }
        r
    }

    /// A registry compressing with zlib at `level`, able to decompress it.
    pub fn zlib(level: u32) -> (r: CompressMap)
        ensures
            r@.compressor == Strategy::Zlib,
            r@.compressor_name == "zlib"@,
            r@.decompressors == seq![("zlib"@, Strategy::Zlib)],
            r@.level == level,
    {
        let mut decompressors: Vec<(String, Strategy)> = Vec::new();
        decompressors.push((String::from_str("zlib"), Strategy::Zlib));
        let r = CompressMap {
            decompressors,
            compressor_name: String::from_str("zlib"),
            compressor: Strategy::Zlib,
            level,
        };
        proof {
            assert(r@.decompressors =~= seq![("zlib"@, Strategy::Zlib)]);
        }
        r
    }

    /// A registry running the XOR cipher with `key` in both directions.
    pub fn xor(key: u32) -> (r: CompressMap)
        ensures
            r@.compressor == Strategy::Xor,
            r@.compressor_name == "xor"@,
            r@.decompressors == seq![("xor"@, Strategy::Xor)],
            r@.level == key,
    {
        let mut decompressors: Vec<(String, Strategy)> = Vec::new();
        decompressors.push((String::from_str("xor"), Strategy::Xor));
        let r = CompressMap {
            decompressors,
            compressor_name: String::from_str("xor"),
            compressor: Strategy::Xor,
            level: key,
        };
        proof {
            assert(r@.decompressors =~= seq![("xor"@, Strategy::Xor)]);
        }
        r
    }

    /// Sets the level (or XOR key) used by the active compressor.
    pub fn set_level(&mut self, level: u32)
        ensures
            final(self)@.level == level,
            final(self)@.compressor == old(self)@.compressor,
            final(self)@.compressor_name == old(self)@.compressor_name,
            final(self)@.decompressors == old(self)@.decompressors,
    {
        self.level = level;
    }

    /// The level (or XOR key) used by the active compressor.
    pub fn level(&self) -> (r: u32)
        ensures
            r == self@.level,
    {
        self.level
    }

    /// The name of the active compressor, as written into headers.
    pub fn encoder(&self) -> (r: String)
        ensures
            r@ == self@.compressor_name,
    {
        self.compressor_name.clone()
    }

    /// Makes `strategy` the active compressor under `name`; rejects an
    /// empty, non-ASCII or over-long name.
    pub fn set_compressor(&mut self, name: String, strategy: Strategy) -> (r: Result<
        (),
        NPNGError,
    >)
        ensures
            spec_name_ok(name@) ==> ({
                &&& r is Ok
                &&& final(self)@.compressor_name == name@
                &&& final(self)@.compressor == strategy
                &&& final(self)@.level == old(self)@.level
                &&& final(self)@.decompressors == old(self)@.decompressors
            }),
            !spec_name_ok(name@) ==> (r matches Err(e) && e matches NPNGError::Error(_)),
            !spec_name_ok(name@) ==> final(self)@ == old(self)@,
    {
        if !name_ok(&name) {
            return Err(
                NPNGError::Error(
                    String::from_str(
                        "compressor name is incorrect (empty, non-ascii, or too long)",
                    ),
                ),
            );
        }
        self.compressor_name = name;
        self.compressor = strategy;
        Ok(())
    }

    /// Registers `strategy` as the decompressor for `name`; rejects an
    /// empty, non-ASCII or over-long name. A fresh binding shadows an old one.
    pub fn add_decompressor(&mut self, name: String, strategy: Strategy) -> (r: Result<
        (),
        NPNGError,
    >)
        ensures
            spec_name_ok(name@) ==> ({
                &&& r is Ok
                &&& final(self)@.decompressors == seq![(name@, strategy)]
                    + old(self)@.decompressors
                &&& final(self)@.compressor_name == old(self)@.compressor_name
                &&& final(self)@.compressor == old(self)@.compressor
                &&& final(self)@.level == old(self)@.level
            }),
            !spec_name_ok(name@) ==> (r matches Err(e) && e matches NPNGError::Error(_)),
            !spec_name_ok(name@) ==> final(self)@ == old(self)@,
    {
        if !name_ok(&name) {
            return Err(
                NPNGError::Error(
                    String::from_str(
                        "decompressor name is incorrect (empty, non-ascii, or too long)",
                    ),
                ),
            );
        }
        self.decompressors.insert(0, (name, strategy));
        proof {
            assert(self@.decompressors =~= seq![(self.decompressors@[0].0@, self.decompressors@[0].1)]
                + old(self)@.decompressors);
        }
        Ok(())
    }

    /// Registers the zlib decompressor under its conventional name.
    pub fn add_zlib_decompress(&mut self)
        ensures
            final(self)@.decompressors == seq![("zlib"@, Strategy::Zlib)]
                + old(self)@.decompressors,
            final(self)@.compressor_name == old(self)@.compressor_name,
            final(self)@.compressor == old(self)@.compressor,
            final(self)@.level == old(self)@.level,
    {
        let name = String::from_str("zlib");
        proof {
            reveal_strlit("zlib");
        }
        let _ = self.add_decompressor(name, Strategy::Zlib);
    }

    /// Registers the Zstandard decompressor under its conventional name.
    pub fn add_zstd_decompress(&mut self)
        ensures
            final(self)@.decompressors == seq![("zstd"@, Strategy::Zstd)]
                + old(self)@.decompressors,
            final(self)@.compressor_name == old(self)@.compressor_name,
            final(self)@.compressor == old(self)@.compressor,
            final(self)@.level == old(self)@.level,
    {
        let name = String::from_str("zstd");
        proof {
            reveal_strlit("zstd");
        }
        let _ = self.add_decompressor(name, Strategy::Zstd);
    }

    /// Registers both well-known decompressors.
    pub fn add_default_decompressors(&mut self)
        ensures
            final(self)@.decompressors == seq![("zstd"@, Strategy::Zstd)] + (seq![
                ("zlib"@, Strategy::Zlib),
            ] + old(self)@.decompressors),
            final(self)@.compressor_name == old(self)@.compressor_name,
            final(self)@.compressor == old(self)@.compressor,
            final(self)@.level == old(self)@.level,
    {
        self.add_zlib_decompress();
        self.add_zstd_decompress();
    }

    /// Makes zlib at `level` the active compressor.
    pub fn set_zlib_compress(&mut self, level: u32)
        ensures
            final(self)@.compressor_name == "zlib"@,
            final(self)@.compressor == Strategy::Zlib,
            final(self)@.level == level,
            final(self)@.decompressors == old(self)@.decompressors,
    {
        self.set_level(level);
        let name = String::from_str("zlib");
        proof {
            reveal_strlit("zlib");
        }
        let _ = self.set_compressor(name, Strategy::Zlib);
    }

    /// Makes Zstandard at `level` the active compressor.
    pub fn set_zstd_compress(&mut self, level: u32)
        ensures
            final(self)@.compressor_name == "zstd"@,
            final(self)@.compressor == Strategy::Zstd,
            final(self)@.level == level,
            final(self)@.decompressors == old(self)@.decompressors,
    {
        self.set_level(level);
        let name = String::from_str("zstd");
        proof {
            reveal_strlit("zstd");
        }
        let _ = self.set_compressor(name, Strategy::Zstd);
    }

    /// Makes the identity passthrough the active compressor.
    pub fn set_plain_compress(&mut self)
        ensures
            final(self)@.compressor_name == "plain"@,
            final(self)@.compressor == Strategy::Plain,
            final(self)@.level == 0,
            final(self)@.decompressors == old(self)@.decompressors,
    {
        self.set_level(0);
        let name = String::from_str("plain");
        proof {
            reveal_strlit("plain");
        }
        let _ = self.set_compressor(name, Strategy::Plain);
    }

    /// Makes the XOR cipher with `key` the active compressor.
    pub fn set_xor_encoding(&mut self, key: u32)
        ensures
            final(self)@.compressor_name == "xor"@,
            final(self)@.compressor == Strategy::Xor,
            final(self)@.level == key,
            final(self)@.decompressors == old(self)@.decompressors,
    {
        self.set_level(key);
        let name = String::from_str("xor");
        proof {
            reveal_strlit("xor");
        }
        let _ = self.set_compressor(name, Strategy::Xor);
    }

    /// Registers the XOR decompressor and stores its `key` as the level.
    pub fn add_xor_decoding(&mut self, key: u32)
        ensures
            final(self)@.decompressors == seq![("xor"@, Strategy::Xor)]
                + old(self)@.decompressors,
            final(self)@.compressor_name == old(self)@.compressor_name,
            final(self)@.compressor == old(self)@.compressor,
            final(self)@.level == key,
    {
        self.set_level(key);
        let name = String::from_str("xor");
        proof {
            reveal_strlit("xor");
        }
        let _ = self.add_decompressor(name, Strategy::Xor);
    }

    /// Compresses a body with the active strategy; yields the strategy's
    /// name (for the header) and the compressed bytes. Levels beyond each
    /// strategy's range are rejected before any work.
    pub fn compress(&self, data: &[u8]) -> (r: Result<(String, Vec<u8>), NPNGError>)
        ensures
            r matches Ok(p) ==> p.0@ == self@.compressor_name && spec_compressed_ok(
                self@.compressor,
                self@.level,
                data@,
                p.1@,
            ),
            r matches Err(e) ==> e matches NPNGError::Compression(_),
            self@.compressor == Strategy::Plain || self@.compressor == Strategy::Xor ==> r is Ok,
            self@.compressor == Strategy::Zlib && self@.level > 9 ==> r is Err,
            self@.compressor == Strategy::Zstd && self@.level > 22 ==> r is Err,
    {
        let name = self.compressor_name.clone();
        match self.compressor {
            Strategy::Plain => {
                let mut out: Vec<u8> = Vec::new();
                crate::wire::write_raw(&mut out, data);
                proof {
                    assert(out@ =~= data@);
                }
                Ok((name, out))
            },
            Strategy::Xor => Ok((name, xor_bytes(data, self.level))),
            Strategy::Zlib => {
                if self.level > 9 {
                    return Err(
                        NPNGError::Compression(
                            NPNGCompressingError::CompressingError(
                                String::from_str("Invalid compression level"),
                            ),
                        ),
                    );
                }
                match zlib_compress_raw(data, self.level) {
                    Ok(c) => Ok((name, c)),
                    Err(e) => Err(NPNGError::Compression(e)),
                }
            },
            Strategy::Zstd => {
                if self.level > 22 {
                    return Err(
                        NPNGError::Compression(
                            NPNGCompressingError::CompressingError(
                                String::from_str("Unsupported compression level"),
                            ),
                        ),
                    );
                }
                match zstd_compress_raw(data, self.level) {
                    Ok(c) => Ok((name, c)),
                    Err(e) => Err(NPNGError::Compression(e)),
                }
            },
        }
    }

    /// Decompresses a body by the name stored in the header. An unknown name
    /// falls back to the identity passthrough; the level, when set, doubles
    /// as the XOR key.
    pub fn decompress(&self, data: &[u8], decompressor: &str) -> (r: Result<Vec<u8>, NPNGError>)
        ensures
            ({
                let strat = spec_lookup_or_plain(self@.decompressors, decompressor@);
                let key = spec_key_arg(self@.level);
                &&& (r matches Ok(d) ==> spec_decompress(strat, key, data@) == Some(d@))
                &&& (r is Err ==> spec_decompress(strat, key, data@) is None)
                &&& (r matches Err(e) ==> e matches NPNGError::Compression(_))
            }),
    {
        let strat = self.lookup_or_plain(decompressor);
        match strat {
            Strategy::Plain => {
                let mut out: Vec<u8> = Vec::new();
                crate::wire::write_raw(&mut out, data);
                proof {
                    assert(out@ =~= data@);
                }
                Ok(out)
            },
            Strategy::Xor => {
                if self.level > 0 {
                    Ok(xor_bytes(data, self.level))
                } else {
                    Err(
                        NPNGError::Compression(
                            NPNGCompressingError::DecompressingError(String::from_str("Empty key")),
                        ),
                    )
                }
            },
            Strategy::Zlib => {
                match zlib_decompress_raw(data) {
                    Ok(d) => Ok(d),
                    Err(e) => Err(NPNGError::Compression(e)),
                }
            },
            Strategy::Zstd => {
                match zstd_decompress_raw(data) {
                    Ok(d) => Ok(d),
                    Err(e) => Err(NPNGError::Compression(e)),
                }
            },
        }
    }

    /// Looks a name up in the registry; mirrors [`spec_lookup_or_plain`].
    fn lookup_or_plain(&self, name: &str) -> (r: Strategy)
        ensures
            r == spec_lookup_or_plain(self@.decompressors, name@),
    {
        let wanted = name.to_owned();
        let n = self.decompressors.len();
        let mut i: usize = 0;
        proof {
            assert(self@.decompressors.subrange(0, n as int) =~= self@.decompressors);
        }
        while i < n
            invariant
                n == self.decompressors@.len(),
                i <= n,
                wanted@ == name@,
                spec_lookup(self@.decompressors, name@) == spec_lookup(
                    self@.decompressors.subrange(i as int, n as int),
                    name@,
                ),
            decreases n - i,
        {
            proof {
                let tail = self@.decompressors.subrange(i as int, n as int);
                assert(tail[0] == self@.decompressors[i as int]);
                assert(tail.drop_first() =~= self@.decompressors.subrange(i + 1, n as int));
            }
            if self.decompressors[i].0 == wanted {
                return self.decompressors[i].1;
            }
            i = i + 1;
        }
        proof {
            assert(self@.decompressors.subrange(n as int, n as int).len() == 0);
        }
        Strategy::Plain
    }
}

impl Default for CompressMap {
    /// The identity registry.
    fn default() -> (r: CompressMap)
        ensures
            r@.compressor == Strategy::Plain,
            r@.compressor_name == "plain"@,
            r@.decompressors == seq![("plain"@, Strategy::Plain)],
            r@.level == 0,
    {
        CompressMap::plain()
    }
}

} // verus!
