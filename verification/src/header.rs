//! Header codec: building, framing, validating and parsing the header block.
use crate::error::NPNGError;
use crate::types::{Metadata, MetadataV};
use crate::wire::{
    lemma_dec16_of_enc, lemma_dec64_of_enc, lemma_dec_str_of_enc, read_bool, read_string, read_u16,
    read_u64, spec_dec16, spec_dec64, spec_dec_bool, spec_dec_str, spec_enc_str, write_bool,
    write_str, write_u16, write_u64,
};
use vstd::bytes::{
    lemma_auto_spec_u16_to_from_le_bytes, lemma_auto_spec_u64_to_from_le_bytes,
    spec_u16_to_le_bytes, spec_u64_to_le_bytes,
};
use vstd::prelude::*;
use vstd::slice::slice_index_get;
use vstd::string::StringExecFnsIsAscii;
use vstd::string::StrSliceExecFns;
use vstd::utf8::encode_utf8;

verus! {

/// The nine magic bytes opening every stream: "NPNG" interleaved with nulls.
pub open spec fn spec_magic() -> Seq<u8> {
    seq![0x00u8, 0x4Eu8, 0x00u8, 0x50u8, 0x00u8, 0x4Eu8, 0x00u8, 0x47u8, 0x00u8]
}

/// The six delimiter bytes closing every header.
pub open spec fn spec_delim() -> Seq<u8> {
    seq![0xFFu8, 0xFFu8, 0xFFu8, 0xFFu8, 0xFFu8, 0xFFu8]
}

/// The eight reserved bytes, zero-filled on build.
pub open spec fn spec_reserved() -> Seq<u8> {
    seq![0u8, 0u8, 0u8, 0u8, 0u8, 0u8, 0u8, 0u8]
}

/// Longest serialized header (delimiter included) a stream may carry.
pub const MAX_HEADER_LEN: usize = 10000;

/// Mathematical model of [`Header`].
pub struct HeaderV {
    pub magic: Seq<u8>,
    pub version_major: u16,
    pub version_minor: u16,
    pub version_metadata: Seq<char>,
    pub reserved: Seq<u8>,
    pub alpha: bool,
    pub varint: bool,
    pub encoding_format: Seq<char>,
    pub metadata: MetadataV,
    pub del: Seq<u8>,
}

/// The header block of a stream: magic, versions, feature flags, the active
/// compression strategy's name, metadata, and the closing delimiter.
#[derive(Debug)]
pub struct Header {
    pub magic: [u8; 9],
    pub version_major: u16,
    pub version_minor: u16,
    pub version_metadata: String,
    pub reserved: [u8; 8],
    pub alpha: bool,
    pub varint: bool,
    pub encoding_format: String,
    pub metadata: Metadata,
    pub del: [u8; 6],
}

impl View for Header {
    type V = HeaderV;

    open spec fn view(&self) -> HeaderV {
        HeaderV {
            magic: self.magic@,
            version_major: self.version_major,
            version_minor: self.version_minor,
            version_metadata: self.version_metadata@,
            reserved: self.reserved@,
            alpha: self.alpha,
            varint: self.varint,
            encoding_format: self.encoding_format@,
            metadata: self.metadata@,
            del: self.del@,
        }
    }
}

// ---------- serialization (spec) ----------

/// The extra entries on the wire: each key and value length-prefixed, in order.
pub open spec fn spec_ser_entries(es: Seq<(Seq<char>, Seq<char>)>) -> Seq<u8>
    decreases es.len(),
{
    if es.len() == 0 {
        seq![]
    } else {
        spec_enc_str(es[0].0) + spec_enc_str(es[0].1) + spec_ser_entries(es.drop_first())
    }
}

/// The metadata block on the wire.
pub open spec fn spec_ser_metadata(m: MetadataV) -> Seq<u8> {
    spec_enc_str(m.created_in) + spec_u16_to_le_bytes(m.width) + spec_u16_to_le_bytes(m.height)
        + spec_u64_to_le_bytes(m.extra.len() as u64) + spec_ser_entries(m.extra)
}

/// The whole header block on the wire, delimiter included. Header framing is
/// always fixed-width, whatever the body's packing, so its shape is predictable.
pub open spec fn spec_ser_header(h: HeaderV) -> Seq<u8> {
    h.magic + spec_u16_to_le_bytes(h.version_major) + spec_u16_to_le_bytes(h.version_minor)
        + spec_enc_str(h.version_metadata) + h.reserved + seq![
        if h.alpha {
            1u8
        } else {
            0u8
        },
    ] + seq![
        if h.varint {
            1u8
        } else {
            0u8
        },
    ] + spec_enc_str(h.encoding_format) + spec_ser_metadata(h.metadata) + h.del
}

// ---------- parsing (spec) ----------

/// `n` extra entries parsed at `pos`.
pub open spec fn spec_parse_entries(b: Seq<u8>, pos: int, n: int) -> Option<
    (Seq<(Seq<char>, Seq<char>)>, int),
>
    decreases n,
{
    if n <= 0 {
        Some((seq![], pos))
    } else {
        match spec_dec_str(b, pos) {
            None => None,
            Some((k, p1)) => match spec_dec_str(b, p1) {
                None => None,
                Some((v, p2)) => match spec_parse_entries(b, p2, n - 1) {
                    None => None,
                    Some((rest, p3)) => Some((seq![(k, v)] + rest, p3)),
                },
            },
        }
    }
}

/// The metadata block parsed at `pos`.
pub open spec fn spec_parse_metadata(b: Seq<u8>, pos: int) -> Option<(MetadataV, int)> {
    match spec_dec_str(b, pos) {
        None => None,
        Some((ci, p1)) => match spec_dec16(b, p1) {
            None => None,
            Some((w, p2)) => match spec_dec16(b, p2) {
                None => None,
                Some((h, p3)) => match spec_dec64(b, p3) {
                    None => None,
                    Some((n, p4)) => match spec_parse_entries(b, p4, n as int) {
                        None => None,
                        Some((es, p5)) => Some(
                            (MetadataV { created_in: ci, width: w, height: h, extra: es }, p5),
                        ),
                    },
                },
            },
        },
    }
}

/// A whole buffer parsed as a header: the magic must open it, the delimiter
/// must close it, and nothing may follow.
pub open spec fn spec_parse_header(b: Seq<u8>) -> Option<HeaderV> {
    if b.len() < 9 || b.subrange(0, 9) != spec_magic() {
        None
    } else {
        match spec_dec16(b, 9) {
            None => None,
            Some((maj, p1)) => match spec_dec16(b, p1) {
                None => None,
                Some((min, p2)) => match spec_dec_str(b, p2) {
                    None => None,
                    Some((vm, p3)) => {
                        if p3 + 8 <= b.len() {
                            let reserved = b.subrange(p3, p3 + 8);
                            match spec_dec_bool(b, p3 + 8) {
                                None => None,
                                Some((alpha, p4)) => match spec_dec_bool(b, p4) {
                                    None => None,
                                    Some((varint, p5)) => match spec_dec_str(b, p5) {
                                        None => None,
                                        Some((ef, p6)) => match spec_parse_metadata(b, p6) {
                                            None => None,
                                            Some((md, p7)) => {
                                                if p7 + 6 == b.len() && b.subrange(p7, p7 + 6)
                                                    == spec_delim() {
                                                    Some(
                                                        HeaderV {
                                                            magic: spec_magic(),
                                                            version_major: maj,
                                                            version_minor: min,
                                                            version_metadata: vm,
                                                            reserved,
                                                            alpha,
                                                            varint,
                                                            encoding_format: ef,
                                                            metadata: md,
                                                            del: spec_delim(),
                                                        },
                                                    )
                                                } else {
                                                    None
                                                }
                                            },
                                        },
                                    },
                                },
                            }
                        } else {
                            None
                        }
                    },
                },
            },
        }
    }
}

// ---------- round-trip lemmas ----------

/// Every wire entry takes at least its two length prefixes.
proof fn lemma_ser_entries_len(es: Seq<(Seq<char>, Seq<char>)>)
    ensures
        spec_ser_entries(es).len() >= 16 * es.len(),
    decreases es.len(),
{
    lemma_auto_spec_u64_to_from_le_bytes();
    if es.len() > 0 {
        lemma_ser_entries_len(es.drop_first());
        assert(spec_enc_str(es[0].0).len() >= 8);
        assert(spec_enc_str(es[0].1).len() >= 8);
        assert(16 * es.len() == 16 + 16 * es.drop_first().len()) by (nonlinear_arith)
            requires
                es.len() > 0,
                es.drop_first().len() == es.len() - 1,
        ;
    }
}

/// Extracting a chunk of a buffer region that equals a known concatenation.
proof fn lemma_chunk(b: Seq<u8>, pos: int, whole: Seq<u8>, off: int, part: Seq<u8>)
    requires
        0 <= pos,
        pos + whole.len() <= b.len(),
        b.subrange(pos, pos + whole.len()) == whole,
        0 <= off,
        off + part.len() <= whole.len(),
        whole.subrange(off, off + part.len()) == part,
    ensures
        b.subrange(pos + off, pos + off + part.len()) == part,
{
    assert(b.subrange(pos + off, pos + off + part.len()) =~= part) by {
        assert forall|k: int| 0 <= k < part.len() implies b.subrange(
            pos + off,
            pos + off + part.len(),
        )[k] == part[k] by {
            assert(b.subrange(pos, pos + whole.len())[off + k] == whole[off + k]);
            assert(whole.subrange(off, off + part.len())[k] == whole[off + k]);
        }
    }
}

/// Parsing entries where they were written yields them back.
proof fn lemma_parse_entries_of_ser(b: Seq<u8>, pos: int, es: Seq<(Seq<char>, Seq<char>)>)
    requires
        0 <= pos,
        pos + spec_ser_entries(es).len() <= b.len(),
        b.len() < 0x4000_0000_0000_0000,
        b.subrange(pos, pos + spec_ser_entries(es).len()) == spec_ser_entries(es),
    ensures
        spec_parse_entries(b, pos, es.len() as int) == Some(
            (es, pos + spec_ser_entries(es).len()),
        ),
    decreases es.len(),
{
    if es.len() == 0 {
    } else {
        let whole = spec_ser_entries(es);
        let ck = spec_enc_str(es[0].0);
        let cv = spec_enc_str(es[0].1);
        let cr = spec_ser_entries(es.drop_first());
        assert(whole == ck + cv + cr);
        assert(whole.subrange(0, ck.len() as int) =~= ck);
        lemma_chunk(b, pos, whole, 0, ck);
        assert(encode_utf8(es[0].0).len() < 0x8000_0000_0000_0000);
        lemma_dec_str_of_enc(b, pos, es[0].0);
        let p1 = pos + ck.len() as int;
        assert(whole.subrange(ck.len() as int, ck.len() + cv.len() as int) =~= cv);
        lemma_chunk(b, pos, whole, ck.len() as int, cv);
        assert(encode_utf8(es[0].1).len() < 0x8000_0000_0000_0000);
        lemma_dec_str_of_enc(b, p1, es[0].1);
        let p2 = p1 + cv.len() as int;
        assert(whole.subrange(ck.len() + cv.len() as int, whole.len() as int) =~= cr);
        lemma_chunk(b, pos, whole, ck.len() + cv.len() as int, cr);
        lemma_parse_entries_of_ser(b, p2, es.drop_first());
        assert(seq![(es[0].0, es[0].1)] + es.drop_first() =~= es);
    }
}

/// Parsing a metadata block where one was written yields it back.
proof fn lemma_parse_metadata_of_ser(b: Seq<u8>, pos: int, m: MetadataV)
    requires
        0 <= pos,
        pos + spec_ser_metadata(m).len() <= b.len(),
        b.len() < 0x4000_0000_0000_0000,
        b.subrange(pos, pos + spec_ser_metadata(m).len()) == spec_ser_metadata(m),
    ensures
        spec_parse_metadata(b, pos) == Some((m, pos + spec_ser_metadata(m).len())),
{
    lemma_auto_spec_u16_to_from_le_bytes();
    let whole = spec_ser_metadata(m);
    let c0 = spec_enc_str(m.created_in);
    let c1 = spec_u16_to_le_bytes(m.width);
    let c2 = spec_u16_to_le_bytes(m.height);
    let c3 = spec_u64_to_le_bytes(m.extra.len() as u64);
    let c4 = spec_ser_entries(m.extra);
    assert(c1.len() == 2 && c2.len() == 2);
    assert(c3.len() == 8) by {
        lemma_auto_spec_u64_to_from_le_bytes();
    }
    assert(whole == c0 + c1 + c2 + c3 + c4);
    let o1 = c0.len() as int;
    let o2 = o1 + 2;
    let o3 = o2 + 2;
    let o4 = o3 + 8;
    assert(whole.subrange(0, o1) =~= c0);
    lemma_chunk(b, pos, whole, 0, c0);
    assert(encode_utf8(m.created_in).len() < 0x8000_0000_0000_0000);
    lemma_dec_str_of_enc(b, pos, m.created_in);
    assert(whole.subrange(o1, o2) =~= c1);
    lemma_chunk(b, pos, whole, o1, c1);
    lemma_dec16_of_enc(b, pos + o1, m.width);
    assert(whole.subrange(o2, o3) =~= c2);
    lemma_chunk(b, pos, whole, o2, c2);
    lemma_dec16_of_enc(b, pos + o2, m.height);
    assert(whole.subrange(o3, o4) =~= c3);
    lemma_chunk(b, pos, whole, o3, c3);
    lemma_dec64_of_enc(b, pos + o3, m.extra.len() as u64);
    assert(whole.subrange(o4, whole.len() as int) =~= c4);
    lemma_chunk(b, pos, whole, o4, c4);
    lemma_parse_entries_of_ser(b, pos + o4, m.extra);
    assert(m.extra.len() < 0x1_0000_0000_0000_0000) by {
        lemma_ser_entries_len(m.extra);
    }
    assert((m.extra.len() as u64) as int == m.extra.len() as int);
}

/// Splitting a concatenation at its seam yields the two halves.
proof fn lemma_split(x: Seq<u8>, y: Seq<u8>)
    ensures
        (x + y).subrange(0, x.len() as int) == x,
        (x + y).subrange(x.len() as int, (x + y).len() as int) == y,
{
    assert((x + y).subrange(0, x.len() as int) =~= x);
    assert((x + y).subrange(x.len() as int, (x + y).len() as int) =~= y);
}

/// A chunk of a known prefix of a buffer is a chunk of the buffer.
proof fn lemma_chunk_of_prefix(b: Seq<u8>, pre: Seq<u8>, off: int, part: Seq<u8>)
    requires
        pre.len() <= b.len(),
        b.subrange(0, pre.len() as int) == pre,
        0 <= off,
        off + part.len() <= pre.len(),
        pre.subrange(off, off + part.len()) == part,
    ensures
        b.subrange(off, off + part.len()) == part,
{
    lemma_chunk(b, 0, pre, off, part);
}

/// Parsing a serialized header yields it back: the header codec round trip.
#[verifier::rlimit(60)]
pub proof fn lemma_parse_header_of_ser(h: HeaderV)
    requires
        h.magic == spec_magic(),
        h.del == spec_delim(),
        h.reserved.len() == 8,
        spec_ser_header(h).len() < 0x4000_0000_0000_0000,
    ensures
        spec_parse_header(spec_ser_header(h)) == Some(h),
{
    lemma_auto_spec_u16_to_from_le_bytes();
    let b = spec_ser_header(h);
    let c_maj = spec_u16_to_le_bytes(h.version_major);
    let c_min = spec_u16_to_le_bytes(h.version_minor);
    let c_vm = spec_enc_str(h.version_metadata);
    let c_ef = spec_enc_str(h.encoding_format);
    let c_md = spec_ser_metadata(h.metadata);
    let ba = seq![
        if h.alpha {
            1u8
        } else {
            0u8
        },
    ];
    let bv = seq![
        if h.varint {
            1u8
        } else {
            0u8
        },
    ];
    // peel the concatenation from the right
    let s1 = h.magic + c_maj;
    let s2 = s1 + c_min;
    let s3 = s2 + c_vm;
    let s4 = s3 + h.reserved;
    let s5 = s4 + ba;
    let s6 = s5 + bv;
    let s7 = s6 + c_ef;
    let s8 = s7 + c_md;
    assert(b == s8 + h.del);
    lemma_split(s8, h.del);
    assert(b.subrange(0, s8.len() as int) == s8);
    lemma_split(s7, c_md);
    lemma_chunk_of_prefix(b, s8, s7.len() as int, c_md);
    assert(b.subrange(0, s7.len() as int) == s7) by {
        lemma_chunk_of_prefix(b, s8, 0, s7);
    }
    lemma_split(s6, c_ef);
    lemma_chunk_of_prefix(b, s7, s6.len() as int, c_ef);
    assert(b.subrange(0, s6.len() as int) == s6) by {
        lemma_chunk_of_prefix(b, s7, 0, s6);
    }
    lemma_split(s5, bv);
    lemma_chunk_of_prefix(b, s6, s5.len() as int, bv);
    assert(b.subrange(0, s5.len() as int) == s5) by {
        lemma_chunk_of_prefix(b, s6, 0, s5);
    }
    lemma_split(s4, ba);
    lemma_chunk_of_prefix(b, s5, s4.len() as int, ba);
    assert(b.subrange(0, s4.len() as int) == s4) by {
        lemma_chunk_of_prefix(b, s5, 0, s4);
    }
    lemma_split(s3, h.reserved);
    lemma_chunk_of_prefix(b, s4, s3.len() as int, h.reserved);
    assert(b.subrange(0, s3.len() as int) == s3) by {
        lemma_chunk_of_prefix(b, s4, 0, s3);
    }
    lemma_split(s2, c_vm);
    lemma_chunk_of_prefix(b, s3, s2.len() as int, c_vm);
    assert(b.subrange(0, s2.len() as int) == s2) by {
        lemma_chunk_of_prefix(b, s3, 0, s2);
    }
    lemma_split(s1, c_min);
    lemma_chunk_of_prefix(b, s2, s1.len() as int, c_min);
    assert(b.subrange(0, s1.len() as int) == s1) by {
        lemma_chunk_of_prefix(b, s2, 0, s1);
    }
    lemma_split(h.magic, c_maj);
    lemma_chunk_of_prefix(b, s1, 9, c_maj);
    assert(b.subrange(0, 9) == h.magic) by {
        lemma_chunk_of_prefix(b, s1, 0, h.magic);
    }
    // now read the fields back in order
    let o3 = 13int;
    let o4 = o3 + c_vm.len() as int;
    let o5 = o4 + 8;
    let o6 = o5 + 1;
    let o7 = o6 + 1;
    let o8 = o7 + c_ef.len() as int;
    let o9 = o8 + c_md.len() as int;
    assert(s1.len() == 11 && s2.len() == 13 && s3.len() == o4 && s4.len() == o5 && s5.len() == o6
        && s6.len() == o7 && s7.len() == o8 && s8.len() == o9 && b.len() == o9 + 6);
    lemma_dec16_of_enc(b, 9, h.version_major);
    lemma_dec16_of_enc(b, 11, h.version_minor);
    assert(encode_utf8(h.version_metadata).len() < 0x8000_0000_0000_0000);
    lemma_dec_str_of_enc(b, o3, h.version_metadata);
    assert(b.subrange(o4, o5) == h.reserved);
    assert(b[o5] == ba[0] && b[o6] == bv[0]) by {
        assert(b.subrange(o5, o6)[0] == ba[0]);
        assert(b.subrange(o6, o7)[0] == bv[0]);
    }
    assert(spec_dec_bool(b, o5) == Some((h.alpha, o6)));
    assert(spec_dec_bool(b, o6) == Some((h.varint, o7)));
    assert(encode_utf8(h.encoding_format).len() < 0x8000_0000_0000_0000);
    lemma_dec_str_of_enc(b, o7, h.encoding_format);
    lemma_parse_metadata_of_ser(b, o8, h.metadata);
    assert(b.subrange(o9, o9 + 6) == h.del);
    assert(spec_parse_header(b) == Some(h));
}

// ---------- building ----------

/// A string clipped to the 255 bytes a header field may carry.
pub open spec fn spec_clip_str(s: Seq<char>) -> Seq<char> {
    if s.len() > 255 {
        s.subrange(0, 255)
    } else {
        s
    }
}

/// The extra entries clipped to the 512 a header may carry.
pub open spec fn spec_clip_entries(es: Seq<(Seq<char>, Seq<char>)>) -> Seq<(Seq<char>, Seq<char>)> {
    if es.len() > 512 {
        es.subrange(0, 512)
    } else {
        es
    }
}

/// When building a header succeeds: a named, ASCII format and ASCII origin.
pub open spec fn spec_build_ok(ef: Seq<char>, m: MetadataV) -> bool {
    &&& ef.len() > 0
    &&& vstd::utf8::is_ascii_chars(ef)
    &&& vstd::utf8::is_ascii_chars(m.created_in)
}

/// The header that [`Header::new`] builds: version constants, zeroed reserved
/// bytes, and the over-long fields silently clipped.
pub open spec fn spec_build_header(
    ef: Seq<char>,
    m: MetadataV,
    alpha: bool,
    varint: bool,
) -> HeaderV {
    HeaderV {
        magic: spec_magic(),
        version_major: crate::VERSION_MAJOR,
        version_minor: crate::VERSION_MINOR,
        version_metadata: "experimental"@,
        reserved: spec_reserved(),
        alpha,
        varint,
        encoding_format: spec_clip_str(ef),
        metadata: MetadataV {
            created_in: spec_clip_str(m.created_in),
            width: m.width,
            height: m.height,
            extra: spec_clip_entries(m.extra),
        },
        del: spec_delim(),
    }
}

/// Clips an ASCII string to at most 255 bytes.
fn clip_string(s: String) -> (r: String)
    requires
        vstd::utf8::is_ascii_chars(s@),
    ensures
        r@ == spec_clip_str(s@),
{
    broadcast use vstd::string::is_ascii_spec_bytes;

    let st = s.as_str();
    let n = st.as_bytes().len();
    proof {
        assert(vstd::string::is_ascii(st));
        vstd::string::is_ascii_spec_bytes(st);
        assert(n == st@.len());
    }
    if n > 255 {
        st.substring_ascii(0, 255).to_owned()
    } else {
        s
    }
}

/// Whether the stream opens with the nine magic bytes.
pub fn magic_ok(b: &[u8]) -> (r: bool)
    requires
        b@.len() >= 9,
    ensures
        r == (b@.subrange(0, 9) == spec_magic()),
{
    let ok = *slice_index_get(b, 0) == 0x00 && *slice_index_get(b, 1) == 0x4E && *slice_index_get(
        b,
        2,
    ) == 0x00 && *slice_index_get(b, 3) == 0x50 && *slice_index_get(b, 4) == 0x00
        && *slice_index_get(b, 5) == 0x4E && *slice_index_get(b, 6) == 0x00 && *slice_index_get(
        b,
        7,
    ) == 0x47 && *slice_index_get(b, 8) == 0x00;
    proof {
        if ok {
            assert(b@.subrange(0, 9) =~= spec_magic());
        } else {
            if b@.subrange(0, 9) == spec_magic() {
                assert(b@[0] == b@.subrange(0, 9)[0]);
                assert(b@[1] == b@.subrange(0, 9)[1]);
                assert(b@[2] == b@.subrange(0, 9)[2]);
                assert(b@[3] == b@.subrange(0, 9)[3]);
                assert(b@[4] == b@.subrange(0, 9)[4]);
                assert(b@[5] == b@.subrange(0, 9)[5]);
                assert(b@[6] == b@.subrange(0, 9)[6]);
                assert(b@[7] == b@.subrange(0, 9)[7]);
                assert(b@[8] == b@.subrange(0, 9)[8]);
            }
        }
    }
    ok
}

impl Header {
    /// Builds the header for a fresh encode: rejects an empty or non-ASCII
    /// strategy name and a non-ASCII origin string, silently clips over-long
    /// fields, and stamps in this encoder's version constants.
    pub fn new(encoding_format: String, metadata: Metadata, alpha: bool, varint: bool) -> (r:
        Result<Header, NPNGError>)
        ensures
            spec_build_ok(encoding_format@, metadata@) ==> (r matches Ok(h) && h@
                == spec_build_header(encoding_format@, metadata@, alpha, varint)),
            !spec_build_ok(encoding_format@, metadata@) ==> (r matches Err(e) && e matches
                NPNGError::Error(_)),
    {
        if encoding_format.as_str().is_empty() {
            return Err(NPNGError::Error(String::from_str("encoding format is empty")));
        }
        if !encoding_format.is_ascii() {
            return Err(NPNGError::Error(String::from_str("encoding format must be ascii")));
        }
        if !metadata.created_in.is_ascii() {
            return Err(NPNGError::Error(String::from_str("metadata.created_in must be ascii")));
        }
        let ghost efv = encoding_format@;
        let ghost mv = metadata@;
        let encoding_format = clip_string(encoding_format);
        let Metadata { created_in, width, height, extra } = metadata;
        let created_in = clip_string(created_in);
        let mut extra = extra;
        if extra.len() > 512 {
            extra.truncate(512);
        }
        let metadata = Metadata { created_in, width, height, extra };
        proof {
            assert(metadata@.extra =~= spec_clip_entries(mv.extra));
        }
        let h = Header {
            magic: [0x00, 0x4E, 0x00, 0x50, 0x00, 0x4E, 0x00, 0x47, 0x00],
            version_major: crate::VERSION_MAJOR,
            version_minor: crate::VERSION_MINOR,
            version_metadata: String::from_str("experimental"),
            reserved: [0, 0, 0, 0, 0, 0, 0, 0],
            alpha,
            varint,
            encoding_format,
            metadata,
            del: [0xFF, 0xFF, 0xFF, 0xFF, 0xFF, 0xFF],
        };
        proof {
            assert(h.magic@ =~= spec_magic());
            assert(h.reserved@ =~= spec_reserved());
            assert(h.del@ =~= spec_delim());
        }
        Ok(h)
    }

    /// Serializes the header, delimiter included; mirrors [`spec_ser_header`].
    pub fn to_bytes(&self) -> (r: Vec<u8>)
        ensures
            r@ == spec_ser_header(self@),
    {
        let mut out: Vec<u8> = Vec::new();
        crate::wire::write_raw(&mut out, self.magic.as_slice());
        write_u16(&mut out, self.version_major);
        write_u16(&mut out, self.version_minor);
        write_str(&mut out, self.version_metadata.as_str());
        crate::wire::write_raw(&mut out, self.reserved.as_slice());
        write_bool(&mut out, self.alpha);
        write_bool(&mut out, self.varint);
        write_str(&mut out, self.encoding_format.as_str());
        write_metadata(&mut out, &self.metadata);
        crate::wire::write_raw(&mut out, self.del.as_slice());
        proof {
            assert(out@ =~= spec_ser_header(self@));
        }
        out
    }

    /// Parses a whole buffer as a header; mirrors [`spec_parse_header`].
    pub fn parse(b: &[u8]) -> (r: Result<Header, NPNGError>)
        ensures
            spec_parse_header(b@) matches Some(hv) ==> (r matches Ok(h) && h@ == hv),
            spec_parse_header(b@) is None ==> (r matches Err(e) && e matches
                NPNGError::InvalidHeader(_)),
    {
        if b.len() < 9 {
            return Err(NPNGError::InvalidHeader(String::from_str("undecodable header")));
        }
        if !magic_ok(b) {
            return Err(NPNGError::InvalidHeader(String::from_str("invalid magic bytes")));
        }
        let (version_major, p1) = match read_u16(b, 9) {
            Some(x) => x,
            None => {
                return Err(NPNGError::InvalidHeader(String::from_str("undecodable header")));
            },
        };
        let (version_minor, p2) = match read_u16(b, p1) {
            Some(x) => x,
            None => {
                return Err(NPNGError::InvalidHeader(String::from_str("undecodable header")));
            },
        };
        let (version_metadata, p3) = match read_string(b, p2) {
            Some(x) => x,
            None => {
                return Err(NPNGError::InvalidHeader(String::from_str("undecodable header")));
            },
        };
        if !(p3 <= b.len() && b.len() - p3 >= 8) {
            return Err(NPNGError::InvalidHeader(String::from_str("undecodable header")));
        }
        let reserved: [u8; 8] = [
            *slice_index_get(b, p3),
            *slice_index_get(b, p3 + 1),
            *slice_index_get(b, p3 + 2),
            *slice_index_get(b, p3 + 3),
            *slice_index_get(b, p3 + 4),
            *slice_index_get(b, p3 + 5),
            *slice_index_get(b, p3 + 6),
            *slice_index_get(b, p3 + 7),
        ];
        proof {
            assert(reserved@ =~= b@.subrange(p3 as int, p3 + 8));
        }
        let (alpha, p4) = match read_bool(b, p3 + 8) {
            Some(x) => x,
            None => {
                return Err(NPNGError::InvalidHeader(String::from_str("undecodable header")));
            },
        };
        let (varint, p5) = match read_bool(b, p4) {
            Some(x) => x,
            None => {
                return Err(NPNGError::InvalidHeader(String::from_str("undecodable header")));
            },
        };
        let (encoding_format, p6) = match read_string(b, p5) {
            Some(x) => x,
            None => {
                return Err(NPNGError::InvalidHeader(String::from_str("undecodable header")));
            },
        };
        let (metadata, p7) = match parse_metadata(b, p6) {
            Some(x) => x,
            None => {
                return Err(NPNGError::InvalidHeader(String::from_str("undecodable header")));
            },
        };
        if !(p7 <= b.len() && b.len() - p7 == 6) {
            return Err(NPNGError::InvalidHeader(String::from_str("undecodable header")));
        }
        let del_ok = *slice_index_get(b, p7) == 0xFF && *slice_index_get(b, p7 + 1) == 0xFF
            && *slice_index_get(b, p7 + 2) == 0xFF && *slice_index_get(b, p7 + 3) == 0xFF
            && *slice_index_get(b, p7 + 4) == 0xFF && *slice_index_get(b, p7 + 5) == 0xFF;
        proof {
            let d = b@.subrange(p7 as int, p7 + 6);
            if del_ok {
                assert(d =~= spec_delim());
            } else {
                assert(d != spec_delim()) by {
                    if d == spec_delim() {
                        assert(b@[p7 as int] == d[0]);
                        assert(b@[p7 + 1] == d[1]);
                        assert(b@[p7 + 2] == d[2]);
                        assert(b@[p7 + 3] == d[3]);
                        assert(b@[p7 + 4] == d[4]);
                        assert(b@[p7 + 5] == d[5]);
                    }
                }
            }
        }
        if !del_ok {
            return Err(NPNGError::InvalidHeader(String::from_str("undecodable header")));
        }
        Ok(
            Header {
                magic: [0x00, 0x4E, 0x00, 0x50, 0x00, 0x4E, 0x00, 0x47, 0x00],
                version_major,
                version_minor,
                version_metadata,
                reserved,
                alpha,
                varint,
                encoding_format,
                metadata,
                del: [0xFF, 0xFF, 0xFF, 0xFF, 0xFF, 0xFF],
            },
        )
    }
}

/// Appends the metadata block; mirrors [`spec_ser_metadata`].
pub fn write_metadata(out: &mut Vec<u8>, m: &Metadata)
    ensures
        final(out)@ == old(out)@ + spec_ser_metadata(m@),
{
    write_str(out, m.created_in.as_str());
    write_u16(out, m.width);
    write_u16(out, m.height);
    write_u64(out, m.extra.len() as u64);
    let ghost base = out@;
    let mut i: usize = 0;
    while i < m.extra.len()
        invariant
            i <= m.extra@.len(),
            out@ == base + spec_ser_entries(m@.extra.subrange(0, i as int)),
        decreases m.extra@.len() - i,
    {
        let ghost pre = m@.extra.subrange(0, i as int);
        write_str(out, m.extra[i].0.as_str());
        write_str(out, m.extra[i].1.as_str());
        proof {
            let post = m@.extra.subrange(0, i + 1 as int);
            lemma_ser_entries_snoc(pre, m@.extra[i as int]);
            assert(post =~= pre.push(m@.extra[i as int]));
        }
        i = i + 1;
    }
    proof {
        assert(m@.extra.subrange(0, m.extra@.len() as int) =~= m@.extra);
        assert(out@ == old(out)@ + spec_ser_metadata(m@));
    }
}

/// Serializing one more entry appends its wire form.
proof fn lemma_ser_entries_snoc(es: Seq<(Seq<char>, Seq<char>)>, e: (Seq<char>, Seq<char>))
    ensures
        spec_ser_entries(es.push(e)) == spec_ser_entries(es) + spec_enc_str(e.0) + spec_enc_str(
            e.1,
        ),
    decreases es.len(),
{
    let all = es.push(e);
    if es.len() == 0 {
        assert(all[0] == e);
        assert(all.drop_first() =~= Seq::<(Seq<char>, Seq<char>)>::empty());
        assert(spec_ser_entries(all.drop_first()) == Seq::<u8>::empty());
        assert(spec_ser_entries(all) == spec_enc_str(e.0) + spec_enc_str(e.1) + Seq::<u8>::empty());
        assert(spec_enc_str(e.0) + spec_enc_str(e.1) + Seq::<u8>::empty() =~= spec_enc_str(e.0)
            + spec_enc_str(e.1));
        assert(spec_ser_entries(es) + spec_enc_str(e.0) + spec_enc_str(e.1) =~= spec_enc_str(e.0)
            + spec_enc_str(e.1));
    } else {
        assert(all[0] == es[0]);
        assert(all.drop_first() =~= es.drop_first().push(e));
        lemma_ser_entries_snoc(es.drop_first(), e);
        assert(spec_ser_entries(all) =~= spec_ser_entries(es) + spec_enc_str(e.0) + spec_enc_str(
            e.1,
        ));
    }
}

/// Parses the metadata block; mirrors [`spec_parse_metadata`].
#[verifier::loop_isolation(false)]
pub fn parse_metadata(b: &[u8], pos: usize) -> (r: Option<(Metadata, usize)>)
    ensures
        r matches Some(x) ==> spec_parse_metadata(b@, pos as int) == Some((x.0@, x.1 as int)),
        r is None ==> spec_parse_metadata(b@, pos as int) is None,
{
    let (created_in, p1) = match read_string(b, pos) {
        Some(x) => x,
        None => {
            return None;
        },
    };
    let (width, p2) = match read_u16(b, p1) {
        Some(x) => x,
        None => {
            return None;
        },
    };
    let (height, p3) = match read_u16(b, p2) {
        Some(x) => x,
        None => {
            return None;
        },
    };
    let (n, p4) = match read_u64(b, p3) {
        Some(x) => x,
        None => {
            return None;
        },
    };
    let mut extra: Vec<(String, String)> = Vec::new();
    let mut cur = p4;
    let mut k: u64 = 0;
    proof {
        let done0 = Seq::new(extra@.len(), |i: int| (extra@[i].0@, extra@[i].1@));
        assert(done0.len() == 0);
        match spec_parse_entries(b@, p4 as int, n as int) {
            None => {},
            Some(rp) => {
                assert(done0 + rp.0 =~= rp.0);
            },
        }
    }
    while k < n
        invariant
            0 <= k <= n,
            extra@.len() == k as int,
            ({
                let done = Seq::new(extra@.len(), |i: int| (extra@[i].0@, extra@[i].1@));
                match spec_parse_entries(b@, cur as int, n - k) {
                    None => spec_parse_entries(b@, p4 as int, n as int) is None,
                    Some((rest, p)) => spec_parse_entries(b@, p4 as int, n as int) == Some(
                        (done + rest, p),
                    ),
                }
            }),
        decreases n - k,
    {
        let ghost done_pre = Seq::new(extra@.len(), |i: int| (extra@[i].0@, extra@[i].1@));
        let (key, q1) = match read_string(b, cur) {
            Some(x) => x,
            None => {
                return None;
            },
        };
        let (val, q2) = match read_string(b, q1) {
            Some(x) => x,
            None => {
                return None;
            },
        };
        let ghost kv = (key@, val@);
        extra.push((key, val));
        proof {
            let done_post = Seq::new(extra@.len(), |i: int| (extra@[i].0@, extra@[i].1@));
            assert(done_post =~= done_pre.push(kv));
            match spec_parse_entries(b@, q2 as int, n - k - 1) {
                None => {},
                Some((rest2, p)) => {
                    assert(done_post + rest2 =~= done_pre + (seq![kv] + rest2));
                },
            }
        }
        cur = q2;
        k = k + 1;
    }
    let metadata = Metadata { created_in, width, height, extra };
    proof {
        let done = Seq::new(
            metadata.extra@.len(),
            |i: int| (metadata.extra@[i].0@, metadata.extra@[i].1@),
        );
        assert(done + Seq::<(Seq<char>, Seq<char>)>::empty() =~= done);
        assert(spec_parse_entries(b@, p4 as int, n as int) == Some((done, cur as int)));
        assert(metadata@.extra =~= done);
        assert(spec_parse_metadata(b@, pos as int) == Some((metadata@, cur as int)));
    }
    Some((metadata, cur))
}

} // verus!
