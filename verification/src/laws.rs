//! The format's laws: what holds of every encode and decode, proved once
//! and for all over the stream model.
use crate::checksum::{crc32_of, spec_parse_footer, spec_ser_footer};
use crate::coding::{
    lemma_first_dup_complete, spec_dup_at, spec_first_dup, spec_has_dup, spec_max_x, spec_max_y,
    spec_wrap_inc,
};
use crate::compression::{
    lemma_xor_involution, spec_compressed_ok, spec_decompress, spec_key_arg, spec_lookup_or_plain,
    spec_xor_bytes, CompressMapV, Strategy,
};
use crate::header::{
    lemma_parse_header_of_ser, spec_build_header, spec_build_ok, spec_clip_str, spec_delim,
    spec_magic, spec_parse_header, spec_reserved, spec_ser_header, HeaderV,
};
use crate::record::{
    is_dropped, lemma_body_round_trip, spec_decode_body, spec_encode_pixels, spec_visible,
    spec_wire_pixel,
};
use crate::types::{
    spec_parse_version_name, spec_lower_bytes, EncoderVersion, MetadataV, Pixel, VersionMetadata,
    MAX_PIXELS,
};
use crate::wire::{lemma_find_delim_extend, spec_find_delim};
use crate::{
    spec_decode_stream, spec_derived_metadata, spec_encode_header, spec_frame_ok, spec_stream,
    Config, DecodeFailure, VERSION_MAJOR, VERSION_MINOR,
};
use vstd::bytes::{lemma_auto_spec_u32_to_from_le_bytes, spec_u32_from_le_bytes};
use vstd::prelude::*;
use vstd::utf8::{encode_utf8, is_ascii_chars, is_ascii_chars_encode_utf8};

verus! {

// ---------- what survives the wire ----------

/// Visible pixels never outnumber the originals, and each one is the wire
/// image of some original that was not dropped.
proof fn lemma_visible_membership(ps: Seq<Pixel>, a: bool)
    ensures
        spec_visible(ps, a).len() <= ps.len(),
        forall|k: int|
            0 <= k < spec_visible(ps, a).len() ==> exists|j: int|
                0 <= j < ps.len() && !is_dropped(ps[j], a) && #[trigger] spec_visible(ps, a)[k]
                    == spec_wire_pixel(ps[j], a),
    decreases ps.len(),
{
    if ps.len() == 0 {
    } else {
        lemma_visible_membership(ps.drop_first(), a);
        let vis = spec_visible(ps, a);
        let vr = spec_visible(ps.drop_first(), a);
        if is_dropped(ps[0], a) {
            assert forall|k: int| 0 <= k < vis.len() implies exists|j: int|
                0 <= j < ps.len() && !is_dropped(ps[j], a) && #[trigger] vis[k]
                    == spec_wire_pixel(ps[j], a) by {
                let j0 = choose|j0: int|
                    0 <= j0 < ps.drop_first().len() && !is_dropped(ps.drop_first()[j0], a)
                        && vr[k] == spec_wire_pixel(ps.drop_first()[j0], a);
                assert(ps.drop_first()[j0] == ps[j0 + 1]);
                assert(vis[k] == spec_wire_pixel(ps[j0 + 1], a));
            }
        } else {
            assert forall|k: int| 0 <= k < vis.len() implies exists|j: int|
                0 <= j < ps.len() && !is_dropped(ps[j], a) && #[trigger] vis[k]
                    == spec_wire_pixel(ps[j], a) by {
                if k == 0 {
                    assert(vis[0] == spec_wire_pixel(ps[0], a));
                } else {
                    let j0 = choose|j0: int|
                        0 <= j0 < ps.drop_first().len() && !is_dropped(ps.drop_first()[j0], a)
                            && vr[k - 1] == spec_wire_pixel(ps.drop_first()[j0], a);
                    assert(ps.drop_first()[j0] == ps[j0 + 1]);
                    assert(vis[k] == vr[k - 1]);
                }
            }
        }
    }
}

/// Dropping the first pixel cannot create a duplicate.
proof fn lemma_drop_first_no_dup(ps: Seq<Pixel>)
    requires
        ps.len() > 0,
        !spec_has_dup(ps),
    ensures
        !spec_has_dup(ps.drop_first()),
{
    let rest = ps.drop_first();
    if spec_has_dup(rest) {
        let j = choose|j: int| 0 <= j < rest.len() && spec_dup_at(rest, j);
        let i = choose|i: int| 0 <= i < j && crate::coding::spec_coord(rest[i]) == crate::coding::spec_coord(rest[j]);
        assert(rest[i] == ps[i + 1] && rest[j] == ps[j + 1]);
        assert(spec_dup_at(ps, j + 1));
    }
}

/// A pixel list with pairwise distinct coordinates decodes to one too: the
/// drop and the alpha promotion leave coordinates untouched.
pub proof fn lemma_visible_no_dup(ps: Seq<Pixel>, a: bool)
    requires
        !spec_has_dup(ps),
    ensures
        !spec_has_dup(spec_visible(ps, a)),
    decreases ps.len(),
{
    if ps.len() == 0 {
    } else {
        lemma_drop_first_no_dup(ps);
        lemma_visible_no_dup(ps.drop_first(), a);
        lemma_visible_membership(ps.drop_first(), a);
        let vis = spec_visible(ps, a);
        let vr = spec_visible(ps.drop_first(), a);
        if is_dropped(ps[0], a) {
        } else {
            if spec_has_dup(vis) {
                let j = choose|j: int| 0 <= j < vis.len() && spec_dup_at(vis, j);
                let i = choose|i: int|
                    0 <= i < j && crate::coding::spec_coord(vis[i]) == crate::coding::spec_coord(
                        vis[j],
                    );
                assert(j >= 1);
                assert(vis[j] == vr[j - 1]);
                if i == 0 {
                    // the head collides with a survivor of the rest
                    let j0 = choose|j0: int|
                        0 <= j0 < ps.drop_first().len() && !is_dropped(ps.drop_first()[j0], a)
                            && vr[j - 1] == spec_wire_pixel(ps.drop_first()[j0], a);
                    assert(ps.drop_first()[j0] == ps[j0 + 1]);
                    assert(crate::coding::spec_coord(vis[0]) == crate::coding::spec_coord(ps[0]));
                    assert(crate::coding::spec_coord(vis[j]) == crate::coding::spec_coord(
                        ps[j0 + 1],
                    ));
                    assert(spec_dup_at(ps, j0 + 1));
                } else {
                    assert(vis[i] == vr[i - 1]);
                    assert(spec_dup_at(vr, j - 1));
                }
            }
        }
    }
}

// ---------- the round trip ----------

/// The canonical version string parses back to the tag the encoder stamps.
proof fn lemma_version_name_round_trip()
    ensures
        spec_parse_version_name("experimental"@) == Some(VersionMetadata::Experimental),
{
    reveal_strlit("experimental");
    let s = "experimental"@;
    assert(is_ascii_chars(s));
    is_ascii_chars_encode_utf8(s);
    let bs = encode_utf8(s);
    assert(spec_lower_bytes(bs) =~= bs) by {
        assert forall|i: int| 0 <= i < bs.len() implies spec_lower_bytes(bs)[i] == bs[i] by {
            assert(bs[i] == s[i] as u8);
            assert(!(65 <= s[i] as u8 <= 90));
        }
    }
}

/// How an assembled stream comes apart again: the footer, checksum span,
/// magic, delimiter position and header all read back as written.
#[verifier::rlimit(60)]
proof fn lemma_stream_framing(h: HeaderV, c: Seq<u8>)
    requires
        h.magic == spec_magic(),
        h.del == spec_delim(),
        h.reserved.len() == 8,
        spec_ser_header(h).len() <= 10000,
        spec_frame_ok(spec_ser_header(h)),
    ensures
        ({
            let hb = spec_ser_header(h);
            let out = spec_stream(hb, c);
            &&& out.len() == hb.len() + c.len() + 20
            &&& hb.len() >= 15
            &&& spec_parse_footer(out) == Some(crc32_of(hb + c))
            &&& out.subrange(0, out.len() - 20) == hb + c
            &&& out.subrange(0, 9) == spec_magic()
            &&& spec_find_delim(out) == Some(hb.len() - 6)
            &&& out.subrange(0, hb.len() as int) == hb
            &&& out.subrange(hb.len() as int, out.len() - 20) == c
            &&& spec_parse_header(hb) == Some(h)
        }),
{
    let hb = spec_ser_header(h);
    let body_of = hb + c;
    let crc = crc32_of(body_of);
    let footer = spec_ser_footer(crc);
    let out = spec_stream(hb, c);
    assert(hb.len() >= 15) by {
        assert(h.magic.len() == 9 && h.del.len() == 6);
    }
    assert(footer.len() == 20) by {
        lemma_auto_spec_u32_to_from_le_bytes();
    }
    assert(out =~= body_of + footer);
    crate::checksum::lemma_parse_footer_of_ser(body_of, crc);
    assert(spec_parse_footer(out) == spec_parse_footer(body_of + footer));
    assert(out.subrange(0, out.len() - 20) =~= body_of);
    assert(out.subrange(0, 9) =~= spec_magic()) by {
        assert forall|i: int| 0 <= i < 9 implies out[i] == spec_magic()[i] by {
            assert(hb[i] == h.magic[i]);
        }
    }
    lemma_find_delim_extend(hb, c + footer);
    assert(hb + (c + footer) =~= out);
    assert(spec_find_delim(out) == spec_find_delim(hb + (c + footer)));
    assert(out.subrange(0, hb.len() as int) =~= hb);
    assert(out.subrange(hb.len() as int, out.len() - 20) =~= c);
    lemma_parse_header_of_ser(h);
}

/// ROUND TRIP. A stream the encoder assembles decodes, against any registry
/// that knows the compression strategy under the header's name, to exactly
/// the visible pixels — the originals, less the fully transparent ones when
/// alpha is stored, with alpha forced opaque when it is not — and to the
/// metadata the header carried, its dimensions rederived when asked.
///
/// The premises are the encoder's own success conditions: the pixel count
/// and header size within their format bounds, pairwise distinct
/// coordinates, a well-formed build, a cleanly framing header, and a body
/// that the strategy can give back (the XOR cipher needs its key, and a
/// zero key cannot travel in the level field).
#[verifier::rlimit(100)]
pub proof fn lemma_stream_round_trip(
    ps: Seq<Pixel>,
    md: MetadataV,
    config: Config,
    ecm: CompressMapV,
    dcm: CompressMapV,
    c: Seq<u8>,
    check_image_size: bool,
    ignore_checksum: bool,
)
    requires
        ps.len() <= MAX_PIXELS,
        !spec_has_dup(ps),
        spec_build_ok(ecm.compressor_name, spec_derived_metadata(md, ps)),
        spec_compressed_ok(
            ecm.compressor,
            ecm.level,
            spec_encode_pixels(ps, config.save_alpha, config.varint),
            c,
        ),
        spec_lookup_or_plain(
            dcm.decompressors,
            spec_encode_header(ecm, md, ps, config).encoding_format,
        ) == ecm.compressor,
        ecm.compressor == Strategy::Xor ==> dcm.level == ecm.level && ecm.level > 0,
        spec_ser_header(spec_encode_header(ecm, md, ps, config)).len() <= 10000,
        spec_frame_ok(spec_ser_header(spec_encode_header(ecm, md, ps, config))),
    ensures
        ({
            let h = spec_encode_header(ecm, md, ps, config);
            let hb = spec_ser_header(h);
            let vis = spec_visible(ps, config.save_alpha);
            spec_decode_stream(
                spec_stream(hb, c),
                dcm,
                check_image_size,
                ignore_checksum,
                true,
            ) == Ok::<_, DecodeFailure>(
                spec_img_of(
                    vis,
                    if check_image_size {
                        MetadataV {
                            created_in: h.metadata.created_in,
                            width: spec_wrap_inc(spec_max_x(vis)),
                            height: spec_wrap_inc(spec_max_y(vis)),
                            extra: h.metadata.extra,
                        }
                    } else {
                        h.metadata
                    },
                ),
            )
        }),
{
    let a = config.save_alpha;
    let v = config.varint;
    let h = spec_encode_header(ecm, md, ps, config);
    let hb = spec_ser_header(h);
    let body = spec_encode_pixels(ps, a, v);
    let out = spec_stream(hb, c);
    // the stream comes apart as written
    assert(h.magic == spec_magic() && h.del == spec_delim() && h.reserved.len() == 8);
    lemma_stream_framing(h, c);
    let end = hb.len() as int;
    assert(spec_parse_header(out.subrange(0, end)) == Some(h));
    // the version string is the canonical one
    lemma_version_name_round_trip();
    assert(h.version_metadata == "experimental"@);
    assert(h.version_major == VERSION_MAJOR);
    // the body decompresses back to the encoded records
    let strat = spec_lookup_or_plain(dcm.decompressors, h.encoding_format);
    assert(out.subrange(end, out.len() - 20) =~= c);
    assert(spec_decompress(strat, spec_key_arg(dcm.level), c) == Some(body)) by {
        match ecm.compressor {
            Strategy::Plain => {},
            Strategy::Zlib => {},
            Strategy::Zstd => {},
            Strategy::Xor => {
                assert(c == spec_xor_bytes(body, ecm.level));
                lemma_xor_involution(body, ecm.level);
            },
        }
    }
    // the records decode back to the visible pixels
    assert(body.subrange(0, body.len() as int) =~= body);
    lemma_body_round_trip(body, 0, ps, a, v);
    let vis = spec_visible(ps, a);
    assert(spec_decode_body(body, 0, a, v) == Some(vis));
    // the decoded list is small and duplicate-free
    lemma_visible_membership(ps, a);
    assert(vis.len() <= MAX_PIXELS);
    lemma_visible_no_dup(ps, a);
    lemma_first_dup_complete(vis);
    assert(spec_first_dup(vis, 0) is None);
    // and the stages compose
    assert(crate::spec_decode_after_header(out, dcm, h, end, check_image_size, true) == Ok::<
        _,
        DecodeFailure,
    >(
        spec_img_of(
            vis,
            if check_image_size {
                MetadataV {
                    created_in: h.metadata.created_in,
                    width: spec_wrap_inc(spec_max_x(vis)),
                    height: spec_wrap_inc(spec_max_y(vis)),
                    extra: h.metadata.extra,
                }
            } else {
                h.metadata
            },
        ),
    ));
    assert(spec_decode_stream(out, dcm, check_image_size, ignore_checksum, true)
        == crate::spec_decode_after_header(out, dcm, h, end, check_image_size, true));
}

/// With nothing to lose — no fully transparent pixel when alpha is stored,
/// every alpha byte already opaque when it is not — the wire is lossless:
/// the decoded list is the original, pixel for pixel.
pub proof fn lemma_visible_identity(ps: Seq<Pixel>, a: bool)
    requires
        forall|i: int|
            0 <= i < ps.len() ==> (if a {
                #[trigger] ps[i].color & 0xFF != 0
            } else {
                ps[i].color & 0xFF == 0xFF
            }),
    ensures
        spec_visible(ps, a) == ps,
    decreases ps.len(),
{
    if ps.len() == 0 {
        assert(spec_visible(ps, a) =~= ps);
    } else {
        assert(!is_dropped(ps[0], a)) by {
            if a {
                assert(ps[0].color & 0xFF != 0);
            }
        }
        assert(spec_wire_pixel(ps[0], a) == ps[0]) by {
            if !a {
                let c = ps[0].color;
                assert(c & 0xFF == 0xFF ==> (c & 0xFFFFFF00) | 0xFF == c) by (bit_vector);
            }
        }
        lemma_visible_identity(ps.drop_first(), a);
        assert(spec_visible(ps, a) =~= ps);
    }
}

/// The image value the round trip promises.
pub open spec fn spec_img_of(pixels: Seq<Pixel>, metadata: MetadataV) -> crate::types::ImgV {
    crate::types::ImgV {
        pixels,
        encoder_version: EncoderVersion {
            version_major: VERSION_MAJOR,
            version_minor: VERSION_MINOR,
            version_metadata: VersionMetadata::Experimental,
        },
        metadata,
    }
}

// ---------- alpha-drop ----------

/// ALPHA-DROP. With alpha stored, a fully transparent pixel is absent from
/// the decoded list entirely: no decoded pixel carries its coordinates.
pub proof fn lemma_alpha_drop(ps: Seq<Pixel>, i: int)
    requires
        !spec_has_dup(ps),
        0 <= i < ps.len(),
        ps[i].color & 0xFF == 0,
    ensures
        forall|k: int|
            0 <= k < spec_visible(ps, true).len() ==> !(#[trigger] spec_visible(ps, true)[k].x
                == ps[i].x && spec_visible(ps, true)[k].y == ps[i].y),
{
    lemma_visible_membership(ps, true);
    let vis = spec_visible(ps, true);
    assert forall|k: int| 0 <= k < vis.len() implies !(#[trigger] vis[k].x == ps[i].x && vis[k].y
        == ps[i].y) by {
        let j = choose|j: int|
            0 <= j < ps.len() && !is_dropped(ps[j], true) && vis[k] == spec_wire_pixel(ps[j], true);
        assert(vis[k].x == ps[j].x && vis[k].y == ps[j].y);
        assert(j != i);
        if vis[k].x == ps[i].x && vis[k].y == ps[i].y {
            assert(crate::coding::spec_coord(ps[j]) == crate::coding::spec_coord(ps[i]));
            if i < j {
                assert(spec_dup_at(ps, j));
            } else {
                assert(spec_dup_at(ps, i));
            }
        }
    }
}

// ---------- the passthrough fallback ----------

/// UNKNOWN STRATEGY FALLBACK. A body whose header names a strategy absent
/// from the receiver's registry is handed through unchanged, never rejected.
/// Deliberate format behavior, kept for compatibility, though it can hand a
/// genuinely compressed body through as raw bytes when the name is missing.
pub proof fn lemma_unknown_name_passthrough(
    ds: Seq<(Seq<char>, Strategy)>,
    name: Seq<char>,
    key: Option<u32>,
    data: Seq<u8>,
)
    requires
        crate::compression::spec_lookup(ds, name) is None,
    ensures
        spec_decompress(spec_lookup_or_plain(ds, name), key, data) == Some(data),
{
}

// ---------- tamper detection in the footer ----------

/// TAMPER DETECTION, footer region. Flipping any single byte among the last
/// twenty of a stream that decodes successfully makes decoding fail with a
/// checksum failure, when checksums are checked. (A flip anywhere earlier
/// changes what the CRC32 is computed over; that the CRC then differs is a
/// property of CRC32 itself, which the library states nowhere and the tests
/// exercise byte by byte instead.)
pub proof fn lemma_footer_tamper(
    s: Seq<u8>,
    t: Seq<u8>,
    i: int,
    cm: CompressMapV,
    check_image_size: bool,
    fatal: bool,
)
    requires
        spec_decode_stream(s, cm, check_image_size, false, fatal) is Ok,
        t.len() == s.len(),
        s.len() - 20 <= i < s.len(),
        t[i] != s[i],
        forall|j: int| 0 <= j < s.len() && j != i ==> t[j] == s[j],
    ensures
        spec_decode_stream(t, cm, check_image_size, false, fatal) == Err::<crate::types::ImgV, _>(
            DecodeFailure::FooterMissing,
        ) || spec_decode_stream(t, cm, check_image_size, false, fatal) == Err::<
            crate::types::ImgV,
            _,
        >(DecodeFailure::ChecksumMismatch),
{
    lemma_auto_spec_u32_to_from_le_bytes();
    assert(s.len() >= 29);
    let n = s.len() as int;
    // the bytes before the footer agree, so the recomputed checksum agrees
    assert(t.subrange(0, n - 20) =~= s.subrange(0, n - 20));
    let s_marker = s.subrange(n - 20, n - 4);
    let t_marker = t.subrange(n - 20, n - 4);
    assert(s_marker == crate::checksum::spec_marker());
    if i < n - 4 {
        // the marker is damaged
        assert(t_marker != crate::checksum::spec_marker()) by {
            assert(t_marker[i - (n - 20)] == t[i]);
            assert(s_marker[i - (n - 20)] == s[i]);
            if t_marker == crate::checksum::spec_marker() {
                assert(t_marker[i - (n - 20)] == s_marker[i - (n - 20)]);
            }
        }
        assert(spec_parse_footer(t) is None);
    } else {
        // the stored checksum is damaged
        assert(t_marker =~= s_marker);
        let s_tail = s.subrange(n - 4, n);
        let t_tail = t.subrange(n - 4, n);
        assert(spec_parse_footer(t) == Some(spec_u32_from_le_bytes(t_tail)));
        assert(spec_u32_from_le_bytes(t_tail) != spec_u32_from_le_bytes(s_tail)) by {
            assert(t_tail[i - (n - 4)] == t[i] && s_tail[i - (n - 4)] == s[i]);
            assert(t_tail != s_tail);
            if spec_u32_from_le_bytes(t_tail) == spec_u32_from_le_bytes(s_tail) {
                assert(vstd::bytes::spec_u32_to_le_bytes(spec_u32_from_le_bytes(t_tail))
                    == t_tail);
                assert(vstd::bytes::spec_u32_to_le_bytes(spec_u32_from_le_bytes(s_tail))
                    == s_tail);
            }
        }
        assert(spec_parse_footer(s) == Some(spec_u32_from_le_bytes(s_tail)));
        assert(spec_u32_from_le_bytes(s_tail) == crc32_of(s.subrange(0, n - 20)));
    }
}

// ---------- header truncation ----------

/// HEADER BOUND. A strategy name longer than 255 bytes is stored truncated
/// to its first 255, and the truncated name is what the header round-trips.
pub proof fn lemma_header_clip_round_trip(ef: Seq<char>, m: MetadataV, a: bool, v: bool)
    requires
        spec_build_ok(ef, m),
        spec_ser_header(spec_build_header(ef, m, a, v)).len() <= 10000,
    ensures
        ({
            let h = spec_build_header(ef, m, a, v);
            &&& h.encoding_format == spec_clip_str(ef)
            &&& (ef.len() > 255 ==> h.encoding_format == ef.subrange(0, 255))
            &&& spec_parse_header(spec_ser_header(h)) == Some(h)
        }),
{
    let h = spec_build_header(ef, m, a, v);
    assert(h.magic == spec_magic() && h.del == spec_delim() && h.reserved == spec_reserved());
    lemma_parse_header_of_ser(h);
}

} // verus!
