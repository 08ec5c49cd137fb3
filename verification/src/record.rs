//! Pixel record codec: one pixel to and from its wire record, in the two
//! wire shapes (with or without alpha) and the two integer packings.
use crate::types::Pixel;
use crate::wire::{
    lemma_dec16_of_enc, lemma_dec32_of_enc, lemma_vdec16_of_enc, lemma_vdec32_of_enc, read_u16,
    read_u32, read_v16, read_v32, spec_dec16, spec_dec32, spec_vdec16, spec_vdec32, spec_venc16,
    spec_venc32, write_u16, write_u32, write_v16, write_v32,
};
use vstd::bytes::*;
use vstd::prelude::*;

verus! {

/// True when the pixel contributes no bytes to the body: alpha is stored
/// and this pixel is fully transparent.
pub open spec fn is_dropped(p: Pixel, save_alpha: bool) -> bool {
    save_alpha && p.color & 0xFF == 0
}

/// The color that survives the RGB-only wire shape: RGB kept, alpha forced opaque.
pub open spec fn spec_norm_color(color: u32) -> u32 {
    (color & 0xFFFFFF00) | 0xFF
}

/// The pixel a record decodes back to: unchanged when alpha is stored,
/// alpha forced opaque when it is not.
pub open spec fn spec_wire_pixel(p: Pixel, save_alpha: bool) -> Pixel {
    if save_alpha {
        p
    } else {
        Pixel { x: p.x, y: p.y, color: spec_norm_color(p.color) }
    }
}

/// A packed color rebuilt from three wire bytes, alpha opaque.
pub open spec fn spec_rgb_color(r: u8, g: u8, b: u8) -> u32 {
    ((r as u32) << 24) | ((g as u32) << 16) | ((b as u32) << 8) | 0xFF
}

/// The wire record of one pixel. A dropped pixel contributes nothing.
pub open spec fn spec_encode_pixel(p: Pixel, save_alpha: bool, varint: bool) -> Seq<u8> {
    if is_dropped(p, save_alpha) {
        seq![]
    } else if save_alpha {
        if varint {
            spec_venc16(p.x) + spec_venc16(p.y) + spec_venc32(p.color)
        } else {
            spec_u16_to_le_bytes(p.x) + spec_u16_to_le_bytes(p.y) + spec_u32_to_le_bytes(p.color)
        }
    } else {
        let coords = if varint {
            spec_venc16(p.x) + spec_venc16(p.y)
        } else {
            spec_u16_to_le_bytes(p.x) + spec_u16_to_le_bytes(p.y)
        };
        coords + seq![
            ((p.color >> 24) & 0xFF) as u8,
            ((p.color >> 16) & 0xFF) as u8,
            ((p.color >> 8) & 0xFF) as u8,
        ]
    }
}

/// The whole body: records of all pixels, concatenated in order.
pub open spec fn spec_encode_pixels(ps: Seq<Pixel>, save_alpha: bool, varint: bool) -> Seq<u8>
    decreases ps.len(),
{
    if ps.len() == 0 {
        seq![]
    } else {
        spec_encode_pixel(ps[0], save_alpha, varint) + spec_encode_pixels(
            ps.drop_first(),
            save_alpha,
            varint,
        )
    }
}

/// The pixels a decoded body holds: dropped pixels gone, RGB-only colors
/// promoted to opaque.
pub open spec fn spec_visible(ps: Seq<Pixel>, save_alpha: bool) -> Seq<Pixel>
    decreases ps.len(),
{
    if ps.len() == 0 {
        seq![]
    } else if is_dropped(ps[0], save_alpha) {
        spec_visible(ps.drop_first(), save_alpha)
    } else {
        seq![spec_wire_pixel(ps[0], save_alpha)] + spec_visible(ps.drop_first(), save_alpha)
    }
}

/// One record decoded at `pos`: the pixel and the position after the record.
pub open spec fn spec_decode_record(b: Seq<u8>, pos: int, save_alpha: bool, varint: bool) -> Option<
    (Pixel, int),
> {
    let xr = if varint {
        spec_vdec16(b, pos)
    } else {
        spec_dec16(b, pos)
    };
    match xr {
        None => None,
        Some((x, p1)) => {
            let yr = if varint {
                spec_vdec16(b, p1)
            } else {
                spec_dec16(b, p1)
            };
            match yr {
                None => None,
                Some((y, p2)) => {
                    if save_alpha {
                        let cr = if varint {
                            spec_vdec32(b, p2)
                        } else {
                            spec_dec32(b, p2)
                        };
                        match cr {
                            None => None,
                            Some((c, p3)) => Some((Pixel { x, y, color: c }, p3)),
                        }
                    } else {
                        if p2 + 3 <= b.len() {
                            Some(
                                (
                                    Pixel {
                                        x,
                                        y,
                                        color: spec_rgb_color(b[p2], b[p2 + 1], b[p2 + 2]),
                                    },
                                    p2 + 3,
                                ),
                            )
                        } else {
                            None
                        }
                    }
                },
            }
        },
    }
}

/// Every record occupies at least one byte and ends within the buffer.
pub proof fn lemma_decode_record_bounds(b: Seq<u8>, pos: int, save_alpha: bool, varint: bool)
    ensures
        spec_decode_record(b, pos, save_alpha, varint) matches Some(r) ==> pos < r.1 <= b.len(),
{
}

/// The body decoded from `pos` to the end of the buffer: all pixels in order.
pub open spec fn spec_decode_body(b: Seq<u8>, pos: int, save_alpha: bool, varint: bool) -> Option<
    Seq<Pixel>,
>
    decreases b.len() - pos,
{
    if pos < 0 || pos > b.len() {
        None
    } else if pos == b.len() {
        Some(seq![])
    } else {
        match spec_decode_record(b, pos, save_alpha, varint) {
            None => None,
            Some((p, p2)) => {
                if pos < p2 <= b.len() {
                    match spec_decode_body(b, p2, save_alpha, varint) {
                        None => None,
                        Some(rest) => Some(seq![p] + rest),
                    }
                } else {
                    None
                }
            },
        }
    }
}

/// Decoding a record where one was written yields the wire pixel back.
pub proof fn lemma_record_round_trip(b: Seq<u8>, pos: int, p: Pixel, save_alpha: bool, varint: bool)
    requires
        !is_dropped(p, save_alpha),
        0 <= pos,
        pos + spec_encode_pixel(p, save_alpha, varint).len() <= b.len(),
        b.subrange(pos, pos + spec_encode_pixel(p, save_alpha, varint).len()) == spec_encode_pixel(
            p,
            save_alpha,
            varint,
        ),
    ensures
        spec_decode_record(b, pos, save_alpha, varint) == Some(
            (spec_wire_pixel(p, save_alpha), pos + spec_encode_pixel(p, save_alpha, varint).len()),
        ),
{
    let e = spec_encode_pixel(p, save_alpha, varint);
    lemma_auto_spec_u16_to_from_le_bytes();
    lemma_auto_spec_u32_to_from_le_bytes();
    let lx: int = if varint {
        spec_venc16(p.x).len() as int
    } else {
        2
    };
    let ly: int = if varint {
        spec_venc16(p.y).len() as int
    } else {
        2
    };
    // the x field
    if varint {
        assert(b.subrange(pos, pos + lx) =~= e.subrange(0, lx));
        assert(e.subrange(0, lx) =~= spec_venc16(p.x));
        lemma_vdec16_of_enc(b, pos, p.x);
    } else {
        assert(b.subrange(pos, pos + 2) =~= e.subrange(0, 2));
        assert(e.subrange(0, 2) =~= spec_u16_to_le_bytes(p.x));
        lemma_dec16_of_enc(b, pos, p.x);
    }
    let p1 = pos + lx;
    // the y field
    if varint {
        assert(b.subrange(p1, p1 + ly) =~= e.subrange(lx, lx + ly));
        assert(e.subrange(lx, lx + ly) =~= spec_venc16(p.y));
        lemma_vdec16_of_enc(b, p1, p.y);
    } else {
        assert(b.subrange(p1, p1 + 2) =~= e.subrange(lx, lx + 2));
        assert(e.subrange(lx, lx + 2) =~= spec_u16_to_le_bytes(p.y));
        lemma_dec16_of_enc(b, p1, p.y);
    }
    let p2 = p1 + ly;
    // the color field
    if save_alpha {
        if varint {
            let lc: int = spec_venc32(p.color).len() as int;
            assert(b.subrange(p2, p2 + lc) =~= e.subrange(lx + ly, lx + ly + lc));
            assert(e.subrange(lx + ly, lx + ly + lc) =~= spec_venc32(p.color));
            lemma_vdec32_of_enc(b, p2, p.color);
        } else {
            assert(b.subrange(p2, p2 + 4) =~= e.subrange(lx + ly, lx + ly + 4));
            assert(e.subrange(lx + ly, lx + ly + 4) =~= spec_u32_to_le_bytes(p.color));
            lemma_dec32_of_enc(b, p2, p.color);
        }
    } else {
        let c = p.color;
        assert(b[p2] == e[lx + ly] && b[p2 + 1] == e[lx + ly + 1] && b[p2 + 2] == e[lx + ly + 2]);
        assert(spec_rgb_color(
            ((c >> 24) & 0xFF) as u8,
            ((c >> 16) & 0xFF) as u8,
            ((c >> 8) & 0xFF) as u8,
        ) == spec_norm_color(c)) by (bit_vector);
    }
}

/// Decoding a body where one was written yields exactly the visible pixels.
pub proof fn lemma_body_round_trip(
    b: Seq<u8>,
    pos: int,
    ps: Seq<Pixel>,
    save_alpha: bool,
    varint: bool,
)
    requires
        0 <= pos <= b.len(),
        b.subrange(pos, b.len() as int) == spec_encode_pixels(ps, save_alpha, varint),
    ensures
        spec_decode_body(b, pos, save_alpha, varint) == Some(spec_visible(ps, save_alpha)),
    decreases ps.len(),
{
    let whole = b.subrange(pos, b.len() as int);
    assert(whole.len() == b.len() - pos);
    if ps.len() == 0 {
        assert(spec_encode_pixels(ps, save_alpha, varint).len() == 0);
        assert(pos == b.len());
    } else {
        let ep = spec_encode_pixel(ps[0], save_alpha, varint);
        let er = spec_encode_pixels(ps.drop_first(), save_alpha, varint);
        assert(spec_encode_pixels(ps, save_alpha, varint) == ep + er);
        if is_dropped(ps[0], save_alpha) {
            assert(ep.len() == 0);
            assert(whole =~= er);
            lemma_body_round_trip(b, pos, ps.drop_first(), save_alpha, varint);
        } else {
            assert(whole.len() == ep.len() + er.len());
            assert(pos + ep.len() + er.len() == b.len());
            let p2 = pos + ep.len() as int;
            assert(b.subrange(pos, p2) =~= ep) by {
                assert forall|k: int| 0 <= k < ep.len() implies b.subrange(pos, p2)[k] == ep[k] by {
                    assert(whole[k] == (ep + er)[k]);
                }
            }
            lemma_record_round_trip(b, pos, ps[0], save_alpha, varint);
            assert(b.subrange(p2, b.len() as int) =~= er) by {
                assert forall|k: int| 0 <= k < er.len() implies b.subrange(p2, b.len() as int)[k]
                    == er[k] by {
                    assert(whole[ep.len() + k] == (ep + er)[ep.len() + k]);
                }
            }
            lemma_body_round_trip(b, p2, ps.drop_first(), save_alpha, varint);
            assert(ep.len() > 0);
        }
    }
}

/// The pixel decoded at `pos`, without the consumed length.
pub open spec fn spec_decode_pixel_at(b: Seq<u8>, pos: int, save_alpha: bool, varint: bool) -> Option<
    Pixel,
> {
    match spec_decode_record(b, pos, save_alpha, varint) {
        Some((p, _)) => Some(p),
        None => None,
    }
}

/// Encoding one more pixel appends its record.
pub proof fn lemma_encode_pixels_snoc(ps: Seq<Pixel>, p: Pixel, save_alpha: bool, varint: bool)
    ensures
        spec_encode_pixels(ps.push(p), save_alpha, varint) == spec_encode_pixels(
            ps,
            save_alpha,
            varint,
        ) + spec_encode_pixel(p, save_alpha, varint),
    decreases ps.len(),
{
    let all = ps.push(p);
    if ps.len() == 0 {
        assert(all[0] == p);
        assert(all.drop_first() =~= Seq::<Pixel>::empty());
        assert(spec_encode_pixels(all.drop_first(), save_alpha, varint) == Seq::<u8>::empty());
        assert(spec_encode_pixels(all, save_alpha, varint) =~= spec_encode_pixels(
            ps,
            save_alpha,
            varint,
        ) + spec_encode_pixel(p, save_alpha, varint));
    } else {
        assert(all[0] == ps[0]);
        assert(all.drop_first() =~= ps.drop_first().push(p));
        lemma_encode_pixels_snoc(ps.drop_first(), p, save_alpha, varint);
        assert(spec_encode_pixels(all, save_alpha, varint) =~= spec_encode_pixels(
            ps,
            save_alpha,
            varint,
        ) + spec_encode_pixel(p, save_alpha, varint));
    }
}

// ---------- executable codec ----------

/// The wire record of one pixel; mirrors [`spec_encode_pixel`].
pub fn encode_record(p: &Pixel, save_alpha: bool, varint: bool) -> (r: Vec<u8>)
    ensures
        r@ == spec_encode_pixel(*p, save_alpha, varint),
{
    let mut out: Vec<u8> = Vec::new();
    if save_alpha && p.color & 0xFF == 0 {
        assert(out@ =~= spec_encode_pixel(*p, save_alpha, varint));
        return out;
    }
    if varint {
        write_v16(&mut out, p.x);
        write_v16(&mut out, p.y);
    } else {
        write_u16(&mut out, p.x);
        write_u16(&mut out, p.y);
    }
    if save_alpha {
        if varint {
            write_v32(&mut out, p.color);
        } else {
            write_u32(&mut out, p.color);
        }
    } else {
        out.push(((p.color >> 24) & 0xFF) as u8);
        out.push(((p.color >> 16) & 0xFF) as u8);
        out.push(((p.color >> 8) & 0xFF) as u8);
    }
    proof {
        assert(out@ =~= spec_encode_pixel(*p, save_alpha, varint));
    }
    out
}

/// The wire record of one pixel, in the shape the engine hands out.
/// A fully transparent pixel yields an empty record when alpha is stored.
pub fn encode_pixel(d: Pixel, save_alpha: bool, varint: bool) -> (r: Result<
    Vec<u8>,
    crate::error::NPNGError,
>)
    ensures
        r matches Ok(v) && v@ == spec_encode_pixel(d, save_alpha, varint),
{
    Ok(encode_record(&d, save_alpha, varint))
}

/// Decodes one record at `pos`; mirrors [`spec_decode_record`].
pub fn decode_record_at(b: &[u8], pos: usize, save_alpha: bool, varint: bool) -> (r: Option<
    (Pixel, usize),
>)
    ensures
        r matches Some(x) ==> spec_decode_record(b@, pos as int, save_alpha, varint) == Some(
            (x.0, x.1 as int),
        ),
        r is None ==> spec_decode_record(b@, pos as int, save_alpha, varint) is None,
{
    let xr = if varint {
        read_v16(b, pos)
    } else {
        read_u16(b, pos)
    };
    let (x, p1) = match xr {
        None => {
            return None;
        },
        Some(v) => v,
    };
    let yr = if varint {
        read_v16(b, p1)
    } else {
        read_u16(b, p1)
    };
    let (y, p2) = match yr {
        None => {
            return None;
        },
        Some(v) => v,
    };
    if save_alpha {
        let cr = if varint {
            read_v32(b, p2)
        } else {
            read_u32(b, p2)
        };
        match cr {
            None => None,
            Some((c, p3)) => Some((Pixel { x, y, color: c }, p3)),
        }
    } else {
        if p2 <= b.len() && b.len() - p2 >= 3 {
            let r0 = *vstd::slice::slice_index_get(b, p2);
            let g0 = *vstd::slice::slice_index_get(b, p2 + 1);
            let b0 = *vstd::slice::slice_index_get(b, p2 + 2);
            let color = ((r0 as u32) << 24) | ((g0 as u32) << 16) | ((b0 as u32) << 8) | 0xFF;
            Some((Pixel { x, y, color }, p2 + 3))
        } else {
            None
        }
    }
}

} // verus!
