//! Parallel codec engine: per-record work fans out across a worker pool and
//! deterministic order is restored on collection; record boundaries are
//! discovered by a strictly sequential probe pass before decode fans out;
//! duplicate coordinates are detected with a set over the packed coordinate.
use crate::error::NPNGError;
use crate::record::{
    decode_record_at, encode_record, lemma_decode_record_bounds, lemma_encode_pixels_snoc,
    spec_decode_body, spec_decode_pixel_at, spec_decode_record, spec_encode_pixel,
    spec_encode_pixels,
};
use crate::types::Pixel;
use rayon::iter::IntoParallelRefIterator;
use rayon::iter::ParallelIterator;
use vstd::hash_set::HashSetWithView;
use vstd::prelude::*;
use vstd::string::StringExecFns;

verus! {

broadcast use vstd::std_specs::hash::group_hash_axioms;

// ---------- parallel fan-out ----------

/// Relies on rayon's `par_iter().map(..).collect::<Vec<_>>()`: the closure —
/// the verified record encoder — runs once per pixel on the worker pool, and
/// collecting an indexed parallel iterator restores the original order,
/// whatever order the workers completed in.
#[verifier::external_body]
fn par_encode_records(pixels: &Vec<Pixel>, save_alpha: bool, varint: bool) -> (r: Vec<Vec<u8>>)
    ensures
        r@.len() == pixels@.len(),
        forall|i: int|
            0 <= i < r@.len() ==> r@[i]@ == spec_encode_pixel(pixels@[i], save_alpha, varint),
{
    pixels.par_iter().map(|p| encode_record(p, save_alpha, varint)).collect()
}

/// Decodes the record standing at `off`; the offset must come from the
/// boundary-discovery pass, so the record is known to be well-formed.
fn decode_span(body: &Vec<u8>, off: usize, save_alpha: bool, varint: bool) -> (r: Pixel)
    requires
        spec_decode_record(body@, off as int, save_alpha, varint) is Some,
    ensures
        Some(r) == spec_decode_pixel_at(body@, off as int, save_alpha, varint),
{
    match decode_record_at(body.as_slice(), off, save_alpha, varint) {
        Some(x) => x.0,
        None => vstd::pervasive::unreached(),
    }
}

/// Relies on rayon likewise: each span found by the sequential probe pass is
/// decoded independently by the verified span decoder, and collection keeps
/// the spans' order.
#[verifier::external_body]
fn par_decode_spans(body: &Vec<u8>, spans: &Vec<usize>, save_alpha: bool, varint: bool) -> (r: Vec<
    Pixel,
>)
    requires
        forall|k: int|
            0 <= k < spans@.len() ==> spec_decode_record(
                body@,
                spans@[k] as int,
                save_alpha,
                varint,
            ) is Some,
    ensures
        r@.len() == spans@.len(),
        forall|k: int|
            0 <= k < r@.len() ==> Some(r@[k]) == spec_decode_pixel_at(
                body@,
                spans@[k] as int,
                save_alpha,
                varint,
            ),
{
    spans.par_iter().map(|off| decode_span(body, *off, save_alpha, varint)).collect()
}

/// Encodes the whole pixel list into one body: records fan out across the
/// pool, then are concatenated in pixel order.
#[verifier::loop_isolation(false)]
pub fn encode_pixels_parallel(pixels: &Vec<Pixel>, save_alpha: bool, varint: bool) -> (r: Vec<u8>)
    ensures
        r@ == spec_encode_pixels(pixels@, save_alpha, varint),
{
    let recs = par_encode_records(pixels, save_alpha, varint);
    let mut out: Vec<u8> = Vec::new();
    let mut i: usize = 0;
    while i < recs.len()
        invariant
            i <= recs@.len(),
            out@ == spec_encode_pixels(pixels@.subrange(0, i as int), save_alpha, varint),
        decreases recs@.len() - i,
    {
        crate::wire::write_raw(&mut out, recs[i].as_slice());
        proof {
            lemma_encode_pixels_snoc(pixels@.subrange(0, i as int), pixels@[i as int], save_alpha, varint);
            assert(pixels@.subrange(0, i + 1) =~= pixels@.subrange(0, i as int).push(
                pixels@[i as int],
            ));
        }
        i = i + 1;
    }
    proof {
        assert(pixels@.subrange(0, pixels@.len() as int) =~= pixels@);
    }
    out
}

/// Decodes a whole body: a sequential probe pass walks the records to learn
/// each boundary (each probe depends on the cursor the previous one
/// produced), then decoding fans out over the spans and is gathered in order.
#[verifier::loop_isolation(false)]
pub fn decode_pixels_parallel(body: &Vec<u8>, save_alpha: bool, varint: bool) -> (r: Result<
    Vec<Pixel>,
    NPNGError,
>)
    ensures
        spec_decode_body(body@, 0, save_alpha, varint) matches Some(ps) ==> (r matches Ok(v) && v@
            == ps),
        spec_decode_body(body@, 0, save_alpha, varint) is None ==> (r matches Err(e) && e matches
            NPNGError::DecodingError(_)),
{
    let n = body.len();
    let mut spans: Vec<usize> = Vec::new();
    let ghost mut acc: Seq<Pixel> = Seq::empty();
    let mut cursor: usize = 0;
    while cursor < n
        invariant
            cursor <= n,
            spans@.len() == acc.len(),
            forall|k: int|
                0 <= k < spans@.len() ==> spec_decode_pixel_at(
                    body@,
                    spans@[k] as int,
                    save_alpha,
                    varint,
                ) == Some(acc[k]),
            match spec_decode_body(body@, cursor as int, save_alpha, varint) {
                None => spec_decode_body(body@, 0, save_alpha, varint) is None,
                Some(rest) => spec_decode_body(body@, 0, save_alpha, varint) == Some(acc + rest),
            },
        decreases n - cursor,
    {
        match decode_record_at(body.as_slice(), cursor, save_alpha, varint) {
            None => {
                return Err(NPNGError::DecodingError(String::from_str("malformed pixel record")));
            },
            Some((p, next)) => {
                proof {
                    lemma_decode_record_bounds(body@, cursor as int, save_alpha, varint);
                    let pre = acc;
                    acc = acc.push(p);
                    assert(acc[acc.len() - 1] == p);
                    match spec_decode_body(body@, next as int, save_alpha, varint) {
                        None => {},
                        Some(rest2) => {
                            assert(pre + (seq![p] + rest2) =~= acc + rest2);
                        },
                    }
                }
                spans.push(cursor);
                cursor = next;
            },
        }
    }
    proof {
        assert(acc + Seq::<Pixel>::empty() =~= acc);
        assert forall|k: int| 0 <= k < spans@.len() implies spec_decode_record(
            body@,
            spans@[k] as int,
            save_alpha,
            varint,
        ) is Some by {
            assert(spec_decode_pixel_at(body@, spans@[k] as int, save_alpha, varint) == Some(
                acc[k],
            ));
        }
    }
    let pixels = par_decode_spans(body, &spans, save_alpha, varint);
    proof {
        assert(pixels@ =~= acc);
    }
    Ok(pixels)
}

// ---------- duplicate detection ----------

/// The packed coordinate a pixel occupies: one cell of the 65536-wide grid.
pub open spec fn spec_coord(p: Pixel) -> int {
    p.y * 0x10000 + p.x
}

/// True when the pixel at `j` repeats an earlier pixel's coordinates.
pub open spec fn spec_dup_at(ps: Seq<Pixel>, j: int) -> bool {
    exists|i: int| 0 <= i < j && spec_coord(ps[i]) == spec_coord(ps[j])
}

/// True when any two pixels in the list share coordinates.
pub open spec fn spec_has_dup(ps: Seq<Pixel>) -> bool {
    exists|j: int| 0 <= j < ps.len() && spec_dup_at(ps, j)
}

/// The coordinates of the first pixel, at or after `j`, that repeats an
/// earlier pixel's coordinates.
pub open spec fn spec_first_dup(ps: Seq<Pixel>, j: int) -> Option<(u16, u16)>
    decreases ps.len() - j,
{
    if j < 0 || j >= ps.len() {
        None
    } else if spec_dup_at(ps, j) {
        Some((ps[j].x, ps[j].y))
    } else {
        spec_first_dup(ps, j + 1)
    }
}

/// The scan for the first duplicate decides duplicate-freedom: it comes back
/// empty exactly on lists whose coordinates are pairwise distinct.
pub proof fn lemma_first_dup_complete(ps: Seq<Pixel>)
    ensures
        spec_first_dup(ps, 0) is None <==> !spec_has_dup(ps),
{
    lemma_first_dup_from(ps, 0);
    if spec_first_dup(ps, 0) is None {
        assert forall|j: int| 0 <= j < ps.len() implies !spec_dup_at(ps, j) by {}
    }
}

proof fn lemma_first_dup_from(ps: Seq<Pixel>, j: int)
    requires
        0 <= j,
    ensures
        spec_first_dup(ps, j) is None ==> forall|j2: int|
            j <= j2 < ps.len() ==> !spec_dup_at(ps, j2),
        spec_first_dup(ps, j) is Some ==> spec_has_dup(ps),
    decreases ps.len() - j,
{
    if j >= ps.len() {
    } else if spec_dup_at(ps, j) {
    } else {
        lemma_first_dup_from(ps, j + 1);
    }
}

/// Finds the first pixel whose coordinates were already taken, walking the
/// list once with a set over the packed coordinate.
#[verifier::loop_isolation(false)]
pub fn find_duplicate(pixels: &Vec<Pixel>) -> (r: Option<(u16, u16)>)
    ensures
        r == spec_first_dup(pixels@, 0),
        r is None ==> !spec_has_dup(pixels@),
        r is Some ==> spec_has_dup(pixels@),
{
    proof {
        lemma_first_dup_complete(pixels@);
    }
    let mut seen: HashSetWithView<u32> = HashSetWithView::new();
    let n = pixels.len();
    let mut j: usize = 0;
    while j < n
        invariant
            j <= n,
            spec_first_dup(pixels@, 0) == spec_first_dup(pixels@, j as int),
            forall|c: u32|
                #[trigger] seen@.contains(c) ==> exists|i: int|
                    0 <= i < j && spec_coord(pixels@[i]) == c as int,
            forall|i: int|
                0 <= i < j ==> seen@.contains(#[trigger] spec_coord_u32(pixels@[i])),
            forall|j2: int| 0 <= j2 < j ==> !spec_dup_at(pixels@, j2),
        decreases n - j,
    {
        let p = pixels[j];
        let c: u32 = (p.y as u32) * 0x10000 + (p.x as u32);
        proof {
            assert(c as int == spec_coord(p));
            assert(c == spec_coord_u32(p));
        }
        if seen.contains(&c) {
            proof {
                let i = choose|i: int| 0 <= i < j && spec_coord(pixels@[i]) == c as int;
                assert(spec_coord(pixels@[i]) == spec_coord(pixels@[j as int]));
                assert(spec_dup_at(pixels@, j as int));
            }
            return Some((p.x, p.y));
        }
        proof {
            assert(!spec_dup_at(pixels@, j as int)) by {
                if spec_dup_at(pixels@, j as int) {
                    let i = choose|i: int|
                        0 <= i < j && spec_coord(pixels@[i]) == spec_coord(pixels@[j as int]);
                    assert(seen@.contains(spec_coord_u32(pixels@[i])));
                    assert(spec_coord_u32(pixels@[i]) == c);
                }
            }
        }
        seen.insert(c);
        j = j + 1;
    }
    None
}

/// The packed coordinate as the machine word the set stores.
pub open spec fn spec_coord_u32(p: Pixel) -> u32 {
    (p.y * 0x10000 + p.x) as u32
}

/// A fresh copy of a pixel list.
pub fn clone_pixels(pixels: &Vec<Pixel>) -> (r: Vec<Pixel>)
    ensures
        r@ == pixels@,
{
    let mut out: Vec<Pixel> = Vec::new();
    let mut i: usize = 0;
    while i < pixels.len()
        invariant
            i <= pixels@.len(),
            out@ =~= pixels@.subrange(0, i as int),
        decreases pixels@.len() - i,
    {
        out.push(pixels[i]);
        i = i + 1;
    }
    proof {
        assert(out@ =~= pixels@);
    }
    out
}

// ---------- derived dimensions ----------

/// The largest x coordinate in the list, 0 when it is empty.
pub open spec fn spec_max_x(ps: Seq<Pixel>) -> u16
    decreases ps.len(),
{
    if ps.len() == 0 {
        0
    } else {
        let m = spec_max_x(ps.drop_last());
        if ps.last().x > m {
            ps.last().x
        } else {
            m
        }
    }
}

/// The largest y coordinate in the list, 0 when it is empty.
pub open spec fn spec_max_y(ps: Seq<Pixel>) -> u16
    decreases ps.len(),
{
    if ps.len() == 0 {
        0
    } else {
        let m = spec_max_y(ps.drop_last());
        if ps.last().y > m {
            ps.last().y
        } else {
            m
        }
    }
}

/// A derived dimension: one past the largest coordinate, wrapping at the
/// edge of the sixteen-bit coordinate space.
pub open spec fn spec_wrap_inc(v: u16) -> u16 {
    if v == 0xFFFF {
        0
    } else {
        (v + 1) as u16
    }
}

/// The image dimensions derived from the pixels: one past the largest
/// coordinate on each axis (so an empty list yields a 1 by 1 image).
#[verifier::loop_isolation(false)]
pub fn check_image_size_f(pixels: Vec<Pixel>) -> (r: (u16, u16))
    ensures
        r.0 == spec_wrap_inc(spec_max_x(pixels@)),
        r.1 == spec_wrap_inc(spec_max_y(pixels@)),
{
    let n = pixels.len();
    let mut mx: u16 = 0;
    let mut my: u16 = 0;
    let mut i: usize = 0;
    while i < n
        invariant
            i <= n,
            mx == spec_max_x(pixels@.subrange(0, i as int)),
            my == spec_max_y(pixels@.subrange(0, i as int)),
        decreases n - i,
    {
        let p = pixels[i];
        proof {
            let post = pixels@.subrange(0, i + 1);
            assert(post.drop_last() =~= pixels@.subrange(0, i as int));
            assert(post.last() == pixels@[i as int]);
        }
        if p.x > mx {
            mx = p.x;
        }
        if p.y > my {
            my = p.y;
        }
        i = i + 1;
    }
    proof {
        assert(pixels@.subrange(0, pixels@.len() as int) =~= pixels@);
    }
    let w: u16 = if mx == 0xFFFF {
        0
    } else {
        mx + 1
    };
    let h: u16 = if my == 0xFFFF {
        0
    } else {
        my + 1
    };
    (w, h)
}

} // verus!
