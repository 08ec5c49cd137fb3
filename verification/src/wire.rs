//! Binary primitive codec: little-endian fields, varint packing,
//! length-prefixed byte strings, and the header delimiter scan.
use vstd::bytes::*;
use vstd::prelude::*;
use vstd::slice::*;
use vstd::string::*;
use vstd::utf8::*;

verus! {

/// First varint tag that does not stand for its own value.
pub const VARINT_U16_TAG: u8 = 251;

/// Varint tag announcing a four-byte payload.
pub const VARINT_U32_TAG: u8 = 252;

// ---------- encoders (spec) ----------

/// Varint packing of a `u16`: one byte below 251, else a tag and two bytes.
pub open spec fn spec_venc16(v: u16) -> Seq<u8> {
    if v < 251 {
        seq![v as u8]
    } else {
        seq![VARINT_U16_TAG] + spec_u16_to_le_bytes(v)
    }
}

/// Varint packing of a `u32`: one byte below 251, else a tag and the
/// smallest of a two- or four-byte little-endian payload.
pub open spec fn spec_venc32(v: u32) -> Seq<u8> {
    if v < 251 {
        seq![v as u8]
    } else if v < 0x10000 {
        seq![VARINT_U16_TAG] + spec_u16_to_le_bytes(v as u16)
    } else {
        seq![VARINT_U32_TAG] + spec_u32_to_le_bytes(v)
    }
}

/// A byte string on the wire: an eight-byte little-endian length, then the bytes.
pub open spec fn spec_enc_bytes(data: Seq<u8>) -> Seq<u8> {
    spec_u64_to_le_bytes(data.len() as u64) + data
}

/// A string on the wire: its UTF-8 bytes, length-prefixed.
pub open spec fn spec_enc_str(s: Seq<char>) -> Seq<u8> {
    spec_enc_bytes(encode_utf8(s))
}

// ---------- decoders (spec) ----------

/// Fixed-width `u16` at `pos`: the value and the position after it.
pub open spec fn spec_dec16(b: Seq<u8>, pos: int) -> Option<(u16, int)> {
    if 0 <= pos && pos + 2 <= b.len() {
        Some((spec_u16_from_le_bytes(b.subrange(pos, pos + 2)), pos + 2))
    } else {
        None
    }
}

/// Fixed-width `u32` at `pos`: the value and the position after it.
pub open spec fn spec_dec32(b: Seq<u8>, pos: int) -> Option<(u32, int)> {
    if 0 <= pos && pos + 4 <= b.len() {
        Some((spec_u32_from_le_bytes(b.subrange(pos, pos + 4)), pos + 4))
    } else {
        None
    }
}

/// Fixed-width `u64` at `pos`: the value and the position after it.
pub open spec fn spec_dec64(b: Seq<u8>, pos: int) -> Option<(u64, int)> {
    if 0 <= pos && pos + 8 <= b.len() {
        Some((spec_u64_from_le_bytes(b.subrange(pos, pos + 8)), pos + 8))
    } else {
        None
    }
}

/// Varint `u16` at `pos`: the value and the position after it.
pub open spec fn spec_vdec16(b: Seq<u8>, pos: int) -> Option<(u16, int)> {
    if 0 <= pos && pos < b.len() {
        let tag = b[pos];
        if tag < VARINT_U16_TAG {
            Some((tag as u16, pos + 1))
        } else if tag == VARINT_U16_TAG {
            if pos + 3 <= b.len() {
                Some((spec_u16_from_le_bytes(b.subrange(pos + 1, pos + 3)), pos + 3))
            } else {
                None
            }
        } else {
            None
        }
    } else {
        None
    }
}

/// Varint `u32` at `pos`: the value and the position after it.
pub open spec fn spec_vdec32(b: Seq<u8>, pos: int) -> Option<(u32, int)> {
    if 0 <= pos && pos < b.len() {
        let tag = b[pos];
        if tag < VARINT_U16_TAG {
            Some((tag as u32, pos + 1))
        } else if tag == VARINT_U16_TAG {
            if pos + 3 <= b.len() {
                Some((spec_u16_from_le_bytes(b.subrange(pos + 1, pos + 3)) as u32, pos + 3))
            } else {
                None
            }
        } else if tag == VARINT_U32_TAG {
            if pos + 5 <= b.len() {
                Some((spec_u32_from_le_bytes(b.subrange(pos + 1, pos + 5)), pos + 5))
            } else {
                None
            }
        } else {
            None
        }
    } else {
        None
    }
}

/// Length-prefixed byte string at `pos`: the bytes and the position after them.
pub open spec fn spec_dec_bytes(b: Seq<u8>, pos: int) -> Option<(Seq<u8>, int)> {
    match spec_dec64(b, pos) {
        None => None,
        Some((n, p)) => {
            if p + n <= b.len() {
                Some((b.subrange(p, p + n), p + n))
            } else {
                None
            }
        },
    }
}

/// Length-prefixed string at `pos`: its characters and the position after it.
/// Fails on bytes that are not valid UTF-8.
pub open spec fn spec_dec_str(b: Seq<u8>, pos: int) -> Option<(Seq<char>, int)> {
    match spec_dec_bytes(b, pos) {
        None => None,
        Some((data, p)) => {
            if valid_utf8(data) {
                Some((decode_utf8(data), p))
            } else {
                None
            }
        },
    }
}

/// A wire boolean at `pos`: a single byte that must be 0 or 1.
pub open spec fn spec_dec_bool(b: Seq<u8>, pos: int) -> Option<(bool, int)> {
    if 0 <= pos && pos < b.len() {
        if b[pos] == 0u8 {
            Some((false, pos + 1))
        } else if b[pos] == 1u8 {
            Some((true, pos + 1))
        } else {
            None
        }
    } else {
        None
    }
}

// ---------- round-trip lemmas ----------

/// Reading a fixed `u16` back from where it was written yields the value.
pub proof fn lemma_dec16_of_enc(b: Seq<u8>, pos: int, v: u16)
    requires
        0 <= pos,
        pos + 2 <= b.len(),
        b.subrange(pos, pos + 2) == spec_u16_to_le_bytes(v),
    ensures
        spec_dec16(b, pos) == Some((v, pos + 2)),
{
    lemma_auto_spec_u16_to_from_le_bytes();
    assert(spec_u16_to_le_bytes(v).len() == 2);
    assert(spec_u16_from_le_bytes(spec_u16_to_le_bytes(v)) == v);
}

/// Reading a fixed `u32` back from where it was written yields the value.
pub proof fn lemma_dec32_of_enc(b: Seq<u8>, pos: int, v: u32)
    requires
        0 <= pos,
        pos + 4 <= b.len(),
        b.subrange(pos, pos + 4) == spec_u32_to_le_bytes(v),
    ensures
        spec_dec32(b, pos) == Some((v, pos + 4)),
{
    lemma_auto_spec_u32_to_from_le_bytes();
    assert(spec_u32_to_le_bytes(v).len() == 4);
    assert(spec_u32_from_le_bytes(spec_u32_to_le_bytes(v)) == v);
}

/// Reading a fixed `u64` back from where it was written yields the value.
pub proof fn lemma_dec64_of_enc(b: Seq<u8>, pos: int, v: u64)
    requires
        0 <= pos,
        pos + 8 <= b.len(),
        b.subrange(pos, pos + 8) == spec_u64_to_le_bytes(v),
    ensures
        spec_dec64(b, pos) == Some((v, pos + 8)),
{
    lemma_auto_spec_u64_to_from_le_bytes();
    assert(spec_u64_to_le_bytes(v).len() == 8);
    assert(spec_u64_from_le_bytes(spec_u64_to_le_bytes(v)) == v);
}

/// Reading a varint `u16` back from where it was written yields the value.
pub proof fn lemma_vdec16_of_enc(b: Seq<u8>, pos: int, v: u16)
    requires
        0 <= pos,
        pos + spec_venc16(v).len() <= b.len(),
        b.subrange(pos, pos + spec_venc16(v).len()) == spec_venc16(v),
    ensures
        spec_vdec16(b, pos) == Some((v, pos + spec_venc16(v).len())),
{
    lemma_auto_spec_u16_to_from_le_bytes();
    let e = spec_venc16(v);
    assert(b[pos] == e[0]);
    if v < 251 {
        assert(b[pos] == v as u8);
        assert((v as u8) as u16 == v);
    } else {
        assert(b[pos] == VARINT_U16_TAG);
        assert(b.subrange(pos + 1, pos + 3) =~= e.subrange(1, 3));
        assert(e.subrange(1, 3) =~= spec_u16_to_le_bytes(v));
    }
}

/// Reading a varint `u32` back from where it was written yields the value.
pub proof fn lemma_vdec32_of_enc(b: Seq<u8>, pos: int, v: u32)
    requires
        0 <= pos,
        pos + spec_venc32(v).len() <= b.len(),
        b.subrange(pos, pos + spec_venc32(v).len()) == spec_venc32(v),
    ensures
        spec_vdec32(b, pos) == Some((v, pos + spec_venc32(v).len())),
{
    lemma_auto_spec_u16_to_from_le_bytes();
    lemma_auto_spec_u32_to_from_le_bytes();
    let e = spec_venc32(v);
    assert(b[pos] == e[0]);
    if v < 251 {
        assert((v as u8) as u32 == v);
    } else if v < 0x10000 {
        assert(b.subrange(pos + 1, pos + 3) =~= e.subrange(1, 3));
        assert(e.subrange(1, 3) =~= spec_u16_to_le_bytes(v as u16));
        assert((v as u16) as u32 == v);
    } else {
        assert(b.subrange(pos + 1, pos + 5) =~= e.subrange(1, 5));
        assert(e.subrange(1, 5) =~= spec_u32_to_le_bytes(v));
    }
}

/// Reading a length-prefixed byte string back from where it was written
/// yields the bytes, for any byte string short enough to sit in memory.
pub proof fn lemma_dec_bytes_of_enc(b: Seq<u8>, pos: int, data: Seq<u8>)
    requires
        0 <= pos,
        data.len() < 0x8000_0000_0000_0000,
        pos + spec_enc_bytes(data).len() <= b.len(),
        b.subrange(pos, pos + spec_enc_bytes(data).len()) == spec_enc_bytes(data),
    ensures
        spec_dec_bytes(b, pos) == Some((data, pos + spec_enc_bytes(data).len())),
{
    lemma_auto_spec_u64_to_from_le_bytes();
    let e = spec_enc_bytes(data);
    let n = data.len() as u64;
    assert(spec_u64_to_le_bytes(n).len() == 8);
    assert(b.subrange(pos, pos + 8) =~= e.subrange(0, 8));
    assert(e.subrange(0, 8) =~= spec_u64_to_le_bytes(n));
    assert(spec_dec64(b, pos) == Some((n, pos + 8)));
    assert(b.subrange(pos + 8, pos + 8 + n as int) =~= e.subrange(8, 8 + n as int));
    assert(e.subrange(8, 8 + n as int) =~= data);
}

/// Reading a length-prefixed string back from where it was written yields
/// the same characters.
pub proof fn lemma_dec_str_of_enc(b: Seq<u8>, pos: int, s: Seq<char>)
    requires
        0 <= pos,
        encode_utf8(s).len() < 0x8000_0000_0000_0000,
        pos + spec_enc_str(s).len() <= b.len(),
        b.subrange(pos, pos + spec_enc_str(s).len()) == spec_enc_str(s),
    ensures
        spec_dec_str(b, pos) == Some((s, pos + spec_enc_str(s).len())),
{
    let data = encode_utf8(s);
    lemma_dec_bytes_of_enc(b, pos, data);
    encode_utf8_valid_utf8(s);
    encode_utf8_decode_utf8(s);
}

// ---------- trusted conversion ----------

/// Relies on `String::from_utf8`: it succeeds exactly on valid UTF-8 input
/// and returns the string whose UTF-8 encoding is that input.
#[verifier::external_body]
pub(crate) fn vec_to_string(v: Vec<u8>) -> (r: Option<String>)
    ensures
        r matches Some(s) ==> valid_utf8(v@) && s@ == decode_utf8(v@),
        r is None ==> !valid_utf8(v@),
{
    match String::from_utf8(v) {
        Ok(s) => Some(s),
        Err(_) => None,
    }
}

// ---------- encoders (exec) ----------

/// Appends a fixed-width `u16` to the buffer.
pub fn write_u16(out: &mut Vec<u8>, v: u16)
    ensures
        final(out)@ == old(out)@ + spec_u16_to_le_bytes(v),
{
    let mut b = u16_to_le_bytes(v);
    out.append(&mut b);
}

/// Appends a fixed-width `u32` to the buffer.
pub fn write_u32(out: &mut Vec<u8>, v: u32)
    ensures
        final(out)@ == old(out)@ + spec_u32_to_le_bytes(v),
{
    let mut b = u32_to_le_bytes(v);
    out.append(&mut b);
}

/// Appends a fixed-width `u64` to the buffer.
pub fn write_u64(out: &mut Vec<u8>, v: u64)
    ensures
        final(out)@ == old(out)@ + spec_u64_to_le_bytes(v),
{
    let mut b = u64_to_le_bytes(v);
    out.append(&mut b);
}

/// Appends a varint `u16` to the buffer.
pub fn write_v16(out: &mut Vec<u8>, v: u16)
    ensures
        final(out)@ == old(out)@ + spec_venc16(v),
{
    if v < 251 {
        out.push(v as u8);
        assert(out@ =~= old(out)@ + spec_venc16(v));
    } else {
        out.push(VARINT_U16_TAG);
        let mut b = u16_to_le_bytes(v);
        out.append(&mut b);
        assert(out@ =~= old(out)@ + spec_venc16(v));
    }
}

/// Appends a varint `u32` to the buffer.
pub fn write_v32(out: &mut Vec<u8>, v: u32)
    ensures
        final(out)@ == old(out)@ + spec_venc32(v),
{
    if v < 251 {
        out.push(v as u8);
        assert(out@ =~= old(out)@ + spec_venc32(v));
    } else if v < 0x10000 {
        out.push(VARINT_U16_TAG);
        let mut b = u16_to_le_bytes(v as u16);
        out.append(&mut b);
        assert(out@ =~= old(out)@ + spec_venc32(v));
    } else {
        out.push(VARINT_U32_TAG);
        let mut b = u32_to_le_bytes(v);
        out.append(&mut b);
        assert(out@ =~= old(out)@ + spec_venc32(v));
    }
}

/// Appends raw bytes to the buffer.
pub fn write_raw(out: &mut Vec<u8>, data: &[u8])
    ensures
        final(out)@ == old(out)@ + data@,
{
    let mut b = slice_to_vec(data);
    out.append(&mut b);
}

/// Appends a length-prefixed byte string to the buffer.
pub fn write_bytes(out: &mut Vec<u8>, data: &[u8])
    ensures
        final(out)@ == old(out)@ + spec_enc_bytes(data@),
{
    write_u64(out, data.len() as u64);
    let mut b = slice_to_vec(data);
    out.append(&mut b);
    assert(out@ =~= old(out)@ + spec_enc_bytes(data@));
}

/// Appends a length-prefixed string to the buffer, as UTF-8 bytes.
pub fn write_str(out: &mut Vec<u8>, s: &str)
    ensures
        final(out)@ == old(out)@ + spec_enc_str(s@),
{
    let b = s.as_bytes();
    write_bytes(out, b);
}

/// Appends a wire boolean to the buffer.
pub fn write_bool(out: &mut Vec<u8>, v: bool)
    ensures
        final(out)@ == old(out)@ + seq![if v { 1u8 } else { 0u8 }],
{
    out.push(if v { 1u8 } else { 0u8 });
    assert(out@ =~= old(out)@ + seq![if v { 1u8 } else { 0u8 }]);
}

// ---------- decoders (exec) ----------

/// Reads a fixed-width `u16`; mirrors [`spec_dec16`].
pub fn read_u16(b: &[u8], pos: usize) -> (r: Option<(u16, usize)>)
    ensures
        r matches Some(x) ==> spec_dec16(b@, pos as int) == Some((x.0, x.1 as int)),
        r is None ==> spec_dec16(b@, pos as int) is None,
{
    if pos <= b.len() && b.len() - pos >= 2 {
        let v = u16_from_le_bytes(slice_subrange(b, pos, pos + 2));
        Some((v, pos + 2))
    } else {
        None
    }
}

/// Reads a fixed-width `u32`; mirrors [`spec_dec32`].
pub fn read_u32(b: &[u8], pos: usize) -> (r: Option<(u32, usize)>)
    ensures
        r matches Some(x) ==> spec_dec32(b@, pos as int) == Some((x.0, x.1 as int)),
        r is None ==> spec_dec32(b@, pos as int) is None,
{
    if pos <= b.len() && b.len() - pos >= 4 {
        let v = u32_from_le_bytes(slice_subrange(b, pos, pos + 4));
        Some((v, pos + 4))
    } else {
        None
    }
}

/// Reads a fixed-width `u64`; mirrors [`spec_dec64`].
pub fn read_u64(b: &[u8], pos: usize) -> (r: Option<(u64, usize)>)
    ensures
        r matches Some(x) ==> spec_dec64(b@, pos as int) == Some((x.0, x.1 as int)),
        r is None ==> spec_dec64(b@, pos as int) is None,
{
    if pos <= b.len() && b.len() - pos >= 8 {
        let v = u64_from_le_bytes(slice_subrange(b, pos, pos + 8));
        Some((v, pos + 8))
    } else {
        None
    }
}

/// Reads a varint `u16`; mirrors [`spec_vdec16`].
pub fn read_v16(b: &[u8], pos: usize) -> (r: Option<(u16, usize)>)
    ensures
        r matches Some(x) ==> spec_vdec16(b@, pos as int) == Some((x.0, x.1 as int)),
        r is None ==> spec_vdec16(b@, pos as int) is None,
{
    if pos >= b.len() {
        return None;
    }
    let tag = *slice_index_get(b, pos);
    if tag < VARINT_U16_TAG {
        Some((tag as u16, pos + 1))
    } else if tag == VARINT_U16_TAG {
        if b.len() - pos >= 3 {
            let v = u16_from_le_bytes(slice_subrange(b, pos + 1, pos + 3));
            Some((v, pos + 3))
        } else {
            None
        }
    } else {
        None
    }
}

/// Reads a varint `u32`; mirrors [`spec_vdec32`].
pub fn read_v32(b: &[u8], pos: usize) -> (r: Option<(u32, usize)>)
    ensures
        r matches Some(x) ==> spec_vdec32(b@, pos as int) == Some((x.0, x.1 as int)),
        r is None ==> spec_vdec32(b@, pos as int) is None,
{
    if pos >= b.len() {
        return None;
    }
    let tag = *slice_index_get(b, pos);
    if tag < VARINT_U16_TAG {
        Some((tag as u32, pos + 1))
    } else if tag == VARINT_U16_TAG {
        if b.len() - pos >= 3 {
            let v = u16_from_le_bytes(slice_subrange(b, pos + 1, pos + 3));
            Some((v as u32, pos + 3))
        } else {
            None
        }
    } else if tag == VARINT_U32_TAG {
        if b.len() - pos >= 5 {
            let v = u32_from_le_bytes(slice_subrange(b, pos + 1, pos + 5));
            Some((v, pos + 5))
        } else {
            None
        }
    } else {
        None
    }
}

/// Reads a length-prefixed byte string; mirrors [`spec_dec_bytes`].
pub fn read_bytes(b: &[u8], pos: usize) -> (r: Option<(Vec<u8>, usize)>)
    ensures
        r matches Some(x) ==> spec_dec_bytes(b@, pos as int) == Some((x.0@, x.1 as int)),
        r is None ==> spec_dec_bytes(b@, pos as int) is None,
{
    match read_u64(b, pos) {
        None => None,
        Some((n, p)) => {
            if n <= (b.len() - p) as u64 {
                let end = p + n as usize;
                let data = slice_to_vec(slice_subrange(b, p, end));
                Some((data, end))
            } else {
                None
            }
        },
    }
}

/// Reads a length-prefixed UTF-8 string; mirrors [`spec_dec_str`].
pub fn read_string(b: &[u8], pos: usize) -> (r: Option<(String, usize)>)
    ensures
        r matches Some(x) ==> spec_dec_str(b@, pos as int) == Some((x.0@, x.1 as int)),
        r is None ==> spec_dec_str(b@, pos as int) is None,
{
    match read_bytes(b, pos) {
        None => None,
        Some((data, p)) => {
            match vec_to_string(data) {
                None => None,
                Some(s) => Some((s, p)),
            }
        },
    }
}

/// Reads a wire boolean; mirrors [`spec_dec_bool`].
pub fn read_bool(b: &[u8], pos: usize) -> (r: Option<(bool, usize)>)
    ensures
        r matches Some(x) ==> spec_dec_bool(b@, pos as int) == Some((x.0, x.1 as int)),
        r is None ==> spec_dec_bool(b@, pos as int) is None,
{
    if pos >= b.len() {
        return None;
    }
    let v = *slice_index_get(b, pos);
    if v == 0 {
        Some((false, pos + 1))
    } else if v == 1 {
        Some((true, pos + 1))
    } else {
        None
    }
}

/// A packed integer with byte `n` (little-endian position) replaced.
pub open spec fn spec_set_byte(a: u32, n: u8, value: u8) -> u32
    recommends
        n < 4,
{
    (a & !(0xFFu32 << (8 * n as u32))) | ((value as u32) << (8 * n as u32))
}

/// Replaces byte `n` (little-endian position) of a packed integer.
pub fn set_byte(a: u32, n: u8, value: u8) -> (r: u32)
    requires
        n < 4,
    ensures
        r == spec_set_byte(a, n, value),
{
    let sh: u32 = 8 * (n as u32);
    (a & !(0xFFu32 << sh)) | ((value as u32) << sh)
}

/// Whether two byte strings hold the same bytes.
pub fn bytes_eq(a: &[u8], b: &[u8]) -> (r: bool)
    ensures
        r == (a@ == b@),
{
    let na = a.len();
    let nb = b.len();
    if na != nb {
        proof {
            if a@ == b@ {
                assert(a@.len() == b@.len());
            }
        }
        return false;
    }
    let mut i: usize = 0;
    while i < na
        invariant
            na == a@.len(),
            na == b@.len(),
            i <= na,
            forall|j: int| 0 <= j < i ==> a@[j] == b@[j],
        decreases na - i,
    {
        if *slice_index_get(a, i) != *slice_index_get(b, i) {
            return false;
        }
        i = i + 1;
    }
    proof {
        assert(a@ =~= b@);
    }
    true
}

// ---------- the header delimiter ----------

/// True when six delimiter bytes `0xFF` stand at `i`.
pub open spec fn delim_at(b: Seq<u8>, i: int) -> bool {
    &&& 0 <= i
    &&& i + 6 <= b.len()
    &&& forall|j: int| i <= j < i + 6 ==> b[j] == 0xFFu8
}

/// Position of the first delimiter at or after `i`, if any.
pub open spec fn spec_find_delim_from(b: Seq<u8>, i: int) -> Option<int>
    decreases b.len() - i,
{
    if i < 0 || i + 6 > b.len() {
        None
    } else if delim_at(b, i) {
        Some(i)
    } else {
        spec_find_delim_from(b, i + 1)
    }
}

/// Position of the first delimiter in the stream, if any.
pub open spec fn spec_find_delim(b: Seq<u8>) -> Option<int> {
    spec_find_delim_from(b, 0)
}

/// The first delimiter is a delimiter, and nothing before it is one.
pub proof fn lemma_find_delim_from_first(b: Seq<u8>, i: int)
    requires
        0 <= i,
    ensures
        spec_find_delim_from(b, i) matches Some(p) ==> i <= p && delim_at(b, p) && (forall|j: int|
            i <= j < p ==> !delim_at(b, j)),
        spec_find_delim_from(b, i) is None ==> forall|j: int| i <= j ==> !delim_at(b, j),
    decreases b.len() - i,
{
    if i + 6 > b.len() {
    } else if delim_at(b, i) {
    } else {
        lemma_find_delim_from_first(b, i + 1);
    }
}

/// A delimiter ending a buffer stays the first one when bytes follow.
pub proof fn lemma_find_delim_extend(h: Seq<u8>, rest: Seq<u8>)
    requires
        h.len() >= 6,
        spec_find_delim(h) == Some(h.len() - 6),
    ensures
        spec_find_delim(h + rest) == Some(h.len() - 6),
{
    let all = h + rest;
    let p = h.len() - 6;
    lemma_find_delim_from_first(h, 0);
    assert(delim_at(all, p)) by {
        assert(forall|j: int| p <= j < p + 6 ==> all[j] == h[j] && h[j] == 0xFFu8);
    }
    assert forall|j: int| 0 <= j < p implies !delim_at(all, j) by {
        assert(!delim_at(h, j));
        if delim_at(all, j) {
            assert(forall|k: int| j <= k < j + 6 ==> h[k] == all[k] && all[k] == 0xFFu8);
            assert(delim_at(h, j));
        }
    }
    lemma_find_delim_first_unique(all, p);
}

/// A position that is a delimiter, with none before it, is where the scan stops.
pub proof fn lemma_find_delim_first_unique(b: Seq<u8>, p: int)
    requires
        delim_at(b, p),
        forall|j: int| 0 <= j < p ==> !delim_at(b, j),
    ensures
        spec_find_delim(b) == Some(p),
{
    lemma_find_delim_stops(b, 0, p);
}

proof fn lemma_find_delim_stops(b: Seq<u8>, i: int, p: int)
    requires
        0 <= i <= p,
        delim_at(b, p),
        forall|j: int| i <= j < p ==> !delim_at(b, j),
    ensures
        spec_find_delim_from(b, i) == Some(p),
    decreases p - i,
{
    if i == p {
    } else {
        lemma_find_delim_stops(b, i + 1, p);
    }
}

/// Whether six delimiter bytes stand at `i`; mirrors [`delim_at`].
fn delim_at_exec(b: &[u8], i: usize) -> (r: bool)
    requires
        i + 6 <= b@.len(),
    ensures
        r == delim_at(b@, i as int),
{
    let n = b.len();
    assert(n == b@.len());
    let r = *slice_index_get(b, i) == 0xFF && *slice_index_get(b, i + 1) == 0xFF
        && *slice_index_get(b, i + 2) == 0xFF && *slice_index_get(b, i + 3) == 0xFF
        && *slice_index_get(b, i + 4) == 0xFF && *slice_index_get(b, i + 5) == 0xFF;
    proof {
        if r {
            assert forall|j: int| i <= j < i + 6 implies b@[j] == 0xFFu8 by {
                assert(j == i || j == i + 1 || j == i + 2 || j == i + 3 || j == i + 4 || j == i
                    + 5);
            }
        }
    }
    r
}

/// Scans for the first delimiter in the stream; mirrors [`spec_find_delim`].
pub fn find_delim(b: &[u8]) -> (r: Option<usize>)
    ensures
        r matches Some(p) ==> spec_find_delim(b@) == Some(p as int),
        r is None ==> spec_find_delim(b@) is None,
{
    let n = b.len();
    if n < 6 {
        return None;
    }
    let mut i: usize = 0;
    while i <= n - 6
        invariant
            n == b@.len(),
            6 <= n,
            i <= n - 5,
            spec_find_delim(b@) == spec_find_delim_from(b@, i as int),
        decreases b@.len() - i,
    {
        if delim_at_exec(b, i) {
            return Some(i);
        }
        i = i + 1;
    }
    None
}

} // verus!
