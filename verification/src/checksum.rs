//! Checksum envelope: a CRC32 over header and compressed body, carried in a
//! fixed 20-byte footer at the end of every stream.
use crate::types::CheckSum;
use crate::wire::{read_u32, spec_dec32, write_raw, write_u32};
use vstd::bytes::{lemma_auto_spec_u32_to_from_le_bytes, spec_u32_from_le_bytes, spec_u32_to_le_bytes};
use vstd::prelude::*;
use vstd::slice::slice_index_get;

verus! {

/// The sixteen fixed marker bytes: the ASCII text "CheckSum" padded with nulls.
pub open spec fn spec_marker() -> Seq<u8> {
    seq![
        0x00u8,
        0x00u8,
        0x00u8,
        0x00u8,
        0x43u8,
        0x68u8,
        0x65u8,
        0x63u8,
        0x6Bu8,
        0x53u8,
        0x75u8,
        0x6Du8,
        0x00u8,
        0x00u8,
        0x00u8,
        0x00u8,
    ]
}

/// Length of the footer: the marker and a four-byte checksum.
pub const FOOTER_LEN: usize = 20;

/// Names the CRC-32 (IEEE) checksum of a byte sequence.
pub uninterp spec fn crc32_of(data: Seq<u8>) -> u32;

/// Relies on `crc32fast::hash`: the CRC-32 (IEEE) checksum of the bytes,
/// a function of the bytes alone.
#[verifier::external_body]
pub(crate) fn compute_crc32(data: &[u8]) -> (r: u32)
    ensures
        r == crc32_of(data@),
{
    crc32fast::hash(data)
}

/// The footer on the wire: the marker, then the checksum little-endian.
pub open spec fn spec_ser_footer(crc: u32) -> Seq<u8> {
    spec_marker() + spec_u32_to_le_bytes(crc)
}

/// The checksum stored in a stream's last twenty bytes, when the stream is
/// long enough and the marker is intact.
pub open spec fn spec_parse_footer(b: Seq<u8>) -> Option<u32> {
    if b.len() >= 20 && b.subrange(b.len() - 20, b.len() - 4) == spec_marker() {
        Some(spec_u32_from_le_bytes(b.subrange(b.len() - 4, b.len() as int)))
    } else {
        None
    }
}

/// A footer written after any prefix reads back as written.
pub proof fn lemma_parse_footer_of_ser(prefix: Seq<u8>, crc: u32)
    ensures
        spec_parse_footer(prefix + spec_ser_footer(crc)) == Some(crc),
{
    lemma_auto_spec_u32_to_from_le_bytes();
    let b = prefix + spec_ser_footer(crc);
    assert(spec_u32_to_le_bytes(crc).len() == 4);
    assert(b.len() == prefix.len() + 20);
    assert(b.subrange(b.len() - 20, b.len() - 4) =~= spec_marker());
    assert(b.subrange(b.len() - 4, b.len() as int) =~= spec_u32_to_le_bytes(crc));
}

impl CheckSum {
    /// The footer value sealing a stream whose earlier bytes are `data`.
    pub fn seal(data: &[u8]) -> (r: CheckSum)
        ensures
            r.crc32 == crc32_of(data@),
            r.del@ == spec_marker(),
    {
        let del: [u8; 16] = [
            0x00,
            0x00,
            0x00,
            0x00,
            0x43,
            0x68,
            0x65,
            0x63,
            0x6B,
            0x53,
            0x75,
            0x6D,
            0x00,
            0x00,
            0x00,
            0x00,
        ];
        proof {
            assert(del@ =~= spec_marker());
        }
        CheckSum { del, crc32: compute_crc32(data) }
    }

    /// Serializes the footer; mirrors [`spec_ser_footer`].
    pub fn to_bytes(&self) -> (r: Vec<u8>)
        requires
            self.del@ == spec_marker(),
        ensures
            r@ == spec_ser_footer(self.crc32),
    {
        let mut out: Vec<u8> = Vec::new();
        write_raw(&mut out, self.del.as_slice());
        write_u32(&mut out, self.crc32);
        out
    }
}

/// Reads the stored checksum from a stream's tail; mirrors [`spec_parse_footer`].
pub fn read_footer(b: &[u8]) -> (r: Option<u32>)
    ensures
        r matches Some(c) ==> spec_parse_footer(b@) == Some(c),
        r is None ==> spec_parse_footer(b@) is None,
{
    let n = b.len();
    if n < 20 {
        return None;
    }
    let start = n - 20;
    let marker: [u8; 16] = [
        0x00,
        0x00,
        0x00,
        0x00,
        0x43,
        0x68,
        0x65,
        0x63,
        0x6B,
        0x53,
        0x75,
        0x6D,
        0x00,
        0x00,
        0x00,
        0x00,
    ];
    proof {
        assert(marker@ =~= spec_marker());
    }
    let mut i: usize = 0;
    while i < 16
        invariant
            n == b@.len(),
            n >= 20,
            start == n - 20,
            i <= 16,
            marker@ == spec_marker(),
            forall|j: int| 0 <= j < i ==> b@[start + j] == spec_marker()[j],
        decreases 16 - i,
    {
        if *slice_index_get(b, start + i) != marker[i] {
            proof {
                let tail = b@.subrange(n - 20, n - 4);
                assert(tail[i as int] == b@[start + i]);
                assert(tail != spec_marker());
            }
            return None;
        }
        i = i + 1;
    }
    proof {
        assert(b@.subrange(n - 20, n - 4) =~= spec_marker());
    }
    match read_u32(b, n - 4) {
        Some((c, _)) => {
            proof {
                assert(spec_dec32(b@, n - 4) == Some((c, n as int)));
                assert(b@.subrange(n - 4, n as int) == b@.subrange(n - 4, (n - 4) + 4));
            }
            Some(c)
        },
        None => None,
    }
}

} // verus!
