//! The fixed-size index record stored for each appended message.
use vstd::bytes::{
    lemma_auto_spec_u64_to_from_le_bytes, spec_u64_from_le_bytes, spec_u64_to_le_bytes,
    u64_from_le_bytes, u64_to_le_bytes,
};
use vstd::prelude::*;
use vstd::slice::slice_subrange;

verus! {

/// Where one message lies in the data zone, and when it was appended.
#[derive(Clone, Copy, Debug, PartialEq, Eq, Structural)]
pub struct IndexBlock {
    /// The write height at which the record was made.
    pub height: u64,
    /// Exact length of the payload in bytes.
    pub data_size: u64,
    /// First data block of the payload; also the message identifier.
    pub start_idx: u64,
    /// First data block after the payload.
    pub end_idx: u64,
    /// Clock value at append.
    pub timestamp: u64,
}

/// The 40-byte encoding: the five fields as little-endian `u64`, in order.
pub open spec fn index_encoding(r: IndexBlock) -> Seq<u8> {
    spec_u64_to_le_bytes(r.height) + spec_u64_to_le_bytes(r.data_size) + spec_u64_to_le_bytes(
        r.start_idx,
    ) + spec_u64_to_le_bytes(r.end_idx) + spec_u64_to_le_bytes(r.timestamp)
}

/// The record whose fields are the five little-endian `u64` in `b`.
pub open spec fn index_decoding(b: Seq<u8>) -> IndexBlock {
    IndexBlock {
        height: spec_u64_from_le_bytes(b.subrange(0, 8)),
        data_size: spec_u64_from_le_bytes(b.subrange(8, 16)),
        start_idx: spec_u64_from_le_bytes(b.subrange(16, 24)),
        end_idx: spec_u64_from_le_bytes(b.subrange(24, 32)),
        timestamp: spec_u64_from_le_bytes(b.subrange(32, 40)),
    }
}

pub proof fn lemma_index_round_trip(r: IndexBlock)
    ensures
        index_encoding(r).len() == 40,
        index_decoding(index_encoding(r)) == r,
{
    lemma_auto_spec_u64_to_from_le_bytes();
    let b = index_encoding(r);
    assert(b.subrange(0, 8) =~= spec_u64_to_le_bytes(r.height));
    assert(b.subrange(8, 16) =~= spec_u64_to_le_bytes(r.data_size));
    assert(b.subrange(16, 24) =~= spec_u64_to_le_bytes(r.start_idx));
    assert(b.subrange(24, 32) =~= spec_u64_to_le_bytes(r.end_idx));
    assert(b.subrange(32, 40) =~= spec_u64_to_le_bytes(r.timestamp));
}

impl IndexBlock {
    /// Encodes the record in its fixed 40-byte form.
    pub fn to_bytes(&self) -> (r: Vec<u8>)
        ensures
            r@ == index_encoding(*self),
            r@.len() == 40,
    {
        proof {
            lemma_auto_spec_u64_to_from_le_bytes();
        }
        let mut out = u64_to_le_bytes(self.height);
        let mut b = u64_to_le_bytes(self.data_size);
        out.append(&mut b);
        let mut b = u64_to_le_bytes(self.start_idx);
        out.append(&mut b);
        let mut b = u64_to_le_bytes(self.end_idx);
        out.append(&mut b);
        let mut b = u64_to_le_bytes(self.timestamp);
        out.append(&mut b);
        out
    }

    /// Decodes a record from its 40-byte form; every 40 bytes decode.
    pub fn from_bytes(b: &[u8]) -> (r: IndexBlock)
        requires
            b@.len() == 40,
        ensures
            r == index_decoding(b@),
    {
        IndexBlock {
            height: u64_from_le_bytes(slice_subrange(b, 0, 8)),
            data_size: u64_from_le_bytes(slice_subrange(b, 8, 16)),
            start_idx: u64_from_le_bytes(slice_subrange(b, 16, 24)),
            end_idx: u64_from_le_bytes(slice_subrange(b, 24, 32)),
            timestamp: u64_from_le_bytes(slice_subrange(b, 32, 40)),
        }
    }
}

} // verus!
