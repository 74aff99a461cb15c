//! The stream header written once when a store is created.
use crate::error::FsError;
use vstd::bytes::{
    lemma_auto_spec_u32_to_from_le_bytes, lemma_auto_spec_u64_to_from_le_bytes,
    spec_u32_from_le_bytes, spec_u32_to_le_bytes, spec_u64_from_le_bytes, spec_u64_to_le_bytes,
    u32_from_le_bytes, u32_to_le_bytes, u64_from_le_bytes, u64_to_le_bytes,
};
use vstd::prelude::*;
use vstd::slice::slice_subrange;
use vstd::utf8::{decode_utf8, encode_utf8, encode_utf8_decode_utf8, valid_utf8};

verus! {

/// Value of the magic number that marks an initialized store.
pub const TOPIC_HEADER_MAGIC: u64 = 123246369;

/// Format version written into new headers.
pub const BINARY_VERSION: u32 = 1000000;

/// Identity of the stream held in a store.
#[derive(Clone, Debug, PartialEq)]
pub struct TopicHeaderBlock {
    pub event_stream_name: String,
    /// Reserved; always zero.
    pub first_message_ptr: u64,
    pub binary_version: u32,
}

impl View for TopicHeaderBlock {
    type V = (Seq<char>, u64, u32);

    open spec fn view(&self) -> (Seq<char>, u64, u32) {
        (self.event_stream_name@, self.first_message_ptr, self.binary_version)
    }
}

/// The encoding of a header: the name's UTF-8 length as a little-endian
/// `u64`, the UTF-8 bytes, then the two numbers little-endian.
pub open spec fn header_encoding(v: (Seq<char>, u64, u32)) -> Seq<u8> {
    spec_u64_to_le_bytes(encode_utf8(v.0).len() as u64) + encode_utf8(v.0) + spec_u64_to_le_bytes(
        v.1,
    ) + spec_u32_to_le_bytes(v.2)
}

/// The header that `b` encodes exactly, if any.
pub open spec fn header_decoding(b: Seq<u8>) -> Option<(Seq<char>, u64, u32)> {
    if b.len() < 20 {
        None
    } else {
        let n = spec_u64_from_le_bytes(b.subrange(0, 8)) as int;
        if n + 20 != b.len() {
            None
        } else if !valid_utf8(b.subrange(8, 8 + n)) {
            None
        } else {
            Some(
                (
                    decode_utf8(b.subrange(8, 8 + n)),
                    spec_u64_from_le_bytes(b.subrange(8 + n, 16 + n)),
                    spec_u32_from_le_bytes(b.subrange(16 + n, 20 + n)),
                ),
            )
        }
    }
}

pub proof fn lemma_header_round_trip(v: (Seq<char>, u64, u32))
    requires
        encode_utf8(v.0).len() <= u64::MAX,
    ensures
        header_encoding(v).len() == encode_utf8(v.0).len() + 20,
        header_decoding(header_encoding(v)) == Some(v),
{
    lemma_auto_spec_u64_to_from_le_bytes();
    lemma_auto_spec_u32_to_from_le_bytes();
    encode_utf8_decode_utf8(v.0);
    vstd::utf8::encode_utf8_valid_utf8(v.0);
    let u = encode_utf8(v.0);
    let n = u.len() as int;
    let b = header_encoding(v);
    assert(b.subrange(0, 8) =~= spec_u64_to_le_bytes(n as u64));
    assert(b.subrange(8, 8 + n) =~= u);
    assert(b.subrange(8 + n, 16 + n) =~= spec_u64_to_le_bytes(v.1));
    assert(b.subrange(16 + n, 20 + n) =~= spec_u32_to_le_bytes(v.2));
}

/// Relies on `std::str::from_utf8`: it succeeds exactly on valid UTF-8, and
/// then the string's UTF-8 encoding is the input.
#[verifier::external_body]
fn utf8_to_string(b: &[u8]) -> (r: Option<String>)
    ensures
        match r {
            Some(s) => encode_utf8(s@) == b@,
            None => !valid_utf8(b@),
        },
{
    std::str::from_utf8(b).ok().map(String::from)
}

impl TopicHeaderBlock {
    /// A header for the named stream, at the current format version.
    pub fn new(event_stream_name: String) -> (r: TopicHeaderBlock)
        ensures
            r@ == (event_stream_name@, 0u64, BINARY_VERSION),
    {
        TopicHeaderBlock { event_stream_name, first_message_ptr: 0, binary_version: BINARY_VERSION }
    }

    /// Length of the encoded header.
    pub open spec fn encoded_len(&self) -> nat {
        encode_utf8(self.event_stream_name@).len() + 20
    }

    /// Encodes the header.
    pub fn to_bytes(&self) -> (r: Vec<u8>)
        requires
            self.encoded_len() <= usize::MAX,
        ensures
            r@ == header_encoding(self@),
            r@.len() == self.encoded_len(),
    {
        let name: &[u8] = self.event_stream_name.as_str().as_bytes();
        let mut out = u64_to_le_bytes(name.len() as u64);
        let mut i: usize = 0;
        while i < name.len()
            invariant
                i <= name@.len(),
                name@ == encode_utf8(self.event_stream_name@),
                out@ == spec_u64_to_le_bytes(name@.len() as u64) + name@.subrange(0, i as int),
            decreases name@.len() - i,
        {
            out.push(name[i]);
            i += 1;
            assert(out@ =~= spec_u64_to_le_bytes(name@.len() as u64) + name@.subrange(0, i as int));
        }
        assert(name@.subrange(0, name@.len() as int) =~= name@);
        let mut b = u64_to_le_bytes(self.first_message_ptr);
        out.append(&mut b);
        let mut b = u32_to_le_bytes(self.binary_version);
        out.append(&mut b);
        proof {
            lemma_auto_spec_u64_to_from_le_bytes();
            lemma_auto_spec_u32_to_from_le_bytes();
        }
        out
    }

    /// Decodes a header from exactly the bytes of its encoding.
    pub fn from_bytes(b: &[u8]) -> (r: Result<TopicHeaderBlock, FsError>)
        ensures
            match header_decoding(b@) {
                Some(v) => r matches Ok(h) && h@ == v,
                None => r == Err::<TopicHeaderBlock, FsError>(FsError::DecodeError),
            },
    {
        if b.len() < 20 {
            return Err(FsError::DecodeError);
        }
        let n: u64 = u64_from_le_bytes(slice_subrange(b, 0, 8));
        if n > (b.len() - 20) as u64 || n + 20 != b.len() as u64 {
            return Err(FsError::DecodeError);
        }
        let n: usize = n as usize;
        let name = match utf8_to_string(slice_subrange(b, 8, 8 + n)) {
            Some(s) => s,
            None => {
                return Err(FsError::DecodeError);
            },
        };
        proof {
            encode_utf8_decode_utf8(name@);
            vstd::utf8::encode_utf8_valid_utf8(name@);
        }
        let first_message_ptr = u64_from_le_bytes(slice_subrange(b, 8 + n, 16 + n));
        let binary_version = u32_from_le_bytes(slice_subrange(b, 16 + n, 20 + n));
        Ok(TopicHeaderBlock { event_stream_name: name, first_message_ptr, binary_version })
    }
}

} // verus!
