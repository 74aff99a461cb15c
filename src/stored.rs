//! What a memory holds when read as a log: the persisted height, the index
//! records, the messages, the stream header and the snapshot blob.
use crate::error::FsError;
use crate::index_block::{index_decoding, IndexBlock};
use crate::layout::{
    block_count, data_block_offset, index_slot_offset, lemma_block_count_bounds, FREE_MEMORY_BLOCK_SIZE,
    FREE_MEMORY_BLOCK_SIZE_IDX, FREE_MEMORY_BLOCK_START_IDX, IDX_BLOCK_SIZE, IDX_ZONE_END, IDX_ZONE_IDX,
    MAGIC_NUMBER_IDX, MAX_BLOCKS, TOPIC_BLOCK_DATA_START_IDX, TOPIC_BLOCK_MAX_SIZE,
    TOPIC_BLOCK_SIZE_IDX, TOPIC_HEIGHT_IDX,
};
use crate::memory::{byte_at, region};
use crate::topic_header_block::{header_decoding, TOPIC_HEADER_MAGIC};
use vstd::bytes::spec_u64_from_le_bytes;
use vstd::prelude::*;

verus! {

/// The little-endian `u64` stored at `offset`.
pub open spec fn stored_u64(m: Seq<u8>, offset: int) -> u64 {
    spec_u64_from_le_bytes(region(m, offset, 8))
}

/// Whether the magic number marks `m` as an initialized store.
pub open spec fn magic_ok(m: Seq<u8>) -> bool {
    stored_u64(m, MAGIC_NUMBER_IDX as int) == TOPIC_HEADER_MAGIC
}

/// The persisted write height: the next free data block.
pub open spec fn stored_height(m: Seq<u8>) -> u64 {
    stored_u64(m, TOPIC_HEIGHT_IDX as int)
}

/// The index record held in slot `slot`.
pub open spec fn stored_index(m: Seq<u8>, slot: nat) -> IndexBlock {
    index_decoding(region(m, index_slot_offset(slot) as int, IDX_BLOCK_SIZE as nat))
}

/// Whether `r`, found in slot `id`, describes a message that starts at
/// block `id` and lies within the data zone.
pub open spec fn record_valid(r: IndexBlock, id: nat) -> bool {
    &&& r.height == id
    &&& r.start_idx == id
    &&& r.end_idx == id + block_count(r.data_size as nat)
    &&& r.end_idx <= MAX_BLOCKS
}

/// The payload that slot `id` describes, whether or not the height covers it.
pub open spec fn stored_record(m: Seq<u8>, id: nat) -> Result<Seq<u8>, FsError> {
    if id >= MAX_BLOCKS {
        Err(FsError::RecordNotFound)
    } else if !record_valid(stored_index(m, id), id) {
        Err(FsError::RecordNotFound)
    } else {
        Ok(region(m, data_block_offset(id) as int, stored_index(m, id).data_size as nat))
    }
}

/// The committed message identified by `id`: a record whose blocks lie
/// below the persisted height.
pub open spec fn stored_message(m: Seq<u8>, id: nat) -> Result<Seq<u8>, FsError> {
    match stored_record(m, id) {
        Ok(p) => if stored_index(m, id).end_idx <= stored_height(m) {
            Ok(p)
        } else {
            Err(FsError::RecordNotFound)
        },
        Err(e) => Err(e),
    }
}

/// What reading `count` identifiers from `start` on, one apart, with
/// `read` gives: all their payloads, or the first failure.
pub open spec fn range_of(
    read: spec_fn(nat) -> Result<Seq<u8>, FsError>,
    start: nat,
    count: nat,
) -> Result<Seq<Seq<u8>>, FsError>
    decreases count,
{
    if count == 0 {
        Ok(Seq::empty())
    } else {
        match read(start) {
            Err(e) => Err(e),
            Ok(p) => match range_of(read, start + 1, (count - 1) as nat) {
                Err(e) => Err(e),
                Ok(rest) => Ok(seq![p] + rest),
            },
        }
    }
}

/// The `count` records from slot `start` on, or the first reason one is missing.
pub open spec fn stored_range(m: Seq<u8>, start: nat, count: nat) -> Result<
    Seq<Seq<u8>>,
    FsError,
> {
    range_of(|id: nat| stored_record(m, id), start, count)
}

/// The `count` committed messages from `start` on, or the first reason one
/// is missing.
pub open spec fn stored_messages(m: Seq<u8>, start: nat, count: nat) -> Result<
    Seq<Seq<u8>>,
    FsError,
> {
    range_of(|id: nat| stored_message(m, id), start, count)
}

/// The stream header, if the header area holds a well-formed one.
pub open spec fn stored_header(m: Seq<u8>) -> Option<(Seq<char>, u64, u32)> {
    let size = stored_u64(m, TOPIC_BLOCK_SIZE_IDX as int);
    if size > TOPIC_BLOCK_MAX_SIZE {
        None
    } else {
        header_decoding(region(m, TOPIC_BLOCK_DATA_START_IDX as int, size as nat))
    }
}

/// The snapshot blob, or why it cannot be read.
pub open spec fn stored_snapshot(m: Seq<u8>) -> Result<Seq<u8>, FsError> {
    let size = stored_u64(m, FREE_MEMORY_BLOCK_SIZE_IDX as int);
    if size > FREE_MEMORY_BLOCK_SIZE {
        Err(FsError::DecodeError)
    } else {
        Ok(region(m, FREE_MEMORY_BLOCK_START_IDX as int, size as nat))
    }
}

/// Whether a memory can be opened as an existing store.
pub open spec fn opens(m: Seq<u8>) -> bool {
    magic_ok(m) && stored_header(m) is Some
}

/// `i` lies outside the `len` bytes from `start`.
pub open spec fn outside(i: int, start: int, len: int) -> bool {
    i < start || start + len <= i
}

/// `new` differs from `old` at most in the `len` bytes from `start`.
pub open spec fn same_outside(old: Seq<u8>, new: Seq<u8>, start: int, len: int) -> bool {
    forall|i: int| outside(i, start, len) ==> #[trigger] byte_at(new, i) == byte_at(old, i)
}

pub proof fn lemma_region_unchanged(old: Seq<u8>, new: Seq<u8>, start: int, len: nat)
    requires
        forall|i: int| start <= i < start + len ==> #[trigger] byte_at(new, i) == byte_at(old, i),
    ensures
        region(new, start, len) == region(old, start, len),
{
    assert(region(new, start, len) =~= region(old, start, len)) by {
        assert forall|k: int| 0 <= k < len implies region(new, start, len)[k] == region(
            old,
            start,
            len,
        )[k] by {
            assert(byte_at(new, start + k) == byte_at(old, start + k));
        }
    }
}

pub proof fn lemma_slot_in_zone(slot: nat)
    requires
        slot < MAX_BLOCKS,
    ensures
        IDX_ZONE_IDX <= index_slot_offset(slot),
        index_slot_offset(slot) + IDX_BLOCK_SIZE <= IDX_ZONE_END,
{
    assert(slot * 40 + 40 <= 262144 * 40) by (nonlinear_arith)
        requires
            slot < 262144,
    ;
}

pub proof fn lemma_slots_disjoint(a: nat, b: nat)
    requires
        a != b,
    ensures
        outside(index_slot_offset(a) as int, index_slot_offset(b) as int, 40)
            && outside(index_slot_offset(b) as int, index_slot_offset(a) as int, 40),
        index_slot_offset(a) + 40 <= index_slot_offset(b) || index_slot_offset(b) + 40
            <= index_slot_offset(a),
{
    if a < b {
        assert(a * 40 + 40 <= b * 40) by (nonlinear_arith)
            requires
                a < b,
        ;
    } else {
        assert(b * 40 + 40 <= a * 40) by (nonlinear_arith)
            requires
                b < a,
        ;
    }
}

pub proof fn lemma_data_ends_before(j: nat, size: nat, id: nat)
    requires
        j + block_count(size) <= id,
    ensures
        data_block_offset(j) + size <= data_block_offset(id),
{
    lemma_block_count_bounds(size);
    let c = block_count(size);
    assert(j * 512 + size <= id * 512) by (nonlinear_arith)
        requires
            j + c <= id,
            c * 512 >= size,
    ;
}

pub proof fn lemma_data_in_range(id: nat, size: nat)
    requires
        id + block_count(size) <= MAX_BLOCKS,
    ensures
        data_block_offset(id) + size <= data_block_offset(MAX_BLOCKS as nat),
        data_block_offset(MAX_BLOCKS as nat) < 0x1_0000_0000,
{
    lemma_data_ends_before(id, size, MAX_BLOCKS as nat);
}

/// Writes confined below the index zone and past the height slot leave the
/// height and every message as they were.
pub proof fn lemma_messages_unchanged(old: Seq<u8>, new: Seq<u8>, start: int, len: int)
    requires
        same_outside(old, new, start, len),
        TOPIC_HEIGHT_IDX + 8 <= start,
        start + len <= IDX_ZONE_IDX,
    ensures
        stored_height(new) == stored_height(old),
        forall|id: nat| #[trigger] stored_message(new, id) == stored_message(old, id),
{
    lemma_region_unchanged(old, new, TOPIC_HEIGHT_IDX as int, 8);
    assert forall|id: nat| #[trigger] stored_message(new, id) == stored_message(old, id) by {
        if id < MAX_BLOCKS {
            lemma_slot_in_zone(id);
            lemma_region_unchanged(old, new, index_slot_offset(id) as int, 40);
            let size = stored_index(old, id).data_size as nat;
            lemma_region_unchanged(old, new, data_block_offset(id) as int, size);
        }
    }
}

/// Writes that leave the magic number, the header area and the snapshot
/// slot alone leave the magic number, the header and the snapshot as they were.
pub proof fn lemma_header_kept(old: Seq<u8>, new: Seq<u8>)
    requires
        forall|i: int|
            (0 <= i < 8 || 16 <= i < FREE_MEMORY_BLOCK_START_IDX + FREE_MEMORY_BLOCK_SIZE)
                ==> #[trigger] byte_at(new, i) == byte_at(old, i),
    ensures
        magic_ok(new) == magic_ok(old),
        stored_header(new) == stored_header(old),
        stored_snapshot(new) == stored_snapshot(old),
{
    lemma_region_unchanged(old, new, MAGIC_NUMBER_IDX as int, 8);
    lemma_region_unchanged(old, new, TOPIC_BLOCK_SIZE_IDX as int, 8);
    let size = stored_u64(old, TOPIC_BLOCK_SIZE_IDX as int);
    if size <= TOPIC_BLOCK_MAX_SIZE {
        lemma_region_unchanged(old, new, TOPIC_BLOCK_DATA_START_IDX as int, size as nat);
    }
    lemma_region_unchanged(old, new, FREE_MEMORY_BLOCK_SIZE_IDX as int, 8);
    let fsize = stored_u64(old, FREE_MEMORY_BLOCK_SIZE_IDX as int);
    if fsize <= FREE_MEMORY_BLOCK_SIZE {
        lemma_region_unchanged(old, new, FREE_MEMORY_BLOCK_START_IDX as int, fsize as nat);
    }
}

} // verus!
