//! Fixed partition of the address space into zones, and the offset
//! arithmetic that maps message identifiers to bytes.
use vstd::prelude::*;

verus! {

/// Size of one data-zone block in bytes.
pub const BLOCK_SIZE: u64 = 512;

/// Size of one encoded index record in bytes.
pub const IDX_BLOCK_SIZE: u64 = 40;

/// Offset of the magic number.
pub const MAGIC_NUMBER_IDX: u64 = 0;

/// Offset of the persisted write height.
pub const TOPIC_HEIGHT_IDX: u64 = 8;

/// Offset of the size of the encoded stream header.
pub const TOPIC_BLOCK_SIZE_IDX: u64 = 16;

/// Offset of the encoded stream header.
pub const TOPIC_BLOCK_DATA_START_IDX: u64 = 24;

/// Largest encoded stream header, in bytes.
pub const TOPIC_BLOCK_MAX_SIZE: u64 = 512;

/// Offset of the size of the snapshot blob.
pub const FREE_MEMORY_BLOCK_SIZE_IDX: u64 = 1024;

/// Offset of the snapshot blob.
pub const FREE_MEMORY_BLOCK_START_IDX: u64 = 1032;

/// Capacity of the snapshot slot, in bytes.
pub const FREE_MEMORY_BLOCK_SIZE: u64 = 65536;

/// Start of the index zone.
pub const IDX_ZONE_IDX: u64 = 131072;

/// Number of index slots, which is also the number of data blocks.
pub const MAX_BLOCKS: u64 = 262144;

/// End of the index zone and origin of the data zone.
pub const IDX_ZONE_END: u64 = IDX_ZONE_IDX + IDX_BLOCK_SIZE * MAX_BLOCKS;

/// Number of whole blocks that `n` bytes occupy: `n / BLOCK_SIZE` rounded up.
pub open spec fn block_count(n: nat) -> nat {
    if n % (BLOCK_SIZE as nat) == 0 {
        n / (BLOCK_SIZE as nat)
    } else {
        n / (BLOCK_SIZE as nat) + 1
    }
}

/// Byte offset of index slot `slot`.
pub open spec fn index_slot_offset(slot: nat) -> nat {
    IDX_ZONE_IDX as nat + slot * IDX_BLOCK_SIZE as nat
}

/// Byte offset of data block `block`.
pub open spec fn data_block_offset(block: nat) -> nat {
    IDX_ZONE_END as nat + block * BLOCK_SIZE as nat
}

/// Whether a payload of `blocks` blocks can be placed at block `offset`:
/// its index slot and its blocks must all lie within the zones.
pub open spec fn fits(offset: nat, blocks: nat) -> bool {
    offset < MAX_BLOCKS && offset + blocks <= MAX_BLOCKS
}

pub proof fn lemma_block_count_bounds(n: nat)
    ensures
        block_count(n) * (BLOCK_SIZE as nat) >= n,
        block_count(n) == 0 || (block_count(n) - 1) * (BLOCK_SIZE as nat) < n,
        n > 0 ==> block_count(n) > 0,
{
    assert(block_count(n) * 512 >= n && (block_count(n) == 0 || (block_count(n) - 1) * 512 < n))
        by (nonlinear_arith)
        requires
            block_count(n) == (if n % 512 == 0 { n / 512 } else { n / 512 + 1 }),
    {
    }
}

/// Number of blocks occupied by `data_size` bytes; zero bytes take zero blocks.
pub fn get_block_count(data_size: u64) -> (r: u64)
    ensures
        r == block_count(data_size as nat),
{
    let mut blocks: u64 = data_size / BLOCK_SIZE;
    if data_size % BLOCK_SIZE != 0 {
        blocks += 1;
    }
    blocks
}

/// Byte offset of the data block numbered `height`.
pub fn get_data_offset_from_height(height: u64) -> (r: u64)
    requires
        height <= MAX_BLOCKS,
    ensures
        r == data_block_offset(height as nat),
{
    IDX_ZONE_END + height * BLOCK_SIZE
}

/// Byte offset of the index slot numbered `height`.
pub fn get_index_offset_from_height(height: u64) -> (r: u64)
    requires
        height <= MAX_BLOCKS,
    ensures
        r == index_slot_offset(height as nat),
{
    IDX_ZONE_IDX + height * IDX_BLOCK_SIZE
}

} // verus!
