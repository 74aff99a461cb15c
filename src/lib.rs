//! An append-only log of byte messages kept in a flat, byte-addressed
//! persistent memory, with a single auxiliary slot for a host snapshot.
//!
//! Messages are stored in 512-byte blocks of a data zone; each one has a
//! fixed 40-byte index record in the slot numbered by its first block, and
//! that block number is the message's identifier. The write height, the
//! next free block, is persisted after every append so that a store can be
//! reopened where it left off.
use vstd::prelude::*;

pub mod error;
pub mod filesystem;
pub mod index_block;
pub mod layout;
pub mod memory;
pub mod read_write;
pub mod stored;
pub mod topic_header_block;

pub use error::FsError;
pub use filesystem::{read_topic_block, EventFilesystem};
pub use index_block::IndexBlock;
pub use layout::{
    get_block_count, get_data_offset_from_height, BLOCK_SIZE, FREE_MEMORY_BLOCK_SIZE,
    IDX_BLOCK_SIZE, IDX_ZONE_END, IDX_ZONE_IDX, MAX_BLOCKS, TOPIC_BLOCK_MAX_SIZE,
};
pub use memory::{StableMemory, VecMemory};
pub use read_write::{Clock, ConstantClock, MemoryReader, MemoryWriter};
pub use topic_header_block::{TopicHeaderBlock, BINARY_VERSION, TOPIC_HEADER_MAGIC};

verus! {

} // verus!
