//! The writer that appends messages with their index records, and the
//! reader that finds them again by identifier.
use crate::error::FsError;
use crate::index_block::{index_encoding, IndexBlock};
use crate::layout::{
    block_count, data_block_offset, fits, get_block_count, get_data_offset_from_height,
    get_index_offset_from_height, index_slot_offset, IDX_BLOCK_SIZE, MAX_BLOCKS,
};
use crate::memory::{byte_at, lemma_written_region, region, StableMemory};
use crate::stored::{
    lemma_data_in_range, lemma_slot_in_zone, outside, range_of, stored_index, stored_range,
    stored_record,
};
use vstd::prelude::*;

verus! {

/// A source of timestamps for appended records.
pub trait Clock {
    fn now(&self) -> u64;
}

/// A clock that always reads the same time.
pub struct ConstantClock {
    pub time: u64,
}

impl Clock for ConstantClock {
    fn now(&self) -> u64 {
        self.time
    }
}

/// The effect of one append by the writer: the record `idx` in its index
/// slot, `data` in its blocks, and every other byte as it was.
pub open spec fn writer_effect(old: Seq<u8>, new: Seq<u8>, data: Seq<u8>, idx: IndexBlock) -> bool {
    &&& region(new, index_slot_offset(idx.start_idx as nat) as int, IDX_BLOCK_SIZE as nat)
        == index_encoding(idx)
    &&& region(new, data_block_offset(idx.start_idx as nat) as int, data.len()) == data
    &&& forall|i: int|
        outside(i, index_slot_offset(idx.start_idx as nat) as int, IDX_BLOCK_SIZE as int)
            && outside(i, data_block_offset(idx.start_idx as nat) as int, data.len() as int)
            ==> #[trigger] byte_at(new, i) == byte_at(old, i)
}

/// Appends payloads at a cursor of data blocks.
pub struct MemoryWriter<C: Clock> {
    block_offset: u64,
    clock: C,
}

impl<C: Clock> MemoryWriter<C> {
    /// The next free data block.
    pub closed spec fn offset(&self) -> u64 {
        self.block_offset
    }

    pub fn new(block_offset: u64, clock: C) -> (r: Self)
        ensures
            r.offset() == block_offset,
    {
        MemoryWriter { block_offset, clock }
    }

    /// Appends `data` at the cursor: its index record goes to the slot
    /// numbered by the cursor, its bytes to the blocks from the cursor on,
    /// and the cursor moves past them. Fails, writing nothing, when the
    /// payload does not fit in the zones that remain.
    pub fn write<M: StableMemory>(&mut self, data: &[u8], memory: &mut M) -> (r: Result<
        IndexBlock,
        FsError,
    >)
        ensures
            ({
                let o = old(self).offset();
                let n = data@.len();
                let b = block_count(n);
                &&& r is Ok <==> fits(o as nat, b)
                &&& match r {
                    Ok(idx) => {
                        &&& idx.height == o
                        &&& idx.data_size == n
                        &&& idx.start_idx == o
                        &&& idx.end_idx == o + b
                        &&& final(self).offset() == o + b
                        &&& writer_effect(old(memory).contents(), final(memory).contents(), data@, idx)
                    },
                    Err(e) => {
                        &&& e == FsError::PayloadTooLarge
                        &&& final(self).offset() == o
                        &&& final(memory).contents() == old(memory).contents()
                    },
                }
            }),
    {
        let n: u64 = data.len() as u64;
        let blocks: u64 = get_block_count(n);
        if self.block_offset >= MAX_BLOCKS || blocks > MAX_BLOCKS - self.block_offset {
            return Err(FsError::PayloadTooLarge);
        }
        let idx = IndexBlock {
            height: self.block_offset,
            data_size: n,
            start_idx: self.block_offset,
            end_idx: self.block_offset + blocks,
            timestamp: self.clock.now(),
        };
        let ghost m0 = memory.contents();
        self.write_idx(&idx, memory);
        let ghost m1 = memory.contents();
        proof {
            lemma_data_in_range(self.block_offset as nat, n as nat);
            lemma_slot_in_zone(self.block_offset as nat);
        }
        let offset: u64 = get_data_offset_from_height(self.block_offset);
        memory.write(offset, data);
        proof {
            let m2 = memory.contents();
            lemma_written_region(m1, m2, offset as int, data@);
            assert(region(m2, index_slot_offset(idx.start_idx as nat) as int, 40) =~= region(
                m1,
                index_slot_offset(idx.start_idx as nat) as int,
                40,
            )) by {
                assert forall|k: int| 0 <= k < 40 implies region(
                    m2,
                    index_slot_offset(idx.start_idx as nat) as int,
                    40,
                )[k] == region(m1, index_slot_offset(idx.start_idx as nat) as int, 40)[k] by {
                    assert(byte_at(m2, index_slot_offset(idx.start_idx as nat) + k) == byte_at(
                        m1,
                        index_slot_offset(idx.start_idx as nat) + k,
                    ));
                }
            }
            assert forall|i: int|
                outside(i, index_slot_offset(idx.start_idx as nat) as int, IDX_BLOCK_SIZE as int)
                    && outside(i, data_block_offset(idx.start_idx as nat) as int, data@.len() as int)
                    implies #[trigger] byte_at(m2, i) == byte_at(m0, i) by {
                assert(byte_at(m2, i) == byte_at(m1, i));
                assert(byte_at(m1, i) == byte_at(m0, i));
            }
        }
        self.block_offset = self.block_offset + blocks;
        Ok(idx)
    }

    fn write_idx<M: StableMemory>(&mut self, idx: &IndexBlock, memory: &mut M)
        requires
            idx.start_idx == old(self).offset(),
            idx.start_idx < MAX_BLOCKS,
        ensures
            final(self).offset() == old(self).offset(),
            region(
                final(memory).contents(),
                index_slot_offset(idx.start_idx as nat) as int,
                IDX_BLOCK_SIZE as nat,
            ) == index_encoding(*idx),
            forall|i: int|
                outside(i, index_slot_offset(idx.start_idx as nat) as int, IDX_BLOCK_SIZE as int)
                    ==> #[trigger] byte_at(final(memory).contents(), i) == byte_at(
                    old(memory).contents(),
                    i,
                ),
    {
        let bytes = idx.to_bytes();
        proof {
            lemma_slot_in_zone(idx.start_idx as nat);
        }
        let offset: u64 = get_index_offset_from_height(self.block_offset);
        memory.write(offset, bytes.as_slice());
        proof {
            lemma_written_region(old(memory).contents(), memory.contents(), offset as int, bytes@);
        }
    }

    /// The next free data block.
    pub fn block_offset(&self) -> (r: u64)
        ensures
            r == self.offset(),
    {
        self.block_offset
    }
}

/// Finds messages by identifier.
pub struct MemoryReader {}

/// `r` holds the bytes that `s` holds, or the same error.
pub open spec fn same_result(r: Result<Vec<u8>, FsError>, s: Result<Seq<u8>, FsError>) -> bool {
    match s {
        Ok(p) => r matches Ok(v) && v@ == p,
        Err(e) => r == Err::<Vec<u8>, FsError>(e),
    }
}

impl MemoryReader {
    pub fn new() -> (r: Self) {
        MemoryReader {  }
    }

    /// Reads the messages `start, start + 1, ..., start + count - 1`, one
    /// identifier per block; the first failure ends the read.
    pub fn read_range<M: StableMemory>(&self, start: u64, count: u64, memory: &M) -> (r: Result<
        Vec<Vec<u8>>,
        FsError,
    >)
        ensures
            match stored_range(memory.contents(), start as nat, count as nat) {
                Ok(s) => r matches Ok(v) && v@.len() == s.len() && forall|k: int|
                    0 <= k < s.len() ==> #[trigger] v@[k]@ == s[k],
                Err(e) => r == Err::<Vec<Vec<u8>>, FsError>(e),
            },
    {
        let ghost m = memory.contents();
        let ghost read = |id: nat| stored_record(m, id);
        let mut messages: Vec<Vec<u8>> = Vec::new();
        let ghost mut got: Seq<Seq<u8>> = Seq::empty();
        let mut i: u64 = start;
        let mut left: u64 = count;
        while left > 0
            invariant
                memory.contents() == m,
                read == (|id: nat| stored_record(m, id)),
                i == start + (count - left),
                left <= count,
                messages@.len() == got.len(),
                forall|k: int| 0 <= k < got.len() ==> #[trigger] messages@[k]@ == got[k],
                stored_range(m, start as nat, count as nat) == match range_of(
                    read,
                    i as nat,
                    left as nat,
                ) {
                    Ok(rest) => Ok(got + rest),
                    Err(e) => Err::<Seq<Seq<u8>>, FsError>(e),
                },
            decreases left,
        {
            if i >= MAX_BLOCKS {
                return Err(FsError::RecordNotFound);
            }
            match self.read_topic_message(i, memory) {
                Ok(msg) => {
                    proof {
                        let p = msg@;
                        match range_of(read, (i + 1) as nat, (left - 1) as nat) {
                            Ok(rest) => {
                                assert(got + (seq![p] + rest) =~= got.push(p) + rest);
                            },
                            Err(e) => {},
                        }
                        got = got.push(p);
                    }
                    messages.push(msg);
                },
                Err(e) => {
                    return Err(e);
                },
            }
            i = i + 1;
            left = left - 1;
        }
        proof {
            assert(got + Seq::<Seq<u8>>::empty() =~= got);
        }
        Ok(messages)
    }

    /// Reads the message identified by `height`: its index record, checked
    /// against the slot it was found in, then the payload it describes.
    pub fn read_topic_message<M: StableMemory>(&self, height: u64, memory: &M) -> (r: Result<
        Vec<u8>,
        FsError,
    >)
        ensures
            same_result(r, stored_record(memory.contents(), height as nat)),
    {
        let idx = self.read_idx(height, memory)?;
        let blocks: u64 = get_block_count(idx.data_size);
        if idx.height != height || idx.start_idx != height || idx.end_idx > MAX_BLOCKS
            || blocks > MAX_BLOCKS - height || idx.end_idx != height + blocks {
            return Err(FsError::RecordNotFound);
        }
        proof {
            lemma_data_in_range(height as nat, idx.data_size as nat);
        }
        let read_start: u64 = get_data_offset_from_height(idx.start_idx);
        let buf = memory.read(read_start, idx.data_size);
        Ok(buf)
    }

    /// Reads and decodes the index record in slot `offset`.
    pub fn read_idx<M: StableMemory>(&self, offset: u64, memory: &M) -> (r: Result<
        IndexBlock,
        FsError,
    >)
        ensures
            offset >= MAX_BLOCKS ==> r == Err::<IndexBlock, FsError>(FsError::RecordNotFound),
            offset < MAX_BLOCKS ==> r == Ok::<IndexBlock, FsError>(
                stored_index(memory.contents(), offset as nat),
            ),
    {
        if offset >= MAX_BLOCKS {
            return Err(FsError::RecordNotFound);
        }
        proof {
            lemma_slot_in_zone(offset as nat);
        }
        let bytes = memory.read(get_index_offset_from_height(offset), IDX_BLOCK_SIZE);
        Ok(IndexBlock::from_bytes(bytes.as_slice()))
    }
}

} // verus!
