//! The log engine: opens or creates a store in a memory, appends and reads
//! messages, persists the write height, and keeps the snapshot slot.
use crate::error::FsError;
use crate::index_block::lemma_index_round_trip;
use crate::layout::{
    block_count, data_block_offset, fits, index_slot_offset, lemma_block_count_bounds,
    FREE_MEMORY_BLOCK_SIZE, FREE_MEMORY_BLOCK_SIZE_IDX, FREE_MEMORY_BLOCK_START_IDX,
    IDX_BLOCK_SIZE, MAGIC_NUMBER_IDX, MAX_BLOCKS, TOPIC_BLOCK_DATA_START_IDX, TOPIC_BLOCK_MAX_SIZE,
    TOPIC_BLOCK_SIZE_IDX, TOPIC_HEIGHT_IDX,
};
use crate::memory::{byte_at, lemma_written_region, region, StableMemory};
use crate::read_write::{same_result, Clock, MemoryReader, MemoryWriter};
use crate::stored::{
    lemma_data_ends_before, lemma_data_in_range, lemma_header_kept, lemma_messages_unchanged,
    lemma_region_unchanged, lemma_slot_in_zone, lemma_slots_disjoint, magic_ok, opens, outside,
    range_of, same_outside, stored_header, stored_height, stored_index, stored_message,
    stored_messages,
    stored_snapshot, stored_u64,
};
use crate::topic_header_block::{
    lemma_header_round_trip, TopicHeaderBlock, BINARY_VERSION, TOPIC_HEADER_MAGIC,
};
use vstd::bytes::{lemma_auto_spec_u64_to_from_le_bytes, u64_from_le_bytes, u64_to_le_bytes};
use vstd::prelude::*;
use vstd::utf8::encode_utf8;

verus! {

/// The effect of appending `data` as message `id`: the height moves past
/// its blocks, slot `id` describes it, its blocks hold it, and no byte
/// outside the slot, the blocks and the height changes.
pub open spec fn appended(old: Seq<u8>, new: Seq<u8>, data: Seq<u8>, id: u64) -> bool {
    let b = block_count(data.len());
    let r = stored_index(new, id as nat);
    &&& stored_height(new) == id + b
    &&& r.height == id
    &&& r.data_size == data.len()
    &&& r.start_idx == id
    &&& r.end_idx == id + b
    &&& region(new, data_block_offset(id as nat) as int, data.len()) == data
    &&& forall|i: int|
        outside(i, index_slot_offset(id as nat) as int, IDX_BLOCK_SIZE as int) && outside(
            i,
            data_block_offset(id as nat) as int,
            data.len() as int,
        ) && outside(i, TOPIC_HEIGHT_IDX as int, 8) ==> #[trigger] byte_at(new, i) == byte_at(
            old,
            i,
        )
}

/// Whether a stream named `name` has a header that fits its area.
pub open spec fn header_fits(name: Seq<char>) -> bool {
    encode_utf8(name).len() + 20 <= TOPIC_BLOCK_MAX_SIZE
}

/// An append-only log of byte messages in a memory `M`, stamped by clock `C`.
pub struct EventFilesystem<M: StableMemory, C: Clock> {
    memory: M,
    writer: MemoryWriter<C>,
    reader: MemoryReader,
    topic_header: TopicHeaderBlock,
}

impl<M: StableMemory, C: Clock> EventFilesystem<M, C> {
    /// The bytes of the memory.
    pub closed spec fn content(&self) -> Seq<u8> {
        self.memory.contents()
    }

    /// The stream header held by the engine.
    pub closed spec fn header(&self) -> (Seq<char>, u64, u32) {
        self.topic_header@
    }

    /// The memory is an initialized store whose header is the engine's and
    /// whose persisted height is the writer's cursor.
    pub closed spec fn wf(&self) -> bool {
        &&& magic_ok(self.content())
        &&& stored_header(self.content()) == Some(self.topic_header@)
        &&& self.writer.offset() == stored_height(self.content())
    }

    /// Opens the store that `memory` already holds, resuming at its
    /// persisted height. Fails when the memory holds no store.
    pub fn get_file_system(memory: M, clock: C) -> (r: Result<Self, FsError>)
        ensures
            match r {
                Ok(fs) => {
                    &&& opens(memory.contents())
                    &&& fs.wf()
                    &&& fs.content() == memory.contents()
                    &&& Some(fs.header()) == stored_header(memory.contents())
                },
                Err(e) => !opens(memory.contents()) && e == FsError::DecodeError,
            },
    {
        if !is_magic_number_valid(&memory) {
            return Err(FsError::DecodeError);
        }
        let topic_header = read_topic_block(&memory)?;
        let height = read_block_height(&memory);
        let writer = MemoryWriter::new(height, clock);
        let reader = MemoryReader::new();
        Ok(EventFilesystem { memory, writer, reader, topic_header })
    }

    /// Opens the store in `memory` if its magic number is present; otherwise
    /// creates one there: the magic number, height zero, and a header for
    /// `event_stream_name`.
    pub fn get_or_create(memory: M, clock: C, event_stream_name: String) -> (r: Result<
        Self,
        FsError,
    >)
        requires
            header_fits(event_stream_name@),
        ensures
            magic_ok(memory.contents()) ==> match r {
                Ok(fs) => {
                    &&& opens(memory.contents())
                    &&& fs.wf()
                    &&& fs.content() == memory.contents()
                    &&& Some(fs.header()) == stored_header(memory.contents())
                },
                Err(e) => !opens(memory.contents()) && e == FsError::DecodeError,
            },
            !magic_ok(memory.contents()) ==> (r matches Ok(fs) && {
                &&& fs.wf()
                &&& magic_ok(fs.content())
                &&& stored_height(fs.content()) == 0
                &&& fs.header() == (event_stream_name@, 0u64, BINARY_VERSION)
                &&& stored_header(fs.content()) == Some(fs.header())
            }),
    {
        if is_magic_number_valid(&memory) {
            return Self::get_file_system(memory, clock);
        }
        let mut memory = memory;
        let ghost m0 = memory.contents();
        write_magic_number(&mut memory);
        let ghost m1 = memory.contents();
        write_block_height(0, &mut memory);
        let ghost m2 = memory.contents();
        let topic_block = TopicHeaderBlock::new(event_stream_name);
        write_topic_block(&topic_block, &mut memory);
        proof {
            let m3 = memory.contents();
            lemma_region_unchanged(m1, m2, MAGIC_NUMBER_IDX as int, 8);
            lemma_region_unchanged(m2, m3, MAGIC_NUMBER_IDX as int, 8);
            lemma_region_unchanged(m2, m3, TOPIC_HEIGHT_IDX as int, 8);
        }
        let writer = MemoryWriter::new(0, clock);
        let reader = MemoryReader::new();
        Ok(EventFilesystem { memory, writer, reader, topic_header: topic_block })
    }

    /// The persisted write height, read from the memory.
    pub fn get_topic_height(&self) -> (r: u64)
        ensures
            r == stored_height(self.content()),
    {
        read_block_height(&self.memory)
    }

    /// Stores `data` as the snapshot blob, replacing any earlier one. Fails,
    /// writing nothing, when it exceeds the slot's capacity.
    pub fn stable_store(&mut self, data: &[u8]) -> (r: Result<(), FsError>)
        requires
            old(self).wf(),
        ensures
            final(self).wf(),
            final(self).header() == old(self).header(),
            r is Ok <==> data@.len() <= FREE_MEMORY_BLOCK_SIZE,
            r is Ok ==> {
                &&& stored_snapshot(final(self).content()) == Ok::<Seq<u8>, FsError>(data@)
                &&& stored_height(final(self).content()) == stored_height(old(self).content())
                &&& forall|id: nat| #[trigger]
                    stored_message(final(self).content(), id) == stored_message(
                        old(self).content(),
                        id,
                    )
            },
            r is Err ==> r == Err::<(), FsError>(FsError::PayloadTooLarge) && final(self).content()
                == old(self).content(),
    {
        if data.len() as u64 > FREE_MEMORY_BLOCK_SIZE {
            return Err(FsError::PayloadTooLarge);
        }
        let ghost m0 = self.memory.contents();
        let size = u64_to_le_bytes(data.len() as u64);
        self.memory.write(FREE_MEMORY_BLOCK_SIZE_IDX, size.as_slice());
        let ghost m1 = self.memory.contents();
        self.memory.write(FREE_MEMORY_BLOCK_START_IDX, data);
        proof {
            let m2 = self.memory.contents();
            lemma_auto_spec_u64_to_from_le_bytes();
            lemma_written_region(m0, m1, FREE_MEMORY_BLOCK_SIZE_IDX as int, size@);
            lemma_written_region(m1, m2, FREE_MEMORY_BLOCK_START_IDX as int, data@);
            lemma_region_unchanged(m1, m2, FREE_MEMORY_BLOCK_SIZE_IDX as int, 8);
            assert(same_outside(
                m0,
                m2,
                FREE_MEMORY_BLOCK_SIZE_IDX as int,
                8 + data@.len() as int,
            )) by {
                assert forall|i: int|
                    outside(
                        i,
                        FREE_MEMORY_BLOCK_SIZE_IDX as int,
                        8 + data@.len() as int,
                    ) implies #[trigger] byte_at(m2, i) == byte_at(m0, i) by {
                    assert(byte_at(m2, i) == byte_at(m1, i));
                    assert(byte_at(m1, i) == byte_at(m0, i));
                }
            }
            lemma_messages_unchanged(m0, m2, FREE_MEMORY_BLOCK_SIZE_IDX as int, 8 + data@.len() as int);
            lemma_region_unchanged(m0, m2, MAGIC_NUMBER_IDX as int, 8);
            lemma_region_unchanged(m0, m2, TOPIC_BLOCK_SIZE_IDX as int, 8);
            let hsize = stored_u64(m0, TOPIC_BLOCK_SIZE_IDX as int);
            lemma_region_unchanged(m0, m2, TOPIC_BLOCK_DATA_START_IDX as int, hsize as nat);
        }
        Ok(())
    }

    /// Reads the snapshot blob.
    pub fn stable_restore(&self) -> (r: Result<Vec<u8>, FsError>)
        ensures
            same_result(r, stored_snapshot(self.content())),
    {
        let size_bytes = self.memory.read(FREE_MEMORY_BLOCK_SIZE_IDX, 8);
        let size: u64 = u64_from_le_bytes(size_bytes.as_slice());
        if size > FREE_MEMORY_BLOCK_SIZE {
            return Err(FsError::DecodeError);
        }
        Ok(self.memory.read(FREE_MEMORY_BLOCK_START_IDX, size))
    }

    /// Reads the message that `write_topic_message` returned `id` for.
    pub fn read_topic_message(&self, id: u64) -> (r: Result<Vec<u8>, FsError>)
        ensures
            same_result(r, stored_message(self.content(), id as nat)),
    {
        let idx = self.reader.read_idx(id, &self.memory)?;
        let height = read_block_height(&self.memory);
        if idx.end_idx > height {
            return Err(FsError::RecordNotFound);
        }
        self.reader.read_topic_message(id, &self.memory)
    }

    /// Appends `data` as a new message and persists the new height; returns
    /// the message's identifier, which is the height before the call.
    /// Fails, writing nothing, when the payload does not fit.
    pub fn write_topic_message(&mut self, data: &[u8]) -> (r: Result<u64, FsError>)
        requires
            old(self).wf(),
        ensures
            final(self).wf(),
            final(self).header() == old(self).header(),
            r is Ok <==> fits(
                stored_height(old(self).content()) as nat,
                block_count(data@.len()),
            ),
            match r {
                Ok(id) => {
                    &&& id == stored_height(old(self).content())
                    &&& appended(old(self).content(), final(self).content(), data@, id)
                    &&& stored_message(final(self).content(), id as nat) == Ok::<
                        Seq<u8>,
                        FsError,
                    >(data@)
                    &&& stored_snapshot(final(self).content()) == stored_snapshot(
                        old(self).content(),
                    )
                },
                Err(e) => e == FsError::PayloadTooLarge && final(self).content() == old(
                    self,
                ).content(),
            },
    {
        let ghost m0 = self.memory.contents();
        match self.writer.write(data, &mut self.memory) {
            Ok(idx) => {
                let ghost m1 = self.memory.contents();
                write_block_height(self.writer.block_offset(), &mut self.memory);
                proof {
                    let m2 = self.memory.contents();
                    let id = idx.start_idx;
                    lemma_slot_in_zone(id as nat);
                    lemma_data_in_range(id as nat, data@.len());
                    lemma_region_unchanged(
                        m1,
                        m2,
                        index_slot_offset(id as nat) as int,
                        IDX_BLOCK_SIZE as nat,
                    );
                    lemma_region_unchanged(
                        m1,
                        m2,
                        data_block_offset(id as nat) as int,
                        data@.len(),
                    );
                    lemma_index_round_trip(idx);
                    assert forall|i: int|
                        outside(i, index_slot_offset(id as nat) as int, IDX_BLOCK_SIZE as int)
                            && outside(i, data_block_offset(id as nat) as int, data@.len() as int)
                            && outside(i, TOPIC_HEIGHT_IDX as int, 8) implies #[trigger] byte_at(
                        m2,
                        i,
                    ) == byte_at(m0, i) by {
                        assert(byte_at(m2, i) == byte_at(m1, i));
                        assert(byte_at(m1, i) == byte_at(m0, i));
                    }
                    lemma_read_after_append(m0, m2, data@, id);
                    lemma_header_kept(m0, m2);
                }
                Ok(idx.start_idx)
            },
            Err(e) => Err(e),
        }
    }

    /// Reads `take` messages with consecutive identifiers from `start` on,
    /// each as `read_topic_message` does; the first failure ends the read.
    /// Correct only where each of them occupies a single block.
    pub fn read_topic_messages(&self, start: u64, take: u64) -> (r: Result<Vec<Vec<u8>>, FsError>)
        ensures
            match stored_messages(self.content(), start as nat, take as nat) {
                Ok(s) => r matches Ok(v) && v@.len() == s.len() && forall|k: int|
                    0 <= k < s.len() ==> #[trigger] v@[k]@ == s[k],
                Err(e) => r == Err::<Vec<Vec<u8>>, FsError>(e),
            },
    {
        let ghost m = self.content();
        let ghost read = |id: nat| stored_message(m, id);
        let mut messages: Vec<Vec<u8>> = Vec::new();
        let ghost mut got: Seq<Seq<u8>> = Seq::empty();
        let mut i: u64 = start;
        let mut left: u64 = take;
        while left > 0
            invariant
                self.content() == m,
                read == (|id: nat| stored_message(m, id)),
                i == start + (take - left),
                left <= take,
                messages@.len() == got.len(),
                forall|k: int| 0 <= k < got.len() ==> #[trigger] messages@[k]@ == got[k],
                stored_messages(m, start as nat, take as nat) == match range_of(
                    read,
                    i as nat,
                    left as nat,
                ) {
                    Ok(rest) => Ok(got + rest),
                    Err(e) => Err::<Seq<Seq<u8>>, FsError>(e),
                },
            decreases left,
        {
            if i >= MAX_BLOCKS {
                return Err(FsError::RecordNotFound);
            }
            match self.read_topic_message(i) {
                Ok(msg) => {
                    proof {
                        let p = msg@;
                        match range_of(read, (i + 1) as nat, (left - 1) as nat) {
                            Ok(rest) => {
                                assert(got + (seq![p] + rest) =~= got.push(p) + rest);
                            },
                            Err(e) => {},
                        }
                        got = got.push(p);
                    }
                    messages.push(msg);
                },
                Err(e) => {
                    return Err(e);
                },
            }
            i = i + 1;
            left = left - 1;
        }
        proof {
            assert(got + Seq::<Seq<u8>>::empty() =~= got);
        }
        Ok(messages)
    }

    /// The stream header.
    pub fn topic_header(&self) -> (r: &TopicHeaderBlock)
        ensures
            r@ == self.header(),
    {
        &self.topic_header
    }

    /// The memory the store lives in.
    pub fn memory(&self) -> (r: &M)
        ensures
            r.contents() == self.content(),
    {
        &self.memory
    }

    /// Gives the memory back, closing the engine.
    pub fn into_memory(self) -> (r: M)
        ensures
            r.contents() == self.content(),
    {
        self.memory
    }
}

/// Reading a message right after appending it gives back the appended
/// bytes, and every message that could be read before reads the same.
pub proof fn lemma_read_after_append(old: Seq<u8>, new: Seq<u8>, data: Seq<u8>, id: u64)
    requires
        stored_height(old) == id,
        fits(id as nat, block_count(data.len())),
        appended(old, new, data, id),
    ensures
        stored_message(new, id as nat) == Ok::<Seq<u8>, FsError>(data),
        forall|j: nat|
            j != id && #[trigger] stored_message(old, j) is Ok ==> stored_message(new, j)
                == stored_message(old, j),
{
    assert forall|j: nat|
        j != id && #[trigger] stored_message(old, j) is Ok implies stored_message(new, j)
            == stored_message(old, j) by {
        let r = stored_index(old, j);
        lemma_slot_in_zone(j);
        lemma_slot_in_zone(id as nat);
        lemma_slots_disjoint(j, id as nat);
        lemma_data_in_range(id as nat, data.len());
        lemma_data_ends_before(j, r.data_size as nat, id as nat);
        lemma_region_unchanged(old, new, index_slot_offset(j) as int, IDX_BLOCK_SIZE as nat);
        lemma_region_unchanged(old, new, data_block_offset(j) as int, r.data_size as nat);
    }
}

/// Consecutive appends of non-empty payloads get strictly increasing
/// identifiers.
pub proof fn lemma_identifiers_increase(
    c0: Seq<u8>,
    c1: Seq<u8>,
    c2: Seq<u8>,
    d1: Seq<u8>,
    d2: Seq<u8>,
    id1: u64,
    id2: u64,
)
    requires
        id1 == stored_height(c0),
        appended(c0, c1, d1, id1),
        id2 == stored_height(c1),
        appended(c1, c2, d2, id2),
        d1.len() > 0,
    ensures
        id1 < id2,
        id2 + block_count(d2.len()) == stored_height(c2),
{
    lemma_block_count_bounds(d1.len());
}

/// The number of blocks that appending `ps` in order consumes.
pub open spec fn blocks_of(ps: Seq<Seq<u8>>) -> nat
    decreases ps.len(),
{
    if ps.len() == 0 {
        0
    } else {
        blocks_of(ps.drop_last()) + block_count(ps.last().len())
    }
}

/// After appending the non-empty payloads `ps` in order to a store of
/// height zero, passing through the memories `cs` and receiving the
/// identifiers `ids`, the height is the number of blocks consumed and every
/// identifier still reads back its payload.
pub proof fn lemma_appends_persist(cs: Seq<Seq<u8>>, ps: Seq<Seq<u8>>, ids: Seq<u64>)
    requires
        cs.len() == ps.len() + 1,
        ids.len() == ps.len(),
        stored_height(cs[0]) == 0,
        forall|k: int| 0 <= k < ps.len() ==> #[trigger] ps[k].len() > 0,
        forall|k: int|
            0 <= k < ps.len() ==> {
                &&& ids[k] == stored_height(cs[k])
                &&& fits(ids[k] as nat, block_count(ps[k].len()))
                &&& #[trigger] appended(cs[k], cs[k + 1], ps[k], ids[k])
            },
    ensures
        stored_height(cs.last()) == blocks_of(ps),
        forall|k: int| 0 <= k < ps.len() ==> ids[k] < stored_height(cs.last()),
        forall|k: int|
            0 <= k < ps.len() ==> stored_message(cs.last(), #[trigger] ids[k] as nat) == Ok::<
                Seq<u8>,
                FsError,
            >(ps[k]),
    decreases ps.len(),
{
    let n = ps.len() as int;
    if n > 0 {
        let cs0 = cs.drop_last();
        let ps0 = ps.drop_last();
        let ids0 = ids.drop_last();
        assert forall|k: int| #![trigger ids0[k]] 0 <= k < ps0.len() implies {
            &&& ids0[k] == stored_height(cs0[k])
            &&& fits(ids0[k] as nat, block_count(ps0[k].len()))
            &&& appended(cs0[k], cs0[k + 1], ps0[k], ids0[k])
        } by {
            assert(appended(cs[k], cs[k + 1], ps[k], ids[k]));
            assert(cs0[k] == cs[k]);
            assert(cs0[k + 1] == cs[k + 1]);
            assert(ps0[k] == ps[k]);
            assert(ids0[k] == ids[k]);
        }
        assert forall|k: int| 0 <= k < ps0.len() implies #[trigger] ps0[k].len() > 0 by {
            assert(ps[k].len() > 0);
        }
        lemma_appends_persist(cs0, ps0, ids0);
        assert(appended(cs[n - 1], cs[n], ps[n - 1], ids[n - 1]));
        lemma_read_after_append(cs[n - 1], cs[n], ps[n - 1], ids[n - 1]);
        lemma_block_count_bounds(ps[n - 1].len());
        assert(cs.last() == cs[n]);
        assert(ps.last() == ps[n - 1]);
        assert forall|k: int| 0 <= k < ps.len() implies stored_message(
            cs.last(),
            #[trigger] ids[k] as nat,
        ) == Ok::<Seq<u8>, FsError>(ps[k]) by {
            if k < n - 1 {
                assert(ids0[k] == ids[k]);
                assert(stored_message(cs0.last(), ids0[k] as nat) == Ok::<Seq<u8>, FsError>(
                    ps0[k],
                ));
            }
        }
        assert forall|k: int| 0 <= k < ps.len() implies ids[k] < stored_height(cs.last()) by {
            if k < n - 1 {
                assert(ids0[k] == ids[k]);
            }
        }
    }
}

/// The memory of a well-formed engine opens again, with the same header
/// and, being the same bytes, the same height and messages.
pub proof fn lemma_reopens<M: StableMemory, C: Clock>(fs: &EventFilesystem<M, C>)
    requires
        fs.wf(),
    ensures
        opens(fs.content()),
        stored_header(fs.content()) == Some(fs.header()),
{
}

fn is_magic_number_valid<M: StableMemory>(memory: &M) -> (r: bool)
    ensures
        r == magic_ok(memory.contents()),
{
    let bytes = memory.read(MAGIC_NUMBER_IDX, 8);
    let magic_number: u64 = u64_from_le_bytes(bytes.as_slice());
    magic_number == TOPIC_HEADER_MAGIC
}

fn write_magic_number<M: StableMemory>(memory: &mut M)
    ensures
        magic_ok(final(memory).contents()),
        same_outside(old(memory).contents(), final(memory).contents(), MAGIC_NUMBER_IDX as int, 8),
{
    let bytes = u64_to_le_bytes(TOPIC_HEADER_MAGIC);
    memory.write(MAGIC_NUMBER_IDX, bytes.as_slice());
    proof {
        lemma_auto_spec_u64_to_from_le_bytes();
        lemma_written_region(old(memory).contents(), memory.contents(), 0, bytes@);
    }
}

/// Reads the stream header that the header area holds.
pub fn read_topic_block<M: StableMemory>(memory: &M) -> (r: Result<TopicHeaderBlock, FsError>)
    ensures
        match stored_header(memory.contents()) {
            Some(v) => r matches Ok(h) && h@ == v,
            None => r == Err::<TopicHeaderBlock, FsError>(FsError::DecodeError),
        },
{
    let size_bytes = memory.read(TOPIC_BLOCK_SIZE_IDX, 8);
    let size: u64 = u64_from_le_bytes(size_bytes.as_slice());
    if size > TOPIC_BLOCK_MAX_SIZE {
        return Err(FsError::DecodeError);
    }
    let bytes = memory.read(TOPIC_BLOCK_DATA_START_IDX, size);
    TopicHeaderBlock::from_bytes(bytes.as_slice())
}

fn write_topic_block<M: StableMemory>(header: &TopicHeaderBlock, memory: &mut M)
    requires
        header_fits(header.event_stream_name@),
    ensures
        stored_header(final(memory).contents()) == Some(header@),
        same_outside(
            old(memory).contents(),
            final(memory).contents(),
            TOPIC_BLOCK_SIZE_IDX as int,
            8 + TOPIC_BLOCK_MAX_SIZE,
        ),
{
    let bytes = header.to_bytes();
    let ghost m0 = memory.contents();
    let size = u64_to_le_bytes(bytes.len() as u64);
    memory.write(TOPIC_BLOCK_SIZE_IDX, size.as_slice());
    let ghost m1 = memory.contents();
    memory.write(TOPIC_BLOCK_DATA_START_IDX, bytes.as_slice());
    proof {
        let m2 = memory.contents();
        lemma_auto_spec_u64_to_from_le_bytes();
        lemma_header_round_trip(header@);
        lemma_written_region(m0, m1, TOPIC_BLOCK_SIZE_IDX as int, size@);
        lemma_written_region(m1, m2, TOPIC_BLOCK_DATA_START_IDX as int, bytes@);
        lemma_region_unchanged(m1, m2, TOPIC_BLOCK_SIZE_IDX as int, 8);
        assert forall|i: int|
            outside(
                i,
                TOPIC_BLOCK_SIZE_IDX as int,
                8 + TOPIC_BLOCK_MAX_SIZE,
            ) implies #[trigger] byte_at(m2, i) == byte_at(m0, i) by {
            assert(byte_at(m2, i) == byte_at(m1, i));
            assert(byte_at(m1, i) == byte_at(m0, i));
        }
    }
}

fn write_block_height<M: StableMemory>(height: u64, memory: &mut M)
    ensures
        stored_height(final(memory).contents()) == height,
        same_outside(old(memory).contents(), final(memory).contents(), TOPIC_HEIGHT_IDX as int, 8),
{
    let bytes = u64_to_le_bytes(height);
    memory.write(TOPIC_HEIGHT_IDX, bytes.as_slice());
    proof {
        lemma_auto_spec_u64_to_from_le_bytes();
        lemma_written_region(old(memory).contents(), memory.contents(), 8, bytes@);
    }
}

fn read_block_height<M: StableMemory>(memory: &M) -> (r: u64)
    ensures
        r == stored_height(memory.contents()),
{
    let bytes = memory.read(TOPIC_HEIGHT_IDX, 8);
    u64_from_le_bytes(bytes.as_slice())
}

} // verus!
