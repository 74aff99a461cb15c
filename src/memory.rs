//! The persistent memory that the log lives in, seen as a flat array of
//! bytes in which every byte that was never written reads as zero.
use vstd::prelude::*;

verus! {

/// Byte `i` of a memory whose written prefix is `m`.
pub open spec fn byte_at(m: Seq<u8>, i: int) -> u8 {
    if 0 <= i < m.len() {
        m[i]
    } else {
        0
    }
}

/// The `len` bytes of `m` that start at `start`.
pub open spec fn region(m: Seq<u8>, start: int, len: nat) -> Seq<u8> {
    Seq::new(len, |k: int| byte_at(m, start + k))
}

/// `new` is `old` with `data` written at `offset`.
pub open spec fn written(old: Seq<u8>, new: Seq<u8>, offset: int, data: Seq<u8>) -> bool {
    forall|i: int|
        #[trigger] byte_at(new, i) == if offset <= i < offset + data.len() {
            data[i - offset]
        } else {
            byte_at(old, i)
        }
}

/// The memory that a log is stored in: bounded reads and writes at byte offsets.
pub trait StableMemory {
    /// The bytes held, from offset zero; bytes beyond them read as zero.
    /// Hosts outside the verified crate may keep the default; nothing is
    /// proved from it, since callers only see `contents` of a generic memory.
    closed spec fn contents(&self) -> Seq<u8> {
        Seq::empty()
    }

    /// Reads `len` bytes starting at `offset`.
    fn read(&self, offset: u64, len: u64) -> (r: Vec<u8>)
        requires
            offset + len <= usize::MAX,
        ensures
            r@ == region(self.contents(), offset as int, len as nat),
    ;

    /// Writes `data` starting at `offset`, leaving every other byte as it was.
    fn write(&mut self, offset: u64, data: &[u8])
        requires
            offset + data@.len() <= usize::MAX,
        ensures
            written(old(self).contents(), final(self).contents(), offset as int, data@),
    ;
}

pub proof fn lemma_written_region(old: Seq<u8>, new: Seq<u8>, offset: int, data: Seq<u8>)
    requires
        written(old, new, offset, data),
    ensures
        region(new, offset, data.len()) == data,
{
    assert(region(new, offset, data.len()) =~= data) by {
        assert forall|k: int| 0 <= k < data.len() implies region(new, offset, data.len())[k]
            == data[k] by {
            assert(byte_at(new, offset + k) == data[k]);
        }
    }
}

/// A memory held in a vector that grows as it is written.
pub struct VecMemory {
    pub bytes: Vec<u8>,
}

impl VecMemory {
    /// A memory of which every byte reads as zero.
    pub fn new() -> (r: VecMemory)
        ensures
            r.contents() == Seq::<u8>::empty(),
    {
        VecMemory { bytes: Vec::new() }
    }
}

impl StableMemory for VecMemory {
    open spec fn contents(&self) -> Seq<u8> {
        self.bytes@
    }

    fn read(&self, offset: u64, len: u64) -> (r: Vec<u8>) {
        let mut out: Vec<u8> = Vec::new();
        let mut i: u64 = 0;
        while i < len
            invariant
                i <= len,
                offset + len <= usize::MAX,
                out@ == region(self.bytes@, offset as int, i as nat),
            decreases len - i,
        {
            let at: usize = (offset + i) as usize;
            let b: u8 = if at < self.bytes.len() {
                self.bytes[at]
            } else {
                0
            };
            out.push(b);
            i += 1;
            assert(out@ =~= region(self.bytes@, offset as int, i as nat));
        }
        out
    }

    fn write(&mut self, offset: u64, data: &[u8]) {
        let start: usize = offset as usize;
        let end: usize = start + data.len();
        while self.bytes.len() < end
            invariant
                forall|i: int| #[trigger]
                    byte_at(self.bytes@, i) == byte_at(old(self).bytes@, i),
            decreases end - self.bytes.len(),
        {
            let ghost prev = self.bytes@;
            self.bytes.push(0);
            assert forall|i: int| #[trigger] byte_at(self.bytes@, i) == byte_at(prev, i) by {
                if 0 <= i < prev.len() {
                    assert(self.bytes@[i] == prev[i]);
                }
            }
        }
        let mut j: usize = 0;
        while j < data.len()
            invariant
                j <= data@.len(),
                end == start + data@.len(),
                end <= self.bytes@.len(),
                start == offset,
                forall|i: int| #[trigger]
                    byte_at(self.bytes@, i) == if start <= i < start + j {
                        data@[i - start]
                    } else {
                        byte_at(old(self).bytes@, i)
                    },
            decreases data@.len() - j,
        {
            let ghost prev = self.bytes@;
            self.bytes.set(start + j, data[j]);
            j += 1;
            assert forall|i: int| #[trigger] byte_at(self.bytes@, i) == if start <= i < start + j {
                data@[i - start]
            } else {
                byte_at(old(self).bytes@, i)
            } by {
                if i != start + j - 1 {
                    assert(byte_at(self.bytes@, i) == byte_at(prev, i));
                }
            }
        }
    }
}

} // verus!
