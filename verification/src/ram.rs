//! The backing store: a fixed number of bytes, each of which can be held
//! exclusively for a while. A held byte refuses every other access.
use vstd::prelude::*;

verus! {

/// Bytes in one row of a page's diagnostic dump.
pub const PAGE_DIM: usize = 16;

/// Bytes in one page.
pub const PAGE_SIZE: usize = 256;

/// Pages that fit into the store.
pub const MAX_PAGE_COUNT: usize = 2;

/// Bytes in the whole store.
pub const RAM_SIZE: usize = 512;

/// Why an operation on the store or on a page was refused.
#[derive(Debug, Clone, Copy, PartialEq, Eq, Structural)]
pub enum MemoryError {
    /// The page already hosts as many processes as it has slots.
    PageFull,
    /// No process with that identifier is in the page's table.
    UnknownPid,
    /// The address or window lies outside the store.
    OutOfBounds,
    /// A byte that the operation touches is exclusively held.
    ConcurrentAccessConflict,
}

/// How much of the store is in use: the bytes that are not zero, out of all
/// bytes. The proportion is `nonzero / total`.
#[derive(Debug, Clone, Copy, PartialEq, Eq, Structural)]
pub struct Usage {
    pub nonzero: usize,
    pub total: usize,
}

/// Number of bytes of `bytes` that are not zero.
pub open spec fn count_nonzero(bytes: Seq<u8>) -> nat {
    bytes.filter(|b: u8| b != 0).len()
}

/// `true` when some position in `start..start + len` is marked in `held`.
pub open spec fn any_held(held: Seq<bool>, start: int, len: int) -> bool {
    exists|i: int| start <= i < start + len && 0 <= i < held.len() && #[trigger] held[i]
}

/// Bytes that are all zero count as nothing in use.
pub proof fn lemma_all_zero_counts_nothing(bytes: Seq<u8>)
    requires
        forall|i: int| 0 <= i < bytes.len() ==> bytes[i] == 0u8,
    ensures
        count_nonzero(bytes) == 0,
    decreases bytes.len(),
{
    reveal(Seq::filter);
    if bytes.len() > 0 {
        lemma_all_zero_counts_nothing(bytes.drop_last());
    }
}

/// The store. It owns the bytes; pages refer to it by position only.
#[derive(Debug)]
pub struct Ram {
    bytes: Vec<u8>,
    held: Vec<bool>,
}

impl View for Ram {
    type V = Seq<u8>;

    closed spec fn view(&self) -> Seq<u8> {
        self.bytes@
    }
}

impl Ram {
    /// For each byte, whether it is exclusively held.
    pub closed spec fn held(&self) -> Seq<bool> {
        self.held@
    }

    /// The store has its fixed size, and so has the record of held bytes.
    pub open spec fn wf(&self) -> bool {
        &&& self@.len() == RAM_SIZE
        &&& self.held().len() == RAM_SIZE
    }

    /// A store of `RAM_SIZE` zero bytes, none of them held.
    pub fn new() -> (ram: Ram)
        ensures
            ram.wf(),
            forall|i: int| 0 <= i < RAM_SIZE ==> ram@[i] == 0u8,
            forall|i: int| 0 <= i < RAM_SIZE ==> !ram.held()[i],
            count_nonzero(ram@) == 0,
    {
        let mut bytes: Vec<u8> = Vec::new();
        let mut held: Vec<bool> = Vec::new();
        let mut i: usize = 0;
        while i < RAM_SIZE
            invariant
                i <= RAM_SIZE,
                bytes@.len() == i,
                held@.len() == i,
                forall|j: int| 0 <= j < i ==> bytes@[j] == 0u8,
                forall|j: int| 0 <= j < i ==> !held@[j],
            decreases RAM_SIZE - i,
        {
            bytes.push(0u8);
            held.push(false);
            i += 1;
        }
        proof {
            lemma_all_zero_counts_nothing(bytes@);
        }
        Ram { bytes, held }
    }

    /// Number of bytes in the store.
    pub fn size(&self) -> (n: usize)
        requires
            self.wf(),
        ensures
            n == RAM_SIZE,
    {
        self.bytes.len()
    }

    /// Reads the byte at `index`.
    pub fn read(&self, index: usize) -> (result: Result<u8, MemoryError>)
        requires
            self.wf(),
        ensures
            result == (if index >= RAM_SIZE {
                Err::<u8, MemoryError>(MemoryError::OutOfBounds)
            } else if self.held()[index as int] {
                Err(MemoryError::ConcurrentAccessConflict)
            } else {
                Ok(self@[index as int])
            }),
    {
        if index >= self.bytes.len() {
            return Err(MemoryError::OutOfBounds);
        }
        if self.held[index] {
            return Err(MemoryError::ConcurrentAccessConflict);
        }
        Ok(self.bytes[index])
    }

    /// Writes `value` at `index`. A refused write changes nothing.
    pub fn write(&mut self, index: usize, value: u8) -> (result: Result<(), MemoryError>)
        requires
            old(self).wf(),
        ensures
            final(self).wf(),
            final(self).held() == old(self).held(),
            result == (if index >= RAM_SIZE {
                Err::<(), MemoryError>(MemoryError::OutOfBounds)
            } else if old(self).held()[index as int] {
                Err(MemoryError::ConcurrentAccessConflict)
            } else {
                Ok(())
            }),
            final(self)@ == (if result is Ok {
                old(self)@.update(index as int, value)
            } else {
                old(self)@
            }),
    {
        if index >= self.bytes.len() {
            return Err(MemoryError::OutOfBounds);
        }
        if self.held[index] {
            return Err(MemoryError::ConcurrentAccessConflict);
        }
        self.bytes[index] = value;
        Ok(())
    }

    /// Takes exclusive hold of the byte at `index`, until `release`.
    pub fn hold(&mut self, index: usize) -> (result: Result<(), MemoryError>)
        requires
            old(self).wf(),
        ensures
            final(self).wf(),
            final(self)@ == old(self)@,
            result == (if index >= RAM_SIZE {
                Err::<(), MemoryError>(MemoryError::OutOfBounds)
            } else if old(self).held()[index as int] {
                Err(MemoryError::ConcurrentAccessConflict)
            } else {
                Ok(())
            }),
            final(self).held() == (if result is Ok {
                old(self).held().update(index as int, true)
            } else {
                old(self).held()
            }),
    {
        if index >= self.held.len() {
            return Err(MemoryError::OutOfBounds);
        }
        if self.held[index] {
            return Err(MemoryError::ConcurrentAccessConflict);
        }
        self.held[index] = true;
        Ok(())
    }

    /// Gives up the hold of the byte at `index`; a byte that is not held stays so.
    pub fn release(&mut self, index: usize) -> (result: Result<(), MemoryError>)
        requires
            old(self).wf(),
        ensures
            final(self).wf(),
            final(self)@ == old(self)@,
            result == (if index >= RAM_SIZE {
                Err::<(), MemoryError>(MemoryError::OutOfBounds)
            } else {
                Ok(())
            }),
            final(self).held() == (if result is Ok {
                old(self).held().update(index as int, false)
            } else {
                old(self).held()
            }),
    {
        if index >= self.held.len() {
            return Err(MemoryError::OutOfBounds);
        }
        self.held[index] = false;
        Ok(())
    }
    /// Whether no byte in `start..start + len` is held. Positions beyond the
    /// store count as not held.
    pub fn is_free(&self, start: usize, len: usize) -> (free: bool)
        requires
            self.wf(),
        ensures
            free == !any_held(self.held(), start as int, len as int),
    {
        if start >= RAM_SIZE {
            return true;
        }
        let end: usize = if len > RAM_SIZE - start {
            RAM_SIZE
        } else {
            start + len
        };
        let mut i: usize = start;
        while i < end
            invariant
                start <= i <= end <= RAM_SIZE,
                end <= start + len,
                end == RAM_SIZE || end == start + len,
                self.held@.len() == RAM_SIZE,
                forall|j: int| start <= j < i ==> !self.held@[j],
            decreases end - i,
        {
            if self.held[i] {
                return false;
            }
            i += 1;
        }
        true
    }

    /// How many bytes of the store are not zero, found by scanning all of it.
    /// This is a sign of occupancy and no exact count: a payload byte
    /// that is zero does not count as used.
    pub fn usage(&self) -> (usage: Usage)
        requires
            self.wf(),
        ensures
            usage.nonzero == count_nonzero(self@),
            usage.total == RAM_SIZE,
            usage.nonzero <= usage.total,
    {
        let ghost nonzero = |b: u8| b != 0;
        let mut count: usize = 0;
        let mut i: usize = 0;
        while i < self.bytes.len()
            invariant
                i <= self.bytes@.len(),
                self.bytes@.len() == RAM_SIZE,
                nonzero == (|b: u8| b != 0),
                count == self.bytes@.take(i as int).filter(nonzero).len(),
                count <= i,
            decreases self.bytes@.len() - i,
        {
            proof {
                let next = self.bytes@.take(i + 1);
                assert(next.drop_last() =~= self.bytes@.take(i as int));
                assert(next.last() == self.bytes@[i as int]);
                reveal(Seq::filter);
            }
            if self.bytes[i] != 0 {
                count += 1;
            }
            i += 1;
        }
        proof {
            assert(self.bytes@.take(i as int) =~= self.bytes@);
        }
        Usage { nonzero: count, total: RAM_SIZE }
    }
}

} // verus!
