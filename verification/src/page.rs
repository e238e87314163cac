//! A page: a window of `PAGE_SIZE` bytes of the store, divided into slots of
//! `PROCESS_SIZE` bytes, with a table that says where each loaded process
//! begins.
//!
//! Slots are given out by a bump counter: the next process always goes to slot
//! number `loaded`. Unloading lowers the counter and moves nothing, so after a
//! process other than the last one has left, the next load can land on a slot
//! that the table still assigns to another process.
use crate::dump::{grid_text, push_cell};
use crate::process::{Process, PROCESS_SIZE};
use crate::ram::{any_held, count_nonzero, MemoryError, Ram, PAGE_DIM, PAGE_SIZE, RAM_SIZE};
use std::collections::HashMap;
use vstd::prelude::*;

verus! {

broadcast use vstd::std_specs::hash::group_hash_axioms;

/// Processes that fit into one page.
pub const CAPACITY: usize = 8;

/// What a page is: where its window starts in the store, how many processes
/// the bump counter says are loaded, and the offset in the window at which
/// each identifier's instructions begin.
pub struct PageView {
    pub start: nat,
    pub loaded: nat,
    pub table: Map<u16, usize>,
}

impl PageView {
    /// The window lies in the store, the counter is between the number of
    /// table entries and the capacity, and every offset is the start of a slot.
    pub open spec fn wf(self) -> bool {
        &&& self.start + PAGE_SIZE <= RAM_SIZE
        &&& self.table.dom().finite()
        &&& self.table.len() <= self.loaded <= CAPACITY
        &&& forall|pid: u16| #[trigger]
            self.table.contains_key(pid) ==> is_slot_offset(self.table[pid] as int)
    }

    /// Position in the store of the slot that the next load fills.
    pub open spec fn next_slot(self) -> int {
        self.start + self.loaded * PROCESS_SIZE
    }

    /// Position in the store of the slot that the table gives for `pid`.
    pub open spec fn slot_of(self, pid: u16) -> int {
        self.start + self.table[pid]
    }

    /// Why a load is refused, if it is: the page is full, or a byte of the
    /// next slot is held.
    pub open spec fn load_refusal(self, held: Seq<bool>) -> Option<MemoryError> {
        if self.loaded >= CAPACITY {
            Some(MemoryError::PageFull)
        } else if any_held(held, self.next_slot(), PROCESS_SIZE as int) {
            Some(MemoryError::ConcurrentAccessConflict)
        } else {
            None
        }
    }

    /// The page after a process with identifier `pid` has been loaded.
    pub open spec fn after_load(self, pid: u16) -> PageView {
        PageView {
            start: self.start,
            loaded: self.loaded + 1,
            table: self.table.insert(pid, (self.loaded * PROCESS_SIZE) as usize),
        }
    }

    /// Why unloading `pid` is refused, if it is: the table does not know
    /// `pid`, or a byte of its slot is held.
    pub open spec fn unload_refusal(self, held: Seq<bool>, pid: u16) -> Option<MemoryError> {
        if !self.table.contains_key(pid) {
            Some(MemoryError::UnknownPid)
        } else if any_held(held, self.slot_of(pid), PROCESS_SIZE as int) {
            Some(MemoryError::ConcurrentAccessConflict)
        } else {
            None
        }
    }

    /// The page after the process with identifier `pid` has been unloaded.
    pub open spec fn after_unload(self, pid: u16) -> PageView {
        PageView {
            start: self.start,
            loaded: (self.loaded - 1) as nat,
            table: self.table.remove(pid),
        }
    }
}

/// An offset in a page's window at which a slot begins.
pub open spec fn is_slot_offset(offset: int) -> bool {
    &&& 0 <= offset
    &&& offset % (PROCESS_SIZE as int) == 0
    &&& offset + PROCESS_SIZE <= PAGE_SIZE
}

/// `bytes` with `payload` copied over the positions from `at` on.
pub open spec fn write_slot(bytes: Seq<u8>, at: int, payload: Seq<u8>) -> Seq<u8> {
    Seq::new(
        bytes.len(),
        |i: int|
            if at <= i < at + payload.len() {
                payload[i - at]
            } else {
                bytes[i]
            },
    )
}

/// `bytes` with zero at the `len` positions from `at` on.
pub open spec fn zero_slot(bytes: Seq<u8>, at: int, len: int) -> Seq<u8> {
    Seq::new(
        bytes.len(),
        |i: int|
            if at <= i < at + len {
                0u8
            } else {
                bytes[i]
            },
    )
}

/// The dump of a page whose window holds `window`: a heading, then the bytes
/// in rows of `PAGE_DIM`.
pub open spec fn page_text(window: Seq<u8>) -> Seq<char> {
    "- RAM Page"@ + grid_text(window, PAGE_DIM as int)
}

/// A page of the store. It owns no bytes: it knows where its window starts,
/// and every operation that touches bytes is handed the store.
#[derive(Debug)]
pub struct Page {
    start: usize,
    loaded_processes: usize,
    map: HashMap<u16, usize>,
}

impl View for Page {
    type V = PageView;

    closed spec fn view(&self) -> PageView {
        PageView {
            start: self.start as nat,
            loaded: self.loaded_processes as nat,
            table: self.map@,
        }
    }
}

impl Page {
    /// The page's invariant, which is that of its view.
    pub open spec fn wf(&self) -> bool {
        self@.wf()
    }

    /// An empty page over the `PAGE_SIZE` bytes of `ram` that begin at
    /// `index`. A window that does not lie in the store is refused.
    pub fn new(index: usize, ram: &Ram) -> (result: Result<Page, MemoryError>)
        requires
            ram.wf(),
        ensures
            match result {
                Ok(page) => {
                    &&& index + PAGE_SIZE <= RAM_SIZE
                    &&& page.wf()
                    &&& page@ == (PageView { start: index as nat, loaded: 0, table: Map::empty() })
                },
                Err(e) => index + PAGE_SIZE > RAM_SIZE && e == MemoryError::OutOfBounds,
            },
    {
        let size = ram.size();
        if index > size || size - index < PAGE_SIZE {
            return Err(MemoryError::OutOfBounds);
        }
        let page = Page { start: index, loaded_processes: 0, map: HashMap::new() };
        proof {
            assert(page.map@ =~= Map::<u16, usize>::empty());
        }
        Ok(page)
    }

    /// Number of processes that a page can host.
    pub fn capacity(&self) -> (n: usize)
        ensures
            n == CAPACITY,
            n == PAGE_SIZE / PROCESS_SIZE,
    {
        PAGE_SIZE / PROCESS_SIZE
    }

    /// Number of processes that the bump counter says are loaded.
    pub fn occupancy(&self) -> (n: usize)
        ensures
            n == self@.loaded,
    {
        self.loaded_processes
    }

    /// Position in the store at which the page's window begins.
    pub fn start(&self) -> (index: usize)
        ensures
            index == self@.start,
    {
        self.start
    }

    /// The offset in the window that the table gives for `pid`, if it knows it.
    pub fn offset_of(&self, pid: u16) -> (offset: Option<usize>)
        ensures
            offset == (if self@.table.contains_key(pid) {
                Some(self@.table[pid])
            } else {
                None
            }),
    {
        match self.map.get(&pid) {
            Some(offset) => Some(*offset),
            None => None,
        }
    }
    /// Copies the instructions of `process` into the next slot, records the
    /// slot's offset under the process's identifier, and raises the counter.
    ///
    /// A full page refuses with `PageFull`; a held byte in the slot refuses
    /// with `ConcurrentAccessConflict`. A refused load writes nothing.
    pub fn load_process(&mut self, ram: &mut Ram, process: &Process) -> (result: Result<
        (),
        MemoryError,
    >)
        requires
            old(self).wf(),
            old(ram).wf(),
        ensures
            final(self).wf(),
            final(ram).wf(),
            final(ram).held() == old(ram).held(),
            result == (match old(self)@.load_refusal(old(ram).held()) {
                Some(e) => Err::<(), MemoryError>(e),
                None => Ok(()),
            }),
            result is Ok ==> {
                &&& final(self)@ == old(self)@.after_load(process@.pid)
                &&& final(ram)@ == write_slot(
                    old(ram)@,
                    old(self)@.next_slot(),
                    process@.instructions,
                )
            },
            result is Err ==> {
                &&& final(self)@ == old(self)@
                &&& final(ram)@ == old(ram)@
            },
            result is Ok && (exists|i: int|
                0 <= i < PROCESS_SIZE && #[trigger] process@.instructions[i] != 0)
                ==> count_nonzero(final(ram)@) > 0,
    {
        proof {
            process.lemma_instructions_len();
        }
        if self.loaded_processes >= CAPACITY {
            return Err(MemoryError::PageFull);
        }
        let offset: usize = self.loaded_processes * PROCESS_SIZE;
        let slot: usize = self.start + offset;
        if !ram.is_free(slot, PROCESS_SIZE) {
            return Err(MemoryError::ConcurrentAccessConflict);
        }
        let mut i: usize = 0;
        while i < PROCESS_SIZE
            invariant
                i <= PROCESS_SIZE,
                slot + PROCESS_SIZE <= RAM_SIZE,
                ram.wf(),
                ram.held() == old(ram).held(),
                !any_held(ram.held(), slot as int, PROCESS_SIZE as int),
                process@.instructions.len() == PROCESS_SIZE,
                ram@ == write_slot(old(ram)@, slot as int, process@.instructions.take(i as int)),
            decreases PROCESS_SIZE - i,
        {
            let byte = process.instruction(i);
            proof {
                assert(!ram.held()[slot + i]);
            }
            match ram.write(slot + i, byte) {
                Ok(()) => {},
                Err(e) => {
                    return Err(e);
                },
            }
            proof {
                assert(ram@ =~= write_slot(
                    old(ram)@,
                    slot as int,
                    process@.instructions.take(i + 1),
                ));
            }
            i += 1;
        }
        proof {
            assert(process@.instructions.take(i as int) =~= process@.instructions);
            lemma_written_slot_counts(old(ram)@, slot as int, process@.instructions);
        }
        self.map.insert(process.pid(), offset);
        self.loaded_processes += 1;
        Ok(())
    }
    /// Takes the process with identifier `pid` out of the page: reads the
    /// instructions that now stand in its slot, sets those bytes to zero,
    /// drops the table entry and lowers the counter. No other entry moves.
    ///
    /// An identifier that the table does not know is refused with
    /// `UnknownPid`; a held byte in the slot with `ConcurrentAccessConflict`.
    /// A refused unload changes nothing.
    pub fn unload_process(&mut self, ram: &mut Ram, pid: u16) -> (result: Result<
        Process,
        MemoryError,
    >)
        requires
            old(self).wf(),
            old(ram).wf(),
        ensures
            final(self).wf(),
            final(ram).wf(),
            final(ram).held() == old(ram).held(),
            match old(self)@.unload_refusal(old(ram).held(), pid) {
                Some(e) => result == Err::<Process, MemoryError>(e),
                None => result is Ok,
            },
            match result {
                Ok(process) => {
                    &&& process@.pid == pid
                    &&& process@.instructions == old(ram)@.subrange(
                        old(self)@.slot_of(pid),
                        old(self)@.slot_of(pid) + PROCESS_SIZE,
                    )
                    &&& final(self)@ == old(self)@.after_unload(pid)
                    &&& final(ram)@ == zero_slot(
                        old(ram)@,
                        old(self)@.slot_of(pid),
                        PROCESS_SIZE as int,
                    )
                },
                Err(_) => {
                    &&& final(self)@ == old(self)@
                    &&& final(ram)@ == old(ram)@
                },
            },
    {
        let offset: usize = match self.map.get(&pid) {
            Some(offset) => *offset,
            None => {
                return Err(MemoryError::UnknownPid);
            },
        };
        proof {
            assert(self@.table.contains_key(pid));
            assert(is_slot_offset(offset as int));
        }
        let slot: usize = self.start + offset;
        if !ram.is_free(slot, PROCESS_SIZE) {
            return Err(MemoryError::ConcurrentAccessConflict);
        }
        let mut instructions: [u8; PROCESS_SIZE] = [0u8; PROCESS_SIZE];
        let mut i: usize = 0;
        while i < PROCESS_SIZE
            invariant
                i <= PROCESS_SIZE,
                slot + PROCESS_SIZE <= RAM_SIZE,
                ram.wf(),
                ram.held() == old(ram).held(),
                !any_held(ram.held(), slot as int, PROCESS_SIZE as int),
                ram@ == zero_slot(old(ram)@, slot as int, i as int),
                forall|j: int| 0 <= j < i ==> instructions@[j] == old(ram)@[slot + j],
            decreases PROCESS_SIZE - i,
        {
            proof {
                assert(!ram.held()[slot + i]);
            }
            let byte = match ram.read(slot + i) {
                Ok(byte) => byte,
                Err(e) => {
                    return Err(e);
                },
            };
            match ram.write(slot + i, 0) {
                Ok(()) => {},
                Err(e) => {
                    return Err(e);
                },
            }
            instructions[i] = byte;
            proof {
                assert(ram@ =~= zero_slot(old(ram)@, slot as int, i + 1));
            }
            i += 1;
        }
        proof {
            assert(instructions@ =~= old(ram)@.subrange(slot as int, slot + PROCESS_SIZE));
            assert(self@.table.dom().len() > 0) by {
                if self@.table.dom().len() == 0 {
                    assert(self@.table.dom() =~= Set::empty());
                }
            }
        }
        self.map.remove(&pid);
        self.loaded_processes -= 1;
        Ok(Process::from_parts(pid, instructions))
    }
    /// The dump of the page's window, for diagnosis. A held byte in the
    /// window refuses it.
    pub fn render(&self, ram: &Ram) -> (result: Result<String, MemoryError>)
        requires
            self.wf(),
            ram.wf(),
        ensures
            match result {
                Ok(text) => {
                    &&& !any_held(ram.held(), self@.start as int, PAGE_SIZE as int)
                    &&& text@ == page_text(
                        ram@.subrange(self@.start as int, self@.start + PAGE_SIZE),
                    )
                },
                Err(e) => {
                    &&& any_held(ram.held(), self@.start as int, PAGE_SIZE as int)
                    &&& e == MemoryError::ConcurrentAccessConflict
                },
            },
    {
        if !ram.is_free(self.start, PAGE_SIZE) {
            return Err(MemoryError::ConcurrentAccessConflict);
        }
        let ghost window = ram@.subrange(self.start as int, self.start + PAGE_SIZE);
        let mut text = "- RAM Page".to_owned();
        let mut i: usize = 0;
        while i < PAGE_SIZE
            invariant
                i <= PAGE_SIZE,
                self.start + PAGE_SIZE <= RAM_SIZE,
                ram.wf(),
                !any_held(ram.held(), self.start as int, PAGE_SIZE as int),
                window == ram@.subrange(self.start as int, self.start + PAGE_SIZE),
                text@ == "- RAM Page"@ + grid_text(window.take(i as int), PAGE_DIM as int),
            decreases PAGE_SIZE - i,
        {
            proof {
                assert(!ram.held()[self.start + i]);
            }
            let byte = match ram.read(self.start + i) {
                Ok(byte) => byte,
                Err(e) => {
                    return Err(e);
                },
            };
            push_cell(&mut text, i, byte, PAGE_DIM);
            proof {
                let next = window.take(i + 1);
                assert(next.drop_last() =~= window.take(i as int));
                assert(next.last() == byte);
                assert(text@ =~= "- RAM Page"@ + grid_text(next, PAGE_DIM as int));
            }
            i += 1;
        }
        proof {
            assert(window.take(i as int) =~= window);
        }
        Ok(text)
    }
}

/// A store into which a payload with a byte that is not zero has just been
/// written has a byte that is not zero.
pub proof fn lemma_written_slot_counts(bytes: Seq<u8>, at: int, payload: Seq<u8>)
    requires
        0 <= at,
        at + payload.len() <= bytes.len(),
    ensures
        (exists|i: int| 0 <= i < payload.len() && #[trigger] payload[i] != 0) ==> count_nonzero(
            write_slot(bytes, at, payload),
        ) > 0,
{
    let written = write_slot(bytes, at, payload);
    if exists|i: int| 0 <= i < payload.len() && #[trigger] payload[i] != 0 {
        let i = choose|i: int| 0 <= i < payload.len() && #[trigger] payload[i] != 0;
        let nonzero = |b: u8| b != 0;
        assert(written[at + i] == payload[i]);
        assert(nonzero(written[at + i]));
        written.lemma_filter_contains(nonzero, at + i);
    }
}

} // verus!
