//! A process: an identifier and a block of instruction bytes of fixed size.
use crate::dump::{decimal_text, grid_text, push_decimal, push_grid};
use rand::Rng;
use vstd::prelude::*;
use vstd::string::StringExecFns;

verus! {

/// Bytes of instructions in every process.
pub const PROCESS_SIZE: usize = 32;

/// A process is a plain value: a page keeps a copy of its instructions, and
/// hands back an equal value when the process is unloaded.
#[derive(Debug, Clone, Copy)]
pub struct Process {
    pid: u16,
    instructions: [u8; PROCESS_SIZE],
}

/// What a process is: its identifier and its instructions.
pub struct ProcessView {
    pub pid: u16,
    pub instructions: Seq<u8>,
}

impl View for Process {
    type V = ProcessView;

    closed spec fn view(&self) -> ProcessView {
        ProcessView { pid: self.pid, instructions: self.instructions@ }
    }
}

/// The dump of a process: a heading with the identifier in decimal, then the
/// instructions in two rows.
pub open spec fn process_text(process: ProcessView) -> Seq<char> {
    "\n\tProcess PID "@ + decimal_text(process.pid as nat) + ":"@ + grid_text(
        process.instructions,
        PROCESS_SIZE as int / 2,
    )
}

/// Draws an identifier and a block of instructions from the thread's random
/// number generator, `rand::thread_rng`, with `Rng::gen`. What comes out is
/// a matter of chance, so nothing is claimed of it.
#[verifier::external_body]
fn random_parts() -> (parts: (u16, [u8; PROCESS_SIZE])) {
    let mut rng = rand::thread_rng();
    (rng.gen(), rng.gen())
}

impl Process {
    /// Every process has exactly `PROCESS_SIZE` instruction bytes.
    pub proof fn lemma_instructions_len(self)
        ensures
            self@.instructions.len() == PROCESS_SIZE,
    {
    }

    /// A process with a random identifier and random instructions.
    pub fn new() -> (process: Process) {
        let (pid, instructions) = random_parts();
        Process::from_parts(pid, instructions)
    }

    /// A process with the given identifier and random instructions.
    pub fn with_pid(pid: u16) -> (process: Process)
        ensures
            process@.pid == pid,
    {
        let mut process = Process::new();
        process.pid = pid;
        process
    }

    /// The process made of exactly these parts.
    pub fn from_parts(pid: u16, instructions: [u8; PROCESS_SIZE]) -> (process: Process)
        ensures
            process@.pid == pid,
            process@.instructions == instructions@,
    {
        Process { pid, instructions }
    }

    /// The identifier.
    pub fn pid(&self) -> (pid: u16)
        ensures
            pid == self@.pid,
    {
        self.pid
    }

    /// The instruction bytes.
    pub fn instructions(&self) -> (instructions: [u8; PROCESS_SIZE])
        ensures
            instructions@ == self@.instructions,
    {
        self.instructions
    }

    /// The instruction byte at `index`.
    pub fn instruction(&self, index: usize) -> (byte: u8)
        requires
            index < PROCESS_SIZE,
        ensures
            byte == self@.instructions[index as int],
    {
        self.instructions[index]
    }

    /// The dump of the process, for diagnosis.
    pub fn render(&self) -> (text: String)
        ensures
            text@ == process_text(self@),
    {
        let mut text = "\n\tProcess PID ".to_owned();
        push_decimal(&mut text, self.pid);
        text.append(":");
        push_grid(&mut text, self.instructions.as_slice(), PROCESS_SIZE / 2);
        proof {
            assert(text@ =~= process_text(self@));
        }
        text
    }
}

impl PartialEq for Process {
    /// Two processes are equal when their identifiers and all their
    /// instruction bytes are.
    fn eq(&self, other: &Process) -> (equal: bool) {
        if self.pid != other.pid {
            return false;
        }
        let mut i: usize = 0;
        while i < PROCESS_SIZE
            invariant
                i <= PROCESS_SIZE,
                forall|j: int| 0 <= j < i ==> self.instructions@[j] == other.instructions@[j],
            decreases PROCESS_SIZE - i,
        {
            if self.instructions[i] != other.instructions[i] {
                return false;
            }
            i += 1;
        }
        proof {
            assert(self.instructions@ =~= other.instructions@);
        }
        true
    }
}

impl vstd::std_specs::cmp::PartialEqSpecImpl for Process {
    open spec fn obeys_eq_spec() -> bool {
        true
    }

    open spec fn eq_spec(&self, other: &Process) -> bool {
        self@.pid == other@.pid && self@.instructions == other@.instructions
    }
}

} // verus!
