//! The dormant process descriptor: declared for the scheduler to come, not
//! yet wired into one. Raw machine state is held as plain values.

use vstd::prelude::*;

verus! {

/// What a process is doing, as far as the (future) scheduler cares.
#[derive(Clone, Copy, PartialEq, Eq, Structural, Debug)]
pub enum ProcessState {
    Running,
    Sleeping,
    Waiting,
    Dead,
}

/// The registers saved when a process is interrupted.
#[derive(Clone, Copy, PartialEq, Eq, Structural, Debug)]
pub struct TrapFrame {
    pub instruction_pointer: u64,
    pub stack_pointer: u64,
    pub flags: u64,
}

/// One process: its saved trap frame, the address of its stack, its program
/// counter, identifier, the address of its page-table root, and its state.
pub struct Process {
    pub frame: TrapFrame,
    pub stack: u64,
    pub program_counter: u64,
    pub pid: u16,
    pub root: u64,
    pub state: ProcessState,
}

impl Process {
    /// A freshly created process, not yet running.
    pub fn new(pid: u16, stack: u64, program_counter: u64, root: u64) -> (p: Process)
        ensures
            p.pid == pid,
            p.stack == stack,
            p.program_counter == program_counter,
            p.root == root,
            p.state == ProcessState::Waiting,
            p.frame == (TrapFrame {
                instruction_pointer: program_counter,
                stack_pointer: stack,
                flags: 0,
            }),
    {
        Process {
            frame: TrapFrame {
                instruction_pointer: program_counter,
                stack_pointer: stack,
                flags: 0,
            },
            stack,
            program_counter,
            pid,
            root,
            state: ProcessState::Waiting,
        }
    }
}

} // verus!
