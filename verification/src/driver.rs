//! The cycle driver: fetch, decode, execute, one tick at a time, halting on
//! the first terminal condition and staying halted.
//!
//! Each tick on a running machine fetches the word at the program counter
//! (halting with `EndOfProgram` past the loaded extent), decodes it (halting
//! with `InvalidInstruction` on a word outside the table), advances the
//! program counter by one instruction width before executing, then executes
//! (halting with the executor's fault, the state otherwise as the advance
//! left it). A halted driver never mutates its machine again.

use vstd::prelude::*;

use crate::isa::{decode, lemma_decode_wf, spec_decode};
use crate::machine::{initial_machine, spec_execute, spec_fetch, ExecFault, Machine, MachineView,
    MEMORY_SIZE};

verus! {

/// Why the driver stopped; a halted driver processes no further cycles.
#[derive(Clone, Copy, PartialEq, Eq, Structural, Debug)]
pub enum HaltReason {
    /// A fetch reached past the end of the loaded program.
    EndOfProgram,
    /// The fetched word, carried here, matched no supported opcode pattern.
    InvalidInstruction(u16),
    /// Executing the instruction raised this fault.
    Fault(ExecFault),
}

/// Whether the driver is still processing cycles.
#[derive(Clone, Copy, PartialEq, Eq, Structural, Debug)]
pub enum Status {
    Running,
    Halted(HaltReason),
}

/// The mathematical model of a driver: its machine and its status.
#[verifier::ext_equal]
pub ghost struct DriverView {
    pub machine: MachineView,
    pub status: Status,
}

impl DriverView {
    /// Well-formedness of the underlying machine state.
    pub open spec fn wf(self) -> bool {
        self.machine.wf()
    }
}

/// What one tick does: nothing once halted; otherwise fetch, decode,
/// advance the program counter, execute, moving to `Halted` on the first
/// failing stage and carrying its typed reason.
pub open spec fn spec_step(d: DriverView) -> DriverView {
    if !(d.status is Running) {
        d
    } else {
        match spec_fetch(d.machine) {
            None => DriverView { status: Status::Halted(HaltReason::EndOfProgram), ..d },
            Some(word) => match spec_decode(word) {
                Err(e) => DriverView {
                    status: Status::Halted(HaltReason::InvalidInstruction(word)),
                    ..d
                },
                Ok(instruction) => {
                    let advanced = MachineView { pc: (d.machine.pc + 2) as u16, ..d.machine };
                    match spec_execute(advanced, instruction) {
                        Ok(m) => DriverView { machine: m, status: Status::Running },
                        Err(f) => DriverView {
                            machine: advanced,
                            status: Status::Halted(HaltReason::Fault(f)),
                        },
                    }
                },
            },
        }
    }
}

/// The driver after `n` ticks.
pub open spec fn spec_run(d: DriverView, n: nat) -> DriverView
    decreases n,
{
    if n == 0 {
        d
    } else {
        spec_run(spec_step(d), (n - 1) as nat)
    }
}

/// Halted is terminal: one tick on a halted driver changes nothing.
pub proof fn lemma_halted_tick_is_noop(d: DriverView)
    requires
        !(d.status is Running),
    ensures
        spec_step(d) == d,
{
}

/// Halted is terminal: any number of ticks on a halted driver changes
/// nothing, machine state included.
pub proof fn lemma_halted_run_is_noop(d: DriverView, n: nat)
    requires
        !(d.status is Running),
    ensures
        spec_run(d, n) == d,
    decreases n,
{
    if n > 0 {
        lemma_halted_run_is_noop(d, (n - 1) as nat);
    }
}

/// Running `a + b` ticks is running `a`, then `b`.
proof fn lemma_run_compose(d: DriverView, a: nat, b: nat)
    ensures
        spec_run(d, a + b) == spec_run(spec_run(d, a), b),
    decreases a,
{
    if a > 0 {
        lemma_run_compose(spec_step(d), (a - 1) as nat, b);
    }
}

/// Running one more tick is one tick after the run so far.
proof fn lemma_run_succ(d: DriverView, n: nat)
    ensures
        spec_run(d, n + 1) == spec_step(spec_run(d, n)),
    decreases n,
{
    if n > 0 {
        lemma_run_succ(spec_step(d), (n - 1) as nat);
    } else {
        assert(spec_run(d, 1) == spec_run(spec_step(d), 0));
        assert(spec_run(spec_step(d), 0) == spec_step(d));
    }
}

/// One tick preserves machine well-formedness.
proof fn lemma_step_wf(d: DriverView)
    requires
        d.wf(),
    ensures
        spec_step(d).wf(),
{
    if d.status is Running && spec_fetch(d.machine) is Some {
        let word = spec_fetch(d.machine).unwrap();
        lemma_decode_wf(word);
    }
}

/// The cycle driver: a machine plus a running-or-halted status.
pub struct Driver {
    machine: Machine,
    status: Status,
}

impl View for Driver {
    type V = DriverView;

    closed spec fn view(&self) -> DriverView {
        DriverView { machine: self.machine@, status: self.status }
    }
}

impl Driver {
    /// Whether the underlying machine state is well-formed.
    pub open spec fn wf(&self) -> bool {
        self@.wf()
    }

    /// A driver over the startup machine state for `program` loaded at
    /// `load_base`, initially running; or nothing when the image does not
    /// fit in memory.
    pub fn new(program: &Vec<u8>, load_base: u16) -> (r: Option<Driver>)
        ensures
            r is Some <==> load_base + program@.len() <= MEMORY_SIZE,
            r matches Some(d) ==> d@.machine == initial_machine(program@, load_base) && d@.status
                == Status::Running && d.wf(),
    {
        match Machine::new(program, load_base) {
            Some(machine) => Some(Driver { machine, status: Status::Running }),
            None => None,
        }
    }

    /// The driver's status.
    pub fn status(&self) -> (r: Status)
        ensures
            r == self@.status,
    {
        self.status
    }

    /// Read-only access to the machine, for presenting the pixel grid and
    /// inspecting registers between cycles.
    pub fn machine(&self) -> (r: &Machine)
        ensures
            r@ == self@.machine,
            r.wf() == self.wf(),
    {
        &self.machine
    }

    /// Runs one fetch-decode-execute cycle, or nothing once halted.
    pub fn step(&mut self)
        requires
            old(self).wf(),
        ensures
            final(self).wf(),
            final(self)@ == spec_step(old(self)@),
    {
        proof {
            lemma_step_wf(self@);
        }
        match self.status {
            Status::Halted(_) => {
                proof {
                    assert(self@ =~= spec_step(old(self)@));
                }
            },
            Status::Running => {
                match self.machine.fetch() {
                    None => {
                        self.status = Status::Halted(HaltReason::EndOfProgram);
                        proof {
                            assert(self@ =~= spec_step(old(self)@));
                        }
                    },
                    Some(word) => {
                        match decode(word) {
                            Err(_) => {
                                self.status = Status::Halted(
                                    HaltReason::InvalidInstruction(word),
                                );
                                proof {
                                    assert(self@ =~= spec_step(old(self)@));
                                }
                            },
                            Ok(instruction) => {
                                proof {
                                    lemma_decode_wf(word);
                                }
                                self.machine.advance_pc();
                                match self.machine.execute(instruction) {
                                    Ok(_) => {
                                        proof {
                                            assert(self@ =~= spec_step(old(self)@));
                                        }
                                    },
                                    Err(f) => {
                                        self.status = Status::Halted(HaltReason::Fault(f));
                                        proof {
                                            assert(self@ =~= spec_step(old(self)@));
                                        }
                                    },
                                }
                            },
                        }
                    },
                }
            },
        }
    }

    /// Runs up to `max_cycles` cycles; stops early only when halted, which
    /// later cycles would not change anyway.
    pub fn run(&mut self, max_cycles: usize)
        requires
            old(self).wf(),
        ensures
            final(self).wf(),
            final(self)@ == spec_run(old(self)@, max_cycles as nat),
    {
        let mut i: usize = 0;
        while i < max_cycles
            invariant
                i <= max_cycles,
                self.wf(),
                self@ == spec_run(old(self)@, i as nat),
            decreases max_cycles - i,
        {
            match self.status {
                Status::Halted(_) => {
                    proof {
                        lemma_halted_run_is_noop(self@, (max_cycles - i) as nat);
                        lemma_run_compose(old(self)@, i as nat, (max_cycles - i) as nat);
                    }
                    return ;
                },
                Status::Running => {},
            }
            self.step();
            proof {
                lemma_run_succ(old(self)@, i as nat);
            }
            i += 1;
        }
    }
}

} // verus!
