//! The machine state and its executor: program counter, sixteen 8-bit
//! registers, a 16-bit index register, a bounded call stack, a 4096-byte
//! memory with the program image loaded at a chosen base offset, and the
//! pixel grid; `Machine::execute` applies one decoded instruction to it,
//! mutating it in place and reporting success or a typed fault. On a fault
//! the state is left unchanged.

use vstd::prelude::*;

use crate::isa::{wf_instruction, Instruction};
use crate::screen::{blank_screen, get_cell, grid_cells, new_screen, on_screen, screen_dom,
    set_cell, SCREEN_HEIGHT, SCREEN_WIDTH};

verus! {

/// The memory buffer holds exactly this many bytes; 12-bit addresses cover
/// all of it.
pub const MEMORY_SIZE: u16 = 4096;

/// The call stack holds at most this many return addresses.
pub const STACK_CAPACITY: usize = 16;

/// There are sixteen general-purpose registers.
pub const REGISTER_COUNT: usize = 16;

/// The flag register, written by the draw instruction's collision flag.
pub const FLAG_REGISTER: usize = 15;

/// The mathematical model of a machine state.
#[verifier::ext_equal]
pub ghost struct MachineView {
    /// Byte offset of the next instruction word.
    pub pc: u16,
    /// The sixteen general-purpose 8-bit registers.
    pub registers: Seq<u8>,
    /// The 16-bit index register, pointing into memory for sprite reads.
    pub index: u16,
    /// Return addresses, most recent last.
    pub stack: Seq<u16>,
    /// The whole memory buffer.
    pub memory: Seq<u8>,
    /// The pixel grid, keyed by (x, y) = (column, row).
    pub screen: Map<(int, int), bool>,
    /// One past the last byte of the loaded program image.
    pub program_end: u16,
}

impl MachineView {
    /// Well-formedness: fixed register, memory and screen dimensions, the
    /// stack within capacity and holding only in-memory return addresses,
    /// and the program counter at most one instruction past memory's end.
    pub open spec fn wf(self) -> bool {
        &&& self.registers.len() == REGISTER_COUNT
        &&& self.memory.len() == MEMORY_SIZE
        &&& self.stack.len() <= STACK_CAPACITY
        &&& (forall|i: int| 0 <= i < self.stack.len() ==> self.stack[i] <= MEMORY_SIZE)
        &&& self.screen.dom() == screen_dom()
        &&& self.pc <= MEMORY_SIZE + 2
        &&& self.program_end <= MEMORY_SIZE
    }
}

/// The simulated hardware: all state an instruction can read or mutate.
pub struct Machine {
    pub(crate) pc: u16,
    pub(crate) registers: Vec<u8>,
    pub(crate) index: u16,
    pub(crate) stack: Vec<u16>,
    pub(crate) memory: Vec<u8>,
    pub(crate) screen: grid::Grid<bool>,
    pub(crate) program_end: u16,
}

impl View for Machine {
    type V = MachineView;

    closed spec fn view(&self) -> MachineView {
        MachineView {
            pc: self.pc,
            registers: self.registers@,
            index: self.index,
            stack: self.stack@,
            memory: self.memory@,
            screen: grid_cells(self.screen),
            program_end: self.program_end,
        }
    }
}

/// The memory image after loading `program` at byte offset `load_base`:
/// program bytes there, zero everywhere else.
pub open spec fn loaded_memory(program: Seq<u8>, load_base: u16) -> Seq<u8> {
    Seq::new(
        MEMORY_SIZE as nat,
        |i: int|
            if load_base <= i < load_base + program.len() {
                program[i - load_base]
            } else {
                0u8
            },
    )
}

/// The machine state at startup: zeroed registers, index and stack, a blank
/// screen, the program counter at the image's load address, and memory
/// holding the image.
pub open spec fn initial_machine(program: Seq<u8>, load_base: u16) -> MachineView {
    MachineView {
        pc: load_base,
        registers: Seq::new(REGISTER_COUNT as nat, |i: int| 0u8),
        index: 0,
        stack: Seq::empty(),
        memory: loaded_memory(program, load_base),
        screen: blank_screen(),
        program_end: (load_base + program.len()) as u16,
    }
}

/// What a fetch at the current program counter yields: the big-endian
/// 16-bit word at [pc, pc+2), or nothing when that range runs past the
/// loaded program's extent.
pub open spec fn spec_fetch(s: MachineView) -> Option<u16> {
    if s.pc + 2 <= s.program_end {
        Some((s.memory[s.pc as int] * 256 + s.memory[s.pc + 1]) as u16)
    } else {
        None
    }
}

impl Machine {
    /// Whether this machine's state is well-formed.
    pub open spec fn wf(&self) -> bool {
        self@.wf()
    }

    /// Builds the startup machine state from a program image and its load
    /// base, or reports that the image does not fit in memory.
    pub fn new(program: &Vec<u8>, load_base: u16) -> (r: Option<Machine>)
        ensures
            r is Some <==> load_base + program@.len() <= MEMORY_SIZE,
            r matches Some(m) ==> m@ == initial_machine(program@, load_base) && m.wf(),
    {
        if program.len() > MEMORY_SIZE as usize
            || (load_base as usize) > MEMORY_SIZE as usize - program.len() {
            return None;
        }
        let mut memory: Vec<u8> = Vec::new();
        let mut i: usize = 0;
        while i < MEMORY_SIZE as usize
            invariant
                i <= MEMORY_SIZE,
                memory@ =~= Seq::new(i as nat, |j: int| 0u8),
            decreases MEMORY_SIZE - i,
        {
            memory.push(0);
            i += 1;
        }
        let mut j: usize = 0;
        while j < program.len()
            invariant
                j <= program@.len(),
                load_base + program@.len() <= MEMORY_SIZE,
                memory@.len() == MEMORY_SIZE,
                forall|k: int|
                    0 <= k < MEMORY_SIZE ==> memory@[k] == if load_base <= k < load_base + j {
                        program@[k - load_base]
                    } else {
                        0u8
                    },
            decreases program@.len() - j,
        {
            memory.set(load_base as usize + j, program[j]);
            j += 1;
        }
        let mut registers: Vec<u8> = Vec::new();
        let mut k: usize = 0;
        while k < REGISTER_COUNT
            invariant
                k <= REGISTER_COUNT,
                registers@ =~= Seq::new(k as nat, |j: int| 0u8),
            decreases REGISTER_COUNT - k,
        {
            registers.push(0);
            k += 1;
        }
        let m = Machine {
            pc: load_base,
            registers,
            index: 0,
            stack: Vec::new(),
            memory,
            screen: new_screen(),
            program_end: load_base + program.len() as u16,
        };
        proof {
            assert(m@.memory =~= loaded_memory(program@, load_base));
            assert(m@.registers =~= initial_machine(program@, load_base).registers);
            assert(m@.stack =~= Seq::<u16>::empty());
            assert(m@ =~= initial_machine(program@, load_base));
            assert(m@.screen.dom() =~= screen_dom());
        }
        Some(m)
    }

    /// The 16-bit big-endian word at [pc, pc+2), or `None` once that range
    /// runs past the loaded program's extent.
    pub fn fetch(&self) -> (r: Option<u16>)
        requires
            self.wf(),
        ensures
            r == spec_fetch(self@),
    {
        if self.pc + 2 <= self.program_end {
            let hi = self.memory[self.pc as usize];
            let lo = self.memory[self.pc as usize + 1];
            Some((hi as u16) * 256 + (lo as u16))
        } else {
            None
        }
    }

    /// Moves the program counter one instruction width forward; the cycle
    /// driver does this after a successful fetch and before executing, so
    /// that control-flow instructions are not overwritten.
    pub(crate) fn advance_pc(&mut self)
        requires
            old(self).wf(),
            old(self)@.pc + 2 <= MEMORY_SIZE,
        ensures
            final(self).wf(),
            final(self)@ == (MachineView { pc: (old(self)@.pc + 2) as u16, ..old(self)@ }),
    {
        self.pc = self.pc + 2;
        proof {
            assert(self@ =~= (MachineView { pc: (old(self)@.pc + 2) as u16, ..old(self)@ }));
        }
    }

    /// The current program counter.
    pub fn pc(&self) -> (r: u16)
        ensures
            r == self@.pc,
    {
        self.pc
    }

    /// The current value of register `i`.
    pub fn register(&self, i: usize) -> (r: u8)
        requires
            self.wf(),
            i < REGISTER_COUNT,
        ensures
            r == self@.registers[i as int],
    {
        self.registers[i]
    }

    /// The current index register.
    pub fn index(&self) -> (r: u16)
        ensures
            r == self@.index,
    {
        self.index
    }

    /// How many return addresses the call stack holds.
    pub fn stack_depth(&self) -> (r: usize)
        ensures
            r == self@.stack.len(),
    {
        self.stack.len()
    }

    /// Whether the pixel at column `x`, row `y` is on.
    pub fn pixel(&self, x: usize, y: usize) -> (r: bool)
        requires
            self.wf(),
            x < SCREEN_WIDTH,
            y < SCREEN_HEIGHT,
        ensures
            r == self@.screen[(x as int, y as int)],
    {
        crate::screen::get_cell(&self.screen, x, y)
    }
}

/// A fault raised by executing a single instruction.
#[derive(Clone, Copy, PartialEq, Eq, Structural, Debug)]
pub enum ExecFault {
    /// The call stack was at capacity on a subroutine call.
    StackOverflow,
    /// The call stack was empty on a return.
    StackUnderflow,
    /// A sprite row read reached past the end of memory.
    OutOfBoundsRead,
}

/// Whether bit `c` of sprite byte `b` is set, bit 0 being the most
/// significant: sprite bytes are drawn MSB-first, left to right.
pub open spec fn sprite_row_bit(b: u8, c: int) -> bool
    recommends
        0 <= c < 8,
{
    (b >> ((7 - c) as u8)) & 1 == 1
}

/// Whether drawing a sprite of `h` rows anchored at (x0, y0), its rows read
/// from `mem` starting at `index`, toggles the cell `p`.
pub open spec fn sprite_hit(
    mem: Seq<u8>,
    index: int,
    x0: int,
    y0: int,
    h: int,
    p: (int, int),
) -> bool {
    let c = p.0 - x0;
    let r = p.1 - y0;
    &&& 0 <= c < 8
    &&& 0 <= r < h
    &&& sprite_row_bit(mem[index + r], c)
}

/// The screen after the draw: every toggled on-screen cell is flipped, every
/// other cell keeps its state. Cells the sprite would reach beyond the
/// screen edge are clipped, not wrapped.
pub open spec fn draw_screen(
    scr: Map<(int, int), bool>,
    mem: Seq<u8>,
    index: int,
    x0: int,
    y0: int,
    h: int,
) -> Map<(int, int), bool> {
    Map::new(
        |p: (int, int)| on_screen(p),
        |p: (int, int)| scr[p] != sprite_hit(mem, index, x0, y0, h, p),
    )
}

/// Whether the draw toggles some on-screen cell that is already on: the
/// collision flag written to the flag register.
pub open spec fn draw_collides(
    scr: Map<(int, int), bool>,
    mem: Seq<u8>,
    index: int,
    x0: int,
    y0: int,
    h: int,
) -> bool {
    exists|p: (int, int)|
        on_screen(p) && #[trigger] sprite_hit(mem, index, x0, y0, h, p) && scr[p]
}

/// The machine state with the program counter one instruction further on.
pub open spec fn skip_next(s: MachineView) -> MachineView {
    MachineView { pc: (s.pc + 2) as u16, ..s }
}

/// What one instruction does to the machine state: the new state, or the
/// fault it raises, in which case the state is kept as it was.
pub open spec fn spec_execute(s: MachineView, i: Instruction) -> Result<MachineView, ExecFault>
    recommends
        s.wf(),
        wf_instruction(i),
{
    match i {
        Instruction::ClearScreen => Ok(MachineView { screen: blank_screen(), ..s }),
        Instruction::Jump { address } => Ok(MachineView { pc: address, ..s }),
        Instruction::CallSubroutine { address } => {
            if s.stack.len() >= STACK_CAPACITY {
                Err(ExecFault::StackOverflow)
            } else {
                Ok(MachineView { pc: address, stack: s.stack.push(s.pc), ..s })
            }
        },
        Instruction::Return => {
            if s.stack.len() == 0 {
                Err(ExecFault::StackUnderflow)
            } else {
                Ok(MachineView { pc: s.stack.last(), stack: s.stack.drop_last(), ..s })
            }
        },
        Instruction::CompareRegisters { x, y, want_equal } => {
            if (s.registers[x as int] == s.registers[y as int]) == want_equal {
                Ok(skip_next(s))
            } else {
                Ok(s)
            }
        },
        Instruction::CompareImmediate { x, immediate, want_equal } => {
            if (s.registers[x as int] == immediate) == want_equal {
                Ok(skip_next(s))
            } else {
                Ok(s)
            }
        },
        Instruction::AddImmediate { register, value } => Ok(
            MachineView {
                registers: s.registers.update(
                    register as int,
                    ((s.registers[register as int] + value) % 256) as u8,
                ),
                ..s
            },
        ),
        Instruction::SetImmediate { register, value } => Ok(
            MachineView { registers: s.registers.update(register as int, value), ..s },
        ),
        Instruction::SetIndex { value } => Ok(MachineView { index: value, ..s }),
        Instruction::Draw { x_register, y_register, sprite_height } => {
            let x0 = s.registers[x_register as int] as int % (SCREEN_WIDTH as int);
            let y0 = s.registers[y_register as int] as int % (SCREEN_HEIGHT as int);
            let h = sprite_height as int;
            if h > 0 && s.index + h > s.memory.len() {
                Err(ExecFault::OutOfBoundsRead)
            } else {
                Ok(
                    MachineView {
                        screen: draw_screen(s.screen, s.memory, s.index as int, x0, y0, h),
                        registers: s.registers.update(
                            FLAG_REGISTER as int,
                            if draw_collides(s.screen, s.memory, s.index as int, x0, y0, h) {
                                1u8
                            } else {
                                0u8
                            },
                        ),
                        ..s
                    },
                )
            }
        },
    }
}

/// Whether cell `p` is toggled by the first `k` sprite steps, the steps
/// taken row by row and, within a row, left to right.
spec fn hit_before(
    mem: Seq<u8>,
    index: int,
    x0: int,
    y0: int,
    h: int,
    k: int,
    p: (int, int),
) -> bool {
    let c = p.0 - x0;
    let r = p.1 - y0;
    &&& 0 <= c < 8
    &&& 0 <= r < h
    &&& 8 * r + c < k
    &&& sprite_row_bit(mem[index + r], c)
}

/// Whether some on-screen cell already on is toggled within the first `k`
/// sprite steps.
spec fn collides_before(
    scr: Map<(int, int), bool>,
    mem: Seq<u8>,
    index: int,
    x0: int,
    y0: int,
    h: int,
    k: int,
) -> bool {
    exists|p: (int, int)|
        on_screen(p) && #[trigger] hit_before(mem, index, x0, y0, h, k, p) && scr[p]
}

/// After all 8 * h steps, the partial toggle set is the full sprite hit set.
proof fn lemma_hit_before_full(mem: Seq<u8>, index: int, x0: int, y0: int, h: int)
    ensures
        forall|p: (int, int)| #[trigger]
            hit_before(mem, index, x0, y0, h, 8 * h, p) == sprite_hit(mem, index, x0, y0, h, p),
{
}

/// After all 8 * h steps, a partial collision is exactly a collision of the
/// whole draw.
proof fn lemma_collides_full(
    scr: Map<(int, int), bool>,
    mem: Seq<u8>,
    index: int,
    x0: int,
    y0: int,
    h: int,
)
    ensures
        collides_before(scr, mem, index, x0, y0, h, 8 * h) == draw_collides(
            scr,
            mem,
            index,
            x0,
            y0,
            h,
        ),
{
    lemma_hit_before_full(mem, index, x0, y0, h);
    if collides_before(scr, mem, index, x0, y0, h, 8 * h) {
        let p = choose|p: (int, int)|
            on_screen(p) && #[trigger] hit_before(mem, index, x0, y0, h, 8 * h, p) && scr[p];
        assert(on_screen(p) && sprite_hit(mem, index, x0, y0, h, p) && scr[p]);
    }
    if draw_collides(scr, mem, index, x0, y0, h) {
        let p = choose|p: (int, int)|
            on_screen(p) && #[trigger] sprite_hit(mem, index, x0, y0, h, p) && scr[p];
        assert(on_screen(p) && hit_before(mem, index, x0, y0, h, 8 * h, p) && scr[p]);
    }
}

/// One sprite step, at row `r` and column `c`: it toggles exactly the cell
/// (x0 + c, y0 + r), and only when that row's bit is set.
proof fn lemma_hit_step(
    mem: Seq<u8>,
    index: int,
    x0: int,
    y0: int,
    h: int,
    r: int,
    c: int,
)
    requires
        0 <= c < 8,
        0 <= r < h,
    ensures
        forall|p: (int, int)| #[trigger] hit_before(mem, index, x0, y0, h, 8 * r + c + 1, p) == (
        hit_before(mem, index, x0, y0, h, 8 * r + c, p) || (p == ((x0 + c), (y0 + r))
            && sprite_row_bit(mem[index + r], c))),
{
    assert forall|p: (int, int)| #[trigger]
        hit_before(mem, index, x0, y0, h, 8 * r + c + 1, p) == (hit_before(
            mem,
            index,
            x0,
            y0,
            h,
            8 * r + c,
            p,
        ) || (p == ((x0 + c), (y0 + r)) && sprite_row_bit(mem[index + r], c))) by {
        let pc = p.0 - x0;
        let pr = p.1 - y0;
        if 0 <= pc < 8 && 0 <= pr < h && 8 * pr + pc == 8 * r + c {
            assert(pr == r && pc == c);
        }
    }
}

/// One sprite step changes the partial collision exactly by whether its own
/// cell is on screen, toggled, and already on.
proof fn lemma_collides_step(
    scr: Map<(int, int), bool>,
    mem: Seq<u8>,
    index: int,
    x0: int,
    y0: int,
    h: int,
    r: int,
    c: int,
)
    requires
        0 <= c < 8,
        0 <= r < h,
    ensures
        collides_before(scr, mem, index, x0, y0, h, 8 * r + c + 1) == (collides_before(
            scr,
            mem,
            index,
            x0,
            y0,
            h,
            8 * r + c,
        ) || (on_screen(((x0 + c), (y0 + r))) && sprite_row_bit(mem[index + r], c) && scr[(
            (x0 + c),
            (y0 + r),
        )])),
{
    let k = 8 * r + c;
    let q = ((x0 + c), (y0 + r));
    lemma_hit_step(mem, index, x0, y0, h, r, c);
    if collides_before(scr, mem, index, x0, y0, h, k) {
        let p = choose|p: (int, int)|
            on_screen(p) && #[trigger] hit_before(mem, index, x0, y0, h, k, p) && scr[p];
        assert(on_screen(p) && hit_before(mem, index, x0, y0, h, k + 1, p) && scr[p]);
    }
    if on_screen(q) && sprite_row_bit(mem[index + r], c) && scr[q] {
        assert(hit_before(mem, index, x0, y0, h, k + 1, q));
        assert(on_screen(q) && hit_before(mem, index, x0, y0, h, k + 1, q) && scr[q]);
    }
    if collides_before(scr, mem, index, x0, y0, h, k + 1) {
        let p = choose|p: (int, int)|
            on_screen(p) && #[trigger] hit_before(mem, index, x0, y0, h, k + 1, p) && scr[p];
        if hit_before(mem, index, x0, y0, h, k, p) {
            assert(collides_before(scr, mem, index, x0, y0, h, k));
        } else {
            assert(p == q);
        }
    }
}

impl Machine {
    /// Applies one instruction to the machine state. On success the state
    /// becomes what `spec_execute` says; on a fault it is unchanged.
    pub fn execute(&mut self, i: Instruction) -> (r: Result<(), ExecFault>)
        requires
            old(self).wf(),
            wf_instruction(i),
            old(self)@.pc <= MEMORY_SIZE,
        ensures
            final(self).wf(),
            match spec_execute(old(self)@, i) {
                Ok(v) => r is Ok && final(self)@ == v,
                Err(f) => r == Err::<(), ExecFault>(f) && final(self)@ == old(self)@,
            },
    {
        match i {
            Instruction::ClearScreen => {
                self.screen = new_screen();
                proof {
                    assert(self@ =~= (MachineView { screen: blank_screen(), ..old(self)@ }));
                    assert(self@.screen.dom() =~= screen_dom());
                }
                Ok(())
            },
            Instruction::Jump { address } => {
                self.pc = address;
                proof {
                    assert(self@ =~= (MachineView { pc: address, ..old(self)@ }));
                }
                Ok(())
            },
            Instruction::CallSubroutine { address } => {
                if self.stack.len() >= STACK_CAPACITY {
                    Err(ExecFault::StackOverflow)
                } else {
                    self.stack.push(self.pc);
                    self.pc = address;
                    proof {
                        assert(self@ =~= (MachineView {
                            pc: address,
                            stack: old(self)@.stack.push(old(self)@.pc),
                            ..old(self)@
                        }));
                    }
                    Ok(())
                }
            },
            Instruction::Return => {
                if self.stack.len() == 0 {
                    Err(ExecFault::StackUnderflow)
                } else {
                    let a = self.stack.pop().unwrap();
                    self.pc = a;
                    proof {
                        assert(self@ =~= (MachineView {
                            pc: old(self)@.stack.last(),
                            stack: old(self)@.stack.drop_last(),
                            ..old(self)@
                        }));
                    }
                    Ok(())
                }
            },
            Instruction::CompareRegisters { x, y, want_equal } => {
                if (self.registers[x as usize] == self.registers[y as usize]) == want_equal {
                    self.pc = self.pc + 2;
                    proof {
                        assert(self@ =~= skip_next(old(self)@));
                    }
                } else {
                    proof {
                        assert(self@ =~= old(self)@);
                    }
                }
                Ok(())
            },
            Instruction::CompareImmediate { x, immediate, want_equal } => {
                if (self.registers[x as usize] == immediate) == want_equal {
                    self.pc = self.pc + 2;
                    proof {
                        assert(self@ =~= skip_next(old(self)@));
                    }
                } else {
                    proof {
                        assert(self@ =~= old(self)@);
                    }
                }
                Ok(())
            },
            Instruction::AddImmediate { register, value } => {
                let sum: u16 = (self.registers[register as usize] as u16) + (value as u16);
                self.registers.set(register as usize, (sum % 256) as u8);
                proof {
                    assert(self@ =~= (MachineView {
                        registers: old(self)@.registers.update(
                            register as int,
                            ((old(self)@.registers[register as int] + value) % 256) as u8,
                        ),
                        ..old(self)@
                    }));
                }
                Ok(())
            },
            Instruction::SetImmediate { register, value } => {
                self.registers.set(register as usize, value);
                proof {
                    assert(self@ =~= (MachineView {
                        registers: old(self)@.registers.update(register as int, value),
                        ..old(self)@
                    }));
                }
                Ok(())
            },
            Instruction::SetIndex { value } => {
                self.index = value;
                proof {
                    assert(self@ =~= (MachineView { index: value, ..old(self)@ }));
                }
                Ok(())
            },
            Instruction::Draw { x_register, y_register, sprite_height } => {
                self.draw(x_register, y_register, sprite_height)
            },
        }
    }

    /// The draw instruction: XOR-composites a sprite of `sprite_height` rows
    /// read from memory at the index register onto the screen at the
    /// position held by the two named registers, clipping at the screen
    /// edges, and writes the collision flag to the flag register.
    fn draw(&mut self, x_register: u8, y_register: u8, sprite_height: u8) -> (res: Result<
        (),
        ExecFault,
    >)
        requires
            old(self).wf(),
            x_register < 16,
            y_register < 16,
            sprite_height < 16,
        ensures
            final(self).wf(),
            match spec_execute(
                old(self)@,
                Instruction::Draw { x_register, y_register, sprite_height },
            ) {
                Ok(v) => res is Ok && final(self)@ == v,
                Err(f) => res == Err::<(), ExecFault>(f) && final(self)@ == old(self)@,
            },
    {
        let ghost s0 = old(self)@;
        let x0: u8 = self.registers[x_register as usize] % (SCREEN_WIDTH as u8);
        let y0: u8 = self.registers[y_register as usize] % (SCREEN_HEIGHT as u8);
        let h: u8 = sprite_height;
        if h > 0 && (self.index as usize) + (h as usize) > self.memory.len() {
            return Err(ExecFault::OutOfBoundsRead);
        }
        let ghost gx0 = x0 as int;
        let ghost gy0 = y0 as int;
        let ghost gh = h as int;
        let ghost idx = self.index as int;
        let ghost scr0 = s0.screen;
        let ghost mem = s0.memory;
        let mut vf: u8 = 0;
        let mut row: u8 = 0;
        while row < h
            invariant
                self.wf(),
                row <= h,
                h < 16,
                h > 0 ==> idx + h <= MEMORY_SIZE,
                self@.pc == s0.pc,
                self@.registers == s0.registers,
                self@.index == s0.index,
                self@.stack == s0.stack,
                self@.memory == s0.memory,
                self@.program_end == s0.program_end,
                s0.wf(),
                idx == s0.index as int,
                mem == s0.memory,
                scr0 == s0.screen,
                gx0 == x0 as int,
                gy0 == y0 as int,
                gh == h as int,
                x0 < SCREEN_WIDTH as u8,
                y0 < SCREEN_HEIGHT as u8,
                forall|p: (int, int)|
                    on_screen(p) ==> self@.screen[p] == (scr0[p] != hit_before(
                        mem,
                        idx,
                        gx0,
                        gy0,
                        gh,
                        8 * (row as int),
                        p,
                    )),
                vf == 1 || vf == 0,
                (vf == 1) == collides_before(scr0, mem, idx, gx0, gy0, gh, 8 * (row as int)),
            decreases h - row,
        {
            let byte: u8 = self.memory[self.index as usize + row as usize];
            let mut col: u8 = 0;
            while col < 8
                invariant
                    self.wf(),
                    row < h,
                    col <= 8,
                    h < 16,
                    h > 0 ==> idx + h <= MEMORY_SIZE,
                    self@.pc == s0.pc,
                    self@.registers == s0.registers,
                    self@.index == s0.index,
                    self@.stack == s0.stack,
                    self@.memory == s0.memory,
                    self@.program_end == s0.program_end,
                    s0.wf(),
                    idx == s0.index as int,
                    mem == s0.memory,
                    scr0 == s0.screen,
                    gx0 == x0 as int,
                    gy0 == y0 as int,
                    gh == h as int,
                    x0 < SCREEN_WIDTH as u8,
                    y0 < SCREEN_HEIGHT as u8,
                    byte == mem[idx + row as int],
                    forall|p: (int, int)|
                        on_screen(p) ==> self@.screen[p] == (scr0[p] != hit_before(
                            mem,
                            idx,
                            gx0,
                            gy0,
                            gh,
                            8 * (row as int) + col as int,
                            p,
                        )),
                    vf == 1 || vf == 0,
                    (vf == 1) == collides_before(
                        scr0,
                        mem,
                        idx,
                        gx0,
                        gy0,
                        gh,
                        8 * (row as int) + col as int,
                    ),
                decreases 8 - col,
            {
                let ghost k = 8 * (row as int) + col as int;
                let bit: bool = (byte >> (7 - col)) & 1 == 1;
                proof {
                    assert(bit == sprite_row_bit(byte, col as int));
                    lemma_hit_step(mem, idx, gx0, gy0, gh, row as int, col as int);
                    lemma_collides_step(scr0, mem, idx, gx0, gy0, gh, row as int, col as int);
                }
                if bit {
                    let x: u8 = x0 + col;
                    let y: u8 = y0 + row;
                    if x < SCREEN_WIDTH as u8 && y < SCREEN_HEIGHT as u8 {
                        let ghost q = (x as int, y as int);
                        proof {
                            assert(self@.screen.dom() == screen_dom());
                            assert(on_screen(q));
                            assert(self@.screen.dom().contains(q));
                            assert(!hit_before(mem, idx, gx0, gy0, gh, k, q));
                            assert(self@.screen[q] == scr0[q]);
                        }
                        let cur = get_cell(&self.screen, x as usize, y as usize);
                        if cur {
                            vf = 1;
                        }
                        set_cell(&mut self.screen, x as usize, y as usize, !cur);
                        proof {
                            assert(self@.screen.dom() =~= screen_dom());
                        }
                    }
                }
                col = col + 1;
            }
            row = row + 1;
        }
        self.registers.set(FLAG_REGISTER, vf);
        proof {
            lemma_hit_before_full(mem, idx, gx0, gy0, gh);
            lemma_collides_full(scr0, mem, idx, gx0, gy0, gh);
            let target = spec_execute(
                s0,
                Instruction::Draw { x_register, y_register, sprite_height },
            );
            assert(target is Ok);
            let v = target.unwrap();
            assert(self@.screen =~= v.screen);
            assert(self@.registers =~= v.registers);
            assert(self@ =~= v);
        }
        Ok(())
    }
}

/// A subroutine call followed at once by a return restores the program
/// counter and the call stack exactly: since the cycle driver advances the
/// program counter before executing, the restored value is the address of
/// the instruction immediately after the call.
pub proof fn lemma_call_then_return(s: MachineView, address: u16)
    requires
        s.wf(),
        s.stack.len() < STACK_CAPACITY,
        address < MEMORY_SIZE,
    ensures
        spec_execute(s, Instruction::CallSubroutine { address }) is Ok,
        ({
            let s1 = spec_execute(s, Instruction::CallSubroutine { address }).unwrap();
            &&& s1.pc == address
            &&& spec_execute(s1, Instruction::Return) is Ok
            &&& spec_execute(s1, Instruction::Return).unwrap() == s
        }),
{
    let s1 = spec_execute(s, Instruction::CallSubroutine { address }).unwrap();
    let s2 = spec_execute(s1, Instruction::Return).unwrap();
    assert(s1.stack.last() == s.pc);
    assert(s1.stack.drop_last() =~= s.stack);
    assert(s2 =~= s);
}

/// Cells outside the sprite's rectangle, 8 wide and `h` tall and anchored
/// at (x0, y0), keep their state: sprite rows and columns that would reach
/// past the screen edge are clipped, never wrapped to the opposite side.
pub proof fn lemma_draw_clipped(
    scr: Map<(int, int), bool>,
    mem: Seq<u8>,
    index: int,
    x0: int,
    y0: int,
    h: int,
    p: (int, int),
)
    requires
        on_screen(p),
        !(x0 <= p.0 < x0 + 8 && y0 <= p.1 < y0 + h),
    ensures
        draw_screen(scr, mem, index, x0, y0, h)[p] == scr[p],
{
}

/// Drawing the same sprite twice at the same coordinates restores every
/// cell: the second draw toggles exactly the cells the first did. The flag
/// register does not feed the coordinates, so both draws anchor alike.
pub proof fn lemma_draw_twice_restores_screen(s: MachineView, i: Instruction)
    requires
        s.wf(),
        wf_instruction(i),
        i matches Instruction::Draw { x_register, y_register, sprite_height } && x_register
            != FLAG_REGISTER as u8 && y_register != FLAG_REGISTER as u8,
        spec_execute(s, i) is Ok,
    ensures
        ({
            let s1 = spec_execute(s, i).unwrap();
            &&& spec_execute(s1, i) is Ok
            &&& spec_execute(s1, i).unwrap().screen == s.screen
            &&& spec_execute(s1, i).unwrap().pc == s.pc
            &&& spec_execute(s1, i).unwrap().stack == s.stack
            &&& spec_execute(s1, i).unwrap().index == s.index
            &&& spec_execute(s1, i).unwrap().memory == s.memory
            &&& forall|j: int|
                0 <= j < REGISTER_COUNT && j != FLAG_REGISTER ==> spec_execute(
                    s1,
                    i,
                ).unwrap().registers[j] == s.registers[j]
        }),
{
    let rx = i->Draw_x_register;
    let ry = i->Draw_y_register;
    let h = i->Draw_sprite_height;
    let s1 = spec_execute(s, i).unwrap();
    assert(s1.registers[rx as int] == s.registers[rx as int]);
    assert(s1.registers[ry as int] == s.registers[ry as int]);
    let x0 = s.registers[rx as int] as int % (SCREEN_WIDTH as int);
    let y0 = s.registers[ry as int] as int % (SCREEN_HEIGHT as int);
    let s2 = spec_execute(s1, i).unwrap();
    assert(s2.screen =~= s.screen);
}

/// Collision flags of a draw on a clear screen: the first draw reports no
/// collision, and an immediately repeated draw reports one exactly when the
/// sprite has some bit set that lands on the screen (every cell the first
/// draw turned on collides). The flag register does not feed the
/// coordinates, so both draws anchor alike.
pub proof fn lemma_draw_collision_flags(s: MachineView, i: Instruction)
    requires
        s.wf(),
        wf_instruction(i),
        i matches Instruction::Draw { x_register, y_register, sprite_height } && x_register
            != FLAG_REGISTER as u8 && y_register != FLAG_REGISTER as u8,
        spec_execute(s, i) is Ok,
        forall|p: (int, int)| on_screen(p) ==> !s.screen[p],
    ensures
        spec_execute(s, i).unwrap().registers[FLAG_REGISTER as int] == 0,
        ({
            let rx = i->Draw_x_register;
            let ry = i->Draw_y_register;
            let h = i->Draw_sprite_height;
            let x0 = s.registers[rx as int] as int % (SCREEN_WIDTH as int);
            let y0 = s.registers[ry as int] as int % (SCREEN_HEIGHT as int);
            let s1 = spec_execute(s, i).unwrap();
            &&& spec_execute(s1, i) is Ok
            &&& (spec_execute(s1, i).unwrap().registers[FLAG_REGISTER as int] == 1 <==> exists|
                p: (int, int),
            |
                on_screen(p) && #[trigger] sprite_hit(
                    s.memory,
                    s.index as int,
                    x0,
                    y0,
                    h as int,
                    p,
                ))
        }),
{
    let rx = i->Draw_x_register;
    let ry = i->Draw_y_register;
    let h = i->Draw_sprite_height;
    let x0 = s.registers[rx as int] as int % (SCREEN_WIDTH as int);
    let y0 = s.registers[ry as int] as int % (SCREEN_HEIGHT as int);
    let idx = s.index as int;
    let s1 = spec_execute(s, i).unwrap();
    if draw_collides(s.screen, s.memory, idx, x0, y0, h as int) {
        let p = choose|p: (int, int)|
            on_screen(p) && #[trigger] sprite_hit(s.memory, idx, x0, y0, h as int, p)
                && s.screen[p];
        assert(false);
    }
    assert(s1.registers[FLAG_REGISTER as int] == 0);
    assert(s1.registers[rx as int] == s.registers[rx as int]);
    assert(s1.registers[ry as int] == s.registers[ry as int]);
    let s2 = spec_execute(s1, i).unwrap();
    if draw_collides(s1.screen, s.memory, idx, x0, y0, h as int) {
        let p = choose|p: (int, int)|
            on_screen(p) && #[trigger] sprite_hit(s.memory, idx, x0, y0, h as int, p)
                && s1.screen[p];
        assert(on_screen(p) && sprite_hit(s.memory, idx, x0, y0, h as int, p));
    }
    if exists|p: (int, int)|
        on_screen(p) && #[trigger] sprite_hit(s.memory, idx, x0, y0, h as int, p) {
        let p = choose|p: (int, int)|
            on_screen(p) && #[trigger] sprite_hit(s.memory, idx, x0, y0, h as int, p);
        assert(s1.screen[p] == (s.screen[p] != sprite_hit(s.memory, idx, x0, y0, h as int, p)));
        assert(s1.screen[p]);
        assert(draw_collides(s1.screen, s.memory, idx, x0, y0, h as int));
    }
}

} // verus!
