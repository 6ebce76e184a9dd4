//! The machine itself: state, loading, and the fetch-decode-execute engine.

use vstd::prelude::*;

use crate::opcode::{lemma_nib_bounds, lemma_nnn_bound, spec_decode, Instr, Opcode};
use crate::screen::Screen;
use crate::semantics::{
    lemma_step_wf, spec_cleared_fb, spec_draw_in_bounds, spec_draw_row_bits, spec_draw_rows,
    spec_fb_index, spec_init, spec_loaded, spec_regs_loaded, spec_regs_stored, spec_rows_drawn,
    spec_run, spec_step, spec_wf, spec_xorshift, Chip8View, Fault, RunOutcome, RunResult,
    StepOutcome, StepResult, MEMORY_SIZE, MEMORY_START, PROGRAM_MEMORY_SIZE, SCREEN_HEIGHT,
    SCREEN_MEMORY_START, SCREEN_WIDTH, STACK_MEMORY_END, STACK_MEMORY_START,
};

verus! {

/// The recoverable, caller-facing loading failure: the program does not fit
/// in the program region.
#[derive(Clone, Copy, Debug, PartialEq, Eq, Structural)]
pub enum LoadError {
    TooLarge,
}

/// One step of the 64-bit xorshift generator: the output feeds back as the
/// next seed.
pub fn rand(seed: u64) -> (r: u64)
    ensures
        r == spec_xorshift(seed),
{
    let mut rnd = seed;
    rnd = rnd ^ (rnd << 13);
    rnd = rnd ^ (rnd >> 7);
    rnd = rnd ^ (rnd << 17);
    rnd
}

/// A vector of `n` zero bytes.
fn zeroed(n: usize) -> (r: Vec<u8>)
    ensures
        r@ == Seq::new(n as nat, |j: int| 0u8),
{
    let mut v: Vec<u8> = Vec::new();
    let mut k: usize = 0;
    while k < n
        invariant
            k <= n,
            v@.len() == k,
            forall|j: int| 0 <= j < k ==> v@[j] == 0u8,
        decreases n - k,
    {
        v.push(0);
        k += 1;
    }
    proof {
        assert(v@ =~= Seq::new(n as nat, |j: int| 0u8));
    }
    v
}

pub struct Chip8<T> {
    /// 16 8-bit data registers named V0 to VF.
    v: Vec<u8>,
    /// Memory address register `I`.
    i: u16,
    /// Stack pointer: a byte offset into the stack region of `memory`.
    sp: usize,
    /// Program counter: a byte offset into `memory`.
    pc: usize,
    /// RAM: program, call stack and framebuffer in one flat image.
    memory: Vec<u8>,
    /// Amount of memory occupied by the loaded program.
    used_memory: usize,
    /// The display surface the framebuffer is mirrored to.
    screen: T,
    /// State of the pseudo-random generator.
    seed: u64,
}

impl<T> View for Chip8<T> {
    type V = Chip8View;

    closed spec fn view(&self) -> Chip8View {
        Chip8View {
            regs: self.v@,
            i: self.i as int,
            sp: self.sp as int,
            pc: self.pc as int,
            mem: self.memory@,
            used: self.used_memory as int,
            seed: self.seed,
        }
    }
}

impl<T> Chip8<T> {
    /// The shape every machine keeps: see `spec_wf`.
    pub open spec fn wf(&self) -> bool {
        spec_wf(self@)
    }
}

impl<T: Screen> Chip8<T> {
    /// A fresh machine with an explicit generator seed: zeroed registers and
    /// memory, empty stack, program counter at the program start.
    pub fn new_with_seed(screen: T, seed: u64) -> (r: Chip8<T>)
        ensures
            r.wf(),
            r@ == spec_init(seed),
    {
        let r = Chip8 {
            v: zeroed(16),
            i: 0,
            sp: STACK_MEMORY_END,
            pc: MEMORY_START,
            memory: zeroed(MEMORY_SIZE),
            used_memory: 0,
            screen,
            seed,
        };
        proof {
            assert(r@ =~= spec_init(seed));
        }
        r
    }

    /// A fresh machine with the seed at zero.  A caller that wants a
    /// different pseudo-random stream (say, one derived from the clock)
    /// passes its own seed to `new_with_seed`.
    pub fn new(screen: T) -> (r: Chip8<T>)
        ensures
            r.wf(),
            r@ == spec_init(0),
    {
        Chip8::new_with_seed(screen, 0)
    }

    /// Copy a program into memory at the program start, where every loaded
    /// address expects it.  Fails, changing nothing, unless the program is
    /// strictly smaller than the program region.
    pub fn load_from_slice(&mut self, slice: &[u8]) -> (r: Result<(), LoadError>)
        requires
            old(self).wf(),
        ensures
            final(self).wf(),
            slice@.len() < PROGRAM_MEMORY_SIZE ==> r == Ok::<(), LoadError>(())
                && final(self)@ == (Chip8View {
                mem: spec_loaded(old(self)@.mem, slice@),
                used: slice@.len() as int,
                ..old(self)@
            }),
            slice@.len() >= PROGRAM_MEMORY_SIZE ==> r == Err::<(), LoadError>(LoadError::TooLarge)
                && final(self)@ == old(self)@,
    {
        if slice.len() >= PROGRAM_MEMORY_SIZE {
            return Err(LoadError::TooLarge);
        }
        let ghost m0 = self@;
        let mut k: usize = 0;
        while k < slice.len()
            invariant
                self.wf(),
                k <= slice@.len(),
                slice@.len() < PROGRAM_MEMORY_SIZE,
                self@.mem.len() == MEMORY_SIZE,
                forall|j: int|
                    MEMORY_START <= j < MEMORY_START + k ==> self@.mem[j] == slice@[j
                        - MEMORY_START],
                forall|j: int|
                    0 <= j < MEMORY_SIZE && !(MEMORY_START <= j < MEMORY_START + k)
                        ==> self@.mem[j] == m0.mem[j],
                self@.regs == m0.regs,
                self@.i == m0.i,
                self@.sp == m0.sp,
                self@.pc == m0.pc,
                self@.used == m0.used,
                self@.seed == m0.seed,
            decreases slice@.len() - k,
        {
            self.memory[MEMORY_START + k] = slice[k];
            k += 1;
        }
        self.used_memory = slice.len();
        proof {
            assert(self@.mem =~= spec_loaded(m0.mem, slice@));
            assert(self@ =~= (Chip8View {
                mem: spec_loaded(m0.mem, slice@),
                used: slice@.len() as int,
                ..m0
            }));
        }
        Ok(())
    }

    /// The sixteen general registers, read one at a time.
    pub fn v(&self, x: usize) -> (r: u8)
        requires
            self.wf(),
            x < 16,
        ensures
            r == self@.regs[x as int],
    {
        self.v[x]
    }

    /// The address register `I`.
    pub fn i(&self) -> (r: u16)
        ensures
            r as int == self@.i,
    {
        self.i
    }

    /// The stack pointer.
    pub fn sp(&self) -> (r: usize)
        ensures
            r as int == self@.sp,
    {
        self.sp
    }

    /// The program counter.
    pub fn pc(&self) -> (r: usize)
        ensures
            r as int == self@.pc,
    {
        self.pc
    }

    /// One byte of RAM.
    pub fn memory(&self, addr: usize) -> (r: u8)
        requires
            self.wf(),
            addr < MEMORY_SIZE,
        ensures
            r == self@.mem[addr as int],
    {
        self.memory[addr]
    }

    /// Advance the program counter past one instruction.
    pub fn inc_pc(&mut self)
        requires
            old(self)@.pc + 2 <= usize::MAX,
        ensures
            final(self)@ == (Chip8View { pc: old(self)@.pc + 2, ..old(self)@ }),
    {
        self.pc += 2;
    }

    /// Advance the generator once and return its output, which is also the
    /// new seed.
    pub fn rand_gen(&mut self) -> (r: u64)
        ensures
            r == spec_xorshift(old(self)@.seed),
            final(self)@ == (Chip8View { seed: spec_xorshift(old(self)@.seed), ..old(self)@ }),
    {
        let number = rand(self.seed);
        self.seed = number;
        number
    }

    /// Decode the loaded program, two bytes at a time (padding an odd-length
    /// program with one extra byte), into the listing a debugger prints.
    /// Entry `k` decodes the bytes at `MEMORY_START + 2 * k`.
    pub fn dump_memory(&self) -> (r: Vec<Instr>)
        requires
            self.wf(),
        ensures
            r@.len() == (self@.used + 1) / 2,
            forall|k: int|
                0 <= k < r@.len() ==> r@[k] == spec_decode(
                    self@.mem[MEMORY_START + 2 * k],
                    self@.mem[MEMORY_START + 2 * k + 1],
                ),
    {
        let mut out: Vec<Instr> = Vec::new();
        let mut pc: usize = MEMORY_START;
        let mut memory_end: usize = MEMORY_START + self.used_memory;
        // ensure that we are 2 bytes aligned
        if memory_end % 2 != 0 {
            memory_end += 1;
        }
        while pc < memory_end
            invariant
                self.wf(),
                MEMORY_START <= pc <= memory_end,
                memory_end == MEMORY_START + 2 * ((self@.used + 1) / 2),
                memory_end <= STACK_MEMORY_START,
                pc % 2 == 0,
                out@.len() == (pc - MEMORY_START) / 2,
                forall|k: int|
                    0 <= k < out@.len() ==> out@[k] == spec_decode(
                        self@.mem[MEMORY_START + 2 * k],
                        self@.mem[MEMORY_START + 2 * k + 1],
                    ),
            decreases memory_end - pc,
        {
            let opcode = Opcode(self.memory[pc], self.memory[pc + 1]);
            out.push(opcode.disassemble());
            pc += 2;
        }
        out
    }

    /// Clear the framebuffer bits, then tell the surface to clear and
    /// present.
    fn op_disp_clear(&mut self)
        requires
            old(self).wf(),
        ensures
            final(self).wf(),
            final(self)@ == (Chip8View { mem: spec_cleared_fb(old(self)@.mem), ..old(self)@ }),
    {
        let ghost m0 = self@;
        let mut k: usize = SCREEN_MEMORY_START;
        while k < MEMORY_SIZE
            invariant
                SCREEN_MEMORY_START <= k <= MEMORY_SIZE,
                self@.mem.len() == MEMORY_SIZE,
                forall|j: int| SCREEN_MEMORY_START <= j < k ==> self@.mem[j] == 0u8,
                forall|j: int|
                    0 <= j < MEMORY_SIZE && !(SCREEN_MEMORY_START <= j < k) ==> self@.mem[j]
                        == m0.mem[j],
                self@.regs == m0.regs,
                self@.i == m0.i,
                self@.sp == m0.sp,
                self@.pc == m0.pc,
                self@.used == m0.used,
                self@.seed == m0.seed,
            decreases MEMORY_SIZE - k,
        {
            self.memory[k] = 0;
            k += 1;
        }
        self.screen.clear();
        self.screen.present();
        proof {
            assert(self@.mem =~= spec_cleared_fb(m0.mem));
            assert(self@ =~= (Chip8View { mem: spec_cleared_fb(m0.mem), ..m0 }));
        }
    }

    /// Draw the `len`-row sprite read from memory at `I` with its top-left
    /// pixel at `(x, y)`: a read-modify-write XOR into the memory-mapped
    /// framebuffer, collision detection into `VF`, clipping at the screen
    /// edges.  The surface is told about each flipped pixel after the bit in
    /// memory has changed, and told to present once at the end.  Fails,
    /// changing nothing, if a row that would be drawn would read its pattern
    /// byte from past the end of memory.
    #[verifier::loop_isolation(false)]
    fn op_draw(&mut self, x: usize, y: usize, len: u8) -> (r: Result<(), Fault>)
        requires
            old(self).wf(),
            x < 256,
            y < 256,
            len < 16,
        ensures
            final(self).wf(),
            ({
                let dr = spec_draw_rows(
                    old(self)@.mem,
                    false,
                    x as int,
                    y as int,
                    old(self)@.i,
                    len as int,
                );
                if spec_draw_in_bounds(old(self)@.i, y as int, len as int) {
                    r == Ok::<(), Fault>(()) && final(self)@ == (Chip8View {
                        mem: dr.0,
                        regs: old(self)@.regs.update(15, if dr.1 { 1u8 } else { 0u8 }),
                        ..old(self)@
                    })
                } else {
                    r == Err::<(), Fault>(Fault::MemoryOutOfRange) && final(self)@ == old(self)@
                }
            }),
    {
        let rows: usize = if y >= SCREEN_HEIGHT as usize {
            0
        } else if (len as usize) <= SCREEN_HEIGHT as usize - y {
            len as usize
        } else {
            SCREEN_HEIGHT as usize - y
        };
        proof {
            assert(rows as int == spec_rows_drawn(y as int, len as int));
        }
        if rows > 0 && (self.i as usize) + rows > MEMORY_SIZE {
            return Err(Fault::MemoryOutOfRange);
        }
        let ghost m0 = self@;
        let base = self.i as usize;
        self.v[15] = 0;
        proof {
            assert(self@.regs =~= m0.regs.update(15, 0u8));
        }
        let mut i: u8 = 0;
        while i < len
            invariant
                i <= len,
                ({
                    let d = spec_draw_rows(m0.mem, false, x as int, y as int, m0.i, i as int);
                    self@.mem == d.0 && self@.regs == m0.regs.update(
                        15,
                        if d.1 { 1u8 } else { 0u8 },
                    )
                }),
                self@.mem.len() == MEMORY_SIZE,
                self@.i == m0.i,
                self@.sp == m0.sp,
                self@.pc == m0.pc,
                self@.used == m0.used,
                self@.seed == m0.seed,
            decreases len - i,
        {
            let cy = y + i as usize;
            if cy < SCREEN_HEIGHT as usize {
                let ghost d_row = spec_draw_rows(m0.mem, false, x as int, y as int, m0.i, i as int);
                proof {
                    assert(i < rows);
                }
                let sprite_line = self.memory[base + i as usize];
                let ghost mrow = self@.mem;
                let mut jj: usize = 0;
                while jj < 8
                    invariant
                        jj <= 8,
                        ({
                            let db = spec_draw_row_bits(
                                mrow,
                                d_row.1,
                                sprite_line,
                                x as int,
                                cy as int,
                                jj as int,
                            );
                            self@.mem == db.0 && self@.regs == m0.regs.update(
                                15,
                                if db.1 { 1u8 } else { 0u8 },
                            )
                        }),
                        self@.mem.len() == MEMORY_SIZE,
                        self@.i == m0.i,
                        self@.sp == m0.sp,
                        self@.pc == m0.pc,
                        self@.used == m0.used,
                        self@.seed == m0.seed,
                    decreases 8 - jj,
                {
                    let ghost db_pre = spec_draw_row_bits(
                        mrow,
                        d_row.1,
                        sprite_line,
                        x as int,
                        cy as int,
                        jj as int,
                    );
                    let cx = x + jj;
                    if cx < SCREEN_WIDTH as usize {
                        let px = sprite_line & (1u8 << ((7 - jj) as u8));
                        if px != 0 {
                            // locate the framebuffer bit for (cx, cy)
                            let (screen_line_idx, screen_px_idx) = self.get_screen_memory_px(
                                cx,
                                cy,
                            );
                            proof {
                                assert(SCREEN_MEMORY_START <= screen_line_idx < MEMORY_SIZE);
                            }
                            let screen_line = self.memory[screen_line_idx];
                            let screen_px = screen_line & (1u8 << (screen_px_idx as u8));
                            if screen_px != 0 {
                                self.v[15] = 1;
                                proof {
                                    assert(self@.regs =~= m0.regs.update(15, 1u8));
                                }
                            }
                            // write the flipped bit back to screen memory,
                            // then mirror the new value to the surface
                            let mask = 1u8 << (screen_px_idx as u8);
                            self.memory[screen_line_idx] = screen_line ^ mask;
                            if screen_px != 0 {
                                self.screen.clear_px(cx as i32, cy as i32);
                            } else {
                                self.screen.draw_px(cx as i32, cy as i32);
                            }
                        }
                    }
                    jj += 1;
                    proof {
                        let db = spec_draw_row_bits(
                            mrow,
                            d_row.1,
                            sprite_line,
                            x as int,
                            cy as int,
                            jj as int,
                        );
                        if (cx as int) < SCREEN_WIDTH as int && sprite_line & (1u8 << ((8 - jj)
                            as u8)) != 0 {
                            assert(self@.mem == db.0);
                            if db_pre.1 {
                                assert(self@.regs =~= m0.regs.update(15, 1u8));
                            }
                        } else {
                            assert(db == db_pre);
                        }
                    }
                }
                proof {
                    let d1 = spec_draw_rows(m0.mem, false, x as int, y as int, m0.i, i as int + 1);
                    assert(d1 == spec_draw_row_bits(
                        d_row.0,
                        d_row.1,
                        d_row.0[m0.i + i as int],
                        x as int,
                        cy as int,
                        8,
                    ));
                }
            }
            i += 1;
        }
        self.screen.present();
        proof {
            let dr = spec_draw_rows(m0.mem, false, x as int, y as int, m0.i, len as int);
            assert(self@ =~= (Chip8View {
                mem: dr.0,
                regs: m0.regs.update(15, if dr.1 { 1u8 } else { 0u8 }),
                ..m0
            }));
        }
        Ok(())
    }

    /// One fetch-decode-execute step.  `Ok(Executed)` means an instruction
    /// ran (the machine moved to the successor state `spec_step` gives);
    /// `Ok(Halted)` means a self-jump was detected, a controlled halt; an
    /// `Err` is the fatal condition `spec_step` names.  A halting or faulting
    /// step leaves the machine unchanged.
    #[verifier::loop_isolation(false)]
    #[verifier::rlimit(60)]
    pub fn emulate_op(&mut self) -> (r: Result<StepOutcome, Fault>)
        requires
            old(self).wf(),
        ensures
            final(self).wf(),
            (match spec_step(old(self)@) {
                StepResult::Stepped(m1) => r == Ok::<StepOutcome, Fault>(StepOutcome::Executed)
                    && final(self)@ == m1,
                StepResult::Halted => r == Ok::<StepOutcome, Fault>(StepOutcome::Halted)
                    && final(self)@ == old(self)@,
                StepResult::Faulted(f) => r == Err::<StepOutcome, Fault>(f)
                    && final(self)@ == old(self)@,
            }),
    {
        proof {
            lemma_step_wf(old(self)@);
        }
        if self.pc >= MEMORY_SIZE - 1 {
            return Err(Fault::PcOutOfRange);
        }
        let ghost m0 = self@;
        let opcode = Opcode(self.memory[self.pc], self.memory[self.pc + 1]);
        proof {
            lemma_nib_bounds(opcode.0);
            lemma_nib_bounds(opcode.1);
            lemma_nnn_bound(opcode.0, opcode.1);
        }
        let instr = opcode.disassemble();
        match instr {
            Instr::ClearDisplay => {
                self.op_disp_clear();
                self.inc_pc();
                Ok(StepOutcome::Executed)
            },
            Instr::Return => {
                // restore pc from the stack memory, then shrink the stack
                if self.sp + 2 > STACK_MEMORY_END {
                    return Err(Fault::StackUnderflow);
                }
                self.pc = (self.memory[self.sp] as usize) * 256 + (self.memory[self.sp + 1]
                    as usize);
                self.sp += 2;
                Ok(StepOutcome::Executed)
            },
            Instr::Jump(nnn) => {
                if nnn as usize == self.pc {
                    // a jump to itself would spin forever: halt instead
                    return Ok(StepOutcome::Halted);
                }
                self.pc = nnn as usize;
                Ok(StepOutcome::Executed)
            },
            Instr::Call(nnn) => {
                // push the return address big-endian, then jump
                if self.sp < STACK_MEMORY_START + 2 {
                    return Err(Fault::StackOverflow);
                }
                self.sp -= 2;
                let ret = self.pc + 2;
                self.memory[self.sp] = ((ret / 256) % 256) as u8;
                self.memory[self.sp + 1] = (ret % 256) as u8;
                self.pc = nnn as usize;
                Ok(StepOutcome::Executed)
            },
            Instr::SkipEqImm(x, nn) => {
                if self.v[x as usize] == nn {
                    self.inc_pc();
                }
                self.inc_pc();
                Ok(StepOutcome::Executed)
            },
            Instr::SkipNeImm(x, nn) => {
                if self.v[x as usize] != nn {
                    self.inc_pc();
                }
                self.inc_pc();
                Ok(StepOutcome::Executed)
            },
            Instr::SkipEqReg(x, y) => {
                if self.v[x as usize] == self.v[y as usize] {
                    self.inc_pc();
                }
                self.inc_pc();
                Ok(StepOutcome::Executed)
            },
            Instr::MovImm(x, nn) => {
                self.v[x as usize] = nn;
                self.inc_pc();
                Ok(StepOutcome::Executed)
            },
            Instr::AddImm(x, nn) => {
                let xi = x as usize;
                let s = self.v[xi] as u16 + nn as u16;
                self.v[xi] = (s % 256) as u8;
                self.inc_pc();
                Ok(StepOutcome::Executed)
            },
            Instr::MovReg(x, y) => {
                self.v[x as usize] = self.v[y as usize];
                self.inc_pc();
                Ok(StepOutcome::Executed)
            },
            Instr::OrReg(x, y) => {
                let xi = x as usize;
                self.v[xi] = self.v[xi] | self.v[y as usize];
                self.inc_pc();
                Ok(StepOutcome::Executed)
            },
            Instr::AndReg(x, y) => {
                let xi = x as usize;
                self.v[xi] = self.v[xi] & self.v[y as usize];
                self.inc_pc();
                Ok(StepOutcome::Executed)
            },
            Instr::XorReg(x, y) => {
                let xi = x as usize;
                self.v[xi] = self.v[xi] ^ self.v[y as usize];
                self.inc_pc();
                Ok(StepOutcome::Executed)
            },
            Instr::AddReg(x, y) => {
                let xi = x as usize;
                let s = self.v[xi] as u16 + self.v[y as usize] as u16;
                self.v[xi] = (s % 256) as u8;
                self.v[15] = if s >= 256 {
                    1
                } else {
                    0
                };
                self.inc_pc();
                Ok(StepOutcome::Executed)
            },
            Instr::SubReg(x, y) => {
                let xi = x as usize;
                let a = self.v[xi];
                let b = self.v[y as usize];
                self.v[xi] = ((a as u16 + 256 - b as u16) % 256) as u8;
                self.v[15] = if a >= b {
                    1
                } else {
                    0
                };
                self.inc_pc();
                Ok(StepOutcome::Executed)
            },
            Instr::ShrReg(x) => {
                let xi = x as usize;
                self.v[15] = self.v[xi] & 1;
                self.v[xi] = self.v[xi] >> 1;
                self.inc_pc();
                Ok(StepOutcome::Executed)
            },
            Instr::SubnReg(x, y) => {
                let xi = x as usize;
                let a = self.v[xi];
                let b = self.v[y as usize];
                self.v[xi] = ((b as u16 + 256 - a as u16) % 256) as u8;
                self.v[15] = if b >= a {
                    1
                } else {
                    0
                };
                self.inc_pc();
                Ok(StepOutcome::Executed)
            },
            Instr::ShlReg(x) => {
                let xi = x as usize;
                self.v[15] = self.v[xi] >> 7;
                self.v[xi] = self.v[xi] << 1;
                self.inc_pc();
                Ok(StepOutcome::Executed)
            },
            Instr::MovI(nnn) => {
                self.i = nnn;
                self.inc_pc();
                Ok(StepOutcome::Executed)
            },
            Instr::Rand(x, nn) => {
                let number = self.rand_gen();
                self.v[x as usize] = ((number & 0xff) as u8) & nn;
                self.inc_pc();
                Ok(StepOutcome::Executed)
            },
            Instr::Draw(x, y, n) => {
                let vx = self.v[x as usize];
                let vy = self.v[y as usize];
                match self.op_draw(vx as usize, vy as usize, n) {
                    Ok(()) => {
                        self.inc_pc();
                        Ok(StepOutcome::Executed)
                    },
                    Err(f) => Err(f),
                }
            },
            Instr::AddToI(x) => {
                let vx = self.v[x as usize];
                self.i = ((self.i as u32 + vx as u32) % 0x10000) as u16;
                self.inc_pc();
                Ok(StepOutcome::Executed)
            },
            Instr::RegDump(x) => {
                let xi = x as usize;
                let base = self.i as usize;
                if base + xi >= MEMORY_SIZE {
                    return Err(Fault::MemoryOutOfRange);
                }
                let mut k: usize = 0;
                while k <= xi
                    invariant
                        k <= xi + 1,
                        self@.mem.len() == MEMORY_SIZE,
                        forall|j: int| base <= j < base + k ==> self@.mem[j] == m0.regs[j - base],
                        forall|j: int|
                            0 <= j < MEMORY_SIZE && !(base <= j < base + k) ==> self@.mem[j]
                                == m0.mem[j],
                        self@.regs == m0.regs,
                        self@.i == m0.i,
                        self@.sp == m0.sp,
                        self@.pc == m0.pc,
                        self@.used == m0.used,
                        self@.seed == m0.seed,
                    decreases xi + 1 - k,
                {
                    self.memory[base + k] = self.v[k];
                    k += 1;
                }
                proof {
                    assert(self@.mem =~= spec_regs_stored(m0.mem, m0.regs, m0.i, x as int));
                }
                self.inc_pc();
                Ok(StepOutcome::Executed)
            },
            Instr::RegLoad(x) => {
                let xi = x as usize;
                let base = self.i as usize;
                if base + xi >= MEMORY_SIZE {
                    return Err(Fault::MemoryOutOfRange);
                }
                let mut k: usize = 0;
                while k <= xi
                    invariant
                        k <= xi + 1,
                        self@.regs.len() == 16,
                        forall|j: int| 0 <= j < k ==> self@.regs[j] == m0.mem[base + j],
                        forall|j: int| k <= j < 16 ==> self@.regs[j] == m0.regs[j],
                        self@.mem == m0.mem,
                        self@.i == m0.i,
                        self@.sp == m0.sp,
                        self@.pc == m0.pc,
                        self@.used == m0.used,
                        self@.seed == m0.seed,
                    decreases xi + 1 - k,
                {
                    self.v[k] = self.memory[base + k];
                    k += 1;
                }
                proof {
                    assert(self@.regs =~= spec_regs_loaded(m0.mem, m0.regs, m0.i, x as int));
                }
                self.inc_pc();
                Ok(StepOutcome::Executed)
            },
            Instr::Unknown(b0, b1) => Err(Fault::UnknownOpcode { b0, b1, pc: self.pc }),
        }
    }

    /// Run at most `max_steps` fetch-decode-execute steps: exactly the
    /// prefix of the run that `spec_run` describes.  Stops early with
    /// `Ok(Halted)` at a self-jump and with the fault at a fatal condition;
    /// `Ok(StepLimit)` says the budget ran out first.
    #[verifier::loop_isolation(false)]
    pub fn emulate(&mut self, max_steps: usize) -> (r: Result<RunOutcome, Fault>)
        requires
            old(self).wf(),
        ensures
            final(self).wf(),
            (match spec_run(old(self)@, max_steps as nat) {
                RunResult::Running(m) => r == Ok::<RunOutcome, Fault>(RunOutcome::StepLimit)
                    && final(self)@ == m,
                RunResult::Halted(m) => r == Ok::<RunOutcome, Fault>(RunOutcome::Halted)
                    && final(self)@ == m,
                RunResult::Faulted(m, f) => r == Err::<RunOutcome, Fault>(f) && final(self)@ == m,
            }),
    {
        let mut steps: usize = 0;
        while steps < max_steps
            invariant
                steps <= max_steps,
                self.wf(),
                spec_run(old(self)@, max_steps as nat) == spec_run(
                    self@,
                    (max_steps - steps) as nat,
                ),
            decreases max_steps - steps,
        {
            match self.emulate_op() {
                Ok(StepOutcome::Executed) => {
                    steps += 1;
                },
                Ok(StepOutcome::Halted) => {
                    return Ok(RunOutcome::Halted);
                },
                Err(f) => {
                    return Err(f);
                },
            }
        }
        Ok(RunOutcome::StepLimit)
    }

    /// Translate a pixel location on screen to its location in memory: the
    /// index of its framebuffer byte and the bit position inside that byte.
    pub fn get_screen_memory_px(&mut self, x: usize, y: usize) -> (r: (usize, usize))
        requires
            x < SCREEN_WIDTH as usize,
            y < SCREEN_HEIGHT as usize,
        ensures
            *final(self) == *old(self),
            r.0 == spec_fb_index(x as int, y as int),
            r.1 == 7 - (x as int) % 8,
    {
        (SCREEN_MEMORY_START + y * 8 + x / 8, 7 - (x % 8))
    }
}

} // verus!
