//! The mathematical model of the machine: its state, its memory layout, and
//! the meaning of one fetch-decode-execute step.
//!
//! Memory map, 4k (`0x1000`) in total:
//!
//! ```text
//! ---------------------------------------------------------------
//! | 0x0-0x200 | 0x200 - 0xEA0 | 0xEA0 - 0xF00 |  0xF00 - 0xFFF  |
//! |interpreter| available mem |  call stack   | display refresh |
//! ---------------------------------------------------------------
//! ```

use vstd::prelude::*;

use crate::opcode::{spec_decode, Instr};

verus! {

/// Programs are loaded, and start executing, at this offset.
pub const MEMORY_START: usize = 0x200;

/// Total size of the flat RAM image.
pub const MEMORY_SIZE: usize = 0x1000;

/// Size of the region available for a loaded program.
pub const PROGRAM_MEMORY_SIZE: usize = 0x0ca0;

pub const SCREEN_WIDTH: u32 = 64;

pub const SCREEN_HEIGHT: u32 = 32;

/// Lowest address of the call-stack region; a call that would push below it
/// overflows the stack.
pub const STACK_MEMORY_START: usize = 0xea0;

/// One past the highest address of the call-stack region; the stack pointer
/// of an empty stack.
pub const STACK_MEMORY_END: usize = 0xf00;

/// Start of the memory-mapped framebuffer: one bit per pixel, eight bytes
/// per screen row.
pub const SCREEN_MEMORY_START: usize = 0xf00;

/// The machine state, as the contracts speak of it: the sixteen `V`
/// registers, the address register `I`, the stack pointer, the program
/// counter, the flat RAM image (which contains the call stack and the
/// framebuffer), the loaded-program length, and the generator state.
#[verifier::ext_equal]
pub ghost struct Chip8View {
    pub regs: Seq<u8>,
    pub i: int,
    pub sp: int,
    pub pc: int,
    pub mem: Seq<u8>,
    pub used: int,
    pub seed: u64,
}

/// The always-fatal execution defects: every one of them stops a run.
#[derive(Clone, Copy, Debug, PartialEq, Eq, Structural)]
pub enum Fault {
    /// An opcode with no defined semantics reached dispatch; the offending
    /// bytes and the program counter identify it.
    UnknownOpcode { b0: u8, b1: u8, pc: usize },
    /// `00EE` with an empty call stack.
    StackUnderflow,
    /// `2NNN` when the stack region is exhausted.
    StackOverflow,
    /// The program counter no longer has two readable bytes ahead.
    PcOutOfRange,
    /// A sprite fetch or bulk register transfer through `I` would reach past
    /// the end of memory.
    MemoryOutOfRange,
}

/// What one successful step did.
#[derive(Clone, Copy, Debug, PartialEq, Eq, Structural)]
pub enum StepOutcome {
    /// An instruction was executed and the machine can keep running.
    Executed,
    /// A self-jump was detected: the program spins in place, so the run is
    /// over.
    Halted,
}

/// How a bounded run ended.
#[derive(Clone, Copy, Debug, PartialEq, Eq, Structural)]
pub enum RunOutcome {
    /// A self-jump was reached: the program is done.
    Halted,
    /// The step budget ran out first.
    StepLimit,
}

/// The meaning of one step: a successor state, a controlled halt, or a
/// fault.  A halting or faulting step leaves the machine unchanged.
pub ghost enum StepResult {
    Stepped(Chip8View),
    Halted,
    Faulted(Fault),
}

/// The meaning of a bounded run: the state where the budget ran out, the
/// state that halted, or the state that faulted (and its fault).
pub ghost enum RunResult {
    Running(Chip8View),
    Halted(Chip8View),
    Faulted(Chip8View, Fault),
}

/// Well-formedness: the shape every reachable machine state keeps.
pub open spec fn spec_wf(m: Chip8View) -> bool {
    &&& m.regs.len() == 16
    &&& m.mem.len() == MEMORY_SIZE
    &&& 0 <= m.i < 0x10000
    &&& STACK_MEMORY_START <= m.sp <= STACK_MEMORY_END
    &&& 0 <= m.pc
    &&& 0 <= m.used < PROGRAM_MEMORY_SIZE
}

/// The state a fresh machine starts from: zeroed registers and memory, an
/// empty stack, the program counter at the program start.
pub open spec fn spec_init(seed: u64) -> Chip8View {
    Chip8View {
        regs: Seq::new(16, |j: int| 0u8),
        i: 0,
        sp: STACK_MEMORY_END as int,
        pc: MEMORY_START as int,
        mem: Seq::new(MEMORY_SIZE as nat, |j: int| 0u8),
        used: 0,
        seed,
    }
}

/// One step of the 64-bit xorshift generator.
pub open spec fn spec_xorshift(seed: u64) -> u64 {
    let a = seed ^ (seed << 13);
    let b = a ^ (a >> 7);
    b ^ (b << 17)
}

/// The low byte of a generator output, the part the random opcode consumes.
pub open spec fn spec_low_byte(x: u64) -> u8 {
    (x & 0xff) as u8
}

/// High byte of a big-endian 16-bit value, as pushed on a call.
pub open spec fn spec_hi_byte(a: int) -> u8 {
    ((a / 256) % 256) as u8
}

/// Low byte of a big-endian 16-bit value, as pushed on a call.
pub open spec fn spec_lo_byte(a: int) -> u8 {
    (a % 256) as u8
}

/// The byte of the framebuffer that holds pixel `(x, y)`.
pub open spec fn spec_fb_index(x: int, y: int) -> int {
    SCREEN_MEMORY_START + y * 8 + x / 8
}

/// The single-bit mask for pixel `(x, y)` inside its framebuffer byte: bit
/// `7 - x % 8`, most-significant bit leftmost.
pub open spec fn spec_px_mask(x: int) -> u8 {
    1u8 << ((7 - x % 8) as u8)
}

/// Whether pixel `(x, y)` is lit.  The framebuffer bit in `mem` is the single
/// source of truth for this.
pub open spec fn spec_px_lit(mem: Seq<u8>, x: int, y: int) -> bool {
    mem[spec_fb_index(x, y)] & spec_px_mask(x) != 0
}

/// The memory image with the framebuffer cleared and all else kept.
pub open spec fn spec_cleared_fb(mem: Seq<u8>) -> Seq<u8> {
    Seq::new(MEMORY_SIZE as nat, |j: int| if SCREEN_MEMORY_START <= j { 0u8 } else { mem[j] })
}

/// The memory image after `V[0]..=V[x]` were stored at `base`.
pub open spec fn spec_regs_stored(mem: Seq<u8>, regs: Seq<u8>, base: int, x: int) -> Seq<u8> {
    Seq::new(
        MEMORY_SIZE as nat,
        |j: int| if base <= j <= base + x { regs[j - base] } else { mem[j] },
    )
}

/// The register file after `V[0]..=V[x]` were loaded from `base`.
pub open spec fn spec_regs_loaded(mem: Seq<u8>, regs: Seq<u8>, base: int, x: int) -> Seq<u8> {
    Seq::new(16, |j: int| if j <= x { mem[base + j] } else { regs[j] })
}

/// The memory image after a program was copied in at the program start.
pub open spec fn spec_loaded(mem: Seq<u8>, rom: Seq<u8>) -> Seq<u8> {
    Seq::new(
        MEMORY_SIZE as nat,
        |j: int| if MEMORY_START <= j < MEMORY_START + rom.len() {
            rom[j - MEMORY_START]
        } else {
            mem[j]
        },
    )
}

/// Drawing one sprite row, bit by bit: the first `j` of its eight pixels,
/// leftmost first, applied to `(mem, col)`.  A set sprite bit whose column
/// is on screen XORs the framebuffer bit of `(x0 + bit, cy)` and records a
/// collision if that bit was already set; clear bits and clipped columns
/// leave everything untouched.
pub open spec fn spec_draw_row_bits(
    mem: Seq<u8>,
    col: bool,
    sprite: u8,
    x0: int,
    cy: int,
    j: int,
) -> (Seq<u8>, bool)
    decreases j,
{
    if j <= 0 {
        (mem, col)
    } else {
        let r = spec_draw_row_bits(mem, col, sprite, x0, cy, j - 1);
        let cx = x0 + j - 1;
        if cx < SCREEN_WIDTH as int && sprite & (1u8 << ((8 - j) as u8)) != 0 {
            let idx = spec_fb_index(cx, cy);
            let mask = spec_px_mask(cx);
            (r.0.update(idx, r.0[idx] ^ mask), r.1 || r.0[idx] & mask != 0)
        } else {
            r
        }
    }
}

/// Drawing the first `k` rows of a sprite: row `i` reads its pattern byte
/// from `base + i` in the memory image *as already modified by the rows
/// before it* and paints screen row `y0 + i`; rows below the screen are
/// clipped.  The second component accumulates the collision flag.
pub open spec fn spec_draw_rows(
    mem: Seq<u8>,
    col: bool,
    x0: int,
    y0: int,
    base: int,
    k: int,
) -> (Seq<u8>, bool)
    decreases k,
{
    if k <= 0 {
        (mem, col)
    } else {
        let r = spec_draw_rows(mem, col, x0, y0, base, k - 1);
        let cy = y0 + k - 1;
        if cy < SCREEN_HEIGHT as int {
            spec_draw_row_bits(r.0, r.1, r.0[base + k - 1], x0, cy, 8)
        } else {
            r
        }
    }
}

/// How many sprite rows a draw at `y0` with height `n` actually processes
/// before vertical clipping stops it.
pub open spec fn spec_rows_drawn(y0: int, n: int) -> int {
    if y0 >= SCREEN_HEIGHT as int {
        0
    } else if n <= SCREEN_HEIGHT as int - y0 {
        n
    } else {
        SCREEN_HEIGHT as int - y0
    }
}

/// Whether every sprite byte a draw will read lies inside memory.
pub open spec fn spec_draw_in_bounds(base: int, y0: int, n: int) -> bool {
    spec_rows_drawn(y0, n) == 0 || base + spec_rows_drawn(y0, n) <= MEMORY_SIZE
}

/// The meaning of one decoded instruction on machine state `m`.  This is the
/// full opcode table; `spec_step` applies it to the fetched instruction.
pub open spec fn spec_exec(m: Chip8View, instr: Instr) -> StepResult {
    match instr {
        Instr::ClearDisplay => StepResult::Stepped(
            Chip8View { mem: spec_cleared_fb(m.mem), pc: m.pc + 2, ..m },
        ),
        Instr::Return => if m.sp + 2 > STACK_MEMORY_END as int {
            StepResult::Faulted(Fault::StackUnderflow)
        } else {
            StepResult::Stepped(
                Chip8View {
                    pc: 256 * (m.mem[m.sp] as int) + m.mem[m.sp + 1] as int,
                    sp: m.sp + 2,
                    ..m
                },
            )
        },
        Instr::Jump(nnn) => if nnn as int == m.pc {
            StepResult::Halted
        } else {
            StepResult::Stepped(Chip8View { pc: nnn as int, ..m })
        },
        Instr::Call(nnn) => if m.sp - 2 < STACK_MEMORY_START as int {
            StepResult::Faulted(Fault::StackOverflow)
        } else {
            StepResult::Stepped(
                Chip8View {
                    sp: m.sp - 2,
                    mem: m.mem.update(m.sp - 2, spec_hi_byte(m.pc + 2)).update(
                        m.sp - 1,
                        spec_lo_byte(m.pc + 2),
                    ),
                    pc: nnn as int,
                    ..m
                },
            )
        },
        Instr::SkipEqImm(x, nn) => StepResult::Stepped(
            Chip8View { pc: m.pc + (if m.regs[x as int] == nn { 4int } else { 2int }), ..m },
        ),
        Instr::SkipNeImm(x, nn) => StepResult::Stepped(
            Chip8View { pc: m.pc + (if m.regs[x as int] != nn { 4int } else { 2int }), ..m },
        ),
        Instr::SkipEqReg(x, y) => StepResult::Stepped(
            Chip8View {
                pc: m.pc + (if m.regs[x as int] == m.regs[y as int] { 4int } else { 2int }),
                ..m
            },
        ),
        Instr::MovImm(x, nn) => StepResult::Stepped(
            Chip8View { regs: m.regs.update(x as int, nn), pc: m.pc + 2, ..m },
        ),
        Instr::AddImm(x, nn) => StepResult::Stepped(
            Chip8View {
                regs: m.regs.update(x as int, ((m.regs[x as int] + nn) % 256) as u8),
                pc: m.pc + 2,
                ..m
            },
        ),
        Instr::MovReg(x, y) => StepResult::Stepped(
            Chip8View { regs: m.regs.update(x as int, m.regs[y as int]), pc: m.pc + 2, ..m },
        ),
        Instr::OrReg(x, y) => StepResult::Stepped(
            Chip8View {
                regs: m.regs.update(x as int, m.regs[x as int] | m.regs[y as int]),
                pc: m.pc + 2,
                ..m
            },
        ),
        Instr::AndReg(x, y) => StepResult::Stepped(
            Chip8View {
                regs: m.regs.update(x as int, m.regs[x as int] & m.regs[y as int]),
                pc: m.pc + 2,
                ..m
            },
        ),
        Instr::XorReg(x, y) => StepResult::Stepped(
            Chip8View {
                regs: m.regs.update(x as int, m.regs[x as int] ^ m.regs[y as int]),
                pc: m.pc + 2,
                ..m
            },
        ),
        Instr::AddReg(x, y) => {
            let s = m.regs[x as int] + m.regs[y as int];
            StepResult::Stepped(
                Chip8View {
                    regs: m.regs.update(x as int, (s % 256) as u8).update(
                        15,
                        if s >= 256 { 1u8 } else { 0u8 },
                    ),
                    pc: m.pc + 2,
                    ..m
                },
            )
        },
        Instr::SubReg(x, y) => {
            let a = m.regs[x as int];
            let b = m.regs[y as int];
            StepResult::Stepped(
                Chip8View {
                    regs: m.regs.update(x as int, ((a + 256 - b) % 256) as u8).update(
                        15,
                        if a >= b { 1u8 } else { 0u8 },
                    ),
                    pc: m.pc + 2,
                    ..m
                },
            )
        },
        Instr::ShrReg(x) => {
            let r1 = m.regs.update(15, m.regs[x as int] & 1);
            StepResult::Stepped(
                Chip8View {
                    regs: r1.update(x as int, r1[x as int] >> 1),
                    pc: m.pc + 2,
                    ..m
                },
            )
        },
        Instr::SubnReg(x, y) => {
            let a = m.regs[x as int];
            let b = m.regs[y as int];
            StepResult::Stepped(
                Chip8View {
                    regs: m.regs.update(x as int, ((b + 256 - a) % 256) as u8).update(
                        15,
                        if b >= a { 1u8 } else { 0u8 },
                    ),
                    pc: m.pc + 2,
                    ..m
                },
            )
        },
        Instr::ShlReg(x) => {
            let r1 = m.regs.update(15, m.regs[x as int] >> 7);
            StepResult::Stepped(
                Chip8View {
                    regs: r1.update(x as int, r1[x as int] << 1),
                    pc: m.pc + 2,
                    ..m
                },
            )
        },
        Instr::MovI(nnn) => StepResult::Stepped(Chip8View { i: nnn as int, pc: m.pc + 2, ..m }),
        Instr::Rand(x, nn) => {
            let s = spec_xorshift(m.seed);
            StepResult::Stepped(
                Chip8View {
                    regs: m.regs.update(x as int, spec_low_byte(s) & nn),
                    seed: s,
                    pc: m.pc + 2,
                    ..m
                },
            )
        },
        Instr::Draw(x, y, n) => {
            let x0 = m.regs[x as int] as int;
            let y0 = m.regs[y as int] as int;
            if !spec_draw_in_bounds(m.i, y0, n as int) {
                StepResult::Faulted(Fault::MemoryOutOfRange)
            } else {
                let r = spec_draw_rows(m.mem, false, x0, y0, m.i, n as int);
                StepResult::Stepped(
                    Chip8View {
                        mem: r.0,
                        regs: m.regs.update(15, if r.1 { 1u8 } else { 0u8 }),
                        pc: m.pc + 2,
                        ..m
                    },
                )
            }
        },
        Instr::AddToI(x) => StepResult::Stepped(
            Chip8View { i: (m.i + m.regs[x as int]) % 0x10000, pc: m.pc + 2, ..m },
        ),
        Instr::RegDump(x) => if m.i + x >= MEMORY_SIZE as int {
            StepResult::Faulted(Fault::MemoryOutOfRange)
        } else {
            StepResult::Stepped(
                Chip8View {
                    mem: spec_regs_stored(m.mem, m.regs, m.i, x as int),
                    pc: m.pc + 2,
                    ..m
                },
            )
        },
        Instr::RegLoad(x) => if m.i + x >= MEMORY_SIZE as int {
            StepResult::Faulted(Fault::MemoryOutOfRange)
        } else {
            StepResult::Stepped(
                Chip8View {
                    regs: spec_regs_loaded(m.mem, m.regs, m.i, x as int),
                    pc: m.pc + 2,
                    ..m
                },
            )
        },
        Instr::Unknown(b0, b1) => StepResult::Faulted(
            Fault::UnknownOpcode { b0, b1, pc: m.pc as usize },
        ),
    }
}

/// One fetch-decode-execute step: fetch the two bytes at `pc` (a fault if
/// there are not two readable bytes), decode them, and execute.
pub open spec fn spec_step(m: Chip8View) -> StepResult {
    if m.pc + 1 >= MEMORY_SIZE as int {
        StepResult::Faulted(Fault::PcOutOfRange)
    } else {
        spec_exec(m, spec_decode(m.mem[m.pc], m.mem[m.pc + 1]))
    }
}

pub proof fn lemma_draw_row_bits_len(
    mem: Seq<u8>,
    col: bool,
    sprite: u8,
    x0: int,
    cy: int,
    j: int,
)
    requires
        mem.len() == MEMORY_SIZE,
        0 <= x0,
        0 <= cy < SCREEN_HEIGHT as int,
    ensures
        spec_draw_row_bits(mem, col, sprite, x0, cy, j).0.len() == mem.len(),
    decreases j,
{
    if j > 0 {
        lemma_draw_row_bits_len(mem, col, sprite, x0, cy, j - 1);
    }
}

pub proof fn lemma_draw_rows_len(mem: Seq<u8>, col: bool, x0: int, y0: int, base: int, k: int)
    requires
        mem.len() == MEMORY_SIZE,
        0 <= x0,
        0 <= y0,
    ensures
        spec_draw_rows(mem, col, x0, y0, base, k).0.len() == mem.len(),
    decreases k,
{
    if k > 0 {
        lemma_draw_rows_len(mem, col, x0, y0, base, k - 1);
        let r = spec_draw_rows(mem, col, x0, y0, base, k - 1);
        if y0 + k - 1 < SCREEN_HEIGHT as int {
            lemma_draw_row_bits_len(r.0, r.1, r.0[base + k - 1], x0, y0 + k - 1, 8);
        }
    }
}

/// A step from a well-formed state only reaches well-formed states.
#[verifier::rlimit(30)]
pub proof fn lemma_step_wf(m: Chip8View)
    requires
        spec_wf(m),
    ensures
        match spec_step(m) {
            StepResult::Stepped(m1) => spec_wf(m1),
            _ => true,
        },
{
    if m.pc + 1 < MEMORY_SIZE as int {
        let b0 = m.mem[m.pc];
        let b1 = m.mem[m.pc + 1];
        crate::opcode::lemma_nib_bounds(b0);
        crate::opcode::lemma_nib_bounds(b1);
        crate::opcode::lemma_nnn_bound(b0, b1);
        match spec_decode(b0, b1) {
            Instr::Draw(x, y, n) => {
                let x0 = m.regs[x as int] as int;
                let y0 = m.regs[y as int] as int;
                if spec_draw_in_bounds(m.i, y0, n as int) {
                    lemma_draw_rows_len(m.mem, false, x0, y0, m.i, n as int);
                }
            },
            _ => {},
        }
    }
}

/// A run of at most `fuel` steps: step until a halt, a fault, or the budget
/// runs out.
pub open spec fn spec_run(m: Chip8View, fuel: nat) -> RunResult
    decreases fuel,
{
    if fuel == 0 {
        RunResult::Running(m)
    } else {
        match spec_step(m) {
            StepResult::Stepped(m1) => spec_run(m1, (fuel - 1) as nat),
            StepResult::Halted => RunResult::Halted(m),
            StepResult::Faulted(f) => RunResult::Faulted(m, f),
        }
    }
}

} // verus!
