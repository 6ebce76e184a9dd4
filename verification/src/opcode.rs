//! Decoding of raw two-byte CHIP-8 instructions into their nibble fields and
//! into a structured instruction.

use vstd::prelude::*;

verus! {

/// A raw instruction: the two bytes fetched from memory at the program counter.
#[derive(Clone, Copy, Debug)]
pub struct Opcode(pub u8, pub u8);

/// The instruction set, as decoded from a raw two-byte opcode.
///
/// Register operands are 4-bit indices into the sixteen `V` registers,
/// immediates are the 4-, 8- or 12-bit fields of the encoding.  Every bit
/// pattern decodes to some variant; patterns outside the implemented set
/// decode to `Unknown`, which carries the offending bytes.
#[derive(Clone, Copy, Debug, PartialEq, Eq, Structural)]
pub enum Instr {
    /// `00E0`: clear the framebuffer.
    ClearDisplay,
    /// `00EE`: return from a subroutine.
    Return,
    /// `1NNN`: jump to `nnn`.
    Jump(u16),
    /// `2NNN`: call the subroutine at `nnn`.
    Call(u16),
    /// `3XNN`: skip the next instruction if `V[x] == nn`.
    SkipEqImm(u8, u8),
    /// `4XNN`: skip the next instruction if `V[x] != nn`.
    SkipNeImm(u8, u8),
    /// `5XY0`: skip the next instruction if `V[x] == V[y]`.
    SkipEqReg(u8, u8),
    /// `6XNN`: `V[x] = nn`.
    MovImm(u8, u8),
    /// `7XNN`: `V[x] += nn`, wrapping, flags untouched.
    AddImm(u8, u8),
    /// `8XY0`: `V[x] = V[y]`.
    MovReg(u8, u8),
    /// `8XY1`: `V[x] |= V[y]`.
    OrReg(u8, u8),
    /// `8XY2`: `V[x] &= V[y]`.
    AndReg(u8, u8),
    /// `8XY3`: `V[x] ^= V[y]`.
    XorReg(u8, u8),
    /// `8XY4`: `V[x] += V[y]`, `VF` = carry.
    AddReg(u8, u8),
    /// `8XY5`: `V[x] -= V[y]`, `VF` = 1 if no borrow.
    SubReg(u8, u8),
    /// `8XY6`: `VF` = low bit of `V[x]`, then `V[x] >>= 1`.
    ShrReg(u8),
    /// `8XY7`: `V[x] = V[y] - V[x]`, `VF` = 1 if no borrow.
    SubnReg(u8, u8),
    /// `8XYE`: `VF` = high bit of `V[x]`, then `V[x] <<= 1`.
    ShlReg(u8),
    /// `ANNN`: `I = nnn`.
    MovI(u16),
    /// `CXNN`: `V[x]` = next pseudo-random byte masked with `nn`.
    Rand(u8, u8),
    /// `DXYN`: draw the `n`-row sprite at `I` to `(V[x], V[y])`.
    Draw(u8, u8, u8),
    /// `FX1E`: `I += V[x]`, wrapping, flags untouched.
    AddToI(u8),
    /// `FX55`: store `V[0]..=V[x]` to memory at `I`.
    RegDump(u8),
    /// `FX65`: load `V[0]..=V[x]` from memory at `I`.
    RegLoad(u8),
    /// Any pattern with no defined semantics; executing it is fatal.
    Unknown(u8, u8),
}

/// The high four bits of a byte.
pub open spec fn spec_high_nib(b: u8) -> u8 {
    b >> 4
}

/// The low four bits of a byte.
pub open spec fn spec_low_nib(b: u8) -> u8 {
    b & 0x0f
}

/// The 12-bit address immediate of an instruction.
pub open spec fn spec_nnn(b0: u8, b1: u8) -> u16 {
    ((spec_low_nib(b0) as u16) << 8) | (b1 as u16)
}

pub proof fn lemma_nib_bounds(b: u8)
    ensures
        spec_high_nib(b) < 16,
        spec_low_nib(b) < 16,
{
    assert(b >> 4 < 16) by (bit_vector);
    assert(b & 0x0f < 16) by (bit_vector);
}

pub proof fn lemma_nnn_bound(b0: u8, b1: u8)
    ensures
        spec_nnn(b0, b1) < 0x1000,
{
    assert((((b0 & 0x0f) as u16) << 8) | (b1 as u16) < 0x1000) by (bit_vector);
}

/// Decode a raw two-byte instruction.  Total: every pattern maps to a
/// variant, undefined ones to `Unknown`.
pub open spec fn spec_decode(b0: u8, b1: u8) -> Instr {
    let x = spec_low_nib(b0);
    let y = spec_high_nib(b1);
    let n = spec_low_nib(b1);
    let nnn = spec_nnn(b0, b1);
    match spec_high_nib(b0) {
        0x00 => match b1 {
            0xe0 => Instr::ClearDisplay,
            0xee => Instr::Return,
            _ => Instr::Unknown(b0, b1),
        },
        0x01 => Instr::Jump(nnn),
        0x02 => Instr::Call(nnn),
        0x03 => Instr::SkipEqImm(x, b1),
        0x04 => Instr::SkipNeImm(x, b1),
        0x05 => Instr::SkipEqReg(x, y),
        0x06 => Instr::MovImm(x, b1),
        0x07 => Instr::AddImm(x, b1),
        0x08 => match n {
            0x0 => Instr::MovReg(x, y),
            0x1 => Instr::OrReg(x, y),
            0x2 => Instr::AndReg(x, y),
            0x3 => Instr::XorReg(x, y),
            0x4 => Instr::AddReg(x, y),
            0x5 => Instr::SubReg(x, y),
            0x6 => Instr::ShrReg(x),
            0x7 => Instr::SubnReg(x, y),
            0xe => Instr::ShlReg(x),
            _ => Instr::Unknown(b0, b1),
        },
        0x0a => Instr::MovI(nnn),
        0x0c => Instr::Rand(x, b1),
        0x0d => Instr::Draw(x, y, n),
        0x0f => match b1 {
            0x1e => Instr::AddToI(x),
            0x55 => Instr::RegDump(x),
            0x65 => Instr::RegLoad(x),
            _ => Instr::Unknown(b0, b1),
        },
        _ => Instr::Unknown(b0, b1),
    }
}

impl Opcode {
    /// The opcode family selector: the high nibble of the first byte.
    pub fn high_nib(byte: u8) -> (r: u8)
        ensures
            r == spec_high_nib(byte),
    {
        byte >> 4
    }

    pub fn low_nib(byte: u8) -> (r: u8)
        ensures
            r == spec_low_nib(byte),
    {
        byte & 0x0f
    }

    /// First register operand; a `usize` since it only indexes the `V` registers.
    pub fn x(&self) -> (r: usize)
        ensures
            r == spec_low_nib(self.0) as usize,
            r < 16,
    {
        proof {
            lemma_nib_bounds(self.0);
        }
        Opcode::low_nib(self.0) as usize
    }

    /// Second register operand; a `usize` since it only indexes the `V` registers.
    pub fn y(&self) -> (r: usize)
        ensures
            r == spec_high_nib(self.1) as usize,
            r < 16,
    {
        proof {
            lemma_nib_bounds(self.1);
        }
        Opcode::high_nib(self.1) as usize
    }

    /// The 4-bit immediate.
    pub fn n(&self) -> (r: u8)
        ensures
            r == spec_low_nib(self.1),
            r < 16,
    {
        proof {
            lemma_nib_bounds(self.1);
        }
        Opcode::low_nib(self.1)
    }

    /// The 12-bit address immediate.
    pub fn nnn(&self) -> (r: u16)
        ensures
            r == spec_nnn(self.0, self.1),
            r < 0x1000,
    {
        proof {
            lemma_nnn_bound(self.0, self.1);
        }
        ((Opcode::low_nib(self.0) as u16) << 8) | (self.1 as u16)
    }

    /// Decode this opcode into a structured instruction.
    pub fn disassemble(&self) -> (r: Instr)
        ensures
            r == spec_decode(self.0, self.1),
    {
        let x = Opcode::low_nib(self.0);
        let y = Opcode::high_nib(self.1);
        let n = Opcode::low_nib(self.1);
        match Opcode::high_nib(self.0) {
            0x00 => match self.1 {
                0xe0 => Instr::ClearDisplay,
                0xee => Instr::Return,
                _ => Instr::Unknown(self.0, self.1),
            },
            0x01 => Instr::Jump(self.nnn()),
            0x02 => Instr::Call(self.nnn()),
            0x03 => Instr::SkipEqImm(x, self.1),
            0x04 => Instr::SkipNeImm(x, self.1),
            0x05 => Instr::SkipEqReg(x, y),
            0x06 => Instr::MovImm(x, self.1),
            0x07 => Instr::AddImm(x, self.1),
            0x08 => match n {
                0x0 => Instr::MovReg(x, y),
                0x1 => Instr::OrReg(x, y),
                0x2 => Instr::AndReg(x, y),
                0x3 => Instr::XorReg(x, y),
                0x4 => Instr::AddReg(x, y),
                0x5 => Instr::SubReg(x, y),
                0x6 => Instr::ShrReg(x),
                0x7 => Instr::SubnReg(x, y),
                0xe => Instr::ShlReg(x),
                _ => Instr::Unknown(self.0, self.1),
            },
            0x0a => Instr::MovI(self.nnn()),
            0x0c => Instr::Rand(x, self.1),
            0x0d => Instr::Draw(x, y, n),
            0x0f => match self.1 {
                0x1e => Instr::AddToI(x),
                0x55 => Instr::RegDump(x),
                0x65 => Instr::RegLoad(x),
                _ => Instr::Unknown(self.0, self.1),
            },
            _ => Instr::Unknown(self.0, self.1),
        }
    }
}

} // verus!
