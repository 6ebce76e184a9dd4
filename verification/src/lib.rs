//! A verified CHIP-8 virtual machine.
//!
//! The machine fetches two-byte instructions from a flat 4k memory image
//! that holds the loaded program, the call stack and the memory-mapped
//! monochrome framebuffer in disjoint ranges, decodes them against the
//! fixed instruction set, and mutates its state — sixteen 8-bit registers,
//! the address register `I`, a stack pointer, a program counter and a
//! 64-bit xorshift generator — one step at a time.
//!
//! The meaning of a step is written down once, as the spec function
//! `semantics::spec_step`, and the engine in `chip8` is proved to follow it
//! exactly: every successor state, every controlled halt on a self-jump,
//! and every fatal condition (unknown opcodes, stack discipline violations,
//! transfers past the end of memory).  The laws in `laws` — what single
//! opcodes do, the call/return and store/load round trips, what a sprite
//! draw does pixel by pixel, XOR self-cancellation and clipping, and the
//! determinism of the random opcode — are proved from that same semantics.
//!
//! Drawing is mirrored to a `screen::Screen`, a presentation surface with
//! no authority: the framebuffer bits in memory remain the single source of
//! truth.

pub mod chip8;
pub mod laws;
pub mod opcode;
pub mod screen;
pub mod semantics;
