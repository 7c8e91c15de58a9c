//! A verified CHIP-8 interpreter core: a flat byte memory, a 16-key matrix,
//! a monochrome XOR-plotted screen buffer, an opcode decoder, and the machine
//! that fetches, decodes and executes instructions one step at a time.
//!
//! The presentation layer (window, rendering, raw input events) is a host
//! concern: it pushes key state in through `Chip8::set_key` / `Chip8::unset_key`
//! and reads pixels back out through `Chip8::screen_buffer`.

pub mod chip8;
pub mod keys;
pub mod mem;
mod rng;
pub mod rom;
pub mod opcode;
pub mod screen_buffer;

use vstd::prelude::*;

verus! {

/// Everything that can go fatally wrong while loading or running a program.
///
/// All of these are unrecoverable for the running machine: they mean the
/// interpreted program is malformed or the interpreter reached a state it
/// cannot continue from. The host decides whether to abort or start over.
#[derive(Clone, Copy, Debug, PartialEq, Eq, Structural)]
pub enum Chip8Error {
    /// The fetched 16-bit word matches no instruction pattern; carries the
    /// word and the program counter it was fetched from.
    DecodeError { word: u16, pc: u16 },
    /// A memory access outside 0x000..=0xFFF; carries the offending address.
    MemoryBoundsError { addr: u16 },
    /// A subroutine call at full stack depth (16 nested calls).
    StackOverflow,
    /// A return with an empty call stack.
    StackUnderflow,
    /// A bulk load (ROM or font) that would run past the end of memory.
    LoadError,
}

} // verus!
