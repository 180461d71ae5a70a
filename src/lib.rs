//! The core of a CHIP-8 style virtual machine: an instruction decoder, the
//! machine state, the fetch-advance-execute cycle and an XOR sprite blitter
//! with collision detection over a 64 by 32 monochrome framebuffer.
//!
//! Two choices are made where the instruction set leaves room: only the
//! exact word `00E0` decodes as the clear-screen instruction (other words
//! with a top nibble of zero are rejected), and register addition wraps
//! modulo 256.

pub mod instruction;
pub mod chip8;
pub mod frame;
