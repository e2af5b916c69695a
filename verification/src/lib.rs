//! An emulator core for the LC-3 instructional 16-bit computer.
//!
//! The crate models the machine's register file, its 65536-word memory
//! (including the two memory-mapped keyboard registers), the instruction
//! decoder and the executor with its trap routines, together with a loader
//! that places a big-endian program image into memory.  Host concerns —
//! reading the image file, raw terminal input, command-line handling — stay
//! outside; the core reaches the keyboard only through a capability trait
//! and the console only through narrow output shims.

pub mod bits;
pub mod instruction;
pub mod keyboard;
pub mod memory;
pub mod registers;
pub mod vm;
