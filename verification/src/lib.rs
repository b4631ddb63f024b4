//! A virtual-machine core for a small fixed-width bytecode architecture:
//! two-byte big-endian instruction words are fetched from a byte-addressable
//! memory image, decoded against a fixed nibble-packed encoding, and executed
//! against a machine state of sixteen 8-bit registers, a 16-bit index
//! register, a call stack, a 4096-byte memory, and a 64 x 32 monochrome
//! pixel grid.

pub mod bits;
pub mod driver;
pub mod isa;
pub mod machine;
pub mod screen;
