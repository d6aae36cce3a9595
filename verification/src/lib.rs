//! A verified core for an 8-bit virtual machine with a fixed, historical
//! instruction set: a 4096-byte memory, a 16-entry register file, a 16-deep
//! call stack, a 64x32 monochrome framebuffer with dirty-cell tracking, two
//! countdown timers, and a single-slot key latch.
//!
//! The machine is driven one cycle at a time by an external caller; every
//! instruction's effect on the machine state is stated as a contract and
//! proved.


pub mod isa;
pub mod chip;
pub mod cpu;
pub mod display;
pub mod ram;
pub mod stack;
