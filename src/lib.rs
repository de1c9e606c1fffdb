//! A tape machine for the eight-symbol esoteric language: a scanner, a compiler that
//! resolves bracket pairs to jump addresses, and a machine that suspends for I/O.
pub mod token;
pub mod program;
pub mod virtualmachine;
pub mod interpreter;
