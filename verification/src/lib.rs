//! A verified Intcode virtual machine: programs are flat sequences of signed
//! integer cells holding opcodes and mode-qualified parameters.  The engine
//! in [`engine`] executes the full nine-opcode instruction set over growable
//! memory with a relative base and can suspend on exhausted input and resume;
//! its behaviour is specified by the small-step semantics in [`semantics`],
//! together with the machine's determinism and the law that suspension loses
//! nothing.  [`arith`] holds the two-opcode arithmetic subset, [`decode`]
//! a standalone parameter decoder for fixed memory images, and [`fuel`] the
//! mass-to-fuel arithmetic.

pub mod arith;
pub mod decode;
pub mod engine;
pub mod fuel;
pub mod semantics;
