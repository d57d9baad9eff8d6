//! A bounded interpreter for the eight-operator tape language: a jump table
//! computed from the bracket structure, then a step-limited run over a
//! fixed-size byte tape.

pub mod error;
pub mod interpreter;
pub mod laws;
pub mod semantics;

pub use error::BrainfuckError;
pub use interpreter::{brainfuck, BrainfuckInterpreter, MAX_STEPS, TAPE_SIZE};
