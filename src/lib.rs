//! An interpreter for the Universal Machine: a 32-bit register machine that
//! runs a program of instruction words over a table of memory segments.
pub mod decoder;
pub mod fault;
pub mod machine;
pub mod segments;
pub mod words;

pub use decoder::{decode, Instruction};
pub use fault::Fault;
pub use machine::{Action, Machine, RunEnd, END_OF_INPUT};
pub use words::{buffer_to_platter, platters_from_bytes};
