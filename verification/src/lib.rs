//! Assembler for the NZM 32-bit instruction set.
//!
//! The library turns a textual source program into a flat big-endian binary:
//! a 4-byte entry-point header (the byte address of the label `main`) followed
//! by the assembled instruction stream.  Ordinary instructions occupy exactly
//! four bytes; inlined string literals occupy their UTF-8 length plus a
//! terminating NUL byte.
//!
//! The pipeline is: a character-stream tokenizer ([`word`]) producing
//! classified words, a line assembler ([`line`]) validating operand shapes,
//! and a driver ([`assembler`]) that maintains the label table ([`labels`]),
//! resolves label addresses in a second pass, and emits the binary.

pub mod assembler;
pub mod errors;
pub mod labels;
pub mod line;
pub mod op_codes;
pub mod pre_processor;
pub mod registers;
pub mod stack;
pub mod word;
