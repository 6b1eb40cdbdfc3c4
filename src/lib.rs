//! A single-pass bytecode compiler and stack virtual machine for a small
//! expression language of the Lox family.
//!
//! - `value`: runtime values, and what the language's operators decide of them.
//! - `chunk`: bytecode chunks, and the stack depth that straight-line code keeps.
//! - `scanner`: source text to tokens, one token per call.
//! - `parser`: precedence levels and the parse table.
//! - `compiler`: the Pratt parser that emits code as it parses, with a model
//!   of the whole compilation as a function of the source.
//! - `vm`: the machine that runs a chunk, and `interpret`.
//! - `debug`: decoding a chunk for a disassembly listing.
//! - `report`: the text of diagnostics.
//!
//! Numbers are IEEE-754 doubles carried as their 64-bit patterns: the library
//! decides everything about them that their bits settle (sign, ordering,
//! equality, negation), and takes the rest (reading a numeral, the four
//! arithmetic operations) from the caller as plain functions on bit patterns.
pub mod value;
pub mod chunk;
pub mod scanner;
pub mod report;
pub mod parser;
pub mod compiler;
pub mod vm;
pub mod debug;
