//! The assembler: from Hack assembly text to 16-bit machine words.
//!
//! [`code`] holds the tables of the instruction set, [`symbol_table`] the
//! symbols of a program, [`parser`] reads its lines, and [`program`]
//! assembles it in two passes. [`decode`] states what the bits of the
//! tables mean to the computer, and [`round_trip`] what the assembler
//! reads in the text of a line.

pub mod code;
pub mod decode;
pub mod parser;
pub mod program;
pub mod symbol_table;
pub mod round_trip;
