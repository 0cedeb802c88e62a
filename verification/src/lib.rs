//! A two-stage toolchain for the Hack platform: a translator from the
//! stack-based virtual machine language to Hack assembly, and an assembler
//! from Hack assembly to 16-bit machine words.
//!
//! - [`vm`] is the translator: a parser of commands, a resolver of segment
//!   addresses, an allocator of labels, a code writer that lowers each
//!   command to assembly lines, and a driver over the units of a program.
//!   Its laws state what the lines of each command do when the computer
//!   runs them.
//! - [`assembler`] is the assembler: the tables of the instruction set, a
//!   symbol table, a parser of assembly lines, and the two passes over a
//!   program. Its laws hold the tables to the computer.
//! - [`assembly`] is the model of a line of assembly, which the translator
//!   writes, and its text, which the assembler reads.
//! - [`machine`] is the mathematical model of the computer that the laws
//!   speak of.
//! - [`text`] holds what both stages need of text: words, numerals,
//!   comments.
//! - [`toolchain`] joins the two stages: its laws say that the words that
//!   the assembler writes for lines such as the translator writes run as
//!   the machine model runs the lines.

pub mod assembler;
pub mod assembly;
pub mod machine;
pub mod text;
pub mod toolchain;
pub mod vm;
