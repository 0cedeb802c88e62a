//! The translator: from virtual machine commands to Hack assembly.
//!
//! [`parser`] reads commands, [`resolver`] plans how a segment cell is
//! reached, [`labels`] issues the internal labels, [`emission`] says which
//! lines each command lowers to, [`code_writer`] writes them, and
//! [`driver`] runs over the units of a program. [`semantics`] gives the
//! lines their meaning on the machine model, and [`laws`] states what
//! follows for every command.

pub mod code_writer;
pub mod command;
pub mod driver;
pub mod emission;
pub mod labels;
pub mod laws;
pub mod parser;
pub mod resolver;
pub mod semantics;
