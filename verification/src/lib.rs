//! Extraction of an opcode table from the cells of an instruction-set
//! reference page: a small cell grammar, operand normalisation, timing
//! decoding, and the position and colour rules that give each opcode its
//! number and its immediate-operand width.

pub mod fatal;
pub mod grammar;
pub mod grid;
pub mod number;
pub mod operand;
pub mod outside;
pub mod replace;
pub mod table;
pub mod text;
pub mod time;
