//! Numeric series built by folding a fixed list of arithmetic instructions
//! over a running value, starting from a seed.
//!
//! An instruction is written as a one-character operator (`+ - * /`)
//! followed by a decimal number literal, as in `+3`, `*2` or `-1.5e2`.

pub mod instruction;
pub mod series;

pub use instruction::{get_operations, is_float_literal, Instruction, Operation, ParseError};
pub use series::{apply_all, series};
